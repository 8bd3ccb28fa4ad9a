//! Model shape, its admission rules, and the memory it is allowed to take.
use vstd::prelude::*;
use vstd::string::*;
use crate::text::push_decimal;
use crate::tokenizer::{BpeTokenizer, MIN_VOCAB};

verus! {

pub const MAX_CONTEXT_LEN: usize = 32_768;

/// Default process budget. Leaving headroom is essential on unified memory:
/// the window server, the graphics driver and the file cache need room too.
pub const DEFAULT_MEMORY_BUDGET_BYTES: u64 = 4_294_967_296;

pub const DEFAULT_HEAD_SIZE: usize = 16;

const COMMAND_SLACK_BYTES: usize = 33_554_432;

/// Conservative activation-checkpoint reuse (four named layer snapshots).
const CHECKPOINT_LAYERS: usize = 4;

const FP16_BYTES: usize = 2;

const FP32_BYTES: usize = 4;

#[derive(Clone, Copy, Debug, PartialEq, Eq, Structural)]
pub enum Architecture {
    Heron,
    RosaRwkv7,
}

impl Default for Architecture {
    fn default() -> (a: Self)
        ensures
            a == Architecture::Heron,
    {
        Architecture::Heron
    }
}

#[derive(Clone, Copy, Debug, PartialEq, Eq, Structural)]
pub enum RosaGradMode {
    StopGradBits,
    ExactBitflip,
    SteSign,
}

impl Default for RosaGradMode {
    fn default() -> (m: Self)
        ensures
            m == RosaGradMode::StopGradBits,
    {
        RosaGradMode::StopGradBits
    }
}

/// Why a configuration was turned away.
#[derive(Clone, Copy, Debug, PartialEq, Eq, Structural)]
pub enum ConfigError {
    EmptyModel,
    VocabTooSmall { least: usize },
    ContextLength,
    BatchSize,
    RosaBits,
    HeadSize,
    DimFfn,
    LoraRank,
    HeadMultiple,
    ContextMultiple,
    SizeOverflow,
    PackedOverflow,
    BitplaneOverflow,
    OverBudget { mib: u64 },
}

impl ConfigError {
    /// The message shown to the user.
    pub open spec fn message(self) -> Seq<char> {
        match self {
            ConfigError::EmptyModel => "d_model and n_layers must be non-zero"@,
            ConfigError::VocabTooSmall { least } => "vocab_size must be at least "@
                + crate::text::decimal(least as nat),
            ConfigError::ContextLength => "context_len must be in 1..=32768"@,
            ConfigError::BatchSize => "batch_size must be positive"@,
            ConfigError::RosaBits =>
                "rosa_bits must be 1 in Ullis 0.10 (4-bit ROSA is post-0.10)"@,
            ConfigError::HeadSize => "head_size must be 16"@,
            ConfigError::DimFfn => "dim_ffn must be positive"@,
            ConfigError::LoraRank => "tmix_lora_rank must be 8 or 16"@,
            ConfigError::HeadMultiple =>
                "rosa_rwkv7 requires d_model to be a multiple of head_size"@,
            ConfigError::ContextMultiple =>
                "rosa_rwkv7 requires context_len to be a multiple of 16"@,
            ConfigError::SizeOverflow => "model size overflow"@,
            ConfigError::PackedOverflow => "packed bitplane size overflow"@,
            ConfigError::BitplaneOverflow => "QKV bitplane size overflow"@,
            ConfigError::OverBudget { mib } => "configuration needs more than the "@
                + crate::text::decimal(mib as nat)
                + " MiB memory budget; reduce d_model, layers, batch_size, or context_len"@,
        }
    }

    /// The message shown to the user.
    pub fn to_string(&self) -> (text: String)
        ensures
            text@ == self.message(),
    {
        match *self {
            ConfigError::EmptyModel => "d_model and n_layers must be non-zero".to_owned(),
            ConfigError::VocabTooSmall { least } => {
                let mut text = "vocab_size must be at least ".to_owned();
                push_decimal(&mut text, least as u64);
                text
            },
            ConfigError::ContextLength => "context_len must be in 1..=32768".to_owned(),
            ConfigError::BatchSize => "batch_size must be positive".to_owned(),
            ConfigError::RosaBits =>
                "rosa_bits must be 1 in Ullis 0.10 (4-bit ROSA is post-0.10)".to_owned(),
            ConfigError::HeadSize => "head_size must be 16".to_owned(),
            ConfigError::DimFfn => "dim_ffn must be positive".to_owned(),
            ConfigError::LoraRank => "tmix_lora_rank must be 8 or 16".to_owned(),
            ConfigError::HeadMultiple =>
                "rosa_rwkv7 requires d_model to be a multiple of head_size".to_owned(),
            ConfigError::ContextMultiple =>
                "rosa_rwkv7 requires context_len to be a multiple of 16".to_owned(),
            ConfigError::SizeOverflow => "model size overflow".to_owned(),
            ConfigError::PackedOverflow => "packed bitplane size overflow".to_owned(),
            ConfigError::BitplaneOverflow => "QKV bitplane size overflow".to_owned(),
            ConfigError::OverBudget { mib } => {
                let mut text = "configuration needs more than the ".to_owned();
                push_decimal(&mut text, mib);
                text.append(
                    " MiB memory budget; reduce d_model, layers, batch_size, or context_len",
                );
                text
            },
        }
    }
}

/// Overflow-checked upper bounds used before allocation.
#[derive(Clone, Copy, Debug, PartialEq, Eq, Structural)]
pub struct MemoryEstimate {
    pub embedding: usize,
    pub packed_bits_and_scales: usize,
    pub fp16_matrices: usize,
    pub ln_and_vec: usize,
    pub act_checkpoints: usize,
    pub qkv_bitplanes: usize,
    pub rosa_sam_peak: usize,
    pub packed_latents: usize,
    pub binaryconnect_workspace: usize,
    pub ce_scratch: usize,
    pub wkv_tape: usize,
    pub bwd_rosa_scratch: usize,
    pub command_slack: usize,
    /// FP32 error-diffusion carry for every resident FP16 parameter, including
    /// BinaryConnect latents.
    pub sgd_residual: usize,
}

impl MemoryEstimate {
    /// Sum of all regions, without bound.
    pub open spec fn total(self) -> int {
        self.embedding + self.packed_bits_and_scales + self.fp16_matrices + self.ln_and_vec
            + self.act_checkpoints + self.qkv_bitplanes + self.rosa_sam_peak + self.packed_latents
            + self.binaryconnect_workspace + self.ce_scratch + self.wkv_tape
            + self.bwd_rosa_scratch + self.command_slack + self.sgd_residual
    }

    /// Sum of all regions; `None` when it does not fit in a `usize`.
    pub fn peak(self) -> (sum: Option<usize>)
        ensures
            sum is Some <==> self.total() <= usize::MAX,
            sum matches Some(n) ==> n == self.total(),
    {
        let a: usize = self.embedding.checked_add(self.packed_bits_and_scales)?;
        let b: usize = a.checked_add(self.fp16_matrices)?;
        let c: usize = b.checked_add(self.ln_and_vec)?;
        let d: usize = c.checked_add(self.act_checkpoints)?;
        let e: usize = d.checked_add(self.qkv_bitplanes)?;
        let f: usize = e.checked_add(self.rosa_sam_peak)?;
        let g: usize = f.checked_add(self.packed_latents)?;
        let h: usize = g.checked_add(self.binaryconnect_workspace)?;
        let i: usize = h.checked_add(self.ce_scratch)?;
        let j: usize = i.checked_add(self.wkv_tape)?;
        let k: usize = j.checked_add(self.bwd_rosa_scratch)?;
        let l: usize = k.checked_add(self.command_slack)?;
        l.checked_add(self.sgd_residual)
    }
}

#[derive(Clone, Copy, Debug, PartialEq, Eq, Structural)]
pub struct TrainConfig {
    pub architecture: Architecture,
    pub d_model: usize,
    pub n_layers: usize,
    pub vocab_size: usize,
    pub context_len: usize,
    pub batch_size: usize,
    /// Hidden width of CMix. Zero means `4 * d_model`.
    pub dim_ffn: usize,
    pub rosa_bits: u8,
    pub rosa_grad: RosaGradMode,
    pub head_size: usize,
    pub tmix_lora_rank: usize,
    pub seed: u64,
    pub memory_budget_bytes: u64,
}

/// The shipped profile.
pub open spec fn default_config() -> TrainConfig {
    TrainConfig {
        architecture: Architecture::Heron,
        d_model: 256,
        n_layers: 6,
        vocab_size: 8192,
        context_len: 2_048,
        batch_size: 1,
        dim_ffn: 1_024,
        rosa_bits: 1,
        rosa_grad: RosaGradMode::StopGradBits,
        head_size: DEFAULT_HEAD_SIZE,
        tmix_lora_rank: 16,
        seed: 7,
        memory_budget_bytes: DEFAULT_MEMORY_BUDGET_BYTES,
    }
}

impl Default for TrainConfig {
    fn default() -> (cfg: Self)
        ensures
            cfg == default_config(),
    {
        TrainConfig {
            architecture: Architecture::Heron,
            d_model: 256,
            n_layers: 6,
            vocab_size: 8192,
            context_len: 2_048,
            batch_size: 1,
            dim_ffn: 1_024,
            rosa_bits: 1,
            rosa_grad: RosaGradMode::StopGradBits,
            head_size: DEFAULT_HEAD_SIZE,
            tmix_lora_rank: 16,
            seed: 7,
            memory_budget_bytes: DEFAULT_MEMORY_BUDGET_BYTES,
        }
    }
}

/// The default profile for a vocabulary.
pub fn default_train_config(vocab_size: usize) -> (cfg: TrainConfig)
    ensures
        cfg == (TrainConfig { vocab_size, ..default_config() }),
{
    let mut cfg = TrainConfig::default();
    cfg.vocab_size = vocab_size;
    cfg
}

/// A profile that trains a step in moments.
pub fn smoke_config(vocab_size: usize) -> (cfg: TrainConfig)
    ensures
        cfg == (TrainConfig {
            d_model: 16,
            n_layers: 1,
            vocab_size,
            context_len: 32,
            dim_ffn: 64,
            tmix_lora_rank: 8,
            ..default_config()
        }),
{
    let mut cfg = TrainConfig::default();
    cfg.d_model = 16;
    cfg.n_layers = 1;
    cfg.vocab_size = vocab_size;
    cfg.context_len = 32;
    cfg.dim_ffn = 64;
    cfg.tmix_lora_rank = 8;
    cfg
}

/// `n` fits in a `usize`.
pub open spec fn fits(n: int) -> bool {
    n <= usize::MAX
}

/// The larger of two sizes.
pub open spec fn larger(a: int, b: int) -> int {
    if a >= b {
        a
    } else {
        b
    }
}

/// The quantities behind the memory estimate, as unbounded integers.
impl TrainConfig {
    /// CMix width after the zero default is resolved.
    pub open spec fn ffn_width(self) -> int {
        if self.dim_ffn != 0 {
            self.dim_ffn as int
        } else if 4 * self.d_model <= usize::MAX {
            4 * self.d_model
        } else {
            usize::MAX as int
        }
    }

    /// Low-rank width after the zero default is resolved.
    pub open spec fn lora_rank(self) -> int {
        if self.tmix_lora_rank != 0 {
            self.tmix_lora_rank as int
        } else if self.d_model <= 64 {
            8
        } else {
            16
        }
    }

    pub open spec fn rows(self) -> int {
        self.batch_size * self.context_len
    }

    pub open spec fn square(self) -> int {
        self.d_model * self.d_model
    }

    pub open spec fn ffn_matrix(self) -> int {
        self.ffn_width() * self.d_model
    }

    pub open spec fn head_matrix(self) -> int {
        self.vocab_size * self.d_model
    }

    /// Weights held as one bit each: Q, K, V, O and the CMix key of every
    /// layer, and the output head.
    pub open spec fn packed_weights(self) -> int {
        self.n_layers * (4 * self.square() + self.ffn_matrix()) + self.head_matrix()
    }

    /// Bytes of the packed bitplanes, in whole words.
    pub open spec fn packed_bits(self) -> int {
        (self.packed_weights() + 31) / 32 * 4
    }

    /// Q/K/V/O scales, CMix-key scales and head scales.
    pub open spec fn scale_rows(self) -> int {
        self.n_layers * (4 * self.d_model) + self.n_layers * self.ffn_width() + self.vocab_size
    }

    pub open spec fn bias_rows(self) -> int {
        self.n_layers * (4 * self.d_model)
    }

    pub open spec fn heads(self) -> int {
        self.d_model as int / self.head_size as int
    }

    /// FP16 elements of one time-mix block.
    pub open spec fn tmix(self) -> int {
        (6 * self.d_model + 8 * (self.d_model * self.lora_rank())) + ((5 * self.d_model
            + self.heads() * self.head_size) + 4 * self.square())
    }

    pub open spec fn matrix_elements(self) -> int {
        self.n_layers * self.ffn_matrix()
    }

    pub open spec fn matrix_bytes(self) -> int {
        if self.architecture == Architecture::RosaRwkv7 {
            self.matrix_elements() * 2 + (self.n_layers * self.tmix()) * 2
        } else {
            self.matrix_elements() * 2
        }
    }

    /// First-layer and output norms, the per-layer norms, the time-shift
    /// mixes and the CMix shift.
    pub open spec fn vector_elements(self) -> int {
        ((2 * self.d_model + self.n_layers * (4 * self.d_model)) + self.n_layers * (4
            * self.d_model)) + self.n_layers * self.d_model
    }

    pub open spec fn layer_activations(self) -> int {
        12 * (self.rows() * self.d_model)
    }

    pub open spec fn sam_peak(self) -> int {
        40 * (self.context_len * self.d_model)
    }

    pub open spec fn largest_matrix(self) -> int {
        larger(larger(self.square(), self.ffn_matrix()), self.head_matrix())
    }

    pub open spec fn chunks(self) -> int {
        (self.context_len + 15) / 16
    }

    pub open spec fn tape_state(self) -> int {
        ((self.batch_size * self.heads()) * self.chunks()) * (self.head_size * self.head_size)
    }

    pub open spec fn tape_sa(self) -> int {
        ((self.batch_size * self.context_len) * self.heads()) * self.head_size
    }

    pub open spec fn tape_bytes(self) -> int {
        if self.architecture == Architecture::RosaRwkv7 {
            (self.tape_state() + self.tape_sa()) * 4
        } else {
            0
        }
    }

    /// FP16 elements that carry an FP32 residual.
    pub open spec fn fp16_elements(self) -> int {
        (self.head_matrix() * 2 / 2 + self.matrix_bytes() / 2) + (self.vector_elements() * 2 / 2
            + self.packed_weights() * 2 / 2)
    }

    /// Every size needed to place the packed weights fits.
    pub open spec fn weights_fit(self) -> bool {
        &&& fits(self.rows())
        &&& fits(self.square())
        &&& fits(self.ffn_matrix())
        &&& fits(self.head_matrix() * 2)
        &&& fits(4 * self.square() + self.ffn_matrix())
        &&& fits(self.packed_weights())
    }

    /// Every size of the resident parameters fits.
    pub open spec fn parameters_fit(self) -> bool {
        &&& fits(4 * self.d_model)
        &&& fits(self.scale_rows() * 2)
        &&& fits(self.bias_rows() * 2)
        &&& fits(self.packed_bits() + self.scale_rows() * 2 + self.bias_rows() * 2)
        &&& fits(self.matrix_bytes())
        &&& (self.architecture == Architecture::RosaRwkv7 ==> fits(self.tmix()))
        &&& fits(self.vector_elements() * 2)
        &&& fits(self.layer_activations() * 2 * 4)
        &&& fits(3 * self.rows())
    }

    /// Every size of the scratch regions fits.
    pub open spec fn scratch_fits(self) -> bool {
        &&& fits(self.sam_peak())
        &&& fits(self.packed_weights() * 2)
        &&& fits(self.largest_matrix() * 4)
        &&& fits((self.d_model + self.vocab_size) * 8)
        &&& fits(self.tape_bytes())
        &&& (self.architecture == Architecture::RosaRwkv7 ==> fits(
            self.batch_size * self.heads(),
        ) && fits(
            self.batch_size * self.heads() * self.chunks(),
        ) && fits(self.head_size * self.head_size) && fits(
            (self.batch_size * self.context_len) * self.heads(),
        ))
        &&& fits(self.fp16_elements() * 4)
    }

    /// What stops the estimate, if anything does.
    pub open spec fn estimate_error(self) -> Option<ConfigError> {
        if !self.weights_fit() {
            Some(ConfigError::SizeOverflow)
        } else if !fits(self.packed_weights() + 31) {
            Some(ConfigError::PackedOverflow)
        } else if !self.parameters_fit() {
            Some(ConfigError::SizeOverflow)
        } else if !fits(3 * self.rows() * self.d_model) {
            Some(ConfigError::BitplaneOverflow)
        } else if !self.scratch_fits() {
            Some(ConfigError::SizeOverflow)
        } else {
            None
        }
    }

    /// `m` holds the estimate of every region.
    pub open spec fn estimated(self, m: MemoryEstimate) -> bool {
        &&& m.embedding == self.head_matrix() * 2
        &&& m.packed_bits_and_scales == self.packed_bits() + self.scale_rows() * 2
            + self.bias_rows() * 2
        &&& m.fp16_matrices == self.matrix_bytes()
        &&& m.ln_and_vec == self.vector_elements() * 2
        &&& m.act_checkpoints == self.layer_activations() * 2 * 4
        &&& m.qkv_bitplanes == 3 * self.rows() * self.d_model / 8
        &&& m.rosa_sam_peak == self.sam_peak()
        &&& m.packed_latents == self.packed_weights() * 2
        &&& m.binaryconnect_workspace == self.largest_matrix() * 4
        &&& m.ce_scratch == (self.d_model + self.vocab_size) * 8
        &&& m.wkv_tape == self.tape_bytes()
        &&& m.bwd_rosa_scratch == 0
        &&& m.command_slack == 33_554_432
        &&& m.sgd_residual == self.fp16_elements() * 4
    }
}

/// `a * b`, when it fits.
fn times(a: usize, b: usize) -> (product: Option<usize>)
    ensures
        product is Some <==> fits(a * b),
        product matches Some(n) ==> n == a * b,
{
    a.checked_mul(b)
}

/// `a + b`, when it fits.
fn plus(a: usize, b: usize) -> (sum: Option<usize>)
    ensures
        sum is Some <==> fits(a + b),
        sum matches Some(n) ==> n == a + b,
{
    a.checked_add(b)
}

/// Sizes from which the packed weights are placed.
struct WeightSizes {
    rows: usize,
    square: usize,
    ffn_matrix: usize,
    head_matrix: usize,
    embedding: usize,
    packed_weights: usize,
}

/// Sizes of the resident parameters.
struct ParameterSizes {
    packed_bits_and_scales: usize,
    fp16_matrices: usize,
    ln_and_vec: usize,
    act_checkpoints: usize,
    triple_rows: usize,
}

impl TrainConfig {
    /// CMix width after the zero default is resolved.
    pub fn resolved_dim_ffn(&self) -> (width: usize)
        ensures
            width == self.ffn_width(),
    {
        if self.dim_ffn == 0 {
            match self.d_model.checked_mul(4) {
                Some(width) => width,
                None => usize::MAX,
            }
        } else {
            self.dim_ffn
        }
    }

    /// Low-rank width after the zero default is resolved.
    pub fn resolved_tmix_lora_rank(&self) -> (rank: usize)
        ensures
            rank == self.lora_rank(),
    {
        if self.tmix_lora_rank == 0 {
            if self.d_model <= 64 {
                8
            } else {
                16
            }
        } else {
            self.tmix_lora_rank
        }
    }

    fn weight_sizes(&self) -> (sizes: Option<WeightSizes>)
        ensures
            sizes is Some <==> self.weights_fit(),
            sizes matches Some(s) ==> {
                &&& s.rows == self.rows()
                &&& s.square == self.square()
                &&& s.ffn_matrix == self.ffn_matrix()
                &&& s.head_matrix == self.head_matrix()
                &&& s.embedding == self.head_matrix() * 2
                &&& s.packed_weights == self.packed_weights()
            },
    {
        let rows: usize = times(self.batch_size, self.context_len)?;
        let square: usize = times(self.d_model, self.d_model)?;
        let ffn_matrix: usize = times(self.resolved_dim_ffn(), self.d_model)?;
        let head_matrix: usize = times(self.vocab_size, self.d_model)?;
        let embedding: usize = times(head_matrix, FP16_BYTES)?;
        let layer: usize = plus(times(4, square)?, ffn_matrix)?;
        let packed_weights: usize = plus(times(self.n_layers, layer)?, head_matrix)?;
        Some(WeightSizes { rows, square, ffn_matrix, head_matrix, embedding, packed_weights })
    }

    /// Products of sizes are never negative.
    proof fn lemma_nonnegative(self)
        requires
            self.architecture == Architecture::RosaRwkv7 ==> self.head_size != 0,
        ensures
            self.rows() >= 0,
            self.square() >= 0,
            self.ffn_width() >= 0,
            self.ffn_matrix() >= 0,
            self.head_matrix() >= 0,
            self.packed_weights() >= 0,
            self.n_layers * (4 * self.d_model) >= 0,
            self.n_layers * self.ffn_width() >= 0,
            self.n_layers * self.d_model >= 0,
            self.matrix_elements() >= 0,
            self.d_model * self.lora_rank() >= 0,
            self.architecture == Architecture::RosaRwkv7 ==> {
                &&& self.heads() >= 0
                &&& self.heads() * self.head_size >= 0
                &&& self.tmix() >= 0
                &&& self.n_layers * self.tmix() >= 0
                &&& self.tape_state() >= 0
                &&& self.tape_sa() >= 0
            },
    {
        let layers = self.n_layers as int;
        let d = self.d_model as int;
        let f = self.ffn_width();
        let v = self.vocab_size as int;
        let b = self.batch_size as int;
        let c = self.context_len as int;
        assert(b * c >= 0 && d * d >= 0 && f * d >= 0 && v * d >= 0 && layers * (4 * d) >= 0
            && layers * f >= 0 && layers * d >= 0) by (nonlinear_arith)
            requires
                b >= 0,
                c >= 0,
                d >= 0,
                f >= 0,
                v >= 0,
                layers >= 0,
        ;
        let layer = 4 * self.square() + self.ffn_matrix();
        let m = self.ffn_matrix();
        let r = self.lora_rank();
        assert(layers * layer >= 0 && layers * m >= 0 && d * r >= 0) by (nonlinear_arith)
            requires
                layers >= 0,
                layer >= 0,
                m >= 0,
                d >= 0,
                r >= 0,
        ;
        if self.architecture == Architecture::RosaRwkv7 {
            let h = self.head_size as int;
            let heads = self.heads();
            assert(heads >= 0) by (nonlinear_arith)
                requires
                    heads == d / h,
                    d >= 0,
                    h > 0,
            ;
            assert(heads * h >= 0) by (nonlinear_arith)
                requires
                    heads >= 0,
                    h > 0,
            ;
            let t = self.tmix();
            assert(layers * t >= 0) by (nonlinear_arith)
                requires
                    layers >= 0,
                    t >= 0,
            ;
            let k = self.chunks();
            assert(b * heads >= 0) by (nonlinear_arith)
                requires
                    b >= 0,
                    heads >= 0,
            ;
            let bh = b * heads;
            assert(bh * k >= 0 && h * h >= 0) by (nonlinear_arith)
                requires
                    bh >= 0,
                    k >= 0,
                    h >= 0,
            ;
            let bhk = bh * k;
            let hh = h * h;
            assert(bhk * hh >= 0) by (nonlinear_arith)
                requires
                    bhk >= 0,
                    hh >= 0,
            ;
            let bc = b * c;
            assert(bc * heads >= 0) by (nonlinear_arith)
                requires
                    bc >= 0,
                    heads >= 0,
            ;
            let bch = bc * heads;
            assert(bch * h >= 0) by (nonlinear_arith)
                requires
                    bch >= 0,
                    h >= 0,
            ;
        }
    }

    fn parameter_sizes(&self, w: &WeightSizes) -> (sizes: Option<ParameterSizes>)
        requires
            self.weights_fit(),
            fits(self.packed_weights() + 31),
            w.rows == self.rows(),
            w.square == self.square(),
            w.ffn_matrix == self.ffn_matrix(),
            w.packed_weights == self.packed_weights(),
            self.architecture == Architecture::RosaRwkv7 ==> self.head_size != 0,
        ensures
            sizes is Some <==> self.parameters_fit(),
            sizes matches Some(s) ==> {
                &&& s.packed_bits_and_scales == self.packed_bits() + self.scale_rows() * 2
                    + self.bias_rows() * 2
                &&& s.fp16_matrices == self.matrix_bytes()
                &&& s.ln_and_vec == self.vector_elements() * 2
                &&& s.act_checkpoints == self.layer_activations() * 2 * 4
                &&& s.triple_rows == 3 * self.rows()
            },
    {
        proof {
            self.lemma_nonnegative();
        }
        let d: usize = self.d_model;
        let layers: usize = self.n_layers;
        let packed_bits: usize = (w.packed_weights + 31) / 32 * 4;
        let four_d: usize = times(4, d)?;
        let layer_rows: usize = times(layers, four_d)?;
        let key_rows: usize = times(layers, self.resolved_dim_ffn())?;
        let scale_rows: usize = plus(plus(layer_rows, key_rows)?, self.vocab_size)?;
        let scales: usize = times(scale_rows, FP16_BYTES)?;
        let bias: usize = times(layer_rows, FP16_BYTES)?;
        let packed_bits_and_scales: usize = plus(plus(packed_bits, scales)?, bias)?;
        let mut fp16_matrices: usize = times(times(layers, w.ffn_matrix)?, FP16_BYTES)?;
        if matches!(self.architecture, Architecture::RosaRwkv7) {
            let rank: usize = self.resolved_tmix_lora_rank();
            let heads: usize = d / self.head_size;
            let lora: usize = times(d, rank)?;
            let low: usize = plus(times(6, d)?, times(8, lora)?)?;
            let high: usize = plus(
                plus(times(5, d)?, times(heads, self.head_size)?)?,
                times(4, w.square)?,
            )?;
            let tmix: usize = plus(low, high)?;
            fp16_matrices = plus(fp16_matrices, times(times(layers, tmix)?, FP16_BYTES)?)?;
        }
        let norms: usize = plus(times(2, d)?, layer_rows)?;
        let shift: usize = times(layers, d)?;
        let vectors: usize = plus(plus(norms, layer_rows)?, shift)?;
        let ln_and_vec: usize = times(vectors, FP16_BYTES)?;
        let activations: usize = times(12, times(w.rows, d)?)?;
        let act_checkpoints: usize = times(CHECKPOINT_LAYERS, times(activations, FP16_BYTES)?)?;
        let triple_rows: usize = times(3, w.rows)?;
        Some(
            ParameterSizes {
                packed_bits_and_scales,
                fp16_matrices,
                ln_and_vec,
                act_checkpoints,
                triple_rows,
            },
        )
    }

    fn scratch_sizes(
        &self,
        w: &WeightSizes,
        p: &ParameterSizes,
        qkv_bitplanes: usize,
    ) -> (estimate: Option<MemoryEstimate>)
        requires
            self.weights_fit(),
            self.parameters_fit(),
            w.square == self.square(),
            w.ffn_matrix == self.ffn_matrix(),
            w.head_matrix == self.head_matrix(),
            w.embedding == self.head_matrix() * 2,
            w.packed_weights == self.packed_weights(),
            p.packed_bits_and_scales == self.packed_bits() + self.scale_rows() * 2
                + self.bias_rows() * 2,
            p.fp16_matrices == self.matrix_bytes(),
            p.ln_and_vec == self.vector_elements() * 2,
            p.act_checkpoints == self.layer_activations() * 2 * 4,
            qkv_bitplanes == 3 * self.rows() * self.d_model / 8,
            self.architecture == Architecture::RosaRwkv7 ==> self.head_size != 0,
        ensures
            estimate is Some <==> self.scratch_fits(),
            estimate matches Some(m) ==> self.estimated(m),
    {
        proof {
            self.lemma_nonnegative();
        }
        let d: usize = self.d_model;
        let rosa_sam_peak: usize = times(40, times(self.context_len, d)?)?;
        let packed_latents: usize = times(w.packed_weights, FP16_BYTES)?;
        let wide: usize = if w.square >= w.ffn_matrix {
            w.square
        } else {
            w.ffn_matrix
        };
        let largest: usize = if wide >= w.head_matrix {
            wide
        } else {
            w.head_matrix
        };
        let binaryconnect_workspace: usize = times(largest, FP32_BYTES)?;
        let ce_scratch: usize = times(plus(d, self.vocab_size)?, 8)?;
        let wkv_tape: usize = if matches!(self.architecture, Architecture::RosaRwkv7) {
            let heads: usize = d / self.head_size;
            let chunks: usize = self.context_len / 16 + if self.context_len % 16 == 0 {
                0
            } else {
                1
            };
            let state: usize = times(
                times(times(self.batch_size, heads)?, chunks)?,
                times(self.head_size, self.head_size)?,
            )?;
            let sa: usize = times(
                times(times(self.batch_size, self.context_len)?, heads)?,
                self.head_size,
            )?;
            times(plus(state, sa)?, FP32_BYTES)?
        } else {
            0
        };
        let low: usize = plus(w.embedding / FP16_BYTES, p.fp16_matrices / FP16_BYTES)?;
        let high: usize = plus(p.ln_and_vec / FP16_BYTES, packed_latents / FP16_BYTES)?;
        let sgd_residual: usize = times(plus(low, high)?, FP32_BYTES)?;
        Some(
            MemoryEstimate {
                embedding: w.embedding,
                packed_bits_and_scales: p.packed_bits_and_scales,
                fp16_matrices: p.fp16_matrices,
                ln_and_vec: p.ln_and_vec,
                act_checkpoints: p.act_checkpoints,
                qkv_bitplanes,
                rosa_sam_peak,
                packed_latents,
                binaryconnect_workspace,
                ce_scratch,
                wkv_tape,
                bwd_rosa_scratch: 0,
                command_slack: COMMAND_SLACK_BYTES,
                sgd_residual,
            },
        )
    }

    /// Upper bounds of every memory region, or the first size that does not
    /// fit in a `usize`.
    pub fn memory_estimate(&self) -> (estimate: Result<MemoryEstimate, ConfigError>)
        requires
            self.architecture == Architecture::RosaRwkv7 ==> self.head_size != 0,
        ensures
            match estimate {
                Ok(m) => self.estimate_error() is None && self.estimated(m),
                Err(e) => self.estimate_error() == Some(e),
            },
    {
        let w = match self.weight_sizes() {
            Some(w) => w,
            None => {
                return Err(ConfigError::SizeOverflow);
            },
        };
        if w.packed_weights.checked_add(31).is_none() {
            return Err(ConfigError::PackedOverflow);
        }
        let p = match self.parameter_sizes(&w) {
            Some(p) => p,
            None => {
                return Err(ConfigError::SizeOverflow);
            },
        };
        let bits: usize = match times(p.triple_rows, self.d_model) {
            Some(bits) => bits,
            None => {
                return Err(ConfigError::BitplaneOverflow);
            },
        };
        match self.scratch_sizes(&w, &p, bits / 8) {
            Some(m) => Ok(m),
            None => Err(ConfigError::SizeOverflow),
        }
    }

    /// Smallest vocabulary that the architecture admits.
    pub open spec fn least_vocab(self) -> usize {
        if self.architecture == Architecture::RosaRwkv7 {
            12
        } else {
            260
        }
    }

    /// Why the configuration is not admitted: the first rule it breaks.
    pub open spec fn config_error(self) -> Option<ConfigError> {
        if self.d_model == 0 || self.n_layers == 0 {
            Some(ConfigError::EmptyModel)
        } else if self.vocab_size < self.least_vocab() {
            Some(ConfigError::VocabTooSmall { least: self.least_vocab() })
        } else if self.context_len == 0 || self.context_len > MAX_CONTEXT_LEN {
            Some(ConfigError::ContextLength)
        } else if self.batch_size == 0 {
            Some(ConfigError::BatchSize)
        } else if self.rosa_bits != 1 {
            Some(ConfigError::RosaBits)
        } else if self.head_size != DEFAULT_HEAD_SIZE {
            Some(ConfigError::HeadSize)
        } else if self.lora_rank() != 8 && self.lora_rank() != 16 {
            Some(ConfigError::LoraRank)
        } else if self.architecture == Architecture::RosaRwkv7 && self.d_model as int
            % self.head_size as int != 0 {
            Some(ConfigError::HeadMultiple)
        } else if self.architecture == Architecture::RosaRwkv7 && self.context_len % 16 != 0 {
            Some(ConfigError::ContextMultiple)
        } else if self.estimate_error() is Some {
            self.estimate_error()
        } else if self.estimated_total() > self.memory_budget_bytes || !fits(
            self.estimated_total(),
        ) {
            Some(ConfigError::OverBudget { mib: self.memory_budget_bytes / 1_048_576 })
        } else {
            None
        }
    }

    /// Sum of the estimated regions.
    pub open spec fn estimated_total(self) -> int {
        self.head_matrix() * 2 + (self.packed_bits() + self.scale_rows() * 2 + self.bias_rows() * 2)
            + self.matrix_bytes() + self.vector_elements() * 2 + self.layer_activations() * 2 * 4
            + 3 * self.rows() * self.d_model / 8 + self.sam_peak() + self.packed_weights() * 2
            + self.largest_matrix() * 4 + (self.d_model + self.vocab_size) * 8 + self.tape_bytes()
            + 33_554_432 + self.fp16_elements() * 4
    }

    /// Admits the configuration, or names the first rule that it breaks.
    pub fn validate(&self) -> (verdict: Result<(), ConfigError>)
        ensures
            match verdict {
                Ok(_) => self.config_error() is None,
                Err(e) => self.config_error() == Some(e),
            },
    {
        if self.d_model == 0 || self.n_layers == 0 {
            return Err(ConfigError::EmptyModel);
        }
        let hybrid: bool = matches!(self.architecture, Architecture::RosaRwkv7);
        let least: usize = if hybrid {
            12
        } else {
            MIN_VOCAB as usize
        };
        if self.vocab_size < least {
            return Err(ConfigError::VocabTooSmall { least });
        }
        if self.context_len == 0 || self.context_len > MAX_CONTEXT_LEN {
            return Err(ConfigError::ContextLength);
        }
        if self.batch_size == 0 {
            return Err(ConfigError::BatchSize);
        }
        if self.rosa_bits != 1 {
            return Err(ConfigError::RosaBits);
        }
        if self.head_size != DEFAULT_HEAD_SIZE {
            return Err(ConfigError::HeadSize);
        }
        if self.resolved_dim_ffn() == 0 {
            return Err(ConfigError::DimFfn);
        }
        let rank: usize = self.resolved_tmix_lora_rank();
        if rank != 8 && rank != 16 {
            return Err(ConfigError::LoraRank);
        }
        if hybrid {
            if self.d_model % self.head_size != 0 {
                return Err(ConfigError::HeadMultiple);
            }
            if self.context_len % 16 != 0 {
                return Err(ConfigError::ContextMultiple);
            }
        }
        let estimate = match self.memory_estimate() {
            Ok(m) => m,
            Err(e) => {
                return Err(e);
            },
        };
        match estimate.peak() {
            Some(n) if n as u64 <= self.memory_budget_bytes => Ok(()),
            _ => Err(ConfigError::OverBudget { mib: self.memory_budget_bytes / 1_048_576 }),
        }
    }

    /// Binds model output rows to the tokenizer that will actually produce
    /// training ids. A vocabulary ceiling must not reserve embedding rows for
    /// merges which were never learned.
    pub fn with_tokenizer(self, tokenizer: &BpeTokenizer) -> (bound: Result<Self, ConfigError>)
        requires
            tokenizer.wf(),
        ensures
            match bound {
                Ok(cfg) => cfg == (TrainConfig {
                    vocab_size: tokenizer.pieces@.len() as usize,
                    ..self
                }) && cfg.config_error() is None,
                Err(e) => (TrainConfig {
                    vocab_size: tokenizer.pieces@.len() as usize,
                    ..self
                }).config_error() == Some(e),
            },
    {
        let mut cfg = self;
        cfg.vocab_size = tokenizer.vocab_size() as usize;
        match cfg.validate() {
            Ok(_) => Ok(cfg),
            Err(e) => Err(e),
        }
    }
}

/// The regions of an estimate by the sizes of the model: with width `d`, hidden
/// width `f`, `l` layers, `v` tokens in the vocabulary, `b` sequences of `t`
/// steps, heads of `h` and a low rank of `r`.
pub proof fn law_regions_follow_from_the_sizes(cfg: TrainConfig, m: MemoryEstimate)
    requires
        cfg.estimated(m),
    ensures
        ({
            let d = cfg.d_model as int;
            let f = if cfg.dim_ffn != 0 {
                cfg.dim_ffn as int
            } else if 4 * d <= usize::MAX {
                4 * d
            } else {
                usize::MAX as int
            };
            let l = cfg.n_layers as int;
            let v = cfg.vocab_size as int;
            let b = cfg.batch_size as int;
            let t = cfg.context_len as int;
            let h = cfg.head_size as int;
            let r = if cfg.tmix_lora_rank != 0 {
                cfg.tmix_lora_rank as int
            } else if d <= 64 {
                8
            } else {
                16
            };
            let hybrid = cfg.architecture == Architecture::RosaRwkv7;
            let mixing = if hybrid {
                l * (11 * d + 8 * d * r + (d / h) * h + 4 * d * d)
            } else {
                0
            };
            let packed = l * (4 * d * d + d * f) + v * d;
            &&& m.embedding == 2 * v * d
            &&& m.packed_bits_and_scales == 4 * ((packed + 31) / 32) + 2 * (8 * l * d + l * f + v)
            &&& m.fp16_matrices == 2 * (l * f * d + mixing)
            &&& m.ln_and_vec == 2 * d * (2 + 9 * l)
            &&& m.act_checkpoints == 96 * b * t * d
            &&& m.qkv_bitplanes == 3 * b * t * d / 8
            &&& m.rosa_sam_peak == 40 * t * d
            &&& m.packed_latents == 2 * packed
            &&& m.binaryconnect_workspace >= 4 * d * d && m.binaryconnect_workspace >= 4 * f * d
                && m.binaryconnect_workspace >= 4 * v * d
            &&& m.binaryconnect_workspace == 4 * d * d || m.binaryconnect_workspace == 4 * f * d
                || m.binaryconnect_workspace == 4 * v * d
            &&& m.ce_scratch == 8 * (d + v)
            &&& m.wkv_tape == (if hybrid {
                4 * (b * (d / h) * ((t + 15) / 16) * h * h + b * t * (d / h) * h)
            } else {
                0
            })
            &&& m.sgd_residual == 4 * (v * d + l * f * d + mixing + d * (2 + 9 * l) + packed)
        }),
{
    let d = cfg.d_model as int;
    let f = cfg.ffn_width();
    let l = cfg.n_layers as int;
    let v = cfg.vocab_size as int;
    let b = cfg.batch_size as int;
    let t = cfg.context_len as int;
    let h = cfg.head_size as int;
    let r = cfg.lora_rank();
    let heads = cfg.heads();
    let packed = l * (4 * d * d + d * f) + v * d;
    let mixing = l * (11 * d + 8 * d * r + heads * h + 4 * d * d);
    assert((v * d) * 2 == 2 * v * d) by (nonlinear_arith);
    assert(l * (4 * (d * d) + f * d) + v * d == packed) by (nonlinear_arith)
        requires
            packed == l * (4 * d * d + d * f) + v * d,
    ;
    assert(l * (4 * d) == 4 * (l * d) && 8 * l * d == 8 * (l * d)) by (nonlinear_arith);
    assert(l * (f * d) == l * f * d) by (nonlinear_arith);
    assert(l * ((6 * d + 8 * (d * r)) + ((5 * d + heads * h) + 4 * (d * d))) == mixing)
        by (nonlinear_arith)
        requires
            mixing == l * (11 * d + 8 * d * r + heads * h + 4 * d * d),
    ;
    assert(((2 * d + l * (4 * d)) + l * (4 * d)) + l * d == d * (2 + 9 * l)) by (nonlinear_arith);
    assert(2 * d * (2 + 9 * l) == 2 * (d * (2 + 9 * l))) by (nonlinear_arith);
    assert(12 * ((b * t) * d) * 2 * 4 == 96 * b * t * d) by (nonlinear_arith);
    assert(3 * (b * t) * d == 3 * b * t * d) by (nonlinear_arith);
    assert(40 * (t * d) == 40 * t * d) by (nonlinear_arith);
    assert((d * d) * 4 == 4 * d * d && (f * d) * 4 == 4 * f * d && (v * d) * 4 == 4 * v * d)
        by (nonlinear_arith);
    let c = cfg.chunks();
    assert(((b * heads) * c) * (h * h) == b * heads * c * h * h) by (nonlinear_arith);
    assert(((b * t) * heads) * h == b * t * heads * h) by (nonlinear_arith);
}

/// A configuration is admitted exactly when it keeps all the rules: it has
/// layers and a width, a vocabulary that holds the bytes and the marks, or the
/// digits, a context of at most 32768 steps, one bit for each match, heads of
/// sixteen, a low rank of eight or sixteen, whole heads and whole chunks in the
/// hybrid, and an estimate that can be counted and is within the budget.
pub proof fn law_admitted_configurations_keep_the_rules(cfg: TrainConfig)
    ensures
        cfg.config_error() is None <==> {
            &&& cfg.d_model > 0 && cfg.n_layers > 0 && cfg.batch_size > 0
            &&& cfg.vocab_size >= (if cfg.architecture == Architecture::RosaRwkv7 {
                12usize
            } else {
                260usize
            })
            &&& 1 <= cfg.context_len <= 32768
            &&& cfg.rosa_bits == 1
            &&& cfg.head_size == 16
            &&& cfg.tmix_lora_rank == 0 || cfg.tmix_lora_rank == 8 || cfg.tmix_lora_rank == 16
            &&& cfg.architecture == Architecture::RosaRwkv7 ==> cfg.d_model % 16 == 0
                && cfg.context_len % 16 == 0
            &&& cfg.estimate_error() is None
            &&& cfg.estimated_total() <= cfg.memory_budget_bytes
            &&& cfg.estimated_total() <= usize::MAX
        },
{
}

/// What is held against the budget is the sum of the regions, none left out.
pub proof fn law_the_budget_covers_every_region(cfg: TrainConfig, m: MemoryEstimate)
    requires
        cfg.estimated(m),
    ensures
        cfg.estimated_total() == m.embedding + m.packed_bits_and_scales + m.fp16_matrices
            + m.ln_and_vec + m.act_checkpoints + m.qkv_bitplanes + m.rosa_sam_peak
            + m.packed_latents + m.binaryconnect_workspace + m.ce_scratch + m.wkv_tape
            + m.bwd_rosa_scratch + m.command_slack + m.sgd_residual,
        m.bwd_rosa_scratch == 0,
        m.command_slack == 32 * 1024 * 1024,
{
}

proof fn lemma_a_product_is_no_smaller(a: int, b: int)
    requires
        a >= 0,
        b >= 1,
    ensures
        a * b >= a,
        b * a >= a,
{
    assert(a * b >= a && b * a >= a) by (nonlinear_arith)
        requires
            a >= 0,
            b >= 1,
    ;
}

/// A model with at least one of everything whose regions can all be counted has
/// an estimate: no step on the way to a region is larger than the regions.
pub proof fn law_regions_that_fit_can_be_estimated(cfg: TrainConfig, m: MemoryEstimate)
    requires
        cfg.d_model >= 1,
        cfg.n_layers >= 1,
        cfg.vocab_size >= 1,
        cfg.batch_size >= 1,
        cfg.context_len >= 1,
        1 <= cfg.head_size <= cfg.d_model,
        cfg.estimated(m),
    ensures
        cfg.estimate_error() is None,
{
    let d = cfg.d_model as int;
    let f = cfg.ffn_width();
    let l = cfg.n_layers as int;
    let v = cfg.vocab_size as int;
    let b = cfg.batch_size as int;
    let t = cfg.context_len as int;
    let h = cfg.head_size as int;
    let heads = cfg.heads();
    let c = cfg.chunks();
    assert(heads >= 1) by (nonlinear_arith)
        requires
            heads == d / h,
            1 <= h <= d,
    ;
    assert(c >= 1);
    lemma_a_product_is_no_smaller(b, t);
    lemma_a_product_is_no_smaller(b * t, d);
    assert(3 * (b * t) * d == 3 * ((b * t) * d)) by (nonlinear_arith);
    lemma_a_product_is_no_smaller(d, d);
    lemma_a_product_is_no_smaller(f, d);
    lemma_a_product_is_no_smaller(v, d);
    lemma_a_product_is_no_smaller(4 * (d * d) + f * d, l);
    lemma_a_product_is_no_smaller(4 * d, l);
    lemma_a_product_is_no_smaller(f, l);
    lemma_a_product_is_no_smaller(f * d, l);
    lemma_a_product_is_no_smaller(d, l);
    lemma_a_product_is_no_smaller(d, cfg.lora_rank());
    lemma_a_product_is_no_smaller(heads, h);
    lemma_a_product_is_no_smaller(cfg.tmix(), l);
    lemma_a_product_is_no_smaller(h, h);
    lemma_a_product_is_no_smaller(b, heads);
    lemma_a_product_is_no_smaller(b * heads, c);
    lemma_a_product_is_no_smaller((b * heads) * c, h * h);
    lemma_a_product_is_no_smaller(h * h, (b * heads) * c);
    lemma_a_product_is_no_smaller(b * t, heads);
    lemma_a_product_is_no_smaller((b * t) * heads, h);
}

} // verus!
