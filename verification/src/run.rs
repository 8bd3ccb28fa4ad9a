//! A training run: what it may be started with, what may change when it is
//! resumed, and what happens after each of its steps.
use vstd::prelude::*;
use crate::config::{Architecture, ConfigError, TrainConfig};
use crate::decode::finite;

verus! {

/// How the parameters are moved.
#[derive(Clone, Copy, Debug, PartialEq, Eq, Structural)]
pub enum OptimizerKind {
    StatelessSgd,
    LionFp16,
}

/// The shape of a model and how it is trained.
#[derive(Clone, Copy, Debug, PartialEq, Eq, Structural)]
pub struct RunConfig {
    pub config: TrainConfig,
    pub optimizer: OptimizerKind,
}

/// What the command line asks to be different.
#[derive(Clone, Copy, Debug)]
pub struct TrainOverrides {
    pub architecture: Option<Architecture>,
    pub d_model: Option<usize>,
    pub n_layers: Option<usize>,
    pub context_len: Option<usize>,
    pub batch_size: Option<usize>,
    pub vocab_size: Option<usize>,
    pub seed: Option<u64>,
    pub memory_budget_mib: Option<usize>,
    pub optimizer: Option<OptimizerKind>,
}

/// What a resumed run may not change.
#[derive(Clone, Copy, Debug, PartialEq, Eq, Structural)]
pub enum ResumeField {
    Architecture,
    DModel,
    Layers,
    ContextLen,
    BatchSize,
    VocabSize,
    Seed,
    MemoryBudget,
    Optimizer,
}

/// Why a run cannot start.
#[derive(Clone, Copy, Debug, PartialEq, Eq, Structural)]
pub enum RunError {
    Arguments,
    Config(ConfigError),
    NotWired,
    /// The optimizer has no training step.
    Optimizer,
    MemoryOverflow,
    Resume(ResumeField),
    ResumeConfig,
    Vocabulary,
}

/// The number is finite and above zero.
pub open spec fn is_rate(bits: u32) -> bool {
    0 < bits < crate::decode::INFINITY_BITS
}

/// Checks the numbers that a run is started with.
pub fn check_arguments(steps: usize, checkpoint_every: usize, learning_rate: u32) -> (checked:
    Result<(), RunError>)
    ensures
        match checked {
            Ok(_) => steps > 0 && checkpoint_every > 0 && is_rate(learning_rate),
            Err(e) => e == RunError::Arguments && (steps == 0 || checkpoint_every == 0 || !is_rate(
                learning_rate,
            )),
        },
{
    if steps == 0 || checkpoint_every == 0 || !finite(learning_rate) || learning_rate == 0
        || learning_rate >= crate::decode::SIGN_BIT {
        Err(RunError::Arguments)
    } else {
        Ok(())
    }
}

/// The value that was asked for, or the one that stands.
pub open spec fn or_else<T>(asked: Option<T>, stands: T) -> T {
    match asked {
        Some(value) => value,
        None => stands,
    }
}

/// Four times a width, as far as it can be counted.
pub open spec fn four_times(width: usize) -> usize {
    if 4 * width > usize::MAX {
        usize::MAX
    } else {
        (4 * width) as usize
    }
}

/// The configuration with the overrides in it. Another width brings its own
/// hidden width, unless that was set by hand, and its own low-rank width,
/// unless the architecture is set too. The optimizer goes back to the plain
/// one when none is asked for.
pub open spec fn overridden(run: RunConfig, asked: TrainOverrides) -> RunConfig {
    let cfg = run.config;
    let dim_ffn = match asked.d_model {
        Some(width) if cfg.dim_ffn == 0 || cfg.dim_ffn == 1_024 => four_times(width),
        _ => cfg.dim_ffn,
    };
    let rank = match asked.d_model {
        Some(width) if asked.architecture is None => if width <= 64 {
            8
        } else {
            16
        },
        _ => cfg.tmix_lora_rank,
    };
    RunConfig {
        config: TrainConfig {
            architecture: or_else(asked.architecture, cfg.architecture),
            d_model: or_else(asked.d_model, cfg.d_model),
            n_layers: or_else(asked.n_layers, cfg.n_layers),
            context_len: or_else(asked.context_len, cfg.context_len),
            batch_size: or_else(asked.batch_size, cfg.batch_size),
            vocab_size: or_else(asked.vocab_size, cfg.vocab_size),
            dim_ffn,
            tmix_lora_rank: rank,
            seed: or_else(asked.seed, cfg.seed),
            memory_budget_bytes: match asked.memory_budget_mib {
                Some(mib) => (mib * 1_048_576) as u64,
                None => cfg.memory_budget_bytes,
            },
            ..cfg
        },
        optimizer: or_else(asked.optimizer, OptimizerKind::StatelessSgd),
    }
}

/// Applies the overrides of the command line.
pub fn apply_overrides(run: RunConfig, asked: &TrainOverrides) -> (made: Result<
    RunConfig,
    RunError,
>)
    ensures
        match made {
            Ok(r) => r == overridden(run, *asked) && !(asked.memory_budget_mib matches Some(mib)
                && mib * 1_048_576 > usize::MAX),
            Err(e) => e == RunError::MemoryOverflow && (asked.memory_budget_mib matches Some(mib)
                && mib * 1_048_576 > usize::MAX),
        },
{
    let mut cfg: TrainConfig = run.config;
    match asked.architecture {
        Some(architecture) => {
            cfg.architecture = architecture;
        },
        None => {},
    }
    match asked.d_model {
        Some(width) => {
            cfg.d_model = width;
            if cfg.dim_ffn == 0 || cfg.dim_ffn == 1_024 {
                cfg.dim_ffn = match width.checked_mul(4) {
                    Some(wide) => wide,
                    None => usize::MAX,
                };
            }
            if asked.architecture.is_none() {
                cfg.tmix_lora_rank = if width <= 64 {
                    8
                } else {
                    16
                };
            }
        },
        None => {},
    }
    match asked.n_layers {
        Some(value) => {
            cfg.n_layers = value;
        },
        None => {},
    }
    match asked.context_len {
        Some(value) => {
            cfg.context_len = value;
        },
        None => {},
    }
    match asked.batch_size {
        Some(value) => {
            cfg.batch_size = value;
        },
        None => {},
    }
    match asked.vocab_size {
        Some(value) => {
            cfg.vocab_size = value;
        },
        None => {},
    }
    match asked.seed {
        Some(value) => {
            cfg.seed = value;
        },
        None => {},
    }
    match asked.memory_budget_mib {
        Some(mib) => match mib.checked_mul(1_048_576) {
            Some(bytes) => {
                cfg.memory_budget_bytes = bytes as u64;
            },
            None => return Err(RunError::MemoryOverflow),
        },
        None => {},
    }
    let optimizer = match asked.optimizer {
        Some(kind) => kind,
        None => OptimizerKind::StatelessSgd,
    };
    Ok(RunConfig { config: cfg, optimizer })
}

/// Overrides that ask for nothing leave a configuration as it is, but for the
/// optimizer.
pub proof fn law_no_overrides_change_nothing(run: RunConfig, asked: TrainOverrides)
    requires
        asked.architecture is None,
        asked.d_model is None,
        asked.n_layers is None,
        asked.context_len is None,
        asked.batch_size is None,
        asked.vocab_size is None,
        asked.seed is None,
        asked.memory_budget_mib is None,
        asked.optimizer is None,
    ensures
        overridden(run, asked).config == run.config,
        overridden(run, asked).optimizer == OptimizerKind::StatelessSgd,
{
}

/// Each override takes the place of its own field and of no other; a field that
/// nothing was asked for stays as it is. Another width brings a hidden width of
/// four times its own, where none was set by hand, and the low rank of its size,
/// where the architecture is not set too.
pub proof fn law_each_override_changes_its_own_field(run: RunConfig, asked: TrainOverrides)
    ensures
        ({
            let old_cfg = run.config;
            let new_cfg = overridden(run, asked).config;
            &&& new_cfg.architecture == (match asked.architecture {
                Some(x) => x,
                None => old_cfg.architecture,
            })
            &&& asked.d_model matches Some(x) ==> new_cfg.d_model == x
            &&& asked.d_model is None ==> new_cfg.d_model == old_cfg.d_model && new_cfg.dim_ffn
                == old_cfg.dim_ffn && new_cfg.tmix_lora_rank == old_cfg.tmix_lora_rank
            &&& asked.n_layers matches Some(x) ==> new_cfg.n_layers == x
            &&& asked.n_layers is None ==> new_cfg.n_layers == old_cfg.n_layers
            &&& asked.context_len matches Some(x) ==> new_cfg.context_len == x
            &&& asked.context_len is None ==> new_cfg.context_len == old_cfg.context_len
            &&& asked.batch_size matches Some(x) ==> new_cfg.batch_size == x
            &&& asked.batch_size is None ==> new_cfg.batch_size == old_cfg.batch_size
            &&& asked.vocab_size matches Some(x) ==> new_cfg.vocab_size == x
            &&& asked.vocab_size is None ==> new_cfg.vocab_size == old_cfg.vocab_size
            &&& asked.seed matches Some(x) ==> new_cfg.seed == x
            &&& asked.seed is None ==> new_cfg.seed == old_cfg.seed
            &&& asked.memory_budget_mib matches Some(x) ==> x * 1_048_576 <= u64::MAX
                ==> new_cfg.memory_budget_bytes == 1_048_576 * x
            &&& asked.memory_budget_mib is None ==> new_cfg.memory_budget_bytes
                == old_cfg.memory_budget_bytes
            &&& asked.optimizer matches Some(x) ==> overridden(run, asked).optimizer == x
            &&& new_cfg.rosa_bits == old_cfg.rosa_bits && new_cfg.rosa_grad == old_cfg.rosa_grad
                && new_cfg.head_size == old_cfg.head_size
            &&& asked.d_model matches Some(x) ==> {
                &&& old_cfg.dim_ffn == 0 || old_cfg.dim_ffn == 1024 ==> 4 * x <= usize::MAX
                    ==> new_cfg.dim_ffn == x + x + x + x
                &&& old_cfg.dim_ffn != 0 && old_cfg.dim_ffn != 1024 ==> new_cfg.dim_ffn
                    == old_cfg.dim_ffn
                &&& asked.architecture is Some ==> new_cfg.tmix_lora_rank
                    == old_cfg.tmix_lora_rank
                &&& asked.architecture is None && x <= 64 ==> new_cfg.tmix_lora_rank == 8
                &&& asked.architecture is None && x > 64 ==> new_cfg.tmix_lora_rank == 16
            }
        }),
{
}

/// Checks the configuration of a fresh run. `trains` says whether the optimizer
/// of the run has a training step.
pub fn check_fresh(run: &RunConfig, trains: bool) -> (checked: Result<(), RunError>)
    ensures
        match checked {
            Ok(_) => run.config.config_error() is None && run.config.architecture
                == Architecture::Heron && trains,
            Err(RunError::Config(e)) => run.config.config_error() == Some(e),
            Err(RunError::NotWired) => run.config.config_error() is None && run.config.architecture
                == Architecture::RosaRwkv7,
            Err(RunError::Optimizer) => run.config.config_error() is None
                && run.config.architecture == Architecture::Heron && !trains,
            Err(_) => false,
        },
{
    match run.config.validate() {
        Ok(_) => {},
        Err(e) => return Err(RunError::Config(e)),
    }
    check_wired(run, trains)
}

/// Checks that a model of that architecture can be trained, and with an
/// optimizer that has a training step.
pub fn check_wired(run: &RunConfig, trains: bool) -> (checked: Result<(), RunError>)
    ensures
        match checked {
            Ok(_) => run.config.architecture == Architecture::Heron && trains,
            Err(RunError::NotWired) => run.config.architecture == Architecture::RosaRwkv7,
            Err(RunError::Optimizer) => run.config.architecture == Architecture::Heron && !trains,
            Err(_) => false,
        },
{
    match run.config.architecture {
        Architecture::RosaRwkv7 => Err(RunError::NotWired),
        Architecture::Heron => if trains {
            Ok(())
        } else {
            Err(RunError::Optimizer)
        },
    }
}

/// Checks that a checkpoint goes with the tokenizer beside it.
pub fn check_vocabulary(tokens: u32, cfg: &TrainConfig) -> (checked: Result<(), RunError>)
    ensures
        match checked {
            Ok(_) => tokens == cfg.vocab_size,
            Err(e) => e == RunError::Vocabulary && tokens != cfg.vocab_size,
        },
{
    if tokens as u64 != cfg.vocab_size as u64 {
        Err(RunError::Vocabulary)
    } else {
        Ok(())
    }
}

/// The value asks for a change.
pub open spec fn differs<T>(asked: Option<T>, stands: T) -> bool {
    asked matches Some(value) && value != stands
}

/// Turns a value away that differs from the one of the checkpoint.
pub fn reject_resume_field(field: ResumeField, requested: Option<u64>, current: u64) -> (checked:
    Result<(), RunError>)
    ensures
        match checked {
            Ok(_) => !differs(requested, current),
            Err(e) => e == RunError::Resume(field) && differs(requested, current),
        },
{
    match requested {
        Some(value) if value != current => Err(RunError::Resume(field)),
        _ => Ok(()),
    }
}

fn wide(asked: Option<usize>) -> (value: Option<u64>)
    ensures
        match (asked, value) {
            (Some(a), Some(b)) => a == b,
            (None, None) => true,
            _ => false,
        },
{
    match asked {
        Some(value) => Some(value as u64),
        None => None,
    }
}

/// The first change that a resumed run may not make.
pub open spec fn resume_error(run: RunConfig, asked: TrainOverrides) -> Option<RunError> {
    let cfg = run.config;
    if differs(asked.architecture, cfg.architecture) {
        Some(RunError::Resume(ResumeField::Architecture))
    } else if differs(asked.d_model, cfg.d_model) {
        Some(RunError::Resume(ResumeField::DModel))
    } else if differs(asked.n_layers, cfg.n_layers) {
        Some(RunError::Resume(ResumeField::Layers))
    } else if differs(asked.context_len, cfg.context_len) {
        Some(RunError::Resume(ResumeField::ContextLen))
    } else if differs(asked.batch_size, cfg.batch_size) {
        Some(RunError::Resume(ResumeField::BatchSize))
    } else if differs(asked.vocab_size, cfg.vocab_size) {
        Some(RunError::Resume(ResumeField::VocabSize))
    } else if differs(asked.seed, cfg.seed) {
        Some(RunError::Resume(ResumeField::Seed))
    } else if asked.memory_budget_mib matches Some(mib) && mib * 1_048_576 > usize::MAX {
        Some(RunError::MemoryOverflow)
    } else if asked.memory_budget_mib matches Some(mib) && mib * 1_048_576
        != cfg.memory_budget_bytes {
        Some(RunError::Resume(ResumeField::MemoryBudget))
    } else if differs(asked.optimizer, run.optimizer) {
        Some(RunError::Resume(ResumeField::Optimizer))
    } else {
        None
    }
}

/// Checks that the overrides of a resumed run repeat what its checkpoint says.
pub fn reject_resume_overrides(run: &RunConfig, asked: &TrainOverrides) -> (checked: Result<
    (),
    RunError,
>)
    ensures
        match checked {
            Ok(_) => resume_error(*run, *asked) is None,
            Err(e) => resume_error(*run, *asked) == Some(e),
        },
{
    let cfg = &run.config;
    match asked.architecture {
        Some(architecture) => {
            if architecture != cfg.architecture {
                return Err(RunError::Resume(ResumeField::Architecture));
            }
        },
        None => {},
    }
    reject_resume_field(ResumeField::DModel, wide(asked.d_model), cfg.d_model as u64)?;
    reject_resume_field(ResumeField::Layers, wide(asked.n_layers), cfg.n_layers as u64)?;
    reject_resume_field(ResumeField::ContextLen, wide(asked.context_len), cfg.context_len as u64)?;
    reject_resume_field(ResumeField::BatchSize, wide(asked.batch_size), cfg.batch_size as u64)?;
    reject_resume_field(ResumeField::VocabSize, wide(asked.vocab_size), cfg.vocab_size as u64)?;
    reject_resume_field(ResumeField::Seed, asked.seed, cfg.seed)?;
    match asked.memory_budget_mib {
        Some(mib) => match mib.checked_mul(1_048_576) {
            Some(bytes) => {
                if bytes as u64 != cfg.memory_budget_bytes {
                    return Err(RunError::Resume(ResumeField::MemoryBudget));
                }
            },
            None => return Err(RunError::MemoryOverflow),
        },
        None => {},
    }
    match asked.optimizer {
        Some(kind) => {
            if kind != run.optimizer {
                return Err(RunError::Resume(ResumeField::Optimizer));
            }
        },
        None => {},
    }
    Ok(())
}

/// A resumed run accepts exactly the overrides that repeat its checkpoint, and
/// every field counts.
pub proof fn law_a_resumed_run_repeats_its_checkpoint(run: RunConfig, asked: TrainOverrides)
    ensures
        resume_error(run, asked) is None <==> {
            &&& asked.architecture matches Some(x) ==> x == run.config.architecture
            &&& asked.d_model matches Some(x) ==> x == run.config.d_model
            &&& asked.n_layers matches Some(x) ==> x == run.config.n_layers
            &&& asked.context_len matches Some(x) ==> x == run.config.context_len
            &&& asked.batch_size matches Some(x) ==> x == run.config.batch_size
            &&& asked.vocab_size matches Some(x) ==> x == run.config.vocab_size
            &&& asked.seed matches Some(x) ==> x == run.config.seed
            &&& asked.memory_budget_mib matches Some(x) ==> 1_048_576 * x
                == run.config.memory_budget_bytes && 1_048_576 * x <= usize::MAX
            &&& asked.optimizer matches Some(x) ==> x == run.optimizer
        },
{
}

/// Overrides that a resumed run accepts are those that change nothing of the
/// model: applying them gives the configuration of the checkpoint back, but
/// for the widths that follow from a width that is named again.
pub proof fn law_accepted_overrides_keep_the_model(run: RunConfig, asked: TrainOverrides)
    requires
        resume_error(run, asked) is None,
    ensures
        ({
            let cfg = overridden(run, asked).config;
            &&& cfg.architecture == run.config.architecture
            &&& cfg.d_model == run.config.d_model
            &&& cfg.n_layers == run.config.n_layers
            &&& cfg.vocab_size == run.config.vocab_size
            &&& cfg.context_len == run.config.context_len
            &&& cfg.batch_size == run.config.batch_size
            &&& cfg.seed == run.config.seed
            &&& cfg.memory_budget_bytes == run.config.memory_budget_bytes
            &&& cfg.rosa_bits == run.config.rosa_bits
        }),
{
}

/// The two configurations describe one model.
pub open spec fn same_model(a: TrainConfig, b: TrainConfig) -> bool {
    &&& a.architecture == b.architecture
    &&& a.d_model == b.d_model
    &&& a.n_layers == b.n_layers
    &&& a.vocab_size == b.vocab_size
    &&& a.context_len == b.context_len
    &&& a.batch_size == b.batch_size
    &&& a.ffn_width() == b.ffn_width()
    &&& a.rosa_bits == b.rosa_bits
}

/// Checks that a configuration file describes the model of the checkpoint.
pub fn reject_resume_file_config(checkpoint: &TrainConfig, file: &TrainConfig) -> (checked: Result<
    (),
    RunError,
>)
    ensures
        match checked {
            Ok(_) => same_model(*checkpoint, *file),
            Err(e) => e == RunError::ResumeConfig && !same_model(*checkpoint, *file),
        },
{
    if checkpoint.architecture != file.architecture || checkpoint.d_model != file.d_model
        || checkpoint.n_layers != file.n_layers || checkpoint.vocab_size != file.vocab_size
        || checkpoint.context_len != file.context_len || checkpoint.batch_size != file.batch_size
        || checkpoint.resolved_dim_ffn() != file.resolved_dim_ffn() || checkpoint.rosa_bits
        != file.rosa_bits {
        Err(RunError::ResumeConfig)
    } else {
        Ok(())
    }
}

/// A product, as far as it can be counted.
pub open spec fn capped_product(a: int, b: int) -> int {
    if a * b > usize::MAX {
        usize::MAX as int
    } else {
        a * b
    }
}

fn times(a: usize, b: usize) -> (product: usize)
    ensures
        product == capped_product(a as int, b as int),
{
    match a.checked_mul(b) {
        Some(p) => p,
        None => usize::MAX,
    }
}

/// How many tokens a run takes in.
pub fn needed_tokens(steps: usize, batch_size: usize, context_len: usize) -> (needed: usize)
    ensures
        needed == capped_product(
            capped_product(steps as int, batch_size as int),
            context_len as int,
        ),
        needed == if steps * batch_size * context_len > usize::MAX {
            usize::MAX as int
        } else {
            steps * batch_size * context_len
        },
{
    proof {
        let rows = steps * batch_size;
        let wide = usize::MAX as int;
        let time = context_len as int;
        assert(time >= 1 && rows > wide ==> rows * time > wide && wide * time >= wide)
            by (nonlinear_arith)
            requires
                wide > 0,
                time >= 0,
        ;
        assert(rows * 0 == 0 && wide * 0 == 0);
    }
    times(times(steps, batch_size), context_len)
}

/// A run on its way.
#[derive(Clone, Copy, Debug, PartialEq, Eq, Structural)]
pub struct TrainRun {
    pub steps: usize,
    pub checkpoint_every: usize,
    pub done: usize,
    /// The loss has stayed where random guessing would put it.
    pub still_random: bool,
}

/// What is to be done after a step.
#[derive(Clone, Copy, Debug, PartialEq, Eq, Structural)]
pub struct StepReport {
    pub step: usize,
    /// Write a checkpoint.
    pub save: bool,
    /// Say that the model does not seem to learn.
    pub hint: bool,
}

/// The step after which the lack of progress is remarked on.
pub const HINT_STEP: usize = 100;

/// A checkpoint is written after the step.
pub open spec fn saved_after(step: int, every: int, steps: int) -> bool {
    step % every == 0 || step == steps
}

impl TrainRun {
    pub open spec fn wf(self) -> bool {
        self.checkpoint_every > 0 && self.done <= self.steps
    }

    pub fn new(steps: usize, checkpoint_every: usize) -> (run: Self)
        requires
            checkpoint_every > 0,
        ensures
            run.wf(),
            run.steps == steps,
            run.checkpoint_every == checkpoint_every,
            run.done == 0,
            run.still_random,
    {
        TrainRun { steps, checkpoint_every, done: 0, still_random: true }
    }

    /// Whether another step is to be taken.
    pub fn wants_more(&self) -> (more: bool)
        ensures
            more == (self.done < self.steps),
    {
        self.done < self.steps
    }

    /// Takes note of a step. `learned` says that the loss has left the place
    /// where random guessing would put it.
    pub fn finish_step(&mut self, learned: bool) -> (report: StepReport)
        requires
            old(self).wf(),
            old(self).done < old(self).steps,
        ensures
            final(self).wf(),
            final(self).steps == old(self).steps,
            final(self).checkpoint_every == old(self).checkpoint_every,
            final(self).done == old(self).done + 1,
            final(self).still_random == (old(self).still_random && !learned),
            report.step == final(self).done,
            report.save == saved_after(
                report.step as int,
                old(self).checkpoint_every as int,
                old(self).steps as int,
            ),
            report.hint == (report.step == HINT_STEP && final(self).still_random),
            report.hint ==> report.step == 100,
            report.step == 100 && final(self).still_random ==> report.hint,
    {
        self.done = self.done + 1;
        if learned {
            self.still_random = false;
        }
        StepReport {
            step: self.done,
            save: self.done % self.checkpoint_every == 0 || self.done == self.steps,
            hint: self.done == HINT_STEP && self.still_random,
        }
    }
}

/// The last step of a run is saved, and between two checkpoints there are
/// never more steps than were asked for: of any so many steps in a row, one is
/// saved.
pub proof fn law_no_stretch_goes_unsaved(first: int, every: int, steps: int)
    requires
        every > 0,
        0 < first,
        first + every - 1 <= steps,
    ensures
        saved_after(steps, every, steps),
        exists|step: int|
            first <= step < first + every && #[trigger] saved_after(step, every, steps),
{
    let step = (first + every - 1) / every * every;
    assert(first <= step < first + every && step % every == 0) by (nonlinear_arith)
        requires
            every > 0,
            first > 0,
            step == (first + every - 1) / every * every,
    ;
    assert(saved_after(step, every, steps));
}

/// Before its last step a run saves once for each stretch: two checkpoints are
/// never closer than was asked for.
pub proof fn law_checkpoints_keep_their_distance(a: int, b: int, every: int, steps: int)
    requires
        every > 0,
        0 < a < b < steps,
        saved_after(a, every, steps),
        saved_after(b, every, steps),
    ensures
        b - a >= every,
{
    assert(b - a >= every) by (nonlinear_arith)
        requires
            every > 0,
            a < b,
            a % every == 0,
            b % every == 0,
    ;
}

/// A file describes the model of a checkpoint when everything agrees that shapes
/// its tensors or its batches.
pub proof fn law_files_that_describe_the_model(a: TrainConfig, b: TrainConfig)
    ensures
        same_model(a, b) <==> {
            &&& a.architecture == b.architecture && a.rosa_bits == b.rosa_bits
            &&& a.d_model == b.d_model && a.n_layers == b.n_layers && a.vocab_size == b.vocab_size
            &&& a.context_len == b.context_len && a.batch_size == b.batch_size
            &&& a.ffn_width() == b.ffn_width()
        },
        same_model(a, b) ==> same_model(b, a),
        same_model(a, a),
{
}

/// A learning rate is a number above zero, and not infinite.
pub proof fn law_learning_rates(bits: u32, a: int, b: int)
    ensures
        is_rate(bits) <==> 1 <= bits <= 0x7f7f_ffff,
        a * b <= usize::MAX ==> capped_product(a, b) == a * b,
        a * b > usize::MAX ==> capped_product(a, b) == usize::MAX,
{
}

} // verus!
