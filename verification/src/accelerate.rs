//! Launch geometry of the fused mixture-of-bumps layer: tile sizes, scratch
//! budgets, the layout of partial gradients, and the choice of experts.
//!
//! Real numbers are IEEE-754 single-precision bit patterns; they are compared
//! here and never computed with.
use vstd::prelude::*;
use crate::decode::{magnitude, value_of, INFINITY_BITS, SIGN_BIT};

verus! {

/// Widest in-tile. A model may be wider.
pub const TILE_IN: u32 = 256;

/// Widest input that one tile holds.
pub const MAX_IN: u32 = TILE_IN;

pub const OUT_TILE: u32 = 32;

/// Tokens per tile of a backward launch.
pub const N_TILE: u32 = 16;

/// Floats of threadgroup memory.
pub const TG_SCRATCH_FLOATS: u32 = 8192;

/// Most bumps per input.
pub const MAX_G: u32 = 16;

/// Most experts.
pub const MAX_K: u32 = 4;

/// Why a launch descriptor is turned away.
#[derive(Clone, Copy, Debug, PartialEq, Eq, Structural)]
pub enum SpecError {
    DimensionTooLarge,
    NoTokens,
    NoFeatures,
    BumpCount,
    TooManyExperts,
    NoSharedBumps,
    BumpSplit,
    BumpUse,
    RoutedWithoutExperts,
    BumpWidth,
    TileIn,
    TileOut,
    TileTokens,
    TopK,
    TopKAboveExperts,
    Factor,
    Scratch,
}

/// `a * b`, held at the largest `usize`.
pub open spec fn capped_product(a: int, b: int) -> int {
    if a * b <= usize::MAX {
        a * b
    } else {
        usize::MAX as int
    }
}

fn capped_mul(a: usize, b: usize) -> (p: usize)
    ensures
        p == capped_product(a as int, b as int),
{
    match a.checked_mul(b) {
        Some(p) => p,
        None => usize::MAX,
    }
}

/// A size as a 32-bit number.
pub fn u32_dim(v: usize) -> (dim: Result<u32, SpecError>)
    ensures
        match dim {
            Ok(d) => d == v,
            Err(e) => v > u32::MAX && e == SpecError::DimensionTooLarge,
        },
{
    if v as u64 > u32::MAX as u64 {
        Err(SpecError::DimensionTooLarge)
    } else {
        Ok(v as u32)
    }
}

/// A size as a signed 32-bit number.
pub fn i32_dim(v: usize) -> (dim: Result<i32, SpecError>)
    ensures
        match dim {
            Ok(d) => d == v,
            Err(e) => v > i32::MAX && e == SpecError::DimensionTooLarge,
        },
{
    if v as u64 > i32::MAX as u64 {
        Err(SpecError::DimensionTooLarge)
    } else {
        Ok(v as i32)
    }
}

/// Launch descriptor of the fused layer.
#[derive(Clone, Copy, Debug, PartialEq, Eq, Structural)]
pub struct MobKanSpec {
    pub n: u32,
    pub in_f: u32,
    pub out_f: u32,
    pub g: u32,
    pub gs: u32,
    pub gr: u32,
    pub k: u32,
    pub g_use: u32,
    pub phase: u32,
    pub coarse: u32,
    pub packed: u32,
    /// In-tile width. The model's `in_f` may exceed it.
    pub tile_in: u32,
    /// Out-tile width.
    pub out_tile: u32,
    /// Token-tile of the backward launch.
    pub n_tile: u32,
    /// 0: all experts. 1 or 2: that many per token after the full softmax.
    pub topk: u32,
    /// 1: shared-edge weights `[in, G]`.
    pub kan_factor: u32,
    pub pad0: u32,
    pub pad1: u32,
    /// Bit pattern of the inverse bump width.
    pub inv_width: u32,
    /// Bit pattern of the ternary threshold ratio.
    pub delta_ratio: u32,
}

/// The smaller of two numbers.
pub open spec fn smaller(a: int, b: int) -> int {
    if a <= b {
        a
    } else {
        b
    }
}

/// At least one.
pub open spec fn at_least_one(a: int) -> int {
    if a >= 1 {
        a
    } else {
        1
    }
}

/// The in-tile that threadgroup memory has room for.
pub open spec fn room_for_tile(g: int, k: int) -> int {
    let left = TG_SCRATCH_FLOATS - at_least_one(k) - TILE_IN;
    let per = if 1 + g <= u32::MAX {
        1 + g
    } else {
        u32::MAX as int
    };
    if left <= 0 {
        0
    } else {
        left / per
    }
}

/// The in-tile width of a layer.
pub open spec fn tile_for(in_f: int, g: int, k: int) -> int {
    at_least_one(smaller(smaller(in_f, TILE_IN as int), at_least_one(room_for_tile(g, k))))
}

/// `v` between one and `high`.
pub open spec fn between_one_and(v: int, high: int) -> int {
    at_least_one(smaller(v, high))
}

/// `a / b` rounded up.
pub open spec fn ceil_div(a: int, b: int) -> int {
    (a + b - 1) / b
}

impl MobKanSpec {
    /// Threadgroup floats for one token: `x`, the bumps, the gates, `phi`
    /// and one `rho` per expert.
    pub open spec fn token_floats(self) -> int {
        self.tile_in + self.tile_in * self.g + at_least_one(self.k as int) + self.tile_in
            + at_least_one(self.k as int) * self.tile_in
    }

    /// Tokens that a backward threadgroup can hold at once: at most four.
    pub open spec fn token_slots(self) -> int {
        let one = self.token_floats() + self.out_f;
        if one > TG_SCRATCH_FLOATS {
            1
        } else {
            smaller(
                smaller(
                    1 + (TG_SCRATCH_FLOATS - one) / at_least_one(self.token_floats()),
                    self.n_tile as int,
                ),
                4,
            )
        }
    }

    /// Threadgroup floats of a backward launch.
    pub open spec fn scratch(self) -> int {
        self.token_floats() + self.out_f + self.token_floats() * (if self.token_slots() >= 1 {
            self.token_slots() - 1
        } else {
            0
        })
    }

    /// The first rule that the descriptor breaks.
    pub open spec fn error(self) -> Option<SpecError> {
        if self.n == 0 {
            Some(SpecError::NoTokens)
        } else if self.in_f == 0 || self.out_f == 0 {
            Some(SpecError::NoFeatures)
        } else if self.g == 0 || self.g > MAX_G {
            Some(SpecError::BumpCount)
        } else if self.k > MAX_K {
            Some(SpecError::TooManyExperts)
        } else if self.gs == 0 {
            Some(SpecError::NoSharedBumps)
        } else if self.gs + self.gr != self.g {
            Some(SpecError::BumpSplit)
        } else if self.g_use == 0 || self.g_use > self.gs {
            Some(SpecError::BumpUse)
        } else if self.gr > 0 && self.k == 0 {
            Some(SpecError::RoutedWithoutExperts)
        } else if !(0 < self.inv_width < INFINITY_BITS) {
            Some(SpecError::BumpWidth)
        } else if self.tile_in == 0 || self.tile_in > self.in_f {
            Some(SpecError::TileIn)
        } else if self.out_tile == 0 || self.out_tile > self.out_f {
            Some(SpecError::TileOut)
        } else if self.n_tile == 0 || self.n_tile > self.n {
            Some(SpecError::TileTokens)
        } else if self.topk > 2 {
            Some(SpecError::TopK)
        } else if self.topk > self.k && self.k > 0 {
            Some(SpecError::TopKAboveExperts)
        } else if self.kan_factor != 1 {
            Some(SpecError::Factor)
        } else if self.scratch() > TG_SCRATCH_FLOATS {
            Some(SpecError::Scratch)
        } else {
            None
        }
    }

    /// The in-tile width of a layer.
    pub fn choose_tile_in(in_f: u32, g: u32, k: u32) -> (tile: u32)
        ensures
            tile == tile_for(in_f as int, g as int, k as int),
            1 <= tile <= TILE_IN,
    {
        let k: u32 = if k >= 1 {
            k
        } else {
            1
        };
        let per: u32 = g.saturating_add(1);
        let left: u32 = TG_SCRATCH_FLOATS.saturating_sub(k).saturating_sub(TILE_IN);
        let room: u32 = left / per;
        let room: u32 = if room >= 1 {
            room
        } else {
            1
        };
        let tile: u32 = if in_f <= TILE_IN {
            in_f
        } else {
            TILE_IN
        };
        let tile: u32 = if tile <= room {
            tile
        } else {
            room
        };
        proof {
            let l = left as int;
            let p = per as int;
            assert(l / p >= 0) by (nonlinear_arith)
                requires
                    l >= 0,
                    p > 0,
            ;
        }
        if tile >= 1 {
            tile
        } else {
            1
        }
    }

    /// A checked descriptor with the default tiles.
    pub fn new(
        n: usize,
        in_f: usize,
        out_f: usize,
        g: usize,
        gs: usize,
        gr: usize,
        k: usize,
        g_use: usize,
        phase: u8,
        coarse: bool,
        packed: bool,
        inv_width: u32,
        delta_ratio: u32,
    ) -> (made: Result<Self, SpecError>)
        ensures
            ({
                let fits = n <= u32::MAX && in_f <= u32::MAX && out_f <= u32::MAX && g <= u32::MAX
                    && gs <= u32::MAX && gr <= u32::MAX && k <= u32::MAX && g_use <= u32::MAX;
                let spec = MobKanSpec {
                    n: n as u32,
                    in_f: in_f as u32,
                    out_f: out_f as u32,
                    g: g as u32,
                    gs: gs as u32,
                    gr: gr as u32,
                    k: k as u32,
                    g_use: g_use as u32,
                    phase: phase as u32,
                    coarse: if coarse {
                        1
                    } else {
                        0
                    },
                    packed: if packed {
                        1
                    } else {
                        0
                    },
                    tile_in: tile_for(in_f as int, g as int, k as int) as u32,
                    out_tile: between_one_and(out_f as int, OUT_TILE as int) as u32,
                    n_tile: between_one_and(n as int, N_TILE as int) as u32,
                    topk: 0,
                    kan_factor: 1,
                    pad0: 0,
                    pad1: 0,
                    inv_width,
                    delta_ratio,
                };
                match made {
                    Ok(s) => fits && s == spec && spec.error() is None,
                    Err(e) => if fits {
                        spec.error() == Some(e)
                    } else {
                        e == SpecError::DimensionTooLarge
                    },
                }
            }),
    {
        let all_fit: bool = u32_dim(n).is_ok() && u32_dim(in_f).is_ok() && u32_dim(out_f).is_ok()
            && u32_dim(g).is_ok() && u32_dim(gs).is_ok() && u32_dim(gr).is_ok() && u32_dim(
            k,
        ).is_ok() && u32_dim(g_use).is_ok();
        if !all_fit {
            return Err(SpecError::DimensionTooLarge);
        }
        let n: u32 = n as u32;
        let out_f: u32 = out_f as u32;
        let out_tile: u32 = if out_f < 1 {
            1
        } else if out_f <= OUT_TILE {
            out_f
        } else {
            OUT_TILE
        };
        let n_tile: u32 = if n < 1 {
            1
        } else if n <= N_TILE {
            n
        } else {
            N_TILE
        };
        let spec = MobKanSpec {
            n,
            in_f: in_f as u32,
            out_f,
            g: g as u32,
            gs: gs as u32,
            gr: gr as u32,
            k: k as u32,
            g_use: g_use as u32,
            phase: phase as u32,
            coarse: if coarse {
                1
            } else {
                0
            },
            packed: if packed {
                1
            } else {
                0
            },
            tile_in: Self::choose_tile_in(in_f as u32, g as u32, k as u32),
            out_tile,
            n_tile,
            topk: 0,
            kan_factor: 1,
            pad0: 0,
            pad1: 0,
            inv_width,
            delta_ratio,
        };
        match spec.validate() {
            Ok(_) => Ok(spec),
            Err(e) => Err(e),
        }
    }

    /// The descriptor with other tiles, when they are admissible.
    pub fn force_tiles(self, tile_in: u32, out_tile: u32, n_tile: u32) -> (made: Result<
        Self,
        SpecError,
    >)
        ensures
            ({
                let spec = MobKanSpec { tile_in, out_tile, n_tile, ..self };
                match made {
                    Ok(s) => s == spec && spec.error() is None,
                    Err(e) => spec.error() == Some(e),
                }
            }),
    {
        let mut spec = self;
        spec.tile_in = tile_in;
        spec.out_tile = out_tile;
        spec.n_tile = n_tile;
        match spec.validate() {
            Ok(_) => Ok(spec),
            Err(e) => Err(e),
        }
    }

    /// The descriptor with another expert count per token.
    pub fn with_topk(self, topk: u32) -> (made: Result<Self, SpecError>)
        ensures
            ({
                let spec = MobKanSpec { topk, ..self };
                match made {
                    Ok(s) => s == spec && spec.error() is None,
                    Err(e) => spec.error() == Some(e),
                }
            }),
    {
        let mut spec = self;
        spec.topk = topk;
        match spec.validate() {
            Ok(_) => Ok(spec),
            Err(e) => Err(e),
        }
    }

    /// The descriptor with shared-edge weights; there is no other kind.
    pub fn with_kan_factor(self, kan_factor: u32) -> (made: Result<Self, SpecError>)
        ensures
            ({
                let spec = MobKanSpec { kan_factor, ..self };
                match made {
                    Ok(s) => kan_factor == 1 && s == spec && spec.error() is None,
                    Err(e) => if kan_factor != 1 {
                        e == SpecError::Factor
                    } else {
                        spec.error() == Some(e)
                    },
                }
            }),
    {
        if kan_factor != 1 {
            return Err(SpecError::Factor);
        }
        let mut spec = self;
        spec.kan_factor = 1;
        match spec.validate() {
            Ok(_) => Ok(spec),
            Err(e) => Err(e),
        }
    }

    /// Checks the descriptor.
    pub fn validate(&self) -> (verdict: Result<(), SpecError>)
        ensures
            match verdict {
                Ok(_) => self.error() is None,
                Err(e) => self.error() == Some(e),
            },
    {
        if self.n == 0 {
            return Err(SpecError::NoTokens);
        }
        if self.in_f == 0 || self.out_f == 0 {
            return Err(SpecError::NoFeatures);
        }
        if self.g == 0 || self.g > MAX_G {
            return Err(SpecError::BumpCount);
        }
        if self.k > MAX_K {
            return Err(SpecError::TooManyExperts);
        }
        if self.gs == 0 {
            return Err(SpecError::NoSharedBumps);
        }
        if self.gs as u64 + self.gr as u64 != self.g as u64 {
            return Err(SpecError::BumpSplit);
        }
        if self.g_use == 0 || self.g_use > self.gs {
            return Err(SpecError::BumpUse);
        }
        if self.gr > 0 && self.k == 0 {
            return Err(SpecError::RoutedWithoutExperts);
        }
        if self.inv_width == 0 || self.inv_width >= INFINITY_BITS {
            return Err(SpecError::BumpWidth);
        }
        if self.tile_in == 0 || self.tile_in > self.in_f {
            return Err(SpecError::TileIn);
        }
        if self.out_tile == 0 || self.out_tile > self.out_f {
            return Err(SpecError::TileOut);
        }
        if self.n_tile == 0 || self.n_tile > self.n {
            return Err(SpecError::TileTokens);
        }
        if self.topk > 2 {
            return Err(SpecError::TopK);
        }
        if self.topk > self.k && self.k > 0 {
            return Err(SpecError::TopKAboveExperts);
        }
        if self.kan_factor != 1 {
            return Err(SpecError::Factor);
        }
        if self.scratch_wide() > TG_SCRATCH_FLOATS as u128 {
            return Err(SpecError::Scratch);
        }
        Ok(())
    }

    fn token_floats_wide(&self) -> (floats: u128)
        ensures
            floats == self.token_floats(),
            1 <= floats <= 3 * 0x1_0000_0000_0000_0000,
    {
        let tile: u128 = self.tile_in as u128;
        let g: u128 = self.g as u128;
        let k: u128 = if self.k >= 1 {
            self.k as u128
        } else {
            1
        };
        assert(tile * g <= 0xffff_ffff * 0xffff_ffff && k * tile <= 0xffff_ffff * 0xffff_ffff)
            by (nonlinear_arith)
            requires
                tile <= 0xffff_ffff,
                g <= 0xffff_ffff,
                k <= 0xffff_ffff,
        ;
        tile + tile * g + k + tile + k * tile
    }

    /// Tokens that a backward threadgroup can hold at once.
    pub fn bwd_tok_par(&self) -> (slots: u32)
        ensures
            slots == self.token_slots(),
            slots <= 4,
    {
        let token: u128 = self.token_floats_wide();
        let one: u128 = token + self.out_f as u128;
        if one > TG_SCRATCH_FLOATS as u128 {
            return 1;
        }
        let room: u128 = TG_SCRATCH_FLOATS as u128 - one;
        let extra: u128 = room / token;
        proof {
            let r = room as int;
            let t = token as int;
            assert(r / t <= r) by (nonlinear_arith)
                requires
                    r >= 0,
                    t >= 1,
            ;
        }
        let slots: u32 = 1 + extra as u32;
        let slots: u32 = if slots <= self.n_tile {
            slots
        } else {
            self.n_tile
        };
        if slots <= 4 {
            slots
        } else {
            4
        }
    }

    fn scratch_wide(&self) -> (floats: u128)
        ensures
            floats == self.scratch(),
    {
        let token: u128 = self.token_floats_wide();
        let slots: u32 = self.bwd_tok_par();
        let more: u128 = if slots >= 1 {
            slots as u128 - 1
        } else {
            0
        };
        assert(token * more <= 3 * 0x1_0000_0000_0000_0000 * 3) by (nonlinear_arith)
            requires
                token <= 3 * 0x1_0000_0000_0000_0000,
                more <= 3,
        ;
        token + self.out_f as u128 + token * more
    }

    /// Threadgroup floats for one token.
    pub fn scratch_token_floats(&self) -> (floats: usize)
        requires
            self.token_floats() <= usize::MAX,
        ensures
            floats == self.token_floats(),
    {
        self.token_floats_wide() as usize
    }

    /// Threadgroup floats of a forward launch: one token and the output cache.
    pub fn scratch_floats_fwd(&self) -> (floats: usize)
        requires
            self.token_floats() <= usize::MAX,
        ensures
            floats == smaller(self.token_floats() + self.out_f, usize::MAX as int),
    {
        clip(self.token_floats_wide() + self.out_f as u128)
    }

    /// Threadgroup floats of a backward launch.
    pub fn scratch_floats(&self) -> (floats: usize)
        requires
            self.token_floats() <= usize::MAX,
        ensures
            floats == smaller(self.scratch(), usize::MAX as int),
    {
        clip(self.scratch_wide())
    }

    /// Tokens.
    pub fn n_us(&self) -> (v: usize)
        ensures
            v == self.n,
    {
        self.n as usize
    }

    /// Inputs.
    pub fn in_us(&self) -> (v: usize)
        ensures
            v == self.in_f,
    {
        self.in_f as usize
    }

    /// Outputs.
    pub fn out_us(&self) -> (v: usize)
        ensures
            v == self.out_f,
    {
        self.out_f as usize
    }

    /// Bumps per input.
    pub fn g_us(&self) -> (v: usize)
        ensures
            v == self.g,
    {
        self.g as usize
    }

    /// Shared bumps per input.
    pub fn gs_us(&self) -> (v: usize)
        ensures
            v == self.gs,
    {
        self.gs as usize
    }

    /// Routed bumps per input.
    pub fn gr_us(&self) -> (v: usize)
        ensures
            v == self.gr,
    {
        self.gr as usize
    }

    /// Experts.
    pub fn k_us(&self) -> (v: usize)
        ensures
            v == self.k,
    {
        self.k as usize
    }

    /// Shared bumps in use.
    pub fn g_use_us(&self) -> (v: usize)
        ensures
            v == self.g_use,
    {
        self.g_use as usize
    }

    /// Width of an in-tile.
    pub fn tile_in_us(&self) -> (v: usize)
        ensures
            v == self.tile_in,
    {
        self.tile_in as usize
    }

    /// Width of an out-tile.
    pub fn out_tile_us(&self) -> (v: usize)
        ensures
            v == self.out_tile,
    {
        self.out_tile as usize
    }

    /// Tokens of a tile.
    pub fn n_tile_us(&self) -> (v: usize)
        ensures
            v == self.n_tile,
    {
        self.n_tile as usize
    }

    /// Experts per token.
    pub fn topk_us(&self) -> (v: usize)
        ensures
            v == self.topk,
    {
        self.topk as usize
    }

    /// All experts take part.
    pub fn dense_router(&self) -> (dense: bool)
        ensures
            dense == (self.topk == 0 || self.k == 0 || self.topk >= self.k),
    {
        self.topk == 0 || self.k == 0 || self.topk >= self.k
    }

    /// Weights are shared over the outputs.
    pub fn shared_edge(&self) -> (shared: bool)
        ensures
            shared == (self.kan_factor == 1),
    {
        self.kan_factor == 1
    }

    /// Weights are rounded while training.
    pub fn quantize(&self) -> (yes: bool)
        ensures
            yes == (self.phase >= 3 && self.packed == 0),
    {
        self.phase >= 3 && self.packed == 0
    }

    /// Weights are ternary codes.
    pub fn use_codes(&self) -> (yes: bool)
        ensures
            yes == (self.packed != 0),
    {
        self.packed != 0
    }

    /// The routed bumps do not take part.
    pub open spec fn routed_masked(self) -> bool {
        self.coarse != 0 || self.gr == 0 || self.k == 0
    }

    /// The routed bumps do not take part.
    pub fn mask_routed(&self) -> (masked: bool)
        ensures
            masked == self.routed_masked(),
    {
        self.coarse != 0 || self.gr == 0 || self.k == 0
    }

    /// Token tiles of a launch.
    pub open spec fn token_tiles(self) -> int {
        ceil_div(self.n as int, at_least_one(self.n_tile as int))
    }

    /// Output tiles of a launch.
    pub open spec fn output_tiles(self) -> int {
        ceil_div(self.out_f as int, at_least_one(self.out_tile as int))
    }

    /// Token tiles of a launch.
    pub fn n_tiles(&self) -> (tiles: usize)
        ensures
            tiles == self.token_tiles(),
    {
        tiles(self.n, self.n_tile) as usize
    }

    /// Output tiles of a launch.
    pub fn out_tiles(&self) -> (tiles: usize)
        ensures
            tiles == self.output_tiles(),
    {
        tiles(self.out_f, self.out_tile) as usize
    }

    /// Numbers in the input.
    pub fn x_len(&self) -> (len: usize)
        requires
            self.n * self.in_f <= usize::MAX,
        ensures
            len == self.n * self.in_f,
    {
        self.n as usize * self.in_f as usize
    }

    /// Numbers in the output.
    pub fn y_len(&self) -> (len: usize)
        requires
            self.n * self.out_f <= usize::MAX,
        ensures
            len == self.n * self.out_f,
    {
        self.n as usize * self.out_f as usize
    }

    /// Base weights.
    pub fn w_base_len(&self) -> (len: usize)
        requires
            self.out_f * self.in_f <= usize::MAX,
        ensures
            len == self.out_f * self.in_f,
    {
        self.out_f as usize * self.in_f as usize
    }

    /// Shared bump weights.
    pub open spec fn shared_weights(self) -> int {
        if self.kan_factor == 1 {
            self.in_f * self.gs
        } else {
            self.out_f * self.in_f * self.gs
        }
    }

    /// Shared bump weights.
    pub fn w_shared_len(&self) -> (len: usize)
        requires
            self.kan_factor != 1 ==> self.out_f * self.in_f <= usize::MAX,
            self.shared_weights() <= usize::MAX,
        ensures
            len == self.shared_weights(),
    {
        if self.kan_factor == 1 {
            self.in_f as usize * self.gs as usize
        } else {
            self.out_f as usize * self.in_f as usize * self.gs as usize
        }
    }

    /// Router weights.
    pub fn router_len(&self) -> (len: usize)
        requires
            self.k * self.in_f <= usize::MAX,
        ensures
            len == self.k * self.in_f,
    {
        self.k as usize * self.in_f as usize
    }

    /// Routed bump weights.
    pub open spec fn routed_weights(self) -> int {
        if self.kan_factor == 1 {
            self.k * self.in_f * self.gr
        } else {
            self.k * self.out_f * self.in_f * self.gr
        }
    }

    /// Routed bump weights.
    pub fn w_routed_len(&self) -> (len: usize)
        requires
            self.kan_factor == 1 ==> self.k * self.in_f <= usize::MAX,
            self.kan_factor != 1 ==> self.k * self.out_f <= usize::MAX && self.k * self.out_f
                * self.in_f <= usize::MAX,
            self.routed_weights() <= usize::MAX,
        ensures
            len == self.routed_weights(),
    {
        if self.kan_factor == 1 {
            self.k as usize * self.in_f as usize * self.gr as usize
        } else {
            self.k as usize * self.out_f as usize * self.in_f as usize * self.gr as usize
        }
    }

    /// Bump centers.
    pub fn centers_len(&self) -> (len: usize)
        ensures
            len == self.g,
    {
        self.g as usize
    }

    /// Scales of the base weights.
    pub fn scale_vec_len(&self) -> (len: usize)
        ensures
            len == self.out_f,
    {
        self.out_f as usize
    }

    /// Scales of the shared bumps.
    pub open spec fn shared_scales(self) -> int {
        if self.kan_factor == 1 {
            self.in_f as int
        } else {
            self.out_f as int
        }
    }

    /// Scales of the shared bumps.
    pub fn scale_shared_len(&self) -> (len: usize)
        ensures
            len == self.shared_scales(),
    {
        if self.kan_factor == 1 {
            self.in_f as usize
        } else {
            self.out_f as usize
        }
    }

    /// Scales of the routed bumps: one row per expert, and never none.
    pub open spec fn routed_scales(self) -> int {
        at_least_one(self.k as int) * self.shared_scales()
    }

    /// Scales of the routed bumps.
    pub fn scale_routed_len(&self) -> (len: usize)
        requires
            self.routed_scales() <= usize::MAX,
        ensures
            len == self.routed_scales(),
    {
        let k: usize = if self.k >= 1 {
            self.k as usize
        } else {
            1
        };
        k * self.scale_shared_len()
    }
}

/// The lengths of what is handed to the fused layer.
#[derive(Clone, Copy, Debug, PartialEq, Eq, Structural)]
pub struct FusedLens {
    pub x: usize,
    pub y: usize,
    pub w_base: usize,
    pub w_shared: usize,
    pub centers: usize,
    pub inv_widths: usize,
    pub scale_base: usize,
    pub scale_shared: usize,
}

/// Why the fused layer is not run.
#[derive(Clone, Copy, Debug, PartialEq, Eq, Structural)]
pub enum FusedError {
    Spec(SpecError),
    Input { found: usize, expected: usize },
    Output { found: usize, expected: usize },
    BaseWeights,
    SharedWeights,
    Centers,
    InverseWidths { found: usize, expected: usize },
    Scales,
    BackwardShape,
    BackwardInput,
}

/// The sizes of a layer fit in memory.
pub open spec fn addressable(spec: MobKanSpec) -> bool {
    &&& spec.n * spec.in_f <= usize::MAX
    &&& spec.n * spec.out_f <= usize::MAX
    &&& spec.out_f * spec.in_f <= usize::MAX
    &&& spec.shared_weights() <= usize::MAX
}

/// The first rule that the tensors of a forward run break.
pub open spec fn fused_error(spec: MobKanSpec, lens: FusedLens) -> Option<FusedError> {
    if spec.error() is Some {
        Some(FusedError::Spec(spec.error()->0))
    } else if lens.x != spec.n * spec.in_f {
        Some(FusedError::Input { found: lens.x, expected: (spec.n * spec.in_f) as usize })
    } else if lens.y != spec.n * spec.out_f {
        Some(FusedError::Output { found: lens.y, expected: (spec.n * spec.out_f) as usize })
    } else if lens.w_base != spec.out_f * spec.in_f {
        Some(FusedError::BaseWeights)
    } else if lens.w_shared != spec.shared_weights() {
        Some(FusedError::SharedWeights)
    } else if lens.centers != spec.g {
        Some(FusedError::Centers)
    } else if lens.inv_widths != 0 && lens.inv_widths != 1 && lens.inv_widths != spec.g {
        Some(FusedError::InverseWidths { found: lens.inv_widths, expected: spec.g as usize })
    } else if lens.scale_base != spec.out_f || lens.scale_shared != spec.shared_scales() {
        Some(FusedError::Scales)
    } else {
        None
    }
}

/// Checks the tensors of a forward run.
pub fn check_fused(spec: &MobKanSpec, lens: &FusedLens) -> (verdict: Result<(), FusedError>)
    requires
        addressable(*spec),
    ensures
        match verdict {
            Ok(_) => fused_error(*spec, *lens) is None,
            Err(e) => fused_error(*spec, *lens) == Some(e),
        },
{
    match spec.validate() {
        Ok(_) => {},
        Err(e) => return Err(FusedError::Spec(e)),
    }
    let x: usize = spec.x_len();
    if lens.x != x {
        return Err(FusedError::Input { found: lens.x, expected: x });
    }
    let y: usize = spec.y_len();
    if lens.y != y {
        return Err(FusedError::Output { found: lens.y, expected: y });
    }
    if lens.w_base != spec.w_base_len() {
        return Err(FusedError::BaseWeights);
    }
    if lens.w_shared != spec.w_shared_len() {
        return Err(FusedError::SharedWeights);
    }
    let g: usize = spec.centers_len();
    if lens.centers != g {
        return Err(FusedError::Centers);
    }
    if lens.inv_widths != 0 && lens.inv_widths != 1 && lens.inv_widths != g {
        return Err(FusedError::InverseWidths { found: lens.inv_widths, expected: g });
    }
    if lens.scale_base != spec.scale_vec_len() || lens.scale_shared != spec.scale_shared_len() {
        return Err(FusedError::Scales);
    }
    Ok(())
}

/// What is done with a backward run.
#[derive(Clone, Copy, Debug, PartialEq, Eq, Structural)]
pub enum BackwardRun {
    /// A packed layer has no gradients: the input gradient is zero.
    Nothing,
    Run,
}

/// What the tensors of a backward run come to.
pub open spec fn backward_run(spec: MobKanSpec, x: usize, dy: usize, dx: usize) -> Result<
    BackwardRun,
    FusedError,
> {
    if spec.error() is Some {
        Err(FusedError::Spec(spec.error()->0))
    } else if spec.packed != 0 {
        Ok(BackwardRun::Nothing)
    } else if x != spec.n * spec.in_f || dy != spec.n * spec.out_f {
        Err(FusedError::BackwardShape)
    } else if dx < spec.n * spec.in_f {
        Err(FusedError::BackwardInput)
    } else {
        Ok(BackwardRun::Run)
    }
}

/// Checks the tensors of a backward run: the input, the output gradient, and
/// the room for the input gradient.
pub fn check_fused_bwd(spec: &MobKanSpec, x: usize, dy: usize, dx: usize) -> (run: Result<
    BackwardRun,
    FusedError,
>)
    requires
        addressable(*spec),
    ensures
        run == backward_run(*spec, x, dy, dx),
{
    match spec.validate() {
        Ok(_) => {},
        Err(e) => return Err(FusedError::Spec(e)),
    }
    if spec.packed != 0 {
        return Ok(BackwardRun::Nothing);
    }
    if x != spec.x_len() || dy != spec.y_len() {
        return Err(FusedError::BackwardShape);
    }
    if dx < spec.x_len() {
        return Err(FusedError::BackwardInput);
    }
    Ok(BackwardRun::Run)
}

/// `n`, held at the largest `usize`.
fn clip(n: u128) -> (c: usize)
    ensures
        c == smaller(n as int, usize::MAX as int),
{
    if n <= usize::MAX as u128 {
        n as usize
    } else {
        usize::MAX
    }
}

fn tiles(total: u32, tile: u32) -> (n: u32)
    ensures
        n == ceil_div(total as int, at_least_one(tile as int)),
        n <= total,
{
    let tile: u32 = if tile >= 1 {
        tile
    } else {
        1
    };
    let whole: u32 = total / tile;
    proof {
        let t = total as int;
        let s = tile as int;
        assert(t % s == 0 ==> (t + s - 1) / s == t / s) by (nonlinear_arith)
            requires
                t >= 0,
                s >= 1,
        ;
        assert(t % s != 0 ==> (t + s - 1) / s == t / s + 1) by (nonlinear_arith)
            requires
                t >= 0,
                s >= 1,
        ;
        assert(t / s <= t && (t % s != 0 ==> t / s < t)) by (nonlinear_arith)
            requires
                t >= 0,
                s >= 1,
        ;
    }
    if total % tile == 0 {
        whole
    } else {
        whole + 1
    }
}

/// Layout of the partial gradients of one in-tile: a grid of
/// `n_tiles * out_tiles` threadgroups, each with its part of nine regions.
#[derive(Clone, Copy, Debug, PartialEq, Eq, Structural)]
pub struct BwdPartialLayout {
    pub n_tiles: usize,
    pub out_tiles: usize,
    pub tin: usize,
    pub n_tile: usize,
    pub out_tile: usize,
    pub gs: usize,
    pub gr: usize,
    pub k: usize,
    pub g: usize,
    pub off_base: usize,
    pub off_shared: usize,
    pub off_routed: usize,
    pub off_dx: usize,
    pub off_dsb: usize,
    pub off_dss: usize,
    pub off_dsr: usize,
    pub off_dc: usize,
    pub off_dg: usize,
    pub floats: usize,
}

/// The nine regions by their sizes, in order: base rows, shared bumps, routed
/// bumps, input gradients, base scales, shared scales, routed scales, centers
/// and gates.
pub open spec fn region_sizes(spec: MobKanSpec) -> Seq<int> {
    let groups = spec.token_tiles() * spec.output_tiles();
    let tin = spec.tile_in as int;
    let ot = spec.out_tile as int;
    let nt = spec.n_tile as int;
    let gs = at_least_one(spec.gs as int);
    let gr = at_least_one(spec.gr as int);
    let k = at_least_one(spec.k as int);
    seq![
        groups * ot * tin,
        groups * tin * gs,
        groups * k * tin * gr,
        groups * nt * tin,
        groups * ot,
        groups * tin,
        groups * k * tin,
        groups * spec.g,
        groups * nt * ot * k,
    ]
}

/// Sum of the first `n` sizes.
pub open spec fn sum_of(sizes: Seq<int>, n: int) -> int
    decreases n,
{
    if n <= 0 {
        0
    } else {
        sum_of(sizes, n - 1) + sizes[n - 1]
    }
}

/// The product of a held number and `f`, held in the same way. `full` is the
/// number without the limit.
fn scaled(held: usize, f: usize, Ghost(full): Ghost<int>) -> (product: usize)
    requires
        full >= 0,
        held == smaller(full, usize::MAX as int),
    ensures
        product == smaller(full * f, usize::MAX as int),
        full * f >= 0,
{
    let product: usize = capped_mul(held, f);
    proof {
        let limit = usize::MAX as int;
        let n = f as int;
        assert(full * n >= 0) by (nonlinear_arith)
            requires
                full >= 0,
                n >= 0,
        ;
        if full > limit {
            assert(n >= 1 ==> full * n > limit && limit * n >= limit) by (nonlinear_arith)
                requires
                    full > limit,
                    limit > 0,
            ;
            assert(n == 0 ==> full * n == 0 && limit * n == 0) by (nonlinear_arith);
        }
    }
    product
}

impl BwdPartialLayout {
    /// The layout that a descriptor asks for.
    pub open spec fn lays_out(self, spec: MobKanSpec) -> bool {
        let sizes = region_sizes(spec);
        &&& self.n_tiles == spec.token_tiles()
        &&& self.out_tiles == spec.output_tiles()
        &&& self.tin == spec.tile_in
        &&& self.n_tile == spec.n_tile
        &&& self.out_tile == spec.out_tile
        &&& self.gs == at_least_one(spec.gs as int)
        &&& self.gr == at_least_one(spec.gr as int)
        &&& self.k == at_least_one(spec.k as int)
        &&& self.g == spec.g
        &&& self.off_base == sum_of(sizes, 0)
        &&& self.off_shared == sum_of(sizes, 1)
        &&& self.off_routed == sum_of(sizes, 2)
        &&& self.off_dx == sum_of(sizes, 3)
        &&& self.off_dsb == sum_of(sizes, 4)
        &&& self.off_dss == sum_of(sizes, 5)
        &&& self.off_dsr == sum_of(sizes, 6)
        &&& self.off_dc == sum_of(sizes, 7)
        &&& self.off_dg == sum_of(sizes, 8)
        &&& self.floats == sum_of(sizes, 9)
    }

    /// Lays the nine regions out one after the other.
    #[verifier::rlimit(40)]
    pub fn from_spec(spec: &MobKanSpec) -> (layout: Self)
        requires
            sum_of(region_sizes(*spec), 9) <= usize::MAX,
        ensures
            layout.lays_out(*spec),
    {
        let ghost sizes = region_sizes(*spec);
        proof {
            lemma_sizes_nonnegative(*spec);
            lemma_partial_sums(sizes);
        }
        let n_tiles: usize = spec.n_tiles();
        let out_tiles: usize = spec.out_tiles();
        let ghost full = spec.token_tiles() * spec.output_tiles();
        let groups: usize = capped_mul(n_tiles, out_tiles);
        let tin: usize = spec.tile_in as usize;
        let ot: usize = spec.out_tile as usize;
        let nt: usize = spec.n_tile as usize;
        let gs: usize = if spec.gs >= 1 {
            spec.gs as usize
        } else {
            1
        };
        let gr: usize = if spec.gr >= 1 {
            spec.gr as usize
        } else {
            1
        };
        let k: usize = if spec.k >= 1 {
            spec.k as usize
        } else {
            1
        };
        let g: usize = spec.g as usize;
        let group_out: usize = scaled(groups, ot, Ghost(full));
        let group_in: usize = scaled(groups, tin, Ghost(full));
        let group_k: usize = scaled(groups, k, Ghost(full));
        let group_tokens: usize = scaled(groups, nt, Ghost(full));
        let group_k_in: usize = scaled(group_k, tin, Ghost(full * k));
        let group_tokens_out: usize = scaled(group_tokens, ot, Ghost(full * nt));
        let off_shared: usize = scaled(group_out, tin, Ghost(full * ot));
        let off_routed: usize = off_shared + scaled(group_in, gs, Ghost(full * tin));
        let off_dx: usize = off_routed + scaled(group_k_in, gr, Ghost(full * k * tin));
        let off_dsb: usize = off_dx + scaled(group_tokens, tin, Ghost(full * nt));
        let off_dss: usize = off_dsb + group_out;
        let off_dsr: usize = off_dss + group_in;
        let off_dc: usize = off_dsr + group_k_in;
        let off_dg: usize = off_dc + scaled(groups, g, Ghost(full));
        let floats: usize = off_dg + scaled(group_tokens_out, k, Ghost(full * nt * ot));
        BwdPartialLayout {
            n_tiles,
            out_tiles,
            tin,
            n_tile: nt,
            out_tile: ot,
            gs,
            gr,
            k,
            g,
            off_base: 0,
            off_shared,
            off_routed,
            off_dx,
            off_dsb,
            off_dss,
            off_dsr,
            off_dc,
            off_dg,
            floats,
        }
    }

    /// Number of the threadgroup of a token tile and an output tile.
    pub open spec fn group(self, nt: int, ot: int) -> int {
        nt * self.out_tiles + ot
    }

    /// Number of the threadgroup of a token tile and an output tile.
    pub fn tg_index(&self, nt: usize, ot: usize) -> (index: usize)
        ensures
            index == smaller(self.group(nt as int, ot as int), usize::MAX as int),
    {
        let row: usize = capped_mul(nt, self.out_tiles);
        row.saturating_add(ot)
    }
}

proof fn lemma_partial_sums(sizes: Seq<int>)
    ensures
        sum_of(sizes, 0) == 0,
        sum_of(sizes, 1) == sizes[0],
        sum_of(sizes, 2) == sum_of(sizes, 1) + sizes[1],
        sum_of(sizes, 3) == sum_of(sizes, 2) + sizes[2],
        sum_of(sizes, 4) == sum_of(sizes, 3) + sizes[3],
        sum_of(sizes, 5) == sum_of(sizes, 4) + sizes[4],
        sum_of(sizes, 6) == sum_of(sizes, 5) + sizes[5],
        sum_of(sizes, 7) == sum_of(sizes, 6) + sizes[6],
        sum_of(sizes, 8) == sum_of(sizes, 7) + sizes[7],
        sum_of(sizes, 9) == sum_of(sizes, 8) + sizes[8],
{
    reveal_with_fuel(sum_of, 2);
}

proof fn lemma_sizes_nonnegative(spec: MobKanSpec)
    ensures
        forall|i: int| 0 <= i < 9 ==> #[trigger] region_sizes(spec)[i] >= 0,
{
    let a = spec.n as int;
    let b = at_least_one(spec.n_tile as int);
    let c = spec.out_f as int;
    let d = at_least_one(spec.out_tile as int);
    assert((a + b - 1) / b >= 0 && (c + d - 1) / d >= 0) by (nonlinear_arith)
        requires
            a >= 0,
            b >= 1,
            c >= 0,
            d >= 1,
    ;
    let x = spec.token_tiles();
    let y = spec.output_tiles();
    assert(x * y >= 0) by (nonlinear_arith)
        requires
            x >= 0,
            y >= 0,
    ;
    let groups = x * y;
    let tin = spec.tile_in as int;
    let ot = spec.out_tile as int;
    let nt = spec.n_tile as int;
    let gs = at_least_one(spec.gs as int);
    let gr = at_least_one(spec.gr as int);
    let k = at_least_one(spec.k as int);
    let g = spec.g as int;
    lemma_product4(groups, ot, tin, 1);
    lemma_product4(groups, tin, gs, 1);
    lemma_product4(groups, k, tin, gr);
    lemma_product4(groups, nt, tin, 1);
    lemma_product4(groups, nt, ot, k);
    lemma_product4(groups, g, 1, 1);
}

proof fn lemma_product4(a: int, b: int, c: int, d: int)
    requires
        a >= 0,
        b >= 0,
        c >= 0,
        d >= 0,
    ensures
        a * b >= 0,
        a * c >= 0,
        a * b * c >= 0,
        a * b * c * d >= 0,
{
    assert(a * b >= 0 && a * c >= 0) by (nonlinear_arith)
        requires
            a >= 0,
            b >= 0,
            c >= 0,
    ;
    let ab = a * b;
    assert(ab * c >= 0) by (nonlinear_arith)
        requires
            ab >= 0,
            c >= 0,
    ;
    let abc = ab * c;
    assert(abc * d >= 0) by (nonlinear_arith)
        requires
            abc >= 0,
            d >= 0,
    ;
}

/// The in-tile of a checked layer fits in threadgroup memory.
pub proof fn lemma_tile_is_small(spec: MobKanSpec)
    requires
        spec.error() is None,
    ensures
        1 <= spec.tile_in <= TG_SCRATCH_FLOATS,
{
    let tile = spec.tile_in as int;
    let g = spec.g as int;
    let k = at_least_one(spec.k as int);
    assert(tile * g >= 0 && k * tile >= 0) by (nonlinear_arith)
        requires
            tile >= 0,
            g >= 0,
            k >= 0,
    ;
    let token = spec.token_floats();
    let more = if spec.token_slots() >= 1 {
        spec.token_slots() - 1
    } else {
        0
    };
    assert(token * more >= 0) by (nonlinear_arith)
        requires
            token >= 0,
            more >= 0,
    ;
}

/// Rows of `width` numbers, one behind the other from `start` on, lie inside
/// their region and do not overlap.
pub proof fn law_rows_are_apart(start: int, width: int, rows: int, i: int, j: int)
    requires
        0 <= i < j < rows,
        width >= 0,
    ensures
        start <= start + i * width,
        start + i * width + width <= start + j * width,
        start + j * width + width <= start + rows * width,
{
    assert(0 <= i * width && i * width + width <= j * width && j * width + width <= rows * width)
        by (nonlinear_arith)
        requires
            0 <= i < j < rows,
            width >= 0,
    ;
}

/// The nine regions follow each other without gap or overlap and end at the
/// size of the slab.
pub proof fn law_regions_tile_the_slab(layout: BwdPartialLayout, spec: MobKanSpec)
    requires
        layout.lays_out(spec),
    ensures
        layout.off_base == 0,
        layout.off_base + region_sizes(spec)[0] == layout.off_shared,
        layout.off_shared + region_sizes(spec)[1] == layout.off_routed,
        layout.off_routed + region_sizes(spec)[2] == layout.off_dx,
        layout.off_dx + region_sizes(spec)[3] == layout.off_dsb,
        layout.off_dsb + region_sizes(spec)[4] == layout.off_dss,
        layout.off_dss + region_sizes(spec)[5] == layout.off_dsr,
        layout.off_dsr + region_sizes(spec)[6] == layout.off_dc,
        layout.off_dc + region_sizes(spec)[7] == layout.off_dg,
        layout.off_dg + region_sizes(spec)[8] == layout.floats,
        forall|i: int| 0 <= i < 9 ==> #[trigger] region_sizes(spec)[i] >= 0,
{
    lemma_sizes_nonnegative(spec);
    lemma_partial_sums(region_sizes(spec));
}

/// Each pair of a token tile and an output tile has a threadgroup of its own,
/// and all of them lie in the grid.
pub proof fn law_threadgroups_are_distinct(
    layout: BwdPartialLayout,
    nt: int,
    ot: int,
    other_nt: int,
    other_ot: int,
)
    requires
        0 <= nt < layout.n_tiles,
        0 <= ot < layout.out_tiles,
        0 <= other_nt < layout.n_tiles,
        0 <= other_ot < layout.out_tiles,
    ensures
        0 <= layout.group(nt, ot) < layout.n_tiles * layout.out_tiles,
        layout.group(nt, ot) == layout.group(other_nt, other_ot) <==> nt == other_nt && ot
            == other_ot,
{
    let w = layout.out_tiles as int;
    let n = layout.n_tiles as int;
    assert(0 <= nt * w + ot && nt * w + ot < n * w) by (nonlinear_arith)
        requires
            0 <= nt < n,
            0 <= ot < w,
    ;
    assert(nt < other_nt ==> nt * w + ot < other_nt * w + other_ot) by (nonlinear_arith)
        requires
            0 <= ot < w,
            0 <= other_ot,
    ;
    assert(other_nt < nt ==> other_nt * w + other_ot < nt * w + ot) by (nonlinear_arith)
        requires
            0 <= other_ot < w,
            0 <= ot,
    ;
}

/// Why a matrix product cannot be taken.
#[derive(Clone, Copy, Debug, PartialEq, Eq, Structural)]
pub enum GemmError {
    ShortA,
    ShortB,
    ShortC,
}

/// Whether `C[m, n] = A * B + C` can be taken, with `A` and `B` in any layout
/// of `m * k` and `k * n` numbers: an error when a matrix is too short, and
/// nothing to do when a dimension is zero.
pub fn check_gemm(m: usize, n: usize, k: usize, a_len: usize, b_len: usize, c_len: usize) -> (work:
    Result<bool, GemmError>)
    ensures
        match work {
            Ok(w) => a_len >= capped_product(m as int, k as int) && b_len >= capped_product(
                k as int,
                n as int,
            ) && c_len >= capped_product(m as int, n as int) && w == (m > 0 && n > 0 && k > 0),
            Err(e) => e == if a_len < capped_product(m as int, k as int) {
                GemmError::ShortA
            } else if b_len < capped_product(k as int, n as int) {
                GemmError::ShortB
            } else {
                GemmError::ShortC
            } && !(a_len >= capped_product(m as int, k as int) && b_len >= capped_product(
                k as int,
                n as int,
            ) && c_len >= capped_product(m as int, n as int)),
        },
{
    if a_len < capped_mul(m, k) {
        return Err(GemmError::ShortA);
    }
    if b_len < capped_mul(k, n) {
        return Err(GemmError::ShortB);
    }
    if c_len < capped_mul(m, n) {
        return Err(GemmError::ShortC);
    }
    Ok(m > 0 && n > 0 && k > 0)
}

/// The bit pattern stands for no number.
pub open spec fn is_nan(bits: u32) -> bool {
    magnitude(bits) > INFINITY_BITS
}

/// `a` is a larger number than `b`.
pub open spec fn above(a: u32, b: u32) -> bool {
    !is_nan(a) && !is_nan(b) && crate::decode::value_key(a) > crate::decode::value_key(b)
}

/// Bit pattern of negative infinity.
pub const NEG_INFINITY_BITS: u32 = 0xff80_0000;

fn nan(bits: u32) -> (yes: bool)
    ensures
        yes == is_nan(bits),
{
    let m: u32 = if bits >= SIGN_BIT {
        bits - SIGN_BIT
    } else {
        bits
    };
    m > INFINITY_BITS
}

pub(crate) fn is_above(a: u32, b: u32) -> (yes: bool)
    ensures
        yes == above(a, b),
{
    !nan(a) && !nan(b) && value_of(a) > value_of(b)
}

/// The first of the largest gates among the first `e` that are not used yet,
/// when one of them is above negative infinity.
pub open spec fn lead(row: Seq<u32>, used: Seq<bool>, e: int) -> Option<int>
    decreases e,
{
    if e <= 0 {
        None
    } else {
        let before = lead(row, used, e - 1);
        if used[e - 1] {
            before
        } else {
            match before {
                Some(b) => if above(row[e - 1], row[b]) {
                    Some(e - 1)
                } else {
                    before
                },
                None => if above(row[e - 1], NEG_INFINITY_BITS) {
                    Some(e - 1)
                } else {
                    None
                },
            }
        }
    }
}

/// Which place is taken next.
pub open spec fn pick(row: Seq<u32>, used: Seq<bool>) -> int {
    match lead(row, used, row.len() as int) {
        Some(b) => b,
        None => 0,
    }
}

/// The gates that are kept after `rounds` picks.
pub open spec fn kept(row: Seq<u32>, rounds: int) -> Seq<bool>
    decreases rounds,
{
    if rounds <= 0 {
        Seq::new(row.len(), |i: int| false)
    } else {
        kept(row, rounds - 1).update(pick(row, kept(row, rounds - 1)), true)
    }
}

/// Row `t` of a matrix of `k` columns.
pub open spec fn row_of(gates: Seq<u32>, k: int, t: int) -> Seq<u32> {
    gates.subrange(t * k, t * k + k)
}

/// Expert selection does nothing: every expert takes part, or the shape is
/// not one of gates.
pub open spec fn keeps_all(len: int, n: int, k: int, topk: int) -> bool {
    k == 0 || k > 4 || topk == 0 || topk >= k || len < n * k
}

proof fn lemma_lead_bounds(row: Seq<u32>, used: Seq<bool>, e: int)
    ensures
        lead(row, used, e) matches Some(b) ==> 0 <= b < e && !used[b] && !is_nan(row[b])
            && crate::decode::value_key(row[b]) > crate::decode::value_key(NEG_INFINITY_BITS),
    decreases e,
{
    if e > 0 {
        lemma_lead_bounds(row, used, e - 1);
    }
}

proof fn lemma_kept_len(row: Seq<u32>, rounds: int)
    requires
        row.len() > 0,
    ensures
        kept(row, rounds).len() == row.len(),
    decreases rounds,
{
    if rounds > 0 {
        lemma_kept_len(row, rounds - 1);
        lemma_lead_bounds(row, kept(row, rounds - 1), row.len() as int);
    }
}

/// Marks the gates of one row that are kept.
fn select(row: &Vec<u32>, rounds: usize) -> (used: Vec<bool>)
    requires
        row@.len() > 0,
    ensures
        used@ == kept(row@, rounds as int),
{
    let k: usize = row.len();
    let mut used: Vec<bool> = Vec::new();
    let mut i: usize = 0;
    while i < k
        invariant
            i <= k,
            used@.len() == i,
            forall|j: int| 0 <= j < i ==> !#[trigger] used@[j],
        decreases k - i,
    {
        used.push(false);
        i += 1;
    }
    assert(used@ =~= kept(row@, 0));
    let mut round: usize = 0;
    while round < rounds
        invariant
            round <= rounds,
            k == row@.len() > 0,
            used@.len() == k,
            used@ == kept(row@, round as int),
        decreases rounds - round,
    {
        let mut best: usize = 0;
        let mut found: bool = false;
        let mut e: usize = 0;
        while e < k
            invariant
                e <= k == row@.len() == used@.len(),
                best < k,
                found ==> lead(row@, used@, e as int) == Some(best as int),
                !found ==> lead(row@, used@, e as int) is None && best == 0,
            decreases k - e,
        {
            if !used[e] {
                let floor: u32 = if found {
                    row[best]
                } else {
                    NEG_INFINITY_BITS
                };
                if is_above(row[e], floor) {
                    best = e;
                    found = true;
                }
            }
            e += 1;
        }
        assert(pick(row@, used@) == best);
        used.set(best, true);
        round += 1;
    }
    used
}

/// What stands at place `i` after selection.
pub open spec fn gated(gates: Seq<u32>, k: int, topk: int, i: int) -> u32 {
    if kept(row_of(gates, k, i / k), topk)[i % k] {
        gates[i]
    } else {
        0
    }
}

fn copy_row(gates: &Vec<u32>, at: usize, k: usize) -> (row: Vec<u32>)
    requires
        at + k <= gates@.len(),
    ensures
        row@ == gates@.subrange(at as int, at + k),
{
    let size: usize = gates.len();
    let mut row: Vec<u32> = Vec::new();
    let mut e: usize = 0;
    while e < k
        invariant
            e <= k,
            at + k <= size == gates@.len(),
            row@ == gates@.subrange(at as int, at + e),
        decreases k - e,
    {
        row.push(gates[at + e]);
        e += 1;
        assert(row@ =~= gates@.subrange(at as int, at + e));
    }
    row
}

fn zero_unused(gates: &mut Vec<u32>, at: usize, used: &Vec<bool>)
    requires
        at + used@.len() <= old(gates)@.len(),
    ensures
        final(gates)@.len() == old(gates)@.len(),
        forall|i: int|
            0 <= i < old(gates)@.len() ==> #[trigger] final(gates)@[i] == if at <= i < at
                + used@.len() && !used@[i - at] {
                0
            } else {
                old(gates)@[i]
            },
{
    let size: usize = gates.len();
    let k: usize = used.len();
    let mut e: usize = 0;
    while e < k
        invariant
            e <= k == used@.len(),
            at + k <= size == gates@.len(),
            gates@.len() == old(gates)@.len(),
            forall|i: int|
                0 <= i < gates@.len() ==> #[trigger] gates@[i] == if at <= i < at + e
                    && !used@[i - at] {
                    0
                } else {
                    old(gates)@[i]
                },
        decreases k - e,
    {
        if !used[e] {
            gates.set(at + e, 0);
        }
        e += 1;
    }
}

/// Zeroes the gates of the experts that a token does not select. Selecting no
/// expert, or as many as there are, leaves the gates alone. Of equal gates the
/// lowest index is kept.
pub fn apply_topk_gates(gates: &mut Vec<u32>, n: usize, k: usize, topk: u32)
    ensures
        final(gates)@.len() == old(gates)@.len(),
        keeps_all(old(gates)@.len() as int, n as int, k as int, topk as int) ==> final(gates)@
            == old(gates)@,
        !keeps_all(old(gates)@.len() as int, n as int, k as int, topk as int) ==> forall|i: int|
            0 <= i < old(gates)@.len() ==> #[trigger] final(gates)@[i] == if i < n * k {
                gated(old(gates)@, k as int, topk as int, i)
            } else {
                old(gates)@[i]
            },
        0 < topk < k <= 4 && n * k <= old(gates)@.len() ==> forall|t: int|
            0 <= t < n && (forall|e: int|
                0 <= e < k ==> is_ordinary(#[trigger] row_of(old(gates)@, k as int, t)[e]))
                ==> leaves_the_largest(
                row_of(old(gates)@, k as int, t),
                #[trigger] row_of(final(gates)@, k as int, t),
                topk as int,
            ),
{
    if k == 0 || k > 4 {
        return;
    }
    let rounds: usize = topk as usize;
    if rounds == 0 || rounds >= k {
        return;
    }
    let size: usize = gates.len();
    let total: usize = match n.checked_mul(k) {
        Some(total) => total,
        None => {
            return;
        },
    };
    if size < total {
        return;
    }
    let ghost start = gates@;
    let mut at: usize = 0;
    let ghost mut t: int = 0;
    while at < total
        invariant
            1 <= rounds < k <= 4,
            rounds == topk,
            start == old(gates)@,
            gates@.len() == start.len(),
            total == n * k <= start.len(),
            0 <= t <= n,
            at == t * k,
            at <= total,
            forall|i: int|
                0 <= i < start.len() ==> #[trigger] gates@[i] == if i < at {
                    gated(start, k as int, rounds as int, i)
                } else {
                    start[i]
                },
        decreases total - at,
    {
        proof {
            assert(t < n) by (nonlinear_arith)
                requires
                    t * k < n * k,
                    k > 0,
            ;
            assert(t * k + k <= n * k && (t + 1) * k == t * k + k) by (nonlinear_arith)
                requires
                    t < n,
                    k > 0,
            ;
        }
        let row = copy_row(gates, at, k);
        assert(row@ =~= row_of(start, k as int, t));
        let used = select(&row, rounds);
        proof {
            lemma_kept_len(row@, rounds as int);
        }
        let ghost before = gates@;
        zero_unused(gates, at, &used);
        proof {
            assert forall|i: int| at <= i < at + k implies gated(
                start,
                k as int,
                rounds as int,
                i,
            ) == #[trigger] gates@[i] by {
                let e = i - at;
                vstd::arithmetic::div_mod::lemma_fundamental_div_mod_converse(i, k as int, t, e);
            }
            t = t + 1;
        }
        at = at + k;
    }
    proof {
        assert forall|t: int|
            0 <= t < n && (forall|e: int|
                0 <= e < k ==> is_ordinary(#[trigger] row_of(start, k as int, t)[e])) implies
            leaves_the_largest(
            row_of(start, k as int, t),
            #[trigger] row_of(gates@, k as int, t),
            topk as int,
        ) by {
            law_topk_gates_leave_the_largest(start, n as int, k as int, topk as int, t);
            assert(t * k + k <= n * k && t * k >= 0) by (nonlinear_arith)
                requires
                    0 <= t < n,
            ;
            assert(row_of(gates@, k as int, t) =~= Seq::new(
                k as nat,
                |e: int| gated(start, k as int, topk as int, t * k + e),
            ));
        }
    }
}

/// The bit pattern stands for a number above negative infinity.
pub open spec fn is_ordinary(bits: u32) -> bool {
    above(bits, NEG_INFINITY_BITS)
}

/// How many gates are kept.
pub open spec fn count_kept(used: Seq<bool>) -> nat
    decreases used.len(),
{
    if used.len() == 0 {
        0
    } else {
        count_kept(used.drop_last()) + if used.last() {
            1nat
        } else {
            0nat
        }
    }
}

proof fn lemma_count_update(used: Seq<bool>, i: int)
    requires
        0 <= i < used.len(),
        !used[i],
    ensures
        count_kept(used.update(i, true)) == count_kept(used) + 1,
    decreases used.len(),
{
    let next = used.update(i, true);
    if i == used.len() - 1 {
        assert(next.drop_last() =~= used.drop_last());
    } else {
        lemma_count_update(used.drop_last(), i);
        assert(next.drop_last() =~= used.drop_last().update(i, true));
    }
}

proof fn lemma_count_none(used: Seq<bool>)
    requires
        forall|i: int| 0 <= i < used.len() ==> !#[trigger] used[i],
    ensures
        count_kept(used) == 0,
    decreases used.len(),
{
    if used.len() > 0 {
        lemma_count_none(used.drop_last());
    }
}

proof fn lemma_count_all(used: Seq<bool>)
    requires
        forall|i: int| 0 <= i < used.len() ==> #[trigger] used[i],
    ensures
        count_kept(used) == used.len(),
    decreases used.len(),
{
    if used.len() > 0 {
        lemma_count_all(used.drop_last());
    }
}

/// The lead is the largest of the gates that are not used, and the first of
/// equal ones.
proof fn lemma_lead_is_largest(row: Seq<u32>, used: Seq<bool>, e: int)
    requires
        0 <= e <= row.len(),
        used.len() == row.len(),
        forall|i: int| 0 <= i < row.len() ==> is_ordinary(#[trigger] row[i]),
    ensures
        lead(row, used, e) is None ==> forall|i: int| 0 <= i < e ==> #[trigger] used[i],
        lead(row, used, e) matches Some(b) ==> 0 <= b < e && !used[b] && forall|i: int|
            0 <= i < e && !used[i] ==> !above(#[trigger] row[i], row[b]) && (i < b ==> above(
                row[b],
                row[i],
            )),
    decreases e,
{
    if e > 0 {
        lemma_lead_is_largest(row, used, e - 1);
        lemma_lead_bounds(row, used, e - 1);
    }
}

/// Where every gate is a number above negative infinity, as after a softmax,
/// selection keeps exactly as many gates as asked for, and no gate that is
/// dropped is larger than one that is kept, nor as large and further to the
/// front.
pub proof fn law_selection_keeps_the_largest(row: Seq<u32>, rounds: int)
    requires
        0 <= rounds <= row.len(),
        row.len() > 0,
        forall|i: int| 0 <= i < row.len() ==> is_ordinary(#[trigger] row[i]),
    ensures
        kept(row, rounds).len() == row.len(),
        count_kept(kept(row, rounds)) == rounds,
        forall|i: int, j: int|
            0 <= i < row.len() && 0 <= j < row.len() && kept(row, rounds)[i] && !kept(
                row,
                rounds,
            )[j] ==> !above(#[trigger] row[j], #[trigger] row[i]) && (j < i ==> above(
                row[i],
                row[j],
            )),
    decreases rounds,
{
    lemma_kept_len(row, rounds);
    if rounds == 0 {
        lemma_count_none(kept(row, 0));
    } else {
        let used = kept(row, rounds - 1);
        law_selection_keeps_the_largest(row, rounds - 1);
        lemma_lead_is_largest(row, used, row.len() as int);
        if lead(row, used, row.len() as int) is None {
            lemma_count_all(used);
        }
        let b = pick(row, used);
        lemma_count_update(used, b);
        assert forall|i: int, j: int|
            0 <= i < row.len() && 0 <= j < row.len() && kept(row, rounds)[i] && !kept(
                row,
                rounds,
            )[j] implies !above(#[trigger] row[j], #[trigger] row[i]) && (j < i ==> above(
            row[i],
            row[j],
        )) by {
            assert(!used[j]);
            if i != b {
                assert(used[i]);
            }
        }
    }
}

/// `after` is `before` with its `topk` largest gates left and the others zeroed;
/// of equal gates the one further to the front is left.
pub open spec fn leaves_the_largest(before: Seq<u32>, after: Seq<u32>, topk: int) -> bool {
    exists|keep: Set<int>|
        {
            &&& keep.finite()
            &&& #[trigger] keep.len() == topk
            &&& forall|e: int| keep.contains(e) ==> 0 <= e < before.len()
            &&& after.len() == before.len()
            &&& forall|e: int|
                0 <= e < before.len() ==> #[trigger] after[e] == if keep.contains(e) {
                    before[e]
                } else {
                    0
                }
            &&& forall|i: int, j: int|
                #![trigger before[i], before[j]]
                keep.contains(i) && 0 <= j < before.len() && !keep.contains(j) ==> !above(
                    before[j],
                    before[i],
                ) && (j < i ==> above(before[i], before[j]))
        }
}

proof fn lemma_count_is_places(used: Seq<bool>)
    ensures
        count_kept(used) == crate::counting::places(
            |i: int| used[i],
            0,
            used.len() as int,
        ).len(),
    decreases used.len(),
{
    let n = used.len() as int;
    let p = |i: int| used[i];
    if n > 0 {
        let front = used.drop_last();
        lemma_count_is_places(front);
        crate::counting::lemma_places_agree(|i: int| front[i], p, 0, n - 1);
        crate::counting::lemma_places_step(p, 0, n);
    } else {
        assert(crate::counting::places(p, 0, n) =~= Set::empty());
    }
}

/// Selecting `topk` of `k` experts leaves in the gates of every token exactly
/// its `topk` largest values, where they stood, and zeroes in the other places.
pub proof fn law_topk_gates_leave_the_largest(gates: Seq<u32>, n: int, k: int, topk: int, t: int)
    requires
        0 < topk < k <= 4,
        n * k <= gates.len(),
        0 <= t < n,
        forall|e: int| 0 <= e < k ==> is_ordinary(#[trigger] row_of(gates, k, t)[e]),
    ensures
        !keeps_all(gates.len() as int, n, k, topk),
        t * k + k <= gates.len(),
        leaves_the_largest(
            row_of(gates, k, t),
            Seq::new(k as nat, |e: int| gated(gates, k, topk, t * k + e)),
            topk,
        ),
{
    assert(t * k + k <= n * k && t * k >= 0) by (nonlinear_arith)
        requires
            0 <= t < n,
            0 <= k,
    ;
    let row = row_of(gates, k, t);
    let used = kept(row, topk);
    let p = |e: int| used[e];
    let keep = crate::counting::places(p, 0, k);
    let after = Seq::new(k as nat, |e: int| gated(gates, k, topk, t * k + e));
    law_selection_keeps_the_largest(row, topk);
    lemma_count_is_places(used);
    crate::counting::lemma_places_finite(p, 0, k);
    assert forall|e: int| 0 <= e < k implies #[trigger] after[e] == if keep.contains(e) {
        row[e]
    } else {
        0
    } by {
        vstd::arithmetic::div_mod::lemma_fundamental_div_mod_converse(t * k + e, k, t, e);
        assert(keep.contains(e) == used[e]);
        assert(row[e] == gates[t * k + e]);
    }
    assert forall|i: int, j: int|
        #![trigger row[i], row[j]]
        keep.contains(i) && 0 <= j < row.len() && !keep.contains(j) implies !above(row[j], row[i])
        && (j < i ==> above(row[i], row[j])) by {
        assert(used[i] && !used[j]);
    }
    assert(keep.len() == topk);
}

/// Rounding up gives the least number of tiles that hold everything.
pub proof fn law_tiles_are_as_few_as_hold_everything(a: int, b: int)
    requires
        0 <= a,
        0 < b,
    ensures
        a <= ceil_div(a, b) * b,
        (ceil_div(a, b) - 1) * b < a || a == 0,
        a == 0 ==> ceil_div(a, b) == 0,
{
    let c = ceil_div(a, b);
    assert(a <= c * b && (c - 1) * b < a || a == 0 && c == 0) by (nonlinear_arith)
        requires
            0 <= a,
            0 < b,
            c == (a + b - 1) / b,
    ;
    if a == 0 {
        assert((b - 1) / b == 0) by (nonlinear_arith)
            requires
                0 < b,
        ;
        assert(0 * b == 0);
    }
}

/// A tile of inputs is as wide as it may be: it keeps to the inputs, to two
/// hundred and fifty-six, and to the memory of a group, with a number for each
/// input and each of its bumps beside the experts and a whole row; and it
/// reaches one of the three.
pub proof fn law_a_tile_is_as_wide_as_it_may_be(in_f: int, g: int, k: int)
    requires
        1 <= in_f,
        1 <= g <= 16,
        0 <= k <= 4,
    ensures
        ({
            let tile = tile_for(in_f, g, k);
            let experts = if k == 0 {
                1
            } else {
                k
            };
            &&& 1 <= tile <= in_f && tile <= 256
            &&& tile * (1 + g) + experts + 256 <= 8192
            &&& tile == in_f || tile == 256 || (tile + 1) * (1 + g) + experts + 256 > 8192
        }),
{
    let experts = at_least_one(k);
    let left = 8192 - experts - 256;
    let room = left / (1 + g);
    assert(room * (1 + g) <= left < (room + 1) * (1 + g) && room >= 1) by (nonlinear_arith)
        requires
            room == left / (1 + g),
            1 <= g <= 16,
            left >= 7000,
    ;
    let tile = tile_for(in_f, g, k);
    assert(tile * (1 + g) <= room * (1 + g)) by (nonlinear_arith)
        requires
            tile <= room,
            g >= 1,
    ;
}

/// The memory of a backward group is one token's numbers for each of its slots
/// and a row of outputs. A group whose first token fits has as many slots as fit
/// into eight thousand one hundred and ninety-two numbers, up to four and up to
/// the tokens of a tile.
pub proof fn law_slots_fill_the_memory_of_a_group(spec: MobKanSpec)
    requires
        1 <= spec.n_tile,
        1 <= spec.tile_in,
    ensures
        ({
            let experts = if spec.k == 0 {
                1
            } else {
                spec.k as int
            };
            let token = spec.tile_in * (2 + spec.g + experts) + experts;
            let slots = spec.token_slots();
            &&& spec.token_floats() == token
            &&& 1 <= slots <= 4 && slots <= spec.n_tile
            &&& spec.scratch() == slots * token + spec.out_f
            &&& token + spec.out_f <= 8192 ==> slots * token + spec.out_f <= 8192
            &&& token + spec.out_f <= 8192 ==> slots == 4 || slots == spec.n_tile || (slots + 1)
                * token + spec.out_f > 8192
            &&& token + spec.out_f > 8192 ==> slots == 1
        }),
{
    let experts = at_least_one(spec.k as int);
    let t = spec.tile_in as int;
    let g = spec.g as int;
    let token = t * (2 + g + experts) + experts;
    assert(t + t * g + experts + t + experts * t == token && token >= 1) by (nonlinear_arith)
        requires
            token == t * (2 + g + experts) + experts,
            t >= 1,
            g >= 0,
            experts >= 1,
    ;
    let slots = spec.token_slots();
    let one = token + spec.out_f;
    if one <= 8192 {
        let room = 8192 - one;
        let more = room / token;
        assert(more * token <= room < (more + 1) * token && more >= 0) by (nonlinear_arith)
            requires
                more == room / token,
                token >= 1,
                room >= 0,
        ;
        assert((slots - 1) * token <= more * token) by (nonlinear_arith)
            requires
                slots - 1 <= more,
                token >= 1,
        ;
        assert(slots * token == (slots - 1) * token + token && (slots + 1) * token == slots * token
            + token && (more + 1) * token == more * token + token) by (nonlinear_arith);
        if slots == 1 + more {
            assert((slots + 1) * token == (more + 1) * token + token) by (nonlinear_arith)
                requires
                    slots == 1 + more,
            ;
        }
    }
    assert(token * (slots - 1) + token == slots * token) by (nonlinear_arith);
}

/// The descriptors that can be launched: those with tokens and features, up to
/// sixteen bumps that are shared or routed, up to four experts, tiles within
/// what they cut, and memory for a group.
pub proof fn law_launchable_descriptors(spec: MobKanSpec)
    ensures
        spec.error() is None <==> {
            &&& 1 <= spec.n && 1 <= spec.in_f && 1 <= spec.out_f
            &&& 1 <= spec.gs && spec.gs + spec.gr == spec.g && spec.g <= 16
            &&& 1 <= spec.g_use <= spec.gs
            &&& spec.k <= 4
            &&& spec.gr == 0 || spec.k >= 1
            &&& 1 <= spec.inv_width < 0x7f80_0000
            &&& 1 <= spec.tile_in <= spec.in_f
            &&& 1 <= spec.out_tile <= spec.out_f
            &&& 1 <= spec.n_tile <= spec.n
            &&& spec.topk <= 2
            &&& spec.k == 0 || spec.topk <= spec.k
            &&& spec.kan_factor == 1
            &&& spec.scratch() <= 8192
        },
{
}

/// The tensors that a forward run takes: a row of inputs and one of outputs for
/// each token, a base weight for each pair, a shared weight for each input and
/// bump, a center for each bump, an inverse width for each of them, for all or
/// for none, and a scale for each output and each input.
pub proof fn law_fitting_tensors(spec: MobKanSpec, lens: FusedLens)
    requires
        spec.error() is None,
    ensures
        fused_error(spec, lens) is None <==> {
            &&& lens.x == spec.n * spec.in_f
            &&& lens.y == spec.n * spec.out_f
            &&& lens.w_base == spec.out_f * spec.in_f
            &&& lens.w_shared == spec.in_f * spec.gs
            &&& lens.centers == spec.g
            &&& lens.inv_widths == 0 || lens.inv_widths == 1 || lens.inv_widths == spec.g
            &&& lens.scale_base == spec.out_f
            &&& lens.scale_shared == spec.in_f
        },
{
}

/// A backward run is made over an input and an output gradient for each token,
/// with room for the gradient of the input; a packed layer has nothing to do.
pub proof fn law_backward_runs(spec: MobKanSpec, x: usize, dy: usize, dx: usize)
    ensures
        backward_run(spec, x, dy, dx) == Ok::<BackwardRun, FusedError>(BackwardRun::Nothing)
            <==> spec.error() is None && spec.packed != 0,
        backward_run(spec, x, dy, dx) == Ok::<BackwardRun, FusedError>(BackwardRun::Run) <==> {
            &&& spec.error() is None && spec.packed == 0
            &&& x == spec.n * spec.in_f
            &&& dy == spec.n * spec.out_f
            &&& dx >= spec.n * spec.in_f
        },
{
}

/// A layer with one factor has a routed weight for each expert, input and routed
/// bump, and a scale for each expert and input.
pub proof fn law_routed_sizes(spec: MobKanSpec)
    requires
        spec.error() is None,
    ensures
        spec.shared_weights() == spec.in_f * spec.gs,
        spec.shared_scales() == spec.in_f,
        spec.routed_weights() == spec.k * spec.in_f * spec.gr,
        spec.k >= 1 ==> spec.routed_scales() == spec.k * spec.in_f,
        spec.k == 0 ==> spec.routed_scales() == spec.in_f,
{
    assert(1 * spec.in_f == spec.in_f);
}

/// Numbers are compared as numbers: above zero by their patterns, below zero the
/// other way round, anything above zero with anything below; the two zeroes are
/// equal, and nothing is above or below what is no number.
pub proof fn law_gates_are_compared_as_numbers(a: u32, b: u32)
    ensures
        is_nan(a) <==> 0x7f80_0000 < a < 0x8000_0000 || a > 0xff80_0000,
        is_nan(a) || is_nan(b) ==> !above(a, b),
        a <= 0x7f80_0000 && b <= 0x7f80_0000 ==> (above(a, b) <==> a > b),
        0x8000_0000 <= a <= 0xff80_0000 && 0x8000_0000 <= b <= 0xff80_0000 ==> (above(a, b) <==> a
            < b),
        0 < a <= 0x7f80_0000 && 0x8000_0000 <= b <= 0xff80_0000 ==> above(a, b) && !above(b, a),
        !above(0, 0x8000_0000) && !above(0x8000_0000, 0),
{
}

} // verus!
