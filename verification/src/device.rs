//! The compute device: which backend is used, how work is cut for it, and the
//! page-aligned memory that host and device share.
use vstd::bytes::*;
use vstd::prelude::*;
use vstd::slice::*;
use vstd::string::*;
use crate::accelerate::{MobKanSpec, SpecError};
use crate::checkpoint::{f32_to_le, le_to_f32};
use crate::hadamard::pad_width;
use crate::text::same_text;

verus! {

/// The page of the shared memory, in bytes.
pub const PAGE: usize = 16_384;

#[derive(Clone, Copy, Debug, PartialEq, Eq, Structural)]
pub enum Backend {
    Cpu,
    Metal,
}

/// Flags that the device programs are compiled with.
#[derive(Clone, Copy, Debug, PartialEq, Eq, Structural)]
pub struct DeviceFlags {
    /// The interiors of a layer are computed again on the way back instead of
    /// being kept.
    pub fused_grad_ckpt: bool,
}

impl Default for DeviceFlags {
    fn default() -> (flags: Self)
        ensures
            !flags.fused_grad_ckpt,
    {
        DeviceFlags { fused_grad_ckpt: false }
    }
}

/// The device that a model runs on.
#[derive(Debug)]
pub struct SovereignDevice {
    backend: Backend,
    name: String,
    flags: DeviceFlags,
}

/// Why a launch or an allocation was turned away.
#[derive(Clone, Copy, Debug, PartialEq, Eq, Structural)]
pub enum DeviceError {
    /// The work was meant for a graphics device.
    OnCpu,
    /// The descriptor breaks a rule.
    Spec(SpecError),
    /// The memory does not fit in the address space.
    Layout,
    /// The end of a range does not fit in a machine word.
    Overflow,
    /// A range ends after the memory.
    Overrun,
    /// A range does not start at a multiple of its element size.
    Misaligned,
}

/// The device is the graphics device that was found, where it is wanted, and
/// the CPU otherwise.
pub open spec fn opens(
    device: SovereignDevice,
    prefer_metal: bool,
    flags: DeviceFlags,
    metal: Option<String>,
) -> bool {
    &&& device.compiled_with() == flags
    &&& match metal {
        Some(name) if prefer_metal => device.on() == Backend::Metal && device.called() == name@,
        _ => device.on() == Backend::Cpu && device.called() == "cpu+accelerate"@,
    }
}

impl SovereignDevice {
    pub closed spec fn on(self) -> Backend {
        self.backend
    }

    pub closed spec fn called(self) -> Seq<char> {
        self.name@
    }

    pub closed spec fn compiled_with(self) -> DeviceFlags {
        self.flags
    }

    /// The device to use on a machine on which a graphics device of the name
    /// `metal` was found and its programs compiled, or none. The graphics
    /// device is taken on request; otherwise the work stays on the CPU.
    pub fn open_with(prefer_metal: bool, flags: DeviceFlags, metal: Option<String>) -> (device:
        Result<Self, DeviceError>)
        ensures
            device matches Ok(d) && opens(d, prefer_metal, flags, metal),
    {
        Ok(
            match metal {
                Some(name) if prefer_metal => {
                    SovereignDevice { backend: Backend::Metal, name, flags }
                },
                _ => {
                    SovereignDevice {
                        backend: Backend::Cpu,
                        name: "cpu+accelerate".to_owned(),
                        flags,
                    }
                },
            },
        )
    }

    /// The same with the usual flags.
    pub fn open(prefer_metal: bool, metal: Option<String>) -> (device: Result<Self, DeviceError>)
        ensures
            device matches Ok(d) && opens(
                d,
                prefer_metal,
                DeviceFlags { fused_grad_ckpt: false },
                metal,
            ),
    {
        Self::open_with(prefer_metal, DeviceFlags { fused_grad_ckpt: false }, metal)
    }

    pub fn backend(&self) -> (backend: Backend)
        ensures
            backend == self.on(),
    {
        self.backend
    }

    pub fn name(&self) -> (name: &str)
        ensures
            name@ == self.called(),
    {
        self.name.as_str()
    }

    pub fn is_metal(&self) -> (yes: bool)
        ensures
            yes == (self.on() == Backend::Metal),
    {
        match self.backend {
            Backend::Metal => true,
            Backend::Cpu => false,
        }
    }

    pub fn fused_grad_ckpt(&self) -> (yes: bool)
        ensures
            yes == self.compiled_with().fused_grad_ckpt,
    {
        self.flags.fused_grad_ckpt
    }

    /// The graphics device, by its name, where the work runs on one.
    pub fn mtl_device(&self) -> (handle: Option<&str>)
        ensures
            match handle {
                Some(name) => self.on() == Backend::Metal && name@ == self.called(),
                None => self.on() == Backend::Cpu,
            },
    {
        match self.backend {
            Backend::Metal => Some(self.name.as_str()),
            Backend::Cpu => None,
        }
    }

    /// The bytes of the buffer that is bound where a kernel is given nothing:
    /// room for eight numbers. Only a graphics device has one.
    pub fn dummy_buffer(&self) -> (bytes: u64)
        requires
            self.on() == Backend::Metal,
        ensures
            bytes == 4 * 8,
    {
        alloc_shared_f32_buffer(8)
    }

    /// How to launch the fused forward step of a layer. `simd` and `cap` are
    /// the execution width and the thread limit of the pipeline.
    pub fn dispatch_fused_mob_kan(&self, spec: &MobKanSpec, simd: u64, cap: u64) -> (launch: Result<
        Launch,
        DeviceError,
    >)
        ensures
            match launch {
                Ok(l) => spec.error() is None && self.on() == Backend::Metal && l.groups == (
                    spec.n as u64,
                    1u64,
                ) && l.threads == (
                    group_width(spec.out_f as u64, spec.out_tile as u64, simd, cap),
                    1u64,
                ) && l.scratch_bytes == 4 * at_least_four(spec.token_floats() + spec.out_f),
                Err(e) => e == launch_error(*self, *spec),
            },
            launch is Err <==> spec.error() is Some || self.on() != Backend::Metal,
    {
        match spec.validate() {
            Ok(_) => {},
            Err(e) => return Err(DeviceError::Spec(e)),
        }
        if !self.is_metal() {
            return Err(DeviceError::OnCpu);
        }
        proof {
            lemma_scratch(*spec);
        }
        let floats: usize = spec.scratch_floats_fwd();
        let floats: usize = if floats < 4 {
            4
        } else {
            floats
        };
        Ok(
            Launch {
                groups: (spec.n as u64, 1),
                threads: (threadgroup_width(simd, cap, spec.out_f as u64, spec.out_tile as u64), 1),
                scratch_bytes: (floats * 4) as u64,
            },
        )
    }

    /// How to launch the fused backward step of a layer for the in-tile of
    /// `tin` inputs from `in0` on, and the descriptor that goes with it.
    pub fn dispatch_fused_mob_kan_bwd(
        &self,
        spec: &MobKanSpec,
        in0: u32,
        tin: u32,
        simd: u64,
        cap: u64,
    ) -> (launch: Result<(Launch, MobKanBwdLaunch), DeviceError>)
        ensures
            match launch {
                Ok((l, d)) => {
                    &&& spec.error() is None
                    &&& self.on() == Backend::Metal
                    &&& d.spec == *spec
                    &&& d.in0 == in0
                    &&& d.tin == tin
                    &&& d.n_tiles == spec.token_tiles()
                    &&& d.out_tiles == spec.output_tiles()
                    &&& d.tok_par == spec.token_slots()
                    &&& l.groups == (d.n_tiles as u64, d.out_tiles as u64)
                    &&& l.threads.1 == d.tok_par
                    &&& l.threads.0 == larger(
                        lesser(
                            group_width(spec.out_f as u64, spec.out_tile as u64, simd, cap),
                            larger(cap, 1) / l.threads.1,
                        ),
                        1,
                    )
                    &&& l.scratch_bytes == 4 * at_least_four(spec.scratch())
                },
                Err(e) => e == launch_error(*self, *spec),
            },
            launch is Err <==> spec.error() is Some || self.on() != Backend::Metal,
    {
        match spec.validate() {
            Ok(_) => {},
            Err(e) => return Err(DeviceError::Spec(e)),
        }
        if !self.is_metal() {
            return Err(DeviceError::OnCpu);
        }
        proof {
            lemma_scratch(*spec);
            lemma_tiles(*spec);
        }
        let tok_par: u32 = spec.bwd_tok_par();
        let descriptor = MobKanBwdLaunch {
            spec: *spec,
            in0,
            n_tiles: spec.n_tiles() as u32,
            out_tiles: spec.out_tiles() as u32,
            tin,
            tok_par,
        };
        let floats: usize = spec.scratch_floats();
        let floats: usize = if floats < 4 {
            4
        } else {
            floats
        };
        let rows: u64 = tok_par as u64;
        let limit: u64 = if cap < 1 {
            1
        } else {
            cap
        };
        let wide: u64 = threadgroup_width(simd, cap, spec.out_f as u64, spec.out_tile as u64);
        let share: u64 = limit / rows;
        let columns: u64 = if wide < share {
            wide
        } else {
            share
        };
        let columns: u64 = if columns < 1 {
            1
        } else {
            columns
        };
        Ok(
            (
                Launch {
                    groups: (descriptor.n_tiles as u64, descriptor.out_tiles as u64),
                    threads: (columns, rows),
                    scratch_bytes: (floats * 4) as u64,
                },
                descriptor,
            ),
        )
    }

    /// How to launch the lookup of `n` rows of the packed embedding.
    pub fn dispatch_i8_embed_lookup(&self, n: u32, d: u32, v: u32, simd: u64) -> (launch: Result<
        (Launch, I8GemmSpec),
        DeviceError,
    >)
        ensures
            match launch {
                Ok((l, s)) => self.on() == Backend::Metal && s == i8_spec(n, d, v) && l.groups == (
                    larger(n as u64, 1),
                    1u64,
                ) && l.threads == (lesser(larger(simd, 1), larger(n as u64, 1)), 1u64)
                    && l.scratch_bytes == 0,
                Err(e) => self.on() != Backend::Metal && e == DeviceError::OnCpu,
            },
    {
        if !self.is_metal() {
            return Err(DeviceError::OnCpu);
        }
        let rows: u64 = if n < 1 {
            1
        } else {
            n as u64
        };
        let width: u64 = if simd < 1 {
            1
        } else {
            simd
        };
        let width: u64 = if width < rows {
            width
        } else {
            rows
        };
        Ok(
            (
                Launch { groups: (rows, 1), threads: (width, 1), scratch_bytes: 0 },
                I8GemmSpec::over(n, d, v),
            ),
        )
    }

    /// How to launch the scores of `n` rows against the packed embedding.
    pub fn dispatch_i8_tied_logits(&self, n: u32, d: u32, v: u32, simd: u64) -> (launch: Result<
        (Launch, I8GemmSpec),
        DeviceError,
    >)
        ensures
            match launch {
                Ok((l, s)) => self.on() == Backend::Metal && s == i8_spec(n, d, v) && l.groups == (
                    larger(v as u64, 1),
                    larger(n as u64, 1),
                ) && l.threads == (lesser(larger(simd, 1), larger(v as u64, 1)), 1u64)
                    && l.scratch_bytes == 0,
                Err(e) => self.on() != Backend::Metal && e == DeviceError::OnCpu,
            },
    {
        if !self.is_metal() {
            return Err(DeviceError::OnCpu);
        }
        let rows: u64 = if n < 1 {
            1
        } else {
            n as u64
        };
        let columns: u64 = if v < 1 {
            1
        } else {
            v as u64
        };
        let width: u64 = if simd < 1 {
            1
        } else {
            simd
        };
        let width: u64 = if width < columns {
            width
        } else {
            columns
        };
        Ok(
            (
                Launch { groups: (columns, rows), threads: (width, 1), scratch_bytes: 0 },
                I8GemmSpec::over(n, d, v),
            ),
        )
    }
}

/// The grid of a launch: its groups, or its threads where no groups are
/// named, the threads of a group, and the memory that a group shares.
#[derive(Clone, Copy, Debug, PartialEq, Eq)]
pub struct Launch {
    pub groups: (u64, u64),
    pub threads: (u64, u64),
    pub scratch_bytes: u64,
}

/// Descriptor of a backward launch.
#[derive(Clone, Copy, Debug, PartialEq, Eq, Structural)]
pub struct MobKanBwdLaunch {
    pub spec: MobKanSpec,
    pub in0: u32,
    pub n_tiles: u32,
    pub out_tiles: u32,
    pub tin: u32,
    pub tok_par: u32,
}

/// Descriptor of a launch over the packed embedding.
#[derive(Clone, Copy, Debug, PartialEq, Eq, Structural)]
pub struct I8GemmSpec {
    pub n: u32,
    pub d: u32,
    pub v: u32,
    pub stride: u32,
}

impl I8GemmSpec {
    fn over(n: u32, d: u32, v: u32) -> (spec: Self)
        ensures
            spec == i8_spec(n, d, v),
    {
        let stride: u32 = if d < 1 {
            1
        } else {
            d
        };
        I8GemmSpec { n, d, v, stride }
    }
}

/// The descriptor of a launch over the packed embedding: a row is as long as
/// its stride, which is never zero.
pub open spec fn i8_spec(n: u32, d: u32, v: u32) -> I8GemmSpec {
    I8GemmSpec {
        n,
        d,
        v,
        stride: if d == 0 {
            1
        } else {
            d
        },
    }
}

/// The smaller of two counts.
pub open spec fn lesser(a: u64, b: u64) -> u64 {
    if a <= b {
        a
    } else {
        b
    }
}

/// The larger of two counts.
pub open spec fn larger(a: u64, b: u64) -> u64 {
    if a >= b {
        a
    } else {
        b
    }
}

/// At least four.
pub open spec fn at_least_four(a: int) -> int {
    if a < 4 {
        4
    } else {
        a
    }
}

/// Why a launch is turned away, when it is.
pub open spec fn launch_error(device: SovereignDevice, spec: MobKanSpec) -> DeviceError {
    match spec.error() {
        Some(e) => DeviceError::Spec(e),
        None => DeviceError::OnCpu,
    }
}

/// The threads of a group: no more than there are outputs, than the tile has,
/// than run together, and than the pipeline allows, and at least one.
pub open spec fn group_width(out_f: u64, out_tile: u64, simd: u64, cap: u64) -> u64 {
    larger(lesser(lesser(lesser(out_f, out_tile), larger(simd, 1)), larger(cap, 1)), 1)
}

/// The threads of a group of a launch over `out_f` outputs.
pub fn threadgroup_width(simd: u64, cap: u64, out_f: u64, out_tile: u64) -> (width: u64)
    ensures
        width == group_width(out_f, out_tile, simd, cap),
        width >= 1,
        width <= larger(cap, 1),
{
    let simd: u64 = if simd < 1 {
        1
    } else {
        simd
    };
    let cap: u64 = if cap < 1 {
        1
    } else {
        cap
    };
    let width: u64 = if out_f < out_tile {
        out_f
    } else {
        out_tile
    };
    let width: u64 = if width < simd {
        width
    } else {
        simd
    };
    let width: u64 = if width < cap {
        width
    } else {
        cap
    };
    if width < 1 {
        1
    } else {
        width
    }
}

proof fn lemma_scratch(spec: MobKanSpec)
    requires
        spec.error() is None,
    ensures
        0 <= spec.token_floats() + spec.out_f <= spec.scratch()
            <= crate::accelerate::TG_SCRATCH_FLOATS,
        1 <= spec.token_slots() <= 4,
{
    let f = spec.token_floats();
    let t = spec.tile_in as int;
    let g = spec.g as int;
    let k = crate::accelerate::at_least_one(spec.k as int);
    assert(t * g >= 0 && k * t >= 0) by (nonlinear_arith)
        requires
            t >= 0,
            g >= 0,
            k >= 1,
    ;
    let slots = spec.token_slots();
    if f + spec.out_f <= crate::accelerate::TG_SCRATCH_FLOATS {
        let room = crate::accelerate::TG_SCRATCH_FLOATS - (f + spec.out_f);
        assert(room / f >= 0) by (nonlinear_arith)
            requires
                room >= 0,
                f >= 1,
        ;
    }
    assert(slots >= 1);
    assert(f * (slots - 1) >= 0) by (nonlinear_arith)
        requires
            f >= 0,
            slots >= 1,
    ;
}

proof fn lemma_tiles(spec: MobKanSpec)
    requires
        spec.error() is None,
    ensures
        spec.token_tiles() <= u32::MAX,
        spec.output_tiles() <= u32::MAX,
{
    let n = spec.n as int;
    let nt = spec.n_tile as int;
    let o = spec.out_f as int;
    let ot = spec.out_tile as int;
    assert((n + nt - 1) / nt <= n) by (nonlinear_arith)
        requires
            n >= 1,
            nt >= 1,
    ;
    assert((o + ot - 1) / ot <= o) by (nonlinear_arith)
        requires
            o >= 1,
            ot >= 1,
    ;
}

/// A backward launch never asks for more threads in a group than the pipeline
/// allows, as long as it allows as many as there are token slots.
pub proof fn law_a_group_stays_within_the_limit(
    device: SovereignDevice,
    spec: MobKanSpec,
    launch: Launch,
    simd: u64,
    cap: u64,
)
    requires
        spec.error() is None,
        cap >= spec.token_slots(),
        launch.threads.1 == spec.token_slots(),
        launch.threads.0 == larger(
            lesser(
                group_width(spec.out_f as u64, spec.out_tile as u64, simd, cap),
                larger(cap, 1) / launch.threads.1,
            ),
            1,
        ),
    ensures
        launch.threads.0 * launch.threads.1 <= cap,
{
    lemma_scratch(spec);
    let rows = launch.threads.1 as int;
    let share = cap as int / rows;
    assert(share * rows <= cap && share >= 1) by (nonlinear_arith)
        requires
            rows >= 1,
            cap as int >= rows,
            share == cap as int / rows,
    ;
    assert(launch.threads.0 <= share);
    assert(launch.threads.0 * rows <= share * rows) by (nonlinear_arith)
        requires
            launch.threads.0 <= share,
            rows >= 1,
    ;
}

/// The bytes of a shared buffer for `n_floats` numbers: room for one at least,
/// and never under sixteen bytes.
pub fn alloc_shared_f32_buffer(n_floats: usize) -> (bytes: u64)
    ensures
        bytes == larger(
            16,
            if n_floats * 4 > usize::MAX {
                usize::MAX as u64
            } else {
                (n_floats * 4) as u64
            },
        ),
{
    let bytes: usize = match n_floats.checked_mul(4) {
        Some(b) => b,
        None => usize::MAX,
    };
    alloc_shared_bytes(bytes)
}

/// The bytes of a shared buffer for `n_bytes` bytes: never under sixteen.
pub fn alloc_shared_bytes(n_bytes: usize) -> (bytes: u64)
    ensures
        bytes == larger(n_bytes as u64, 16),
{
    if n_bytes < 16 {
        16
    } else {
        n_bytes as u64
    }
}

/// Which of the buffers that lie free is used again: the first that is large
/// enough.
pub fn reusable(free: &[usize], bytes: usize) -> (index: Option<usize>)
    ensures
        match index {
            Some(i) => i < free@.len() && free@[i as int] >= bytes && forall|j: int|
                0 <= j < i ==> #[trigger] free@[j] < bytes,
            None => forall|j: int| 0 <= j < free@.len() ==> #[trigger] free@[j] < bytes,
        },
{
    let n: usize = free.len();
    let mut i: usize = 0;
    while i < n
        invariant
            i <= n == free@.len(),
            forall|j: int| 0 <= j < i ==> #[trigger] free@[j] < bytes,
        decreases n - i,
    {
        if free[i] >= bytes {
            return Some(i);
        }
        i += 1;
    }
    None
}

/// The bytes of a new buffer for `bytes` bytes: a power of two, so that it
/// suits later requests of about that size.
pub fn fresh_len(bytes: usize) -> (len: usize)
    requires
        crate::hadamard::has_width(bytes as int),
    ensures
        exists|k: nat| crate::hadamard::reaches(len as int, k, bytes as int),
        len >= bytes,
{
    pad_width(bytes)
}

/// Checks that memory at an address can be shared without copying it.
pub fn wrap_shared_bytes_no_copy(address: usize) -> (checked: Result<(), DeviceError>)
    ensures
        match checked {
            Ok(_) => address % PAGE == 0,
            Err(e) => e == DeviceError::Misaligned && address % PAGE != 0,
        },
{
    if address % PAGE != 0 {
        Err(DeviceError::Misaligned)
    } else {
        Ok(())
    }
}

/// Checks that `count` elements of `size` bytes fit in a buffer of `length`
/// bytes, before they are written to it or read from it.
pub fn check_transfer(count: usize, size: usize, length: u64) -> (checked: Result<(), DeviceError>)
    requires
        count * size <= usize::MAX,
    ensures
        match checked {
            Ok(_) => count * size <= length,
            Err(e) => e == DeviceError::Overrun && count * size > length,
        },
{
    let need: u64 = (count * size) as u64;
    if need > length {
        Err(DeviceError::Overrun)
    } else {
        Ok(())
    }
}

/// The text of a device program: the lines that switch it, then `body`.
pub open spec fn program_text(flags: DeviceFlags, w_half: bool, body: Seq<char>) -> Seq<char> {
    "#define ULLIS_FUSED_GRAD_CKPT "@ + flag_text(flags.fused_grad_ckpt)
        + "\n#define ULLIS_W_HALF "@ + flag_text(w_half) + "\n"@ + body
}

/// A switch as a digit.
pub open spec fn flag_text(on: bool) -> Seq<char> {
    if on {
        "1"@
    } else {
        "0"@
    }
}

fn flag_digit(on: bool) -> (digit: &'static str)
    ensures
        digit@ == flag_text(on),
{
    if on {
        "1"
    } else {
        "0"
    }
}

/// Puts the lines that switch a device program before its text.
pub fn fused_source(flags: DeviceFlags, w_half: bool, body: &str) -> (text: String)
    ensures
        text@ == program_text(flags, w_half, body@),
{
    let mut text: String = "#define ULLIS_FUSED_GRAD_CKPT ".to_owned();
    text.append(flag_digit(flags.fused_grad_ckpt));
    text.append("\n#define ULLIS_W_HALF ");
    text.append(flag_digit(w_half));
    text.append("\n");
    text.append(body);
    text
}

/// Whether the backward pass is to run on the host: the switch is set to one.
pub fn prefer_host_bwd(setting: Option<&str>) -> (yes: bool)
    ensures
        yes == (setting matches Some(value) && value@ == "1"@),
{
    match setting {
        Some(value) => same_text(value, "1"),
        None => false,
    }
}

/// The device to use where `metal` was found, with the usual flags.
pub fn setup_device(prefer_metal: bool, metal: Option<String>) -> (device: Result<
    SovereignDevice,
    DeviceError,
>)
    ensures
        device matches Ok(d) && opens(
            d,
            prefer_metal,
            DeviceFlags { fused_grad_ckpt: false },
            metal,
        ),
{
    SovereignDevice::open(prefer_metal, metal)
}

/// The device to use where `metal` was found.
pub fn setup_device_with(prefer_metal: bool, flags: DeviceFlags, metal: Option<String>) -> (device:
    Result<SovereignDevice, DeviceError>)
    ensures
        device matches Ok(d) && opens(d, prefer_metal, flags, metal),
{
    SovereignDevice::open_with(prefer_metal, flags, metal)
}

/// What the device is called in reports.
pub fn device_name(device: &SovereignDevice) -> (name: &str)
    ensures
        name@ == (if device.on() == Backend::Metal {
            "metal"@
        } else {
            device.called()
        }),
{
    if device.is_metal() {
        "metal"
    } else {
        device.name()
    }
}

/// Waits for the device: every launch has been waited for already.
pub fn synchronize(device: &SovereignDevice) -> (done: Result<(), DeviceError>)
    ensures
        done is Ok,
{
    Ok(())
}

/// Zeroed memory in whole pages, shared between host and device.
#[derive(Debug)]
pub struct PageSlab {
    bytes: Vec<u8>,
}

/// `bytes` in whole pages, and at least one page.
pub open spec fn in_pages(bytes: int) -> int {
    if bytes <= PAGE {
        PAGE as int
    } else {
        (bytes + PAGE - 1) / (PAGE as int) * PAGE
    }
}

impl View for PageSlab {
    type V = Seq<u8>;

    closed spec fn view(&self) -> Seq<u8> {
        self.bytes@
    }
}

/// What is wrong with a range of `n` words from the byte `off` on.
pub open spec fn words_error(len: int, off: int, n: int) -> Option<DeviceError> {
    if n * 4 > usize::MAX && off == 0 {
        Some(DeviceError::Overrun)
    } else if off + n * 4 > usize::MAX {
        Some(DeviceError::Overflow)
    } else if off + n * 4 > len {
        Some(DeviceError::Overrun)
    } else if off % 4 != 0 {
        Some(DeviceError::Misaligned)
    } else {
        None
    }
}

/// What is wrong with the first `n` elements of `size` bytes.
pub open spec fn front_error(len: int, n: int, size: int) -> Option<DeviceError> {
    if n * size > usize::MAX {
        Some(DeviceError::Overflow)
    } else if n * size > len {
        Some(DeviceError::Overrun)
    } else {
        None
    }
}

impl PageSlab {
    /// A slab for `bytes` bytes.
    pub fn new(bytes: usize) -> (slab: Result<Self, DeviceError>)
        requires
            bytes + PAGE <= usize::MAX,
        ensures
            match slab {
                Ok(s) => in_pages(bytes as int) <= isize::MAX && s@ == Seq::new(
                    in_pages(bytes as int) as nat,
                    |i: int| 0u8,
                ),
                Err(e) => e == DeviceError::Layout && in_pages(bytes as int) > isize::MAX,
            },
    {
        let size: usize = if bytes < PAGE {
            PAGE
        } else {
            bytes
        };
        let pages: usize = (size + (PAGE - 1)) / PAGE;
        let whole: usize = pages * PAGE;
        if whole > isize::MAX as usize {
            return Err(DeviceError::Layout);
        }
        let slab = PageSlab { bytes: vec![0u8; whole] };
        assert(slab@ =~= Seq::new(in_pages(bytes as int) as nat, |i: int| 0u8));
        Ok(slab)
    }

    pub fn len(&self) -> (n: usize)
        ensures
            n == self@.len(),
    {
        self.bytes.len()
    }

    pub fn is_empty(&self) -> (yes: bool)
        ensures
            yes == (self@.len() == 0),
    {
        self.bytes.len() == 0
    }

    pub fn as_bytes(&self) -> (bytes: &[u8])
        ensures
            bytes@ == self@,
    {
        self.bytes.as_slice()
    }

    fn check_words(&self, off: usize, n: usize) -> (end: Result<usize, DeviceError>)
        ensures
            match end {
                Ok(end) => words_error(self@.len() as int, off as int, n as int) is None && end
                    == off + 4 * n,
                Err(e) => words_error(self@.len() as int, off as int, n as int) == Some(e),
            },
    {
        let size: usize = self.bytes.len();
        let all: usize = match n.checked_mul(4) {
            Some(a) => a,
            None => {
                if off > 0 {
                    return Err(DeviceError::Overflow);
                }
                return Err(DeviceError::Overrun);
            },
        };
        let end: usize = match off.checked_add(all) {
            Some(e) => e,
            None => return Err(DeviceError::Overflow),
        };
        if end > size {
            return Err(DeviceError::Overrun);
        }
        if off % 4 != 0 {
            return Err(DeviceError::Misaligned);
        }
        Ok(end)
    }

    fn check_front(&self, n: usize, size: usize) -> (end: Result<usize, DeviceError>)
        ensures
            match end {
                Ok(end) => front_error(self@.len() as int, n as int, size as int) is None && end
                    == n * size,
                Err(e) => front_error(self@.len() as int, n as int, size as int) == Some(e),
            },
    {
        let end: usize = match n.checked_mul(size) {
            Some(a) => a,
            None => return Err(DeviceError::Overflow),
        };
        if end > self.bytes.len() {
            return Err(DeviceError::Overrun);
        }
        Ok(end)
    }

    /// Reads `n` words from the offset `byte_off` on.
    pub fn u32_at(&self, byte_off: usize, n: usize) -> (words: Result<Vec<u32>, DeviceError>)
        ensures
            match words {
                Ok(w) => words_error(self@.len() as int, byte_off as int, n as int) is None
                    && w@.len() == n && w@ == crate::checkpoint::bytes_words(
                    self@.subrange(byte_off as int, byte_off + 4 * n),
                ),
                Err(e) => words_error(self@.len() as int, byte_off as int, n as int) == Some(e),
            },
    {
        match self.check_words(byte_off, n) {
            Ok(end) => {
                let bytes = slice_subrange(self.bytes.as_slice(), byte_off, end);
                Ok(le_to_f32(bytes))
            },
            Err(e) => Err(e),
        }
    }

    /// The slab as it can be written to.
    pub fn as_bytes_mut(&mut self) -> (bytes: &mut [u8])
        ensures
            bytes@ == old(self)@,
            final(self)@ == final(bytes)@,
    {
        self.bytes.as_mut_slice()
    }

    /// Writes words from the offset `byte_off` on. They are read back as they
    /// were written, and nothing else changes.
    pub fn u32_at_mut(&mut self, byte_off: usize, words: &[u32]) -> (done: Result<
        (),
        DeviceError,
    >)
        ensures
            match done {
                Ok(_) => {
                    &&& words_error(old(self)@.len() as int, byte_off as int, words@.len() as int)
                        is None
                    &&& final(self)@ == old(self)@.take(byte_off as int)
                        + crate::checkpoint::words_bytes(words@) + old(self)@.skip(
                        byte_off + 4 * words@.len(),
                    )
                    &&& crate::checkpoint::bytes_words(
                        final(self)@.subrange(byte_off as int, byte_off + 4 * words@.len()),
                    ) == words@
                },
                Err(e) => words_error(
                    old(self)@.len() as int,
                    byte_off as int,
                    words@.len() as int,
                ) == Some(e) && *final(self) == *old(self),
            },
    {
        let n: usize = words.len();
        let end: usize = match self.check_words(byte_off, n) {
            Ok(end) => end,
            Err(e) => return Err(e),
        };
        let bytes = f32_to_le(words);
        proof {
            crate::checkpoint::law_numbers_survive(words@);
        }
        self.write_bytes(byte_off, &bytes);
        proof {
            assert(self@.subrange(byte_off as int, byte_off + 4 * n) =~= bytes@);
            assert(self@ =~= old(self)@.take(byte_off as int) + bytes@ + old(self)@.skip(
                end as int,
            ));
        }
        Ok(())
    }

    fn write_bytes(&mut self, off: usize, bytes: &Vec<u8>)
        requires
            off + bytes@.len() <= old(self)@.len(),
        ensures
            final(self)@.len() == old(self)@.len(),
            forall|i: int|
                0 <= i < old(self)@.len() ==> #[trigger] final(self)@[i] == if off <= i < off
                    + bytes@.len() {
                    bytes@[i - off]
                } else {
                    old(self)@[i]
                },
    {
        let n: usize = bytes.len();
        let size: usize = self.bytes.len();
        for k in 0..n
            invariant
                n == bytes@.len(),
                off + n <= size == self@.len(),
                self@.len() == old(self)@.len(),
                forall|i: int|
                    0 <= i < old(self)@.len() ==> #[trigger] self@[i] == if off <= i < off + k {
                        bytes@[i - off]
                    } else {
                        old(self)@[i]
                    },
        {
            self.bytes.set(off + k, bytes[k]);
        }
    }

    /// Reads the first `n` half-words.
    pub fn u16_at(&self, n: usize) -> (halves: Result<Vec<u16>, DeviceError>)
        ensures
            match halves {
                Ok(h) => front_error(self@.len() as int, n as int, 2) is None && h@.len() == n
                    && forall|i: int|
                    0 <= i < n ==> #[trigger] h@[i] == spec_u16_from_le_bytes(
                        self@.subrange(2 * i, 2 * i + 2),
                    ),
                Err(e) => front_error(self@.len() as int, n as int, 2) == Some(e),
            },
    {
        let end: usize = match self.check_front(n, 2) {
            Ok(end) => end,
            Err(e) => return Err(e),
        };
        let mut halves: Vec<u16> = Vec::new();
        for i in 0..n
            invariant
                2 * n == end <= self@.len(),
                halves@.len() == i,
                forall|j: int|
                    0 <= j < i ==> #[trigger] halves@[j] == spec_u16_from_le_bytes(
                        self@.subrange(2 * j, 2 * j + 2),
                    ),
        {
            let chunk = slice_subrange(self.bytes.as_slice(), 2 * i, 2 * i + 2);
            halves.push(u16_from_le_bytes(chunk));
        }
        Ok(halves)
    }

    /// Writes half-words from the start of the slab on. They are read back as
    /// they were written, and nothing else changes.
    pub fn u16_at_mut(&mut self, halves: &[u16]) -> (done: Result<(), DeviceError>)
        ensures
            match done {
                Ok(_) => {
                    &&& front_error(old(self)@.len() as int, halves@.len() as int, 2) is None
                    &&& final(self)@.len() == old(self)@.len()
                    &&& final(self)@.skip(2 * halves@.len() as int) == old(self)@.skip(
                        2 * halves@.len() as int,
                    )
                    &&& forall|i: int|
                        0 <= i < halves@.len() ==> spec_u16_from_le_bytes(
                            final(self)@.subrange(2 * i, 2 * i + 2),
                        ) == #[trigger] halves@[i]
                },
                Err(e) => front_error(old(self)@.len() as int, halves@.len() as int, 2) == Some(e)
                    && *final(self) == *old(self),
            },
    {
        let n: usize = halves.len();
        let end: usize = match self.check_front(n, 2) {
            Ok(end) => end,
            Err(e) => return Err(e),
        };
        proof {
            lemma_auto_spec_u16_to_from_le_bytes();
        }
        for i in 0..n
            invariant
                n == halves@.len(),
                2 * n == end <= self@.len(),
                self@.len() == old(self)@.len(),
                forall|k: int|
                    2 * i <= k < old(self)@.len() ==> #[trigger] self@[k] == old(self)@[k],
                forall|j: int|
                    0 <= j < i ==> spec_u16_from_le_bytes(self@.subrange(2 * j, 2 * j + 2))
                        == #[trigger] halves@[j],
        {
            let ghost before = self@;
            let bytes = u16_to_le_bytes(halves[i]);
            self.write_bytes(2 * i, &bytes);
            proof {
                lemma_auto_spec_u16_to_from_le_bytes();
                assert(self@.subrange(2 * i, 2 * i + 2) =~= bytes@);
                assert forall|j: int| 0 <= j < i + 1 implies spec_u16_from_le_bytes(
                    self@.subrange(2 * j, 2 * j + 2),
                ) == #[trigger] halves@[j] by {
                    if j < i {
                        assert(self@.subrange(2 * j, 2 * j + 2) =~= before.subrange(
                            2 * j,
                            2 * j + 2,
                        ));
                    }
                }
            }
        }
        assert(self@.skip(2 * n as int) =~= old(self)@.skip(2 * n as int));
        Ok(())
    }

    /// Writes the bit patterns of numbers from the start of the slab on. They
    /// are read back as they were written, and nothing else changes.
    pub fn f32_at_mut(&mut self, bits: &[u32]) -> (done: Result<(), DeviceError>)
        ensures
            match done {
                Ok(_) => {
                    &&& front_error(old(self)@.len() as int, bits@.len() as int, 4) is None
                    &&& final(self)@ == crate::checkpoint::words_bytes(bits@) + old(self)@.skip(
                        4 * bits@.len() as int,
                    )
                    &&& crate::checkpoint::bytes_words(final(self)@.take(4 * bits@.len() as int))
                        == bits@
                },
                Err(e) => front_error(old(self)@.len() as int, bits@.len() as int, 4) == Some(e)
                    && *final(self) == *old(self),
            },
    {
        let n: usize = bits.len();
        let end: usize = match self.check_front(n, 4) {
            Ok(end) => end,
            Err(e) => return Err(e),
        };
        let bytes = f32_to_le(bits);
        proof {
            crate::checkpoint::law_numbers_survive(bits@);
        }
        self.write_bytes(0, &bytes);
        proof {
            assert(self@.take(4 * n) =~= bytes@);
            assert(self@ =~= bytes@ + old(self)@.skip(end as int));
        }
        Ok(())
    }

    /// Reads the bit patterns of the first `n` numbers.
    pub fn f32_at(&self, n: usize) -> (bits: Result<Vec<u32>, DeviceError>)
        ensures
            match bits {
                Ok(w) => front_error(self@.len() as int, n as int, 4) is None && w@.len() == n
                    && w@ == crate::checkpoint::bytes_words(self@.take(4 * n)),
                Err(e) => front_error(self@.len() as int, n as int, 4) == Some(e),
            },
    {
        match self.check_front(n, 4) {
            Ok(end) => {
                let bytes = slice_subrange(self.bytes.as_slice(), 0, end);
                assert(bytes@ =~= self@.take(4 * n));
                Ok(le_to_f32(bytes))
            },
            Err(e) => Err(e),
        }
    }
}

/// A group is as wide as it may be: where all four bounds are at least one, it
/// keeps to each of them and reaches one of them.
pub proof fn law_a_group_is_as_wide_as_it_may_be(out_f: u64, out_tile: u64, simd: u64, cap: u64)
    requires
        out_f >= 1,
        out_tile >= 1,
        simd >= 1,
        cap >= 1,
    ensures
        ({
            let width = group_width(out_f, out_tile, simd, cap);
            &&& width <= out_f && width <= out_tile && width <= simd && width <= cap
            &&& width == out_f || width == out_tile || width == simd || width == cap
        }),
{
}

/// A slab is whole pages, room for what was asked for, and no page more than
/// that takes.
pub proof fn law_slabs_are_whole_pages(bytes: int)
    requires
        0 <= bytes,
    ensures
        in_pages(bytes) % 16_384 == 0,
        in_pages(bytes) >= 16_384,
        bytes <= in_pages(bytes),
        bytes > 0 ==> in_pages(bytes) < bytes + 16_384,
{
}

/// A range of words may be used exactly when it lies in the slab and starts at a
/// word, and the front of a slab exactly when it lies in it.
pub proof fn law_usable_ranges(len: usize, off: int, n: int, size: int)
    requires
        0 <= off,
        0 <= n,
        0 <= size,
    ensures
        words_error(len as int, off, n) is None <==> off + 4 * n <= len && off % 4 == 0,
        front_error(len as int, n, size) is None <==> n * size <= len,
{
}

/// A device program is its body behind two lines that switch it, and the switches
/// say what was asked for.
pub proof fn law_a_program_ends_with_its_body(flags: DeviceFlags, w_half: bool, body: Seq<char>)
    ensures
        ({
            let text = program_text(flags, w_half, body);
            let first = "#define ULLIS_FUSED_GRAD_CKPT "@;
            let second = "\n#define ULLIS_W_HALF "@;
            &&& text.skip(text.len() - body.len()) == body
            &&& text.take(first.len() as int) == first
            &&& text[first.len() as int] == (if flags.fused_grad_ckpt {
                '1'
            } else {
                '0'
            })
            &&& text[(first.len() + 1 + second.len()) as int] == (if w_half {
                '1'
            } else {
                '0'
            })
        }),
{
    reveal_strlit("0");
    reveal_strlit("1");
    reveal_strlit("\n");
    let text = program_text(flags, w_half, body);
    let first = "#define ULLIS_FUSED_GRAD_CKPT "@;
    assert(text.skip(text.len() - body.len()) =~= body);
    assert(text.take(first.len() as int) =~= first);
}

/// The device that is opened is the graphics device where one is wanted and was
/// found, under its own name, and the CPU in any other case.
pub proof fn law_the_device_that_is_opened(
    device: SovereignDevice,
    prefer_metal: bool,
    flags: DeviceFlags,
    metal: Option<String>,
)
    requires
        opens(device, prefer_metal, flags, metal),
    ensures
        device.on() == Backend::Metal <==> prefer_metal && metal is Some,
        device.on() == Backend::Metal ==> device.called() == metal->0@,
        device.on() == Backend::Cpu ==> device.called() == "cpu+accelerate"@,
        device.compiled_with() == flags,
{
}

/// A row of the packed embedding is as long as it is wide, and never empty.
pub proof fn law_rows_of_the_packed_embedding(n: u32, d: u32, v: u32)
    ensures
        i8_spec(n, d, v).n == n && i8_spec(n, d, v).d == d && i8_spec(n, d, v).v == v,
        d > 0 ==> i8_spec(n, d, v).stride == d,
        d == 0 ==> i8_spec(n, d, v).stride == 1,
{
}

/// What is wrong with a range of words: its end cannot be counted, it ends behind
/// the slab, or it is within the slab and does not begin on a word.
pub proof fn law_what_is_wrong_with_a_range(len: usize, off: int, n: int)
    requires
        0 <= off <= usize::MAX,
        0 <= n <= usize::MAX,
    ensures
        words_error(len as int, off, n) == Some(DeviceError::Overflow) <==> off > 0 && off + 4 * n
            > usize::MAX,
        words_error(len as int, off, n) == Some(DeviceError::Overrun) <==> off + 4 * n > len && (off
            == 0 || off + 4 * n <= usize::MAX),
        words_error(len as int, off, n) == Some(DeviceError::Misaligned) <==> off + 4 * n <= len
            && off % 4 != 0,
{
}

} // verus!
