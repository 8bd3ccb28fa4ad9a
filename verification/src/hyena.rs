//! Geometry of the causal long convolution.
//!
//! The convolution is taken in chunks through a zero-padded transform. The
//! plans fix the padding once, and the chunk functions say which number of the
//! input stands in which slot of the work buffer.
use vstd::arithmetic::power2::*;
use vstd::prelude::*;
use crate::hadamard::power_reaching;

verus! {

/// Why a plan or a convolution was turned away.
#[derive(Clone, Copy, Debug, PartialEq, Eq, Structural)]
pub enum HyenaError {
    ZeroTime,
    LengthOverflow,
    ZeroChunk,
    ChunkOverflow,
    ZeroSequence,
    FilterOverflow,
    FilterShape,
    ShapeOverflow,
    InputOverflow,
    ShapeMismatch,
    FilterParameters,
    FilterChannels,
}

impl HyenaError {
    /// The sentence that reports the error.
    pub fn message(&self) -> (text: &'static str)
        ensures
            text@ == hyena_message(*self),
    {
        match self {
            HyenaError::ZeroTime => "Hyena FFT time must be non-zero",
            HyenaError::LengthOverflow => "causal_long_conv FFT length overflow",
            HyenaError::ZeroChunk =>
                "Hyena chunk plan requires non-zero chunk_len and kernel_len",
            HyenaError::ChunkOverflow => "Hyena chunk FFT length overflow",
            HyenaError::ZeroSequence => "Hyena chunk sequence length must be non-zero",
            HyenaError::FilterOverflow => "causal_chunked_conv filter shape overflow",
            HyenaError::FilterShape => "causal_chunked_conv filter shape mismatch",
            HyenaError::ShapeOverflow => "causal_chunked_conv shape overflow",
            HyenaError::InputOverflow => "causal_chunked_conv input shape overflow",
            HyenaError::ShapeMismatch => "causal_chunked_conv shape mismatch",
            HyenaError::FilterParameters => "invalid implicit-filter parameters",
            HyenaError::FilterChannels => "invalid implicit-filter shape",
        }
    }
}

/// The sentence that reports an error.
pub open spec fn hyena_message(error: HyenaError) -> Seq<char> {
    match error {
        HyenaError::ZeroTime => "Hyena FFT time must be non-zero"@,
        HyenaError::LengthOverflow => "causal_long_conv FFT length overflow"@,
        HyenaError::ZeroChunk => "Hyena chunk plan requires non-zero chunk_len and kernel_len"@,
        HyenaError::ChunkOverflow => "Hyena chunk FFT length overflow"@,
        HyenaError::ZeroSequence => "Hyena chunk sequence length must be non-zero"@,
        HyenaError::FilterOverflow => "causal_chunked_conv filter shape overflow"@,
        HyenaError::FilterShape => "causal_chunked_conv filter shape mismatch"@,
        HyenaError::ShapeOverflow => "causal_chunked_conv shape overflow"@,
        HyenaError::InputOverflow => "causal_chunked_conv input shape overflow"@,
        HyenaError::ShapeMismatch => "causal_chunked_conv shape mismatch"@,
        HyenaError::FilterParameters => "invalid implicit-filter parameters"@,
        HyenaError::FilterChannels => "invalid implicit-filter shape"@,
    }
}

/// Zero-padded transform geometry of a convolution over the whole sequence.
#[derive(Clone, Copy, Debug, PartialEq, Eq, Structural)]
pub struct HyenaFftPlan {
    pub time: usize,
    pub fft_len: usize,
    pub stages: u32,
}

impl HyenaFftPlan {
    /// The transform is the least power of two that holds the whole
    /// convolution.
    pub open spec fn holds(self) -> bool {
        &&& self.time > 0
        &&& crate::hadamard::reaches(self.fft_len as int, self.stages as nat, 2 * self.time - 1)
    }

    pub fn new(time: usize) -> (plan: Result<Self, HyenaError>)
        ensures
            match plan {
                Ok(p) => p.time == time && p.holds(),
                Err(HyenaError::ZeroTime) => time == 0,
                Err(HyenaError::LengthOverflow) => time > 0 && (2 * time > usize::MAX
                    || !crate::hadamard::has_width(2 * time - 1)),
                Err(_) => false,
            },
    {
        if time == 0 {
            return Err(HyenaError::ZeroTime);
        }
        let double: usize = match time.checked_mul(2) {
            Some(d) => d,
            None => return Err(HyenaError::LengthOverflow),
        };
        match power_reaching(double - 1) {
            Some((fft_len, stages)) => Ok(HyenaFftPlan { time, fft_len, stages }),
            None => Err(HyenaError::LengthOverflow),
        }
    }
}

/// Geometry of a convolution with a bounded filter, taken chunk by chunk.
#[derive(Clone, Copy, Debug, PartialEq, Eq, Structural)]
pub struct HyenaChunkPlan {
    pub chunk_len: usize,
    pub kernel_len: usize,
    pub fft_len: usize,
    pub stages: u32,
}

impl HyenaChunkPlan {
    /// The transform is the least power of two that holds a chunk with the
    /// history that its filter looks back on.
    pub open spec fn holds(self) -> bool {
        &&& self.chunk_len > 0
        &&& self.kernel_len > 0
        &&& self.chunk_len + self.kernel_len <= usize::MAX
        &&& crate::hadamard::reaches(
            self.fft_len as int,
            self.stages as nat,
            self.chunk_len + self.kernel_len - 1,
        )
    }

    pub fn new(chunk_len: usize, kernel_len: usize) -> (plan: Result<Self, HyenaError>)
        ensures
            match plan {
                Ok(p) => p.chunk_len == chunk_len && p.kernel_len == kernel_len && p.holds(),
                Err(HyenaError::ZeroChunk) => chunk_len == 0 || kernel_len == 0,
                Err(HyenaError::ChunkOverflow) => chunk_len > 0 && kernel_len > 0 && (chunk_len
                    + kernel_len > usize::MAX || !crate::hadamard::has_width(
                    chunk_len + kernel_len - 1,
                )),
                Err(_) => false,
            },
    {
        if chunk_len == 0 || kernel_len == 0 {
            return Err(HyenaError::ZeroChunk);
        }
        let both: usize = match chunk_len.checked_add(kernel_len) {
            Some(b) => b,
            None => return Err(HyenaError::ChunkOverflow),
        };
        match power_reaching(both - 1) {
            Some((fft_len, stages)) => Ok(
                HyenaChunkPlan { chunk_len, kernel_len, fft_len, stages },
            ),
            None => Err(HyenaError::ChunkOverflow),
        }
    }

    /// The plan cut down to a sequence: neither its chunk nor its filter is
    /// longer than the sequence.
    pub fn for_sequence(self, time: usize) -> (plan: Result<Self, HyenaError>)
        ensures
            match plan {
                Ok(p) => time > 0 && p.holds() && p.chunk_len == least(self.chunk_len, time)
                    && p.kernel_len == least(self.kernel_len, time),
                Err(HyenaError::ZeroSequence) => time == 0,
                Err(HyenaError::ZeroChunk) => time > 0 && (self.chunk_len == 0 || self.kernel_len
                    == 0),
                Err(HyenaError::ChunkOverflow) => time > 0 && self.chunk_len > 0
                    && self.kernel_len > 0 && (least(self.chunk_len, time) + least(
                    self.kernel_len,
                    time,
                ) > usize::MAX || !crate::hadamard::has_width(
                    least(self.chunk_len, time) + least(self.kernel_len, time) - 1,
                )),
                Err(_) => false,
            },
            self.holds() && time > 0 ==> plan is Ok,
    {
        if time == 0 {
            return Err(HyenaError::ZeroSequence);
        }
        let chunk: usize = if self.chunk_len < time {
            self.chunk_len
        } else {
            time
        };
        let kernel: usize = if self.kernel_len < time {
            self.kernel_len
        } else {
            time
        };
        proof {
            if self.holds() {
                assert(pow2(self.stages as nat) >= chunk + kernel - 1);
            }
        }
        Self::new(chunk, kernel)
    }
}

/// The smaller of two lengths.
pub open spec fn least(a: usize, b: usize) -> int {
    if a < b {
        a as int
    } else {
        b as int
    }
}

/// What a convolution is run over: `batch` sequences of `time` steps, each
/// step `input_width` numbers, of which `channels` from `input_offset` on are
/// convolved.
#[derive(Clone, Copy, Debug, PartialEq, Eq, Structural)]
pub struct ConvShape {
    pub batch: usize,
    pub time: usize,
    pub channels: usize,
    pub input_width: usize,
    pub input_offset: usize,
}

impl ConvShape {
    /// How many numbers come out.
    pub open spec fn values(self) -> int {
        self.batch * self.time * self.channels
    }

    /// How many numbers go in.
    pub open spec fn input_values(self) -> int {
        self.batch * self.time * self.input_width
    }

    /// The convolved channels lie within a step, and nothing is empty.
    pub open spec fn sound(self) -> bool {
        &&& self.batch > 0
        &&& self.time > 0
        &&& self.channels > 0
        &&& self.channels <= self.input_width
        &&& self.input_offset <= self.input_width - self.channels
        &&& self.values() <= usize::MAX
        &&& self.input_values() <= usize::MAX
    }

    /// Why an input of `len` numbers is turned away.
    pub open spec fn input_error(self, len: int) -> Option<HyenaError> {
        if self.batch * self.time > usize::MAX || self.values() > usize::MAX {
            Some(HyenaError::ShapeOverflow)
        } else if self.input_values() > usize::MAX {
            Some(HyenaError::InputOverflow)
        } else if !self.sound() || len != self.input_values() {
            Some(HyenaError::ShapeMismatch)
        } else {
            None
        }
    }

    /// Checks an input of `len` numbers, and says how many come out.
    pub fn check_input(self, len: usize) -> (values: Result<usize, HyenaError>)
        ensures
            match values {
                Ok(n) => self.input_error(len as int) is None && n == self.values(),
                Err(e) => self.input_error(len as int) == Some(e),
            },
    {
        let rows: usize = match self.batch.checked_mul(self.time) {
            Some(r) => r,
            None => return Err(HyenaError::ShapeOverflow),
        };
        let values: usize = match rows.checked_mul(self.channels) {
            Some(v) => v,
            None => return Err(HyenaError::ShapeOverflow),
        };
        let input: usize = match rows.checked_mul(self.input_width) {
            Some(v) => v,
            None => return Err(HyenaError::InputOverflow),
        };
        if self.batch == 0 || self.time == 0 || self.channels == 0 || self.input_width
            < self.channels || self.input_offset > self.input_width - self.channels || len
            != input {
            return Err(HyenaError::ShapeMismatch);
        }
        Ok(values)
    }

    /// The time step that stands in a slot of the work buffer for the chunk
    /// that starts at `start`; negative before the sequence began.
    pub open spec fn step_in_slot(plan: HyenaChunkPlan, start: int, slot: int) -> int {
        start + slot - (plan.kernel_len - 1)
    }

    /// The number of the input at a step of a channel.
    pub open spec fn place_in(self, sequence: int, step: int, channel: int) -> int {
        (sequence * self.time + step) * self.input_width + self.input_offset + channel
    }

    /// The number of the output at a step of a channel.
    pub open spec fn place_out(self, sequence: int, step: int, channel: int) -> int {
        (sequence * self.time + step) * self.channels + channel
    }

    proof fn lemma_place(self, sequence: int, step: int, channel: int, width: int, offset: int)
        requires
            0 <= sequence < self.batch,
            0 <= step < self.time,
            0 <= channel,
            0 <= offset,
            channel + offset < width,
        ensures
            0 <= sequence * self.time <= sequence * self.time + step < self.batch * self.time,
            0 <= (sequence * self.time + step) * width,
            (sequence * self.time + step) * width + offset + channel < self.batch * self.time
                * width,
    {
        let b = self.batch as int;
        let t = self.time as int;
        assert(0 <= sequence * t && sequence * t + step < b * t) by (nonlinear_arith)
            requires
                0 <= sequence,
                sequence + 1 <= b,
                0 <= step < t,
        ;
        let row = sequence * t + step;
        assert(0 <= row * width && row * width + width <= b * t * width) by (nonlinear_arith)
            requires
                0 <= row,
                row + 1 <= b * t,
                0 < width,
        ;
    }

    /// Where in the input the number stands that goes into a slot; nothing
    /// when the slot lies before the beginning of the sequence.
    pub fn source(
        self,
        plan: HyenaChunkPlan,
        sequence: usize,
        start: usize,
        slot: usize,
        channel: usize,
    ) -> (place: Option<usize>)
        requires
            self.sound(),
            plan.holds(),
            sequence < self.batch,
            channel < self.channels,
            start < self.time,
            Self::step_in_slot(plan, start as int, slot as int) < self.time,
            slot < plan.chunk_len + plan.kernel_len - 1,
        ensures
            match place {
                Some(p) => Self::step_in_slot(plan, start as int, slot as int) >= 0 && p
                    == self.place_in(
                    sequence as int,
                    Self::step_in_slot(plan, start as int, slot as int),
                    channel as int,
                ) && p < self.input_values(),
                None => Self::step_in_slot(plan, start as int, slot as int) < 0,
            },
    {
        let history: usize = plan.kernel_len - 1;
        let step: usize = if slot >= history {
            start + (slot - history)
        } else if start >= history - slot {
            start - (history - slot)
        } else {
            return None;
        };
        proof {
            self.lemma_place(
                sequence as int,
                step as int,
                channel as int,
                self.input_width as int,
                self.input_offset as int,
            );
            assert(self.batch * self.time <= usize::MAX) by (nonlinear_arith)
                requires
                    self.batch * self.time * self.input_width <= usize::MAX,
                    self.input_width > 0,
                    self.batch >= 0,
                    self.time >= 0,
            ;
        }
        Some((sequence * self.time + step) * self.input_width + self.input_offset + channel)
    }

    /// Where in the output the number of a slot goes: the slot `history +
    /// offset` of the chunk that starts at `start`.
    pub fn target(
        self,
        sequence: usize,
        start: usize,
        offset: usize,
        channel: usize,
    ) -> (place: usize)
        requires
            self.sound(),
            sequence < self.batch,
            channel < self.channels,
            start + offset < self.time,
        ensures
            place == self.place_out(sequence as int, start + offset, channel as int),
            place < self.values(),
    {
        let step: usize = start + offset;
        proof {
            self.lemma_place(
                sequence as int,
                step as int,
                channel as int,
                self.channels as int,
                0,
            );
            assert(self.batch * self.time <= usize::MAX) by (nonlinear_arith)
                requires
                    self.batch * self.time * self.channels <= usize::MAX,
                    self.channels > 0,
                    self.batch >= 0,
                    self.time >= 0,
            ;
        }
        (sequence * self.time + step) * self.channels + channel
    }
}

/// Checks a filter of `len` numbers for a plan that was cut to the sequence.
pub fn check_filter(plan: HyenaChunkPlan, channels: usize, len: usize) -> (checked: Result<
    (),
    HyenaError,
>)
    ensures
        match checked {
            Ok(_) => len == channels * plan.kernel_len,
            Err(HyenaError::FilterOverflow) => channels * plan.kernel_len > usize::MAX,
            Err(HyenaError::FilterShape) => channels * plan.kernel_len <= usize::MAX && len
                != channels * plan.kernel_len,
            Err(_) => false,
        },
{
    match channels.checked_mul(plan.kernel_len) {
        Some(all) => if len == all {
            Ok(())
        } else {
            Err(HyenaError::FilterShape)
        },
        None => Err(HyenaError::FilterOverflow),
    }
}

/// An implicit filter has a frequency, a phase and a decay for each of its
/// waves, and each channel has as many waves as the others.
pub open spec fn filter_holds(channels: int, freq: int, phase: int, decay: int) -> bool {
    channels > 0 && freq > 0 && freq == phase && freq == decay && freq % channels == 0
}

/// The channels of an implicit filter with that many parameters.
pub fn filter_channels(channels: usize, freq: usize, phase: usize, decay: usize) -> (checked:
    Result<usize, HyenaError>)
    ensures
        match checked {
            Ok(n) => n == channels && filter_holds(
                channels as int,
                freq as int,
                phase as int,
                decay as int,
            ),
            Err(e) => e == HyenaError::FilterParameters && !filter_holds(
                channels as int,
                freq as int,
                phase as int,
                decay as int,
            ),
        },
{
    if channels == 0 || freq == 0 || freq != phase || freq != decay || freq % channels != 0 {
        Err(HyenaError::FilterParameters)
    } else {
        Ok(channels)
    }
}

/// Checks that an implicit filter serves `wanted` channels: with fewer or more
/// than it was made for, parameters would be dropped.
pub fn check_filter_parameters(
    channels: usize,
    wanted: usize,
    freq: usize,
    phase: usize,
    decay: usize,
) -> (checked: Result<(), HyenaError>)
    ensures
        checked is Ok <==> wanted > 0 && channels == wanted && freq > 0 && freq == phase && freq
            == decay && freq % channels == 0,
        match checked {
            Ok(_) => true,
            Err(HyenaError::FilterParameters) => wanted > 0 && !filter_holds(
                channels as int,
                freq as int,
                phase as int,
                decay as int,
            ),
            Err(HyenaError::FilterChannels) => wanted == 0 || channels != wanted && filter_holds(
                channels as int,
                freq as int,
                phase as int,
                decay as int,
            ),
            Err(_) => false,
        },
{
    if wanted == 0 {
        return Err(HyenaError::FilterChannels);
    }
    match filter_channels(channels, freq, phase, decay) {
        Ok(n) => if n == wanted {
            Ok(())
        } else {
            Err(HyenaError::FilterChannels)
        },
        Err(e) => Err(e),
    }
}

/// How many steps of the sequence the chunk that starts at `start` holds.
pub open spec fn chunk_steps(plan: HyenaChunkPlan, time: int, start: int) -> int {
    if time - start < plan.chunk_len {
        time - start
    } else {
        plan.chunk_len as int
    }
}

/// The chunk starts at `start`, `start + chunk_len`, and so on.
pub fn chunk_count(plan: HyenaChunkPlan, time: usize, start: usize) -> (count: usize)
    requires
        start < time,
    ensures
        count == chunk_steps(plan, time as int, start as int),
{
    if time - start < plan.chunk_len {
        time - start
    } else {
        plan.chunk_len
    }
}

/// The convolution is causal: what comes out at a step of the sequence is made
/// of the slots of the filter's length that end there, and each of these holds
/// that step or an earlier one.
pub proof fn law_convolution_is_causal(plan: HyenaChunkPlan, start: int, offset: int, tap: int)
    requires
        plan.holds(),
        0 <= tap < plan.kernel_len,
    ensures
        ConvShape::step_in_slot(plan, start, plan.kernel_len - 1 + offset - tap) == start + offset
            - tap,
        ConvShape::step_in_slot(plan, start, plan.kernel_len - 1 + offset - tap) <= start + offset,
{
}

/// Every step of the sequence lies in exactly one chunk: the one that starts
/// at the last multiple of the chunk length.
pub proof fn law_chunks_tile_the_sequence(plan: HyenaChunkPlan, time: int, step: int, k: int)
    requires
        plan.holds(),
        0 <= step < time,
        0 <= k,
        k * plan.chunk_len < time,
    ensures
        (k * plan.chunk_len <= step < k * plan.chunk_len + chunk_steps(
            plan,
            time,
            k * plan.chunk_len,
        )) <==> k == step / (plan.chunk_len as int),
{
    let c = plan.chunk_len as int;
    if k * c <= step < k * c + c {
        vstd::arithmetic::div_mod::lemma_fundamental_div_mod_converse(step, c, k, step - k * c);
    }
    vstd::arithmetic::div_mod::lemma_fundamental_div_mod(step, c);
    assert(c * (step / c) == (step / c) * c) by (nonlinear_arith);
}

/// A chunk with its history fits into the work buffer of its plan.
pub proof fn law_a_chunk_fits_its_transform(plan: HyenaChunkPlan, time: int, start: int)
    requires
        plan.holds(),
        0 <= start < time,
    ensures
        plan.kernel_len - 1 + chunk_steps(plan, time, start) <= plan.fft_len,
{
}

/// The work buffer for the chunk that starts at `start`: the history and the
/// chunk of one channel of a sequence, and zeros around them.
pub open spec fn work_buffer(plan: HyenaChunkPlan, x: Seq<int>, start: int) -> Seq<int> {
    Seq::new(
        plan.fft_len as nat,
        |slot: int|
            {
                let step = ConvShape::step_in_slot(plan, start, slot);
                if step >= 0 && slot < plan.kernel_len - 1 + chunk_steps(
                    plan,
                    x.len() as int,
                    start,
                ) {
                    x[step]
                } else {
                    0
                }
            },
    )
}

/// A filter with zeros behind it.
pub open spec fn padded_filter(plan: HyenaChunkPlan, filter: Seq<int>) -> Seq<int> {
    Seq::new(
        plan.fft_len as nat,
        |tap: int|
            if tap < filter.len() {
                filter[tap]
            } else {
                0
            },
    )
}

/// What the product of two transforms is the transform of: the convolution
/// that wraps around at the end of the buffer.
pub open spec fn wrapped_convolution(a: Seq<int>, b: Seq<int>, slot: int) -> int {
    crate::hadamard::total(
        |tap: int| b[tap] * a[(slot - tap) % (a.len() as int)],
        0,
        a.len() as int,
    )
}

/// The causal convolution of a sequence with a filter: each step is the sum of
/// the steps before it, weighted by the taps.
pub open spec fn causal_convolution(x: Seq<int>, filter: Seq<int>, step: int) -> int {
    crate::hadamard::total(
        |tap: int|
            filter[tap] * (if step - tap >= 0 {
                x[step - tap]
            } else {
                0
            }),
        0,
        filter.len() as int,
    )
}

/// Taking the convolution in chunks changes nothing: what the wrapped
/// convolution of a chunk's work buffer leaves in the slots behind the history
/// is the causal convolution at the steps of the chunk. The numbers are whole,
/// so that nothing is rounded.
pub proof fn law_chunks_give_the_causal_convolution(
    plan: HyenaChunkPlan,
    x: Seq<int>,
    filter: Seq<int>,
    start: int,
    offset: int,
)
    requires
        plan.holds(),
        filter.len() == plan.kernel_len,
        0 <= start < x.len(),
        0 <= offset < chunk_steps(plan, x.len() as int, start),
    ensures
        wrapped_convolution(
            work_buffer(plan, x, start),
            padded_filter(plan, filter),
            plan.kernel_len - 1 + offset,
        ) == causal_convolution(x, filter, start + offset),
{
    let a = work_buffer(plan, x, start);
    let b = padded_filter(plan, filter);
    let n = plan.fft_len as int;
    let taps = plan.kernel_len as int;
    let slot = taps - 1 + offset;
    let step = start + offset;
    law_a_chunk_fits_its_transform(plan, x.len() as int, start);
    let f = |tap: int| b[tap] * a[(slot - tap) % n];
    let g = |tap: int|
        filter[tap] * (if step - tap >= 0 {
            x[step - tap]
        } else {
            0
        });
    assert forall|tap: int| 0 <= tap < taps implies #[trigger] f(tap) == g(tap) by {
        vstd::arithmetic::div_mod::lemma_small_mod((slot - tap) as nat, n as nat);
        assert(a[slot - tap] == if step - tap >= 0 {
            x[step - tap]
        } else {
            0
        });
    }
    assert forall|tap: int| taps <= tap < n implies #[trigger] f(tap) == 0 by {
        assert(b[tap] == 0);
        assert(0 * a[(slot - tap) % n] == 0) by (nonlinear_arith);
    }
    lemma_equal_totals(f, g, 0, taps);
    lemma_zero_total(f, taps, n);
    crate::hadamard::lemma_total_splits(f, 0, taps, n);
}

proof fn lemma_equal_totals(f: spec_fn(int) -> int, g: spec_fn(int) -> int, from: int, to: int)
    requires
        forall|p: int| from <= p < to ==> #[trigger] f(p) == g(p),
    ensures
        crate::hadamard::total(f, from, to) == crate::hadamard::total(g, from, to),
    decreases to - from,
{
    if from < to {
        lemma_equal_totals(f, g, from, to - 1);
        assert(f(to - 1) == g(to - 1));
    }
}

proof fn lemma_zero_total(f: spec_fn(int) -> int, from: int, to: int)
    requires
        forall|p: int| from <= p < to ==> #[trigger] f(p) == 0,
    ensures
        crate::hadamard::total(f, from, to) == 0,
    decreases to - from,
{
    if from < to {
        lemma_zero_total(f, from, to - 1);
        assert(f(to - 1) == 0);
    }
}

/// An input is convolved exactly when nothing is empty, the channels lie within a
/// step, the sizes can be counted, and it holds a whole step for each place of
/// each sequence.
pub proof fn law_admitted_inputs(shape: ConvShape, len: int)
    ensures
        shape.input_error(len) is None <==> {
            &&& shape.batch > 0 && shape.time > 0 && shape.channels > 0
            &&& shape.input_offset + shape.channels <= shape.input_width
            &&& shape.batch * shape.time <= usize::MAX
            &&& shape.batch * shape.time * shape.channels <= usize::MAX
            &&& shape.batch * shape.time * shape.input_width <= usize::MAX
            &&& len == shape.batch * shape.time * shape.input_width
        },
{
}

/// The numbers lie in order: the channels of a step side by side, the steps of a
/// sequence one after the other, and the sequences one after the other. The
/// convolved channels of the input start at their offset.
pub proof fn law_numbers_lie_in_order(shape: ConvShape, sequence: int, step: int, channel: int)
    ensures
        shape.place_in(0, 0, 0) == shape.input_offset,
        shape.place_out(0, 0, 0) == 0,
        shape.place_in(sequence, step, channel + 1) == shape.place_in(sequence, step, channel) + 1,
        shape.place_out(sequence, step, channel + 1) == shape.place_out(sequence, step, channel)
            + 1,
        shape.place_in(sequence, step + 1, channel) == shape.place_in(sequence, step, channel)
            + shape.input_width,
        shape.place_out(sequence, step + 1, channel) == shape.place_out(sequence, step, channel)
            + shape.channels,
        shape.place_in(sequence + 1, 0, channel) == shape.place_in(
            sequence,
            shape.time as int,
            channel,
        ),
        shape.place_out(sequence + 1, 0, channel) == shape.place_out(
            sequence,
            shape.time as int,
            channel,
        ),
{
    let t = shape.time as int;
    let row = sequence * t + step;
    let (w, c) = (shape.input_width as int, shape.channels as int);
    assert(0 * t == 0 && 0 * w == 0 && 0 * c == 0);
    assert((row + 1) * w == row * w + w && (row + 1) * c == row * c + c) by (nonlinear_arith);
    assert((sequence + 1) * t == sequence * t + t) by (nonlinear_arith);
}

/// The parameters of an implicit filter: as many frequencies as phases and decays,
/// and as many for each channel as for any other.
pub proof fn law_parameters_of_a_filter(channels: int, freq: int, phase: int, decay: int)
    ensures
        filter_holds(channels, freq, phase, decay) <==> channels > 0 && freq > 0 && phase == freq
            && decay == freq && freq % channels == 0,
{
}

} // verus!
