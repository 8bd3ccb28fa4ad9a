//! Buffers that host and device share, as the host sees them: how many bytes
//! may be mapped, and what is written to and read from them.
use vstd::bytes::*;
use vstd::prelude::*;
use vstd::slice::*;
use crate::checkpoint::{f32_to_le, le_to_f32};

verus! {

/// Reads of more bytes than this are traced: snapshots and tests may exceed
/// it, a training step may not.
pub const TRACE_COPY_THRESHOLD: usize = 4096;

/// A range of `asked` bytes is longer than the buffer.
#[derive(Clone, Copy, Debug, PartialEq, Eq, Structural)]
pub struct MapError {
    pub asked: usize,
    pub len: usize,
}

/// A shared buffer.
#[derive(Debug)]
pub struct MetalBuffer {
    bytes: Vec<u8>,
}

impl View for MetalBuffer {
    type V = Seq<u8>;

    closed spec fn view(&self) -> Seq<u8> {
        self.bytes@
    }
}

/// What a map of the first `asked` bytes of `len` comes to.
pub open spec fn map_error(asked: int, len: int) -> Option<MapError> {
    if asked > len {
        Some(MapError { asked: asked as usize, len: len as usize })
    } else {
        None
    }
}

/// `bytes` with `front` written over its start.
pub open spec fn overwritten(bytes: Seq<u8>, front: Seq<u8>) -> Seq<u8> {
    front + bytes.skip(front.len() as int)
}

/// The bytes of half-words, low byte first.
pub open spec fn halves_bytes(halves: Seq<u16>) -> Seq<u8>
    decreases halves.len(),
{
    if halves.len() == 0 {
        Seq::empty()
    } else {
        halves_bytes(halves.drop_last()) + spec_u16_to_le_bytes(halves.last())
    }
}

/// The half-words that bytes hold.
pub open spec fn bytes_halves(bytes: Seq<u8>) -> Seq<u16> {
    Seq::new(
        bytes.len() / 2,
        |i: int| spec_u16_from_le_bytes(bytes.subrange(2 * i, 2 * i + 2)),
    )
}

/// Half-words take two bytes each and survive being written and read.
pub proof fn law_halves_survive(halves: Seq<u16>)
    ensures
        halves_bytes(halves).len() == 2 * halves.len(),
        bytes_halves(halves_bytes(halves)) == halves,
    decreases halves.len(),
{
    lemma_auto_spec_u16_to_from_le_bytes();
    if halves.len() > 0 {
        let init = halves.drop_last();
        law_halves_survive(init);
        let all = halves_bytes(halves);
        let front = halves_bytes(init);
        assert forall|i: int| 0 <= i < halves.len() implies #[trigger] bytes_halves(all)[i]
            == halves[i] by {
            if i < init.len() {
                assert(all.subrange(2 * i, 2 * i + 2) =~= front.subrange(2 * i, 2 * i + 2));
                assert(bytes_halves(front)[i] == init[i]);
            } else {
                assert(all.subrange(2 * i, 2 * i + 2) =~= spec_u16_to_le_bytes(halves.last()));
            }
        }
        assert(bytes_halves(all) =~= halves);
    } else {
        assert(bytes_halves(halves_bytes(halves)) =~= halves);
    }
}

fn bytes_of_halves(halves: &[u16]) -> (bytes: Vec<u8>)
    ensures
        bytes@ == halves_bytes(halves@),
{
    let n: usize = halves.len();
    let mut bytes: Vec<u8> = Vec::new();
    assert(halves@.take(0) =~= Seq::empty());
    for i in 0..n
        invariant
            n == halves@.len(),
            bytes@ == halves_bytes(halves@.take(i as int)),
    {
        let mut two = u16_to_le_bytes(halves[i]);
        assert(halves@.take(i + 1).drop_last() =~= halves@.take(i as int));
        bytes.append(&mut two);
    }
    assert(halves@.take(n as int) =~= halves@);
    bytes
}

impl MetalBuffer {
    /// A buffer of `len` zeros.
    pub fn zeroed(len: usize) -> (buffer: Self)
        ensures
            buffer@ == Seq::new(len as nat, |i: int| 0u8),
    {
        let buffer = MetalBuffer { bytes: vec![0u8; len] };
        assert(buffer@ =~= Seq::new(len as nat, |i: int| 0u8));
        buffer
    }

    pub fn len(&self) -> (n: usize)
        ensures
            n == self@.len(),
    {
        self.bytes.len()
    }

    pub fn is_empty(&self) -> (yes: bool)
        ensures
            yes == (self@.len() == 0),
    {
        self.bytes.len() == 0
    }

    /// Maps the first `byte_len` bytes for reading.
    pub fn map(&self, byte_len: usize) -> (mapped: Result<&[u8], MapError>)
        ensures
            match mapped {
                Ok(bytes) => map_error(byte_len as int, self@.len() as int) is None && bytes@
                    == self@.take(byte_len as int),
                Err(e) => map_error(byte_len as int, self@.len() as int) == Some(e),
            },
    {
        if byte_len > self.bytes.len() {
            return Err(MapError { asked: byte_len, len: self.bytes.len() });
        }
        let mapped = slice_subrange(self.bytes.as_slice(), 0, byte_len);
        assert(mapped@ =~= self@.take(byte_len as int));
        Ok(mapped)
    }

    /// Whether a read of `byte_len` bytes is traced.
    pub fn is_traced(byte_len: usize) -> (yes: bool)
        ensures
            yes == (byte_len > TRACE_COPY_THRESHOLD),
    {
        byte_len > TRACE_COPY_THRESHOLD
    }

    /// Writes bytes from the start on; what lies behind them stays.
    pub fn write_bytes(&mut self, values: &[u8]) -> (done: Result<(), MapError>)
        ensures
            match done {
                Ok(_) => {
                    &&& map_error(values@.len() as int, old(self)@.len() as int) is None
                    &&& final(self)@ == overwritten(old(self)@, values@)
                },
                Err(e) => map_error(values@.len() as int, old(self)@.len() as int) == Some(e)
                    && *final(self) == *old(self),
            },
    {
        let n: usize = values.len();
        let len: usize = self.bytes.len();
        if n > len {
            return Err(MapError { asked: n, len });
        }
        for i in 0..n
            invariant
                n == values@.len() <= len == self@.len(),
                old(self)@.len() == len,
                forall|k: int|
                    0 <= k < len ==> #[trigger] self@[k] == if k < i {
                        values@[k]
                    } else {
                        old(self)@[k]
                    },
        {
            self.bytes.set(i, values[i]);
        }
        assert(self@ =~= overwritten(old(self)@, values@));
        Ok(())
    }

    /// Reads the first `n` bytes.
    pub fn read_bytes(&self, n: usize) -> (bytes: Result<Vec<u8>, MapError>)
        ensures
            match bytes {
                Ok(b) => map_error(n as int, self@.len() as int) is None && b@ == self@.take(
                    n as int,
                ),
                Err(e) => map_error(n as int, self@.len() as int) == Some(e),
            },
    {
        match self.map(n) {
            Ok(mapped) => Ok(slice_to_vec(mapped)),
            Err(e) => Err(e),
        }
    }

    /// Writes words from the start on.
    pub fn write_u32(&mut self, values: &[u32]) -> (done: Result<(), MapError>)
        requires
            4 * values@.len() <= usize::MAX,
        ensures
            match done {
                Ok(_) => {
                    &&& map_error(4 * values@.len() as int, old(self)@.len() as int) is None
                    &&& final(self)@ == overwritten(
                        old(self)@,
                        crate::checkpoint::words_bytes(values@),
                    )
                },
                Err(e) => map_error(4 * values@.len() as int, old(self)@.len() as int) == Some(e)
                    && *final(self) == *old(self),
            },
    {
        let bytes = f32_to_le(values);
        proof {
            crate::checkpoint::law_numbers_survive(values@);
        }
        self.write_bytes(bytes.as_slice())
    }

    /// Reads the first `n` words.
    pub fn read_u32(&self, n: usize) -> (words: Result<Vec<u32>, MapError>)
        requires
            4 * n <= usize::MAX,
        ensures
            match words {
                Ok(w) => map_error(4 * n, self@.len() as int) is None && w@
                    == crate::checkpoint::bytes_words(self@.take(4 * n)),
                Err(e) => map_error(4 * n, self@.len() as int) == Some(e),
            },
    {
        match self.map(4 * n) {
            Ok(mapped) => Ok(le_to_f32(mapped)),
            Err(e) => Err(e),
        }
    }

    /// Writes the bit patterns of numbers from the start on.
    pub fn write_f32(&mut self, bits: &[u32]) -> (done: Result<(), MapError>)
        requires
            4 * bits@.len() <= usize::MAX,
        ensures
            match done {
                Ok(_) => {
                    &&& map_error(4 * bits@.len() as int, old(self)@.len() as int) is None
                    &&& final(self)@ == overwritten(
                        old(self)@,
                        crate::checkpoint::words_bytes(bits@),
                    )
                },
                Err(e) => map_error(4 * bits@.len() as int, old(self)@.len() as int) == Some(e)
                    && *final(self) == *old(self),
            },
    {
        self.write_u32(bits)
    }

    /// Reads the bit patterns of the first `n` numbers.
    pub fn read_f32(&self, n: usize) -> (bits: Result<Vec<u32>, MapError>)
        requires
            4 * n <= usize::MAX,
        ensures
            match bits {
                Ok(w) => map_error(4 * n, self@.len() as int) is None && w@
                    == crate::checkpoint::bytes_words(self@.take(4 * n)),
                Err(e) => map_error(4 * n, self@.len() as int) == Some(e),
            },
    {
        self.read_u32(n)
    }

    /// Writes half-words from the start on.
    pub fn write_u16(&mut self, values: &[u16]) -> (done: Result<(), MapError>)
        requires
            2 * values@.len() <= usize::MAX,
        ensures
            match done {
                Ok(_) => {
                    &&& map_error(2 * values@.len() as int, old(self)@.len() as int) is None
                    &&& final(self)@ == overwritten(old(self)@, halves_bytes(values@))
                },
                Err(e) => map_error(2 * values@.len() as int, old(self)@.len() as int) == Some(e)
                    && *final(self) == *old(self),
            },
    {
        let bytes = bytes_of_halves(values);
        proof {
            law_halves_survive(values@);
        }
        self.write_bytes(bytes.as_slice())
    }

    /// Reads the first `n` half-words.
    pub fn read_u16(&self, n: usize) -> (halves: Result<Vec<u16>, MapError>)
        requires
            2 * n <= usize::MAX,
        ensures
            match halves {
                Ok(h) => map_error(2 * n, self@.len() as int) is None && h@ == bytes_halves(
                    self@.take(2 * n),
                ),
                Err(e) => map_error(2 * n, self@.len() as int) == Some(e),
            },
    {
        let mapped = match self.map(2 * n) {
            Ok(mapped) => mapped,
            Err(e) => return Err(e),
        };
        let mut halves: Vec<u16> = Vec::new();
        for i in 0..n
            invariant
                mapped@.len() == 2 * n <= usize::MAX,
                halves@.len() == i,
                forall|j: int|
                    0 <= j < i ==> #[trigger] halves@[j] == spec_u16_from_le_bytes(
                        mapped@.subrange(2 * j, 2 * j + 2),
                    ),
        {
            let two = slice_subrange(mapped, 2 * i, 2 * i + 2);
            halves.push(u16_from_le_bytes(two));
        }
        assert(halves@ =~= bytes_halves(mapped@));
        Ok(halves)
    }

    /// Fills the buffer with zeros.
    pub fn zero(&mut self)
        ensures
            final(self)@ == Seq::new(old(self)@.len(), |i: int| 0u8),
    {
        let len: usize = self.bytes.len();
        for i in 0..len
            invariant
                len == self@.len() == old(self)@.len(),
                forall|k: int| 0 <= k < i ==> #[trigger] self@[k] == 0,
        {
            self.bytes.set(i, 0);
        }
        assert(self@ =~= Seq::new(old(self)@.len(), |i: int| 0u8));
    }
}

/// Words and half-words that were written to the start of a buffer are read
/// back from there, and the bytes behind them stay as they were.
pub proof fn law_what_is_written_is_read_back(
    bytes: Seq<u8>,
    words: Seq<u32>,
    halves: Seq<u16>,
)
    requires
        4 * words.len() <= bytes.len(),
        2 * halves.len() <= bytes.len(),
    ensures
        ({
            let after = overwritten(bytes, crate::checkpoint::words_bytes(words));
            &&& after.len() == bytes.len()
            &&& crate::checkpoint::bytes_words(after.take(4 * words.len() as int)) == words
            &&& forall|i: int| 4 * words.len() <= i < bytes.len() ==> #[trigger] after[i]
                == bytes[i]
        }),
        ({
            let after = overwritten(bytes, halves_bytes(halves));
            &&& after.len() == bytes.len()
            &&& bytes_halves(after.take(2 * halves.len() as int)) == halves
            &&& forall|i: int| 2 * halves.len() <= i < bytes.len() ==> #[trigger] after[i]
                == bytes[i]
        }),
{
    crate::checkpoint::law_numbers_survive(words);
    law_halves_survive(halves);
    let w = crate::checkpoint::words_bytes(words);
    let h = halves_bytes(halves);
    assert(overwritten(bytes, w).take(4 * words.len() as int) =~= w);
    assert(overwritten(bytes, h).take(2 * halves.len() as int) =~= h);
}

} // verus!
