//! Layout of a self-contained checkpoint file.
//!
//! A file is the magic bytes, the length of the header in four bytes, the
//! header, zero bytes up to a multiple of sixty-four, and the payload. The
//! payload is the tensors end to end, in the order of the header's list.
use vstd::bytes::*;
use vstd::prelude::*;
use vstd::slice::*;
use vstd::string::*;
use crate::config::TrainConfig;
use crate::text::{chars_of, parse_number, same_text};
use crate::tokenizer::BpeTokenizer;

verus! {

/// The first bytes of every checkpoint: `ULLIS03` and a line end.
pub const MAGIC: [u8; 8] = [0x55, 0x4c, 0x4c, 0x49, 0x53, 0x30, 0x33, 0x0a];

/// The payload starts at a multiple of this.
pub const ALIGNMENT: usize = 64;

/// What a checkpoint says about itself.
pub struct Header {
    pub engine: String,
    pub config: TrainConfig,
    pub tokenizer: BpeTokenizer,
    pub phase: u8,
    pub packed: bool,
    pub tensors: Vec<TensorMeta>,
}

/// Where a tensor lies in the payload, and how it is stored.
#[derive(Debug)]
pub struct TensorMeta {
    pub name: String,
    pub dtype: String,
    pub shape: Vec<usize>,
    pub offset: u64,
    pub nbytes: u64,
    pub packed: bool,
}

/// What a read checkpoint hands on: its tensors in the order of the file.
pub struct Loaded {
    pub tensors: Vec<LoadedTensor>,
    pub tokenizer: BpeTokenizer,
    pub phase: u8,
}

/// A tensor to be saved. Real numbers are given by their bit patterns.
#[derive(Debug)]
pub enum NamedBlob {
    F32 { data: Vec<u32>, shape: Vec<usize> },
    Packed { bytes: Vec<u8>, shape: Vec<usize> },
    I8 { codes: Vec<u8>, scale: Vec<u32>, shape: Vec<usize> },
}

/// A tensor that was read. Real numbers are given by their bit patterns.
#[derive(Debug)]
pub enum LoadedTensor {
    /// Ternary codes, `count` of them, still packed.
    Packed { bytes: Vec<u8>, count: usize },
    /// Embedding codes with one scale per row.
    Embed { codes: Vec<u8>, scale: Vec<u32> },
    /// Plain numbers.
    Numbers(Vec<u32>),
}

/// What is wrong with a checkpoint file.
#[derive(Clone, Copy, Debug, PartialEq, Eq, Structural)]
pub enum FrameError {
    Truncated,
    BadMagic,
    TensorOverrun,
    EmbedOverrun,
    ShapeOverflow,
}

/// The little-endian bytes of numbers, end to end.
pub open spec fn words_bytes(words: Seq<u32>) -> Seq<u8>
    decreases words.len(),
{
    if words.len() == 0 {
        Seq::empty()
    } else {
        words_bytes(words.drop_last()) + spec_u32_to_le_bytes(words.last())
    }
}

/// The numbers that little-endian bytes write; a rest of fewer than four
/// bytes does not count.
pub open spec fn bytes_words(bytes: Seq<u8>) -> Seq<u32> {
    Seq::new(
        (bytes.len() / 4) as nat,
        |i: int| spec_u32_from_le_bytes(bytes.subrange(4 * i, 4 * i + 4)),
    )
}

fn append_bytes(out: &mut Vec<u8>, more: &[u8])
    ensures
        final(out)@ == old(out)@ + more@,
{
    assert(more@.take(0) =~= Seq::empty());
    assert(out@ + more@.take(0) =~= out@);
    let mut i: usize = 0;
    while i < more.len()
        invariant
            i <= more@.len(),
            out@ == old(out)@ + more@.take(i as int),
        decreases more@.len() - i,
    {
        out.push(more[i]);
        i += 1;
        assert(out@ =~= old(out)@ + more@.take(i as int));
    }
    assert(more@.take(more@.len() as int) =~= more@);
}

/// The little-endian bytes of numbers, end to end.
pub fn f32_to_le(words: &[u32]) -> (out: Vec<u8>)
    ensures
        out@ == words_bytes(words@),
{
    let mut out: Vec<u8> = Vec::new();
    assert(words@.take(0) =~= Seq::empty());
    let mut i: usize = 0;
    while i < words.len()
        invariant
            i <= words@.len(),
            out@ == words_bytes(words@.take(i as int)),
        decreases words@.len() - i,
    {
        let bytes = u32_to_le_bytes(words[i]);
        append_bytes(&mut out, bytes.as_slice());
        assert(words@.take(i + 1).drop_last() =~= words@.take(i as int));
        i += 1;
    }
    assert(words@.take(words@.len() as int) =~= words@);
    out
}

/// The numbers that little-endian bytes write.
pub fn le_to_f32(bytes: &[u8]) -> (words: Vec<u32>)
    ensures
        words@ == bytes_words(bytes@),
{
    let mut words: Vec<u32> = Vec::new();
    let n: usize = bytes.len() / 4;
    let mut i: usize = 0;
    while i < n
        invariant
            i <= n,
            n == bytes@.len() / 4,
            4 * n <= bytes@.len() <= usize::MAX,
            words@.len() == i,
            forall|j: int| 0 <= j < i ==> #[trigger] words@[j] == bytes_words(bytes@)[j],
        decreases n - i,
    {
        let chunk = slice_subrange(bytes, 4 * i, 4 * i + 4);
        words.push(u32_from_le_bytes(chunk));
        i += 1;
    }
    assert(words@ =~= bytes_words(bytes@));
    words
}

/// Reading numbers gives back the numbers that were written.
pub proof fn law_numbers_survive(words: Seq<u32>)
    ensures
        words_bytes(words).len() == 4 * words.len(),
        bytes_words(words_bytes(words)) == words,
    decreases words.len(),
{
    lemma_auto_spec_u32_to_from_le_bytes();
    if words.len() == 0 {
        assert(bytes_words(words_bytes(words)) =~= words);
    } else {
        let init = words.drop_last();
        law_numbers_survive(init);
        let old_bytes = words_bytes(init);
        let bytes = words_bytes(words);
        let last = spec_u32_to_le_bytes(words.last());
        assert(last.len() == 4);
        assert forall|i: int| 0 <= i < words.len() implies #[trigger] bytes_words(bytes)[i]
            == words[i] by {
            if i < init.len() {
                assert(bytes.subrange(4 * i, 4 * i + 4) =~= old_bytes.subrange(4 * i, 4 * i + 4));
                assert(bytes_words(old_bytes)[i] == init[i]);
            } else {
                assert(bytes.subrange(4 * i, 4 * i + 4) =~= last);
            }
        }
        assert(bytes_words(bytes) =~= words);
    }
}

/// The bytes that a tensor takes in the payload.
pub open spec fn blob_bytes(blob: NamedBlob) -> Seq<u8> {
    match blob {
        NamedBlob::F32 { data, shape } => words_bytes(data@),
        NamedBlob::Packed { bytes, shape } => bytes@,
        NamedBlob::I8 { codes, scale, shape } => codes@ + words_bytes(scale@),
    }
}

/// The shape of a tensor.
pub open spec fn blob_shape(blob: NamedBlob) -> Seq<usize> {
    match blob {
        NamedBlob::F32 { data, shape } => shape@,
        NamedBlob::Packed { bytes, shape } => shape@,
        NamedBlob::I8 { codes, scale, shape } => shape@,
    }
}

/// The name of a tensor's element type.
pub open spec fn blob_dtype(blob: NamedBlob) -> Seq<char> {
    match blob {
        NamedBlob::F32 { data, shape } => "f32"@,
        NamedBlob::Packed { bytes, shape } => "u8"@,
        NamedBlob::I8 { codes, scale, shape } => "i8"@,
    }
}

/// The payload: the tensors end to end.
pub open spec fn payload_of(blobs: Seq<(String, NamedBlob)>) -> Seq<u8>
    decreases blobs.len(),
{
    if blobs.len() == 0 {
        Seq::empty()
    } else {
        payload_of(blobs.drop_last()) + blob_bytes(blobs.last().1)
    }
}

/// `meta` describes tensor `i`: its name, shape and type, where it lies in
/// the payload, and whether it is packed.
pub open spec fn describes(meta: TensorMeta, blobs: Seq<(String, NamedBlob)>, i: int) -> bool {
    &&& meta.name@ == blobs[i].0@
    &&& meta.dtype@ == blob_dtype(blobs[i].1)
    &&& meta.shape@ == blob_shape(blobs[i].1)
    &&& meta.offset == payload_of(blobs.take(i)).len()
    &&& meta.nbytes == blob_bytes(blobs[i].1).len()
    &&& meta.packed == (blobs[i].1 is Packed)
}

/// Lays tensors out: one description each, and the payload.
pub fn lay_out(blobs: Vec<(String, NamedBlob)>) -> (out: (Vec<TensorMeta>, Vec<u8>))
    ensures
        out.1@ == payload_of(blobs@),
        out.0@.len() == blobs@.len(),
        forall|i: int| 0 <= i < blobs@.len() ==> describes(#[trigger] out.0@[i], blobs@, i),
{
    let mut metas: Vec<TensorMeta> = Vec::new();
    let mut payload: Vec<u8> = Vec::new();
    let n: usize = blobs.len();
    assert(blobs@.take(0) =~= Seq::empty());
    let mut i: usize = 0;
    while i < n
        invariant
            i <= n == blobs@.len(),
            payload@ == payload_of(blobs@.take(i as int)),
            metas@.len() == i,
            forall|j: int| 0 <= j < i ==> describes(#[trigger] metas@[j], blobs@, j),
        decreases n - i,
    {
        let entry = &blobs[i];
        assert(blobs@.take(i + 1).drop_last() =~= blobs@.take(i as int));
        assert(blobs@.take(i + 1).last() == blobs@[i as int]);
        let offset: usize = payload.len();
        let meta = match &entry.1 {
            NamedBlob::F32 { data, shape } => {
                let bytes = f32_to_le(data.as_slice());
                append_bytes(&mut payload, bytes.as_slice());
                TensorMeta {
                    name: entry.0.clone(),
                    dtype: "f32".to_owned(),
                    shape: copy_shape(shape),
                    offset: offset as u64,
                    nbytes: bytes.len() as u64,
                    packed: false,
                }
            },
            NamedBlob::Packed { bytes, shape } => {
                append_bytes(&mut payload, bytes.as_slice());
                TensorMeta {
                    name: entry.0.clone(),
                    dtype: "u8".to_owned(),
                    shape: copy_shape(shape),
                    offset: offset as u64,
                    nbytes: bytes.len() as u64,
                    packed: true,
                }
            },
            NamedBlob::I8 { codes, scale, shape } => {
                let scale_bytes = f32_to_le(scale.as_slice());
                let ghost before = payload@;
                append_bytes(&mut payload, codes.as_slice());
                append_bytes(&mut payload, scale_bytes.as_slice());
                assert(payload@ =~= before + (codes@ + scale_bytes@));
                TensorMeta {
                    name: entry.0.clone(),
                    dtype: "i8".to_owned(),
                    shape: copy_shape(shape),
                    offset: offset as u64,
                    nbytes: (payload.len() - offset) as u64,
                    packed: false,
                }
            },
        };
        metas.push(meta);
        i += 1;
    }
    assert(blobs@.take(n as int) =~= blobs@);
    (metas, payload)
}

fn copy_shape(shape: &Vec<usize>) -> (out: Vec<usize>)
    ensures
        out@ == shape@,
{
    let mut out: Vec<usize> = Vec::new();
    let mut i: usize = 0;
    while i < shape.len()
        invariant
            i <= shape@.len(),
            out@ == shape@.take(i as int),
        decreases shape@.len() - i,
    {
        out.push(shape[i]);
        i += 1;
        assert(out@ =~= shape@.take(i as int));
    }
    assert(shape@.take(shape@.len() as int) =~= shape@);
    out
}

/// Zero bytes after `written` bytes, up to the alignment.
pub open spec fn padding(written: int) -> int {
    (64 - written % 64) % 64
}

/// Zero bytes.
pub open spec fn zeros(n: int) -> Seq<u8> {
    Seq::new(n as nat, |i: int| 0u8)
}

/// The payload of a file starts at a multiple of sixty-four bytes, the first
/// that its header leaves free.
pub proof fn law_the_payload_is_aligned(header: Seq<u8>, payload: Seq<u8>, file: Seq<u8>)
    ensures
        payload_start(file) % 64 == 0,
        0 <= payload_start(file) - (12 + named_len(file)) < 64,
        (framed(header, payload).len() - payload.len()) % 64 == 0,
        0 <= framed(header, payload).len() - payload.len() - (12 + header.len()) < 64,
        framed(header, payload).subrange(12, 12 + header.len() as int) == header,
        framed(header, payload).skip(framed(header, payload).len() - payload.len()) == payload,
{
    lemma_auto_spec_u32_to_from_le_bytes();
    let whole = framed(header, payload);
    assert(MAGIC@.len() == 8);
    assert(whole.len() == 12 + header.len() + padding(12 + header.len() as int) + payload.len());
    assert(whole.subrange(12, 12 + header.len() as int) =~= header);
    assert(whole.skip(whole.len() - payload.len()) =~= payload);
}

/// A whole file.
pub open spec fn framed(header: Seq<u8>, payload: Seq<u8>) -> Seq<u8> {
    MAGIC@ + spec_u32_to_le_bytes((header.len() % 0x1_0000_0000) as u32) + header + zeros(
        padding(12 + header.len() as int),
    ) + payload
}

/// A whole file: the header and the payload in their frame. The length field
/// holds the low thirty-two bits of the header's length.
pub fn frame(header: &[u8], payload: &[u8]) -> (file: Vec<u8>)
    ensures
        file@ == framed(header@, payload@),
{
    let mut file: Vec<u8> = Vec::new();
    append_bytes(&mut file, &MAGIC);
    let low: u32 = (header.len() as u64 % 0x1_0000_0000) as u32;
    let length = u32_to_le_bytes(low);
    append_bytes(&mut file, length.as_slice());
    append_bytes(&mut file, header);
    proof {
        lemma_auto_spec_u32_to_from_le_bytes();
        assert(file@.len() == 12 + header@.len());
        assert(file@ =~= MAGIC@ + spec_u32_to_le_bytes(low) + header@);
    }
    let pad: usize = (64 - file.len() % 64) % 64;
    let mut i: usize = 0;
    let ghost start = file@;
    assert(start + zeros(0) =~= start);
    while i < pad
        invariant
            i <= pad,
            file@ == start + zeros(i as int),
        decreases pad - i,
    {
        file.push(0);
        i += 1;
        assert(file@ =~= start + zeros(i as int));
    }
    append_bytes(&mut file, payload);
    file
}

/// The header length that a file names.
pub open spec fn named_len(file: Seq<u8>) -> int {
    spec_u32_from_le_bytes(file.subrange(8, 12)) as int
}

/// What is wrong with the front of a file, up to the end of its header.
pub open spec fn header_error(file: Seq<u8>) -> Option<FrameError> {
    if file.len() < 8 {
        Some(FrameError::Truncated)
    } else if file.take(8) != MAGIC@ {
        Some(FrameError::BadMagic)
    } else if file.len() < 12 || file.len() < 12 + named_len(file) {
        Some(FrameError::Truncated)
    } else {
        None
    }
}

fn has_magic(file: &[u8]) -> (yes: bool)
    requires
        file@.len() >= 8,
    ensures
        yes == (file@.take(8) == MAGIC@),
{
    let magic: [u8; 8] = MAGIC;
    let mut i: usize = 0;
    while i < 8
        invariant
            i <= 8,
            file@.len() >= 8,
            magic@ == MAGIC@,
            magic@.len() == 8,
            forall|j: int| 0 <= j < i ==> file@[j] == magic@[j],
        decreases 8 - i,
    {
        if file[i] != magic[i] {
            assert(file@.take(8)[i as int] != magic@[i as int]);
            return false;
        }
        i += 1;
    }
    assert(file@.take(8) =~= magic@);
    true
}

/// The header of a file.
pub fn read_header(file: &[u8]) -> (header: Result<&[u8], FrameError>)
    ensures
        match header {
            Ok(h) => header_error(file@) is None && h@ == file@.subrange(12, 12 + named_len(file@)),
            Err(e) => header_error(file@) == Some(e),
        },
{
    if file.len() < 8 {
        return Err(FrameError::Truncated);
    }
    if !has_magic(file) {
        return Err(FrameError::BadMagic);
    }
    if file.len() < 12 {
        return Err(FrameError::Truncated);
    }
    let n: usize = u32_from_le_bytes(slice_subrange(file, 8, 12)) as usize;
    if file.len() - 12 < n {
        return Err(FrameError::Truncated);
    }
    Ok(slice_subrange(file, 12, 12 + n))
}

/// Where the payload of a file starts.
pub open spec fn payload_start(file: Seq<u8>) -> int {
    12 + named_len(file) + padding(12 + named_len(file))
}

/// The payload of a file whose header can be read.
pub fn read_payload(file: &[u8]) -> (payload: Result<&[u8], FrameError>)
    ensures
        match payload {
            Ok(p) => header_error(file@) is None && payload_start(file@) <= file@.len() && p@
                == file@.skip(payload_start(file@)),
            Err(e) => header_error(file@) == Some(e) || (header_error(file@) is None && e
                == FrameError::Truncated && payload_start(file@) > file@.len()),
        },
{
    let total: usize = file.len();
    let n: usize = match read_header(file) {
        Ok(h) => h.len(),
        Err(e) => {
            return Err(e);
        },
    };
    let written: usize = 12 + n;
    let pad: usize = (64 - written % 64) % 64;
    if total - written < pad {
        return Err(FrameError::Truncated);
    }
    let p = slice_subrange(file, written + pad, total);
    assert(p@ =~= file@.skip(payload_start(file@)));
    Ok(p)
}

/// Reading a file gives back the header and the payload that were framed, as
/// long as the length field can hold the header's length.
pub proof fn law_frame_round_trip(header: Seq<u8>, payload: Seq<u8>)
    requires
        header.len() <= u32::MAX,
    ensures
        header_error(framed(header, payload)) is None,
        named_len(framed(header, payload)) == header.len(),
        framed(header, payload).subrange(12, 12 + header.len() as int) == header,
        payload_start(framed(header, payload)) <= framed(header, payload).len(),
        framed(header, payload).skip(payload_start(framed(header, payload))) == payload,
        payload_start(framed(header, payload)) % 64 == 0,
{
    lemma_auto_spec_u32_to_from_le_bytes();
    let file = framed(header, payload);
    let low = (header.len() % 0x1_0000_0000) as u32;
    assert(low == header.len());
    let length = spec_u32_to_le_bytes(low);
    assert(file.take(8) =~= MAGIC@);
    assert(file.subrange(8, 12) =~= length);
    assert(file.subrange(12, 12 + header.len() as int) =~= header);
    assert(file.skip(payload_start(file)) =~= payload);
}

/// The bytes of one tensor.
pub fn tensor_bytes<'a>(payload: &'a [u8], meta: &TensorMeta) -> (bytes: Result<
    &'a [u8],
    FrameError,
>)
    ensures
        match bytes {
            Ok(b) => meta.offset + meta.nbytes <= payload@.len() && b@ == payload@.subrange(
                meta.offset as int,
                meta.offset + meta.nbytes,
            ),
            Err(e) => e == FrameError::TensorOverrun && meta.offset + meta.nbytes > payload@.len(),
        },
{
    let len: u64 = payload.len() as u64;
    if meta.offset > len || meta.nbytes > len - meta.offset {
        return Err(FrameError::TensorOverrun);
    }
    let start: usize = meta.offset as usize;
    Ok(slice_subrange(payload, start, start + meta.nbytes as usize))
}

/// Each tensor reads back as the bytes it was laid out with: the description
/// of tensor `i` cuts exactly its bytes out of the payload.
pub proof fn law_tensors_read_back(blobs: Seq<(String, NamedBlob)>, meta: TensorMeta, i: int)
    requires
        0 <= i < blobs.len(),
        describes(meta, blobs, i),
    ensures
        meta.offset + meta.nbytes <= payload_of(blobs).len(),
        payload_of(blobs).subrange(meta.offset as int, meta.offset + meta.nbytes) == blob_bytes(
            blobs[i].1,
        ),
    decreases blobs.len(),
{
    let init = blobs.drop_last();
    if i == blobs.len() - 1 {
        assert(blobs.take(i) =~= init);
        assert(payload_of(blobs).subrange(meta.offset as int, meta.offset + meta.nbytes)
            =~= blob_bytes(blobs[i].1));
    } else {
        assert(init.take(i) =~= blobs.take(i));
        assert(init[i] == blobs[i]);
        law_tensors_read_back(init, meta, i);
        assert(payload_of(blobs).subrange(meta.offset as int, meta.offset + meta.nbytes)
            =~= payload_of(init).subrange(meta.offset as int, meta.offset + meta.nbytes));
    }
}

/// The tensors lie in the payload end to end, from its first byte to its last.
pub proof fn law_tensors_lie_end_to_end(
    blobs: Seq<(String, NamedBlob)>,
    meta: TensorMeta,
    next: TensorMeta,
    i: int,
)
    requires
        0 <= i < blobs.len(),
        describes(meta, blobs, i),
        i + 1 < blobs.len() ==> describes(next, blobs, i + 1),
    ensures
        i == 0 ==> meta.offset == 0,
        i + 1 < blobs.len() ==> next.offset == meta.offset + meta.nbytes,
        i + 1 == blobs.len() ==> payload_of(blobs).len() == meta.offset + meta.nbytes,
{
    assert(blobs.take(0) =~= Seq::empty());
    assert(blobs.take(i + 1).drop_last() =~= blobs.take(i));
    assert(blobs.take(i + 1).last() == blobs[i]);
    if i + 1 == blobs.len() {
        assert(blobs.take(i + 1) =~= blobs);
    }
}

/// Number of entries of a shape.
pub open spec fn volume(shape: Seq<usize>) -> int
    decreases shape.len(),
{
    if shape.len() == 0 {
        1
    } else {
        volume(shape.drop_last()) * shape.last()
    }
}

/// Some partial product of the shape does not fit.
pub open spec fn volume_overflows(shape: Seq<usize>) -> bool {
    exists|i: int| 0 <= i <= shape.len() && volume(#[trigger] shape.take(i)) > usize::MAX
}

/// A shape has the entries of its front for each entry of its back, one number
/// has as many as it says, and no number at all has one.
pub proof fn law_volumes_multiply(a: Seq<usize>, b: Seq<usize>, n: usize)
    ensures
        volume(Seq::<usize>::empty()) == 1,
        volume(seq![n]) == n,
        volume(a + b) == volume(a) * volume(b),
    decreases b.len(),
{
    reveal_with_fuel(volume, 3);
    assert(seq![n].drop_last() =~= Seq::empty());
    if b.len() == 0 {
        assert(a + b =~= a);
        assert(volume(a) * 1 == volume(a));
    } else {
        law_volumes_multiply(a, b.drop_last(), n);
        assert((a + b).drop_last() =~= a + b.drop_last());
        assert((a + b).last() == b.last());
        let front = volume(b.drop_last());
        let last = b.last() as int;
        assert((volume(a) * front) * last == volume(a) * (front * last)) by (nonlinear_arith);
    }
}

pub(crate) fn volume_of(shape: &Vec<usize>) -> (n: Option<usize>)
    ensures
        n is Some <==> !volume_overflows(shape@),
        n matches Some(v) ==> v == volume(shape@),
{
    let mut v: usize = 1;
    let mut i: usize = 0;
    assert(shape@.take(0) =~= Seq::empty());
    while i < shape.len()
        invariant
            i <= shape@.len(),
            v == volume(shape@.take(i as int)),
            forall|j: int| 0 <= j <= i ==> volume(#[trigger] shape@.take(j)) <= usize::MAX,
        decreases shape@.len() - i,
    {
        assert(shape@.take(i + 1).drop_last() =~= shape@.take(i as int));
        match v.checked_mul(shape[i]) {
            Some(next) => {
                v = next;
            },
            None => {
                assert(volume(shape@.take(i + 1)) > usize::MAX);
                return None;
            },
        }
        i += 1;
    }
    assert(shape@.take(shape@.len() as int) =~= shape@);
    Some(v)
}

fn copy_bytes(bytes: &[u8]) -> (out: Vec<u8>)
    ensures
        out@ == bytes@,
{
    let mut out: Vec<u8> = Vec::new();
    append_bytes(&mut out, bytes);
    assert(out@ =~= bytes@);
    out
}

/// How a stored tensor is taken up: packed codes with their count, embedding
/// codes with their scales, or plain numbers.
pub fn read_tensor(payload: &[u8], meta: &TensorMeta) -> (tensor: Result<LoadedTensor, FrameError>)
    ensures
        match tensor {
            Ok(t) => readable(payload@, *meta) && reads_as(payload@, *meta, t),
            Err(e) => !readable(payload@, *meta) && e == if meta.offset + meta.nbytes
                > payload@.len() {
                FrameError::TensorOverrun
            } else if volume_overflows(meta.shape@) {
                FrameError::ShapeOverflow
            } else {
                FrameError::EmbedOverrun
            },
        },
{
    let bytes = match tensor_bytes(payload, meta) {
        Ok(bytes) => bytes,
        Err(e) => {
            return Err(e);
        },
    };
    if meta.packed {
        return match volume_of(&meta.shape) {
            Some(count) => Ok(LoadedTensor::Packed { bytes: copy_bytes(bytes), count }),
            None => Err(FrameError::ShapeOverflow),
        };
    }
    if same_text(meta.dtype.as_str(), "i8") && same_text(meta.name.as_str(), "embed") {
        let n: usize = match volume_of(&meta.shape) {
            Some(n) => n,
            None => {
                return Err(FrameError::ShapeOverflow);
            },
        };
        if bytes.len() < n {
            return Err(FrameError::EmbedOverrun);
        }
        let codes = copy_bytes(slice_subrange(bytes, 0, n));
        let rest = slice_subrange(bytes, n, bytes.len());
        assert(codes@ =~= bytes@.take(n as int));
        assert(rest@ =~= bytes@.skip(n as int));
        return Ok(LoadedTensor::Embed { codes, scale: le_to_f32(rest) });
    }
    Ok(LoadedTensor::Numbers(le_to_f32(bytes)))
}

/// The parts of a dotted name.
pub open spec fn dotted(name: Seq<char>) -> Seq<Seq<char>>
    decreases name.len(),
{
    if name.len() == 0 {
        seq![Seq::empty()]
    } else {
        let parts = dotted(name.drop_last());
        if name.last() == '.' {
            parts.push(Seq::empty())
        } else {
            parts.drop_last().push(parts.last().push(name.last()))
        }
    }
}

/// Strings by their characters.
pub open spec fn texts(parts: Seq<String>) -> Seq<Seq<char>> {
    Seq::new(parts.len(), |i: int| parts[i]@)
}

/// Takes a dotted name apart.
pub fn split_dots(name: &str) -> (parts: Vec<String>)
    ensures
        texts(parts@) == dotted(name@),
        parts@.len() > 0,
{
    let t = chars_of(name);
    let n: usize = t.len();
    let mut parts: Vec<String> = Vec::new();
    let mut start: usize = 0;
    let mut i: usize = 0;
    proof {
        assert(t@.take(0) =~= Seq::empty());
        assert(texts(parts@).push(t@.subrange(0, 0)) =~= dotted(t@.take(0)));
    }
    while i < n
        invariant
            start <= i <= n == t@.len(),
            t@ == name@,
            texts(parts@).push(t@.subrange(start as int, i as int)) == dotted(t@.take(i as int)),
        decreases n - i,
    {
        proof {
            assert(t@.take(i + 1).drop_last() =~= t@.take(i as int));
            assert(dotted(t@.take(i as int)).drop_last() =~= texts(parts@));
        }
        let ghost before = texts(parts@);
        if t[i] == '.' {
            let piece = name.substring_char(start, i).to_owned();
            parts.push(piece);
            start = i + 1;
            proof {
                assert(texts(parts@) =~= before.push(piece@));
                assert(t@.subrange(start as int, i + 1) =~= Seq::empty());
            }
        } else {
            assert(t@.subrange(start as int, i + 1) =~= t@.subrange(start as int, i as int).push(
                t@[i as int],
            ));
        }
        i += 1;
    }
    let ghost before = texts(parts@);
    let piece = name.substring_char(start, n).to_owned();
    parts.push(piece);
    proof {
        assert(texts(parts@) =~= before.push(piece@));
        assert(t@.take(n as int) =~= t@);
    }
    parts
}

/// Which packed plane of a block a tensor is.
#[derive(Clone, Copy, Debug, PartialEq, Eq, Structural)]
pub enum PackedPlane {
    Base,
    Shared,
    Routed,
    Unknown,
}

/// Where a packed tensor goes.
#[derive(Clone, Copy, Debug, PartialEq, Eq, Structural)]
pub struct PackedTarget {
    pub block: usize,
    pub plane: PackedPlane,
}

/// The plane of that name.
pub open spec fn plane_of(part: Seq<char>) -> PackedPlane {
    if part == "packed_base"@ {
        PackedPlane::Base
    } else if part == "packed_shared"@ {
        PackedPlane::Shared
    } else if part == "packed_routed"@ {
        PackedPlane::Routed
    } else {
        PackedPlane::Unknown
    }
}

/// The block that a name's second part writes; zero when it writes none.
pub open spec fn block_of(part: Seq<char>) -> int {
    let value = crate::text::digits_value(crate::text::number_digits(part));
    if crate::text::is_number(part) && value <= usize::MAX {
        value as int
    } else {
        0
    }
}

/// Where the packed tensor of that name goes, in a model of `blocks` blocks:
/// `blocks.<block>.<module>.<plane>`. Other names go nowhere.
pub fn apply_packed(name: &str, blocks: usize) -> (target: Option<PackedTarget>)
    ensures
        ({
            let parts = dotted(name@);
            match target {
                Some(t) => parts.len() >= 4 && parts[0] == "blocks"@ && t.block == block_of(
                    parts[1],
                ) && t.block < blocks && t.plane == plane_of(parts[3]),
                None => parts.len() < 4 || parts[0] != "blocks"@ || block_of(parts[1]) >= blocks,
            }
        }),
{
    let parts = split_dots(name);
    assert(forall|i: int| 0 <= i < parts@.len() ==> texts(parts@)[i] == parts@[i]@);
    if parts.len() < 4 || !same_text(parts[0].as_str(), "blocks") {
        return None;
    }
    let block: usize = match parse_number(parts[1].as_str()) {
        Some(n) => n,
        None => 0,
    };
    if block >= blocks {
        return None;
    }
    let plane = if same_text(parts[3].as_str(), "packed_base") {
        PackedPlane::Base
    } else if same_text(parts[3].as_str(), "packed_shared") {
        PackedPlane::Shared
    } else if same_text(parts[3].as_str(), "packed_routed") {
        PackedPlane::Routed
    } else {
        PackedPlane::Unknown
    };
    Some(PackedTarget { block, plane })
}

/// Some tensor of the file stores grid widths.
pub open spec fn stores_widths(tensors: Seq<TensorMeta>) -> bool {
    exists|i: int|
        0 <= i < tensors.len() && crate::text::has_text(
            (#[trigger] tensors[i]).name@,
            "inv_widths"@,
        )
}

/// Whether the grids have to be rebuilt after reading: no tensor of the file
/// stores their widths.
pub fn needs_grids(tensors: &Vec<TensorMeta>) -> (yes: bool)
    ensures
        yes == !stores_widths(tensors@),
{
    let mut i: usize = 0;
    while i < tensors.len()
        invariant
            i <= tensors@.len(),
            forall|j: int|
                0 <= j < i ==> !crate::text::has_text(
                    (#[trigger] tensors@[j]).name@,
                    "inv_widths"@,
                ),
        decreases tensors@.len() - i,
    {
        if crate::text::find_text(tensors[i].name.as_str(), "inv_widths").is_some() {
            assert(crate::text::has_text(tensors@[i as int].name@, "inv_widths"@));
            return false;
        }
        i += 1;
    }
    true
}

/// Reads every tensor of a file in the order of its list, or stops at the
/// first that cannot be read.
pub fn load(payload: &[u8], header: Header) -> (loaded: Result<Loaded, FrameError>)
    ensures
        loaded matches Ok(l) ==> {
            &&& l.tensors@.len() == header.tensors@.len()
            &&& l.phase == header.phase
            &&& l.tokenizer == header.tokenizer
            &&& forall|i: int|
                0 <= i < header.tensors@.len() ==> readable(
                    payload@,
                    #[trigger] header.tensors@[i],
                )
            &&& forall|i: int|
                0 <= i < header.tensors@.len() ==> reads_as(
                    payload@,
                    header.tensors@[i],
                    #[trigger] l.tensors@[i],
                )
        },
        loaded is Err <==> exists|i: int|
            0 <= i < header.tensors@.len() && !readable(payload@, #[trigger] header.tensors@[i]),
{
    let mut tensors: Vec<LoadedTensor> = Vec::new();
    let mut i: usize = 0;
    while i < header.tensors.len()
        invariant
            i <= header.tensors@.len(),
            tensors@.len() == i,
            forall|j: int|
                0 <= j < i ==> readable(payload@, #[trigger] header.tensors@[j]),
            forall|j: int|
                0 <= j < i ==> reads_as(
                    payload@,
                    header.tensors@[j],
                    #[trigger] tensors@[j],
                ),
        decreases header.tensors@.len() - i,
    {
        match read_tensor(payload, &header.tensors[i]) {
            Ok(t) => {
                tensors.push(t);
            },
            Err(e) => {
                assert(!readable(payload@, header.tensors@[i as int]));
                return Err(e);
            },
        }
        i += 1;
    }
    Ok(Loaded { tensors, tokenizer: header.tokenizer, phase: header.phase })
}

/// The tensor is stored as embedding codes.
pub open spec fn is_embed(meta: TensorMeta) -> bool {
    !meta.packed && meta.dtype@ == "i8"@ && meta.name@ == "embed"@
}

/// The tensor can be read out of the payload.
pub open spec fn readable(payload: Seq<u8>, meta: TensorMeta) -> bool {
    &&& meta.offset + meta.nbytes <= payload.len()
    &&& meta.packed || is_embed(meta) ==> !volume_overflows(meta.shape@)
    &&& is_embed(meta) ==> volume(meta.shape@) <= meta.nbytes
}

/// What the tensor reads as.
pub open spec fn reads_as(payload: Seq<u8>, meta: TensorMeta, tensor: LoadedTensor) -> bool {
    let bytes = payload.subrange(meta.offset as int, meta.offset + meta.nbytes);
    match tensor {
        LoadedTensor::Packed { bytes: b, count } => meta.packed && b@ == bytes && count == volume(
            meta.shape@,
        ),
        LoadedTensor::Embed { codes, scale } => is_embed(meta) && codes@ == bytes.take(
            volume(meta.shape@),
        ) && scale@ == bytes_words(bytes.skip(volume(meta.shape@))),
        LoadedTensor::Numbers(words) => !meta.packed && !is_embed(meta) && words@ == bytes_words(
            bytes,
        ),
    }
}

/// What was saved is what is read: numbers come back as numbers, packed codes as
/// packed codes with their count, and the codes of the embedding with their
/// scales.
pub proof fn law_what_was_saved_is_read(
    blobs: Seq<(String, NamedBlob)>,
    meta: TensorMeta,
    i: int,
    tensor: LoadedTensor,
)
    requires
        0 <= i < blobs.len(),
        describes(meta, blobs, i),
        reads_as(payload_of(blobs), meta, tensor),
    ensures
        blobs[i].1 matches NamedBlob::F32 { data, shape } ==> (tensor matches LoadedTensor::Numbers(
            words,
        ) && words@ == data@),
        blobs[i].1 matches NamedBlob::Packed { bytes, shape } ==> (
        tensor matches LoadedTensor::Packed { bytes: read, count } && read@ == bytes@ && count
            == volume(shape@)),
        blobs[i].1 matches NamedBlob::I8 { codes, scale, shape } ==> (blobs[i].0@ == "embed"@
            && codes@.len() == volume(shape@) ==> (tensor matches LoadedTensor::Embed {
            codes: read,
            scale: scales,
        } && read@ == codes@ && scales@ == scale@)),
{
    reveal_strlit("f32");
    reveal_strlit("u8");
    reveal_strlit("i8");
    assert("u8"@[0] != "i8"@[0]);
    law_tensors_read_back(blobs, meta, i);
    let bytes = payload_of(blobs).subrange(meta.offset as int, meta.offset + meta.nbytes);
    match blobs[i].1 {
        NamedBlob::F32 { data, shape } => {
            law_numbers_survive(data@);
        },
        NamedBlob::Packed { bytes: held, shape } => {},
        NamedBlob::I8 { codes, scale, shape } => {
            law_numbers_survive(scale@);
            if codes@.len() == volume(shape@) {
                assert(bytes.take(volume(shape@)) =~= codes@);
                assert(bytes.skip(volume(shape@)) =~= words_bytes(scale@));
            }
        },
    }
}

/// A packed plane is found by its name: the block that the name writes, and the
/// plane that it ends with.
pub proof fn law_planes_are_found_by_their_names(block: nat, module: Seq<char>, plane: Seq<char>)
    requires
        block <= usize::MAX,
        crate::names::plain(module),
        crate::names::plain(plane),
    ensures
        ({
            let steps = seq!["blocks"@, crate::text::decimal(block), module, plane];
            let parts = dotted(crate::names::joined(steps));
            &&& parts.len() == 4
            &&& parts[0] == "blocks"@
            &&& block_of(parts[1]) == block
            &&& parts[3] == plane
        }),
        plane_of("packed_base"@) == PackedPlane::Base,
        plane_of("packed_shared"@) == PackedPlane::Shared,
        plane_of("packed_routed"@) == PackedPlane::Routed,
        plane_of(plane) == PackedPlane::Unknown <==> plane != "packed_base"@ && plane
            != "packed_shared"@ && plane != "packed_routed"@,
{
    reveal_strlit("blocks");
    reveal_strlit("packed_base");
    reveal_strlit("packed_shared");
    reveal_strlit("packed_routed");
    assert("packed_shared"@[7] != "packed_routed"@[7]);
    crate::names::lemma_decimal(block);
    let steps = seq!["blocks"@, crate::text::decimal(block), module, plane];
    assert forall|i: int| 0 <= i < steps.len() implies crate::names::plain(#[trigger] steps[i]) by {
        if i == 0 {
            assert(crate::names::plain("blocks"@));
        }
    }
    crate::names::lemma_dotted_joined(steps);
}

/// Whatever was saved can be read: numbers of any shape, packed codes of a shape
/// that can be counted, and an embedding with a code for each entry.
pub proof fn law_what_was_saved_can_be_read(
    blobs: Seq<(String, NamedBlob)>,
    meta: TensorMeta,
    i: int,
)
    requires
        0 <= i < blobs.len(),
        describes(meta, blobs, i),
    ensures
        blobs[i].1 is F32 ==> readable(payload_of(blobs), meta),
        blobs[i].1 is Packed && !volume_overflows(meta.shape@) ==> readable(
            payload_of(blobs),
            meta,
        ),
        blobs[i].1 matches NamedBlob::I8 { codes, scale, shape } ==> !volume_overflows(shape@)
            && codes@.len() >= volume(shape@) ==> readable(payload_of(blobs), meta),
{
    reveal_strlit("f32");
    reveal_strlit("u8");
    reveal_strlit("i8");
    assert("u8"@[0] != "i8"@[0]);
    law_tensors_read_back(blobs, meta, i);
}

/// A tensor that reaches beyond the payload is not read, nor packed codes of a
/// shape that cannot be counted, nor an embedding with too few codes.
pub proof fn law_unreadable_tensors(payload: Seq<u8>, meta: TensorMeta)
    ensures
        meta.offset + meta.nbytes > payload.len() ==> !readable(payload, meta),
        meta.packed && volume_overflows(meta.shape@) ==> !readable(payload, meta),
        !meta.packed && meta.dtype@ == "i8"@ && meta.name@ == "embed"@ && volume(meta.shape@)
            > meta.nbytes ==> !readable(payload, meta),
{
}

} // verus!
