//! The vocabulary that training ids refer to.
use vstd::prelude::*;

verus! {

/// Smallest usable vocabulary: every byte and the four special ids.
pub const MIN_VOCAB: u32 = 260;

/// Vocabulary ceiling of a fresh configuration.
pub const DEFAULT_VOCAB: u32 = 8192;

/// Token pieces by id, with the four special ids.
pub struct BpeTokenizer {
    pub pieces: Vec<Vec<u8>>,
    pub pad_id: u32,
    pub bos_id: u32,
    pub eos_id: u32,
    pub unk_id: u32,
}

impl BpeTokenizer {
    /// The bytes that `id` stands for; none for an id outside the vocabulary.
    pub open spec fn piece(&self, id: u32) -> Seq<u8> {
        if id < self.pieces@.len() {
            self.pieces@[id as int]@
        } else {
            Seq::empty()
        }
    }

    /// Ids are `u32`, so a vocabulary holds at most `u32::MAX` pieces.
    pub open spec fn wf(&self) -> bool {
        self.pieces@.len() <= u32::MAX
    }

    /// Number of ids.
    pub fn vocab_size(&self) -> (n: u32)
        requires
            self.wf(),
        ensures
            n == self.pieces@.len(),
    {
        self.pieces.len() as u32
    }

    /// The bytes that `id` stands for; none for an id outside the vocabulary.
    pub fn token_bytes(&self, id: u32) -> (bytes: &[u8])
        ensures
            bytes@ == self.piece(id),
    {
        let at: usize = id as usize;
        if at < self.pieces.len() {
            self.pieces[at].as_slice()
        } else {
            &[]
        }
    }
}

} // verus!
