//! Generating a completion: which prompt is fed, when generation stops, and
//! what is kept of it.
use vstd::prelude::*;
use vstd::string::*;
use crate::conversation::{generation_prefix, truncate_at_assistant_end};
use crate::decode::{bump_count, DecodeConfig, DecodeError};

verus! {

/// Why nothing can be generated.
#[derive(Clone, Copy, Debug, PartialEq, Eq, Structural)]
pub enum CompletionError {
    NoTokens,
    Decode(DecodeError),
    PromptTooLong,
}

/// The text that is fed: the prompt itself, or the prompt as an open turn of a
/// conversation.
pub fn prompt_text(prompt: &str, chat_template: bool) -> (text: String)
    ensures
        text@ == (if chat_template {
            crate::conversation::opening(prompt@)
        } else {
            prompt@
        }),
{
    if chat_template {
        generation_prefix(prompt)
    } else {
        prompt.to_owned()
    }
}

/// The ids that are fed for a prompt: at least the begin of sequence, and no
/// more than the context holds.
pub fn prompt_ids(ids: Vec<u32>, bos_id: u32, context_len: usize) -> (fed: Result<
    Vec<u32>,
    CompletionError,
>)
    ensures
        ({
            let all = if ids@.len() == 0 {
                seq![bos_id]
            } else {
                ids@
            };
            match fed {
                Ok(f) => f@ == all && all.len() <= context_len,
                Err(e) => e == CompletionError::PromptTooLong && all.len() > context_len,
            }
        }),
{
    let mut fed: Vec<u32> = ids;
    if fed.len() == 0 {
        fed.push(bos_id);
        assert(fed@ =~= seq![bos_id]);
    }
    if fed.len() > context_len {
        Err(CompletionError::PromptTooLong)
    } else {
        Ok(fed)
    }
}

/// How often a token stands in a row of tokens.
pub open spec fn occurrences(tokens: Seq<u32>, id: int) -> nat
    decreases tokens.len(),
{
    if tokens.len() == 0 {
        0
    } else {
        occurrences(tokens.drop_last(), id) + if tokens.last() == id {
            1nat
        } else {
            0
        }
    }
}

/// A token occurs once for each place at which it stands, so two rows of tokens
/// hold together what each of them holds.
pub proof fn law_occurrences_count_places(a: Seq<u32>, b: Seq<u32>, id: int)
    ensures
        occurrences(a, id) == Set::new(|i: int| 0 <= i < a.len() && a[i] == id).len(),
        occurrences(a + b, id) == occurrences(a, id) + occurrences(b, id),
    decreases b.len(),
{
    lemma_occurrences_are_places(a, id);
    if b.len() == 0 {
        assert(a + b =~= a);
    } else {
        law_occurrences_count_places(a, b.drop_last(), id);
        assert((a + b).drop_last() =~= a + b.drop_last());
        assert((a + b).last() == b.last());
    }
}

proof fn lemma_occurrences_are_places(a: Seq<u32>, id: int)
    ensures
        Set::new(|i: int| 0 <= i < a.len() && a[i] == id).finite(),
        occurrences(a, id) == Set::new(|i: int| 0 <= i < a.len() && a[i] == id).len(),
    decreases a.len(),
{
    let places = Set::new(|i: int| 0 <= i < a.len() && a[i] == id);
    if a.len() == 0 {
        assert(places =~= Set::empty());
    } else {
        let front = a.drop_last();
        let fewer = Set::new(|i: int| 0 <= i < front.len() && front[i] == id);
        lemma_occurrences_are_places(front, id);
        if a.last() == id {
            assert(places =~= fewer.insert(a.len() - 1));
        } else {
            assert(places =~= fewer);
        }
    }
}

/// How often a token was used, as far as it can be counted.
pub open spec fn used(tokens: Seq<u32>, id: int) -> int {
    if occurrences(tokens, id) > u32::MAX {
        u32::MAX as int
    } else {
        occurrences(tokens, id) as int
    }
}

/// What to do with a token that was chosen.
#[derive(Clone, Copy, Debug, PartialEq, Eq, Structural)]
pub enum Next {
    /// Generation is over; the token is not kept.
    Stop,
    /// The token is kept, and fed to the model.
    Keep,
}

/// A completion on its way.
#[derive(Debug)]
pub struct Completion {
    pub produced: Vec<u32>,
    pub counts: Vec<u32>,
    pub max_tokens: usize,
    pub min_new_tokens: usize,
    pub context_len: usize,
    pub eos_id: u32,
}

impl Completion {
    /// The counts say how often each token was produced, the end of sequence
    /// never was, and no more tokens were produced than asked for.
    pub open spec fn wf(self) -> bool {
        &&& self.produced@.len() <= self.max_tokens
        &&& !self.produced@.contains(self.eos_id)
        &&& forall|id: int|
            0 <= id < self.counts@.len() ==> #[trigger] self.counts@[id] == used(self.produced@, id)
    }

    /// Whether anything can be generated with these settings.
    pub fn check(max_tokens: usize, decode: DecodeConfig) -> (checked: Result<(), CompletionError>)
        ensures
            match checked {
                Ok(_) => max_tokens > 0 && decode.error() is None,
                Err(CompletionError::NoTokens) => max_tokens == 0,
                Err(CompletionError::Decode(e)) => max_tokens > 0 && decode.error() == Some(e),
                Err(_) => false,
            },
    {
        if max_tokens == 0 {
            return Err(CompletionError::NoTokens);
        }
        match decode.validate() {
            Ok(_) => Ok(()),
            Err(e) => Err(CompletionError::Decode(e)),
        }
    }

    /// A completion of at most `max_tokens` tokens over a vocabulary.
    pub fn new(
        max_tokens: usize,
        vocab: usize,
        decode: DecodeConfig,
        context_len: usize,
        eos_id: u32,
    ) -> (completion: Result<Self, CompletionError>)
        ensures
            match completion {
                Ok(c) => {
                    &&& max_tokens > 0
                    &&& decode.error() is None
                    &&& c.wf()
                    &&& c.produced@ == Seq::<u32>::empty()
                    &&& c.counts@.len() == vocab
                    &&& c.max_tokens == max_tokens
                    &&& c.min_new_tokens == decode.min_new_tokens
                    &&& c.context_len == context_len
                    &&& c.eos_id == eos_id
                },
                Err(CompletionError::NoTokens) => max_tokens == 0,
                Err(CompletionError::Decode(e)) => max_tokens > 0 && decode.error() == Some(e),
                Err(_) => false,
            },
    {
        match Self::check(max_tokens, decode) {
            Ok(_) => {},
            Err(e) => return Err(e),
        }
        Ok(
            Completion {
                produced: Vec::new(),
                counts: vec![0u32; vocab],
                max_tokens,
                min_new_tokens: decode.min_new_tokens,
                context_len,
                eos_id,
            },
        )
    }

    /// Whether another token may be chosen.
    pub fn wants_more(&self) -> (more: bool)
        ensures
            more == (self.produced@.len() < self.max_tokens),
    {
        self.produced.len() < self.max_tokens
    }

    /// Whether the end of sequence may not be chosen yet.
    pub fn suppress_eos(&self) -> (suppress: bool)
        ensures
            suppress == (self.produced@.len() < self.min_new_tokens),
    {
        self.produced.len() < self.min_new_tokens
    }

    /// Takes a token that was chosen when the model had taken in `time`
    /// tokens. The end of sequence ends the completion, and so does a full
    /// context.
    pub fn accept(&mut self, token: u32, time: usize) -> (next: Next)
        requires
            old(self).wf(),
            old(self).produced@.len() < old(self).max_tokens,
        ensures
            final(self).wf(),
            final(self).counts@.len() == old(self).counts@.len(),
            final(self).max_tokens == old(self).max_tokens,
            final(self).min_new_tokens == old(self).min_new_tokens,
            final(self).context_len == old(self).context_len,
            final(self).eos_id == old(self).eos_id,
            (next is Stop) == (token == old(self).eos_id || time >= old(self).context_len),
            next is Stop ==> final(self).produced@ == old(self).produced@,
            next is Keep ==> final(self).produced@ == old(self).produced@.push(token),
            forall|id: int|
                0 <= id < old(self).counts@.len() ==> #[trigger] final(self).counts@[id] == if next
                    is Keep && id == token && old(self).counts@[id] < u32::MAX {
                    old(self).counts@[id] + 1
                } else {
                    old(self).counts@[id] as int
                },
    {
        if token == self.eos_id || time >= self.context_len {
            return Next::Stop;
        }
        let ghost before = *self;
        self.produced.push(token);
        let mut counts: Vec<u32> = Vec::new();
        std::mem::swap(&mut counts, &mut self.counts);
        bump_count(counts.as_mut_slice(), token);
        self.counts = counts;
        proof {
            let after = self.produced@;
            assert(after.drop_last() =~= before.produced@);
            assert forall|id: int| 0 <= id < self.counts@.len() implies #[trigger] self.counts@[id]
                == used(after, id) by {
                assert(before.counts@[id] == used(before.produced@, id));
            }
            assert(!after.contains(self.eos_id)) by {
                if after.contains(self.eos_id) {
                    let i = choose|i: int| 0 <= i < after.len() && after[i] == self.eos_id;
                    if i < before.produced@.len() {
                        assert(before.produced@[i] == self.eos_id);
                        assert(before.produced@.contains(self.eos_id));
                    }
                }
            }
        }
        Next::Keep
    }
}

/// What a decoded completion answers once its turn is over: the text before
/// the end of the assistant's turn. Nothing while the turn goes on.
pub fn finished_turn(decoded: &str) -> (answer: Option<String>)
    ensures
        answer is Some <==> crate::text::has_text(decoded@, crate::conversation::ASSISTANT_CLOSE@),
        answer matches Some(text) ==> crate::text::first_at(
            decoded@,
            crate::conversation::ASSISTANT_CLOSE@,
            text@.len() as int,
        ) && text@ == decoded@.take(text@.len() as int),
{
    match truncate_at_assistant_end(decoded) {
        Some(text) => Some(text.to_owned()),
        None => None,
    }
}

} // verus!
