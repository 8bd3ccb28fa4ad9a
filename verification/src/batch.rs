//! Zero-copy fixed-shape batches for causal next-token training.
//!
//! A caller owns the token corpus and this module only borrows windows from
//! it. That keeps dataset size out of the trainer's working set and avoids
//! padded tensors whose size grows with the longest document in a batch.
use vstd::prelude::*;
use vstd::slice::*;
use crate::config::{ConfigError, TrainConfig};

verus! {

/// Why a batcher cannot be made or moved.
#[derive(Clone, Copy, Debug, PartialEq, Eq, Structural)]
pub enum BatchError {
    Shape,
    LabelLength,
    ShapeOverflow,
    Config(ConfigError),
    BeyondContext,
    SkipOverflow,
    SkipPastEnd,
}

/// One contiguous `[batch, time]` token view.
#[derive(Clone, Copy, Debug)]
pub struct CausalBatch<'a> {
    tokens: &'a [u32],
    labels: &'a [u32],
    batch_size: usize,
    time: usize,
}

impl<'a> CausalBatch<'a> {
    pub closed spec fn token_view(self) -> Seq<u32> {
        self.tokens@
    }

    pub closed spec fn label_view(self) -> Seq<u32> {
        self.labels@
    }

    /// Sequences in the batch.
    pub closed spec fn sequences(self) -> int {
        self.batch_size as int
    }

    /// Tokens per sequence.
    pub closed spec fn length(self) -> int {
        self.time as int
    }

    pub fn tokens(self) -> (t: &'a [u32])
        ensures
            t@ == self.token_view(),
    {
        self.tokens
    }

    /// Next-token targets aligned with the tokens. Unsupervised positions hold
    /// the padding id when the stream was built for fine-tuning.
    pub fn labels(self) -> (t: &'a [u32])
        ensures
            t@ == self.label_view(),
    {
        self.labels
    }

    pub fn batch_size(self) -> (n: usize)
        ensures
            n == self.sequences(),
    {
        self.batch_size
    }

    pub fn time(self) -> (n: usize)
        ensures
            n == self.length(),
    {
        self.time
    }
}

/// Walks non-overlapping, fixed-size causal batches over a token corpus.
#[derive(Debug)]
pub struct CausalBatcher<'a> {
    tokens: &'a [u32],
    labels: &'a [u32],
    batch_size: usize,
    time: usize,
    batch_tokens: usize,
    offset: usize,
}

/// What a batcher walks and where it stands.
pub struct Walk {
    pub tokens: Seq<u32>,
    pub labels: Seq<u32>,
    pub batch_size: int,
    pub time: int,
    pub offset: int,
}

impl Walk {
    /// Tokens of one batch.
    pub open spec fn step(self) -> int {
        self.batch_size * self.time
    }

    /// Whole batches that are left.
    pub open spec fn remaining(self) -> int {
        (self.tokens.len() - self.offset) / self.step()
    }

    /// The walk with `n` batches behind it.
    pub open spec fn advanced(self, n: int) -> Walk {
        Walk { offset: self.offset + n * self.step(), ..self }
    }
}

impl<'a> Clone for CausalBatcher<'a> {
    fn clone(&self) -> (copy: Self)
        ensures
            copy@ == self@,
            self.wf() ==> copy.wf(),
    {
        CausalBatcher {
            tokens: self.tokens,
            labels: self.labels,
            batch_size: self.batch_size,
            time: self.time,
            batch_tokens: self.batch_tokens,
            offset: self.offset,
        }
    }
}

impl<'a> View for CausalBatcher<'a> {
    type V = Walk;

    closed spec fn view(&self) -> Walk {
        Walk {
            tokens: self.tokens@,
            labels: self.labels@,
            batch_size: self.batch_size as int,
            time: self.time as int,
            offset: self.offset as int,
        }
    }
}

/// What stops a batcher of this shape over these streams, if anything does.
pub open spec fn shape_error(
    tokens: Seq<u32>,
    labels: Seq<u32>,
    batch_size: usize,
    time: usize,
) -> Option<BatchError> {
    if batch_size == 0 || time < 2 {
        Some(BatchError::Shape)
    } else if tokens.len() != labels.len() {
        Some(BatchError::LabelLength)
    } else if batch_size * time > usize::MAX {
        Some(BatchError::ShapeOverflow)
    } else {
        None
    }
}

/// As [`shape_error`], for the shape that a configuration asks for.
pub open spec fn config_shape_error(
    tokens: Seq<u32>,
    labels: Seq<u32>,
    cfg: TrainConfig,
    time: usize,
) -> Option<BatchError> {
    match cfg.config_error() {
        Some(e) => Some(BatchError::Config(e)),
        None => if time > cfg.context_len {
            Some(BatchError::BeyondContext)
        } else {
            shape_error(tokens, labels, cfg.batch_size, time)
        },
    }
}

/// The walk that a new batcher starts with.
pub open spec fn fresh_walk(
    tokens: Seq<u32>,
    labels: Seq<u32>,
    batch_size: usize,
    time: usize,
) -> Walk {
    Walk { tokens, labels, batch_size: batch_size as int, time: time as int, offset: 0 }
}

impl<'a> CausalBatcher<'a> {
    /// A batch holds at least two tokens, the streams are aligned, and the
    /// walk never leaves them.
    pub closed spec fn wf(&self) -> bool {
        &&& self.batch_size > 0
        &&& self.time >= 2
        &&& self.batch_tokens == self.batch_size * self.time
        &&& self.batch_tokens > 0
        &&& self.tokens@.len() == self.labels@.len()
        &&& self.offset <= self.tokens@.len()
    }

    /// Where a batcher stands: within its streams, which are aligned, and with
    /// batches that hold something.
    pub proof fn lemma_walk(&self)
        requires
            self.wf(),
        ensures
            0 <= self@.offset <= self@.tokens.len(),
            self@.labels.len() == self@.tokens.len(),
            self@.batch_size > 0,
            self@.time >= 2,
            0 < self@.step() <= usize::MAX,
    {
    }

    pub fn new(tokens: &'a [u32], batch_size: usize, time: usize) -> (made: Result<
        Self,
        BatchError,
    >)
        ensures
            match made {
                Ok(b) => shape_error(tokens@, tokens@, batch_size, time) is None && b.wf() && b@
                    == fresh_walk(tokens@, tokens@, batch_size, time),
                Err(e) => shape_error(tokens@, tokens@, batch_size, time) == Some(e),
            },
    {
        Self::new_with_labels(tokens, tokens, batch_size, time)
    }

    pub fn new_with_labels(
        tokens: &'a [u32],
        labels: &'a [u32],
        batch_size: usize,
        time: usize,
    ) -> (made: Result<Self, BatchError>)
        ensures
            match made {
                Ok(b) => shape_error(tokens@, labels@, batch_size, time) is None && b.wf() && b@
                    == fresh_walk(tokens@, labels@, batch_size, time),
                Err(e) => shape_error(tokens@, labels@, batch_size, time) == Some(e),
            },
    {
        if batch_size == 0 || time < 2 {
            return Err(BatchError::Shape);
        }
        if tokens.len() != labels.len() {
            return Err(BatchError::LabelLength);
        }
        match batch_size.checked_mul(time) {
            Some(batch_tokens) => {
                assert(batch_tokens > 0) by (nonlinear_arith)
                    requires
                        batch_tokens == batch_size * time,
                        batch_size > 0,
                        time > 0,
                ;
                Ok(CausalBatcher { tokens, labels, batch_size, time, batch_tokens, offset: 0 })
            },
            None => Err(BatchError::ShapeOverflow),
        }
    }

    pub fn from_config(tokens: &'a [u32], cfg: &TrainConfig, time: usize) -> (made: Result<
        Self,
        BatchError,
    >)
        ensures
            match made {
                Ok(b) => config_shape_error(tokens@, tokens@, *cfg, time) is None && b.wf() && b@
                    == fresh_walk(tokens@, tokens@, cfg.batch_size, time),
                Err(e) => config_shape_error(tokens@, tokens@, *cfg, time) == Some(e),
            },
    {
        Self::from_config_with_labels(tokens, tokens, cfg, time)
    }

    pub fn from_config_with_labels(
        tokens: &'a [u32],
        labels: &'a [u32],
        cfg: &TrainConfig,
        time: usize,
    ) -> (made: Result<Self, BatchError>)
        ensures
            match made {
                Ok(b) => config_shape_error(tokens@, labels@, *cfg, time) is None && b.wf() && b@
                    == fresh_walk(tokens@, labels@, cfg.batch_size, time),
                Err(e) => config_shape_error(tokens@, labels@, *cfg, time) == Some(e),
            },
    {
        match cfg.validate() {
            Ok(_) => {},
            Err(e) => {
                return Err(BatchError::Config(e));
            },
        }
        if time > cfg.context_len {
            return Err(BatchError::BeyondContext);
        }
        Self::new_with_labels(tokens, labels, cfg.batch_size, time)
    }

    /// Whole batches that are left.
    pub fn remaining_batches(&self) -> (n: usize)
        requires
            self.wf(),
        ensures
            n == self@.remaining(),
    {
        (self.tokens.len() - self.offset) / self.batch_tokens
    }

    /// Advance past `n` already-completed train steps so that resuming does
    /// not replay the prefix of the packed stream.
    pub fn skip_batches(&mut self, n: usize) -> (done: Result<(), BatchError>)
        requires
            old(self).wf(),
        ensures
            final(self).wf(),
            match done {
                Ok(_) => old(self)@.advanced(n as int).offset <= old(self)@.tokens.len()
                    && final(self)@ == old(self)@.advanced(n as int),
                Err(e) => {
                    &&& final(self)@ == old(self)@
                    &&& old(self)@.advanced(n as int).offset > old(self)@.tokens.len()
                    &&& e == (if old(self)@.advanced(n as int).offset > usize::MAX {
                        BatchError::SkipOverflow
                    } else {
                        BatchError::SkipPastEnd
                    })
                },
            },
    {
        let total: usize = self.tokens.len();
        let skip: usize = match n.checked_mul(self.batch_tokens) {
            Some(skip) => skip,
            None => {
                return Err(BatchError::SkipOverflow);
            },
        };
        let end: usize = match self.offset.checked_add(skip) {
            Some(end) => end,
            None => {
                return Err(BatchError::SkipOverflow);
            },
        };
        if end > total {
            return Err(BatchError::SkipPastEnd);
        }
        self.offset = end;
        Ok(())
    }

    /// The next batch, or `None` once less than a whole batch is left.
    pub fn next(&mut self) -> (batch: Option<CausalBatch<'a>>)
        requires
            old(self).wf(),
        ensures
            final(self).wf(),
            batch is Some <==> old(self)@.remaining() > 0,
            match batch {
                Some(b) => {
                    let walk = old(self)@;
                    &&& final(self)@ == walk.advanced(1)
                    &&& b.token_view() == walk.tokens.subrange(
                        walk.offset,
                        walk.offset + walk.step(),
                    )
                    &&& b.label_view() == walk.labels.subrange(
                        walk.offset,
                        walk.offset + walk.step(),
                    )
                    &&& b.sequences() == walk.batch_size
                    &&& b.length() == walk.time
                },
                None => final(self)@ == old(self)@,
            },
    {
        let left: usize = self.tokens.len() - self.offset;
        proof {
            let l = left as int;
            let s = self.batch_tokens as int;
            assert(l / s > 0 <==> l >= s) by (nonlinear_arith)
                requires
                    l >= 0,
                    s > 0,
            ;
        }
        if left < self.batch_tokens {
            return None;
        }
        let end: usize = self.offset + self.batch_tokens;
        let batch = CausalBatch {
            tokens: slice_subrange(self.tokens, self.offset, end),
            labels: slice_subrange(self.labels, self.offset, end),
            batch_size: self.batch_size,
            time: self.time,
        };
        self.offset = end;
        Some(batch)
    }
}

/// Skipping `a` batches and then `b` is skipping `a + b` at once.
pub proof fn law_skips_add_up(walk: Walk, a: int, b: int)
    ensures
        walk.advanced(a).advanced(b) == walk.advanced(a + b),
{
    let s = walk.step();
    assert(walk.advanced(a).step() == s);
    assert(a * s + b * s == (a + b) * s) by (nonlinear_arith);
}

/// Batches `i < j` of one walk do not overlap, and neighbours touch: batch
/// `i` ends where batch `i + 1` starts.
pub proof fn law_batches_tile(walk: Walk, i: int, j: int)
    requires
        0 <= i < j,
        walk.step() > 0,
    ensures
        walk.advanced(i).offset + walk.step() <= walk.advanced(j).offset,
        walk.advanced(i).offset + walk.step() == walk.advanced(i + 1).offset,
{
    let s = walk.step();
    assert(i * s + s <= j * s && i * s + s == (i + 1) * s) by (nonlinear_arith)
        requires
            i < j,
            s > 0,
    ;
}

/// Taking one batch leaves one batch less, and exactly the whole batches can
/// be skipped: what is left out is a tail shorter than a batch.
pub proof fn law_only_a_short_tail_is_left(walk: Walk, n: int)
    requires
        0 <= n,
        0 <= walk.offset <= walk.tokens.len(),
        walk.step() > 0,
    ensures
        n <= walk.remaining() <==> walk.advanced(n).offset <= walk.tokens.len(),
        n <= walk.remaining() ==> walk.advanced(n).remaining() == walk.remaining() - n,
        0 <= walk.tokens.len() - walk.advanced(walk.remaining()).offset < walk.step(),
{
    let s = walk.step();
    let l = walk.tokens.len() - walk.offset;
    let r = l / s;
    assert(n <= r <==> n * s <= l) by (nonlinear_arith)
        requires
            l >= 0,
            s > 0,
            r == l / s,
    ;
    assert(0 <= l - r * s < s) by (nonlinear_arith)
        requires
            l >= 0,
            s > 0,
            r == l / s,
    ;
    assert((l - n * s) / s == r - n) by (nonlinear_arith)
        requires
            l >= 0,
            s > 0,
            r == l / s,
    ;
    assert(walk.advanced(n).step() == s);
}

/// A batcher is made for every shape whose batches hold a token and the one that
/// follows it, over streams of one length, and, under a configuration, for those
/// that keep to its context.
pub proof fn law_admitted_shapes(
    tokens: Seq<u32>,
    labels: Seq<u32>,
    batch_size: usize,
    time: usize,
    cfg: TrainConfig,
)
    ensures
        shape_error(tokens, labels, batch_size, time) is None <==> batch_size >= 1 && time >= 2
            && tokens.len() == labels.len() && batch_size * time <= usize::MAX,
        config_shape_error(tokens, labels, cfg, time) is None <==> cfg.config_error() is None
            && 2 <= time <= cfg.context_len && tokens.len() == labels.len() && cfg.batch_size
            * time <= usize::MAX,
{
}

/// A batch is as long as its sequences together, and a fresh walk starts at the
/// first token.
pub proof fn law_a_walk_starts_at_the_first_token(
    tokens: Seq<u32>,
    labels: Seq<u32>,
    batch_size: usize,
    time: usize,
    n: int,
)
    ensures
        fresh_walk(tokens, labels, batch_size, time).advanced(n).offset == n * (batch_size * time),
        fresh_walk(tokens, labels, batch_size, time).advanced(n).tokens == tokens,
        fresh_walk(tokens, labels, batch_size, time).advanced(n).labels == labels,
        batch_size > 0 && time > 0 ==> fresh_walk(
            tokens,
            labels,
            batch_size,
            time,
        ).remaining() == tokens.len() as int / (batch_size * time),
{
}

} // verus!
