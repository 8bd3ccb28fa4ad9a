//! Feeding training from a stream of records: what goes into the token ring,
//! when more lines are read, and which sequence comes next.
//!
//! Reading lines is the caller's work. The feed says when to read on
//! ([`TokenFeed::wants_more`]), takes each record ([`TokenFeed::add_record`]),
//! decides what the end of the file means ([`TokenFeed::at_end_of_file`]), and
//! hands out the next sequence ([`TokenFeed::take_seq`]).
use rand::rngs::StdRng;
use vstd::prelude::*;
use crate::data::{encode_supervised_windows_ex, EncodedParts, SovereignFlashBuffer};
use crate::random::shuffled;

verus! {

/// A window filled up to `size` entries with unsupervised end-of-sequence ids.
pub open spec fn filled(window: (Seq<u32>, Seq<u8>), size: int, eos: u32) -> Seq<(u32, u8)> {
    let entries = crate::data::paired(window.0, window.1);
    if entries.len() >= size {
        entries
    } else {
        entries + eos_run(size - entries.len(), eos)
    }
}

/// `n` unsupervised end-of-sequence ids.
pub open spec fn eos_run(n: int, eos: u32) -> Seq<(u32, u8)> {
    Seq::new(n as nat, |i: int| (eos, 0u8))
}

/// Windows filled up and put end to end.
pub open spec fn filled_all(
    windows: Seq<(Seq<u32>, Seq<u8>)>,
    size: int,
    eos: u32,
) -> Seq<(u32, u8)>
    decreases windows.len(),
{
    if windows.len() == 0 {
        Seq::empty()
    } else {
        filled_all(windows.drop_last(), size, eos) + filled(windows.last(), size, eos)
    }
}

/// What the end of the file means.
#[derive(Clone, Copy, Debug, PartialEq, Eq, Structural)]
pub enum EndOfFile {
    /// Start over at the first line.
    Rewind,
    /// Go on with the tokens that are there.
    Stop,
    /// The corpus holds no tokens.
    NoTokens,
}

/// One training sequence: inputs, targets one place further on, and the loss
/// mask of the targets.
#[derive(Debug)]
pub struct TrainSeq {
    pub x: Vec<u32>,
    pub y: Vec<u32>,
    pub loss_mask: Vec<u8>,
}

/// The state between two sequences.
#[derive(Debug)]
pub struct TokenFeed {
    flash: SovereignFlashBuffer,
    seq_len: usize,
    eos: u32,
    lines_seen: u64,
    skipped: usize,
    rewinds: u32,
    /// Loss only on the output; the thinking is conditioned on.
    mask_output: bool,
}

/// The ring is padded to a whole window.
pub open spec fn padded(held: Seq<(u32, u8)>, need: int, eos: u32) -> Seq<(u32, u8)> {
    if held.len() >= need {
        held
    } else {
        held + eos_run(need - held.len(), eos)
    }
}

/// Some entry after the first is supervised.
pub open spec fn has_target(window: Seq<(u32, u8)>) -> bool {
    exists|i: int| 1 <= i < window.len() && (#[trigger] window[i]).1 != 0
}

impl TokenFeed {
    /// The held entries.
    pub closed spec fn held(&self) -> Seq<(u32, u8)> {
        self.flash@
    }

    /// How many entries can be held.
    pub closed spec fn room(&self) -> nat {
        self.flash.room()
    }

    pub closed spec fn seq_len(&self) -> int {
        self.seq_len as int
    }

    pub closed spec fn eos(&self) -> u32 {
        self.eos
    }

    /// Only the output is learned.
    pub closed spec fn output_only(&self) -> bool {
        self.mask_output
    }

    /// Records taken so far.
    pub closed spec fn lines(&self) -> nat {
        self.lines_seen as nat
    }

    /// Entries passed over since the last sequence.
    pub closed spec fn passed(&self) -> nat {
        self.skipped as nat
    }

    /// Ends of file met since the last refill began.
    pub closed spec fn ends(&self) -> nat {
        self.rewinds as nat
    }

    /// A whole window fits into the ring.
    pub closed spec fn wf(&self) -> bool {
        &&& self.flash.wf()
        &&& self.seq_len < usize::MAX - 1
        &&& self.flash.room() >= self.seq_len + 1
        &&& self.rewinds <= 3
        &&& self.lines_seen < u64::MAX
    }

    /// What a feed keeps to: the ring has room for a whole window, and no more
    /// is held than it has room for.
    pub proof fn lemma_bounds(&self)
        requires
            self.wf(),
        ensures
            0 <= self.seq_len() < usize::MAX - 1,
            self.seq_len() + 1 <= self.room(),
            self.held().len() <= self.room(),
            self.ends() <= 3,
            self.lines() < u64::MAX,
    {
        self.flash.lemma_within_room();
    }

    /// What stays the same while entries come and go.
    pub open spec fn same_setup(&self, other: &TokenFeed) -> bool {
        &&& self.room() == other.room()
        &&& self.seq_len() == other.seq_len()
        &&& self.eos() == other.eos()
        &&& self.output_only() == other.output_only()
    }

    /// A feed for sequences of `seq_len`: the ring has room for `context_len`
    /// tokens and for four sequences.
    pub fn new(seq_len: usize, context_len: usize, eos: u32) -> (feed: Self)
        requires
            seq_len < usize::MAX - 1,
        ensures
            feed.wf(),
            feed.held() == Seq::<(u32, u8)>::empty(),
            feed.seq_len() == seq_len,
            feed.eos() == eos,
            feed.lines() == 0,
            feed.passed() == 0,
            feed.ends() == 0,
            !feed.output_only(),
            feed.room() == ({
                let four = if 4 * seq_len > usize::MAX {
                    usize::MAX as int
                } else {
                    4 * seq_len
                };
                let least = if four < 1 {
                    1
                } else {
                    four
                };
                if context_len >= least {
                    context_len as int
                } else {
                    least
                }
            }),
    {
        let four: usize = match seq_len.checked_mul(4) {
            Some(n) => n,
            None => usize::MAX,
        };
        let least: usize = if four < 1 {
            1
        } else {
            four
        };
        let cap: usize = if context_len >= least {
            context_len
        } else {
            least
        };
        TokenFeed {
            flash: SovereignFlashBuffer::new(cap),
            seq_len,
            eos,
            lines_seen: 0,
            skipped: 0,
            rewinds: 0,
            mask_output: false,
        }
    }

    pub fn lines_seen(&self) -> (n: u64)
        ensures
            n == self.lines(),
    {
        self.lines_seen
    }

    /// Puts the windows of one record into the ring, each filled up to a whole
    /// window.
    pub fn push_windows(&mut self, windows: &Vec<(Vec<u32>, Vec<u8>)>)
        requires
            old(self).wf(),
            old(self).lines() < u64::MAX - 1,
        ensures
            final(self).wf(),
            final(self).same_setup(old(self)),
            final(self).passed() == old(self).passed(),
            final(self).ends() == old(self).ends(),
            final(self).lines() == old(self).lines() + 1,
            final(self).held() == crate::data::latest(
                old(self).held() + filled_all(
                    crate::data::windows_view(windows@),
                    old(self).seq_len() + 1,
                    old(self).eos(),
                ),
                old(self).room() as int,
            ),
    {
        let keep: usize = self.seq_len + 1;
        let eos: u32 = self.eos;
        let ghost all = crate::data::windows_view(windows@);
        let ghost room = self.room() as int;
        let ghost start = self.held();
        proof {
            assert(all.take(0) =~= Seq::empty());
            assert(start + filled_all(all.take(0), keep as int, eos) =~= start);
            self.flash.lemma_within_room();
        }
        let mut i: usize = 0;
        while i < windows.len()
            invariant
                i <= windows@.len(),
                self.wf(),
                self.same_setup(old(self)),
                self.passed() == old(self).passed(),
                self.ends() == old(self).ends(),
                self.lines() == old(self).lines(),
                old(self).lines() < u64::MAX - 1,
                keep == self.seq_len() + 1,
                eos == self.eos(),
                room == self.room(),
                room > 0,
                all == crate::data::windows_view(windows@),
                self.held() == crate::data::latest(
                    start + filled_all(all.take(i as int), keep as int, eos),
                    room,
                ),
            decreases windows@.len() - i,
        {
            let ghost before = start + filled_all(all.take(i as int), keep as int, eos);
            let ids = &windows[i].0;
            let mask = &windows[i].1;
            let ghost entries = crate::data::paired(ids@, mask@);
            self.flash.extend(ids.as_slice(), mask.as_slice());
            let n: usize = if ids.len() <= mask.len() {
                ids.len()
            } else {
                mask.len()
            };
            if n < keep {
                self.push_eos(keep - n);
                proof {
                    crate::data::law_ring_keeps_the_latest(
                        before,
                        entries,
                        eos_run(keep - n, eos),
                        room,
                    );
                }
            }
            proof {
                lemma_latest_then(
                    start,
                    filled_all(all.take(i as int), keep as int, eos),
                    entries,
                    room,
                );
                lemma_latest_then(
                    start,
                    filled_all(all.take(i as int), keep as int, eos),
                    filled(all[i as int], keep as int, eos),
                    room,
                );
                assert(all.take(i + 1).drop_last() =~= all.take(i as int));
                assert(all.take(i + 1).last() == all[i as int]);
                crate::data::law_ring_keeps_the_latest(
                    before,
                    entries,
                    eos_run(keep - n, eos),
                    room,
                );
                assert(self.held() == crate::data::latest(
                    before + filled(all[i as int], keep as int, eos),
                    room,
                ));
                assert(before + filled(all[i as int], keep as int, eos) =~= start + filled_all(
                    all.take(i + 1),
                    keep as int,
                    eos,
                ));
            }
            i += 1;
        }
        assert(all.take(windows@.len() as int) =~= all);
        self.lines_seen = self.lines_seen + 1;
    }

    /// Pushes `n` unsupervised end-of-sequence ids.
    fn push_eos(&mut self, n: usize)
        requires
            old(self).wf(),
        ensures
            final(self).wf(),
            final(self).same_setup(old(self)),
            final(self).passed() == old(self).passed(),
            final(self).ends() == old(self).ends(),
            final(self).lines() == old(self).lines(),
            final(self).held() == crate::data::latest(
                old(self).held() + eos_run(n as int, old(self).eos()),
                old(self).room() as int,
            ),
    {
        let ghost room = self.room() as int;
        let ghost start = self.held();
        let eos: u32 = self.eos;
        proof {
            self.flash.lemma_within_room();
            assert(start + eos_run(0, eos) =~= start);
        }
        let mut i: usize = 0;
        while i < n
            invariant
                i <= n,
                self.wf(),
                self.same_setup(old(self)),
                self.passed() == old(self).passed(),
                self.ends() == old(self).ends(),
                self.lines() == old(self).lines(),
                room == self.room(),
                room > 0,
                eos == self.eos(),
                self.held() == crate::data::latest(start + eos_run(i as int, eos), room),
            decreases n - i,
        {
            self.flash.push(eos, 0);
            proof {
                let before = start + eos_run(i as int, eos);
                crate::data::lemma_latest_push(before, (eos, 0u8), room);
                assert(before.push((eos, 0u8)) =~= start + eos_run(i + 1, eos));
            }
            i += 1;
        }
    }

    /// Takes one record: cuts its windows, puts them into a random order, and
    /// adds them. Whatever the order, the ring takes up exactly the windows of
    /// the record.
    pub fn add_record(&mut self, parts: &EncodedParts, rng: &mut StdRng) -> (windows: Vec<
        (Vec<u32>, Vec<u8>),
    >)
        requires
            old(self).wf(),
            old(self).lines() < u64::MAX - 1,
        ensures
            final(self).wf(),
            final(self).same_setup(old(self)),
            final(self).passed() == old(self).passed(),
            final(self).ends() == old(self).ends(),
            final(self).lines() == old(self).lines() + 1,
            final(self).held() == crate::data::latest(
                old(self).held() + filled_all(
                    crate::data::windows_view(windows@),
                    old(self).seq_len() + 1,
                    old(self).eos(),
                ),
                old(self).room() as int,
            ),
            exists|cut: Seq<(Vec<u32>, Vec<u8>)>|
                #![trigger cut.to_multiset()]
                cut.to_multiset() == windows@.to_multiset() && crate::data::windows_view(cut)
                    == crate::data::supervised_windows(
                    parts.prefix@,
                    parts.thinking@,
                    parts.output@,
                    old(self).seq_len() + 1,
                    old(self).output_only(),
                ),
    {
        let mut windows = encode_supervised_windows_ex(parts, self.seq_len, self.mask_output);
        let ghost cut = windows@;
        shuffled(&mut windows, rng);
        assert(cut.to_multiset() == windows@.to_multiset());
        self.push_windows(&windows);
        windows
    }

    /// Chooses whether the loss is taken on the output alone.
    pub fn set_mask_output(&mut self, mask: bool)
        requires
            old(self).wf(),
        ensures
            final(self).wf(),
            final(self).output_only() == mask,
            final(self).held() == old(self).held(),
            final(self).room() == old(self).room(),
            final(self).seq_len() == old(self).seq_len(),
            final(self).eos() == old(self).eos(),
            final(self).lines() == old(self).lines(),
            final(self).passed() == old(self).passed(),
            final(self).ends() == old(self).ends(),
    {
        self.mask_output = mask;
    }

    /// Begins to refill the ring.
    pub fn begin_refill(&mut self)
        requires
            old(self).wf(),
        ensures
            final(self).wf(),
            final(self).same_setup(old(self)),
            final(self).held() == old(self).held(),
            final(self).passed() == old(self).passed(),
            final(self).lines() == old(self).lines(),
            final(self).ends() == 0,
    {
        self.rewinds = 0;
    }

    /// Whether another line is wanted: less than a window and a token is held.
    pub fn wants_more(&self) -> (more: bool)
        requires
            self.wf(),
        ensures
            more == (self.held().len() < self.seq_len() + 2),
    {
        self.flash.len() < self.seq_len + 2
    }

    /// What the end of the file means: the file is read at most three times,
    /// and a corpus without tokens is an error.
    pub fn at_end_of_file(&mut self) -> (end: EndOfFile)
        requires
            old(self).wf(),
            old(self).ends() < 3,
        ensures
            final(self).wf(),
            final(self).same_setup(old(self)),
            final(self).held() == old(self).held(),
            final(self).passed() == old(self).passed(),
            final(self).lines() == old(self).lines(),
            final(self).ends() == old(self).ends() + 1,
            end == if old(self).ends() < 2 {
                EndOfFile::Rewind
            } else if old(self).held().len() == 0 {
                EndOfFile::NoTokens
            } else {
                EndOfFile::Stop
            },
    {
        self.rewinds = self.rewinds + 1;
        if self.rewinds <= 2 {
            EndOfFile::Rewind
        } else if self.flash.is_empty() {
            EndOfFile::NoTokens
        } else {
            EndOfFile::Stop
        }
    }

    /// How many entries may be passed over before a sequence is handed out
    /// without a target.
    pub open spec fn patience(&self) -> int {
        if 8 * self.seq_len() > usize::MAX {
            usize::MAX as int
        } else {
            8 * self.seq_len()
        }
    }

    /// The next sequence. A window whose targets are all unsupervised is not
    /// handed out: its first entry is passed over and nothing is returned, so
    /// that no step is spent on a prompt alone.
    pub fn take_seq(&mut self) -> (seq: Option<TrainSeq>)
        requires
            old(self).wf(),
        ensures
            final(self).wf(),
            final(self).same_setup(old(self)),
            final(self).lines() == old(self).lines(),
            final(self).ends() == old(self).ends(),
            ({
                let need = old(self).seq_len() + 1;
                let held = padded(old(self).held(), need, old(self).eos());
                let window = held.take(need);
                match seq {
                    Some(s) => {
                        &&& has_target(window) || old(self).passed() > old(self).patience()
                        &&& s.x@ == Seq::new((need - 1) as nat, |i: int| window[i].0)
                        &&& s.y@ == Seq::new((need - 1) as nat, |i: int| window[i + 1].0)
                        &&& s.loss_mask@ == Seq::new((need - 1) as nat, |i: int| window[i + 1].1)
                        &&& final(self).held() == held.skip(need)
                        &&& final(self).passed() == 0
                    },
                    None => {
                        &&& !has_target(window)
                        &&& old(self).passed() <= old(self).patience()
                        &&& final(self).held() == held.skip(1)
                        &&& final(self).passed() == if old(self).passed() < usize::MAX {
                            old(self).passed() + 1
                        } else {
                            old(self).passed()
                        }
                    },
                }
            }),
    {
        let need: usize = self.seq_len + 1;
        let ghost held = padded(self.held(), need as int, self.eos());
        proof {
            self.flash.lemma_within_room();
        }
        if self.flash.len() < need {
            let missing: usize = need - self.flash.len();
            self.push_eos(missing);
            assert(self.held() =~= held);
        }
        let ghost window = held.take(need as int);
        let (ids, mask) = self.flash.window(0, need);
        assert(crate::data::paired(ids@, mask@) =~= window);
        assert(ids@.len() == need);
        assert(forall|i: int|
            0 <= i < need ==> crate::data::paired(ids@, mask@)[i] == (ids@[i], mask@[i]));
        let patience: usize = match self.seq_len.checked_mul(8) {
            Some(n) => n,
            None => usize::MAX,
        };
        let mut found: bool = false;
        let mut i: usize = 1;
        while i < need
            invariant
                1 <= i <= need,
                need == mask@.len() == window.len(),
                forall|j: int| 0 <= j < need ==> (#[trigger] window[j]).1 == mask@[j],
                found == exists|j: int| 1 <= j < i && (#[trigger] window[j]).1 != 0,
            decreases need - i,
        {
            if mask[i] != 0 {
                assert(window[i as int].1 != 0);
                found = true;
            }
            i += 1;
        }
        if found || self.skipped > patience {
            let mut x: Vec<u32> = Vec::new();
            let mut y: Vec<u32> = Vec::new();
            let mut loss_mask: Vec<u8> = Vec::new();
            let mut k: usize = 0;
            while k < need - 1
                invariant
                    k <= need - 1,
                    need >= 1,
                    need == ids@.len() == mask@.len() == window.len(),
                    forall|j: int|
                        0 <= j < need ==> (#[trigger] window[j]).0 == ids@[j] && window[j].1
                            == mask@[j],
                    x@.len() == k,
                    y@.len() == k,
                    loss_mask@.len() == k,
                    forall|j: int| 0 <= j < k ==> #[trigger] x@[j] == window[j].0,
                    forall|j: int| 0 <= j < k ==> #[trigger] y@[j] == window[j + 1].0,
                    forall|j: int| 0 <= j < k ==> #[trigger] loss_mask@[j] == window[j + 1].1,
                decreases need - k,
            {
                x.push(ids[k]);
                y.push(ids[k + 1]);
                loss_mask.push(mask[k + 1]);
                k += 1;
            }
            self.flash.drain_front(need);
            self.skipped = 0;
            let seq = TrainSeq { x, y, loss_mask };
            assert(seq.x@ =~= Seq::new((need - 1) as nat, |i: int| window[i].0));
            assert(seq.y@ =~= Seq::new((need - 1) as nat, |i: int| window[i + 1].0));
            assert(seq.loss_mask@ =~= Seq::new((need - 1) as nat, |i: int| window[i + 1].1));
            Some(seq)
        } else {
            self.flash.drain_front(1);
            self.skipped = self.skipped.saturating_add(1);
            None
        }
    }
}

/// Adding entries to the latest is taking the latest of all.
proof fn lemma_latest_then(
    start: Seq<(u32, u8)>,
    a: Seq<(u32, u8)>,
    b: Seq<(u32, u8)>,
    room: int,
)
    requires
        room > 0,
    ensures
        crate::data::latest(crate::data::latest(start + a, room) + b, room)
            == crate::data::latest(start + a + b, room),
{
    crate::data::law_ring_keeps_the_latest(start, a, b, room);
    assert(start + (a + b) =~= start + a + b);
}

/// Filling a window up keeps its entries in their places, each with its own mask,
/// and puts unsupervised ends of sequence behind them, as many as are missing
/// and no more. The same holds of the ring before a sequence is taken.
pub proof fn law_filling_up_adds_unsupervised_ends(
    window: (Seq<u32>, Seq<u8>),
    held: Seq<(u32, u8)>,
    size: int,
    eos: u32,
    i: int,
)
    requires
        window.0.len() == window.1.len(),
        0 <= i < size,
    ensures
        filled(window, size, eos).len() == if window.0.len() < size {
            size
        } else {
            window.0.len() as int
        },
        filled(window, size, eos)[i] == if i < window.0.len() {
            (window.0[i], window.1[i])
        } else {
            (eos, 0u8)
        },
        padded(held, size, eos).len() == if held.len() < size {
            size
        } else {
            held.len() as int
        },
        padded(held, size, eos)[i] == if i < held.len() {
            held[i]
        } else {
            (eos, 0u8)
        },
{
}

/// The windows of a record stand in line: each is filled up to a whole window,
/// so the `k`-th starts at the `k`-th multiple of the window size.
pub proof fn law_windows_stand_in_line(
    windows: Seq<(Seq<u32>, Seq<u8>)>,
    size: int,
    eos: u32,
    k: int,
)
    requires
        crate::data::well_cut(windows, size),
        0 <= k < windows.len(),
    ensures
        filled_all(windows, size, eos).len() == windows.len() * size,
        0 <= k * size <= (k + 1) * size <= windows.len() * size,
        filled_all(windows, size, eos).subrange(k * size, (k + 1) * size) == filled(
            windows[k],
            size,
            eos,
        ),
    decreases windows.len(),
{
    let init = windows.drop_last();
    let n = init.len() as int;
    let front = filled_all(init, size, eos);
    let last = filled(windows.last(), size, eos);
    assert(windows.last() == windows[n]);
    assert(last.len() == size);
    assert(crate::data::well_cut(init, size)) by {
        assert forall|i: int| 0 <= i < init.len() implies init[i] == windows[i] by {}
    }
    if n > 0 {
        law_windows_stand_in_line(
            init,
            size,
            eos,
            if k < n {
                k
            } else {
                0
            },
        );
    } else {
        assert(0 * size == 0);
    }
    assert((n + 1) * size == n * size + size) by (nonlinear_arith);
    assert((k + 1) * size == k * size + size) by (nonlinear_arith);
    assert(0 <= k * size <= n * size) by (nonlinear_arith)
        requires
            0 <= k <= n,
            size > 0,
    ;
    let all = filled_all(windows, size, eos);
    assert(all =~= front + last);
    if k < n {
        assert(k * size + size <= n * size) by (nonlinear_arith)
            requires
                k + 1 <= n,
                size > 0,
        ;
        assert(all.subrange(k * size, (k + 1) * size) =~= front.subrange(
            k * size,
            (k + 1) * size,
        ));
        assert(init[k] == windows[k]);
    } else {
        assert(all.subrange(k * size, (k + 1) * size) =~= last);
    }
}

/// No step is spent on a prompt alone: a window of a record with more than one
/// id has a target, so it is handed out as a sequence when its turn comes.
pub proof fn law_a_window_of_a_record_has_a_target(
    windows: Seq<(Seq<u32>, Seq<u8>)>,
    size: int,
    eos: u32,
    k: int,
)
    requires
        crate::data::well_cut(windows, size),
        0 <= k < windows.len(),
        windows[k].0.len() >= 2,
    ensures
        has_target(filled_all(windows, size, eos).subrange(k * size, (k + 1) * size)),
{
    law_windows_stand_in_line(windows, size, eos, k);
    let window = filled(windows[k], size, eos);
    let last = windows[k].0.len() - 1;
    assert(window[last].1 == windows[k].1.last());
    assert(has_target(window));
}

/// A feed passes over eight sequences' worth of entries before it hands out one
/// without a target.
pub proof fn law_a_feed_waits_for_eight_sequences(feed: TokenFeed)
    requires
        feed.wf(),
    ensures
        8 * feed.seq_len() <= usize::MAX ==> feed.patience() == 8 * feed.seq_len(),
        feed.patience() <= usize::MAX,
{
}

/// A window has a target when one of its entries behind the first is supervised:
/// the first is never predicted.
pub proof fn law_the_first_entry_is_no_target(window: Seq<(u32, u8)>, i: int)
    ensures
        1 <= i < window.len() && window[i].1 != 0 ==> has_target(window),
        (forall|j: int| 1 <= j < window.len() ==> (#[trigger] window[j]).1 == 0) ==> !has_target(
            window,
        ),
{
}

} // verus!
