//! Choosing the next token.
//!
//! Scores and knobs are IEEE-754 single-precision numbers given by their bit
//! patterns: the rules here compare and classify them, and never compute with
//! them.
use vstd::prelude::*;

verus! {

/// Bit pattern of `1.0`.
pub const ONE_BITS: u32 = 0x3f80_0000;

/// Bit pattern of `2.0`, the largest penalty in either direction.
pub const PENALTY_MAX_BITS: u32 = 0x4000_0000;

/// Bit pattern of positive infinity: every finite magnitude is below it.
pub const INFINITY_BITS: u32 = 0x7f80_0000;

/// The sign bit.
pub const SIGN_BIT: u32 = 0x8000_0000;

/// The bit pattern without its sign.
pub open spec fn magnitude(bits: u32) -> int {
    if bits >= SIGN_BIT {
        bits - SIGN_BIT
    } else {
        bits as int
    }
}

/// The number is neither infinite nor a NaN.
pub open spec fn is_finite(bits: u32) -> bool {
    magnitude(bits) < INFINITY_BITS
}

/// Where the number stands in the total order of bit patterns: negative
/// numbers before positive ones, a negative zero before the positive one.
pub open spec fn order_key(bits: u32) -> int {
    if bits >= SIGN_BIT {
        -magnitude(bits) - 1
    } else {
        bits as int
    }
}

/// The number is below zero. A negative zero is not.
pub open spec fn is_negative(bits: u32) -> bool {
    bits > SIGN_BIT
}

/// Where a number stands among the numbers: the two zeroes stand together.
pub open spec fn value_key(bits: u32) -> int {
    if bits >= SIGN_BIT {
        -magnitude(bits)
    } else {
        bits as int
    }
}

pub(crate) fn value_of(bits: u32) -> (key: i64)
    ensures
        key == value_key(bits),
{
    if bits >= SIGN_BIT {
        -((bits - SIGN_BIT) as i64)
    } else {
        bits as i64
    }
}

fn magnitude_of(bits: u32) -> (m: u32)
    ensures
        m == magnitude(bits),
{
    if bits >= SIGN_BIT {
        bits - SIGN_BIT
    } else {
        bits
    }
}

/// Whether the number is finite.
pub fn finite(bits: u32) -> (yes: bool)
    ensures
        yes == is_finite(bits),
{
    magnitude_of(bits) < INFINITY_BITS
}

/// Place of the number in the total order.
pub fn total_key(bits: u32) -> (key: i64)
    ensures
        key == order_key(bits),
{
    if bits >= SIGN_BIT {
        -(magnitude_of(bits) as i64) - 1
    } else {
        bits as i64
    }
}

/// What is wrong with a decode configuration.
#[derive(Clone, Copy, Debug, PartialEq, Eq, Structural)]
pub enum DecodeError {
    Temperature,
    TopP,
    PresencePenalty,
    FrequencyPenalty,
}

/// How the next token is chosen. The four real numbers are bit patterns.
#[derive(Clone, Copy, Debug, PartialEq, Eq, Structural)]
pub struct DecodeConfig {
    pub temperature: u32,
    pub top_p: u32,
    pub presence_penalty: u32,
    pub frequency_penalty: u32,
    pub min_new_tokens: usize,
    pub seed: u64,
}

impl Default for DecodeConfig {
    /// Temperature 0.8, top-p 0.9, no presence penalty, frequency penalty 0.5.
    fn default() -> (cfg: Self)
        ensures
            cfg == (DecodeConfig {
                temperature: 0x3f4c_cccd,
                top_p: 0x3f66_6666,
                presence_penalty: 0,
                frequency_penalty: 0x3f00_0000,
                min_new_tokens: 1,
                seed: 7,
            }),
    {
        DecodeConfig {
            temperature: 0x3f4c_cccd,
            top_p: 0x3f66_6666,
            presence_penalty: 0,
            frequency_penalty: 0x3f00_0000,
            min_new_tokens: 1,
            seed: 7,
        }
    }
}

/// A penalty lies between minus two and two.
pub open spec fn is_penalty(bits: u32) -> bool {
    magnitude(bits) <= PENALTY_MAX_BITS
}

impl DecodeConfig {
    /// The first knob that is out of range.
    pub open spec fn error(self) -> Option<DecodeError> {
        if !is_finite(self.temperature) || is_negative(self.temperature) {
            Some(DecodeError::Temperature)
        } else if !(0 < self.top_p <= ONE_BITS) {
            Some(DecodeError::TopP)
        } else if !is_penalty(self.presence_penalty) {
            Some(DecodeError::PresencePenalty)
        } else if !is_penalty(self.frequency_penalty) {
            Some(DecodeError::FrequencyPenalty)
        } else {
            None
        }
    }

    /// Checks the knobs: a temperature that is finite and not negative, a
    /// top-p above zero and at most one, penalties between minus two and two.
    pub fn validate(self) -> (verdict: Result<(), DecodeError>)
        ensures
            match verdict {
                Ok(_) => self.error() is None,
                Err(e) => self.error() == Some(e),
            },
    {
        if !finite(self.temperature) || self.temperature > SIGN_BIT {
            return Err(DecodeError::Temperature);
        }
        if self.top_p == 0 || self.top_p > ONE_BITS {
            return Err(DecodeError::TopP);
        }
        if magnitude_of(self.presence_penalty) > PENALTY_MAX_BITS {
            return Err(DecodeError::PresencePenalty);
        }
        if magnitude_of(self.frequency_penalty) > PENALTY_MAX_BITS {
            return Err(DecodeError::FrequencyPenalty);
        }
        Ok(())
    }

    /// Whether the best score always wins: a temperature of zero.
    pub fn is_greedy(self) -> (greedy: bool)
        ensures
            greedy == (magnitude(self.temperature) == 0),
    {
        magnitude_of(self.temperature) == 0
    }
}

/// Counts one more use of `token`; an id outside the vocabulary is ignored.
pub fn bump_count(counts: &mut [u32], token: u32)
    ensures
        final(counts)@ == if token < old(counts)@.len() && old(counts)@[token as int] < u32::MAX {
            old(counts)@.update(token as int, (old(counts)@[token as int] + 1) as u32)
        } else {
            old(counts)@
        },
{
    let index: usize = token as usize;
    if index < counts.len() {
        let n: u32 = counts[index];
        counts[index] = n.saturating_add(1);
    }
    assert(counts@ =~= if token < old(counts)@.len() && old(counts)@[token as int] < u32::MAX {
        old(counts)@.update(token as int, (old(counts)@[token as int] + 1) as u32)
    } else {
        old(counts)@
    });
}

/// The state after one step of the generator.
pub open spec fn mixer_step(state: u64) -> u64 {
    state.wrapping_add(0x9E37_79B9_7F4A_7C15)
}

/// The number that the generator gives out in a state.
pub open spec fn mixed(state: u64) -> u64 {
    let a = (state ^ (state >> 30)).wrapping_mul(0xBF58_476D_1CE4_E5B9);
    let b = (a ^ (a >> 27)).wrapping_mul(0x94D0_49BB_1331_11EB);
    b ^ (b >> 31)
}

/// SplitMix64: the same mixer seeds models, so a decode seed is reproducible.
pub fn splitmix64(state: &mut u64) -> (word: u64)
    ensures
        *final(state) == mixer_step(*old(state)),
        word == mixed(mixer_step(*old(state))),
{
    *state = state.wrapping_add(0x9E37_79B9_7F4A_7C15);
    let mut z: u64 = *state;
    z = (z ^ (z >> 30)).wrapping_mul(0xBF58_476D_1CE4_E5B9);
    z = (z ^ (z >> 27)).wrapping_mul(0x94D0_49BB_1331_11EB);
    z ^ (z >> 31)
}

/// The id may not be generated.
pub open spec fn is_masked(id: int, pad: u32, bos: u32, eos: u32, suppress_eos: bool) -> bool {
    id == pad || id == bos || (suppress_eos && id == eos)
}

/// Whether the id may not be generated: padding, begin of sequence, and the
/// end of sequence while it is suppressed.
pub fn masked(id: u32, pad_id: u32, bos_id: u32, eos_id: u32, suppress_eos: bool) -> (yes: bool)
    ensures
        yes == is_masked(id as int, pad_id, bos_id, eos_id, suppress_eos),
{
    id == pad_id || id == bos_id || (suppress_eos && id == eos_id)
}

/// The id may be generated and its score is finite.
pub open spec fn is_candidate(
    logits: Seq<u32>,
    id: int,
    pad: u32,
    bos: u32,
    eos: u32,
    suppress_eos: bool,
) -> bool {
    0 <= id < logits.len() && is_finite(logits[id]) && !is_masked(id, pad, bos, eos, suppress_eos)
}

/// The candidate with the best score; of equal scores the last. `None` when
/// there is no candidate.
pub fn greedy_token(
    logits: &[u32],
    pad_id: u32,
    bos_id: u32,
    eos_id: u32,
    suppress_eos: bool,
) -> (best: Option<u32>)
    requires
        logits@.len() <= u32::MAX,
    ensures
        best is Some <==> exists|id: int|
            is_candidate(logits@, id, pad_id, bos_id, eos_id, suppress_eos),
        best matches Some(b) ==> {
            &&& is_candidate(logits@, b as int, pad_id, bos_id, eos_id, suppress_eos)
            &&& forall|id: int|
                #![trigger is_candidate(logits@, id, pad_id, bos_id, eos_id, suppress_eos)]
                is_candidate(logits@, id, pad_id, bos_id, eos_id, suppress_eos) ==> order_key(
                    logits@[id],
                ) < order_key(logits@[b as int]) || (order_key(logits@[id]) == order_key(
                    logits@[b as int],
                ) && id <= b)
        },
{
    let n: u32 = logits.len() as u32;
    let mut best: Option<u32> = None;
    let mut id: u32 = 0;
    while id < n
        invariant
            id <= n == logits@.len(),
            best is Some <==> exists|k: int|
                k < id && is_candidate(logits@, k, pad_id, bos_id, eos_id, suppress_eos),
            best matches Some(b) ==> {
                &&& b < id
                &&& is_candidate(logits@, b as int, pad_id, bos_id, eos_id, suppress_eos)
                &&& forall|k: int|
                    #![trigger is_candidate(logits@, k, pad_id, bos_id, eos_id, suppress_eos)]
                    k < id && is_candidate(logits@, k, pad_id, bos_id, eos_id, suppress_eos)
                        ==> order_key(logits@[k]) < order_key(logits@[b as int]) || (order_key(
                        logits@[k],
                    ) == order_key(logits@[b as int]) && k <= b)
            },
        decreases n - id,
    {
        let bits: u32 = logits[id as usize];
        if finite(bits) && !masked(id, pad_id, bos_id, eos_id, suppress_eos) {
            assert(is_candidate(logits@, id as int, pad_id, bos_id, eos_id, suppress_eos));
            let wins: bool = match best {
                Some(b) => total_key(bits) >= total_key(logits[b as usize]),
                None => true,
            };
            if wins {
                best = Some(id);
            }
        } else {
            assert(!is_candidate(logits@, id as int, pad_id, bos_id, eos_id, suppress_eos));
        }
        id += 1;
    }
    best
}

/// `ids` are the candidates below `n`, in order.
pub open spec fn lists_candidates(
    ids: Seq<u32>,
    logits: Seq<u32>,
    n: int,
    pad: u32,
    bos: u32,
    eos: u32,
    suppress_eos: bool,
) -> bool {
    &&& forall|i: int, j: int| 0 <= i < j < ids.len() ==> ids[i] < ids[j]
    &&& forall|i: int|
        0 <= i < ids.len() ==> (#[trigger] ids[i]) < n && is_candidate(
            logits,
            ids[i] as int,
            pad,
            bos,
            eos,
            suppress_eos,
        )
    &&& forall|id: u32|
        id < n && #[trigger] is_candidate(logits, id as int, pad, bos, eos, suppress_eos)
            ==> ids.contains(id)
}

/// The candidates, in the order of their ids.
pub fn candidates(
    logits: &[u32],
    pad_id: u32,
    bos_id: u32,
    eos_id: u32,
    suppress_eos: bool,
) -> (ids: Vec<u32>)
    requires
        logits@.len() <= u32::MAX,
    ensures
        lists_candidates(
            ids@,
            logits@,
            logits@.len() as int,
            pad_id,
            bos_id,
            eos_id,
            suppress_eos,
        ),
{
    let n: u32 = logits.len() as u32;
    let mut ids: Vec<u32> = Vec::new();
    let mut id: u32 = 0;
    while id < n
        invariant
            id <= n == logits@.len(),
            lists_candidates(ids@, logits@, id as int, pad_id, bos_id, eos_id, suppress_eos),
        decreases n - id,
    {
        let ghost before = ids@;
        if finite(logits[id as usize]) && !masked(id, pad_id, bos_id, eos_id, suppress_eos) {
            ids.push(id);
            proof {
                assert(ids@[before.len() as int] == id);
                assert forall|k: u32|
                    k < id + 1 && #[trigger] is_candidate(
                        logits@,
                        k as int,
                        pad_id,
                        bos_id,
                        eos_id,
                        suppress_eos,
                    ) implies ids@.contains(k) by {
                    if k < id {
                        let at = choose|at: int| 0 <= at < before.len() && before[at] == k;
                        assert(ids@[at] == k);
                    }
                }
            }
        }
        id += 1;
    }
    ids
}

/// The place `a` comes before the place `b` in a ranking: its weight is larger,
/// or equal and further left.
pub open spec fn ranks_before(weights: Seq<u32>, a: int, b: int) -> bool {
    order_key(weights[a]) > order_key(weights[b]) || (order_key(weights[a]) == order_key(
        weights[b],
    ) && a < b)
}

/// `places` are the places from `lo` to `hi`, each once, the largest weight
/// first.
pub open spec fn is_ranking(places: Seq<usize>, weights: Seq<u32>, lo: int, hi: int) -> bool {
    &&& places.len() == hi - lo
    &&& forall|i: int| 0 <= i < places.len() ==> lo <= #[trigger] places[i] < hi
    &&& forall|p: usize| lo <= p < hi ==> #[trigger] places.contains(p)
    &&& forall|i: int, j: int|
        0 <= i < j < places.len() ==> ranks_before(
            weights,
            #[trigger] places[i] as int,
            #[trigger] places[j] as int,
        )
}

fn comes_before(weights: &[u32], a: usize, b: usize) -> (yes: bool)
    requires
        a < weights@.len(),
        b < weights@.len(),
    ensures
        yes == ranks_before(weights@, a as int, b as int),
{
    let x: i64 = total_key(weights[a]);
    let y: i64 = total_key(weights[b]);
    x > y || (x == y && a < b)
}

/// `merged` is a start of the ranking of two rankings: the first `i` places of
/// the one and the first `j` of the other.
spec fn is_merged(merged: Seq<usize>, left: Seq<usize>, right: Seq<usize>, i: int, j: int) -> bool {
    &&& merged.len() == i + j
    &&& forall|k: int|
        0 <= k < merged.len() ==> left.take(i).contains(#[trigger] merged[k]) || right.take(
            j,
        ).contains(merged[k])
    &&& forall|k: int| 0 <= k < i ==> merged.contains(#[trigger] left[k])
    &&& forall|k: int| 0 <= k < j ==> merged.contains(#[trigger] right[k])
}

/// Ranks two neighbouring stretches of places as one.
fn merge(
    weights: &[u32],
    left: Vec<usize>,
    right: Vec<usize>,
    lo: usize,
    mid: usize,
    hi: usize,
) -> (merged: Vec<usize>)
    requires
        lo <= mid <= hi <= weights@.len(),
        is_ranking(left@, weights@, lo as int, mid as int),
        is_ranking(right@, weights@, mid as int, hi as int),
    ensures
        is_ranking(merged@, weights@, lo as int, hi as int),
{
    let mut merged: Vec<usize> = Vec::new();
    let mut i: usize = 0;
    let mut j: usize = 0;
    while i < left.len() || j < right.len()
        invariant
            lo <= mid <= hi <= weights@.len(),
            is_ranking(left@, weights@, lo as int, mid as int),
            is_ranking(right@, weights@, mid as int, hi as int),
            i <= left@.len(),
            j <= right@.len(),
            is_merged(merged@, left@, right@, i as int, j as int),
            forall|k: int, m: int|
                0 <= k < m < merged@.len() ==> ranks_before(
                    weights@,
                    #[trigger] merged@[k] as int,
                    #[trigger] merged@[m] as int,
                ),
            forall|k: int, m: int|
                0 <= k < merged@.len() && i <= m < left@.len() ==> ranks_before(
                    weights@,
                    #[trigger] merged@[k] as int,
                    #[trigger] left@[m] as int,
                ),
            forall|k: int, m: int|
                0 <= k < merged@.len() && j <= m < right@.len() ==> ranks_before(
                    weights@,
                    #[trigger] merged@[k] as int,
                    #[trigger] right@[m] as int,
                ),
        decreases left@.len() + right@.len() - i - j,
    {
        let ghost before = merged@;
        let from_left: bool = j >= right.len() || (i < left.len() && comes_before(
            weights,
            left[i],
            right[j],
        ));
        if from_left {
            merged.push(left[i]);
            proof {
                assert(left@.take(i + 1)[i as int] == left@[i as int]);
                assert forall|k: int| 0 <= k < merged@.len() implies left@.take(i + 1).contains(
                    #[trigger] merged@[k],
                ) || right@.take(j as int).contains(merged@[k]) by {
                    if k < before.len() && left@.take(i as int).contains(before[k]) {
                        let at = choose|at: int|
                            0 <= at < i && left@.take(i as int)[at] == before[k];
                        assert(left@.take(i + 1)[at] == before[k]);
                    }
                }
                assert(merged@[before.len() as int] == left@[i as int]);
            }
            i += 1;
        } else {
            merged.push(right[j]);
            proof {
                assert(right@.take(j + 1)[j as int] == right@[j as int]);
                assert forall|k: int| 0 <= k < merged@.len() implies left@.take(i as int).contains(
                    #[trigger] merged@[k],
                ) || right@.take(j + 1).contains(merged@[k]) by {
                    if k < before.len() && right@.take(j as int).contains(before[k]) {
                        let at = choose|at: int|
                            0 <= at < j && right@.take(j as int)[at] == before[k];
                        assert(right@.take(j + 1)[at] == before[k]);
                    }
                }
                assert(merged@[before.len() as int] == right@[j as int]);
            }
            j += 1;
        }
        proof {
            assert forall|k: int| 0 <= k < i implies merged@.contains(#[trigger] left@[k]) by {
                if before.contains(left@[k]) {
                    let at = choose|at: int| 0 <= at < before.len() && before[at] == left@[k];
                    assert(merged@[at] == left@[k]);
                }
            }
            assert forall|k: int| 0 <= k < j implies merged@.contains(#[trigger] right@[k]) by {
                if before.contains(right@[k]) {
                    let at = choose|at: int| 0 <= at < before.len() && before[at] == right@[k];
                    assert(merged@[at] == right@[k]);
                }
            }
        }
    }
    proof {
        assert forall|p: usize| lo <= p < hi implies #[trigger] merged@.contains(p) by {
            if p < mid {
                assert(left@.contains(p));
                let at = choose|at: int| 0 <= at < left@.len() && left@[at] == p;
                assert(merged@.contains(left@[at]));
            } else {
                assert(right@.contains(p));
                let at = choose|at: int| 0 <= at < right@.len() && right@[at] == p;
                assert(merged@.contains(right@[at]));
            }
        }
    }
    merged
}

fn rank_between(weights: &[u32], lo: usize, hi: usize) -> (places: Vec<usize>)
    requires
        lo <= hi <= weights@.len(),
    ensures
        is_ranking(places@, weights@, lo as int, hi as int),
    decreases hi - lo,
{
    let n: usize = hi - lo;
    if n == 0 {
        return Vec::new();
    }
    if n == 1 {
        let mut one: Vec<usize> = Vec::new();
        one.push(lo);
        assert(one@[0] == lo);
        return one;
    }
    let mid: usize = lo + n / 2;
    let left = rank_between(weights, lo, mid);
    let right = rank_between(weights, mid, hi);
    merge(weights, left, right, lo, mid, hi)
}

/// The places of the weights, the largest weight first; of equal weights the
/// one further left comes first.
pub fn rank(weights: &[u32]) -> (places: Vec<usize>)
    ensures
        is_ranking(places@, weights@, 0, weights@.len() as int),
{
    let n: usize = weights.len();
    rank_between(weights, 0, n)
}

/// There is one ranking of given weights.
pub proof fn law_a_ranking_is_unique(a: Seq<usize>, b: Seq<usize>, weights: Seq<u32>, hi: int)
    requires
        0 <= hi <= weights.len(),
        is_ranking(a, weights, 0, hi),
        is_ranking(b, weights, 0, hi),
    ensures
        a == b,
{
    assert forall|n: int| 0 <= n <= hi implies #[trigger] a.take(n) == b.take(n) by {
        lemma_rankings_start_alike(a, b, weights, hi, n);
    }
    assert(a.take(hi) =~= a);
    assert(b.take(hi) =~= b);
}

proof fn lemma_rankings_start_alike(
    a: Seq<usize>,
    b: Seq<usize>,
    weights: Seq<u32>,
    hi: int,
    n: int,
)
    requires
        0 <= n <= hi <= weights.len(),
        is_ranking(a, weights, 0, hi),
        is_ranking(b, weights, 0, hi),
    ensures
        a.take(n) == b.take(n),
    decreases n,
{
    if n > 0 {
        let m = n - 1;
        lemma_rankings_start_alike(a, b, weights, hi, m);
        assert forall|i: int| 0 <= i < m implies a[i] == b[i] by {
            assert(a.take(m)[i] == b.take(m)[i]);
        }
        assert(b.contains(a[m]));
        assert(a.contains(b[m]));
        let i = choose|i: int| 0 <= i < b.len() && b[i] == a[m];
        let j = choose|j: int| 0 <= j < a.len() && a[j] == b[m];
        if i < m {
            assert(ranks_before(weights, a[i] as int, a[m] as int));
        }
        if j < m {
            assert(ranks_before(weights, b[j] as int, b[m] as int));
        }
        if i > m && j > m {
            assert(ranks_before(weights, b[m] as int, b[i] as int));
            assert(ranks_before(weights, a[m] as int, a[j] as int));
        }
        assert(a[m] == b[m]);
        assert(a.take(n) =~= b.take(n));
    }
}

/// Suppressing the end of sequence keeps it from being generated, and changes
/// nothing else about which ids may be.
pub proof fn law_suppressed_end_is_never_chosen(
    logits: Seq<u32>,
    id: int,
    pad: u32,
    bos: u32,
    eos: u32,
)
    ensures
        !is_candidate(logits, eos as int, pad, bos, eos, true),
        id != eos ==> is_candidate(logits, id, pad, bos, eos, true) == is_candidate(
            logits,
            id,
            pad,
            bos,
            eos,
            false,
        ),
{
}

/// The order of scores is that of the numbers: of two numbers above zero the
/// larger pattern is the larger number, of two below zero the smaller one,
/// anything below zero comes before anything above, and no two patterns stand
/// in the same place.
pub proof fn law_scores_are_ordered_as_numbers(a: u32, b: u32)
    requires
        a < b,
    ensures
        b < 0x8000_0000 ==> order_key(a) < order_key(b) && value_key(a) < value_key(b),
        a >= 0x8000_0000 ==> order_key(b) < order_key(a) && value_key(b) < value_key(a),
        a < 0x8000_0000 <= b ==> order_key(b) < order_key(a) && value_key(b) <= value_key(a),
        value_key(a) == value_key(b) <==> a == 0 && b == 0x8000_0000,
        value_key(0) == 0,
{
}

/// Which ids may be chosen: those with a score that is a finite number, but for
/// the padding, the begin of sequence, and the end of sequence while it is
/// suppressed.
pub proof fn law_every_other_id_may_be_chosen(
    logits: Seq<u32>,
    id: int,
    pad: u32,
    bos: u32,
    eos: u32,
    suppress_eos: bool,
)
    requires
        0 <= id < logits.len(),
    ensures
        is_candidate(logits, id, pad, bos, eos, suppress_eos) <==> {
            &&& logits[id] < 0x7f80_0000 || 0x8000_0000 <= logits[id] < 0xff80_0000
            &&& id != pad
            &&& id != bos
            &&& suppress_eos ==> id != eos
        },
{
}

/// The knobs that are admitted, by their bit patterns: a temperature that is a
/// finite number and not below zero, a top-p above zero and at most one, and
/// penalties of at most two on either side of zero.
pub proof fn law_admitted_knobs(cfg: DecodeConfig)
    ensures
        cfg.error() is None <==> {
            &&& cfg.temperature < 0x7f80_0000 || cfg.temperature == 0x8000_0000
            &&& 1 <= cfg.top_p <= 0x3f80_0000
            &&& cfg.presence_penalty <= 0x4000_0000 || 0x8000_0000 <= cfg.presence_penalty
                <= 0xc000_0000
            &&& cfg.frequency_penalty <= 0x4000_0000 || 0x8000_0000 <= cfg.frequency_penalty
                <= 0xc000_0000
        },
{
}

/// The list of candidates holds every candidate once and nothing else.
pub proof fn law_every_candidate_is_listed_once(
    ids: Seq<u32>,
    logits: Seq<u32>,
    pad: u32,
    bos: u32,
    eos: u32,
    suppress_eos: bool,
    id: u32,
)
    requires
        lists_candidates(ids, logits, logits.len() as int, pad, bos, eos, suppress_eos),
    ensures
        ids.no_duplicates(),
        ids.contains(id) <==> is_candidate(logits, id as int, pad, bos, eos, suppress_eos),
        forall|i: int, j: int| 0 <= i < j < ids.len() ==> ids[i] < ids[j],
{
    if ids.contains(id) {
        let i = choose|i: int| 0 <= i < ids.len() && ids[i] == id;
        assert(is_candidate(logits, ids[i] as int, pad, bos, eos, suppress_eos));
    }
}

/// A ranking goes from the largest weight to the smallest, and equal weights
/// stand in the order of their places.
pub proof fn law_a_ranking_goes_down(
    places: Seq<usize>,
    weights: Seq<u32>,
    lo: int,
    hi: int,
    i: int,
    j: int,
)
    requires
        is_ranking(places, weights, lo, hi),
        0 <= i < j < places.len(),
    ensures
        order_key(weights[places[i] as int]) >= order_key(weights[places[j] as int]),
        order_key(weights[places[i] as int]) == order_key(weights[places[j] as int]) ==> places[i]
            < places[j],
        places[i] != places[j],
        places.len() == hi - lo,
{
    assert(ranks_before(weights, places[i] as int, places[j] as int));
}

} // verus!
