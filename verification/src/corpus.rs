//! Looking over a corpus: which texts train the tokenizer, and what is wrong
//! with a corpus whose users or thoughts are all alike.
use vstd::prelude::*;
use vstd::string::*;
use crate::text::{len_bytes, same_text};

verus! {

/// Records looked at before a verdict.
pub const MAX_SURVEY: u64 = 4096;

/// A long text by its head, middle and tail, a third of `budget` each; a text
/// within the budget whole.
pub open spec fn sampled(text: Seq<char>, budget: int) -> Seq<char> {
    if text.len() <= budget {
        text
    } else {
        let part = if budget / 3 >= 1 {
            budget / 3
        } else {
            1
        };
        let middle = (text.len() - part) / 2;
        text.take(part) + "\n"@ + text.subrange(middle, middle + part) + "\n"@ + text.skip(
            text.len() - part,
        )
    }
}

/// A sample of a long text is its first characters, as many from its middle, as
/// far from its start as from its end but for one character, and as many from
/// its end, each on a line of its own. Together they use up the budget but for
/// less than three characters.
pub proof fn law_a_sample_shows_head_middle_and_tail(text: Seq<char>, budget: int)
    requires
        3 <= budget < text.len(),
    ensures
        ({
            let sample = sampled(text, budget);
            let third = (sample.len() - 2) / 3;
            &&& sample.len() == 3 * third + 2
            &&& budget - 3 < 3 * third <= budget
            &&& sample[third] == '\n' && sample[2 * third + 1] == '\n'
            &&& forall|i: int| 0 <= i < third ==> #[trigger] sample[i] == text[i]
            &&& forall|i: int|
                0 <= i < third ==> #[trigger] sample[sample.len() - 1 - i] == text[text.len() - 1
                    - i]
            &&& exists|middle: int|
                #![trigger text[middle]]
                0 <= middle && middle + third <= text.len() && -1 <= (text.len() - third - middle)
                    - middle <= 1 && forall|i: int|
                    0 <= i < third ==> #[trigger] sample[third + 1 + i] == text[middle + i]
        }),
{
    reveal_strlit("\n");
    let part = budget / 3;
    let middle = (text.len() - part) / 2;
    let sample = sampled(text, budget);
    assert(sample.len() == 3 * part + 2);
    assert forall|i: int| 0 <= i < part implies #[trigger] sample[part + 1 + i] == text[middle
        + i] by {}
    let at = text[middle];
}

/// A long text by its head, middle and tail: a head alone would hide the bulk
/// of a long trace.
pub fn sample_thinking_chars(text: &str, budget: usize) -> (sample: String)
    ensures
        sample@ == sampled(text@, budget as int),
{
    let n: usize = text.unicode_len();
    if n <= budget {
        return text.to_owned();
    }
    let part: usize = if budget / 3 >= 1 {
        budget / 3
    } else {
        1
    };
    let middle: usize = (n - part) / 2;
    let mut sample = text.substring_char(0, part).to_owned();
    sample.append("\n");
    sample.append(text.substring_char(middle, middle + part));
    sample.append("\n");
    sample.append(text.substring_char(n - part, n));
    assert(sample@ =~= sampled(text@, budget as int));
    sample
}

/// The first `n` characters, or all of them.
pub open spec fn front(text: Seq<char>, n: int) -> Seq<char> {
    if text.len() <= n {
        text
    } else {
        text.take(n)
    }
}

fn front_of(text: &str, n: usize) -> (head: String)
    ensures
        head@ == front(text@, n as int),
{
    let len: usize = text.unicode_len();
    if len <= n {
        text.to_owned()
    } else {
        let head = text.substring_char(0, n).to_owned();
        assert(head@ =~= front(text@, n as int));
        head
    }
}

/// How often each text was met.
#[derive(Debug)]
pub struct Tally {
    keys: Vec<String>,
    counts: Vec<u64>,
}

/// Texts in the order in which they were first met, each with its count.
pub open spec fn bumped(tally: Seq<(Seq<char>, nat)>, key: Seq<char>) -> Seq<(Seq<char>, nat)> {
    if has_key(tally, key) {
        let i = choose|i: int| 0 <= i < tally.len() && (#[trigger] tally[i]).0 == key;
        tally.update(i, (key, tally[i].1 + 1))
    } else {
        tally.push((key, 1))
    }
}

/// The text was met before.
pub open spec fn has_key(tally: Seq<(Seq<char>, nat)>, key: Seq<char>) -> bool {
    exists|i: int| 0 <= i < tally.len() && (#[trigger] tally[i]).0 == key
}

/// No text stands twice.
pub open spec fn distinct_keys(tally: Seq<(Seq<char>, nat)>) -> bool {
    forall|i: int, j: int|
        0 <= i < j < tally.len() ==> (#[trigger] tally[i]).0 != (#[trigger] tally[j]).0
}

/// A tally of texts that were met one after the other.
pub open spec fn tallied(met: Seq<Seq<char>>) -> Seq<(Seq<char>, nat)>
    decreases met.len(),
{
    if met.len() == 0 {
        Seq::empty()
    } else {
        bumped(tallied(met.drop_last()), met.last())
    }
}

/// The places at which a text was met.
pub open spec fn meetings(met: Seq<Seq<char>>, text: Seq<char>) -> Set<int> {
    Set::new(|j: int| 0 <= j < met.len() && met[j] == text)
}

/// A tally lists each text that was met, once, with the number of times that it
/// was met, and no other text.
pub proof fn law_a_tally_counts_what_was_met(met: Seq<Seq<char>>)
    ensures
        distinct_keys(tallied(met)),
        forall|i: int|
            0 <= i < tallied(met).len() ==> (#[trigger] tallied(met)[i]).1 == meetings(
                met,
                tallied(met)[i].0,
            ).len() && tallied(met)[i].1 > 0,
        forall|j: int| 0 <= j < met.len() ==> has_key(tallied(met), #[trigger] met[j]),
    decreases met.len(),
{
    if met.len() > 0 {
        let front = met.drop_last();
        let key = met.last();
        let before = tallied(front);
        let after = tallied(met);
        law_a_tally_counts_what_was_met(front);
        assert forall|i: int| 0 <= i < after.len() implies (#[trigger] after[i]).1 == meetings(
            met,
            after[i].0,
        ).len() && after[i].1 > 0 by {
            let text = after[i].0;
            lemma_met_step(met, text);
            if has_key(before, key) {
                assert(before[i].0 == text);
                let k = choose|k: int| 0 <= k < before.len() && (#[trigger] before[k]).0 == key;
                if text == key {
                    assert(i == k);
                }
            } else if i == before.len() {
                lemma_never_met(front, key, before);
            } else {
                assert(before[i].0 == text);
                assert(text != key);
            }
        }
        assert forall|a: int, b: int| 0 <= a < b < after.len() implies (#[trigger] after[a]).0 != (
        #[trigger] after[b]).0 by {
            if b < before.len() {
                assert(before[a].0 != before[b].0);
            } else {
                assert(before[a].0 != key);
            }
        }
        assert forall|j: int| 0 <= j < met.len() implies has_key(after, #[trigger] met[j]) by {
            if j < front.len() {
                assert(has_key(before, front[j]));
                let i = choose|i: int| 0 <= i < before.len() && (#[trigger] before[i]).0 == front[j];
                assert(after[i].0 == met[j]);
            } else if has_key(before, key) {
                let i = choose|i: int| 0 <= i < before.len() && (#[trigger] before[i]).0 == key;
                assert(after[i].0 == key);
            } else {
                assert(after[before.len() as int].0 == key);
            }
        }
    }
}

proof fn lemma_met_step(met: Seq<Seq<char>>, text: Seq<char>)
    requires
        met.len() > 0,
    ensures
        meetings(met, text).len() == meetings(met.drop_last(), text).len() + if met.last() == text {
            1nat
        } else {
            0
        },
{
    let p = |j: int| met[j] == text;
    let q = |j: int| met.drop_last()[j] == text;
    crate::counting::lemma_places_step(p, 0, met.len() as int);
    crate::counting::lemma_places_agree(p, q, 0, met.len() - 1);
    assert(meetings(met, text) =~= crate::counting::places(p, 0, met.len() as int));
    assert(meetings(met.drop_last(), text) =~= crate::counting::places(q, 0, met.len() - 1));
}

proof fn lemma_never_met(met: Seq<Seq<char>>, key: Seq<char>, tally: Seq<(Seq<char>, nat)>)
    requires
        !has_key(tally, key),
        forall|j: int| 0 <= j < met.len() ==> has_key(tally, #[trigger] met[j]),
    ensures
        meetings(met, key).len() == 0,
{
    assert forall|j: int| !meetings(met, key).contains(j) by {
        if 0 <= j < met.len() && met[j] == key {
            assert(has_key(tally, met[j]));
        }
    }
    assert(meetings(met, key) =~= Set::empty());
}

impl View for Tally {
    type V = Seq<(Seq<char>, nat)>;

    closed spec fn view(&self) -> Seq<(Seq<char>, nat)> {
        Seq::new(self.keys@.len(), |i: int| (self.keys@[i]@, self.counts@[i] as nat))
    }
}

impl Tally {
    /// Each text stands once, and no count is above `limit`.
    pub closed spec fn wf(&self, limit: nat) -> bool {
        &&& self.keys@.len() == self.counts@.len()
        &&& distinct_keys(self@)
        &&& forall|i: int| 0 <= i < self.counts@.len() ==> #[trigger] self.counts@[i] <= limit
    }

    fn new() -> (tally: Self)
        ensures
            tally.wf(0),
            tally@ == Seq::<(Seq<char>, nat)>::empty(),
    {
        let tally = Tally { keys: Vec::new(), counts: Vec::new() };
        assert(tally@ =~= Seq::empty());
        tally
    }

    /// Counts `key` once more.
    fn bump(&mut self, key: String, Ghost(limit): Ghost<nat>)
        requires
            old(self).wf(limit),
            limit < u64::MAX,
        ensures
            final(self).wf(limit + 1),
            final(self)@ == bumped(old(self)@, key@),
    {
        let ghost before = self@;
        let mut i: usize = 0;
        while i < self.keys.len()
            invariant
                i <= self.keys@.len(),
                self.wf(limit),
                limit < u64::MAX,
                self@ == before,
                before == old(self)@,
                before.len() == self.keys@.len(),
                forall|j: int| 0 <= j < i ==> (#[trigger] before[j]).0 != key@,
            decreases self.keys@.len() - i,
        {
            if same_text(self.keys[i].as_str(), key.as_str()) {
                let n: u64 = self.counts[i];
                self.counts.set(i, n + 1);
                proof {
                    assert(before[i as int].0 == key@);
                    let k = choose|k: int|
                        0 <= k < before.len() && (#[trigger] before[k]).0 == key@;
                    assert(k == i);
                    assert(self@ =~= before.update(k, (key@, before[k].1 + 1)));
                    assert forall|a: int, b: int| 0 <= a < b < self@.len() implies (
                    #[trigger] self@[a]).0 != (#[trigger] self@[b]).0 by {
                        assert(before[a].0 != before[b].0);
                    }
                }
                return;
            }
            assert(before[i as int].0 != key@);
            i += 1;
        }
        self.keys.push(key);
        self.counts.push(1);
        assert(self@ =~= before.push((key@, 1nat)));
    }

    /// A text that was met most often, with its count; of several, the first.
    fn top(&self, Ghost(limit): Ghost<nat>) -> (best: Option<usize>)
        requires
            self.wf(limit),
        ensures
            best is Some <==> self@.len() > 0,
            best matches Some(k) ==> k < self@.len() && forall|i: int|
                0 <= i < self@.len() ==> (#[trigger] self@[i]).1 <= self@[k as int].1,
    {
        if self.counts.len() == 0 {
            return None;
        }
        let mut best: usize = 0;
        let mut i: usize = 1;
        while i < self.counts.len()
            invariant
                1 <= i <= self.counts@.len(),
                best < i,
                self.wf(limit),
                forall|j: int| 0 <= j < i ==> (#[trigger] self@[j]).1 <= self@[best as int].1,
            decreases self.counts@.len() - i,
        {
            assert(self@[i as int].1 == self.counts@[i as int]);
            assert(self@[best as int].1 == self.counts@[best as int]);
            if self.counts[i] > self.counts[best] {
                best = i;
            }
            i += 1;
        }
        Some(best)
    }
}

/// What is worth a warning about a corpus.
#[derive(Debug)]
pub struct Verdict {
    /// Fewer than one user text in ten is new.
    pub few_users: bool,
    /// The thinking traces are longer than fifteen hundred bytes on average.
    pub long_thinking: bool,
    /// The start that at least half of the thinking traces share.
    pub stub: Option<String>,
}

/// Counts over the first records of a corpus.
#[derive(Debug)]
pub struct Survey {
    users: Tally,
    thoughts: Tally,
    records: u64,
    thinking_bytes: u128,
}

/// The counts that a survey keeps.
pub struct Surveyed {
    pub users: Seq<(Seq<char>, nat)>,
    pub thoughts: Seq<(Seq<char>, nat)>,
    pub records: nat,
    pub thinking_bytes: nat,
}

impl View for Survey {
    type V = Surveyed;

    closed spec fn view(&self) -> Surveyed {
        Surveyed {
            users: self.users@,
            thoughts: self.thoughts@,
            records: self.records as nat,
            thinking_bytes: self.thinking_bytes as nat,
        }
    }
}

impl Survey {
    /// Counts stay within what was looked at.
    pub closed spec fn wf(&self) -> bool {
        &&& self.records <= MAX_SURVEY
        &&& self.users.wf(self.records as nat)
        &&& self.thoughts.wf(self.records as nat)
        &&& self.thinking_bytes <= self.records * usize::MAX
    }

    /// What a survey keeps to: it ends with its last record, no text stands
    /// twice in a tally, and none was met more often than there were records.
    pub proof fn lemma_counts(&self)
        requires
            self.wf(),
        ensures
            self@.records <= MAX_SURVEY,
            distinct_keys(self@.users),
            distinct_keys(self@.thoughts),
            forall|i: int|
                0 <= i < self@.users.len() ==> (#[trigger] self@.users[i]).1 <= self@.records,
            forall|i: int|
                0 <= i < self@.thoughts.len() ==> (#[trigger] self@.thoughts[i]).1
                    <= self@.records,
            self@.thinking_bytes <= self@.records * usize::MAX,
    {
    }

    pub fn new() -> (survey: Self)
        ensures
            survey.wf(),
            survey@ == (Surveyed {
                users: Seq::empty(),
                thoughts: Seq::empty(),
                records: 0,
                thinking_bytes: 0,
            }),
    {
        Survey { users: Tally::new(), thoughts: Tally::new(), records: 0, thinking_bytes: 0 }
    }

    /// Counts one record: users by their first eighty characters, thinking
    /// traces by their first forty. Says whether enough were looked at.
    pub fn add(&mut self, user: &str, thinking: &str) -> (done: bool)
        requires
            old(self).wf(),
            old(self)@.records < MAX_SURVEY,
        ensures
            final(self).wf(),
            final(self)@ == (Surveyed {
                users: bumped(old(self)@.users, front(user@, 80)),
                thoughts: bumped(old(self)@.thoughts, front(thinking@, 40)),
                records: old(self)@.records + 1,
                thinking_bytes: old(self)@.thinking_bytes + crate::text::byte_len(thinking@),
            }),
            done == (old(self)@.records + 1 >= MAX_SURVEY),
            done == (old(self)@.records == 4095),
    {
        let ghost limit = self.records as nat;
        let bytes: usize = len_bytes(thinking);
        proof {
            let r = self.records as int;
            assert(r * usize::MAX + usize::MAX == (r + 1) * usize::MAX) by (nonlinear_arith);
            assert((r + 1) * usize::MAX <= 4096 * usize::MAX) by (nonlinear_arith)
                requires
                    r + 1 <= 4096,
            ;
            assert(4096 * (usize::MAX as int) < u128::MAX) by {
                assert(usize::MAX <= u64::MAX);
            }
        }
        self.users.bump(front_of(user, 80), Ghost(limit));
        self.thoughts.bump(front_of(thinking, 40), Ghost(limit));
        self.records = self.records + 1;
        self.thinking_bytes = self.thinking_bytes + bytes as u128;
        self.records >= MAX_SURVEY
    }

    /// What is worth a warning; nothing for a corpus without records.
    pub fn verdict(&self) -> (verdict: Verdict)
        requires
            self.wf(),
        ensures
            verdict.few_users == (self@.users.len() * 10 < self@.records),
            verdict.long_thinking == (self@.records > 0 && self@.thinking_bytes > 1500
                * self@.records),
            verdict.stub is Some <==> self@.records >= 32 && exists|i: int|
                0 <= i < self@.thoughts.len() && (#[trigger] self@.thoughts[i]).1 * 2
                    >= self@.records,
            verdict.stub matches Some(t) ==> exists|k: int|
                #![trigger self@.thoughts[k]]
                0 <= k < self@.thoughts.len() && self@.thoughts[k].0 == t@ && forall|i: int|
                    0 <= i < self@.thoughts.len() ==> (#[trigger] self@.thoughts[i]).1
                        <= self@.thoughts[k].1,
    {
        let users: u128 = self.users.keys.len() as u128;
        assert(users == self@.users.len());
        let few_users: bool = users * 10 < self.records as u128;
        let long_thinking: bool = self.records > 0 && self.thinking_bytes > 1500u128
            * self.records as u128;
        let mut stub: Option<String> = None;
        match self.thoughts.top(Ghost(self.records as nat)) {
            Some(k) => {
                assert(self@.thoughts[k as int].1 == self.thoughts.counts@[k as int]);
                if self.records >= 32 && self.thoughts.counts[k] as u128 * 2
                    >= self.records as u128 {
                    stub = Some(self.thoughts.keys[k].as_str().to_owned());
                    assert(self@.thoughts[k as int].0 == stub->0@);
                }
            },
            None => {},
        }
        Verdict { few_users, long_thinking, stub }
    }
}

/// Texts are told apart by their first characters alone: eighty of a user's, forty
/// of a thought, or as many as there are.
pub proof fn law_texts_are_known_by_their_front(a: Seq<char>, n: int)
    requires
        0 <= n,
    ensures
        front(a, n).len() == if a.len() < n {
            a.len() as int
        } else {
            n
        },
        forall|i: int| 0 <= i < front(a, n).len() ==> #[trigger] front(a, n)[i] == a[i],
{
}

} // verus!
