//! Ternary experts: their parameters and the routing of tokens to them.
//!
//! Real numbers are held by their bit patterns.
use vstd::prelude::*;
use crate::decode::{value_of, INFINITY_BITS};
use crate::names::ExpertPart;

verus! {

/// How many bumps a unit of an expert has.
pub const BUMP_G: usize = 4;

/// Parameters of one expert: `w` units over `d` channels.
#[derive(Debug)]
pub struct TernaryExpert {
    pub d: usize,
    pub w: usize,
    pub w_up: Vec<u32>,
    pub w_gate: Vec<u32>,
    pub w_down: Vec<u32>,
    pub bumps: Vec<u32>,
    pub scale_up: Vec<u32>,
    pub scale_gate: Vec<u32>,
    pub scale_down: Vec<u32>,
    /// Packed ternary codes that stand for a weight matrix.
    pub codes_up: Option<Vec<u8>>,
    pub codes_gate: Option<Vec<u8>>,
    pub codes_down: Option<Vec<u8>>,
    pub phase: u8,
    pub packed: bool,
}

impl TernaryExpert {
    /// The numbers of a tensor of the expert.
    pub open spec fn part(self, part: ExpertPart) -> Seq<u32> {
        match part {
            ExpertPart::WUp => self.w_up@,
            ExpertPart::WGate => self.w_gate@,
            ExpertPart::WDown => self.w_down@,
            ExpertPart::Bumps => self.bumps@,
            ExpertPart::ScaleUp => self.scale_up@,
            ExpertPart::ScaleGate => self.scale_gate@,
            ExpertPart::ScaleDown => self.scale_down@,
        }
    }

    /// Packed codes that stand in a tensor's place.
    pub open spec fn codes(self, part: ExpertPart) -> Option<Seq<u8>> {
        let codes = match part {
            ExpertPart::WUp => self.codes_up,
            ExpertPart::WGate => self.codes_gate,
            ExpertPart::WDown => self.codes_down,
            _ => None,
        };
        match codes {
            Some(c) => Some(c@),
            None => None,
        }
    }

    /// How the numbers of a tensor are laid out.
    pub open spec fn shape(self, part: ExpertPart) -> Seq<usize> {
        match part {
            ExpertPart::WUp => seq![self.w, self.d],
            ExpertPart::WGate => seq![self.w, self.d],
            ExpertPart::WDown => seq![self.d, self.w],
            ExpertPart::Bumps => seq![self.w, BUMP_G],
            ExpertPart::ScaleUp => seq![self.w],
            ExpertPart::ScaleGate => seq![self.w],
            ExpertPart::ScaleDown => seq![self.d],
        }
    }

    pub(crate) fn set_part(&mut self, part: ExpertPart, data: Vec<u32>)
        ensures
            final(self).part(part) == data@,
            forall|p: ExpertPart| p != part ==> #[trigger] final(self).part(p) == old(self).part(p),
            forall|p: ExpertPart| #[trigger] final(self).codes(p) == old(self).codes(p),
            forall|p: ExpertPart| #[trigger] final(self).shape(p) == old(self).shape(p),
            final(self).d == old(self).d,
            final(self).w == old(self).w,
            final(self).phase == old(self).phase,
            final(self).packed == old(self).packed,
    {
        match part {
            ExpertPart::WUp => {
                self.w_up = data;
            },
            ExpertPart::WGate => {
                self.w_gate = data;
            },
            ExpertPart::WDown => {
                self.w_down = data;
            },
            ExpertPart::Bumps => {
                self.bumps = data;
            },
            ExpertPart::ScaleUp => {
                self.scale_up = data;
            },
            ExpertPart::ScaleGate => {
                self.scale_gate = data;
            },
            ExpertPart::ScaleDown => {
                self.scale_down = data;
            },
        }
    }

    pub(crate) fn set_codes(&mut self, part: ExpertPart, bytes: Vec<u8>)
        requires
            is_weights_part(part),
        ensures
            final(self).codes(part) == Some(bytes@),
            forall|p: ExpertPart|
                p != part ==> #[trigger] final(self).codes(p) == old(self).codes(p),
            forall|p: ExpertPart| #[trigger] final(self).part(p) == old(self).part(p),
            forall|p: ExpertPart| #[trigger] final(self).shape(p) == old(self).shape(p),
            final(self).d == old(self).d,
            final(self).w == old(self).w,
            final(self).phase == old(self).phase,
            final(self).packed,
    {
        match part {
            ExpertPart::WUp => {
                self.codes_up = Some(bytes);
            },
            ExpertPart::WGate => {
                self.codes_gate = Some(bytes);
            },
            _ => {
                self.codes_down = Some(bytes);
            },
        }
        self.packed = true;
    }

    /// Freezes the ternary codes of the weights. From then on only the scales
    /// are trained.
    pub fn pack(&mut self, up: Vec<u8>, gate: Vec<u8>, down: Vec<u8>)
        ensures
            final(self).codes(ExpertPart::WUp) == Some(up@),
            final(self).codes(ExpertPart::WGate) == Some(gate@),
            final(self).codes(ExpertPart::WDown) == Some(down@),
            final(self).d == old(self).d,
            final(self).w == old(self).w,
            final(self).packed,
            final(self).phase == 4,
            forall|p: ExpertPart| #[trigger] final(self).part(p) == old(self).part(p),
            forall|p: ExpertPart| #[trigger] final(self).shape(p) == old(self).shape(p),
    {
        self.codes_up = Some(up);
        self.codes_gate = Some(gate);
        self.codes_down = Some(down);
        self.packed = true;
        self.phase = 4;
    }

    /// Whether the forward pass rounds the weights to ternary values while it
    /// still trains them.
    pub fn qat(&self) -> (yes: bool)
        ensures
            yes == (self.phase >= 3 && !self.packed),
    {
        self.phase >= 3 && !self.packed
    }

    pub(crate) fn copy_part(&self, part: ExpertPart) -> (data: Vec<u32>)
        ensures
            data@ == self.part(part),
    {
        match part {
            ExpertPart::WUp => copied(&self.w_up),
            ExpertPart::WGate => copied(&self.w_gate),
            ExpertPart::WDown => copied(&self.w_down),
            ExpertPart::Bumps => copied(&self.bumps),
            ExpertPart::ScaleUp => copied(&self.scale_up),
            ExpertPart::ScaleGate => copied(&self.scale_gate),
            ExpertPart::ScaleDown => copied(&self.scale_down),
        }
    }

    pub(crate) fn copy_codes(&self, part: ExpertPart) -> (codes: Option<Vec<u8>>)
        ensures
            match codes {
                Some(c) => self.codes(part) == Some(c@),
                None => self.codes(part) is None,
            },
    {
        let codes: &Option<Vec<u8>> = match part {
            ExpertPart::WUp => &self.codes_up,
            ExpertPart::WGate => &self.codes_gate,
            ExpertPart::WDown => &self.codes_down,
            _ => return None,
        };
        match codes {
            Some(c) => Some(copied_bytes(c)),
            None => None,
        }
    }

    pub(crate) fn copy_shape(&self, part: ExpertPart) -> (shape: Vec<usize>)
        ensures
            shape@ == self.shape(part),
    {
        match part {
            ExpertPart::WUp => vec![self.w, self.d],
            ExpertPart::WGate => vec![self.w, self.d],
            ExpertPart::WDown => vec![self.d, self.w],
            ExpertPart::Bumps => vec![self.w, BUMP_G],
            ExpertPart::ScaleUp => vec![self.w],
            ExpertPart::ScaleGate => vec![self.w],
            ExpertPart::ScaleDown => vec![self.d],
        }
    }
}

/// The tensor is a weight matrix, which can be packed.
pub open spec fn is_weights_part(part: ExpertPart) -> bool {
    part is WUp || part is WGate || part is WDown
}

/// The tensor is a weight matrix of an expert.
pub open spec fn is_weights(id: crate::names::TensorId) -> bool {
    id matches crate::names::TensorId::Expert { part, .. } && is_weights_part(part)
}

/// A copy of a row of numbers.
pub(crate) fn copied(data: &Vec<u32>) -> (copy: Vec<u32>)
    ensures
        copy@ == data@,
{
    copied_slice(data.as_slice())
}

/// A copy of a row of numbers.
pub(crate) fn copied_slice(data: &[u32]) -> (copy: Vec<u32>)
    ensures
        copy@ == data@,
{
    let mut copy: Vec<u32> = Vec::new();
    let n: usize = data.len();
    for i in 0..n
        invariant
            n == data@.len(),
            copy@ == data@.take(i as int),
    {
        copy.push(data[i]);
        assert(data@.take(i + 1) =~= data@.take(i as int).push(data@[i as int]));
    }
    assert(data@.take(n as int) =~= data@);
    copy
}

fn copied_bytes(data: &Vec<u8>) -> (copy: Vec<u8>)
    ensures
        copy@ == data@,
{
    let mut copy: Vec<u8> = Vec::new();
    let n: usize = data.len();
    for i in 0..n
        invariant
            n == data@.len(),
            copy@ == data@.take(i as int),
    {
        copy.push(data[i]);
        assert(data@.take(i + 1) =~= data@.take(i as int).push(data@[i as int]));
    }
    assert(data@.take(n as int) =~= data@);
    copy
}

/// The pattern is that of a number.
pub open spec fn is_number(bits: u32) -> bool {
    crate::decode::magnitude(bits) <= INFINITY_BITS
}

/// The number is above zero.
pub open spec fn is_positive(bits: u32) -> bool {
    0 < bits <= INFINITY_BITS
}

/// In a row of gates, place `j` is chosen before place `i`: its gate is
/// larger, or the same and further to the front.
pub open spec fn chosen_before(row: Seq<u32>, j: int, i: int) -> bool {
    let a = crate::decode::value_key(row[j]);
    let b = crate::decode::value_key(row[i]);
    a > b || a == b && j < i
}

/// How many of the first `n` places are chosen before place `i`.
pub open spec fn rank_within(row: Seq<u32>, i: int, n: int) -> int
    decreases n,
{
    if n <= 0 {
        0
    } else {
        rank_within(row, i, n - 1) + if chosen_before(row, n - 1, i) {
            1int
        } else {
            0
        }
    }
}

/// How many places of the row are chosen before place `i`.
pub open spec fn rank(row: Seq<u32>, i: int) -> int {
    rank_within(row, i, row.len() as int)
}

/// The gates of one token.
pub open spec fn gate_row(gates: Seq<u32>, e: int, t: int) -> Seq<u32> {
    gates.subrange(t * e, t * e + e)
}

proof fn lemma_rank_order(row: Seq<u32>, i: int, j: int, n: int)
    requires
        0 <= i < row.len(),
        0 <= j < row.len(),
        chosen_before(row, i, j),
        0 <= n <= row.len(),
    ensures
        0 <= rank_within(row, i, n) <= rank_within(row, j, n) <= n,
        n > i ==> rank_within(row, i, n) < rank_within(row, j, n),
    decreases n,
{
    if n > 0 {
        lemma_rank_order(row, i, j, n - 1);
    }
}

proof fn lemma_rank_bound(row: Seq<u32>, i: int, n: int)
    requires
        0 <= n <= row.len(),
    ensures
        0 <= rank_within(row, i, n) <= n,
    decreases n,
{
    if n > 0 {
        lemma_rank_bound(row, i, n - 1);
    }
}

/// The places of a row that are kept.
pub open spec fn kept_places(row: Seq<u32>, k: int) -> Set<int> {
    Set::new(|i: int| 0 <= i < row.len() && rank(row, i) < k)
}

/// Of a row of gates exactly `k` are kept, or all where there are fewer, and
/// where one is kept, so is every larger one, and every one as large and further
/// to the front.
pub proof fn law_at_most_k_gates_are_kept(row: Seq<u32>, k: int)
    requires
        0 <= k,
    ensures
        kept_places(row, k).finite(),
        kept_places(row, k).len() == if k < row.len() {
            k
        } else {
            row.len() as int
        },
        forall|i: int, j: int|
            0 <= i < row.len() && 0 <= j < row.len() && kept_places(row, k).contains(i) && (
            crate::decode::value_key(#[trigger] row[j]) > crate::decode::value_key(
                #[trigger] row[i],
            ) || crate::decode::value_key(row[j]) == crate::decode::value_key(row[i]) && j < i)
                ==> kept_places(row, k).contains(j),
{
    let n = row.len() as int;
    let m = if k < n {
        k
    } else {
        n
    };
    let all = vstd::set_lib::set_int_range(0, n);
    let f = |i: int| rank(row, i);
    vstd::set_lib::lemma_int_range(0, n);
    vstd::set_lib::lemma_int_range(0, m);
    assert forall|x: int, y: int|
        all.contains(x) && all.contains(y) && #[trigger] f(x) == #[trigger] f(y) implies x
        == y by {
        if x != y {
            if chosen_before(row, x, y) {
                lemma_rank_order(row, x, y, n);
            } else {
                assert(chosen_before(row, y, x));
                lemma_rank_order(row, y, x, n);
            }
        }
    }
    let ranks = all.map(f);
    vstd::set_lib::lemma_map_size(all, ranks, f);
    all.lemma_map_finite(f);
    assert(ranks.subset_of(all)) by {
        assert forall|r: int| ranks.contains(r) implies all.contains(r) by {
            let i = choose|i: int| all.contains(i) && f(i) == r;
            lemma_rank_below(row, i);
        }
    }
    vstd::set_lib::lemma_subset_equality(ranks, all);
    let kept = kept_places(row, k);
    assert(kept.subset_of(all));
    vstd::set_lib::lemma_len_subset(kept, all);
    let image = kept.map(f);
    assert(image =~= vstd::set_lib::set_int_range(0, m)) by {
        assert forall|r: int| image.contains(r) <==> 0 <= r < m by {
            if image.contains(r) {
                let i = choose|i: int| kept.contains(i) && f(i) == r;
                lemma_rank_below(row, i);
            }
            if 0 <= r < m {
                assert(ranks.contains(r));
                let i = choose|i: int| all.contains(i) && f(i) == r;
                assert(kept.contains(i));
            }
        }
    }
    vstd::set_lib::lemma_map_size(kept, image, f);
    assert forall|i: int, j: int|
        0 <= i < row.len() && 0 <= j < row.len() && kept.contains(i) && (crate::decode::value_key(
            #[trigger] row[j],
        ) > crate::decode::value_key(#[trigger] row[i]) || crate::decode::value_key(row[j])
            == crate::decode::value_key(row[i]) && j < i) implies kept.contains(j) by {
        assert(chosen_before(row, j, i));
        lemma_rank_order(row, j, i, n);
    }
}

/// No place is chosen before itself, so fewer than all stand before it.
proof fn lemma_rank_below(row: Seq<u32>, i: int)
    requires
        0 <= i < row.len(),
    ensures
        0 <= rank(row, i) < row.len(),
{
    let n = row.len() as int;
    lemma_rank_bound(row, i, i);
    lemma_rank_after(row, i, n);
}

proof fn lemma_rank_after(row: Seq<u32>, i: int, n: int)
    requires
        0 <= i < n <= row.len(),
    ensures
        0 <= rank_within(row, i, n) < n,
    decreases n,
{
    if n - 1 > i {
        lemma_rank_after(row, i, n - 1);
    } else {
        lemma_rank_bound(row, i, i);
    }
}

/// `after` is `before` with its `k` largest gates left and the others zeroed; of
/// equal gates the one further to the front is left.
pub open spec fn leaves_the_largest(before: Seq<u32>, after: Seq<u32>, k: int) -> bool {
    exists|keep: Set<int>|
        {
            &&& keep.finite()
            &&& #[trigger] keep.len() == k
            &&& forall|e: int| keep.contains(e) ==> 0 <= e < before.len()
            &&& after.len() == before.len()
            &&& forall|e: int|
                0 <= e < before.len() ==> #[trigger] after[e] == if keep.contains(e) {
                    before[e]
                } else {
                    0
                }
            &&& forall|i: int, j: int|
                #![trigger before[i], before[j]]
                keep.contains(i) && 0 <= j < before.len() && !keep.contains(j) ==> {
                    let kept = crate::decode::value_key(before[i]);
                    let dropped = crate::decode::value_key(before[j]);
                    dropped < kept || dropped == kept && i < j
                }
        }
}

/// Selecting `k` of `e` experts leaves in the gates of every token exactly its
/// `k` largest values, where they stood, and zeroes in the other places.
pub proof fn law_topk_rows_leave_the_largest(gates: Seq<u32>, n: int, e: int, k: int, t: int)
    requires
        0 < k < e,
        n * e <= gates.len(),
        0 <= t < n,
    ensures
        t * e + e <= gates.len(),
        leaves_the_largest(
            gates.subrange(t * e, t * e + e),
            Seq::new(e as nat, |i: int| selected(gates, e, k, t * e + i)),
            k,
        ),
{
    assert(t * e + e <= n * e && t * e >= 0) by (nonlinear_arith)
        requires
            0 <= t < n,
            0 <= e,
    ;
    let row = gates.subrange(t * e, t * e + e);
    let keep = kept_places(row, k);
    let after = Seq::new(e as nat, |i: int| selected(gates, e, k, t * e + i));
    law_at_most_k_gates_are_kept(row, k);
    assert forall|i: int| 0 <= i < e implies #[trigger] after[i] == if keep.contains(i) {
        row[i]
    } else {
        0
    } by {
        vstd::arithmetic::div_mod::lemma_fundamental_div_mod_converse(t * e + i, e, t, i);
    }
    assert(keep.len() == k);
}

fn row_rank(gates: &Vec<u32>, at: usize, e: usize, i: usize) -> (r: usize)
    requires
        at + e <= gates@.len(),
        i < e,
    ensures
        r == rank(gates@.subrange(at as int, at + e), i as int),
{
    let size: usize = gates.len();
    let ghost row = gates@.subrange(at as int, at + e);
    let own: i64 = value_of(gates[at + i]);
    let mut r: usize = 0;
    for j in 0..e
        invariant
            at + e <= size == gates@.len(),
            i < e,
            row == gates@.subrange(at as int, at + e),
            own == crate::decode::value_key(row[i as int]),
            r == rank_within(row, i as int, j as int),
            r <= j,
    {
        let other: i64 = value_of(gates[at + j]);
        assert(row[j as int] == gates@[at + j]);
        if other > own || other == own && j < i {
            r = r + 1;
        }
    }
    r
}

/// What stands at a place of the first `n * e`, after the selection.
pub open spec fn selected(gates: Seq<u32>, e: int, k: int, i: int) -> u32 {
    if rank(gate_row(gates, e, i / e), i % e) < k {
        gates[i]
    } else {
        0
    }
}

/// Zeroes the gates of the experts that a token does not select: all but its
/// `k` largest. Selecting no expert, or as many as there are, leaves the gates
/// alone. Of equal gates the one further to the front is kept.
pub fn topk_rows(gates: &mut Vec<u32>, n: usize, e: usize, k: usize)
    requires
        0 < k < e ==> n * e <= old(gates)@.len(),
        0 < k < e ==> forall|i: int| 0 <= i < n * e ==> is_number(#[trigger] old(gates)@[i]),
    ensures
        final(gates)@.len() == old(gates)@.len(),
        k == 0 || k >= e ==> final(gates)@ == old(gates)@,
        0 < k < e ==> forall|i: int|
            0 <= i < old(gates)@.len() ==> #[trigger] final(gates)@[i] == if i < n * e {
                selected(old(gates)@, e as int, k as int, i)
            } else {
                old(gates)@[i]
            },
        0 < k < e ==> forall|t: int|
            0 <= t < n ==> leaves_the_largest(
                old(gates)@.subrange(t * e, t * e + e),
                #[trigger] final(gates)@.subrange(t * e, t * e + e),
                k as int,
            ),
{
    if k == 0 || k >= e {
        return;
    }
    let ghost start = gates@;
    let whole: usize = gates.len();
    let mut at: usize = 0;
    assert(0 * e == 0);
    for t in 0..n
        invariant
            0 < k < e,
            whole == start.len(),
            start == old(gates)@,
            gates@.len() == start.len(),
            n * e <= start.len(),
            at == t * e,
            forall|i: int|
                0 <= i < start.len() ==> #[trigger] gates@[i] == if i < at {
                    selected(start, e as int, k as int, i)
                } else {
                    start[i]
                },
    {
        proof {
            assert(t * e + e <= n * e && (t + 1) * e == t * e + e) by (nonlinear_arith)
                requires
                    t < n,
                    e > 0,
            ;
        }
        let mut ranks: Vec<usize> = Vec::new();
        for i in 0..e
            invariant
                at + e <= gates@.len(),
                ranks@.len() == i,
                forall|j: int|
                    0 <= j < i ==> #[trigger] ranks@[j] == rank(
                        gates@.subrange(at as int, at + e),
                        j,
                    ),
        {
            ranks.push(row_rank(gates, at, e, i));
        }
        let ghost row = gate_row(start, e as int, t as int);
        assert(gates@.subrange(at as int, at + e) =~= row);
        let size: usize = gates.len();
        for i in 0..e
            invariant
                size == gates@.len() == start.len(),
                at + e <= size,
                at == t * e,
                0 < k < e,
                ranks@.len() == e,
                row == gate_row(start, e as int, t as int),
                forall|j: int| 0 <= j < e ==> #[trigger] ranks@[j] == rank(row, j),
                forall|j: int|
                    0 <= j < start.len() ==> #[trigger] gates@[j] == if j < at + i {
                        selected(start, e as int, k as int, j)
                    } else {
                        start[j]
                    },
        {
            proof {
                vstd::arithmetic::div_mod::lemma_fundamental_div_mod_converse(
                    at + i,
                    e as int,
                    t as int,
                    i as int,
                );
                assert(gates@[at + i] == start[at + i]);
            }
            if ranks[i] >= k {
                gates.set(at + i, 0);
            }
        }
        at = at + e;
    }
    proof {
        assert forall|t: int| 0 <= t < n implies leaves_the_largest(
            start.subrange(t * e, t * e + e),
            #[trigger] gates@.subrange(t * e, t * e + e),
            k as int,
        ) by {
            law_topk_rows_leave_the_largest(start, n as int, e as int, k as int, t);
            assert(t * e + e <= n * e && t * e >= 0) by (nonlinear_arith)
                requires
                    0 <= t < n,
            ;
            assert(gates@.subrange(t * e, t * e + e) =~= Seq::new(
                e as nat,
                |i: int| selected(start, e as int, k as int, t * e + i),
            ));
        }
    }
}

/// A token's gate to an expert is above zero.
pub open spec fn gate_open(gates: Seq<u32>, e: int, expert: int, t: int) -> bool {
    is_positive(gates[t * e + expert])
}

/// The tokens, below `n`, that are routed to an expert, in order.
pub open spec fn routed(gates: Seq<u32>, e: int, expert: int, n: nat) -> Seq<usize>
    decreases n,
{
    if n == 0 {
        Seq::empty()
    } else {
        let front = routed(gates, e, expert, (n - 1) as nat);
        if gate_open(gates, e, expert, n - 1) {
            front.push((n - 1) as usize)
        } else {
            front
        }
    }
}

fn route_to(gates: &[u32], n: usize, e: usize, expert: usize) -> (tokens: Vec<usize>)
    requires
        n * e <= gates@.len(),
        expert < e,
    ensures
        tokens@ == routed(gates@, e as int, expert as int, n as nat),
{
    let size: usize = gates.len();
    let mut tokens: Vec<usize> = Vec::new();
    let mut at: usize = 0;
    assert(0 * e == 0);
    for t in 0..n
        invariant
            n * e <= size == gates@.len(),
            expert < e,
            at == t * e,
            tokens@ == routed(gates@, e as int, expert as int, t as nat),
    {
        proof {
            assert(t * e + e <= n * e && (t + 1) * e == t * e + e) by (nonlinear_arith)
                requires
                    t < n,
                    e > 0,
            ;
        }
        let g: u32 = gates[at + expert];
        if 0 < g && g <= INFINITY_BITS {
            tokens.push(t);
        }
        at = at + e;
    }
    tokens
}

/// Groups the tokens by the experts that they are routed to.
pub fn group_tokens(gates: &[u32], n: usize, e: usize) -> (groups: Vec<Vec<usize>>)
    requires
        n * e <= gates@.len(),
    ensures
        groups@.len() == e,
        forall|expert: int|
            0 <= expert < e ==> (#[trigger] groups@[expert])@ == routed(
                gates@,
                e as int,
                expert,
                n as nat,
            ),
{
    let mut groups: Vec<Vec<usize>> = Vec::new();
    for expert in 0..e
        invariant
            n * e <= gates@.len(),
            groups@.len() == expert,
            forall|x: int|
                0 <= x < expert ==> (#[trigger] groups@[x])@ == routed(
                    gates@,
                    e as int,
                    x,
                    n as nat,
                ),
    {
        let group = route_to(gates, n, e, expert);
        groups.push(group);
    }
    groups
}

/// A token stands in the group of an expert, once, exactly when its gate to
/// that expert is above zero. Within a group the tokens are in order.
pub proof fn law_groups_hold_the_routed_tokens(gates: Seq<u32>, e: int, expert: int, n: nat)
    requires
        n <= usize::MAX,
    ensures
        forall|t: usize|
            #[trigger] routed(gates, e, expert, n).contains(t) <==> t < n && gate_open(
                gates,
                e,
                expert,
                t as int,
            ),
        forall|i: int, j: int|
            0 <= i < j < routed(gates, e, expert, n).len() ==> #[trigger] routed(
                gates,
                e,
                expert,
                n,
            )[i] < #[trigger] routed(gates, e, expert, n)[j],
    decreases n,
{
    let all = routed(gates, e, expert, n);
    if n > 0 {
        law_groups_hold_the_routed_tokens(gates, e, expert, (n - 1) as nat);
        let front = routed(gates, e, expert, (n - 1) as nat);
        let last = (n - 1) as usize;
        assert forall|t: usize|
            #[trigger] all.contains(t) <==> t < n && gate_open(gates, e, expert, t as int) by {
            if all.contains(t) {
                let i = choose|i: int| 0 <= i < all.len() && all[i] == t;
                if i < front.len() {
                    assert(front[i] == t);
                    assert(front.contains(t));
                }
            }
            if t < n && gate_open(gates, e, expert, t as int) {
                if t < n - 1 {
                    assert(front.contains(t));
                    let i = choose|i: int| 0 <= i < front.len() && front[i] == t;
                    assert(all[i] == t);
                } else {
                    assert(t == last);
                    assert(all[front.len() as int] == t);
                }
            }
        }
        assert forall|i: int, j: int| 0 <= i < j < all.len() implies #[trigger] all[i]
            < #[trigger] all[j] by {
            assert(all[i] == front[i]);
            if j < front.len() {
                assert(all[j] == front[j]);
            } else {
                assert(front.contains(front[i]));
            }
        }
    }
}

/// The rows of `x`, each of `d` numbers, that a group asks for.
pub fn gather_rows(x: &[u32], tokens: &Vec<usize>, d: usize) -> (rows: Vec<u32>)
    requires
        forall|i: int|
            0 <= i < tokens@.len() ==> (#[trigger] tokens@[i] + 1) * d <= x@.len(),
    ensures
        rows@.len() == tokens@.len() * d,
        forall|i: int, c: int|
            0 <= i < tokens@.len() && 0 <= c < d ==> #[trigger] rows@[i * d + c] == x@[tokens@[i]
                * d + c],
{
    let size: usize = x.len();
    let m: usize = tokens.len();
    let mut rows: Vec<u32> = Vec::new();
    assert(0 * d == 0);
    for i in 0..m
        invariant
            size == x@.len(),
            m == tokens@.len(),
            rows@.len() == i * d,
            forall|i: int|
                0 <= i < tokens@.len() ==> (#[trigger] tokens@[i] + 1) * d <= x@.len(),
            forall|j: int, c: int|
                0 <= j < i && 0 <= c < d ==> #[trigger] rows@[j * d + c] == x@[tokens@[j] * d + c],
    {
        let t: usize = tokens[i];
        let ghost before = rows@;
        proof {
            assert((t + 1) * d <= size);
            assert((t + 1) * d == t * d + d && 0 <= t * d && (i + 1) * d == i * d + d)
                by (nonlinear_arith);
        }
        let at: usize = t * d;
        for c in 0..d
            invariant
                size == x@.len(),
                at + d <= size,
                rows@.len() == i * d + c,
                before.len() == i * d,
                forall|p: int| 0 <= p < before.len() ==> #[trigger] rows@[p] == before[p],
                forall|p: int| 0 <= p < c ==> #[trigger] rows@[i * d + p] == x@[at + p],
        {
            rows.push(x[at + c]);
        }
        proof {
            assert forall|j: int, c: int| 0 <= j < i + 1 && 0 <= c < d implies #[trigger] rows@[j
                * d + c] == x@[tokens@[j] * d + c] by {
                if j < i {
                    assert(j * d + c < i * d && 0 <= j * d) by (nonlinear_arith)
                        requires
                            0 <= j,
                            j + 1 <= i,
                            0 <= c < d,
                    ;
                    assert(before[j * d + c] == x@[tokens@[j] * d + c]);
                } else {
                    assert(rows@[i * d + c] == x@[at + c]);
                }
            }
        }
    }
    rows
}

/// The router fits the experts: one row of `d` numbers for each.
pub fn check_router(len: usize, experts: usize, d: usize) -> (fits: bool)
    ensures
        fits == (experts == 0 || len == experts * d),
{
    if experts == 0 {
        return true;
    }
    match experts.checked_mul(d) {
        Some(all) => len == all,
        None => false,
    }
}

/// How many weights the first `n` experts have.
pub open spec fn weight_count(experts: Seq<TernaryExpert>, n: nat) -> nat
    decreases n,
{
    if n == 0 {
        0
    } else {
        let e = experts[n - 1];
        weight_count(experts, (n - 1) as nat) + e.w_up@.len() + e.w_gate@.len() + e.w_down@.len()
            + e.bumps@.len()
    }
}

/// The weights of experts are those of each of them: its three matrices and its
/// bumps.
pub proof fn law_weights_add_up(experts: Seq<TernaryExpert>, n: nat)
    ensures
        weight_count(experts, n) == crate::hadamard::total(
            |i: int|
                (experts[i].w_up@.len() + experts[i].w_gate@.len() + experts[i].w_down@.len()
                    + experts[i].bumps@.len()) as int,
            0,
            n as int,
        ),
    decreases n,
{
    if n > 0 {
        law_weights_add_up(experts, (n - 1) as nat);
    }
}

proof fn lemma_weight_count_grows(experts: Seq<TernaryExpert>, a: nat, b: nat)
    requires
        a <= b,
    ensures
        weight_count(experts, a) <= weight_count(experts, b),
    decreases b,
{
    if a < b {
        lemma_weight_count_grows(experts, a, (b - 1) as nat);
    }
}

/// Counts the weights over which the penalty on their size is averaged.
pub fn expert_weight_count(experts: &Vec<TernaryExpert>) -> (count: usize)
    requires
        weight_count(experts@, experts@.len()) <= usize::MAX,
    ensures
        count == weight_count(experts@, experts@.len()),
{
    let n: usize = experts.len();
    let mut count: usize = 0;
    for i in 0..n
        invariant
            n == experts@.len(),
            count == weight_count(experts@, i as nat),
            weight_count(experts@, n as nat) <= usize::MAX,
    {
        proof {
            lemma_weight_count_grows(experts@, (i + 1) as nat, n as nat);
        }
        let e = &experts[i];
        count = count + e.w_up.len() + e.w_gate.len() + e.w_down.len() + e.bumps.len();
    }
    count
}

} // verus!
