//! The grid of a spline layer: where each coefficient stands, how the grid
//! grows by a knot, and how the backward pass walks over it.
//!
//! Real numbers are held by their bit patterns.
use vstd::prelude::*;
use crate::accelerate::MAX_G;
use crate::decode::{INFINITY_BITS, SIGN_BIT};
use crate::kan::KanError;

verus! {

/// Why a grid of `knots` knots with `widths` widths is turned away.
pub open spec fn regrid_error(packed: bool, phase: u8, knots: int, widths: int) -> Option<
    KanError,
> {
    if packed {
        Some(KanError::PackedGrid)
    } else if phase >= 3 {
        Some(KanError::FrozenGrid)
    } else if knots < 2 {
        Some(KanError::TooFewKnots)
    } else if knots > MAX_G {
        Some(KanError::GridCap)
    } else if widths != knots {
        Some(KanError::WidthLength)
    } else {
        None
    }
}

/// Checks a new grid of a layer. A packed layer keeps its grid, and from the
/// third phase on every layer does.
pub fn check_regrid(packed: bool, phase: u8, knots: usize, widths: usize) -> (checked: Result<
    (),
    KanError,
>)
    ensures
        match checked {
            Ok(_) => regrid_error(packed, phase, knots as int, widths as int) is None,
            Err(e) => regrid_error(packed, phase, knots as int, widths as int) == Some(e),
        },
{
    if packed {
        return Err(KanError::PackedGrid);
    }
    if phase >= 3 {
        return Err(KanError::FrozenGrid);
    }
    if knots < 2 {
        return Err(KanError::TooFewKnots);
    }
    if knots > MAX_G as usize {
        return Err(KanError::GridCap);
    }
    if widths != knots {
        return Err(KanError::WidthLength);
    }
    Ok(())
}

/// The score is a number above the least one.
pub open spec fn scored(bits: u32) -> bool {
    crate::expert::is_number(bits) && crate::decode::value_key(bits) > -(INFINITY_BITS as int)
}

/// Gap `i` is hotter than gap `j`: it has a score, and `j` has none or a lower
/// one.
pub open spec fn hotter(scores: Seq<u32>, i: int, j: int) -> bool {
    scored(scores[i]) && (!scored(scores[j]) || crate::decode::value_key(scores[i])
        > crate::decode::value_key(scores[j]))
}

/// The gap between two knots with the highest score; of several the first, and
/// the first of all when no gap has a score.
pub fn hottest_gap(scores: &[u32]) -> (gap: usize)
    ensures
        scores@.len() > 0 ==> gap < scores@.len(),
        scores@.len() == 0 ==> gap == 0,
        forall|j: int| 0 <= j < scores@.len() ==> !hotter(scores@, j, gap as int),
        forall|j: int| 0 <= j < gap ==> hotter(scores@, gap as int, j),
{
    let n: usize = scores.len();
    let mut best: usize = 0;
    let mut best_key: i64 = -(INFINITY_BITS as i64);
    for i in 0..n
        invariant
            n == scores@.len(),
            best < n || i == 0,
            best <= i,
            best == 0 || best < i,
            i > 0 && scored(scores@[best as int]) ==> best_key == crate::decode::value_key(
                scores@[best as int],
            ),
            i == 0 || !scored(scores@[best as int]) ==> best_key == -(INFINITY_BITS as int) && best
                == 0,
            forall|j: int| 0 <= j < i ==> !hotter(scores@, j, best as int),
            forall|j: int| 0 <= j < best ==> hotter(scores@, best as int, j),
    {
        let bits: u32 = scores[i];
        let negative = bits >= SIGN_BIT;
        let magnitude: u32 = if negative {
            bits - SIGN_BIT
        } else {
            bits
        };
        if magnitude <= INFINITY_BITS {
            let key: i64 = if negative {
                -(magnitude as i64)
            } else {
                magnitude as i64
            };
            if key > best_key {
                proof {
                    assert(scored(scores@[i as int]));
                    assert forall|j: int| 0 <= j < i implies hotter(scores@, i as int, j) by {
                        if scored(scores@[j]) {
                            assert(!hotter(scores@, j, best as int));
                        }
                    }
                }
                best = i;
                best_key = key;
            }
        }
        proof {
            assert forall|j: int| 0 <= j < i + 1 implies !hotter(scores@, j, best as int) by {
                if best == i && j < i {
                    assert(hotter(scores@, i as int, j));
                }
            }
        }
    }
    best
}

/// Puts a knot behind the knot `gap`.
pub fn insert_between(centers: &[u32], gap: usize, knot: u32) -> (grown: Vec<u32>)
    requires
        gap < centers@.len(),
    ensures
        grown@ == centers@.insert(gap + 1, knot),
{
    let n: usize = centers.len();
    let mut grown: Vec<u32> = Vec::new();
    for i in 0..n
        invariant
            gap < n == centers@.len(),
            grown@ == (if i <= gap {
                centers@.take(i as int)
            } else {
                centers@.take(i as int).insert(gap + 1, knot)
            }),
    {
        grown.push(centers[i]);
        if i == gap {
            grown.push(knot);
        }
        assert(grown@ =~= (if i + 1 <= gap {
            centers@.take(i + 1)
        } else {
            centers@.take(i + 1).insert(gap + 1, knot)
        }));
    }
    assert(centers@.take(n as int) =~= centers@);
    grown
}

/// Whether a layer of `n_basis` knots can take one more.
pub fn check_insert(n_basis: usize, knots: usize) -> (checked: Result<(), KanError>)
    ensures
        match checked {
            Ok(_) => n_basis < MAX_G && knots >= 2,
            Err(KanError::GridCap) => n_basis >= MAX_G,
            Err(KanError::TooFewKnots) => n_basis < MAX_G && knots < 2,
            Err(_) => false,
        },
{
    if n_basis >= MAX_G as usize {
        return Err(KanError::GridCap);
    }
    if knots < 2 {
        return Err(KanError::TooFewKnots);
    }
    Ok(())
}

/// The knots stand in order, and no two at one place.
pub open spec fn in_order(keys: Seq<int>) -> bool {
    forall|i: int, j: int| 0 <= i < j < keys.len() ==> keys[i] < keys[j]
}

/// A knot put between two neighbours keeps the knots in order.
pub proof fn law_an_inserted_knot_keeps_the_order(keys: Seq<int>, gap: int, knot: int)
    requires
        in_order(keys),
        0 <= gap < keys.len() - 1,
        keys[gap] < knot < keys[gap + 1],
    ensures
        in_order(keys.insert(gap + 1, knot)),
{
    let grown = keys.insert(gap + 1, knot);
    assert forall|i: int, j: int| 0 <= i < j < grown.len() implies grown[i] < grown[j] by {
        let a = if i <= gap {
            i
        } else {
            i - 1
        };
        let b = if j <= gap {
            j
        } else {
            j - 1
        };
        if i == gap + 1 {
            assert(grown[j] == keys[j - 1]);
        } else if j == gap + 1 {
            assert(grown[i] == keys[i]);
        } else {
            assert(grown[i] == keys[a] && grown[j] == keys[b]);
        }
    }
}

/// The coefficients of one expert along an edge: the shared ones, then its
/// routed ones, and zero where there are none.
pub open spec fn joined_at(
    shared: Seq<u32>,
    routed: Option<Seq<u32>>,
    expert: int,
    ns: int,
    nr: int,
    edges: int,
    edge: int,
    gi: int,
) -> u32 {
    if gi < ns {
        shared[edge * ns + gi]
    } else {
        match routed {
            Some(r) if gi - ns < nr => r[(expert * edges + edge) * nr + (gi - ns)],
            _ => 0,
        }
    }
}

proof fn lemma_edge(edge: int, edges: int, g: int)
    requires
        0 <= edge < edges,
        0 <= g,
    ensures
        0 <= edge * g,
        edge * g + g <= edges * g,
        (edge + 1) * g == edge * g + g,
{
    assert(0 <= edge * g && edge * g + g <= edges * g && (edge + 1) * g == edge * g + g)
        by (nonlinear_arith)
        requires
            0 <= edge,
            edge + 1 <= edges,
            0 <= g,
    ;
}

proof fn lemma_places_apart(a: int, x: int, b: int, y: int, g: int)
    requires
        0 <= x < g,
        0 <= y < g,
        a * g + x == b * g + y,
    ensures
        a == b,
        x == y,
{
    if a < b {
        assert(a * g + g <= b * g) by (nonlinear_arith)
            requires
                a + 1 <= b,
                g > 0,
        ;
    } else if b < a {
        assert(b * g + g <= a * g) by (nonlinear_arith)
            requires
                b + 1 <= a,
                g > 0,
        ;
    }
}

/// Puts the shared and the routed coefficients of an expert side by side, edge
/// by edge, over a grid of `g` knots.
pub fn concat_spline(
    shared: &[u32],
    routed: Option<&[u32]>,
    expert: usize,
    ns: usize,
    nr: usize,
    edges: usize,
    g: usize,
) -> (full: Vec<u32>)
    requires
        0 < ns <= g,
        edges * g <= usize::MAX,
        edges * ns <= shared@.len(),
        routed matches Some(r) ==> (expert + 1) * edges * nr <= r@.len() && (expert + 1) * edges
            <= usize::MAX,
    ensures
        full@.len() == edges * g,
        forall|edge: int, gi: int|
            0 <= edge < edges && 0 <= gi < g ==> #[trigger] full@[edge * g + gi] == joined_at(
                shared@,
                (match routed {
                    Some(r) => Some(r@),
                    None => None,
                }),
                expert as int,
                ns as int,
                nr as int,
                edges as int,
                edge,
                gi,
            ),
{
    let ghost rt: Option<Seq<u32>> = match routed {
        Some(r) => Some(r@),
        None => None,
    };
    let mut full: Vec<u32> = Vec::new();
    assert(0 * g == 0);
    for edge in 0..edges
        invariant
            0 < ns <= g,
            edges * g <= usize::MAX,
            edges * ns <= shared@.len(),
            rt == (match routed {
                Some(r) => Some(r@),
                None => None,
            }),
            routed matches Some(r) ==> (expert + 1) * edges * nr <= r@.len() && (expert + 1)
                * edges <= usize::MAX,
            full@.len() == edge * g,
            forall|e: int, gi: int|
                0 <= e < edge && 0 <= gi < g ==> #[trigger] full@[e * g + gi] == joined_at(
                    shared@,
                    rt,
                    expert as int,
                    ns as int,
                    nr as int,
                    edges as int,
                    e,
                    gi,
                ),
    {
        proof {
            lemma_edge(edge as int, edges as int, g as int);
            lemma_edge(edge as int, edges as int, ns as int);
        }
        let shared_len: usize = shared.len();
        let sh: usize = edge * ns;
        let ghost before = full@;
        for gi in 0..g
            invariant
                0 < ns <= g,
                edge < edges,
                edges * ns <= shared_len == shared@.len(),
                sh == edge * ns,
                sh + ns <= shared_len,
                rt == (match routed {
                    Some(r) => Some(r@),
                    None => None,
                }),
                routed matches Some(r) ==> (expert + 1) * edges * nr <= r@.len() && (expert + 1)
                    * edges <= usize::MAX,
                before.len() == edge * g,
                full@.len() == edge * g + gi,
                forall|p: int| 0 <= p < before.len() ==> #[trigger] full@[p] == before[p],
                forall|x: int|
                    0 <= x < gi ==> #[trigger] full@[edge * g + x] == joined_at(
                        shared@,
                        rt,
                        expert as int,
                        ns as int,
                        nr as int,
                        edges as int,
                        edge as int,
                        x,
                    ),
        {
            if gi < ns {
                full.push(shared[sh + gi]);
            } else {
                match routed {
                    Some(r) => {
                        if gi - ns < nr {
                            let size: usize = r.len();
                            proof {
                                lemma_edge(expert as int, expert + 1, edges as int);
                                let row = expert * edges + edge;
                                let all = (expert + 1) * edges;
                                lemma_edge(row, all, nr as int);
                            }
                            let row: usize = expert * edges + edge;
                            full.push(r[row * nr + (gi - ns)]);
                        } else {
                            full.push(0);
                        }
                    },
                    None => {
                        full.push(0);
                    },
                }
            }
        }
        proof {
            assert forall|e: int, gi: int| 0 <= e < edge + 1 && 0 <= gi < g implies #[trigger] full@[e
                * g + gi] == joined_at(
                shared@,
                rt,
                expert as int,
                ns as int,
                nr as int,
                edges as int,
                e,
                gi,
            ) by {
                if e < edge {
                    lemma_edge(e, edge as int, g as int);
                    assert(full@[e * g + gi] == before[e * g + gi]);
                }
            }
        }
    }
    full
}

/// Takes `len` coefficients of each edge from the knot `start` on out of a
/// grid of `g` knots.
pub fn spline_part(full: &[u32], edges: usize, g: usize, start: usize, len: usize) -> (part: Vec<
    u32,
>)
    requires
        start + len <= g,
        edges * g <= full@.len(),
    ensures
        part@.len() == edges * len,
        forall|edge: int, gi: int|
            0 <= edge < edges && 0 <= gi < len ==> #[trigger] part@[edge * len + gi] == full@[edge
                * g + start + gi],
{
    let size: usize = full.len();
    let mut part: Vec<u32> = Vec::new();
    assert(0 * len == 0);
    for edge in 0..edges
        invariant
            start + len <= g,
            edges * g <= size == full@.len(),
            part@.len() == edge * len,
            forall|e: int, gi: int|
                0 <= e < edge && 0 <= gi < len ==> #[trigger] part@[e * len + gi] == full@[e * g
                    + start + gi],
    {
        proof {
            lemma_edge(edge as int, edges as int, g as int);
            assert((edge + 1) * len == edge * len + len) by (nonlinear_arith);
        }
        let at: usize = edge * g + start;
        let ghost before = part@;
        for gi in 0..len
            invariant
                at == edge * g + start,
                at + len <= size == full@.len(),
                before.len() == edge * len,
                part@.len() == edge * len + gi,
                forall|p: int| 0 <= p < before.len() ==> #[trigger] part@[p] == before[p],
                forall|x: int|
                    0 <= x < gi ==> #[trigger] part@[edge * len + x] == full@[at + x],
        {
            part.push(full[at + gi]);
        }
        proof {
            assert forall|e: int, gi: int| 0 <= e < edge + 1 && 0 <= gi < len implies #[trigger] part@[e
                * len + gi] == full@[e * g + start + gi] by {
                if e < edge {
                    lemma_edge(e, edge as int, len as int);
                    assert(part@[e * len + gi] == before[e * len + gi]);
                } else {
                    assert(part@[edge * len + gi] == full@[at + gi]);
                }
            }
        }
    }
    part
}

/// Putting coefficients side by side and taking them apart again gives them
/// back: first the shared ones, then those of the expert.
pub proof fn law_parts_survive_joining(
    shared: Seq<u32>,
    routed: Seq<u32>,
    expert: int,
    ns: int,
    nr: int,
    edges: int,
    full: Seq<u32>,
    edge: int,
    gi: int,
)
    requires
        0 < ns,
        0 <= nr,
        0 <= edge < edges,
        forall|e: int, x: int|
            0 <= e < edges && 0 <= x < ns + nr ==> #[trigger] full[e * (ns + nr) + x] == joined_at(
                shared,
                Some(routed),
                expert,
                ns,
                nr,
                edges,
                e,
                x,
            ),
    ensures
        0 <= gi < ns ==> full[edge * (ns + nr) + gi] == shared[edge * ns + gi],
        0 <= gi < nr ==> full[edge * (ns + nr) + ns + gi] == routed[(expert * edges + edge) * nr
            + gi],
{
    if 0 <= gi < nr {
        assert(edge * (ns + nr) + ns + gi == edge * (ns + nr) + (ns + gi));
        assert(full[edge * (ns + nr) + (ns + gi)] == routed[(expert * edges + edge) * nr + gi]);
    }
}

/// Where the numbers of a layer stand in its tensors.
#[derive(Clone, Copy, Debug, PartialEq, Eq, Structural)]
pub struct SplineIndex {
    pub in_f: usize,
    pub out_f: usize,
    pub g: usize,
    pub gs: usize,
    pub gr: usize,
    pub k: usize,
}

impl SplineIndex {
    /// The tensors of the layer fit in memory, and the bumps are split in two.
    pub open spec fn wf(self) -> bool {
        &&& self.gs + self.gr == self.g
        &&& self.out_f * self.in_f <= usize::MAX
        &&& self.out_f * self.in_f * self.gs <= usize::MAX
        &&& self.k * (self.out_f * self.in_f) <= usize::MAX
        &&& self.k * (self.out_f * self.in_f) * self.gr <= usize::MAX
    }

    /// The layout of a layer, when its tensors fit in memory. Weights that are
    /// shared over the outputs are laid out as those of a single output.
    pub fn new(in_f: usize, out_f: usize, gs: usize, gr: usize, k: usize) -> (index: Option<Self>)
        ensures
            match index {
                Some(x) => x.wf() && x.in_f == in_f && x.out_f == out_f && x.gs == gs && x.gr == gr
                    && x.k == k,
                None => gs + gr > usize::MAX || !(SplineIndex {
                    in_f,
                    out_f,
                    g: (gs + gr) as usize,
                    gs,
                    gr,
                    k,
                }).wf(),
            },
    {
        let g: usize = match gs.checked_add(gr) {
            Some(g) => g,
            None => return None,
        };
        let edges: usize = match out_f.checked_mul(in_f) {
            Some(n) => n,
            None => return None,
        };
        let all: usize = match k.checked_mul(edges) {
            Some(n) => n,
            None => return None,
        };
        if edges.checked_mul(gs).is_none() || all.checked_mul(gr).is_none() {
            return None;
        }
        Some(SplineIndex { in_f, out_f, g, gs, gr, k })
    }

    /// The place of the edge from input `i` to output `o`.
    pub open spec fn edge(self, o: int, i: int) -> int {
        o * self.in_f + i
    }

    /// Where the value of a bump stands for a token of a tile of `tile` tokens.
    pub fn bump_at(&self, tile: usize, token: usize, i: usize, gi: usize) -> (at: usize)
        requires
            tile * self.in_f * self.g <= usize::MAX,
            tile * self.in_f <= usize::MAX,
            token < tile,
            i < self.in_f,
            gi < self.g,
        ensures
            at == (token * self.in_f + i) * self.g + gi,
            at < tile * self.in_f * self.g,
    {
        proof {
            lemma_edge(token as int, tile as int, self.in_f as int);
            lemma_edge(token * self.in_f + i, tile * self.in_f, self.g as int);
        }
        (token * self.in_f + i) * self.g + gi
    }

    /// Where the plain weight from input `i` to output `o` stands.
    pub fn base_at(&self, o: usize, i: usize) -> (at: usize)
        requires
            self.wf(),
            o < self.out_f,
            i < self.in_f,
        ensures
            at == self.edge(o as int, i as int),
            at < self.out_f * self.in_f,
    {
        proof {
            lemma_edge(o as int, self.out_f as int, self.in_f as int);
        }
        o * self.in_f + i
    }

    /// Where a shared coefficient stands.
    pub fn shared_at(&self, o: usize, i: usize, gi: usize) -> (at: usize)
        requires
            self.wf(),
            o < self.out_f,
            i < self.in_f,
            gi < self.gs,
        ensures
            at == self.edge(o as int, i as int) * self.gs + gi,
            at < self.out_f * self.in_f * self.gs,
    {
        let edge: usize = self.base_at(o, i);
        proof {
            lemma_edge(edge as int, self.out_f * self.in_f, self.gs as int);
        }
        edge * self.gs + gi
    }

    /// Where a routed coefficient of an expert stands.
    pub fn routed_at(&self, e: usize, o: usize, i: usize, gi: usize) -> (at: usize)
        requires
            self.wf(),
            e < self.k,
            o < self.out_f,
            i < self.in_f,
            gi < self.gr,
        ensures
            at == (e * (self.out_f * self.in_f) + self.edge(o as int, i as int)) * self.gr + gi,
            at < self.k * (self.out_f * self.in_f) * self.gr,
    {
        let edge: usize = self.base_at(o, i);
        let edges: usize = self.out_f * self.in_f;
        proof {
            lemma_edge(e as int, self.k as int, edges as int);
            lemma_edge(
                e * edges + edge,
                self.k * (self.out_f * self.in_f),
                self.gr as int,
            );
        }
        (e * edges + edge) * self.gr + gi
    }

    /// No two shared coefficients stand at one place.
    pub proof fn law_shared_coefficients_are_apart(
        self,
        o: int,
        i: int,
        gi: int,
        p: int,
        j: int,
        gj: int,
    )
        requires
            0 <= i < self.in_f,
            0 <= j < self.in_f,
            0 <= gi < self.gs,
            0 <= gj < self.gs,
            self.edge(o, i) * self.gs + gi == self.edge(p, j) * self.gs + gj,
        ensures
            o == p,
            i == j,
            gi == gj,
    {
        lemma_places_apart(self.edge(o, i), gi, self.edge(p, j), gj, self.gs as int);
        lemma_places_apart(o, i, p, j, self.in_f as int);
    }

    /// No two routed coefficients stand at one place.
    pub proof fn law_routed_coefficients_are_apart(
        self,
        e: int,
        o: int,
        i: int,
        gi: int,
        f: int,
        p: int,
        j: int,
        gj: int,
    )
        requires
            0 <= o < self.out_f,
            0 <= p < self.out_f,
            0 <= i < self.in_f,
            0 <= j < self.in_f,
            0 <= gi < self.gr,
            0 <= gj < self.gr,
            (e * (self.out_f * self.in_f) + self.edge(o, i)) * self.gr + gi == (f * (self.out_f
                * self.in_f) + self.edge(p, j)) * self.gr + gj,
        ensures
            e == f,
            o == p,
            i == j,
            gi == gj,
    {
        let edges = self.out_f * self.in_f;
        lemma_places_apart(
            e * edges + self.edge(o, i),
            gi,
            f * edges + self.edge(p, j),
            gj,
            self.gr as int,
        );
        lemma_edge(o, self.out_f as int, self.in_f as int);
        lemma_edge(p, self.out_f as int, self.in_f as int);
        lemma_places_apart(e, self.edge(o, i), f, self.edge(p, j), edges);
        lemma_places_apart(o, i, p, j, self.in_f as int);
    }
}

/// The bumps of one token: one for each input and knot, and at least one.
pub open spec fn bump_span(in_f: int, g: int) -> int {
    if in_f * g < 1 {
        1
    } else {
        in_f * g
    }
}

/// How many tokens' bumps fit into the scratch of the backward pass at once:
/// at least one, and no more than there are.
pub fn tile_tokens(scratch: usize, in_f: usize, g: usize, n: usize) -> (tokens: Result<
    usize,
    KanError,
>)
    ensures
        match tokens {
            Ok(t) => {
                &&& bump_span(in_f as int, g as int) <= scratch
                &&& t == (if scratch as int / bump_span(in_f as int, g as int) < n {
                    scratch as int / bump_span(in_f as int, g as int)
                } else {
                    crate::kan::one_or_more(n)
                })
                &&& t >= 1
                &&& t * bump_span(in_f as int, g as int) <= scratch
            },
            Err(e) => e == KanError::BumpTile && scratch < bump_span(in_f as int, g as int),
        },
{
    let span: usize = match in_f.checked_mul(g) {
        Some(s) => if s < 1 {
            1
        } else {
            s
        },
        None => return Err(KanError::BumpTile),
    };
    if scratch < span {
        return Err(KanError::BumpTile);
    }
    let room: usize = scratch / span;
    proof {
        let s = scratch as int;
        let p = span as int;
        let r = room as int;
        assert(r >= 1 && r * p <= s) by (nonlinear_arith)
            requires
                s >= p,
                p >= 1,
                r == s / p,
        ;
    }
    let least: usize = if n < 1 {
        1
    } else {
        n
    };
    let tokens: usize = if room < least {
        room
    } else {
        least
    };
    proof {
        let r = room as int;
        let t = tokens as int;
        let p = span as int;
        assert(t * p <= r * p) by (nonlinear_arith)
            requires
                t <= r,
                p >= 1,
        ;
    }
    Ok(tokens)
}

/// The end of the tile that starts at token `from`.
pub open spec fn end_of_tile(from: int, tile: int, n: int) -> int {
    if from + tile < n {
        from + tile
    } else {
        n
    }
}

/// The end of the tile that starts at token `from`.
pub fn tile_end(from: usize, tile: usize, n: usize) -> (to: usize)
    requires
        from < n,
        tile > 0,
    ensures
        to == end_of_tile(from as int, tile as int, n as int),
        from < to <= n,
        to - from <= tile,
{
    if tile < n - from {
        from + tile
    } else {
        n
    }
}

/// The tiles start at the multiples of their size, and each token lies in
/// exactly one.
pub proof fn law_tiles_cover_the_tokens(tile: int, n: int, token: int, i: int)
    requires
        tile > 0,
        0 <= token < n,
        0 <= i,
        i * tile < n,
    ensures
        (i * tile <= token < end_of_tile(i * tile, tile, n)) <==> i == token / tile,
{
    if i * tile <= token < i * tile + tile {
        vstd::arithmetic::div_mod::lemma_fundamental_div_mod_converse(
            token,
            tile,
            i,
            token - i * tile,
        );
    }
    vstd::arithmetic::div_mod::lemma_fundamental_div_mod(token, tile);
    assert(tile * (token / tile) == (token / tile) * tile) by (nonlinear_arith);
}

/// What the tiles from `from` on add up to.
pub open spec fn tiled_total(f: spec_fn(int) -> int, from: int, tile: int, n: int) -> int
    decreases n - from,
{
    if from >= n || tile <= 0 {
        0
    } else {
        let to = end_of_tile(from, tile, n);
        crate::hadamard::total(f, from, to) + tiled_total(f, to, tile, n)
    }
}

/// The size of the tiles does not matter: summing tile by tile gives the sum
/// over all tokens. The numbers are whole, so that nothing is rounded.
pub proof fn law_tiles_add_up(f: spec_fn(int) -> int, from: int, tile: int, n: int)
    requires
        tile > 0,
        from <= n,
    ensures
        tiled_total(f, from, tile, n) == crate::hadamard::total(f, from, n),
    decreases n - from,
{
    if from < n {
        let to = end_of_tile(from, tile, n);
        law_tiles_add_up(f, to, tile, n);
        crate::hadamard::lemma_total_splits(f, from, to, n);
    }
}

/// A layer takes a new grid while it is neither packed nor in its third phase or
/// beyond, and the grid has two to sixteen knots with a width for each.
pub proof fn law_admitted_grids(packed: bool, phase: u8, knots: int, widths: int)
    ensures
        regrid_error(packed, phase, knots, widths) is None <==> !packed && phase <= 2 && 2 <= knots
            <= 16 && widths == knots,
{
}

/// A gap is hotter than another by its score as a number; a score that is no
/// number, or the least of all, is no score.
pub proof fn law_hotter_gaps_have_higher_scores(scores: Seq<u32>, i: int, j: int)
    ensures
        scored(scores[i]) <==> scores[i] <= 0x7f80_0000 || 0x8000_0000 <= scores[i] < 0xff80_0000,
        hotter(scores, i, j) ==> !hotter(scores, j, i),
        scores[i] < 0x7f80_0000 && scores[j] < scores[i] ==> hotter(scores, i, j),
        scores[i] < 0x7f80_0000 && 0x8000_0000 < scores[j] < 0xff80_0000 ==> hotter(scores, i, j),
{
}

/// The bumps of a token are one for each input and knot.
pub proof fn law_a_bump_for_each_input_and_knot(in_f: int, g: int)
    requires
        0 <= in_f,
        0 <= g,
    ensures
        in_f > 0 && g > 0 ==> bump_span(in_f, g) == in_f * g,
        bump_span(in_f, g) >= 1,
{
    assert(in_f > 0 && g > 0 ==> in_f * g >= 1) by (nonlinear_arith);
}

/// The edges lie in order: those into an output side by side, by their inputs,
/// and the outputs one after the other.
pub proof fn law_edges_lie_in_order(index: SplineIndex, o: int, i: int)
    ensures
        index.edge(0, 0) == 0,
        index.edge(o, i + 1) == index.edge(o, i) + 1,
        index.edge(o + 1, 0) == index.edge(o, index.in_f as int),
{
    let n = index.in_f as int;
    assert(0 * n == 0);
    assert((o + 1) * n == o * n + n) by (nonlinear_arith);
}

} // verus!
