//! Folding the partial gradients of a fused backward launch into the gradients
//! of the layer: which run of numbers is added where.
use vstd::prelude::*;
use crate::accelerate::{BwdPartialLayout, MobKanSpec};

verus! {

/// What a run of partial gradients is added to.
#[derive(Clone, Copy, Debug, PartialEq, Eq, Structural)]
pub enum Gradient {
    Base,
    ScaleBase,
    Shared,
    ScaleShared,
    Routed,
    ScaleRouted,
    Input,
    Centers,
    /// The weights of the experts.
    Mix,
}

/// Numbers `from .. from + len` of the partials are added, one by one, to the
/// numbers from `to` on of a gradient.
#[derive(Clone, Copy, Debug, PartialEq, Eq, Structural)]
pub struct Fold {
    pub gradient: Gradient,
    pub from: usize,
    pub to: usize,
    pub len: usize,
}

/// The partials hold fewer numbers than their layout.
#[derive(Clone, Copy, Debug, PartialEq, Eq, Structural)]
pub struct ShortPartials {
    pub found: usize,
    pub expected: usize,
}

/// One in-tile of a launch.
#[derive(Clone, Copy, Debug, PartialEq, Eq, Structural)]
pub struct InTile {
    pub spec: MobKanSpec,
    pub layout: BwdPartialLayout,
    /// The first input of the tile.
    pub in0: usize,
    /// How many inputs it has.
    pub tin: usize,
}

/// A run of partials: that of a token tile, an output tile, and a row in them.
pub enum Place {
    Base { nt: int, ot: int, lo: int },
    ScaleBase { nt: int, ot: int, lo: int },
    Shared { nt: int, ot: int },
    ScaleShared { nt: int, ot: int },
    Routed { nt: int, ot: int, e: int },
    ScaleRouted { nt: int, ot: int, e: int },
    Input { nt: int, ot: int, lt: int },
    Centers { nt: int, ot: int },
    Mix { nt: int, ot: int, lt: int, lo: int },
}

/// The part of a tile that lies within `total`.
pub open spec fn within(total: int, tile: int, index: int) -> int {
    let left = total - index * tile;
    if left <= 0 {
        0
    } else if left < tile {
        left
    } else {
        tile
    }
}

impl InTile {
    /// A checked layer, its layout, and a tile of its inputs; the gradients
    /// fit in memory.
    pub open spec fn wf(self) -> bool {
        &&& self.spec.error() is None
        &&& self.layout.lays_out(self.spec)
        &&& self.tin <= self.spec.tile_in
        &&& self.in0 + self.tin <= self.spec.in_f
        &&& self.gradient_len(Gradient::Base) <= usize::MAX
        &&& self.gradient_len(Gradient::Shared) <= usize::MAX
        &&& self.gradient_len(Gradient::Routed) <= usize::MAX
        &&& self.gradient_len(Gradient::ScaleRouted) <= usize::MAX
        &&& self.gradient_len(Gradient::Input) <= usize::MAX
        &&& self.gradient_len(Gradient::Mix) <= usize::MAX
    }

    /// How many numbers a gradient has.
    pub open spec fn gradient_len(self, gradient: Gradient) -> int {
        let s = self.spec;
        match gradient {
            Gradient::Base => s.out_f * s.in_f,
            Gradient::ScaleBase => s.out_f as int,
            Gradient::Shared => s.in_f * s.gs,
            Gradient::ScaleShared => s.in_f as int,
            Gradient::Routed => s.k * s.in_f * s.gr,
            Gradient::ScaleRouted => s.k * s.in_f,
            Gradient::Input => s.n * s.in_f,
            Gradient::Centers => s.g as int,
            Gradient::Mix => s.n * s.k,
        }
    }

    /// The tokens of a token tile.
    pub open spec fn tokens(self, nt: int) -> int {
        within(self.spec.n as int, self.spec.n_tile as int, nt)
    }

    /// The outputs of an output tile.
    pub open spec fn outputs(self, ot: int) -> int {
        within(self.spec.out_f as int, self.spec.out_tile as int, ot)
    }

    /// The launch writes this run.
    pub open spec fn writes(self, place: Place) -> bool {
        let routed = !self.spec.routed_masked();
        let (nt, ot) = tiles_of(place);
        &&& 0 <= nt < self.layout.n_tiles
        &&& 0 <= ot < self.layout.out_tiles
        &&& match place {
            Place::Base { lo, .. } => 0 <= lo < self.outputs(ot),
            Place::ScaleBase { lo, .. } => 0 <= lo < self.outputs(ot),
            Place::Routed { e, .. } => routed && 0 <= e < self.spec.k,
            Place::ScaleRouted { e, .. } => routed && 0 <= e < self.spec.k,
            Place::Input { lt, .. } => 0 <= lt < self.tokens(nt),
            Place::Mix { lt, lo, .. } => routed && 0 <= lt < self.tokens(nt) && 0 <= lo
                < self.spec.out_tile,
            _ => true,
        }
    }

    /// Which of the nine regions a run lies in, and in which row of it.
    pub open spec fn row(self, place: Place) -> (int, int) {
        let s = self.spec;
        let (nt, ot) = tiles_of(place);
        let group = self.layout.group(nt, ot);
        match place {
            Place::Base { lo, .. } => (0, group * s.out_tile + lo),
            Place::Shared { .. } => (1, group),
            Place::Routed { e, .. } => (2, group * self.layout.k + e),
            Place::Input { lt, .. } => (3, group * s.n_tile + lt),
            Place::ScaleBase { lo, .. } => (4, group * s.out_tile + lo),
            Place::ScaleShared { .. } => (5, group),
            Place::ScaleRouted { e, .. } => (6, group * self.layout.k + e),
            Place::Centers { .. } => (7, group),
            Place::Mix { lt, lo, .. } => (8, (group * s.n_tile + lt) * s.out_tile + lo),
        }
    }

    /// Where a region starts.
    pub open spec fn start(self, region: int) -> int {
        if region == 0 {
            self.layout.off_base as int
        } else if region == 1 {
            self.layout.off_shared as int
        } else if region == 2 {
            self.layout.off_routed as int
        } else if region == 3 {
            self.layout.off_dx as int
        } else if region == 4 {
            self.layout.off_dsb as int
        } else if region == 5 {
            self.layout.off_dss as int
        } else if region == 6 {
            self.layout.off_dsr as int
        } else if region == 7 {
            self.layout.off_dc as int
        } else if region == 8 {
            self.layout.off_dg as int
        } else {
            self.layout.floats as int
        }
    }

    /// The width of a region's rows.
    pub open spec fn width(self, region: int) -> int {
        let tin = self.spec.tile_in as int;
        if region == 1 {
            tin * self.layout.gs
        } else if region == 2 {
            tin * self.layout.gr
        } else if region == 4 {
            1
        } else if region == 7 {
            self.spec.g as int
        } else if region == 8 {
            self.layout.k as int
        } else {
            tin
        }
    }

    /// How many rows a region has.
    pub open spec fn rows(self, region: int) -> int {
        let groups = self.spec.token_tiles() * self.spec.output_tiles();
        if region == 0 || region == 4 {
            groups * self.spec.out_tile
        } else if region == 2 || region == 6 {
            groups * self.layout.k
        } else if region == 3 {
            groups * self.spec.n_tile
        } else if region == 8 {
            groups * self.spec.n_tile * self.spec.out_tile
        } else {
            groups
        }
    }

    /// What a run is added to, and where.
    pub open spec fn target(self, place: Place) -> (Gradient, int, int) {
        let s = self.spec;
        let (in0, tin) = (self.in0 as int, self.tin as int);
        let (nt, ot) = tiles_of(place);
        let token = nt * s.n_tile;
        let output = ot * s.out_tile;
        match place {
            Place::Base { lo, .. } => (Gradient::Base, (output + lo) * s.in_f + in0, tin),
            Place::ScaleBase { lo, .. } => (Gradient::ScaleBase, output + lo, 1),
            Place::Shared { .. } => (Gradient::Shared, in0 * s.gs, tin * s.gs),
            Place::ScaleShared { .. } => (Gradient::ScaleShared, in0, tin),
            Place::Routed { e, .. } => (
                Gradient::Routed,
                (e * s.in_f + in0) * s.gr,
                tin * s.gr,
            ),
            Place::ScaleRouted { e, .. } => (Gradient::ScaleRouted, e * s.in_f + in0, tin),
            Place::Input { lt, .. } => (Gradient::Input, (token + lt) * s.in_f + in0, tin),
            Place::Centers { .. } => (Gradient::Centers, 0, s.g as int),
            Place::Mix { lt, .. } => (Gradient::Mix, (token + lt) * s.k, s.k as int),
        }
    }

    /// Where a run starts among the partials.
    pub open spec fn from(self, place: Place) -> int {
        let (region, row) = self.row(place);
        self.start(region) + row * self.width(region)
    }

    /// How a run is folded.
    pub open spec fn fold(self, place: Place) -> Fold {
        let (gradient, to, len) = self.target(place);
        Fold { gradient, from: self.from(place) as usize, to: to as usize, len: len as usize }
    }

    /// How some runs are folded.
    pub open spec fn folds(self, places: Seq<Place>) -> Seq<Fold> {
        Seq::new(places.len(), |i: int| self.fold(places[i]))
    }

    /// The rows of an output tile, up to `n` of them.
    pub open spec fn base_places(self, nt: int, ot: int, n: int) -> Seq<Place>
        decreases n,
    {
        if n <= 0 {
            Seq::empty()
        } else {
            self.base_places(nt, ot, n - 1).push(Place::Base { nt, ot, lo: n - 1 }).push(
                Place::ScaleBase { nt, ot, lo: n - 1 },
            )
        }
    }

    /// The experts of a group, up to `n` of them.
    pub open spec fn expert_places(self, nt: int, ot: int, n: int) -> Seq<Place>
        decreases n,
    {
        if n <= 0 {
            Seq::empty()
        } else {
            self.expert_places(nt, ot, n - 1).push(Place::Routed { nt, ot, e: n - 1 }).push(
                Place::ScaleRouted { nt, ot, e: n - 1 },
            )
        }
    }

    /// The tokens of a group, up to `n` of them.
    pub open spec fn input_places(self, nt: int, ot: int, n: int) -> Seq<Place>
        decreases n,
    {
        if n <= 0 {
            Seq::empty()
        } else {
            self.input_places(nt, ot, n - 1).push(Place::Input { nt, ot, lt: n - 1 })
        }
    }

    /// The runs of one threadgroup.
    pub open spec fn group_places(self, nt: int, ot: int) -> Seq<Place> {
        let experts = if self.spec.routed_masked() {
            Seq::empty()
        } else {
            self.expert_places(nt, ot, self.spec.k as int)
        };
        (self.base_places(nt, ot, self.outputs(ot)).push(Place::Shared { nt, ot }).push(
            Place::ScaleShared { nt, ot },
        ) + experts + self.input_places(nt, ot, self.tokens(nt))).push(Place::Centers { nt, ot })
    }

    /// The runs of a token tile, up to `n` output tiles.
    pub open spec fn tile_places(self, nt: int, n: int) -> Seq<Place>
        decreases n,
    {
        if n <= 0 {
            Seq::empty()
        } else {
            self.tile_places(nt, n - 1) + self.group_places(nt, n - 1)
        }
    }

    /// The runs of the launch, up to `n` token tiles.
    pub open spec fn places(self, n: int) -> Seq<Place>
        decreases n,
    {
        if n <= 0 {
            Seq::empty()
        } else {
            self.places(n - 1) + self.tile_places(n - 1, self.layout.out_tiles as int)
        }
    }
}

/// The token tile and the output tile of a run.
pub open spec fn tiles_of(place: Place) -> (int, int) {
    match place {
        Place::Base { nt, ot, .. } => (nt, ot),
        Place::ScaleBase { nt, ot, .. } => (nt, ot),
        Place::Shared { nt, ot } => (nt, ot),
        Place::ScaleShared { nt, ot } => (nt, ot),
        Place::Routed { nt, ot, .. } => (nt, ot),
        Place::ScaleRouted { nt, ot, .. } => (nt, ot),
        Place::Input { nt, ot, .. } => (nt, ot),
        Place::Centers { nt, ot } => (nt, ot),
        Place::Mix { nt, ot, .. } => (nt, ot),
    }
}

proof fn lemma_pair(a: int, all: int, b: int, width: int)
    requires
        0 <= a < all,
        0 <= b < width,
    ensures
        0 <= a * width + b < all * width,
        a * width >= 0,
{
    assert(0 <= a * width && a * width + b < all * width) by (nonlinear_arith)
        requires
            0 <= a < all,
            0 <= b < width,
    ;
}

proof fn lemma_same_pair(a: int, b: int, c: int, d: int, width: int)
    requires
        0 <= b < width,
        0 <= d < width,
        a * width + b == c * width + d,
    ensures
        a == c,
        b == d,
{
    assert(a < c ==> a * width + b < c * width + d) by (nonlinear_arith)
        requires
            0 <= b < width,
            0 <= d,
    ;
    assert(c < a ==> c * width + d < a * width + b) by (nonlinear_arith)
        requires
            0 <= d < width,
            0 <= b,
    ;
}

proof fn lemma_row_end(row: int, rows: int, width: int)
    requires
        0 <= row < rows,
        width >= 0,
    ensures
        0 <= row * width,
        row * width + width <= rows * width,
{
    assert(0 <= row * width && row * width + width <= rows * width) by (nonlinear_arith)
        requires
            0 <= row < rows,
            width >= 0,
    ;
}

impl InTile {
    /// The regions follow one another, and each is its rows one behind the
    /// other.
    proof fn lemma_regions(self)
        requires
            self.wf(),
        ensures
            forall|r: int|
                0 <= r < 9 ==> #[trigger] self.start(r) + self.rows(r) * self.width(r)
                    == self.start(r + 1),
            forall|r: int| 0 <= r < 9 ==> #[trigger] self.width(r) >= 1,
            forall|r: int| 0 <= r < 9 ==> #[trigger] self.rows(r) >= 0,
            forall|r: int, s: int|
                0 <= r <= s <= 9 ==> #[trigger] self.start(r) <= #[trigger] self.start(s),
    {
        let spec = self.spec;
        crate::accelerate::law_regions_tile_the_slab(self.layout, spec);
        let sizes = crate::accelerate::region_sizes(spec);
        let groups = spec.token_tiles() * spec.output_tiles();
        let tin = spec.tile_in as int;
        let ot = spec.out_tile as int;
        let nt = spec.n_tile as int;
        let gs = self.layout.gs as int;
        let gr = self.layout.gr as int;
        let k = self.layout.k as int;
        let g = spec.g as int;
        assert(groups >= 0) by {
            let a = self.layout.n_tiles as int;
            let b = self.layout.out_tiles as int;
            assert(a * b >= 0) by (nonlinear_arith)
                requires
                    a >= 0,
                    b >= 0,
            ;
        }
        assert(groups * (tin * gs) == groups * tin * gs) by (nonlinear_arith);
        assert((groups * k) * (tin * gr) == groups * k * tin * gr) by (nonlinear_arith);
        assert(groups * ot * 1 == groups * ot) by (nonlinear_arith);
        assert(tin * gs >= 1 && tin * gr >= 1) by (nonlinear_arith)
            requires
                tin >= 1,
                gs >= 1,
                gr >= 1,
        ;
        assert(groups * ot >= 0 && groups * k >= 0 && groups * nt >= 0) by (nonlinear_arith)
            requires
                groups >= 0,
                ot >= 0,
                k >= 0,
                nt >= 0,
        ;
        let gn = groups * nt;
        assert(gn * ot >= 0) by (nonlinear_arith)
            requires
                gn >= 0,
                ot >= 0,
        ;
        assert forall|r: int| 0 <= r < 9 implies #[trigger] self.start(r) + self.rows(r)
            * self.width(r) == self.start(r + 1) by {
            assert(sizes[0] == groups * ot * tin);
            assert(sizes[1] == groups * tin * gs);
            assert(sizes[2] == groups * k * tin * gr);
            assert(sizes[3] == groups * nt * tin);
            assert(sizes[4] == groups * ot);
            assert(sizes[5] == groups * tin);
            assert(sizes[6] == groups * k * tin);
            assert(sizes[7] == groups * g);
            assert(sizes[8] == groups * nt * ot * k);
        }
        assert(sizes[0] >= 0 && sizes[1] >= 0 && sizes[2] >= 0 && sizes[3] >= 0 && sizes[4] >= 0
            && sizes[5] >= 0 && sizes[6] >= 0 && sizes[7] >= 0 && sizes[8] >= 0);
    }

    proof fn lemma_row_counts(self, place: Place)
        requires
            self.wf(),
            self.writes(place),
        ensures
            0 <= self.row(place).0 < 9,
            0 <= self.row(place).1 < self.rows(self.row(place).0),
    {
        let spec = self.spec;
        let (nt, ot) = tiles_of(place);
        crate::accelerate::law_threadgroups_are_distinct(self.layout, nt, ot, nt, ot);
        let group = self.layout.group(nt, ot);
        let groups = spec.token_tiles() * spec.output_tiles();
        match place {
            Place::Base { lo, .. } => {
                lemma_pair(group, groups, lo, spec.out_tile as int);
            },
            Place::ScaleBase { lo, .. } => {
                lemma_pair(group, groups, lo, spec.out_tile as int);
            },
            Place::Routed { e, .. } => {
                lemma_pair(group, groups, e, self.layout.k as int);
            },
            Place::ScaleRouted { e, .. } => {
                lemma_pair(group, groups, e, self.layout.k as int);
            },
            Place::Input { lt, .. } => {
                lemma_pair(group, groups, lt, spec.n_tile as int);
            },
            Place::Mix { lt, lo, .. } => {
                lemma_pair(group, groups, lt, spec.n_tile as int);
                lemma_pair(
                    group * spec.n_tile + lt,
                    groups * spec.n_tile,
                    lo,
                    spec.out_tile as int,
                );
            },
            _ => {},
        }
    }

    proof fn lemma_target_fits(self, place: Place)
        requires
            self.wf(),
            self.writes(place),
        ensures
            ({
                let (gradient, to, len) = self.target(place);
                0 <= to && 0 <= len && to + len <= self.gradient_len(gradient) && len
                    <= self.width(self.row(place).0)
            }),
    {
        let s = self.spec;
        let (in0, tin) = (self.in0 as int, self.tin as int);
        let (nt, ot) = tiles_of(place);
        let in_f = s.in_f as int;
        let tile = s.tile_in as int;
        assert(nt * s.n_tile >= 0 && ot * s.out_tile >= 0) by (nonlinear_arith)
            requires
                nt >= 0,
                ot >= 0,
        ;
        match place {
            Place::Base { lo, .. } => {
                let o = ot * s.out_tile + lo;
                lemma_row_end(o, s.out_f as int, in_f);
            },
            Place::Shared { .. } => {
                let gs = s.gs as int;
                assert(in0 * gs >= 0 && tin * gs >= 0 && in0 * gs + tin * gs <= in_f * gs && tin
                    * gs <= tile * gs) by (nonlinear_arith)
                    requires
                        in0 >= 0,
                        0 <= tin <= tile,
                        in0 + tin <= in_f,
                        gs >= 0,
                ;
            },
            Place::Routed { e, .. } => {
                let gr = s.gr as int;
                let k = s.k as int;
                lemma_row_end(e, k, in_f);
                let a = e * in_f + in0;
                let all = k * in_f;
                assert(a * gr >= 0 && tin * gr >= 0 && a * gr + tin * gr <= all * gr && tin * gr
                    <= tile * gr) by (nonlinear_arith)
                    requires
                        a >= 0,
                        0 <= tin <= tile,
                        a + tin <= all,
                        gr >= 0,
                ;
            },
            Place::ScaleRouted { e, .. } => {
                lemma_row_end(e, s.k as int, in_f);
            },
            Place::Input { lt, .. } => {
                lemma_row_end(nt * s.n_tile + lt, s.n as int, in_f);
            },
            Place::Mix { lt, .. } => {
                lemma_row_end(nt * s.n_tile + lt, s.n as int, s.k as int);
            },
            _ => {},
        }
    }

    /// Every run lies within the partials, and what it is added to within its
    /// gradient.
    pub proof fn law_folds_stay_in_bounds(self, place: Place)
        requires
            self.wf(),
            self.writes(place),
        ensures
            ({
                let fold = self.fold(place);
                let (gradient, to, len) = self.target(place);
                &&& fold.from == self.from(place) && fold.to == to && fold.len == len
                &&& fold.from + fold.len <= self.layout.floats
                &&& fold.to + fold.len <= self.gradient_len(gradient)
            }),
    {
        self.lemma_regions();
        self.lemma_row_counts(place);
        self.lemma_target_fits(place);
        let (region, row) = self.row(place);
        lemma_row_end(row, self.rows(region), self.width(region));
        assert(self.start(region) + self.rows(region) * self.width(region) == self.start(
            region + 1,
        ));
        assert(self.start(region + 1) <= self.start(9));
        assert(0 <= self.start(0) <= self.start(region));
        let (gradient, to, len) = self.target(place);
        assert(self.gradient_len(gradient) <= usize::MAX);
    }

    /// No partial is folded twice: two different runs do not overlap.
    pub proof fn law_runs_do_not_overlap(self, a: Place, b: Place)
        requires
            self.wf(),
            self.writes(a),
            self.writes(b),
            a != b,
        ensures
            self.fold(a).from + self.fold(a).len <= self.fold(b).from || self.fold(b).from
                + self.fold(b).len <= self.fold(a).from,
    {
        self.law_folds_stay_in_bounds(a);
        self.law_folds_stay_in_bounds(b);
        self.lemma_target_fits(a);
        self.lemma_target_fits(b);
        self.lemma_regions();
        self.lemma_row_counts(a);
        self.lemma_row_counts(b);
        let (ra, rowa) = self.row(a);
        let (rb, rowb) = self.row(b);
        lemma_row_end(rowa, self.rows(ra), self.width(ra));
        lemma_row_end(rowb, self.rows(rb), self.width(rb));
        assert(self.start(ra) + self.rows(ra) * self.width(ra) == self.start(ra + 1));
        assert(self.start(rb) + self.rows(rb) * self.width(rb) == self.start(rb + 1));
        if ra < rb {
            assert(self.start(ra + 1) <= self.start(rb));
        } else if rb < ra {
            assert(self.start(rb + 1) <= self.start(ra));
        } else if rowa < rowb {
            crate::accelerate::law_rows_are_apart(
                self.start(ra),
                self.width(ra),
                self.rows(ra),
                rowa,
                rowb,
            );
        } else if rowb < rowa {
            crate::accelerate::law_rows_are_apart(
                self.start(ra),
                self.width(ra),
                self.rows(ra),
                rowb,
                rowa,
            );
        } else {
            self.lemma_same_row(a, b);
        }
    }

    proof fn lemma_same_row(self, a: Place, b: Place)
        requires
            self.wf(),
            self.writes(a),
            self.writes(b),
            self.row(a) == self.row(b),
        ensures
            a == b,
    {
        let s = self.spec;
        let (nt, ot) = tiles_of(a);
        let (mt, pt) = tiles_of(b);
        let ga = self.layout.group(nt, ot);
        let gb = self.layout.group(mt, pt);
        crate::accelerate::law_threadgroups_are_distinct(self.layout, nt, ot, mt, pt);
        match (a, b) {
            (Place::Base { lo, .. }, Place::Base { lo: other, .. }) => {
                lemma_same_pair(ga, lo, gb, other, s.out_tile as int);
            },
            (Place::ScaleBase { lo, .. }, Place::ScaleBase { lo: other, .. }) => {
                lemma_same_pair(ga, lo, gb, other, s.out_tile as int);
            },
            (Place::Routed { e, .. }, Place::Routed { e: other, .. }) => {
                lemma_same_pair(ga, e, gb, other, self.layout.k as int);
            },
            (Place::ScaleRouted { e, .. }, Place::ScaleRouted { e: other, .. }) => {
                lemma_same_pair(ga, e, gb, other, self.layout.k as int);
            },
            (Place::Input { lt, .. }, Place::Input { lt: other, .. }) => {
                lemma_same_pair(ga, lt, gb, other, s.n_tile as int);
            },
            (Place::Mix { lt, lo, .. }, Place::Mix { lt: other, lo: third, .. }) => {
                lemma_same_pair(
                    ga * s.n_tile + lt,
                    lo,
                    gb * s.n_tile + other,
                    third,
                    s.out_tile as int,
                );
                lemma_same_pair(ga, lt, gb, other, s.n_tile as int);
            },
            _ => {},
        }
    }
}

/// A run of partials, by whole numbers.
#[derive(Clone, Copy, Debug, PartialEq, Eq, Structural)]
pub enum Run {
    Base { nt: usize, ot: usize, lo: usize },
    ScaleBase { nt: usize, ot: usize, lo: usize },
    Shared { nt: usize, ot: usize },
    ScaleShared { nt: usize, ot: usize },
    Routed { nt: usize, ot: usize, e: usize },
    ScaleRouted { nt: usize, ot: usize, e: usize },
    Input { nt: usize, ot: usize, lt: usize },
    Centers { nt: usize, ot: usize },
    Mix { nt: usize, ot: usize, lt: usize, lo: usize },
}

impl View for Run {
    type V = Place;

    open spec fn view(&self) -> Place {
        match *self {
            Run::Base { nt, ot, lo } => Place::Base {
                nt: nt as int,
                ot: ot as int,
                lo: lo as int,
            },
            Run::ScaleBase { nt, ot, lo } => Place::ScaleBase {
                nt: nt as int,
                ot: ot as int,
                lo: lo as int,
            },
            Run::Shared { nt, ot } => Place::Shared { nt: nt as int, ot: ot as int },
            Run::ScaleShared { nt, ot } => Place::ScaleShared { nt: nt as int, ot: ot as int },
            Run::Routed { nt, ot, e } => Place::Routed {
                nt: nt as int,
                ot: ot as int,
                e: e as int,
            },
            Run::ScaleRouted { nt, ot, e } => Place::ScaleRouted {
                nt: nt as int,
                ot: ot as int,
                e: e as int,
            },
            Run::Input { nt, ot, lt } => Place::Input {
                nt: nt as int,
                ot: ot as int,
                lt: lt as int,
            },
            Run::Centers { nt, ot } => Place::Centers { nt: nt as int, ot: ot as int },
            Run::Mix { nt, ot, lt, lo } => Place::Mix {
                nt: nt as int,
                ot: ot as int,
                lt: lt as int,
                lo: lo as int,
            },
        }
    }
}

impl InTile {
    proof fn lemma_rows_small(self, place: Place)
        requires
            self.wf(),
            self.writes(place),
        ensures
            ({
                let (nt, ot) = tiles_of(place);
                let group = self.layout.group(nt, ot);
                let (region, row) = self.row(place);
                &&& 0 <= group <= usize::MAX
                &&& group <= row
                &&& row <= usize::MAX
                &&& 0 <= row * self.width(region)
                &&& self.start(region) + row * self.width(region) <= usize::MAX
            }),
    {
        self.law_folds_stay_in_bounds(place);
        self.lemma_regions();
        self.lemma_row_counts(place);
        let (nt, ot) = tiles_of(place);
        let (region, row) = self.row(place);
        let width = self.width(region);
        lemma_row_end(row, self.rows(region), width);
        assert(row <= row * width) by (nonlinear_arith)
            requires
                row >= 0,
                width >= 1,
        ;
        assert(self.start(region) + self.rows(region) * width == self.start(region + 1));
        assert(self.start(region + 1) <= self.start(9));
        assert(0 <= self.start(0) <= self.start(region));
        crate::accelerate::law_threadgroups_are_distinct(self.layout, nt, ot, nt, ot);
        let group = self.layout.group(nt, ot);
        let t = self.spec.out_tile as int;
        let n = self.spec.n_tile as int;
        let k = self.layout.k as int;
        assert(group <= group * t && group <= group * n && group <= group * k && 0 <= group * n)
            by (nonlinear_arith)
            requires
                group >= 0,
                t >= 1,
                n >= 1,
                k >= 1,
        ;
        if let Place::Mix { lt, lo, .. } = place {
            let a = group * n + lt;
            assert(a <= a * t) by (nonlinear_arith)
                requires
                    a >= 0,
                    t >= 1,
            ;
        }
    }

    /// How a run is folded.
    #[verifier::rlimit(40)]
    pub fn fold_run(&self, run: Run) -> (fold: Fold)
        requires
            self.wf(),
            self.writes(run@),
        ensures
            fold == self.fold(run@),
            fold.from + fold.len <= self.layout.floats,
            fold.to + fold.len <= self.gradient_len(fold.gradient),
    {
        proof {
            self.law_folds_stay_in_bounds(run@);
            self.lemma_rows_small(run@);
            self.lemma_target_fits(run@);
        }
        let in_f: usize = self.spec.in_f as usize;
        let out_tile: usize = self.spec.out_tile as usize;
        let n_tile: usize = self.spec.n_tile as usize;
        let (in0, tin): (usize, usize) = (self.in0, self.tin);
        match run {
            Run::Base { nt, ot, lo } => {
                let group: usize = self.layout.tg_index(nt, ot);
                let row: usize = group * out_tile + lo;
                proof {
                    self.lemma_output(ot as int, lo as int);
                }
                let o: usize = ot * out_tile + lo;
                Fold {
                    gradient: Gradient::Base,
                    from: self.layout.off_base + row * self.layout.tin,
                    to: o * in_f + in0,
                    len: tin,
                }
            },
            Run::ScaleBase { nt, ot, lo } => {
                let group: usize = self.layout.tg_index(nt, ot);
                let row: usize = group * out_tile + lo;
                proof {
                    self.lemma_output(ot as int, lo as int);
                    assert(row * 1 == row) by (nonlinear_arith);
                }
                Fold {
                    gradient: Gradient::ScaleBase,
                    from: self.layout.off_dsb + row,
                    to: ot * out_tile + lo,
                    len: 1,
                }
            },
            Run::Shared { nt, ot } => {
                let group: usize = self.layout.tg_index(nt, ot);
                let gs: usize = self.spec.gs as usize;
                proof {
                    self.lemma_width_product(group as int, self.layout.gs as int);
                }
                Fold {
                    gradient: Gradient::Shared,
                    from: self.layout.off_shared + group * (self.layout.tin * self.layout.gs),
                    to: in0 * gs,
                    len: tin * gs,
                }
            },
            Run::ScaleShared { nt, ot } => {
                let group: usize = self.layout.tg_index(nt, ot);
                Fold {
                    gradient: Gradient::ScaleShared,
                    from: self.layout.off_dss + group * self.layout.tin,
                    to: in0,
                    len: tin,
                }
            },
            Run::Routed { nt, ot, e } => {
                let group: usize = self.layout.tg_index(nt, ot);
                let row: usize = group * self.layout.k + e;
                let gr: usize = self.spec.gr as usize;
                proof {
                    self.lemma_width_product(row as int, self.layout.gr as int);
                    self.lemma_expert(e as int);
                }
                Fold {
                    gradient: Gradient::Routed,
                    from: self.layout.off_routed + row * (self.layout.tin * self.layout.gr),
                    to: (e * in_f + in0) * gr,
                    len: tin * gr,
                }
            },
            Run::ScaleRouted { nt, ot, e } => {
                let group: usize = self.layout.tg_index(nt, ot);
                let row: usize = group * self.layout.k + e;
                proof {
                    self.lemma_expert(e as int);
                }
                Fold {
                    gradient: Gradient::ScaleRouted,
                    from: self.layout.off_dsr + row * self.layout.tin,
                    to: e * in_f + in0,
                    len: tin,
                }
            },
            Run::Input { nt, ot, lt } => {
                let group: usize = self.layout.tg_index(nt, ot);
                let row: usize = group * n_tile + lt;
                proof {
                    self.lemma_token(nt as int, lt as int);
                }
                let t: usize = nt * n_tile + lt;
                Fold {
                    gradient: Gradient::Input,
                    from: self.layout.off_dx + row * self.layout.tin,
                    to: t * in_f + in0,
                    len: tin,
                }
            },
            Run::Centers { nt, ot } => {
                let group: usize = self.layout.tg_index(nt, ot);
                let g: usize = self.spec.g as usize;
                Fold {
                    gradient: Gradient::Centers,
                    from: self.layout.off_dc + group * g,
                    to: 0,
                    len: g,
                }
            },
            Run::Mix { nt, ot, lt, lo } => {
                let group: usize = self.layout.tg_index(nt, ot);
                proof {
                    self.lemma_token(nt as int, lt as int);
                    self.lemma_mix_row(group as int, lt as int, lo as int);
                }
                let slot: usize = group * n_tile + lt;
                let row: usize = slot * out_tile + lo;
                let k: usize = self.spec.k as usize;
                let t: usize = nt * n_tile + lt;
                Fold {
                    gradient: Gradient::Mix,
                    from: self.layout.off_dg + row * self.layout.k,
                    to: t * k,
                    len: k,
                }
            },
        }
    }

    proof fn lemma_output(self, ot: int, lo: int)
        requires
            self.wf(),
            ot >= 0,
            0 <= lo < self.outputs(ot),
        ensures
            0 <= ot * self.spec.out_tile <= ot * self.spec.out_tile + lo < self.spec.out_f,
            0 <= (ot * self.spec.out_tile + lo) * self.spec.in_f,
            (ot * self.spec.out_tile + lo) * self.spec.in_f + self.spec.in_f <= self.spec.out_f
                * self.spec.in_f,
    {
        let t = self.spec.out_tile as int;
        assert(0 <= ot * t) by (nonlinear_arith)
            requires
                ot >= 0,
                t >= 0,
        ;
        lemma_row_end(ot * t + lo, self.spec.out_f as int, self.spec.in_f as int);
    }

    proof fn lemma_token(self, nt: int, lt: int)
        requires
            self.wf(),
            nt >= 0,
            0 <= lt < self.tokens(nt),
        ensures
            0 <= nt * self.spec.n_tile <= nt * self.spec.n_tile + lt < self.spec.n,
            0 <= (nt * self.spec.n_tile + lt) * self.spec.in_f,
            (nt * self.spec.n_tile + lt) * self.spec.in_f + self.spec.in_f <= self.spec.n
                * self.spec.in_f,
    {
        let t = self.spec.n_tile as int;
        assert(0 <= nt * t) by (nonlinear_arith)
            requires
                nt >= 0,
                t >= 0,
        ;
        lemma_row_end(nt * t + lt, self.spec.n as int, self.spec.in_f as int);
    }

    proof fn lemma_expert(self, e: int)
        requires
            self.wf(),
            0 <= e < self.spec.k,
        ensures
            0 <= e * self.spec.in_f,
            e * self.spec.in_f + self.spec.in_f <= self.spec.k * self.spec.in_f,
    {
        lemma_row_end(e, self.spec.k as int, self.spec.in_f as int);
    }

    proof fn lemma_width_product(self, row: int, per: int)
        requires
            self.wf(),
            row >= 0,
            1 <= per <= 16,
        ensures
            0 <= self.layout.tin * per <= usize::MAX,
    {
        let tin = self.layout.tin as int;
        crate::accelerate::lemma_tile_is_small(self.spec);
        assert(0 <= tin * per && tin * per <= 8192 * 16) by (nonlinear_arith)
            requires
                0 <= tin <= 8192,
                1 <= per <= 16,
        ;
    }

    proof fn lemma_mix_row(self, group: int, lt: int, lo: int)
        requires
            self.wf(),
            group >= 0,
            lt >= 0,
            lo >= 0,
            (group * self.spec.n_tile + lt) * self.spec.out_tile + lo <= usize::MAX,
        ensures
            0 <= group * self.spec.n_tile + lt <= usize::MAX,
            0 <= (group * self.spec.n_tile + lt) * self.spec.out_tile,
    {
        let n = self.spec.n_tile as int;
        let t = self.spec.out_tile as int;
        assert(0 <= group * n) by (nonlinear_arith)
            requires
                group >= 0,
                n >= 0,
        ;
        let a = group * n + lt;
        assert(a <= a * t) by (nonlinear_arith)
            requires
                a >= 0,
                t >= 1,
        ;
    }
}

impl InTile {
    proof fn lemma_folds_push(self, places: Seq<Place>, place: Place)
        ensures
            self.folds(places.push(place)) == self.folds(places).push(self.fold(place)),
    {
        assert(self.folds(places.push(place)) =~= self.folds(places).push(self.fold(place)));
    }

    proof fn lemma_folds_join(self, a: Seq<Place>, b: Seq<Place>)
        ensures
            self.folds(a + b) == self.folds(a) + self.folds(b),
    {
        assert(self.folds(a + b) =~= self.folds(a) + self.folds(b));
    }

    fn part_of(total: usize, tile: usize, index: usize) -> (n: usize)
        requires
            tile > 0,
        ensures
            n == within(total as int, tile as int, index as int),
    {
        let start: usize = match index.checked_mul(tile) {
            Some(start) => start,
            None => usize::MAX,
        };
        let left: usize = total.saturating_sub(start);
        if left < tile {
            left
        } else {
            tile
        }
    }

    fn push_base(&self, nt: usize, ot: usize, out: &mut Vec<Fold>)
        requires
            self.wf(),
            nt < self.layout.n_tiles,
            ot < self.layout.out_tiles,
        ensures
            final(out)@ == old(out)@ + self.folds(
                self.base_places(nt as int, ot as int, self.outputs(ot as int)),
            ),
    {
        let n: usize = Self::part_of(
            self.spec.out_f as usize,
            self.spec.out_tile as usize,
            ot,
        );
        assert(out@ =~= old(out)@ + self.folds(self.base_places(nt as int, ot as int, 0)));
        for lo in 0..n
            invariant
                self.wf(),
                nt < self.layout.n_tiles,
                ot < self.layout.out_tiles,
                n == self.outputs(ot as int),
                out@ == old(out)@ + self.folds(
                    self.base_places(nt as int, ot as int, lo as int),
                ),
        {
            let ghost before = self.base_places(nt as int, ot as int, lo as int);
            let base = Run::Base { nt, ot, lo };
            let scale = Run::ScaleBase { nt, ot, lo };
            out.push(self.fold_run(base));
            out.push(self.fold_run(scale));
            proof {
                self.lemma_folds_push(before, base@);
                self.lemma_folds_push(before.push(base@), scale@);
                assert(self.base_places(nt as int, ot as int, lo + 1) == before.push(base@).push(
                    scale@,
                ));
            }
        }
    }

    fn push_experts(&self, nt: usize, ot: usize, out: &mut Vec<Fold>)
        requires
            self.wf(),
            nt < self.layout.n_tiles,
            ot < self.layout.out_tiles,
            !self.spec.routed_masked(),
        ensures
            final(out)@ == old(out)@ + self.folds(
                self.expert_places(nt as int, ot as int, self.spec.k as int),
            ),
    {
        let k: usize = self.spec.k as usize;
        assert(out@ =~= old(out)@ + self.folds(self.expert_places(nt as int, ot as int, 0)));
        for e in 0..k
            invariant
                self.wf(),
                nt < self.layout.n_tiles,
                ot < self.layout.out_tiles,
                !self.spec.routed_masked(),
                k == self.spec.k,
                out@ == old(out)@ + self.folds(
                    self.expert_places(nt as int, ot as int, e as int),
                ),
        {
            let ghost before = self.expert_places(nt as int, ot as int, e as int);
            let row = Run::Routed { nt, ot, e };
            let scale = Run::ScaleRouted { nt, ot, e };
            out.push(self.fold_run(row));
            out.push(self.fold_run(scale));
            proof {
                self.lemma_folds_push(before, row@);
                self.lemma_folds_push(before.push(row@), scale@);
                assert(self.expert_places(nt as int, ot as int, e + 1) == before.push(row@).push(
                    scale@,
                ));
            }
        }
    }

    fn push_inputs(&self, nt: usize, ot: usize, out: &mut Vec<Fold>)
        requires
            self.wf(),
            nt < self.layout.n_tiles,
            ot < self.layout.out_tiles,
        ensures
            final(out)@ == old(out)@ + self.folds(
                self.input_places(nt as int, ot as int, self.tokens(nt as int)),
            ),
    {
        let n: usize = Self::part_of(self.spec.n as usize, self.spec.n_tile as usize, nt);
        assert(out@ =~= old(out)@ + self.folds(self.input_places(nt as int, ot as int, 0)));
        for lt in 0..n
            invariant
                self.wf(),
                nt < self.layout.n_tiles,
                ot < self.layout.out_tiles,
                n == self.tokens(nt as int),
                out@ == old(out)@ + self.folds(
                    self.input_places(nt as int, ot as int, lt as int),
                ),
        {
            let ghost before = self.input_places(nt as int, ot as int, lt as int);
            let run = Run::Input { nt, ot, lt };
            out.push(self.fold_run(run));
            proof {
                self.lemma_folds_push(before, run@);
                assert(self.input_places(nt as int, ot as int, lt + 1) == before.push(run@));
            }
        }
    }

    fn push_group(&self, nt: usize, ot: usize, out: &mut Vec<Fold>)
        requires
            self.wf(),
            nt < self.layout.n_tiles,
            ot < self.layout.out_tiles,
        ensures
            final(out)@ == old(out)@ + self.folds(self.group_places(nt as int, ot as int)),
    {
        let (n, o): (Ghost<int>, Ghost<int>) = (Ghost(nt as int), Ghost(ot as int));
        let ghost base = self.base_places(n@, o@, self.outputs(o@));
        let shared = Run::Shared { nt, ot };
        let scale = Run::ScaleShared { nt, ot };
        let centers = Run::Centers { nt, ot };
        self.push_base(nt, ot, out);
        out.push(self.fold_run(shared));
        out.push(self.fold_run(scale));
        let ghost head = base.push(shared@).push(scale@);
        proof {
            self.lemma_folds_push(base, shared@);
            self.lemma_folds_push(base.push(shared@), scale@);
            assert(out@ =~= old(out)@ + self.folds(head));
        }
        let masked = self.spec.mask_routed();
        let ghost experts = if self.spec.routed_masked() {
            Seq::empty()
        } else {
            self.expert_places(n@, o@, self.spec.k as int)
        };
        if !masked {
            self.push_experts(nt, ot, out);
        }
        proof {
            self.lemma_folds_join(head, experts);
            assert(out@ =~= old(out)@ + self.folds(head + experts));
        }
        self.push_inputs(nt, ot, out);
        let ghost inputs = self.input_places(n@, o@, self.tokens(n@));
        proof {
            self.lemma_folds_join(head + experts, inputs);
            assert(out@ =~= old(out)@ + self.folds(head + experts + inputs));
        }
        out.push(self.fold_run(centers));
        proof {
            self.lemma_folds_push(head + experts + inputs, centers@);
            assert(self.group_places(n@, o@) == (head + experts + inputs).push(centers@));
            assert(out@ =~= old(out)@ + self.folds(self.group_places(n@, o@)));
        }
    }

    /// The folds of an in-tile, group by group; none when the partials are
    /// shorter than their layout.
    pub fn reduce_bwd_partials(&self, part_len: usize) -> (folds: Result<
        Vec<Fold>,
        ShortPartials,
    >)
        requires
            self.wf(),
        ensures
            match folds {
                Ok(f) => part_len >= self.layout.floats && f@ == self.folds(
                    self.places(self.layout.n_tiles as int),
                ),
                Err(e) => part_len < self.layout.floats && e.found == part_len && e.expected
                    == self.layout.floats,
            },
    {
        if part_len < self.layout.floats {
            return Err(ShortPartials { found: part_len, expected: self.layout.floats });
        }
        let mut out: Vec<Fold> = Vec::new();
        let rows: usize = self.layout.n_tiles;
        let columns: usize = self.layout.out_tiles;
        assert(out@ =~= self.folds(self.places(0)));
        for nt in 0..rows
            invariant
                self.wf(),
                rows == self.layout.n_tiles,
                columns == self.layout.out_tiles,
                out@ == self.folds(self.places(nt as int)),
        {
            let ghost before = self.places(nt as int);
            proof {
                assert(before + self.tile_places(nt as int, 0) =~= before);
            }
            for ot in 0..columns
                invariant
                    self.wf(),
                    rows == self.layout.n_tiles,
                    columns == self.layout.out_tiles,
                    nt < rows,
                    out@ == self.folds(before + self.tile_places(nt as int, ot as int)),
            {
                let ghost so_far = before + self.tile_places(nt as int, ot as int);
                self.push_group(nt, ot, &mut out);
                proof {
                    self.lemma_folds_join(so_far, self.group_places(nt as int, ot as int));
                    assert(before + self.tile_places(nt as int, ot + 1) =~= so_far
                        + self.group_places(nt as int, ot as int));
                }
            }
        }
        Ok(out)
    }
}

impl InTile {
    /// The expert weights of one token, up to `n` outputs.
    pub open spec fn slot_places(self, nt: int, ot: int, lt: int, n: int) -> Seq<Place>
        decreases n,
    {
        if n <= 0 {
            Seq::empty()
        } else {
            self.slot_places(nt, ot, lt, n - 1).push(Place::Mix { nt, ot, lt, lo: n - 1 })
        }
    }

    /// The expert weights of a group, up to `n` tokens.
    pub open spec fn group_mix(self, nt: int, ot: int, n: int) -> Seq<Place>
        decreases n,
    {
        if n <= 0 {
            Seq::empty()
        } else {
            self.group_mix(nt, ot, n - 1) + self.slot_places(
                nt,
                ot,
                n - 1,
                self.spec.out_tile as int,
            )
        }
    }

    /// The expert weights of a token tile, up to `n` output tiles.
    pub open spec fn tile_mix(self, nt: int, n: int) -> Seq<Place>
        decreases n,
    {
        if n <= 0 {
            Seq::empty()
        } else {
            self.tile_mix(nt, n - 1) + self.group_mix(nt, n - 1, self.tokens(nt))
        }
    }

    /// The expert weights of the launch, up to `n` token tiles.
    pub open spec fn mix_places(self, n: int) -> Seq<Place>
        decreases n,
    {
        if n <= 0 {
            Seq::empty()
        } else {
            self.mix_places(n - 1) + self.tile_mix(n - 1, self.layout.out_tiles as int)
        }
    }

    fn push_mix(&self, nt: usize, ot: usize, out: &mut Vec<Fold>)
        requires
            self.wf(),
            nt < self.layout.n_tiles,
            ot < self.layout.out_tiles,
            !self.spec.routed_masked(),
        ensures
            final(out)@ == old(out)@ + self.folds(
                self.group_mix(nt as int, ot as int, self.tokens(nt as int)),
            ),
    {
        let n: usize = Self::part_of(self.spec.n as usize, self.spec.n_tile as usize, nt);
        let wide: usize = self.spec.out_tile as usize;
        assert(out@ =~= old(out)@ + self.folds(self.group_mix(nt as int, ot as int, 0)));
        for lt in 0..n
            invariant
                self.wf(),
                nt < self.layout.n_tiles,
                ot < self.layout.out_tiles,
                !self.spec.routed_masked(),
                n == self.tokens(nt as int),
                wide == self.spec.out_tile,
                out@ == old(out)@ + self.folds(self.group_mix(nt as int, ot as int, lt as int)),
        {
            let ghost before = self.group_mix(nt as int, ot as int, lt as int);
            proof {
                assert(before + self.slot_places(nt as int, ot as int, lt as int, 0) =~= before);
            }
            for lo in 0..wide
                invariant
                    self.wf(),
                    nt < self.layout.n_tiles,
                    ot < self.layout.out_tiles,
                    !self.spec.routed_masked(),
                    lt < n == self.tokens(nt as int),
                    wide == self.spec.out_tile,
                    out@ == old(out)@ + self.folds(
                        before + self.slot_places(nt as int, ot as int, lt as int, lo as int),
                    ),
            {
                let ghost so_far = before + self.slot_places(
                    nt as int,
                    ot as int,
                    lt as int,
                    lo as int,
                );
                let run = Run::Mix { nt, ot, lt, lo };
                out.push(self.fold_run(run));
                proof {
                    self.lemma_folds_push(so_far, run@);
                    assert(before + self.slot_places(nt as int, ot as int, lt as int, lo + 1)
                        =~= so_far.push(run@));
                }
            }
        }
    }

    /// The folds of the weights of the experts; none when no expert takes
    /// part.
    pub fn acc_dg_partials(&self) -> (folds: Vec<Fold>)
        requires
            self.wf(),
        ensures
            folds@ == (if self.spec.routed_masked() {
                Seq::empty()
            } else {
                self.folds(self.mix_places(self.layout.n_tiles as int))
            }),
    {
        let mut out: Vec<Fold> = Vec::new();
        if self.spec.mask_routed() {
            return out;
        }
        let rows: usize = self.layout.n_tiles;
        let columns: usize = self.layout.out_tiles;
        assert(out@ =~= self.folds(self.mix_places(0)));
        for nt in 0..rows
            invariant
                self.wf(),
                !self.spec.routed_masked(),
                rows == self.layout.n_tiles,
                columns == self.layout.out_tiles,
                out@ == self.folds(self.mix_places(nt as int)),
        {
            let ghost before = self.mix_places(nt as int);
            proof {
                assert(before + self.tile_mix(nt as int, 0) =~= before);
            }
            for ot in 0..columns
                invariant
                    self.wf(),
                    !self.spec.routed_masked(),
                    rows == self.layout.n_tiles,
                    columns == self.layout.out_tiles,
                    nt < rows,
                    out@ == self.folds(before + self.tile_mix(nt as int, ot as int)),
            {
                let ghost so_far = before + self.tile_mix(nt as int, ot as int);
                let ghost group = self.group_mix(nt as int, ot as int, self.tokens(nt as int));
                self.push_mix(nt, ot, &mut out);
                proof {
                    self.lemma_folds_join(so_far, group);
                    assert(before + self.tile_mix(nt as int, ot + 1) =~= so_far + group);
                }
            }
        }
        out
    }
}

/// Runs that were listed, each once, and one more.
proof fn lemma_listed_push(list: Seq<Place>, place: Place)
    ensures
        forall|p: Place| #[trigger] list.push(place).contains(p) <==> list.contains(p) || p == place,
        list.no_duplicates() && !list.contains(place) ==> list.push(place).no_duplicates(),
{
    let more = list.push(place);
    assert forall|p: Place| #[trigger] more.contains(p) <==> list.contains(p) || p == place by {
        if list.contains(p) {
            let i = choose|i: int| 0 <= i < list.len() && list[i] == p;
            assert(more[i] == p);
        }
        if p == place {
            assert(more[list.len() as int] == p);
        }
        if more.contains(p) {
            let i = choose|i: int| 0 <= i < more.len() && more[i] == p;
            if i < list.len() {
                assert(list[i] == p);
            }
        }
    }
}

/// Two lists of runs, one behind the other.
proof fn lemma_listed_join(a: Seq<Place>, b: Seq<Place>)
    ensures
        forall|p: Place| #[trigger] (a + b).contains(p) <==> a.contains(p) || b.contains(p),
        a.no_duplicates() && b.no_duplicates() && (forall|p: Place|
            a.contains(p) ==> !#[trigger] b.contains(p)) ==> (a + b).no_duplicates(),
{
    let both = a + b;
    assert forall|p: Place| #[trigger] both.contains(p) <==> a.contains(p) || b.contains(p) by {
        if a.contains(p) {
            let i = choose|i: int| 0 <= i < a.len() && a[i] == p;
            assert(both[i] == p);
        }
        if b.contains(p) {
            let i = choose|i: int| 0 <= i < b.len() && b[i] == p;
            assert(both[a.len() + i] == p);
        }
        if both.contains(p) {
            let i = choose|i: int| 0 <= i < both.len() && both[i] == p;
            if i < a.len() {
                assert(a[i] == p);
            } else {
                assert(b[i - a.len()] == p);
            }
        }
    }
    if a.no_duplicates() && b.no_duplicates() && (forall|p: Place|
        a.contains(p) ==> !#[trigger] b.contains(p)) {
        assert forall|i: int, j: int| 0 <= i < a.len() && 0 <= j < b.len() implies a[i]
            != b[j] by {
            assert(a.contains(a[i]));
            assert(b.contains(b[j]));
        }
        vstd::seq_lib::lemma_no_dup_in_concat(a, b);
    }
}

impl InTile {
    proof fn lemma_base_listed(self, nt: int, ot: int, n: int)
        ensures
            self.base_places(nt, ot, n).no_duplicates(),
            forall|p: Place| #[trigger]
                self.base_places(nt, ot, n).contains(p) <==> exists|lo: int|
                    0 <= lo < n && (p == (Place::Base { nt, ot, lo }) || p == (Place::ScaleBase {
                        nt,
                        ot,
                        lo,
                    })),
        decreases n,
    {
        if n > 0 {
            self.lemma_base_listed(nt, ot, n - 1);
            let fewer = self.base_places(nt, ot, n - 1);
            let base = Place::Base { nt, ot, lo: n - 1 };
            let scale = Place::ScaleBase { nt, ot, lo: n - 1 };
            lemma_listed_push(fewer, base);
            lemma_listed_push(fewer.push(base), scale);
            assert(!fewer.contains(base));
            assert(!fewer.push(base).contains(scale));
        }
    }

    proof fn lemma_experts_listed(self, nt: int, ot: int, n: int)
        ensures
            self.expert_places(nt, ot, n).no_duplicates(),
            forall|p: Place| #[trigger]
                self.expert_places(nt, ot, n).contains(p) <==> exists|e: int|
                    0 <= e < n && (p == (Place::Routed { nt, ot, e }) || p == (Place::ScaleRouted {
                        nt,
                        ot,
                        e,
                    })),
        decreases n,
    {
        if n > 0 {
            self.lemma_experts_listed(nt, ot, n - 1);
            let fewer = self.expert_places(nt, ot, n - 1);
            let routed = Place::Routed { nt, ot, e: n - 1 };
            let scale = Place::ScaleRouted { nt, ot, e: n - 1 };
            lemma_listed_push(fewer, routed);
            lemma_listed_push(fewer.push(routed), scale);
            assert(!fewer.contains(routed));
            assert(!fewer.push(routed).contains(scale));
        }
    }

    proof fn lemma_inputs_listed(self, nt: int, ot: int, n: int)
        ensures
            self.input_places(nt, ot, n).no_duplicates(),
            forall|p: Place| #[trigger]
                self.input_places(nt, ot, n).contains(p) <==> exists|lt: int|
                    0 <= lt < n && p == (Place::Input { nt, ot, lt }),
        decreases n,
    {
        if n > 0 {
            self.lemma_inputs_listed(nt, ot, n - 1);
            let fewer = self.input_places(nt, ot, n - 1);
            let input = Place::Input { nt, ot, lt: n - 1 };
            lemma_listed_push(fewer, input);
            assert(!fewer.contains(input));
        }
    }

    proof fn lemma_slots_listed(self, nt: int, ot: int, lt: int, n: int)
        ensures
            self.slot_places(nt, ot, lt, n).no_duplicates(),
            forall|p: Place| #[trigger]
                self.slot_places(nt, ot, lt, n).contains(p) <==> exists|lo: int|
                    0 <= lo < n && p == (Place::Mix { nt, ot, lt, lo }),
        decreases n,
    {
        if n > 0 {
            self.lemma_slots_listed(nt, ot, lt, n - 1);
            let fewer = self.slot_places(nt, ot, lt, n - 1);
            let mix = Place::Mix { nt, ot, lt, lo: n - 1 };
            lemma_listed_push(fewer, mix);
            assert(!fewer.contains(mix));
        }
    }

    proof fn lemma_group_mix_listed(self, nt: int, ot: int, n: int)
        ensures
            self.group_mix(nt, ot, n).no_duplicates(),
            forall|p: Place| #[trigger]
                self.group_mix(nt, ot, n).contains(p) <==> exists|lt: int, lo: int|
                    0 <= lt < n && 0 <= lo < self.spec.out_tile && p == (Place::Mix {
                        nt,
                        ot,
                        lt,
                        lo,
                    }),
        decreases n,
    {
        if n > 0 {
            self.lemma_group_mix_listed(nt, ot, n - 1);
            self.lemma_slots_listed(nt, ot, n - 1, self.spec.out_tile as int);
            lemma_listed_join(
                self.group_mix(nt, ot, n - 1),
                self.slot_places(nt, ot, n - 1, self.spec.out_tile as int),
            );
        }
    }

    /// The run is one of a group, and the weights of the experts are not asked
    /// for.
    spec fn of_group(self, nt: int, ot: int, place: Place) -> bool {
        &&& tiles_of(place) == (nt, ot)
        &&& match place {
            Place::Base { lo, .. } => 0 <= lo < self.outputs(ot),
            Place::ScaleBase { lo, .. } => 0 <= lo < self.outputs(ot),
            Place::Routed { e, .. } => !self.spec.routed_masked() && 0 <= e < self.spec.k,
            Place::ScaleRouted { e, .. } => !self.spec.routed_masked() && 0 <= e < self.spec.k,
            Place::Input { lt, .. } => 0 <= lt < self.tokens(nt),
            Place::Mix { .. } => false,
            _ => true,
        }
    }

    proof fn lemma_group_listed(self, nt: int, ot: int)
        ensures
            self.group_places(nt, ot).no_duplicates(),
            forall|p: Place| #[trigger]
                self.group_places(nt, ot).contains(p) <==> self.of_group(nt, ot, p),
    {
        let base = self.base_places(nt, ot, self.outputs(ot));
        let shared = Place::Shared { nt, ot };
        let scale = Place::ScaleShared { nt, ot };
        let experts = if self.spec.routed_masked() {
            Seq::empty()
        } else {
            self.expert_places(nt, ot, self.spec.k as int)
        };
        let inputs = self.input_places(nt, ot, self.tokens(nt));
        let centers = Place::Centers { nt, ot };
        self.lemma_base_listed(nt, ot, self.outputs(ot));
        self.lemma_experts_listed(nt, ot, self.spec.k as int);
        self.lemma_inputs_listed(nt, ot, self.tokens(nt));
        assert(experts.no_duplicates());
        lemma_listed_push(base, shared);
        assert(!base.contains(shared));
        lemma_listed_push(base.push(shared), scale);
        assert(!base.push(shared).contains(scale));
        let front = base.push(shared).push(scale);
        lemma_listed_join(front, experts);
        assert((front + experts).no_duplicates()) by {
            assert forall|p: Place| front.contains(p) implies !#[trigger] experts.contains(p) by {}
        }
        lemma_listed_join(front + experts, inputs);
        assert((front + experts + inputs).no_duplicates()) by {
            assert forall|p: Place| (front + experts).contains(p) implies
                !#[trigger] inputs.contains(p) by {}
        }
        lemma_listed_push(front + experts + inputs, centers);
        assert(!(front + experts + inputs).contains(centers));
        assert(self.group_places(nt, ot) == (front + experts + inputs).push(centers));
        assert forall|p: Place| #[trigger]
            self.group_places(nt, ot).contains(p) <==> self.of_group(nt, ot, p) by {
            match p {
                Place::Base { nt: a, ot: b, lo } => {
                    assert(self.of_group(nt, ot, p) ==> p == Place::Base { nt, ot, lo });
                },
                Place::ScaleBase { nt: a, ot: b, lo } => {
                    assert(self.of_group(nt, ot, p) ==> p == Place::ScaleBase { nt, ot, lo });
                },
                Place::Routed { nt: a, ot: b, e } => {
                    assert(self.of_group(nt, ot, p) ==> p == Place::Routed { nt, ot, e });
                },
                Place::ScaleRouted { nt: a, ot: b, e } => {
                    assert(self.of_group(nt, ot, p) ==> p == Place::ScaleRouted { nt, ot, e });
                },
                Place::Input { nt: a, ot: b, lt } => {
                    assert(self.of_group(nt, ot, p) ==> p == Place::Input { nt, ot, lt });
                },
                _ => {},
            }
        }
    }

    proof fn lemma_tile_listed(self, nt: int, n: int)
        ensures
            self.tile_places(nt, n).no_duplicates(),
            forall|p: Place| #[trigger]
                self.tile_places(nt, n).contains(p) <==> 0 <= tiles_of(p).1 < n && self.of_group(
                    nt,
                    tiles_of(p).1,
                    p,
                ),
            self.tile_mix(nt, n).no_duplicates(),
            forall|p: Place| #[trigger]
                self.tile_mix(nt, n).contains(p) <==> (p matches Place::Mix { nt: a, ot, lt, lo } && a
                    == nt && 0 <= ot < n && 0 <= lt < self.tokens(nt) && 0 <= lo
                    < self.spec.out_tile),
        decreases n,
    {
        if n > 0 {
            self.lemma_tile_listed(nt, n - 1);
            self.lemma_group_listed(nt, n - 1);
            lemma_listed_join(self.tile_places(nt, n - 1), self.group_places(nt, n - 1));
            let mix = self.group_mix(nt, n - 1, self.tokens(nt));
            self.lemma_group_mix_listed(nt, n - 1, self.tokens(nt));
            lemma_listed_join(self.tile_mix(nt, n - 1), mix);
            assert forall|p: Place| #[trigger]
                self.tile_mix(nt, n).contains(p) <==> (p matches Place::Mix { nt: a, ot, lt, lo } && a
                    == nt && 0 <= ot < n && 0 <= lt < self.tokens(nt) && 0 <= lo
                    < self.spec.out_tile) by {
                match p {
                    Place::Mix { nt: a, ot, lt, lo } => {
                        if a == nt && ot == n - 1 {
                            assert(p == Place::Mix { nt, ot: n - 1, lt, lo });
                        }
                    },
                    _ => {},
                }
            }
        }
    }

    proof fn lemma_all_listed(self, n: int)
        ensures
            self.places(n).no_duplicates(),
            forall|p: Place| #[trigger]
                self.places(n).contains(p) <==> 0 <= tiles_of(p).0 < n && 0 <= tiles_of(p).1
                    < self.layout.out_tiles && self.of_group(tiles_of(p).0, tiles_of(p).1, p),
            self.mix_places(n).no_duplicates(),
            forall|p: Place| #[trigger]
                self.mix_places(n).contains(p) <==> (p matches Place::Mix { nt, ot, lt, lo } && 0
                    <= nt < n && 0 <= ot < self.layout.out_tiles && 0 <= lt < self.tokens(nt) && 0
                    <= lo < self.spec.out_tile),
        decreases n,
    {
        if n > 0 {
            let columns = self.layout.out_tiles as int;
            self.lemma_all_listed(n - 1);
            self.lemma_tile_listed(n - 1, columns);
            lemma_listed_join(self.places(n - 1), self.tile_places(n - 1, columns));
            lemma_listed_join(self.mix_places(n - 1), self.tile_mix(n - 1, columns));
        }
    }

    /// Every run that the launch writes is folded once, and nothing else is: the
    /// weights of the experts in a pass of their own, all others in the first.
    pub proof fn law_every_run_is_folded_once(self, place: Place)
        ensures
            self.places(self.layout.n_tiles as int).no_duplicates(),
            self.places(self.layout.n_tiles as int).contains(place) <==> self.writes(place)
                && !(place is Mix),
            self.mix_places(self.layout.n_tiles as int).no_duplicates(),
            !self.spec.routed_masked() ==> (self.mix_places(
                self.layout.n_tiles as int,
            ).contains(place) <==> self.writes(place) && place is Mix),
    {
        self.lemma_all_listed(self.layout.n_tiles as int);
    }

    /// Every output and every token of a launch has its run: an output lies in
    /// the tile that it falls into, at its place there, and its run goes to its
    /// own row of the gradient, at the inputs of the tile; so does that of a
    /// token, and that of an expert.
    pub proof fn law_every_row_has_its_run(self, nt: int, ot: int, output: int, token: int, e: int)
        requires
            self.wf(),
            0 <= nt < self.layout.n_tiles,
            0 <= ot < self.layout.out_tiles,
            0 <= output < self.spec.out_f,
            0 <= token < self.spec.n,
            0 <= e < self.spec.k,
            0 < self.spec.out_tile,
            0 < self.spec.n_tile,
        ensures
            ({
                let row = Place::Base {
                    nt,
                    ot: output / (self.spec.out_tile as int),
                    lo: output % (self.spec.out_tile as int),
                };
                let scale = Place::ScaleBase {
                    nt,
                    ot: output / (self.spec.out_tile as int),
                    lo: output % (self.spec.out_tile as int),
                };
                let input = Place::Input {
                    nt: token / (self.spec.n_tile as int),
                    ot,
                    lt: token % (self.spec.n_tile as int),
                };
                let expert = Place::Routed { nt, ot, e };
                let expert_scale = Place::ScaleRouted { nt, ot, e };
                &&& self.writes(row) && self.writes(scale) && self.writes(input)
                &&& !self.spec.routed_masked() ==> self.writes(expert) && self.writes(expert_scale)
                &&& self.target(row) == (
                    Gradient::Base,
                    output * self.spec.in_f + self.in0,
                    self.tin as int,
                )
                &&& self.target(scale) == (Gradient::ScaleBase, output, 1int)
                &&& self.target(input) == (
                    Gradient::Input,
                    token * self.spec.in_f + self.in0,
                    self.tin as int,
                )
                &&& self.target(expert) == (
                    Gradient::Routed,
                    e * self.spec.in_f * self.spec.gr + self.in0 * self.spec.gr,
                    self.tin * self.spec.gr,
                )
                &&& self.target(expert_scale) == (
                    Gradient::ScaleRouted,
                    e * self.spec.in_f + self.in0,
                    self.tin as int,
                )
            }),
    {
        lemma_tile_of(output, self.spec.out_f as int, self.spec.out_tile as int);
        lemma_tile_of(token, self.spec.n as int, self.spec.n_tile as int);
        let front = e * self.spec.in_f;
        let (in0, gr) = (self.in0 as int, self.spec.gr as int);
        assert((front + in0) * gr == front * gr + in0 * gr) by (nonlinear_arith);
    }
}

/// A place below `total` lies in one of the tiles, at its place there.
proof fn lemma_tile_of(place: int, total: int, tile: int)
    requires
        0 <= place < total,
        0 < tile,
    ensures
        0 <= place / tile < crate::accelerate::ceil_div(total, tile),
        (place / tile) * tile + place % tile == place,
        0 <= place % tile < within(total, tile, place / tile),
{
    assert((place / tile) * tile + place % tile == place && 0 <= place % tile < tile && 0 <= place
        / tile) by (nonlinear_arith)
        requires
            0 <= place,
            0 < tile,
    ;
    assert(place / tile < (total + tile - 1) / tile) by (nonlinear_arith)
        requires
            0 <= place < total,
            0 < tile,
    ;
}

impl InTile {
    /// The runs lie in order: the groups of a token tile side by side and the token
    /// tiles one after the other, and in a group the rows of its outputs, experts
    /// and tokens one after the other, each in its own region.
    pub proof fn law_runs_lie_in_order(self, nt: int, ot: int, lo: int, e: int, lt: int)
        ensures
            self.layout.group(0, 0) == 0,
            self.layout.group(nt, ot + 1) == self.layout.group(nt, ot) + 1,
            self.layout.group(nt + 1, 0) == self.layout.group(nt, self.layout.out_tiles as int),
            self.row(Place::Base { nt, ot, lo }) == (
                0int,
                self.layout.group(nt, ot) * self.spec.out_tile + lo,
            ),
            self.row(Place::ScaleBase { nt, ot, lo }) == (
                4int,
                self.layout.group(nt, ot) * self.spec.out_tile + lo,
            ),
            self.row(Place::Shared { nt, ot }) == (1int, self.layout.group(nt, ot)),
            self.row(Place::ScaleShared { nt, ot }) == (5int, self.layout.group(nt, ot)),
            self.row(Place::Centers { nt, ot }) == (7int, self.layout.group(nt, ot)),
            self.row(Place::Routed { nt, ot, e }) == (
                2int,
                self.layout.group(nt, ot) * self.layout.k + e,
            ),
            self.row(Place::ScaleRouted { nt, ot, e }) == (
                6int,
                self.layout.group(nt, ot) * self.layout.k + e,
            ),
            self.row(Place::Input { nt, ot, lt }) == (
                3int,
                self.layout.group(nt, ot) * self.spec.n_tile + lt,
            ),
            self.row(Place::Mix { nt, ot, lt, lo: lo + 1 }).1 == self.row(
                Place::Mix { nt, ot, lt, lo },
            ).1 + 1,
            self.row(Place::Mix { nt, ot, lt: lt + 1, lo: 0 }).1 == self.row(
                Place::Mix { nt, ot, lt, lo: self.spec.out_tile as int },
            ).1,
            self.row(Place::Mix { nt, ot: ot + 1, lt: 0, lo: 0 }).1 == self.row(
                Place::Mix { nt, ot, lt: self.spec.n_tile as int, lo: 0 },
            ).1,
    {
        let columns = self.layout.out_tiles as int;
        let g = self.layout.group(nt, ot);
        let t = self.spec.n_tile as int;
        let o = self.spec.out_tile as int;
        assert(0 * columns == 0);
        assert((nt + 1) * columns == nt * columns + columns) by (nonlinear_arith);
        assert((g * t + lt + 1) * o == (g * t + lt) * o + o) by (nonlinear_arith);
        assert((g + 1) * t == g * t + t) by (nonlinear_arith);
    }
}

} // verus!
