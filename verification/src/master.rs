//! Weights that are kept in half precision while nothing works on them.
//!
//! The single-precision copy of a weight is alive only during a step. Rounding
//! to half precision and back is done outside; here is which copy of a weight
//! exists, and which is made of which.
use vstd::prelude::*;
use crate::kan::{KanError, SovereignTensor, TernaryKanLinear};

verus! {

/// What the live weights of a layer come to in half precision.
#[derive(Debug)]
pub struct Halves {
    pub base: Vec<u16>,
    pub shared: Vec<u16>,
    pub routed: Vec<u16>,
    pub router: Vec<u16>,
}

/// What the stashed weights of a layer come to in single precision.
#[derive(Debug)]
pub struct Singles {
    pub base: Vec<u32>,
    pub shared: Vec<u32>,
    pub routed: Vec<u32>,
    pub router: Vec<u32>,
}

/// A weight that can be stashed.
#[derive(Clone, Copy, Debug, PartialEq, Eq, Structural)]
pub enum Weight {
    Base,
    Shared,
    Routed,
    Router,
}

impl Halves {
    pub open spec fn of(self, weight: Weight) -> Vec<u16> {
        match weight {
            Weight::Base => self.base,
            Weight::Shared => self.shared,
            Weight::Routed => self.routed,
            Weight::Router => self.router,
        }
    }
}

impl Singles {
    pub open spec fn of(self, weight: Weight) -> Vec<u32> {
        match weight {
            Weight::Base => self.base,
            Weight::Shared => self.shared,
            Weight::Routed => self.routed,
            Weight::Router => self.router,
        }
    }
}

/// The live copy of a weight.
pub open spec fn live(layer: TernaryKanLinear, weight: Weight) -> Option<SovereignTensor> {
    match weight {
        Weight::Base => layer.weight_base,
        Weight::Shared => layer.weight_shared,
        Weight::Routed => layer.weight_routed,
        Weight::Router => layer.router,
    }
}

/// The shape of a weight.
pub open spec fn weight_shape(layer: TernaryKanLinear, weight: Weight) -> Seq<usize> {
    let experts = crate::kan::one_or_more(layer.n_experts) as usize;
    match weight {
        Weight::Base => seq![layer.out_features, layer.in_features],
        Weight::Shared => seq![
            layer.out_features,
            (layer.in_features * crate::kan::one_or_more(layer.n_shared)) as usize,
        ],
        Weight::Routed => seq![
            experts,
            layer.out_features,
            (layer.in_features * layer.n_routed) as usize,
        ],
        Weight::Router => seq![experts, layer.in_features],
    }
}

/// The numbers do not fill the shape of the weight.
pub open spec fn misfits(layer: TernaryKanLinear, weight: Weight, data: Seq<u32>) -> bool {
    crate::checkpoint::volume_overflows(weight_shape(layer, weight)) || data.len()
        != crate::checkpoint::volume(weight_shape(layer, weight))
}

/// Everything but the four weights is the same.
pub open spec fn same_but_weights(a: TernaryKanLinear, b: TernaryKanLinear) -> bool {
    b == (TernaryKanLinear {
        weight_base: b.weight_base,
        weight_shared: b.weight_shared,
        weight_routed: b.weight_routed,
        router: b.router,
        ..a
    })
}

/// The half-precision copies of a layer's weights.
#[derive(Debug)]
pub struct HalfMaster {
    pub on: bool,
    pub base: Option<Vec<u16>>,
    pub shared: Option<Vec<u16>>,
    pub routed: Option<Vec<u16>>,
    pub router: Option<Vec<u16>>,
}

fn stash(live: &mut Option<SovereignTensor>, half: &mut Option<Vec<u16>>, rounded: Vec<u16>)
    ensures
        *final(live) is None,
        *final(half) == (if *old(live) is Some {
            Some(rounded)
        } else {
            *old(half)
        }),
{
    if live.is_some() {
        *half = Some(rounded);
    }
    *live = None;
}

fn revive(
    live: &mut Option<SovereignTensor>,
    half: &Option<Vec<u16>>,
    shape: Vec<usize>,
    data: Vec<u32>,
) -> (done: Result<(), KanError>)
    ensures
        *old(live) is Some || *half is None ==> done is Ok && *final(live) == *old(live),
        *old(live) is None && *half is Some ==> match done {
            Ok(_) => *final(live) matches Some(t) && t.wf() && t.shape@ == shape@ && t.data@
                == data@,
            Err(e) => e == KanError::TensorShape && *final(live) is None && (
            crate::checkpoint::volume_overflows(shape@) || data@.len()
                != crate::checkpoint::volume(shape@)),
        },
{
    if live.is_some() || half.is_none() {
        return Ok(());
    }
    match SovereignTensor::from_vec(shape, data) {
        Ok(t) => {
            *live = Some(t);
            Ok(())
        },
        Err(e) => Err(e),
    }
}

fn experts_of(layer: &TernaryKanLinear) -> (n: usize)
    ensures
        n == crate::kan::one_or_more(layer.n_experts),
{
    if layer.n_experts == 0 {
        1
    } else {
        layer.n_experts
    }
}

/// The place of a weight in the order in which weights are hydrated.
pub open spec fn turn(weight: Weight) -> int {
    match weight {
        Weight::Base => 0,
        Weight::Shared => 1,
        Weight::Routed => 2,
        Weight::Router => 3,
    }
}

impl HalfMaster {
    /// The half-precision copy of a weight.
    pub open spec fn half(self, weight: Weight) -> Option<Vec<u16>> {
        match weight {
            Weight::Base => self.base,
            Weight::Shared => self.shared,
            Weight::Routed => self.routed,
            Weight::Router => self.router,
        }
    }

    /// The layer is kept in half precision: packed codes replace both copies.
    pub open spec fn keeps(self, layer: TernaryKanLinear) -> bool {
        self.on && !layer.packed
    }

    /// There is a copy of the weight.
    pub open spec fn has(self, layer: TernaryKanLinear, weight: Weight) -> bool {
        live(layer, weight) is Some || self.half(weight) is Some
    }

    /// Nothing is kept in half precision.
    pub fn new() -> (master: Self)
        ensures
            !master.on,
            forall|w: Weight| #[trigger] master.half(w) is None,
    {
        HalfMaster { on: false, base: None, shared: None, routed: None, router: None }
    }

    /// What a stash does: each live weight is replaced by what it was rounded
    /// to.
    pub open spec fn stashes(
        self,
        layer: TernaryKanLinear,
        halves: Halves,
        after: Self,
        layer_after: TernaryKanLinear,
    ) -> bool {
        if self.keeps(layer) {
            &&& after.on
            &&& same_but_weights(layer, layer_after)
            &&& forall|w: Weight| #[trigger] live(layer_after, w) is None
            &&& forall|w: Weight| #[trigger]
                after.half(w) == if live(layer, w) is Some {
                    Some(halves.of(w))
                } else {
                    self.half(w)
                }
        } else {
            after == self && layer_after == layer
        }
    }

    /// Drops the live weights for their rounded copies.
    pub fn stash_master(&mut self, layer: &mut TernaryKanLinear, halves: Halves)
        ensures
            old(self).stashes(*old(layer), halves, *final(self), *final(layer)),
    {
        if !self.on || layer.packed {
            return;
        }
        stash(&mut layer.weight_base, &mut self.base, halves.base);
        stash(&mut layer.weight_shared, &mut self.shared, halves.shared);
        stash(&mut layer.weight_routed, &mut self.routed, halves.routed);
        stash(&mut layer.router, &mut self.router, halves.router);
    }

    /// Keeps the layer in half precision from now on, and drops its live
    /// weights. The knots stay in single precision.
    pub fn enable_fp16_master(&mut self, layer: &mut TernaryKanLinear, halves: Halves)
        ensures
            final(self).on,
            (HalfMaster { on: true, ..*old(self) }).stashes(
                *old(layer),
                halves,
                *final(self),
                *final(layer),
            ),
    {
        self.on = true;
        self.stash_master(layer, halves);
    }

    /// The weights that a hydration reaches.
    pub open spec fn reached(layer: TernaryKanLinear, weight: Weight) -> bool {
        match weight {
            Weight::Base | Weight::Shared => true,
            Weight::Routed | Weight::Router => layer.n_routed > 0,
        }
    }

    /// A hydration makes a live copy of the weight.
    pub open spec fn revives(self, layer: TernaryKanLinear, weight: Weight) -> bool {
        &&& self.keeps(layer)
        &&& Self::reached(layer, weight)
        &&& live(layer, weight) is None
        &&& self.half(weight) is Some
    }

    /// The live copy of a weight after a hydration.
    pub open spec fn hydrated(
        self,
        layer: TernaryKanLinear,
        singles: Singles,
        weight: Weight,
        after: Option<SovereignTensor>,
    ) -> bool {
        if self.revives(layer, weight) {
            after matches Some(t) && t.wf() && t.shape@ == weight_shape(layer, weight) && t.data@
                == singles.of(weight)@
        } else {
            after == live(layer, weight)
        }
    }

    /// The copy of the weight does not fill its shape.
    pub open spec fn refuses(
        self,
        layer: TernaryKanLinear,
        singles: Singles,
        weight: Weight,
    ) -> bool {
        self.revives(layer, weight) && misfits(layer, weight, singles.of(weight)@)
    }

    /// A hydration came as far as `first`: the weights ahead of it fit and are
    /// alive, and it and those behind it are as they were.
    pub open spec fn stops_at(
        self,
        layer: TernaryKanLinear,
        singles: Singles,
        first: Weight,
        after: TernaryKanLinear,
    ) -> bool {
        forall|w: Weight|
            if turn(w) < turn(first) {
                !self.refuses(layer, singles, w) && self.hydrated(
                    layer,
                    singles,
                    w,
                    #[trigger] live(after, w),
                )
            } else {
                live(after, w) == live(layer, w)
            }
    }

    /// Makes live weights of the half-precision copies, one after the other. A
    /// copy that does not fill its shape is an error: the weights ahead of it
    /// are then alive, and those behind it unchanged.
    pub fn hydrate(&self, layer: &mut TernaryKanLinear, singles: Singles) -> (done: Result<
        (),
        KanError,
    >)
        requires
            self.keeps(*old(layer)) ==> old(layer).in_features * crate::kan::one_or_more(
                old(layer).n_shared,
            ) <= usize::MAX,
            self.keeps(*old(layer)) ==> old(layer).in_features * old(layer).n_routed <= usize::MAX,
        ensures
            same_but_weights(*old(layer), *final(layer)),
            match done {
                Ok(_) => forall|w: Weight|
                    !self.refuses(*old(layer), singles, w) && self.hydrated(
                        *old(layer),
                        singles,
                        w,
                        #[trigger] live(*final(layer), w),
                    ),
                Err(e) => e == KanError::TensorShape && exists|first: Weight|
                    #[trigger] self.refuses(*old(layer), singles, first) && self.stops_at(
                        *old(layer),
                        singles,
                        first,
                        *final(layer),
                    ),
            },
    {
        if !self.on || layer.packed {
            return Ok(());
        }
        let base_shape: Vec<usize> = vec![layer.out_features, layer.in_features];
        assert(base_shape@ =~= weight_shape(*layer, Weight::Base));
        match revive(&mut layer.weight_base, &self.base, base_shape, singles.base) {
            Ok(_) => {},
            Err(e) => {
                assert(self.refuses(*old(layer), singles, Weight::Base));
                return Err(e);
            },
        }
        let shared: usize = if layer.n_shared == 0 {
            1
        } else {
            layer.n_shared
        };
        let shared_shape: Vec<usize> = vec![layer.out_features, layer.in_features * shared];
        assert(shared_shape@ =~= weight_shape(*layer, Weight::Shared));
        match revive(&mut layer.weight_shared, &self.shared, shared_shape, singles.shared) {
            Ok(_) => {},
            Err(e) => {
                assert(self.refuses(*old(layer), singles, Weight::Shared));
                return Err(e);
            },
        }
        if layer.n_routed > 0 {
            let experts: usize = experts_of(layer);
            let routed_shape: Vec<usize> = vec![
                experts,
                layer.out_features,
                layer.in_features * layer.n_routed,
            ];
            assert(routed_shape@ =~= weight_shape(*layer, Weight::Routed));
            match revive(&mut layer.weight_routed, &self.routed, routed_shape, singles.routed) {
                Ok(_) => {},
                Err(e) => {
                    assert(self.refuses(*old(layer), singles, Weight::Routed));
                    return Err(e);
                },
            }
            let router_shape: Vec<usize> = vec![experts, layer.in_features];
            assert(router_shape@ =~= weight_shape(*layer, Weight::Router));
            match revive(&mut layer.router, &self.router, router_shape, singles.router) {
                Ok(_) => {},
                Err(e) => {
                    assert(self.refuses(*old(layer), singles, Weight::Router));
                    return Err(e);
                },
            }
        }
        Ok(())
    }

    /// The bytes of a half-precision copy.
    pub open spec fn half_bytes(self, weight: Weight) -> int {
        match self.half(weight) {
            Some(h) => 2 * h@.len() as int,
            None => 0,
        }
    }

    /// How many bytes the half-precision copies take.
    pub fn master_storage_bytes(&self) -> (bytes: u64)
        requires
            self.half_bytes(Weight::Base) + self.half_bytes(Weight::Shared) + self.half_bytes(
                Weight::Routed,
            ) + self.half_bytes(Weight::Router) <= u64::MAX,
        ensures
            bytes == self.half_bytes(Weight::Base) + self.half_bytes(Weight::Shared)
                + self.half_bytes(Weight::Routed) + self.half_bytes(Weight::Router),
    {
        let base: u64 = count_bytes(&self.base);
        let shared: u64 = count_bytes(&self.shared);
        let routed: u64 = count_bytes(&self.routed);
        let router: u64 = count_bytes(&self.router);
        base + shared + routed + router
    }
}

fn count_bytes(half: &Option<Vec<u16>>) -> (bytes: u64)
    requires
        half matches Some(h) ==> 2 * h@.len() <= u64::MAX,
    ensures
        bytes == match half {
            Some(h) => 2 * h@.len() as int,
            None => 0,
        },
{
    match half {
        Some(h) => 2 * h.len() as u64,
        None => 0,
    }
}

/// No weight is lost: a weight of which there is a copy before a stash or a
/// hydration has one afterwards.
pub proof fn law_no_weight_is_lost(
    before: HalfMaster,
    layer: TernaryKanLinear,
    halves: Halves,
    singles: Singles,
    stashed: HalfMaster,
    stashed_layer: TernaryKanLinear,
    hydrated_layer: TernaryKanLinear,
    weight: Weight,
)
    requires
        before.has(layer, weight),
        before.stashes(layer, halves, stashed, stashed_layer),
        stashed.hydrated(stashed_layer, singles, weight, live(hydrated_layer, weight)),
    ensures
        stashed.has(stashed_layer, weight),
        stashed.has(hydrated_layer, weight),
{
}

/// A weight that was alive when the layer was stashed is alive again after a
/// hydration, with the numbers that its rounded copy stands for.
pub proof fn law_a_stashed_weight_comes_back(
    before: HalfMaster,
    layer: TernaryKanLinear,
    halves: Halves,
    singles: Singles,
    stashed: HalfMaster,
    stashed_layer: TernaryKanLinear,
    hydrated_layer: TernaryKanLinear,
    weight: Weight,
)
    requires
        before.on,
        !layer.packed,
        live(layer, weight) is Some,
        weight == Weight::Base || weight == Weight::Shared || layer.n_routed >= 1,
        before.stashes(layer, halves, stashed, stashed_layer),
        stashed.hydrated(stashed_layer, singles, weight, live(hydrated_layer, weight)),
    ensures
        stashed.half(weight) == Some(halves.of(weight)),
        live(hydrated_layer, weight) matches Some(t) && t.shape@ == weight_shape(layer, weight)
            && t.data@ == singles.of(weight)@,
{
}

/// The shapes of the weights: a base weight for each output and input, one for
/// each shared bump of them, one for each routed bump of them and each expert,
/// and a router weight for each expert and input.
pub proof fn law_shapes_of_the_weights(layer: TernaryKanLinear)
    requires
        layer.n_shared >= 1,
        layer.n_experts >= 1,
        layer.in_features * layer.n_shared <= usize::MAX,
        layer.in_features * layer.n_routed <= usize::MAX,
    ensures
        weight_shape(layer, Weight::Base) == seq![layer.out_features, layer.in_features],
        weight_shape(layer, Weight::Shared).len() == 2,
        weight_shape(layer, Weight::Shared)[0] == layer.out_features,
        weight_shape(layer, Weight::Shared)[1] == layer.in_features * layer.n_shared,
        weight_shape(layer, Weight::Routed).len() == 3,
        weight_shape(layer, Weight::Routed)[0] == layer.n_experts,
        weight_shape(layer, Weight::Routed)[1] == layer.out_features,
        weight_shape(layer, Weight::Routed)[2] == layer.in_features * layer.n_routed,
        weight_shape(layer, Weight::Router) == seq![layer.n_experts, layer.in_features],
{
}

/// A half takes two bytes for each number of a weight that is kept, and nothing
/// for one that is not.
pub proof fn law_halves_take_two_bytes(master: HalfMaster, weight: Weight)
    ensures
        master.half(weight) is None ==> master.half_bytes(weight) == 0,
        master.half(weight) matches Some(h) ==> master.half_bytes(weight) == h@.len() + h@.len(),
{
}

/// A hydration that stops leaves every weight that is not ahead of the stop as it
/// was, and none of those ahead without a copy.
pub proof fn law_a_stopped_hydration_loses_nothing(
    master: HalfMaster,
    layer: TernaryKanLinear,
    singles: Singles,
    first: Weight,
    after: TernaryKanLinear,
    weight: Weight,
)
    requires
        master.refuses(layer, singles, first),
        master.stops_at(layer, singles, first, after),
    ensures
        live(after, first) == live(layer, first),
        live(layer, weight) is Some ==> live(after, weight) == live(layer, weight),
        weight == Weight::Base && first != Weight::Base && live(layer, weight) is None
            && master.half(weight) is Some && master.keeps(layer) ==> live(after, weight) is Some,
{
    assert(live(after, first) == live(layer, first));
    let now = live(after, weight);
}

/// A hydration without routed bumps does not touch the experts and their router,
/// and one that is not due touches nothing at all.
pub proof fn law_a_hydration_touches_what_is_kept(
    master: HalfMaster,
    layer: TernaryKanLinear,
    singles: Singles,
    weight: Weight,
    after: Option<SovereignTensor>,
)
    requires
        master.hydrated(layer, singles, weight, after),
    ensures
        layer.n_routed == 0 && (weight == Weight::Routed || weight == Weight::Router) ==> after
            == live(layer, weight),
        !master.on || layer.packed ==> after == live(layer, weight),
        live(layer, weight) is Some ==> after == live(layer, weight),
        master.half(weight) is None ==> after == live(layer, weight),
{
}

/// The weights are brought back in the order base, shared, routed, router: what
/// comes ahead of the one that does not fit is alive.
pub proof fn law_weights_come_back_in_turn(
    master: HalfMaster,
    layer: TernaryKanLinear,
    singles: Singles,
    after: TernaryKanLinear,
)
    requires
        master.on,
        !layer.packed,
        layer.n_routed >= 1,
        forall|w: Weight| #[trigger] master.half(w) is Some,
    ensures
        master.stops_at(layer, singles, Weight::Base, after) ==> after.weight_base
            == layer.weight_base && after.weight_shared == layer.weight_shared
            && after.weight_routed == layer.weight_routed && after.router == layer.router,
        master.stops_at(layer, singles, Weight::Shared, after) ==> after.weight_base is Some
            && after.weight_shared == layer.weight_shared && after.weight_routed
            == layer.weight_routed && after.router == layer.router,
        master.stops_at(layer, singles, Weight::Routed, after) ==> after.weight_base is Some
            && after.weight_shared is Some && after.weight_routed == layer.weight_routed
            && after.router == layer.router,
        master.stops_at(layer, singles, Weight::Router, after) ==> after.weight_base is Some
            && after.weight_shared is Some && after.weight_routed is Some && after.router
            == layer.router,
{
    assert(live(after, Weight::Base) == after.weight_base);
    assert(live(after, Weight::Shared) == after.weight_shared);
    assert(live(after, Weight::Routed) == after.weight_routed);
    assert(live(after, Weight::Router) == after.router);
    assert(master.half(Weight::Base) is Some);
    assert(master.half(Weight::Shared) is Some);
    assert(master.half(Weight::Routed) is Some);
    assert(master.half(Weight::Router) is Some);
}

} // verus!
