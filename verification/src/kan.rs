//! The ternary spline layer: its parameters, how they are saved and loaded,
//! how its grid grows, and where each coefficient stands.
//!
//! Real numbers are held by their bit patterns.
use vstd::prelude::*;
use vstd::string::*;
use crate::accelerate::{MobKanSpec, SpecError};
use crate::checkpoint::{volume_of, NamedBlob};
use crate::decode::INFINITY_BITS;
use crate::expert::copied;
use crate::text::same_text;

verus! {

/// How many shared bumps a coarse evaluation uses at most.
pub const COARSE_BASIS: usize = 4;

/// How much of the grid an evaluation uses.
#[derive(Clone, Copy, Debug, PartialEq, Eq, Structural)]
pub enum KanEvalMode {
    Coarse,
    Full,
    Resonant { loops: u8 },
}

impl Default for KanEvalMode {
    fn default() -> (mode: Self)
        ensures
            mode == KanEvalMode::Full,
    {
        KanEvalMode::Full
    }
}

impl KanEvalMode {
    /// Whether the routed part of the grid is left out.
    pub fn mask_thinking(self) -> (masked: bool)
        ensures
            masked == (self is Coarse),
    {
        match self {
            KanEvalMode::Coarse => true,
            _ => false,
        }
    }

    /// How often the layer is run: at least once.
    pub fn resonance_loops(self) -> (loops: usize)
        ensures
            loops == (match self {
                KanEvalMode::Resonant { loops } => if loops == 0 {
                    1
                } else {
                    loops as int
                },
                _ => 1,
            }),
    {
        match self {
            KanEvalMode::Resonant { loops } => {
                if loops == 0 {
                    1
                } else {
                    loops as usize
                }
            },
            _ => 1,
        }
    }
}

/// The packed ternary codes of a layer.
#[derive(Debug)]
pub struct PackedCodes {
    pub packed_base: Vec<u8>,
    pub packed_shared: Vec<u8>,
    pub packed_routed: Vec<u8>,
}

/// What went wrong with a layer.
#[derive(Clone, Copy, Debug, PartialEq, Eq, Structural)]
pub enum KanError {
    TooFewKnots,
    Spec(SpecError),
    InputLength,
    OutputShort,
    TensorShape,
    UnknownTensor,
    PackedGrid,
    FrozenGrid,
    GridCap,
    WidthLength,
    BumpTile,
}

/// Numbers in a shape.
#[derive(Debug)]
pub struct SovereignTensor {
    pub shape: Vec<usize>,
    pub data: Vec<u32>,
}

impl SovereignTensor {
    /// There are as many numbers as the shape asks for.
    pub open spec fn wf(self) -> bool {
        !crate::checkpoint::volume_overflows(self.shape@) && self.data@.len()
            == crate::checkpoint::volume(self.shape@)
    }

    pub fn from_vec(shape: Vec<usize>, data: Vec<u32>) -> (tensor: Result<Self, KanError>)
        ensures
            match tensor {
                Ok(t) => t.wf() && t.shape@ == shape@ && t.data@ == data@,
                Err(e) => e == KanError::TensorShape && (crate::checkpoint::volume_overflows(shape@)
                    || data@.len() != crate::checkpoint::volume(shape@)),
            },
    {
        match volume_of(&shape) {
            Some(n) if n == data.len() => Ok(SovereignTensor { shape, data }),
            _ => Err(KanError::TensorShape),
        }
    }

    /// How many numbers there are.
    pub fn numel(&self) -> (n: usize)
        ensures
            n == self.data@.len(),
    {
        self.data.len()
    }

    fn to_blob(&self) -> (blob: NamedBlob)
        ensures
            blob matches NamedBlob::F32 { data, shape } && data@ == self.data@ && shape@
                == self.shape@,
    {
        NamedBlob::F32 { data: copied(&self.data), shape: copied_shape(&self.shape) }
    }
}

fn copied_shape(shape: &Vec<usize>) -> (copy: Vec<usize>)
    ensures
        copy@ == shape@,
{
    let mut copy: Vec<usize> = Vec::new();
    let n: usize = shape.len();
    for i in 0..n
        invariant
            n == shape@.len(),
            copy@ == shape@.take(i as int),
    {
        copy.push(shape[i]);
        assert(shape@.take(i + 1) =~= shape@.take(i as int).push(shape@[i as int]));
    }
    assert(shape@.take(n as int) =~= shape@);
    copy
}

/// A tensor of a layer.
#[derive(Clone, Copy, Debug, PartialEq, Eq, Structural)]
pub enum KanTensor {
    Centers,
    InvWidths,
    ScaleBase,
    ScaleShared,
    ScaleRouted,
    Router,
    WeightBase,
    WeightShared,
    WeightRouted,
}

/// The name that a tensor is saved under.
pub open spec fn tensor_name(tensor: KanTensor) -> Seq<char> {
    match tensor {
        KanTensor::Centers => "centers"@,
        KanTensor::InvWidths => "inv_widths"@,
        KanTensor::ScaleBase => "scale_base"@,
        KanTensor::ScaleShared => "scale_shared"@,
        KanTensor::ScaleRouted => "scale_routed"@,
        KanTensor::Router => "router"@,
        KanTensor::WeightBase => "weight_base"@,
        KanTensor::WeightShared => "weight_shared"@,
        KanTensor::WeightRouted => "weight_routed"@,
    }
}

impl KanTensor {
    fn name(self) -> (name: &'static str)
        ensures
            name@ == tensor_name(self),
    {
        match self {
            KanTensor::Centers => "centers",
            KanTensor::InvWidths => "inv_widths",
            KanTensor::ScaleBase => "scale_base",
            KanTensor::ScaleShared => "scale_shared",
            KanTensor::ScaleRouted => "scale_routed",
            KanTensor::Router => "router",
            KanTensor::WeightBase => "weight_base",
            KanTensor::WeightShared => "weight_shared",
            KanTensor::WeightRouted => "weight_routed",
        }
    }

    /// The tensor of that name.
    pub fn named(name: &str) -> (tensor: Option<KanTensor>)
        ensures
            match tensor {
                Some(t) => tensor_name(t) == name@,
                None => forall|t: KanTensor| #[trigger] tensor_name(t) != name@,
            },
    {
        if same_text(name, "centers") {
            Some(KanTensor::Centers)
        } else if same_text(name, "inv_widths") {
            Some(KanTensor::InvWidths)
        } else if same_text(name, "scale_base") {
            Some(KanTensor::ScaleBase)
        } else if same_text(name, "scale_shared") {
            Some(KanTensor::ScaleShared)
        } else if same_text(name, "scale_routed") {
            Some(KanTensor::ScaleRouted)
        } else if same_text(name, "router") {
            Some(KanTensor::Router)
        } else if same_text(name, "weight_base") {
            Some(KanTensor::WeightBase)
        } else if same_text(name, "weight_shared") {
            Some(KanTensor::WeightShared)
        } else if same_text(name, "weight_routed") {
            Some(KanTensor::WeightRouted)
        } else {
            None
        }
    }
}

/// A name belongs to one tensor of a layer only.
pub proof fn law_layer_names_are_distinct(a: KanTensor, b: KanTensor)
    requires
        tensor_name(a) == tensor_name(b),
    ensures
        a == b,
{
    reveal_strlit("centers");
    reveal_strlit("inv_widths");
    reveal_strlit("scale_base");
    reveal_strlit("scale_shared");
    reveal_strlit("scale_routed");
    reveal_strlit("router");
    reveal_strlit("weight_base");
    reveal_strlit("weight_shared");
    reveal_strlit("weight_routed");
    let x = tensor_name(a);
    let y = tensor_name(b);
    assert(x.len() == y.len() && x[0] == y[0] && x[6] == y[6] && x[7] == y[7]);
}

/// The parameters of a layer.
#[derive(Debug)]
pub struct TernaryKanLinear {
    pub in_features: usize,
    pub out_features: usize,
    pub n_basis: usize,
    pub n_shared: usize,
    pub n_routed: usize,
    pub n_experts: usize,
    pub moe_topk: u32,
    pub delta_ratio: u32,
    pub inv_width: u32,
    pub phase: u8,
    pub packed: bool,
    pub centers: SovereignTensor,
    pub inv_widths: SovereignTensor,
    pub scale_base: SovereignTensor,
    pub scale_shared: SovereignTensor,
    pub scale_routed: SovereignTensor,
    pub router: Option<SovereignTensor>,
    pub weight_base: Option<SovereignTensor>,
    pub weight_shared: Option<SovereignTensor>,
    pub weight_routed: Option<SovereignTensor>,
    pub packed_codes: Option<PackedCodes>,
    pub last_route_hits: Vec<u32>,
    pub last_route_tokens: u32,
}

/// At least one.
pub open spec fn one_or_more(n: usize) -> int {
    if n == 0 {
        1
    } else {
        n as int
    }
}

fn at_least_one(n: usize) -> (m: usize)
    ensures
        m == one_or_more(n),
{
    if n == 0 {
        1
    } else {
        n
    }
}

/// The descriptor of a launch, before it is checked.
pub open spec fn layer_spec(layer: TernaryKanLinear, n: usize, coarse: bool) -> MobKanSpec {
    let gs = layer.shared_bumps();
    let k = layer.expert_count();
    MobKanSpec {
        n: n as u32,
        in_f: layer.in_features as u32,
        out_f: layer.out_features as u32,
        g: layer.n_basis as u32,
        gs: gs as u32,
        gr: layer.n_routed as u32,
        k: k as u32,
        g_use: layer.used_bumps(coarse) as u32,
        phase: layer.phase as u32,
        coarse: if coarse {
            1
        } else {
            0
        },
        packed: if layer.packed {
            1
        } else {
            0
        },
        tile_in: crate::accelerate::tile_for(
            layer.in_features as int,
            layer.n_basis as int,
            k,
        ) as u32,
        out_tile: crate::accelerate::between_one_and(
            layer.out_features as int,
            crate::accelerate::OUT_TILE as int,
        ) as u32,
        n_tile: crate::accelerate::between_one_and(
            n as int,
            crate::accelerate::N_TILE as int,
        ) as u32,
        topk: 0,
        kan_factor: 1,
        pad0: 0,
        pad1: 0,
        inv_width: layer.inv_width,
        delta_ratio: layer.delta_ratio,
    }
}

impl TernaryKanLinear {
    /// The shared bumps of a launch: no more than there are knots, and at
    /// least one.
    pub open spec fn shared_bumps(self) -> int {
        let least = if self.n_shared < self.n_basis {
            self.n_shared
        } else {
            self.n_basis
        };
        one_or_more(least)
    }

    /// The shared bumps that are evaluated: a coarse evaluation uses a few.
    pub open spec fn used_bumps(self, coarse: bool) -> int {
        if coarse && self.shared_bumps() > COARSE_BASIS {
            COARSE_BASIS as int
        } else {
            self.shared_bumps()
        }
    }

    /// The experts of a launch: none without routed bumps.
    pub open spec fn expert_count(self) -> int {
        if self.n_routed > 0 {
            one_or_more(self.n_experts)
        } else {
            0
        }
    }

    /// How many experts a token selects.
    pub open spec fn selected_experts(self) -> int {
        if self.moe_topk < self.expert_count() {
            self.moe_topk as int
        } else {
            self.expert_count()
        }
    }

    /// The sizes of a launch fit in 32 bits.
    pub open spec fn launchable(self, n: usize) -> bool {
        &&& n <= u32::MAX
        &&& self.in_features <= u32::MAX
        &&& self.out_features <= u32::MAX
        &&& self.n_basis <= u32::MAX
        &&& self.n_routed <= u32::MAX
        &&& self.expert_count() <= u32::MAX
    }

    /// Why a launch over `n` tokens is turned away.
    pub open spec fn launch_error(self, n: usize, coarse: bool) -> Option<SpecError> {
        let plain = layer_spec(self, n, coarse);
        if !self.launchable(n) {
            Some(SpecError::DimensionTooLarge)
        } else {
            match plain.error() {
                Some(e) => Some(e),
                None => (MobKanSpec { topk: self.selected_experts() as u32, ..plain }).error(),
            }
        }
    }

    /// The checked descriptor of a launch over `n` tokens.
    pub fn spec(&self, n: usize, mode: KanEvalMode) -> (spec: Result<MobKanSpec, KanError>)
        ensures
            match spec {
                Ok(s) => self.launch_error(n, mode is Coarse) is None && s == (MobKanSpec {
                    topk: self.selected_experts() as u32,
                    ..layer_spec(*self, n, mode is Coarse)
                }),
                Err(e) => e matches KanError::Spec(inner) && self.launch_error(n, mode is Coarse)
                    == Some(inner),
            },
    {
        let coarse = mode.mask_thinking();
        let least: usize = if self.n_shared < self.n_basis {
            self.n_shared
        } else {
            self.n_basis
        };
        let gs: usize = at_least_one(least);
        let g_use: usize = if coarse && gs > COARSE_BASIS {
            COARSE_BASIS
        } else {
            gs
        };
        let k: usize = if self.n_routed > 0 {
            at_least_one(self.n_experts)
        } else {
            0
        };
        let plain = match MobKanSpec::new(
            n,
            self.in_features,
            self.out_features,
            self.n_basis,
            gs,
            self.n_routed,
            k,
            g_use,
            self.phase,
            coarse,
            self.packed,
            self.inv_width,
            self.delta_ratio,
        ) {
            Ok(s) => s,
            Err(e) => return Err(KanError::Spec(e)),
        };
        let topk: u32 = if (self.moe_topk as u64) < k as u64 {
            self.moe_topk
        } else {
            k as u32
        };
        match plain.with_topk(topk) {
            Ok(s) => Ok(s),
            Err(e) => Err(KanError::Spec(e)),
        }
    }

    /// Checks the lengths of the input and the output of a forward step.
    pub fn check_forward(&self, spec: &MobKanSpec, x: usize, y: usize) -> (checked: Result<
        (),
        KanError,
    >)
        requires
            spec.n * spec.in_f <= usize::MAX,
            spec.n * spec.out_f <= usize::MAX,
        ensures
            match checked {
                Ok(_) => x == spec.n * spec.in_f && y >= spec.n * spec.out_f,
                Err(KanError::InputLength) => x != spec.n * spec.in_f,
                Err(KanError::OutputShort) => x == spec.n * spec.in_f && y < spec.n * spec.out_f,
                Err(_) => false,
            },
    {
        if x != spec.x_len() {
            return Err(KanError::InputLength);
        }
        if y < spec.y_len() {
            return Err(KanError::OutputShort);
        }
        Ok(())
    }

    /// The tensor, when the layer has it.
    pub open spec fn tensor(self, which: KanTensor) -> Option<SovereignTensor> {
        match which {
            KanTensor::Centers => Some(self.centers),
            KanTensor::InvWidths => Some(self.inv_widths),
            KanTensor::ScaleBase => Some(self.scale_base),
            KanTensor::ScaleShared => Some(self.scale_shared),
            KanTensor::ScaleRouted => Some(self.scale_routed),
            KanTensor::Router => self.router,
            KanTensor::WeightBase => self.weight_base,
            KanTensor::WeightShared => self.weight_shared,
            KanTensor::WeightRouted => self.weight_routed,
        }
    }

    /// Everything but the tensors is the same.
    pub open spec fn same_frame(self, other: Self) -> bool {
        &&& self.in_features == other.in_features
        &&& self.out_features == other.out_features
        &&& self.n_basis == other.n_basis
        &&& self.n_shared == other.n_shared
        &&& self.n_routed == other.n_routed
        &&& self.n_experts == other.n_experts
        &&& self.moe_topk == other.moe_topk
        &&& self.delta_ratio == other.delta_ratio
        &&& self.inv_width == other.inv_width
        &&& self.phase == other.phase
        &&& self.packed == other.packed
        &&& self.packed_codes == other.packed_codes
        &&& self.last_route_hits == other.last_route_hits
        &&& self.last_route_tokens == other.last_route_tokens
    }

    /// `after` is this layer with another value of one tensor.
    pub open spec fn with_tensor(
        self,
        which: KanTensor,
        shape: Seq<usize>,
        data: Seq<u32>,
        after: Self,
    ) -> bool {
        &&& self.same_frame(after)
        &&& after.tensor(which) matches Some(t) && t.wf() && t.shape@ == shape && t.data@ == data
        &&& forall|other: KanTensor|
            other != which ==> #[trigger] after.tensor(other) == self.tensor(other)
    }

    /// Puts numbers that were read under a name into the tensor of that name.
    /// The answer is whether the bump widths no longer fit the knots, and have
    /// to be computed anew.
    pub fn load_f32(&mut self, name: &str, data: Vec<u32>, shape: Vec<usize>) -> (stale: Result<
        bool,
        KanError,
    >)
        ensures
            match stale {
                Ok(stale) => exists|which: KanTensor|
                    #![trigger tensor_name(which)]
                    {
                        &&& tensor_name(which) == name@
                        &&& old(self).with_tensor(which, shape@, data@, *final(self))
                        &&& stale == (which is Centers && old(self).inv_widths.data@.len()
                            != data@.len())
                    },
                Err(e) => {
                    &&& *final(self) == *old(self)
                    &&& if crate::checkpoint::volume_overflows(shape@) || data@.len()
                        != crate::checkpoint::volume(shape@) {
                        e == KanError::TensorShape
                    } else {
                        &&& e == KanError::UnknownTensor
                        &&& forall|which: KanTensor| #[trigger] tensor_name(which) != name@
                    }
                },
            },
    {
        let ghost given_shape = shape@;
        let ghost given = data@;
        let tensor = match SovereignTensor::from_vec(shape, data) {
            Ok(t) => t,
            Err(e) => return Err(e),
        };
        let which = match KanTensor::named(name) {
            Some(w) => w,
            None => return Err(KanError::UnknownTensor),
        };
        let stale = match which {
            KanTensor::Centers => self.inv_widths.numel() != tensor.numel(),
            _ => false,
        };
        match which {
            KanTensor::Centers => {
                self.centers = tensor;
            },
            KanTensor::InvWidths => {
                self.inv_widths = tensor;
            },
            KanTensor::ScaleBase => {
                self.scale_base = tensor;
            },
            KanTensor::ScaleShared => {
                self.scale_shared = tensor;
            },
            KanTensor::ScaleRouted => {
                self.scale_routed = tensor;
            },
            KanTensor::Router => {
                self.router = Some(tensor);
            },
            KanTensor::WeightBase => {
                self.weight_base = Some(tensor);
            },
            KanTensor::WeightShared => {
                self.weight_shared = Some(tensor);
            },
            KanTensor::WeightRouted => {
                self.weight_routed = Some(tensor);
            },
        }
        proof {
            assert(tensor_name(which) == name@);
            assert(old(self).with_tensor(which, given_shape, given, *self));
        }
        Ok(stale)
    }

    /// The tensors that are saved as numbers, in order.
    pub open spec fn saved(self) -> Seq<KanTensor> {
        seq![
            KanTensor::Centers,
            KanTensor::InvWidths,
            KanTensor::ScaleBase,
            KanTensor::ScaleShared,
            KanTensor::ScaleRouted,
        ] + only_if(self.router is Some, KanTensor::Router) + only_if(
            !self.packed && self.weight_base is Some,
            KanTensor::WeightBase,
        ) + only_if(
            !self.packed && self.weight_shared is Some,
            KanTensor::WeightShared,
        ) + only_if(!self.packed && self.weight_routed is Some, KanTensor::WeightRouted)
    }

    /// The routed codes are saved.
    pub open spec fn saves_routed_codes(self) -> bool {
        self.packed_codes matches Some(p) && p.packed_routed@.len() > 0 && self.n_routed > 0
    }

    /// How many packed planes are saved behind the tensors.
    pub open spec fn planes(self) -> int {
        if !self.packed || self.packed_codes is None {
            0
        } else if self.saves_routed_codes() {
            3
        } else {
            2
        }
    }

    /// The name, the bytes and the shape of a packed plane.
    pub open spec fn plane(self, i: int) -> (Seq<char>, Seq<u8>, Seq<usize>) {
        let p = self.packed_codes->0;
        let wide = (self.in_features * one_or_more(self.n_shared)) as usize;
        let routed = (self.in_features * self.n_routed) as usize;
        if i == 0 {
            ("packed_base"@, p.packed_base@, seq![self.out_features, self.in_features])
        } else if i == 1 {
            ("packed_shared"@, p.packed_shared@, seq![self.out_features, wide])
        } else {
            (
                "packed_routed"@,
                p.packed_routed@,
                seq![one_or_more(self.n_experts) as usize, self.out_features, routed],
            )
        }
    }

    /// The blob holds the tensor, under its name.
    pub open spec fn holds(self, which: KanTensor, blob: (String, NamedBlob)) -> bool {
        &&& blob.0@ == tensor_name(which)
        &&& self.tensor(which) matches Some(t) && (blob.1 matches NamedBlob::F32 { data, shape }
            && data@ == t.data@ && shape@ == t.shape@)
    }

    /// The blob holds the packed plane, under its name.
    pub open spec fn holds_plane(self, i: int, blob: (String, NamedBlob)) -> bool {
        &&& blob.0@ == self.plane(i).0
        &&& blob.1 matches NamedBlob::Packed { bytes, shape } && bytes@ == self.plane(i).1
            && shape@ == self.plane(i).2
    }

    fn save(&self, which: KanTensor) -> (blob: Option<(String, NamedBlob)>)
        ensures
            match blob {
                Some(b) => self.holds(which, b),
                None => self.tensor(which) is None,
            },
    {
        let tensor: &SovereignTensor = match which {
            KanTensor::Centers => &self.centers,
            KanTensor::InvWidths => &self.inv_widths,
            KanTensor::ScaleBase => &self.scale_base,
            KanTensor::ScaleShared => &self.scale_shared,
            KanTensor::ScaleRouted => &self.scale_routed,
            KanTensor::Router => match &self.router {
                Some(t) => t,
                None => return None,
            },
            KanTensor::WeightBase => match &self.weight_base {
                Some(t) => t,
                None => return None,
            },
            KanTensor::WeightShared => match &self.weight_shared {
                Some(t) => t,
                None => return None,
            },
            KanTensor::WeightRouted => match &self.weight_routed {
                Some(t) => t,
                None => return None,
            },
        };
        Some((which.name().to_owned(), tensor.to_blob()))
    }

    /// The blobs so far are those of `saved`.
    pub open spec fn lists(self, saved: Seq<KanTensor>, blobs: Seq<(String, NamedBlob)>) -> bool {
        &&& blobs.len() >= saved.len()
        &&& forall|i: int| 0 <= i < saved.len() ==> self.holds(saved[i], #[trigger] blobs[i])
    }

    fn push_saved(
        &self,
        out: &mut Vec<(String, NamedBlob)>,
        which: KanTensor,
        wanted: bool,
        Ghost(before): Ghost<Seq<KanTensor>>,
    )
        requires
            self.lists(before, old(out)@),
            old(out)@.len() == before.len(),
        ensures
            ({
                let now = before + only_if(wanted && self.tensor(which) is Some, which);
                self.lists(now, final(out)@) && final(out)@.len() == now.len()
            }),
    {
        if wanted {
            match self.save(which) {
                Some(blob) => {
                    out.push(blob);
                    proof {
                        let now = before + only_if(true, which);
                        assert forall|i: int| 0 <= i < now.len() implies self.holds(
                            now[i],
                            #[trigger] out@[i],
                        ) by {
                            if i < before.len() {
                                assert(now[i] == before[i]);
                                assert(self.holds(before[i], old(out)@[i]));
                            }
                        }
                    }
                },
                None => {
                    assert(before + only_if(false, which) =~= before);
                },
            }
        } else {
            assert(before + only_if(false, which) =~= before);
        }
    }

    /// Saves the layer: its tensors as numbers, and its packed planes behind
    /// them once it has been packed.
    pub fn named_tensors(&self) -> (blobs: Vec<(String, NamedBlob)>)
        requires
            self.in_features * one_or_more(self.n_shared) <= usize::MAX,
            self.in_features * self.n_routed <= usize::MAX,
        ensures
            blobs@.len() == self.saved().len() + self.planes(),
            self.lists(self.saved(), blobs@),
            forall|i: int|
                0 <= i < self.planes() ==> self.holds_plane(
                    i,
                    #[trigger] blobs@[self.saved().len() + i],
                ),
    {
        let mut out: Vec<(String, NamedBlob)> = Vec::new();
        let ghost mut done: Seq<KanTensor> = Seq::empty();
        self.push_saved(&mut out, KanTensor::Centers, true, Ghost(done));
        proof {
            done = done + only_if(true, KanTensor::Centers);
        }
        self.push_saved(&mut out, KanTensor::InvWidths, true, Ghost(done));
        proof {
            done = done + only_if(true, KanTensor::InvWidths);
        }
        self.push_saved(&mut out, KanTensor::ScaleBase, true, Ghost(done));
        proof {
            done = done + only_if(true, KanTensor::ScaleBase);
        }
        self.push_saved(&mut out, KanTensor::ScaleShared, true, Ghost(done));
        proof {
            done = done + only_if(true, KanTensor::ScaleShared);
        }
        self.push_saved(&mut out, KanTensor::ScaleRouted, true, Ghost(done));
        proof {
            done = done + only_if(true, KanTensor::ScaleRouted);
            assert(done =~= seq![
                KanTensor::Centers,
                KanTensor::InvWidths,
                KanTensor::ScaleBase,
                KanTensor::ScaleShared,
                KanTensor::ScaleRouted,
            ]);
        }
        self.push_saved(&mut out, KanTensor::Router, true, Ghost(done));
        proof {
            done = done + only_if(self.router is Some, KanTensor::Router);
        }
        let plain = !self.packed;
        self.push_saved(&mut out, KanTensor::WeightBase, plain, Ghost(done));
        proof {
            done = done + only_if(plain && self.weight_base is Some, KanTensor::WeightBase);
        }
        self.push_saved(&mut out, KanTensor::WeightShared, plain, Ghost(done));
        proof {
            done = done + only_if(plain && self.weight_shared is Some, KanTensor::WeightShared);
        }
        self.push_saved(&mut out, KanTensor::WeightRouted, plain, Ghost(done));
        proof {
            done = done + only_if(plain && self.weight_routed is Some, KanTensor::WeightRouted);
            assert(done =~= self.saved());
        }
        let ghost numbers = out@;
        if self.packed {
            match &self.packed_codes {
                Some(p) => {
                    let wide: usize = self.in_features * at_least_one(self.n_shared);
                    let base_shape: Vec<usize> = vec![self.out_features, self.in_features];
                    let shared_shape: Vec<usize> = vec![self.out_features, wide];
                    assert(base_shape@ =~= self.plane(0).2);
                    assert(shared_shape@ =~= self.plane(1).2);
                    out.push(
                        (
                            "packed_base".to_owned(),
                            NamedBlob::Packed {
                                bytes: copied_bytes(&p.packed_base),
                                shape: base_shape,
                            },
                        ),
                    );
                    out.push(
                        (
                            "packed_shared".to_owned(),
                            NamedBlob::Packed {
                                bytes: copied_bytes(&p.packed_shared),
                                shape: shared_shape,
                            },
                        ),
                    );
                    if p.packed_routed.len() > 0 && self.n_routed > 0 {
                        let routed_shape: Vec<usize> = vec![
                            at_least_one(self.n_experts),
                            self.out_features,
                            self.in_features * self.n_routed,
                        ];
                        assert(routed_shape@ =~= self.plane(2).2);
                        out.push(
                            (
                                "packed_routed".to_owned(),
                                NamedBlob::Packed {
                                    bytes: copied_bytes(&p.packed_routed),
                                    shape: routed_shape,
                                },
                            ),
                        );
                    }
                },
                None => {},
            }
        }
        proof {
            assert forall|i: int| 0 <= i < self.saved().len() implies self.holds(
                self.saved()[i],
                #[trigger] out@[i],
            ) by {
                assert(out@[i] == numbers[i]);
            }
        }
        out
    }

    /// Loading a saved tensor under its name into any layer gives that layer
    /// the tensor that was saved, and never fails.
    pub proof fn law_saved_tensors_load_back(
        self,
        which: KanTensor,
        blob: (String, NamedBlob),
        before: Self,
        after: Self,
        result: Result<bool, KanError>,
    )
        requires
            self.holds(which, blob),
            self.tensor(which)->0.wf(),
            blob.1 matches NamedBlob::F32 { data, shape } && (match result {
                Ok(_) => exists|w: KanTensor|
                    #![trigger tensor_name(w)]
                    tensor_name(w) == blob.0@ && before.with_tensor(w, shape@, data@, after),
                Err(_) => crate::checkpoint::volume_overflows(shape@) || data@.len()
                    != crate::checkpoint::volume(shape@) || forall|w: KanTensor|
                    #[trigger] tensor_name(w) != blob.0@,
            }),
        ensures
            result is Ok,
            after.tensor(which) matches Some(t) && t.data@ == self.tensor(which)->0.data@
                && t.shape@ == self.tensor(which)->0.shape@,
    {
        assert(tensor_name(which) == blob.0@);
        if result is Ok {
            let w = choose|w: KanTensor|
                #![trigger tensor_name(w)]
                tensor_name(w) == blob.0@ && before.with_tensor(
                    w,
                    blob.1->F32_shape@,
                    blob.1->F32_data@,
                    after,
                );
            law_layer_names_are_distinct(which, w);
        }
    }

    /// A later phase asks for the scales to be fitted to the weights: when the
    /// layer crosses into the third phase and still has weights.
    pub fn set_phase(&mut self, phase: u8) -> (fit: bool)
        ensures
            fit == (old(self).phase < 3 && phase >= 3 && !old(self).packed),
            final(self).phase == phase,
            forall|which: KanTensor| #[trigger]
                final(self).tensor(which) == old(self).tensor(which),
            *final(self) == (TernaryKanLinear { phase, ..*old(self) }),
    {
        let before: u8 = self.phase;
        self.phase = phase;
        before < 3 && phase >= 3 && !self.packed
    }

    /// Replaces the weights by their packed codes. A packed layer stays as it
    /// is.
    pub fn pack(&mut self, codes: PackedCodes)
        ensures
            old(self).packed ==> *final(self) == *old(self),
            !old(self).packed ==> *final(self) == (TernaryKanLinear {
                packed: true,
                phase: 4,
                packed_codes: Some(codes),
                weight_base: None,
                weight_shared: None,
                weight_routed: None,
                ..*old(self)
            }),
    {
        if self.packed {
            return;
        }
        self.packed_codes = Some(codes);
        self.weight_base = None;
        self.weight_shared = None;
        self.weight_routed = None;
        self.packed = true;
        self.phase = 4;
    }

    /// Counts how many tokens each expert was given a part of.
    pub fn record_routing(&mut self, gates: &[u32], n: usize, k: usize)
        requires
            n * k <= gates@.len(),
            n <= u32::MAX,
        ensures
            final(self).last_route_tokens == n,
            final(self).last_route_hits@.len() == k,
            forall|e: int|
                0 <= e < k ==> #[trigger] final(self).last_route_hits@[e] == hits(
                    gates@,
                    k as int,
                    e,
                    n as nat,
                ),
            forall|e: int|
                0 <= e < k ==> #[trigger] final(self).last_route_hits@[e] == routed_tokens(
                    gates@,
                    k as int,
                    e,
                    n as int,
                ).len(),
            *final(self) == (TernaryKanLinear {
                last_route_hits: final(self).last_route_hits,
                last_route_tokens: final(self).last_route_tokens,
                ..*old(self)
            }),
    {
        let mut counts: Vec<u32> = Vec::new();
        for e in 0..k
            invariant
                n * k <= gates@.len(),
                n <= u32::MAX,
                counts@.len() == e,
                forall|x: int|
                    0 <= x < e ==> #[trigger] counts@[x] == hits(gates@, k as int, x, n as nat),
        {
            let c: u32 = count_hits(gates, n, k, e);
            counts.push(c);
        }
        proof {
            assert forall|x: int| 0 <= x < k implies #[trigger] counts@[x] == routed_tokens(
                gates@,
                k as int,
                x,
                n as int,
            ).len() by {
                law_hits_count_the_routed_tokens(gates@, k as int, x, n as nat);
            }
        }
        self.last_route_hits = counts;
        self.last_route_tokens = n as u32;
    }
}

/// One tensor, or none.
pub open spec fn only_if(wanted: bool, which: KanTensor) -> Seq<KanTensor> {
    if wanted {
        seq![which]
    } else {
        Seq::empty()
    }
}

fn copied_bytes(data: &Vec<u8>) -> (copy: Vec<u8>)
    ensures
        copy@ == data@,
{
    let mut copy: Vec<u8> = Vec::new();
    let n: usize = data.len();
    for i in 0..n
        invariant
            n == data@.len(),
            copy@ == data@.take(i as int),
    {
        copy.push(data[i]);
        assert(data@.take(i + 1) =~= data@.take(i as int).push(data@[i as int]));
    }
    assert(data@.take(n as int) =~= data@);
    copy
}

/// Among the first `n` tokens, how many have a gate above zero to an expert.
pub open spec fn hits(gates: Seq<u32>, k: int, e: int, n: nat) -> nat
    decreases n,
{
    if n == 0 {
        0
    } else {
        hits(gates, k, e, (n - 1) as nat) + if crate::expert::gate_open(gates, k, e, n - 1) {
            1nat
        } else {
            0
        }
    }
}

/// The tokens that have a gate above zero to an expert.
pub open spec fn routed_tokens(gates: Seq<u32>, k: int, e: int, n: int) -> Set<int> {
    Set::new(|t: int| 0 <= t < n && 0 < gates[t * k + e] <= INFINITY_BITS)
}

/// An expert is hit once by each token that has a gate above zero to it.
pub proof fn law_hits_count_the_routed_tokens(gates: Seq<u32>, k: int, e: int, n: nat)
    ensures
        routed_tokens(gates, k, e, n as int).finite(),
        hits(gates, k, e, n) == routed_tokens(gates, k, e, n as int).len(),
    decreases n,
{
    if n == 0 {
        assert(routed_tokens(gates, k, e, 0) =~= Set::empty());
    } else {
        law_hits_count_the_routed_tokens(gates, k, e, (n - 1) as nat);
        let fewer = routed_tokens(gates, k, e, n - 1);
        if 0 < gates[(n - 1) * k + e] <= INFINITY_BITS {
            assert(routed_tokens(gates, k, e, n as int) =~= fewer.insert(n - 1));
        } else {
            assert(routed_tokens(gates, k, e, n as int) =~= fewer);
        }
    }
}

fn count_hits(gates: &[u32], n: usize, k: usize, e: usize) -> (count: u32)
    requires
        n * k <= gates@.len(),
        e < k,
        n <= u32::MAX,
    ensures
        count == hits(gates@, k as int, e as int, n as nat),
{
    let size: usize = gates.len();
    let mut count: u32 = 0;
    let mut at: usize = 0;
    assert(0 * k == 0);
    for t in 0..n
        invariant
            n * k <= size == gates@.len(),
            e < k,
            n <= u32::MAX,
            at == t * k,
            count <= t,
            count == hits(gates@, k as int, e as int, t as nat),
    {
        proof {
            assert(t * k + k <= n * k && (t + 1) * k == t * k + k) by (nonlinear_arith)
                requires
                    t < n,
                    k > 0,
            ;
        }
        let g: u32 = gates[at + e];
        if 0 < g && g <= INFINITY_BITS {
            count = count + 1;
        }
        at = at + k;
    }
    count
}

/// A launch describes its layer: its widths, its bumps by how they are shared and
/// routed, its experts where bumps are routed to any, and how it is evaluated; a
/// coarse evaluation uses four of the shared bumps, or all where there are fewer.
pub proof fn law_a_launch_describes_its_layer(layer: TernaryKanLinear, n: usize, coarse: bool)
    requires
        layer.launchable(n),
        1 <= layer.n_shared <= layer.n_basis,
    ensures
        ({
            let spec = layer_spec(layer, n, coarse);
            &&& spec.n == n && spec.in_f == layer.in_features && spec.out_f == layer.out_features
            &&& spec.g == layer.n_basis && spec.gs == layer.n_shared && spec.gr == layer.n_routed
            &&& layer.n_routed == 0 ==> spec.k == 0
            &&& layer.n_routed > 0 && layer.n_experts > 0 ==> spec.k == layer.n_experts
            &&& layer.n_routed > 0 && layer.n_experts == 0 ==> spec.k == 1
            &&& !coarse ==> spec.g_use == layer.n_shared && spec.coarse == 0
            &&& coarse ==> spec.coarse == 1 && spec.g_use <= 4 && spec.g_use
                <= layer.n_shared && (spec.g_use == 4 || spec.g_use == layer.n_shared)
            &&& spec.packed != 0 <==> layer.packed
            &&& spec.phase == layer.phase
            &&& spec.kan_factor == 1
            &&& spec.inv_width == layer.inv_width && spec.delta_ratio == layer.delta_ratio
        }),
{
}

/// A layer saves its knots and its scales in any case, its router where it has
/// one, and its weights where it has them and has not packed them.
pub proof fn law_layers_save_what_they_hold(layer: TernaryKanLinear, which: KanTensor)
    ensures
        layer.saved().contains(which) <==> match which {
            KanTensor::Centers | KanTensor::InvWidths | KanTensor::ScaleBase
            | KanTensor::ScaleShared | KanTensor::ScaleRouted => true,
            KanTensor::Router => layer.router is Some,
            KanTensor::WeightBase => !layer.packed && layer.weight_base is Some,
            KanTensor::WeightShared => !layer.packed && layer.weight_shared is Some,
            KanTensor::WeightRouted => !layer.packed && layer.weight_routed is Some,
        },
{
    let first = seq![
        KanTensor::Centers,
        KanTensor::InvWidths,
        KanTensor::ScaleBase,
        KanTensor::ScaleShared,
        KanTensor::ScaleRouted,
    ];
    let a = only_if(layer.router is Some, KanTensor::Router);
    let b = only_if(!layer.packed && layer.weight_base is Some, KanTensor::WeightBase);
    let c = only_if(!layer.packed && layer.weight_shared is Some, KanTensor::WeightShared);
    let d = only_if(!layer.packed && layer.weight_routed is Some, KanTensor::WeightRouted);
    assert(first[0] == KanTensor::Centers && first[1] == KanTensor::InvWidths && first[2]
        == KanTensor::ScaleBase && first[3] == KanTensor::ScaleShared && first[4]
        == KanTensor::ScaleRouted);
    lemma_held_by_either(first, a, which);
    lemma_held_by_either(first + a, b, which);
    lemma_held_by_either(first + a + b, c, which);
    lemma_held_by_either(first + a + b + c, d, which);
    lemma_only_if(layer.router is Some, KanTensor::Router, which);
    lemma_only_if(!layer.packed && layer.weight_base is Some, KanTensor::WeightBase, which);
    lemma_only_if(!layer.packed && layer.weight_shared is Some, KanTensor::WeightShared, which);
    lemma_only_if(!layer.packed && layer.weight_routed is Some, KanTensor::WeightRouted, which);
}

proof fn lemma_only_if(wanted: bool, one: KanTensor, which: KanTensor)
    ensures
        only_if(wanted, one).contains(which) <==> wanted && one == which,
{
    if wanted {
        assert(only_if(wanted, one)[0] == one);
    }
}

proof fn lemma_held_by_either(a: Seq<KanTensor>, b: Seq<KanTensor>, which: KanTensor)
    ensures
        (a + b).contains(which) <==> a.contains(which) || b.contains(which),
{
    if a.contains(which) {
        let i = choose|i: int| 0 <= i < a.len() && a[i] == which;
        assert((a + b)[i] == which);
    }
    if b.contains(which) {
        let i = choose|i: int| 0 <= i < b.len() && b[i] == which;
        assert((a + b)[a.len() + i] == which);
    }
}

/// The packed planes are told apart by their names, and their shapes hold a code
/// for each weight: for each output and input, for each shared bump of them, and
/// for each routed bump of them and each expert.
pub proof fn law_planes_hold_a_code_for_each_weight(layer: TernaryKanLinear)
    requires
        layer.in_features * one_or_more(layer.n_shared) <= usize::MAX,
        layer.in_features * layer.n_routed <= usize::MAX,
    ensures
        layer.plane(0).0 != layer.plane(1).0,
        layer.plane(0).0 != layer.plane(2).0,
        layer.plane(1).0 != layer.plane(2).0,
        crate::checkpoint::volume(layer.plane(0).2) == layer.out_features * layer.in_features,
        crate::checkpoint::volume(layer.plane(1).2) == layer.out_features * (layer.in_features
            * one_or_more(layer.n_shared)),
        crate::checkpoint::volume(layer.plane(2).2) == one_or_more(layer.n_experts)
            * layer.out_features * (layer.in_features * layer.n_routed),
{
    reveal_strlit("packed_base");
    reveal_strlit("packed_shared");
    reveal_strlit("packed_routed");
    assert("packed_shared"@[7] != "packed_routed"@[7]);
    lemma_volume_of_two(layer.plane(0).2);
    lemma_volume_of_two(layer.plane(1).2);
    let routed = layer.plane(2).2;
    reveal_with_fuel(crate::checkpoint::volume, 2);
    assert(routed.drop_last() =~= seq![routed[0], routed[1]]);
    lemma_volume_of_two(routed.drop_last());
}

proof fn lemma_volume_of_two(shape: Seq<usize>)
    requires
        shape.len() == 2,
    ensures
        crate::checkpoint::volume(shape) == shape[0] * shape[1],
{
    crate::checkpoint::law_volumes_multiply(seq![shape[0]], seq![shape[1]], shape[0]);
    crate::checkpoint::law_volumes_multiply(seq![shape[0]], seq![shape[1]], shape[1]);
    assert(seq![shape[0]] + seq![shape[1]] =~= shape);
}

/// A token selects as many experts as were asked for, or all where there are
/// fewer.
pub proof fn law_selected_experts(layer: TernaryKanLinear)
    ensures
        0 <= layer.selected_experts() <= layer.expert_count(),
        layer.selected_experts() <= layer.moe_topk,
        layer.selected_experts() == layer.expert_count() || layer.selected_experts()
            == layer.moe_topk,
{
}

/// A packed layer saves a plane for its base and one for its shared weights, and
/// one for its routed weights where it has any; any other layer saves none.
pub proof fn law_planes_that_are_saved(layer: TernaryKanLinear)
    ensures
        !layer.packed || layer.packed_codes is None ==> layer.planes() == 0,
        layer.packed ==> (layer.packed_codes matches Some(p) ==> layer.planes() == if layer.n_routed
            > 0 && p.packed_routed@.len() > 0 {
            3int
        } else {
            2
        }),
{
}

} // verus!
