//! Parameters of the memory model: which tensors it has, how they are saved
//! under their names, and how a saved tensor finds its way back.
//!
//! Real numbers are held by their bit patterns.
use vstd::prelude::*;
use vstd::string::*;
use crate::accelerate::{is_above, NEG_INFINITY_BITS};
use crate::checkpoint::NamedBlob;
use crate::expert::{copied, copied_slice, TernaryExpert};
use crate::names::{tensor_named, BlockPart, ExpertPart, SlotPart, TensorId};
use crate::text::push_decimal;

verus! {

/// The sizes that fix a memory model.
#[derive(Clone, Copy, Debug, PartialEq, Eq, Structural)]
pub struct MemoryConfig {
    pub d_model: usize,
    pub vocab_size: usize,
    pub n_layers: usize,
    pub mem_experts: usize,
    pub expert_width: usize,
    pub n_slots: usize,
}

/// Parameters of the slots of a block.
#[derive(Debug)]
pub struct SlotParams {
    pub w_q: Vec<u32>,
    pub w_w: Vec<u32>,
    pub w_link: Vec<u32>,
    pub b_link: u32,
    pub w_bk: u32,
    pub b_bk: u32,
    pub w_bv: u32,
    pub b_bv: u32,
    pub gamma: u32,
    pub b_alloc: u32,
}

impl SlotParams {
    /// The numbers of a tensor of the slots.
    pub open spec fn part(self, part: SlotPart) -> Seq<u32> {
        match part {
            SlotPart::WQ => self.w_q@,
            SlotPart::WW => self.w_w@,
            SlotPart::WLink => self.w_link@,
            SlotPart::BLink => seq![self.b_link],
            SlotPart::WBk => seq![self.w_bk],
            SlotPart::BBk => seq![self.b_bk],
            SlotPart::WBv => seq![self.w_bv],
            SlotPart::BBv => seq![self.b_bv],
            SlotPart::Gamma => seq![self.gamma],
            SlotPart::BAlloc => seq![self.b_alloc],
        }
    }

    fn copy_part(&self, part: SlotPart) -> (data: Vec<u32>)
        ensures
            data@ == self.part(part),
    {
        match part {
            SlotPart::WQ => copied(&self.w_q),
            SlotPart::WW => copied(&self.w_w),
            SlotPart::WLink => copied(&self.w_link),
            SlotPart::BLink => vec![self.b_link],
            SlotPart::WBk => vec![self.w_bk],
            SlotPart::BBk => vec![self.b_bk],
            SlotPart::WBv => vec![self.w_bv],
            SlotPart::BBv => vec![self.b_bv],
            SlotPart::Gamma => vec![self.gamma],
            SlotPart::BAlloc => vec![self.b_alloc],
        }
    }

    fn set_part(&mut self, part: SlotPart, data: Vec<u32>)
        requires
            crate::names::single_slot(part) ==> data@.len() == 1,
        ensures
            final(self).part(part) == data@,
            forall|p: SlotPart| p != part ==> #[trigger] final(self).part(p) == old(self).part(p),
    {
        match part {
            SlotPart::WQ => {
                self.w_q = data;
            },
            SlotPart::WW => {
                self.w_w = data;
            },
            SlotPart::WLink => {
                self.w_link = data;
            },
            SlotPart::BLink => {
                self.b_link = data[0];
            },
            SlotPart::WBk => {
                self.w_bk = data[0];
            },
            SlotPart::BBk => {
                self.b_bk = data[0];
            },
            SlotPart::WBv => {
                self.w_bv = data[0];
            },
            SlotPart::BBv => {
                self.b_bv = data[0];
            },
            SlotPart::Gamma => {
                self.gamma = data[0];
            },
            SlotPart::BAlloc => {
                self.b_alloc = data[0];
            },
        }
        assert(self.part(part) =~= data@);
    }
}

/// Parameters of one block.
#[derive(Debug)]
pub struct MemoryBlock {
    pub n1: Vec<u32>,
    pub n2: Vec<u32>,
    pub n_slot: Vec<u32>,
    pub w_alpha: Vec<u32>,
    pub b_alpha: Vec<u32>,
    pub w_i: Vec<u32>,
    pub b_i: Vec<u32>,
    pub router: Vec<u32>,
    pub experts: Vec<TernaryExpert>,
    pub slots: Option<SlotParams>,
}

impl MemoryBlock {
    /// The numbers of a tensor of the block.
    pub open spec fn part(self, part: BlockPart) -> Seq<u32> {
        match part {
            BlockPart::N1 => self.n1@,
            BlockPart::N2 => self.n2@,
            BlockPart::NSlot => self.n_slot@,
            BlockPart::WAlpha => self.w_alpha@,
            BlockPart::BAlpha => self.b_alpha@,
            BlockPart::WI => self.w_i@,
            BlockPart::BI => self.b_i@,
            BlockPart::Router => self.router@,
        }
    }

    fn copy_part(&self, part: BlockPart) -> (data: Vec<u32>)
        ensures
            data@ == self.part(part),
    {
        match part {
            BlockPart::N1 => copied(&self.n1),
            BlockPart::N2 => copied(&self.n2),
            BlockPart::NSlot => copied(&self.n_slot),
            BlockPart::WAlpha => copied(&self.w_alpha),
            BlockPart::BAlpha => copied(&self.b_alpha),
            BlockPart::WI => copied(&self.w_i),
            BlockPart::BI => copied(&self.b_i),
            BlockPart::Router => copied(&self.router),
        }
    }

    fn set_part(&mut self, part: BlockPart, data: Vec<u32>)
        ensures
            final(self).part(part) == data@,
            forall|p: BlockPart| p != part ==> #[trigger] final(self).part(p) == old(self).part(p),
            final(self).experts == old(self).experts,
            final(self).slots == old(self).slots,
    {
        match part {
            BlockPart::N1 => {
                self.n1 = data;
            },
            BlockPart::N2 => {
                self.n2 = data;
            },
            BlockPart::NSlot => {
                self.n_slot = data;
            },
            BlockPart::WAlpha => {
                self.w_alpha = data;
            },
            BlockPart::BAlpha => {
                self.b_alpha = data;
            },
            BlockPart::WI => {
                self.w_i = data;
            },
            BlockPart::BI => {
                self.b_i = data;
            },
            BlockPart::Router => {
                self.router = data;
            },
        }
    }
}

/// The parameters of a memory model.
#[derive(Debug)]
pub struct UllisMemory {
    pub cfg: MemoryConfig,
    pub embed: Vec<u32>,
    pub norm: Vec<u32>,
    pub blocks: Vec<MemoryBlock>,
    pub phase: u8,
}

/// Why a model could not be made or a tensor not be loaded.
#[derive(Clone, Copy, Debug, PartialEq, Eq, Structural)]
pub enum MemoryError {
    ZeroWidth,
    Length { found: usize, expected: usize },
    EmptyContext,
}

impl UllisMemory {
    /// The numbers of a tensor, when the model has it.
    pub open spec fn tensor(self, id: TensorId) -> Option<Seq<u32>> {
        match id {
            TensorId::Embed => Some(self.embed@),
            TensorId::Norm => Some(self.norm@),
            TensorId::Block { block, part } => if block < self.blocks@.len() {
                Some(self.blocks@[block as int].part(part))
            } else {
                None
            },
            TensorId::Expert { block, expert, part } => if block < self.blocks@.len() && expert
                < self.blocks@[block as int].experts@.len() {
                Some(self.blocks@[block as int].experts@[expert as int].part(part))
            } else {
                None
            },
            TensorId::Slot { block, part } => if block < self.blocks@.len() {
                match self.blocks@[block as int].slots {
                    Some(slots) => Some(slots.part(part)),
                    None => None,
                }
            } else {
                None
            },
        }
    }

    /// Packed codes that stand in a tensor's place.
    pub open spec fn codes(self, id: TensorId) -> Option<Seq<u8>> {
        match id {
            TensorId::Expert { block, expert, part } => if block < self.blocks@.len() && expert
                < self.blocks@[block as int].experts@.len() {
                self.blocks@[block as int].experts@[expert as int].codes(part)
            } else {
                None
            },
            _ => None,
        }
    }

    /// How the numbers of a tensor are laid out.
    pub open spec fn shape(self, id: TensorId) -> Seq<usize> {
        let d = self.cfg.d_model;
        match id {
            TensorId::Embed => seq![self.cfg.vocab_size, d],
            TensorId::Norm => seq![d],
            TensorId::Block { block, part } => if part is Router {
                seq![self.blocks@[block as int].experts.len(), d]
            } else {
                seq![d]
            },
            TensorId::Expert { block, expert, part } =>
                self.blocks@[block as int].experts@[expert as int].shape(part),
            TensorId::Slot { block, part } => if id.single() {
                seq![1]
            } else {
                seq![d]
            },
        }
    }

    /// `blob` is how the tensor is saved: its packed codes where it has been
    /// packed, and its numbers otherwise.
    pub open spec fn saves(self, id: TensorId, blob: NamedBlob) -> bool {
        match self.codes(id) {
            Some(codes) => blob matches NamedBlob::Packed { bytes, shape } && bytes@ == codes
                && shape@ == self.shape(id),
            None => blob matches NamedBlob::F32 { data, shape } && self.tensor(id) == Some(data@)
                && shape@ == self.shape(id),
        }
    }

    /// The widths, the phase and the packed flag of an expert.
    pub open spec fn setting(self, block: int, expert: int) -> (usize, usize, u8, bool) {
        let e = self.blocks@[block].experts@[expert];
        (e.d, e.w, e.phase, e.packed)
    }

    /// How many experts a block has.
    pub open spec fn experts_in(self, block: int) -> nat {
        self.blocks@[block].experts@.len()
    }

    /// The blocks have the same experts, as far as their number goes.
    pub open spec fn same_experts(self, other: Self) -> bool {
        &&& self.blocks@.len() == other.blocks@.len()
        &&& forall|b: int|
            0 <= b < self.blocks@.len() ==> #[trigger] self.experts_in(b) == other.experts_in(b)
    }

    /// Everything but the numbers of the tensors is the same.
    pub open spec fn same_frame(self, other: Self) -> bool {
        &&& self.cfg == other.cfg
        &&& self.phase == other.phase
        &&& self.same_experts(other)
        &&& forall|b: int, e: int|
            0 <= b < self.blocks@.len() && 0 <= e < self.experts_in(b) ==> #[trigger] self.setting(
                b,
                e,
            ) == other.setting(b, e)
        &&& forall|id: TensorId|
            (#[trigger] self.tensor(id)) is Some <==> other.tensor(id) is Some
        &&& forall|id: TensorId| #[trigger] self.codes(id) == other.codes(id)
    }

    /// `after` is this model with other numbers in one tensor.
    pub open spec fn with_tensor(self, id: TensorId, data: Seq<u32>, after: Self) -> bool {
        &&& self.same_frame(after)
        &&& after.tensor(id) == Some(data)
        &&& forall|other: TensorId|
            other != id ==> #[trigger] after.tensor(other) == self.tensor(other)
    }

    /// The tensors of an expert, in the order in which they are saved.
    pub open spec fn expert_ids(block: usize, expert: usize) -> Seq<TensorId> {
        seq![
            TensorId::Expert { block, expert, part: ExpertPart::WUp },
            TensorId::Expert { block, expert, part: ExpertPart::WGate },
            TensorId::Expert { block, expert, part: ExpertPart::WDown },
            TensorId::Expert { block, expert, part: ExpertPart::Bumps },
            TensorId::Expert { block, expert, part: ExpertPart::ScaleUp },
            TensorId::Expert { block, expert, part: ExpertPart::ScaleGate },
            TensorId::Expert { block, expert, part: ExpertPart::ScaleDown },
        ]
    }

    /// The tensors of the first `n` experts of a block.
    pub open spec fn experts_ids(block: usize, n: nat) -> Seq<TensorId>
        decreases n,
    {
        if n == 0 {
            Seq::empty()
        } else {
            Self::experts_ids(block, (n - 1) as nat) + Self::expert_ids(block, (n - 1) as usize)
        }
    }

    /// The tensors that every block has.
    pub open spec fn common_ids(block: usize) -> Seq<TensorId> {
        seq![
            TensorId::Block { block, part: BlockPart::N1 },
            TensorId::Block { block, part: BlockPart::N2 },
            TensorId::Block { block, part: BlockPart::NSlot },
            TensorId::Block { block, part: BlockPart::WAlpha },
            TensorId::Block { block, part: BlockPart::BAlpha },
            TensorId::Block { block, part: BlockPart::WI },
            TensorId::Block { block, part: BlockPart::BI },
        ]
    }

    /// The router of a block, when it holds any numbers.
    pub open spec fn router_ids(blk: MemoryBlock, block: usize) -> Seq<TensorId> {
        if blk.router@.len() > 0 {
            seq![TensorId::Block { block, part: BlockPart::Router }]
        } else {
            Seq::empty()
        }
    }

    /// The tensors of the slots of a block, when it has slots.
    pub open spec fn slots_ids(blk: MemoryBlock, block: usize) -> Seq<TensorId> {
        if blk.slots is Some {
            seq![
                TensorId::Slot { block, part: SlotPart::WQ },
                TensorId::Slot { block, part: SlotPart::WW },
                TensorId::Slot { block, part: SlotPart::WLink },
                TensorId::Slot { block, part: SlotPart::BLink },
                TensorId::Slot { block, part: SlotPart::WBk },
                TensorId::Slot { block, part: SlotPart::BBk },
                TensorId::Slot { block, part: SlotPart::WBv },
                TensorId::Slot { block, part: SlotPart::BBv },
                TensorId::Slot { block, part: SlotPart::Gamma },
                TensorId::Slot { block, part: SlotPart::BAlloc },
            ]
        } else {
            Seq::empty()
        }
    }

    /// The tensors of a block, in the order in which they are saved.
    pub open spec fn block_ids(blk: MemoryBlock, block: usize) -> Seq<TensorId> {
        Self::common_ids(block) + Self::router_ids(blk, block) + Self::experts_ids(
            block,
            blk.experts@.len(),
        ) + Self::slots_ids(blk, block)
    }

    /// The tensors of the first `n` blocks.
    pub open spec fn blocks_ids(self, n: nat) -> Seq<TensorId>
        decreases n,
    {
        if n == 0 {
            Seq::empty()
        } else {
            self.blocks_ids((n - 1) as nat) + Self::block_ids(self.blocks@[n - 1], (n - 1) as usize)
        }
    }

    /// The tensors of the model, in the order in which they are saved.
    pub open spec fn ids(self) -> Seq<TensorId> {
        seq![TensorId::Embed, TensorId::Norm] + self.blocks_ids(self.blocks@.len())
    }

    /// The blobs are the tensors of `ids`, each under its name.
    pub open spec fn lists(self, ids: Seq<TensorId>, blobs: Seq<(String, NamedBlob)>) -> bool {
        &&& blobs.len() == ids.len()
        &&& forall|i: int|
            0 <= i < ids.len() ==> (#[trigger] blobs[i]).0@ == ids[i].name() && self.saves(
                ids[i],
                blobs[i].1,
            )
    }

    /// What loading numbers under the name of a tensor of the model does. A
    /// single number is taken from the front of what is given; for the others
    /// the length has to agree.
    pub open spec fn loads(
        self,
        id: TensorId,
        data: Seq<u32>,
        result: Result<(), MemoryError>,
        after: Self,
    ) -> bool {
        let held = self.tensor(id)->0;
        if id.single() {
            result is Ok && if data.len() == 0 {
                after == self
            } else {
                self.with_tensor(id, seq![data[0]], after)
            }
        } else if data.len() != held.len() {
            result == Err::<(), MemoryError>(
                MemoryError::Length { found: data.len() as usize, expected: held.len() as usize },
            ) && after == self
        } else {
            result is Ok && self.with_tensor(id, data, after)
        }
    }

    fn tensor_len(&self, id: TensorId) -> (len: Option<usize>)
        ensures
            match len {
                Some(n) => self.tensor(id) is Some && (!id.single() ==> n == self.tensor(
                    id,
                )->0.len()),
                None => self.tensor(id) is None,
            },
    {
        match id {
            TensorId::Embed => Some(self.embed.len()),
            TensorId::Norm => Some(self.norm.len()),
            TensorId::Block { block, part } => {
                if block >= self.blocks.len() {
                    return None;
                }
                let blk = &self.blocks[block];
                Some(
                    match part {
                        BlockPart::N1 => blk.n1.len(),
                        BlockPart::N2 => blk.n2.len(),
                        BlockPart::NSlot => blk.n_slot.len(),
                        BlockPart::WAlpha => blk.w_alpha.len(),
                        BlockPart::BAlpha => blk.b_alpha.len(),
                        BlockPart::WI => blk.w_i.len(),
                        BlockPart::BI => blk.b_i.len(),
                        BlockPart::Router => blk.router.len(),
                    },
                )
            },
            TensorId::Expert { block, expert, part } => {
                if block >= self.blocks.len() || expert >= self.blocks[block].experts.len() {
                    return None;
                }
                let e = &self.blocks[block].experts[expert];
                Some(
                    match part {
                        ExpertPart::WUp => e.w_up.len(),
                        ExpertPart::WGate => e.w_gate.len(),
                        ExpertPart::WDown => e.w_down.len(),
                        ExpertPart::Bumps => e.bumps.len(),
                        ExpertPart::ScaleUp => e.scale_up.len(),
                        ExpertPart::ScaleGate => e.scale_gate.len(),
                        ExpertPart::ScaleDown => e.scale_down.len(),
                    },
                )
            },
            TensorId::Slot { block, part } => {
                if block >= self.blocks.len() {
                    return None;
                }
                match &self.blocks[block].slots {
                    Some(s) => Some(
                        match part {
                            SlotPart::WQ => s.w_q.len(),
                            SlotPart::WW => s.w_w.len(),
                            SlotPart::WLink => s.w_link.len(),
                            _ => 1,
                        },
                    ),
                    None => None,
                }
            },
        }
    }

    fn put(&mut self, id: TensorId, data: Vec<u32>)
        requires
            old(self).tensor(id) is Some,
            id.single() ==> data@.len() == 1,
        ensures
            old(self).with_tensor(id, data@, *final(self)),
    {
        match id {
            TensorId::Embed => {
                self.embed = data;
            },
            TensorId::Norm => {
                self.norm = data;
            },
            TensorId::Block { block, part } => {
                self.blocks[block].set_part(part, data);
            },
            TensorId::Expert { block, expert, part } => {
                self.blocks[block].experts[expert].set_part(part, data);
            },
            TensorId::Slot { block, part } => {
                match &mut self.blocks[block].slots {
                    Some(slots) => {
                        slots.set_part(part, data);
                    },
                    None => {},
                }
            },
        }
    }

    /// Puts numbers that were read under a name into the tensor of that name.
    /// A name that the model has no tensor for changes nothing.
    pub fn load_f32(&mut self, name: &str, data: &[u32]) -> (result: Result<(), MemoryError>)
        ensures
            forall|id: TensorId|
                #[trigger] id.name() == name@ && old(self).tensor(id) is Some ==> old(self).loads(
                    id,
                    data@,
                    result,
                    *final(self),
                ),
            (forall|id: TensorId|
                old(self).tensor(id) is Some ==> #[trigger] id.name() != name@) ==> result is Ok
                && *final(self) == *old(self),
    {
        let id = match tensor_named(name) {
            Some(id) => id,
            None => return Ok(()),
        };
        proof {
            assert forall|other: TensorId| #[trigger] other.name() == name@ implies other == id by {
                crate::names::law_names_are_distinct(other, id);
            }
        }
        let held: usize = match self.tensor_len(id) {
            Some(n) => n,
            None => return Ok(()),
        };
        let single = match id {
            TensorId::Slot { part, .. } => match part {
                SlotPart::WQ | SlotPart::WW | SlotPart::WLink => false,
                _ => true,
            },
            _ => false,
        };
        assert(single == id.single());
        if single {
            if data.len() > 0 {
                self.put(id, vec![data[0]]);
            }
            return Ok(());
        }
        if data.len() != held {
            return Err(MemoryError::Length { found: data.len(), expected: held });
        }
        self.put(id, copied_slice(data));
        Ok(())
    }

    fn save(&self, id: TensorId) -> (blob: (String, NamedBlob))
        requires
            self.tensor(id) is Some,
        ensures
            blob.0@ == id.name(),
            self.saves(id, blob.1),
    {
        let d: usize = self.cfg.d_model;
        let blob = match id {
            TensorId::Embed => NamedBlob::F32 {
                data: copied(&self.embed),
                shape: vec![self.cfg.vocab_size, d],
            },
            TensorId::Norm => NamedBlob::F32 { data: copied(&self.norm), shape: vec![d] },
            TensorId::Block { block, part } => {
                let blk = &self.blocks[block];
                let shape: Vec<usize> = match part {
                    BlockPart::Router => vec![blk.experts.len(), d],
                    _ => vec![d],
                };
                NamedBlob::F32 { data: blk.copy_part(part), shape }
            },
            TensorId::Expert { block, expert, part } => {
                let e = &self.blocks[block].experts[expert];
                let shape: Vec<usize> = e.copy_shape(part);
                match e.copy_codes(part) {
                    Some(bytes) => NamedBlob::Packed { bytes, shape },
                    None => NamedBlob::F32 { data: e.copy_part(part), shape },
                }
            },
            TensorId::Slot { block, part } => {
                let shape: Vec<usize> = match part {
                    SlotPart::WQ | SlotPart::WW | SlotPart::WLink => vec![d],
                    _ => vec![1],
                };
                let data: Vec<u32> = match &self.blocks[block].slots {
                    Some(s) => s.copy_part(part),
                    None => Vec::new(),
                };
                NamedBlob::F32 { data, shape }
            },
        };
        proof {
            match &blob {
                NamedBlob::F32 { data, shape } => {
                    assert(shape@ =~= self.shape(id));
                },
                NamedBlob::Packed { bytes, shape } => {
                    assert(shape@ =~= self.shape(id));
                },
                _ => {},
            }
        }
        (id.write_name(), blob)
    }

    fn list_expert(out: &mut Vec<TensorId>, block: usize, expert: usize)
        ensures
            final(out)@ == old(out)@ + Self::expert_ids(block, expert),
    {
        out.push(TensorId::Expert { block, expert, part: ExpertPart::WUp });
        out.push(TensorId::Expert { block, expert, part: ExpertPart::WGate });
        out.push(TensorId::Expert { block, expert, part: ExpertPart::WDown });
        out.push(TensorId::Expert { block, expert, part: ExpertPart::Bumps });
        out.push(TensorId::Expert { block, expert, part: ExpertPart::ScaleUp });
        out.push(TensorId::Expert { block, expert, part: ExpertPart::ScaleGate });
        out.push(TensorId::Expert { block, expert, part: ExpertPart::ScaleDown });
        assert(out@ =~= old(out)@ + Self::expert_ids(block, expert));
    }

    fn list_slots(out: &mut Vec<TensorId>, blk: &MemoryBlock, block: usize)
        ensures
            final(out)@ == old(out)@ + Self::slots_ids(*blk, block),
    {
        if blk.slots.is_some() {
            out.push(TensorId::Slot { block, part: SlotPart::WQ });
            out.push(TensorId::Slot { block, part: SlotPart::WW });
            out.push(TensorId::Slot { block, part: SlotPart::WLink });
            out.push(TensorId::Slot { block, part: SlotPart::BLink });
            out.push(TensorId::Slot { block, part: SlotPart::WBk });
            out.push(TensorId::Slot { block, part: SlotPart::BBk });
            out.push(TensorId::Slot { block, part: SlotPart::WBv });
            out.push(TensorId::Slot { block, part: SlotPart::BBv });
            out.push(TensorId::Slot { block, part: SlotPart::Gamma });
            out.push(TensorId::Slot { block, part: SlotPart::BAlloc });
        }
        assert(out@ =~= old(out)@ + Self::slots_ids(*blk, block));
    }

    fn list_block(out: &mut Vec<TensorId>, blk: &MemoryBlock, block: usize)
        ensures
            final(out)@ == old(out)@ + Self::block_ids(*blk, block),
    {
        out.push(TensorId::Block { block, part: BlockPart::N1 });
        out.push(TensorId::Block { block, part: BlockPart::N2 });
        out.push(TensorId::Block { block, part: BlockPart::NSlot });
        out.push(TensorId::Block { block, part: BlockPart::WAlpha });
        out.push(TensorId::Block { block, part: BlockPart::BAlpha });
        out.push(TensorId::Block { block, part: BlockPart::WI });
        out.push(TensorId::Block { block, part: BlockPart::BI });
        if blk.router.len() > 0 {
            out.push(TensorId::Block { block, part: BlockPart::Router });
        }
        let ghost front = old(out)@ + Self::common_ids(block) + Self::router_ids(*blk, block);
        assert(out@ =~= front);
        let n: usize = blk.experts.len();
        assert(Self::experts_ids(block, 0) =~= Seq::empty());
        assert(front + Self::experts_ids(block, 0) =~= front);
        for expert in 0..n
            invariant
                n == blk.experts@.len(),
                out@ == front + Self::experts_ids(block, expert as nat),
        {
            Self::list_expert(out, block, expert);
            assert(out@ =~= front + Self::experts_ids(block, (expert + 1) as nat));
        }
        Self::list_slots(out, blk, block);
        assert(out@ =~= old(out)@ + Self::block_ids(*blk, block));
    }

    /// Lists the tensors of the model in the order in which they are saved.
    pub fn tensor_ids(&self) -> (out: Vec<TensorId>)
        ensures
            out@ == self.ids(),
    {
        let mut out: Vec<TensorId> = vec![TensorId::Embed, TensorId::Norm];
        let n: usize = self.blocks.len();
        let ghost front = seq![TensorId::Embed, TensorId::Norm];
        assert(out@ =~= front + self.blocks_ids(0));
        for block in 0..n
            invariant
                n == self.blocks@.len(),
                out@ == front + self.blocks_ids(block as nat),
        {
            Self::list_block(&mut out, &self.blocks[block], block);
            assert(out@ =~= front + self.blocks_ids((block + 1) as nat));
        }
        out
    }

    proof fn lemma_experts_ids(block: usize, n: nat, i: int)
        requires
            n <= usize::MAX,
            0 <= i < Self::experts_ids(block, n).len(),
        ensures
            Self::experts_ids(block, n)[i] matches TensorId::Expert { block: b, expert, .. } && b
                == block && expert < n,
        decreases n,
    {
        if n > 0 {
            let front = Self::experts_ids(block, (n - 1) as nat);
            if i < front.len() {
                Self::lemma_experts_ids(block, (n - 1) as nat, i);
                assert(Self::experts_ids(block, n)[i] == front[i]);
            } else {
                assert(Self::experts_ids(block, n)[i] == Self::expert_ids(
                    block,
                    (n - 1) as usize,
                )[i - front.len()]);
            }
        }
    }

    // A tensor on the list of a block belongs to that block.
    proof fn lemma_block_ids(blk: MemoryBlock, block: usize, i: int)
        requires
            0 <= i < Self::block_ids(blk, block).len(),
        ensures
            match Self::block_ids(blk, block)[i] {
                TensorId::Block { block: b, .. } => b == block,
                TensorId::Expert { block: b, expert, .. } => b == block && expert
                    < blk.experts@.len(),
                TensorId::Slot { block: b, .. } => b == block && blk.slots is Some,
                _ => false,
            },
    {
        let a = Self::common_ids(block);
        let b = Self::router_ids(blk, block);
        let c = Self::experts_ids(block, blk.experts@.len());
        let d = Self::slots_ids(blk, block);
        let all = Self::block_ids(blk, block);
        assert(blk.experts@.len() == blk.experts.len());
        if i < a.len() {
            assert(all[i] == a[i]);
        } else if i < a.len() + b.len() {
            assert(all[i] == b[i - a.len()]);
        } else if i < a.len() + b.len() + c.len() {
            assert(all[i] == c[i - a.len() - b.len()]);
            Self::lemma_experts_ids(block, blk.experts@.len(), i - a.len() - b.len());
        } else {
            assert(all[i] == d[i - a.len() - b.len() - c.len()]);
        }
    }

    proof fn lemma_blocks_ids(self, n: nat, i: int)
        requires
            n <= self.blocks@.len(),
            0 <= i < self.blocks_ids(n).len(),
        ensures
            self.tensor(self.blocks_ids(n)[i]) is Some,
            match self.blocks_ids(n)[i] {
                TensorId::Block { block, .. } => block < n,
                TensorId::Expert { block, .. } => block < n,
                TensorId::Slot { block, .. } => block < n,
                _ => false,
            },
        decreases n,
    {
        if n > 0 {
            let front = self.blocks_ids((n - 1) as nat);
            let blk = self.blocks@[n - 1];
            assert(self.blocks@.len() == self.blocks.len());
            if i < front.len() {
                self.lemma_blocks_ids((n - 1) as nat, i);
                assert(self.blocks_ids(n)[i] == front[i]);
            } else {
                let own = Self::block_ids(blk, (n - 1) as usize);
                assert(self.blocks_ids(n)[i] == own[i - front.len()]);
                Self::lemma_block_ids(blk, (n - 1) as usize, i - front.len());
            }
        }
    }

    /// Every tensor on the list is one that the model has.
    pub proof fn lemma_listed(self, i: int)
        requires
            0 <= i < self.ids().len(),
        ensures
            self.tensor(self.ids()[i]) is Some,
    {
        if i >= 2 {
            assert(self.ids()[i] == self.blocks_ids(self.blocks@.len())[i - 2]);
            self.lemma_blocks_ids(self.blocks@.len(), i - 2);
        }
    }

    /// Saves the model: its tensors in order, each under its name.
    pub fn collect_blobs(&self) -> (blobs: Vec<(String, NamedBlob)>)
        ensures
            self.lists(self.ids(), blobs@),
    {
        let ids = self.tensor_ids();
        let n: usize = ids.len();
        let mut blobs: Vec<(String, NamedBlob)> = Vec::new();
        for i in 0..n
            invariant
                n == ids@.len(),
                ids@ == self.ids(),
                blobs@.len() == i,
                forall|j: int|
                    0 <= j < i ==> (#[trigger] blobs@[j]).0@ == ids@[j].name() && self.saves(
                        ids@[j],
                        blobs@[j].1,
                    ),
        {
            proof {
                self.lemma_listed(i as int);
            }
            blobs.push(self.save(ids[i]));
        }
        blobs
    }

    // The list of a block holds every tensor that the block has.
    proof fn lemma_experts_ids_hold(block: usize, n: nat, expert: usize, part: ExpertPart)
        requires
            expert < n <= usize::MAX,
        ensures
            Self::experts_ids(block, n).contains(TensorId::Expert { block, expert, part }),
        decreases n,
    {
        let id = TensorId::Expert { block, expert, part };
        let front = Self::experts_ids(block, (n - 1) as nat);
        let own = Self::expert_ids(block, (n - 1) as usize);
        let all = Self::experts_ids(block, n);
        if expert == n - 1 {
            let k: int = match part {
                ExpertPart::WUp => 0,
                ExpertPart::WGate => 1,
                ExpertPart::WDown => 2,
                ExpertPart::Bumps => 3,
                ExpertPart::ScaleUp => 4,
                ExpertPart::ScaleGate => 5,
                ExpertPart::ScaleDown => 6,
            };
            assert(own[k] == id);
            assert(all[front.len() + k] == id);
        } else {
            Self::lemma_experts_ids_hold(block, (n - 1) as nat, expert, part);
            let k = choose|k: int| 0 <= k < front.len() && front[k] == id;
            assert(all[k] == id);
        }
    }

    proof fn lemma_block_ids_hold(self, block: usize, id: TensorId)
        requires
            block < self.blocks@.len(),
            self.tensor(id) is Some,
            match id {
                TensorId::Block { block: b, part } => b == block && (part is Router
                    ==> self.blocks@[block as int].router@.len() > 0),
                TensorId::Expert { block: b, .. } => b == block,
                TensorId::Slot { block: b, .. } => b == block,
                _ => false,
            },
        ensures
            Self::block_ids(self.blocks@[block as int], block).contains(id),
    {
        let blk = self.blocks@[block as int];
        let a = Self::common_ids(block);
        let b = Self::router_ids(blk, block);
        let c = Self::experts_ids(block, blk.experts@.len());
        let d = Self::slots_ids(blk, block);
        let all = Self::block_ids(blk, block);
        assert(blk.experts@.len() == blk.experts.len());
        match id {
            TensorId::Block { part, .. } => {
                let k: int = match part {
                    BlockPart::N1 => 0,
                    BlockPart::N2 => 1,
                    BlockPart::NSlot => 2,
                    BlockPart::WAlpha => 3,
                    BlockPart::BAlpha => 4,
                    BlockPart::WI => 5,
                    BlockPart::BI => 6,
                    BlockPart::Router => 7,
                };
                assert(all[k] == id);
            },
            TensorId::Expert { expert, part, .. } => {
                Self::lemma_experts_ids_hold(block, blk.experts@.len(), expert, part);
                let k = choose|k: int| 0 <= k < c.len() && c[k] == id;
                assert(all[a.len() + b.len() + k] == id);
            },
            TensorId::Slot { part, .. } => {
                let k: int = match part {
                    SlotPart::WQ => 0,
                    SlotPart::WW => 1,
                    SlotPart::WLink => 2,
                    SlotPart::BLink => 3,
                    SlotPart::WBk => 4,
                    SlotPart::BBk => 5,
                    SlotPart::WBv => 6,
                    SlotPart::BBv => 7,
                    SlotPart::Gamma => 8,
                    SlotPart::BAlloc => 9,
                };
                assert(d[k] == id);
                assert(all[a.len() + b.len() + c.len() + k] == id);
            },
            _ => {},
        }
    }

    proof fn lemma_blocks_ids_hold(self, n: nat, block: usize, id: TensorId)
        requires
            block < n <= self.blocks@.len(),
            Self::block_ids(self.blocks@[block as int], block).contains(id),
        ensures
            self.blocks_ids(n).contains(id),
        decreases n,
    {
        let front = self.blocks_ids((n - 1) as nat);
        let own = Self::block_ids(self.blocks@[n - 1], (n - 1) as usize);
        let all = self.blocks_ids(n);
        if block == n - 1 {
            let k = choose|k: int| 0 <= k < own.len() && own[k] == id;
            assert(all[front.len() + k] == id);
        } else {
            self.lemma_blocks_ids_hold((n - 1) as nat, block, id);
            let k = choose|k: int| 0 <= k < front.len() && front[k] == id;
            assert(all[k] == id);
        }
    }

    /// Every tensor of the model is saved, but for a router without numbers.
    pub proof fn law_every_tensor_is_saved(self, id: TensorId)
        requires
            self.tensor(id) is Some,
            self.tensor(id)->0.len() > 0 || !(id matches TensorId::Block { part, .. }
                && part is Router),
        ensures
            self.ids().contains(id),
    {
        let rest = self.blocks_ids(self.blocks@.len());
        match id {
            TensorId::Embed => {
                assert(self.ids()[0] == id);
            },
            TensorId::Norm => {
                assert(self.ids()[1] == id);
            },
            TensorId::Block { block, .. } => {
                self.lemma_block_ids_hold(block, id);
                self.lemma_blocks_ids_hold(self.blocks@.len(), block, id);
            },
            TensorId::Expert { block, .. } => {
                self.lemma_block_ids_hold(block, id);
                self.lemma_blocks_ids_hold(self.blocks@.len(), block, id);
            },
            TensorId::Slot { block, .. } => {
                self.lemma_block_ids_hold(block, id);
                self.lemma_blocks_ids_hold(self.blocks@.len(), block, id);
            },
        }
        if rest.contains(id) {
            let k = choose|k: int| 0 <= k < rest.len() && rest[k] == id;
            assert(self.ids()[k + 2] == id);
        }
    }

    /// Loading one saved tensor succeeds, gives it its numbers back, and leaves
    /// the others as they were.
    proof fn lemma_number_loads_back(
        self,
        id: TensorId,
        before: Self,
        result: Result<(), MemoryError>,
        after: Self,
    )
        requires
            self.tensor(id) is Some,
            before.loads(id, self.tensor(id)->0, result, after),
            forall|other: TensorId|
                (#[trigger] self.tensor(other)) is Some ==> before.tensor(other) is Some
                    && before.tensor(other)->0.len() == self.tensor(other)->0.len(),
        ensures
            result is Ok,
            after.tensor(id) == self.tensor(id),
            forall|other: TensorId|
                other != id ==> #[trigger] after.tensor(other) == before.tensor(other),
            forall|other: TensorId|
                (#[trigger] self.tensor(other)) is Some ==> after.tensor(other) is Some
                    && after.tensor(other)->0.len() == self.tensor(other)->0.len(),
    {
        let data = self.tensor(id)->0;
        if id.single() {
            assert(data.len() == 1);
            assert(seq![data[0]] =~= data);
        }
        assert(before.with_tensor(id, data, after));
        assert forall|other: TensorId| (#[trigger] self.tensor(other)) is Some implies after.tensor(
            other,
        ) is Some && after.tensor(other)->0.len() == self.tensor(other)->0.len() by {
            if other != id {
                assert(after.tensor(other) == before.tensor(other));
            }
        }
    }

    /// Loading the saved numbers of a model, one tensor after the other, into
    /// a model with tensors of the same lengths never fails and gives every
    /// saved tensor its numbers back. `states` are the models before the
    /// first load and after each.
    pub proof fn law_saved_numbers_load_back(
        self,
        states: Seq<Self>,
        results: Seq<Result<(), MemoryError>>,
        k: int,
    )
        requires
            states.len() == self.ids().len() + 1,
            results.len() == self.ids().len(),
            forall|id: TensorId|
                (#[trigger] self.tensor(id)) is Some ==> states[0].tensor(id) is Some
                    && states[0].tensor(id)->0.len() == self.tensor(id)->0.len(),
            forall|i: int|
                0 <= i < results.len() ==> (#[trigger] states[i]).loads(
                    self.ids()[i],
                    self.tensor(self.ids()[i])->0,
                    results[i],
                    states[i + 1],
                ),
            0 <= k <= results.len(),
        ensures
            forall|i: int| 0 <= i < k ==> (#[trigger] results[i]) is Ok,
            forall|i: int|
                0 <= i < k ==> states[k].tensor(#[trigger] self.ids()[i]) == self.tensor(
                    self.ids()[i],
                ),
            forall|id: TensorId|
                (#[trigger] self.tensor(id)) is Some ==> states[k].tensor(id) is Some
                    && states[k].tensor(id)->0.len() == self.tensor(id)->0.len(),
        decreases k,
    {
        if k > 0 {
            self.law_saved_numbers_load_back(states, results, k - 1);
            self.lemma_listed(k - 1);
            let id = self.ids()[k - 1];
            assert(states[k - 1].loads(id, self.tensor(id)->0, results[k - 1], states[k]));
            self.lemma_number_loads_back(id, states[k - 1], results[k - 1], states[k]);
            assert forall|i: int| 0 <= i < k implies states[k].tensor(#[trigger] self.ids()[i])
                == self.tensor(self.ids()[i]) by {
                if self.ids()[i] != id {
                    assert(states[k].tensor(self.ids()[i]) == states[k - 1].tensor(self.ids()[i]));
                }
            }
        }
    }

    /// `after` is this model with the weights of an expert replaced by codes.
    pub open spec fn with_codes(self, id: TensorId, bytes: Seq<u8>, after: Self) -> bool {
        &&& self.cfg == after.cfg
        &&& self.phase == after.phase
        &&& forall|other: TensorId| #[trigger] after.tensor(other) == self.tensor(other)
        &&& after.codes(id) == Some(bytes)
        &&& forall|other: TensorId|
            other != id ==> #[trigger] after.codes(other) == self.codes(other)
        &&& self.same_experts(after)
        &&& id matches TensorId::Expert { block, expert, .. } && forall|b: int, e: int|
            0 <= b < self.blocks@.len() && 0 <= e < self.experts_in(b) ==> #[trigger] after.setting(
                b,
                e,
            ) == if b == block && e == expert {
                let (d, w, phase, _) = self.setting(b, e);
                (d, w, phase, true)
            } else {
                self.setting(b, e)
            }
    }

    /// Puts packed codes that were read under a name in the place of the
    /// weights of that name. A name that is not that of an expert's weights
    /// changes nothing.
    pub fn load_packed(&mut self, name: &str, bytes: Vec<u8>)
        ensures
            forall|id: TensorId|
                #[trigger] id.name() == name@ && old(self).tensor(id) is Some
                    && crate::expert::is_weights(id) ==> old(self).with_codes(
                    id,
                    bytes@,
                    *final(self),
                ),
            (forall|id: TensorId|
                old(self).tensor(id) is Some && crate::expert::is_weights(id)
                    ==> #[trigger] id.name() != name@) ==> *final(self) == *old(self),
    {
        let id = match tensor_named(name) {
            Some(id) => id,
            None => return,
        };
        proof {
            assert forall|other: TensorId| #[trigger] other.name() == name@ implies other == id by {
                crate::names::law_names_are_distinct(other, id);
            }
        }
        match id {
            TensorId::Expert { block, expert, part } => {
                if block < self.blocks.len() && expert < self.blocks[block].experts.len() {
                    match part {
                        ExpertPart::WUp | ExpertPart::WGate | ExpertPart::WDown => {
                            self.blocks[block].experts[expert].set_codes(part, bytes);
                        },
                        _ => {},
                    }
                }
            },
            _ => {},
        }
    }

    /// Every expert is in that phase.
    pub open spec fn in_phase(self, phase: u8) -> bool {
        forall|b: int, e: int|
            0 <= b < self.blocks@.len() && 0 <= e < self.blocks@[b].experts@.len()
                ==> #[trigger] self.blocks@[b].experts@[e].phase == phase
    }

    /// The experts are the same, but for their phases.
    pub open spec fn same_but_phase(self, other: Self) -> bool {
        &&& self.same_experts(other)
        &&& forall|b: int, e: int|
            0 <= b < self.blocks@.len() && 0 <= e < self.experts_in(b) ==> {
                let now = #[trigger] other.setting(b, e);
                now == (self.setting(b, e).0, self.setting(b, e).1, now.2, self.setting(b, e).3)
            }
    }

    /// Moves the model and all its experts to a phase.
    pub fn set_phase(&mut self, phase: u8)
        ensures
            final(self).phase == phase,
            final(self).in_phase(phase),
            final(self).cfg == old(self).cfg,
            old(self).same_but_phase(*final(self)),
            forall|id: TensorId| #[trigger] final(self).tensor(id) == old(self).tensor(id),
            forall|id: TensorId| #[trigger] final(self).codes(id) == old(self).codes(id),
    {
        self.phase = phase;
        let n: usize = self.blocks.len();
        for b in 0..n
            invariant
                n == self.blocks@.len(),
                self.phase == phase,
                self.cfg == old(self).cfg,
                old(self).same_but_phase(*self),
                forall|id: TensorId| #[trigger] self.tensor(id) == old(self).tensor(id),
                forall|id: TensorId| #[trigger] self.codes(id) == old(self).codes(id),
                forall|c: int, e: int|
                    0 <= c < b && 0 <= e < self.blocks@[c].experts@.len()
                        ==> #[trigger] self.blocks@[c].experts@[e].phase == phase,
        {
            let m: usize = self.blocks[b].experts.len();
            for e in 0..m
                invariant
                    b < n == self.blocks@.len(),
                    m == self.blocks@[b as int].experts@.len(),
                    self.phase == phase,
                    self.cfg == old(self).cfg,
                    old(self).same_but_phase(*self),
                    forall|id: TensorId| #[trigger] self.tensor(id) == old(self).tensor(id),
                    forall|id: TensorId| #[trigger] self.codes(id) == old(self).codes(id),
                    forall|c: int, f: int|
                        0 <= c < b && 0 <= f < self.blocks@[c].experts@.len()
                            ==> #[trigger] self.blocks@[c].experts@[f].phase == phase,
                    forall|f: int|
                        0 <= f < e ==> #[trigger] self.blocks@[b as int].experts@[f].phase == phase,
            {
                let ghost before = *self;
                self.blocks[b].experts[e].phase = phase;
                proof {
                    assert forall|id: TensorId| #[trigger] self.tensor(id) == before.tensor(id) by {}
                    assert forall|id: TensorId| #[trigger] self.codes(id) == before.codes(id) by {}
                    assert forall|c: int| 0 <= c < n implies #[trigger] self.experts_in(c)
                        == before.experts_in(c) by {}
                    assert(old(self).same_experts(*self)) by {
                        assert forall|c: int| 0 <= c < n implies #[trigger] old(self).experts_in(c)
                            == self.experts_in(c) by {
                            assert(self.experts_in(c) == before.experts_in(c));
                        }
                    }
                    assert forall|c: int, f: int|
                        0 <= c < n && 0 <= f < self.experts_in(c) implies ({
                        let now = #[trigger] self.setting(c, f);
                        now == (
                            old(self).setting(c, f).0,
                            old(self).setting(c, f).1,
                            now.2,
                            old(self).setting(c, f).3,
                        )
                    }) by {
                        let was = before.setting(c, f);
                    }
                }
            }
        }
    }

    /// A step of the optimiser moves the tensor: from the fourth phase on the
    /// weights and bumps of the experts are frozen.
    pub open spec fn moves(self, id: TensorId) -> bool {
        self.phase < 4 || !(id matches TensorId::Expert { part, .. } && !(part is ScaleUp
            || part is ScaleGate || part is ScaleDown))
    }

    /// How many numbers of a tensor a step of the optimiser moves.
    pub open spec fn moved_len(self, id: TensorId) -> usize {
        match id {
            TensorId::Slot { part, .. } => if id.single() {
                1
            } else {
                self.cfg.d_model
            },
            _ => self.tensor(id)->0.len() as usize,
        }
    }

    /// The lengths of those of the tensors that a step moves, in order.
    pub open spec fn moved_lens(self, ids: Seq<TensorId>) -> Seq<usize>
        decreases ids.len(),
    {
        if ids.len() == 0 {
            Seq::empty()
        } else {
            let front = self.moved_lens(ids.drop_last());
            if self.moves(ids.last()) {
                front.push(self.moved_len(ids.last()))
            } else {
                front
            }
        }
    }

    /// The lengths of the tensors that a step of the optimiser moves.
    pub fn param_lens(&self) -> (lens: Vec<usize>)
        ensures
            lens@ == self.moved_lens(self.ids()),
    {
        let ids = self.tensor_ids();
        let n: usize = ids.len();
        let mut lens: Vec<usize> = Vec::new();
        assert(ids@.take(0) =~= Seq::empty());
        for i in 0..n
            invariant
                n == ids@.len(),
                ids@ == self.ids(),
                lens@ == self.moved_lens(ids@.take(i as int)),
        {
            let id = ids[i];
            proof {
                self.lemma_listed(i as int);
                assert(ids@.take(i + 1).drop_last() =~= ids@.take(i as int));
            }
            let moves = self.phase < 4 || match id {
                TensorId::Expert { part, .. } => match part {
                    ExpertPart::ScaleUp | ExpertPart::ScaleGate | ExpertPart::ScaleDown => true,
                    _ => false,
                },
                _ => true,
            };
            if moves {
                let len: usize = match id {
                    TensorId::Slot { part, .. } => match part {
                        SlotPart::WQ | SlotPart::WW | SlotPart::WLink => self.cfg.d_model,
                        _ => 1,
                    },
                    _ => match self.tensor_len(id) {
                        Some(len) => len,
                        None => 0,
                    },
                };
                lens.push(len);
            }
        }
        assert(ids@.take(n as int) =~= ids@);
        lens
    }
}

/// The lengths of a list of tensors are those of its parts, one after the other;
/// a tensor that a step moves gives its length, and any other nothing. From the
/// fourth phase on it is the scales alone that move in an expert.
pub proof fn law_moved_lengths_stand_in_line(
    model: UllisMemory,
    a: Seq<TensorId>,
    b: Seq<TensorId>,
    id: TensorId,
)
    ensures
        model.moved_lens(a + b) == model.moved_lens(a) + model.moved_lens(b),
        model.phase < 4 || !(id is Expert) ==> model.moved_lens(seq![id]) == seq![
            model.moved_len(id),
        ],
        id matches TensorId::Expert { part, .. } ==> model.phase >= 4 ==> model.moved_lens(
            seq![id],
        ) == if part is ScaleUp || part is ScaleGate || part is ScaleDown {
            seq![model.moved_len(id)]
        } else {
            Seq::empty()
        },
    decreases b.len(),
{
    reveal_with_fuel(UllisMemory::moved_lens, 3);
    assert(seq![id].drop_last() =~= Seq::empty());
    assert(seq![id].last() == id);
    assert(Seq::<usize>::empty().push(model.moved_len(id)) =~= seq![model.moved_len(id)]);
    if b.len() == 0 {
        assert(a + b =~= a);
        assert(model.moved_lens(a) + model.moved_lens(b) =~= model.moved_lens(a));
    } else {
        law_moved_lengths_stand_in_line(model, a, b.drop_last(), id);
        assert((a + b).drop_last() =~= a + b.drop_last());
        assert((a + b).last() == b.last());
        assert(model.moved_lens(a + b) =~= model.moved_lens(a) + model.moved_lens(b));
    }
}

/// The numbers of an expert that count as parameters.
pub open spec fn expert_params(e: TernaryExpert) -> nat {
    e.w_up@.len() + e.w_gate@.len() + e.w_down@.len() + e.bumps@.len()
}

/// The numbers of a block that count as parameters, with those of its first
/// `n` experts. Each gate of the recurrence counts as two matrices.
pub open spec fn block_params(b: MemoryBlock, n: int) -> nat
    decreases n,
{
    if n > 0 {
        block_params(b, n - 1) + expert_params(b.experts@[n - 1])
    } else {
        b.n1@.len() + b.n2@.len() + b.n_slot@.len() + 4 * b.w_alpha@.len() + b.router@.len()
            + match b.slots {
            Some(s) => s.w_q@.len() + s.w_w@.len() + s.w_link@.len() + 8,
            None => 0nat,
        }
    }
}

/// The parameters outside the blocks and in the first `n` blocks.
pub open spec fn model_params(m: UllisMemory, n: int) -> nat
    decreases n,
{
    if n > 0 {
        model_params(m, n - 1) + block_params(
            m.blocks@[n - 1],
            m.blocks@[n - 1].experts@.len() as int,
        )
    } else {
        m.embed@.len() + m.norm@.len()
    }
}

/// The parameters of a model are those of its embedding and its last norm and
/// those of its blocks; those of a block are its norms, its gates twice over,
/// its router and its slots, and the weights and bumps of its experts.
pub proof fn law_parameters_add_up(model: UllisMemory, block: MemoryBlock)
    ensures
        model_params(model, model.blocks@.len() as int) == model.embed@.len() + model.norm@.len()
            + crate::hadamard::total(
            |i: int|
                block_params(model.blocks@[i], model.blocks@[i].experts@.len() as int) as int,
            0,
            model.blocks@.len() as int,
        ),
        block_params(block, block.experts@.len() as int) == block.n1@.len() + block.n2@.len()
            + block.n_slot@.len() + 2 * (2 * block.w_alpha@.len()) + block.router@.len() + (
        match block.slots {
            Some(s) => s.w_q@.len() + s.w_w@.len() + s.w_link@.len() + 8,
            None => 0,
        }) + crate::hadamard::total(
            |j: int|
                (block.experts@[j].w_up@.len() + block.experts@[j].w_gate@.len()
                    + block.experts@[j].w_down@.len() + block.experts@[j].bumps@.len()) as int,
            0,
            block.experts@.len() as int,
        ),
{
    lemma_blocks_add_up(model, model.blocks@.len() as int);
    lemma_experts_add_up(block, block.experts@.len() as int);
}

proof fn lemma_blocks_add_up(model: UllisMemory, n: int)
    requires
        0 <= n,
    ensures
        model_params(model, n) == model.embed@.len() + model.norm@.len() + crate::hadamard::total(
            |i: int|
                block_params(model.blocks@[i], model.blocks@[i].experts@.len() as int) as int,
            0,
            n,
        ),
    decreases n,
{
    if n > 0 {
        lemma_blocks_add_up(model, n - 1);
    }
}

proof fn lemma_experts_add_up(block: MemoryBlock, n: int)
    requires
        0 <= n,
    ensures
        block_params(block, n) == block_params(block, 0) + crate::hadamard::total(
            |j: int|
                (block.experts@[j].w_up@.len() + block.experts@[j].w_gate@.len()
                    + block.experts@[j].w_down@.len() + block.experts@[j].bumps@.len()) as int,
            0,
            n,
        ),
    decreases n,
{
    if n > 0 {
        lemma_experts_add_up(block, n - 1);
    }
}

proof fn lemma_block_params_grow(b: MemoryBlock, a: int, c: int)
    requires
        0 <= a <= c,
    ensures
        block_params(b, a) <= block_params(b, c),
    decreases c,
{
    if a < c {
        lemma_block_params_grow(b, a, c - 1);
    }
}

proof fn lemma_model_params_grow(m: UllisMemory, a: int, c: int)
    requires
        0 <= a <= c,
    ensures
        model_params(m, a) <= model_params(m, c),
    decreases c,
{
    if a < c {
        lemma_model_params_grow(m, a, c - 1);
    }
}

/// The text of a report on a model.
pub open spec fn report(cfg: MemoryConfig, blocks: nat, params: nat) -> Seq<char> {
    "memory D="@ + crate::text::decimal(cfg.d_model as nat) + " L="@ + crate::text::decimal(blocks)
        + " E="@ + crate::text::decimal(cfg.mem_experts as nat) + " W="@ + crate::text::decimal(
        cfg.expert_width as nat,
    ) + " S="@ + crate::text::decimal(cfg.n_slots as nat) + " params="@ + crate::text::decimal(
        params,
    )
}

impl UllisMemory {
    /// Counts the parameters.
    pub fn param_count(&self) -> (n: u64)
        requires
            model_params(*self, self.blocks@.len() as int) <= u64::MAX,
        ensures
            n == model_params(*self, self.blocks@.len() as int),
    {
        let blocks: usize = self.blocks.len();
        proof {
            lemma_model_params_grow(*self, 0, blocks as int);
        }
        let mut n: u64 = self.embed.len() as u64 + self.norm.len() as u64;
        for i in 0..blocks
            invariant
                blocks == self.blocks@.len(),
                model_params(*self, blocks as int) <= u64::MAX,
                n == model_params(*self, i as int),
        {
            let b = &self.blocks[i];
            let experts: usize = b.experts.len();
            proof {
                lemma_model_params_grow(*self, i + 1, blocks as int);
                lemma_block_params_grow(*b, 0, experts as int);
            }
            let ghost before = n as int;
            n = n + b.n1.len() as u64 + b.n2.len() as u64 + b.n_slot.len() as u64;
            assert(4 * b.w_alpha@.len() <= u64::MAX);
            n = n + b.w_alpha.len() as u64 * 4 + b.router.len() as u64;
            match &b.slots {
                Some(s) => {
                    n = n + s.w_q.len() as u64 + s.w_w.len() as u64 + s.w_link.len() as u64 + 8;
                },
                None => {},
            }
            for j in 0..experts
                invariant
                    experts == b.experts@.len(),
                    n == before + block_params(*b, j as int),
                    before + block_params(*b, experts as int) <= u64::MAX,
            {
                proof {
                    lemma_block_params_grow(*b, j + 1, experts as int);
                }
                let e = &b.experts[j];
                n = n + e.w_up.len() as u64 + e.w_gate.len() as u64 + e.w_down.len() as u64
                    + e.bumps.len() as u64;
            }
        }
        n
    }

    /// Writes a line on the sizes of the model.
    pub fn param_report(&self) -> (text: String)
        requires
            model_params(*self, self.blocks@.len() as int) <= u64::MAX,
        ensures
            text@ == report(
                self.cfg,
                self.blocks@.len(),
                model_params(*self, self.blocks@.len() as int),
            ),
    {
        let mut text: String = "memory D=".to_owned();
        push_decimal(&mut text, self.cfg.d_model as u64);
        text.append(" L=");
        push_decimal(&mut text, self.blocks.len() as u64);
        text.append(" E=");
        push_decimal(&mut text, self.cfg.mem_experts as u64);
        text.append(" W=");
        push_decimal(&mut text, self.cfg.expert_width as u64);
        text.append(" S=");
        push_decimal(&mut text, self.cfg.n_slots as u64);
        text.append(" params=");
        push_decimal(&mut text, self.param_count());
        text
    }

    /// The first of the highest scores; zero when none is above negative
    /// infinity.
    pub fn argmax(logits: &[u32]) -> (id: u32)
        requires
            logits@.len() <= u32::MAX,
        ensures
            ({
                let some = exists|j: int|
                    0 <= j < logits@.len() && crate::accelerate::above(
                        #[trigger] logits@[j],
                        NEG_INFINITY_BITS,
                    );
                &&& !some ==> id == 0
                &&& some ==> {
                    &&& id < logits@.len()
                    &&& crate::accelerate::above(logits@[id as int], NEG_INFINITY_BITS)
                    &&& forall|j: int|
                        0 <= j < logits@.len() ==> !crate::accelerate::above(
                            #[trigger] logits@[j],
                            logits@[id as int],
                        )
                    &&& forall|j: int|
                        0 <= j < id && !crate::accelerate::is_nan(#[trigger] logits@[j])
                            ==> crate::accelerate::above(logits@[id as int], logits@[j])
                }
            }),
    {
        let n: usize = logits.len();
        let mut best: usize = 0;
        let mut top: u32 = NEG_INFINITY_BITS;
        for i in 0..n
            invariant
                n == logits@.len() <= u32::MAX,
                !crate::accelerate::is_nan(top),
                best == 0 || best < i,
                top == NEG_INFINITY_BITS ==> best == 0 && forall|j: int|
                    0 <= j < i ==> !crate::accelerate::above(
                        #[trigger] logits@[j],
                        NEG_INFINITY_BITS,
                    ),
                top != NEG_INFINITY_BITS ==> best < i && logits@[best as int] == top
                    && crate::accelerate::above(top, NEG_INFINITY_BITS),
                forall|j: int|
                    0 <= j < i ==> !crate::accelerate::above(#[trigger] logits@[j], top),
                forall|j: int|
                    0 <= j < best && !crate::accelerate::is_nan(#[trigger] logits@[j])
                        ==> crate::accelerate::above(top, logits@[j]),
        {
            let z: u32 = logits[i];
            if is_above(z, top) {
                top = z;
                best = i;
            }
        }
        best as u32
    }
}

/// The layers of a model: at least one.
pub fn layer_count(cfg: &MemoryConfig) -> (n: usize)
    ensures
        n == if cfg.n_layers == 0 {
            1
        } else {
            cfg.n_layers
        },
{
    if cfg.n_layers == 0 {
        1
    } else {
        cfg.n_layers
    }
}

/// Whether a layer has slots: every other one does, from the first on, in a
/// model with slots.
pub fn has_slots(cfg: &MemoryConfig, layer: usize) -> (yes: bool)
    ensures
        yes == (layer % 2 == 0 && cfg.n_slots > 0),
{
    layer % 2 == 0 && cfg.n_slots > 0
}

/// What to feed a model whose cache has already taken in the first `fed`
/// tokens of some text.
#[derive(Clone, Copy, Debug, PartialEq, Eq, Structural)]
pub struct FeedPlan {
    /// The cache holds more than the text: start over.
    pub restart: bool,
    /// The first token to feed.
    pub from: usize,
}

/// Which tokens of a text of `len` tokens are still to be fed. There has to be
/// one, for the next token is guessed from the last that was fed.
pub fn feed_plan(fed: usize, len: usize) -> (plan: Result<FeedPlan, MemoryError>)
    ensures
        match plan {
            Ok(p) => p.restart == (fed > len) && p.from == (if fed > len {
                0
            } else {
                fed
            }) && p.from < len,
            Err(e) => e == MemoryError::EmptyContext && (len == 0 || fed == len),
        },
{
    let restart = fed > len;
    let from: usize = if restart {
        0
    } else {
        fed
    };
    if from < len {
        Ok(FeedPlan { restart, from })
    } else {
        Err(MemoryError::EmptyContext)
    }
}

/// How many of the latest tokens are held against a repetition.
pub const RECENT: usize = 16;

/// What is done to the scores of tokens that were just used.
#[derive(Debug)]
pub struct RecentBans {
    /// The token that filled the last four places: it may not come again.
    pub banned: Option<u32>,
    /// The tokens whose score is lowered, once for each time that they stand
    /// here.
    pub lowered: Vec<u32>,
}

/// The last four tokens are one and the same.
pub open spec fn stuck(ctx: Seq<u32>) -> bool {
    ctx.len() >= 4 && forall|i: int| ctx.len() - 4 <= i < ctx.len() ==> #[trigger] ctx[i]
        == ctx.last()
}

/// The tokens below `vocab` among the last `n`, the latest first.
pub open spec fn latest(ctx: Seq<u32>, vocab: int, n: nat) -> Seq<u32>
    decreases n,
{
    if n == 0 || ctx.len() < n {
        Seq::empty()
    } else {
        let earlier = latest(ctx, vocab, (n - 1) as nat);
        let token = ctx[ctx.len() - n];
        if token < vocab {
            earlier.push(token)
        } else {
            earlier
        }
    }
}

/// The places of a token among the last `n`.
pub open spec fn recent_places(ctx: Seq<u32>, n: int, token: int) -> Set<int> {
    Set::new(|i: int| ctx.len() - n <= i < ctx.len() && ctx[i] == token)
}

/// The tokens held against a repetition are the last `n`, each as often as it
/// stands there, and the latest first; a token outside the vocabulary is none of
/// them.
pub proof fn law_the_latest_tokens_are_held(ctx: Seq<u32>, vocab: int, n: nat, token: int)
    requires
        n <= ctx.len(),
    ensures
        crate::completion::occurrences(latest(ctx, vocab, n), token) == if token < vocab {
            recent_places(ctx, n as int, token).len()
        } else {
            0
        },
        (forall|i: int| ctx.len() - n <= i < ctx.len() ==> #[trigger] ctx[i] < vocab) ==> latest(
            ctx,
            vocab,
            n,
        ).len() == n && forall|i: int|
            0 <= i < n ==> #[trigger] latest(ctx, vocab, n)[i] == ctx[ctx.len() - 1 - i],
    decreases n,
{
    let row = latest(ctx, vocab, n);
    let p = |i: int| ctx[i] == token;
    if n > 0 {
        let fewer = latest(ctx, vocab, (n - 1) as nat);
        law_the_latest_tokens_are_held(ctx, vocab, (n - 1) as nat, token);
        let at = ctx.len() - n;
        crate::counting::lemma_places_finite(p, at + 1, ctx.len() as int);
        let less = recent_places(ctx, n - 1, token);
        assert(less =~= crate::counting::places(p, at + 1, ctx.len() as int));
        if ctx[at] == token {
            assert(recent_places(ctx, n as int, token) =~= less.insert(at));
        } else {
            assert(recent_places(ctx, n as int, token) =~= less);
        }
        if ctx[at] < vocab {
            assert(row.drop_last() =~= fewer);
            assert(row.last() == ctx[at]);
            if forall|i: int| ctx.len() - n <= i < ctx.len() ==> #[trigger] ctx[i] < vocab {
                assert forall|i: int| 0 <= i < n implies #[trigger] row[i] == ctx[ctx.len() - 1
                    - i] by {
                    if i < n - 1 {
                        assert(row[i] == fewer[i]);
                    }
                }
            }
        } else {
            assert(!(ctx[at] < vocab));
        }
    } else {
        assert(recent_places(ctx, 0, token) =~= Set::empty());
    }
}

/// Which scores to change after the tokens `ctx`, for a vocabulary of `vocab`.
pub fn ban_recent(ctx: &[u32], vocab: usize) -> (bans: RecentBans)
    ensures
        bans.banned == (if stuck(ctx@) && ctx@.last() < vocab {
            Some(ctx@.last())
        } else {
            None
        }),
        bans.lowered@ == latest(
            ctx@,
            vocab as int,
            if ctx@.len() < RECENT {
                ctx@.len()
            } else {
                RECENT as nat
            },
        ),
        forall|token: int|
            0 <= token < vocab ==> #[trigger] crate::completion::occurrences(bans.lowered@, token)
                == recent_places(
                ctx@,
                if ctx@.len() < 16 {
                    ctx@.len() as int
                } else {
                    16
                },
                token,
            ).len(),
{
    let n: usize = ctx.len();
    let mut banned: Option<u32> = None;
    if n >= 4 {
        let last: u32 = ctx[n - 1];
        let same = ctx[n - 4] == last && ctx[n - 3] == last && ctx[n - 2] == last;
        proof {
            if same {
                assert forall|i: int| n - 4 <= i < n implies #[trigger] ctx@[i] == ctx@.last() by {
                    assert(i == n - 4 || i == n - 3 || i == n - 2 || i == n - 1);
                }
            } else {
                assert(!stuck(ctx@)) by {
                    if stuck(ctx@) {
                        assert(ctx@[n - 4] == ctx@.last());
                        assert(ctx@[n - 3] == ctx@.last());
                        assert(ctx@[n - 2] == ctx@.last());
                    }
                }
            }
        }
        if same && (last as u64) < vocab as u64 {
            banned = Some(last);
        }
    }
    let count: usize = if n < RECENT {
        n
    } else {
        RECENT
    };
    let mut lowered: Vec<u32> = Vec::new();
    for i in 0..count
        invariant
            n == ctx@.len(),
            count <= n,
            lowered@ == latest(ctx@, vocab as int, i as nat),
    {
        let token: u32 = ctx[n - 1 - i];
        if (token as u64) < vocab as u64 {
            lowered.push(token);
        }
    }
    proof {
        assert forall|token: int| 0 <= token < vocab implies
            #[trigger] crate::completion::occurrences(lowered@, token) == recent_places(
            ctx@,
            count as int,
            token,
        ).len() by {
            law_the_latest_tokens_are_held(ctx@, vocab as int, count as nat, token);
        }
    }
    RecentBans { banned, lowered }
}

/// The last token is banned when it filled the last four places, and in no other
/// case.
pub proof fn law_four_of_a_kind_are_enough(ctx: Seq<u32>)
    ensures
        stuck(ctx) <==> ctx.len() >= 4 && ctx[ctx.len() - 4] == ctx[ctx.len() - 1] && ctx[ctx.len()
            - 3] == ctx[ctx.len() - 1] && ctx[ctx.len() - 2] == ctx[ctx.len() - 1],
{
    let n = ctx.len();
    if n >= 4 {
        if ctx[n - 4] == ctx[n - 1] && ctx[n - 3] == ctx[n - 1] && ctx[n - 2] == ctx[n - 1] {
            assert forall|i: int| n - 4 <= i < n implies #[trigger] ctx[i] == ctx.last() by {
                assert(i == n - 4 || i == n - 3 || i == n - 2 || i == n - 1);
            }
        }
        if stuck(ctx) {
            assert(ctx[n - 4] == ctx.last() && ctx[n - 3] == ctx.last() && ctx[n - 2]
                == ctx.last());
        }
    }
}

/// The tensors of a block are saved in order: what every block has, then the
/// router, then the experts one after the other, then the slots.
pub proof fn law_blocks_are_saved_in_order(blk: MemoryBlock, block: usize, i: int, j: int)
    requires
        0 <= i < UllisMemory::block_ids(blk, block).len(),
        0 <= j < UllisMemory::block_ids(blk, block).len(),
        blk.experts@.len() <= usize::MAX,
    ensures
        ({
            let ids = UllisMemory::block_ids(blk, block);
            &&& ids[i] is Block && !(ids[j] is Block) ==> i < j
            &&& ids[i] is Expert && ids[j] is Slot ==> i < j
            &&& (ids[i] matches TensorId::Expert { expert: a, .. } && (
            ids[j] matches TensorId::Expert { expert: b, .. } && a < b)) ==> i < j
        }),
{
    let common = UllisMemory::common_ids(block);
    let router = UllisMemory::router_ids(blk, block);
    let experts = UllisMemory::experts_ids(block, blk.experts@.len());
    let slots = UllisMemory::slots_ids(blk, block);
    let ids = UllisMemory::block_ids(blk, block);
    lemma_experts_in_order(block, blk.experts@.len());
    assert(ids == common + router + experts + slots);
    let a = common.len() as int;
    let b = a + router.len();
    let c = b + experts.len();
    assert forall|k: int| 0 <= k < b implies #[trigger] ids[k] is Block by {
        if k < a {
            assert(ids[k] == common[k]);
        } else {
            assert(ids[k] == router[k - a]);
        }
    }
    assert forall|k: int| b <= k < c implies #[trigger] ids[k] == experts[k - b] by {}
    assert forall|k: int| c <= k < ids.len() implies #[trigger] ids[k] is Slot by {
        assert(ids[k] == slots[k - c]);
    }
    if b <= i < c {
        assert(ids[i] == experts[i - b]);
    }
    if b <= j < c {
        assert(ids[j] == experts[j - b]);
    }
}

proof fn lemma_experts_in_order(block: usize, n: nat)
    requires
        n <= usize::MAX,
    ensures
        UllisMemory::experts_ids(block, n).len() == 7 * n,
        forall|k: int|
            0 <= k < 7 * n ==> (#[trigger] UllisMemory::experts_ids(block, n)[k]
                matches TensorId::Expert { expert, .. } && expert == k / 7),
    decreases n,
{
    if n > 0 {
        lemma_experts_in_order(block, (n - 1) as nat);
        let fewer = UllisMemory::experts_ids(block, (n - 1) as nat);
        let last = UllisMemory::expert_ids(block, (n - 1) as usize);
        let all = UllisMemory::experts_ids(block, n);
        assert forall|k: int| 0 <= k < 7 * n implies (#[trigger] all[k] matches TensorId::Expert {
            expert,
            ..
        } && expert == k / 7) by {
            if k < fewer.len() {
                assert(all[k] == fewer[k]);
            } else {
                assert(all[k] == last[k - fewer.len()]);
            }
        }
    }
}

} // verus!
