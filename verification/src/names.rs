//! Names of the tensors of a memory model.
//!
//! A tensor's name is its path through the model, its steps joined by dots:
//! `blocks.3.expert.0.w_up`. No two tensors have one name, so a name read from
//! a file leads back to the tensor that was stored under it.
use vstd::prelude::*;
use vstd::string::*;
use crate::checkpoint::split_dots;
use crate::text::{parse_number, push_decimal, same_text};

verus! {

/// A tensor of a block itself.
#[derive(Clone, Copy, Debug, PartialEq, Eq, Structural)]
pub enum BlockPart {
    N1,
    N2,
    NSlot,
    WAlpha,
    BAlpha,
    WI,
    BI,
    Router,
}

/// A tensor of an expert of a block.
#[derive(Clone, Copy, Debug, PartialEq, Eq, Structural)]
pub enum ExpertPart {
    WUp,
    WGate,
    WDown,
    Bumps,
    ScaleUp,
    ScaleGate,
    ScaleDown,
}

/// A tensor of the slots of a block.
#[derive(Clone, Copy, Debug, PartialEq, Eq, Structural)]
pub enum SlotPart {
    WQ,
    WW,
    WLink,
    BLink,
    WBk,
    BBk,
    WBv,
    BBv,
    Gamma,
    BAlloc,
}

/// A tensor of the model.
#[allow(inconsistent_fields)]
#[derive(Clone, Copy, Debug, PartialEq, Eq, Structural)]
pub enum TensorId {
    Embed,
    Norm,
    Block { block: usize, part: BlockPart },
    Expert { block: usize, expert: usize, part: ExpertPart },
    Slot { block: usize, part: SlotPart },
}

/// The steps that lead to a tensor of a block.
pub open spec fn block_steps(part: BlockPart) -> Seq<Seq<char>> {
    match part {
        BlockPart::N1 => seq!["n1"@, "weight"@],
        BlockPart::N2 => seq!["n2"@, "weight"@],
        BlockPart::NSlot => seq!["n_slot"@, "weight"@],
        BlockPart::WAlpha => seq!["scan"@, "w_alpha"@],
        BlockPart::BAlpha => seq!["scan"@, "b_alpha"@],
        BlockPart::WI => seq!["scan"@, "w_i"@],
        BlockPart::BI => seq!["scan"@, "b_i"@],
        BlockPart::Router => seq!["router"@],
    }
}

/// The last step to a tensor of an expert.
pub open spec fn expert_step(part: ExpertPart) -> Seq<char> {
    match part {
        ExpertPart::WUp => "w_up"@,
        ExpertPart::WGate => "w_gate"@,
        ExpertPart::WDown => "w_down"@,
        ExpertPart::Bumps => "bumps"@,
        ExpertPart::ScaleUp => "scale_up"@,
        ExpertPart::ScaleGate => "scale_gate"@,
        ExpertPart::ScaleDown => "scale_down"@,
    }
}

/// The last step to a tensor of the slots.
pub open spec fn slot_step(part: SlotPart) -> Seq<char> {
    match part {
        SlotPart::WQ => "w_q"@,
        SlotPart::WW => "w_w"@,
        SlotPart::WLink => "w_link"@,
        SlotPart::BLink => "b_link"@,
        SlotPart::WBk => "w_bk"@,
        SlotPart::BBk => "b_bk"@,
        SlotPart::WBv => "w_bv"@,
        SlotPart::BBv => "b_bv"@,
        SlotPart::Gamma => "gamma"@,
        SlotPart::BAlloc => "b_alloc"@,
    }
}

/// The tensor of the slots is a single number.
pub open spec fn single_slot(part: SlotPart) -> bool {
    !(part is WQ || part is WW || part is WLink)
}

/// Steps joined by dots.
pub open spec fn joined(steps: Seq<Seq<char>>) -> Seq<char>
    decreases steps.len(),
{
    if steps.len() == 0 {
        Seq::empty()
    } else if steps.len() == 1 {
        steps[0]
    } else {
        joined(steps.drop_last()).push('.') + steps.last()
    }
}

impl TensorId {
    /// The steps of the path to the tensor.
    pub open spec fn path(self) -> Seq<Seq<char>> {
        match self {
            TensorId::Embed => seq!["embed"@],
            TensorId::Norm => seq!["norm"@, "weight"@],
            TensorId::Block { block, part } => seq![
                "blocks"@,
                crate::text::decimal(block as nat),
            ] + block_steps(part),
            TensorId::Expert { block, expert, part } => seq![
                "blocks"@,
                crate::text::decimal(block as nat),
                "expert"@,
                crate::text::decimal(expert as nat),
                expert_step(part),
            ],
            TensorId::Slot { block, part } => seq![
                "blocks"@,
                crate::text::decimal(block as nat),
                "slots"@,
                slot_step(part),
            ],
        }
    }

    /// The tensor's name.
    pub open spec fn name(self) -> Seq<char> {
        joined(self.path())
    }

    /// The tensor is a single number.
    pub open spec fn single(self) -> bool {
        self matches TensorId::Slot { part, .. } && single_slot(part)
    }
}

// Taking a joined path apart again.
/// A step holds no dot.
pub open spec fn plain(step: Seq<char>) -> bool {
    forall|i: int| 0 <= i < step.len() ==> #[trigger] step[i] != '.'
}

proof fn lemma_dotted_plain(step: Seq<char>)
    requires
        plain(step),
    ensures
        crate::checkpoint::dotted(step) == seq![step],
    decreases step.len(),
{
    if step.len() == 0 {
        assert(crate::checkpoint::dotted(step) =~= seq![Seq::<char>::empty()]);
        assert(step =~= Seq::<char>::empty());
    } else {
        let front = step.drop_last();
        assert(plain(front)) by {
            assert forall|i: int| 0 <= i < front.len() implies #[trigger] front[i] != '.' by {
                assert(front[i] == step[i]);
            }
        }
        lemma_dotted_plain(front);
        assert(step.last() == step[step.len() - 1]);
        assert(front.push(step.last()) =~= step);
        assert(crate::checkpoint::dotted(step) =~= seq![step]);
    }
}

proof fn lemma_dotted_extend(path: Seq<char>, step: Seq<char>)
    requires
        plain(step),
    ensures
        crate::checkpoint::dotted(path.push('.') + step) == crate::checkpoint::dotted(path).push(
            step,
        ),
    decreases step.len(),
{
    let all = path.push('.') + step;
    if step.len() == 0 {
        assert(all =~= path.push('.'));
        assert(all.drop_last() =~= path);
        assert(step =~= Seq::<char>::empty());
    } else {
        let front = step.drop_last();
        assert(plain(front)) by {
            assert forall|i: int| 0 <= i < front.len() implies #[trigger] front[i] != '.' by {
                assert(front[i] == step[i]);
            }
        }
        lemma_dotted_extend(path, front);
        assert(all.drop_last() =~= path.push('.') + front);
        assert(all.last() == step[step.len() - 1]);
        let parts = crate::checkpoint::dotted(path);
        assert(parts.push(front).drop_last() =~= parts);
        assert(front.push(step.last()) =~= step);
    }
}

/// Taking joined steps apart gives the steps back, as long as none of them
/// holds a dot.
pub proof fn lemma_dotted_joined(steps: Seq<Seq<char>>)
    requires
        steps.len() > 0,
        forall|i: int| 0 <= i < steps.len() ==> plain(#[trigger] steps[i]),
    ensures
        crate::checkpoint::dotted(joined(steps)) == steps,
    decreases steps.len(),
{
    if steps.len() == 1 {
        lemma_dotted_plain(steps[0]);
        assert(seq![steps[0]] =~= steps);
    } else {
        let front = steps.drop_last();
        assert forall|i: int| 0 <= i < front.len() implies plain(#[trigger] front[i]) by {
            assert(front[i] == steps[i]);
        }
        lemma_dotted_joined(front);
        assert(plain(steps[steps.len() - 1]));
        lemma_dotted_extend(joined(front), steps.last());
        assert(front.push(steps.last()) =~= steps);
    }
}

/// Decimal digits write the number that they came from, and no dot.
pub proof fn lemma_decimal(n: nat)
    ensures
        plain(crate::text::decimal(n)),
        crate::text::is_number(crate::text::decimal(n)),
        crate::text::number_digits(crate::text::decimal(n)) == crate::text::decimal(n),
        crate::text::digits_value(crate::text::decimal(n)) == n,
        crate::text::decimal(n).len() > 0,
    decreases n,
{
    let all = crate::text::decimal(n);
    let last = crate::text::digit_char(n % 10);
    assert(crate::text::is_digit(last) && last as u32 - '0' as u32 == n % 10);
    if n < 10 {
        assert(all =~= seq![last]);
        assert(all.drop_last() =~= Seq::<char>::empty());
        assert(crate::text::digits_value(all.drop_last()) == 0);
    } else {
        lemma_decimal(n / 10);
        let front = crate::text::decimal(n / 10);
        assert(all.drop_last() =~= front);
        assert(all.last() == last);
        assert forall|i: int| 0 <= i < all.len() implies #[trigger] all[i] != '.' by {
            if i < front.len() {
                assert(all[i] == front[i]);
            }
        }
        assert(all[0] == front[0]);
        assert(crate::text::is_digit(crate::text::number_digits(front)[0]));
        assert forall|i: int| 0 <= i < all.len() implies crate::text::is_digit(
            #[trigger] all[i],
        ) by {
            if i < front.len() {
                assert(all[i] == front[i]);
                assert(crate::text::is_digit(crate::text::number_digits(front)[i]));
            }
        }
    }
}

proof fn lemma_decimal_same(a: nat, b: nat)
    requires
        crate::text::decimal(a) == crate::text::decimal(b),
    ensures
        a == b,
{
    lemma_decimal(a);
    lemma_decimal(b);
}

proof fn lemma_expert_steps(a: ExpertPart, b: ExpertPart)
    ensures
        plain(expert_step(a)),
        expert_step(a) == expert_step(b) ==> a == b,
{
    reveal_strlit("w_up");
    reveal_strlit("w_gate");
    reveal_strlit("w_down");
    reveal_strlit("bumps");
    reveal_strlit("scale_up");
    reveal_strlit("scale_gate");
    reveal_strlit("scale_down");
    let x = expert_step(a);
    let y = expert_step(b);
    if x == y {
        assert(x.len() == y.len() && x[2] == y[2] && x[6] == y[6]);
    }
}

proof fn lemma_slot_steps(a: SlotPart, b: SlotPart)
    ensures
        plain(slot_step(a)),
        slot_step(a) == slot_step(b) ==> a == b,
{
    reveal_strlit("w_q");
    reveal_strlit("w_w");
    reveal_strlit("w_link");
    reveal_strlit("b_link");
    reveal_strlit("w_bk");
    reveal_strlit("b_bk");
    reveal_strlit("w_bv");
    reveal_strlit("b_bv");
    reveal_strlit("gamma");
    reveal_strlit("b_alloc");
    let x = slot_step(a);
    let y = slot_step(b);
    if x == y {
        assert(x.len() == y.len() && x[0] == y[0] && x[2] == y[2] && x[3] == y[3]);
    }
}

proof fn lemma_block_steps(a: BlockPart, b: BlockPart)
    ensures
        forall|i: int| 0 <= i < block_steps(a).len() ==> plain(#[trigger] block_steps(a)[i]),
        block_steps(a) == block_steps(b) ==> a == b,
        block_steps(a)[0] != "slots"@,
        block_steps(a)[0] != "expert"@,
{
    reveal_strlit("n1");
    reveal_strlit("n2");
    reveal_strlit("n_slot");
    reveal_strlit("weight");
    reveal_strlit("scan");
    reveal_strlit("w_alpha");
    reveal_strlit("b_alpha");
    reveal_strlit("w_i");
    reveal_strlit("b_i");
    reveal_strlit("router");
    reveal_strlit("slots");
    reveal_strlit("expert");
    let s = block_steps(a);
    let t = block_steps(b);
    assert(s[0].len() == 2 || s[0].len() == 4 || s[0].len() == 6 && s[0][0] != 'e');
    assert("expert"@[0] == 'e');
    if s == t {
        let x = s[0];
        let y = t[0];
        assert(x.len() == y.len() && x[0] == y[0] && x[1] == y[1]);
        if s.len() == 2 {
            assert(s[1].len() == t[1].len() && s[1][0] == t[1][0]);
        }
    }
}

proof fn lemma_path_plain(id: TensorId)
    ensures
        id.path().len() > 0,
        forall|i: int| 0 <= i < id.path().len() ==> plain(#[trigger] id.path()[i]),
{
    reveal_strlit("embed");
    reveal_strlit("norm");
    reveal_strlit("weight");
    reveal_strlit("blocks");
    reveal_strlit("expert");
    reveal_strlit("slots");
    match id {
        TensorId::Embed => {},
        TensorId::Norm => {},
        TensorId::Block { block, part } => {
            lemma_decimal(block as nat);
            lemma_block_steps(part, part);
            let s = block_steps(part);
            assert forall|i: int| 0 <= i < id.path().len() implies plain(
                #[trigger] id.path()[i],
            ) by {
                if i >= 2 {
                    assert(id.path()[i] == s[i - 2]);
                }
            }
        },
        TensorId::Expert { block, expert, part } => {
            lemma_decimal(block as nat);
            lemma_decimal(expert as nat);
            lemma_expert_steps(part, part);
        },
        TensorId::Slot { block, part } => {
            lemma_decimal(block as nat);
            lemma_slot_steps(part, part);
        },
    }
}

proof fn lemma_same_path(a: TensorId, b: TensorId)
    requires
        a.path() == b.path(),
    ensures
        a == b,
{
    reveal_strlit("embed");
    reveal_strlit("norm");
    reveal_strlit("blocks");
    reveal_strlit("expert");
    reveal_strlit("slots");
    let p = a.path();
    let q = b.path();
    assert(p[0] == q[0]);
    assert(p.len() == q.len());
    match a {
        TensorId::Embed => {},
        TensorId::Norm => {},
        TensorId::Block { block, part } => {
            lemma_block_steps(part, part);
            assert(p[1] == q[1]);
            assert(p[2] == block_steps(part)[0]);
            match b {
                TensorId::Block { block: other, part: two } => {
                    lemma_decimal_same(block as nat, other as nat);
                    lemma_block_steps(part, two);
                    assert(p.skip(2) =~= block_steps(part));
                    assert(q.skip(2) =~= block_steps(two));
                },
                _ => {
                    assert(p[2] == q[2]);
                },
            }
        },
        TensorId::Expert { block, expert, part } => {
            assert(p[1] == q[1] && p[2] == q[2]);
            match b {
                TensorId::Expert { block: other, expert: second, part: two } => {
                    assert(p[3] == q[3] && p[4] == q[4]);
                    lemma_decimal_same(block as nat, other as nat);
                    lemma_decimal_same(expert as nat, second as nat);
                    lemma_expert_steps(part, two);
                },
                _ => {},
            }
        },
        TensorId::Slot { block, part } => {
            assert(p[1] == q[1] && p[2] == q[2]);
            match b {
                TensorId::Slot { block: other, part: two } => {
                    assert(p[3] == q[3]);
                    lemma_decimal_same(block as nat, other as nat);
                    lemma_slot_steps(part, two);
                },
                TensorId::Block { part: two, .. } => {
                    lemma_block_steps(two, two);
                    assert(q[2] == block_steps(two)[0]);
                },
                _ => {},
            }
        },
    }
}

/// A name belongs to one tensor only.
pub proof fn law_names_are_distinct(a: TensorId, b: TensorId)
    requires
        a.name() == b.name(),
    ensures
        a == b,
{
    lemma_path_plain(a);
    lemma_path_plain(b);
    lemma_dotted_joined(a.path());
    lemma_dotted_joined(b.path());
    lemma_same_path(a, b);
}

proof fn lemma_dotted_name(id: TensorId)
    ensures
        crate::checkpoint::dotted(id.name()) == id.path(),
{
    lemma_path_plain(id);
    lemma_dotted_joined(id.path());
}

proof fn lemma_dotted_nonempty(name: Seq<char>)
    ensures
        crate::checkpoint::dotted(name).len() > 0,
    decreases name.len(),
{
    if name.len() > 0 {
        lemma_dotted_nonempty(name.drop_last());
    }
}

/// Joining what a name was taken apart into gives the name back.
pub proof fn lemma_joined_dotted(name: Seq<char>)
    ensures
        joined(crate::checkpoint::dotted(name)) == name,
    decreases name.len(),
{
    let parts = crate::checkpoint::dotted(name);
    if name.len() == 0 {
        assert(joined(seq![Seq::<char>::empty()]) =~= name);
    } else {
        let front = name.drop_last();
        let before = crate::checkpoint::dotted(front);
        lemma_joined_dotted(front);
        lemma_dotted_nonempty(front);
        assert(front.push(name.last()) =~= name);
        if name.last() == '.' {
            assert(parts.drop_last() =~= before);
            assert(joined(parts) =~= name);
        } else {
            let last = before.last().push(name.last());
            assert(parts.last() == last);
            if before.len() == 1 {
                assert(parts =~= seq![last]);
                assert(joined(before) == before[0]);
            } else {
                assert(parts.drop_last() =~= before.drop_last());
                assert(joined(parts) =~= name);
            }
        }
    }
}

/// The number that a step writes in decimal, without a sign or a leading zero.
pub fn index_step(step: &str) -> (index: Option<usize>)
    ensures
        match index {
            Some(n) => step@ == crate::text::decimal(n as nat),
            None => forall|n: usize| step@ != #[trigger] crate::text::decimal(n as nat),
        },
{
    match parse_number(step) {
        Some(n) => {
            let mut digits: String = "".to_owned();
            proof {
                reveal_strlit("");
            }
            push_decimal(&mut digits, n as u64);
            assert(digits@ =~= crate::text::decimal(n as nat));
            if same_text(digits.as_str(), step) {
                Some(n)
            } else {
                proof {
                    assert forall|m: usize| step@ != #[trigger] crate::text::decimal(m as nat) by {
                        lemma_decimal(m as nat);
                    }
                }
                None
            }
        },
        None => {
            proof {
                assert forall|m: usize| step@ != #[trigger] crate::text::decimal(m as nat) by {
                    lemma_decimal(m as nat);
                }
            }
            None
        },
    }
}

fn block_part(first: &str, second: &str) -> (part: Option<BlockPart>)
    ensures
        match part {
            Some(p) => block_steps(p) == seq![first@, second@],
            None => forall|p: BlockPart| #[trigger] block_steps(p) != seq![first@, second@],
        },
{
    let part = if same_text(second, "weight") {
        if same_text(first, "n1") {
            Some(BlockPart::N1)
        } else if same_text(first, "n2") {
            Some(BlockPart::N2)
        } else if same_text(first, "n_slot") {
            Some(BlockPart::NSlot)
        } else {
            None
        }
    } else if same_text(first, "scan") {
        if same_text(second, "w_alpha") {
            Some(BlockPart::WAlpha)
        } else if same_text(second, "b_alpha") {
            Some(BlockPart::BAlpha)
        } else if same_text(second, "w_i") {
            Some(BlockPart::WI)
        } else if same_text(second, "b_i") {
            Some(BlockPart::BI)
        } else {
            None
        }
    } else {
        None
    };
    proof {
        reveal_strlit("weight");
        reveal_strlit("w_alpha");
        reveal_strlit("b_alpha");
        reveal_strlit("w_i");
        reveal_strlit("b_i");
        let pair = seq![first@, second@];
        match part {
            Some(p) => {
                assert(block_steps(p) =~= pair);
            },
            None => {},
        }
        assert forall|p: BlockPart| part is None implies #[trigger] block_steps(p) != pair by {
            let s = block_steps(p);
            if s == pair {
                assert(s.len() == 2);
                assert(s[0] == first@);
                assert(s[1] == second@);
                assert(second@.len() == 6 || second@.len() == 7 || second@.len() == 3);
            }
        }
    }
    part
}

fn expert_part(step: &str) -> (part: Option<ExpertPart>)
    ensures
        match part {
            Some(p) => expert_step(p) == step@,
            None => forall|p: ExpertPart| #[trigger] expert_step(p) != step@,
        },
{
    if same_text(step, "w_up") {
        Some(ExpertPart::WUp)
    } else if same_text(step, "w_gate") {
        Some(ExpertPart::WGate)
    } else if same_text(step, "w_down") {
        Some(ExpertPart::WDown)
    } else if same_text(step, "bumps") {
        Some(ExpertPart::Bumps)
    } else if same_text(step, "scale_up") {
        Some(ExpertPart::ScaleUp)
    } else if same_text(step, "scale_gate") {
        Some(ExpertPart::ScaleGate)
    } else if same_text(step, "scale_down") {
        Some(ExpertPart::ScaleDown)
    } else {
        None
    }
}

fn slot_part(step: &str) -> (part: Option<SlotPart>)
    ensures
        match part {
            Some(p) => slot_step(p) == step@,
            None => forall|p: SlotPart| #[trigger] slot_step(p) != step@,
        },
{
    if same_text(step, "w_q") {
        Some(SlotPart::WQ)
    } else if same_text(step, "w_w") {
        Some(SlotPart::WW)
    } else if same_text(step, "w_link") {
        Some(SlotPart::WLink)
    } else if same_text(step, "b_link") {
        Some(SlotPart::BLink)
    } else if same_text(step, "w_bk") {
        Some(SlotPart::WBk)
    } else if same_text(step, "b_bk") {
        Some(SlotPart::BBk)
    } else if same_text(step, "w_bv") {
        Some(SlotPart::WBv)
    } else if same_text(step, "b_bv") {
        Some(SlotPart::BBv)
    } else if same_text(step, "gamma") {
        Some(SlotPart::Gamma)
    } else if same_text(step, "b_alloc") {
        Some(SlotPart::BAlloc)
    } else {
        None
    }
}

fn within_block(block: usize, parts: &Vec<String>) -> (id: Option<TensorId>)
    requires
        parts@.len() >= 3,
        parts@[0]@ == "blocks"@,
        parts@[1]@ == crate::text::decimal(block as nat),
    ensures
        match id {
            Some(id) => id.path() == crate::checkpoint::texts(parts@),
            None => forall|id: TensorId|
                #[trigger] id.path() != crate::checkpoint::texts(parts@),
        },
{
    let ghost all = crate::checkpoint::texts(parts@);
    let found = if parts.len() == 3 {
        if same_text(parts[2].as_str(), "router") {
            Some(TensorId::Block { block, part: BlockPart::Router })
        } else {
            None
        }
    } else if parts.len() == 4 {
        if same_text(parts[2].as_str(), "slots") {
            match slot_part(parts[3].as_str()) {
                Some(part) => Some(TensorId::Slot { block, part }),
                None => None,
            }
        } else {
            match block_part(parts[2].as_str(), parts[3].as_str()) {
                Some(part) => Some(TensorId::Block { block, part }),
                None => None,
            }
        }
    } else if parts.len() == 5 && same_text(parts[2].as_str(), "expert") {
        match index_step(parts[3].as_str()) {
            Some(expert) => match expert_part(parts[4].as_str()) {
                Some(part) => Some(TensorId::Expert { block, expert, part }),
                None => None,
            },
            None => None,
        }
    } else {
        None
    };
    proof {
        assert(forall|i: int| 0 <= i < all.len() ==> all[i] == parts@[i]@);
        match found {
            Some(id) => {
                assert(id.path() =~= all);
            },
            None => {
                assert forall|id: TensorId| #[trigger] id.path() != all by {
                    if id.path() == all {
                        lemma_not_elsewhere(id, all);
                    }
                }
            },
        }
    }
    found
}

// What the steps of a path say about the tensor that it leads to.
proof fn lemma_not_elsewhere(id: TensorId, all: Seq<Seq<char>>)
    requires
        id.path() == all,
        all.len() >= 3,
    ensures
        all.len() == 3 ==> all[2] == "router"@,
        all.len() == 4 ==> ({
            ||| all[2] == "slots"@ && exists|p: SlotPart| #[trigger] slot_step(p) == all[3]
            ||| all[2] != "slots"@ && exists|p: BlockPart|
                #[trigger] block_steps(p) == seq![all[2], all[3]]
        }),
        all.len() == 5 ==> all[2] == "expert"@ && exists|e: usize|
            #[trigger] crate::text::decimal(e as nat) == all[3],
        all.len() == 5 ==> exists|p: ExpertPart| #[trigger] expert_step(p) == all[4],
        all.len() <= 5,
{
    match id {
        TensorId::Block { block, part } => {
            lemma_block_steps(part, part);
            let s = block_steps(part);
            assert(forall|i: int| 0 <= i < s.len() ==> all[i + 2] == s[i]);
            assert(all[2] == s[0]);
            if all.len() == 4 {
                assert(all[3] == s[1]);
                assert(s =~= seq![all[2], all[3]]);
            }
        },
        TensorId::Expert { block, expert, part } => {
            assert(expert_step(part) == all[4]);
            assert(crate::text::decimal(expert as nat) == all[3]);
        },
        TensorId::Slot { block, part } => {
            assert(slot_step(part) == all[3]);
        },
        _ => {},
    }
}

/// The tensor of that name, when a model can have one.
pub fn tensor_named(name: &str) -> (id: Option<TensorId>)
    ensures
        match id {
            Some(id) => id.name() == name@,
            None => forall|id: TensorId| #[trigger] id.name() != name@,
        },
{
    let parts = split_dots(name);
    let ghost all = crate::checkpoint::texts(parts@);
    let found = if parts.len() == 1 {
        if same_text(parts[0].as_str(), "embed") {
            Some(TensorId::Embed)
        } else {
            None
        }
    } else if parts.len() == 2 {
        if same_text(parts[0].as_str(), "norm") && same_text(parts[1].as_str(), "weight") {
            Some(TensorId::Norm)
        } else {
            None
        }
    } else if same_text(parts[0].as_str(), "blocks") {
        match index_step(parts[1].as_str()) {
            Some(block) => within_block(block, &parts),
            None => None,
        }
    } else {
        None
    };
    proof {
        assert(forall|i: int| 0 <= i < all.len() ==> all[i] == parts@[i]@);
        lemma_joined_dotted(name@);
        match found {
            Some(id) => {
                assert(id.path() =~= all);
            },
            None => {
                assert forall|id: TensorId| #[trigger] id.name() != name@ by {
                    lemma_dotted_name(id);
                    if id.name() == name@ {
                        assert(id.path() == all);
                        assert(id.path()[0] == parts@[0]@);
                        if all.len() > 1 {
                            assert(id.path()[1] == parts@[1]@);
                        }
                        match id {
                            TensorId::Block { block, part } => {
                                lemma_block_steps(part, part);
                                assert(crate::text::decimal(block as nat) == parts@[1]@);
                            },
                            TensorId::Expert { block, .. } => {
                                assert(crate::text::decimal(block as nat) == parts@[1]@);
                            },
                            TensorId::Slot { block, .. } => {
                                assert(crate::text::decimal(block as nat) == parts@[1]@);
                            },
                            _ => {},
                        }
                    }
                }
            },
        }
    }
    found
}

proof fn lemma_joined_push(steps: Seq<Seq<char>>, step: Seq<char>)
    requires
        steps.len() > 0,
    ensures
        joined(steps.push(step)) == joined(steps).push('.') + step,
{
    assert(steps.push(step).drop_last() =~= steps);
}

fn push_step(out: &mut String, step: &str)
    ensures
        final(out)@ == old(out)@.push('.') + step@,
{
    out.append(".");
    out.append(step);
    proof {
        reveal_strlit(".");
        assert(out@ =~= old(out)@.push('.') + step@);
    }
}

fn push_index(out: &mut String, index: usize)
    ensures
        final(out)@ == old(out)@.push('.') + crate::text::decimal(index as nat),
{
    out.append(".");
    push_decimal(out, index as u64);
    proof {
        reveal_strlit(".");
        assert(out@ =~= old(out)@.push('.') + crate::text::decimal(index as nat));
    }
}

impl BlockPart {
    fn first_step(self) -> (step: &'static str)
        ensures
            step@ == block_steps(self)[0],
    {
        match self {
            BlockPart::N1 => "n1",
            BlockPart::N2 => "n2",
            BlockPart::NSlot => "n_slot",
            BlockPart::WAlpha | BlockPart::BAlpha | BlockPart::WI | BlockPart::BI => "scan",
            BlockPart::Router => "router",
        }
    }

    fn second_step(self) -> (step: Option<&'static str>)
        ensures
            match step {
                Some(s) => block_steps(self) == seq![block_steps(self)[0], s@],
                None => block_steps(self) == seq![block_steps(self)[0]],
            },
    {
        let step = match self {
            BlockPart::N1 | BlockPart::N2 | BlockPart::NSlot => Some("weight"),
            BlockPart::WAlpha => Some("w_alpha"),
            BlockPart::BAlpha => Some("b_alpha"),
            BlockPart::WI => Some("w_i"),
            BlockPart::BI => Some("b_i"),
            BlockPart::Router => None,
        };
        proof {
            let s = block_steps(self);
            match step {
                Some(t) => {
                    assert(s =~= seq![s[0], t@]);
                },
                None => {
                    assert(s =~= seq![s[0]]);
                },
            }
        }
        step
    }
}

impl ExpertPart {
    fn step(self) -> (step: &'static str)
        ensures
            step@ == expert_step(self),
    {
        match self {
            ExpertPart::WUp => "w_up",
            ExpertPart::WGate => "w_gate",
            ExpertPart::WDown => "w_down",
            ExpertPart::Bumps => "bumps",
            ExpertPart::ScaleUp => "scale_up",
            ExpertPart::ScaleGate => "scale_gate",
            ExpertPart::ScaleDown => "scale_down",
        }
    }
}

impl SlotPart {
    fn step(self) -> (step: &'static str)
        ensures
            step@ == slot_step(self),
    {
        match self {
            SlotPart::WQ => "w_q",
            SlotPart::WW => "w_w",
            SlotPart::WLink => "w_link",
            SlotPart::BLink => "b_link",
            SlotPart::WBk => "w_bk",
            SlotPart::BBk => "b_bk",
            SlotPart::WBv => "w_bv",
            SlotPart::BBv => "b_bv",
            SlotPart::Gamma => "gamma",
            SlotPart::BAlloc => "b_alloc",
        }
    }
}

fn block_path(block: usize) -> (out: String)
    ensures
        out@ == joined(seq!["blocks"@, crate::text::decimal(block as nat)]),
{
    let mut out: String = "blocks".to_owned();
    push_index(&mut out, block);
    proof {
        lemma_joined_push(seq!["blocks"@], crate::text::decimal(block as nat));
        assert(seq!["blocks"@].push(crate::text::decimal(block as nat)) =~= seq![
            "blocks"@,
            crate::text::decimal(block as nat),
        ]);
    }
    out
}

impl TensorId {
    /// Writes the tensor's name.
    pub fn write_name(self) -> (name: String)
        ensures
            name@ == self.name(),
    {
        match self {
            TensorId::Embed => "embed".to_owned(),
            TensorId::Norm => {
                let mut out: String = "norm".to_owned();
                push_step(&mut out, "weight");
                proof {
                    lemma_joined_push(seq!["norm"@], "weight"@);
                    assert(seq!["norm"@].push("weight"@) =~= self.path());
                }
                out
            },
            TensorId::Block { block, part } => {
                let mut out = block_path(block);
                push_step(&mut out, part.first_step());
                let ghost two = seq!["blocks"@, crate::text::decimal(block as nat)];
                let ghost three = two.push(block_steps(part)[0]);
                proof {
                    lemma_joined_push(two, block_steps(part)[0]);
                }
                match part.second_step() {
                    Some(step) => {
                        push_step(&mut out, step);
                        proof {
                            lemma_joined_push(three, step@);
                            assert(three.push(step@) =~= self.path());
                        }
                    },
                    None => {
                        assert(three =~= self.path());
                    },
                }
                out
            },
            TensorId::Expert { block, expert, part } => {
                let mut out = block_path(block);
                push_step(&mut out, "expert");
                push_index(&mut out, expert);
                push_step(&mut out, part.step());
                proof {
                    let two = seq!["blocks"@, crate::text::decimal(block as nat)];
                    let three = two.push("expert"@);
                    let four = three.push(crate::text::decimal(expert as nat));
                    lemma_joined_push(two, "expert"@);
                    lemma_joined_push(three, crate::text::decimal(expert as nat));
                    lemma_joined_push(four, expert_step(part));
                    assert(four.push(expert_step(part)) =~= self.path());
                }
                out
            },
            TensorId::Slot { block, part } => {
                let mut out = block_path(block);
                push_step(&mut out, "slots");
                push_step(&mut out, part.step());
                proof {
                    let two = seq!["blocks"@, crate::text::decimal(block as nat)];
                    let three = two.push("slots"@);
                    lemma_joined_push(two, "slots"@);
                    lemma_joined_push(three, slot_step(part));
                    assert(three.push(slot_step(part)) =~= self.path());
                }
                out
            },
        }
    }
}

} // verus!
