use ullis::names::{index_step, tensor_named, BlockPart, ExpertPart, SlotPart, TensorId};

#[test]
fn names_are_paths() {
    assert_eq!(TensorId::Embed.write_name(), "embed");
    assert_eq!(TensorId::Norm.write_name(), "norm.weight");
    let id = TensorId::Expert {
        block: 10,
        expert: 2,
        part: ExpertPart::WUp,
    };
    assert_eq!(id.write_name(), "blocks.10.expert.2.w_up");
    let id = TensorId::Slot {
        block: 0,
        part: SlotPart::Gamma,
    };
    assert_eq!(id.write_name(), "blocks.0.slots.gamma");
}

#[test]
fn a_name_leads_back_to_its_tensor() {
    let ids = [
        TensorId::Embed,
        TensorId::Norm,
        TensorId::Block {
            block: 3,
            part: BlockPart::WAlpha,
        },
        TensorId::Block {
            block: 3,
            part: BlockPart::Router,
        },
        TensorId::Expert {
            block: 1,
            expert: 12,
            part: ExpertPart::ScaleDown,
        },
        TensorId::Slot {
            block: 7,
            part: SlotPart::BAlloc,
        },
    ];
    for id in ids {
        assert_eq!(tensor_named(&id.write_name()), Some(id));
    }
    assert_eq!(tensor_named("blocks.x.router"), None);
    assert_eq!(tensor_named("blocks"), None);
    assert_eq!(index_step("12"), Some(12));
    assert_eq!(index_step("012"), None);
    assert_eq!(index_step("+1"), None);
}
