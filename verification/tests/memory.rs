use ullis::checkpoint::NamedBlob;
use ullis::expert::{TernaryExpert, BUMP_G};
use ullis::memory::{
    ban_recent, feed_plan, has_slots, layer_count, MemoryBlock, MemoryConfig, MemoryError,
    SlotParams, UllisMemory, RECENT,
};

fn row(n: usize, from: u32) -> Vec<u32> {
    (from..from + n as u32).collect()
}

fn model() -> UllisMemory {
    let cfg = MemoryConfig {
        d_model: 2,
        vocab_size: 3,
        n_layers: 1,
        mem_experts: 1,
        expert_width: 2,
        n_slots: 1,
    };
    let expert = TernaryExpert {
        d: 2,
        w: 2,
        w_up: row(4, 100),
        w_gate: row(4, 110),
        w_down: row(4, 120),
        bumps: row(2 * BUMP_G, 130),
        scale_up: row(2, 140),
        scale_gate: row(2, 150),
        scale_down: row(2, 160),
        codes_up: None,
        codes_gate: None,
        codes_down: None,
        phase: 1,
        packed: false,
    };
    UllisMemory {
        cfg,
        embed: row(6, 1),
        norm: row(2, 10),
        blocks: vec![MemoryBlock {
            n1: row(2, 20),
            n2: row(2, 30),
            n_slot: row(2, 40),
            w_alpha: row(2, 50),
            b_alpha: row(2, 55),
            w_i: row(2, 60),
            b_i: row(2, 65),
            router: row(2, 70),
            experts: vec![expert],
            slots: Some(SlotParams {
                w_q: row(2, 80),
                w_w: row(2, 82),
                w_link: row(2, 84),
                b_link: 90,
                w_bk: 91,
                b_bk: 92,
                w_bv: 93,
                b_bv: 94,
                gamma: 95,
                b_alloc: 96,
            }),
        }],
        phase: 1,
    }
}

#[test]
fn saved_numbers_load_back() {
    let full = model();
    let blobs = full.collect_blobs();
    let mut blank = model();
    blank.embed = vec![0; 6];
    blank.blocks[0].experts[0].w_up = vec![0; 4];
    if let Some(slots) = &mut blank.blocks[0].slots {
        slots.gamma = 0;
    }
    for (name, blob) in &blobs {
        if let NamedBlob::F32 { data, .. } = blob {
            blank.load_f32(name, data).unwrap();
        }
    }
    assert_eq!(blank.embed, row(6, 1));
    assert_eq!(blank.blocks[0].experts[0].w_up, row(4, 100));
    assert_eq!(blank.blocks[0].slots.as_ref().unwrap().gamma, 95);
    assert_eq!(
        blobs.iter().map(|(n, _)| n.clone()).collect::<Vec<_>>().len(),
        full.tensor_ids().len()
    );
}

#[test]
fn a_tensor_of_another_length_is_refused() {
    let mut m = model();
    assert_eq!(
        m.load_f32("embed", &[1, 2]),
        Err(MemoryError::Length {
            found: 2,
            expected: 6
        })
    );
    assert_eq!(m.embed, row(6, 1));
    assert_eq!(m.load_f32("no such tensor", &[1]), Ok(()));
}

#[test]
fn packed_codes_are_loaded_and_saved() {
    let mut m = model();
    let (d, w, phase) = {
        let e = &m.blocks[0].experts[0];
        (e.d, e.w, e.phase)
    };
    m.load_packed("blocks.0.expert.0.w_up", vec![7]);
    let e = &m.blocks[0].experts[0];
    assert_eq!((e.d, e.w, e.phase, e.packed), (d, w, phase, true));
    let blobs = m.collect_blobs();
    let (_, blob) = blobs
        .iter()
        .find(|(n, _)| n == "blocks.0.expert.0.w_up")
        .unwrap();
    assert!(matches!(blob, NamedBlob::Packed { bytes, .. } if *bytes == vec![7]));
}

#[test]
fn parameters_are_counted_and_reported() {
    let m = model();
    let n = (6 + 2) + (2 + 2 + 2 + 8 + 2) + (4 + 4 + 4 + 2 * BUMP_G) + (2 + 2 + 2 + 8);
    assert_eq!(m.param_count(), n as u64);
    assert_eq!(
        m.param_report(),
        format!("memory D=2 L=1 E=1 W=2 S=1 params={n}")
    );
}

#[test]
fn the_first_highest_score_wins() {
    let z: Vec<u32> = [f32::NAN, 1.0, 3.0, 3.0]
        .iter()
        .map(|v: &f32| v.to_bits())
        .collect();
    assert_eq!(UllisMemory::argmax(&z), 2);
    assert_eq!(UllisMemory::argmax(&[f32::NEG_INFINITY.to_bits()]), 0);
    assert_eq!(UllisMemory::argmax(&[]), 0);
}

#[test]
fn every_other_layer_has_slots() {
    let cfg = model().cfg;
    assert!(has_slots(&cfg, 0));
    assert!(!has_slots(&cfg, 1));
    assert_eq!(layer_count(&cfg), 1);
    assert_eq!(layer_count(&MemoryConfig { n_layers: 0, ..cfg }), 1);
}

#[test]
fn only_new_tokens_are_fed() {
    let plan = feed_plan(3, 5).unwrap();
    assert_eq!((plan.restart, plan.from), (false, 3));
    let plan = feed_plan(9, 5).unwrap();
    assert_eq!((plan.restart, plan.from), (true, 0));
    assert_eq!(feed_plan(0, 0), Err(MemoryError::EmptyContext));
}

#[test]
fn repeated_tokens_are_held_back() {
    let bans = ban_recent(&[1, 7, 7, 7, 7], 10);
    assert_eq!(bans.banned, Some(7));
    assert_eq!(bans.lowered, vec![7, 7, 7, 7, 1]);
    let long: Vec<u32> = (0..40).collect();
    let bans = ban_recent(&long, 100);
    assert_eq!(bans.banned, None);
    assert_eq!(bans.lowered.len(), RECENT);
}

#[test]
fn frozen_phases_move_fewer_tensors() {
    let mut m = model();
    let all = m.param_lens().len();
    m.set_phase(4);
    assert!(m.param_lens().len() < all);
    assert_eq!(m.phase, 4);
    assert_eq!(m.blocks[0].experts[0].phase, 4);
}
