use ullis::expert::{
    check_router, expert_weight_count, gather_rows, group_tokens, topk_rows, TernaryExpert, BUMP_G,
};

fn bits(values: &[f32]) -> Vec<u32> {
    values.iter().map(|v| v.to_bits()).collect()
}

fn expert(d: usize, w: usize) -> TernaryExpert {
    TernaryExpert {
        d,
        w,
        w_up: vec![0; d * w],
        w_gate: vec![0; d * w],
        w_down: vec![0; d * w],
        bumps: vec![0; w * BUMP_G],
        scale_up: vec![0; w],
        scale_gate: vec![0; w],
        scale_down: vec![0; d],
        codes_up: None,
        codes_gate: None,
        codes_down: None,
        phase: 1,
        packed: false,
    }
}

#[test]
fn at_most_k_gates_are_kept() {
    let mut gates = bits(&[0.2, 0.5, 0.3, 0.1, 0.1, 0.8]);
    topk_rows(&mut gates, 2, 3, 1);
    assert_eq!(gates[1], 0.5_f32.to_bits());
    assert_eq!(gates.iter().filter(|&&g| g != 0).count(), 2);
    assert_eq!(gates[5], 0.8_f32.to_bits());
    let mut short = bits(&[0.2, f32::NAN]);
    let kept = short.clone();
    topk_rows(&mut short, 9, 3, 0);
    topk_rows(&mut short, 9, 3, 3);
    assert_eq!(short, kept);
}

#[test]
fn groups_hold_the_routed_tokens() {
    let gates = bits(&[0.5, 0.0, 0.0, 0.7, 0.2, 0.8]);
    let groups = group_tokens(&gates, 3, 2);
    assert_eq!(groups, vec![vec![0, 2], vec![1, 2]]);
    let rows = gather_rows(&[1, 2, 3, 4, 5, 6], &groups[1], 2);
    assert_eq!(rows, vec![3, 4, 5, 6]);
}

#[test]
fn weights_are_counted() {
    assert!(check_router(6, 2, 3));
    assert!(!check_router(5, 2, 3));
    let n = 8 * 4 * 3 + 4 * BUMP_G;
    assert_eq!(expert_weight_count(&vec![expert(8, 4), expert(8, 4)]), 2 * n);
}

#[test]
fn packed_codes_take_the_place_of_the_weights() {
    let mut e = expert(2, 2);
    e.phase = 3;
    assert!(e.qat());
    e.pack(vec![1], vec![2], vec![3]);
    assert!(e.packed);
    assert!(!e.qat());
    assert_eq!(e.codes_gate, Some(vec![2]));
}
