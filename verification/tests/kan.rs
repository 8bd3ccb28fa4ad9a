use ullis::accelerate::SpecError;
use ullis::checkpoint::NamedBlob;
use ullis::kan::{
    KanError, KanEvalMode, KanTensor, PackedCodes, SovereignTensor, TernaryKanLinear, COARSE_BASIS,
};

fn tensor(shape: &[usize]) -> SovereignTensor {
    let n: usize = shape.iter().product();
    SovereignTensor::from_vec(shape.to_vec(), (0..n as u32).collect()).unwrap()
}

fn layer() -> TernaryKanLinear {
    TernaryKanLinear {
        in_features: 4,
        out_features: 2,
        n_basis: 4,
        n_shared: 3,
        n_routed: 1,
        n_experts: 2,
        moe_topk: 0,
        delta_ratio: 0.7_f32.to_bits(),
        inv_width: 1.5_f32.to_bits(),
        phase: 1,
        packed: false,
        centers: tensor(&[4]),
        inv_widths: tensor(&[4]),
        scale_base: tensor(&[2]),
        scale_shared: tensor(&[4]),
        scale_routed: tensor(&[2, 4]),
        router: Some(tensor(&[2, 4])),
        weight_base: Some(tensor(&[2, 4])),
        weight_shared: Some(tensor(&[2, 12])),
        weight_routed: Some(tensor(&[2, 2, 4])),
        packed_codes: None,
        last_route_hits: Vec::new(),
        last_route_tokens: 0,
    }
}

#[test]
fn modes_choose_the_bumps_in_use() {
    assert!(KanEvalMode::Coarse.mask_thinking());
    assert!(!KanEvalMode::Full.mask_thinking());
    assert_eq!(KanEvalMode::Resonant { loops: 3 }.resonance_loops(), 3);
    let full = layer().spec(3, KanEvalMode::Full).unwrap();
    assert_eq!((full.coarse, full.g_use), (0, 3));
    let coarse = layer().spec(3, KanEvalMode::Coarse).unwrap();
    assert_eq!(coarse.coarse, 1);
    assert!(coarse.g_use as usize <= COARSE_BASIS);
    assert_eq!(
        layer().spec(0, KanEvalMode::Full),
        Err(KanError::Spec(SpecError::NoTokens))
    );
}

#[test]
fn a_forward_run_checks_its_rows() {
    let l = layer();
    let spec = l.spec(3, KanEvalMode::Full).unwrap();
    assert_eq!(l.check_forward(&spec, 12, 6), Ok(()));
    assert_eq!(l.check_forward(&spec, 11, 6), Err(KanError::InputLength));
    assert_eq!(l.check_forward(&spec, 12, 5), Err(KanError::OutputShort));
}

#[test]
fn tensors_load_back_under_their_names() {
    let l = layer();
    let blobs = l.named_tensors();
    let mut other = layer();
    for (name, blob) in blobs {
        if let NamedBlob::F32 { data, shape } = blob {
            assert!(KanTensor::named(&name).is_some(), "{name}");
            other.load_f32(&name, data, shape).unwrap();
        }
    }
    assert_eq!(other.centers.data, l.centers.data);
    assert_eq!(
        layer().load_f32("nonsense", vec![1], vec![1]),
        Err(KanError::UnknownTensor)
    );
    assert!(SovereignTensor::from_vec(vec![2], vec![1, 2, 3]).is_err());
    assert_eq!(tensor(&[2, 3]).numel(), 6);
}

#[test]
fn scales_are_fitted_once() {
    let mut l = layer();
    assert!(!l.set_phase(2));
    assert!(l.set_phase(3));
    assert!(!l.set_phase(4));
    l.pack(PackedCodes {
        packed_base: vec![1],
        packed_shared: vec![2],
        packed_routed: vec![3],
    });
    assert!(l.packed);
}

#[test]
fn hits_count_the_open_gates() {
    let mut l = layer();
    let gates: Vec<u32> = [0.5_f32, 0.5, 0.0, 1.0]
        .iter()
        .map(|v| v.to_bits())
        .collect();
    l.record_routing(&gates, 2, 2);
    assert_eq!(l.last_route_hits, vec![1, 2]);
    assert_eq!(l.last_route_tokens, 2);
}
