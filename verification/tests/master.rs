use ullis::kan::{KanError, SovereignTensor, TernaryKanLinear};
use ullis::master::{HalfMaster, Halves, Singles};

fn tensor(shape: &[usize]) -> SovereignTensor {
    let n: usize = shape.iter().product();
    SovereignTensor::from_vec(shape.to_vec(), (0..n as u32).collect()).unwrap()
}

fn layer() -> TernaryKanLinear {
    TernaryKanLinear {
        in_features: 2,
        out_features: 1,
        n_basis: 2,
        n_shared: 1,
        n_routed: 1,
        n_experts: 1,
        moe_topk: 0,
        delta_ratio: 0.7_f32.to_bits(),
        inv_width: 1.5_f32.to_bits(),
        phase: 1,
        packed: false,
        centers: tensor(&[2]),
        inv_widths: tensor(&[2]),
        scale_base: tensor(&[1]),
        scale_shared: tensor(&[2]),
        scale_routed: tensor(&[1, 2]),
        router: None,
        weight_base: Some(tensor(&[1, 2])),
        weight_shared: Some(tensor(&[1, 2])),
        weight_routed: Some(tensor(&[1, 1, 2])),
        packed_codes: None,
        last_route_hits: Vec::new(),
        last_route_tokens: 0,
    }
}

fn halves() -> Halves {
    Halves {
        base: vec![1, 2],
        shared: vec![3, 4],
        routed: vec![5, 6],
        router: vec![7, 8],
    }
}

fn singles() -> Singles {
    Singles {
        base: vec![10, 20],
        shared: vec![30, 40],
        routed: vec![50, 60],
        router: vec![70, 80],
    }
}

#[test]
fn stashed_weights_come_back_from_their_halves() {
    let mut layer = layer();
    let mut master = HalfMaster::new();
    master.stash_master(&mut layer, halves());
    assert!(layer.weight_base.is_some());
    assert_eq!(master.master_storage_bytes(), 0);
    master.enable_fp16_master(&mut layer, halves());
    assert!(layer.weight_base.is_none() && layer.weight_routed.is_none());
    assert_eq!(master.base, Some(vec![1, 2]));
    assert_eq!(master.router, None);
    assert_eq!(master.master_storage_bytes(), 12);
    assert_eq!(layer.centers.data, vec![0, 1]);
    master.hydrate(&mut layer, singles()).unwrap();
    let base = layer.weight_base.as_ref().unwrap();
    assert_eq!((base.shape.clone(), base.data.clone()), (vec![1, 2], vec![10, 20]));
    assert_eq!(layer.weight_routed.as_ref().unwrap().shape, vec![1, 1, 2]);
    assert!(layer.router.is_none());
}

#[test]
fn a_copy_that_does_not_fill_its_shape_is_refused() {
    let mut layer = layer();
    let mut master = HalfMaster::new();
    master.enable_fp16_master(&mut layer, halves());
    let short = Singles { shared: vec![1], ..singles() };
    assert_eq!(master.hydrate(&mut layer, short), Err(KanError::TensorShape));
    assert!(layer.weight_base.is_some());
    assert!(layer.weight_shared.is_none());
    assert!(layer.weight_routed.is_none());
}

#[test]
fn a_packed_layer_is_left_alone() {
    let mut layer = layer();
    layer.packed = true;
    let mut master = HalfMaster::new();
    master.enable_fp16_master(&mut layer, halves());
    assert!(master.on);
    assert!(layer.weight_base.is_some());
    assert_eq!(master.base, None);
    layer.weight_base = None;
    master.hydrate(&mut layer, singles()).unwrap();
    assert!(layer.weight_base.is_none());
}
