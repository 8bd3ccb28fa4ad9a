use ullis::metal::{
    as_u32, binary_linear, binary_linear_pack3, causal_supervised_count, cmix_block_forward,
    identity, is_kernel, layer_norm, packed_head_train_sgd, residual_add, rosa_block_output,
    validate_metal_kernel, validate_metal_pipeline, Grid, Kernel, LinearDispatchShape,
    MetalDispatchShape, MetalError, Operation, PackedOperand, CE_NO_IGNORE,
};

#[test]
fn dispatch_shape_rejects_zero_and_32_bit_overflow() {
    assert!(MetalDispatchShape::new(0, 1, 1).is_err());
    assert!(MetalDispatchShape::new(1, 1, 0).is_err());
    assert!(MetalDispatchShape::new(65_536, 65_536, 1).is_err());
    assert_eq!(MetalDispatchShape::new(2, 3, 4).unwrap().elements(), 24);
}

#[test]
fn linear_shapes_are_packed_by_words() {
    let shape = LinearDispatchShape::new(2, 64, 3).unwrap();
    assert_eq!(shape.packed_words().unwrap(), 6);
    assert!(LinearDispatchShape::new(0, 64, 3).is_err());
    assert_eq!(as_u32(7), Ok(7));
    assert_eq!(as_u32(usize::MAX), Err(MetalError::TooWide));
}

#[test]
fn kernels_are_known_by_name() {
    assert_eq!(Kernel::Identity.name(), "ullis_identity");
    assert!(is_kernel("ullis_identity"));
    assert!(!is_kernel("ullis_hyena"));
    let shape = MetalDispatchShape::new(1, 8, 16).unwrap();
    assert!(validate_metal_kernel("ullis_identity", shape, 1024).unwrap() > 0);
    assert_eq!(
        validate_metal_kernel("nothing", shape, 1024),
        Err(MetalError::UnknownKernel)
    );
    assert_eq!(
        validate_metal_pipeline(shape, 0),
        Err(MetalError::NoThreads)
    );
}

#[test]
fn pr3_kernels_compile_on_the_local_metal_device() {
    let blocks = [
        (Kernel::Identity, "ullis_identity"),
        (Kernel::LayerNorm, "ullis_layer_norm"),
        (Kernel::LayerNormBackward, "ullis_layer_norm_backward"),
        (Kernel::LayerNormParamBwd, "ullis_layer_norm_param_bwd"),
        (Kernel::TimeShiftDelta, "ullis_time_shift_delta"),
        (Kernel::TimeShiftMix, "ullis_time_shift_mix"),
        (Kernel::TimeShiftMix3, "ullis_time_shift_mix3"),
        (Kernel::BinaryLinear, "ullis_binary_linear"),
        (Kernel::BinaryLinearInputBwd, "ullis_binary_linear_input_bwd"),
        (Kernel::BinaryLinearScaleBwd, "ullis_binary_linear_scale_bwd"),
        (Kernel::BinaryLinearWeightBwd, "ullis_binary_linear_weight_bwd"),
        (
            Kernel::BinaryLinearScaleBwdFromOutput,
            "ullis_binary_linear_scale_bwd_from_output",
        ),
        (Kernel::BinaryLinearLatentSgd, "ullis_binary_linear_latent_sgd"),
        (Kernel::Fp16Linear, "ullis_fp16_linear"),
        (Kernel::Fp16LinearBwd, "ullis_fp16_linear_bwd"),
        (Kernel::SignPackBits, "ullis_sign_pack_bits"),
        (Kernel::PackLatentBits, "ullis_pack_latent_bits"),
        (Kernel::CmixRelu2, "ullis_cmix_relu2"),
        (Kernel::CmixRelu2Backward, "ullis_cmix_relu2_backward"),
        (Kernel::ResidualAdd, "ullis_residual_add"),
        (Kernel::StreamedCrossEntropy, "ullis_streamed_cross_entropy_fp16"),
        (Kernel::SoftmaxCrossEntropy, "ullis_softmax_cross_entropy"),
        (Kernel::ClippedSgd, "ullis_clipped_sgd_fp16"),
        (Kernel::BinaryConnectSgd, "ullis_binaryconnect_sgd_fp16"),
    ];
    let rosa = [
        (Kernel::RosaSamReset, "ullis_rosa_sam_reset"),
        (Kernel::RosaQkvFwd, "ullis_rosa_qkv_1bit_fwd"),
    ];
    let rosa_bwd = [(Kernel::RosaQkvBwdE, "ullis_rosa_qkv_1bit_bwd_e")];
    let wkv7 = [
        (Kernel::Wkv7Forward, "ullis_wkv7_forward"),
        (Kernel::Wkv7Backward, "ullis_wkv7_backward"),
    ];
    let shape = MetalDispatchShape::new(1, 8, 16).unwrap();
    for (kernel, name) in blocks
        .iter()
        .chain(rosa.iter())
        .chain(rosa_bwd.iter())
        .chain(wkv7.iter())
    {
        assert_eq!(kernel.name(), *name);
        for threads in [1, 256, 1024] {
            let width = validate_metal_kernel(name, shape, threads).unwrap();
            assert!(width > 0, "{name}");
            assert_eq!(width, threads);
        }
        assert_eq!(validate_metal_kernel(name, shape, 0), Err(MetalError::NoThreads));
    }
}

#[test]
fn a_plan_names_its_buffers_and_outputs() {
    let plan = identity(10).unwrap();
    assert_eq!(plan.steps.len(), 1);
    assert_eq!(plan.steps[0].kernel, Kernel::Identity);
    assert_eq!(plan.steps[0].constants, vec![10]);
    assert_eq!(plan.buffers[plan.outputs[0]].len, 10);
    assert!(identity(0).unwrap().steps.is_empty());
    let plan = layer_norm(12, 4, 4, 3, 4).unwrap();
    assert_eq!(plan.steps[0].kernel, Kernel::LayerNorm);
}

#[test]
fn lengths_that_do_not_match_are_refused() {
    assert_eq!(
        residual_add(3, 4).unwrap_err(),
        MetalError::Mismatch(Operation::ResidualAdd)
    );
    assert_eq!(
        layer_norm(12, 4, 3, 3, 4).unwrap_err(),
        MetalError::Mismatch(Operation::LayerNorm)
    );
    let shape = LinearDispatchShape::new(2, 64, 3).unwrap();
    assert!(binary_linear(128, 6, 3, None, shape).is_ok());
    assert_eq!(
        binary_linear(127, 6, 3, None, shape).unwrap_err(),
        MetalError::Mismatch(Operation::BinaryLinear)
    );
    assert!(!MetalError::Mismatch(Operation::BinaryLinear)
        .message()
        .is_empty());
}

#[test]
fn longer_plans_never_read_an_unfilled_buffer() {
    let plans = [
        rosa_block_output(32 * 2, 32, 32, 1, 4, 32),
        cmix_block_forward(4 * 32, 32, 128, 128, 32 * 128, 1, 4, 32, 128),
        packed_head_train_sgd(
            4 * 32, 64, 64, 64 * 32, 64 * 32, 4, 4, 4, 32, 64, 1, 0, 0, 0, 0,
        ),
    ];
    for plan in plans.into_iter().flatten() {
        let mut filled: Vec<bool> = plan.buffers.iter().map(|b| b.filled).collect();
        for step in &plan.steps {
            for &b in &step.buffers {
                assert!(b < plan.buffers.len());
                filled[b] = true;
            }
        }
        for &o in &plan.outputs {
            assert!(filled[o]);
        }
    }
}

#[test]
fn grids_are_split_into_groups() {
    let line = Grid::Line { threads: 1000 };
    let (groups, _, width, _) = line.groups(256).unwrap();
    assert!(groups * width >= 1000);
    let tiles = Grid::Tiles {
        width: 33,
        height: 17,
    };
    assert_eq!(tiles.groups(256).unwrap(), (3, 2, 16, 16));
}

#[test]
fn targets_stay_in_their_sequence() {
    assert_eq!(causal_supervised_count(&[1, 2, 3, 4], 4, 1, 0), 3);
    assert_eq!(causal_supervised_count(&[1, 2, 3, 4], 2, 1, 0), 2);
    assert_eq!(causal_supervised_count(&[1, 0, 3, 4], 4, 1, 0), 2);
    let tokens: Vec<u32> = (0..24).collect();
    assert_eq!(causal_supervised_count(&tokens, 6, 2, CE_NO_IGNORE), 4 * 4);
    assert_eq!(causal_supervised_count(&tokens, 6, 0, CE_NO_IGNORE), 24);
    assert_eq!(causal_supervised_count(&tokens, 6, 6, CE_NO_IGNORE), 0);
}

#[test]
fn three_projections_run_in_one_submission() {
    let shape = LinearDispatchShape::new(2, 64, 3).unwrap();
    let operand = PackedOperand { input: 128, bits: 6, scale: 3, bias: None };
    let biased = PackedOperand { bias: Some(3), ..operand };
    let plan = binary_linear_pack3(operand, biased, operand, shape).unwrap();
    assert_eq!(plan.buffers.len(), 15);
    assert_eq!(plan.outputs, vec![4, 9, 14]);
    assert_eq!(plan.steps.len(), 3);
    assert_eq!(plan.steps[1].buffers, vec![5, 6, 7, 8, 9]);
    assert_eq!(plan.steps[1].constants, vec![2, 64, 3, 1]);
    assert_eq!(plan.steps[2].constants, vec![2, 64, 3, 0]);
    let short = PackedOperand { bits: 5, ..operand };
    assert_eq!(
        binary_linear_pack3(operand, operand, short, shape).unwrap_err(),
        MetalError::Mismatch(Operation::BinaryLinear)
    );
}
