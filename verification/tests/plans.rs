use ullis::metal::{
    apply_latent_sgd, binary_linear_backward, binary_linear_latent_sgd, binary_linear_weight_bwd,
    binaryconnect_sgd_fp16, clipped_sgd_fp16, cmix_block_backward_sgd, cmix_ffn_backward,
    cmix_ffn_forward, cmix_relu2, cmix_relu2_backward, fp16_linear, fp16_linear_backward,
    layer_norm_backward, packed_head_train, packed_head_train_sgd, rosa_block_forward,
    rosa_o_stop_grad_sgd, rosa_qkv_1bit_bwd_e, rosa_qkv_1bit_fwd, sign_pack_bits,
    streamed_cross_entropy_fp16, time_shift_delta, Kernel, LinearDispatchShape, MetalError,
    Operation, Plan, RosaBlockLens,
};

fn lens(plan: &Plan) -> Vec<usize> {
    plan.buffers.iter().map(|b| b.len).collect()
}

fn kernels(plan: &Plan) -> Vec<Kernel> {
    plan.steps.iter().map(|s| s.kernel).collect()
}

fn mismatch(plan: Result<Plan, MetalError>) -> Operation {
    match plan.unwrap_err() {
        MetalError::Mismatch(operation) => operation,
        other => panic!("{other:?}"),
    }
}

#[test]
fn single_kernels_check_their_lengths() {
    let plan = time_shift_delta(24, 4, 2, 6).unwrap();
    assert_eq!(plan.steps[0].constants, vec![4, 2, 6]);
    assert_eq!(mismatch(time_shift_delta(23, 4, 2, 6)), Operation::TimeShift);
    let plan = sign_pack_bits(40).unwrap();
    assert_eq!(lens(&plan), vec![40, 2]);
    assert_eq!(kernels(&plan), vec![Kernel::SignPackBits]);
    assert_eq!(kernels(&cmix_relu2(3).unwrap()), vec![Kernel::CmixRelu2]);
    assert_eq!(mismatch(cmix_relu2_backward(3, 4)), Operation::Relu2Backward);
    let plan = layer_norm_backward(12, 12, 4, 3, 4).unwrap();
    assert_eq!(lens(&plan), vec![12, 12, 4, 12, 3, 3, 4, 4]);
    assert_eq!(plan.outputs, vec![3, 6, 7]);
    assert_eq!(
        mismatch(layer_norm_backward(12, 11, 4, 3, 4)),
        Operation::LayerNormBackward
    );
}

#[test]
fn packed_projections_go_forward_and_back() {
    let shape = LinearDispatchShape::new(2, 64, 3).unwrap();
    let plan = binary_linear_backward(128, 6, 6, 3, true, shape).unwrap();
    assert_eq!(lens(&plan), vec![128, 6, 6, 3, 128, 3, 3, 192]);
    assert_eq!(plan.outputs, vec![4, 5, 7, 6]);
    assert_eq!(plan.steps[1].constants, vec![2, 64, 3, 1]);
    assert_eq!(
        mismatch(binary_linear_backward(128, 5, 6, 3, true, shape)),
        Operation::BinaryGradient
    );
    assert!(binary_linear_weight_bwd(128, 6, 3, shape).is_ok());
    assert_eq!(
        mismatch(binary_linear_weight_bwd(128, 6, 2, shape)),
        Operation::WeightGradient
    );
    assert!(binary_linear_latent_sgd(192, 128, 6, 3, 0x3f80_0000, shape).is_ok());
    assert_eq!(
        mismatch(binary_linear_latent_sgd(191, 128, 6, 3, 0x3f80_0000, shape)),
        Operation::LatentSgd
    );
}

#[test]
fn plain_projections_go_forward_and_back() {
    let shape = LinearDispatchShape::new(2, 5, 3).unwrap();
    assert_eq!(lens(&fp16_linear(10, 15, shape).unwrap()), vec![10, 15, 6]);
    assert_eq!(mismatch(fp16_linear(10, 14, shape)), Operation::Fp16Linear);
    let plan = fp16_linear_backward(10, 6, 15, shape).unwrap();
    assert_eq!(lens(&plan), vec![10, 6, 15, 10, 15]);
    assert_eq!(plan.outputs, vec![3, 4]);
    assert_eq!(plan.steps[0].constants, vec![2, 5, 3, 0]);
    assert_eq!(plan.steps[1].constants, vec![2, 5, 3, 1]);
    assert_eq!(
        mismatch(fp16_linear_backward(10, 7, 15, shape)),
        Operation::Fp16LinearBackward
    );
}

#[test]
fn matching_runs_over_reset_automata() {
    // 1 sequence, 8 steps, 4 channels: 32 bits a plane, 4 automata of 17 nodes.
    let plan = rosa_qkv_1bit_fwd(1, 1, 1, 4, 1, 8, 4).unwrap();
    assert_eq!(lens(&plan), vec![1, 1, 1, 4, 68, 68, 68, 68, 68, 32, 32]);
    assert_eq!(kernels(&plan), vec![Kernel::RosaSamReset, Kernel::RosaQkvFwd]);
    assert_eq!(plan.steps[0].constants, vec![68]);
    assert_eq!(plan.outputs, vec![9, 10]);
    assert_eq!(mismatch(rosa_qkv_1bit_fwd(1, 1, 1, 5, 1, 8, 4)), Operation::RosaScale);
    assert_eq!(mismatch(rosa_qkv_1bit_fwd(1, 2, 1, 4, 1, 8, 4)), Operation::RosaPlanes);
    assert_eq!(
        rosa_qkv_1bit_fwd(1, 1, 1, 4, 0, 8, 4).unwrap_err(),
        MetalError::ZeroDimension
    );
    let plan = rosa_qkv_1bit_bwd_e(32, 32, 1, 8, 4).unwrap();
    assert_eq!(lens(&plan), vec![32, 32, 4]);
    assert_eq!(mismatch(rosa_qkv_1bit_bwd_e(32, 31, 1, 8, 4)), Operation::RosaGradient);
}

#[test]
fn a_matching_block_mixes_projects_and_packs() {
    let lens_of = RosaBlockLens {
        x: 256,
        mix_q: 32,
        mix_k: 32,
        mix_v: 32,
        q_bits: 32,
        q_scale: 32,
        q_bias: 32,
        k_bits: 32,
        k_scale: 32,
        k_bias: 32,
        v_bits: 32,
        v_scale: 32,
        v_bias: 32,
        e: 32,
        o_bits: 32,
        o_scale: 32,
        o_bias: 32,
    };
    let plan = rosa_block_forward(lens_of, 2, 4, 32).unwrap();
    assert_eq!(plan.buffers.len(), 22);
    assert_eq!(plan.outputs, vec![19, 20, 21]);
    assert_eq!(
        kernels(&plan),
        vec![
            Kernel::TimeShiftMix3,
            Kernel::BinaryLinear,
            Kernel::BinaryLinear,
            Kernel::BinaryLinear,
            Kernel::SignPackBits,
            Kernel::SignPackBits,
            Kernel::SignPackBits,
        ]
    );
    assert_eq!(plan.steps[0].constants, vec![8, 4, 32]);
    assert_eq!(plan.steps[1].buffers, vec![4, 7, 10, 13, 16]);
    assert_eq!(lens(&plan)[19], 8);
    let short = RosaBlockLens { mix_k: 31, ..lens_of };
    assert_eq!(mismatch(rosa_block_forward(short, 2, 4, 32)), Operation::RosaBlock);
    let unpacked = RosaBlockLens { k_bits: 31, ..lens_of };
    assert_eq!(
        mismatch(rosa_block_forward(unpacked, 2, 4, 32)),
        Operation::BinaryLinear
    );
}

#[test]
fn the_output_of_a_matching_block_is_learned() {
    let plan =
        rosa_o_stop_grad_sgd(256, 256, 256, 256, 32, 32, 32, 1024, 1024, 8, 32, 7, 9).unwrap();
    assert_eq!(plan.outputs, vec![13, 10, 11, 7, 8, 14]);
    assert_eq!(plan.steps[3].constants, vec![1, 8, 32]);
    assert_eq!(plan.steps[4].constants, vec![7, 1024, 9]);
    assert_eq!(lens(&plan)[14], 32);
    assert_eq!(
        mismatch(rosa_o_stop_grad_sgd(
            256, 256, 256, 255, 32, 32, 32, 1024, 1024, 8, 32, 7, 9
        )),
        Operation::RosaOutput
    );
}

#[test]
fn a_channel_mix_goes_forward_and_back() {
    // 2 rows, width 32, hidden width 64.
    let plan = cmix_ffn_forward(64, 64, 64, 2048, 2, 32, 64).unwrap();
    assert_eq!(lens(&plan), vec![64, 64, 64, 0, 2048, 128, 128, 64]);
    assert_eq!(
        kernels(&plan),
        vec![Kernel::BinaryLinear, Kernel::CmixRelu2, Kernel::Fp16Linear]
    );
    assert_eq!(plan.steps[2].constants, vec![2, 64, 32]);
    let plan = cmix_ffn_backward(64, 128, 128, 64, 64, 64, 2048, 2, 32, 64).unwrap();
    assert_eq!(plan.outputs, vec![10, 13, 11, 8]);
    assert_eq!(plan.steps.len(), 6);
    // A longer weight is carried along whole; sizes are refused before it is looked at.
    let longer = cmix_ffn_forward(64, 64, 64, 2050, 2, 32, 64).unwrap();
    assert_eq!(lens(&longer)[4], 2050);
    assert!(cmix_ffn_backward(64, 128, 128, 64, 64, 64, 2050, 2, 32, 64).is_ok());
    assert!(cmix_ffn_forward(0, 64, 64, 0, 0, 32, 64).is_err());
    assert_eq!(
        mismatch(cmix_ffn_backward(64, 127, 128, 64, 64, 64, 2048, 2, 32, 64)),
        Operation::CmixBackward
    );
    let plan = cmix_block_backward_sgd(
        64, 128, 128, 64, 64, 64, 2048, 2048, 2048, 2048, 2, 32, 64, 5, 6,
    )
    .unwrap();
    assert_eq!(plan.outputs, vec![13, 14, 6, 7, 8, 9, 18]);
    assert_eq!(plan.steps[6].constants, vec![5, 2048]);
    assert_eq!(plan.steps[7].constants, vec![5, 2048, 6]);
    assert_eq!(lens(&plan)[18], 64);
    assert_eq!(
        mismatch(cmix_block_backward_sgd(
            64, 128, 128, 64, 64, 64, 2047, 2048, 2048, 2048, 2, 32, 64, 5, 6,
        )),
        Operation::CmixBackwardSgd
    );
}

#[test]
fn updates_need_equal_lengths_and_skip_nothing() {
    let plan = clipped_sgd_fp16(7, 7, 7, 3).unwrap();
    assert_eq!(plan.steps[0].constants, vec![3, 7]);
    assert!(clipped_sgd_fp16(0, 0, 0, 3).unwrap().steps.is_empty());
    assert_eq!(mismatch(clipped_sgd_fp16(7, 6, 7, 3)), Operation::ClippedLength);
    let plan = binaryconnect_sgd_fp16(7, 7, 7, 3, 4).unwrap();
    assert_eq!(plan.steps[0].constants, vec![3, 7, 4]);
    assert_eq!(
        mismatch(binaryconnect_sgd_fp16(7, 7, 6, 3, 4)),
        Operation::BinaryConnectLength
    );
    let plan = apply_latent_sgd(40, 40, 40, 3, 4).unwrap();
    assert_eq!(lens(&plan), vec![40, 40, 40, 2]);
    assert_eq!(plan.outputs, vec![0, 1, 3]);
    assert_eq!(mismatch(apply_latent_sgd(40, 40, 41, 3, 4)), Operation::LatentLength);
}

#[test]
fn the_loss_is_streamed_over_the_vocabulary() {
    // 4 rows of 2 steps, width 32, 10 tokens.
    let plan = streamed_cross_entropy_fp16(128, 10, 10, 4, 4, 2, 32, 10, 1, 8).unwrap();
    assert_eq!(lens(&plan), vec![128, 10, 10, 4, 128, 4, 10, 40]);
    assert_eq!(plan.steps[0].constants, vec![4, 2, 32, 10, 1, 8, u32::MAX]);
    assert_eq!(
        mismatch(streamed_cross_entropy_fp16(128, 10, 10, 4, 4, 3, 32, 10, 1, 8)),
        Operation::StreamedCe
    );
    let plan = packed_head_train(128, 10, 10, 4, 4, 2, 32, 10, 1, 8).unwrap();
    assert_eq!(plan.outputs, vec![8, 9, 11, 7]);
    assert_eq!(plan.steps[1].constants, vec![4, 2, 10, 1, 8, u32::MAX]);
    assert_eq!(
        mismatch(packed_head_train(128, 10, 10, 3, 4, 2, 32, 10, 1, 8)),
        Operation::HeadCe
    );
    assert_eq!(
        mismatch(packed_head_train_sgd(
            128, 10, 10, 319, 320, 4, 4, 2, 32, 10, 1, 8, 0, 5, 6
        )),
        Operation::HeadSgd
    );
}
