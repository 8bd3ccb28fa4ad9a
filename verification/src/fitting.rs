//! Which lengths a plan is made for: every buffer has to hold exactly what its
//! shape says, and every count has to fit the device.
use crate::metal::{Grid, Kernel, LinearDispatchShape, PackedOperand, RosaBlockLens, StepView};
use vstd::prelude::*;

verus! {

/// So many words hold `n` bits, and no word is left over.
pub open spec fn hold_bits(words: int, n: int) -> bool {
    32 * words - 32 < n <= 32 * words
}

/// A shape that the device can count: no dimension is zero, and there are at
/// most as many elements as thirty-two bits count.
pub open spec fn countable(batch: int, time: int, channels: int) -> bool {
    batch > 0 && time > 0 && channels > 0 && batch * time * channels <= 0xffff_ffff
}

/// A projection that the device can count.
pub open spec fn projectable(rows: int, from_width: int, to_width: int) -> bool {
    rows > 0 && to_width > 0 && rows * to_width <= 0xffff_ffff && 0 < from_width <= 0xffff_ffff
}

/// Bits are packed thirty-two to a word.
pub proof fn law_words_hold_their_bits(words: int, n: int)
    ensures
        words == crate::metal::words(n) <==> hold_bits(words, n),
{
}

/// Shapes and projections are accepted exactly when the device can count them.
pub proof fn law_countable_shapes(batch: usize, time: usize, channels: usize)
    ensures
        crate::metal::dispatch_error(batch as int, time as int, channels as int) is None
            <==> countable(batch as int, time as int, channels as int),
        crate::metal::linear_error(batch as int, time as int, channels as int) is None
            <==> projectable(batch as int, time as int, channels as int),
{
    let (b, t, c) = (batch as int, time as int, channels as int);
    assert(b * 1 * c == b * c) by (nonlinear_arith);
    assert(usize::MAX >= u32::MAX);
}

/// Plans over rows of numbers take rows of the same length, as long as the device
/// can count them.
pub proof fn law_rows_of_one_length(a: usize, b: usize, c: usize, rate: u32, scale: u32)
    ensures
        crate::metal::identity_error(a) is None <==> a <= 0xffff_ffff,
        crate::metal::sign_pack_bits_error(a) is None <==> a <= 0xffff_ffff,
        crate::metal::cmix_relu2_error(a) is None <==> a <= 0xffff_ffff,
        crate::metal::residual_add_error(a, b) is None <==> a == b && a <= 0xffff_ffff,
        crate::metal::cmix_relu2_backward_error(a, b) is None <==> a == b && a <= 0xffff_ffff,
        crate::metal::clipped_sgd_fp16_error(a, b, c, rate) is None <==> a == b && b == c && a
            <= 0xffff_ffff,
        crate::metal::binaryconnect_sgd_fp16_error(a, b, c, rate, scale) is None <==> a == b && b
            == c && a <= 0xffff_ffff,
        crate::metal::apply_latent_sgd_error(a, b, c, rate, scale) is None <==> a == b && b == c
            && a <= 0xffff_ffff,
{
}

/// A shift takes whole sequences, and a normalisation rows of one width with a
/// scale and an offset for each channel.
pub proof fn law_rows_of_channels(
    input: usize,
    second: usize,
    third: usize,
    rows: usize,
    time: usize,
    channels: usize,
)
    ensures
        crate::metal::time_shift_delta_error(input, rows, time, channels) is None <==> {
            &&& input == rows * channels && input > 0
            &&& time > 0 && rows % time == 0
            &&& rows <= 0xffff_ffff && time <= 0xffff_ffff && channels <= 0xffff_ffff
        },
        crate::metal::layer_norm_error(input, second, third, rows, channels) is None <==> {
            &&& input == rows * channels && rows > 0
            &&& second == channels && third == channels
            &&& rows <= 0xffff_ffff && channels <= 0xffff_ffff
        },
        crate::metal::layer_norm_backward_error(input, second, third, rows, channels) is None
            <==> {
            &&& input == rows * channels && rows > 0 && channels > 0
            &&& second == input && third == channels
            &&& rows <= 0xffff_ffff && channels <= 0xffff_ffff
        },
{
}

/// A packed projection takes rows of its input width, a bit for each weight, a
/// scale for each output, and a bias for each output where it has one.
pub open spec fn packed_fits(
    input: int,
    bits: int,
    scale: int,
    bias: Option<usize>,
    shape: LinearDispatchShape,
) -> bool {
    &&& input == shape.rows * shape.in_features
    &&& shape.in_features * shape.out_features <= usize::MAX
    &&& hold_bits(bits, shape.in_features * shape.out_features)
    &&& scale == shape.out_features
    &&& bias matches Some(n) ==> n == shape.out_features
}

/// Packed projections and their gradients are planned for exactly the lengths
/// that their shape gives.
pub proof fn law_packed_projections(
    input: usize,
    gradient: usize,
    bits: usize,
    scale: usize,
    latent: usize,
    bias: Option<usize>,
    has_bias: bool,
    rate: u32,
    shape: LinearDispatchShape,
)
    ensures
        crate::metal::binary_linear_error(input, bits, scale, bias, shape) is None
            <==> packed_fits(input as int, bits as int, scale as int, bias, shape),
        crate::metal::binary_linear_backward_error(
            input,
            gradient,
            bits,
            scale,
            has_bias,
            shape,
        ) is None <==> packed_fits(input as int, bits as int, scale as int, None, shape) && gradient
            == shape.rows * shape.out_features,
        crate::metal::binary_linear_weight_bwd_error(input, gradient, scale, shape) is None <==> {
            &&& input == shape.rows * shape.in_features
            &&& gradient == shape.rows * shape.out_features
            &&& scale == shape.out_features
            &&& shape.out_features * shape.in_features <= usize::MAX
        },
        crate::metal::binary_linear_latent_sgd_error(
            latent,
            input,
            gradient,
            scale,
            rate,
            shape,
        ) is None <==> {
            &&& latent == shape.out_features * shape.in_features
            &&& input == shape.rows * shape.in_features
            &&& gradient == shape.rows * shape.out_features
            &&& scale == shape.out_features
        },
        crate::metal::fp16_linear_error(input, latent, shape) is None <==> input == shape.rows
            * shape.in_features && latent == shape.out_features * shape.in_features,
        crate::metal::fp16_linear_backward_error(input, gradient, latent, shape) is None <==> input
            == shape.rows * shape.in_features && gradient == shape.rows * shape.out_features
            && latent == shape.out_features * shape.in_features,
{
    law_words_hold_their_bits(bits as int, shape.in_features * shape.out_features);
}

/// Three projections in one submission are planned when each of them fits.
pub proof fn law_three_projections(
    first: PackedOperand,
    second: PackedOperand,
    third: PackedOperand,
    shape: LinearDispatchShape,
)
    ensures
        crate::metal::binary_linear_pack3_error(first, second, third, shape) is None <==> {
            &&& packed_fits(
                first.input as int,
                first.bits as int,
                first.scale as int,
                first.bias,
                shape,
            )
            &&& packed_fits(
                second.input as int,
                second.bits as int,
                second.scale as int,
                second.bias,
                shape,
            )
            &&& packed_fits(
                third.input as int,
                third.bits as int,
                third.scale as int,
                third.bias,
                shape,
            )
        },
{
    let n = shape.in_features * shape.out_features;
    law_words_hold_their_bits(first.bits as int, n);
    law_words_hold_their_bits(second.bits as int, n);
    law_words_hold_their_bits(third.bits as int, n);
}

/// The matching block takes a plane of bits for each of queries, keys and values,
/// a number for each channel, a bit for each weight of its four projections, and
/// automata that the device can count.
pub proof fn law_matching_blocks(
    lens: RosaBlockLens,
    a: usize,
    b: usize,
    c: usize,
    e: usize,
    batch: usize,
    time: usize,
    channels: usize,
)
    ensures
        crate::metal::rosa_qkv_1bit_fwd_error(a, b, c, e, batch, time, channels) is None <==> {
            let nodes = batch * channels * (2 * time + 1);
            &&& countable(batch as int, time as int, channels as int)
            &&& e == channels
            &&& hold_bits(a as int, batch * time * channels)
            &&& a == b && b == c
            &&& nodes * 4 <= usize::MAX && nodes <= 0xffff_ffff
        },
        crate::metal::rosa_qkv_1bit_bwd_e_error(a, b, batch, time, channels) is None <==> {
            &&& countable(batch as int, time as int, channels as int)
            &&& a == batch * time * channels && b == a
        },
        crate::metal::rosa_block_forward_error(lens, batch, time, channels) is None <==> {
            &&& countable(batch as int, time as int, channels as int)
            &&& lens.x == batch * time * channels
            &&& lens.mix_q == channels && lens.mix_k == channels && lens.mix_v == channels
            &&& lens.e == channels
            &&& lens.q_scale == channels && lens.k_scale == channels && lens.v_scale == channels
                && lens.o_scale == channels
            &&& lens.q_bias == channels && lens.k_bias == channels && lens.v_bias == channels
                && lens.o_bias == channels
            &&& channels * channels <= usize::MAX
            &&& hold_bits(lens.q_bits as int, channels * channels)
            &&& lens.k_bits == lens.q_bits && lens.v_bits == lens.q_bits && lens.o_bits
                == lens.q_bits
        },
        crate::metal::rosa_block_output_error(a, b, c, batch, time, channels) is None <==> {
            &&& countable(batch as int, time as int, channels as int)
            &&& channels * channels <= usize::MAX
            &&& hold_bits(a as int, channels * channels)
            &&& b == channels && c == channels
        },
{
    law_countable_shapes(batch, time, channels);
    law_words_hold_their_bits(a as int, batch * time * channels);
    law_words_hold_their_bits(a as int, channels * channels);
    law_words_hold_their_bits(lens.q_bits as int, channels * channels);
}

/// A step on the way out of a matching block takes rows of one shape, the bits,
/// scales and bias of a square projection, and latent weights with what was left
/// over of each.
pub proof fn law_steps_on_the_way_out(
    y: usize,
    out: usize,
    gy: usize,
    idx: usize,
    o_bits: usize,
    o_scale: usize,
    o_bias: usize,
    latent: usize,
    residual: usize,
    rows: usize,
    channels: usize,
    rate: u32,
    scale: u32,
)
    ensures
        crate::metal::rosa_o_stop_grad_sgd_error(
            y,
            out,
            gy,
            idx,
            o_bits,
            o_scale,
            o_bias,
            latent,
            residual,
            rows,
            channels,
            rate,
            scale,
        ) is None <==> {
            &&& projectable(rows as int, channels as int, channels as int)
            &&& y == rows * channels && out == y && gy == y && idx == y
            &&& hold_bits(o_bits as int, channels * channels)
            &&& o_scale == channels && o_bias == channels
            &&& latent == channels * channels && residual == latent && latent <= 0xffff_ffff
        },
{
    law_countable_shapes(rows, channels, channels);
    law_words_hold_their_bits(o_bits as int, channels * channels);
}

/// The mixing network takes rows of the model's width, a bit for each key weight
/// and a scale for each key; the mixing block takes a number for each channel to
/// mix by, and as many value weights as key weights.
pub proof fn law_mixing_networks(
    x: usize,
    mix: usize,
    key_bits: usize,
    key_scale: usize,
    value_weight: usize,
    batch: usize,
    time: usize,
    d_model: usize,
    dim_ffn: usize,
)
    ensures
        crate::metal::cmix_ffn_forward_error(
            x,
            key_bits,
            key_scale,
            value_weight,
            time,
            d_model,
            dim_ffn,
        ) is None <==> {
            &&& projectable(time as int, d_model as int, dim_ffn as int)
            &&& projectable(time as int, dim_ffn as int, d_model as int)
            &&& packed_fits(
                x as int,
                key_bits as int,
                key_scale as int,
                None,
                LinearDispatchShape { rows: time, in_features: d_model, out_features: dim_ffn },
            )
        },
        batch * time <= usize::MAX ==> (crate::metal::cmix_block_forward_error(
            x,
            mix,
            key_bits,
            key_scale,
            value_weight,
            batch,
            time,
            d_model,
            dim_ffn,
        ) is None <==> {
            let rows = (batch * time) as usize;
            &&& projectable(batch * time, d_model as int, dim_ffn as int)
            &&& projectable(batch * time, dim_ffn as int, d_model as int)
            &&& packed_fits(
                x as int,
                key_bits as int,
                key_scale as int,
                None,
                LinearDispatchShape { rows, in_features: d_model, out_features: dim_ffn },
            )
            &&& mix == d_model
            &&& value_weight == d_model * dim_ffn
        }),
        batch * time > usize::MAX ==> crate::metal::cmix_block_forward_error(
            x,
            mix,
            key_bits,
            key_scale,
            value_weight,
            batch,
            time,
            d_model,
            dim_ffn,
        ) is Some,
{
    law_countable_shapes(time, d_model, dim_ffn);
    law_countable_shapes(time, dim_ffn, d_model);
    law_words_hold_their_bits(key_bits as int, d_model * dim_ffn);
    if batch * time <= usize::MAX {
        let rows = (batch * time) as usize;
        law_countable_shapes(rows, d_model, dim_ffn);
        law_countable_shapes(rows, dim_ffn, d_model);
    }
}

/// Going back through the mixing network takes what the way forward left, and,
/// for a step, weights with what was left over of each.
pub proof fn law_mixing_networks_backward(
    shifted: usize,
    key: usize,
    relu2: usize,
    gy: usize,
    key_bits: usize,
    key_scale: usize,
    key_latent: usize,
    key_residual: usize,
    value_weight: usize,
    value_residual: usize,
    rows: usize,
    d_model: usize,
    dim_ffn: usize,
    rate: u32,
    scale: u32,
)
    ensures
        ({
            let shape = LinearDispatchShape { rows, in_features: d_model, out_features: dim_ffn };
            let forward = {
                &&& projectable(rows as int, d_model as int, dim_ffn as int)
                &&& projectable(rows as int, dim_ffn as int, d_model as int)
                &&& packed_fits(shifted as int, key_bits as int, key_scale as int, None, shape)
                &&& key == rows * dim_ffn && relu2 == key
                &&& gy == rows * d_model
            };
            &&& crate::metal::cmix_ffn_backward_error(
                shifted,
                key,
                relu2,
                gy,
                key_bits,
                key_scale,
                value_weight,
                rows,
                d_model,
                dim_ffn,
            ) is None <==> forward
            &&& crate::metal::cmix_block_backward_sgd_error(
                shifted,
                key,
                relu2,
                gy,
                key_bits,
                key_scale,
                key_latent,
                key_residual,
                value_weight,
                value_residual,
                rows,
                d_model,
                dim_ffn,
                rate,
                scale,
            ) is None <==> forward && key_latent == d_model * dim_ffn && key_residual == key_latent
                && value_weight == key_latent && value_residual == key_latent && key_latent
                <= 0xffff_ffff
        }),
{
    law_countable_shapes(rows, d_model, dim_ffn);
    law_countable_shapes(rows, dim_ffn, d_model);
    law_words_hold_their_bits(key_bits as int, d_model * dim_ffn);
}

/// The head takes whole sequences of rows, a target for each row, a bit for each
/// weight and a scale for each token of the vocabulary; a step takes latent
/// weights with what was left over of each.
pub proof fn law_heads(
    hidden: usize,
    bits: usize,
    scale: usize,
    latent: usize,
    residual: usize,
    tokens: usize,
    rows: usize,
    time: usize,
    channels: usize,
    vocab: usize,
    horizon: usize,
    gradient_scale: u32,
    ignore_id: u32,
    rate: u32,
    ste_scale: u32,
)
    ensures
        ({
            let shape = LinearDispatchShape { rows, in_features: channels, out_features: vocab };
            let whole = time > 0 && rows % time == 0 && tokens == rows;
            &&& crate::metal::streamed_cross_entropy_fp16_error(
                hidden,
                bits,
                scale,
                tokens,
                rows,
                time,
                channels,
                vocab,
                horizon,
            ) is None <==> {
                &&& whole && rows > 0 && hidden == rows * channels && scale == vocab
                &&& vocab * channels <= usize::MAX && hold_bits(bits as int, vocab * channels)
                &&& rows * vocab <= usize::MAX
                &&& rows <= 0xffff_ffff && time <= 0xffff_ffff && channels <= 0xffff_ffff && vocab
                    <= 0xffff_ffff && horizon <= 0xffff_ffff
            }
            &&& crate::metal::packed_head_train_error(
                hidden,
                bits,
                scale,
                tokens,
                rows,
                time,
                channels,
                vocab,
                horizon,
            ) is None <==> {
                &&& projectable(rows as int, channels as int, vocab as int)
                &&& packed_fits(hidden as int, bits as int, scale as int, None, shape)
                &&& whole && time <= 0xffff_ffff && horizon <= 0xffff_ffff
            }
            &&& crate::metal::packed_head_train_sgd_error(
                hidden,
                bits,
                scale,
                latent,
                residual,
                tokens,
                rows,
                time,
                channels,
                vocab,
                horizon,
                gradient_scale,
                ignore_id,
                rate,
                ste_scale,
            ) is None <==> {
                &&& projectable(rows as int, channels as int, vocab as int)
                &&& packed_fits(hidden as int, bits as int, scale as int, None, shape)
                &&& whole && time <= 0xffff_ffff && horizon <= 0xffff_ffff
                &&& latent == channels * vocab && residual == latent && latent <= 0xffff_ffff
            }
        }),
{
    law_countable_shapes(rows, channels, vocab);
    law_words_hold_their_bits(bits as int, channels * vocab);
    law_words_hold_their_bits(bits as int, vocab * channels);
}

/// The threads of a grid that have something to do.
pub open spec fn workers(grid: Grid) -> int {
    match grid {
        Grid::Line { threads } => threads as int,
        Grid::Tiles { width, height } => width * height,
        Grid::Groups { groups } => groups as int,
    }
}

/// A step runs a thread for each thing that it makes: for each number, each word
/// of bits, each row of a normalisation or a loss, or each channel of each
/// sequence that is matched; sums over rows have a group for each column.
pub proof fn law_a_thread_for_each_result(step: StepView)
    requires
        crate::metal::grid_fits(step.kernel, step.constants),
    ensures
        ({
            let c = step.constants;
            let n = workers(crate::metal::grid_of(step));
            match step.kernel {
                Kernel::Identity | Kernel::CmixRelu2 | Kernel::CmixRelu2Backward
                | Kernel::ResidualAdd | Kernel::RosaSamReset => n == c[0],
                Kernel::LayerNorm | Kernel::LayerNormBackward | Kernel::StreamedCrossEntropy
                | Kernel::SoftmaxCrossEntropy => n == c[0],
                Kernel::ClippedSgd | Kernel::BinaryConnectSgd => n == c[1],
                Kernel::TimeShiftDelta | Kernel::TimeShiftMix | Kernel::TimeShiftMix3 => n == c[0]
                    * c[2],
                Kernel::BinaryLinear | Kernel::Fp16Linear => n == c[2] * c[0],
                Kernel::BinaryLinearInputBwd => n == c[1] * c[0],
                Kernel::BinaryLinearWeightBwd => n == c[1] * c[2],
                Kernel::Fp16LinearBwd => n == c[1] * (if c[3] == 0 {
                    c[0]
                } else {
                    c[2]
                }),
                Kernel::SignPackBits | Kernel::PackLatentBits => hold_bits(n, c[0] as int),
                Kernel::BinaryLinearLatentSgd => hold_bits(n, c[1] * c[2]),
                Kernel::RosaQkvFwd => n == c[0] * c[2],
                Kernel::RosaQkvBwdE => n == c[2],
                Kernel::LayerNormParamBwd | Kernel::BinaryLinearScaleBwdFromOutput => n == c[1],
                Kernel::BinaryLinearScaleBwd => n == c[2],
                Kernel::Wkv7Forward | Kernel::Wkv7Backward => true,
            }
        }),
{
    let c = step.constants;
    assert(0 <= c[1] * c[2]) by (nonlinear_arith);
    law_words_hold_their_bits(crate::metal::words(c[0] as int), c[0] as int);
    law_words_hold_their_bits(crate::metal::words(c[1] * c[2]), c[1] * c[2]);
}

} // verus!
