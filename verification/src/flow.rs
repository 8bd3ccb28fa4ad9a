//! What the buffers of a plan hold, as expressions over what was put into them:
//! which input goes through which kernels into which result.
use crate::metal::{Buffer, Kernel, LinearDispatchShape, PackedOperand, Plan, StepView};
use vstd::prelude::*;

verus! {

/// What a buffer holds: what was put into it before the first step, or what a
/// kernel made, with its constants, of what other buffers held. A kernel that
/// makes several things tells them apart by their number.
pub enum Held {
    Put { buffer: int },
    Made { kernel: Kernel, part: int, constants: Seq<u32>, from: Seq<Held> },
}

/// What was put into a buffer before the first step.
pub open spec fn put(buffer: int) -> Held {
    Held::Put { buffer }
}

/// What a kernel makes.
pub open spec fn made(kernel: Kernel, part: int, constants: Seq<u32>, from: Seq<Held>) -> Held {
    Held::Made { kernel, part, constants, from }
}

/// What the buffers hold after a step. A kernel makes what it writes of all that
/// it reads; a bias is read where there is one. The mixing kernel for three
/// makes each of its results, in the same way, of the steps and of one mixing
/// vector.
#[verifier::opaque]
pub open spec fn run(step: StepView, held: Seq<Held>) -> Seq<Held> {
    let b = step.buffers;
    let c = step.constants;
    let h = |slot: int| held[b[slot] as int];
    match step.kernel {
        Kernel::Identity => held.update(b[1] as int, made(step.kernel, 0, c, seq![h(0)])),
        Kernel::LayerNorm => held.update(b[3] as int, made(step.kernel, 0, c, seq![h(0), h(1), h(2)])),
        Kernel::LayerNormBackward => {
            let from = seq![h(0), h(1), h(2)];
            held
                .update(b[3] as int, made(step.kernel, 0, c, from))
                .update(b[4] as int, made(step.kernel, 1, c, from))
                .update(b[5] as int, made(step.kernel, 2, c, from))
        },
        Kernel::LayerNormParamBwd => {
            let from = seq![h(0), h(1), h(2), h(3)];
            held
                .update(b[4] as int, made(step.kernel, 0, c, from))
                .update(b[5] as int, made(step.kernel, 1, c, from))
        },
        Kernel::TimeShiftDelta => held.update(b[1] as int, made(step.kernel, 0, c, seq![h(0)])),
        Kernel::TimeShiftMix => {
            let from = seq![h(0), h(1)];
            held
                .update(b[2] as int, made(step.kernel, 0, c, from))
                .update(b[3] as int, made(step.kernel, 1, c, from))
        },
        Kernel::TimeShiftMix3 => held
            .update(b[4] as int, made(step.kernel, 0, c, seq![h(0), h(1)]))
            .update(b[5] as int, made(step.kernel, 0, c, seq![h(0), h(2)]))
            .update(b[6] as int, made(step.kernel, 0, c, seq![h(0), h(3)])),
        Kernel::BinaryLinear => held.update(
            b[4] as int,
            if c[3] == 0 {
                made(step.kernel, 0, c, seq![h(0), h(1), h(2)])
            } else {
                made(step.kernel, 0, c, seq![h(0), h(1), h(2), h(3)])
            },
        ),
        Kernel::BinaryLinearInputBwd => held.update(b[3] as int, made(step.kernel, 0, c, seq![h(0), h(1), h(2)])),
        Kernel::BinaryLinearScaleBwd => {
            let from = seq![h(0), h(1), h(2)];
            held
                .update(b[3] as int, made(step.kernel, 0, c, from))
                .update(b[4] as int, made(step.kernel, 1, c, from))
        },
        Kernel::BinaryLinearWeightBwd => held.update(b[3] as int, made(step.kernel, 0, c, seq![h(0), h(1), h(2)])),
        Kernel::BinaryLinearScaleBwdFromOutput => {
            let from = if c[2] == 0 {
                seq![h(0), h(1), h(2)]
            } else {
                seq![h(0), h(1), h(2), h(3)]
            };
            held.update(b[4] as int, made(step.kernel, 0, c, from)).update(
                b[5] as int,
                made(step.kernel, 1, c, from),
            )
        },
        Kernel::BinaryLinearLatentSgd => {
            let from = seq![h(0), h(2), h(3), h(4)];
            held
                .update(b[0] as int, made(step.kernel, 0, c, from))
                .update(b[1] as int, made(step.kernel, 1, c, from))
                .update(b[5] as int, made(step.kernel, 2, c, from))
        },
        Kernel::Fp16Linear => held.update(b[2] as int, made(step.kernel, 0, c, seq![h(0), h(1)])),
        Kernel::Fp16LinearBwd => if c[3] == 0 {
            held.update(b[3] as int, made(step.kernel, 0, c, seq![h(0), h(1), h(2)]))
        } else {
            held.update(b[4] as int, made(step.kernel, 1, c, seq![h(0), h(1), h(2)]))
        },
        Kernel::SignPackBits => held.update(b[1] as int, made(step.kernel, 0, c, seq![h(0)])),
        Kernel::PackLatentBits => held.update(b[1] as int, made(step.kernel, 0, c, seq![h(0)])),
        Kernel::RosaSamReset => {
            let from = Seq::<Held>::empty();
            held
                .update(b[0] as int, made(step.kernel, 0, c, from))
                .update(b[1] as int, made(step.kernel, 1, c, from))
                .update(b[2] as int, made(step.kernel, 2, c, from))
                .update(b[3] as int, made(step.kernel, 3, c, from))
                .update(b[4] as int, made(step.kernel, 4, c, from))
        },
        Kernel::RosaQkvFwd => {
            let from = seq![h(0), h(1), h(2), h(3), h(4), h(5), h(6), h(7), h(8)];
            held
                .update(b[4] as int, made(step.kernel, 0, c, from))
                .update(b[5] as int, made(step.kernel, 1, c, from))
                .update(b[6] as int, made(step.kernel, 2, c, from))
                .update(b[7] as int, made(step.kernel, 3, c, from))
                .update(b[8] as int, made(step.kernel, 4, c, from))
                .update(b[9] as int, made(step.kernel, 5, c, from))
                .update(b[10] as int, made(step.kernel, 6, c, from))
        },
        Kernel::RosaQkvBwdE => held.update(b[2] as int, made(step.kernel, 0, c, seq![h(0), h(1)])),
        Kernel::CmixRelu2 => held.update(b[1] as int, made(step.kernel, 0, c, seq![h(0)])),
        Kernel::CmixRelu2Backward => held.update(b[2] as int, made(step.kernel, 0, c, seq![h(0), h(1)])),
        Kernel::ResidualAdd => held.update(b[2] as int, made(step.kernel, 0, c, seq![h(0), h(1)])),
        Kernel::StreamedCrossEntropy => {
            let from = seq![h(0), h(1), h(2), h(3), h(6)];
            held
                .update(b[4] as int, made(step.kernel, 0, c, from))
                .update(b[5] as int, made(step.kernel, 1, c, from))
                .update(b[6] as int, made(step.kernel, 2, c, from))
                .update(b[7] as int, made(step.kernel, 3, c, from))
        },
        Kernel::SoftmaxCrossEntropy => {
            let from = seq![h(0), h(1)];
            held
                .update(b[2] as int, made(step.kernel, 0, c, from))
                .update(b[3] as int, made(step.kernel, 1, c, from))
        },
        Kernel::ClippedSgd => {
            let from = seq![h(0), h(1), h(2)];
            held
                .update(b[0] as int, made(step.kernel, 0, c, from))
                .update(b[1] as int, made(step.kernel, 1, c, from))
        },
        Kernel::BinaryConnectSgd => {
            let from = seq![h(0), h(1), h(2)];
            held
                .update(b[0] as int, made(step.kernel, 0, c, from))
                .update(b[1] as int, made(step.kernel, 1, c, from))
        },
        Kernel::Wkv7Forward | Kernel::Wkv7Backward => held,
    }
}

/// What the buffers hold after the first `n` steps.
pub open spec fn ran(steps: Seq<StepView>, n: int, held: Seq<Held>) -> Seq<Held>
    decreases n,
{
    if n <= 0 {
        held
    } else {
        run(steps[n - 1], ran(steps, n - 1, held))
    }
}

/// The buffers before the first step.
pub open spec fn untouched(buffers: nat) -> Seq<Held> {
    Seq::new(buffers, |i: int| put(i))
}

/// What a plan gives back, output by output.
#[verifier::opaque]
pub open spec fn returned(plan: Plan) -> Seq<Held> {
    Seq::new(
        plan.outputs@.len(),
        |i: int|
            ran(plan.listed(), plan.listed().len() as int, untouched(plan.buffers@.len()))[
                plan.outputs@[i] as int
            ],
    )
}

/// A packed projection of rows.
pub open spec fn projected(
    rows: int,
    from_width: int,
    to_width: int,
    x: Held,
    bits: Held,
    scale: Held,
    bias: Option<Held>,
) -> Held {
    match bias {
        Some(bias) => made(
            Kernel::BinaryLinear,
            0,
            seq![rows as u32, from_width as u32, to_width as u32, 1],
            seq![x, bits, scale, bias],
        ),
        None => made(
            Kernel::BinaryLinear,
            0,
            seq![rows as u32, from_width as u32, to_width as u32, 0],
            seq![x, bits, scale],
        ),
    }
}

/// A bit plane of a matching block: the signs of a projection of the steps, each
/// mixed with the one before.
pub open spec fn plane(
    batch: int,
    time: int,
    channels: int,
    x: Held,
    mix: Held,
    bits: Held,
    scale: Held,
    bias: Held,
) -> Held {
    let mixed = made(
        Kernel::TimeShiftMix3,
        0,
        seq![(batch * time) as u32, time as u32, channels as u32],
        seq![x, mix],
    );
    made(
        Kernel::SignPackBits,
        0,
        seq![(batch * time * channels) as u32],
        seq![projected(batch * time, channels, channels, mixed, bits, scale, Some(bias))],
    )
}

/// The device gives back a copy of what it was given.
pub proof fn law_identity_flow(
    plan: Plan,
    n: usize,
)
    requires
        plan.listed() == crate::metal::identity_steps(n),
        plan.buffers@.len() == 2,
        plan.outputs@ == seq![1usize],
    ensures
        returned(plan) == seq![
            made(Kernel::Identity, 0, seq![n as u32], seq![put(0)]),
        ],
{
    reveal(run);
    reveal(returned);
    reveal_with_fuel(ran, 2);
    let steps = crate::metal::identity_steps(n);
    let h0 = untouched(2);
    let h1 = run(steps[0], h0);
    assert(ran(steps, 1, h0) == h1);
    assert(h1[1] == made(Kernel::Identity, 0, seq![n as u32], seq![put(0)]));
    assert(returned(plan) =~= seq![made(Kernel::Identity, 0, seq![n as u32], seq![put(0)])]);
}

/// The sum is made of the residual and of its update.
pub proof fn law_residual_add_flow(
    plan: Plan,
    residual: usize,
)
    requires
        plan.listed() == crate::metal::residual_add_steps(residual),
        plan.buffers@.len() == 3,
        plan.outputs@ == seq![2usize],
    ensures
        returned(plan) == seq![
            made(Kernel::ResidualAdd, 0, seq![residual as u32], seq![put(0), put(1)]),
        ],
{
    reveal(run);
    reveal(returned);
    reveal_with_fuel(ran, 2);
    let steps = crate::metal::residual_add_steps(residual);
    let h0 = untouched(3);
    let h1 = run(steps[0], h0);
    assert(ran(steps, 1, h0) == h1);
    assert(h1[2] == made(Kernel::ResidualAdd, 0, seq![residual as u32], seq![put(0), put(1)]));
    assert(returned(plan) =~= seq![made(Kernel::ResidualAdd, 0, seq![residual as u32], seq![put(0), put(1)])]);
}

/// The differences are made of the steps.
pub proof fn law_time_shift_delta_flow(
    plan: Plan,
    rows: usize,
    time: usize,
    channels: usize,
)
    requires
        plan.listed() == crate::metal::time_shift_delta_steps(rows, time, channels),
        plan.buffers@.len() == 2,
        plan.outputs@ == seq![1usize],
    ensures
        returned(plan) == seq![
            made(Kernel::TimeShiftDelta, 0, seq![rows as u32, time as u32, channels as u32], seq![put(0)]),
        ],
{
    reveal(run);
    reveal(returned);
    reveal_with_fuel(ran, 2);
    let steps = crate::metal::time_shift_delta_steps(rows, time, channels);
    let h0 = untouched(2);
    let h1 = run(steps[0], h0);
    assert(ran(steps, 1, h0) == h1);
    assert(h1[1] == made(Kernel::TimeShiftDelta, 0, seq![rows as u32, time as u32, channels as u32], seq![put(0)]));
    assert(returned(plan) =~= seq![made(Kernel::TimeShiftDelta, 0, seq![rows as u32, time as u32, channels as u32], seq![put(0)])]);
}

/// The signs are those of what was given.
pub proof fn law_sign_pack_bits_flow(
    plan: Plan,
    n: usize,
)
    requires
        plan.listed() == crate::metal::sign_pack_bits_steps(n),
        plan.buffers@.len() == 2,
        plan.outputs@ == seq![1usize],
    ensures
        returned(plan) == seq![
            made(Kernel::SignPackBits, 0, seq![n as u32], seq![put(0)]),
        ],
{
    reveal(run);
    reveal(returned);
    reveal_with_fuel(ran, 2);
    let steps = crate::metal::sign_pack_bits_steps(n);
    let h0 = untouched(2);
    let h1 = run(steps[0], h0);
    assert(ran(steps, 1, h0) == h1);
    assert(h1[1] == made(Kernel::SignPackBits, 0, seq![n as u32], seq![put(0)]));
    assert(returned(plan) =~= seq![made(Kernel::SignPackBits, 0, seq![n as u32], seq![put(0)])]);
}

/// The activation is that of what was given.
pub proof fn law_cmix_relu2_flow(
    plan: Plan,
    n: usize,
)
    requires
        plan.listed() == crate::metal::cmix_relu2_steps(n),
        plan.buffers@.len() == 2,
        plan.outputs@ == seq![1usize],
    ensures
        returned(plan) == seq![
            made(Kernel::CmixRelu2, 0, seq![n as u32], seq![put(0)]),
        ],
{
    reveal(run);
    reveal(returned);
    reveal_with_fuel(ran, 2);
    let steps = crate::metal::cmix_relu2_steps(n);
    let h0 = untouched(2);
    let h1 = run(steps[0], h0);
    assert(ran(steps, 1, h0) == h1);
    assert(h1[1] == made(Kernel::CmixRelu2, 0, seq![n as u32], seq![put(0)]));
    assert(returned(plan) =~= seq![made(Kernel::CmixRelu2, 0, seq![n as u32], seq![put(0)])]);
}

/// The gradient of an activation is made of its input and of the gradient behind it.
pub proof fn law_cmix_relu2_backward_flow(
    plan: Plan,
    input: usize,
)
    requires
        plan.listed() == crate::metal::cmix_relu2_backward_steps(input),
        plan.buffers@.len() == 3,
        plan.outputs@ == seq![2usize],
    ensures
        returned(plan) == seq![
            made(Kernel::CmixRelu2Backward, 0, seq![input as u32], seq![put(0), put(1)]),
        ],
{
    reveal(run);
    reveal(returned);
    reveal_with_fuel(ran, 2);
    let steps = crate::metal::cmix_relu2_backward_steps(input);
    let h0 = untouched(3);
    let h1 = run(steps[0], h0);
    assert(ran(steps, 1, h0) == h1);
    assert(h1[2] == made(Kernel::CmixRelu2Backward, 0, seq![input as u32], seq![put(0), put(1)]));
    assert(returned(plan) =~= seq![made(Kernel::CmixRelu2Backward, 0, seq![input as u32], seq![put(0), put(1)])]);
}

/// A normalisation is made of the rows, the scale and the offset.
pub proof fn law_layer_norm_flow(
    plan: Plan,
    rows: usize,
    channels: usize,
)
    requires
        plan.listed() == crate::metal::layer_norm_steps(rows, channels),
        plan.buffers@.len() == 4,
        plan.outputs@ == seq![3usize],
    ensures
        returned(plan) == seq![
            made(Kernel::LayerNorm, 0, seq![rows as u32, channels as u32], seq![put(0), put(1), put(2)]),
        ],
{
    reveal(run);
    reveal(returned);
    reveal_with_fuel(ran, 2);
    let steps = crate::metal::layer_norm_steps(rows, channels);
    let h0 = untouched(4);
    let h1 = run(steps[0], h0);
    assert(ran(steps, 1, h0) == h1);
    assert(h1[3] == made(Kernel::LayerNorm, 0, seq![rows as u32, channels as u32], seq![put(0), put(1), put(2)]));
    assert(returned(plan) =~= seq![made(Kernel::LayerNorm, 0, seq![rows as u32, channels as u32], seq![put(0), put(1), put(2)])]);
}

/// The gradients of a normalisation: that of the rows comes first, and the
/// moments that it finds on its way go into those of the parameters.
pub proof fn law_layer_norm_backward_flow(
    plan: Plan,
    rows: usize,
    channels: usize,
)
    requires
        plan.listed() == crate::metal::layer_norm_backward_steps(rows, channels),
        plan.buffers@.len() == 8,
        plan.outputs@ == seq![3usize, 6usize, 7usize],
    ensures
        ({
            let c = seq![rows as u32, channels as u32];
            let of_rows = seq![put(0), put(1), put(2)];
            let mean = made(Kernel::LayerNormBackward, 1, c, of_rows);
            let inverse = made(Kernel::LayerNormBackward, 2, c, of_rows);
            let of_moments = seq![put(0), put(1), mean, inverse];
            returned(plan) == seq![
                made(Kernel::LayerNormBackward, 0, c, of_rows),
                made(Kernel::LayerNormParamBwd, 0, c, of_moments),
                made(Kernel::LayerNormParamBwd, 1, c, of_moments),
            ]
        }),
{
    reveal(run);
    reveal(returned);
    reveal_with_fuel(ran, 3);
    let steps = crate::metal::layer_norm_backward_steps(rows, channels);
    let h0 = untouched(8);
    let h1 = run(steps[0], h0);
    assert(ran(steps, 1, h0) == h1);
    let h2 = run(steps[1], h1);
    assert(ran(steps, 2, h0) == h2);
    let c = seq![rows as u32, channels as u32];
    let of_rows = seq![put(0), put(1), put(2)];
    let mean = made(Kernel::LayerNormBackward, 1, c, of_rows);
    let inverse = made(Kernel::LayerNormBackward, 2, c, of_rows);
    let of_moments = seq![put(0), put(1), mean, inverse];
    assert(h2[3] == made(Kernel::LayerNormBackward, 0, c, of_rows));
    assert(h2[6] == made(Kernel::LayerNormParamBwd, 0, c, of_moments));
    assert(h2[7] == made(Kernel::LayerNormParamBwd, 1, c, of_moments));
    assert(returned(plan) =~= seq![made(Kernel::LayerNormBackward, 0, c, of_rows), made(Kernel::LayerNormParamBwd, 0, c, of_moments), made(Kernel::LayerNormParamBwd, 1, c, of_moments)]);
}

/// A packed projection is made of its input, its bits, its scales and, where it
/// has one, its bias.
pub proof fn law_binary_linear_flow(
    plan: Plan,
    bias: Option<usize>,
    shape: LinearDispatchShape,
)
    requires
        plan.listed() == crate::metal::binary_linear_steps(bias, shape),
        plan.buffers@.len() == 5,
        plan.outputs@ == seq![4usize],
    ensures
        ({
            let offset = if bias is Some {
                Some(put(3))
            } else {
                None
            };
            returned(plan) == seq![
                projected(shape.rows as int, shape.in_features as int, shape.out_features as int, put(0), put(1), put(2), offset),
            ]
        }),
{
    reveal(run);
    reveal(returned);
    reveal_with_fuel(ran, 2);
    let steps = crate::metal::binary_linear_steps(bias, shape);
    let h0 = untouched(5);
    let h1 = run(steps[0], h0);
    assert(ran(steps, 1, h0) == h1);
    let offset = if bias is Some {
        Some(put(3))
    } else {
        None
    };
    assert(h1[4] == projected(shape.rows as int, shape.in_features as int, shape.out_features as int, put(0), put(1), put(2), offset));
    assert(returned(plan) =~= seq![projected(shape.rows as int, shape.in_features as int, shape.out_features as int, put(0), put(1), put(2), offset)]);
}

/// Three projections in one submission do not meet: each is made of its own
/// operands.
pub proof fn law_binary_linear_pack3_flow(
    plan: Plan,
    first: PackedOperand,
    second: PackedOperand,
    third: PackedOperand,
    shape: LinearDispatchShape,
)
    requires
        plan.listed() == crate::metal::binary_linear_pack3_steps(first, second, third, shape),
        plan.buffers@.len() == 15,
        plan.outputs@ == seq![4usize, 9usize, 14usize],
    ensures
        ({
            let of = |at: int, bias: Option<usize>| projected(shape.rows as int, shape.in_features as int, shape.out_features as int, put(at), put(at + 1), put(at + 2), if bias is Some {
                    Some(put(at + 3))
                } else {
                    None
                });
            returned(plan) == seq![
                of(0, first.bias),
                of(5, second.bias),
                of(10, third.bias),
            ]
        }),
{
    reveal(run);
    reveal(returned);
    reveal_with_fuel(ran, 4);
    let steps = crate::metal::binary_linear_pack3_steps(first, second, third, shape);
    let h0 = untouched(15);
    let h1 = run(steps[0], h0);
    assert(ran(steps, 1, h0) == h1);
    let h2 = run(steps[1], h1);
    assert(ran(steps, 2, h0) == h2);
    let h3 = run(steps[2], h2);
    assert(ran(steps, 3, h0) == h3);
    let of = |at: int, bias: Option<usize>| projected(shape.rows as int, shape.in_features as int, shape.out_features as int, put(at), put(at + 1), put(at + 2), if bias is Some {
            Some(put(at + 3))
        } else {
            None
        });
    assert(h3[4] == of(0, first.bias));
    assert(h3[9] == of(5, second.bias));
    assert(h3[14] == of(10, third.bias));
    assert(returned(plan) =~= seq![of(0, first.bias), of(5, second.bias), of(10, third.bias)]);
}

/// The gradients of a packed projection: the input's is made of the gradient and
/// the weights, the weights' of the input, the gradient and the scales, those of
/// the scales and the bias of the input, the gradient and the bits.
pub proof fn law_binary_linear_backward_flow(
    plan: Plan,
    has_bias: bool,
    shape: LinearDispatchShape,
)
    requires
        plan.listed() == crate::metal::binary_linear_backward_steps(has_bias, shape),
        plan.buffers@.len() == 8,
        plan.outputs@ == seq![4usize, 5usize, 7usize, 6usize],
    ensures
        ({
            let c = seq![shape.rows as u32, shape.in_features as u32, shape.out_features as u32];
            let with_flag = seq![shape.rows as u32, shape.in_features as u32, shape.out_features as u32, if has_bias {
                1
            } else {
                0
            }];
            let of_scale = seq![put(0), put(1), put(2)];
            returned(plan) == seq![
                made(Kernel::BinaryLinearInputBwd, 0, c, seq![put(1), put(2), put(3)]),
                made(Kernel::BinaryLinearScaleBwd, 0, with_flag, of_scale),
                made(Kernel::BinaryLinearWeightBwd, 0, c, seq![put(0), put(1), put(3)]),
                made(Kernel::BinaryLinearScaleBwd, 1, with_flag, of_scale),
            ]
        }),
{
    reveal(run);
    reveal(returned);
    reveal_with_fuel(ran, 4);
    let steps = crate::metal::binary_linear_backward_steps(has_bias, shape);
    let h0 = untouched(8);
    let h1 = run(steps[0], h0);
    assert(ran(steps, 1, h0) == h1);
    let h2 = run(steps[1], h1);
    assert(ran(steps, 2, h0) == h2);
    let h3 = run(steps[2], h2);
    assert(ran(steps, 3, h0) == h3);
    let c = seq![shape.rows as u32, shape.in_features as u32, shape.out_features as u32];
    let with_flag = seq![shape.rows as u32, shape.in_features as u32, shape.out_features as u32, if has_bias {
        1
    } else {
        0
    }];
    let of_scale = seq![put(0), put(1), put(2)];
    assert(h3[4] == made(Kernel::BinaryLinearInputBwd, 0, c, seq![put(1), put(2), put(3)]));
    assert(h3[5] == made(Kernel::BinaryLinearScaleBwd, 0, with_flag, of_scale));
    assert(h3[7] == made(Kernel::BinaryLinearWeightBwd, 0, c, seq![put(0), put(1), put(3)]));
    assert(h3[6] == made(Kernel::BinaryLinearScaleBwd, 1, with_flag, of_scale));
    assert(returned(plan) =~= seq![made(Kernel::BinaryLinearInputBwd, 0, c, seq![put(1), put(2), put(3)]), made(Kernel::BinaryLinearScaleBwd, 0, with_flag, of_scale), made(Kernel::BinaryLinearWeightBwd, 0, c, seq![put(0), put(1), put(3)]), made(Kernel::BinaryLinearScaleBwd, 1, with_flag, of_scale)]);
}

/// The gradient of packed weights is made of the input, the gradient and the
/// scales.
pub proof fn law_binary_linear_weight_bwd_flow(
    plan: Plan,
    shape: LinearDispatchShape,
)
    requires
        plan.listed() == crate::metal::binary_linear_weight_bwd_steps(shape),
        plan.buffers@.len() == 4,
        plan.outputs@ == seq![3usize],
    ensures
        returned(plan) == seq![
            made(Kernel::BinaryLinearWeightBwd, 0, seq![shape.rows as u32, shape.in_features as u32, shape.out_features as u32], seq![put(0), put(1), put(2)]),
        ],
{
    reveal(run);
    reveal(returned);
    reveal_with_fuel(ran, 2);
    let steps = crate::metal::binary_linear_weight_bwd_steps(shape);
    let h0 = untouched(4);
    let h1 = run(steps[0], h0);
    assert(ran(steps, 1, h0) == h1);
    assert(h1[3] == made(Kernel::BinaryLinearWeightBwd, 0, seq![shape.rows as u32, shape.in_features as u32, shape.out_features as u32], seq![put(0), put(1), put(2)]));
    assert(returned(plan) =~= seq![made(Kernel::BinaryLinearWeightBwd, 0, seq![shape.rows as u32, shape.in_features as u32, shape.out_features as u32], seq![put(0), put(1), put(2)])]);
}

/// A step on latent weights is made of the weights, the input, the gradient and
/// the scales; it gives the weights, their bits and their gradient.
pub proof fn law_binary_linear_latent_sgd_flow(
    plan: Plan,
    learning_rate: u32,
    shape: LinearDispatchShape,
)
    requires
        plan.listed() == crate::metal::binary_linear_latent_sgd_steps(learning_rate, shape),
        plan.buffers@.len() == 6,
        plan.outputs@ == seq![0usize, 1usize, 5usize],
    ensures
        ({
            let c = seq![shape.rows as u32, shape.in_features as u32, shape.out_features as u32, learning_rate];
            let from = seq![put(0), put(2), put(3), put(4)];
            returned(plan) == seq![
                made(Kernel::BinaryLinearLatentSgd, 0, c, from),
                made(Kernel::BinaryLinearLatentSgd, 1, c, from),
                made(Kernel::BinaryLinearLatentSgd, 2, c, from),
            ]
        }),
{
    reveal(run);
    reveal(returned);
    reveal_with_fuel(ran, 2);
    let steps = crate::metal::binary_linear_latent_sgd_steps(learning_rate, shape);
    let h0 = untouched(6);
    let h1 = run(steps[0], h0);
    assert(ran(steps, 1, h0) == h1);
    let c = seq![shape.rows as u32, shape.in_features as u32, shape.out_features as u32, learning_rate];
    let from = seq![put(0), put(2), put(3), put(4)];
    assert(h1[0] == made(Kernel::BinaryLinearLatentSgd, 0, c, from));
    assert(h1[1] == made(Kernel::BinaryLinearLatentSgd, 1, c, from));
    assert(h1[5] == made(Kernel::BinaryLinearLatentSgd, 2, c, from));
    assert(returned(plan) =~= seq![made(Kernel::BinaryLinearLatentSgd, 0, c, from), made(Kernel::BinaryLinearLatentSgd, 1, c, from), made(Kernel::BinaryLinearLatentSgd, 2, c, from)]);
}

/// A projection is made of its input and its weights.
pub proof fn law_fp16_linear_flow(
    plan: Plan,
    shape: LinearDispatchShape,
)
    requires
        plan.listed() == crate::metal::fp16_linear_steps(shape),
        plan.buffers@.len() == 3,
        plan.outputs@ == seq![2usize],
    ensures
        returned(plan) == seq![
            made(Kernel::Fp16Linear, 0, seq![shape.rows as u32, shape.in_features as u32, shape.out_features as u32], seq![put(0), put(1)]),
        ],
{
    reveal(run);
    reveal(returned);
    reveal_with_fuel(ran, 2);
    let steps = crate::metal::fp16_linear_steps(shape);
    let h0 = untouched(3);
    let h1 = run(steps[0], h0);
    assert(ran(steps, 1, h0) == h1);
    assert(h1[2] == made(Kernel::Fp16Linear, 0, seq![shape.rows as u32, shape.in_features as u32, shape.out_features as u32], seq![put(0), put(1)]));
    assert(returned(plan) =~= seq![made(Kernel::Fp16Linear, 0, seq![shape.rows as u32, shape.in_features as u32, shape.out_features as u32], seq![put(0), put(1)])]);
}

/// Both gradients of a projection are made of the input, the gradient and the
/// weights: first the one of the input, then the one of the weights.
pub proof fn law_fp16_linear_backward_flow(
    plan: Plan,
    shape: LinearDispatchShape,
)
    requires
        plan.listed() == crate::metal::fp16_linear_backward_steps(shape),
        plan.buffers@.len() == 5,
        plan.outputs@ == seq![3usize, 4usize],
    ensures
        ({
            let from = seq![put(0), put(1), put(2)];
            returned(plan) == seq![
                made(Kernel::Fp16LinearBwd, 0, seq![shape.rows as u32, shape.in_features as u32, shape.out_features as u32, 0], from),
                made(Kernel::Fp16LinearBwd, 1, seq![shape.rows as u32, shape.in_features as u32, shape.out_features as u32, 1], from),
            ]
        }),
{
    reveal(run);
    reveal(returned);
    reveal_with_fuel(ran, 3);
    let steps = crate::metal::fp16_linear_backward_steps(shape);
    let h0 = untouched(5);
    let h1 = run(steps[0], h0);
    assert(ran(steps, 1, h0) == h1);
    let h2 = run(steps[1], h1);
    assert(ran(steps, 2, h0) == h2);
    let from = seq![put(0), put(1), put(2)];
    assert(h2[3] == made(Kernel::Fp16LinearBwd, 0, seq![shape.rows as u32, shape.in_features as u32, shape.out_features as u32, 0], from));
    assert(h2[4] == made(Kernel::Fp16LinearBwd, 1, seq![shape.rows as u32, shape.in_features as u32, shape.out_features as u32, 1], from));
    assert(returned(plan) =~= seq![made(Kernel::Fp16LinearBwd, 0, seq![shape.rows as u32, shape.in_features as u32, shape.out_features as u32, 0], from), made(Kernel::Fp16LinearBwd, 1, seq![shape.rows as u32, shape.in_features as u32, shape.out_features as u32, 1], from)]);
}

/// The matches and what is read at them are made of queries, keys, values and
/// scales, over automata that were cleared before.
pub proof fn law_rosa_qkv_1bit_fwd_flow(
    plan: Plan,
    batch: usize,
    time: usize,
    channels: usize,
)
    requires
        plan.listed() == crate::metal::rosa_qkv_1bit_fwd_steps(batch, time, channels),
        plan.buffers@.len() == 11,
        plan.outputs@ == seq![9usize, 10usize],
    ensures
        ({
            let nodes = seq![(batch * channels * (2 * time + 1)) as u32];
            let cleared = |part: int| made(Kernel::RosaSamReset, part, nodes, Seq::<Held>::empty());
            let c = seq![batch as u32, time as u32, channels as u32];
            let from = seq![put(0), put(1), put(2), put(3), cleared(0), cleared(1), cleared(2), cleared(3), cleared(4)];
            returned(plan) == seq![
                made(Kernel::RosaQkvFwd, 5, c, from),
                made(Kernel::RosaQkvFwd, 6, c, from),
            ]
        }),
{
    reveal(run);
    reveal(returned);
    reveal_with_fuel(ran, 3);
    let steps = crate::metal::rosa_qkv_1bit_fwd_steps(batch, time, channels);
    let h0 = untouched(11);
    let h1 = run(steps[0], h0);
    assert(ran(steps, 1, h0) == h1);
    let h2 = run(steps[1], h1);
    assert(ran(steps, 2, h0) == h2);
    let nodes = seq![(batch * channels * (2 * time + 1)) as u32];
    let cleared = |part: int| made(Kernel::RosaSamReset, part, nodes, Seq::<Held>::empty());
    let c = seq![batch as u32, time as u32, channels as u32];
    let from = seq![put(0), put(1), put(2), put(3), cleared(0), cleared(1), cleared(2), cleared(3), cleared(4)];
    assert(h2[9] == made(Kernel::RosaQkvFwd, 5, c, from));
    assert(h2[10] == made(Kernel::RosaQkvFwd, 6, c, from));
    assert(returned(plan) =~= seq![made(Kernel::RosaQkvFwd, 5, c, from), made(Kernel::RosaQkvFwd, 6, c, from)]);
}

/// The gradient of the scales is made of the gradient and of the matches.
pub proof fn law_rosa_qkv_1bit_bwd_e_flow(
    plan: Plan,
    batch: usize,
    time: usize,
    channels: usize,
)
    requires
        plan.listed() == crate::metal::rosa_qkv_1bit_bwd_e_steps(batch, time, channels),
        plan.buffers@.len() == 3,
        plan.outputs@ == seq![2usize],
    ensures
        returned(plan) == seq![
            made(Kernel::RosaQkvBwdE, 0, seq![batch as u32, time as u32, channels as u32], seq![put(0), put(1)]),
        ],
{
    reveal(run);
    reveal(returned);
    reveal_with_fuel(ran, 2);
    let steps = crate::metal::rosa_qkv_1bit_bwd_e_steps(batch, time, channels);
    let h0 = untouched(3);
    let h1 = run(steps[0], h0);
    assert(ran(steps, 1, h0) == h1);
    assert(h1[2] == made(Kernel::RosaQkvBwdE, 0, seq![batch as u32, time as u32, channels as u32], seq![put(0), put(1)]));
    assert(returned(plan) =~= seq![made(Kernel::RosaQkvBwdE, 0, seq![batch as u32, time as u32, channels as u32], seq![put(0), put(1)])]);
}

/// Each plane is made of the steps and of its own mixing vector, bits, scales
/// and bias.
pub proof fn law_rosa_block_forward_flow(
    plan: Plan,
    batch: usize,
    time: usize,
    channels: usize,
)
    requires
        plan.listed() == crate::metal::rosa_block_forward_steps(batch, time, channels),
        plan.buffers@.len() == 22,
        plan.outputs@ == seq![19usize, 20usize, 21usize],
    ensures
        ({
            let of = |lane: int| plane(batch as int, time as int, channels as int, put(0), put(1 + lane), put(7 + lane), put(10 + lane), put(13 + lane));
            returned(plan) == seq![
                of(0),
                of(1),
                of(2),
            ]
        }),
{
    reveal(run);
    reveal(returned);
    reveal_with_fuel(ran, 8);
    let steps = crate::metal::rosa_block_forward_steps(batch, time, channels);
    let h0 = untouched(22);
    let h1 = run(steps[0], h0);
    assert(ran(steps, 1, h0) == h1);
    let h2 = run(steps[1], h1);
    assert(ran(steps, 2, h0) == h2);
    let h3 = run(steps[2], h2);
    assert(ran(steps, 3, h0) == h3);
    let h4 = run(steps[3], h3);
    assert(ran(steps, 4, h0) == h4);
    let h5 = run(steps[4], h4);
    assert(ran(steps, 5, h0) == h5);
    let h6 = run(steps[5], h5);
    assert(ran(steps, 6, h0) == h6);
    let h7 = run(steps[6], h6);
    assert(ran(steps, 7, h0) == h7);
    let of = |lane: int| plane(batch as int, time as int, channels as int, put(0), put(1 + lane), put(7 + lane), put(10 + lane), put(13 + lane));
    assert(h7[19] == of(0));
    assert(h7[20] == of(1));
    assert(h7[21] == of(2));
    assert(returned(plan) =~= seq![of(0), of(1), of(2)]);
}

/// The three planes of a matching block do not meet: whatever is put into the
/// buffers, the plane of a lane is made of the steps and of that lane's mixing
/// vector, bits, scales and bias, and nothing that was put in is overwritten.
pub proof fn law_lanes_do_not_meet(
    batch: usize,
    time: usize,
    channels: usize,
    held: Seq<Held>,
    lane: int,
)
    requires
        held.len() == 22,
        0 <= lane < 3,
    ensures
        ({
            let end = ran(
                crate::metal::rosa_block_forward_steps(batch, time, channels),
                7,
                held,
            );
            &&& end[19 + lane] == plane(
                batch as int,
                time as int,
                channels as int,
                held[0],
                held[1 + lane],
                held[7 + lane],
                held[10 + lane],
                held[13 + lane],
            )
            &&& end[0] == held[0]
            &&& end[1 + lane] == held[1 + lane]
            &&& end[7 + lane] == held[7 + lane]
            &&& end[10 + lane] == held[10 + lane]
            &&& end[13 + lane] == held[13 + lane]
        }),
{
    reveal(run);
    reveal_with_fuel(ran, 8);
    let steps = crate::metal::rosa_block_forward_steps(batch, time, channels);
    let h1 = run(steps[0], held);
    let h2 = run(steps[1], h1);
    let h3 = run(steps[2], h2);
    let h4 = run(steps[3], h3);
    let h5 = run(steps[4], h4);
    let h6 = run(steps[5], h5);
    assert(ran(steps, 7, held) == run(steps[6], h6));
    if lane == 0 {
    } else if lane == 1 {
    } else {
        assert(lane == 2);
    }
}

/// A mixing vector moves its own plane and no other: with another vector in a
/// lane the plane of that lane is another, and those of the other lanes are the
/// same. The same holds of the lane's bits, scales and bias.
pub proof fn law_a_lane_moves_its_own_plane(
    batch: usize,
    time: usize,
    channels: usize,
    held: Seq<Held>,
    moved: int,
    other: Held,
    lane: int,
)
    requires
        held.len() == 22,
        0 <= lane < 3,
        1 <= moved < 4 || 7 <= moved < 16,
        other != held[moved],
    ensures
        ({
            let steps = crate::metal::rosa_block_forward_steps(batch, time, channels);
            let before = ran(steps, 7, held)[19 + lane];
            let after = ran(steps, 7, held.update(moved, other))[19 + lane];
            before != after <==> (moved == 1 + lane || moved == 7 + lane || moved == 10 + lane
                || moved == 13 + lane)
        }),
{
    let changed = held.update(moved, other);
    law_lanes_do_not_meet(batch, time, channels, held, lane);
    law_lanes_do_not_meet(batch, time, channels, changed, lane);
    let steps = crate::metal::rosa_block_forward_steps(batch, time, channels);
    let before = ran(steps, 7, held)[19 + lane];
    let after = ran(steps, 7, changed)[19 + lane];
    let p = before->from[0];
    let q = after->from[0];
    assert(p->from.len() == 4 && q->from.len() == 4);
    assert(p->from[0]->from[1] == held[1 + lane]);
    assert(q->from[0]->from[1] == changed[1 + lane]);
    assert(p->from[1] == held[7 + lane] && q->from[1] == changed[7 + lane]);
    assert(p->from[2] == held[10 + lane] && q->from[2] == changed[10 + lane]);
    assert(p->from[3] == held[13 + lane] && q->from[3] == changed[13 + lane]);
}

/// What leaves a matching block is the projection of what its matches read.
pub proof fn law_rosa_block_output_flow(
    plan: Plan,
    batch: usize,
    time: usize,
    channels: usize,
)
    requires
        plan.listed() == crate::metal::rosa_block_output_steps(batch, time, channels),
        plan.buffers@.len() == 5,
        plan.outputs@ == seq![4usize],
    ensures
        returned(plan) == seq![
            projected(batch * time, channels as int, channels as int, put(0), put(1), put(2), Some(put(3))),
        ],
{
    reveal(run);
    reveal(returned);
    reveal_with_fuel(ran, 2);
    let steps = crate::metal::rosa_block_output_steps(batch, time, channels);
    let h0 = untouched(5);
    let h1 = run(steps[0], h0);
    assert(ran(steps, 1, h0) == h1);
    assert(h1[4] == projected(batch * time, channels as int, channels as int, put(0), put(1), put(2), Some(put(3))));
    assert(returned(plan) =~= seq![projected(batch * time, channels as int, channels as int, put(0), put(1), put(2), Some(put(3)))]);
}

/// A step on the way out of a matching block: the gradient behind it goes through
/// the weights to the scales of the matches, with the block's output to the scales
/// and the bias of the projection, and with the block's input to the latent
/// weights, whose bits are packed after the step.
pub proof fn law_rosa_o_stop_grad_sgd_flow(
    plan: Plan,
    rows: usize,
    channels: usize,
    learning_rate: u32,
    ste_scale: u32,
)
    requires
        plan.listed() == crate::metal::rosa_o_stop_grad_sgd_steps(rows, channels, learning_rate, ste_scale),
        plan.buffers@.len() == 15,
        plan.outputs@ == seq![13usize, 10usize, 11usize, 7usize, 8usize, 14usize],
    ensures
        ({
            let square = seq![rows as u32, channels as u32, channels as u32];
            let g_y = made(Kernel::BinaryLinearInputBwd, 0, square, seq![put(2), put(4), put(5)]);
            let with_bias = seq![rows as u32, channels as u32, 1];
            let of_scale = seq![put(1), put(2), put(5), put(6)];
            let g_w = made(Kernel::BinaryLinearWeightBwd, 0, square, seq![put(0), put(2), put(5)]);
            let sgd = seq![learning_rate, (channels * channels) as u32, ste_scale];
            let of_sgd = seq![put(7), put(8), g_w];
            let latent = made(Kernel::BinaryConnectSgd, 0, sgd, of_sgd);
            returned(plan) == seq![
                made(Kernel::RosaQkvBwdE, 0, seq![1, rows as u32, channels as u32], seq![g_y, put(3)]),
                made(Kernel::BinaryLinearScaleBwdFromOutput, 0, with_bias, of_scale),
                made(Kernel::BinaryLinearScaleBwdFromOutput, 1, with_bias, of_scale),
                latent,
                made(Kernel::BinaryConnectSgd, 1, sgd, of_sgd),
                made(Kernel::PackLatentBits, 0, seq![(channels * channels) as u32], seq![latent]),
            ]
        }),
{
    reveal(run);
    reveal(returned);
    reveal_with_fuel(ran, 7);
    let steps = crate::metal::rosa_o_stop_grad_sgd_steps(rows, channels, learning_rate, ste_scale);
    let h0 = untouched(15);
    let h1 = run(steps[0], h0);
    assert(ran(steps, 1, h0) == h1);
    let h2 = run(steps[1], h1);
    assert(ran(steps, 2, h0) == h2);
    let h3 = run(steps[2], h2);
    assert(ran(steps, 3, h0) == h3);
    let h4 = run(steps[3], h3);
    assert(ran(steps, 4, h0) == h4);
    let h5 = run(steps[4], h4);
    assert(ran(steps, 5, h0) == h5);
    let h6 = run(steps[5], h5);
    assert(ran(steps, 6, h0) == h6);
    let square = seq![rows as u32, channels as u32, channels as u32];
    let g_y = made(Kernel::BinaryLinearInputBwd, 0, square, seq![put(2), put(4), put(5)]);
    let with_bias = seq![rows as u32, channels as u32, 1];
    let of_scale = seq![put(1), put(2), put(5), put(6)];
    let g_w = made(Kernel::BinaryLinearWeightBwd, 0, square, seq![put(0), put(2), put(5)]);
    let sgd = seq![learning_rate, (channels * channels) as u32, ste_scale];
    let of_sgd = seq![put(7), put(8), g_w];
    let latent = made(Kernel::BinaryConnectSgd, 0, sgd, of_sgd);
    assert(h6[13] == made(Kernel::RosaQkvBwdE, 0, seq![1, rows as u32, channels as u32], seq![g_y, put(3)]));
    assert(h6[10] == made(Kernel::BinaryLinearScaleBwdFromOutput, 0, with_bias, of_scale));
    assert(h6[11] == made(Kernel::BinaryLinearScaleBwdFromOutput, 1, with_bias, of_scale));
    assert(h6[7] == latent);
    assert(h6[8] == made(Kernel::BinaryConnectSgd, 1, sgd, of_sgd));
    assert(h6[14] == made(Kernel::PackLatentBits, 0, seq![(channels * channels) as u32], seq![latent]));
    assert(returned(plan) =~= seq![made(Kernel::RosaQkvBwdE, 0, seq![1, rows as u32, channels as u32], seq![g_y, put(3)]), made(Kernel::BinaryLinearScaleBwdFromOutput, 0, with_bias, of_scale), made(Kernel::BinaryLinearScaleBwdFromOutput, 1, with_bias, of_scale), latent, made(Kernel::BinaryConnectSgd, 1, sgd, of_sgd), made(Kernel::PackLatentBits, 0, seq![(channels * channels) as u32], seq![latent])]);
}

/// The mixing network: the packed projection of its input, the activation of
/// that, and the projection of the activation.
pub proof fn law_cmix_ffn_forward_flow(
    plan: Plan,
    rows: usize,
    d_model: usize,
    dim_ffn: usize,
)
    requires
        plan.listed() == crate::metal::cmix_ffn_forward_steps(rows, d_model, dim_ffn),
        plan.buffers@.len() == 8,
        plan.outputs@ == seq![5usize, 6usize, 7usize],
    ensures
        ({
            let key = projected(rows as int, d_model as int, dim_ffn as int, put(0), put(1), put(2), None);
            let active = made(Kernel::CmixRelu2, 0, seq![(rows * dim_ffn) as u32], seq![key]);
            returned(plan) == seq![
                key,
                active,
                made(Kernel::Fp16Linear, 0, seq![rows as u32, dim_ffn as u32, d_model as u32], seq![active, put(4)]),
            ]
        }),
{
    reveal(run);
    reveal(returned);
    reveal_with_fuel(ran, 4);
    let steps = crate::metal::cmix_ffn_forward_steps(rows, d_model, dim_ffn);
    let h0 = untouched(8);
    let h1 = run(steps[0], h0);
    assert(ran(steps, 1, h0) == h1);
    let h2 = run(steps[1], h1);
    assert(ran(steps, 2, h0) == h2);
    let h3 = run(steps[2], h2);
    assert(ran(steps, 3, h0) == h3);
    let key = projected(rows as int, d_model as int, dim_ffn as int, put(0), put(1), put(2), None);
    let active = made(Kernel::CmixRelu2, 0, seq![(rows * dim_ffn) as u32], seq![key]);
    assert(h3[5] == key);
    assert(h3[6] == active);
    assert(h3[7] == made(Kernel::Fp16Linear, 0, seq![rows as u32, dim_ffn as u32, d_model as u32], seq![active, put(4)]));
    assert(returned(plan) =~= seq![key, active, made(Kernel::Fp16Linear, 0, seq![rows as u32, dim_ffn as u32, d_model as u32], seq![active, put(4)])]);
}

/// The mixing block: the steps are mixed with those before, and the mixed ones go
/// through the mixing network.
pub proof fn law_cmix_block_forward_flow(
    plan: Plan,
    batch: usize,
    time: usize,
    d_model: usize,
    dim_ffn: usize,
)
    requires
        plan.listed() == crate::metal::cmix_block_forward_steps(batch, time, d_model, dim_ffn),
        plan.buffers@.len() == 11,
        plan.outputs@ == seq![2usize, 3usize, 8usize, 9usize, 10usize],
    ensures
        ({
            let mixing = seq![(batch * time) as u32, time as u32, d_model as u32];
            let mixed = made(Kernel::TimeShiftMix, 1, mixing, seq![put(0), put(1)]);
            let key = projected(batch * time, d_model as int, dim_ffn as int, mixed, put(4), put(5), None);
            let active = made(Kernel::CmixRelu2, 0, seq![(batch * time * dim_ffn) as u32], seq![key]);
            returned(plan) == seq![
                made(Kernel::TimeShiftMix, 0, mixing, seq![put(0), put(1)]),
                mixed,
                key,
                active,
                made(Kernel::Fp16Linear, 0, seq![(batch * time) as u32, dim_ffn as u32, d_model as u32], seq![active, put(7)]),
            ]
        }),
{
    reveal(run);
    reveal(returned);
    reveal_with_fuel(ran, 5);
    let steps = crate::metal::cmix_block_forward_steps(batch, time, d_model, dim_ffn);
    let h0 = untouched(11);
    let h1 = run(steps[0], h0);
    assert(ran(steps, 1, h0) == h1);
    let h2 = run(steps[1], h1);
    assert(ran(steps, 2, h0) == h2);
    let h3 = run(steps[2], h2);
    assert(ran(steps, 3, h0) == h3);
    let h4 = run(steps[3], h3);
    assert(ran(steps, 4, h0) == h4);
    let mixing = seq![(batch * time) as u32, time as u32, d_model as u32];
    let mixed = made(Kernel::TimeShiftMix, 1, mixing, seq![put(0), put(1)]);
    let key = projected(batch * time, d_model as int, dim_ffn as int, mixed, put(4), put(5), None);
    let active = made(Kernel::CmixRelu2, 0, seq![(batch * time * dim_ffn) as u32], seq![key]);
    assert(h4[2] == made(Kernel::TimeShiftMix, 0, mixing, seq![put(0), put(1)]));
    assert(h4[3] == mixed);
    assert(h4[8] == key);
    assert(h4[9] == active);
    assert(h4[10] == made(Kernel::Fp16Linear, 0, seq![(batch * time) as u32, dim_ffn as u32, d_model as u32], seq![active, put(7)]));
    assert(returned(plan) =~= seq![made(Kernel::TimeShiftMix, 0, mixing, seq![put(0), put(1)]), mixed, key, active, made(Kernel::Fp16Linear, 0, seq![(batch * time) as u32, dim_ffn as u32, d_model as u32], seq![active, put(7)])]);
}

/// The gradient goes back through the mixing network: through the projection to
/// the activation and the value weights, through the activation to the keys, and
/// from there to the input, the key weights and their scales.
pub proof fn law_cmix_ffn_backward_flow(
    plan: Plan,
    rows: usize,
    d_model: usize,
    dim_ffn: usize,
)
    requires
        plan.listed() == crate::metal::cmix_ffn_backward_steps(rows, d_model, dim_ffn),
        plan.buffers@.len() == 15,
        plan.outputs@ == seq![10usize, 13usize, 11usize, 8usize],
    ensures
        ({
            let of_value = seq![put(2), put(3), put(6)];
            let g_active = made(Kernel::Fp16LinearBwd, 0, seq![rows as u32, dim_ffn as u32, d_model as u32, 0], of_value);
            let g_value = made(Kernel::Fp16LinearBwd, 1, seq![rows as u32, dim_ffn as u32, d_model as u32, 1], of_value);
            let g_key = made(Kernel::CmixRelu2Backward, 0, seq![(rows * dim_ffn) as u32], seq![put(1), g_active]);
            let wide = seq![rows as u32, d_model as u32, dim_ffn as u32];
            let g_weight = made(Kernel::BinaryLinearWeightBwd, 0, wide, seq![put(0), g_key, put(5)]);
            returned(plan) == seq![
                made(Kernel::BinaryLinearInputBwd, 0, wide, seq![g_key, put(4), put(5)]),
                g_weight,
                made(Kernel::BinaryLinearScaleBwdFromOutput, 0, seq![rows as u32, dim_ffn as u32, 0], seq![put(1), g_key, put(5)]),
                g_value,
            ]
        }),
{
    reveal(run);
    reveal(returned);
    reveal_with_fuel(ran, 7);
    let steps = crate::metal::cmix_ffn_backward_steps(rows, d_model, dim_ffn);
    let h0 = untouched(15);
    let h1 = run(steps[0], h0);
    assert(ran(steps, 1, h0) == h1);
    let h2 = run(steps[1], h1);
    assert(ran(steps, 2, h0) == h2);
    let h3 = run(steps[2], h2);
    assert(ran(steps, 3, h0) == h3);
    let h4 = run(steps[3], h3);
    assert(ran(steps, 4, h0) == h4);
    let h5 = run(steps[4], h4);
    assert(ran(steps, 5, h0) == h5);
    let h6 = run(steps[5], h5);
    assert(ran(steps, 6, h0) == h6);
    let of_value = seq![put(2), put(3), put(6)];
    let g_active = made(Kernel::Fp16LinearBwd, 0, seq![rows as u32, dim_ffn as u32, d_model as u32, 0], of_value);
    let g_value = made(Kernel::Fp16LinearBwd, 1, seq![rows as u32, dim_ffn as u32, d_model as u32, 1], of_value);
    let g_key = made(Kernel::CmixRelu2Backward, 0, seq![(rows * dim_ffn) as u32], seq![put(1), g_active]);
    let wide = seq![rows as u32, d_model as u32, dim_ffn as u32];
    let g_weight = made(Kernel::BinaryLinearWeightBwd, 0, wide, seq![put(0), g_key, put(5)]);
    assert(h6[10] == made(Kernel::BinaryLinearInputBwd, 0, wide, seq![g_key, put(4), put(5)]));
    assert(h6[13] == g_weight);
    assert(h6[11] == made(Kernel::BinaryLinearScaleBwdFromOutput, 0, seq![rows as u32, dim_ffn as u32, 0], seq![put(1), g_key, put(5)]));
    assert(h6[8] == g_value);
    assert(returned(plan) =~= seq![made(Kernel::BinaryLinearInputBwd, 0, wide, seq![g_key, put(4), put(5)]), g_weight, made(Kernel::BinaryLinearScaleBwdFromOutput, 0, seq![rows as u32, dim_ffn as u32, 0], seq![put(1), g_key, put(5)]), g_value]);
}

/// The gradient goes back through the mixing network as it does without a step;
/// the value weights move by their gradient, the latent key weights by theirs,
/// and the bits are packed after the step.
pub proof fn law_cmix_block_backward_sgd_flow(
    plan: Plan,
    rows: usize,
    d_model: usize,
    dim_ffn: usize,
    learning_rate: u32,
    ste_scale: u32,
)
    requires
        plan.listed() == crate::metal::cmix_block_backward_sgd_steps(rows, d_model, dim_ffn, learning_rate, ste_scale),
        plan.buffers@.len() == 19,
        plan.outputs@ == seq![13usize, 14usize, 6usize, 7usize, 8usize, 9usize, 18usize],
    ensures
        ({
            let of_value = seq![put(2), put(3), put(6)];
            let g_active = made(Kernel::Fp16LinearBwd, 0, seq![rows as u32, dim_ffn as u32, d_model as u32, 0], of_value);
            let g_value = made(Kernel::Fp16LinearBwd, 1, seq![rows as u32, dim_ffn as u32, d_model as u32, 1], of_value);
            let g_key = made(Kernel::CmixRelu2Backward, 0, seq![(rows * dim_ffn) as u32], seq![put(1), g_active]);
            let wide = seq![rows as u32, d_model as u32, dim_ffn as u32];
            let g_weight = made(Kernel::BinaryLinearWeightBwd, 0, wide, seq![put(0), g_key, put(5)]);
            let clip = seq![learning_rate, (d_model * dim_ffn) as u32];
            let of_clip = seq![put(6), put(7), g_value];
            let sgd = seq![learning_rate, (d_model * dim_ffn) as u32, ste_scale];
            let of_sgd = seq![put(8), put(9), g_weight];
            let latent = made(Kernel::BinaryConnectSgd, 0, sgd, of_sgd);
            returned(plan) == seq![
                made(Kernel::BinaryLinearInputBwd, 0, wide, seq![g_key, put(4), put(5)]),
                made(Kernel::BinaryLinearScaleBwdFromOutput, 0, seq![rows as u32, dim_ffn as u32, 0], seq![put(1), g_key, put(5)]),
                made(Kernel::ClippedSgd, 0, clip, of_clip),
                made(Kernel::ClippedSgd, 1, clip, of_clip),
                latent,
                made(Kernel::BinaryConnectSgd, 1, sgd, of_sgd),
                made(Kernel::PackLatentBits, 0, seq![(d_model * dim_ffn) as u32], seq![latent]),
            ]
        }),
{
    reveal(run);
    reveal(returned);
    reveal_with_fuel(ran, 10);
    let steps = crate::metal::cmix_block_backward_sgd_steps(rows, d_model, dim_ffn, learning_rate, ste_scale);
    let h0 = untouched(19);
    let h1 = run(steps[0], h0);
    assert(ran(steps, 1, h0) == h1);
    let h2 = run(steps[1], h1);
    assert(ran(steps, 2, h0) == h2);
    let h3 = run(steps[2], h2);
    assert(ran(steps, 3, h0) == h3);
    let h4 = run(steps[3], h3);
    assert(ran(steps, 4, h0) == h4);
    let h5 = run(steps[4], h4);
    assert(ran(steps, 5, h0) == h5);
    let h6 = run(steps[5], h5);
    assert(ran(steps, 6, h0) == h6);
    let h7 = run(steps[6], h6);
    assert(ran(steps, 7, h0) == h7);
    let h8 = run(steps[7], h7);
    assert(ran(steps, 8, h0) == h8);
    let h9 = run(steps[8], h8);
    assert(ran(steps, 9, h0) == h9);
    let of_value = seq![put(2), put(3), put(6)];
    let g_active = made(Kernel::Fp16LinearBwd, 0, seq![rows as u32, dim_ffn as u32, d_model as u32, 0], of_value);
    let g_value = made(Kernel::Fp16LinearBwd, 1, seq![rows as u32, dim_ffn as u32, d_model as u32, 1], of_value);
    let g_key = made(Kernel::CmixRelu2Backward, 0, seq![(rows * dim_ffn) as u32], seq![put(1), g_active]);
    let wide = seq![rows as u32, d_model as u32, dim_ffn as u32];
    let g_weight = made(Kernel::BinaryLinearWeightBwd, 0, wide, seq![put(0), g_key, put(5)]);
    let clip = seq![learning_rate, (d_model * dim_ffn) as u32];
    let of_clip = seq![put(6), put(7), g_value];
    let sgd = seq![learning_rate, (d_model * dim_ffn) as u32, ste_scale];
    let of_sgd = seq![put(8), put(9), g_weight];
    let latent = made(Kernel::BinaryConnectSgd, 0, sgd, of_sgd);
    assert(h9[13] == made(Kernel::BinaryLinearInputBwd, 0, wide, seq![g_key, put(4), put(5)]));
    assert(h9[14] == made(Kernel::BinaryLinearScaleBwdFromOutput, 0, seq![rows as u32, dim_ffn as u32, 0], seq![put(1), g_key, put(5)]));
    assert(h9[6] == made(Kernel::ClippedSgd, 0, clip, of_clip));
    assert(h9[7] == made(Kernel::ClippedSgd, 1, clip, of_clip));
    assert(h9[8] == latent);
    assert(h9[9] == made(Kernel::BinaryConnectSgd, 1, sgd, of_sgd));
    assert(h9[18] == made(Kernel::PackLatentBits, 0, seq![(d_model * dim_ffn) as u32], seq![latent]));
    assert(returned(plan) =~= seq![made(Kernel::BinaryLinearInputBwd, 0, wide, seq![g_key, put(4), put(5)]), made(Kernel::BinaryLinearScaleBwdFromOutput, 0, seq![rows as u32, dim_ffn as u32, 0], seq![put(1), g_key, put(5)]), made(Kernel::ClippedSgd, 0, clip, of_clip), made(Kernel::ClippedSgd, 1, clip, of_clip), latent, made(Kernel::BinaryConnectSgd, 1, sgd, of_sgd), made(Kernel::PackLatentBits, 0, seq![(d_model * dim_ffn) as u32], seq![latent])]);
}

/// A clipped step is made of the parameters, what was left over and the gradient.
pub proof fn law_clipped_sgd_fp16_flow(
    plan: Plan,
    parameters: usize,
    learning_rate: u32,
)
    requires
        plan.listed() == crate::metal::clipped_sgd_fp16_steps(parameters, learning_rate),
        plan.buffers@.len() == 3,
        plan.outputs@ == seq![0usize, 1usize],
    ensures
        ({
            let c = seq![learning_rate, parameters as u32];
            let from = seq![put(0), put(1), put(2)];
            returned(plan) == seq![
                made(Kernel::ClippedSgd, 0, c, from),
                made(Kernel::ClippedSgd, 1, c, from),
            ]
        }),
{
    reveal(run);
    reveal(returned);
    reveal_with_fuel(ran, 2);
    let steps = crate::metal::clipped_sgd_fp16_steps(parameters, learning_rate);
    let h0 = untouched(3);
    let h1 = run(steps[0], h0);
    assert(ran(steps, 1, h0) == h1);
    let c = seq![learning_rate, parameters as u32];
    let from = seq![put(0), put(1), put(2)];
    assert(h1[0] == made(Kernel::ClippedSgd, 0, c, from));
    assert(h1[1] == made(Kernel::ClippedSgd, 1, c, from));
    assert(returned(plan) =~= seq![made(Kernel::ClippedSgd, 0, c, from), made(Kernel::ClippedSgd, 1, c, from)]);
}

/// A latent step is made of the parameters, what was left over and the gradient.
pub proof fn law_binaryconnect_sgd_fp16_flow(
    plan: Plan,
    parameters: usize,
    learning_rate: u32,
    ste_scale: u32,
)
    requires
        plan.listed() == crate::metal::binaryconnect_sgd_fp16_steps(parameters, learning_rate, ste_scale),
        plan.buffers@.len() == 3,
        plan.outputs@ == seq![0usize, 1usize],
    ensures
        ({
            let c = seq![learning_rate, parameters as u32, ste_scale];
            let from = seq![put(0), put(1), put(2)];
            returned(plan) == seq![
                made(Kernel::BinaryConnectSgd, 0, c, from),
                made(Kernel::BinaryConnectSgd, 1, c, from),
            ]
        }),
{
    reveal(run);
    reveal(returned);
    reveal_with_fuel(ran, 2);
    let steps = crate::metal::binaryconnect_sgd_fp16_steps(parameters, learning_rate, ste_scale);
    let h0 = untouched(3);
    let h1 = run(steps[0], h0);
    assert(ran(steps, 1, h0) == h1);
    let c = seq![learning_rate, parameters as u32, ste_scale];
    let from = seq![put(0), put(1), put(2)];
    assert(h1[0] == made(Kernel::BinaryConnectSgd, 0, c, from));
    assert(h1[1] == made(Kernel::BinaryConnectSgd, 1, c, from));
    assert(returned(plan) =~= seq![made(Kernel::BinaryConnectSgd, 0, c, from), made(Kernel::BinaryConnectSgd, 1, c, from)]);
}

/// The bits are those of the parameters after the step, not before.
pub proof fn law_apply_latent_sgd_flow(
    plan: Plan,
    latent: usize,
    learning_rate: u32,
    ste_scale: u32,
)
    requires
        plan.listed() == crate::metal::apply_latent_sgd_steps(latent, learning_rate, ste_scale),
        plan.buffers@.len() == 4,
        plan.outputs@ == seq![0usize, 1usize, 3usize],
    ensures
        ({
            let c = seq![learning_rate, latent as u32, ste_scale];
            let from = seq![put(0), put(1), put(2)];
            let moved = made(Kernel::BinaryConnectSgd, 0, c, from);
            returned(plan) == seq![
                moved,
                made(Kernel::BinaryConnectSgd, 1, c, from),
                made(Kernel::PackLatentBits, 0, seq![latent as u32], seq![moved]),
            ]
        }),
{
    reveal(run);
    reveal(returned);
    reveal_with_fuel(ran, 3);
    let steps = crate::metal::apply_latent_sgd_steps(latent, learning_rate, ste_scale);
    let h0 = untouched(4);
    let h1 = run(steps[0], h0);
    assert(ran(steps, 1, h0) == h1);
    let h2 = run(steps[1], h1);
    assert(ran(steps, 2, h0) == h2);
    let c = seq![learning_rate, latent as u32, ste_scale];
    let from = seq![put(0), put(1), put(2)];
    let moved = made(Kernel::BinaryConnectSgd, 0, c, from);
    assert(h2[0] == moved);
    assert(h2[1] == made(Kernel::BinaryConnectSgd, 1, c, from));
    assert(h2[3] == made(Kernel::PackLatentBits, 0, seq![latent as u32], seq![moved]));
    assert(returned(plan) =~= seq![moved, made(Kernel::BinaryConnectSgd, 1, c, from), made(Kernel::PackLatentBits, 0, seq![latent as u32], seq![moved])]);
}

/// The streamed loss and its gradients are made of the rows, the packed head, the
/// targets and the gradient of the scales so far.
pub proof fn law_streamed_cross_entropy_fp16_flow(
    plan: Plan,
    rows: usize,
    time: usize,
    channels: usize,
    vocab: usize,
    horizon: usize,
    gradient_scale: u32,
)
    requires
        plan.listed() == crate::metal::streamed_cross_entropy_fp16_steps(rows, time, channels, vocab, horizon, gradient_scale),
        plan.buffers@.len() == 8,
        plan.outputs@ == seq![4usize, 5usize, 6usize, 7usize],
    ensures
        ({
            let c = seq![rows as u32, time as u32, channels as u32, vocab as u32, horizon as u32, gradient_scale, u32::MAX];
            let from = seq![put(0), put(1), put(2), put(3), put(6)];
            returned(plan) == seq![
                made(Kernel::StreamedCrossEntropy, 0, c, from),
                made(Kernel::StreamedCrossEntropy, 1, c, from),
                made(Kernel::StreamedCrossEntropy, 2, c, from),
                made(Kernel::StreamedCrossEntropy, 3, c, from),
            ]
        }),
{
    reveal(run);
    reveal(returned);
    reveal_with_fuel(ran, 2);
    let steps = crate::metal::streamed_cross_entropy_fp16_steps(rows, time, channels, vocab, horizon, gradient_scale);
    let h0 = untouched(8);
    let h1 = run(steps[0], h0);
    assert(ran(steps, 1, h0) == h1);
    let c = seq![rows as u32, time as u32, channels as u32, vocab as u32, horizon as u32, gradient_scale, u32::MAX];
    let from = seq![put(0), put(1), put(2), put(3), put(6)];
    assert(h1[4] == made(Kernel::StreamedCrossEntropy, 0, c, from));
    assert(h1[5] == made(Kernel::StreamedCrossEntropy, 1, c, from));
    assert(h1[6] == made(Kernel::StreamedCrossEntropy, 2, c, from));
    assert(h1[7] == made(Kernel::StreamedCrossEntropy, 3, c, from));
    assert(returned(plan) =~= seq![made(Kernel::StreamedCrossEntropy, 0, c, from), made(Kernel::StreamedCrossEntropy, 1, c, from), made(Kernel::StreamedCrossEntropy, 2, c, from), made(Kernel::StreamedCrossEntropy, 3, c, from)]);
}

/// The packed head: its logits meet the targets in the loss, and the gradient of
/// the logits goes back to the rows, the scales and the weights.
pub proof fn law_packed_head_train_flow(
    plan: Plan,
    rows: usize,
    time: usize,
    channels: usize,
    vocab: usize,
    horizon: usize,
    gradient_scale: u32,
)
    requires
        plan.listed() == crate::metal::packed_head_train_steps(rows, time, channels, vocab, horizon, gradient_scale),
        plan.buffers@.len() == 12,
        plan.outputs@ == seq![8usize, 9usize, 11usize, 7usize],
    ensures
        ({
            let logits = projected(rows as int, channels as int, vocab as int, put(0), put(1), put(2), None);
            let entropy = seq![rows as u32, time as u32, vocab as u32, horizon as u32, gradient_scale, u32::MAX];
            let loss = made(Kernel::SoftmaxCrossEntropy, 0, entropy, seq![logits, put(4)]);
            let g_logits = made(Kernel::SoftmaxCrossEntropy, 1, entropy, seq![logits, put(4)]);
            let wide = seq![rows as u32, channels as u32, vocab as u32];
            let g_weight = made(Kernel::BinaryLinearWeightBwd, 0, wide, seq![put(0), g_logits, put(2)]);
            returned(plan) == seq![
                made(Kernel::BinaryLinearInputBwd, 0, wide, seq![g_logits, put(1), put(2)]),
                made(Kernel::BinaryLinearScaleBwdFromOutput, 0, seq![rows as u32, vocab as u32, 0], seq![logits, g_logits, put(2)]),
                g_weight,
                loss,
            ]
        }),
{
    reveal(run);
    reveal(returned);
    reveal_with_fuel(ran, 6);
    let steps = crate::metal::packed_head_train_steps(rows, time, channels, vocab, horizon, gradient_scale);
    let h0 = untouched(12);
    let h1 = run(steps[0], h0);
    assert(ran(steps, 1, h0) == h1);
    let h2 = run(steps[1], h1);
    assert(ran(steps, 2, h0) == h2);
    let h3 = run(steps[2], h2);
    assert(ran(steps, 3, h0) == h3);
    let h4 = run(steps[3], h3);
    assert(ran(steps, 4, h0) == h4);
    let h5 = run(steps[4], h4);
    assert(ran(steps, 5, h0) == h5);
    let logits = projected(rows as int, channels as int, vocab as int, put(0), put(1), put(2), None);
    let entropy = seq![rows as u32, time as u32, vocab as u32, horizon as u32, gradient_scale, u32::MAX];
    let loss = made(Kernel::SoftmaxCrossEntropy, 0, entropy, seq![logits, put(4)]);
    let g_logits = made(Kernel::SoftmaxCrossEntropy, 1, entropy, seq![logits, put(4)]);
    let wide = seq![rows as u32, channels as u32, vocab as u32];
    let g_weight = made(Kernel::BinaryLinearWeightBwd, 0, wide, seq![put(0), g_logits, put(2)]);
    assert(h5[8] == made(Kernel::BinaryLinearInputBwd, 0, wide, seq![g_logits, put(1), put(2)]));
    assert(h5[9] == made(Kernel::BinaryLinearScaleBwdFromOutput, 0, seq![rows as u32, vocab as u32, 0], seq![logits, g_logits, put(2)]));
    assert(h5[11] == g_weight);
    assert(h5[7] == loss);
    assert(returned(plan) =~= seq![made(Kernel::BinaryLinearInputBwd, 0, wide, seq![g_logits, put(1), put(2)]), made(Kernel::BinaryLinearScaleBwdFromOutput, 0, seq![rows as u32, vocab as u32, 0], seq![logits, g_logits, put(2)]), g_weight, loss]);
}

/// The packed head as above, with a step on its latent weights by their gradient;
/// the bits are packed after the step.
pub proof fn law_packed_head_train_sgd_flow(
    plan: Plan,
    rows: usize,
    time: usize,
    channels: usize,
    vocab: usize,
    horizon: usize,
    gradient_scale: u32,
    ignore_id: u32,
    learning_rate: u32,
    ste_scale: u32,
)
    requires
        plan.listed() == crate::metal::packed_head_train_sgd_steps(rows, time, channels, vocab, horizon, gradient_scale, ignore_id, learning_rate, ste_scale),
        plan.buffers@.len() == 15,
        plan.outputs@ == seq![11usize, 12usize, 10usize, 5usize, 6usize, 7usize],
    ensures
        ({
            let logits = projected(rows as int, channels as int, vocab as int, put(0), put(1), put(2), None);
            let entropy = seq![rows as u32, time as u32, vocab as u32, horizon as u32, gradient_scale, ignore_id];
            let loss = made(Kernel::SoftmaxCrossEntropy, 0, entropy, seq![logits, put(4)]);
            let g_logits = made(Kernel::SoftmaxCrossEntropy, 1, entropy, seq![logits, put(4)]);
            let wide = seq![rows as u32, channels as u32, vocab as u32];
            let g_weight = made(Kernel::BinaryLinearWeightBwd, 0, wide, seq![put(0), g_logits, put(2)]);
            let sgd = seq![learning_rate, (channels * vocab) as u32, ste_scale];
            let of_sgd = seq![put(5), put(6), g_weight];
            let latent = made(Kernel::BinaryConnectSgd, 0, sgd, of_sgd);
            returned(plan) == seq![
                made(Kernel::BinaryLinearInputBwd, 0, wide, seq![g_logits, put(1), put(2)]),
                made(Kernel::BinaryLinearScaleBwdFromOutput, 0, seq![rows as u32, vocab as u32, 0], seq![logits, g_logits, put(2)]),
                loss,
                latent,
                made(Kernel::BinaryConnectSgd, 1, sgd, of_sgd),
                made(Kernel::PackLatentBits, 0, seq![(channels * vocab) as u32], seq![latent]),
            ]
        }),
{
    reveal(run);
    reveal(returned);
    reveal_with_fuel(ran, 8);
    let steps = crate::metal::packed_head_train_sgd_steps(rows, time, channels, vocab, horizon, gradient_scale, ignore_id, learning_rate, ste_scale);
    let h0 = untouched(15);
    let h1 = run(steps[0], h0);
    assert(ran(steps, 1, h0) == h1);
    let h2 = run(steps[1], h1);
    assert(ran(steps, 2, h0) == h2);
    let h3 = run(steps[2], h2);
    assert(ran(steps, 3, h0) == h3);
    let h4 = run(steps[3], h3);
    assert(ran(steps, 4, h0) == h4);
    let h5 = run(steps[4], h4);
    assert(ran(steps, 5, h0) == h5);
    let h6 = run(steps[5], h5);
    assert(ran(steps, 6, h0) == h6);
    let h7 = run(steps[6], h6);
    assert(ran(steps, 7, h0) == h7);
    let logits = projected(rows as int, channels as int, vocab as int, put(0), put(1), put(2), None);
    let entropy = seq![rows as u32, time as u32, vocab as u32, horizon as u32, gradient_scale, ignore_id];
    let loss = made(Kernel::SoftmaxCrossEntropy, 0, entropy, seq![logits, put(4)]);
    let g_logits = made(Kernel::SoftmaxCrossEntropy, 1, entropy, seq![logits, put(4)]);
    let wide = seq![rows as u32, channels as u32, vocab as u32];
    let g_weight = made(Kernel::BinaryLinearWeightBwd, 0, wide, seq![put(0), g_logits, put(2)]);
    let sgd = seq![learning_rate, (channels * vocab) as u32, ste_scale];
    let of_sgd = seq![put(5), put(6), g_weight];
    let latent = made(Kernel::BinaryConnectSgd, 0, sgd, of_sgd);
    assert(h7[11] == made(Kernel::BinaryLinearInputBwd, 0, wide, seq![g_logits, put(1), put(2)]));
    assert(h7[12] == made(Kernel::BinaryLinearScaleBwdFromOutput, 0, seq![rows as u32, vocab as u32, 0], seq![logits, g_logits, put(2)]));
    assert(h7[10] == loss);
    assert(h7[5] == latent);
    assert(h7[6] == made(Kernel::BinaryConnectSgd, 1, sgd, of_sgd));
    assert(h7[7] == made(Kernel::PackLatentBits, 0, seq![(channels * vocab) as u32], seq![latent]));
    assert(returned(plan) =~= seq![made(Kernel::BinaryLinearInputBwd, 0, wide, seq![g_logits, put(1), put(2)]), made(Kernel::BinaryLinearScaleBwdFromOutput, 0, seq![rows as u32, vocab as u32, 0], seq![logits, g_logits, put(2)]), loss, latent, made(Kernel::BinaryConnectSgd, 1, sgd, of_sgd), made(Kernel::PackLatentBits, 0, seq![(channels * vocab) as u32], seq![latent])]);
}

/// A buffer holds something after a step when it did before or when the step has
/// made what it holds.
pub proof fn law_what_is_made_is_there(
    step: StepView,
    buffers: Seq<Buffer>,
    filled: Seq<bool>,
    i: int,
)
    requires
        crate::metal::safe(step, buffers, filled),
        filled.len() == buffers.len(),
        0 <= i < filled.len(),
    ensures
        crate::metal::after(step, filled)[i] == (filled[i] || run(step, untouched(filled.len()))[i]
            is Made),
{
    reveal(run);
    reveal(crate::metal::after);
    reveal(crate::metal::safe);
}

/// A step that is let run reads nothing but what is there.
#[verifier::rlimit(100)]
#[verifier::spinoff_prover]
pub proof fn law_what_is_read_is_there(
    step: StepView,
    buffers: Seq<Buffer>,
    filled: Seq<bool>,
    i: int,
    j: int,
)
    requires
        crate::metal::safe(step, buffers, filled),
        filled.len() == buffers.len(),
        0 <= i < filled.len(),
    ensures
        run(step, untouched(filled.len()))[i] matches Held::Made { from, .. } ==> 0 <= j < from.len()
            ==> (from[j] matches Held::Put { buffer } && 0 <= buffer < filled.len()
            && filled[buffer]),
{
    reveal(run);
    reveal(crate::metal::after);
    reveal(crate::metal::safe);
    let b = step.buffers;
    let n = filled.len();
    assert forall|slot: int| 0 <= slot < b.len() && b[slot] < n implies #[trigger] untouched(n)[
        b[slot] as int
    ] == put(b[slot] as int) by {}
    match step.kernel {
        Kernel::Identity => {},
        Kernel::LayerNorm => {},
        Kernel::LayerNormBackward => {},
        Kernel::LayerNormParamBwd => {},
        Kernel::TimeShiftDelta => {},
        Kernel::TimeShiftMix => {},
        Kernel::TimeShiftMix3 => {},
        Kernel::BinaryLinear => {},
        Kernel::BinaryLinearInputBwd => {},
        Kernel::BinaryLinearScaleBwd => {},
        Kernel::BinaryLinearWeightBwd => {},
        Kernel::BinaryLinearScaleBwdFromOutput => {},
        Kernel::BinaryLinearLatentSgd => {},
        Kernel::Fp16Linear => {},
        Kernel::Fp16LinearBwd => {},
        Kernel::SignPackBits => {},
        Kernel::PackLatentBits => {},
        Kernel::RosaSamReset => {},
        Kernel::RosaQkvFwd => {},
        Kernel::RosaQkvBwdE => {},
        Kernel::CmixRelu2 => {},
        Kernel::CmixRelu2Backward => {},
        Kernel::ResidualAdd => {},
        Kernel::StreamedCrossEntropy => {},
        Kernel::SoftmaxCrossEntropy => {},
        Kernel::ClippedSgd => {},
        Kernel::BinaryConnectSgd => {},
        Kernel::Wkv7Forward | Kernel::Wkv7Backward => {},
    }
}

} // verus!
