//! Work for the graphics device: which kernels run, in which order, over which
//! buffers.
//!
//! An operation is planned here and run elsewhere. A plan lists the buffers of
//! the operation and the steps over them. Every plan is sound: no kernel
//! reaches past the end of a buffer, and none reads a buffer that nothing has
//! filled yet.
use vstd::prelude::*;
use crate::text::same_text;

verus! {

/// Side of the square tile of a matrix kernel.
pub const LINEAR_TILE: usize = 16;

/// Threads of a group that sums over the rows.
pub const SCALE_BWD_THREADS: usize = 256;

/// Which operation was given lengths that do not agree.
#[derive(Clone, Copy, Debug, PartialEq, Eq, Structural)]
pub enum Operation {
    ResidualAdd,
    TimeShift,
    RosaScale,
    RosaPlanes,
    RosaGradient,
    RosaBlock,
    Relu2Backward,
    LayerNorm,
    LayerNormBackward,
    BinaryLinear,
    BinaryGradient,
    WeightGradient,
    LatentSgd,
    Fp16Linear,
    Fp16LinearBackward,
    CmixBlock,
    CmixBackward,
    CmixBackwardSgd,
    RosaOutput,
    StreamedCe,
    LatentLength,
    BinaryConnectLength,
    ClippedLength,
    HeadCe,
    HeadSgd,
}

/// Why an operation cannot be planned.
#[derive(Clone, Copy, Debug, PartialEq, Eq, Structural)]
pub enum MetalError {
    ZeroDimension,
    ShapeOverflow,
    TooManyElements,
    InputWidth,
    WeightOverflow,
    /// A number that a kernel is given does not fit in 32 bits.
    TooWide,
    /// No thread would run.
    Empty,
    SamOverflow,
    NoThreads,
    UnknownKernel,
    Mismatch(Operation),
}

/// The sentence that reports an error.
pub open spec fn metal_message(error: MetalError) -> Seq<char> {
    match error {
        MetalError::ZeroDimension => "Metal dispatch dimensions must be non-zero"@,
        MetalError::ShapeOverflow => "Metal dispatch shape overflow"@,
        MetalError::TooManyElements => "Metal dispatch has more than u32::MAX elements"@,
        MetalError::InputWidth => "Metal linear input width is invalid"@,
        MetalError::WeightOverflow => "Metal linear weight shape overflow"@,
        MetalError::TooWide => "Metal constant exceeds u32"@,
        MetalError::Empty => "Metal dispatch cannot be empty"@,
        MetalError::SamOverflow => "ROSA SAM workspace overflow"@,
        MetalError::NoThreads => "Metal pipeline reported zero threads per threadgroup"@,
        MetalError::UnknownKernel => "Metal function is missing"@,
        MetalError::Mismatch(operation) => match operation {
            Operation::ResidualAdd => "residual add length mismatch"@,
            Operation::TimeShift => "time-shift input shape mismatch"@,
            Operation::RosaScale => "ROSA e must have one scale per channel"@,
            Operation::RosaPlanes => "ROSA QKV bitplane word count mismatch"@,
            Operation::RosaGradient => "ROSA g_e shape mismatch"@,
            Operation::RosaBlock => "ROSA block mix/scale/bias length mismatch"@,
            Operation::Relu2Backward => "relu2 backward length mismatch"@,
            Operation::LayerNorm => "LayerNorm input shape mismatch"@,
            Operation::LayerNormBackward => "LayerNorm backward shape mismatch"@,
            Operation::BinaryLinear => "binary linear shape mismatch"@,
            Operation::BinaryGradient => "binary linear output-gradient shape mismatch"@,
            Operation::WeightGradient => "binary linear weight-gradient shape mismatch"@,
            Operation::LatentSgd => "binary latent SGD shape mismatch"@,
            Operation::Fp16Linear => "FP16 linear shape mismatch"@,
            Operation::Fp16LinearBackward => "FP16 linear backward shape mismatch"@,
            Operation::CmixBlock => "CMix block shape mismatch"@,
            Operation::CmixBackward => "CMix backward shape mismatch"@,
            Operation::CmixBackwardSgd => "CMix backward SGD shape mismatch"@,
            Operation::RosaOutput => "ROSA O stop-grad shape mismatch"@,
            Operation::StreamedCe => "streamed CE shape mismatch"@,
            Operation::LatentLength => "latent SGD length mismatch"@,
            Operation::BinaryConnectLength => "BinaryConnect SGD length mismatch"@,
            Operation::ClippedLength => "clipped SGD length mismatch"@,
            Operation::HeadCe => "packed head CE shape mismatch"@,
            Operation::HeadSgd => "packed head SGD shape mismatch"@,
        },
    }
}

impl MetalError {
    /// The sentence that reports the error.
    pub fn message(&self) -> (text: &'static str)
        ensures
            text@ == metal_message(*self),
    {
        match self {
            MetalError::ZeroDimension => "Metal dispatch dimensions must be non-zero",
            MetalError::ShapeOverflow => "Metal dispatch shape overflow",
            MetalError::TooManyElements => "Metal dispatch has more than u32::MAX elements",
            MetalError::InputWidth => "Metal linear input width is invalid",
            MetalError::WeightOverflow => "Metal linear weight shape overflow",
            MetalError::TooWide => "Metal constant exceeds u32",
            MetalError::Empty => "Metal dispatch cannot be empty",
            MetalError::SamOverflow => "ROSA SAM workspace overflow",
            MetalError::NoThreads => "Metal pipeline reported zero threads per threadgroup",
            MetalError::UnknownKernel => "Metal function is missing",
            MetalError::Mismatch(operation) => match operation {
                Operation::ResidualAdd => "residual add length mismatch",
                Operation::TimeShift => "time-shift input shape mismatch",
                Operation::RosaScale => "ROSA e must have one scale per channel",
                Operation::RosaPlanes => "ROSA QKV bitplane word count mismatch",
                Operation::RosaGradient => "ROSA g_e shape mismatch",
                Operation::RosaBlock => "ROSA block mix/scale/bias length mismatch",
                Operation::Relu2Backward => "relu2 backward length mismatch",
                Operation::LayerNorm => "LayerNorm input shape mismatch",
                Operation::LayerNormBackward => "LayerNorm backward shape mismatch",
                Operation::BinaryLinear => "binary linear shape mismatch",
                Operation::BinaryGradient => "binary linear output-gradient shape mismatch",
                Operation::WeightGradient => "binary linear weight-gradient shape mismatch",
                Operation::LatentSgd => "binary latent SGD shape mismatch",
                Operation::Fp16Linear => "FP16 linear shape mismatch",
                Operation::Fp16LinearBackward => "FP16 linear backward shape mismatch",
                Operation::CmixBlock => "CMix block shape mismatch",
                Operation::CmixBackward => "CMix backward shape mismatch",
                Operation::CmixBackwardSgd => "CMix backward SGD shape mismatch",
                Operation::RosaOutput => "ROSA O stop-grad shape mismatch",
                Operation::StreamedCe => "streamed CE shape mismatch",
                Operation::LatentLength => "latent SGD length mismatch",
                Operation::BinaryConnectLength => "BinaryConnect SGD length mismatch",
                Operation::ClippedLength => "clipped SGD length mismatch",
                Operation::HeadCe => "packed head CE shape mismatch",
                Operation::HeadSgd => "packed head SGD shape mismatch",
            },
        }
    }
}

/// A kernel of the device program.
#[derive(Clone, Copy, Debug, PartialEq, Eq, Structural)]
pub enum Kernel {
    Identity,
    LayerNorm,
    LayerNormBackward,
    LayerNormParamBwd,
    TimeShiftDelta,
    TimeShiftMix,
    TimeShiftMix3,
    BinaryLinear,
    BinaryLinearInputBwd,
    BinaryLinearScaleBwd,
    BinaryLinearWeightBwd,
    BinaryLinearScaleBwdFromOutput,
    BinaryLinearLatentSgd,
    Fp16Linear,
    Fp16LinearBwd,
    SignPackBits,
    PackLatentBits,
    RosaSamReset,
    RosaQkvFwd,
    RosaQkvBwdE,
    CmixRelu2,
    CmixRelu2Backward,
    ResidualAdd,
    StreamedCrossEntropy,
    SoftmaxCrossEntropy,
    ClippedSgd,
    BinaryConnectSgd,
    Wkv7Forward,
    Wkv7Backward,
}

/// The kernel's name in the device program.
pub open spec fn kernel_name(kernel: Kernel) -> Seq<char> {
    match kernel {
        Kernel::Identity => "ullis_identity"@,
        Kernel::LayerNorm => "ullis_layer_norm"@,
        Kernel::LayerNormBackward => "ullis_layer_norm_backward"@,
        Kernel::LayerNormParamBwd => "ullis_layer_norm_param_bwd"@,
        Kernel::TimeShiftDelta => "ullis_time_shift_delta"@,
        Kernel::TimeShiftMix => "ullis_time_shift_mix"@,
        Kernel::TimeShiftMix3 => "ullis_time_shift_mix3"@,
        Kernel::BinaryLinear => "ullis_binary_linear"@,
        Kernel::BinaryLinearInputBwd => "ullis_binary_linear_input_bwd"@,
        Kernel::BinaryLinearScaleBwd => "ullis_binary_linear_scale_bwd"@,
        Kernel::BinaryLinearWeightBwd => "ullis_binary_linear_weight_bwd"@,
        Kernel::BinaryLinearScaleBwdFromOutput => "ullis_binary_linear_scale_bwd_from_output"@,
        Kernel::BinaryLinearLatentSgd => "ullis_binary_linear_latent_sgd"@,
        Kernel::Fp16Linear => "ullis_fp16_linear"@,
        Kernel::Fp16LinearBwd => "ullis_fp16_linear_bwd"@,
        Kernel::SignPackBits => "ullis_sign_pack_bits"@,
        Kernel::PackLatentBits => "ullis_pack_latent_bits"@,
        Kernel::RosaSamReset => "ullis_rosa_sam_reset"@,
        Kernel::RosaQkvFwd => "ullis_rosa_qkv_1bit_fwd"@,
        Kernel::RosaQkvBwdE => "ullis_rosa_qkv_1bit_bwd_e"@,
        Kernel::CmixRelu2 => "ullis_cmix_relu2"@,
        Kernel::CmixRelu2Backward => "ullis_cmix_relu2_backward"@,
        Kernel::ResidualAdd => "ullis_residual_add"@,
        Kernel::StreamedCrossEntropy => "ullis_streamed_cross_entropy_fp16"@,
        Kernel::SoftmaxCrossEntropy => "ullis_softmax_cross_entropy"@,
        Kernel::ClippedSgd => "ullis_clipped_sgd_fp16"@,
        Kernel::BinaryConnectSgd => "ullis_binaryconnect_sgd_fp16"@,
        Kernel::Wkv7Forward => "ullis_wkv7_forward"@,
        Kernel::Wkv7Backward => "ullis_wkv7_backward"@,
    }
}

impl Kernel {
    /// The kernel's name in the device program.
    pub fn name(self) -> (name: &'static str)
        ensures
            name@ == kernel_name(self),
    {
        match self {
            Kernel::Identity => "ullis_identity",
            Kernel::LayerNorm => "ullis_layer_norm",
            Kernel::LayerNormBackward => "ullis_layer_norm_backward",
            Kernel::LayerNormParamBwd => "ullis_layer_norm_param_bwd",
            Kernel::TimeShiftDelta => "ullis_time_shift_delta",
            Kernel::TimeShiftMix => "ullis_time_shift_mix",
            Kernel::TimeShiftMix3 => "ullis_time_shift_mix3",
            Kernel::BinaryLinear => "ullis_binary_linear",
            Kernel::BinaryLinearInputBwd => "ullis_binary_linear_input_bwd",
            Kernel::BinaryLinearScaleBwd => "ullis_binary_linear_scale_bwd",
            Kernel::BinaryLinearWeightBwd => "ullis_binary_linear_weight_bwd",
            Kernel::BinaryLinearScaleBwdFromOutput => "ullis_binary_linear_scale_bwd_from_output",
            Kernel::BinaryLinearLatentSgd => "ullis_binary_linear_latent_sgd",
            Kernel::Fp16Linear => "ullis_fp16_linear",
            Kernel::Fp16LinearBwd => "ullis_fp16_linear_bwd",
            Kernel::SignPackBits => "ullis_sign_pack_bits",
            Kernel::PackLatentBits => "ullis_pack_latent_bits",
            Kernel::RosaSamReset => "ullis_rosa_sam_reset",
            Kernel::RosaQkvFwd => "ullis_rosa_qkv_1bit_fwd",
            Kernel::RosaQkvBwdE => "ullis_rosa_qkv_1bit_bwd_e",
            Kernel::CmixRelu2 => "ullis_cmix_relu2",
            Kernel::CmixRelu2Backward => "ullis_cmix_relu2_backward",
            Kernel::ResidualAdd => "ullis_residual_add",
            Kernel::StreamedCrossEntropy => "ullis_streamed_cross_entropy_fp16",
            Kernel::SoftmaxCrossEntropy => "ullis_softmax_cross_entropy",
            Kernel::ClippedSgd => "ullis_clipped_sgd_fp16",
            Kernel::BinaryConnectSgd => "ullis_binaryconnect_sgd_fp16",
            Kernel::Wkv7Forward => "ullis_wkv7_forward",
            Kernel::Wkv7Backward => "ullis_wkv7_backward",
        }
    }
}

/// Whether a kernel of that name is known.
pub fn is_kernel(name: &str) -> (known: bool)
    ensures
        known == exists|kernel: Kernel| #[trigger] kernel_name(kernel) == name@,
{
    if same_text(name, "ullis_identity") {
        assert(kernel_name(Kernel::Identity) == name@);
        return true;
    }
    if same_text(name, "ullis_layer_norm") {
        assert(kernel_name(Kernel::LayerNorm) == name@);
        return true;
    }
    if same_text(name, "ullis_layer_norm_backward") {
        assert(kernel_name(Kernel::LayerNormBackward) == name@);
        return true;
    }
    if same_text(name, "ullis_layer_norm_param_bwd") {
        assert(kernel_name(Kernel::LayerNormParamBwd) == name@);
        return true;
    }
    if same_text(name, "ullis_time_shift_delta") {
        assert(kernel_name(Kernel::TimeShiftDelta) == name@);
        return true;
    }
    if same_text(name, "ullis_time_shift_mix") {
        assert(kernel_name(Kernel::TimeShiftMix) == name@);
        return true;
    }
    if same_text(name, "ullis_time_shift_mix3") {
        assert(kernel_name(Kernel::TimeShiftMix3) == name@);
        return true;
    }
    if same_text(name, "ullis_binary_linear") {
        assert(kernel_name(Kernel::BinaryLinear) == name@);
        return true;
    }
    if same_text(name, "ullis_binary_linear_input_bwd") {
        assert(kernel_name(Kernel::BinaryLinearInputBwd) == name@);
        return true;
    }
    if same_text(name, "ullis_binary_linear_scale_bwd") {
        assert(kernel_name(Kernel::BinaryLinearScaleBwd) == name@);
        return true;
    }
    if same_text(name, "ullis_binary_linear_weight_bwd") {
        assert(kernel_name(Kernel::BinaryLinearWeightBwd) == name@);
        return true;
    }
    if same_text(name, "ullis_binary_linear_scale_bwd_from_output") {
        assert(kernel_name(Kernel::BinaryLinearScaleBwdFromOutput) == name@);
        return true;
    }
    if same_text(name, "ullis_binary_linear_latent_sgd") {
        assert(kernel_name(Kernel::BinaryLinearLatentSgd) == name@);
        return true;
    }
    if same_text(name, "ullis_fp16_linear") {
        assert(kernel_name(Kernel::Fp16Linear) == name@);
        return true;
    }
    if same_text(name, "ullis_fp16_linear_bwd") {
        assert(kernel_name(Kernel::Fp16LinearBwd) == name@);
        return true;
    }
    if same_text(name, "ullis_sign_pack_bits") {
        assert(kernel_name(Kernel::SignPackBits) == name@);
        return true;
    }
    if same_text(name, "ullis_pack_latent_bits") {
        assert(kernel_name(Kernel::PackLatentBits) == name@);
        return true;
    }
    if same_text(name, "ullis_rosa_sam_reset") {
        assert(kernel_name(Kernel::RosaSamReset) == name@);
        return true;
    }
    if same_text(name, "ullis_rosa_qkv_1bit_fwd") {
        assert(kernel_name(Kernel::RosaQkvFwd) == name@);
        return true;
    }
    if same_text(name, "ullis_rosa_qkv_1bit_bwd_e") {
        assert(kernel_name(Kernel::RosaQkvBwdE) == name@);
        return true;
    }
    if same_text(name, "ullis_cmix_relu2") {
        assert(kernel_name(Kernel::CmixRelu2) == name@);
        return true;
    }
    if same_text(name, "ullis_cmix_relu2_backward") {
        assert(kernel_name(Kernel::CmixRelu2Backward) == name@);
        return true;
    }
    if same_text(name, "ullis_residual_add") {
        assert(kernel_name(Kernel::ResidualAdd) == name@);
        return true;
    }
    if same_text(name, "ullis_streamed_cross_entropy_fp16") {
        assert(kernel_name(Kernel::StreamedCrossEntropy) == name@);
        return true;
    }
    if same_text(name, "ullis_softmax_cross_entropy") {
        assert(kernel_name(Kernel::SoftmaxCrossEntropy) == name@);
        return true;
    }
    if same_text(name, "ullis_clipped_sgd_fp16") {
        assert(kernel_name(Kernel::ClippedSgd) == name@);
        return true;
    }
    if same_text(name, "ullis_binaryconnect_sgd_fp16") {
        assert(kernel_name(Kernel::BinaryConnectSgd) == name@);
        return true;
    }
    if same_text(name, "ullis_wkv7_forward") {
        assert(kernel_name(Kernel::Wkv7Forward) == name@);
        return true;
    }
    if same_text(name, "ullis_wkv7_backward") {
        assert(kernel_name(Kernel::Wkv7Backward) == name@);
        return true;
    }
    false
}

/// A dispatch over a tensor `[batch, time, channels]`, whose every index fits
/// in 32 bits.
#[derive(Clone, Copy, Debug, PartialEq, Eq, Structural)]
pub struct MetalDispatchShape {
    pub batch: usize,
    pub time: usize,
    pub channels: usize,
}

/// What is wrong with a dispatch over these sizes.
pub open spec fn dispatch_error(batch: int, time: int, channels: int) -> Option<MetalError> {
    if batch == 0 || time == 0 || channels == 0 {
        Some(MetalError::ZeroDimension)
    } else if batch * time * channels > usize::MAX {
        Some(MetalError::ShapeOverflow)
    } else if batch * time * channels > u32::MAX {
        Some(MetalError::TooManyElements)
    } else {
        None
    }
}

proof fn lemma_product_of_three(a: int, b: int, c: int)
    requires
        a > 0,
        b > 0,
        c > 0,
    ensures
        a <= a * b <= a * b * c,
        b <= a * b,
        c <= a * b * c,
{
    assert(a <= a * b && b <= a * b) by (nonlinear_arith)
        requires
            a > 0,
            b > 0,
    ;
    let p = a * b;
    assert(p <= p * c && c <= p * c) by (nonlinear_arith)
        requires
            p > 0,
            c > 0,
    ;
}

impl MetalDispatchShape {
    /// Nothing is empty, and every index fits in 32 bits.
    pub open spec fn holds(self) -> bool {
        dispatch_error(self.batch as int, self.time as int, self.channels as int) is None
    }

    pub fn new(batch: usize, time: usize, channels: usize) -> (shape: Result<Self, MetalError>)
        ensures
            match shape {
                Ok(s) => s.batch == batch && s.time == time && s.channels == channels && s.holds(),
                Err(e) => dispatch_error(batch as int, time as int, channels as int) == Some(e),
            },
    {
        if batch == 0 || time == 0 || channels == 0 {
            return Err(MetalError::ZeroDimension);
        }
        proof {
            lemma_product_of_three(batch as int, time as int, channels as int);
        }
        let rows: usize = match batch.checked_mul(time) {
            Some(r) => r,
            None => return Err(MetalError::ShapeOverflow),
        };
        let elements: usize = match rows.checked_mul(channels) {
            Some(e) => e,
            None => return Err(MetalError::ShapeOverflow),
        };
        if elements > u32::MAX as usize {
            return Err(MetalError::TooManyElements);
        }
        Ok(MetalDispatchShape { batch, time, channels })
    }

    /// How many elements the tensor has.
    pub fn elements(self) -> (n: usize)
        requires
            self.batch * self.time <= usize::MAX,
            self.batch * self.time * self.channels <= usize::MAX,
        ensures
            n == self.batch * self.time * self.channels,
    {
        self.batch * self.time * self.channels
    }
}

/// Checked sizes of a projection.
#[derive(Clone, Copy, Debug, PartialEq, Eq, Structural)]
pub struct LinearDispatchShape {
    pub rows: usize,
    pub in_features: usize,
    pub out_features: usize,
}

/// What is wrong with a projection of these sizes.
pub open spec fn linear_error(rows: int, in_features: int, out_features: int) -> Option<
    MetalError,
> {
    match dispatch_error(rows, 1, out_features) {
        Some(e) => Some(e),
        None => if in_features == 0 || in_features > u32::MAX {
            Some(MetalError::InputWidth)
        } else {
            None
        },
    }
}

/// The words that hold `n` bits.
pub open spec fn words(n: int) -> int {
    (n + 31) / 32
}

fn words_for(n: usize) -> (w: usize)
    ensures
        w == words(n as int),
        n > 0 ==> w > 0,
        w <= n,
{
    if n % 32 == 0 {
        n / 32
    } else {
        n / 32 + 1
    }
}

impl LinearDispatchShape {
    /// Nothing is empty, and every index of the input width and of the output
    /// fits in 32 bits.
    pub open spec fn holds(self) -> bool {
        linear_error(self.rows as int, self.in_features as int, self.out_features as int) is None
    }

    pub fn new(rows: usize, in_features: usize, out_features: usize) -> (shape: Result<
        Self,
        MetalError,
    >)
        ensures
            match shape {
                Ok(s) => s.rows == rows && s.in_features == in_features && s.out_features
                    == out_features && s.holds() && s.within_32_bits(),
                Err(e) => linear_error(rows as int, in_features as int, out_features as int)
                    == Some(e),
            },
    {
        match MetalDispatchShape::new(rows, 1, out_features) {
            Ok(_) => {},
            Err(e) => return Err(e),
        }
        if in_features == 0 || in_features > u32::MAX as usize {
            return Err(MetalError::InputWidth);
        }
        proof {
            lemma_product_of_three(rows as int, 1, out_features as int);
            assert(rows * 1 * out_features == rows * out_features) by (nonlinear_arith);
        }
        Ok(LinearDispatchShape { rows, in_features, out_features })
    }

    /// The sizes, and the output as a whole, fit in 32 bits.
    pub open spec fn within_32_bits(self) -> bool {
        &&& 0 < self.rows <= u32::MAX
        &&& 0 < self.in_features <= u32::MAX
        &&& 0 < self.out_features <= u32::MAX
        &&& 0 < self.rows * self.out_features <= u32::MAX
    }

    /// The words of the packed weights.
    pub fn packed_words(self) -> (w: Result<usize, MetalError>)
        ensures
            match w {
                Ok(w) => self.in_features * self.out_features <= usize::MAX && w == words(
                    self.in_features * self.out_features,
                ),
                Err(e) => e == MetalError::WeightOverflow && self.in_features * self.out_features
                    > usize::MAX,
            },
    {
        match self.in_features.checked_mul(self.out_features) {
            Some(n) => Ok(words_for(n)),
            None => Err(MetalError::WeightOverflow),
        }
    }
}

/// Checks what a compiled pipeline reports about itself: some thread has to
/// fit into a group.
pub fn validate_metal_kernel(
    kernel_name: &str,
    shape: MetalDispatchShape,
    threads: usize,
) -> (width: Result<usize, MetalError>)
    ensures
        match width {
            Ok(w) => w == threads && threads > 0 && exists|kernel: Kernel|
                #[trigger] self::kernel_name(kernel) == kernel_name@,
            Err(MetalError::UnknownKernel) => !exists|kernel: Kernel|
                #[trigger] self::kernel_name(kernel) == kernel_name@,
            Err(MetalError::NoThreads) => threads == 0 && exists|kernel: Kernel|
                #[trigger] self::kernel_name(kernel) == kernel_name@,
            Err(_) => false,
        },
{
    if !is_kernel(kernel_name) {
        return Err(MetalError::UnknownKernel);
    }
    if threads == 0 {
        return Err(MetalError::NoThreads);
    }
    Ok(threads)
}

/// Checks what the compiled identity kernel reports about itself.
pub fn validate_metal_pipeline(shape: MetalDispatchShape, threads: usize) -> (width: Result<
    usize,
    MetalError,
>)
    ensures
        match width {
            Ok(w) => w == threads && threads > 0,
            Err(e) => e == MetalError::NoThreads && threads == 0,
        },
{
    proof {
        assert(kernel_name(Kernel::Identity) == "ullis_identity"@);
    }
    validate_metal_kernel("ullis_identity", shape, threads)
}

/// A number for a kernel.
pub fn as_u32(value: usize) -> (n: Result<u32, MetalError>)
    ensures
        match n {
            Ok(n) => n == value,
            Err(e) => e == MetalError::TooWide && value > u32::MAX,
        },
{
    if value > u32::MAX as usize {
        Err(MetalError::TooWide)
    } else {
        Ok(value as u32)
    }
}

/// How the threads of a step are laid out.
#[derive(Clone, Copy, Debug, PartialEq, Eq, Structural)]
pub enum Grid {
    /// One thread for each element.
    Line { threads: usize },
    /// Square tiles over a matrix.
    Tiles { width: usize, height: usize },
    /// One group for each output, which sums over the rows.
    Groups { groups: usize },
}

impl Grid {
    /// Some thread runs.
    pub open spec fn runs(self) -> bool {
        match self {
            Grid::Line { threads } => threads > 0,
            Grid::Tiles { width, height } => width > 0 && height > 0,
            Grid::Groups { groups } => groups > 0,
        }
    }

    /// The groups of the grid, across and down, and the threads of a group.
    /// A line is cut by what the pipeline allows in a group.
    pub fn groups(self, cap: usize) -> (launch: Result<(usize, usize, usize, usize), MetalError>)
        ensures
            match launch {
                Ok((across, down, wide, high)) => {
                    &&& self.runs()
                    &&& match self {
                        Grid::Line { threads } => across == threads && down == 1 && high == 1
                            && wide == (if cap < threads {
                            cap
                        } else {
                            threads
                        }) && cap > 0,
                        Grid::Tiles { width, height } => across == (width + LINEAR_TILE - 1) / (
                        LINEAR_TILE as int) && down == (height + LINEAR_TILE - 1) / (
                        LINEAR_TILE as int) && wide == LINEAR_TILE && high == LINEAR_TILE,
                        Grid::Groups { groups } => across == groups && down == 1 && wide
                            == SCALE_BWD_THREADS && high == 1,
                    }
                },
                Err(MetalError::Empty) => !self.runs(),
                Err(MetalError::NoThreads) => self.runs() && self is Line && cap == 0,
                Err(_) => false,
            },
    {
        match self {
            Grid::Line { threads } => {
                if threads == 0 {
                    return Err(MetalError::Empty);
                }
                let wide: usize = if cap < threads {
                    cap
                } else {
                    threads
                };
                if wide == 0 {
                    return Err(MetalError::NoThreads);
                }
                Ok((threads, 1, wide, 1))
            },
            Grid::Tiles { width, height } => {
                if width == 0 || height == 0 {
                    return Err(MetalError::Empty);
                }
                let across: usize = (width - 1) / LINEAR_TILE + 1;
                let down: usize = (height - 1) / LINEAR_TILE + 1;
                Ok((across, down, LINEAR_TILE, LINEAR_TILE))
            },
            Grid::Groups { groups } => {
                if groups == 0 {
                    return Err(MetalError::Empty);
                }
                Ok((groups, 1, SCALE_BWD_THREADS, 1))
            },
        }
    }
}

/// One kernel over some of the buffers. The buffers are bound from slot zero
/// on, the constants behind them. Real numbers among the constants are given
/// by their bit patterns.
#[derive(Debug)]
pub struct Step {
    pub kernel: Kernel,
    pub buffers: Vec<usize>,
    pub constants: Vec<u32>,
    pub grid: Grid,
}

/// A step, as specifications speak of it.
#[verifier::ext_equal]
pub struct StepView {
    pub kernel: Kernel,
    pub buffers: Seq<usize>,
    pub constants: Seq<u32>,
}

/// A step over buffers with constants.
pub open spec fn step(kernel: Kernel, buffers: Seq<usize>, constants: Seq<u32>) -> StepView {
    StepView { kernel, buffers, constants }
}

impl View for Step {
    type V = StepView;

    open spec fn view(&self) -> StepView {
        step(self.kernel, self.buffers@, self.constants@)
    }
}

/// A buffer of a plan: its length in elements, and whether it holds something
/// before the first step.
#[derive(Clone, Copy, Debug, PartialEq, Eq, Structural)]
pub struct Buffer {
    pub len: usize,
    pub filled: bool,
}

/// The steps of an operation and the buffers that they run over.
#[derive(Debug)]
pub struct Plan {
    pub buffers: Vec<Buffer>,
    pub steps: Vec<Step>,
    /// The buffers that are read back after the last step.
    pub outputs: Vec<usize>,
}

/// The buffer at slot `slot` of a step has room for `n` elements, and holds
/// something if it is read.
pub open spec fn has(
    step: StepView,
    slot: int,
    n: int,
    read: bool,
    buffers: Seq<Buffer>,
    filled: Seq<bool>,
) -> bool {
    &&& step.buffers[slot] < buffers.len()
    &&& n <= buffers[step.buffers[slot] as int].len
    &&& read ==> filled[step.buffers[slot] as int]
}

/// The numbers of a bias that may be missing.
pub open spec fn biased(has_bias: u32, n: u32) -> int {
    if has_bias == 0 {
        0
    } else {
        n as int
    }
}

/// The nodes of the matching automata: one automaton for each channel of each
/// sequence, with twice as many nodes as there are steps and a root.
pub open spec fn sam_nodes(batch: int, time: int, channels: int) -> int {
    batch * channels * (2 * time + 1)
}

/// The kernel of a step stays within its buffers and reads only what has been
/// filled.
#[verifier::opaque]
pub open spec fn safe(step: StepView, buffers: Seq<Buffer>, filled: Seq<bool>) -> bool {
    let c = step.constants;
    let b = step.buffers;
    match step.kernel {
        Kernel::Identity => {
            &&& b.len() == 2
            &&& c.len() == 1
            &&& has(step, 0, c[0] as int, true, buffers, filled)
            &&& has(step, 1, c[0] as int, false, buffers, filled)
        },
        Kernel::LayerNorm => {
            &&& b.len() == 4
            &&& c.len() == 2
            &&& has(step, 0, c[0] * c[1], true, buffers, filled)
            &&& has(step, 1, c[1] as int, true, buffers, filled)
            &&& has(step, 2, c[1] as int, true, buffers, filled)
            &&& has(step, 3, c[0] * c[1], false, buffers, filled)
        },
        Kernel::LayerNormBackward => {
            &&& b.len() == 6
            &&& c.len() == 2
            &&& has(step, 0, c[0] * c[1], true, buffers, filled)
            &&& has(step, 1, c[0] * c[1], true, buffers, filled)
            &&& has(step, 2, c[1] as int, true, buffers, filled)
            &&& has(step, 3, c[0] * c[1], false, buffers, filled)
            &&& has(step, 4, c[0] as int, false, buffers, filled)
            &&& has(step, 5, c[0] as int, false, buffers, filled)
        },
        Kernel::LayerNormParamBwd => {
            &&& b.len() == 6
            &&& c.len() == 2
            &&& has(step, 0, c[0] * c[1], true, buffers, filled)
            &&& has(step, 1, c[0] * c[1], true, buffers, filled)
            &&& has(step, 2, c[0] as int, true, buffers, filled)
            &&& has(step, 3, c[0] as int, true, buffers, filled)
            &&& has(step, 4, c[1] as int, false, buffers, filled)
            &&& has(step, 5, c[1] as int, false, buffers, filled)
        },
        Kernel::TimeShiftDelta => {
            &&& b.len() == 2
            &&& c.len() == 3
            &&& has(step, 0, c[0] * c[2], true, buffers, filled)
            &&& has(step, 1, c[0] * c[2], false, buffers, filled)
        },
        Kernel::TimeShiftMix => {
            &&& b.len() == 4
            &&& c.len() == 3
            &&& has(step, 0, c[0] * c[2], true, buffers, filled)
            &&& has(step, 1, c[2] as int, true, buffers, filled)
            &&& has(step, 2, c[0] * c[2], false, buffers, filled)
            &&& has(step, 3, c[0] * c[2], false, buffers, filled)
        },
        Kernel::TimeShiftMix3 => {
            &&& b.len() == 7
            &&& c.len() == 3
            &&& has(step, 0, c[0] * c[2], true, buffers, filled)
            &&& has(step, 1, c[2] as int, true, buffers, filled)
            &&& has(step, 2, c[2] as int, true, buffers, filled)
            &&& has(step, 3, c[2] as int, true, buffers, filled)
            &&& has(step, 4, c[0] * c[2], false, buffers, filled)
            &&& has(step, 5, c[0] * c[2], false, buffers, filled)
            &&& has(step, 6, c[0] * c[2], false, buffers, filled)
        },
        Kernel::BinaryLinear => {
            &&& b.len() == 5
            &&& c.len() == 4
            &&& has(step, 0, c[0] * c[1], true, buffers, filled)
            &&& has(step, 1, words(c[1] * c[2]), true, buffers, filled)
            &&& has(step, 2, c[2] as int, true, buffers, filled)
            &&& has(step, 3, biased(c[3], c[2]), true, buffers, filled)
            &&& has(step, 4, c[0] * c[2], false, buffers, filled)
        },
        Kernel::BinaryLinearInputBwd => {
            &&& b.len() == 4
            &&& c.len() == 3
            &&& has(step, 0, c[0] * c[2], true, buffers, filled)
            &&& has(step, 1, words(c[1] * c[2]), true, buffers, filled)
            &&& has(step, 2, c[2] as int, true, buffers, filled)
            &&& has(step, 3, c[0] * c[1], false, buffers, filled)
        },
        Kernel::BinaryLinearScaleBwd => {
            &&& b.len() == 5
            &&& c.len() == 4
            &&& has(step, 0, c[0] * c[1], true, buffers, filled)
            &&& has(step, 1, c[0] * c[2], true, buffers, filled)
            &&& has(step, 2, words(c[1] * c[2]), true, buffers, filled)
            &&& has(step, 3, c[2] as int, false, buffers, filled)
            &&& has(step, 4, c[2] as int, false, buffers, filled)
        },
        Kernel::BinaryLinearWeightBwd => {
            &&& b.len() == 4
            &&& c.len() == 3
            &&& has(step, 0, c[0] * c[1], true, buffers, filled)
            &&& has(step, 1, c[0] * c[2], true, buffers, filled)
            &&& has(step, 2, c[2] as int, true, buffers, filled)
            &&& has(step, 3, c[1] * c[2], false, buffers, filled)
        },
        Kernel::BinaryLinearScaleBwdFromOutput => {
            &&& b.len() == 6
            &&& c.len() == 3
            &&& has(step, 0, c[0] * c[1], true, buffers, filled)
            &&& has(step, 1, c[0] * c[1], true, buffers, filled)
            &&& has(step, 2, c[1] as int, true, buffers, filled)
            &&& has(step, 3, biased(c[2], c[1]), true, buffers, filled)
            &&& has(step, 4, c[1] as int, false, buffers, filled)
            &&& has(step, 5, c[1] as int, false, buffers, filled)
        },
        Kernel::BinaryLinearLatentSgd => {
            &&& b.len() == 6
            &&& c.len() == 4
            &&& has(step, 0, c[1] * c[2], true, buffers, filled)
            &&& has(step, 1, words(c[1] * c[2]), false, buffers, filled)
            &&& has(step, 2, c[0] * c[1], true, buffers, filled)
            &&& has(step, 3, c[0] * c[2], true, buffers, filled)
            &&& has(step, 4, c[2] as int, true, buffers, filled)
            &&& has(step, 5, c[1] * c[2], false, buffers, filled)
        },
        Kernel::Fp16Linear => {
            &&& b.len() == 3
            &&& c.len() == 3
            &&& has(step, 0, c[0] * c[1], true, buffers, filled)
            &&& has(step, 1, c[1] * c[2], true, buffers, filled)
            &&& has(step, 2, c[0] * c[2], false, buffers, filled)
        },
        Kernel::Fp16LinearBwd => {
            &&& b.len() == 5
            &&& c.len() == 4
            &&& has(step, 0, c[0] * c[1], true, buffers, filled)
            &&& has(step, 1, c[0] * c[2], true, buffers, filled)
            &&& has(step, 2, c[1] * c[2], true, buffers, filled)
            &&& has(step, 3, c[0] * c[1], false, buffers, filled)
            &&& has(step, 4, c[1] * c[2], false, buffers, filled)
        },
        Kernel::SignPackBits => {
            &&& b.len() == 2
            &&& c.len() == 1
            &&& has(step, 0, c[0] as int, true, buffers, filled)
            &&& has(step, 1, words(c[0] as int), false, buffers, filled)
        },
        Kernel::PackLatentBits => {
            &&& b.len() == 2
            &&& c.len() == 1
            &&& has(step, 0, c[0] as int, true, buffers, filled)
            &&& has(step, 1, words(c[0] as int), false, buffers, filled)
        },
        Kernel::RosaSamReset => {
            &&& b.len() == 5
            &&& c.len() == 1
            &&& has(step, 0, c[0] as int, false, buffers, filled)
            &&& has(step, 1, c[0] as int, false, buffers, filled)
            &&& has(step, 2, c[0] as int, false, buffers, filled)
            &&& has(step, 3, c[0] as int, false, buffers, filled)
            &&& has(step, 4, c[0] as int, false, buffers, filled)
        },
        Kernel::RosaQkvFwd => {
            &&& b.len() == 11
            &&& c.len() == 3
            &&& has(step, 0, words(c[0] * c[1] * c[2]), true, buffers, filled)
            &&& has(step, 1, words(c[0] * c[1] * c[2]), true, buffers, filled)
            &&& has(step, 2, words(c[0] * c[1] * c[2]), true, buffers, filled)
            &&& has(step, 3, c[2] as int, true, buffers, filled)
            &&& has(
                step,
                4,
                sam_nodes(c[0] as int, c[1] as int, c[2] as int),
                true,
                buffers,
                filled,
            )
            &&& has(
                step,
                5,
                sam_nodes(c[0] as int, c[1] as int, c[2] as int),
                true,
                buffers,
                filled,
            )
            &&& has(
                step,
                6,
                sam_nodes(c[0] as int, c[1] as int, c[2] as int),
                true,
                buffers,
                filled,
            )
            &&& has(
                step,
                7,
                sam_nodes(c[0] as int, c[1] as int, c[2] as int),
                true,
                buffers,
                filled,
            )
            &&& has(
                step,
                8,
                sam_nodes(c[0] as int, c[1] as int, c[2] as int),
                true,
                buffers,
                filled,
            )
            &&& has(step, 9, c[0] * c[1] * c[2], false, buffers, filled)
            &&& has(step, 10, c[0] * c[1] * c[2], false, buffers, filled)
        },
        Kernel::RosaQkvBwdE => {
            &&& b.len() == 3
            &&& c.len() == 3
            &&& has(step, 0, c[0] * c[1] * c[2], true, buffers, filled)
            &&& has(step, 1, c[0] * c[1] * c[2], true, buffers, filled)
            &&& has(step, 2, c[2] as int, false, buffers, filled)
        },
        Kernel::CmixRelu2 => {
            &&& b.len() == 2
            &&& c.len() == 1
            &&& has(step, 0, c[0] as int, true, buffers, filled)
            &&& has(step, 1, c[0] as int, false, buffers, filled)
        },
        Kernel::CmixRelu2Backward => {
            &&& b.len() == 3
            &&& c.len() == 1
            &&& has(step, 0, c[0] as int, true, buffers, filled)
            &&& has(step, 1, c[0] as int, true, buffers, filled)
            &&& has(step, 2, c[0] as int, false, buffers, filled)
        },
        Kernel::ResidualAdd => {
            &&& b.len() == 3
            &&& c.len() == 1
            &&& has(step, 0, c[0] as int, true, buffers, filled)
            &&& has(step, 1, c[0] as int, true, buffers, filled)
            &&& has(step, 2, c[0] as int, false, buffers, filled)
        },
        Kernel::StreamedCrossEntropy => {
            &&& b.len() == 8
            &&& c.len() == 7
            &&& has(step, 0, c[0] * c[2], true, buffers, filled)
            &&& has(step, 1, words(c[3] * c[2]), true, buffers, filled)
            &&& has(step, 2, c[3] as int, true, buffers, filled)
            &&& has(step, 3, c[0] as int, true, buffers, filled)
            &&& has(step, 4, c[0] * c[2], false, buffers, filled)
            &&& has(step, 5, c[0] as int, false, buffers, filled)
            &&& has(step, 6, c[3] as int, true, buffers, filled)
            &&& has(step, 7, c[0] * c[3], false, buffers, filled)
        },
        Kernel::SoftmaxCrossEntropy => {
            &&& b.len() == 4
            &&& c.len() == 6
            &&& has(step, 0, c[0] * c[2], true, buffers, filled)
            &&& has(step, 1, c[0] as int, true, buffers, filled)
            &&& has(step, 2, c[0] as int, false, buffers, filled)
            &&& has(step, 3, c[0] * c[2], false, buffers, filled)
        },
        Kernel::ClippedSgd => {
            &&& b.len() == 3
            &&& c.len() == 2
            &&& has(step, 0, c[1] as int, true, buffers, filled)
            &&& has(step, 1, c[1] as int, true, buffers, filled)
            &&& has(step, 2, c[1] as int, true, buffers, filled)
        },
        Kernel::BinaryConnectSgd => {
            &&& b.len() == 3
            &&& c.len() == 3
            &&& has(step, 0, c[1] as int, true, buffers, filled)
            &&& has(step, 1, c[1] as int, true, buffers, filled)
            &&& has(step, 2, c[1] as int, true, buffers, filled)
        },
        // Their groups are as wide as a head, which no constant of a step tells.
        Kernel::Wkv7Forward | Kernel::Wkv7Backward => false,
    }
}

/// Which buffers hold something after a step.
#[verifier::opaque]
pub open spec fn after(step: StepView, filled: Seq<bool>) -> Seq<bool> {
    let b = step.buffers;
    let c = step.constants;
    match step.kernel {
        Kernel::Identity => filled.update(b[1] as int, true),
        Kernel::LayerNorm => filled.update(b[3] as int, true),
        Kernel::LayerNormBackward => filled
            .update(b[3] as int, true)
            .update(b[4] as int, true)
            .update(b[5] as int, true),
        Kernel::LayerNormParamBwd => filled.update(b[4] as int, true).update(b[5] as int, true),
        Kernel::TimeShiftDelta => filled.update(b[1] as int, true),
        Kernel::TimeShiftMix => filled.update(b[2] as int, true).update(b[3] as int, true),
        Kernel::TimeShiftMix3 => filled
            .update(b[4] as int, true)
            .update(b[5] as int, true)
            .update(b[6] as int, true),
        Kernel::BinaryLinear => filled.update(b[4] as int, true),
        Kernel::BinaryLinearInputBwd => filled.update(b[3] as int, true),
        Kernel::BinaryLinearScaleBwd => filled.update(b[3] as int, true).update(b[4] as int, true),
        Kernel::BinaryLinearWeightBwd => filled.update(b[3] as int, true),
        Kernel::BinaryLinearScaleBwdFromOutput => filled
            .update(b[4] as int, true)
            .update(b[5] as int, true),
        Kernel::BinaryLinearLatentSgd => filled
            .update(b[0] as int, true)
            .update(b[1] as int, true)
            .update(b[5] as int, true),
        Kernel::Fp16Linear => filled.update(b[2] as int, true),
        Kernel::Fp16LinearBwd => if c[3] == 0 {
            filled.update(b[3] as int, true)
        } else {
            filled.update(b[4] as int, true)
        },
        Kernel::SignPackBits => filled.update(b[1] as int, true),
        Kernel::PackLatentBits => filled.update(b[1] as int, true),
        Kernel::RosaSamReset => filled
            .update(b[0] as int, true)
            .update(b[1] as int, true)
            .update(b[2] as int, true)
            .update(b[3] as int, true)
            .update(b[4] as int, true),
        Kernel::RosaQkvFwd => filled
            .update(b[4] as int, true)
            .update(b[5] as int, true)
            .update(b[6] as int, true)
            .update(b[7] as int, true)
            .update(b[8] as int, true)
            .update(b[9] as int, true)
            .update(b[10] as int, true),
        Kernel::RosaQkvBwdE => filled.update(b[2] as int, true),
        Kernel::CmixRelu2 => filled.update(b[1] as int, true),
        Kernel::CmixRelu2Backward => filled.update(b[2] as int, true),
        Kernel::ResidualAdd => filled.update(b[2] as int, true),
        Kernel::StreamedCrossEntropy => filled
            .update(b[4] as int, true)
            .update(b[5] as int, true)
            .update(b[6] as int, true)
            .update(b[7] as int, true),
        Kernel::SoftmaxCrossEntropy => filled.update(b[2] as int, true).update(b[3] as int, true),
        Kernel::ClippedSgd => filled.update(b[0] as int, true).update(b[1] as int, true),
        Kernel::BinaryConnectSgd => filled.update(b[0] as int, true).update(b[1] as int, true),
        Kernel::Wkv7Forward | Kernel::Wkv7Backward => filled,
    }
}

/// The grid of a step.
pub open spec fn grid_of(step: StepView) -> Grid {
    let c = step.constants;
    match step.kernel {
        Kernel::Identity => Grid::Line { threads: c[0] as usize },
        Kernel::LayerNorm => Grid::Line { threads: c[0] as usize },
        Kernel::LayerNormBackward => Grid::Line { threads: c[0] as usize },
        Kernel::LayerNormParamBwd => Grid::Groups { groups: c[1] as usize },
        Kernel::TimeShiftDelta => Grid::Line { threads: (c[0] * c[2]) as usize },
        Kernel::TimeShiftMix => Grid::Line { threads: (c[0] * c[2]) as usize },
        Kernel::TimeShiftMix3 => Grid::Line { threads: (c[0] * c[2]) as usize },
        Kernel::BinaryLinear => Grid::Tiles {
            width: c[2] as usize,
            height: c[0] as usize,
        },
        Kernel::BinaryLinearInputBwd => Grid::Tiles {
            width: c[1] as usize,
            height: c[0] as usize,
        },
        Kernel::BinaryLinearScaleBwd => Grid::Groups { groups: c[2] as usize },
        Kernel::BinaryLinearWeightBwd => Grid::Tiles {
            width: c[1] as usize,
            height: c[2] as usize,
        },
        Kernel::BinaryLinearScaleBwdFromOutput => Grid::Groups { groups: c[1] as usize },
        Kernel::BinaryLinearLatentSgd => Grid::Line { threads: words(c[1] * c[2]) as usize },
        Kernel::Fp16Linear => Grid::Tiles {
            width: c[2] as usize,
            height: c[0] as usize,
        },
        Kernel::Fp16LinearBwd => Grid::Tiles {
            width: c[1] as usize,
            height: if c[3] == 0 {
                c[0] as usize
            } else {
                c[2] as usize
            },
        },
        Kernel::SignPackBits => Grid::Line { threads: words(c[0] as int) as usize },
        Kernel::PackLatentBits => Grid::Line { threads: words(c[0] as int) as usize },
        Kernel::RosaSamReset => Grid::Line { threads: c[0] as usize },
        Kernel::RosaQkvFwd => Grid::Line { threads: (c[0] * c[2]) as usize },
        Kernel::RosaQkvBwdE => Grid::Line { threads: c[2] as usize },
        Kernel::CmixRelu2 => Grid::Line { threads: c[0] as usize },
        Kernel::CmixRelu2Backward => Grid::Line { threads: c[0] as usize },
        Kernel::ResidualAdd => Grid::Line { threads: c[0] as usize },
        Kernel::StreamedCrossEntropy => Grid::Line { threads: c[0] as usize },
        Kernel::SoftmaxCrossEntropy => Grid::Line { threads: c[0] as usize },
        Kernel::ClippedSgd => Grid::Line { threads: c[1] as usize },
        Kernel::BinaryConnectSgd => Grid::Line { threads: c[1] as usize },
        Kernel::Wkv7Forward | Kernel::Wkv7Backward => Grid::Groups { groups: 0 },
    }
}

impl Plan {
    /// Which buffers hold something before the step of that number.
    pub open spec fn filled_before(self, n: int) -> Seq<bool>
        decreases n,
    {
        if n <= 0 {
            Seq::new(self.buffers@.len(), |i: int| self.buffers@[i].filled)
        } else {
            after(self.steps@[n - 1]@, self.filled_before(n - 1))
        }
    }

    /// Which buffers hold something after all the steps.
    #[verifier::opaque]
    pub open spec fn filled(self) -> Seq<bool> {
        self.filled_before(self.steps@.len() as int)
    }

    /// No step reaches past its buffers or reads what nothing has filled, and
    /// each has a thread to run.
    #[verifier::opaque]
    pub open spec fn sound(self) -> bool {
        forall|i: int|
            0 <= i < self.steps@.len() ==> {
                &&& safe((#[trigger] self.steps@[i])@, self.buffers@, self.filled_before(i))
                &&& self.steps@[i].grid == grid_of(self.steps@[i]@)
                &&& self.steps@[i].grid.runs()
            }
    }

    /// The steps of the plan.
    #[verifier::opaque]
    pub open spec fn listed(self) -> Seq<StepView> {
        Seq::new(self.steps@.len(), |i: int| self.steps@[i]@)
    }

    /// The lengths of the buffers of the plan.
    pub open spec fn lens(self) -> Seq<int> {
        Seq::new(self.buffers@.len(), |i: int| self.buffers@[i].len as int)
    }

    /// What is read back in the end has been filled.
    #[verifier::opaque]
    pub open spec fn answers(self) -> bool {
        forall|i: int|
            0 <= i < self.outputs@.len() ==> (#[trigger] self.outputs@[i]) < self.buffers@.len()
                && self.holds(self.outputs@[i])
    }

    /// The buffer has room for `n` elements.
    pub open spec fn room(self, buffer: usize, n: int) -> bool {
        buffer < self.buffers@.len() && n <= self.buffers@[buffer as int].len
    }

    /// The buffer holds something after all the steps.
    pub open spec fn holds(self, buffer: usize) -> bool {
        self.filled()[buffer as int]
    }

    /// A plan over these buffers, without any step.
    fn over(buffers: Vec<Buffer>) -> (plan: Self)
        ensures
            plan.buffers@ == buffers@,
            plan.outputs@ == Seq::<usize>::empty(),
            plan.listed() == Seq::<StepView>::empty(),
            plan.sound(),
            plan.answers(),
            forall|i: usize|
                i < buffers@.len() ==> #[trigger] plan.holds(i) == buffers@[i as int].filled,
    {
        let plan = Plan { buffers, steps: Vec::new(), outputs: Vec::new() };
        proof {
            reveal(Plan::listed);
            reveal(Plan::sound);
            reveal(Plan::answers);
            reveal(Plan::filled);
            assert(plan.listed() =~= Seq::<StepView>::empty());
        }
        plan
    }

    /// Reads a buffer back after the last step.
    fn read(&mut self, index: usize)
        requires
            old(self).sound(),
            old(self).answers(),
            index < old(self).buffers@.len(),
            old(self).holds(index),
        ensures
            final(self).sound(),
            final(self).answers(),
            final(self).buffers@ == old(self).buffers@,
            final(self).listed() == old(self).listed(),
            final(self).outputs@ == old(self).outputs@.push(index),
            forall|i: usize| #[trigger] final(self).holds(i) == old(self).holds(i),
    {
        let ghost before = *self;
        self.outputs.push(index);
        proof {
            reveal(Plan::listed);
            reveal(Plan::sound);
            reveal(Plan::answers);
            reveal(Plan::filled);
            assert forall|i: int| 0 <= i <= self.steps@.len() implies #[trigger] self.filled_before(
                i,
            ) == before.filled_before(i) by {
                lemma_filled_before(before, *self, i);
            }
            assert(self.listed() =~= before.listed());
        }
    }

    fn add_step(&mut self, kernel: Kernel, buffers: Vec<usize>, constants: Vec<u32>)
        requires
            old(self).sound(),
            safe(step(kernel, buffers@, constants@), old(self).buffers@, old(self).filled()),
            grid_of(step(kernel, buffers@, constants@)).runs(),
            constants@.len() == constants_of(kernel),
            grid_fits(kernel, constants@),
            old(self).outputs@.len() == 0,
        ensures
            final(self).sound(),
            final(self).answers(),
            final(self).outputs@ == old(self).outputs@,
            final(self).buffers@ == old(self).buffers@,
            final(self).listed() == old(self).listed().push(step(kernel, buffers@, constants@)),
            final(self).filled() == after(
                step(kernel, buffers@, constants@),
                old(self).filled(),
            ),
    {
        let grid = step_grid(kernel, &constants);
        let ghost before = *self;
        let ghost n = self.steps@.len() as int;
        self.steps.push(Step { kernel, buffers, constants, grid });
        proof {
            reveal(Plan::listed);
            reveal(Plan::sound);
            reveal(Plan::answers);
            reveal(Plan::filled);
            assert forall|i: int| 0 <= i <= n implies #[trigger] self.filled_before(i)
                == before.filled_before(i) by {
                lemma_filled_before(before, *self, i);
            }
            assert forall|i: int| 0 <= i < self.steps@.len() implies {
                &&& safe((#[trigger] self.steps@[i])@, self.buffers@, self.filled_before(i))
                &&& self.steps@[i].grid == grid_of(self.steps@[i]@)
                &&& self.steps@[i].grid.runs()
            } by {
                assert(self.filled_before(i) == before.filled_before(i));
                if i < n {
                    assert(self.steps@[i] == before.steps@[i]);
                }
            }
            assert(self.listed() =~= before.listed().push(step(kernel, buffers@, constants@)));
            assert(self.filled_before(n) == before.filled_before(n));
        }
    }
}

proof fn lemma_filled_before(a: Plan, b: Plan, n: int)
    requires
        a.buffers@ == b.buffers@,
        0 <= n <= a.steps@.len() <= b.steps@.len(),
        forall|i: int| 0 <= i < a.steps@.len() ==> a.steps@[i] == b.steps@[i],
    ensures
        a.filled_before(n) == b.filled_before(n),
    decreases n,
{
    if n > 0 {
        lemma_filled_before(a, b, n - 1);
    } else {
        assert(a.filled_before(0) =~= b.filled_before(0));
    }
}

proof fn lemma_filled_len(plan: Plan)
    requires
        plan.sound(),
    ensures
        plan.filled().len() == plan.buffers@.len(),
{
    reveal(Plan::filled);
    lemma_filled_before_len(plan, plan.steps@.len() as int);
}

proof fn lemma_filled_before_len(plan: Plan, n: int)
    requires
        plan.sound(),
        n <= plan.steps@.len(),
    ensures
        plan.filled_before(n).len() == plan.buffers@.len(),
    decreases n,
{
    if n > 0 {
        reveal(after);
        reveal(safe);
        reveal(Plan::sound);
        lemma_filled_before_len(plan, n - 1);
        assert(safe(plan.steps@[n - 1]@, plan.buffers@, plan.filled_before(n - 1)));
    }
}

/// A buffer that the caller fills.
fn given(len: usize) -> (buffer: Buffer)
    ensures
        buffer == (Buffer { len, filled: true }),
{
    Buffer { len, filled: true }
}

/// A buffer that some step has to fill.
fn scratch(len: usize) -> (buffer: Buffer)
    ensures
        buffer == (Buffer { len, filled: false }),
{
    Buffer { len, filled: false }
}

/// How many constants a kernel takes.
pub open spec fn constants_of(kernel: Kernel) -> int {
    match kernel {
        Kernel::Identity => 1,
        Kernel::LayerNorm => 2,
        Kernel::LayerNormBackward => 2,
        Kernel::LayerNormParamBwd => 2,
        Kernel::TimeShiftDelta => 3,
        Kernel::TimeShiftMix => 3,
        Kernel::TimeShiftMix3 => 3,
        Kernel::BinaryLinear => 4,
        Kernel::BinaryLinearInputBwd => 3,
        Kernel::BinaryLinearScaleBwd => 4,
        Kernel::BinaryLinearWeightBwd => 3,
        Kernel::BinaryLinearScaleBwdFromOutput => 3,
        Kernel::BinaryLinearLatentSgd => 4,
        Kernel::Fp16Linear => 3,
        Kernel::Fp16LinearBwd => 4,
        Kernel::SignPackBits => 1,
        Kernel::PackLatentBits => 1,
        Kernel::RosaSamReset => 1,
        Kernel::RosaQkvFwd => 3,
        Kernel::RosaQkvBwdE => 3,
        Kernel::CmixRelu2 => 1,
        Kernel::CmixRelu2Backward => 1,
        Kernel::ResidualAdd => 1,
        Kernel::StreamedCrossEntropy => 7,
        Kernel::SoftmaxCrossEntropy => 6,
        Kernel::ClippedSgd => 2,
        Kernel::BinaryConnectSgd => 3,
        Kernel::Wkv7Forward => 2,
        Kernel::Wkv7Backward => 2,
    }
}

/// The threads of a step can be counted.
pub open spec fn grid_fits(kernel: Kernel, c: Seq<u32>) -> bool {
    match kernel {
        Kernel::TimeShiftDelta => c[0] * c[2] <= usize::MAX,
        Kernel::TimeShiftMix => c[0] * c[2] <= usize::MAX,
        Kernel::TimeShiftMix3 => c[0] * c[2] <= usize::MAX,
        Kernel::BinaryLinearLatentSgd => c[1] * c[2] <= usize::MAX,
        Kernel::RosaQkvFwd => c[0] * c[2] <= usize::MAX,
        _ => true,
    }
}

fn step_grid(kernel: Kernel, c: &Vec<u32>) -> (grid: Grid)
    requires
        c@.len() == constants_of(kernel),
        grid_fits(kernel, c@),
    ensures
        forall|b: Seq<usize>| grid == #[trigger] grid_of(step(kernel, b, c@)),
{
    match kernel {
        Kernel::Identity => Grid::Line { threads: c[0] as usize },
        Kernel::LayerNorm => Grid::Line { threads: c[0] as usize },
        Kernel::LayerNormBackward => Grid::Line { threads: c[0] as usize },
        Kernel::LayerNormParamBwd => Grid::Groups { groups: c[1] as usize },
        Kernel::TimeShiftDelta => Grid::Line { threads: c[0] as usize * c[2] as usize },
        Kernel::TimeShiftMix => Grid::Line { threads: c[0] as usize * c[2] as usize },
        Kernel::TimeShiftMix3 => Grid::Line { threads: c[0] as usize * c[2] as usize },
        Kernel::BinaryLinear => Grid::Tiles {
            width: c[2] as usize,
            height: c[0] as usize,
        },
        Kernel::BinaryLinearInputBwd => Grid::Tiles {
            width: c[1] as usize,
            height: c[0] as usize,
        },
        Kernel::BinaryLinearScaleBwd => Grid::Groups { groups: c[2] as usize },
        Kernel::BinaryLinearWeightBwd => Grid::Tiles {
            width: c[1] as usize,
            height: c[2] as usize,
        },
        Kernel::BinaryLinearScaleBwdFromOutput => Grid::Groups { groups: c[1] as usize },
        Kernel::BinaryLinearLatentSgd => Grid::Line {
            threads: words_for(c[1] as usize * c[2] as usize),
        },
        Kernel::Fp16Linear => Grid::Tiles {
            width: c[2] as usize,
            height: c[0] as usize,
        },
        Kernel::Fp16LinearBwd => Grid::Tiles {
            width: c[1] as usize,
            height: if c[3] == 0 {
                c[0] as usize
            } else {
                c[2] as usize
            },
        },
        Kernel::SignPackBits => Grid::Line { threads: words_for(c[0] as usize) },
        Kernel::PackLatentBits => Grid::Line { threads: words_for(c[0] as usize) },
        Kernel::RosaSamReset => Grid::Line { threads: c[0] as usize },
        Kernel::RosaQkvFwd => Grid::Line { threads: c[0] as usize * c[2] as usize },
        Kernel::RosaQkvBwdE => Grid::Line { threads: c[2] as usize },
        Kernel::CmixRelu2 => Grid::Line { threads: c[0] as usize },
        Kernel::CmixRelu2Backward => Grid::Line { threads: c[0] as usize },
        Kernel::ResidualAdd => Grid::Line { threads: c[0] as usize },
        Kernel::StreamedCrossEntropy => Grid::Line { threads: c[0] as usize },
        Kernel::SoftmaxCrossEntropy => Grid::Line { threads: c[0] as usize },
        Kernel::ClippedSgd => Grid::Line { threads: c[1] as usize },
        Kernel::BinaryConnectSgd => Grid::Line { threads: c[1] as usize },
        Kernel::Wkv7Forward | Kernel::Wkv7Backward => Grid::Groups { groups: 0 },
    }
}

impl Plan {
    fn identity(&mut self, b0: usize, b1: usize, c0: u32)
        requires
            old(self).sound(),
            old(self).outputs@.len() == 0,
            old(self).room(b0, c0 as int),
            old(self).holds(b0),
            old(self).room(b1, c0 as int),
            c0 > 0,
        ensures
            final(self).sound(),
            final(self).answers(),
            final(self).outputs@ == old(self).outputs@,
            final(self).buffers@ == old(self).buffers@,
            final(self).listed() == old(self).listed().push(
                step(
                    Kernel::Identity,
                    seq![b0, b1],
                    seq![c0],
                ),
            ),
            final(self).holds(b1),
            forall|i: usize|
                i < old(self).buffers@.len() && old(self).holds(i)
                    ==> #[trigger] final(self).holds(i),
    {
        let buffers: Vec<usize> = vec![b0, b1];
        let constants: Vec<u32> = vec![c0];
        proof {
            reveal(safe);
            reveal(after);
            assert(buffers@ =~= seq![b0, b1]);
            assert(constants@ =~= seq![c0]);
            lemma_filled_len(*self);
        }
        self.add_step(Kernel::Identity, buffers, constants);
    }

    fn layer_norm(&mut self, b0: usize, b1: usize, b2: usize, b3: usize, c0: u32, c1: u32)
        requires
            old(self).sound(),
            old(self).outputs@.len() == 0,
            old(self).room(b0, c0 * c1),
            old(self).holds(b0),
            old(self).room(b1, c1 as int),
            old(self).holds(b1),
            old(self).room(b2, c1 as int),
            old(self).holds(b2),
            old(self).room(b3, c0 * c1),
            c0 > 0,
        ensures
            final(self).sound(),
            final(self).answers(),
            final(self).outputs@ == old(self).outputs@,
            final(self).buffers@ == old(self).buffers@,
            final(self).listed() == old(self).listed().push(
                step(
                    Kernel::LayerNorm,
                    seq![b0, b1, b2, b3],
                    seq![c0, c1],
                ),
            ),
            final(self).holds(b3),
            forall|i: usize|
                i < old(self).buffers@.len() && old(self).holds(i)
                    ==> #[trigger] final(self).holds(i),
    {
        let buffers: Vec<usize> = vec![b0, b1, b2, b3];
        let constants: Vec<u32> = vec![c0, c1];
        proof {
            reveal(safe);
            reveal(after);
            assert(buffers@ =~= seq![b0, b1, b2, b3]);
            assert(constants@ =~= seq![c0, c1]);
            lemma_filled_len(*self);
        }
        self.add_step(Kernel::LayerNorm, buffers, constants);
    }

    fn layer_norm_backward(
        &mut self,
        b0: usize,
        b1: usize,
        b2: usize,
        b3: usize,
        b4: usize,
        b5: usize,
        c0: u32,
        c1: u32,
    )
        requires
            old(self).sound(),
            old(self).outputs@.len() == 0,
            old(self).room(b0, c0 * c1),
            old(self).holds(b0),
            old(self).room(b1, c0 * c1),
            old(self).holds(b1),
            old(self).room(b2, c1 as int),
            old(self).holds(b2),
            old(self).room(b3, c0 * c1),
            old(self).room(b4, c0 as int),
            old(self).room(b5, c0 as int),
            c0 > 0,
        ensures
            final(self).sound(),
            final(self).answers(),
            final(self).outputs@ == old(self).outputs@,
            final(self).buffers@ == old(self).buffers@,
            final(self).listed() == old(self).listed().push(
                step(
                    Kernel::LayerNormBackward,
                    seq![b0, b1, b2, b3, b4, b5],
                    seq![c0, c1],
                ),
            ),
            final(self).holds(b3),
            final(self).holds(b4),
            final(self).holds(b5),
            forall|i: usize|
                i < old(self).buffers@.len() && old(self).holds(i)
                    ==> #[trigger] final(self).holds(i),
    {
        let buffers: Vec<usize> = vec![b0, b1, b2, b3, b4, b5];
        let constants: Vec<u32> = vec![c0, c1];
        proof {
            reveal(safe);
            reveal(after);
            assert(buffers@ =~= seq![b0, b1, b2, b3, b4, b5]);
            assert(constants@ =~= seq![c0, c1]);
            lemma_filled_len(*self);
        }
        self.add_step(Kernel::LayerNormBackward, buffers, constants);
    }

    fn layer_norm_param_bwd(
        &mut self,
        b0: usize,
        b1: usize,
        b2: usize,
        b3: usize,
        b4: usize,
        b5: usize,
        c0: u32,
        c1: u32,
    )
        requires
            old(self).sound(),
            old(self).outputs@.len() == 0,
            old(self).room(b0, c0 * c1),
            old(self).holds(b0),
            old(self).room(b1, c0 * c1),
            old(self).holds(b1),
            old(self).room(b2, c0 as int),
            old(self).holds(b2),
            old(self).room(b3, c0 as int),
            old(self).holds(b3),
            old(self).room(b4, c1 as int),
            old(self).room(b5, c1 as int),
            c1 > 0,
        ensures
            final(self).sound(),
            final(self).answers(),
            final(self).outputs@ == old(self).outputs@,
            final(self).buffers@ == old(self).buffers@,
            final(self).listed() == old(self).listed().push(
                step(
                    Kernel::LayerNormParamBwd,
                    seq![b0, b1, b2, b3, b4, b5],
                    seq![c0, c1],
                ),
            ),
            final(self).holds(b4),
            final(self).holds(b5),
            forall|i: usize|
                i < old(self).buffers@.len() && old(self).holds(i)
                    ==> #[trigger] final(self).holds(i),
    {
        let buffers: Vec<usize> = vec![b0, b1, b2, b3, b4, b5];
        let constants: Vec<u32> = vec![c0, c1];
        proof {
            reveal(safe);
            reveal(after);
            assert(buffers@ =~= seq![b0, b1, b2, b3, b4, b5]);
            assert(constants@ =~= seq![c0, c1]);
            lemma_filled_len(*self);
        }
        self.add_step(Kernel::LayerNormParamBwd, buffers, constants);
    }

    fn time_shift_delta(&mut self, b0: usize, b1: usize, c0: u32, c1: u32, c2: u32)
        requires
            old(self).sound(),
            old(self).outputs@.len() == 0,
            old(self).room(b0, c0 * c2),
            old(self).holds(b0),
            old(self).room(b1, c0 * c2),
            0 < c0 * c2 <= usize::MAX,
        ensures
            final(self).sound(),
            final(self).answers(),
            final(self).outputs@ == old(self).outputs@,
            final(self).buffers@ == old(self).buffers@,
            final(self).listed() == old(self).listed().push(
                step(
                    Kernel::TimeShiftDelta,
                    seq![b0, b1],
                    seq![c0, c1, c2],
                ),
            ),
            final(self).holds(b1),
            forall|i: usize|
                i < old(self).buffers@.len() && old(self).holds(i)
                    ==> #[trigger] final(self).holds(i),
    {
        let buffers: Vec<usize> = vec![b0, b1];
        let constants: Vec<u32> = vec![c0, c1, c2];
        proof {
            reveal(safe);
            reveal(after);
            assert(buffers@ =~= seq![b0, b1]);
            assert(constants@ =~= seq![c0, c1, c2]);
            lemma_filled_len(*self);
        }
        self.add_step(Kernel::TimeShiftDelta, buffers, constants);
    }

    fn time_shift_mix(
        &mut self,
        b0: usize,
        b1: usize,
        b2: usize,
        b3: usize,
        c0: u32,
        c1: u32,
        c2: u32,
    )
        requires
            old(self).sound(),
            old(self).outputs@.len() == 0,
            old(self).room(b0, c0 * c2),
            old(self).holds(b0),
            old(self).room(b1, c2 as int),
            old(self).holds(b1),
            old(self).room(b2, c0 * c2),
            old(self).room(b3, c0 * c2),
            0 < c0 * c2 <= usize::MAX,
        ensures
            final(self).sound(),
            final(self).answers(),
            final(self).outputs@ == old(self).outputs@,
            final(self).buffers@ == old(self).buffers@,
            final(self).listed() == old(self).listed().push(
                step(
                    Kernel::TimeShiftMix,
                    seq![b0, b1, b2, b3],
                    seq![c0, c1, c2],
                ),
            ),
            final(self).holds(b2),
            final(self).holds(b3),
            forall|i: usize|
                i < old(self).buffers@.len() && old(self).holds(i)
                    ==> #[trigger] final(self).holds(i),
    {
        let buffers: Vec<usize> = vec![b0, b1, b2, b3];
        let constants: Vec<u32> = vec![c0, c1, c2];
        proof {
            reveal(safe);
            reveal(after);
            assert(buffers@ =~= seq![b0, b1, b2, b3]);
            assert(constants@ =~= seq![c0, c1, c2]);
            lemma_filled_len(*self);
        }
        self.add_step(Kernel::TimeShiftMix, buffers, constants);
    }

    fn time_shift_mix3(
        &mut self,
        b0: usize,
        b1: usize,
        b2: usize,
        b3: usize,
        b4: usize,
        b5: usize,
        b6: usize,
        c0: u32,
        c1: u32,
        c2: u32,
    )
        requires
            old(self).sound(),
            old(self).outputs@.len() == 0,
            old(self).room(b0, c0 * c2),
            old(self).holds(b0),
            old(self).room(b1, c2 as int),
            old(self).holds(b1),
            old(self).room(b2, c2 as int),
            old(self).holds(b2),
            old(self).room(b3, c2 as int),
            old(self).holds(b3),
            old(self).room(b4, c0 * c2),
            old(self).room(b5, c0 * c2),
            old(self).room(b6, c0 * c2),
            0 < c0 * c2 <= usize::MAX,
        ensures
            final(self).sound(),
            final(self).answers(),
            final(self).outputs@ == old(self).outputs@,
            final(self).buffers@ == old(self).buffers@,
            final(self).listed() == old(self).listed().push(
                step(
                    Kernel::TimeShiftMix3,
                    seq![b0, b1, b2, b3, b4, b5, b6],
                    seq![c0, c1, c2],
                ),
            ),
            final(self).holds(b4),
            final(self).holds(b5),
            final(self).holds(b6),
            forall|i: usize|
                i < old(self).buffers@.len() && old(self).holds(i)
                    ==> #[trigger] final(self).holds(i),
    {
        let buffers: Vec<usize> = vec![b0, b1, b2, b3, b4, b5, b6];
        let constants: Vec<u32> = vec![c0, c1, c2];
        proof {
            reveal(safe);
            reveal(after);
            assert(buffers@ =~= seq![b0, b1, b2, b3, b4, b5, b6]);
            assert(constants@ =~= seq![c0, c1, c2]);
            lemma_filled_len(*self);
        }
        self.add_step(Kernel::TimeShiftMix3, buffers, constants);
    }

    fn binary_linear(
        &mut self,
        b0: usize,
        b1: usize,
        b2: usize,
        b3: usize,
        b4: usize,
        c0: u32,
        c1: u32,
        c2: u32,
        c3: u32,
    )
        requires
            old(self).sound(),
            old(self).outputs@.len() == 0,
            old(self).room(b0, c0 * c1),
            old(self).holds(b0),
            old(self).room(b1, words(c1 * c2)),
            old(self).holds(b1),
            old(self).room(b2, c2 as int),
            old(self).holds(b2),
            old(self).room(b3, biased(c3, c2)),
            old(self).holds(b3),
            old(self).room(b4, c0 * c2),
            c2 > 0,
            c0 > 0,
        ensures
            final(self).sound(),
            final(self).answers(),
            final(self).outputs@ == old(self).outputs@,
            final(self).buffers@ == old(self).buffers@,
            final(self).listed() == old(self).listed().push(
                step(
                    Kernel::BinaryLinear,
                    seq![b0, b1, b2, b3, b4],
                    seq![c0, c1, c2, c3],
                ),
            ),
            final(self).holds(b4),
            forall|i: usize|
                i < old(self).buffers@.len() && old(self).holds(i)
                    ==> #[trigger] final(self).holds(i),
    {
        let buffers: Vec<usize> = vec![b0, b1, b2, b3, b4];
        let constants: Vec<u32> = vec![c0, c1, c2, c3];
        proof {
            reveal(safe);
            reveal(after);
            assert(buffers@ =~= seq![b0, b1, b2, b3, b4]);
            assert(constants@ =~= seq![c0, c1, c2, c3]);
            lemma_filled_len(*self);
        }
        self.add_step(Kernel::BinaryLinear, buffers, constants);
    }

    fn binary_linear_input_bwd(
        &mut self,
        b0: usize,
        b1: usize,
        b2: usize,
        b3: usize,
        c0: u32,
        c1: u32,
        c2: u32,
    )
        requires
            old(self).sound(),
            old(self).outputs@.len() == 0,
            old(self).room(b0, c0 * c2),
            old(self).holds(b0),
            old(self).room(b1, words(c1 * c2)),
            old(self).holds(b1),
            old(self).room(b2, c2 as int),
            old(self).holds(b2),
            old(self).room(b3, c0 * c1),
            c1 > 0,
            c0 > 0,
        ensures
            final(self).sound(),
            final(self).answers(),
            final(self).outputs@ == old(self).outputs@,
            final(self).buffers@ == old(self).buffers@,
            final(self).listed() == old(self).listed().push(
                step(
                    Kernel::BinaryLinearInputBwd,
                    seq![b0, b1, b2, b3],
                    seq![c0, c1, c2],
                ),
            ),
            final(self).holds(b3),
            forall|i: usize|
                i < old(self).buffers@.len() && old(self).holds(i)
                    ==> #[trigger] final(self).holds(i),
    {
        let buffers: Vec<usize> = vec![b0, b1, b2, b3];
        let constants: Vec<u32> = vec![c0, c1, c2];
        proof {
            reveal(safe);
            reveal(after);
            assert(buffers@ =~= seq![b0, b1, b2, b3]);
            assert(constants@ =~= seq![c0, c1, c2]);
            lemma_filled_len(*self);
        }
        self.add_step(Kernel::BinaryLinearInputBwd, buffers, constants);
    }

    fn binary_linear_scale_bwd(
        &mut self,
        b0: usize,
        b1: usize,
        b2: usize,
        b3: usize,
        b4: usize,
        c0: u32,
        c1: u32,
        c2: u32,
        c3: u32,
    )
        requires
            old(self).sound(),
            old(self).outputs@.len() == 0,
            old(self).room(b0, c0 * c1),
            old(self).holds(b0),
            old(self).room(b1, c0 * c2),
            old(self).holds(b1),
            old(self).room(b2, words(c1 * c2)),
            old(self).holds(b2),
            old(self).room(b3, c2 as int),
            old(self).room(b4, c2 as int),
            c2 > 0,
        ensures
            final(self).sound(),
            final(self).answers(),
            final(self).outputs@ == old(self).outputs@,
            final(self).buffers@ == old(self).buffers@,
            final(self).listed() == old(self).listed().push(
                step(
                    Kernel::BinaryLinearScaleBwd,
                    seq![b0, b1, b2, b3, b4],
                    seq![c0, c1, c2, c3],
                ),
            ),
            final(self).holds(b3),
            final(self).holds(b4),
            forall|i: usize|
                i < old(self).buffers@.len() && old(self).holds(i)
                    ==> #[trigger] final(self).holds(i),
    {
        let buffers: Vec<usize> = vec![b0, b1, b2, b3, b4];
        let constants: Vec<u32> = vec![c0, c1, c2, c3];
        proof {
            reveal(safe);
            reveal(after);
            assert(buffers@ =~= seq![b0, b1, b2, b3, b4]);
            assert(constants@ =~= seq![c0, c1, c2, c3]);
            lemma_filled_len(*self);
        }
        self.add_step(Kernel::BinaryLinearScaleBwd, buffers, constants);
    }

    fn binary_linear_weight_bwd(
        &mut self,
        b0: usize,
        b1: usize,
        b2: usize,
        b3: usize,
        c0: u32,
        c1: u32,
        c2: u32,
    )
        requires
            old(self).sound(),
            old(self).outputs@.len() == 0,
            old(self).room(b0, c0 * c1),
            old(self).holds(b0),
            old(self).room(b1, c0 * c2),
            old(self).holds(b1),
            old(self).room(b2, c2 as int),
            old(self).holds(b2),
            old(self).room(b3, c1 * c2),
            c1 > 0,
            c2 > 0,
        ensures
            final(self).sound(),
            final(self).answers(),
            final(self).outputs@ == old(self).outputs@,
            final(self).buffers@ == old(self).buffers@,
            final(self).listed() == old(self).listed().push(
                step(
                    Kernel::BinaryLinearWeightBwd,
                    seq![b0, b1, b2, b3],
                    seq![c0, c1, c2],
                ),
            ),
            final(self).holds(b3),
            forall|i: usize|
                i < old(self).buffers@.len() && old(self).holds(i)
                    ==> #[trigger] final(self).holds(i),
    {
        let buffers: Vec<usize> = vec![b0, b1, b2, b3];
        let constants: Vec<u32> = vec![c0, c1, c2];
        proof {
            reveal(safe);
            reveal(after);
            assert(buffers@ =~= seq![b0, b1, b2, b3]);
            assert(constants@ =~= seq![c0, c1, c2]);
            lemma_filled_len(*self);
        }
        self.add_step(Kernel::BinaryLinearWeightBwd, buffers, constants);
    }

    fn binary_linear_scale_bwd_from_output(
        &mut self,
        b0: usize,
        b1: usize,
        b2: usize,
        b3: usize,
        b4: usize,
        b5: usize,
        c0: u32,
        c1: u32,
        c2: u32,
    )
        requires
            old(self).sound(),
            old(self).outputs@.len() == 0,
            old(self).room(b0, c0 * c1),
            old(self).holds(b0),
            old(self).room(b1, c0 * c1),
            old(self).holds(b1),
            old(self).room(b2, c1 as int),
            old(self).holds(b2),
            old(self).room(b3, biased(c2, c1)),
            old(self).holds(b3),
            old(self).room(b4, c1 as int),
            old(self).room(b5, c1 as int),
            c1 > 0,
        ensures
            final(self).sound(),
            final(self).answers(),
            final(self).outputs@ == old(self).outputs@,
            final(self).buffers@ == old(self).buffers@,
            final(self).listed() == old(self).listed().push(
                step(
                    Kernel::BinaryLinearScaleBwdFromOutput,
                    seq![b0, b1, b2, b3, b4, b5],
                    seq![c0, c1, c2],
                ),
            ),
            final(self).holds(b4),
            final(self).holds(b5),
            forall|i: usize|
                i < old(self).buffers@.len() && old(self).holds(i)
                    ==> #[trigger] final(self).holds(i),
    {
        let buffers: Vec<usize> = vec![b0, b1, b2, b3, b4, b5];
        let constants: Vec<u32> = vec![c0, c1, c2];
        proof {
            reveal(safe);
            reveal(after);
            assert(buffers@ =~= seq![b0, b1, b2, b3, b4, b5]);
            assert(constants@ =~= seq![c0, c1, c2]);
            lemma_filled_len(*self);
        }
        self.add_step(Kernel::BinaryLinearScaleBwdFromOutput, buffers, constants);
    }

    fn binary_linear_latent_sgd(
        &mut self,
        b0: usize,
        b1: usize,
        b2: usize,
        b3: usize,
        b4: usize,
        b5: usize,
        c0: u32,
        c1: u32,
        c2: u32,
        c3: u32,
    )
        requires
            old(self).sound(),
            old(self).outputs@.len() == 0,
            old(self).room(b0, c1 * c2),
            old(self).holds(b0),
            old(self).room(b1, words(c1 * c2)),
            old(self).room(b2, c0 * c1),
            old(self).holds(b2),
            old(self).room(b3, c0 * c2),
            old(self).holds(b3),
            old(self).room(b4, c2 as int),
            old(self).holds(b4),
            old(self).room(b5, c1 * c2),
            0 < c1 * c2 <= usize::MAX,
        ensures
            final(self).sound(),
            final(self).answers(),
            final(self).outputs@ == old(self).outputs@,
            final(self).buffers@ == old(self).buffers@,
            final(self).listed() == old(self).listed().push(
                step(
                    Kernel::BinaryLinearLatentSgd,
                    seq![b0, b1, b2, b3, b4, b5],
                    seq![c0, c1, c2, c3],
                ),
            ),
            final(self).holds(b0),
            final(self).holds(b1),
            final(self).holds(b5),
            forall|i: usize|
                i < old(self).buffers@.len() && old(self).holds(i)
                    ==> #[trigger] final(self).holds(i),
    {
        let buffers: Vec<usize> = vec![b0, b1, b2, b3, b4, b5];
        let constants: Vec<u32> = vec![c0, c1, c2, c3];
        proof {
            reveal(safe);
            reveal(after);
            assert(buffers@ =~= seq![b0, b1, b2, b3, b4, b5]);
            assert(constants@ =~= seq![c0, c1, c2, c3]);
            lemma_filled_len(*self);
        }
        self.add_step(Kernel::BinaryLinearLatentSgd, buffers, constants);
    }

    fn fp16_linear(&mut self, b0: usize, b1: usize, b2: usize, c0: u32, c1: u32, c2: u32)
        requires
            old(self).sound(),
            old(self).outputs@.len() == 0,
            old(self).room(b0, c0 * c1),
            old(self).holds(b0),
            old(self).room(b1, c1 * c2),
            old(self).holds(b1),
            old(self).room(b2, c0 * c2),
            c2 > 0,
            c0 > 0,
        ensures
            final(self).sound(),
            final(self).answers(),
            final(self).outputs@ == old(self).outputs@,
            final(self).buffers@ == old(self).buffers@,
            final(self).listed() == old(self).listed().push(
                step(
                    Kernel::Fp16Linear,
                    seq![b0, b1, b2],
                    seq![c0, c1, c2],
                ),
            ),
            final(self).holds(b2),
            forall|i: usize|
                i < old(self).buffers@.len() && old(self).holds(i)
                    ==> #[trigger] final(self).holds(i),
    {
        let buffers: Vec<usize> = vec![b0, b1, b2];
        let constants: Vec<u32> = vec![c0, c1, c2];
        proof {
            reveal(safe);
            reveal(after);
            assert(buffers@ =~= seq![b0, b1, b2]);
            assert(constants@ =~= seq![c0, c1, c2]);
            lemma_filled_len(*self);
        }
        self.add_step(Kernel::Fp16Linear, buffers, constants);
    }

    fn fp16_linear_bwd(
        &mut self,
        b0: usize,
        b1: usize,
        b2: usize,
        b3: usize,
        b4: usize,
        c0: u32,
        c1: u32,
        c2: u32,
        c3: u32,
    )
        requires
            old(self).sound(),
            old(self).outputs@.len() == 0,
            old(self).room(b0, c0 * c1),
            old(self).holds(b0),
            old(self).room(b1, c0 * c2),
            old(self).holds(b1),
            old(self).room(b2, c1 * c2),
            old(self).holds(b2),
            old(self).room(b3, c0 * c1),
            old(self).room(b4, c1 * c2),
            c1 > 0,
            c0 > 0,
            c2 > 0,
        ensures
            final(self).sound(),
            final(self).answers(),
            final(self).outputs@ == old(self).outputs@,
            final(self).buffers@ == old(self).buffers@,
            final(self).listed() == old(self).listed().push(
                step(
                    Kernel::Fp16LinearBwd,
                    seq![b0, b1, b2, b3, b4],
                    seq![c0, c1, c2, c3],
                ),
            ),
            c3 == 0 ==> final(self).holds(b3),
            c3 != 0 ==> final(self).holds(b4),
            forall|i: usize|
                i < old(self).buffers@.len() && old(self).holds(i)
                    ==> #[trigger] final(self).holds(i),
    {
        let buffers: Vec<usize> = vec![b0, b1, b2, b3, b4];
        let constants: Vec<u32> = vec![c0, c1, c2, c3];
        proof {
            reveal(safe);
            reveal(after);
            assert(buffers@ =~= seq![b0, b1, b2, b3, b4]);
            assert(constants@ =~= seq![c0, c1, c2, c3]);
            lemma_filled_len(*self);
        }
        self.add_step(Kernel::Fp16LinearBwd, buffers, constants);
    }

    fn sign_pack_bits(&mut self, b0: usize, b1: usize, c0: u32)
        requires
            old(self).sound(),
            old(self).outputs@.len() == 0,
            old(self).room(b0, c0 as int),
            old(self).holds(b0),
            old(self).room(b1, words(c0 as int)),
            c0 > 0,
        ensures
            final(self).sound(),
            final(self).answers(),
            final(self).outputs@ == old(self).outputs@,
            final(self).buffers@ == old(self).buffers@,
            final(self).listed() == old(self).listed().push(
                step(
                    Kernel::SignPackBits,
                    seq![b0, b1],
                    seq![c0],
                ),
            ),
            final(self).holds(b1),
            forall|i: usize|
                i < old(self).buffers@.len() && old(self).holds(i)
                    ==> #[trigger] final(self).holds(i),
    {
        let buffers: Vec<usize> = vec![b0, b1];
        let constants: Vec<u32> = vec![c0];
        proof {
            reveal(safe);
            reveal(after);
            assert(buffers@ =~= seq![b0, b1]);
            assert(constants@ =~= seq![c0]);
            lemma_filled_len(*self);
        }
        self.add_step(Kernel::SignPackBits, buffers, constants);
    }

    fn pack_latent_bits(&mut self, b0: usize, b1: usize, c0: u32)
        requires
            old(self).sound(),
            old(self).outputs@.len() == 0,
            old(self).room(b0, c0 as int),
            old(self).holds(b0),
            old(self).room(b1, words(c0 as int)),
            c0 > 0,
        ensures
            final(self).sound(),
            final(self).answers(),
            final(self).outputs@ == old(self).outputs@,
            final(self).buffers@ == old(self).buffers@,
            final(self).listed() == old(self).listed().push(
                step(
                    Kernel::PackLatentBits,
                    seq![b0, b1],
                    seq![c0],
                ),
            ),
            final(self).holds(b1),
            forall|i: usize|
                i < old(self).buffers@.len() && old(self).holds(i)
                    ==> #[trigger] final(self).holds(i),
    {
        let buffers: Vec<usize> = vec![b0, b1];
        let constants: Vec<u32> = vec![c0];
        proof {
            reveal(safe);
            reveal(after);
            assert(buffers@ =~= seq![b0, b1]);
            assert(constants@ =~= seq![c0]);
            lemma_filled_len(*self);
        }
        self.add_step(Kernel::PackLatentBits, buffers, constants);
    }

    fn rosa_sam_reset(&mut self, b0: usize, b1: usize, b2: usize, b3: usize, b4: usize, c0: u32)
        requires
            old(self).sound(),
            old(self).outputs@.len() == 0,
            old(self).room(b0, c0 as int),
            old(self).room(b1, c0 as int),
            old(self).room(b2, c0 as int),
            old(self).room(b3, c0 as int),
            old(self).room(b4, c0 as int),
            c0 > 0,
        ensures
            final(self).sound(),
            final(self).answers(),
            final(self).outputs@ == old(self).outputs@,
            final(self).buffers@ == old(self).buffers@,
            final(self).listed() == old(self).listed().push(
                step(
                    Kernel::RosaSamReset,
                    seq![b0, b1, b2, b3, b4],
                    seq![c0],
                ),
            ),
            final(self).holds(b0),
            final(self).holds(b1),
            final(self).holds(b2),
            final(self).holds(b3),
            final(self).holds(b4),
            forall|i: usize|
                i < old(self).buffers@.len() && old(self).holds(i)
                    ==> #[trigger] final(self).holds(i),
    {
        let buffers: Vec<usize> = vec![b0, b1, b2, b3, b4];
        let constants: Vec<u32> = vec![c0];
        proof {
            reveal(safe);
            reveal(after);
            assert(buffers@ =~= seq![b0, b1, b2, b3, b4]);
            assert(constants@ =~= seq![c0]);
            lemma_filled_len(*self);
        }
        self.add_step(Kernel::RosaSamReset, buffers, constants);
    }

    fn rosa_qkv_fwd(
        &mut self,
        b0: usize,
        b1: usize,
        b2: usize,
        b3: usize,
        b4: usize,
        b5: usize,
        b6: usize,
        b7: usize,
        b8: usize,
        b9: usize,
        b10: usize,
        c0: u32,
        c1: u32,
        c2: u32,
    )
        requires
            old(self).sound(),
            old(self).outputs@.len() == 0,
            old(self).room(b0, words(c0 * c1 * c2)),
            old(self).holds(b0),
            old(self).room(b1, words(c0 * c1 * c2)),
            old(self).holds(b1),
            old(self).room(b2, words(c0 * c1 * c2)),
            old(self).holds(b2),
            old(self).room(b3, c2 as int),
            old(self).holds(b3),
            old(self).room(b4, sam_nodes(c0 as int, c1 as int, c2 as int)),
            old(self).holds(b4),
            old(self).room(b5, sam_nodes(c0 as int, c1 as int, c2 as int)),
            old(self).holds(b5),
            old(self).room(b6, sam_nodes(c0 as int, c1 as int, c2 as int)),
            old(self).holds(b6),
            old(self).room(b7, sam_nodes(c0 as int, c1 as int, c2 as int)),
            old(self).holds(b7),
            old(self).room(b8, sam_nodes(c0 as int, c1 as int, c2 as int)),
            old(self).holds(b8),
            old(self).room(b9, c0 * c1 * c2),
            old(self).room(b10, c0 * c1 * c2),
            0 < c0 * c2 <= usize::MAX,
        ensures
            final(self).sound(),
            final(self).answers(),
            final(self).outputs@ == old(self).outputs@,
            final(self).buffers@ == old(self).buffers@,
            final(self).listed() == old(self).listed().push(
                step(
                    Kernel::RosaQkvFwd,
                    seq![b0, b1, b2, b3, b4, b5, b6, b7, b8, b9, b10],
                    seq![c0, c1, c2],
                ),
            ),
            final(self).holds(b4),
            final(self).holds(b5),
            final(self).holds(b6),
            final(self).holds(b7),
            final(self).holds(b8),
            final(self).holds(b9),
            final(self).holds(b10),
            forall|i: usize|
                i < old(self).buffers@.len() && old(self).holds(i)
                    ==> #[trigger] final(self).holds(i),
    {
        let buffers: Vec<usize> = vec![b0, b1, b2, b3, b4, b5, b6, b7, b8, b9, b10];
        let constants: Vec<u32> = vec![c0, c1, c2];
        proof {
            reveal(safe);
            reveal(after);
            assert(buffers@ =~= seq![b0, b1, b2, b3, b4, b5, b6, b7, b8, b9, b10]);
            assert(constants@ =~= seq![c0, c1, c2]);
            lemma_filled_len(*self);
        }
        self.add_step(Kernel::RosaQkvFwd, buffers, constants);
    }

    fn rosa_qkv_bwd_e(&mut self, b0: usize, b1: usize, b2: usize, c0: u32, c1: u32, c2: u32)
        requires
            old(self).sound(),
            old(self).outputs@.len() == 0,
            old(self).room(b0, c0 * c1 * c2),
            old(self).holds(b0),
            old(self).room(b1, c0 * c1 * c2),
            old(self).holds(b1),
            old(self).room(b2, c2 as int),
            c2 > 0,
        ensures
            final(self).sound(),
            final(self).answers(),
            final(self).outputs@ == old(self).outputs@,
            final(self).buffers@ == old(self).buffers@,
            final(self).listed() == old(self).listed().push(
                step(
                    Kernel::RosaQkvBwdE,
                    seq![b0, b1, b2],
                    seq![c0, c1, c2],
                ),
            ),
            final(self).holds(b2),
            forall|i: usize|
                i < old(self).buffers@.len() && old(self).holds(i)
                    ==> #[trigger] final(self).holds(i),
    {
        let buffers: Vec<usize> = vec![b0, b1, b2];
        let constants: Vec<u32> = vec![c0, c1, c2];
        proof {
            reveal(safe);
            reveal(after);
            assert(buffers@ =~= seq![b0, b1, b2]);
            assert(constants@ =~= seq![c0, c1, c2]);
            lemma_filled_len(*self);
        }
        self.add_step(Kernel::RosaQkvBwdE, buffers, constants);
    }

    fn cmix_relu2(&mut self, b0: usize, b1: usize, c0: u32)
        requires
            old(self).sound(),
            old(self).outputs@.len() == 0,
            old(self).room(b0, c0 as int),
            old(self).holds(b0),
            old(self).room(b1, c0 as int),
            c0 > 0,
        ensures
            final(self).sound(),
            final(self).answers(),
            final(self).outputs@ == old(self).outputs@,
            final(self).buffers@ == old(self).buffers@,
            final(self).listed() == old(self).listed().push(
                step(
                    Kernel::CmixRelu2,
                    seq![b0, b1],
                    seq![c0],
                ),
            ),
            final(self).holds(b1),
            forall|i: usize|
                i < old(self).buffers@.len() && old(self).holds(i)
                    ==> #[trigger] final(self).holds(i),
    {
        let buffers: Vec<usize> = vec![b0, b1];
        let constants: Vec<u32> = vec![c0];
        proof {
            reveal(safe);
            reveal(after);
            assert(buffers@ =~= seq![b0, b1]);
            assert(constants@ =~= seq![c0]);
            lemma_filled_len(*self);
        }
        self.add_step(Kernel::CmixRelu2, buffers, constants);
    }

    fn cmix_relu2_backward(&mut self, b0: usize, b1: usize, b2: usize, c0: u32)
        requires
            old(self).sound(),
            old(self).outputs@.len() == 0,
            old(self).room(b0, c0 as int),
            old(self).holds(b0),
            old(self).room(b1, c0 as int),
            old(self).holds(b1),
            old(self).room(b2, c0 as int),
            c0 > 0,
        ensures
            final(self).sound(),
            final(self).answers(),
            final(self).outputs@ == old(self).outputs@,
            final(self).buffers@ == old(self).buffers@,
            final(self).listed() == old(self).listed().push(
                step(
                    Kernel::CmixRelu2Backward,
                    seq![b0, b1, b2],
                    seq![c0],
                ),
            ),
            final(self).holds(b2),
            forall|i: usize|
                i < old(self).buffers@.len() && old(self).holds(i)
                    ==> #[trigger] final(self).holds(i),
    {
        let buffers: Vec<usize> = vec![b0, b1, b2];
        let constants: Vec<u32> = vec![c0];
        proof {
            reveal(safe);
            reveal(after);
            assert(buffers@ =~= seq![b0, b1, b2]);
            assert(constants@ =~= seq![c0]);
            lemma_filled_len(*self);
        }
        self.add_step(Kernel::CmixRelu2Backward, buffers, constants);
    }

    fn residual_add(&mut self, b0: usize, b1: usize, b2: usize, c0: u32)
        requires
            old(self).sound(),
            old(self).outputs@.len() == 0,
            old(self).room(b0, c0 as int),
            old(self).holds(b0),
            old(self).room(b1, c0 as int),
            old(self).holds(b1),
            old(self).room(b2, c0 as int),
            c0 > 0,
        ensures
            final(self).sound(),
            final(self).answers(),
            final(self).outputs@ == old(self).outputs@,
            final(self).buffers@ == old(self).buffers@,
            final(self).listed() == old(self).listed().push(
                step(
                    Kernel::ResidualAdd,
                    seq![b0, b1, b2],
                    seq![c0],
                ),
            ),
            final(self).holds(b2),
            forall|i: usize|
                i < old(self).buffers@.len() && old(self).holds(i)
                    ==> #[trigger] final(self).holds(i),
    {
        let buffers: Vec<usize> = vec![b0, b1, b2];
        let constants: Vec<u32> = vec![c0];
        proof {
            reveal(safe);
            reveal(after);
            assert(buffers@ =~= seq![b0, b1, b2]);
            assert(constants@ =~= seq![c0]);
            lemma_filled_len(*self);
        }
        self.add_step(Kernel::ResidualAdd, buffers, constants);
    }

    fn streamed_cross_entropy(
        &mut self,
        b0: usize,
        b1: usize,
        b2: usize,
        b3: usize,
        b4: usize,
        b5: usize,
        b6: usize,
        b7: usize,
        c0: u32,
        c1: u32,
        c2: u32,
        c3: u32,
        c4: u32,
        c5: u32,
        c6: u32,
    )
        requires
            old(self).sound(),
            old(self).outputs@.len() == 0,
            old(self).room(b0, c0 * c2),
            old(self).holds(b0),
            old(self).room(b1, words(c3 * c2)),
            old(self).holds(b1),
            old(self).room(b2, c3 as int),
            old(self).holds(b2),
            old(self).room(b3, c0 as int),
            old(self).holds(b3),
            old(self).room(b4, c0 * c2),
            old(self).room(b5, c0 as int),
            old(self).room(b6, c3 as int),
            old(self).holds(b6),
            old(self).room(b7, c0 * c3),
            c0 > 0,
        ensures
            final(self).sound(),
            final(self).answers(),
            final(self).outputs@ == old(self).outputs@,
            final(self).buffers@ == old(self).buffers@,
            final(self).listed() == old(self).listed().push(
                step(
                    Kernel::StreamedCrossEntropy,
                    seq![b0, b1, b2, b3, b4, b5, b6, b7],
                    seq![c0, c1, c2, c3, c4, c5, c6],
                ),
            ),
            final(self).holds(b4),
            final(self).holds(b5),
            final(self).holds(b6),
            final(self).holds(b7),
            forall|i: usize|
                i < old(self).buffers@.len() && old(self).holds(i)
                    ==> #[trigger] final(self).holds(i),
    {
        let buffers: Vec<usize> = vec![b0, b1, b2, b3, b4, b5, b6, b7];
        let constants: Vec<u32> = vec![c0, c1, c2, c3, c4, c5, c6];
        proof {
            reveal(safe);
            reveal(after);
            assert(buffers@ =~= seq![b0, b1, b2, b3, b4, b5, b6, b7]);
            assert(constants@ =~= seq![c0, c1, c2, c3, c4, c5, c6]);
            lemma_filled_len(*self);
        }
        self.add_step(Kernel::StreamedCrossEntropy, buffers, constants);
    }

    fn softmax_cross_entropy(
        &mut self,
        b0: usize,
        b1: usize,
        b2: usize,
        b3: usize,
        c0: u32,
        c1: u32,
        c2: u32,
        c3: u32,
        c4: u32,
        c5: u32,
    )
        requires
            old(self).sound(),
            old(self).outputs@.len() == 0,
            old(self).room(b0, c0 * c2),
            old(self).holds(b0),
            old(self).room(b1, c0 as int),
            old(self).holds(b1),
            old(self).room(b2, c0 as int),
            old(self).room(b3, c0 * c2),
            c0 > 0,
        ensures
            final(self).sound(),
            final(self).answers(),
            final(self).outputs@ == old(self).outputs@,
            final(self).buffers@ == old(self).buffers@,
            final(self).listed() == old(self).listed().push(
                step(
                    Kernel::SoftmaxCrossEntropy,
                    seq![b0, b1, b2, b3],
                    seq![c0, c1, c2, c3, c4, c5],
                ),
            ),
            final(self).holds(b2),
            final(self).holds(b3),
            forall|i: usize|
                i < old(self).buffers@.len() && old(self).holds(i)
                    ==> #[trigger] final(self).holds(i),
    {
        let buffers: Vec<usize> = vec![b0, b1, b2, b3];
        let constants: Vec<u32> = vec![c0, c1, c2, c3, c4, c5];
        proof {
            reveal(safe);
            reveal(after);
            assert(buffers@ =~= seq![b0, b1, b2, b3]);
            assert(constants@ =~= seq![c0, c1, c2, c3, c4, c5]);
            lemma_filled_len(*self);
        }
        self.add_step(Kernel::SoftmaxCrossEntropy, buffers, constants);
    }

    fn clipped_sgd(&mut self, b0: usize, b1: usize, b2: usize, c0: u32, c1: u32)
        requires
            old(self).sound(),
            old(self).outputs@.len() == 0,
            old(self).room(b0, c1 as int),
            old(self).holds(b0),
            old(self).room(b1, c1 as int),
            old(self).holds(b1),
            old(self).room(b2, c1 as int),
            old(self).holds(b2),
            c1 > 0,
        ensures
            final(self).sound(),
            final(self).answers(),
            final(self).outputs@ == old(self).outputs@,
            final(self).buffers@ == old(self).buffers@,
            final(self).listed() == old(self).listed().push(
                step(
                    Kernel::ClippedSgd,
                    seq![b0, b1, b2],
                    seq![c0, c1],
                ),
            ),
            final(self).holds(b0),
            final(self).holds(b1),
            forall|i: usize|
                i < old(self).buffers@.len() && old(self).holds(i)
                    ==> #[trigger] final(self).holds(i),
    {
        let buffers: Vec<usize> = vec![b0, b1, b2];
        let constants: Vec<u32> = vec![c0, c1];
        proof {
            reveal(safe);
            reveal(after);
            assert(buffers@ =~= seq![b0, b1, b2]);
            assert(constants@ =~= seq![c0, c1]);
            lemma_filled_len(*self);
        }
        self.add_step(Kernel::ClippedSgd, buffers, constants);
    }

    fn binary_connect_sgd(&mut self, b0: usize, b1: usize, b2: usize, c0: u32, c1: u32, c2: u32)
        requires
            old(self).sound(),
            old(self).outputs@.len() == 0,
            old(self).room(b0, c1 as int),
            old(self).holds(b0),
            old(self).room(b1, c1 as int),
            old(self).holds(b1),
            old(self).room(b2, c1 as int),
            old(self).holds(b2),
            c1 > 0,
        ensures
            final(self).sound(),
            final(self).answers(),
            final(self).outputs@ == old(self).outputs@,
            final(self).buffers@ == old(self).buffers@,
            final(self).listed() == old(self).listed().push(
                step(
                    Kernel::BinaryConnectSgd,
                    seq![b0, b1, b2],
                    seq![c0, c1, c2],
                ),
            ),
            final(self).holds(b0),
            final(self).holds(b1),
            forall|i: usize|
                i < old(self).buffers@.len() && old(self).holds(i)
                    ==> #[trigger] final(self).holds(i),
    {
        let buffers: Vec<usize> = vec![b0, b1, b2];
        let constants: Vec<u32> = vec![c0, c1, c2];
        proof {
            reveal(safe);
            reveal(after);
            assert(buffers@ =~= seq![b0, b1, b2]);
            assert(constants@ =~= seq![c0, c1, c2]);
            lemma_filled_len(*self);
        }
        self.add_step(Kernel::BinaryConnectSgd, buffers, constants);
    }
}

/// Products can be taken either way round.
proof fn lemma_swap(a: int, b: int)
    ensures
        a * b == b * a,
{
    assert(a * b == b * a) by (nonlinear_arith);
}

/// A switch as a number for a kernel.
pub open spec fn flag_of(on: bool) -> u32 {
    if on {
        1
    } else {
        0
    }
}

/// Whether there is a bias, as a number for a kernel.
pub open spec fn has_bias_of(bias: Option<usize>) -> u32 {
    flag_of(bias is Some)
}

/// The numbers of a bias that may be missing.
pub open spec fn bias_len_of(bias: Option<usize>) -> int {
    match bias {
        Some(n) => n as int,
        None => 0,
    }
}

/// The id to ignore where none is: no token of a vocabulary has it.
pub const CE_NO_IGNORE: u32 = 0xffff_ffff;

/// A row of the loss counts: the token `horizon` steps on lies in the same
/// sequence, and is not the one to ignore.
pub open spec fn row_counts(
    tokens: Seq<u32>,
    time: int,
    horizon: int,
    ignore_id: u32,
    row: int,
) -> bool {
    row % time + horizon < time && tokens[row + horizon] != ignore_id
}

/// How many of the first `n` rows count.
pub open spec fn counted_rows(
    tokens: Seq<u32>,
    time: int,
    horizon: int,
    ignore_id: u32,
    n: nat,
) -> nat
    decreases n,
{
    if n == 0 {
        0
    } else {
        counted_rows(tokens, time, horizon, ignore_id, (n - 1) as nat) + if row_counts(
            tokens,
            time,
            horizon,
            ignore_id,
            n - 1,
        ) {
            1nat
        } else {
            0
        }
    }
}

/// A row that counts is held against a token of its own sequence, and one that
/// exists.
pub proof fn law_targets_stay_in_their_sequence(len: int, time: int, horizon: int, row: int)
    requires
        time > 0,
        len % time == 0,
        0 <= row < len,
        0 <= horizon,
        row % time + horizon < time,
    ensures
        row + horizon < len,
        (row + horizon) / time == row / time,
{
    let s = row / time;
    let r = row % time;
    let m = len / time;
    assert(row == s * time + r) by (nonlinear_arith)
        requires
            time > 0,
            s == row / time,
            r == row % time,
    ;
    assert(0 <= r < time && len == m * time) by (nonlinear_arith)
        requires
            time > 0,
            r == row % time,
            len % time == 0,
            m == len / time,
    ;
    assert(s < m) by (nonlinear_arith)
        requires
            s * time + r < m * time,
            0 <= r,
            time > 0,
    ;
    assert(s * time + time <= m * time) by (nonlinear_arith)
        requires
            s + 1 <= m,
            time > 0,
    ;
    vstd::arithmetic::div_mod::lemma_fundamental_div_mod_converse(
        row + horizon,
        time,
        s,
        r + horizon,
    );
}

/// How many places of a sequence have a target of their own sequence.
pub open spec fn places_with_target(time: int, horizon: int) -> int {
    if horizon < time {
        time - horizon
    } else {
        0
    }
}

proof fn lemma_counted_so_far(
    tokens: Seq<u32>,
    time: int,
    horizon: int,
    ignore_id: u32,
    s: int,
    r: int,
)
    requires
        time > 0,
        0 <= horizon,
        tokens.len() as int % time == 0,
        0 <= s,
        0 <= r <= time,
        s * time + r <= tokens.len(),
        !tokens.contains(ignore_id),
    ensures
        counted_rows(tokens, time, horizon, ignore_id, (s * time + r) as nat) == s
            * places_with_target(time, horizon) + if r < places_with_target(time, horizon) {
            r
        } else {
            places_with_target(time, horizon)
        },
    decreases s, r,
{
    let per = places_with_target(time, horizon);
    assert(s * time >= 0 && s * per >= 0) by (nonlinear_arith)
        requires
            s >= 0,
            time > 0,
            per >= 0,
    ;
    if r > 0 {
        lemma_counted_so_far(tokens, time, horizon, ignore_id, s, r - 1);
        let row = s * time + r - 1;
        vstd::arithmetic::div_mod::lemma_fundamental_div_mod_converse(row, time, s, r - 1);
        if r - 1 + horizon < time {
            law_targets_stay_in_their_sequence(tokens.len() as int, time, horizon, row);
            assert(tokens.contains(tokens[row + horizon]));
        }
        assert(row_counts(tokens, time, horizon, ignore_id, row) == (r - 1 < per));
    } else if s > 0 {
        assert(s * time == (s - 1) * time + time && s * per == (s - 1) * per + per)
            by (nonlinear_arith);
        lemma_counted_so_far(tokens, time, horizon, ignore_id, s - 1, time);
    } else {
        assert(s * time == 0 && s * per == 0) by (nonlinear_arith)
            requires
                s == 0,
        ;
    }
}

/// Where no token is the one to ignore, as with [`CE_NO_IGNORE`] over a
/// vocabulary, the loss is taken over the same places of every sequence: all
/// that have a target `horizon` steps on.
pub proof fn law_every_target_counts_unless_ignored(
    tokens: Seq<u32>,
    time: int,
    horizon: int,
    ignore_id: u32,
)
    requires
        time > 0,
        0 <= horizon,
        tokens.len() as int % time == 0,
        !tokens.contains(ignore_id),
    ensures
        counted_rows(tokens, time, horizon, ignore_id, tokens.len()) == tokens.len() as int / time
            * places_with_target(time, horizon),
{
    let m = tokens.len() as int / time;
    assert(m * time == tokens.len() && m >= 0) by (nonlinear_arith)
        requires
            time > 0,
            tokens.len() as int % time == 0,
            m == tokens.len() as int / time,
    ;
    lemma_counted_so_far(tokens, time, horizon, ignore_id, m, 0);
}

/// Counts the rows that the loss is taken over.
pub fn causal_supervised_count(
    tokens: &[u32],
    time: usize,
    horizon: usize,
    ignore_id: u32,
) -> (count: usize)
    requires
        time > 0,
        tokens@.len() % time as nat == 0,
    ensures
        count == counted_rows(
            tokens@,
            time as int,
            horizon as int,
            ignore_id,
            tokens@.len(),
        ),
{
    let n: usize = tokens.len();
    let mut count: usize = 0;
    for row in 0..n
        invariant
            n == tokens@.len(),
            time > 0,
            n as int % time as int == 0,
            count <= row,
            count == counted_rows(tokens@, time as int, horizon as int, ignore_id, row as nat),
    {
        let place: usize = row % time;
        if horizon < time - place {
            proof {
                law_targets_stay_in_their_sequence(
                    n as int,
                    time as int,
                    horizon as int,
                    row as int,
                );
            }
            if tokens[row + horizon] != ignore_id {
                count = count + 1;
            }
        }
    }
    count
}

/// What is wrong with the sizes of a channel mix.
pub open spec fn cmix_shapes_error(rows: int, d_model: int, dim_ffn: int) -> Option<MetalError> {
    match linear_error(rows, d_model, dim_ffn) {
        Some(e) => Some(e),
        None => linear_error(rows, dim_ffn, d_model),
    }
}

/// Whether `rows` rows of `columns` bits pack into `packed` words.
fn packs_into(rows: usize, columns: usize, packed: usize) -> (fits: bool)
    ensures
        fits == (packed == words(rows * columns) && rows * columns <= usize::MAX),
{
    match rows.checked_mul(columns) {
        Some(all) => packed == words_for(all),
        None => false,
    }
}

fn sam_len(batch: usize, time: usize, channels: usize) -> (nodes: Result<usize, MetalError>)
    requires
        batch > 0,
        time > 0,
        channels > 0,
        batch * channels <= usize::MAX,
    ensures
        match nodes {
            Ok(n) => n == sam_nodes(batch as int, time as int, channels as int) && n * 4
                <= usize::MAX,
            Err(e) => e == MetalError::SamOverflow && sam_nodes(
                batch as int,
                time as int,
                channels as int,
            ) * 4 > usize::MAX,
        },
{
    let rows: usize = batch * channels;
    proof {
        let r = rows as int;
        let t = time as int;
        assert(r >= 1) by (nonlinear_arith)
            requires
                r == batch * channels,
                batch >= 1,
                channels >= 1,
        ;
        assert(2 * t + 1 <= r * (2 * t + 1)) by (nonlinear_arith)
            requires
                r >= 1,
                t >= 0,
        ;
    }
    let double: usize = match time.checked_mul(2) {
        Some(d) => d,
        None => return Err(MetalError::SamOverflow),
    };
    let nodes: usize = match double.checked_add(1) {
        Some(n) => n,
        None => return Err(MetalError::SamOverflow),
    };
    let all: usize = match rows.checked_mul(nodes) {
        Some(a) => a,
        None => return Err(MetalError::SamOverflow),
    };
    match all.checked_mul(4) {
        Some(_) => Ok(all),
        None => Err(MetalError::SamOverflow),
    }
}

proof fn lemma_threads(batch: int, time: int, channels: int)
    requires
        batch > 0,
        time > 0,
        channels > 0,
    ensures
        0 < batch * channels <= batch * time * channels,
        sam_nodes(batch, time, channels) > 0,
{
    assert(batch * channels > 0) by (nonlinear_arith)
        requires
            batch > 0,
            channels > 0,
    ;
    assert(batch * time * channels == batch * channels * time) by (nonlinear_arith);
    let r = batch * channels;
    assert(r <= r * time) by (nonlinear_arith)
        requires
            r > 0,
            time > 0,
    ;
    assert(r * (2 * time + 1) > 0) by (nonlinear_arith)
        requires
            r > 0,
            time > 0,
    ;
}

proof fn lemma_rows(batch: int, time: int, channels: int)
    requires
        batch > 0,
        time > 0,
        channels > 0,
    ensures
        0 < batch * time <= batch * time * channels,
        time <= batch * time * channels,
        channels <= batch * time * channels,
        0 < channels * channels,
{
    lemma_product_of_three(batch, time, channels);
    assert(channels * channels > 0) by (nonlinear_arith)
        requires
            channels > 0,
    ;
}

proof fn lemma_factors(batch: int, time: int)
    requires
        batch * time > 0,
        batch >= 0,
        time >= 0,
    ensures
        time <= batch * time,
{
    assert(time <= batch * time) by (nonlinear_arith)
        requires
            batch * time > 0,
            batch >= 0,
            time >= 0,
    ;
}

/// The lengths of what goes into a matching block.
#[derive(Clone, Copy, Debug, PartialEq, Eq, Structural)]
pub struct RosaBlockLens {
    pub x: usize,
    pub mix_q: usize,
    pub mix_k: usize,
    pub mix_v: usize,
    pub q_bits: usize,
    pub q_scale: usize,
    pub q_bias: usize,
    pub k_bits: usize,
    pub k_scale: usize,
    pub k_bias: usize,
    pub v_bits: usize,
    pub v_scale: usize,
    pub v_bias: usize,
    pub e: usize,
    pub o_bits: usize,
    pub o_scale: usize,
    pub o_bias: usize,
}

impl RosaBlockLens {
    /// Each mix, scale and bias has one number for each channel.
    pub open spec fn per_channel(self, channels: usize) -> bool {
        &&& self.mix_q == channels
        &&& self.mix_k == channels
        &&& self.mix_v == channels
        &&& self.e == channels
        &&& self.q_scale == channels
        &&& self.k_scale == channels
        &&& self.v_scale == channels
        &&& self.o_scale == channels
        &&& self.q_bias == channels
        &&& self.k_bias == channels
        &&& self.v_bias == channels
        &&& self.o_bias == channels
    }

    /// Each of the four projections has that many words of packed weights.
    pub open spec fn packed(self, n: int) -> bool {
        self.q_bits == n && self.k_bits == n && self.v_bits == n && self.o_bits == n
    }

    fn fit_channels(&self, channels: usize) -> (fit: bool)
        ensures
            fit == self.per_channel(channels),
    {
        self.mix_q == channels && self.mix_k == channels && self.mix_v == channels && self.e
            == channels && self.q_scale == channels && self.k_scale == channels && self.v_scale
            == channels && self.o_scale == channels && self.q_bias == channels && self.k_bias
            == channels && self.v_bias == channels && self.o_bias == channels
    }
}

/// What is wrong with the lengths of a packed projection.
pub open spec fn binary_error(
    input: int,
    bits: int,
    scale: int,
    bias: Option<usize>,
    shape: LinearDispatchShape,
) -> Option<MetalError> {
    if input != shape.rows * shape.in_features {
        Some(MetalError::Mismatch(Operation::BinaryLinear))
    } else if shape.in_features * shape.out_features > usize::MAX {
        Some(MetalError::WeightOverflow)
    } else if bits != words(shape.in_features * shape.out_features) || scale != shape.out_features
        || (bias matches Some(n) && n != shape.out_features) {
        Some(MetalError::Mismatch(Operation::BinaryLinear))
    } else {
        None
    }
}

/// Checks the lengths of a packed projection.
pub fn check_binary_shape(
    input: usize,
    bits: usize,
    scale: usize,
    bias: Option<usize>,
    shape: LinearDispatchShape,
) -> (checked: Result<(), MetalError>)
    ensures
        match checked {
            Ok(_) => binary_error(input as int, bits as int, scale as int, bias, shape) is None,
            Err(e) => binary_error(input as int, bits as int, scale as int, bias, shape) == Some(e),
        },
{
    match shape.rows.checked_mul(shape.in_features) {
        Some(all) if all == input => {},
        _ => return Err(MetalError::Mismatch(Operation::BinaryLinear)),
    }
    let packed: usize = match shape.packed_words() {
        Ok(w) => w,
        Err(e) => return Err(e),
    };
    if bits != packed || scale != shape.out_features {
        return Err(MetalError::Mismatch(Operation::BinaryLinear));
    }
    match bias {
        Some(n) if n != shape.out_features => {
            Err(MetalError::Mismatch(Operation::BinaryLinear))
        },
        _ => Ok(()),
    }
}

/// Why a copy cannot be planned.
pub open spec fn identity_error(n: usize) -> Option<MetalError> {
    if n > u32::MAX {
        Some(MetalError::TooManyElements)
    } else {
        None
    }
}

/// The steps of a copy.
pub open spec fn identity_steps(n: usize) -> Seq<StepView> {
    let input: usize = 0;
    let output: usize = 1;
    seq![
        step(
            Kernel::Identity,
            seq![input, output],
            seq![n as u32],
        ),
    ]
}

/// Copies `n` numbers through the device.
pub fn identity(n: usize) -> (plan: Result<Plan, MetalError>)
    ensures
        match plan {
            Ok(p) => {
                &&& identity_error(n) is None
                &&& p.sound()
                &&& p.answers()
                &&& if n == 0 {
                    &&& p.lens() == Seq::<int>::empty()
                    &&& p.listed() == Seq::<StepView>::empty()
                    &&& p.outputs@ == Seq::<usize>::empty()
                } else {
                    &&& p.lens() == seq![n as int, n as int]
                    &&& p.listed() == identity_steps(n)
                    &&& p.outputs@ == seq![1usize]
                    &&& crate::flow::returned(p) == seq![
                        crate::flow::made(Kernel::Identity, 0, seq![n as u32], seq![crate::flow::put(0)]),
                    ]
                }
            },
            Err(error) => identity_error(n) == Some(error),
        },
{
    if n > u32::MAX as usize {
        return Err(MetalError::TooManyElements);
    }
    if n == 0 {
        return Ok(Plan::over(Vec::new()));
    }
    let mut plan = Plan::over(
        vec![
            given(n),
            given(n),
        ],
    );
    let input_at: usize = 0;
    let output_at: usize = 1;
    plan.identity(input_at, output_at, n as u32);
    plan.read(output_at);
    proof {
        assert(plan.lens() =~= seq![n as int, n as int]);
        assert(plan.outputs@ =~= seq![1usize]);
        assert(plan.listed() =~= identity_steps(n));
        crate::flow::law_identity_flow(plan, n);
    }
    Ok(plan)
}

/// Why the sum of a residual and its update cannot be planned.
pub open spec fn residual_add_error(residual: usize, update: usize) -> Option<MetalError> {
    if residual != update {
        Some(MetalError::Mismatch(Operation::ResidualAdd))
    } else if residual > u32::MAX {
        Some(MetalError::TooWide)
    } else {
        None
    }
}

/// The steps of the sum of a residual and its update.
pub open spec fn residual_add_steps(residual: usize) -> Seq<StepView> {
    let base: usize = 0;
    let change: usize = 1;
    let output: usize = 2;
    seq![
        step(
            Kernel::ResidualAdd,
            seq![base, change, output],
            seq![residual as u32],
        ),
    ]
}

/// Adds an update to a residual.
pub fn residual_add(residual: usize, update: usize) -> (plan: Result<Plan, MetalError>)
    ensures
        match plan {
            Ok(p) => {
                &&& residual_add_error(residual, update) is None
                &&& p.sound()
                &&& p.answers()
                &&& if residual == 0 {
                    &&& p.lens() == Seq::<int>::empty()
                    &&& p.listed() == Seq::<StepView>::empty()
                    &&& p.outputs@ == Seq::<usize>::empty()
                } else {
                    &&& p.lens() == seq![residual as int, update as int, residual as int]
                    &&& p.listed() == residual_add_steps(residual)
                    &&& p.outputs@ == seq![2usize]
                    &&& crate::flow::returned(p) == seq![
                        crate::flow::made(Kernel::ResidualAdd, 0, seq![residual as u32], seq![crate::flow::put(0), crate::flow::put(1)]),
                    ]
                }
            },
            Err(error) => residual_add_error(residual, update) == Some(error),
        },
{
    if residual != update {
        return Err(MetalError::Mismatch(Operation::ResidualAdd));
    }
    if residual > u32::MAX as usize {
        return Err(MetalError::TooWide);
    }
    if residual == 0 {
        return Ok(Plan::over(Vec::new()));
    }
    let mut plan = Plan::over(
        vec![
            given(residual),
            given(update),
            given(residual),
        ],
    );
    let base_at: usize = 0;
    let change_at: usize = 1;
    let output_at: usize = 2;
    plan.residual_add(base_at, change_at, output_at, residual as u32);
    plan.read(output_at);
    proof {
        assert(plan.lens() =~= seq![residual as int, update as int, residual as int]);
        assert(plan.outputs@ =~= seq![2usize]);
        assert(plan.listed() =~= residual_add_steps(residual));
        crate::flow::law_residual_add_flow(plan, residual);
    }
    Ok(plan)
}

/// Why the difference to the step before cannot be planned.
pub open spec fn time_shift_delta_error(
    input: usize,
    rows: usize,
    time: usize,
    channels: usize,
) -> Option<MetalError> {
    if rows * channels != input || time == 0 || rows % time != 0 {
        Some(MetalError::Mismatch(Operation::TimeShift))
    } else if input == 0 {
        Some(MetalError::Empty)
    } else if rows > u32::MAX || time > u32::MAX || channels > u32::MAX {
        Some(MetalError::TooWide)
    } else {
        None
    }
}

/// The steps of the difference to the step before.
pub open spec fn time_shift_delta_steps(
    rows: usize,
    time: usize,
    channels: usize,
) -> Seq<StepView> {
    let steps_in: usize = 0;
    let deltas: usize = 1;
    seq![
        step(
            Kernel::TimeShiftDelta,
            seq![steps_in, deltas],
            seq![rows as u32, time as u32, channels as u32],
        ),
    ]
}

/// Takes the difference of each step to the one before it.
pub fn time_shift_delta(
    input: usize,
    rows: usize,
    time: usize,
    channels: usize,
) -> (plan: Result<Plan, MetalError>)
    ensures
        match plan {
            Ok(p) => {
                &&& time_shift_delta_error(input, rows, time, channels) is None
                &&& p.sound()
                &&& p.answers()
                &&& p.lens() == seq![input as int, input as int]
                &&& p.listed() == time_shift_delta_steps(rows, time, channels)
                &&& p.outputs@ == seq![1usize]
                &&& crate::flow::returned(p) == seq![
                    crate::flow::made(Kernel::TimeShiftDelta, 0, seq![rows as u32, time as u32, channels as u32], seq![crate::flow::put(0)]),
                ]
            },
            Err(error) => time_shift_delta_error(input, rows, time, channels) == Some(error),
        },
{
    match rows.checked_mul(channels) {
        Some(all) if all == input => {},
        _ => return Err(MetalError::Mismatch(Operation::TimeShift)),
    }
    if time == 0 || rows % time != 0 {
        return Err(MetalError::Mismatch(Operation::TimeShift));
    }
    if input == 0 {
        return Err(MetalError::Empty);
    }
    let rows_w: u32 = match as_u32(rows) {
        Ok(w) => w,
        Err(e) => return Err(e),
    };
    let time_w: u32 = match as_u32(time) {
        Ok(w) => w,
        Err(e) => return Err(e),
    };
    let channels_w: u32 = match as_u32(channels) {
        Ok(w) => w,
        Err(e) => return Err(e),
    };
    let mut plan = Plan::over(
        vec![
            given(input),
            given(input),
        ],
    );
    let steps_in_at: usize = 0;
    let deltas_at: usize = 1;
    plan.time_shift_delta(steps_in_at, deltas_at, rows_w, time_w, channels_w);
    plan.read(deltas_at);
    proof {
        assert(plan.lens() =~= seq![input as int, input as int]);
        assert(plan.outputs@ =~= seq![1usize]);
        assert(plan.listed() =~= time_shift_delta_steps(rows, time, channels));
        crate::flow::law_time_shift_delta_flow(plan, rows, time, channels);
    }
    Ok(plan)
}

/// Why the packing of signs cannot be planned.
pub open spec fn sign_pack_bits_error(n: usize) -> Option<MetalError> {
    if n > u32::MAX {
        Some(MetalError::TooWide)
    } else {
        None
    }
}

/// The steps of the packing of signs.
pub open spec fn sign_pack_bits_steps(n: usize) -> Seq<StepView> {
    let input: usize = 0;
    let bits: usize = 1;
    seq![
        step(
            Kernel::SignPackBits,
            seq![input, bits],
            seq![n as u32],
        ),
    ]
}

/// Packs the signs of `n` numbers into words.
pub fn sign_pack_bits(n: usize) -> (plan: Result<Plan, MetalError>)
    ensures
        match plan {
            Ok(p) => {
                &&& sign_pack_bits_error(n) is None
                &&& p.sound()
                &&& p.answers()
                &&& if n == 0 {
                    &&& p.lens() == Seq::<int>::empty()
                    &&& p.listed() == Seq::<StepView>::empty()
                    &&& p.outputs@ == Seq::<usize>::empty()
                } else {
                    &&& p.lens() == seq![n as int, words(n as int)]
                    &&& p.listed() == sign_pack_bits_steps(n)
                    &&& p.outputs@ == seq![1usize]
                    &&& crate::flow::returned(p) == seq![
                        crate::flow::made(Kernel::SignPackBits, 0, seq![n as u32], seq![crate::flow::put(0)]),
                    ]
                }
            },
            Err(error) => sign_pack_bits_error(n) == Some(error),
        },
{
    if n > u32::MAX as usize {
        return Err(MetalError::TooWide);
    }
    if n == 0 {
        return Ok(Plan::over(Vec::new()));
    }
    let packed: usize = words_for(n);
    let mut plan = Plan::over(
        vec![
            given(n),
            given(packed),
        ],
    );
    let input_at: usize = 0;
    let bits_at: usize = 1;
    plan.sign_pack_bits(input_at, bits_at, n as u32);
    plan.read(bits_at);
    proof {
        assert(plan.lens() =~= seq![n as int, words(n as int)]);
        assert(plan.outputs@ =~= seq![1usize]);
        assert(plan.listed() =~= sign_pack_bits_steps(n));
        crate::flow::law_sign_pack_bits_flow(plan, n);
    }
    Ok(plan)
}

/// Why the squared rectifier cannot be planned.
pub open spec fn cmix_relu2_error(n: usize) -> Option<MetalError> {
    if n > u32::MAX {
        Some(MetalError::TooWide)
    } else {
        None
    }
}

/// The steps of the squared rectifier.
pub open spec fn cmix_relu2_steps(n: usize) -> Seq<StepView> {
    let input: usize = 0;
    let output: usize = 1;
    seq![
        step(
            Kernel::CmixRelu2,
            seq![input, output],
            seq![n as u32],
        ),
    ]
}

/// Squares what is above zero.
pub fn cmix_relu2(n: usize) -> (plan: Result<Plan, MetalError>)
    ensures
        match plan {
            Ok(p) => {
                &&& cmix_relu2_error(n) is None
                &&& p.sound()
                &&& p.answers()
                &&& if n == 0 {
                    &&& p.lens() == Seq::<int>::empty()
                    &&& p.listed() == Seq::<StepView>::empty()
                    &&& p.outputs@ == Seq::<usize>::empty()
                } else {
                    &&& p.lens() == seq![n as int, n as int]
                    &&& p.listed() == cmix_relu2_steps(n)
                    &&& p.outputs@ == seq![1usize]
                    &&& crate::flow::returned(p) == seq![
                        crate::flow::made(Kernel::CmixRelu2, 0, seq![n as u32], seq![crate::flow::put(0)]),
                    ]
                }
            },
            Err(error) => cmix_relu2_error(n) == Some(error),
        },
{
    if n > u32::MAX as usize {
        return Err(MetalError::TooWide);
    }
    if n == 0 {
        return Ok(Plan::over(Vec::new()));
    }
    let mut plan = Plan::over(
        vec![
            given(n),
            given(n),
        ],
    );
    let input_at: usize = 0;
    let output_at: usize = 1;
    plan.cmix_relu2(input_at, output_at, n as u32);
    plan.read(output_at);
    proof {
        assert(plan.lens() =~= seq![n as int, n as int]);
        assert(plan.outputs@ =~= seq![1usize]);
        assert(plan.listed() =~= cmix_relu2_steps(n));
        crate::flow::law_cmix_relu2_flow(plan, n);
    }
    Ok(plan)
}

/// Why the gradient of the squared rectifier cannot be planned.
pub open spec fn cmix_relu2_backward_error(input: usize, gradient: usize) -> Option<MetalError> {
    if input != gradient {
        Some(MetalError::Mismatch(Operation::Relu2Backward))
    } else if input > u32::MAX {
        Some(MetalError::TooWide)
    } else {
        None
    }
}

/// The steps of the gradient of the squared rectifier.
pub open spec fn cmix_relu2_backward_steps(input: usize) -> Seq<StepView> {
    let x: usize = 0;
    let gy: usize = 1;
    let gx: usize = 2;
    seq![
        step(
            Kernel::CmixRelu2Backward,
            seq![x, gy, gx],
            seq![input as u32],
        ),
    ]
}

/// The gradient of the squared rectifier.
pub fn cmix_relu2_backward(input: usize, gradient: usize) -> (plan: Result<Plan, MetalError>)
    ensures
        match plan {
            Ok(p) => {
                &&& cmix_relu2_backward_error(input, gradient) is None
                &&& p.sound()
                &&& p.answers()
                &&& if input == 0 {
                    &&& p.lens() == Seq::<int>::empty()
                    &&& p.listed() == Seq::<StepView>::empty()
                    &&& p.outputs@ == Seq::<usize>::empty()
                } else {
                    &&& p.lens() == seq![input as int, gradient as int, input as int]
                    &&& p.listed() == cmix_relu2_backward_steps(input)
                    &&& p.outputs@ == seq![2usize]
                    &&& crate::flow::returned(p) == seq![
                        crate::flow::made(Kernel::CmixRelu2Backward, 0, seq![input as u32], seq![crate::flow::put(0), crate::flow::put(1)]),
                    ]
                }
            },
            Err(error) => cmix_relu2_backward_error(input, gradient) == Some(error),
        },
{
    if input != gradient {
        return Err(MetalError::Mismatch(Operation::Relu2Backward));
    }
    if input > u32::MAX as usize {
        return Err(MetalError::TooWide);
    }
    if input == 0 {
        return Ok(Plan::over(Vec::new()));
    }
    let mut plan = Plan::over(
        vec![
            given(input),
            given(gradient),
            given(input),
        ],
    );
    let x_at: usize = 0;
    let gy_at: usize = 1;
    let gx_at: usize = 2;
    plan.cmix_relu2_backward(x_at, gy_at, gx_at, input as u32);
    plan.read(gx_at);
    proof {
        assert(plan.lens() =~= seq![input as int, gradient as int, input as int]);
        assert(plan.outputs@ =~= seq![2usize]);
        assert(plan.listed() =~= cmix_relu2_backward_steps(input));
        crate::flow::law_cmix_relu2_backward_flow(plan, input);
    }
    Ok(plan)
}

/// Why a layer norm cannot be planned.
pub open spec fn layer_norm_error(
    input: usize,
    weight: usize,
    bias: usize,
    rows: usize,
    channels: usize,
) -> Option<MetalError> {
    if rows * channels != input || weight != channels || bias != channels {
        Some(MetalError::Mismatch(Operation::LayerNorm))
    } else if rows == 0 {
        Some(MetalError::Empty)
    } else if rows > u32::MAX || channels > u32::MAX {
        Some(MetalError::TooWide)
    } else {
        None
    }
}

/// The steps of a layer norm.
pub open spec fn layer_norm_steps(rows: usize, channels: usize) -> Seq<StepView> {
    let x: usize = 0;
    let scale: usize = 1;
    let offset: usize = 2;
    let output: usize = 3;
    seq![
        step(
            Kernel::LayerNorm,
            seq![x, scale, offset, output],
            seq![rows as u32, channels as u32],
        ),
    ]
}

/// Normalises each row, with a weight and a bias for each channel.
pub fn layer_norm(
    input: usize,
    weight: usize,
    bias: usize,
    rows: usize,
    channels: usize,
) -> (plan: Result<Plan, MetalError>)
    ensures
        match plan {
            Ok(p) => {
                &&& layer_norm_error(input, weight, bias, rows, channels) is None
                &&& p.sound()
                &&& p.answers()
                &&& p.lens() == seq![input as int, weight as int, bias as int, input as int]
                &&& p.listed() == layer_norm_steps(rows, channels)
                &&& p.outputs@ == seq![3usize]
                &&& crate::flow::returned(p) == seq![
                    crate::flow::made(Kernel::LayerNorm, 0, seq![rows as u32, channels as u32], seq![crate::flow::put(0), crate::flow::put(1), crate::flow::put(2)]),
                ]
            },
            Err(error) => layer_norm_error(input, weight, bias, rows, channels) == Some(error),
        },
{
    match rows.checked_mul(channels) {
        Some(all) if all == input => {},
        _ => return Err(MetalError::Mismatch(Operation::LayerNorm)),
    }
    if weight != channels || bias != channels {
        return Err(MetalError::Mismatch(Operation::LayerNorm));
    }
    if rows == 0 {
        return Err(MetalError::Empty);
    }
    let rows_w: u32 = match as_u32(rows) {
        Ok(w) => w,
        Err(e) => return Err(e),
    };
    let channels_w: u32 = match as_u32(channels) {
        Ok(w) => w,
        Err(e) => return Err(e),
    };
    let mut plan = Plan::over(
        vec![
            given(input),
            given(weight),
            given(bias),
            given(input),
        ],
    );
    let x_at: usize = 0;
    let scale_at: usize = 1;
    let offset_at: usize = 2;
    let output_at: usize = 3;
    plan.layer_norm(x_at, scale_at, offset_at, output_at, rows_w, channels_w);
    plan.read(output_at);
    proof {
        assert(plan.lens() =~= seq![input as int, weight as int, bias as int, input as int]);
        assert(plan.outputs@ =~= seq![3usize]);
        assert(plan.listed() =~= layer_norm_steps(rows, channels));
        crate::flow::law_layer_norm_flow(plan, rows, channels);
    }
    Ok(plan)
}

/// Why the gradient of a layer norm cannot be planned.
pub open spec fn layer_norm_backward_error(
    input: usize,
    gradient: usize,
    weight: usize,
    rows: usize,
    channels: usize,
) -> Option<MetalError> {
    if rows * channels != input || gradient != input || weight != channels {
        Some(MetalError::Mismatch(Operation::LayerNormBackward))
    } else if rows == 0 {
        Some(MetalError::Empty)
    } else if rows > u32::MAX || channels > u32::MAX {
        Some(MetalError::TooWide)
    } else if channels == 0 {
        Some(MetalError::Empty)
    } else {
        None
    }
}

/// The steps of the gradient of a layer norm.
pub open spec fn layer_norm_backward_steps(rows: usize, channels: usize) -> Seq<StepView> {
    let x: usize = 0;
    let gy: usize = 1;
    let scale: usize = 2;
    let gx: usize = 3;
    let mean: usize = 4;
    let inverse: usize = 5;
    let g_weight: usize = 6;
    let g_bias: usize = 7;
    seq![
        step(
            Kernel::LayerNormBackward,
            seq![x, gy, scale, gx, mean, inverse],
            seq![rows as u32, channels as u32],
        ),
        step(
            Kernel::LayerNormParamBwd,
            seq![x, gy, mean, inverse, g_weight, g_bias],
            seq![rows as u32, channels as u32],
        ),
    ]
}

/// The gradients of a layer norm: of its input, and of its weight and bias.
pub fn layer_norm_backward(
    input: usize,
    gradient: usize,
    weight: usize,
    rows: usize,
    channels: usize,
) -> (plan: Result<Plan, MetalError>)
    ensures
        match plan {
            Ok(p) => {
                &&& layer_norm_backward_error(
                    input,
                    gradient,
                    weight,
                    rows,
                    channels,
                ) is None
                &&& p.sound()
                &&& p.answers()
                &&& p.lens() == seq![
                    input as int,
                    gradient as int,
                    weight as int,
                    input as int,
                    rows as int,
                    rows as int,
                    channels as int,
                    channels as int,
                ]
                &&& p.listed() == layer_norm_backward_steps(rows, channels)
                &&& p.outputs@ == seq![3usize, 6usize, 7usize]
                &&& ({
                    let c = seq![rows as u32, channels as u32];
                    let of_rows = seq![crate::flow::put(0), crate::flow::put(1), crate::flow::put(2)];
                    let mean = crate::flow::made(Kernel::LayerNormBackward, 1, c, of_rows);
                    let inverse = crate::flow::made(Kernel::LayerNormBackward, 2, c, of_rows);
                    let of_moments = seq![crate::flow::put(0), crate::flow::put(1), mean, inverse];
                    crate::flow::returned(p) == seq![
                        crate::flow::made(Kernel::LayerNormBackward, 0, c, of_rows),
                        crate::flow::made(Kernel::LayerNormParamBwd, 0, c, of_moments),
                        crate::flow::made(Kernel::LayerNormParamBwd, 1, c, of_moments),
                    ]
                })
            },
            Err(error) => layer_norm_backward_error(input, gradient, weight, rows, channels)
                == Some(error),
        },
{
    match rows.checked_mul(channels) {
        Some(all) if all == input => {},
        _ => return Err(MetalError::Mismatch(Operation::LayerNormBackward)),
    }
    if gradient != input || weight != channels {
        return Err(MetalError::Mismatch(Operation::LayerNormBackward));
    }
    if rows == 0 {
        return Err(MetalError::Empty);
    }
    let rows_w: u32 = match as_u32(rows) {
        Ok(w) => w,
        Err(e) => return Err(e),
    };
    let channels_w: u32 = match as_u32(channels) {
        Ok(w) => w,
        Err(e) => return Err(e),
    };
    if channels == 0 {
        return Err(MetalError::Empty);
    }
    let mut plan = Plan::over(
        vec![
            given(input),
            given(gradient),
            given(weight),
            scratch(input),
            scratch(rows),
            scratch(rows),
            scratch(channels),
            scratch(channels),
        ],
    );
    let x_at: usize = 0;
    let gy_at: usize = 1;
    let scale_at: usize = 2;
    let gx_at: usize = 3;
    let mean_at: usize = 4;
    let inverse_at: usize = 5;
    let g_weight_at: usize = 6;
    let g_bias_at: usize = 7;
    plan.layer_norm_backward(
        x_at,
        gy_at,
        scale_at,
        gx_at,
        mean_at,
        inverse_at,
        rows_w,
        channels_w,
    );
    plan.layer_norm_param_bwd(
        x_at,
        gy_at,
        mean_at,
        inverse_at,
        g_weight_at,
        g_bias_at,
        rows_w,
        channels_w,
    );
    plan.read(gx_at);
    plan.read(g_weight_at);
    plan.read(g_bias_at);
    proof {
        assert(plan.lens() =~= seq![
            input as int,
            gradient as int,
            weight as int,
            input as int,
            rows as int,
            rows as int,
            channels as int,
            channels as int,
        ]);
        assert(plan.outputs@ =~= seq![3usize, 6usize, 7usize]);
        assert(plan.listed() =~= layer_norm_backward_steps(rows, channels));
        crate::flow::law_layer_norm_backward_flow(plan, rows, channels);
    }
    Ok(plan)
}

/// Why a packed projection cannot be planned.
pub open spec fn binary_linear_error(
    input: usize,
    bits: usize,
    scale: usize,
    bias: Option<usize>,
    shape: LinearDispatchShape,
) -> Option<MetalError> {
    binary_error(input as int, bits as int, scale as int, bias, shape)
}

/// The steps of a packed projection.
pub open spec fn binary_linear_steps(
    bias: Option<usize>,
    shape: LinearDispatchShape,
) -> Seq<StepView> {
    let x: usize = 0;
    let packed: usize = 1;
    let scales: usize = 2;
    let offset: usize = 3;
    let output: usize = 4;
    seq![
        step(
            Kernel::BinaryLinear,
            seq![x, packed, scales, offset, output],
            seq![
                shape.rows as u32,
                shape.in_features as u32,
                shape.out_features as u32,
                has_bias_of(bias),
            ],
        ),
    ]
}

/// Projects with weights of one bit each, a scale for each output, and a bias
/// where there is one.
pub fn binary_linear(
    input: usize,
    bits: usize,
    scale: usize,
    bias: Option<usize>,
    shape: LinearDispatchShape,
) -> (plan: Result<Plan, MetalError>)
    requires
        shape.holds(),
        shape.within_32_bits(),
    ensures
        match plan {
            Ok(p) => {
                &&& binary_linear_error(input, bits, scale, bias, shape) is None
                &&& p.sound()
                &&& p.answers()
                &&& p.lens() == seq![
                    input as int,
                    bits as int,
                    scale as int,
                    bias_len_of(bias),
                    shape.rows * shape.out_features,
                ]
                &&& p.listed() == binary_linear_steps(bias, shape)
                &&& p.outputs@ == seq![4usize]
                &&& ({
                    let offset = if bias is Some {
                        Some(crate::flow::put(3))
                    } else {
                        None
                    };
                    crate::flow::returned(p) == seq![
                        crate::flow::projected(shape.rows as int, shape.in_features as int, shape.out_features as int, crate::flow::put(0), crate::flow::put(1), crate::flow::put(2), offset),
                    ]
                })
            },
            Err(error) => binary_linear_error(input, bits, scale, bias, shape) == Some(error),
        },
{
    match check_binary_shape(input, bits, scale, bias, shape) {
        Ok(_) => {},
        Err(e) => return Err(e),
    }
    let has_bias: u32 = match bias {
        Some(_) => 1,
        None => 0,
    };
    let bias_len: usize = match bias {
        Some(n) => n,
        None => 0,
    };
    let out_len: usize = shape.rows * shape.out_features;
    let mut plan = Plan::over(
        vec![
            given(input),
            given(bits),
            given(scale),
            given(bias_len),
            given(out_len),
        ],
    );
    let x_at: usize = 0;
    let packed_at: usize = 1;
    let scales_at: usize = 2;
    let offset_at: usize = 3;
    let output_at: usize = 4;
    plan.binary_linear(
        x_at,
        packed_at,
        scales_at,
        offset_at,
        output_at,
        shape.rows as u32,
        shape.in_features as u32,
        shape.out_features as u32,
        has_bias,
    );
    plan.read(output_at);
    proof {
        assert(plan.lens() =~= seq![
            input as int,
            bits as int,
            scale as int,
            bias_len_of(bias),
            shape.rows * shape.out_features,
        ]);
        assert(plan.outputs@ =~= seq![4usize]);
        assert(plan.listed() =~= binary_linear_steps(bias, shape));
        crate::flow::law_binary_linear_flow(plan, bias, shape);
    }
    Ok(plan)
}

/// The lengths of one of the operands of three packed projections.
#[derive(Clone, Copy, Debug, PartialEq, Eq, Structural)]
pub struct PackedOperand {
    pub input: usize,
    pub bits: usize,
    pub scale: usize,
    pub bias: Option<usize>,
}

impl PackedOperand {
    /// Why this operand cannot be projected.
    pub open spec fn error(self, shape: LinearDispatchShape) -> Option<MetalError> {
        binary_error(self.input as int, self.bits as int, self.scale as int, self.bias, shape)
    }
}

/// Why three packed projections cannot be planned: the first operand that does
/// not fit.
pub open spec fn binary_linear_pack3_error(
    first: PackedOperand,
    second: PackedOperand,
    third: PackedOperand,
    shape: LinearDispatchShape,
) -> Option<MetalError> {
    match first.error(shape) {
        Some(e) => Some(e),
        None => match second.error(shape) {
            Some(e) => Some(e),
            None => third.error(shape),
        },
    }
}

/// One of three packed projections, over the buffers from `at` on.
pub open spec fn pack3_step(
    at: usize,
    bias: Option<usize>,
    shape: LinearDispatchShape,
) -> StepView {
    step(
        Kernel::BinaryLinear,
        seq![
            at,
            (at + 1) as usize,
            (at + 2) as usize,
            (at + 3) as usize,
            (at + 4) as usize,
        ],
        seq![
            shape.rows as u32,
            shape.in_features as u32,
            shape.out_features as u32,
            has_bias_of(bias),
        ],
    )
}

/// The steps of three packed projections.
pub open spec fn binary_linear_pack3_steps(
    first: PackedOperand,
    second: PackedOperand,
    third: PackedOperand,
    shape: LinearDispatchShape,
) -> Seq<StepView> {
    seq![
        pack3_step(0, first.bias, shape),
        pack3_step(5, second.bias, shape),
        pack3_step(10, third.bias, shape),
    ]
}

impl Plan {
    fn project(&mut self, at: usize, bias: Option<usize>, shape: LinearDispatchShape)
        requires
            old(self).sound(),
            old(self).outputs@.len() == 0,
            shape.within_32_bits(),
            at + 4 < old(self).buffers@.len() <= u32::MAX,
            old(self).room(at, shape.rows * shape.in_features),
            old(self).holds(at),
            old(self).room((at + 1) as usize, words(shape.in_features * shape.out_features)),
            old(self).holds((at + 1) as usize),
            old(self).room((at + 2) as usize, shape.out_features as int),
            old(self).holds((at + 2) as usize),
            old(self).room((at + 3) as usize, bias_len_of(bias)),
            old(self).holds((at + 3) as usize),
            old(self).room((at + 4) as usize, shape.rows * shape.out_features),
            bias matches Some(n) ==> n == shape.out_features,
        ensures
            final(self).sound(),
            final(self).answers(),
            final(self).outputs@ == old(self).outputs@,
            final(self).buffers@ == old(self).buffers@,
            final(self).listed() == old(self).listed().push(pack3_step(at, bias, shape)),
            final(self).holds((at + 4) as usize),
            forall|i: usize|
                i < old(self).buffers@.len() && old(self).holds(i) ==> #[trigger] final(self).holds(
                    i,
                ),
    {
        let has_bias: u32 = match bias {
            Some(_) => 1,
            None => 0,
        };
        self.binary_linear(
            at,
            at + 1,
            at + 2,
            at + 3,
            at + 4,
            shape.rows as u32,
            shape.in_features as u32,
            shape.out_features as u32,
            has_bias,
        );
    }
}

fn bias_length(bias: Option<usize>) -> (n: usize)
    ensures
        n == bias_len_of(bias),
{
    match bias {
        Some(n) => n,
        None => 0,
    }
}

/// Three packed projections of the same shape in one submission.
pub fn binary_linear_pack3(
    first: PackedOperand,
    second: PackedOperand,
    third: PackedOperand,
    shape: LinearDispatchShape,
) -> (plan: Result<Plan, MetalError>)
    requires
        shape.holds(),
        shape.within_32_bits(),
    ensures
        match plan {
            Ok(p) => {
                &&& binary_linear_pack3_error(first, second, third, shape) is None
                &&& p.sound()
                &&& p.answers()
                &&& p.lens() == seq![
                    first.input as int,
                    first.bits as int,
                    first.scale as int,
                    bias_len_of(first.bias),
                    shape.rows * shape.out_features,
                    second.input as int,
                    second.bits as int,
                    second.scale as int,
                    bias_len_of(second.bias),
                    shape.rows * shape.out_features,
                    third.input as int,
                    third.bits as int,
                    third.scale as int,
                    bias_len_of(third.bias),
                    shape.rows * shape.out_features,
                ]
                &&& p.listed() == binary_linear_pack3_steps(first, second, third, shape)
                &&& p.outputs@ == seq![4usize, 9usize, 14usize]
                &&& ({
                    let of = |at: int, bias: Option<usize>| crate::flow::projected(shape.rows as int, shape.in_features as int, shape.out_features as int, crate::flow::put(at), crate::flow::put(at + 1), crate::flow::put(at + 2), if bias is Some {
                            Some(crate::flow::put(at + 3))
                        } else {
                            None
                        });
                    crate::flow::returned(p) == seq![
                        of(0, first.bias),
                        of(5, second.bias),
                        of(10, third.bias),
                    ]
                })
            },
            Err(error) => binary_linear_pack3_error(first, second, third, shape) == Some(error),
        },
{
    match check_binary_shape(first.input, first.bits, first.scale, first.bias, shape) {
        Ok(_) => {},
        Err(e) => return Err(e),
    }
    match check_binary_shape(second.input, second.bits, second.scale, second.bias, shape) {
        Ok(_) => {},
        Err(e) => return Err(e),
    }
    match check_binary_shape(third.input, third.bits, third.scale, third.bias, shape) {
        Ok(_) => {},
        Err(e) => return Err(e),
    }
    let out_len: usize = shape.rows * shape.out_features;
    let mut plan = Plan::over(
        vec![
            given(first.input),
            given(first.bits),
            given(first.scale),
            given(bias_length(first.bias)),
            scratch(out_len),
            given(second.input),
            given(second.bits),
            given(second.scale),
            given(bias_length(second.bias)),
            scratch(out_len),
            given(third.input),
            given(third.bits),
            given(third.scale),
            given(bias_length(third.bias)),
            scratch(out_len),
        ],
    );
    plan.project(0, first.bias, shape);
    plan.project(5, second.bias, shape);
    plan.project(10, third.bias, shape);
    plan.read(4);
    plan.read(9);
    plan.read(14);
    proof {
        assert(plan.lens() =~= seq![
            first.input as int,
            first.bits as int,
            first.scale as int,
            bias_len_of(first.bias),
            shape.rows * shape.out_features,
            second.input as int,
            second.bits as int,
            second.scale as int,
            bias_len_of(second.bias),
            shape.rows * shape.out_features,
            third.input as int,
            third.bits as int,
            third.scale as int,
            bias_len_of(third.bias),
            shape.rows * shape.out_features,
        ]);
        assert(plan.outputs@ =~= seq![4usize, 9usize, 14usize]);
        assert(plan.listed() =~= binary_linear_pack3_steps(first, second, third, shape));
        crate::flow::law_binary_linear_pack3_flow(plan, first, second, third, shape);
    }
    Ok(plan)
}

/// Why the gradient of a packed projection cannot be planned.
pub open spec fn binary_linear_backward_error(
    input: usize,
    gradient: usize,
    bits: usize,
    scale: usize,
    has_bias: bool,
    shape: LinearDispatchShape,
) -> Option<MetalError> {
    match binary_error(input as int, bits as int, scale as int, None, shape) {
        Some(e) => Some(e),
        None => if gradient != shape.rows * shape.out_features {
            Some(MetalError::Mismatch(Operation::BinaryGradient))
        } else {
            None
        },
    }
}

/// The steps of the gradient of a packed projection.
pub open spec fn binary_linear_backward_steps(
    has_bias: bool,
    shape: LinearDispatchShape,
) -> Seq<StepView> {
    let x: usize = 0;
    let gy: usize = 1;
    let packed: usize = 2;
    let scales: usize = 3;
    let gx: usize = 4;
    let g_scale: usize = 5;
    let g_bias: usize = 6;
    let gw: usize = 7;
    seq![
        step(
            Kernel::BinaryLinearInputBwd,
            seq![gy, packed, scales, gx],
            seq![shape.rows as u32, shape.in_features as u32, shape.out_features as u32],
        ),
        step(
            Kernel::BinaryLinearScaleBwd,
            seq![x, gy, packed, g_scale, g_bias],
            seq![
                shape.rows as u32,
                shape.in_features as u32,
                shape.out_features as u32,
                flag_of(has_bias),
            ],
        ),
        step(
            Kernel::BinaryLinearWeightBwd,
            seq![x, gy, scales, gw],
            seq![shape.rows as u32, shape.in_features as u32, shape.out_features as u32],
        ),
    ]
}

/// The gradients of a packed projection: of its input, its scale and bias, and
/// its weights.
#[verifier::rlimit(40)]
pub fn binary_linear_backward(
    input: usize,
    gradient: usize,
    bits: usize,
    scale: usize,
    has_bias: bool,
    shape: LinearDispatchShape,
) -> (plan: Result<Plan, MetalError>)
    requires
        shape.holds(),
        shape.within_32_bits(),
    ensures
        match plan {
            Ok(p) => {
                &&& binary_linear_backward_error(
                    input,
                    gradient,
                    bits,
                    scale,
                    has_bias,
                    shape,
                ) is None
                &&& p.sound()
                &&& p.answers()
                &&& p.lens() == seq![
                    input as int,
                    gradient as int,
                    bits as int,
                    scale as int,
                    input as int,
                    shape.out_features as int,
                    shape.out_features as int,
                    shape.out_features * shape.in_features,
                ]
                &&& p.listed() == binary_linear_backward_steps(has_bias, shape)
                &&& p.outputs@ == seq![4usize, 5usize, 7usize, 6usize]
                &&& ({
                    let c = seq![shape.rows as u32, shape.in_features as u32, shape.out_features as u32];
                    let with_flag = seq![shape.rows as u32, shape.in_features as u32, shape.out_features as u32, if has_bias {
                        1
                    } else {
                        0
                    }];
                    let of_scale = seq![crate::flow::put(0), crate::flow::put(1), crate::flow::put(2)];
                    crate::flow::returned(p) == seq![
                        crate::flow::made(Kernel::BinaryLinearInputBwd, 0, c, seq![crate::flow::put(1), crate::flow::put(2), crate::flow::put(3)]),
                        crate::flow::made(Kernel::BinaryLinearScaleBwd, 0, with_flag, of_scale),
                        crate::flow::made(Kernel::BinaryLinearWeightBwd, 0, c, seq![crate::flow::put(0), crate::flow::put(1), crate::flow::put(3)]),
                        crate::flow::made(Kernel::BinaryLinearScaleBwd, 1, with_flag, of_scale),
                    ]
                })
            },
            Err(error) => binary_linear_backward_error(
                input,
                gradient,
                bits,
                scale,
                has_bias,
                shape,
            ) == Some(error),
        },
{
    match check_binary_shape(input, bits, scale, None, shape) {
        Ok(_) => {},
        Err(e) => return Err(e),
    }
    if gradient != shape.rows * shape.out_features {
        return Err(MetalError::Mismatch(Operation::BinaryGradient));
    }
    let flag: u32 = if has_bias {
        1
    } else {
        0
    };
    proof {
        lemma_swap(shape.in_features as int, shape.out_features as int);
    }
    let weights: usize = shape.out_features * shape.in_features;
    let mut plan = Plan::over(
        vec![
            given(input),
            given(gradient),
            given(bits),
            given(scale),
            scratch(input),
            scratch(shape.out_features),
            scratch(shape.out_features),
            scratch(weights),
        ],
    );
    let x_at: usize = 0;
    let gy_at: usize = 1;
    let packed_at: usize = 2;
    let scales_at: usize = 3;
    let gx_at: usize = 4;
    let g_scale_at: usize = 5;
    let g_bias_at: usize = 6;
    let gw_at: usize = 7;
    plan.binary_linear_input_bwd(
        gy_at,
        packed_at,
        scales_at,
        gx_at,
        shape.rows as u32,
        shape.in_features as u32,
        shape.out_features as u32,
    );
    plan.binary_linear_scale_bwd(
        x_at,
        gy_at,
        packed_at,
        g_scale_at,
        g_bias_at,
        shape.rows as u32,
        shape.in_features as u32,
        shape.out_features as u32,
        flag,
    );
    plan.binary_linear_weight_bwd(
        x_at,
        gy_at,
        scales_at,
        gw_at,
        shape.rows as u32,
        shape.in_features as u32,
        shape.out_features as u32,
    );
    plan.read(gx_at);
    plan.read(g_scale_at);
    plan.read(gw_at);
    plan.read(g_bias_at);
    proof {
        assert(plan.lens() =~= seq![
            input as int,
            gradient as int,
            bits as int,
            scale as int,
            input as int,
            shape.out_features as int,
            shape.out_features as int,
            shape.out_features * shape.in_features,
        ]);
        assert(plan.outputs@ =~= seq![4usize, 5usize, 7usize, 6usize]);
        assert(plan.listed() =~= binary_linear_backward_steps(has_bias, shape));
        crate::flow::law_binary_linear_backward_flow(plan, has_bias, shape);
    }
    Ok(plan)
}

/// Why the gradient of packed weights cannot be planned.
pub open spec fn binary_linear_weight_bwd_error(
    input: usize,
    gradient: usize,
    scale: usize,
    shape: LinearDispatchShape,
) -> Option<MetalError> {
    if input != shape.rows * shape.in_features || gradient != shape.rows * shape.out_features
        || scale        != shape.out_features {
        Some(MetalError::Mismatch(Operation::WeightGradient))
    } else if shape.out_features * shape.in_features > usize::MAX {
        Some(MetalError::WeightOverflow)
    } else {
        None
    }
}

/// The steps of the gradient of packed weights.
pub open spec fn binary_linear_weight_bwd_steps(shape: LinearDispatchShape) -> Seq<StepView> {
    let x: usize = 0;
    let gy: usize = 1;
    let scales: usize = 2;
    let gw: usize = 3;
    seq![
        step(
            Kernel::BinaryLinearWeightBwd,
            seq![x, gy, scales, gw],
            seq![shape.rows as u32, shape.in_features as u32, shape.out_features as u32],
        ),
    ]
}

/// The gradient of the weights of a packed projection.
pub fn binary_linear_weight_bwd(
    input: usize,
    gradient: usize,
    scale: usize,
    shape: LinearDispatchShape,
) -> (plan: Result<Plan, MetalError>)
    requires
        shape.holds(),
        shape.within_32_bits(),
    ensures
        match plan {
            Ok(p) => {
                &&& binary_linear_weight_bwd_error(input, gradient, scale, shape) is None
                &&& p.sound()
                &&& p.answers()
                &&& p.lens() == seq![
                    input as int,
                    gradient as int,
                    scale as int,
                    shape.out_features * shape.in_features,
                ]
                &&& p.listed() == binary_linear_weight_bwd_steps(shape)
                &&& p.outputs@ == seq![3usize]
                &&& crate::flow::returned(p) == seq![
                    crate::flow::made(Kernel::BinaryLinearWeightBwd, 0, seq![shape.rows as u32, shape.in_features as u32, shape.out_features as u32], seq![crate::flow::put(0), crate::flow::put(1), crate::flow::put(2)]),
                ]
            },
            Err(error) => binary_linear_weight_bwd_error(input, gradient, scale, shape)
                == Some(error),
        },
{
    match shape.rows.checked_mul(shape.in_features) {
        Some(all) if all == input => {},
        _ => return Err(MetalError::Mismatch(Operation::WeightGradient)),
    }
    if gradient != shape.rows * shape.out_features || scale != shape.out_features {
        return Err(MetalError::Mismatch(Operation::WeightGradient));
    }
    proof {
        lemma_swap(shape.in_features as int, shape.out_features as int);
    }
    let weights: usize = match shape.out_features.checked_mul(shape.in_features) {
        Some(all) => all,
        None => return Err(MetalError::WeightOverflow),
    };
    let mut plan = Plan::over(
        vec![
            given(input),
            given(gradient),
            given(scale),
            scratch(weights),
        ],
    );
    let x_at: usize = 0;
    let gy_at: usize = 1;
    let scales_at: usize = 2;
    let gw_at: usize = 3;
    plan.binary_linear_weight_bwd(
        x_at,
        gy_at,
        scales_at,
        gw_at,
        shape.rows as u32,
        shape.in_features as u32,
        shape.out_features as u32,
    );
    plan.read(gw_at);
    proof {
        assert(plan.lens() =~= seq![
            input as int,
            gradient as int,
            scale as int,
            shape.out_features * shape.in_features,
        ]);
        assert(plan.outputs@ =~= seq![3usize]);
        assert(plan.listed() =~= binary_linear_weight_bwd_steps(shape));
        crate::flow::law_binary_linear_weight_bwd_flow(plan, shape);
    }
    Ok(plan)
}

/// Why a step of packed weights cannot be planned.
pub open spec fn binary_linear_latent_sgd_error(
    latent: usize,
    input: usize,
    gradient: usize,
    scale: usize,
    learning_rate: u32,
    shape: LinearDispatchShape,
) -> Option<MetalError> {
    if shape.out_features * shape.in_features > usize::MAX {
        Some(MetalError::WeightOverflow)
    } else if latent != shape.out_features * shape.in_features || input != shape.rows
        * shape.in_features || gradient != shape.rows * shape.out_features || scale
        != shape.out_features {
        Some(MetalError::Mismatch(Operation::LatentSgd))
    } else {
        None
    }
}

/// The steps of a step of packed weights.
pub open spec fn binary_linear_latent_sgd_steps(
    learning_rate: u32,
    shape: LinearDispatchShape,
) -> Seq<StepView> {
    let parameters: usize = 0;
    let packed: usize = 1;
    let x: usize = 2;
    let gy: usize = 3;
    let scales: usize = 4;
    let gw: usize = 5;
    seq![
        step(
            Kernel::BinaryLinearLatentSgd,
            seq![parameters, packed, x, gy, scales, gw],
            seq![
                shape.rows as u32,
                shape.in_features as u32,
                shape.out_features as u32,
                learning_rate,
            ],
        ),
    ]
}

/// Moves the latent weights of a packed projection against their gradient, and
/// packs them anew.
pub fn binary_linear_latent_sgd(
    latent: usize,
    input: usize,
    gradient: usize,
    scale: usize,
    learning_rate: u32,
    shape: LinearDispatchShape,
) -> (plan: Result<Plan, MetalError>)
    requires
        shape.holds(),
        shape.within_32_bits(),
    ensures
        match plan {
            Ok(p) => {
                &&& binary_linear_latent_sgd_error(
                    latent,
                    input,
                    gradient,
                    scale,
                    learning_rate,
                    shape,
                ) is None
                &&& p.sound()
                &&& p.answers()
                &&& p.lens() == seq![
                    latent as int,
                    words(shape.out_features * shape.in_features),
                    input as int,
                    gradient as int,
                    scale as int,
                    shape.out_features * shape.in_features,
                ]
                &&& p.listed() == binary_linear_latent_sgd_steps(learning_rate, shape)
                &&& p.outputs@ == seq![0usize, 1usize, 5usize]
                &&& ({
                    let c = seq![shape.rows as u32, shape.in_features as u32, shape.out_features as u32, learning_rate];
                    let from = seq![crate::flow::put(0), crate::flow::put(2), crate::flow::put(3), crate::flow::put(4)];
                    crate::flow::returned(p) == seq![
                        crate::flow::made(Kernel::BinaryLinearLatentSgd, 0, c, from),
                        crate::flow::made(Kernel::BinaryLinearLatentSgd, 1, c, from),
                        crate::flow::made(Kernel::BinaryLinearLatentSgd, 2, c, from),
                    ]
                })
            },
            Err(error) => binary_linear_latent_sgd_error(
                latent,
                input,
                gradient,
                scale,
                learning_rate,
                shape,
            ) == Some(error),
        },
{
    proof {
        lemma_swap(shape.in_features as int, shape.out_features as int);
        lemma_product_of_three(shape.out_features as int, shape.in_features as int, 1);
    }
    let weights: usize = match shape.out_features.checked_mul(shape.in_features) {
        Some(all) => all,
        None => return Err(MetalError::WeightOverflow),
    };
    match shape.rows.checked_mul(shape.in_features) {
        Some(all) if all == input => {},
        _ => return Err(MetalError::Mismatch(Operation::LatentSgd)),
    }
    if latent != weights || gradient != shape.rows * shape.out_features || scale
        != shape.out_features {
        return Err(MetalError::Mismatch(Operation::LatentSgd));
    }
    let packed_words: usize = words_for(weights);
    let mut plan = Plan::over(
        vec![
            given(latent),
            given(packed_words),
            given(input),
            given(gradient),
            given(scale),
            given(weights),
        ],
    );
    let parameters_at: usize = 0;
    let packed_at: usize = 1;
    let x_at: usize = 2;
    let gy_at: usize = 3;
    let scales_at: usize = 4;
    let gw_at: usize = 5;
    plan.binary_linear_latent_sgd(
        parameters_at,
        packed_at,
        x_at,
        gy_at,
        scales_at,
        gw_at,
        shape.rows as u32,
        shape.in_features as u32,
        shape.out_features as u32,
        learning_rate,
    );
    plan.read(parameters_at);
    plan.read(packed_at);
    plan.read(gw_at);
    proof {
        assert(plan.lens() =~= seq![
            latent as int,
            words(shape.out_features * shape.in_features),
            input as int,
            gradient as int,
            scale as int,
            shape.out_features * shape.in_features,
        ]);
        assert(plan.outputs@ =~= seq![0usize, 1usize, 5usize]);
        assert(plan.listed() =~= binary_linear_latent_sgd_steps(learning_rate, shape));
        crate::flow::law_binary_linear_latent_sgd_flow(plan, learning_rate, shape);
    }
    Ok(plan)
}

/// Why a projection cannot be planned.
pub open spec fn fp16_linear_error(
    input: usize,
    weight: usize,
    shape: LinearDispatchShape,
) -> Option<MetalError> {
    if input != shape.rows * shape.in_features || weight != shape.out_features * shape.in_features {
        Some(MetalError::Mismatch(Operation::Fp16Linear))
    } else {
        None
    }
}

/// The steps of a projection.
pub open spec fn fp16_linear_steps(shape: LinearDispatchShape) -> Seq<StepView> {
    let x: usize = 0;
    let weights: usize = 1;
    let output: usize = 2;
    seq![
        step(
            Kernel::Fp16Linear,
            seq![x, weights, output],
            seq![shape.rows as u32, shape.in_features as u32, shape.out_features as u32],
        ),
    ]
}

/// Projects with plain weights.
pub fn fp16_linear(
    input: usize,
    weight: usize,
    shape: LinearDispatchShape,
) -> (plan: Result<Plan, MetalError>)
    requires
        shape.holds(),
        shape.within_32_bits(),
    ensures
        match plan {
            Ok(p) => {
                &&& fp16_linear_error(input, weight, shape) is None
                &&& p.sound()
                &&& p.answers()
                &&& p.lens() == seq![input as int, weight as int, shape.rows * shape.out_features]
                &&& p.listed() == fp16_linear_steps(shape)
                &&& p.outputs@ == seq![2usize]
                &&& crate::flow::returned(p) == seq![
                    crate::flow::made(Kernel::Fp16Linear, 0, seq![shape.rows as u32, shape.in_features as u32, shape.out_features as u32], seq![crate::flow::put(0), crate::flow::put(1)]),
                ]
            },
            Err(error) => fp16_linear_error(input, weight, shape) == Some(error),
        },
{
    match shape.rows.checked_mul(shape.in_features) {
        Some(all) if all == input => {},
        _ => return Err(MetalError::Mismatch(Operation::Fp16Linear)),
    }
    match shape.out_features.checked_mul(shape.in_features) {
        Some(all) if all == weight => {},
        _ => return Err(MetalError::Mismatch(Operation::Fp16Linear)),
    }
    proof {
        lemma_swap(shape.in_features as int, shape.out_features as int);
    }
    let out_len: usize = shape.rows * shape.out_features;
    let mut plan = Plan::over(
        vec![
            given(input),
            given(weight),
            given(out_len),
        ],
    );
    let x_at: usize = 0;
    let weights_at: usize = 1;
    let output_at: usize = 2;
    plan.fp16_linear(
        x_at,
        weights_at,
        output_at,
        shape.rows as u32,
        shape.in_features as u32,
        shape.out_features as u32,
    );
    plan.read(output_at);
    proof {
        assert(plan.lens() =~= seq![input as int, weight as int, shape.rows * shape.out_features]);
        assert(plan.outputs@ =~= seq![2usize]);
        assert(plan.listed() =~= fp16_linear_steps(shape));
        crate::flow::law_fp16_linear_flow(plan, shape);
    }
    Ok(plan)
}

/// Why the gradient of a projection cannot be planned.
pub open spec fn fp16_linear_backward_error(
    input: usize,
    gradient: usize,
    weight: usize,
    shape: LinearDispatchShape,
) -> Option<MetalError> {
    if input != shape.rows * shape.in_features || gradient != shape.rows * shape.out_features
        || weight        != shape.out_features * shape.in_features {
        Some(MetalError::Mismatch(Operation::Fp16LinearBackward))
    } else {
        None
    }
}

/// The steps of the gradient of a projection.
pub open spec fn fp16_linear_backward_steps(shape: LinearDispatchShape) -> Seq<StepView> {
    let x: usize = 0;
    let gy: usize = 1;
    let weights: usize = 2;
    let gx: usize = 3;
    let gw: usize = 4;
    seq![
        step(
            Kernel::Fp16LinearBwd,
            seq![x, gy, weights, gx, gw],
            seq![shape.rows as u32, shape.in_features as u32, shape.out_features as u32, 0],
        ),
        step(
            Kernel::Fp16LinearBwd,
            seq![x, gy, weights, gx, gw],
            seq![shape.rows as u32, shape.in_features as u32, shape.out_features as u32, 1],
        ),
    ]
}

/// The gradients of a projection: of its input, then of its weights.
pub fn fp16_linear_backward(
    input: usize,
    gradient: usize,
    weight: usize,
    shape: LinearDispatchShape,
) -> (plan: Result<Plan, MetalError>)
    requires
        shape.holds(),
        shape.within_32_bits(),
    ensures
        match plan {
            Ok(p) => {
                &&& fp16_linear_backward_error(input, gradient, weight, shape) is None
                &&& p.sound()
                &&& p.answers()
                &&& p.lens() == seq![
                    input as int,
                    gradient as int,
                    weight as int,
                    input as int,
                    weight as int,
                ]
                &&& p.listed() == fp16_linear_backward_steps(shape)
                &&& p.outputs@ == seq![3usize, 4usize]
                &&& ({
                    let from = seq![crate::flow::put(0), crate::flow::put(1), crate::flow::put(2)];
                    crate::flow::returned(p) == seq![
                        crate::flow::made(Kernel::Fp16LinearBwd, 0, seq![shape.rows as u32, shape.in_features as u32, shape.out_features as u32, 0], from),
                        crate::flow::made(Kernel::Fp16LinearBwd, 1, seq![shape.rows as u32, shape.in_features as u32, shape.out_features as u32, 1], from),
                    ]
                })
            },
            Err(error) => fp16_linear_backward_error(input, gradient, weight, shape) == Some(error),
        },
{
    match shape.rows.checked_mul(shape.in_features) {
        Some(all) if all == input => {},
        _ => return Err(MetalError::Mismatch(Operation::Fp16LinearBackward)),
    }
    match shape.out_features.checked_mul(shape.in_features) {
        Some(all) if all == weight => {},
        _ => return Err(MetalError::Mismatch(Operation::Fp16LinearBackward)),
    }
    if gradient != shape.rows * shape.out_features {
        return Err(MetalError::Mismatch(Operation::Fp16LinearBackward));
    }
    proof {
        lemma_swap(shape.in_features as int, shape.out_features as int);
    }
    let mut plan = Plan::over(
        vec![
            given(input),
            given(gradient),
            given(weight),
            given(input),
            given(weight),
        ],
    );
    let x_at: usize = 0;
    let gy_at: usize = 1;
    let weights_at: usize = 2;
    let gx_at: usize = 3;
    let gw_at: usize = 4;
    plan.fp16_linear_bwd(
        x_at,
        gy_at,
        weights_at,
        gx_at,
        gw_at,
        shape.rows as u32,
        shape.in_features as u32,
        shape.out_features as u32,
        0,
    );
    plan.fp16_linear_bwd(
        x_at,
        gy_at,
        weights_at,
        gx_at,
        gw_at,
        shape.rows as u32,
        shape.in_features as u32,
        shape.out_features as u32,
        1,
    );
    plan.read(gx_at);
    plan.read(gw_at);
    proof {
        assert(plan.lens() =~= seq![
            input as int,
            gradient as int,
            weight as int,
            input as int,
            weight as int,
        ]);
        assert(plan.outputs@ =~= seq![3usize, 4usize]);
        assert(plan.listed() =~= fp16_linear_backward_steps(shape));
        crate::flow::law_fp16_linear_backward_flow(plan, shape);
    }
    Ok(plan)
}

/// Why the matching of bit planes cannot be planned.
pub open spec fn rosa_qkv_1bit_fwd_error(
    q_bits: usize,
    k_bits: usize,
    v_bits: usize,
    e: usize,
    batch: usize,
    time: usize,
    channels: usize,
) -> Option<MetalError> {
    match dispatch_error(batch as int, time as int, channels as int) {
        Some(error) => Some(error),
        None => {
            let planes = words(batch * time * channels);
            let sam = sam_nodes(batch as int, time as int, channels as int);
            if e != channels {
                Some(MetalError::Mismatch(Operation::RosaScale))
            } else if q_bits != planes || k_bits != planes || v_bits != planes {
                Some(MetalError::Mismatch(Operation::RosaPlanes))
            } else if sam * 4 > usize::MAX {
                Some(MetalError::SamOverflow)
            } else if sam > u32::MAX {
                Some(MetalError::TooWide)
            } else {
                None
            }
        },
    }
}

/// The steps of the matching of bit planes.
pub open spec fn rosa_qkv_1bit_fwd_steps(
    batch: usize,
    time: usize,
    channels: usize,
) -> Seq<StepView> {
    let q: usize = 0;
    let k: usize = 1;
    let v: usize = 2;
    let scales: usize = 3;
    let trans0: usize = 4;
    let trans1: usize = 5;
    let fail: usize = 6;
    let maxlen: usize = 7;
    let last: usize = 8;
    let idx: usize = 9;
    let output: usize = 10;
    seq![
        step(
            Kernel::RosaSamReset,
            seq![trans0, trans1, fail, maxlen, last],
            seq![sam_nodes(batch as int, time as int, channels as int) as u32],
        ),
        step(
            Kernel::RosaQkvFwd,
            seq![q, k, v, scales, trans0, trans1, fail, maxlen, last, idx, output],
            seq![batch as u32, time as u32, channels as u32],
        ),
    ]
}

/// Matches the queries of each channel against its keys, bit by bit, and takes
/// the values that follow.
#[verifier::rlimit(30)]
pub fn rosa_qkv_1bit_fwd(
    q_bits: usize,
    k_bits: usize,
    v_bits: usize,
    e: usize,
    batch: usize,
    time: usize,
    channels: usize,
) -> (plan: Result<Plan, MetalError>)
    ensures
        match plan {
            Ok(p) => {
                &&& rosa_qkv_1bit_fwd_error(
                    q_bits,
                    k_bits,
                    v_bits,
                    e,
                    batch,
                    time,
                    channels,
                ) is None
                &&& p.sound()
                &&& p.answers()
                &&& p.lens() == seq![
                    q_bits as int,
                    k_bits as int,
                    v_bits as int,
                    e as int,
                    sam_nodes(batch as int, time as int, channels as int),
                    sam_nodes(batch as int, time as int, channels as int),
                    sam_nodes(batch as int, time as int, channels as int),
                    sam_nodes(batch as int, time as int, channels as int),
                    sam_nodes(batch as int, time as int, channels as int),
                    batch * time * channels,
                    batch * time * channels,
                ]
                &&& p.listed() == rosa_qkv_1bit_fwd_steps(batch, time, channels)
                &&& p.outputs@ == seq![9usize, 10usize]
                &&& ({
                    let nodes = seq![(batch * channels * (2 * time + 1)) as u32];
                    let cleared = |part: int| crate::flow::made(Kernel::RosaSamReset, part, nodes, Seq::<crate::flow::Held>::empty());
                    let c = seq![batch as u32, time as u32, channels as u32];
                    let from = seq![crate::flow::put(0), crate::flow::put(1), crate::flow::put(2), crate::flow::put(3), cleared(0), cleared(1), cleared(2), cleared(3), cleared(4)];
                    crate::flow::returned(p) == seq![
                        crate::flow::made(Kernel::RosaQkvFwd, 5, c, from),
                        crate::flow::made(Kernel::RosaQkvFwd, 6, c, from),
                    ]
                })
            },
            Err(error) => rosa_qkv_1bit_fwd_error(
                q_bits,
                k_bits,
                v_bits,
                e,
                batch,
                time,
                channels,
            ) == Some(error),
        },
{
    let shape = match MetalDispatchShape::new(batch, time, channels) {
        Ok(s) => s,
        Err(e) => return Err(e),
    };
    proof {
        lemma_product_of_three(batch as int, time as int, channels as int);
    }
    let elements: usize = shape.elements();
    let planes: usize = words_for(elements);
    if e != channels {
        return Err(MetalError::Mismatch(Operation::RosaScale));
    }
    if q_bits != planes || k_bits != planes || v_bits != planes {
        return Err(MetalError::Mismatch(Operation::RosaPlanes));
    }
    proof {
        lemma_threads(batch as int, time as int, channels as int);
    }
    let sam: usize = match sam_len(batch, time, channels) {
        Ok(sam) => sam,
        Err(e) => return Err(e),
    };
    if sam > u32::MAX as usize {
        return Err(MetalError::TooWide);
    }
    let mut plan = Plan::over(
        vec![
            given(q_bits),
            given(k_bits),
            given(v_bits),
            given(e),
            scratch(sam),
            scratch(sam),
            scratch(sam),
            scratch(sam),
            scratch(sam),
            scratch(elements),
            scratch(elements),
        ],
    );
    let q_at: usize = 0;
    let k_at: usize = 1;
    let v_at: usize = 2;
    let scales_at: usize = 3;
    let trans0_at: usize = 4;
    let trans1_at: usize = 5;
    let fail_at: usize = 6;
    let maxlen_at: usize = 7;
    let last_at: usize = 8;
    let idx_at: usize = 9;
    let output_at: usize = 10;
    plan.rosa_sam_reset(
        trans0_at,
        trans1_at,
        fail_at,
        maxlen_at,
        last_at,
        sam as u32,
    );
    plan.rosa_qkv_fwd(
        q_at,
        k_at,
        v_at,
        scales_at,
        trans0_at,
        trans1_at,
        fail_at,
        maxlen_at,
        last_at,
        idx_at,
        output_at,
        batch as u32,
        time as u32,
        channels as u32,
    );
    plan.read(idx_at);
    plan.read(output_at);
    proof {
        assert(plan.lens() =~= seq![
            q_bits as int,
            k_bits as int,
            v_bits as int,
            e as int,
            sam_nodes(batch as int, time as int, channels as int),
            sam_nodes(batch as int, time as int, channels as int),
            sam_nodes(batch as int, time as int, channels as int),
            sam_nodes(batch as int, time as int, channels as int),
            sam_nodes(batch as int, time as int, channels as int),
            batch * time * channels,
            batch * time * channels,
        ]);
        assert(plan.outputs@ =~= seq![9usize, 10usize]);
        assert(plan.listed() =~= rosa_qkv_1bit_fwd_steps(batch, time, channels));
        crate::flow::law_rosa_qkv_1bit_fwd_flow(plan, batch, time, channels);
    }
    Ok(plan)
}

/// Why the gradient of the channel scales cannot be planned.
pub open spec fn rosa_qkv_1bit_bwd_e_error(
    gradient: usize,
    idx: usize,
    batch: usize,
    time: usize,
    channels: usize,
) -> Option<MetalError> {
    match dispatch_error(batch as int, time as int, channels as int) {
        Some(error) => Some(error),
        None => if gradient != batch * time * channels || idx != batch * time * channels {
            Some(MetalError::Mismatch(Operation::RosaGradient))
        } else {
            None
        },
    }
}

/// The steps of the gradient of the channel scales.
pub open spec fn rosa_qkv_1bit_bwd_e_steps(
    batch: usize,
    time: usize,
    channels: usize,
) -> Seq<StepView> {
    let gy: usize = 0;
    let matches_at: usize = 1;
    let g_e: usize = 2;
    seq![
        step(
            Kernel::RosaQkvBwdE,
            seq![gy, matches_at, g_e],
            seq![batch as u32, time as u32, channels as u32],
        ),
    ]
}

/// The gradient of the scale of each channel.
pub fn rosa_qkv_1bit_bwd_e(
    gradient: usize,
    idx: usize,
    batch: usize,
    time: usize,
    channels: usize,
) -> (plan: Result<Plan, MetalError>)
    ensures
        match plan {
            Ok(p) => {
                &&& rosa_qkv_1bit_bwd_e_error(gradient, idx, batch, time, channels) is None
                &&& p.sound()
                &&& p.answers()
                &&& p.lens() == seq![gradient as int, idx as int, channels as int]
                &&& p.listed() == rosa_qkv_1bit_bwd_e_steps(batch, time, channels)
                &&& p.outputs@ == seq![2usize]
                &&& crate::flow::returned(p) == seq![
                    crate::flow::made(Kernel::RosaQkvBwdE, 0, seq![batch as u32, time as u32, channels as u32], seq![crate::flow::put(0), crate::flow::put(1)]),
                ]
            },
            Err(error) => rosa_qkv_1bit_bwd_e_error(gradient, idx, batch, time, channels)
                == Some(error),
        },
{
    let shape = match MetalDispatchShape::new(batch, time, channels) {
        Ok(s) => s,
        Err(e) => return Err(e),
    };
    proof {
        lemma_product_of_three(batch as int, time as int, channels as int);
    }
    let elements: usize = shape.elements();
    if gradient != elements || idx != elements {
        return Err(MetalError::Mismatch(Operation::RosaGradient));
    }
    let mut plan = Plan::over(
        vec![
            given(gradient),
            given(idx),
            given(channels),
        ],
    );
    let gy_at: usize = 0;
    let matches_at_at: usize = 1;
    let g_e_at: usize = 2;
    plan.rosa_qkv_bwd_e(
        gy_at,
        matches_at_at,
        g_e_at,
        batch as u32,
        time as u32,
        channels as u32,
    );
    plan.read(g_e_at);
    proof {
        assert(plan.lens() =~= seq![gradient as int, idx as int, channels as int]);
        assert(plan.outputs@ =~= seq![2usize]);
        assert(plan.listed() =~= rosa_qkv_1bit_bwd_e_steps(batch, time, channels));
        crate::flow::law_rosa_qkv_1bit_bwd_e_flow(plan, batch, time, channels);
    }
    Ok(plan)
}

/// Why the bit planes of a matching block cannot be planned.
pub open spec fn rosa_block_forward_error(
    lens: RosaBlockLens,
    batch: usize,
    time: usize,
    channels: usize,
) -> Option<MetalError> {
    match dispatch_error(batch as int, time as int, channels as int) {
        Some(error) => Some(error),
        None => if lens.x != batch * time * channels || !lens.per_channel(channels) {
            Some(MetalError::Mismatch(Operation::RosaBlock))
        } else if channels * channels > usize::MAX {
            Some(MetalError::WeightOverflow)
        } else if !lens.packed(words(channels * channels)) {
            Some(MetalError::Mismatch(Operation::BinaryLinear))
        } else {
            None
        },
    }
}

/// The steps of the bit planes of a matching block.
pub open spec fn rosa_block_forward_steps(
    batch: usize,
    time: usize,
    channels: usize,
) -> Seq<StepView> {
    let x: usize = 0;
    let mix_q: usize = 1;
    let mix_k: usize = 2;
    let mix_v: usize = 3;
    let q_in: usize = 4;
    let k_in: usize = 5;
    let v_in: usize = 6;
    let q_bits: usize = 7;
    let k_bits: usize = 8;
    let v_bits: usize = 9;
    let q_scale: usize = 10;
    let k_scale: usize = 11;
    let v_scale: usize = 12;
    let q_bias: usize = 13;
    let k_bias: usize = 14;
    let v_bias: usize = 15;
    let q_act: usize = 16;
    let k_act: usize = 17;
    let v_act: usize = 18;
    let q_plane: usize = 19;
    let k_plane: usize = 20;
    let v_plane: usize = 21;
    seq![
        step(
            Kernel::TimeShiftMix3,
            seq![x, mix_q, mix_k, mix_v, q_in, k_in, v_in],
            seq![(batch * time) as u32, time as u32, channels as u32],
        ),
        step(
            Kernel::BinaryLinear,
            seq![q_in, q_bits, q_scale, q_bias, q_act],
            seq![(batch * time) as u32, channels as u32, channels as u32, 1],
        ),
        step(
            Kernel::BinaryLinear,
            seq![k_in, k_bits, k_scale, k_bias, k_act],
            seq![(batch * time) as u32, channels as u32, channels as u32, 1],
        ),
        step(
            Kernel::BinaryLinear,
            seq![v_in, v_bits, v_scale, v_bias, v_act],
            seq![(batch * time) as u32, channels as u32, channels as u32, 1],
        ),
        step(
            Kernel::SignPackBits,
            seq![q_act, q_plane],
            seq![(batch * time * channels) as u32],
        ),
        step(
            Kernel::SignPackBits,
            seq![k_act, k_plane],
            seq![(batch * time * channels) as u32],
        ),
        step(
            Kernel::SignPackBits,
            seq![v_act, v_plane],
            seq![(batch * time * channels) as u32],
        ),
    ]
}

/// Mixes each step with the one before, projects queries, keys and values, and
/// packs their signs.
#[verifier::rlimit(60)]
pub fn rosa_block_forward(
    lens: RosaBlockLens,
    batch: usize,
    time: usize,
    channels: usize,
) -> (plan: Result<Plan, MetalError>)
    ensures
        match plan {
            Ok(p) => {
                &&& rosa_block_forward_error(lens, batch, time, channels) is None
                &&& p.sound()
                &&& p.answers()
                &&& p.lens() == seq![
                    lens.x as int,
                    lens.mix_q as int,
                    lens.mix_k as int,
                    lens.mix_v as int,
                    batch * time * channels,
                    batch * time * channels,
                    batch * time * channels,
                    lens.q_bits as int,
                    lens.k_bits as int,
                    lens.v_bits as int,
                    lens.q_scale as int,
                    lens.k_scale as int,
                    lens.v_scale as int,
                    lens.q_bias as int,
                    lens.k_bias as int,
                    lens.v_bias as int,
                    batch * time * channels,
                    batch * time * channels,
                    batch * time * channels,
                    words(batch * time * channels),
                    words(batch * time * channels),
                    words(batch * time * channels),
                ]
                &&& p.listed() == rosa_block_forward_steps(batch, time, channels)
                &&& p.outputs@ == seq![19usize, 20usize, 21usize]
                &&& ({
                    let of = |lane: int| crate::flow::plane(batch as int, time as int, channels as int, crate::flow::put(0), crate::flow::put(1 + lane), crate::flow::put(7 + lane), crate::flow::put(10 + lane), crate::flow::put(13 + lane));
                    crate::flow::returned(p) == seq![
                        of(0),
                        of(1),
                        of(2),
                    ]
                })
            },
            Err(error) => rosa_block_forward_error(lens, batch, time, channels) == Some(error),
        },
{
    let shape = match MetalDispatchShape::new(batch, time, channels) {
        Ok(s) => s,
        Err(e) => return Err(e),
    };
    proof {
        lemma_product_of_three(batch as int, time as int, channels as int);
    }
    let elements: usize = shape.elements();
    if lens.x != elements || !lens.fit_channels(channels) {
        return Err(MetalError::Mismatch(Operation::RosaBlock));
    }
    let square: usize = match channels.checked_mul(channels) {
        Some(s) => s,
        None => return Err(MetalError::WeightOverflow),
    };
    let packed: usize = words_for(square);
    if lens.q_bits != packed || lens.k_bits != packed || lens.v_bits != packed || lens.o_bits
        != packed {
        return Err(MetalError::Mismatch(Operation::BinaryLinear));
    }
    let rows: usize = batch * time;
    let planes: usize = words_for(elements);
    proof {
        lemma_rows(batch as int, time as int, channels as int);
    }
    let mut plan = Plan::over(
        vec![
            given(lens.x),
            given(lens.mix_q),
            given(lens.mix_k),
            given(lens.mix_v),
            scratch(elements),
            scratch(elements),
            scratch(elements),
            given(lens.q_bits),
            given(lens.k_bits),
            given(lens.v_bits),
            given(lens.q_scale),
            given(lens.k_scale),
            given(lens.v_scale),
            given(lens.q_bias),
            given(lens.k_bias),
            given(lens.v_bias),
            scratch(elements),
            scratch(elements),
            scratch(elements),
            scratch(planes),
            scratch(planes),
            scratch(planes),
        ],
    );
    let x_at: usize = 0;
    let mix_q_at: usize = 1;
    let mix_k_at: usize = 2;
    let mix_v_at: usize = 3;
    let q_in_at: usize = 4;
    let k_in_at: usize = 5;
    let v_in_at: usize = 6;
    let q_bits_at: usize = 7;
    let k_bits_at: usize = 8;
    let v_bits_at: usize = 9;
    let q_scale_at: usize = 10;
    let k_scale_at: usize = 11;
    let v_scale_at: usize = 12;
    let q_bias_at: usize = 13;
    let k_bias_at: usize = 14;
    let v_bias_at: usize = 15;
    let q_act_at: usize = 16;
    let k_act_at: usize = 17;
    let v_act_at: usize = 18;
    let q_plane_at: usize = 19;
    let k_plane_at: usize = 20;
    let v_plane_at: usize = 21;
    plan.time_shift_mix3(
        x_at,
        mix_q_at,
        mix_k_at,
        mix_v_at,
        q_in_at,
        k_in_at,
        v_in_at,
        rows as u32,
        time as u32,
        channels as u32,
    );
    plan.binary_linear(
        q_in_at,
        q_bits_at,
        q_scale_at,
        q_bias_at,
        q_act_at,
        rows as u32,
        channels as u32,
        channels as u32,
        1,
    );
    plan.binary_linear(
        k_in_at,
        k_bits_at,
        k_scale_at,
        k_bias_at,
        k_act_at,
        rows as u32,
        channels as u32,
        channels as u32,
        1,
    );
    plan.binary_linear(
        v_in_at,
        v_bits_at,
        v_scale_at,
        v_bias_at,
        v_act_at,
        rows as u32,
        channels as u32,
        channels as u32,
        1,
    );
    plan.sign_pack_bits(q_act_at, q_plane_at, elements as u32);
    plan.sign_pack_bits(k_act_at, k_plane_at, elements as u32);
    plan.sign_pack_bits(v_act_at, v_plane_at, elements as u32);
    plan.read(q_plane_at);
    plan.read(k_plane_at);
    plan.read(v_plane_at);
    proof {
        assert(plan.lens() =~= seq![
            lens.x as int,
            lens.mix_q as int,
            lens.mix_k as int,
            lens.mix_v as int,
            batch * time * channels,
            batch * time * channels,
            batch * time * channels,
            lens.q_bits as int,
            lens.k_bits as int,
            lens.v_bits as int,
            lens.q_scale as int,
            lens.k_scale as int,
            lens.v_scale as int,
            lens.q_bias as int,
            lens.k_bias as int,
            lens.v_bias as int,
            batch * time * channels,
            batch * time * channels,
            batch * time * channels,
            words(batch * time * channels),
            words(batch * time * channels),
            words(batch * time * channels),
        ]);
        assert(plan.outputs@ =~= seq![19usize, 20usize, 21usize]);
        assert(plan.listed() =~= rosa_block_forward_steps(batch, time, channels));
        crate::flow::law_rosa_block_forward_flow(plan, batch, time, channels);
    }
    Ok(plan)
}

/// Why the output of a matching block cannot be planned.
pub open spec fn rosa_block_output_error(
    o_bits: usize,
    o_scale: usize,
    o_bias: usize,
    batch: usize,
    time: usize,
    channels: usize,
) -> Option<MetalError> {
    match dispatch_error(batch as int, time as int, channels as int) {
        Some(error) => Some(error),
        None => if channels * channels > usize::MAX {
            Some(MetalError::WeightOverflow)
        } else if o_bits != words(channels * channels) || o_scale != channels || o_bias
            != channels {
            Some(MetalError::Mismatch(Operation::BinaryLinear))
        } else {
            None
        },
    }
}

/// The steps of the output of a matching block.
pub open spec fn rosa_block_output_steps(
    batch: usize,
    time: usize,
    channels: usize,
) -> Seq<StepView> {
    let y: usize = 0;
    let bits: usize = 1;
    let scale: usize = 2;
    let bias: usize = 3;
    let output: usize = 4;
    seq![
        step(
            Kernel::BinaryLinear,
            seq![y, bits, scale, bias, output],
            seq![(batch * time) as u32, channels as u32, channels as u32, 1],
        ),
    ]
}

/// Projects what a matching block found.
pub fn rosa_block_output(
    o_bits: usize,
    o_scale: usize,
    o_bias: usize,
    batch: usize,
    time: usize,
    channels: usize,
) -> (plan: Result<Plan, MetalError>)
    ensures
        match plan {
            Ok(p) => {
                &&& rosa_block_output_error(
                    o_bits,
                    o_scale,
                    o_bias,
                    batch,
                    time,
                    channels,
                ) is None
                &&& p.sound()
                &&& p.answers()
                &&& p.lens() == seq![
                    batch * time * channels,
                    o_bits as int,
                    o_scale as int,
                    o_bias as int,
                    batch * time * channels,
                ]
                &&& p.listed() == rosa_block_output_steps(batch, time, channels)
                &&& p.outputs@ == seq![4usize]
                &&& crate::flow::returned(p) == seq![
                    crate::flow::projected(batch * time, channels as int, channels as int, crate::flow::put(0), crate::flow::put(1), crate::flow::put(2), Some(crate::flow::put(3))),
                ]
            },
            Err(error) => rosa_block_output_error(
                o_bits,
                o_scale,
                o_bias,
                batch,
                time,
                channels,
            ) == Some(error),
        },
{
    let shape = match MetalDispatchShape::new(batch, time, channels) {
        Ok(s) => s,
        Err(e) => return Err(e),
    };
    proof {
        lemma_product_of_three(batch as int, time as int, channels as int);
    }
    let elements: usize = shape.elements();
    let square: usize = match channels.checked_mul(channels) {
        Some(s) => s,
        None => return Err(MetalError::WeightOverflow),
    };
    if o_bits != words_for(square) || o_scale != channels || o_bias != channels {
        return Err(MetalError::Mismatch(Operation::BinaryLinear));
    }
    let rows: usize = batch * time;
    proof {
        lemma_rows(batch as int, time as int, channels as int);
    }
    let mut plan = Plan::over(
        vec![
            given(elements),
            given(o_bits),
            given(o_scale),
            given(o_bias),
            scratch(elements),
        ],
    );
    let y_at: usize = 0;
    let bits_at: usize = 1;
    let scale_at: usize = 2;
    let bias_at: usize = 3;
    let output_at: usize = 4;
    plan.binary_linear(
        y_at,
        bits_at,
        scale_at,
        bias_at,
        output_at,
        rows as u32,
        channels as u32,
        channels as u32,
        1,
    );
    plan.read(output_at);
    proof {
        assert(plan.lens() =~= seq![
            batch * time * channels,
            o_bits as int,
            o_scale as int,
            o_bias as int,
            batch * time * channels,
        ]);
        assert(plan.outputs@ =~= seq![4usize]);
        assert(plan.listed() =~= rosa_block_output_steps(batch, time, channels));
        crate::flow::law_rosa_block_output_flow(plan, batch, time, channels);
    }
    Ok(plan)
}

/// Why a step of a matching block cannot be planned.
pub open spec fn rosa_o_stop_grad_sgd_error(
    y: usize,
    out: usize,
    gy: usize,
    idx: usize,
    o_bits: usize,
    o_scale: usize,
    o_bias: usize,
    latent: usize,
    residual: usize,
    rows: usize,
    channels: usize,
    learning_rate: u32,
    ste_scale: u32,
) -> Option<MetalError> {
    match linear_error(rows as int, channels as int, channels as int) {
        Some(error) => Some(error),
        None => match binary_error(
            y as int,
            o_bits as int,
            o_scale as int,
            Some(o_bias),
            LinearDispatchShape { rows, in_features: channels, out_features: channels },
        ) {
            Some(error) => Some(error),
            None => if out != y || gy != y || idx != y || latent != channels * channels || residual
                != latent {
                Some(MetalError::Mismatch(Operation::RosaOutput))
            } else if latent > u32::MAX {
                Some(MetalError::TooWide)
            } else {
                None
            },
        },
    }
}

/// The steps of a step of a matching block.
pub open spec fn rosa_o_stop_grad_sgd_steps(
    rows: usize,
    channels: usize,
    learning_rate: u32,
    ste_scale: u32,
) -> Seq<StepView> {
    let inputs: usize = 0;
    let outputs: usize = 1;
    let gradient: usize = 2;
    let found: usize = 3;
    let bits: usize = 4;
    let scale: usize = 5;
    let bias: usize = 6;
    let parameters: usize = 7;
    let rest: usize = 8;
    let g_y: usize = 9;
    let g_scale: usize = 10;
    let g_bias: usize = 11;
    let gw: usize = 12;
    let g_e: usize = 13;
    let next_bits: usize = 14;
    seq![
        step(
            Kernel::BinaryLinearInputBwd,
            seq![gradient, bits, scale, g_y],
            seq![rows as u32, channels as u32, channels as u32],
        ),
        step(
            Kernel::BinaryLinearScaleBwdFromOutput,
            seq![outputs, gradient, scale, bias, g_scale, g_bias],
            seq![rows as u32, channels as u32, 1],
        ),
        step(
            Kernel::BinaryLinearWeightBwd,
            seq![inputs, gradient, scale, gw],
            seq![rows as u32, channels as u32, channels as u32],
        ),
        step(
            Kernel::RosaQkvBwdE,
            seq![g_y, found, g_e],
            seq![1, rows as u32, channels as u32],
        ),
        step(
            Kernel::BinaryConnectSgd,
            seq![parameters, rest, gw],
            seq![learning_rate, (channels * channels) as u32, ste_scale],
        ),
        step(
            Kernel::PackLatentBits,
            seq![parameters, next_bits],
            seq![(channels * channels) as u32],
        ),
    ]
}

/// Takes the gradients of the output projection of a matching block, and moves
/// its latent weights.
#[verifier::rlimit(60)]
pub fn rosa_o_stop_grad_sgd(
    y: usize,
    out: usize,
    gy: usize,
    idx: usize,
    o_bits: usize,
    o_scale: usize,
    o_bias: usize,
    latent: usize,
    residual: usize,
    rows: usize,
    channels: usize,
    learning_rate: u32,
    ste_scale: u32,
) -> (plan: Result<Plan, MetalError>)
    ensures
        match plan {
            Ok(p) => {
                &&& rosa_o_stop_grad_sgd_error(
                    y,
                    out,
                    gy,
                    idx,
                    o_bits,
                    o_scale,
                    o_bias,
                    latent,
                    residual,
                    rows,
                    channels,
                    learning_rate,
                    ste_scale,
                ) is None
                &&& p.sound()
                &&& p.answers()
                &&& p.lens() == seq![
                    y as int,
                    out as int,
                    gy as int,
                    idx as int,
                    o_bits as int,
                    o_scale as int,
                    o_bias as int,
                    latent as int,
                    residual as int,
                    y as int,
                    channels as int,
                    channels as int,
                    channels * channels,
                    channels as int,
                    words(channels * channels),
                ]
                &&& p.listed() == rosa_o_stop_grad_sgd_steps(
                    rows,
                    channels,
                    learning_rate,
                    ste_scale,
                )
                &&& p.outputs@ == seq![13usize, 10usize, 11usize, 7usize, 8usize, 14usize]
                &&& ({
                    let square = seq![rows as u32, channels as u32, channels as u32];
                    let g_y = crate::flow::made(Kernel::BinaryLinearInputBwd, 0, square, seq![crate::flow::put(2), crate::flow::put(4), crate::flow::put(5)]);
                    let with_bias = seq![rows as u32, channels as u32, 1];
                    let of_scale = seq![crate::flow::put(1), crate::flow::put(2), crate::flow::put(5), crate::flow::put(6)];
                    let g_w = crate::flow::made(Kernel::BinaryLinearWeightBwd, 0, square, seq![crate::flow::put(0), crate::flow::put(2), crate::flow::put(5)]);
                    let sgd = seq![learning_rate, (channels * channels) as u32, ste_scale];
                    let of_sgd = seq![crate::flow::put(7), crate::flow::put(8), g_w];
                    let latent = crate::flow::made(Kernel::BinaryConnectSgd, 0, sgd, of_sgd);
                    crate::flow::returned(p) == seq![
                        crate::flow::made(Kernel::RosaQkvBwdE, 0, seq![1, rows as u32, channels as u32], seq![g_y, crate::flow::put(3)]),
                        crate::flow::made(Kernel::BinaryLinearScaleBwdFromOutput, 0, with_bias, of_scale),
                        crate::flow::made(Kernel::BinaryLinearScaleBwdFromOutput, 1, with_bias, of_scale),
                        latent,
                        crate::flow::made(Kernel::BinaryConnectSgd, 1, sgd, of_sgd),
                        crate::flow::made(Kernel::PackLatentBits, 0, seq![(channels * channels) as u32], seq![latent]),
                    ]
                })
            },
            Err(error) => rosa_o_stop_grad_sgd_error(
                y,
                out,
                gy,
                idx,
                o_bits,
                o_scale,
                o_bias,
                latent,
                residual,
                rows,
                channels,
                learning_rate,
                ste_scale,
            ) == Some(error),
        },
{
    let shape = match LinearDispatchShape::new(rows, channels, channels) {
        Ok(s) => s,
        Err(e) => return Err(e),
    };
    match check_binary_shape(y, o_bits, o_scale, Some(o_bias), shape) {
        Ok(_) => {},
        Err(e) => return Err(e),
    }
    let weights: usize = channels * channels;
    if out != y || gy != y || idx != y || latent != weights || residual != latent {
        return Err(MetalError::Mismatch(Operation::RosaOutput));
    }
    if latent > u32::MAX as usize {
        return Err(MetalError::TooWide);
    }
    let packed: usize = words_for(weights);
    proof {
        lemma_product_of_three(channels as int, channels as int, 1);
        assert(1 * rows * channels == rows * channels);
    }
    let mut plan = Plan::over(
        vec![
            given(y),
            given(out),
            given(gy),
            given(idx),
            given(o_bits),
            given(o_scale),
            given(o_bias),
            given(latent),
            given(residual),
            scratch(y),
            scratch(channels),
            scratch(channels),
            scratch(weights),
            scratch(channels),
            scratch(packed),
        ],
    );
    let inputs_at: usize = 0;
    let outputs_at: usize = 1;
    let gradient_at: usize = 2;
    let found_at: usize = 3;
    let bits_at: usize = 4;
    let scale_at: usize = 5;
    let bias_at: usize = 6;
    let parameters_at: usize = 7;
    let rest_at: usize = 8;
    let g_y_at: usize = 9;
    let g_scale_at: usize = 10;
    let g_bias_at: usize = 11;
    let gw_at: usize = 12;
    let g_e_at: usize = 13;
    let next_bits_at: usize = 14;
    plan.binary_linear_input_bwd(
        gradient_at,
        bits_at,
        scale_at,
        g_y_at,
        rows as u32,
        channels as u32,
        channels as u32,
    );
    plan.binary_linear_scale_bwd_from_output(
        outputs_at,
        gradient_at,
        scale_at,
        bias_at,
        g_scale_at,
        g_bias_at,
        rows as u32,
        channels as u32,
        1,
    );
    plan.binary_linear_weight_bwd(
        inputs_at,
        gradient_at,
        scale_at,
        gw_at,
        rows as u32,
        channels as u32,
        channels as u32,
    );
    plan.rosa_qkv_bwd_e(
        g_y_at,
        found_at,
        g_e_at,
        1,
        rows as u32,
        channels as u32,
    );
    plan.binary_connect_sgd(
        parameters_at,
        rest_at,
        gw_at,
        learning_rate,
        weights as u32,
        ste_scale,
    );
    plan.pack_latent_bits(parameters_at, next_bits_at, weights as u32);
    plan.read(g_e_at);
    plan.read(g_scale_at);
    plan.read(g_bias_at);
    plan.read(parameters_at);
    plan.read(rest_at);
    plan.read(next_bits_at);
    proof {
        assert(plan.lens() =~= seq![
            y as int,
            out as int,
            gy as int,
            idx as int,
            o_bits as int,
            o_scale as int,
            o_bias as int,
            latent as int,
            residual as int,
            y as int,
            channels as int,
            channels as int,
            channels * channels,
            channels as int,
            words(channels * channels),
        ]);
        assert(plan.outputs@ =~= seq![13usize, 10usize, 11usize, 7usize, 8usize, 14usize]);
        assert(plan.listed() =~= rosa_o_stop_grad_sgd_steps(rows, channels, learning_rate, ste_scale));
        crate::flow::law_rosa_o_stop_grad_sgd_flow(plan, rows, channels, learning_rate, ste_scale);
    }
    Ok(plan)
}

/// Why a channel mix cannot be planned.
pub open spec fn cmix_ffn_forward_error(
    shifted: usize,
    key_bits: usize,
    key_scale: usize,
    value_weight: usize,
    rows: usize,
    d_model: usize,
    dim_ffn: usize,
) -> Option<MetalError> {
    match cmix_shapes_error(rows as int, d_model as int, dim_ffn as int) {
        Some(error) => Some(error),
        None => binary_error(
            shifted as int,
            key_bits as int,
            key_scale as int,
            None,
            LinearDispatchShape { rows, in_features: d_model, out_features: dim_ffn },
        ),
    }
}

/// The steps of a channel mix.
pub open spec fn cmix_ffn_forward_steps(
    rows: usize,
    d_model: usize,
    dim_ffn: usize,
) -> Seq<StepView> {
    let x: usize = 0;
    let bits: usize = 1;
    let scale: usize = 2;
    let bias: usize = 3;
    let weight: usize = 4;
    let key: usize = 5;
    let relu2: usize = 6;
    let output: usize = 7;
    seq![
        step(
            Kernel::BinaryLinear,
            seq![x, bits, scale, bias, key],
            seq![rows as u32, d_model as u32, dim_ffn as u32, 0],
        ),
        step(
            Kernel::CmixRelu2,
            seq![key, relu2],
            seq![(rows * dim_ffn) as u32],
        ),
        step(
            Kernel::Fp16Linear,
            seq![relu2, weight, output],
            seq![rows as u32, dim_ffn as u32, d_model as u32],
        ),
    ]
}

/// Projects up with packed weights, squares what is above zero, and projects down.
#[verifier::rlimit(30)]
pub fn cmix_ffn_forward(
    shifted: usize,
    key_bits: usize,
    key_scale: usize,
    value_weight: usize,
    rows: usize,
    d_model: usize,
    dim_ffn: usize,
) -> (plan: Result<Plan, MetalError>)
    requires
        cmix_ffn_forward_error(
            shifted,
            key_bits,
            key_scale,
            value_weight,
            rows,
            d_model,
            dim_ffn,
        ) is None ==> value_weight >= d_model * dim_ffn,
    ensures
        match plan {
            Ok(p) => {
                &&& cmix_ffn_forward_error(
                    shifted,
                    key_bits,
                    key_scale,
                    value_weight,
                    rows,
                    d_model,
                    dim_ffn,
                ) is None
                &&& p.sound()
                &&& p.answers()
                &&& p.lens() == seq![
                    shifted as int,
                    key_bits as int,
                    key_scale as int,
                    0,
                    value_weight as int,
                    rows * dim_ffn,
                    rows * dim_ffn,
                    rows * d_model,
                ]
                &&& p.listed() == cmix_ffn_forward_steps(rows, d_model, dim_ffn)
                &&& p.outputs@ == seq![5usize, 6usize, 7usize]
                &&& ({
                    let key = crate::flow::projected(rows as int, d_model as int, dim_ffn as int, crate::flow::put(0), crate::flow::put(1), crate::flow::put(2), None);
                    let active = crate::flow::made(Kernel::CmixRelu2, 0, seq![(rows * dim_ffn) as u32], seq![key]);
                    crate::flow::returned(p) == seq![
                        key,
                        active,
                        crate::flow::made(Kernel::Fp16Linear, 0, seq![rows as u32, dim_ffn as u32, d_model as u32], seq![active, crate::flow::put(4)]),
                    ]
                })
            },
            Err(error) => cmix_ffn_forward_error(
                shifted,
                key_bits,
                key_scale,
                value_weight,
                rows,
                d_model,
                dim_ffn,
            ) == Some(error),
        },
{
    let key_shape = match LinearDispatchShape::new(rows, d_model, dim_ffn) {
        Ok(s) => s,
        Err(e) => return Err(e),
    };
    match LinearDispatchShape::new(rows, dim_ffn, d_model) {
        Ok(_) => {},
        Err(e) => return Err(e),
    }
    match check_binary_shape(shifted, key_bits, key_scale, None, key_shape) {
        Ok(_) => {},
        Err(e) => return Err(e),
    }
    let key_len: usize = rows * dim_ffn;
    let out_len: usize = rows * d_model;
    proof {
        lemma_swap(d_model as int, dim_ffn as int);
    }
    let mut plan = Plan::over(
        vec![
            given(shifted),
            given(key_bits),
            given(key_scale),
            given(0),
            given(value_weight),
            scratch(key_len),
            scratch(key_len),
            scratch(out_len),
        ],
    );
    let x_at: usize = 0;
    let bits_at: usize = 1;
    let scale_at: usize = 2;
    let bias_at: usize = 3;
    let weight_at: usize = 4;
    let key_at: usize = 5;
    let relu2_at: usize = 6;
    let output_at: usize = 7;
    plan.binary_linear(
        x_at,
        bits_at,
        scale_at,
        bias_at,
        key_at,
        rows as u32,
        d_model as u32,
        dim_ffn as u32,
        0,
    );
    plan.cmix_relu2(key_at, relu2_at, key_len as u32);
    plan.fp16_linear(
        relu2_at,
        weight_at,
        output_at,
        rows as u32,
        dim_ffn as u32,
        d_model as u32,
    );
    plan.read(key_at);
    plan.read(relu2_at);
    plan.read(output_at);
    proof {
        assert(plan.lens() =~= seq![
            shifted as int,
            key_bits as int,
            key_scale as int,
            0,
            value_weight as int,
            rows * dim_ffn,
            rows * dim_ffn,
            rows * d_model,
        ]);
        assert(plan.outputs@ =~= seq![5usize, 6usize, 7usize]);
        assert(plan.listed() =~= cmix_ffn_forward_steps(rows, d_model, dim_ffn));
        crate::flow::law_cmix_ffn_forward_flow(plan, rows, d_model, dim_ffn);
    }
    Ok(plan)
}

/// Why a channel mix block cannot be planned.
pub open spec fn cmix_block_forward_error(
    x: usize,
    mix: usize,
    key_bits: usize,
    key_scale: usize,
    value_weight: usize,
    batch: usize,
    time: usize,
    d_model: usize,
    dim_ffn: usize,
) -> Option<MetalError> {
    if batch * time > usize::MAX {
        Some(MetalError::ShapeOverflow)
    } else {
        let rows = (batch * time) as usize;
        match cmix_shapes_error(rows as int, d_model as int, dim_ffn as int) {
            Some(error) => Some(error),
            None => if x != rows * d_model || mix != d_model || key_scale != dim_ffn || value_weight
                != d_model * dim_ffn {
                Some(MetalError::Mismatch(Operation::CmixBlock))
            } else {
                binary_error(
                    x as int,
                    key_bits as int,
                    key_scale as int,
                    None,
                    LinearDispatchShape { rows, in_features: d_model, out_features: dim_ffn },
                )
            },
        }
    }
}

/// The steps of a channel mix block.
pub open spec fn cmix_block_forward_steps(
    batch: usize,
    time: usize,
    d_model: usize,
    dim_ffn: usize,
) -> Seq<StepView> {
    let steps_in: usize = 0;
    let mixing: usize = 1;
    let xx: usize = 2;
    let shifted: usize = 3;
    let bits: usize = 4;
    let scale: usize = 5;
    let bias: usize = 6;
    let weight: usize = 7;
    let key: usize = 8;
    let relu2: usize = 9;
    let output: usize = 10;
    seq![
        step(
            Kernel::TimeShiftMix,
            seq![steps_in, mixing, xx, shifted],
            seq![(batch * time) as u32, time as u32, d_model as u32],
        ),
        step(
            Kernel::BinaryLinear,
            seq![shifted, bits, scale, bias, key],
            seq![(batch * time) as u32, d_model as u32, dim_ffn as u32, 0],
        ),
        step(
            Kernel::CmixRelu2,
            seq![key, relu2],
            seq![(batch * time * dim_ffn) as u32],
        ),
        step(
            Kernel::Fp16Linear,
            seq![relu2, weight, output],
            seq![(batch * time) as u32, dim_ffn as u32, d_model as u32],
        ),
    ]
}

/// Mixes each step with the one before, and runs a channel mix over it.
#[verifier::rlimit(60)]
pub fn cmix_block_forward(
    x: usize,
    mix: usize,
    key_bits: usize,
    key_scale: usize,
    value_weight: usize,
    batch: usize,
    time: usize,
    d_model: usize,
    dim_ffn: usize,
) -> (plan: Result<Plan, MetalError>)
    ensures
        match plan {
            Ok(p) => {
                &&& cmix_block_forward_error(
                    x,
                    mix,
                    key_bits,
                    key_scale,
                    value_weight,
                    batch,
                    time,
                    d_model,
                    dim_ffn,
                ) is None
                &&& p.sound()
                &&& p.answers()
                &&& p.lens() == seq![
                    x as int,
                    mix as int,
                    x as int,
                    x as int,
                    key_bits as int,
                    key_scale as int,
                    0,
                    value_weight as int,
                    batch * time * dim_ffn,
                    batch * time * dim_ffn,
                    batch * time * d_model,
                ]
                &&& p.listed() == cmix_block_forward_steps(batch, time, d_model, dim_ffn)
                &&& p.outputs@ == seq![2usize, 3usize, 8usize, 9usize, 10usize]
                &&& ({
                    let mixing = seq![(batch * time) as u32, time as u32, d_model as u32];
                    let mixed = crate::flow::made(Kernel::TimeShiftMix, 1, mixing, seq![crate::flow::put(0), crate::flow::put(1)]);
                    let key = crate::flow::projected(batch * time, d_model as int, dim_ffn as int, mixed, crate::flow::put(4), crate::flow::put(5), None);
                    let active = crate::flow::made(Kernel::CmixRelu2, 0, seq![(batch * time * dim_ffn) as u32], seq![key]);
                    crate::flow::returned(p) == seq![
                        crate::flow::made(Kernel::TimeShiftMix, 0, mixing, seq![crate::flow::put(0), crate::flow::put(1)]),
                        mixed,
                        key,
                        active,
                        crate::flow::made(Kernel::Fp16Linear, 0, seq![(batch * time) as u32, dim_ffn as u32, d_model as u32], seq![active, crate::flow::put(7)]),
                    ]
                })
            },
            Err(error) => cmix_block_forward_error(
                x,
                mix,
                key_bits,
                key_scale,
                value_weight,
                batch,
                time,
                d_model,
                dim_ffn,
            ) == Some(error),
        },
{
    let rows: usize = match batch.checked_mul(time) {
        Some(r) => r,
        None => return Err(MetalError::ShapeOverflow),
    };
    let key_shape = match LinearDispatchShape::new(rows, d_model, dim_ffn) {
        Ok(s) => s,
        Err(e) => return Err(e),
    };
    match LinearDispatchShape::new(rows, dim_ffn, d_model) {
        Ok(_) => {},
        Err(e) => return Err(e),
    }
    match rows.checked_mul(d_model) {
        Some(all) if all == x => {},
        _ => return Err(MetalError::Mismatch(Operation::CmixBlock)),
    }
    match d_model.checked_mul(dim_ffn) {
        Some(all) if all == value_weight => {},
        _ => return Err(MetalError::Mismatch(Operation::CmixBlock)),
    }
    if mix != d_model || key_scale != dim_ffn {
        return Err(MetalError::Mismatch(Operation::CmixBlock));
    }
    match check_binary_shape(x, key_bits, key_scale, None, key_shape) {
        Ok(_) => {},
        Err(e) => return Err(e),
    }
    let key_len: usize = rows * dim_ffn;
    let out_len: usize = rows * d_model;
    proof {
        lemma_swap(d_model as int, dim_ffn as int);
    }
    proof {
        lemma_factors(batch as int, time as int);
    }
    let mut plan = Plan::over(
        vec![
            given(x),
            given(mix),
            scratch(x),
            scratch(x),
            given(key_bits),
            given(key_scale),
            given(0),
            given(value_weight),
            scratch(key_len),
            scratch(key_len),
            scratch(out_len),
        ],
    );
    let steps_in_at: usize = 0;
    let mixing_at: usize = 1;
    let xx_at: usize = 2;
    let shifted_at: usize = 3;
    let bits_at: usize = 4;
    let scale_at: usize = 5;
    let bias_at: usize = 6;
    let weight_at: usize = 7;
    let key_at: usize = 8;
    let relu2_at: usize = 9;
    let output_at: usize = 10;
    plan.time_shift_mix(
        steps_in_at,
        mixing_at,
        xx_at,
        shifted_at,
        rows as u32,
        time as u32,
        d_model as u32,
    );
    plan.binary_linear(
        shifted_at,
        bits_at,
        scale_at,
        bias_at,
        key_at,
        rows as u32,
        d_model as u32,
        dim_ffn as u32,
        0,
    );
    plan.cmix_relu2(key_at, relu2_at, key_len as u32);
    plan.fp16_linear(
        relu2_at,
        weight_at,
        output_at,
        rows as u32,
        dim_ffn as u32,
        d_model as u32,
    );
    plan.read(xx_at);
    plan.read(shifted_at);
    plan.read(key_at);
    plan.read(relu2_at);
    plan.read(output_at);
    proof {
        assert(plan.lens() =~= seq![
            x as int,
            mix as int,
            x as int,
            x as int,
            key_bits as int,
            key_scale as int,
            0,
            value_weight as int,
            batch * time * dim_ffn,
            batch * time * dim_ffn,
            batch * time * d_model,
        ]);
        assert(plan.outputs@ =~= seq![2usize, 3usize, 8usize, 9usize, 10usize]);
        assert(plan.listed() =~= cmix_block_forward_steps(batch, time, d_model, dim_ffn));
        crate::flow::law_cmix_block_forward_flow(plan, batch, time, d_model, dim_ffn);
    }
    Ok(plan)
}

/// Why the gradient of a channel mix cannot be planned.
pub open spec fn cmix_ffn_backward_error(
    shifted: usize,
    key: usize,
    relu2: usize,
    gy: usize,
    key_bits: usize,
    key_scale: usize,
    value_weight: usize,
    rows: usize,
    d_model: usize,
    dim_ffn: usize,
) -> Option<MetalError> {
    match cmix_shapes_error(rows as int, d_model as int, dim_ffn as int) {
        Some(error) => Some(error),
        None => match binary_error(
            shifted as int,
            key_bits as int,
            key_scale as int,
            None,
            LinearDispatchShape { rows, in_features: d_model, out_features: dim_ffn },
        ) {
            Some(error) => Some(error),
            None => if relu2 != rows * dim_ffn || key != rows * dim_ffn || gy != rows * d_model {
                Some(MetalError::Mismatch(Operation::CmixBackward))
            } else {
                None
            },
        },
    }
}

/// The steps of the gradient of a channel mix.
pub open spec fn cmix_ffn_backward_steps(
    rows: usize,
    d_model: usize,
    dim_ffn: usize,
) -> Seq<StepView> {
    let inputs: usize = 0;
    let keys: usize = 1;
    let relu: usize = 2;
    let gradient: usize = 3;
    let bits: usize = 4;
    let scale: usize = 5;
    let weight: usize = 6;
    let g_relu: usize = 7;
    let g_value: usize = 8;
    let g_key: usize = 9;
    let g_shifted: usize = 10;
    let g_scale: usize = 11;
    let g_bias: usize = 12;
    let g_key_w: usize = 13;
    let bias: usize = 14;
    seq![
        step(
            Kernel::Fp16LinearBwd,
            seq![relu, gradient, weight, g_relu, g_value],
            seq![rows as u32, dim_ffn as u32, d_model as u32, 0],
        ),
        step(
            Kernel::Fp16LinearBwd,
            seq![relu, gradient, weight, g_relu, g_value],
            seq![rows as u32, dim_ffn as u32, d_model as u32, 1],
        ),
        step(
            Kernel::CmixRelu2Backward,
            seq![keys, g_relu, g_key],
            seq![(rows * dim_ffn) as u32],
        ),
        step(
            Kernel::BinaryLinearInputBwd,
            seq![g_key, bits, scale, g_shifted],
            seq![rows as u32, d_model as u32, dim_ffn as u32],
        ),
        step(
            Kernel::BinaryLinearScaleBwdFromOutput,
            seq![keys, g_key, scale, bias, g_scale, g_bias],
            seq![rows as u32, dim_ffn as u32, 0],
        ),
        step(
            Kernel::BinaryLinearWeightBwd,
            seq![inputs, g_key, scale, g_key_w],
            seq![rows as u32, d_model as u32, dim_ffn as u32],
        ),
    ]
}

/// The gradients of a channel mix: of its input, of its packed weights and
/// their scale, and of its plain weights.
#[verifier::rlimit(80)]
pub fn cmix_ffn_backward(
    shifted: usize,
    key: usize,
    relu2: usize,
    gy: usize,
    key_bits: usize,
    key_scale: usize,
    value_weight: usize,
    rows: usize,
    d_model: usize,
    dim_ffn: usize,
) -> (plan: Result<Plan, MetalError>)
    requires
        cmix_ffn_backward_error(
            shifted,
            key,
            relu2,
            gy,
            key_bits,
            key_scale,
            value_weight,
            rows,
            d_model,
            dim_ffn,
        ) is None ==> value_weight >= d_model * dim_ffn,
    ensures
        match plan {
            Ok(p) => {
                &&& cmix_ffn_backward_error(
                    shifted,
                    key,
                    relu2,
                    gy,
                    key_bits,
                    key_scale,
                    value_weight,
                    rows,
                    d_model,
                    dim_ffn,
                ) is None
                &&& p.sound()
                &&& p.answers()
                &&& p.lens() == seq![
                    shifted as int,
                    key as int,
                    relu2 as int,
                    gy as int,
                    key_bits as int,
                    key_scale as int,
                    value_weight as int,
                    rows * dim_ffn,
                    d_model * dim_ffn,
                    rows * dim_ffn,
                    shifted as int,
                    dim_ffn as int,
                    dim_ffn as int,
                    d_model * dim_ffn,
                    0,
                ]
                &&& p.listed() == cmix_ffn_backward_steps(rows, d_model, dim_ffn)
                &&& p.outputs@ == seq![10usize, 13usize, 11usize, 8usize]
                &&& ({
                    let of_value = seq![crate::flow::put(2), crate::flow::put(3), crate::flow::put(6)];
                    let g_active = crate::flow::made(Kernel::Fp16LinearBwd, 0, seq![rows as u32, dim_ffn as u32, d_model as u32, 0], of_value);
                    let g_value = crate::flow::made(Kernel::Fp16LinearBwd, 1, seq![rows as u32, dim_ffn as u32, d_model as u32, 1], of_value);
                    let g_key = crate::flow::made(Kernel::CmixRelu2Backward, 0, seq![(rows * dim_ffn) as u32], seq![crate::flow::put(1), g_active]);
                    let wide = seq![rows as u32, d_model as u32, dim_ffn as u32];
                    let g_weight = crate::flow::made(Kernel::BinaryLinearWeightBwd, 0, wide, seq![crate::flow::put(0), g_key, crate::flow::put(5)]);
                    crate::flow::returned(p) == seq![
                        crate::flow::made(Kernel::BinaryLinearInputBwd, 0, wide, seq![g_key, crate::flow::put(4), crate::flow::put(5)]),
                        g_weight,
                        crate::flow::made(Kernel::BinaryLinearScaleBwdFromOutput, 0, seq![rows as u32, dim_ffn as u32, 0], seq![crate::flow::put(1), g_key, crate::flow::put(5)]),
                        g_value,
                    ]
                })
            },
            Err(error) => cmix_ffn_backward_error(
                shifted,
                key,
                relu2,
                gy,
                key_bits,
                key_scale,
                value_weight,
                rows,
                d_model,
                dim_ffn,
            ) == Some(error),
        },
{
    let key_shape = match LinearDispatchShape::new(rows, d_model, dim_ffn) {
        Ok(s) => s,
        Err(e) => return Err(e),
    };
    match LinearDispatchShape::new(rows, dim_ffn, d_model) {
        Ok(_) => {},
        Err(e) => return Err(e),
    }
    match check_binary_shape(shifted, key_bits, key_scale, None, key_shape) {
        Ok(_) => {},
        Err(e) => return Err(e),
    }
    let key_len: usize = rows * dim_ffn;
    let out_len: usize = rows * d_model;
    proof {
        lemma_swap(d_model as int, dim_ffn as int);
    }
    if relu2 != key_len || key != key_len || gy != out_len {
        return Err(MetalError::Mismatch(Operation::CmixBackward));
    }
    let weights: usize = d_model * dim_ffn;
    let mut plan = Plan::over(
        vec![
            given(shifted),
            given(key),
            given(relu2),
            given(gy),
            given(key_bits),
            given(key_scale),
            given(value_weight),
            scratch(key_len),
            scratch(weights),
            scratch(key_len),
            scratch(shifted),
            scratch(dim_ffn),
            scratch(dim_ffn),
            scratch(weights),
            given(0),
        ],
    );
    let inputs_at: usize = 0;
    let keys_at: usize = 1;
    let relu_at: usize = 2;
    let gradient_at: usize = 3;
    let bits_at: usize = 4;
    let scale_at: usize = 5;
    let weight_at: usize = 6;
    let g_relu_at: usize = 7;
    let g_value_at: usize = 8;
    let g_key_at: usize = 9;
    let g_shifted_at: usize = 10;
    let g_scale_at: usize = 11;
    let g_bias_at: usize = 12;
    let g_key_w_at: usize = 13;
    let bias_at: usize = 14;
    plan.fp16_linear_bwd(
        relu_at,
        gradient_at,
        weight_at,
        g_relu_at,
        g_value_at,
        rows as u32,
        dim_ffn as u32,
        d_model as u32,
        0,
    );
    plan.fp16_linear_bwd(
        relu_at,
        gradient_at,
        weight_at,
        g_relu_at,
        g_value_at,
        rows as u32,
        dim_ffn as u32,
        d_model as u32,
        1,
    );
    plan.cmix_relu2_backward(keys_at, g_relu_at, g_key_at, key_len as u32);
    plan.binary_linear_input_bwd(
        g_key_at,
        bits_at,
        scale_at,
        g_shifted_at,
        rows as u32,
        d_model as u32,
        dim_ffn as u32,
    );
    plan.binary_linear_scale_bwd_from_output(
        keys_at,
        g_key_at,
        scale_at,
        bias_at,
        g_scale_at,
        g_bias_at,
        rows as u32,
        dim_ffn as u32,
        0,
    );
    plan.binary_linear_weight_bwd(
        inputs_at,
        g_key_at,
        scale_at,
        g_key_w_at,
        rows as u32,
        d_model as u32,
        dim_ffn as u32,
    );
    plan.read(g_shifted_at);
    plan.read(g_key_w_at);
    plan.read(g_scale_at);
    plan.read(g_value_at);
    proof {
        assert(plan.lens() =~= seq![
            shifted as int,
            key as int,
            relu2 as int,
            gy as int,
            key_bits as int,
            key_scale as int,
            value_weight as int,
            rows * dim_ffn,
            d_model * dim_ffn,
            rows * dim_ffn,
            shifted as int,
            dim_ffn as int,
            dim_ffn as int,
            d_model * dim_ffn,
            0,
        ]);
        assert(plan.outputs@ =~= seq![10usize, 13usize, 11usize, 8usize]);
        assert(plan.listed() =~= cmix_ffn_backward_steps(rows, d_model, dim_ffn));
        crate::flow::law_cmix_ffn_backward_flow(plan, rows, d_model, dim_ffn);
    }
    Ok(plan)
}

/// Why a step of a channel mix cannot be planned.
pub open spec fn cmix_block_backward_sgd_error(
    shifted: usize,
    key: usize,
    relu2: usize,
    gy: usize,
    key_bits: usize,
    key_scale: usize,
    key_latent: usize,
    key_residual: usize,
    value_weight: usize,
    value_residual: usize,
    rows: usize,
    d_model: usize,
    dim_ffn: usize,
    learning_rate: u32,
    ste_scale: u32,
) -> Option<MetalError> {
    match cmix_shapes_error(rows as int, d_model as int, dim_ffn as int) {
        Some(error) => Some(error),
        None => match binary_error(
            shifted as int,
            key_bits as int,
            key_scale as int,
            None,
            LinearDispatchShape { rows, in_features: d_model, out_features: dim_ffn },
        ) {
            Some(error) => Some(error),
            None => {
                let weights = d_model * dim_ffn;
                if relu2 != rows * dim_ffn || key != rows * dim_ffn || gy != rows * d_model
                    || key_latent != weights || key_residual != weights || value_weight != weights
                    || value_residual != weights {
                    Some(MetalError::Mismatch(Operation::CmixBackwardSgd))
                } else if weights > u32::MAX {
                    Some(MetalError::TooWide)
                } else {
                    None
                }
            },
        },
    }
}

/// The steps of a step of a channel mix.
pub open spec fn cmix_block_backward_sgd_steps(
    rows: usize,
    d_model: usize,
    dim_ffn: usize,
    learning_rate: u32,
    ste_scale: u32,
) -> Seq<StepView> {
    let inputs: usize = 0;
    let keys: usize = 1;
    let relu: usize = 2;
    let gradient: usize = 3;
    let bits: usize = 4;
    let scale: usize = 5;
    let weight: usize = 6;
    let weight_rest: usize = 7;
    let latent: usize = 8;
    let latent_rest: usize = 9;
    let g_relu: usize = 10;
    let g_value: usize = 11;
    let g_key: usize = 12;
    let g_shifted: usize = 13;
    let g_scale: usize = 14;
    let g_bias: usize = 15;
    let g_key_w: usize = 16;
    let bias: usize = 17;
    let next_bits: usize = 18;
    seq![
        step(
            Kernel::Fp16LinearBwd,
            seq![relu, gradient, weight, g_relu, g_value],
            seq![rows as u32, dim_ffn as u32, d_model as u32, 0],
        ),
        step(
            Kernel::Fp16LinearBwd,
            seq![relu, gradient, weight, g_relu, g_value],
            seq![rows as u32, dim_ffn as u32, d_model as u32, 1],
        ),
        step(
            Kernel::CmixRelu2Backward,
            seq![keys, g_relu, g_key],
            seq![(rows * dim_ffn) as u32],
        ),
        step(
            Kernel::BinaryLinearInputBwd,
            seq![g_key, bits, scale, g_shifted],
            seq![rows as u32, d_model as u32, dim_ffn as u32],
        ),
        step(
            Kernel::BinaryLinearScaleBwdFromOutput,
            seq![keys, g_key, scale, bias, g_scale, g_bias],
            seq![rows as u32, dim_ffn as u32, 0],
        ),
        step(
            Kernel::BinaryLinearWeightBwd,
            seq![inputs, g_key, scale, g_key_w],
            seq![rows as u32, d_model as u32, dim_ffn as u32],
        ),
        step(
            Kernel::ClippedSgd,
            seq![weight, weight_rest, g_value],
            seq![learning_rate, (d_model * dim_ffn) as u32],
        ),
        step(
            Kernel::BinaryConnectSgd,
            seq![latent, latent_rest, g_key_w],
            seq![learning_rate, (d_model * dim_ffn) as u32, ste_scale],
        ),
        step(
            Kernel::PackLatentBits,
            seq![latent, next_bits],
            seq![(d_model * dim_ffn) as u32],
        ),
    ]
}

/// Takes the gradients of a channel mix, moves its plain and its latent weights
/// against them, and packs the latent weights anew.
#[verifier::rlimit(100)]
pub fn cmix_block_backward_sgd(
    shifted: usize,
    key: usize,
    relu2: usize,
    gy: usize,
    key_bits: usize,
    key_scale: usize,
    key_latent: usize,
    key_residual: usize,
    value_weight: usize,
    value_residual: usize,
    rows: usize,
    d_model: usize,
    dim_ffn: usize,
    learning_rate: u32,
    ste_scale: u32,
) -> (plan: Result<Plan, MetalError>)
    ensures
        match plan {
            Ok(p) => {
                &&& cmix_block_backward_sgd_error(
                    shifted,
                    key,
                    relu2,
                    gy,
                    key_bits,
                    key_scale,
                    key_latent,
                    key_residual,
                    value_weight,
                    value_residual,
                    rows,
                    d_model,
                    dim_ffn,
                    learning_rate,
                    ste_scale,
                ) is None
                &&& p.sound()
                &&& p.answers()
                &&& p.lens() == seq![
                    shifted as int,
                    key as int,
                    relu2 as int,
                    gy as int,
                    key_bits as int,
                    key_scale as int,
                    value_weight as int,
                    value_residual as int,
                    key_latent as int,
                    key_residual as int,
                    rows * dim_ffn,
                    d_model * dim_ffn,
                    rows * dim_ffn,
                    shifted as int,
                    dim_ffn as int,
                    dim_ffn as int,
                    d_model * dim_ffn,
                    0,
                    words(d_model * dim_ffn),
                ]
                &&& p.listed() == cmix_block_backward_sgd_steps(
                    rows,
                    d_model,
                    dim_ffn,
                    learning_rate,
                    ste_scale,
                )
                &&& p.outputs@ == seq![13usize, 14usize, 6usize, 7usize, 8usize, 9usize, 18usize]
                &&& ({
                    let of_value = seq![crate::flow::put(2), crate::flow::put(3), crate::flow::put(6)];
                    let g_active = crate::flow::made(Kernel::Fp16LinearBwd, 0, seq![rows as u32, dim_ffn as u32, d_model as u32, 0], of_value);
                    let g_value = crate::flow::made(Kernel::Fp16LinearBwd, 1, seq![rows as u32, dim_ffn as u32, d_model as u32, 1], of_value);
                    let g_key = crate::flow::made(Kernel::CmixRelu2Backward, 0, seq![(rows * dim_ffn) as u32], seq![crate::flow::put(1), g_active]);
                    let wide = seq![rows as u32, d_model as u32, dim_ffn as u32];
                    let g_weight = crate::flow::made(Kernel::BinaryLinearWeightBwd, 0, wide, seq![crate::flow::put(0), g_key, crate::flow::put(5)]);
                    let clip = seq![learning_rate, (d_model * dim_ffn) as u32];
                    let of_clip = seq![crate::flow::put(6), crate::flow::put(7), g_value];
                    let sgd = seq![learning_rate, (d_model * dim_ffn) as u32, ste_scale];
                    let of_sgd = seq![crate::flow::put(8), crate::flow::put(9), g_weight];
                    let latent = crate::flow::made(Kernel::BinaryConnectSgd, 0, sgd, of_sgd);
                    crate::flow::returned(p) == seq![
                        crate::flow::made(Kernel::BinaryLinearInputBwd, 0, wide, seq![g_key, crate::flow::put(4), crate::flow::put(5)]),
                        crate::flow::made(Kernel::BinaryLinearScaleBwdFromOutput, 0, seq![rows as u32, dim_ffn as u32, 0], seq![crate::flow::put(1), g_key, crate::flow::put(5)]),
                        crate::flow::made(Kernel::ClippedSgd, 0, clip, of_clip),
                        crate::flow::made(Kernel::ClippedSgd, 1, clip, of_clip),
                        latent,
                        crate::flow::made(Kernel::BinaryConnectSgd, 1, sgd, of_sgd),
                        crate::flow::made(Kernel::PackLatentBits, 0, seq![(d_model * dim_ffn) as u32], seq![latent]),
                    ]
                })
            },
            Err(error) => cmix_block_backward_sgd_error(
                shifted,
                key,
                relu2,
                gy,
                key_bits,
                key_scale,
                key_latent,
                key_residual,
                value_weight,
                value_residual,
                rows,
                d_model,
                dim_ffn,
                learning_rate,
                ste_scale,
            ) == Some(error),
        },
{
    let key_shape = match LinearDispatchShape::new(rows, d_model, dim_ffn) {
        Ok(s) => s,
        Err(e) => return Err(e),
    };
    match LinearDispatchShape::new(rows, dim_ffn, d_model) {
        Ok(_) => {},
        Err(e) => return Err(e),
    }
    match check_binary_shape(shifted, key_bits, key_scale, None, key_shape) {
        Ok(_) => {},
        Err(e) => return Err(e),
    }
    let key_len: usize = rows * dim_ffn;
    let out_len: usize = rows * d_model;
    proof {
        lemma_swap(d_model as int, dim_ffn as int);
    }
    let weights: usize = d_model * dim_ffn;
    if relu2 != key_len || key != key_len || gy != out_len || key_latent != weights || key_residual
        != weights || value_weight != weights || value_residual != weights {
        return Err(MetalError::Mismatch(Operation::CmixBackwardSgd));
    }
    if weights > u32::MAX as usize {
        return Err(MetalError::TooWide);
    }
    proof {
        lemma_product_of_three(d_model as int, dim_ffn as int, 1);
    }
    let packed: usize = words_for(weights);
    let mut plan = Plan::over(
        vec![
            given(shifted),
            given(key),
            given(relu2),
            given(gy),
            given(key_bits),
            given(key_scale),
            given(value_weight),
            given(value_residual),
            given(key_latent),
            given(key_residual),
            scratch(key_len),
            scratch(weights),
            scratch(key_len),
            scratch(shifted),
            scratch(dim_ffn),
            scratch(dim_ffn),
            scratch(weights),
            given(0),
            scratch(packed),
        ],
    );
    let inputs_at: usize = 0;
    let keys_at: usize = 1;
    let relu_at: usize = 2;
    let gradient_at: usize = 3;
    let bits_at: usize = 4;
    let scale_at: usize = 5;
    let weight_at: usize = 6;
    let weight_rest_at: usize = 7;
    let latent_at: usize = 8;
    let latent_rest_at: usize = 9;
    let g_relu_at: usize = 10;
    let g_value_at: usize = 11;
    let g_key_at: usize = 12;
    let g_shifted_at: usize = 13;
    let g_scale_at: usize = 14;
    let g_bias_at: usize = 15;
    let g_key_w_at: usize = 16;
    let bias_at: usize = 17;
    let next_bits_at: usize = 18;
    plan.fp16_linear_bwd(
        relu_at,
        gradient_at,
        weight_at,
        g_relu_at,
        g_value_at,
        rows as u32,
        dim_ffn as u32,
        d_model as u32,
        0,
    );
    plan.fp16_linear_bwd(
        relu_at,
        gradient_at,
        weight_at,
        g_relu_at,
        g_value_at,
        rows as u32,
        dim_ffn as u32,
        d_model as u32,
        1,
    );
    plan.cmix_relu2_backward(keys_at, g_relu_at, g_key_at, key_len as u32);
    plan.binary_linear_input_bwd(
        g_key_at,
        bits_at,
        scale_at,
        g_shifted_at,
        rows as u32,
        d_model as u32,
        dim_ffn as u32,
    );
    plan.binary_linear_scale_bwd_from_output(
        keys_at,
        g_key_at,
        scale_at,
        bias_at,
        g_scale_at,
        g_bias_at,
        rows as u32,
        dim_ffn as u32,
        0,
    );
    plan.binary_linear_weight_bwd(
        inputs_at,
        g_key_at,
        scale_at,
        g_key_w_at,
        rows as u32,
        d_model as u32,
        dim_ffn as u32,
    );
    plan.clipped_sgd(
        weight_at,
        weight_rest_at,
        g_value_at,
        learning_rate,
        weights as u32,
    );
    plan.binary_connect_sgd(
        latent_at,
        latent_rest_at,
        g_key_w_at,
        learning_rate,
        weights as u32,
        ste_scale,
    );
    plan.pack_latent_bits(latent_at, next_bits_at, weights as u32);
    plan.read(g_shifted_at);
    plan.read(g_scale_at);
    plan.read(weight_at);
    plan.read(weight_rest_at);
    plan.read(latent_at);
    plan.read(latent_rest_at);
    plan.read(next_bits_at);
    proof {
        assert(plan.lens() =~= seq![
            shifted as int,
            key as int,
            relu2 as int,
            gy as int,
            key_bits as int,
            key_scale as int,
            value_weight as int,
            value_residual as int,
            key_latent as int,
            key_residual as int,
            rows * dim_ffn,
            d_model * dim_ffn,
            rows * dim_ffn,
            shifted as int,
            dim_ffn as int,
            dim_ffn as int,
            d_model * dim_ffn,
            0,
            words(d_model * dim_ffn),
        ]);
        assert(plan.outputs@ =~= seq![13usize, 14usize, 6usize, 7usize, 8usize, 9usize, 18usize]);
        assert(plan.listed() =~= cmix_block_backward_sgd_steps(rows, d_model, dim_ffn, learning_rate, ste_scale));
        crate::flow::law_cmix_block_backward_sgd_flow(plan, rows, d_model, dim_ffn, learning_rate, ste_scale);
    }
    Ok(plan)
}

/// Why a clipped step cannot be planned.
pub open spec fn clipped_sgd_fp16_error(
    parameters: usize,
    residual: usize,
    gradient: usize,
    learning_rate: u32,
) -> Option<MetalError> {
    if parameters != gradient || residual != parameters {
        Some(MetalError::Mismatch(Operation::ClippedLength))
    } else if parameters > u32::MAX {
        Some(MetalError::TooWide)
    } else {
        None
    }
}

/// The steps of a clipped step.
pub open spec fn clipped_sgd_fp16_steps(parameters: usize, learning_rate: u32) -> Seq<StepView> {
    let values: usize = 0;
    let rest: usize = 1;
    let slope: usize = 2;
    seq![
        step(
            Kernel::ClippedSgd,
            seq![values, rest, slope],
            seq![learning_rate, parameters as u32],
        ),
    ]
}

/// Moves parameters against their gradient, clipped, and keeps what rounding left over.
pub fn clipped_sgd_fp16(
    parameters: usize,
    residual: usize,
    gradient: usize,
    learning_rate: u32,
) -> (plan: Result<Plan, MetalError>)
    ensures
        match plan {
            Ok(p) => {
                &&& clipped_sgd_fp16_error(
                    parameters,
                    residual,
                    gradient,
                    learning_rate,
                ) is None
                &&& p.sound()
                &&& p.answers()
                &&& if parameters == 0 {
                    &&& p.lens() == Seq::<int>::empty()
                    &&& p.listed() == Seq::<StepView>::empty()
                    &&& p.outputs@ == Seq::<usize>::empty()
                } else {
                    &&& p.lens() == seq![parameters as int, residual as int, gradient as int]
                    &&& p.listed() == clipped_sgd_fp16_steps(parameters, learning_rate)
                    &&& p.outputs@ == seq![0usize, 1usize]
                    &&& ({
                        let c = seq![learning_rate, parameters as u32];
                        let from = seq![crate::flow::put(0), crate::flow::put(1), crate::flow::put(2)];
                        crate::flow::returned(p) == seq![
                            crate::flow::made(Kernel::ClippedSgd, 0, c, from),
                            crate::flow::made(Kernel::ClippedSgd, 1, c, from),
                        ]
                    })
                }
            },
            Err(error) => clipped_sgd_fp16_error(
                parameters,
                residual,
                gradient,
                learning_rate,
            ) == Some(error),
        },
{
    if parameters != gradient || residual != parameters {
        return Err(MetalError::Mismatch(Operation::ClippedLength));
    }
    if parameters > u32::MAX as usize {
        return Err(MetalError::TooWide);
    }
    if parameters == 0 {
        return Ok(Plan::over(Vec::new()));
    }
    let mut plan = Plan::over(
        vec![
            given(parameters),
            given(residual),
            given(gradient),
        ],
    );
    let values_at: usize = 0;
    let rest_at: usize = 1;
    let slope_at: usize = 2;
    plan.clipped_sgd(
        values_at,
        rest_at,
        slope_at,
        learning_rate,
        parameters as u32,
    );
    plan.read(values_at);
    plan.read(rest_at);
    proof {
        assert(plan.lens() =~= seq![parameters as int, residual as int, gradient as int]);
        assert(plan.outputs@ =~= seq![0usize, 1usize]);
        assert(plan.listed() =~= clipped_sgd_fp16_steps(parameters, learning_rate));
        crate::flow::law_clipped_sgd_fp16_flow(plan, parameters, learning_rate);
    }
    Ok(plan)
}

/// Why a step of latent weights cannot be planned.
pub open spec fn binaryconnect_sgd_fp16_error(
    parameters: usize,
    residual: usize,
    gradient: usize,
    learning_rate: u32,
    ste_scale: u32,
) -> Option<MetalError> {
    if parameters != gradient || residual != parameters {
        Some(MetalError::Mismatch(Operation::BinaryConnectLength))
    } else if parameters > u32::MAX {
        Some(MetalError::TooWide)
    } else {
        None
    }
}

/// The steps of a step of latent weights.
pub open spec fn binaryconnect_sgd_fp16_steps(
    parameters: usize,
    learning_rate: u32,
    ste_scale: u32,
) -> Seq<StepView> {
    let values: usize = 0;
    let rest: usize = 1;
    let slope: usize = 2;
    seq![
        step(
            Kernel::BinaryConnectSgd,
            seq![values, rest, slope],
            seq![learning_rate, parameters as u32, ste_scale],
        ),
    ]
}

/// Moves latent weights against the gradient of their signs.
pub fn binaryconnect_sgd_fp16(
    parameters: usize,
    residual: usize,
    gradient: usize,
    learning_rate: u32,
    ste_scale: u32,
) -> (plan: Result<Plan, MetalError>)
    ensures
        match plan {
            Ok(p) => {
                &&& binaryconnect_sgd_fp16_error(
                    parameters,
                    residual,
                    gradient,
                    learning_rate,
                    ste_scale,
                ) is None
                &&& p.sound()
                &&& p.answers()
                &&& if parameters == 0 {
                    &&& p.lens() == Seq::<int>::empty()
                    &&& p.listed() == Seq::<StepView>::empty()
                    &&& p.outputs@ == Seq::<usize>::empty()
                } else {
                    &&& p.lens() == seq![parameters as int, residual as int, gradient as int]
                    &&& p.listed() == binaryconnect_sgd_fp16_steps(
                        parameters,
                        learning_rate,
                        ste_scale,
                    )
                    &&& p.outputs@ == seq![0usize, 1usize]
                    &&& ({
                        let c = seq![learning_rate, parameters as u32, ste_scale];
                        let from = seq![crate::flow::put(0), crate::flow::put(1), crate::flow::put(2)];
                        crate::flow::returned(p) == seq![
                            crate::flow::made(Kernel::BinaryConnectSgd, 0, c, from),
                            crate::flow::made(Kernel::BinaryConnectSgd, 1, c, from),
                        ]
                    })
                }
            },
            Err(error) => binaryconnect_sgd_fp16_error(
                parameters,
                residual,
                gradient,
                learning_rate,
                ste_scale,
            ) == Some(error),
        },
{
    if parameters != gradient || residual != parameters {
        return Err(MetalError::Mismatch(Operation::BinaryConnectLength));
    }
    if parameters > u32::MAX as usize {
        return Err(MetalError::TooWide);
    }
    if parameters == 0 {
        return Ok(Plan::over(Vec::new()));
    }
    let mut plan = Plan::over(
        vec![
            given(parameters),
            given(residual),
            given(gradient),
        ],
    );
    let values_at: usize = 0;
    let rest_at: usize = 1;
    let slope_at: usize = 2;
    plan.binary_connect_sgd(
        values_at,
        rest_at,
        slope_at,
        learning_rate,
        parameters as u32,
        ste_scale,
    );
    plan.read(values_at);
    plan.read(rest_at);
    proof {
        assert(plan.lens() =~= seq![parameters as int, residual as int, gradient as int]);
        assert(plan.outputs@ =~= seq![0usize, 1usize]);
        assert(plan.listed() =~= binaryconnect_sgd_fp16_steps(parameters, learning_rate, ste_scale));
        crate::flow::law_binaryconnect_sgd_fp16_flow(plan, parameters, learning_rate, ste_scale);
    }
    Ok(plan)
}

/// Why a step of latent weights with packing cannot be planned.
pub open spec fn apply_latent_sgd_error(
    latent: usize,
    residual: usize,
    gradient: usize,
    learning_rate: u32,
    ste_scale: u32,
) -> Option<MetalError> {
    if latent != gradient || residual != latent {
        Some(MetalError::Mismatch(Operation::LatentLength))
    } else if latent > u32::MAX {
        Some(MetalError::TooWide)
    } else {
        None
    }
}

/// The steps of a step of latent weights with packing.
pub open spec fn apply_latent_sgd_steps(
    latent: usize,
    learning_rate: u32,
    ste_scale: u32,
) -> Seq<StepView> {
    let values: usize = 0;
    let rest: usize = 1;
    let slope: usize = 2;
    let bits: usize = 3;
    seq![
        step(
            Kernel::BinaryConnectSgd,
            seq![values, rest, slope],
            seq![learning_rate, latent as u32, ste_scale],
        ),
        step(
            Kernel::PackLatentBits,
            seq![values, bits],
            seq![latent as u32],
        ),
    ]
}

/// Moves latent weights against the gradient of their signs, and packs the signs anew.
pub fn apply_latent_sgd(
    latent: usize,
    residual: usize,
    gradient: usize,
    learning_rate: u32,
    ste_scale: u32,
) -> (plan: Result<Plan, MetalError>)
    ensures
        match plan {
            Ok(p) => {
                &&& apply_latent_sgd_error(
                    latent,
                    residual,
                    gradient,
                    learning_rate,
                    ste_scale,
                ) is None
                &&& p.sound()
                &&& p.answers()
                &&& if latent == 0 {
                    &&& p.lens() == Seq::<int>::empty()
                    &&& p.listed() == Seq::<StepView>::empty()
                    &&& p.outputs@ == Seq::<usize>::empty()
                } else {
                    &&& p.lens() == seq![
                        latent as int,
                        residual as int,
                        gradient as int,
                        words(latent as int),
                    ]
                    &&& p.listed() == apply_latent_sgd_steps(latent, learning_rate, ste_scale)
                    &&& p.outputs@ == seq![0usize, 1usize, 3usize]
                    &&& ({
                        let c = seq![learning_rate, latent as u32, ste_scale];
                        let from = seq![crate::flow::put(0), crate::flow::put(1), crate::flow::put(2)];
                        let moved = crate::flow::made(Kernel::BinaryConnectSgd, 0, c, from);
                        crate::flow::returned(p) == seq![
                            moved,
                            crate::flow::made(Kernel::BinaryConnectSgd, 1, c, from),
                            crate::flow::made(Kernel::PackLatentBits, 0, seq![latent as u32], seq![moved]),
                        ]
                    })
                }
            },
            Err(error) => apply_latent_sgd_error(
                latent,
                residual,
                gradient,
                learning_rate,
                ste_scale,
            ) == Some(error),
        },
{
    if latent != gradient || residual != latent {
        return Err(MetalError::Mismatch(Operation::LatentLength));
    }
    if latent > u32::MAX as usize {
        return Err(MetalError::TooWide);
    }
    if latent == 0 {
        return Ok(Plan::over(Vec::new()));
    }
    let packed: usize = words_for(latent);
    let mut plan = Plan::over(
        vec![
            given(latent),
            given(residual),
            given(gradient),
            scratch(packed),
        ],
    );
    let values_at: usize = 0;
    let rest_at: usize = 1;
    let slope_at: usize = 2;
    let bits_at: usize = 3;
    plan.binary_connect_sgd(
        values_at,
        rest_at,
        slope_at,
        learning_rate,
        latent as u32,
        ste_scale,
    );
    plan.pack_latent_bits(values_at, bits_at, latent as u32);
    plan.read(values_at);
    plan.read(rest_at);
    plan.read(bits_at);
    proof {
        assert(plan.lens() =~= seq![
            latent as int,
            residual as int,
            gradient as int,
            words(latent as int),
        ]);
        assert(plan.outputs@ =~= seq![0usize, 1usize, 3usize]);
        assert(plan.listed() =~= apply_latent_sgd_steps(latent, learning_rate, ste_scale));
        crate::flow::law_apply_latent_sgd_flow(plan, latent, learning_rate, ste_scale);
    }
    Ok(plan)
}

/// Why a streamed loss cannot be planned.
pub open spec fn streamed_cross_entropy_fp16_error(
    hidden: usize,
    bits: usize,
    scale: usize,
    tokens: usize,
    rows: usize,
    time: usize,
    channels: usize,
    vocab: usize,
    horizon: usize,
) -> Option<MetalError> {
    if rows * channels != hidden || tokens != rows || scale != vocab || time == 0 || rows % time
        != 0 || vocab * channels > usize::MAX || bits != words(vocab * channels) {
        Some(MetalError::Mismatch(Operation::StreamedCe))
    } else if rows * vocab > usize::MAX {
        Some(MetalError::ShapeOverflow)
    } else if rows == 0 {
        Some(MetalError::Empty)
    } else if rows > u32::MAX || time > u32::MAX || channels > u32::MAX || vocab > u32::MAX
        || horizon > u32::MAX {
        Some(MetalError::TooWide)
    } else {
        None
    }
}

/// The steps of a streamed loss.
pub open spec fn streamed_cross_entropy_fp16_steps(
    rows: usize,
    time: usize,
    channels: usize,
    vocab: usize,
    horizon: usize,
    gradient_scale: u32,
) -> Seq<StepView> {
    let x: usize = 0;
    let packed: usize = 1;
    let scales: usize = 2;
    let targets: usize = 3;
    let gx: usize = 4;
    let loss: usize = 5;
    let g_scale: usize = 6;
    let gy: usize = 7;
    seq![
        step(
            Kernel::StreamedCrossEntropy,
            seq![x, packed, scales, targets, gx, loss, g_scale, gy],
            seq![
                rows as u32,
                time as u32,
                channels as u32,
                vocab as u32,
                horizon as u32,
                gradient_scale,
                CE_NO_IGNORE,
            ],
        ),
    ]
}

/// The loss of each row against the token `horizon` steps on, and its gradients.
/// No token is ignored. `gradient_scale` is the bit pattern of the number that
/// the gradients are multiplied with.
pub fn streamed_cross_entropy_fp16(
    hidden: usize,
    bits: usize,
    scale: usize,
    tokens: usize,
    rows: usize,
    time: usize,
    channels: usize,
    vocab: usize,
    horizon: usize,
    gradient_scale: u32,
) -> (plan: Result<Plan, MetalError>)
    ensures
        match plan {
            Ok(p) => {
                &&& streamed_cross_entropy_fp16_error(
                    hidden,
                    bits,
                    scale,
                    tokens,
                    rows,
                    time,
                    channels,
                    vocab,
                    horizon,
                ) is None
                &&& p.sound()
                &&& p.answers()
                &&& p.lens() == seq![
                    hidden as int,
                    bits as int,
                    scale as int,
                    tokens as int,
                    hidden as int,
                    rows as int,
                    vocab as int,
                    rows * vocab,
                ]
                &&& p.listed() == streamed_cross_entropy_fp16_steps(
                    rows,
                    time,
                    channels,
                    vocab,
                    horizon,
                    gradient_scale,
                )
                &&& p.outputs@ == seq![4usize, 5usize, 6usize, 7usize]
                &&& ({
                    let c = seq![rows as u32, time as u32, channels as u32, vocab as u32, horizon as u32, gradient_scale, u32::MAX];
                    let from = seq![crate::flow::put(0), crate::flow::put(1), crate::flow::put(2), crate::flow::put(3), crate::flow::put(6)];
                    crate::flow::returned(p) == seq![
                        crate::flow::made(Kernel::StreamedCrossEntropy, 0, c, from),
                        crate::flow::made(Kernel::StreamedCrossEntropy, 1, c, from),
                        crate::flow::made(Kernel::StreamedCrossEntropy, 2, c, from),
                        crate::flow::made(Kernel::StreamedCrossEntropy, 3, c, from),
                    ]
                })
            },
            Err(error) => streamed_cross_entropy_fp16_error(
                hidden,
                bits,
                scale,
                tokens,
                rows,
                time,
                channels,
                vocab,
                horizon,
            ) == Some(error),
        },
{
    match rows.checked_mul(channels) {
        Some(all) if all == hidden => {},
        _ => return Err(MetalError::Mismatch(Operation::StreamedCe)),
    }
    if tokens != rows || scale != vocab || time == 0 || rows % time != 0 {
        return Err(MetalError::Mismatch(Operation::StreamedCe));
    }
    if !packs_into(vocab, channels, bits) {
        return Err(MetalError::Mismatch(Operation::StreamedCe));
    }
    let logits: usize = match rows.checked_mul(vocab) {
        Some(all) => all,
        None => return Err(MetalError::ShapeOverflow),
    };
    if rows == 0 {
        return Err(MetalError::Empty);
    }
    let rows_w: u32 = match as_u32(rows) {
        Ok(w) => w,
        Err(e) => return Err(e),
    };
    let time_w: u32 = match as_u32(time) {
        Ok(w) => w,
        Err(e) => return Err(e),
    };
    let channels_w: u32 = match as_u32(channels) {
        Ok(w) => w,
        Err(e) => return Err(e),
    };
    let vocab_w: u32 = match as_u32(vocab) {
        Ok(w) => w,
        Err(e) => return Err(e),
    };
    let horizon_w: u32 = match as_u32(horizon) {
        Ok(w) => w,
        Err(e) => return Err(e),
    };
    let mut plan = Plan::over(
        vec![
            given(hidden),
            given(bits),
            given(scale),
            given(tokens),
            scratch(hidden),
            scratch(rows),
            given(vocab),
            scratch(logits),
        ],
    );
    let x_at: usize = 0;
    let packed_at: usize = 1;
    let scales_at: usize = 2;
    let targets_at: usize = 3;
    let gx_at: usize = 4;
    let loss_at: usize = 5;
    let g_scale_at: usize = 6;
    let gy_at: usize = 7;
    plan.streamed_cross_entropy(
        x_at,
        packed_at,
        scales_at,
        targets_at,
        gx_at,
        loss_at,
        g_scale_at,
        gy_at,
        rows_w,
        time_w,
        channels_w,
        vocab_w,
        horizon_w,
        gradient_scale,
        CE_NO_IGNORE,
    );
    plan.read(gx_at);
    plan.read(loss_at);
    plan.read(g_scale_at);
    plan.read(gy_at);
    proof {
        assert(plan.lens() =~= seq![
            hidden as int,
            bits as int,
            scale as int,
            tokens as int,
            hidden as int,
            rows as int,
            vocab as int,
            rows * vocab,
        ]);
        assert(plan.outputs@ =~= seq![4usize, 5usize, 6usize, 7usize]);
        assert(plan.listed() =~= streamed_cross_entropy_fp16_steps(rows, time, channels, vocab, horizon, gradient_scale));
        crate::flow::law_streamed_cross_entropy_fp16_flow(plan, rows, time, channels, vocab, horizon, gradient_scale);
    }
    Ok(plan)
}

/// Why the loss of the packed head cannot be planned.
pub open spec fn packed_head_train_error(
    hidden: usize,
    bits: usize,
    scale: usize,
    tokens: usize,
    rows: usize,
    time: usize,
    channels: usize,
    vocab: usize,
    horizon: usize,
) -> Option<MetalError> {
    match linear_error(rows as int, channels as int, vocab as int) {
        Some(error) => Some(error),
        None => match binary_error(
            hidden as int,
            bits as int,
            scale as int,
            None,
            LinearDispatchShape { rows, in_features: channels, out_features: vocab },
        ) {
            Some(error) => Some(error),
            None => if tokens != rows || time == 0 || rows % time != 0 {
                Some(MetalError::Mismatch(Operation::HeadCe))
            } else if time > u32::MAX || horizon > u32::MAX {
                Some(MetalError::TooWide)
            } else {
                None
            },
        },
    }
}

/// The steps of the loss of the packed head.
pub open spec fn packed_head_train_steps(
    rows: usize,
    time: usize,
    channels: usize,
    vocab: usize,
    horizon: usize,
    gradient_scale: u32,
) -> Seq<StepView> {
    let x: usize = 0;
    let packed: usize = 1;
    let scales: usize = 2;
    let bias: usize = 3;
    let targets: usize = 4;
    let logits: usize = 5;
    let gy: usize = 6;
    let loss: usize = 7;
    let gx: usize = 8;
    let g_scale: usize = 9;
    let g_bias: usize = 10;
    let gw: usize = 11;
    seq![
        step(
            Kernel::BinaryLinear,
            seq![x, packed, scales, bias, logits],
            seq![rows as u32, channels as u32, vocab as u32, 0],
        ),
        step(
            Kernel::SoftmaxCrossEntropy,
            seq![logits, targets, loss, gy],
            seq![
                rows as u32,
                time as u32,
                vocab as u32,
                horizon as u32,
                gradient_scale,
                CE_NO_IGNORE,
            ],
        ),
        step(
            Kernel::BinaryLinearInputBwd,
            seq![gy, packed, scales, gx],
            seq![rows as u32, channels as u32, vocab as u32],
        ),
        step(
            Kernel::BinaryLinearScaleBwdFromOutput,
            seq![logits, gy, scales, bias, g_scale, g_bias],
            seq![rows as u32, vocab as u32, 0],
        ),
        step(
            Kernel::BinaryLinearWeightBwd,
            seq![x, gy, scales, gw],
            seq![rows as u32, channels as u32, vocab as u32],
        ),
    ]
}

/// Scores every row with the packed head, and takes the loss and its gradients.
/// No token is ignored. `gradient_scale` is the bit pattern of the number that
/// the gradients are multiplied with.
#[verifier::rlimit(60)]
pub fn packed_head_train(
    hidden: usize,
    bits: usize,
    scale: usize,
    tokens: usize,
    rows: usize,
    time: usize,
    channels: usize,
    vocab: usize,
    horizon: usize,
    gradient_scale: u32,
) -> (plan: Result<Plan, MetalError>)
    ensures
        match plan {
            Ok(p) => {
                &&& packed_head_train_error(
                    hidden,
                    bits,
                    scale,
                    tokens,
                    rows,
                    time,
                    channels,
                    vocab,
                    horizon,
                ) is None
                &&& p.sound()
                &&& p.answers()
                &&& p.lens() == seq![
                    hidden as int,
                    bits as int,
                    scale as int,
                    0,
                    tokens as int,
                    rows * vocab,
                    rows * vocab,
                    rows as int,
                    hidden as int,
                    vocab as int,
                    vocab as int,
                    channels * vocab,
                ]
                &&& p.listed() == packed_head_train_steps(
                    rows,
                    time,
                    channels,
                    vocab,
                    horizon,
                    gradient_scale,
                )
                &&& p.outputs@ == seq![8usize, 9usize, 11usize, 7usize]
                &&& ({
                    let logits = crate::flow::projected(rows as int, channels as int, vocab as int, crate::flow::put(0), crate::flow::put(1), crate::flow::put(2), None);
                    let entropy = seq![rows as u32, time as u32, vocab as u32, horizon as u32, gradient_scale, u32::MAX];
                    let loss = crate::flow::made(Kernel::SoftmaxCrossEntropy, 0, entropy, seq![logits, crate::flow::put(4)]);
                    let g_logits = crate::flow::made(Kernel::SoftmaxCrossEntropy, 1, entropy, seq![logits, crate::flow::put(4)]);
                    let wide = seq![rows as u32, channels as u32, vocab as u32];
                    let g_weight = crate::flow::made(Kernel::BinaryLinearWeightBwd, 0, wide, seq![crate::flow::put(0), g_logits, crate::flow::put(2)]);
                    crate::flow::returned(p) == seq![
                        crate::flow::made(Kernel::BinaryLinearInputBwd, 0, wide, seq![g_logits, crate::flow::put(1), crate::flow::put(2)]),
                        crate::flow::made(Kernel::BinaryLinearScaleBwdFromOutput, 0, seq![rows as u32, vocab as u32, 0], seq![logits, g_logits, crate::flow::put(2)]),
                        g_weight,
                        loss,
                    ]
                })
            },
            Err(error) => packed_head_train_error(
                hidden,
                bits,
                scale,
                tokens,
                rows,
                time,
                channels,
                vocab,
                horizon,
            ) == Some(error),
        },
{
    let shape = match LinearDispatchShape::new(rows, channels, vocab) {
        Ok(s) => s,
        Err(e) => return Err(e),
    };
    match check_binary_shape(hidden, bits, scale, None, shape) {
        Ok(_) => {},
        Err(e) => return Err(e),
    }
    if tokens != rows || time == 0 || rows % time != 0 {
        return Err(MetalError::Mismatch(Operation::HeadCe));
    }
    let time_w: u32 = match as_u32(time) {
        Ok(w) => w,
        Err(e) => return Err(e),
    };
    let horizon_w: u32 = match as_u32(horizon) {
        Ok(w) => w,
        Err(e) => return Err(e),
    };
    let scores: usize = rows * vocab;
    let weights: usize = channels * vocab;
    let mut plan = Plan::over(
        vec![
            given(hidden),
            given(bits),
            given(scale),
            given(0),
            given(tokens),
            scratch(scores),
            scratch(scores),
            scratch(rows),
            scratch(hidden),
            scratch(vocab),
            scratch(vocab),
            scratch(weights),
        ],
    );
    let x_at: usize = 0;
    let packed_at: usize = 1;
    let scales_at: usize = 2;
    let bias_at: usize = 3;
    let targets_at: usize = 4;
    let logits_at: usize = 5;
    let gy_at: usize = 6;
    let loss_at: usize = 7;
    let gx_at: usize = 8;
    let g_scale_at: usize = 9;
    let g_bias_at: usize = 10;
    let gw_at: usize = 11;
    plan.binary_linear(
        x_at,
        packed_at,
        scales_at,
        bias_at,
        logits_at,
        rows as u32,
        channels as u32,
        vocab as u32,
        0,
    );
    plan.softmax_cross_entropy(
        logits_at,
        targets_at,
        loss_at,
        gy_at,
        rows as u32,
        time_w,
        vocab as u32,
        horizon_w,
        gradient_scale,
        CE_NO_IGNORE,
    );
    plan.binary_linear_input_bwd(
        gy_at,
        packed_at,
        scales_at,
        gx_at,
        rows as u32,
        channels as u32,
        vocab as u32,
    );
    plan.binary_linear_scale_bwd_from_output(
        logits_at,
        gy_at,
        scales_at,
        bias_at,
        g_scale_at,
        g_bias_at,
        rows as u32,
        vocab as u32,
        0,
    );
    plan.binary_linear_weight_bwd(
        x_at,
        gy_at,
        scales_at,
        gw_at,
        rows as u32,
        channels as u32,
        vocab as u32,
    );
    plan.read(gx_at);
    plan.read(g_scale_at);
    plan.read(gw_at);
    plan.read(loss_at);
    proof {
        assert(plan.lens() =~= seq![
            hidden as int,
            bits as int,
            scale as int,
            0,
            tokens as int,
            rows * vocab,
            rows * vocab,
            rows as int,
            hidden as int,
            vocab as int,
            vocab as int,
            channels * vocab,
        ]);
        assert(plan.outputs@ =~= seq![8usize, 9usize, 11usize, 7usize]);
        assert(plan.listed() =~= packed_head_train_steps(rows, time, channels, vocab, horizon, gradient_scale));
        crate::flow::law_packed_head_train_flow(plan, rows, time, channels, vocab, horizon, gradient_scale);
    }
    Ok(plan)
}

/// Why a step of the packed head cannot be planned.
pub open spec fn packed_head_train_sgd_error(
    hidden: usize,
    bits: usize,
    scale: usize,
    latent: usize,
    residual: usize,
    tokens: usize,
    rows: usize,
    time: usize,
    channels: usize,
    vocab: usize,
    horizon: usize,
    gradient_scale: u32,
    ignore_id: u32,
    learning_rate: u32,
    ste_scale: u32,
) -> Option<MetalError> {
    match linear_error(rows as int, channels as int, vocab as int) {
        Some(error) => Some(error),
        None => if hidden != rows * channels {
            Some(MetalError::Mismatch(Operation::HeadSgd))
        } else if channels * vocab > usize::MAX {
            Some(MetalError::WeightOverflow)
        } else if bits != words(channels * vocab) || scale != vocab || latent != channels * vocab
            || residual != channels * vocab || tokens != rows || time == 0 || rows % time != 0 {
            Some(MetalError::Mismatch(Operation::HeadSgd))
        } else if time > u32::MAX || horizon > u32::MAX || latent > u32::MAX {
            Some(MetalError::TooWide)
        } else {
            None
        },
    }
}

/// The steps of a step of the packed head.
pub open spec fn packed_head_train_sgd_steps(
    rows: usize,
    time: usize,
    channels: usize,
    vocab: usize,
    horizon: usize,
    gradient_scale: u32,
    ignore_id: u32,
    learning_rate: u32,
    ste_scale: u32,
) -> Seq<StepView> {
    let x: usize = 0;
    let packed: usize = 1;
    let scales: usize = 2;
    let bias: usize = 3;
    let targets: usize = 4;
    let parameters: usize = 5;
    let rest: usize = 6;
    let next_bits: usize = 7;
    let logits: usize = 8;
    let gy: usize = 9;
    let loss: usize = 10;
    let gx: usize = 11;
    let g_scale: usize = 12;
    let g_bias: usize = 13;
    let gw: usize = 14;
    seq![
        step(
            Kernel::BinaryLinear,
            seq![x, packed, scales, bias, logits],
            seq![rows as u32, channels as u32, vocab as u32, 0],
        ),
        step(
            Kernel::SoftmaxCrossEntropy,
            seq![logits, targets, loss, gy],
            seq![
                rows as u32,
                time as u32,
                vocab as u32,
                horizon as u32,
                gradient_scale,
                ignore_id,
            ],
        ),
        step(
            Kernel::BinaryLinearInputBwd,
            seq![gy, packed, scales, gx],
            seq![rows as u32, channels as u32, vocab as u32],
        ),
        step(
            Kernel::BinaryLinearScaleBwdFromOutput,
            seq![logits, gy, scales, bias, g_scale, g_bias],
            seq![rows as u32, vocab as u32, 0],
        ),
        step(
            Kernel::BinaryLinearWeightBwd,
            seq![x, gy, scales, gw],
            seq![rows as u32, channels as u32, vocab as u32],
        ),
        step(
            Kernel::BinaryConnectSgd,
            seq![parameters, rest, gw],
            seq![learning_rate, (channels * vocab) as u32, ste_scale],
        ),
        step(
            Kernel::PackLatentBits,
            seq![parameters, next_bits],
            seq![(channels * vocab) as u32],
        ),
    ]
}

/// Scores every row with the packed head, takes the loss and its gradients, and
/// moves the latent weights of the head.
#[verifier::rlimit(80)]
pub fn packed_head_train_sgd(
    hidden: usize,
    bits: usize,
    scale: usize,
    latent: usize,
    residual: usize,
    tokens: usize,
    rows: usize,
    time: usize,
    channels: usize,
    vocab: usize,
    horizon: usize,
    gradient_scale: u32,
    ignore_id: u32,
    learning_rate: u32,
    ste_scale: u32,
) -> (plan: Result<Plan, MetalError>)
    ensures
        match plan {
            Ok(p) => {
                &&& packed_head_train_sgd_error(
                    hidden,
                    bits,
                    scale,
                    latent,
                    residual,
                    tokens,
                    rows,
                    time,
                    channels,
                    vocab,
                    horizon,
                    gradient_scale,
                    ignore_id,
                    learning_rate,
                    ste_scale,
                ) is None
                &&& p.sound()
                &&& p.answers()
                &&& p.lens() == seq![
                    hidden as int,
                    bits as int,
                    scale as int,
                    0,
                    tokens as int,
                    latent as int,
                    residual as int,
                    words(channels * vocab),
                    rows * vocab,
                    rows * vocab,
                    rows as int,
                    hidden as int,
                    vocab as int,
                    vocab as int,
                    channels * vocab,
                ]
                &&& p.listed() == packed_head_train_sgd_steps(
                    rows,
                    time,
                    channels,
                    vocab,
                    horizon,
                    gradient_scale,
                    ignore_id,
                    learning_rate,
                    ste_scale,
                )
                &&& p.outputs@ == seq![11usize, 12usize, 10usize, 5usize, 6usize, 7usize]
                &&& ({
                    let logits = crate::flow::projected(rows as int, channels as int, vocab as int, crate::flow::put(0), crate::flow::put(1), crate::flow::put(2), None);
                    let entropy = seq![rows as u32, time as u32, vocab as u32, horizon as u32, gradient_scale, ignore_id];
                    let loss = crate::flow::made(Kernel::SoftmaxCrossEntropy, 0, entropy, seq![logits, crate::flow::put(4)]);
                    let g_logits = crate::flow::made(Kernel::SoftmaxCrossEntropy, 1, entropy, seq![logits, crate::flow::put(4)]);
                    let wide = seq![rows as u32, channels as u32, vocab as u32];
                    let g_weight = crate::flow::made(Kernel::BinaryLinearWeightBwd, 0, wide, seq![crate::flow::put(0), g_logits, crate::flow::put(2)]);
                    let sgd = seq![learning_rate, (channels * vocab) as u32, ste_scale];
                    let of_sgd = seq![crate::flow::put(5), crate::flow::put(6), g_weight];
                    let latent = crate::flow::made(Kernel::BinaryConnectSgd, 0, sgd, of_sgd);
                    crate::flow::returned(p) == seq![
                        crate::flow::made(Kernel::BinaryLinearInputBwd, 0, wide, seq![g_logits, crate::flow::put(1), crate::flow::put(2)]),
                        crate::flow::made(Kernel::BinaryLinearScaleBwdFromOutput, 0, seq![rows as u32, vocab as u32, 0], seq![logits, g_logits, crate::flow::put(2)]),
                        loss,
                        latent,
                        crate::flow::made(Kernel::BinaryConnectSgd, 1, sgd, of_sgd),
                        crate::flow::made(Kernel::PackLatentBits, 0, seq![(channels * vocab) as u32], seq![latent]),
                    ]
                })
            },
            Err(error) => packed_head_train_sgd_error(
                hidden,
                bits,
                scale,
                latent,
                residual,
                tokens,
                rows,
                time,
                channels,
                vocab,
                horizon,
                gradient_scale,
                ignore_id,
                learning_rate,
                ste_scale,
            ) == Some(error),
        },
{
    let shape = match LinearDispatchShape::new(rows, channels, vocab) {
        Ok(s) => s,
        Err(e) => return Err(e),
    };
    match rows.checked_mul(channels) {
        Some(all) if all == hidden => {},
        _ => return Err(MetalError::Mismatch(Operation::HeadSgd)),
    }
    let packed_len: usize = match shape.packed_words() {
        Ok(w) => w,
        Err(e) => return Err(e),
    };
    let weights: usize = channels * vocab;
    if bits != packed_len || scale != vocab || latent != weights || residual != weights || tokens
        != rows || time == 0 || rows % time != 0 {
        return Err(MetalError::Mismatch(Operation::HeadSgd));
    }
    let time_w: u32 = match as_u32(time) {
        Ok(w) => w,
        Err(e) => return Err(e),
    };
    let horizon_w: u32 = match as_u32(horizon) {
        Ok(w) => w,
        Err(e) => return Err(e),
    };
    if latent > u32::MAX as usize {
        return Err(MetalError::TooWide);
    }
    let scores: usize = rows * vocab;
    proof {
        lemma_product_of_three(channels as int, vocab as int, 1);
    }
    let mut plan = Plan::over(
        vec![
            given(hidden),
            given(bits),
            given(scale),
            given(0),
            given(tokens),
            given(latent),
            given(residual),
            scratch(packed_len),
            scratch(scores),
            scratch(scores),
            scratch(rows),
            scratch(hidden),
            scratch(vocab),
            scratch(vocab),
            scratch(weights),
        ],
    );
    let x_at: usize = 0;
    let packed_at: usize = 1;
    let scales_at: usize = 2;
    let bias_at: usize = 3;
    let targets_at: usize = 4;
    let parameters_at: usize = 5;
    let rest_at: usize = 6;
    let next_bits_at: usize = 7;
    let logits_at: usize = 8;
    let gy_at: usize = 9;
    let loss_at: usize = 10;
    let gx_at: usize = 11;
    let g_scale_at: usize = 12;
    let g_bias_at: usize = 13;
    let gw_at: usize = 14;
    plan.binary_linear(
        x_at,
        packed_at,
        scales_at,
        bias_at,
        logits_at,
        rows as u32,
        channels as u32,
        vocab as u32,
        0,
    );
    plan.softmax_cross_entropy(
        logits_at,
        targets_at,
        loss_at,
        gy_at,
        rows as u32,
        time_w,
        vocab as u32,
        horizon_w,
        gradient_scale,
        ignore_id,
    );
    plan.binary_linear_input_bwd(
        gy_at,
        packed_at,
        scales_at,
        gx_at,
        rows as u32,
        channels as u32,
        vocab as u32,
    );
    plan.binary_linear_scale_bwd_from_output(
        logits_at,
        gy_at,
        scales_at,
        bias_at,
        g_scale_at,
        g_bias_at,
        rows as u32,
        vocab as u32,
        0,
    );
    plan.binary_linear_weight_bwd(
        x_at,
        gy_at,
        scales_at,
        gw_at,
        rows as u32,
        channels as u32,
        vocab as u32,
    );
    plan.binary_connect_sgd(
        parameters_at,
        rest_at,
        gw_at,
        learning_rate,
        weights as u32,
        ste_scale,
    );
    plan.pack_latent_bits(parameters_at, next_bits_at, weights as u32);
    plan.read(gx_at);
    plan.read(g_scale_at);
    plan.read(loss_at);
    plan.read(parameters_at);
    plan.read(rest_at);
    plan.read(next_bits_at);
    proof {
        assert(plan.lens() =~= seq![
            hidden as int,
            bits as int,
            scale as int,
            0,
            tokens as int,
            latent as int,
            residual as int,
            words(channels * vocab),
            rows * vocab,
            rows * vocab,
            rows as int,
            hidden as int,
            vocab as int,
            vocab as int,
            channels * vocab,
        ]);
        assert(plan.outputs@ =~= seq![11usize, 12usize, 10usize, 5usize, 6usize, 7usize]);
        assert(plan.listed() =~= packed_head_train_sgd_steps(rows, time, channels, vocab, horizon, gradient_scale, ignore_id, learning_rate, ste_scale));
        crate::flow::law_packed_head_train_sgd_flow(plan, rows, time, channels, vocab, horizon, gradient_scale, ignore_id, learning_rate, ste_scale);
    }
    Ok(plan)
}

} // verus!
