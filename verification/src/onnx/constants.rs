//! Names and numbers that the matting model and its patches agree on.

use vstd::prelude::*;

verus! {

pub const SRC_INPUT: &'static str = "src";

pub const R1_INPUT: &'static str = "r1i";

pub const R2_INPUT: &'static str = "r2i";

pub const R3_INPUT: &'static str = "r3i";

pub const R4_INPUT: &'static str = "r4i";

pub const DOWNSAMPLE_RATIO_INPUT: &'static str = "downsample_ratio";

pub const PHA_OUTPUT: &'static str = "pha";

pub const R1_OUTPUT: &'static str = "r1o";

pub const R2_OUTPUT: &'static str = "r2o";

pub const R3_OUTPUT: &'static str = "r3o";

pub const R4_OUTPUT: &'static str = "r4o";

pub const RESIZE_IDENTITY_NODE_NAME: &'static str = "Resize_3";

pub const RESIZE_OP_TYPE: &'static str = "Resize";

pub const ARITHMETIC_IDENTITY_OP_TYPE: &'static str = "Mul";

pub const RESIZE_IDENTITY_INITIALIZER: &'static str = "__segmenter_resize_3_identity_scale";

pub const ONNX_TENSOR_FLOAT: u64 = 1;

pub const ONNX_TENSOR_FLOAT16: u64 = 10;

} // verus!
