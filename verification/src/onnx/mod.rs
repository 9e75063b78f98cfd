//! Preparing ONNX models.

pub mod constants;
pub mod dimensions;
pub mod graph;
pub mod identity;
pub mod liveness;
pub mod message;
pub mod node;
pub mod prepare;
pub mod proto;
pub mod readback;
pub mod reason;
pub mod session;
pub mod tensor;
