//! Video matting: frames, their decoding and encoding, and the models that
//! turn them into masks.

pub mod decoder;
pub mod encoder;
pub mod engine;
pub mod fixed;
pub mod frame;
pub mod onnx;
pub mod path;
pub mod pipeline;
pub mod platform;
pub mod processing;
pub mod progress;
pub mod sampling;
pub mod text;
