//! Engines that turn frames into masks, and which one a model needs.

use crate::frame;
use crate::frame::{validate_bgra_buffer, FrameError, PixelFormat, VideoFrame};
use crate::platform::Platform;
use vstd::prelude::*;

verus! {

/// Something that turns frames into masks. It may remember earlier frames.
pub trait Engine<E> {
    /// The frames that came so far, in order, each with what came of it.
    ///
    /// It is for proofs alone. An engine of which nothing is proved need not say it.
    open spec fn segmented(&self) -> Seq<(VideoFrame, Result<VideoFrame, E>)> {
        arbitrary()
    }

    /// Makes the mask of the next frame.
    fn segment(&mut self, frame: &VideoFrame) -> (mask: Result<VideoFrame, E>)
        ensures
            final(self).segmented() == old(self).segmented().push((*frame, mask)),
    ;
}

#[derive(Debug, Clone, Copy, PartialEq, Eq, Structural)]
pub enum ModelFormat {
    Onnx,
    RvmMetal,
}

/// The bytes that a model for the Metal engine starts with.
pub open spec fn rvm_metal_magic() -> Seq<u8> {
    seq![0x52u8, 0x56u8, 0x4du8, 0x4du8, 0x45u8, 0x54u8, 0x41u8, 0x4cu8]
}

/// A model is for Metal if its first eight bytes say so; any other is taken
/// for ONNX.
pub open spec fn model_format(header: Seq<u8>) -> ModelFormat {
    if rvm_metal_magic().is_prefix_of(header) {
        ModelFormat::RvmMetal
    } else {
        ModelFormat::Onnx
    }
}

/// Tells a model's format by the bytes it starts with.
pub fn detect_model_format(header: &[u8]) -> (format: ModelFormat)
    ensures
        format == model_format(header@),
{
    if header.len() >= 8 && header[0] == 0x52 && header[1] == 0x56 && header[2] == 0x4d && header[3]
        == 0x4d && header[4] == 0x45 && header[5] == 0x54 && header[6] == 0x41 && header[7]
        == 0x4c {
        assert(header@.subrange(0, 8) =~= rvm_metal_magic());
        ModelFormat::RvmMetal
    } else {
        proof {
            if rvm_metal_magic().is_prefix_of(header@) {
                let first = header@.subrange(0, 8);
                assert(first == rvm_metal_magic());
                assert(first[0] == 0x52 && first[1] == 0x56 && first[2] == 0x4d && first[3] == 0x4d
                    && first[4] == 0x45 && first[5] == 0x54 && first[6] == 0x41 && first[7]
                    == 0x4c);
            }
        }
        ModelFormat::Onnx
    }
}

/// The name of the engine that runs a model, by the bytes the model starts
/// with.
pub fn engine_label_for_model(header: &[u8]) -> (label: &'static str)
    ensures
        label@ == (match model_format(header@) {
            ModelFormat::Onnx => "ONNX"@,
            ModelFormat::RvmMetal => "Metal"@,
        }),
{
    match detect_model_format(header) {
        ModelFormat::Onnx => "ONNX",
        ModelFormat::RvmMetal => "Metal",
    }
}

/// The engines that a program was built with.
#[derive(Debug, Clone, Copy, PartialEq, Eq, Structural)]
pub struct EngineFeatures {
    pub onnx: bool,
    pub metal: bool,
    /// ONNX is there on Windows without being asked for.
    pub windows_default_onnx: bool,
}

/// Why a model has no engine.
#[derive(Debug, Clone, Copy, PartialEq, Eq, Structural)]
pub enum EngineError {
    OnnxNotEnabled,
    MetalNotEnabled,
    MetalOnlyOnMacOs,
}

/// Chooses the engine for a model's format on a platform.
pub fn create_engine(format: ModelFormat, platform: Platform, features: EngineFeatures) -> (result:
    Result<ModelFormat, EngineError>)
    ensures
        match format {
            ModelFormat::Onnx => result == (if (platform == Platform::MacOs && features.onnx) || (
            platform == Platform::Windows && (features.onnx || features.windows_default_onnx)) {
                Ok::<ModelFormat, EngineError>(ModelFormat::Onnx)
            } else {
                Err::<ModelFormat, EngineError>(EngineError::OnnxNotEnabled)
            }),
            ModelFormat::RvmMetal => result == (if platform != Platform::MacOs {
                Err::<ModelFormat, EngineError>(EngineError::MetalOnlyOnMacOs)
            } else if features.metal {
                Ok::<ModelFormat, EngineError>(ModelFormat::RvmMetal)
            } else {
                Err::<ModelFormat, EngineError>(EngineError::MetalNotEnabled)
            }),
        },
{
    match format {
        ModelFormat::Onnx => {
            let enabled = match platform {
                Platform::MacOs => features.onnx,
                Platform::Windows => features.onnx || features.windows_default_onnx,
                Platform::Other => false,
            };
            if enabled {
                Ok(ModelFormat::Onnx)
            } else {
                Err(EngineError::OnnxNotEnabled)
            }
        },
        ModelFormat::RvmMetal => match platform {
            Platform::MacOs => {
                if features.metal {
                    Ok(ModelFormat::RvmMetal)
                } else {
                    Err(EngineError::MetalNotEnabled)
                }
            },
            _ => Err(EngineError::MetalOnlyOnMacOs),
        },
    }
}

/// Why a frame has no mask.
#[derive(Debug, Clone, Copy, PartialEq, Eq, Structural)]
pub enum MaskError {
    NotBgra,
    Frame(FrameError),
}

/// A mask that is still to be filled: its rows, one behind the other.
#[derive(Debug, Clone, Copy, PartialEq, Eq, Structural)]
pub struct MaskLayout {
    pub bytes_per_row: u32,
    pub len: usize,
}

/// Plans the mask of a frame.
pub fn mask_layout(frame: &VideoFrame) -> (result: Result<MaskLayout, MaskError>)
    ensures
        match frame::bgra_buffer_check(
            frame.width,
            frame.height,
            frame.bytes_per_row,
            frame.data@.len() as usize,
        ) {
            Err(error) => result == Err::<MaskLayout, MaskError>(MaskError::Frame(error)),
            Ok(_) => {
                &&& result matches Ok(layout)
                &&& layout.bytes_per_row == frame.width * 4
                &&& layout.len == frame.width * frame.height * 4
            },
        },
{
    if frame.format != PixelFormat::Bgra {
        return Err(MaskError::NotBgra);
    }
    let len: usize = frame.data.len();
    if let Err(error) = validate_bgra_buffer(frame.width, frame.height, frame.bytes_per_row, len) {
        return Err(MaskError::Frame(error));
    }
    let bytes_per_row: u32 = frame.width * 4;
    assert(bytes_per_row * frame.height <= frame.bytes_per_row * frame.height) by (nonlinear_arith)
        requires
            0 <= bytes_per_row <= frame.bytes_per_row,
            0 <= frame.height,
    ;
    assert(0 <= bytes_per_row * frame.height) by (nonlinear_arith)
        requires
            0 <= bytes_per_row,
            0 <= frame.height,
    ;
    assert(bytes_per_row * frame.height == frame.width * frame.height * 4) by (nonlinear_arith)
        requires
            bytes_per_row == frame.width * 4,
    ;
    Ok(MaskLayout { bytes_per_row, len: bytes_per_row as usize * frame.height as usize })
}

/// Only a model's first eight bytes tell its format.
pub proof fn law_only_the_header_counts(model: Seq<u8>)
    requires
        model.len() >= 8,
    ensures
        model_format(model) == model_format(model.take(8)),
{
    let header = model.take(8);
    assert(rvm_metal_magic().len() == 8);
    assert(model.subrange(0, 8) =~= header.subrange(0, 8));
}

/// A model is for Metal exactly if it starts with the letters RVMMETAL.
pub proof fn law_metal_models_start_with_their_name(model: Seq<u8>)
    ensures
        model_format(model) == ModelFormat::RvmMetal <==> model.len() >= 8 && model[0] == 'R' as u8
            && model[1] == 'V' as u8 && model[2] == 'M' as u8 && model[3] == 'M' as u8 && model[4]
            == 'E' as u8 && model[5] == 'T' as u8 && model[6] == 'A' as u8 && model[7] == 'L' as u8,
{
    let magic = rvm_metal_magic();
    if model.len() >= 8 {
        let head = model.subrange(0, 8);
        assert(head[0] == model[0] && head[1] == model[1] && head[2] == model[2] && head[3]
            == model[3] && head[4] == model[4] && head[5] == model[5] && head[6] == model[6]
            && head[7] == model[7]);
        if head[0] == 0x52 && head[1] == 0x56 && head[2] == 0x4d && head[3] == 0x4d && head[4]
            == 0x45 && head[5] == 0x54 && head[6] == 0x41 && head[7] == 0x4c {
            assert(head =~= magic);
        }
    }
}

} // verus!
