//! Reading videos.

pub mod avfoundation;
pub mod clock;
pub mod mediafoundation;
pub mod mp4;
pub mod nv12;
pub mod stride;
pub mod surface;

use crate::frame::{MediaTime, VideoFrame};
use crate::platform::{MediaBackend, Platform};
use vstd::prelude::*;

verus! {

/// A video that is read frame by frame.
pub trait VideoDecoder<E> {
    /// What came of every reading so far, in order.
    ///
    /// It is for proofs alone. A decoder of which nothing is proved need not say it.
    open spec fn reads(&self) -> Seq<Result<Option<VideoFrame>, E>> {
        arbitrary()
    }

    /// The next frame, or `None` behind the last.
    fn read_frame(&mut self) -> (read: Result<Option<VideoFrame>, E>)
        ensures
            final(self).reads() == old(self).reads().push(read),
    ;

    /// How long the video is, where that is known. Unless a decoder says
    /// otherwise it is not.
    fn duration(&self) -> (duration: Option<MediaTime>)
        default_ensures
            duration is None,
    {
        None
    }
}

#[derive(Debug, Clone, Copy)]
pub struct DecodeOptions {
    pub max_dimension: Option<u32>,
}

/// Why no decoder could be opened.
#[derive(Debug, Clone, Copy, PartialEq, Eq, Structural)]
pub enum DecoderError {
    UnsupportedPlatform,
    ZeroMaxDimension,
}

/// Whether a limit on the larger dimension makes sense.
pub fn validate_max_dimension(max_dimension: Option<u32>) -> (result: Result<(), DecoderError>)
    ensures
        result == (if max_dimension == Some(0u32) {
            Err::<(), DecoderError>(DecoderError::ZeroMaxDimension)
        } else {
            Ok::<(), DecoderError>(())
        }),
{
    match max_dimension {
        Some(limit) => {
            if limit == 0 {
                return Err(DecoderError::ZeroMaxDimension);
            }
            Ok(())
        },
        None => Ok(()),
    }
}

/// Chooses what opens a video on a platform.
pub fn open_video_decoder(platform: Platform) -> (result: Result<MediaBackend, DecoderError>)
    ensures
        result == (match platform {
            Platform::MacOs => Ok::<MediaBackend, DecoderError>(MediaBackend::AvFoundation),
            Platform::Windows => Ok::<MediaBackend, DecoderError>(MediaBackend::MediaFoundation),
            Platform::Other => Err::<MediaBackend, DecoderError>(DecoderError::UnsupportedPlatform),
        }),
{
    match platform {
        Platform::MacOs => Ok(MediaBackend::AvFoundation),
        Platform::Windows => Ok(MediaBackend::MediaFoundation),
        Platform::Other => Err(DecoderError::UnsupportedPlatform),
    }
}

} // verus!
