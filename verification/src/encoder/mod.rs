//! Writing videos.

pub mod avfoundation;
pub mod mediafoundation;
pub mod settings;
pub mod yuv;

use crate::frame::{MediaTime, VideoFrame};
use crate::platform::{MediaBackend, Platform};
use vstd::prelude::*;

verus! {

/// Something that an encoder was asked, with the error that it ended in, if it
/// did.
pub enum EncoderCall<E> {
    Expected(Option<MediaTime>, Option<E>),
    Sent(VideoFrame, Option<E>),
    Finalized(Option<E>),
}

/// The error that something ended in, if it did.
pub open spec fn failure<E>(result: Result<(), E>) -> Option<E> {
    match result {
        Ok(_) => None,
        Err(error) => Some(error),
    }
}

/// A video that is written frame by frame.
pub trait VideoEncoder<E> {
    /// What the encoder was asked so far, in order.
    ///
    /// It is for proofs alone. An encoder of which nothing is proved need not say it.
    open spec fn calls(&self) -> Seq<EncoderCall<E>> {
        arbitrary()
    }

    /// Tells how long the video is going to be, where that is known. An
    /// encoder may ignore it: unless it says otherwise it accepts any duration
    /// and stays as it is.
    fn set_expected_duration(&mut self, _duration: Option<MediaTime>) -> (result: Result<(), E>)
        ensures
            ({
                ||| final(self).calls() == old(self).calls()
                ||| final(self).calls() == old(self).calls().push(
                    EncoderCall::Expected(_duration, failure(result)),
                )
            }),
        default_ensures
            result == Ok::<(), E>(()),
            &*final(self) == &*old(self),
    {
        Ok(())
    }

    /// Takes the next frame of the video.
    fn send_frame(&mut self, frame: &VideoFrame) -> (result: Result<(), E>)
        ensures
            final(self).calls() == old(self).calls().push(
                EncoderCall::Sent(*frame, failure(result)),
            ),
    ;

    /// Completes the video.
    fn finalize(&mut self) -> (result: Result<(), E>)
        ensures
            final(self).calls() == old(self).calls().push(EncoderCall::Finalized(failure(result))),
    ;
}

/// Why no encoder could be created.
#[derive(Debug, Clone, Copy, PartialEq, Eq, Structural)]
pub enum EncoderError {
    UnsupportedPlatform,
}

/// Chooses what writes a video on a platform.
pub fn create_video_encoder(platform: Platform) -> (result: Result<MediaBackend, EncoderError>)
    ensures
        result == (match platform {
            Platform::MacOs => Ok::<MediaBackend, EncoderError>(MediaBackend::AvFoundation),
            Platform::Windows => Ok::<MediaBackend, EncoderError>(MediaBackend::MediaFoundation),
            Platform::Other => Err::<MediaBackend, EncoderError>(EncoderError::UnsupportedPlatform),
        }),
{
    match platform {
        Platform::MacOs => Ok(MediaBackend::AvFoundation),
        Platform::Windows => Ok(MediaBackend::MediaFoundation),
        Platform::Other => Err(EncoderError::UnsupportedPlatform),
    }
}

} // verus!
