//! What AVFoundation is asked to write, frame by frame.

use crate::frame::{PixelFormat, VideoFrame};
use vstd::prelude::*;

verus! {

/// Why a frame was not written.
#[derive(Debug, Clone, Copy, PartialEq, Eq, Structural)]
pub enum WriteError {
    AlreadyFinalized,
    NotBgra,
    DimensionsChanged { width: u32, height: u32, frame_width: u32, frame_height: u32 },
    NoFrames,
}

/// Where a writer stands.
#[derive(Debug, Clone, Copy)]
pub struct WriterState {
    /// The size of the frames, once the first has started the writer.
    pub size: Option<(u32, u32)>,
    pub finalized: bool,
}

impl WriterState {
    pub fn new() -> (state: WriterState)
        ensures
            state == (WriterState { size: None, finalized: false }),
    {
        WriterState { size: None, finalized: false }
    }

    /// Whether the writer has to be started for a frame first.
    pub fn needs_start(&self, frame: &VideoFrame) -> (result: Result<bool, WriteError>)
        ensures
            result == (if self.finalized {
                Err::<bool, WriteError>(WriteError::AlreadyFinalized)
            } else if frame.format != PixelFormat::Bgra {
                Err::<bool, WriteError>(WriteError::NotBgra)
            } else {
                Ok::<bool, WriteError>(self.size is None)
            }),
    {
        if self.finalized {
            return Err(WriteError::AlreadyFinalized);
        }
        if frame.format != PixelFormat::Bgra {
            return Err(WriteError::NotBgra);
        }
        Ok(self.size.is_none())
    }

    /// The writer was started for frames of this size.
    pub fn start(&mut self, width: u32, height: u32)
        ensures
            *final(self) == (WriterState { size: Some((width, height)), ..*old(self) }),
    {
        self.size = Some((width, height));
    }

    /// Checks that a frame has the size that the writer was started for.
    pub fn check_size(&self, frame: &VideoFrame) -> (result: Result<(), WriteError>)
        ensures
            result == (match self.size {
                None => Err::<(), WriteError>(WriteError::NoFrames),
                Some((width, height)) => if width == frame.width && height == frame.height {
                    Ok::<(), WriteError>(())
                } else {
                    Err::<(), WriteError>(
                        WriteError::DimensionsChanged {
                            width,
                            height,
                            frame_width: frame.width,
                            frame_height: frame.height,
                        },
                    )
                },
            }),
    {
        match self.size {
            None => Err(WriteError::NoFrames),
            Some((width, height)) => {
                if width != frame.width || height != frame.height {
                    return Err(
                        WriteError::DimensionsChanged {
                            width,
                            height,
                            frame_width: frame.width,
                            frame_height: frame.height,
                        },
                    );
                }
                Ok(())
            },
        }
    }

    /// Checks that the video can be completed: once, and with a frame in it.
    pub fn check_finalize(&self) -> (result: Result<(), WriteError>)
        ensures
            result == (if self.finalized {
                Err::<(), WriteError>(WriteError::AlreadyFinalized)
            } else if self.size is None {
                Err::<(), WriteError>(WriteError::NoFrames)
            } else {
                Ok::<(), WriteError>(())
            }),
    {
        if self.finalized {
            return Err(WriteError::AlreadyFinalized);
        }
        if self.size.is_none() {
            return Err(WriteError::NoFrames);
        }
        Ok(())
    }

    /// The video is complete.
    pub fn finish(&mut self)
        ensures
            *final(self) == (WriterState { finalized: true, ..*old(self) }),
    {
        self.finalized = true;
    }
}

} // verus!
