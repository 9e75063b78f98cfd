//! What AVFoundation reads, made into frames.

use crate::frame;
use crate::frame::{DisplayRotation, FrameError, MediaTime, VideoFrame};
use vstd::prelude::*;

verus! {

/// How reading a sample ended.
#[derive(Debug, Clone, Copy, PartialEq, Eq, Structural)]
pub enum ReadStatus {
    Success,
    Completed,
    NoSample,
    Unknown,
    Cancelled,
    Failed,
    Other(i32),
}

/// Why no frame came of a read.
#[derive(Debug, Clone, Copy, PartialEq, Eq, Structural)]
pub enum ReadError {
    UnknownStatus,
    Cancelled,
    Failed,
    UnexpectedStatus(i32),
    NotBgra,
    NoPixelData,
    Frame(FrameError),
}

/// Whether a sample was read. The end of the video is no error.
pub fn has_sample(status: ReadStatus) -> (result: Result<bool, ReadError>)
    ensures
        result == (match status {
            ReadStatus::Success => Ok::<bool, ReadError>(true),
            ReadStatus::Completed => Ok::<bool, ReadError>(false),
            ReadStatus::NoSample => Ok::<bool, ReadError>(false),
            ReadStatus::Unknown => Err::<bool, ReadError>(ReadError::UnknownStatus),
            ReadStatus::Cancelled => Err::<bool, ReadError>(ReadError::Cancelled),
            ReadStatus::Failed => Err::<bool, ReadError>(ReadError::Failed),
            ReadStatus::Other(code) => Err::<bool, ReadError>(ReadError::UnexpectedStatus(code)),
        }),
{
    match status {
        ReadStatus::Success => Ok(true),
        ReadStatus::Completed | ReadStatus::NoSample => Ok(false),
        ReadStatus::Unknown => Err(ReadError::UnknownStatus),
        ReadStatus::Cancelled => Err(ReadError::Cancelled),
        ReadStatus::Failed => Err(ReadError::Failed),
        ReadStatus::Other(code) => Err(ReadError::UnexpectedStatus(code)),
    }
}

/// A sample as it was read.
#[derive(Debug)]
pub struct DecodedSample {
    /// It holds pixels, and they are BGRA.
    pub is_bgra: bool,
    pub pixels: Option<Vec<u8>>,
    pub width: u32,
    pub height: u32,
    pub bytes_per_row: u32,
    pub time_value: i64,
    pub time_scale: i32,
}

/// The frame in a sample, before it is turned.
pub open spec fn sample_frame(sample: DecodedSample) -> VideoFrame {
    VideoFrame {
        width: sample.width,
        height: sample.height,
        bytes_per_row: sample.bytes_per_row,
        format: crate::frame::PixelFormat::Bgra,
        time: MediaTime { value: sample.time_value, timescale: sample.time_scale },
        data: sample.pixels->0,
    }
}

/// What stands in the way of a sample's frame.
pub open spec fn sample_check(sample: DecodedSample) -> Result<(), ReadError> {
    if !sample.is_bgra {
        Err(ReadError::NotBgra)
    } else {
        match sample.pixels {
            None => Err(ReadError::NoPixelData),
            Some(pixels) => if sample.time_scale <= 0 {
                Err(
                    ReadError::Frame(
                        FrameError::NonPositiveTimescale { timescale: sample.time_scale },
                    ),
                )
            } else {
                match frame::bgra_buffer_check(
                    sample.width,
                    sample.height,
                    sample.bytes_per_row,
                    pixels@.len() as usize,
                ) {
                    Ok(_) => Ok(()),
                    Err(error) => Err(ReadError::Frame(error)),
                }
            },
        }
    }
}

/// Makes the frame of a sample, turned as the video is shown.
pub fn frame_from_sample(sample: DecodedSample, rotation: DisplayRotation) -> (result: Result<
    VideoFrame,
    ReadError,
>)
    ensures
        match sample_check(sample) {
            Err(error) => result == Err::<VideoFrame, ReadError>(error),
            Ok(_) => match result {
                Ok(turned) => sample_frame(sample).is_rotated_result(rotation, Ok(turned)),
                Err(ReadError::Frame(error)) => sample_frame(sample).is_rotated_result(
                    rotation,
                    Err(error),
                ),
                Err(_) => false,
            },
        },
{
    if !sample.is_bgra {
        return Err(ReadError::NotBgra);
    }
    let pixels: Vec<u8> = match sample.pixels {
        Some(pixels) => pixels,
        None => return Err(ReadError::NoPixelData),
    };
    let time: MediaTime = match MediaTime::new(sample.time_value, sample.time_scale) {
        Ok(time) => time,
        Err(error) => return Err(ReadError::Frame(error)),
    };
    let frame = match VideoFrame::new_bgra(
        sample.width,
        sample.height,
        sample.bytes_per_row,
        time,
        pixels,
    ) {
        Ok(frame) => frame,
        Err(error) => return Err(ReadError::Frame(error)),
    };
    match frame.rotated(rotation) {
        Ok(turned) => Ok(turned),
        Err(error) => Err(ReadError::Frame(error)),
    }
}

/// How asking for a video's rotation ended.
#[derive(Debug, Clone, Copy, PartialEq, Eq, Structural)]
pub enum RotationStatus {
    Degrees(i32),
    NotFound,
    Failed(i32),
}

/// Why a video's rotation is not known.
#[derive(Debug, Clone, Copy, PartialEq, Eq, Structural)]
pub enum RotationError {
    Failed(i32),
    Unsupported { degrees: i32, error: FrameError },
}

/// How a video is to be turned: as it says, or not at all.
pub fn display_rotation(status: RotationStatus) -> (result: Result<DisplayRotation, RotationError>)
    ensures
        match status {
            RotationStatus::NotFound => result == Ok::<DisplayRotation, RotationError>(
                DisplayRotation::Unrotated,
            ),
            RotationStatus::Failed(code) => result == Err::<DisplayRotation, RotationError>(
                RotationError::Failed(code),
            ),
            RotationStatus::Degrees(degrees) => if degrees as int % 90 == 0 {
                result matches Ok(rotation) && rotation.quarter_turns() == (degrees as int / 90) % 4
            } else {
                result == Err::<DisplayRotation, RotationError>(
                    RotationError::Unsupported {
                        degrees,
                        error: FrameError::UnsupportedRotation {
                            degrees: (degrees as int % 360) as i32,
                        },
                    },
                )
            },
        },
{
    match status {
        RotationStatus::NotFound => Ok(DisplayRotation::Unrotated),
        RotationStatus::Failed(code) => Err(RotationError::Failed(code)),
        RotationStatus::Degrees(degrees) => match DisplayRotation::from_clockwise_degrees(
            degrees,
        ) {
            Ok(rotation) => Ok(rotation),
            Err(error) => Err(RotationError::Unsupported { degrees, error }),
        },
    }
}

/// The length of a video, from what was reported of it, if anything was.
pub fn asset_duration(reported: Option<(i64, i32)>) -> (duration: Option<MediaTime>)
    ensures
        duration == (match reported {
            Some((value, timescale)) => if timescale > 0 {
                Some(MediaTime { value, timescale })
            } else {
                None
            },
            None => None,
        }),
{
    match reported {
        Some((value, timescale)) => match MediaTime::new(value, timescale) {
            Ok(duration) => Some(duration),
            Err(_) => None,
        },
        None => None,
    }
}

/// A limit on the larger dimension as a native bridge takes it: zero for none.
pub fn native_max_dimension(max_dimension: Option<u32>) -> (limit: u32)
    ensures
        limit == (match max_dimension {
            Some(limit) => limit,
            None => 0,
        }),
{
    match max_dimension {
        Some(limit) => limit,
        None => 0,
    }
}

/// A sample becomes a frame of its own time that shows its pixels where the rotation takes
/// them, width and height exchanged on odd quarter turns.
pub proof fn law_samples_become_frames(
    sample: DecodedSample,
    rotation: DisplayRotation,
    turned: VideoFrame,
    x: int,
    y: int,
    channel: int,
)
    requires
        sample_check(sample) is Ok,
        sample_frame(sample).is_rotated_result(rotation, Ok(turned)),
        0 <= x < sample.width,
        0 <= y < sample.height,
        0 <= channel < 4,
    ensures
        sample.is_bgra,
        sample.time_scale > 0,
        turned.time.value == sample.time_value,
        turned.time.timescale == sample.time_scale,
        rotation is Unrotated || rotation is Clockwise180 ==> turned.width == sample.width
            && turned.height == sample.height,
        rotation is Clockwise90 || rotation is Clockwise270 ==> turned.width == sample.height
            && turned.height == sample.width,
        ({
            let to = frame::turned_to(rotation, x, y, sample.width as int, sample.height as int);
            turned.data@[to.1 * turned.bytes_per_row + 4 * to.0 + channel] == (sample.pixels->0)@[y
                * sample.bytes_per_row + 4 * x + channel]
        }),
{
    frame::law_turning_moves_every_pixel(
        sample_frame(sample),
        rotation,
        turned,
        x,
        y,
        channel,
    );
}

/// A sample makes a frame exactly if it holds BGRA pixels, its time counts, and its rows lie in
/// its pixels.
pub proof fn law_whole_samples_make_frames(sample: DecodedSample)
    requires
        sample.pixels matches Some(pixels) ==> pixels@.len() <= usize::MAX,
    ensures
        sample_check(sample) is Ok <==> {
            &&& sample.is_bgra && sample.pixels is Some && sample.time_scale > 0
            &&& sample.width > 0 && sample.height > 0
            &&& 4 * sample.width <= sample.bytes_per_row
            &&& sample.bytes_per_row * sample.height <= (sample.pixels->0)@.len()
        },
{
    if let Some(pixels) = sample.pixels {
        frame::law_buffers_that_hold_the_rows_are_accepted(
            sample.width,
            sample.height,
            sample.bytes_per_row,
            pixels@.len() as usize,
        );
    }
}

} // verus!
