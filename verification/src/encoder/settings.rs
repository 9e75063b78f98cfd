//! Rates and sizes that an encoder is set up with.

use crate::frame;
use vstd::prelude::*;

verus! {

pub const DEFAULT_NOMINAL_FRAME_RATE_NUMERATOR: u32 = 30;

pub const DEFAULT_NOMINAL_FRAME_RATE_DENOMINATOR: u32 = 1;

pub const DEFAULT_MP4_TIMESCALE: u32 = 30_000;

pub const MP4_TIMESCALE_FRAME_RATE_DENOMINATOR: u32 = 1_000;

pub const MAX_CUSTOM_MP4_TIMESCALE: u32 = 90_000;

pub const DEFAULT_BYTES_PER_PIXEL_PER_SECOND: u32 = 4;

pub const MIN_AVG_BITRATE: u32 = 1_000_000;

pub const MAX_AVG_BITRATE: u32 = 20_000_000;

/// A frame rate as a fraction.
#[derive(Debug, Clone, Copy, PartialEq, Eq, Structural)]
pub struct NominalFrameRate {
    pub numerator: u32,
    pub denominator: u32,
}

/// The frame rate that makes an MP4 file's timescale hold timestamps of this
/// timescale exactly. The usual one does already if it is a multiple; a
/// timescale that is too fine is left to it too.
pub open spec fn nominal_frame_rate(timescale: i32) -> NominalFrameRate {
    if timescale <= 0 || DEFAULT_MP4_TIMESCALE as int % timescale as int == 0 || timescale
        > MAX_CUSTOM_MP4_TIMESCALE {
        NominalFrameRate {
            numerator: DEFAULT_NOMINAL_FRAME_RATE_NUMERATOR,
            denominator: DEFAULT_NOMINAL_FRAME_RATE_DENOMINATOR,
        }
    } else {
        NominalFrameRate {
            numerator: timescale as u32,
            denominator: MP4_TIMESCALE_FRAME_RATE_DENOMINATOR,
        }
    }
}

/// Chooses the frame rate for timestamps of a timescale.
pub fn nominal_frame_rate_for_timestamps(timestamp_timescale: i32) -> (rate: NominalFrameRate)
    ensures
        rate == nominal_frame_rate(timestamp_timescale),
{
    let default = NominalFrameRate {
        numerator: DEFAULT_NOMINAL_FRAME_RATE_NUMERATOR,
        denominator: DEFAULT_NOMINAL_FRAME_RATE_DENOMINATOR,
    };
    if timestamp_timescale <= 0 {
        return default;
    }
    let timescale: u32 = timestamp_timescale as u32;
    if DEFAULT_MP4_TIMESCALE % timescale == 0 || timescale > MAX_CUSTOM_MP4_TIMESCALE {
        return default;
    }
    NominalFrameRate {
        numerator: timescale,
        denominator: MP4_TIMESCALE_FRAME_RATE_DENOMINATOR,
    }
}

/// The average bitrate for frames of a size: so much for each pixel, within
/// limits.
pub open spec fn bitrate(width: u32, height: u32) -> int {
    let wanted = width * height * DEFAULT_BYTES_PER_PIXEL_PER_SECOND;
    if wanted < MIN_AVG_BITRATE {
        MIN_AVG_BITRATE as int
    } else if wanted > MAX_AVG_BITRATE {
        MAX_AVG_BITRATE as int
    } else {
        wanted
    }
}

/// Chooses the average bitrate for frames of a size.
pub fn avg_bitrate(width: u32, height: u32) -> (rate: u32)
    ensures
        rate == bitrate(width, height),
{
    proof {
        frame::lemma_u32_product(width, height);
    }
    let wanted: u128 = (width as u64 * height as u64) as u128
        * DEFAULT_BYTES_PER_PIXEL_PER_SECOND as u128;
    if wanted < MIN_AVG_BITRATE as u128 {
        MIN_AVG_BITRATE
    } else if wanted > MAX_AVG_BITRATE as u128 {
        MAX_AVG_BITRATE
    } else {
        wanted as u32
    }
}

/// How large an encoder's output buffers are made: as large as it asks for, but
/// no smaller than a frame of BGRA pixels. An encoder that brings its own needs
/// none.
pub fn output_buffer_len(provides_samples: bool, reported: u32, width: u32, height: u32) -> (len:
    u32)
    ensures
        len == (if provides_samples {
            0
        } else if width * height * 4 > u32::MAX {
            u32::MAX
        } else if reported >= width * height * 4 {
            reported
        } else {
            (width * height * 4) as u32
        }),
{
    if provides_samples {
        return 0;
    }
    proof {
        frame::lemma_u32_product(width, height);
    }
    let frame_len: u128 = (width as u64 * height as u64) as u128 * 4;
    if frame_len > u32::MAX as u128 {
        u32::MAX
    } else if reported as u128 >= frame_len {
        reported
    } else {
        frame_len as u32
    }
}

/// An encoder that takes its output buffers from outside, and wants them empty.
#[derive(Debug, Clone, Copy, PartialEq, Eq, Structural)]
pub struct ZeroLengthBuffer;

/// The length of the output buffer that an encoder is to be given, if it is to be
/// given one.
pub fn output_buffer(provides_samples: bool, buffer_len: u32) -> (result: Result<
    Option<u32>,
    ZeroLengthBuffer,
>)
    ensures
        result == (if provides_samples {
            Ok::<Option<u32>, ZeroLengthBuffer>(None)
        } else if buffer_len == 0 {
            Err::<Option<u32>, ZeroLengthBuffer>(ZeroLengthBuffer)
        } else {
            Ok::<Option<u32>, ZeroLengthBuffer>(Some(buffer_len))
        }),
{
    if provides_samples {
        return Ok(None);
    }
    if buffer_len == 0 {
        return Err(ZeroLengthBuffer);
    }
    Ok(Some(buffer_len))
}

/// The timescale that an MP4 file has for a frame rate: a thousand times the rate.
pub open spec fn mp4_timescale(rate: NominalFrameRate) -> int {
    1_000 * rate.numerator / rate.denominator as int
}

/// The timescale that an MP4 file gets holds timestamps of a timescale exactly, up to 90000
/// units in a second: it is a multiple of theirs. It is the usual one where that is, and theirs
/// otherwise.
pub proof fn law_timestamps_are_held_exactly(timescale: i32)
    ensures
        ({
            let rate = nominal_frame_rate(timescale);
            &&& rate.denominator > 0
            &&& 0 < timescale <= 90_000 ==> mp4_timescale(rate) % (timescale as int) == 0
            &&& 0 < timescale <= 90_000 && 30_000int % (timescale as int) != 0 ==> mp4_timescale(
                rate,
            ) == timescale
            &&& timescale <= 0 || timescale > 90_000 || 30_000int % (timescale as int) == 0
                ==> rate.numerator == 30 && rate.denominator == 1
        }),
{
    if 0 < timescale <= 90_000 {
        assert((timescale as int) % (timescale as int) == 0) by (nonlinear_arith)
            requires
                timescale > 0,
        ;
        assert(1_000 * timescale / 1_000int == timescale);
        assert(1_000int * 30 / 1int == 30_000);
        let rate = nominal_frame_rate(timescale);
        if 30_000int % (timescale as int) == 0 {
            assert(rate.numerator == 30 && rate.denominator == 1);
            assert(mp4_timescale(rate) == 30_000);
        } else {
            assert(rate.numerator == timescale && rate.denominator == 1_000);
            assert(mp4_timescale(rate) == timescale);
        }
    }
}

/// The average bitrate is four for each pixel, but one million at least and twenty at most.
pub proof fn law_bitrates_go_by_the_pixels(width: u32, height: u32)
    ensures
        1_000_000 <= bitrate(width, height) <= 20_000_000,
        1_000_000 <= 4 * (width * height) <= 20_000_000 ==> bitrate(width, height) == 4 * (width
            * height),
        4 * (width * height) < 1_000_000 ==> bitrate(width, height) == 1_000_000,
        4 * (width * height) > 20_000_000 ==> bitrate(width, height) == 20_000_000,
{
}

} // verus!
