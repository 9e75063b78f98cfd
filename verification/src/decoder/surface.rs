//! Turning decoded samples into frames: compacting, flipping and resizing.
//!
//! What is computed with single-precision numbers is handed in: `scale` shrinks
//! a length, `place` finds a target's place in a source, and `blend` weighs the
//! four bytes round that place.

use crate::decoder::stride::BgraSampleStride;
use crate::frame;
use crate::frame::{FrameError, MediaTime, VideoFrame};
use crate::sampling;
use crate::sampling::{sample_coordinates, SampleCoordinate};
use vstd::arithmetic::div_mod::*;
use vstd::arithmetic::mul::*;
use vstd::prelude::*;

verus! {

/// Why a sample made no frame.
#[derive(Debug, Clone, Copy, PartialEq, Eq, Structural)]
pub enum SurfaceError {
    CompactedRowOverflow,
    ResizedRowOverflow,
    CompactedSizeOverflow,
    ResizedSizeOverflow,
    RowOutOfBounds,
    OffsetOverflow,
    OffsetOutOfBounds,
    Frame(FrameError),
}

/// A length that a video can have: even, and two at least.
pub open spec fn even_length(length: u32) -> u32 {
    if length < 2 {
        2
    } else {
        (length - length % 2) as u32
    }
}

fn make_even(length: u32) -> (even: u32)
    ensures
        even == even_length(length),
{
    if length < 2 {
        2
    } else {
        length - length % 2
    }
}

pub open spec fn larger_length(width: u32, height: u32) -> u32 {
    if width >= height {
        width
    } else {
        height
    }
}

/// Width and height as `scale` shrinks them.
pub open spec fn are_scaled<S: Fn(u32, u32, u32) -> u32>(
    scale: S,
    width: u32,
    height: u32,
    limit: u32,
    scaled: (u32, u32),
) -> bool {
    let largest = larger_length(width, height);
    call_ensures(scale, (width, largest, limit), scaled.0) && call_ensures(
        scale,
        (height, largest, limit),
        scaled.1,
    )
}

/// What comes of shrinking a size so that its larger dimension keeps within a limit.
pub open spec fn is_shrunk_size<S: Fn(u32, u32, u32) -> u32>(
    scale: S,
    width: u32,
    height: u32,
    max_dimension: Option<u32>,
    resized: Option<(u32, u32)>,
) -> bool {
    match max_dimension {
        None => resized is None,
        Some(limit) => if larger_length(width, height) <= limit {
            resized is None
        } else {
            exists|scaled: (u32, u32)| #[trigger]
                are_scaled(scale, width, height, limit, scaled) && resized == Some(
                    (even_length(scaled.0), even_length(scaled.1)),
                )
        },
    }
}

/// The size that a video is shrunk to so that its larger dimension keeps
/// within a limit; none if it does already. `scale` gives what a length becomes
/// when the largest becomes the limit.
pub fn resize_dimensions<S: Fn(u32, u32, u32) -> u32>(
    width: u32,
    height: u32,
    max_dimension: Option<u32>,
    scale: &S,
) -> (resized: Option<(u32, u32)>)
    requires
        forall|length: u32, largest: u32, limit: u32|
            call_requires(*scale, (length, largest, limit)),
    ensures
        is_shrunk_size(*scale, width, height, max_dimension, resized),
{
    let limit: u32 = match max_dimension {
        Some(limit) => limit,
        None => return None,
    };
    let largest: u32 = if width >= height {
        width
    } else {
        height
    };
    if largest <= limit {
        return None;
    }
    let resized_width: u32 = scale(width, largest, limit);
    let resized_height: u32 = scale(height, largest, limit);
    assert(are_scaled(*scale, width, height, limit, (resized_width, resized_height)));
    Some((make_even(resized_width), make_even(resized_height)))
}

/// The row of a source that a compacted frame's row is taken from.
pub open spec fn source_row(row: int, height: int, rows_are_top_down: bool) -> int {
    if rows_are_top_down {
        row
    } else {
        height - 1 - row
    }
}

/// The byte at `at` of a compacted frame.
pub open spec fn compacted_byte(
    source: Seq<u8>,
    width: u32,
    height: u32,
    stride: BgraSampleStride,
    at: int,
) -> u8 {
    let row = at / (width * 4);
    source[source_row(row, height as int, stride.rows_are_top_down) * stride.bytes_per_row + at % (
    width * 4)]
}

/// What stands in the way of compacting a sample of `len` bytes.
pub open spec fn compact_check(width: u32, height: u32, bytes_per_row: u32, len: nat) -> Result<
    (),
    SurfaceError,
> {
    if width * 4 > u32::MAX {
        Err(SurfaceError::CompactedRowOverflow)
    } else if width * 4 * height > usize::MAX {
        Err(SurfaceError::CompactedSizeOverflow)
    } else if height > 0 && (height - 1) * bytes_per_row + width * 4 > len {
        Err(SurfaceError::RowOutOfBounds)
    } else if width == 0 || height == 0 {
        Err(SurfaceError::Frame(FrameError::ZeroDimensions { width, height }))
    } else {
        Ok(())
    }
}

/// What compacting a sample comes to.
pub open spec fn is_compacted(
    source: Seq<u8>,
    source_width: u32,
    source_height: u32,
    source_stride: BgraSampleStride,
    time: MediaTime,
    result: Result<VideoFrame, SurfaceError>,
) -> bool {
    match (
        result,
        compact_check(
            source_width,
            source_height,
            source_stride.bytes_per_row,
            source.len(),
        ),
    ) {
        (Ok(frame), Ok(_)) => {
            &&& frame.wf()
            &&& frame.is_compact()
            &&& frame.width == source_width
            &&& frame.height == source_height
            &&& frame.time == time
            &&& frame.data@ == Seq::new(
                (source_width * 4 * source_height) as nat,
                |at: int|
                    compacted_byte(source, source_width, source_height, source_stride, at),
            )
        },
        (Err(error), Err(expected)) => error == expected,
        _ => false,
    }
}

/// Makes a frame of a sample whose rows are padded or upside down: rows from
/// the top, without padding.
pub fn compact_bgra(
    source: &[u8],
    source_width: u32,
    source_height: u32,
    source_stride: BgraSampleStride,
    time: MediaTime,
) -> (result: Result<VideoFrame, SurfaceError>)
    ensures
        is_compacted(source@, source_width, source_height, source_stride, time, result),
{
    let bytes_per_row: u32 = match source_width.checked_mul(4) {
        Some(bytes_per_row) => bytes_per_row,
        None => return Err(SurfaceError::CompactedRowOverflow),
    };
    proof {
        frame::lemma_u32_product(bytes_per_row, source_height);
        assert(source_width * 4 * source_height == source_width * source_height * 4)
            by (nonlinear_arith);
    }
    let total: u64 = bytes_per_row as u64 * source_height as u64;
    if total > usize::MAX as u64 {
        return Err(SurfaceError::CompactedSizeOverflow);
    }
    let stride: u32 = source_stride.bytes_per_row;
    let len: usize = source.len();
    if source_height > 0 {
        proof {
            frame::lemma_u32_product((source_height - 1) as u32, stride);
            assert((source_height - 1) * stride + bytes_per_row <= u64::MAX) by (nonlinear_arith)
                requires
                    0 < source_height <= 0xffff_ffff,
                    0 <= stride <= 0xffff_ffff,
                    0 <= bytes_per_row <= 0xffff_ffff,
            ;
        }
        let end: u64 = (source_height - 1) as u64 * stride as u64 + bytes_per_row as u64;
        if end > len as u64 {
            return Err(SurfaceError::RowOutOfBounds);
        }
    }
    let row_len: usize = bytes_per_row as usize;
    let ghost byte_at = |at: int|
        compacted_byte(source@, source_width, source_height, source_stride, at);
    let mut data: Vec<u8> = Vec::with_capacity(total as usize);
    let mut target_y: u32 = 0;
    while target_y < source_height
        invariant
            target_y <= source_height,
            row_len == source_width * 4,
            row_len == bytes_per_row,
            stride == source_stride.bytes_per_row,
            len == source@.len(),
            source_height > 0 ==> (source_height - 1) * stride + row_len <= len,
            byte_at == (|at: int|
                compacted_byte(source@, source_width, source_height, source_stride, at)),
            data@ == Seq::new((target_y * row_len) as nat, byte_at),
        decreases source_height - target_y,
    {
        let source_y: u32 = if source_stride.rows_are_top_down {
            target_y
        } else {
            source_height - 1 - target_y
        };
        proof {
            assert(0 <= source_y * stride <= (source_height - 1) * stride) by (nonlinear_arith)
                requires
                    0 <= source_y <= source_height - 1,
                    0 <= stride,
            ;
        }
        let start: usize = source_y as usize * stride as usize;
        let ghost before = data@;
        data.extend_from_slice(&source[start..start + row_len]);
        proof {
            assert((target_y + 1) * row_len == target_y * row_len + row_len) by (nonlinear_arith);
            lemma_mul_nonnegative(target_y as int, row_len as int);
            let expected = Seq::new(((target_y + 1) * row_len) as nat, byte_at);
            assert(data@.len() == expected.len());
            assert forall|at: int| 0 <= at < expected.len() implies data@[at] == expected[at] by {
                if at >= before.len() {
                    let x = at - before.len();
                    frame::lemma_flat_position(x, target_y as int, row_len as int);
                    assert(at == target_y * row_len + x);
                } else {
                    assert(data@[at] == before[at]);
                }
            }
            assert(data@ =~= expected);
        }
        target_y = target_y + 1;
    }
    proof {
        lemma_mul_is_commutative(source_height as int, row_len as int);
    }
    match VideoFrame::new_bgra(source_width, source_height, bytes_per_row, time, data) {
        Ok(frame) => Ok(frame),
        Err(error) => Err(SurfaceError::Frame(error)),
    }
}

/// The byte of a channel of the pixel at `(x, y)`.
pub open spec fn channel_at(
    source: Seq<u8>,
    bytes_per_row: u32,
    x: usize,
    y: usize,
    channel: usize,
) -> Result<u8, SurfaceError> {
    let offset = y * bytes_per_row + x * 4 + channel;
    if offset > usize::MAX {
        Err(SurfaceError::OffsetOverflow)
    } else if offset >= source.len() {
        Err(SurfaceError::OffsetOutOfBounds)
    } else {
        Ok(source[offset])
    }
}

/// Reads the byte of a channel of the pixel at `(x, y)`.
pub fn source_channel(source: &[u8], bytes_per_row: u32, x: usize, y: usize, channel: usize) -> (result:
    Result<u8, SurfaceError>)
    ensures
        result == channel_at(source@, bytes_per_row, x, y, channel),
{
    proof {
        lemma_mul_nonnegative(y as int, bytes_per_row as int);
    }
    let row: usize = match y.checked_mul(bytes_per_row as usize) {
        Some(row) => row,
        None => return Err(SurfaceError::OffsetOverflow),
    };
    let column: usize = match x.checked_mul(4) {
        Some(column) => column,
        None => return Err(SurfaceError::OffsetOverflow),
    };
    let pixel: usize = match row.checked_add(column) {
        Some(pixel) => pixel,
        None => return Err(SurfaceError::OffsetOverflow),
    };
    let offset: usize = match pixel.checked_add(channel) {
        Some(offset) => offset,
        None => return Err(SurfaceError::OffsetOverflow),
    };
    if offset >= source.len() {
        return Err(SurfaceError::OffsetOutOfBounds);
    }
    Ok(source[offset])
}

/// The four bytes of a channel round a place: above on the left and on the
/// right, and below.
pub open spec fn corners(
    source: Seq<u8>,
    bytes_per_row: u32,
    x: SampleCoordinate,
    y: SampleCoordinate,
    channel: usize,
) -> Seq<Result<u8, SurfaceError>> {
    seq![
        channel_at(source, bytes_per_row, x.lower, y.lower, channel),
        channel_at(source, bytes_per_row, x.upper, y.lower, channel),
        channel_at(source, bytes_per_row, x.lower, y.upper, channel),
        channel_at(source, bytes_per_row, x.upper, y.upper, channel),
    ]
}

/// All four bytes of a channel round a place are there.
pub open spec fn corners_are_there(
    source: Seq<u8>,
    bytes_per_row: u32,
    x: SampleCoordinate,
    y: SampleCoordinate,
    channel: usize,
) -> bool {
    let round = corners(source, bytes_per_row, x, y, channel);
    round[0] is Ok && round[1] is Ok && round[2] is Ok && round[3] is Ok
}

/// What a channel is when the four bytes round a place are weighed. Of several that
/// are not there the first counts: above on the left, above on the right, below on
/// the left, below on the right.
pub open spec fn is_blended<B: Fn(u8, u8, u8, u8, u32, u32) -> u8>(
    blend: B,
    source: Seq<u8>,
    bytes_per_row: u32,
    x: SampleCoordinate,
    y: SampleCoordinate,
    channel: usize,
    result: Result<u8, SurfaceError>,
) -> bool {
    let round = corners(source, bytes_per_row, x, y, channel);
    match result {
        Ok(byte) => {
            &&& corners_are_there(source, bytes_per_row, x, y, channel)
            &&& call_ensures(
                blend,
                (
                    round[0]->Ok_0,
                    round[1]->Ok_0,
                    round[2]->Ok_0,
                    round[3]->Ok_0,
                    x.weight,
                    y.weight,
                ),
                byte,
            )
        },
        Err(error) => {
            ||| round[0] == Err::<u8, SurfaceError>(error)
            ||| round[0] is Ok && round[1] == Err::<u8, SurfaceError>(error)
            ||| round[0] is Ok && round[1] is Ok && round[2] == Err::<u8, SurfaceError>(error)
            ||| round[0] is Ok && round[1] is Ok && round[2] is Ok && round[3] == Err::<
                u8,
                SurfaceError,
            >(error)
        },
    }
}

/// Weighs the four bytes of a channel round a place.
pub fn sample_bgra_channel<B: Fn(u8, u8, u8, u8, u32, u32) -> u8>(
    source: &[u8],
    bytes_per_row: u32,
    x: SampleCoordinate,
    y: SampleCoordinate,
    channel: usize,
    blend: &B,
) -> (result: Result<u8, SurfaceError>)
    requires
        forall|a: u8, b: u8, c: u8, d: u8, across: u32, down: u32|
            call_requires(*blend, (a, b, c, d, across, down)),
    ensures
        is_blended(*blend, source@, bytes_per_row, x, y, channel, result),
{
    let top_left: u8 = match source_channel(source, bytes_per_row, x.lower, y.lower, channel) {
        Ok(byte) => byte,
        Err(error) => return Err(error),
    };
    let top_right: u8 = match source_channel(source, bytes_per_row, x.upper, y.lower, channel) {
        Ok(byte) => byte,
        Err(error) => return Err(error),
    };
    let bottom_left: u8 = match source_channel(source, bytes_per_row, x.lower, y.upper, channel) {
        Ok(byte) => byte,
        Err(error) => return Err(error),
    };
    let bottom_right: u8 = match source_channel(source, bytes_per_row, x.upper, y.upper, channel) {
        Ok(byte) => byte,
        Err(error) => return Err(error),
    };
    Ok(blend(top_left, top_right, bottom_left, bottom_right, x.weight, y.weight))
}

/// What a resized frame's bytes are, where `xs` and `ys` say where its columns
/// and rows lie in the source.
pub open spec fn is_resized<B: Fn(u8, u8, u8, u8, u32, u32) -> u8>(
    blend: B,
    source: Seq<u8>,
    bytes_per_row: u32,
    target_width: u32,
    xs: Seq<SampleCoordinate>,
    ys: Seq<SampleCoordinate>,
    data: Seq<u8>,
) -> bool {
    forall|at: int|
        0 <= at < data.len() ==> is_blended(
            blend,
            source,
            bytes_per_row,
            xs[(at / 4) % (target_width as int)],
            ys[(at / 4) / (target_width as int)],
            (at % 4) as usize,
            Ok(#[trigger] data[at]),
        )
}

/// The bytes that the byte at `at` of a resized frame is weighed from are there.
pub open spec fn byte_can_be_had(
    source: Seq<u8>,
    bytes_per_row: u32,
    target_width: u32,
    xs: Seq<SampleCoordinate>,
    ys: Seq<SampleCoordinate>,
    at: int,
) -> bool {
    corners_are_there(
        source,
        bytes_per_row,
        xs[(at / 4) % (target_width as int)],
        ys[(at / 4) / (target_width as int)],
        (at % 4) as usize,
    )
}

/// The first byte of a resized frame that cannot be had ends in this error.
pub open spec fn cannot_resize<B: Fn(u8, u8, u8, u8, u32, u32) -> u8>(
    blend: B,
    source: Seq<u8>,
    bytes_per_row: u32,
    target_width: u32,
    target_height: u32,
    xs: Seq<SampleCoordinate>,
    ys: Seq<SampleCoordinate>,
    error: SurfaceError,
) -> bool {
    exists|at: int|
        #![trigger xs[(at / 4) % (target_width as int)]]
        {
            &&& 0 <= at < target_width * 4 * target_height
            &&& is_blended(
                blend,
                source,
                bytes_per_row,
                xs[(at / 4) % (target_width as int)],
                ys[(at / 4) / (target_width as int)],
                (at % 4) as usize,
                Err(error),
            )
            &&& forall|earlier: int|
                0 <= earlier < at ==> #[trigger] byte_can_be_had(
                    source,
                    bytes_per_row,
                    target_width,
                    xs,
                    ys,
                    earlier,
                )
        }
}

/// A source of this size holds every pixel.
pub open spec fn holds_pixels(width: u32, height: u32, bytes_per_row: u32, len: nat) -> bool {
    width > 0 && height > 0 && (height - 1) * bytes_per_row + width * 4 <= len <= usize::MAX
}

proof fn lemma_held_pixels_are_there(
    source: Seq<u8>,
    width: u32,
    height: u32,
    bytes_per_row: u32,
    x: usize,
    y: usize,
    channel: usize,
)
    requires
        holds_pixels(width, height, bytes_per_row, source.len()),
        x < width,
        y < height,
        channel < 4,
    ensures
        channel_at(source, bytes_per_row, x, y, channel) is Ok,
{
    assert(y * bytes_per_row <= (height - 1) * bytes_per_row) by (nonlinear_arith)
        requires
            y <= height - 1,
            bytes_per_row >= 0,
    ;
}

/// What resizing comes to.
pub open spec fn is_resize_result<
    B: Fn(u8, u8, u8, u8, u32, u32) -> u8,
    P: Fn(usize, usize, usize) -> (usize, u32),
>(
    blend: B,
    place: P,
    source: Seq<u8>,
    source_width: u32,
    source_height: u32,
    bytes_per_row: u32,
    target_width: u32,
    target_height: u32,
    time: MediaTime,
    result: Result<VideoFrame, SurfaceError>,
    xs: Seq<SampleCoordinate>,
    ys: Seq<SampleCoordinate>,
) -> bool {
    &&& sampling::are_coordinates(place, target_width as usize, source_width as usize, xs)
    &&& sampling::are_coordinates(place, target_height as usize, source_height as usize, ys)
    &&& match result {
        Ok(frame) => {
            &&& frame.wf()
            &&& frame.is_compact()
            &&& frame.width == target_width
            &&& frame.height == target_height
            &&& frame.time == time
            &&& is_resized(blend, source, bytes_per_row, target_width, xs, ys, frame.data@)
        },
        Err(SurfaceError::Frame(error)) => {
            &&& target_width == 0 || target_height == 0
            &&& error == (FrameError::ZeroDimensions {
                width: target_width,
                height: target_height,
            })
        },
        Err(error) => cannot_resize(
            blend,
            source,
            bytes_per_row,
            target_width,
            target_height,
            xs,
            ys,
            error,
        ),
    }
}

/// A source that holds every pixel can be resized.
pub proof fn lemma_held_frame_resizes<
    B: Fn(u8, u8, u8, u8, u32, u32) -> u8,
    P: Fn(usize, usize, usize) -> (usize, u32),
>(
    blend: B,
    place: P,
    source: Seq<u8>,
    source_width: u32,
    source_height: u32,
    bytes_per_row: u32,
    target_width: u32,
    target_height: u32,
    time: MediaTime,
    result: Result<VideoFrame, SurfaceError>,
    xs: Seq<SampleCoordinate>,
    ys: Seq<SampleCoordinate>,
)
    requires
        is_resize_result(
            blend,
            place,
            source,
            source_width,
            source_height,
            bytes_per_row,
            target_width,
            target_height,
            time,
            result,
            xs,
            ys,
        ),
        holds_pixels(source_width, source_height, bytes_per_row, source.len()),
        target_width > 0,
        target_height > 0,
    ensures
        result is Ok,
{
    if let Err(error) = result {
        let width = target_width as int;
        let at = choose|at: int|
            #![trigger xs[(at / 4) % width]]
            {
                &&& 0 <= at < target_width * 4 * target_height
                &&& is_blended(
                    blend,
                    source,
                    bytes_per_row,
                    xs[(at / 4) % width],
                    ys[(at / 4) / width],
                    (at % 4) as usize,
                    Err(error),
                )
            };
        let column = (at / 4) % width;
        let line = (at / 4) / width;
        let channel = (at % 4) as usize;
        lemma_fundamental_div_mod(at / 4, width);
        lemma_mod_bound(at / 4, width);
        assert(target_width * 4 * target_height == width * target_height * 4) by (nonlinear_arith)
            requires
                width == target_width,
        ;
        assert(0 <= line < target_height) by (nonlinear_arith)
            requires
                at / 4 == width * line + column,
                0 <= at / 4 < width * target_height,
                0 <= column < width,
        ;
        let x = xs[column];
        let y = ys[line];
        lemma_held_pixels_are_there(
            source,
            source_width,
            source_height,
            bytes_per_row,
            x.lower,
            y.lower,
            channel,
        );
        lemma_held_pixels_are_there(
            source,
            source_width,
            source_height,
            bytes_per_row,
            x.upper,
            y.lower,
            channel,
        );
        lemma_held_pixels_are_there(
            source,
            source_width,
            source_height,
            bytes_per_row,
            x.lower,
            y.upper,
            channel,
        );
        lemma_held_pixels_are_there(
            source,
            source_width,
            source_height,
            bytes_per_row,
            x.upper,
            y.upper,
            channel,
        );
    }
}

/// What resizing comes to, wherever the target's columns and rows were placed.
pub open spec fn is_resize_outcome<
    B: Fn(u8, u8, u8, u8, u32, u32) -> u8,
    P: Fn(usize, usize, usize) -> (usize, u32),
>(
    blend: B,
    place: P,
    source: Seq<u8>,
    source_width: u32,
    source_height: u32,
    bytes_per_row: u32,
    target_width: u32,
    target_height: u32,
    time: MediaTime,
    result: Result<VideoFrame, SurfaceError>,
) -> bool {
    if target_width * 4 > u32::MAX {
        result == Err::<VideoFrame, SurfaceError>(SurfaceError::ResizedRowOverflow)
    } else if target_width * 4 * target_height > usize::MAX {
        result == Err::<VideoFrame, SurfaceError>(SurfaceError::ResizedSizeOverflow)
    } else {
        exists|xs: Seq<SampleCoordinate>, ys: Seq<SampleCoordinate>| #[trigger]
            is_resize_result(
                blend,
                place,
                source,
                source_width,
                source_height,
                bytes_per_row,
                target_width,
                target_height,
                time,
                result,
                xs,
                ys,
            )
    }
}

/// Resizes a sample whose rows come from the top.
pub fn resize_bgra<
    B: Fn(u8, u8, u8, u8, u32, u32) -> u8,
    P: Fn(usize, usize, usize) -> (usize, u32),
>(
    source: &[u8],
    source_width: u32,
    source_height: u32,
    source_bytes_per_row: u32,
    target_width: u32,
    target_height: u32,
    time: MediaTime,
    blend: &B,
    place: &P,
) -> (result: Result<VideoFrame, SurfaceError>)
    requires
        forall|a: u8, b: u8, c: u8, d: u8, across: u32, down: u32|
            call_requires(*blend, (a, b, c, d, across, down)),
        sampling::places_within(*place),
    ensures
        is_resize_outcome(
            *blend,
            *place,
            source@,
            source_width,
            source_height,
            source_bytes_per_row,
            target_width,
            target_height,
            time,
            result,
        ),
        target_width * 4 <= u32::MAX && target_width * 4 * target_height <= usize::MAX
            && target_width > 0 && target_height > 0 && holds_pixels(
            source_width,
            source_height,
            source_bytes_per_row,
            source@.len(),
        ) ==> result is Ok,
{
    let bytes_per_row: u32 = match target_width.checked_mul(4) {
        Some(bytes_per_row) => bytes_per_row,
        None => return Err(SurfaceError::ResizedRowOverflow),
    };
    proof {
        frame::lemma_u32_product(bytes_per_row, target_height);
        frame::lemma_u32_product(target_width, target_height);
        assert(target_width * 4 * target_height == target_width * target_height * 4)
            by (nonlinear_arith);
    }
    let total: u64 = bytes_per_row as u64 * target_height as u64;
    if total > usize::MAX as u64 {
        return Err(SurfaceError::ResizedSizeOverflow);
    }
    let len: usize = source.len();
    let pixels: usize = (target_width as u64 * target_height as u64) as usize;
    let columns: usize = target_width as usize;
    let xs = sample_coordinates(target_width as usize, source_width as usize, place);
    let ys = sample_coordinates(target_height as usize, source_height as usize, place);
    let mut data: Vec<u8> = Vec::with_capacity(total as usize);
    let mut at: usize = 0;
    while at < pixels
        invariant
            at <= pixels,
            pixels == target_width * target_height,
            target_width * 4 <= u32::MAX,
            target_width * 4 * target_height == pixels * 4,
            pixels * 4 <= usize::MAX,
            columns == target_width,
            len == source@.len(),
            forall|a: u8, b: u8, c: u8, d: u8, across: u32, down: u32|
                call_requires(*blend, (a, b, c, d, across, down)),
            sampling::are_coordinates(
                *place,
                target_width as usize,
                source_width as usize,
                xs@,
            ),
            sampling::are_coordinates(
                *place,
                target_height as usize,
                source_height as usize,
                ys@,
            ),
            data@.len() == at * 4,
            is_resized(
                *blend,
                source@,
                source_bytes_per_row,
                target_width,
                xs@,
                ys@,
                data@,
            ),
        decreases pixels - at,
    {
        assert(columns > 0) by (nonlinear_arith)
            requires
                at < columns * target_height,
                at >= 0,
                columns >= 0,
        ;
        let x: usize = at % columns;
        let y: usize = at / columns;
        proof {
            lemma_fundamental_div_mod(at as int, columns as int);
            assert(y < target_height) by (nonlinear_arith)
                requires
                    at == columns * y + x,
                    at < columns * target_height,
                    0 <= x,
            ;
        }
        let sample_x = xs[x];
        let sample_y = ys[y];
        let mut channel: usize = 0;
        while channel < 4
            invariant
                channel <= 4,
                at < pixels,
                pixels == target_width * target_height,
                target_width * 4 <= u32::MAX,
                target_width * 4 * target_height == pixels * 4,
                pixels * 4 <= usize::MAX,
                columns == target_width,
                columns > 0,
                x == at % columns,
                y == at / columns,
                x < xs@.len(),
                y < ys@.len(),
                sample_x == xs@[x as int],
                sample_y == ys@[y as int],
                len == source@.len(),
                forall|a: u8, b: u8, c: u8, d: u8, across: u32, down: u32|
                    call_requires(*blend, (a, b, c, d, across, down)),
                sampling::are_coordinates(
                    *place,
                    target_width as usize,
                    source_width as usize,
                    xs@,
                ),
                sampling::are_coordinates(
                    *place,
                    target_height as usize,
                    source_height as usize,
                    ys@,
                ),
                data@.len() == at * 4 + channel,
                is_resized(
                    *blend,
                    source@,
                    source_bytes_per_row,
                    target_width,
                    xs@,
                    ys@,
                    data@,
                ),
            decreases 4 - channel,
        {
            let ghost flat = at * 4 + channel;
            assert(flat / 4 == at && flat % 4 == channel);
            let sampled = sample_bgra_channel(
                source,
                source_bytes_per_row,
                sample_x,
                sample_y,
                channel,
                blend,
            );
            assert(xs@[(flat / 4) % (target_width as int)] == sample_x);
            match sampled {
                Ok(byte) => {
                    let ghost before = data@;
                    data.push(byte);
                    assert forall|i: int| 0 <= i < data@.len() implies is_blended(
                        *blend,
                        source@,
                        source_bytes_per_row,
                        xs@[(i / 4) % (target_width as int)],
                        ys@[(i / 4) / (target_width as int)],
                        (i % 4) as usize,
                        Ok(#[trigger] data@[i]),
                    ) by {
                        if i < before.len() {
                            assert(data@[i] == before[i]);
                        }
                    }
                },
                Err(error) => {
                    proof {
                        assert forall|earlier: int|
                            0 <= earlier < flat implies #[trigger] byte_can_be_had(
                            source@,
                            source_bytes_per_row,
                            target_width,
                            xs@,
                            ys@,
                            earlier,
                        ) by {
                            assert(is_blended(
                                *blend,
                                source@,
                                source_bytes_per_row,
                                xs@[(earlier / 4) % (target_width as int)],
                                ys@[(earlier / 4) / (target_width as int)],
                                (earlier % 4) as usize,
                                Ok(data@[earlier]),
                            ));
                        }
                        assert(cannot_resize(
                            *blend,
                            source@,
                            source_bytes_per_row,
                            target_width,
                            target_height,
                            xs@,
                            ys@,
                            error,
                        ));
                        assert(is_resize_result(
                            *blend,
                            *place,
                            source@,
                            source_width,
                            source_height,
                            source_bytes_per_row,
                            target_width,
                            target_height,
                            time,
                            Err(error),
                            xs@,
                            ys@,
                        ));
                        if holds_pixels(
                            source_width,
                            source_height,
                            source_bytes_per_row,
                            source@.len(),
                        ) && target_height > 0 {
                            lemma_held_frame_resizes(
                                *blend,
                                *place,
                                source@,
                                source_width,
                                source_height,
                                source_bytes_per_row,
                                target_width,
                                target_height,
                                time,
                                Err(error),
                                xs@,
                                ys@,
                            );
                        }
                    }
                    return Err(error);
                },
            }
            channel = channel + 1;
        }
        at = at + 1;
    }
    let result = match VideoFrame::new_bgra(
        target_width,
        target_height,
        bytes_per_row,
        time,
        data,
    ) {
        Ok(frame) => Ok(frame),
        Err(error) => Err(SurfaceError::Frame(error)),
    };
    assert(is_resize_result(
        *blend,
        *place,
        source@,
        source_width,
        source_height,
        source_bytes_per_row,
        target_width,
        target_height,
        time,
        result,
        xs@,
        ys@,
    ));
    result
}

/// A length that is made even is the largest even number that is not larger, or two.
pub proof fn law_even_lengths(length: u32)
    ensures
        even_length(length) % 2 == 0,
        even_length(length) >= 2,
        length >= 2 ==> length - 1 <= even_length(length) <= length,
        length < 2 ==> even_length(length) == 2,
{
}

/// A compacted frame shows the sample's picture: each pixel of it is the sample's pixel in
/// the same row and column, where rows that lie from the bottom are turned round.
pub proof fn law_compacting_keeps_the_picture(
    source: Seq<u8>,
    width: u32,
    height: u32,
    stride: BgraSampleStride,
    time: MediaTime,
    frame: VideoFrame,
    x: int,
    y: int,
    channel: int,
)
    requires
        is_compacted(source, width, height, stride, time, Ok(frame)),
        0 <= x < width,
        0 <= y < height,
        0 <= channel < 4,
    ensures
        frame.width == width,
        frame.height == height,
        frame.time == time,
        frame.bytes_per_row == 4 * width,
        frame.data@.len() == 4 * (width * height),
        frame.data@[y * (4 * width) + 4 * x + channel] == (if stride.rows_are_top_down {
            source[y * stride.bytes_per_row + 4 * x + channel]
        } else {
            source[(height - 1 - y) * stride.bytes_per_row + 4 * x + channel]
        }),
{
    let row = width * 4;
    let column = 4 * x + channel;
    let at = y * row + column;
    frame::lemma_flat_position(column, y, row);
    assert(row * height == 4 * (width * height)) by (nonlinear_arith)
        requires
            row == width * 4,
    ;
    assert(0 <= at < row * height) by (nonlinear_arith)
        requires
            at == y * row + column,
            0 <= column < row,
            0 <= y < height,
    ;
}

/// A sample that holds its rows, with some width and height, can be compacted.
pub proof fn law_whole_samples_are_compacted(
    source: Seq<u8>,
    width: u32,
    height: u32,
    stride: BgraSampleStride,
    time: MediaTime,
    result: Result<VideoFrame, SurfaceError>,
)
    requires
        is_compacted(source, width, height, stride, time, result),
    ensures
        result is Ok <==> {
            &&& width > 0 && height > 0
            &&& 4 * width <= u32::MAX
            &&& 4 * (width * height) <= usize::MAX
            &&& (height - 1) * stride.bytes_per_row + 4 * width <= source.len()
        },
{
    assert(width * 4 * height == 4 * (width * height)) by (nonlinear_arith);
}

/// Each byte of a resized frame is blended from the sample's bytes of the same channel at
/// the four pixels round the place of its column and its row.
pub proof fn law_resizing_blends_the_neighbours<
    B: Fn(u8, u8, u8, u8, u32, u32) -> u8,
    P: Fn(usize, usize, usize) -> (usize, u32),
>(
    blend: B,
    place: P,
    source: Seq<u8>,
    source_width: u32,
    source_height: u32,
    bytes_per_row: u32,
    target_width: u32,
    target_height: u32,
    time: MediaTime,
    frame: VideoFrame,
    x: int,
    y: int,
    channel: int,
) -> (coordinates: (SampleCoordinate, SampleCoordinate))
    requires
        is_resize_outcome(
            blend,
            place,
            source,
            source_width,
            source_height,
            bytes_per_row,
            target_width,
            target_height,
            time,
            Ok(frame),
        ),
        0 <= x < target_width,
        0 <= y < target_height,
        0 <= channel < 4,
    ensures
        frame.width == target_width,
        frame.height == target_height,
        frame.time == time,
        frame.bytes_per_row == 4 * target_width,
        frame.data@.len() == 4 * (target_width * target_height),
        sampling::is_coordinate(
            place,
            x as usize,
            target_width as usize,
            source_width as usize,
            coordinates.0,
        ),
        sampling::is_coordinate(
            place,
            y as usize,
            target_height as usize,
            source_height as usize,
            coordinates.1,
        ),
        ({
            let (across, down) = coordinates;
            let above = down.lower * bytes_per_row + channel;
            let below = down.upper * bytes_per_row + channel;
            call_ensures(
                blend,
                (
                    source[above + 4 * across.lower],
                    source[above + 4 * across.upper],
                    source[below + 4 * across.lower],
                    source[below + 4 * across.upper],
                    across.weight,
                    down.weight,
                ),
                frame.data@[y * (4 * target_width) + 4 * x + channel],
            )
        }),
{
    let (xs, ys) = choose|xs: Seq<SampleCoordinate>, ys: Seq<SampleCoordinate>| #[trigger]
        is_resize_result(
            blend,
            place,
            source,
            source_width,
            source_height,
            bytes_per_row,
            target_width,
            target_height,
            time,
            Ok(frame),
            xs,
            ys,
        );
    let width = target_width as int;
    let position = y * width + x;
    let at = position * 4 + channel;
    frame::lemma_flat_position(x, y, width);
    assert(at == y * (4 * target_width) + 4 * x + channel) by (nonlinear_arith)
        requires
            at == position * 4 + channel,
            position == y * width + x,
            width == target_width,
    ;
    assert(target_width * target_height * 4 == 4 * (target_width * target_height)
        && target_width * 4 * target_height == 4 * (target_width * target_height))
        by (nonlinear_arith);
    assert(0 <= position < width * target_height) by (nonlinear_arith)
        requires
            position == y * width + x,
            0 <= x < width,
            0 <= y < target_height,
    ;
    assert(at / 4 == position && at % 4 == channel);
    assert(is_blended(
        blend,
        source,
        bytes_per_row,
        xs[x],
        ys[y],
        channel as usize,
        Ok(frame.data@[at]),
    ));
    assert(sampling::is_coordinate(
        place,
        x as usize,
        target_width as usize,
        source_width as usize,
        xs[x],
    ));
    assert(sampling::is_coordinate(
        place,
        y as usize,
        target_height as usize,
        source_height as usize,
        ys[y],
    ));
    (xs[x], ys[y])
}

/// The larger of two lengths is one of them, and neither is larger.
pub proof fn law_larger_lengths(width: u32, height: u32)
    ensures
        larger_length(width, height) == width || larger_length(width, height) == height,
        larger_length(width, height) >= width,
        larger_length(width, height) >= height,
{
}

/// A video is shrunk exactly if there is a limit and its width or its height is over it. Its width
/// and its height are then each shrunk in the ratio of the limit to the larger of the two, and made
/// even.
pub proof fn law_videos_over_the_limit_are_shrunk<S: Fn(u32, u32, u32) -> u32>(
    scale: S,
    width: u32,
    height: u32,
    max_dimension: Option<u32>,
    resized: Option<(u32, u32)>,
) -> (scaled: (u32, u32))
    requires
        is_shrunk_size(scale, width, height, max_dimension, resized),
    ensures
        resized is Some <==> max_dimension is Some && (width > max_dimension->0 || height
            > max_dimension->0),
        resized matches Some(size) ==> {
            let limit = max_dimension->0;
            let larger = if width > height {
                width
            } else {
                height
            };
            &&& call_ensures(scale, (width, larger, limit), scaled.0)
            &&& call_ensures(scale, (height, larger, limit), scaled.1)
            &&& size.0 % 2 == 0 && size.0 >= 2
            &&& size.1 % 2 == 0 && size.1 >= 2
            &&& scaled.0 >= 2 ==> scaled.0 - 1 <= size.0 <= scaled.0
            &&& scaled.1 >= 2 ==> scaled.1 - 1 <= size.1 <= scaled.1
        },
{
    if resized is Some {
        choose|scaled: (u32, u32)| #[trigger]
            are_scaled(scale, width, height, max_dimension->0, scaled) && resized == Some(
                (even_length(scaled.0), even_length(scaled.1)),
            )
    } else {
        (0, 0)
    }
}

/// A channel of a pixel stands where its row, its column and its own number say, and is read exactly
/// if it lies in the buffer.
pub proof fn law_channels_stand_in_their_place(
    source: Seq<u8>,
    bytes_per_row: u32,
    x: usize,
    y: usize,
    channel: usize,
)
    requires
        source.len() <= usize::MAX,
    ensures
        ({
            let place = y * bytes_per_row + x * 4 + channel;
            let read = channel_at(source, bytes_per_row, x, y, channel);
            &&& read is Ok <==> place < source.len()
            &&& read is Ok ==> read->Ok_0 == source[place]
            &&& read == Err::<u8, SurfaceError>(SurfaceError::OffsetOverflow) <==> place
                > usize::MAX
            &&& read == Err::<u8, SurfaceError>(SurfaceError::OffsetOutOfBounds) <==> source.len()
                <= place <= usize::MAX
        }),
{
}

} // verus!
