//! How far apart the rows of a decoded sample lie.

use crate::frame;
use vstd::arithmetic::div_mod::*;
use vstd::arithmetic::mul::*;
use vstd::prelude::*;

verus! {

/// Why a sample's rows could not be told apart.
#[derive(Debug, Clone, Copy, PartialEq, Eq, Structural)]
pub enum StrideError {
    InvalidStride,
    RowWidthOverflow,
    BufferLengthOverflow,
    /// The buffer is padded in a way that fits no row length.
    AmbiguousPadding { width: u32, height: u32, bytes_per_row: u32, buffer_len: u32 },
}

/// How a sample's rows lie in its buffer.
#[derive(Debug, Clone, Copy, PartialEq, Eq, Structural)]
pub struct BgraSampleStride {
    pub bytes_per_row: u32,
    pub rows_are_top_down: bool,
}

impl Default for BgraSampleStride {
    fn default() -> (stride: Self)
        ensures
            stride == (BgraSampleStride { bytes_per_row: 0, rows_are_top_down: true }),
    {
        BgraSampleStride { bytes_per_row: 0, rows_are_top_down: true }
    }
}

pub open spec fn larger(a: int, b: int) -> int {
    if a >= b {
        a
    } else {
        b
    }
}

/// What a signed stride says of rows of so many pixels.
pub open spec fn signed_stride(stride: i32, width: u32) -> Result<BgraSampleStride, StrideError> {
    if stride == i32::MIN {
        Err(StrideError::InvalidStride)
    } else if width * 4 > u32::MAX {
        Err(StrideError::RowWidthOverflow)
    } else {
        Ok(
            BgraSampleStride {
                bytes_per_row: larger(
                    if stride >= 0 {
                        stride as int
                    } else {
                        -stride
                    },
                    width * 4,
                ) as u32,
                rows_are_top_down: stride >= 0,
            },
        )
    }
}

/// Reads a signed stride: its size is the distance between rows, but never
/// less than a row of BGRA pixels takes, and a negative one means that the
/// bottom row comes first.
pub fn bgra_sample_stride(stride: i32, width: u32) -> (result: Result<
    BgraSampleStride,
    StrideError,
>)
    ensures
        result == signed_stride(stride, width),
{
    if stride == i32::MIN {
        return Err(StrideError::InvalidStride);
    }
    let size: u32 = if stride >= 0 {
        stride as u32
    } else {
        (-stride) as u32
    };
    let minimum: u32 = match width.checked_mul(4) {
        Some(minimum) => minimum,
        None => return Err(StrideError::RowWidthOverflow),
    };
    let bytes_per_row: u32 = if size >= minimum {
        size
    } else {
        minimum
    };
    Ok(BgraSampleStride { bytes_per_row, rows_are_top_down: stride >= 0 })
}

/// How many bytes a frame's rows take.
pub fn frame_buffer_len(bytes_per_row: u32, height: u32) -> (result: Result<usize, StrideError>)
    ensures
        result == (if bytes_per_row * height <= usize::MAX {
            Ok::<usize, StrideError>((bytes_per_row * height) as usize)
        } else {
            Err::<usize, StrideError>(StrideError::BufferLengthOverflow)
        }),
{
    proof {
        frame::lemma_u32_product(bytes_per_row, height);
    }
    let len: u64 = bytes_per_row as u64 * height as u64;
    if len <= usize::MAX as u64 {
        Ok(len as usize)
    } else {
        Err(StrideError::BufferLengthOverflow)
    }
}

/// A row length that a padded buffer could have: whole pixels, a multiple of
/// four away from what was reported, no shorter than that or than a visible
/// row, dividing the buffer into enough rows.
pub open spec fn is_coded_stride(
    width: u32,
    height: u32,
    reported: u32,
    buffer_len: u32,
    candidate: int,
) -> bool {
    &&& candidate >= reported
    &&& (candidate - reported) % 4 == 0
    &&& candidate % 4 == 0
    &&& candidate / 4 >= larger(width as int, reported as int / 4)
    &&& candidate <= buffer_len as int / larger(height as int, 1)
    &&& buffer_len as int % candidate == 0
    &&& buffer_len as int / candidate >= height
}

/// The shortest row length that a padded buffer could have.
pub open spec fn is_least_coded_stride(
    width: u32,
    height: u32,
    reported: u32,
    buffer_len: u32,
    found: Option<u32>,
) -> bool {
    match found {
        Some(least) => is_coded_stride(width, height, reported, buffer_len, least as int)
            && forall|shorter: int|
            0 <= shorter < least ==> !#[trigger] is_coded_stride(
                width,
                height,
                reported,
                buffer_len,
                shorter,
            ),
        None => forall|candidate: int|
            0 <= candidate <= u32::MAX ==> !#[trigger] is_coded_stride(
                width,
                height,
                reported,
                buffer_len,
                candidate,
            ),
    }
}

/// Finds the shortest row length that a padded buffer could have.
pub fn infer_coded_surface_stride(
    width: u32,
    height: u32,
    reported_bytes_per_row: u32,
    buffer_len: u32,
) -> (found: Option<u32>)
    requires
        reported_bytes_per_row > 0,
    ensures
        is_least_coded_stride(width, height, reported_bytes_per_row, buffer_len, found),
{
    let reported_width: u32 = reported_bytes_per_row / 4;
    let min_coded_width: u32 = if width >= reported_width {
        width
    } else {
        reported_width
    };
    let rows: u32 = if height >= 1 {
        height
    } else {
        1
    };
    let max_bytes_per_row: u32 = buffer_len / rows;
    let mut bytes_per_row: u32 = reported_bytes_per_row;
    while bytes_per_row <= max_bytes_per_row
        invariant
            0 < reported_bytes_per_row <= bytes_per_row,
            (bytes_per_row - reported_bytes_per_row) % 4 == 0,
            min_coded_width == larger(width as int, reported_bytes_per_row as int / 4),
            rows == larger(height as int, 1),
            max_bytes_per_row == buffer_len as int / rows as int,
            forall|candidate: int|
                0 <= candidate < bytes_per_row ==> !#[trigger] is_coded_stride(
                    width,
                    height,
                    reported_bytes_per_row,
                    buffer_len,
                    candidate,
                ),
        decreases u32::MAX - bytes_per_row,
    {
        let coded_width: u32 = bytes_per_row / 4;
        if bytes_per_row % 4 == 0 && coded_width >= min_coded_width && buffer_len % bytes_per_row
            == 0 {
            let coded_height: u32 = buffer_len / bytes_per_row;
            if coded_height >= height {
                return Some(bytes_per_row);
            }
        }
        assert(!is_coded_stride(
            width,
            height,
            reported_bytes_per_row,
            buffer_len,
            bytes_per_row as int,
        ));
        proof {
            assert forall|candidate: int| 0 <= candidate < bytes_per_row
                + 4 implies !#[trigger] is_coded_stride(
                width,
                height,
                reported_bytes_per_row,
                buffer_len,
                candidate,
            ) by {
                if bytes_per_row < candidate {
                    assert((candidate - reported_bytes_per_row) % 4 != 0);
                }
            }
        }
        match bytes_per_row.checked_add(4) {
            Some(next) => {
                bytes_per_row = next;
            },
            None => return None,
        }
    }
    None
}

/// The row length that a sample is taken to have when it is not padded in a
/// way that shows.
pub open spec fn reported_stride(width: u32, media_type_stride: BgraSampleStride) -> int {
    larger(media_type_stride.bytes_per_row as int, width * 4)
}

/// The buffer's length divides evenly into the visible rows.
pub open spec fn divides_evenly(height: u32, reported: int, buffer_len: u32) -> bool {
    &&& height != 0
    &&& buffer_len as int % height as int == 0
    &&& buffer_len as int / height as int >= reported
    &&& (buffer_len as int / height as int) % 4 == 0
}

/// What is made of a sample's rows in a buffer of this length.
pub open spec fn is_sample_stride(
    width: u32,
    height: u32,
    media_type_stride: BgraSampleStride,
    buffer_len: u32,
    result: Result<BgraSampleStride, StrideError>,
) -> bool {
    let reported = reported_stride(width, media_type_stride);
    if width * 4 > u32::MAX {
        result == Err::<BgraSampleStride, StrideError>(StrideError::RowWidthOverflow)
    } else if buffer_len <= reported * height || (reported != 0 && buffer_len as int
        % reported == 0) {
        result == Ok::<BgraSampleStride, StrideError>(
            BgraSampleStride { bytes_per_row: reported as u32, ..media_type_stride },
        )
    } else if divides_evenly(height, reported, buffer_len) {
        result == Ok::<BgraSampleStride, StrideError>(
            BgraSampleStride {
                bytes_per_row: (buffer_len as int / height as int) as u32,
                ..media_type_stride
            },
        )
    } else {
        match result {
            Ok(stride) => stride.rows_are_top_down == media_type_stride.rows_are_top_down
                && is_least_coded_stride(
                width,
                height,
                reported as u32,
                buffer_len,
                Some(stride.bytes_per_row),
            ),
            Err(error) => error == (StrideError::AmbiguousPadding {
                width,
                height,
                bytes_per_row: reported as u32,
                buffer_len,
            }) && is_least_coded_stride(width, height, reported as u32, buffer_len, None),
        }
    }
}

/// The rows of a sample can be told apart, or can be seen to be ambiguous. A
/// sample without width whose buffer fits no row length cannot.
pub open spec fn stride_is_decidable(
    width: u32,
    height: u32,
    media_type_stride: BgraSampleStride,
    buffer_len: u32,
) -> bool {
    reported_stride(width, media_type_stride) > 0 || buffer_len == 0 || divides_evenly(
        height,
        0,
        buffer_len,
    )
}

/// How a sample's rows lie in a buffer of this length. Where the buffer is
/// longer than the visible rows and not by whole rows, its length tells how far
/// each row is padded.
pub fn sample_stride(
    width: u32,
    height: u32,
    media_type_stride: BgraSampleStride,
    buffer_len: u32,
) -> (result: Result<BgraSampleStride, StrideError>)
    requires
        stride_is_decidable(width, height, media_type_stride, buffer_len),
    ensures
        is_sample_stride(width, height, media_type_stride, buffer_len, result),
{
    let minimum: u32 = match width.checked_mul(4) {
        Some(minimum) => minimum,
        None => return Err(StrideError::RowWidthOverflow),
    };
    let reported: u32 = if media_type_stride.bytes_per_row >= minimum {
        media_type_stride.bytes_per_row
    } else {
        minimum
    };
    proof {
        frame::lemma_u32_product(reported, height);
    }
    let visible: u64 = reported as u64 * height as u64;
    let rows_are_top_down: bool = media_type_stride.rows_are_top_down;
    if buffer_len as u64 <= visible {
        return Ok(BgraSampleStride { bytes_per_row: reported, rows_are_top_down });
    }
    if reported != 0 && buffer_len % reported == 0 {
        return Ok(BgraSampleStride { bytes_per_row: reported, rows_are_top_down });
    }
    if height != 0 && buffer_len % height == 0 {
        let inferred: u32 = buffer_len / height;
        if inferred >= reported && inferred % 4 == 0 {
            return Ok(BgraSampleStride { bytes_per_row: inferred, rows_are_top_down });
        }
    }
    assert(reported > 0);
    match infer_coded_surface_stride(width, height, reported, buffer_len) {
        Some(inferred) => Ok(BgraSampleStride { bytes_per_row: inferred, rows_are_top_down }),
        None => Err(
            StrideError::AmbiguousPadding { width, height, bytes_per_row: reported, buffer_len },
        ),
    }
}

/// However a padded buffer was divided into rows, a row holds the visible
/// pixels and the buffer holds the visible rows.
pub proof fn law_inferred_rows_lie_in_the_buffer(
    width: u32,
    height: u32,
    reported: u32,
    buffer_len: u32,
    found: u32,
)
    requires
        reported > 0,
        reported >= width * 4,
        is_least_coded_stride(width, height, reported, buffer_len, Some(found)) || (divides_evenly(
            height,
            reported as int,
            buffer_len,
        ) && found == buffer_len as int / height as int),
    ensures
        found >= width * 4,
        found * height <= buffer_len,
{
    if is_least_coded_stride(width, height, reported, buffer_len, Some(found)) {
        let rows = buffer_len as int / found as int;
        lemma_fundamental_div_mod(buffer_len as int, found as int);
        assert(found * height <= found * rows) by (nonlinear_arith)
            requires
                rows >= height,
                found >= 0,
        ;
    } else {
        lemma_fundamental_div_mod(buffer_len as int, height as int);
        lemma_mul_is_commutative(found as int, height as int);
    }
}

/// A frame's size in one number: the width in the upper half.
pub open spec fn packed_size(width: u32, height: u32) -> int {
    width * 0x1_0000_0000 + height
}

/// Packs a frame's size into one number.
pub fn pack_frame_size(width: u32, height: u32) -> (packed: u64)
    ensures
        packed == packed_size(width, height),
{
    let wide: u64 = width as u64;
    let low: u64 = height as u64;
    assert(wide <= 0xffff_ffff && low <= 0xffff_ffff ==> ((wide << 32) | low) == wide
        * 0x1_0000_0000 + low) by (bit_vector);
    (wide << 32) | low
}

/// Takes a frame's size out of one number.
pub fn unpack_frame_size(packed: u64) -> (size: (u32, u32))
    ensures
        packed == packed_size(size.0, size.1),
{
    assert(packed >> 32 == packed / 0x1_0000_0000) by (bit_vector);
    assert(packed & 0xffff_ffff == packed % 0x1_0000_0000) by (bit_vector);
    ((packed >> 32) as u32, (packed & 0xffff_ffff) as u32)
}

/// One number holds one size only, so that unpacking gives back what was
/// packed.
pub proof fn law_packed_size_is_unique(width: u32, height: u32, other_width: u32, other_height: u32)
    requires
        packed_size(width, height) == packed_size(other_width, other_height),
    ensures
        width == other_width,
        height == other_height,
{
}

/// Where the rows of a sample can be told apart, each holds the visible pixels and is no
/// shorter than reported, and they lie in the direction that was reported. A buffer that is
/// no shorter than the reported rows holds all the rows, and one that they fill, or that
/// they divide, has the rows that were reported.
pub proof fn law_sample_rows_fit(
    width: u32,
    height: u32,
    media_type_stride: BgraSampleStride,
    buffer_len: u32,
    found: BgraSampleStride,
)
    requires
        is_sample_stride(width, height, media_type_stride, buffer_len, Ok(found)),
    ensures
        found.rows_are_top_down == media_type_stride.rows_are_top_down,
        found.bytes_per_row >= 4 * width,
        found.bytes_per_row >= media_type_stride.bytes_per_row,
        ({
            let reported = if media_type_stride.bytes_per_row >= 4 * width {
                media_type_stride.bytes_per_row as int
            } else {
                4 * width
            };
            &&& reported * height <= buffer_len ==> found.bytes_per_row * height <= buffer_len
            &&& buffer_len <= reported * height ==> found.bytes_per_row == reported
            &&& reported > 0 && buffer_len as int % reported == 0 ==> found.bytes_per_row
                == reported
            &&& found.bytes_per_row != reported ==> found.bytes_per_row > 0 && buffer_len as int
                % found.bytes_per_row as int == 0 && found.bytes_per_row % 4 == 0
        }),
{
    let reported = reported_stride(width, media_type_stride);
    if found.bytes_per_row != reported {
        if divides_evenly(height, reported, buffer_len) {
            lemma_fundamental_div_mod(buffer_len as int, height as int);
            let rows = found.bytes_per_row as int;
            assert(buffer_len == rows * height) by {
                lemma_mul_is_commutative(rows, height as int);
            }
            assert(rows > 0) by (nonlinear_arith)
                requires
                    buffer_len == rows * height,
                    buffer_len > reported * height,
                    rows >= reported,
                    reported >= 0,
                    rows != reported,
            ;
            lemma_mul_is_commutative(rows, height as int);
            lemma_mod_multiples_basic(height as int, rows);
        } else {
            let rows = buffer_len as int / found.bytes_per_row as int;
            assert(found.bytes_per_row > 0);
            lemma_fundamental_div_mod(buffer_len as int, found.bytes_per_row as int);
            assert(found.bytes_per_row * height <= found.bytes_per_row * rows) by (nonlinear_arith)
                requires
                    rows >= height,
                    found.bytes_per_row >= 0,
            ;
        }
    }
}

/// A packed size has the width in its upper half and the height in its lower.
pub proof fn law_packed_size_halves(width: u32, height: u32)
    ensures
        packed_size(width, height) / 0x1_0000_0000 == width,
        packed_size(width, height) % 0x1_0000_0000 == height,
{
}

/// The rows of a sample can be told apart where a row can be counted and the buffer is no longer
/// than the reported rows, or is a whole number of reported rows, or is the visible rows with so
/// many whole pixels each.
pub proof fn law_plain_buffers_have_rows(
    width: u32,
    height: u32,
    media_type_stride: BgraSampleStride,
    buffer_len: u32,
    result: Result<BgraSampleStride, StrideError>,
    row: u32,
)
    requires
        is_sample_stride(width, height, media_type_stride, buffer_len, result),
        4 * width <= u32::MAX,
        row >= 4 * width,
        row >= media_type_stride.bytes_per_row,
        row % 4 == 0,
        height > 0,
        buffer_len == row * height,
    ensures
        result is Ok,
        result matches Ok(found) && (found.bytes_per_row == row || buffer_len as int
            % found.bytes_per_row as int == 0),
{
    let reported = reported_stride(width, media_type_stride);
    lemma_mul_is_commutative(row as int, height as int);
    lemma_mod_multiples_basic(row as int, height as int);
    lemma_div_multiples_vanish(row as int, height as int);
    assert(buffer_len as int % height as int == 0);
    assert(buffer_len as int / height as int == row);
    if buffer_len <= reported * height && !(reported != 0 && buffer_len as int % reported == 0) {
        assert(row <= reported) by (nonlinear_arith)
            requires
                row * height <= reported * height,
                height > 0,
        ;
    }
}

/// A signed stride means the same distance of rows as the opposite one, from the other end; rows are
/// never shorter than their pixels, and as long as the stride where that is longer.
pub proof fn law_signed_strides(stride: i32, width: u32)
    requires
        stride != i32::MIN,
        4 * width <= u32::MAX,
    ensures
        signed_stride(stride, width) matches Ok(rows) && {
            &&& rows.rows_are_top_down <==> stride >= 0
            &&& rows.bytes_per_row >= 4 * width
            &&& rows.bytes_per_row >= stride && rows.bytes_per_row >= -stride
            &&& rows.bytes_per_row == 4 * width || rows.bytes_per_row == stride
                || rows.bytes_per_row == -stride
        },
        stride != 0 ==> (signed_stride((-stride) as i32, width) matches Ok(turned)
            && turned.bytes_per_row == signed_stride(stride, width)->Ok_0.bytes_per_row
            && turned.rows_are_top_down != signed_stride(stride, width)->Ok_0.rows_are_top_down),
{
}

/// Where a buffer is neither the reported rows nor evenly the visible ones, its rows are the shortest
/// that it can have: whole pixels, a whole number of them more than reported, that divide it into
/// enough rows. It is ambiguous only if there are none.
pub proof fn law_padded_buffers_have_the_shortest_rows(
    width: u32,
    height: u32,
    media_type_stride: BgraSampleStride,
    buffer_len: u32,
    result: Result<BgraSampleStride, StrideError>,
    row: u32,
)
    requires
        is_sample_stride(width, height, media_type_stride, buffer_len, result),
        4 * width <= u32::MAX,
        ({
            let reported = if media_type_stride.bytes_per_row >= 4 * width {
                media_type_stride.bytes_per_row as int
            } else {
                4 * width
            };
            &&& reported > 0
            &&& buffer_len > reported * height
            &&& buffer_len as int % reported != 0
            &&& !(height > 0 && buffer_len as int % height as int == 0 && (buffer_len as int
                / height as int) % 4 == 0)
            &&& row >= reported
            &&& (row - reported) % 4 == 0
        }),
        row % 4 == 0,
        buffer_len % row == 0,
        row * height <= buffer_len,
        buffer_len > 0,
    ensures
        result matches Ok(found) && found.bytes_per_row <= row,
{
    let reported = reported_stride(width, media_type_stride);
    let rows = buffer_len as int / row as int;
    lemma_fundamental_div_mod(buffer_len as int, row as int);
    assert(row > 0);
    assert(rows >= height) by (nonlinear_arith)
        requires
            row * height <= buffer_len,
            buffer_len == row * rows,
            row > 0,
    ;
    assert(rows >= 1) by (nonlinear_arith)
        requires
            buffer_len > 0,
            buffer_len == row * rows,
            row > 0,
    ;
    let least = larger(height as int, 1);
    assert(row <= buffer_len as int / least) by {
        assert(row * least <= buffer_len) by (nonlinear_arith)
            requires
                buffer_len == row * rows,
                rows >= least,
                row > 0,
        ;
        lemma_div_is_ordered(row * least, buffer_len as int, least);
        lemma_div_multiples_vanish(row as int, least);
        lemma_mul_is_commutative(row as int, least);
    }
    assert(row as int / 4 >= larger(width as int, reported / 4));
    assert(is_coded_stride(width, height, reported as u32, buffer_len, row as int));
}

} // verus!
