//! Converting BGRA frames to limited-range NV12 for an encoder.

use crate::fixed;
use crate::fixed::{clamp_u8, whole_part};
use crate::frame;
use vstd::arithmetic::div_mod::*;
use vstd::arithmetic::mul::*;
use vstd::prelude::*;

verus! {

/// Why a frame could not be converted.
#[derive(Debug, Clone, Copy, PartialEq, Eq, Structural)]
pub enum YuvError {
    PlaneOverflow,
    OffsetOverflow,
    FrameTooShort,
}

/// Limited-range luma of a colour.
pub open spec fn luma(r: u8, g: u8, b: u8) -> u8 {
    fixed::byte_clamped((66 * r + 129 * g + 25 * b + 128) / 256 + 16)
}

/// Limited-range blue-difference chroma of a colour.
pub open spec fn chroma_u(r: u8, g: u8, b: u8) -> u8 {
    fixed::byte_clamped((-38 * r - 74 * g + 112 * b + 128) / 256 + 128)
}

/// Limited-range red-difference chroma of a colour.
pub open spec fn chroma_v(r: u8, g: u8, b: u8) -> u8 {
    fixed::byte_clamped((112 * r - 94 * g - 18 * b + 128) / 256 + 128)
}

/// Converts a colour to limited-range luma and chroma.
pub fn rgb_to_yuv_limited(r: u8, g: u8, b: u8) -> (yuv: (u8, u8, u8))
    ensures
        yuv == (luma(r, g, b), chroma_u(r, g, b), chroma_v(r, g, b)),
{
    let r: i32 = r as i32;
    let g: i32 = g as i32;
    let b: i32 = b as i32;
    let y: i32 = whole_part(66 * r + 129 * g + 25 * b + 128) + 16;
    let u: i32 = whole_part(112 * b - 38 * r - 74 * g + 128) + 128;
    let v: i32 = whole_part(112 * r - 94 * g - 18 * b + 128) + 128;
    (clamp_u8(y), clamp_u8(u), clamp_u8(v))
}

/// Luma and chroma keep to the limited range, so that nothing is clipped.
pub proof fn law_limited_range(r: u8, g: u8, b: u8)
    ensures
        16 <= luma(r, g, b) <= 235,
        16 <= chroma_u(r, g, b) <= 240,
        16 <= chroma_v(r, g, b) <= 240,
{
}

/// A grey has no chroma.
pub proof fn law_grey_has_no_chroma(level: u8)
    ensures
        chroma_u(level, level, level) == 128,
        chroma_v(level, level, level) == 128,
{
}

/// A frame that waits to be encoded.
#[derive(Debug)]
pub struct PendingFrame {
    pub data: Vec<u8>,
    pub time_hns: i64,
    pub bytes_per_row: u32,
}

/// Where the pixel at `(x, y)` stands.
pub open spec fn pixel_at(bytes_per_row: u32, x: int, y: int) -> int {
    y * bytes_per_row + x * 4
}

/// What stands in the way of reading the pixel at `(x, y)`.
pub open spec fn pixel_check(len: nat, bytes_per_row: u32, x: int, y: int) -> Result<(), YuvError> {
    if pixel_at(bytes_per_row, x, y) > usize::MAX {
        Err(YuvError::OffsetOverflow)
    } else if pixel_at(bytes_per_row, x, y) >= len {
        Err(YuvError::FrameTooShort)
    } else {
        Ok(())
    }
}

/// No pixel is cut off behind its first byte.
pub open spec fn no_cut_pixel(len: nat, bytes_per_row: u32, width: u32, height: u32) -> bool {
    forall|x: int, y: int|
        0 <= x < width && 0 <= y < height && #[trigger] pixel_at(bytes_per_row, x, y) < len
            ==> pixel_at(bytes_per_row, x, y) + 2 < len
}

/// Red, green and blue of the pixel at `(x, y)`.
pub open spec fn rgb_at(data: Seq<u8>, bytes_per_row: u32, x: int, y: int) -> (u8, u8, u8) {
    let at = pixel_at(bytes_per_row, x, y);
    (data[at + 2], data[at + 1], data[at])
}

/// Reads red, green and blue of the pixel at `(x, y)`.
pub fn bgra_pixel(frame: &PendingFrame, x: usize, y: usize) -> (result: Result<
    (u8, u8, u8),
    YuvError,
>)
    requires
        pixel_at(frame.bytes_per_row, x as int, y as int) < frame.data@.len() ==> pixel_at(
            frame.bytes_per_row,
            x as int,
            y as int,
        ) + 2 < frame.data@.len(),
    ensures
        match (
            result,
            pixel_check(frame.data@.len(), frame.bytes_per_row, x as int, y as int),
        ) {
            (Ok(rgb), Ok(_)) => rgb == rgb_at(
                frame.data@,
                frame.bytes_per_row,
                x as int,
                y as int,
            ),
            (Err(error), Err(expected)) => error == expected,
            _ => false,
        },
{
    proof {
        lemma_mul_nonnegative(y as int, frame.bytes_per_row as int);
    }
    let row: usize = match y.checked_mul(frame.bytes_per_row as usize) {
        Some(row) => row,
        None => return Err(YuvError::OffsetOverflow),
    };
    let column: usize = match x.checked_mul(4) {
        Some(column) => column,
        None => return Err(YuvError::OffsetOverflow),
    };
    let offset: usize = match row.checked_add(column) {
        Some(offset) => offset,
        None => return Err(YuvError::OffsetOverflow),
    };
    let len: usize = frame.data.len();
    if offset >= len {
        return Err(YuvError::FrameTooShort);
    }
    Ok((frame.data[offset + 2], frame.data[offset + 1], frame.data[offset]))
}

/// The mean of a chroma over the four pixels that share it.
pub open spec fn shared_chroma(
    data: Seq<u8>,
    bytes_per_row: u32,
    x: int,
    y: int,
    red_difference: bool,
) -> u8 {
    let a = rgb_at(data, bytes_per_row, x, y);
    let b = rgb_at(data, bytes_per_row, x + 1, y);
    let c = rgb_at(data, bytes_per_row, x, y + 1);
    let d = rgb_at(data, bytes_per_row, x + 1, y + 1);
    if red_difference {
        ((chroma_v(a.0, a.1, a.2) + chroma_v(b.0, b.1, b.2) + chroma_v(c.0, c.1, c.2) + chroma_v(
            d.0,
            d.1,
            d.2,
        )) / 4) as u8
    } else {
        ((chroma_u(a.0, a.1, a.2) + chroma_u(b.0, b.1, b.2) + chroma_u(c.0, c.1, c.2) + chroma_u(
            d.0,
            d.1,
            d.2,
        )) / 4) as u8
    }
}

/// The luma at `at` of a converted frame.
pub open spec fn luma_byte(data: Seq<u8>, bytes_per_row: u32, width: u32, at: int) -> u8 {
    let rgb = rgb_at(data, bytes_per_row, at % (width as int), at / (width as int));
    luma(rgb.0, rgb.1, rgb.2)
}

/// The chroma at `at` of a converted frame's chroma plane: blue and red
/// difference in turn, one pair for each square of four pixels.
pub open spec fn chroma_byte(data: Seq<u8>, bytes_per_row: u32, width: u32, at: int) -> u8 {
    let column = at % (width as int);
    let row = at / (width as int);
    shared_chroma(data, bytes_per_row, (column / 2) * 2, row * 2, column % 2 == 1)
}

/// A frame in NV12: a plane of luma, and behind it one of chroma.
pub open spec fn nv12_bytes(data: Seq<u8>, bytes_per_row: u32, width: u32, height: u32) -> Seq<u8> {
    Seq::new((width * height) as nat, |at: int| luma_byte(data, bytes_per_row, width, at))
        + Seq::new(
        (width * height / 2) as nat,
        |at: int| chroma_byte(data, bytes_per_row, width, at),
    )
}

/// What a pixel in row-major order comes to.
pub open spec fn position_check(
    len: nat,
    bytes_per_row: u32,
    width: u32,
    position: int,
) -> Result<(), YuvError> {
    pixel_check(len, bytes_per_row, position % (width as int), position / (width as int))
}

/// What converting a frame comes to: it fails at the first pixel that cannot be
/// read.
pub open spec fn is_nv12_result(
    data: Seq<u8>,
    bytes_per_row: u32,
    width: u32,
    height: u32,
    result: Result<Seq<u8>, YuvError>,
) -> bool {
    let pixels = width * height;
    if pixels + pixels / 2 > usize::MAX {
        result == Err::<Seq<u8>, YuvError>(YuvError::PlaneOverflow)
    } else {
        match result {
            Ok(nv12) => {
                &&& forall|position: int|
                    0 <= position < pixels ==> #[trigger] position_check(
                        data.len(),
                        bytes_per_row,
                        width,
                        position,
                    ) is Ok
                &&& nv12 == nv12_bytes(data, bytes_per_row, width, height)
            },
            Err(error) => exists|position: int|
                0 <= position < pixels && #[trigger] position_check(
                    data.len(),
                    bytes_per_row,
                    width,
                    position,
                ) == Err::<(), YuvError>(error) && forall|earlier: int|
                    0 <= earlier < position ==> #[trigger] position_check(
                        data.len(),
                        bytes_per_row,
                        width,
                        earlier,
                    ) is Ok,
        }
    }
}

pub open spec fn nv12_view(result: Result<Vec<u8>, YuvError>) -> Result<Seq<u8>, YuvError> {
    match result {
        Ok(nv12) => Ok(nv12@),
        Err(error) => Err(error),
    }
}

/// Converts a frame of even width and height to NV12.
pub fn bgra_to_nv12(frame: &PendingFrame, width: u32, height: u32) -> (result: Result<
    Vec<u8>,
    YuvError,
>)
    requires
        width % 2 == 0,
        height % 2 == 0,
        no_cut_pixel(frame.data@.len(), frame.bytes_per_row, width, height),
    ensures
        is_nv12_result(frame.data@, frame.bytes_per_row, width, height, nv12_view(result)),
{
    proof {
        frame::lemma_u32_product(width, height);
    }
    let wide: u64 = width as u64 * height as u64;
    let total: u128 = wide as u128 + wide as u128 / 2;
    if total > usize::MAX as u128 {
        return Err(YuvError::PlaneOverflow);
    }
    let pixels: usize = wide as usize;
    let columns: usize = width as usize;
    let ghost data = frame.data@;
    let ghost row_len = frame.bytes_per_row;
    let ghost luma_at = |at: int| luma_byte(data, row_len, width, at);
    let mut nv12: Vec<u8> = Vec::with_capacity(total as usize);
    let mut at: usize = 0;
    while at < pixels
        invariant
            at <= pixels,
            pixels == width * height,
            pixels + pixels / 2 <= usize::MAX,
            columns == width,
            data == frame.data@,
            row_len == frame.bytes_per_row,
            luma_at == (|at: int| luma_byte(data, row_len, width, at)),
            no_cut_pixel(data.len(), row_len, width, height),
            forall|earlier: int|
                0 <= earlier < at ==> #[trigger] position_check(
                    data.len(),
                    row_len,
                    width,
                    earlier,
                ) is Ok,
            nv12@ == Seq::new(at as nat, luma_at),
        decreases pixels - at,
    {
        proof {
            lemma_position_in_grid(at as int, width as int, height as int);
        }
        let x: usize = at % columns;
        let y: usize = at / columns;
        assert(pixel_at(row_len, x as int, y as int) < data.len() ==> pixel_at(
            row_len,
            x as int,
            y as int,
        ) + 2 < data.len());
        assert(position_check(data.len(), row_len, width, at as int) == pixel_check(
            data.len(),
            row_len,
            x as int,
            y as int,
        ));
        let (r, g, b) = match bgra_pixel(frame, x, y) {
            Ok(rgb) => rgb,
            Err(error) => return Err(error),
        };
        let (yy, _, _) = rgb_to_yuv_limited(r, g, b);
        nv12.push(yy);
        assert(nv12@ =~= Seq::new((at + 1) as nat, luma_at));
        at = at + 1;
    }
    assert(all_readable(data.len(), row_len, width, height)) by {
        reveal(all_readable);
    }
    push_chroma_plane(frame, width, height, pixels / 2, &mut nv12);
    assert(nv12@ =~= nv12_bytes(data, row_len, width, height));
    Ok(nv12)
}

/// Every pixel can be read.
#[verifier::opaque]
spec fn all_readable(len: nat, bytes_per_row: u32, width: u32, height: u32) -> bool {
    forall|position: int|
        0 <= position < width * height ==> #[trigger] position_check(
            len,
            bytes_per_row,
            width,
            position,
        ) is Ok
}

/// Appends the chroma plane of a frame, of which every pixel can be read.
fn push_chroma_plane(
    frame: &PendingFrame,
    width: u32,
    height: u32,
    half: usize,
    nv12: &mut Vec<u8>,
)
    requires
        width % 2 == 0,
        height % 2 == 0,
        half == width * height / 2,
        no_cut_pixel(frame.data@.len(), frame.bytes_per_row, width, height),
        all_readable(frame.data@.len(), frame.bytes_per_row, width, height),
    ensures
        final(nv12)@ == old(nv12)@ + Seq::new(
            (width * height / 2) as nat,
            |at: int| chroma_byte(frame.data@, frame.bytes_per_row, width, at),
        ),
{
    let ghost plane = nv12@;
    let mut index: usize = 0;
    while index < half
        invariant
            index <= half,
            half == width * height / 2,
            width % 2 == 0,
            height % 2 == 0,
            no_cut_pixel(frame.data@.len(), frame.bytes_per_row, width, height),
            all_readable(frame.data@.len(), frame.bytes_per_row, width, height),
            index % 2 == 0,
            nv12@.len() == plane.len() + index,
            forall|i: int| 0 <= i < plane.len() ==> nv12@[i] == plane[i],
            forall|i: int|
                0 <= i < index ==> nv12@[plane.len() + i] == #[trigger] chroma_value(
                    frame.data@,
                    frame.bytes_per_row,
                    width,
                    i,
                ),
        decreases half - index,
    {
        proof {
            lemma_chroma_square(index as int, width as int, height as int);
        }
        let (u, v) = chroma_pair(frame, width, height, index);
        nv12.push(u);
        nv12.push(v);
        index = index + 2;
    }
    proof {
        let expected = plane + Seq::new(
            (width * height / 2) as nat,
            |at: int| chroma_byte(frame.data@, frame.bytes_per_row, width, at),
        );
        assert forall|i: int| 0 <= i < nv12@.len() implies nv12@[i] == expected[i] by {
            if i >= plane.len() {
                reveal(chroma_value);
                assert(nv12@[plane.len() + (i - plane.len())] == chroma_value(
                    frame.data@,
                    frame.bytes_per_row,
                    width,
                    i - plane.len(),
                ));
            }
        }
        assert(nv12@ =~= expected);
    }
}

#[verifier::opaque]
spec fn chroma_value(data: Seq<u8>, bytes_per_row: u32, width: u32, at: int) -> u8 {
    chroma_byte(data, bytes_per_row, width, at)
}

/// A pair of chroma bytes belongs to one square of pixels.
proof fn lemma_chroma_bytes(
    data: Seq<u8>,
    bytes_per_row: u32,
    width: u32,
    height: u32,
    at: int,
    x: int,
    y: int,
)
    requires
        0 <= at < width * height / 2,
        at % 2 == 0,
        width % 2 == 0,
        height % 2 == 0,
        x == at % (width as int),
        y == at / (width as int) * 2,
    ensures
        chroma_byte(data, bytes_per_row, width, at) == shared_chroma(
            data,
            bytes_per_row,
            x,
            y,
            false,
        ),
        chroma_byte(data, bytes_per_row, width, at + 1) == shared_chroma(
            data,
            bytes_per_row,
            x,
            y,
            true,
        ),
{
    lemma_chroma_square(at, width as int, height as int);
    assert((x / 2) * 2 == x && x % 2 == 0);
    assert(((x + 1) / 2) * 2 == x && (x + 1) % 2 == 1);
}

proof fn lemma_position_in_grid(position: int, width: int, height: int)
    requires
        0 <= position < width * height,
        0 <= width,
        0 <= height,
    ensures
        0 < width,
        0 <= position % width < width,
        0 <= position / width < height,
{
    assert(width > 0) by (nonlinear_arith)
        requires
            0 <= position < width * height,
            0 <= width,
    ;
    lemma_fundamental_div_mod(position, width);
    lemma_mod_bound(position, width);
    let row = position / width;
    assert(0 <= row < height) by (nonlinear_arith)
        requires
            position == width * row + position % width,
            0 <= position < width * height,
            0 <= position % width < width,
            0 < width,
    ;
}

/// The even position of a chroma pair names the top left of a square of pixels
/// that all lie in the frame.
proof fn lemma_chroma_square(at: int, width: int, height: int)
    requires
        0 <= at < width * height / 2,
        at % 2 == 0,
        width % 2 == 0,
        height % 2 == 0,
        0 <= width,
        0 <= height,
    ensures
        0 < width,
        0 <= at % width,
        at % width % 2 == 0,
        at % width + 1 < width,
        0 <= at / width,
        at / width * 2 + 1 < height,
        (at + 1) % width == at % width + 1,
        (at + 1) / width == at / width,
        at + 1 < width * height / 2,
{
    let half = height / 2;
    assert(width * height / 2 == width * half) by (nonlinear_arith)
        requires
            height == 2 * half,
    ;
    lemma_position_in_grid(at, width, half);
    let x = at % width;
    let y = at / width;
    lemma_fundamental_div_mod(at, width);
    let wide = width / 2;
    assert(x % 2 == 0) by {
        assert(width * y == 2 * (wide * y)) by (nonlinear_arith)
            requires
                width == 2 * wide,
        ;
        assert(x == at - 2 * (wide * y));
    }
    assert(x + 1 < width);
    assert(at + 1 == y * width + (x + 1)) by (nonlinear_arith)
        requires
            at == width * y + x,
    ;
    frame::lemma_flat_position(x + 1, y, width);
    assert(at + 1 < width * half) by (nonlinear_arith)
        requires
            at == width * y + x,
            x + 1 < width,
            y < half,
            0 < width,
    ;
}

proof fn lemma_pixel_is_there(
    len: nat,
    bytes_per_row: u32,
    width: u32,
    height: u32,
    x: int,
    y: int,
)
    requires
        0 <= x < width,
        0 <= y < height,
        all_readable(len, bytes_per_row, width, height),
    ensures
        pixel_check(len, bytes_per_row, x, y) is Ok,
{
    reveal(all_readable);
    let position = y * width + x;
    frame::lemma_flat_position(x, y, width as int);
    assert(0 <= position < width * height) by (nonlinear_arith)
        requires
            position == y * width + x,
            0 <= x < width,
            0 <= y < height,
    ;
    assert(position_check(len, bytes_per_row, width, position) is Ok);
}

fn chroma_of(frame: &PendingFrame, x: usize, y: usize) -> (chroma: (u8, u8))
    requires
        pixel_check(frame.data@.len(), frame.bytes_per_row, x as int, y as int) is Ok,
        pixel_at(frame.bytes_per_row, x as int, y as int) + 2 < frame.data@.len(),
    ensures
        ({
            let rgb = rgb_at(frame.data@, frame.bytes_per_row, x as int, y as int);
            chroma == (chroma_u(rgb.0, rgb.1, rgb.2), chroma_v(rgb.0, rgb.1, rgb.2))
        }),
{
    match bgra_pixel(frame, x, y) {
        Ok((r, g, b)) => {
            let (_, u, v) = rgb_to_yuv_limited(r, g, b);
            (u, v)
        },
        Err(_) => (128, 128),
    }
}

/// The chroma of the square of pixels that a pair of chroma bytes belongs to.
fn chroma_pair(frame: &PendingFrame, width: u32, height: u32, at: usize) -> (pair: (u8, u8))
    requires
        at < width * height / 2,
        at % 2 == 0,
        width % 2 == 0,
        height % 2 == 0,
        no_cut_pixel(frame.data@.len(), frame.bytes_per_row, width, height),
        all_readable(frame.data@.len(), frame.bytes_per_row, width, height),
    ensures
        pair.0 == chroma_value(frame.data@, frame.bytes_per_row, width, at as int),
        pair.1 == chroma_value(frame.data@, frame.bytes_per_row, width, at + 1),
{
    proof {
        lemma_chroma_square(at as int, width as int, height as int);
    }
    let columns: usize = width as usize;
    let x: usize = at % columns;
    let y: usize = (at / columns) * 2;
    proof {
        let len = frame.data@.len();
        let row_len = frame.bytes_per_row;
        lemma_pixel_is_there(len, row_len, width, height, x as int, y as int);
        lemma_pixel_is_there(len, row_len, width, height, x + 1, y as int);
        lemma_pixel_is_there(len, row_len, width, height, x as int, y + 1);
        lemma_pixel_is_there(len, row_len, width, height, x + 1, y + 1);
        reveal(chroma_value);
        lemma_chroma_bytes(
            frame.data@,
            row_len,
            width,
            height,
            at as int,
            x as int,
            y as int,
        );
    }
    let (u0, v0) = chroma_of(frame, x, y);
    let (u1, v1) = chroma_of(frame, x + 1, y);
    let (u2, v2) = chroma_of(frame, x, y + 1);
    let (u3, v3) = chroma_of(frame, x + 1, y + 1);
    let u: u32 = (u0 as u32 + u1 as u32 + u2 as u32 + u3 as u32) / 4;
    let v: u32 = (v0 as u32 + v1 as u32 + v2 as u32 + v3 as u32) / 4;
    (u as u8, v as u8)
}

/// Luma and chroma are linear in the colour, in 256ths and rounded to the nearest: luma
/// counts from 16, chroma from 128, and the weights of each chroma come to nothing.
pub proof fn law_luma_and_chroma_are_linear(r: u8, g: u8, b: u8)
    ensures
        -128 <= 66 * r + 129 * g + 25 * b - 256 * (luma(r, g, b) - 16) < 128,
        -128 <= 112 * b - 38 * r - 74 * g - 256 * (chroma_u(r, g, b) - 128) < 128,
        -128 <= 112 * r - 94 * g - 18 * b - 256 * (chroma_v(r, g, b) - 128) < 128,
{
}

/// An NV12 frame has the luma of each pixel in its place, row by row.
pub proof fn law_luma_plane_shows_the_frame(
    data: Seq<u8>,
    bytes_per_row: u32,
    width: u32,
    height: u32,
    nv12: Seq<u8>,
    x: int,
    y: int,
)
    requires
        is_nv12_result(data, bytes_per_row, width, height, Ok(nv12)),
        0 <= x < width,
        0 <= y < height,
    ensures
        nv12.len() == width * height + width * height / 2,
        ({
            let at = y * bytes_per_row + 4 * x;
            &&& 0 <= at < data.len()
            &&& nv12[y * width + x] == luma(data[at + 2], data[at + 1], data[at])
        }),
{
    let position = y * width + x;
    frame::lemma_flat_position(x, y, width as int);
    assert(0 <= position < width * height) by (nonlinear_arith)
        requires
            position == y * width + x,
            0 <= x < width,
            0 <= y < height,
    ;
    assert(position_check(data.len(), bytes_per_row, width, position) is Ok);
    lemma_mul_nonnegative(y, bytes_per_row as int);
}

/// Behind the luma an NV12 frame has the chroma of each square of four pixels, row by row:
/// the mean of their blue differences and then that of their red differences.
pub proof fn law_chroma_plane_shows_the_frame(
    data: Seq<u8>,
    bytes_per_row: u32,
    width: u32,
    height: u32,
    nv12: Seq<u8>,
    x: int,
    y: int,
)
    requires
        is_nv12_result(data, bytes_per_row, width, height, Ok(nv12)),
        width % 2 == 0,
        height % 2 == 0,
        0 <= 2 * x < width,
        0 <= 2 * y < height,
    ensures
        ({
            let above = 2 * y * bytes_per_row + 8 * x;
            let below = (2 * y + 1) * bytes_per_row + 8 * x;
            let at = width * height + y * width + 2 * x;
            &&& nv12[at] == (chroma_u(data[above + 2], data[above + 1], data[above]) + chroma_u(
                data[above + 6],
                data[above + 5],
                data[above + 4],
            ) + chroma_u(data[below + 2], data[below + 1], data[below]) + chroma_u(
                data[below + 6],
                data[below + 5],
                data[below + 4],
            )) / 4
            &&& nv12[at + 1] == (chroma_v(data[above + 2], data[above + 1], data[above]) + chroma_v(
                data[above + 6],
                data[above + 5],
                data[above + 4],
            ) + chroma_v(data[below + 2], data[below + 1], data[below]) + chroma_v(
                data[below + 6],
                data[below + 5],
                data[below + 4],
            )) / 4
        }),
{
    let pixels = width * height;
    let first = y * width + 2 * x;
    assert(2 * x + 1 < width);
    frame::lemma_flat_position(2 * x, y, width as int);
    frame::lemma_flat_position(2 * x + 1, y, width as int);
    let half = height as int / 2;
    assert(pixels == 2 * (width * half)) by (nonlinear_arith)
        requires
            pixels == width * height,
            height == 2 * half,
    ;
    assert(0 <= first && first + 1 < width * half) by (nonlinear_arith)
        requires
            first == y * width + 2 * x,
            0 <= 2 * x,
            2 * x + 1 < width,
            0 <= y < half,
    ;
    assert((2 * x) % 2 == 0 && (2 * x) / 2 * 2 == 2 * x && (2 * x + 1) % 2 == 1 && (2 * x + 1) / 2 * 2
        == 2 * x);
    assert(chroma_byte(data, bytes_per_row, width, first) == shared_chroma(
        data,
        bytes_per_row,
        2 * x,
        y * 2,
        false,
    ));
    assert(chroma_byte(data, bytes_per_row, width, first + 1) == shared_chroma(
        data,
        bytes_per_row,
        2 * x,
        y * 2,
        true,
    ));
}

/// A frame whose bytes hold all its rows can be converted, where its planes can be counted.
pub proof fn law_whole_frames_are_converted(
    data: Seq<u8>,
    bytes_per_row: u32,
    width: u32,
    height: u32,
    result: Result<Seq<u8>, YuvError>,
)
    requires
        is_nv12_result(data, bytes_per_row, width, height, result),
        width > 0,
        height > 0,
        (height - 1) * bytes_per_row + 4 * width <= data.len() <= usize::MAX,
        width * height + width * height / 2 <= usize::MAX,
    ensures
        result is Ok,
{
    if let Err(error) = result {
        let position = choose|position: int|
            0 <= position < width * height && #[trigger] position_check(
                data.len(),
                bytes_per_row,
                width,
                position,
            ) == Err::<(), YuvError>(error);
        let x = position % (width as int);
        let y = position / (width as int);
        lemma_fundamental_div_mod(position, width as int);
        lemma_mod_bound(position, width as int);
        assert(0 <= y < height) by (nonlinear_arith)
            requires
                position == width * y + x,
                0 <= position < width * height,
                0 <= x < width,
        ;
        assert(0 <= y * bytes_per_row <= (height - 1) * bytes_per_row) by (nonlinear_arith)
            requires
                0 <= y <= height - 1,
                bytes_per_row >= 0,
        ;
    }
}

} // verus!
