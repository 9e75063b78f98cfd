//! Limited-range NV12 samples: what they have to look like, and their
//! conversion to BGRA, at their own size or resized on the way.
//!
//! What is computed with single-precision numbers is handed in: `place` finds a
//! target's place in a source, and `blend` weighs the four bytes round that
//! place.

use crate::decoder::surface;
use crate::decoder::surface::SurfaceError;
use crate::encoder::yuv;
use crate::fixed;
use crate::fixed::{clamp_u8, whole_part};
use crate::frame;
use crate::frame::{FrameError, MediaTime, VideoFrame};
use crate::sampling;
use crate::sampling::{sample_coordinates, SampleCoordinate};
use vstd::arithmetic::div_mod::*;
use vstd::arithmetic::mul::*;
use vstd::prelude::*;

verus! {

/// Why a sample could not be used as NV12.
#[derive(Debug, Clone, Copy, PartialEq, Eq, Structural)]
pub enum Nv12Error {
    InvalidLayout,
    PlaneOverflow,
    BufferOverflow,
    BufferTooShort { len: usize, required: usize },
    ZeroOutput,
    OutputRowOverflow,
    OutputSizeOverflow,
    Frame(FrameError),
    PanScan,
    InvalidAperture,
    NeedsCropping,
    MissingAttribute,
    NotNv12,
    NotProgressive { mode: u32 },
    NotLimitedRange,
    UnsupportedMatrix { value: u32 },
    UnsupportedDimensions,
    Interlaced,
}

/// How luma and chroma make colours.
#[derive(Debug, Clone, Copy, PartialEq, Eq, Structural)]
pub enum Matrix {
    Bt601,
    Bt709,
}

impl Matrix {
    /// How much red takes of V, green of U and of V, and blue of U, in 256ths.
    pub open spec fn spec_coefficients(self) -> Seq<i32> {
        match self {
            Matrix::Bt601 => seq![409, 100, 208, 516],
            Matrix::Bt709 => seq![459, 55, 136, 541],
        }
    }

    pub fn coefficients(self) -> (coefficients: [i32; 4])
        ensures
            coefficients@ == self.spec_coefficients(),
    {
        let coefficients: [i32; 4] = match self {
            Matrix::Bt601 => [409, 100, 208, 516],
            Matrix::Bt709 => [459, 55, 136, 541],
        };
        assert(coefficients@ =~= self.spec_coefficients());
        coefficients
    }
}

/// Where the planes of an NV12 sample lie.
#[derive(Debug, Clone, Copy, PartialEq, Eq, Structural)]
pub struct Layout {
    pub stride: usize,
    pub coded_height: usize,
    pub width: u32,
    pub height: u32,
    pub matrix: Matrix,
    pub mixed_interlace: bool,
}

impl Layout {
    /// Rows and planes are even and hold the visible picture.
    pub open spec fn is_valid(self) -> bool {
        &&& self.width > 0
        &&& self.height > 0
        &&& self.stride >= self.width
        &&& self.stride % 2 == 0
        &&& self.coded_height % 2 == 0
        &&& self.coded_height >= self.height
    }

    /// Where the chroma plane starts.
    pub open spec fn chroma_start(self) -> int {
        self.stride * self.coded_height
    }

    /// What a buffer of `len` bytes is worth: where its chroma plane starts.
    pub open spec fn check(self, len: usize) -> Result<usize, Nv12Error> {
        let chroma = self.chroma_start();
        let required = chroma + chroma / 2;
        if !self.is_valid() {
            Err(Nv12Error::InvalidLayout)
        } else if chroma > usize::MAX {
            Err(Nv12Error::PlaneOverflow)
        } else if required > usize::MAX {
            Err(Nv12Error::BufferOverflow)
        } else if len < required {
            Err(Nv12Error::BufferTooShort { len, required: required as usize })
        } else {
            Ok(chroma as usize)
        }
    }

    /// Checks that a buffer of `len` bytes holds the sample, and finds its
    /// chroma plane.
    pub fn validate(self, len: usize) -> (result: Result<usize, Nv12Error>)
        ensures
            result == self.check(len),
    {
        if self.width == 0 || self.height == 0 || self.stride < self.width as usize || self.stride
            % 2 != 0 || self.coded_height % 2 != 0 || self.coded_height < self.height as usize {
            return Err(Nv12Error::InvalidLayout);
        }
        proof {
            lemma_mul_nonnegative(self.stride as int, self.coded_height as int);
        }
        let chroma: usize = match self.stride.checked_mul(self.coded_height) {
            Some(chroma) => chroma,
            None => return Err(Nv12Error::PlaneOverflow),
        };
        let required: usize = match chroma.checked_add(chroma / 2) {
            Some(required) => required,
            None => return Err(Nv12Error::BufferOverflow),
        };
        if len < required {
            return Err(Nv12Error::BufferTooShort { len, required });
        }
        Ok(chroma)
    }
}

/// Luma scaled to 256ths, with a half for rounding.
pub open spec fn scaled_luma(y: u8) -> int {
    298 * (y - 16) + 128
}

/// Blue, green, red and opaque alpha of one pixel: limited-range luma and
/// chroma in 256ths, rounded down and clipped.
pub open spec fn converted(y: u8, u: u8, v: u8, coefficients: Seq<i32>) -> Seq<u8> {
    let luma = scaled_luma(y);
    seq![
        fixed::byte_clamped((luma + coefficients[3] * (u - 128)) / 256),
        fixed::byte_clamped((luma - coefficients[1] * (u - 128) - coefficients[2] * (v - 128)) / 256),
        fixed::byte_clamped((luma + coefficients[0] * (v - 128)) / 256),
        255u8,
    ]
}

pub open spec fn fits_i32(value: int) -> bool {
    i32::MIN <= value <= i32::MAX
}

/// No step of a conversion leaves the range of its numbers.
pub open spec fn conversion_fits(y: u8, u: u8, v: u8, coefficients: Seq<i32>) -> bool {
    let luma = scaled_luma(y);
    let red = coefficients[0] * (v - 128);
    let green_u = coefficients[1] * (u - 128);
    let green_v = coefficients[2] * (v - 128);
    let blue = coefficients[3] * (u - 128);
    &&& fits_i32(red) && fits_i32(green_u) && fits_i32(green_v) && fits_i32(blue)
    &&& fits_i32(luma + blue) && fits_i32(luma - green_u) && fits_i32(luma - green_u - green_v)
    &&& fits_i32(luma + red)
}

/// Converts one pixel.
pub fn convert(y: u8, u: u8, v: u8, coefficients: [i32; 4]) -> (pixel: [u8; 4])
    requires
        conversion_fits(y, u, v, coefficients@),
    ensures
        pixel@ == converted(y, u, v, coefficients@),
{
    let luma: i32 = 298 * (y as i32 - 16) + 128;
    let u: i32 = u as i32 - 128;
    let v: i32 = v as i32 - 128;
    let pixel: [u8; 4] = [
        clamp_u8(whole_part(luma + coefficients[3] * u)),
        clamp_u8(whole_part(luma - coefficients[1] * u - coefficients[2] * v)),
        clamp_u8(whole_part(luma + coefficients[0] * v)),
        255,
    ];
    pixel
}

/// The coefficients of both matrices stay in range for every pixel.
pub proof fn law_matrices_fit(matrix: Matrix, y: u8, u: u8, v: u8)
    ensures
        conversion_fits(y, u, v, matrix.spec_coefficients()),
{
}

/// Without chroma a pixel is grey, whatever the coefficients.
pub proof fn law_neutral_chroma_is_grey(y: u8, coefficients: Seq<i32>)
    ensures
        ({
            let grey = fixed::byte_clamped(scaled_luma(y) / 256);
            converted(y, 128, 128, coefficients) == seq![grey, grey, grey, 255u8]
        }),
{
}

/// Where the luma of the pixel at `(x, y)` stands.
pub open spec fn luma_position(layout: Layout, x: int, y: int) -> int {
    y * layout.stride + x
}

/// Where the chroma of the pixel at `(x, y)` stands, which four pixels share.
pub open spec fn chroma_position(layout: Layout, x: int, y: int) -> int {
    layout.chroma_start() + (y / 2) * layout.stride + (x / 2) * 2
}

/// The pixel at `(x, y)` of an NV12 sample.
pub open spec fn nv12_pixel(source: Seq<u8>, layout: Layout, coefficients: Seq<i32>, x: int, y: int) -> Seq<
    u8,
> {
    let chroma = chroma_position(layout, x, y);
    converted(
        source[luma_position(layout, x, y)],
        source[chroma],
        source[chroma + 1],
        coefficients,
    )
}

proof fn lemma_planes_hold_pixel(layout: Layout, len: int, x: int, y: int)
    requires
        layout.is_valid(),
        0 <= x < layout.width,
        0 <= y < layout.height,
        layout.chroma_start() + layout.chroma_start() / 2 <= len,
    ensures
        0 <= luma_position(layout, x, y) < len,
        0 <= y * layout.stride,
        0 <= (y / 2) * layout.stride,
        0 <= layout.chroma_start(),
        layout.chroma_start() <= chroma_position(layout, x, y),
        chroma_position(layout, x, y) + 1 < len,
{
    let stride = layout.stride as int;
    let rows = layout.coded_height as int;
    assert(y * stride + x < stride * rows) by (nonlinear_arith)
        requires
            0 <= x < stride,
            0 <= y < rows,
    ;
    assert(0 <= y * stride) by (nonlinear_arith)
        requires
            0 <= y,
            0 <= stride,
    ;
    assert(0 <= (y / 2) * stride) by (nonlinear_arith)
        requires
            0 <= y,
            0 <= stride,
    ;
    let half = rows / 2;
    assert(stride * rows == 2 * (stride * half)) by (nonlinear_arith)
        requires
            rows == 2 * half,
    ;
    assert((y / 2) * stride + stride <= stride * half) by (nonlinear_arith)
        requires
            y / 2 < half,
            0 <= stride,
    ;
    assert((x / 2) * 2 + 1 < stride);
}

/// The byte at `at` of a converted frame of the sample's own size.
pub open spec fn converted_byte(source: Seq<u8>, layout: Layout, coefficients: Seq<i32>, at: int) -> u8 {
    let width = layout.width as int;
    nv12_pixel(source, layout, coefficients, (at / 4) % width, (at / 4) / width)[at % 4]
}

/// Converts the pixel at `(x, y)` of a sample.
pub fn convert_pixel(
    source: &[u8],
    layout: Layout,
    uv_offset: usize,
    coefficients: [i32; 4],
    x: usize,
    y: usize,
) -> (pixel: [u8; 4])
    requires
        layout.check(source@.len() as usize) == Ok::<usize, Nv12Error>(uv_offset),
        source@.len() <= usize::MAX,
        x < layout.width,
        y < layout.height,
        forall|luma: u8, u: u8, v: u8| conversion_fits(luma, u, v, coefficients@),
    ensures
        pixel@ == nv12_pixel(source@, layout, coefficients@, x as int, y as int),
{
    proof {
        lemma_planes_hold_pixel(layout, source@.len() as int, x as int, y as int);
    }
    let luma: u8 = source[y * layout.stride + x];
    let chroma: usize = uv_offset + (y / 2) * layout.stride + (x / 2) * 2;
    assert(conversion_fits(
        luma,
        source@[chroma as int],
        source@[chroma + 1],
        coefficients@,
    ));
    convert(luma, source[chroma], source[chroma + 1], coefficients)
}

/// Converts a sample at its own size, row by row without padding.
pub fn convert_frame(
    source: &[u8],
    layout: Layout,
    uv_offset: usize,
    coefficients: [i32; 4],
) -> (data: Vec<u8>)
    requires
        layout.check(source@.len() as usize) == Ok::<usize, Nv12Error>(uv_offset),
        source@.len() <= usize::MAX,
        layout.width * layout.height * 4 <= usize::MAX,
        forall|luma: u8, u: u8, v: u8| conversion_fits(luma, u, v, coefficients@),
    ensures
        data@ == Seq::new(
            (layout.width * layout.height * 4) as nat,
            |at: int| converted_byte(source@, layout, coefficients@, at),
        ),
{
    proof {
        frame::lemma_u32_product(layout.width, layout.height);
    }
    let pixels: usize = (layout.width as u64 * layout.height as u64) as usize;
    let columns: usize = layout.width as usize;
    let mut data: Vec<u8> = Vec::with_capacity(pixels * 4);
    let mut at: usize = 0;
    while at < pixels
        invariant
            at <= pixels,
            pixels == layout.width * layout.height,
            pixels * 4 <= usize::MAX,
            columns == layout.width,
            columns > 0,
            layout.check(source@.len() as usize) == Ok::<usize, Nv12Error>(uv_offset),
            source@.len() <= usize::MAX,
            forall|luma: u8, u: u8, v: u8| conversion_fits(luma, u, v, coefficients@),
            data@ == Seq::new(
                (at * 4) as nat,
                |at: int| converted_byte(source@, layout, coefficients@, at),
            ),
        decreases pixels - at,
    {
        let x: usize = at % columns;
        let y: usize = at / columns;
        proof {
            lemma_fundamental_div_mod(at as int, columns as int);
            assert(y < layout.height) by (nonlinear_arith)
                requires
                    at == columns * y + x,
                    at < columns * layout.height,
                    0 <= x,
            ;
        }
        let pixel: [u8; 4] = convert_pixel(source, layout, uv_offset, coefficients, x, y);
        data.push(pixel[0]);
        data.push(pixel[1]);
        data.push(pixel[2]);
        data.push(pixel[3]);
        assert(data@ =~= Seq::new(
            ((at + 1) * 4) as nat,
            |at: int| converted_byte(source@, layout, coefficients@, at),
        ));
        at = at + 1;
    }
    data
}

/// One half as a single-precision number, by its bits.
pub const HALF_WEIGHT: u32 = 0x3f00_0000;

/// Every row and column lies halfway between two of the source.
pub open spec fn all_halfway(xs: Seq<SampleCoordinate>, ys: Seq<SampleCoordinate>) -> bool {
    &&& forall|i: int| 0 <= i < xs.len() ==> (#[trigger] xs[i]).weight == HALF_WEIGHT
    &&& forall|i: int| 0 <= i < ys.len() ==> (#[trigger] ys[i]).weight == HALF_WEIGHT
}

fn are_halfway(coordinates: &Vec<SampleCoordinate>) -> (halfway: bool)
    ensures
        halfway == forall|i: int|
            0 <= i < coordinates@.len() ==> (#[trigger] coordinates@[i]).weight == HALF_WEIGHT,
{
    let mut at: usize = 0;
    while at < coordinates.len()
        invariant
            at <= coordinates@.len(),
            forall|i: int| 0 <= i < at ==> (#[trigger] coordinates@[i]).weight == HALF_WEIGHT,
        decreases coordinates@.len() - at,
    {
        if coordinates[at].weight != HALF_WEIGHT {
            assert(coordinates@[at as int].weight != HALF_WEIGHT);
            return false;
        }
        at = at + 1;
    }
    true
}

/// A channel of four converted pixels round a place, weighed: their rounded
/// mean where everything lies halfway.
pub open spec fn is_weighed<B: Fn(u8, u8, u8, u8, u32, u32) -> u8>(
    blend: B,
    source: Seq<u8>,
    layout: Layout,
    halfway: bool,
    x: SampleCoordinate,
    y: SampleCoordinate,
    channel: int,
    byte: u8,
) -> bool {
    let coefficients = layout.matrix.spec_coefficients();
    let a = nv12_pixel(source, layout, coefficients, x.lower as int, y.lower as int)[channel];
    let b = nv12_pixel(source, layout, coefficients, x.upper as int, y.lower as int)[channel];
    let c = nv12_pixel(source, layout, coefficients, x.lower as int, y.upper as int)[channel];
    let d = nv12_pixel(source, layout, coefficients, x.upper as int, y.upper as int)[channel];
    if channel == 3 {
        byte == 255
    } else if halfway {
        byte == (a + b + c + d + 2) / 4
    } else {
        call_ensures(blend, (a, b, c, d, x.weight, y.weight), byte)
    }
}

/// What a converted and resized frame's bytes are, where `xs` and `ys` say
/// where its columns and rows lie in the sample.
pub open spec fn is_converted_resized<B: Fn(u8, u8, u8, u8, u32, u32) -> u8>(
    blend: B,
    source: Seq<u8>,
    layout: Layout,
    width: u32,
    xs: Seq<SampleCoordinate>,
    ys: Seq<SampleCoordinate>,
    data: Seq<u8>,
) -> bool {
    forall|at: int|
        0 <= at < data.len() ==> is_weighed(
            blend,
            source,
            layout,
            all_halfway(xs, ys),
            xs[(at / 4) % (width as int)],
            ys[(at / 4) / (width as int)],
            at % 4,
            #[trigger] data[at],
        )
}

/// What stands in the way of converting a sample to this size.
pub open spec fn conversion_check(layout: Layout, len: usize, width: u32, height: u32) -> Result<
    (),
    Nv12Error,
> {
    match layout.check(len) {
        Err(error) => Err(error),
        Ok(_) => if width == 0 || height == 0 {
            Err(Nv12Error::ZeroOutput)
        } else if width * 4 > u32::MAX {
            Err(Nv12Error::OutputRowOverflow)
        } else if width * 4 * height > usize::MAX {
            Err(Nv12Error::OutputSizeOverflow)
        } else {
            Ok(())
        },
    }
}

/// The bytes that a conversion to this size may give.
pub open spec fn are_converted_bytes<
    B: Fn(u8, u8, u8, u8, u32, u32) -> u8,
    P: Fn(usize, usize, usize) -> (usize, u32),
>(
    blend: B,
    place: P,
    source: Seq<u8>,
    layout: Layout,
    width: u32,
    height: u32,
    data: Seq<u8>,
) -> bool {
    if width == layout.width && height == layout.height {
        data == Seq::new(
            (width * height * 4) as nat,
            |at: int| converted_byte(source, layout, layout.matrix.spec_coefficients(), at),
        )
    } else {
        exists|xs: Seq<SampleCoordinate>, ys: Seq<SampleCoordinate>| #[trigger]
            is_converted_resized(blend, source, layout, width, xs, ys, data)
                && sampling::are_coordinates(place, width as usize, layout.width as usize, xs)
                && sampling::are_coordinates(place, height as usize, layout.height as usize, ys)
    }
}

/// What converting a sample to this size comes to.
pub open spec fn is_conversion<
    B: Fn(u8, u8, u8, u8, u32, u32) -> u8,
    P: Fn(usize, usize, usize) -> (usize, u32),
>(
    blend: B,
    place: P,
    source: Seq<u8>,
    layout: Layout,
    width: u32,
    height: u32,
    time: MediaTime,
    result: Result<VideoFrame, Nv12Error>,
) -> bool {
    match (result, conversion_check(layout, source.len() as usize, width, height)) {
        (Ok(frame), Ok(_)) => {
            &&& frame.wf()
            &&& frame.is_compact()
            &&& frame.width == width
            &&& frame.height == height
            &&& frame.time == time
            &&& are_converted_bytes(blend, place, source, layout, width, height, frame.data@)
        },
        (Err(error), Err(expected)) => error == expected,
        _ => false,
    }
}

fn weigh<B: Fn(u8, u8, u8, u8, u32, u32) -> u8>(
    corners: [u8; 4],
    halfway: bool,
    across: u32,
    down: u32,
    blend: &B,
) -> (byte: u8)
    requires
        forall|a: u8, b: u8, c: u8, d: u8, across: u32, down: u32|
            call_requires(*blend, (a, b, c, d, across, down)),
    ensures
        if halfway {
            byte == (corners@[0] + corners@[1] + corners@[2] + corners@[3] + 2) / 4
        } else {
            call_ensures(
                *blend,
                (corners@[0], corners@[1], corners@[2], corners@[3], across, down),
                byte,
            )
        },
{
    if halfway {
        let sum: u16 = corners[0] as u16 + corners[1] as u16 + corners[2] as u16 + corners[3] as u16
            + 2;
        (sum / 4) as u8
    } else {
        blend(corners[0], corners[1], corners[2], corners[3], across, down)
    }
}

/// Converts a sample to BGRA at the size that is asked for.
pub fn to_bgra<B: Fn(u8, u8, u8, u8, u32, u32) -> u8, P: Fn(usize, usize, usize) -> (usize, u32)>(
    source: &[u8],
    layout: Layout,
    width: u32,
    height: u32,
    time: MediaTime,
    blend: &B,
    place: &P,
) -> (result: Result<VideoFrame, Nv12Error>)
    requires
        forall|a: u8, b: u8, c: u8, d: u8, across: u32, down: u32|
            call_requires(*blend, (a, b, c, d, across, down)),
        sampling::places_within(*place),
    ensures
        is_conversion(*blend, *place, source@, layout, width, height, time, result),
{
    let len: usize = source.len();
    let uv_offset: usize = match layout.validate(len) {
        Ok(uv_offset) => uv_offset,
        Err(error) => return Err(error),
    };
    if width == 0 || height == 0 {
        return Err(Nv12Error::ZeroOutput);
    }
    let bytes_per_row: u32 = match width.checked_mul(4) {
        Some(bytes_per_row) => bytes_per_row,
        None => return Err(Nv12Error::OutputRowOverflow),
    };
    proof {
        frame::lemma_u32_product(bytes_per_row, height);
        assert(width * 4 * height == width * height * 4) by (nonlinear_arith);
        assert forall|luma: u8, u: u8, v: u8| conversion_fits(
            luma,
            u,
            v,
            layout.matrix.spec_coefficients(),
        ) by {
            law_matrices_fit(layout.matrix, luma, u, v);
        }
    }
    if bytes_per_row as u64 * height as u64 > usize::MAX as u64 {
        return Err(Nv12Error::OutputSizeOverflow);
    }
    let coefficients: [i32; 4] = layout.matrix.coefficients();
    let data: Vec<u8> = if width == layout.width && height == layout.height {
        convert_frame(source, layout, uv_offset, coefficients)
    } else {
        convert_resized(source, layout, uv_offset, coefficients, width, height, blend, place)
    };
    match VideoFrame::new_bgra(width, height, bytes_per_row, time, data) {
        Ok(frame) => Ok(frame),
        Err(error) => Err(Nv12Error::Frame(error)),
    }
}

fn convert_resized<
    B: Fn(u8, u8, u8, u8, u32, u32) -> u8,
    P: Fn(usize, usize, usize) -> (usize, u32),
>(
    source: &[u8],
    layout: Layout,
    uv_offset: usize,
    coefficients: [i32; 4],
    width: u32,
    height: u32,
    blend: &B,
    place: &P,
) -> (data: Vec<u8>)
    requires
        layout.check(source@.len() as usize) == Ok::<usize, Nv12Error>(uv_offset),
        source@.len() <= usize::MAX,
        coefficients@ == layout.matrix.spec_coefficients(),
        forall|luma: u8, u: u8, v: u8| conversion_fits(luma, u, v, coefficients@),
        width > 0,
        width * height * 4 <= usize::MAX,
        forall|a: u8, b: u8, c: u8, d: u8, across: u32, down: u32|
            call_requires(*blend, (a, b, c, d, across, down)),
        sampling::places_within(*place),
    ensures
        data@.len() == width * height * 4,
        exists|xs: Seq<SampleCoordinate>, ys: Seq<SampleCoordinate>| #[trigger]
            is_converted_resized(*blend, source@, layout, width, xs, ys, data@)
                && sampling::are_coordinates(*place, width as usize, layout.width as usize, xs)
                && sampling::are_coordinates(*place, height as usize, layout.height as usize, ys),
{
    let xs = sample_coordinates(width as usize, layout.width as usize, place);
    let ys = sample_coordinates(height as usize, layout.height as usize, place);
    let halfway: bool = are_halfway(&xs) && are_halfway(&ys);
    assert(halfway == all_halfway(xs@, ys@));
    proof {
        frame::lemma_u32_product(width, height);
    }
    let pixels: usize = (width as u64 * height as u64) as usize;
    let columns: usize = width as usize;
    let mut data: Vec<u8> = Vec::with_capacity(pixels * 4);
    let mut at: usize = 0;
    while at < pixels
        invariant
            at <= pixels,
            pixels == width * height,
            pixels * 4 <= usize::MAX,
            columns == width,
            columns > 0,
            layout.check(source@.len() as usize) == Ok::<usize, Nv12Error>(uv_offset),
            source@.len() <= usize::MAX,
            coefficients@ == layout.matrix.spec_coefficients(),
            forall|luma: u8, u: u8, v: u8| conversion_fits(luma, u, v, coefficients@),
            forall|a: u8, b: u8, c: u8, d: u8, across: u32, down: u32|
                call_requires(*blend, (a, b, c, d, across, down)),
            sampling::are_coordinates(*place, width as usize, layout.width as usize, xs@),
            sampling::are_coordinates(*place, height as usize, layout.height as usize, ys@),
            halfway == all_halfway(xs@, ys@),
            data@.len() == at * 4,
            is_converted_resized(*blend, source@, layout, width, xs@, ys@, data@),
        decreases pixels - at,
    {
        let column: usize = at % columns;
        let row: usize = at / columns;
        proof {
            lemma_fundamental_div_mod(at as int, columns as int);
            assert(row < height) by (nonlinear_arith)
                requires
                    at == columns * row + column,
                    at < columns * height,
                    0 <= column,
            ;
        }
        let x = xs[column];
        let y = ys[row];
        assert(x.lower < layout.width && x.upper < layout.width);
        assert(y.lower < layout.height && y.upper < layout.height);
        let a = convert_pixel(source, layout, uv_offset, coefficients, x.lower, y.lower);
        let b = convert_pixel(source, layout, uv_offset, coefficients, x.upper, y.lower);
        let c = convert_pixel(source, layout, uv_offset, coefficients, x.lower, y.upper);
        let d = convert_pixel(source, layout, uv_offset, coefficients, x.upper, y.upper);
        let blue: u8 = weigh([a[0], b[0], c[0], d[0]], halfway, x.weight, y.weight, blend);
        let green: u8 = weigh([a[1], b[1], c[1], d[1]], halfway, x.weight, y.weight, blend);
        let red: u8 = weigh([a[2], b[2], c[2], d[2]], halfway, x.weight, y.weight, blend);
        let ghost before = data@;
        data.push(blue);
        data.push(green);
        data.push(red);
        data.push(255);
        proof {
            assert(is_weighed(*blend, source@, layout, halfway, x, y, 0, blue));
            assert(is_weighed(*blend, source@, layout, halfway, x, y, 1, green));
            assert(is_weighed(*blend, source@, layout, halfway, x, y, 2, red));
            assert(is_weighed(*blend, source@, layout, halfway, x, y, 3, 255));
            assert forall|i: int| 0 <= i < data@.len() implies is_weighed(
                *blend,
                source@,
                layout,
                all_halfway(xs@, ys@),
                xs@[(i / 4) % (width as int)],
                ys@[(i / 4) / (width as int)],
                i % 4,
                #[trigger] data@[i],
            ) by {
                if i < before.len() {
                    assert(data@[i] == before[i]);
                } else {
                    assert(i / 4 == at);
                    let channel = i % 4;
                    assert(channel == 0 || channel == 1 || channel == 2 || channel == 3);
                }
            }
        }
        at = at + 1;
    }
    data
}

/// Two frames that show the same picture at the same time: same size, same
/// time, and the same colours, whatever their alpha and their padding.
pub open spec fn same_picture(a: VideoFrame, b: VideoFrame) -> bool {
    &&& a.width == b.width
    &&& a.height == b.height
    &&& a.time == b.time
    &&& forall|x: int, y: int, channel: int|
        0 <= x < a.width && 0 <= y < a.height && 0 <= channel < 3 ==> #[trigger] a.pixel(
            x,
            y,
        )[channel] == b.pixel(x, y)[channel]
}

/// Whether two frames show the same picture at the same time.
pub fn same_rgb_frame(a: &VideoFrame, b: &VideoFrame) -> (same: bool)
    requires
        a.wf(),
        b.wf(),
    ensures
        same == same_picture(*a, *b),
{
    if a.width != b.width || a.height != b.height || a.time.value != b.time.value
        || a.time.timescale != b.time.timescale {
        return false;
    }
    let mut y: u32 = 0;
    while y < a.height
        invariant
            a.wf(),
            b.wf(),
            a.width == b.width,
            a.height == b.height,
            y <= a.height,
            forall|px: int, py: int, channel: int|
                0 <= px < a.width && 0 <= py < y && 0 <= channel < 3 ==> #[trigger] a.pixel(
                    px,
                    py,
                )[channel] == b.pixel(px, py)[channel],
        decreases a.height - y,
    {
        let mut x: u32 = 0;
        while x < a.width
            invariant
                a.wf(),
                b.wf(),
                a.width == b.width,
                a.height == b.height,
                y < a.height,
                x <= a.width,
                forall|px: int, py: int, channel: int|
                    0 <= px < a.width && 0 <= py < y && 0 <= channel < 3 ==> #[trigger] a.pixel(
                        px,
                        py,
                    )[channel] == b.pixel(px, py)[channel],
                forall|px: int, channel: int|
                    0 <= px < x && 0 <= channel < 3 ==> #[trigger] a.pixel(px, y as int)[channel]
                        == b.pixel(px, y as int)[channel],
            decreases a.width - x,
        {
            proof {
                frame::lemma_pixel_within(*a, x as int, y as int);
                frame::lemma_pixel_within(*b, x as int, y as int);
            }
            let at: usize = y as usize * a.bytes_per_row as usize + x as usize * 4;
            let other: usize = y as usize * b.bytes_per_row as usize + x as usize * 4;
            assert(a.pixel(x as int, y as int)[0] == a.data@[at as int]);
            assert(a.pixel(x as int, y as int)[1] == a.data@[at + 1]);
            assert(a.pixel(x as int, y as int)[2] == a.data@[at + 2]);
            assert(b.pixel(x as int, y as int)[0] == b.data@[other as int]);
            assert(b.pixel(x as int, y as int)[1] == b.data@[other + 1]);
            assert(b.pixel(x as int, y as int)[2] == b.data@[other + 2]);
            if a.data[at] != b.data[other] || a.data[at + 1] != b.data[other + 1] || a.data[at + 2]
                != b.data[other + 2] {
                return false;
            }
            assert forall|px: int, channel: int|
                0 <= px < x + 1 && 0 <= channel < 3 implies #[trigger] a.pixel(
                px,
                y as int,
            )[channel] == b.pixel(px, y as int)[channel] by {
                if px == x {
                    assert(channel == 0 || channel == 1 || channel == 2);
                }
            }
            x = x + 1;
        }
        y = y + 1;
    }
    true
}

/// Showing the same picture does not depend on which frame comes first.
pub proof fn law_same_picture_is_symmetric(a: VideoFrame, b: VideoFrame)
    ensures
        same_picture(a, b) == same_picture(b, a),
{
    if same_picture(a, b) {
        assert forall|x: int, y: int, channel: int|
            0 <= x < b.width && 0 <= y < b.height && 0 <= channel < 3 implies #[trigger] b.pixel(
            x,
            y,
        )[channel] == a.pixel(x, y)[channel] by {
            assert(a.pixel(x, y)[channel] == b.pixel(x, y)[channel]);
        }
    }
    if same_picture(b, a) {
        assert forall|x: int, y: int, channel: int|
            0 <= x < a.width && 0 <= y < a.height && 0 <= channel < 3 implies #[trigger] a.pixel(
            x,
            y,
        )[channel] == b.pixel(x, y)[channel] by {
            assert(b.pixel(x, y)[channel] == a.pixel(x, y)[channel]);
        }
    }
}

/// What `blend` has to be for resizing on the way to give what resizing
/// afterwards gives: it always gives the same for the same, keeps what is
/// opaque where the weights lie between nothing and one, and halfway between
/// four bytes gives their rounded mean.
pub open spec fn blends_bytes<B: Fn(u8, u8, u8, u8, u32, u32) -> u8>(blend: B) -> bool {
    &&& forall|a: u8, b: u8, c: u8, d: u8, across: u32, down: u32, one: u8, other: u8|
        #[trigger] call_ensures(blend, (a, b, c, d, across, down), one) && #[trigger] call_ensures(
            blend,
            (a, b, c, d, across, down),
            other,
        ) ==> one == other
    &&& forall|across: u32, down: u32, byte: u8|
        sampling::is_unit_weight(across) && sampling::is_unit_weight(down)
            && #[trigger] call_ensures(
            blend,
            (255u8, 255u8, 255u8, 255u8, across, down),
            byte,
        ) ==> byte == 255
    &&& forall|a: u8, b: u8, c: u8, d: u8, byte: u8| #[trigger]
        call_ensures(blend, (a, b, c, d, HALF_WEIGHT, HALF_WEIGHT), byte) ==> byte == (a + b + c + d
            + 2) / 4
}

/// The bytes of a sample that is converted at its own size.
pub open spec fn fully_converted(source: Seq<u8>, layout: Layout) -> Seq<u8> {
    Seq::new(
        (layout.width * layout.height * 4) as nat,
        |at: int| converted_byte(source, layout, layout.matrix.spec_coefficients(), at),
    )
}

proof fn lemma_converted_channel(source: Seq<u8>, layout: Layout, x: usize, y: usize, channel: usize)
    requires
        x < layout.width,
        y < layout.height,
        channel < 4,
        layout.width * 4 <= u32::MAX,
        layout.width * layout.height * 4 <= usize::MAX,
    ensures
        surface::channel_at(
            fully_converted(source, layout),
            (layout.width * 4) as u32,
            x,
            y,
            channel,
        ) == Ok::<u8, SurfaceError>(
            nv12_pixel(
                source,
                layout,
                layout.matrix.spec_coefficients(),
                x as int,
                y as int,
            )[channel as int],
        ),
{
    let width = layout.width as int;
    let row = (layout.width * 4) as int;
    let position = y * width + x;
    let offset = y * row + x * 4 + channel;
    assert(offset == position * 4 + channel) by (nonlinear_arith)
        requires
            offset == y * row + x * 4 + channel,
            row == width * 4,
            position == y * width + x,
    ;
    assert(0 <= position < width * layout.height) by (nonlinear_arith)
        requires
            position == y * width + x,
            0 <= x < width,
            0 <= y < layout.height,
    ;
    frame::lemma_flat_position(x as int, y as int, width);
    assert(offset / 4 == position && offset % 4 == channel);
}

proof fn lemma_fused_byte<B: Fn(u8, u8, u8, u8, u32, u32) -> u8>(
    blend: B,
    source: Seq<u8>,
    layout: Layout,
    halfway: bool,
    x: SampleCoordinate,
    y: SampleCoordinate,
    channel: usize,
    now: u8,
    later: u8,
)
    requires
        blends_bytes(blend),
        layout.width * 4 <= u32::MAX,
        layout.width * layout.height * 4 <= usize::MAX,
        x.lower < layout.width,
        x.upper < layout.width,
        y.lower < layout.height,
        y.upper < layout.height,
        channel < 4,
        sampling::is_unit_weight(x.weight),
        sampling::is_unit_weight(y.weight),
        halfway ==> x.weight == HALF_WEIGHT && y.weight == HALF_WEIGHT,
        is_weighed(blend, source, layout, halfway, x, y, channel as int, now),
        surface::is_blended(
            blend,
            fully_converted(source, layout),
            (layout.width * 4) as u32,
            x,
            y,
            channel,
            Ok(later),
        ),
    ensures
        now == later,
{
    lemma_converted_channel(source, layout, x.lower, y.lower, channel);
    lemma_converted_channel(source, layout, x.upper, y.lower, channel);
    lemma_converted_channel(source, layout, x.lower, y.upper, channel);
    lemma_converted_channel(source, layout, x.upper, y.upper, channel);
}

/// Converting a sample and resizing it on the way gives the bytes that
/// converting it first and resizing the frame afterwards gives, where `blend`
/// weighs bytes as bilinear interpolation does.
pub proof fn law_fused_conversion_matches_two_steps<B: Fn(u8, u8, u8, u8, u32, u32) -> u8>(
    blend: B,
    source: Seq<u8>,
    layout: Layout,
    width: u32,
    height: u32,
    xs: Seq<SampleCoordinate>,
    ys: Seq<SampleCoordinate>,
    fused: Seq<u8>,
    resized: Seq<u8>,
)
    requires
        blends_bytes(blend),
        layout.is_valid(),
        layout.width * 4 <= u32::MAX,
        layout.width * layout.height * 4 <= usize::MAX,
        width > 0,
        xs.len() == width,
        ys.len() == height,
        forall|i: int|
            0 <= i < xs.len() ==> (#[trigger] xs[i]).lower < layout.width && xs[i].upper
                < layout.width && sampling::is_unit_weight(xs[i].weight),
        forall|i: int|
            0 <= i < ys.len() ==> (#[trigger] ys[i]).lower < layout.height && ys[i].upper
                < layout.height && sampling::is_unit_weight(ys[i].weight),
        fused.len() == width * height * 4,
        resized.len() == fused.len(),
        is_converted_resized(blend, source, layout, width, xs, ys, fused),
        surface::is_resized(
            blend,
            fully_converted(source, layout),
            (layout.width * 4) as u32,
            width,
            xs,
            ys,
            resized,
        ),
    ensures
        fused == resized,
{
    let row = (layout.width * 4) as u32;
    let full = fully_converted(source, layout);
    assert forall|at: int| 0 <= at < fused.len() implies #[trigger] fused[at] == resized[at] by {
        let column = (at / 4) % (width as int);
        let line = (at / 4) / (width as int);
        let channel = (at % 4) as usize;
        lemma_fundamental_div_mod(at / 4, width as int);
        lemma_mod_bound(at / 4, width as int);
        assert(0 <= line < height) by (nonlinear_arith)
            requires
                at / 4 == width * line + column,
                0 <= at / 4 < width * height,
                0 <= column < width,
        ;
        let x = xs[column];
        let y = ys[line];
        let later = resized[at];
        let now = fused[at];
        assert(surface::is_blended(blend, full, row, x, y, channel, Ok(later)));
        assert(is_weighed(
            blend,
            source,
            layout,
            all_halfway(xs, ys),
            x,
            y,
            channel as int,
            now,
        ));
        lemma_fused_byte(
            blend,
            source,
            layout,
            all_halfway(xs, ys),
            x,
            y,
            channel,
            now,
            later,
        );
    }
    assert(fused =~= resized);
}

/// `blend` takes the byte above on the left where both weights are nothing.
pub open spec fn blends_nothing_in<B: Fn(u8, u8, u8, u8, u32, u32) -> u8>(blend: B) -> bool {
    forall|a: u8, b: u8, c: u8, d: u8, across: u32, down: u32, byte: u8|
        sampling::is_weightless(across) && sampling::is_weightless(down) && #[trigger] call_ensures(
            blend,
            (a, b, c, d, across, down),
            byte,
        ) ==> byte == a
}

/// Every fourth byte of a converted frame is opaque.
proof fn lemma_converted_is_opaque<
    B: Fn(u8, u8, u8, u8, u32, u32) -> u8,
    P: Fn(usize, usize, usize) -> (usize, u32),
>(
    blend: B,
    place: P,
    source: Seq<u8>,
    layout: Layout,
    width: u32,
    height: u32,
    data: Seq<u8>,
)
    requires
        are_converted_bytes(blend, place, source, layout, width, height, data),
    ensures
        forall|at: int| 0 <= at < data.len() && at % 4 == 3 ==> #[trigger] data[at] == 255,
{
    if !(width == layout.width && height == layout.height) {
        let (xs, ys) = choose|xs: Seq<SampleCoordinate>, ys: Seq<SampleCoordinate>| #[trigger]
            is_converted_resized(blend, source, layout, width, xs, ys, data)
                && sampling::are_coordinates(place, width as usize, layout.width as usize, xs)
                && sampling::are_coordinates(place, height as usize, layout.height as usize, ys);
        assert forall|at: int| 0 <= at < data.len() && at % 4 == 3 implies #[trigger] data[at]
            == 255 by {
            assert(is_weighed(
                blend,
                source,
                layout,
                all_halfway(xs, ys),
                xs[(at / 4) % (width as int)],
                ys[(at / 4) / (width as int)],
                at % 4,
                data[at],
            ));
        }
    }
}

/// Resizing a frame to its own size changes no byte, where equal sizes are placed on
/// themselves.
proof fn lemma_resizing_to_the_same_size<
    B: Fn(u8, u8, u8, u8, u32, u32) -> u8,
    P: Fn(usize, usize, usize) -> (usize, u32),
>(
    blend: B,
    place: P,
    source: Seq<u8>,
    layout: Layout,
    xs: Seq<SampleCoordinate>,
    ys: Seq<SampleCoordinate>,
    resized: Seq<u8>,
)
    requires
        blends_nothing_in(blend),
        sampling::places_on_itself(place, layout.width as usize),
        sampling::places_on_itself(place, layout.height as usize),
        layout.is_valid(),
        layout.width * 4 <= u32::MAX,
        layout.width * layout.height * 4 <= usize::MAX,
        sampling::are_coordinates(place, layout.width as usize, layout.width as usize, xs),
        sampling::are_coordinates(place, layout.height as usize, layout.height as usize, ys),
        resized.len() == layout.width * layout.height * 4,
        surface::is_resized(
            blend,
            fully_converted(source, layout),
            (layout.width * 4) as u32,
            layout.width,
            xs,
            ys,
            resized,
        ),
    ensures
        resized == fully_converted(source, layout),
{
    let full = fully_converted(source, layout);
    let row = (layout.width * 4) as u32;
    let width = layout.width as int;
    assert forall|at: int| 0 <= at < resized.len() implies #[trigger] resized[at] == full[at] by {
        let column = (at / 4) % width;
        let line = (at / 4) / width;
        let channel = (at % 4) as usize;
        lemma_fundamental_div_mod(at / 4, width);
        lemma_mod_bound(at / 4, width);
        assert(0 <= line < layout.height) by (nonlinear_arith)
            requires
                at / 4 == width * line + column,
                0 <= at / 4 < width * layout.height,
                0 <= column < width,
        ;
        let x = xs[column];
        let y = ys[line];
        sampling::lemma_placed_on_itself(place, width as usize, xs, column);
        sampling::lemma_placed_on_itself(place, layout.height as usize, ys, line);
        assert(surface::is_blended(blend, full, row, x, y, channel, Ok(resized[at])));
        lemma_converted_channel(source, layout, x.lower, y.lower, channel);
    }
    assert(resized =~= full);
}

/// Converting a sample to another size gives the frame that converting it at its own
/// size and resizing that frame gives, and every fourth byte of it is opaque. Here
/// `place` always answers alike, places targets between two of the source and equal
/// sizes on themselves, and `blend` weighs bytes as bilinear interpolation does.
pub proof fn law_conversion_matches_convert_then_resize<
    B: Fn(u8, u8, u8, u8, u32, u32) -> u8,
    P: Fn(usize, usize, usize) -> (usize, u32),
>(
    blend: B,
    place: P,
    source: Seq<u8>,
    layout: Layout,
    width: u32,
    height: u32,
    time: MediaTime,
    full: VideoFrame,
    fused: Result<VideoFrame, Nv12Error>,
    resized: Result<VideoFrame, SurfaceError>,
)
    requires
        blends_bytes(blend),
        blends_nothing_in(blend),
        sampling::places_alike(place),
        sampling::places_between(place),
        sampling::places_on_itself(place, layout.width as usize),
        sampling::places_on_itself(place, layout.height as usize),
        is_conversion(
            blend,
            place,
            source,
            layout,
            layout.width,
            layout.height,
            time,
            Ok(full),
        ),
        is_conversion(blend, place, source, layout, width, height, time, fused),
        surface::is_resize_outcome(
            blend,
            place,
            full.data@,
            layout.width,
            layout.height,
            full.bytes_per_row,
            width,
            height,
            time,
            resized,
        ),
        width > 0,
        height > 0,
        width * 4 <= u32::MAX,
        width * 4 * height <= usize::MAX,
    ensures
        fused is Ok,
        resized is Ok,
        fused->Ok_0.data@ == resized->Ok_0.data@,
        fused->Ok_0.width == resized->Ok_0.width == width,
        fused->Ok_0.height == resized->Ok_0.height == height,
        fused->Ok_0.bytes_per_row == resized->Ok_0.bytes_per_row,
        fused->Ok_0.time == time,
        resized->Ok_0.time == time,
        forall|at: int|
            0 <= at < fused->Ok_0.data@.len() && at % 4 == 3 ==> #[trigger] fused->Ok_0.data@[at]
                == 255,
{
    let frame = fused->Ok_0;
    let row = full.bytes_per_row;
    let (xs, ys) = choose|xs: Seq<SampleCoordinate>, ys: Seq<SampleCoordinate>| #[trigger]
        surface::is_resize_result(
            blend,
            place,
            full.data@,
            layout.width,
            layout.height,
            row,
            width,
            height,
            time,
            resized,
            xs,
            ys,
        );
    assert(full.data@ == fully_converted(source, layout));
    assert(layout.width * 4 * layout.height == layout.width * layout.height * 4)
        by (nonlinear_arith);
    assert(width * 4 * height == width * height * 4) by (nonlinear_arith);
    assert((layout.height - 1) * row + layout.width * 4 == layout.width * layout.height * 4)
        by (nonlinear_arith)
        requires
            row == layout.width * 4,
    ;
    surface::lemma_held_frame_resizes(
        blend,
        place,
        full.data@,
        layout.width,
        layout.height,
        row,
        width,
        height,
        time,
        resized,
        xs,
        ys,
    );
    lemma_converted_is_opaque(blend, place, source, layout, width, height, frame.data@);
    let later = resized->Ok_0.data@;
    if width == layout.width && height == layout.height {
        lemma_resizing_to_the_same_size(blend, place, source, layout, xs, ys, later);
    } else {
        let (us, vs) = choose|us: Seq<SampleCoordinate>, vs: Seq<SampleCoordinate>| #[trigger]
            is_converted_resized(blend, source, layout, width, us, vs, frame.data@)
                && sampling::are_coordinates(place, width as usize, layout.width as usize, us)
                && sampling::are_coordinates(place, height as usize, layout.height as usize, vs);
        sampling::lemma_placed_between(place, width as usize, layout.width as usize, xs);
        sampling::lemma_placed_between(place, height as usize, layout.height as usize, ys);
        sampling::lemma_places_alike(place, width as usize, layout.width as usize, us, xs);
        sampling::lemma_places_alike(place, height as usize, layout.height as usize, vs, ys);
        law_fused_conversion_matches_two_steps(
            blend,
            source,
            layout,
            width,
            height,
            xs,
            ys,
            frame.data@,
            later,
        );
    }
}

/// What a system reports of a decoder's native output. An attribute that it
/// does not report is missing.
pub struct NativeFormat {
    pub coded_width: u32,
    pub coded_height: u32,
    pub is_nv12: bool,
    pub interlace: Option<Interlace>,
    pub range: Option<NominalRange>,
    pub matrix: Option<NativeMatrix>,
    pub stride: Option<i32>,
    pub pan_scan: Option<u32>,
    /// The apertures, as the bytes that describe them.
    pub apertures: Vec<Vec<u8>>,
}

#[derive(Debug, Clone, Copy, PartialEq, Eq, Structural)]
pub enum Interlace {
    Progressive,
    MixedOrProgressive,
    Unsupported { mode: u32 },
}

#[derive(Debug, Clone, Copy, PartialEq, Eq, Structural)]
pub enum NominalRange {
    Limited,
    Unsupported,
}

#[derive(Debug, Clone, Copy, PartialEq, Eq, Structural)]
pub enum NativeMatrix {
    Bt601,
    Bt709,
    Unsupported { value: u32 },
}

/// A number in four bytes, the lowest first.
pub open spec fn le_u32(bytes: Seq<u8>, at: int) -> int {
    bytes[at] + bytes[at + 1] * 0x100 + bytes[at + 2] * 0x1_0000 + bytes[at + 3] * 0x100_0000
}

/// An aperture of sixteen bytes that shows the whole picture: no offset, and
/// the picture's own size.
pub open spec fn aperture_check(area: Seq<u8>, width: u32, height: u32) -> Result<(), Nv12Error> {
    if area.len() != 16 {
        Err(Nv12Error::InvalidAperture)
    } else if (forall|i: int| 0 <= i < 8 ==> area[i] == 0) && le_u32(area, 8) == width && le_u32(
        area,
        12,
    ) == height {
        Ok(())
    } else {
        Err(Nv12Error::NeedsCropping)
    }
}

/// What the first `count` apertures come to.
pub open spec fn apertures_check(
    apertures: Seq<Vec<u8>>,
    count: int,
    width: u32,
    height: u32,
) -> Result<(), Nv12Error>
    decreases count,
{
    if count <= 0 {
        Ok(())
    } else {
        match apertures_check(apertures, count - 1, width, height) {
            Err(error) => Err(error),
            Ok(_) => aperture_check(apertures[count - 1]@, width, height),
        }
    }
}

pub open spec fn picture_check(
    pan_scan: Option<u32>,
    apertures: Seq<Vec<u8>>,
    width: u32,
    height: u32,
) -> Result<(), Nv12Error> {
    if pan_scan matches Some(enabled) && enabled != 0 {
        Err(Nv12Error::PanScan)
    } else {
        apertures_check(apertures, apertures.len() as int, width, height)
    }
}

fn read_le_u32(bytes: &Vec<u8>, at: usize) -> (value: u32)
    requires
        at + 4 <= bytes@.len(),
    ensures
        value == le_u32(bytes@, at as int),
{
    let len: usize = bytes.len();
    assert(at + 4 <= len);
    bytes[at] as u32 + bytes[at + 1] as u32 * 0x100 + bytes[at + 2] as u32 * 0x1_0000
        + bytes[at + 3] as u32 * 0x100_0000
}

fn check_aperture(area: &Vec<u8>, width: u32, height: u32) -> (result: Result<(), Nv12Error>)
    ensures
        result == aperture_check(area@, width, height),
{
    if area.len() != 16 {
        return Err(Nv12Error::InvalidAperture);
    }
    let mut at: usize = 0;
    while at < 8
        invariant
            at <= 8,
            area@.len() == 16,
            forall|i: int| 0 <= i < at ==> area@[i] == 0,
        decreases 8 - at,
    {
        if area[at] != 0 {
            assert(area@[at as int] != 0);
            return Err(Nv12Error::NeedsCropping);
        }
        at = at + 1;
    }
    if read_le_u32(area, 8) == width && read_le_u32(area, 12) == height {
        Ok(())
    } else {
        Err(Nv12Error::NeedsCropping)
    }
}

proof fn lemma_apertures_error_stays(
    apertures: Seq<Vec<u8>>,
    count: int,
    all: int,
    width: u32,
    height: u32,
)
    requires
        count <= all,
        apertures_check(apertures, count, width, height) is Err,
    ensures
        apertures_check(apertures, all, width, height) == apertures_check(
            apertures,
            count,
            width,
            height,
        ),
    decreases all - count,
{
    if count < all {
        lemma_apertures_error_stays(apertures, count, all - 1, width, height);
    }
}

/// Checks that a sample is shown as it is, neither panned nor cropped.
pub fn validate_aperture(
    pan_scan: Option<u32>,
    apertures: &Vec<Vec<u8>>,
    width: u32,
    height: u32,
) -> (result: Result<(), Nv12Error>)
    ensures
        result == picture_check(pan_scan, apertures@, width, height),
{
    if let Some(enabled) = pan_scan {
        if enabled != 0 {
            return Err(Nv12Error::PanScan);
        }
    }
    let mut at: usize = 0;
    while at < apertures.len()
        invariant
            at <= apertures@.len(),
            !(pan_scan matches Some(enabled) && enabled != 0),
            apertures_check(apertures@, at as int, width, height) is Ok,
        decreases apertures@.len() - at,
    {
        match check_aperture(&apertures[at], width, height) {
            Ok(()) => {},
            Err(error) => {
                proof {
                    lemma_apertures_error_stays(
                        apertures@,
                        at + 1,
                        apertures@.len() as int,
                        width,
                        height,
                    );
                }
                return Err(error);
            },
        }
        at = at + 1;
    }
    Ok(())
}

/// The layout of a decoder's native output, if it is one that is converted
/// here: progressive limited-range NV12 with known colours, whole and even.
pub open spec fn native_layout(format: NativeFormat, width: u32, height: u32) -> Result<
    Layout,
    Nv12Error,
> {
    match picture_check(format.pan_scan, format.apertures@, width, height) {
        Err(error) => Err(error),
        Ok(_) => if !format.is_nv12 {
            Err(Nv12Error::NotNv12)
        } else {
            match format.interlace {
                None => Err(Nv12Error::MissingAttribute),
                Some(Interlace::Unsupported { mode }) => Err(Nv12Error::NotProgressive { mode }),
                Some(interlace) => match format.range {
                    None => Err(Nv12Error::MissingAttribute),
                    Some(NominalRange::Unsupported) => Err(Nv12Error::NotLimitedRange),
                    Some(NominalRange::Limited) => match format.matrix {
                        None => Err(Nv12Error::MissingAttribute),
                        Some(NativeMatrix::Unsupported { value }) => {
                            Err(Nv12Error::UnsupportedMatrix { value })
                        },
                        Some(matrix) => match format.stride {
                            None => Err(Nv12Error::MissingAttribute),
                            Some(stride) => if width > 0 && height > 0 && format.coded_width
                                >= width && format.coded_height >= height && stride > 0 && stride
                                >= format.coded_width && stride % 2 == 0 && format.coded_height % 2
                                == 0 {
                                Ok(
                                    Layout {
                                        stride: stride as usize,
                                        coded_height: format.coded_height as usize,
                                        width,
                                        height,
                                        matrix: if matrix == NativeMatrix::Bt709 {
                                            Matrix::Bt709
                                        } else {
                                            Matrix::Bt601
                                        },
                                        mixed_interlace: interlace == Interlace::MixedOrProgressive,
                                    },
                                )
                            } else {
                                Err(Nv12Error::UnsupportedDimensions)
                            },
                        },
                    },
                },
            }
        },
    }
}

/// Finds the layout of a decoder's native output.
pub fn current_layout(format: &NativeFormat, width: u32, height: u32) -> (result: Result<
    Layout,
    Nv12Error,
>)
    ensures
        result == native_layout(*format, width, height),
        result matches Ok(layout) ==> layout.is_valid(),
{
    match validate_aperture(format.pan_scan, &format.apertures, width, height) {
        Ok(()) => {},
        Err(error) => return Err(error),
    }
    if !format.is_nv12 {
        return Err(Nv12Error::NotNv12);
    }
    let mixed_interlace: bool = match format.interlace {
        None => return Err(Nv12Error::MissingAttribute),
        Some(Interlace::Unsupported { mode }) => return Err(Nv12Error::NotProgressive { mode }),
        Some(Interlace::Progressive) => false,
        Some(Interlace::MixedOrProgressive) => true,
    };
    match format.range {
        None => return Err(Nv12Error::MissingAttribute),
        Some(NominalRange::Unsupported) => return Err(Nv12Error::NotLimitedRange),
        Some(NominalRange::Limited) => {},
    }
    let matrix: Matrix = match format.matrix {
        None => return Err(Nv12Error::MissingAttribute),
        Some(NativeMatrix::Unsupported { value }) => {
            return Err(Nv12Error::UnsupportedMatrix { value });
        },
        Some(NativeMatrix::Bt709) => Matrix::Bt709,
        Some(NativeMatrix::Bt601) => Matrix::Bt601,
    };
    let stride: i32 = match format.stride {
        None => return Err(Nv12Error::MissingAttribute),
        Some(stride) => stride,
    };
    if width > 0 && height > 0 && format.coded_width >= width && format.coded_height >= height
        && stride > 0 && stride as u32 >= format.coded_width && stride as u32 % 2 == 0
        && format.coded_height % 2 == 0 {
        Ok(
            Layout {
                stride: stride as usize,
                coded_height: format.coded_height as usize,
                width,
                height,
                matrix,
                mixed_interlace,
            },
        )
    } else {
        Err(Nv12Error::UnsupportedDimensions)
    }
}

/// Checks that a sample is progressive. Where the stream mixes interlaced and
/// progressive samples, one that does not say so is taken for interlaced.
pub fn ensure_progressive(interlaced: Option<u32>, layout: Layout) -> (result: Result<
    (),
    Nv12Error,
>)
    ensures
        result == (if (match interlaced {
            Some(flag) => flag == 0,
            None => !layout.mixed_interlace,
        }) {
            Ok::<(), Nv12Error>(())
        } else {
            Err::<(), Nv12Error>(Nv12Error::Interlaced)
        }),
{
    let progressive: bool = match interlaced {
        Some(flag) => flag == 0,
        None => !layout.mixed_interlace,
    };
    if progressive {
        Ok(())
    } else {
        Err(Nv12Error::Interlaced)
    }
}

/// A channel that is computed in 256ths is their whole part, kept to a byte.
pub open spec fn is_channel(value: int, byte: u8) -> bool {
    &&& value < 0 ==> byte == 0
    &&& 0 <= value < 65536 ==> 256 * byte <= value < 256 * byte + 256
    &&& value >= 65536 ==> byte == 255
}

/// Every channel is linear in luma and chroma, on both sides of neutral, as far as a byte
/// can hold it: luma counts from 16 and chroma from 128, blue follows the blue
/// difference, red follows the red difference, and green is lessened by both.
pub proof fn law_channels_are_linear(y: u8, u: u8, v: u8, coefficients: Seq<i32>)
    requires
        coefficients.len() == 4,
    ensures
        ({
            let pixel = converted(y, u, v, coefficients);
            let grey = 298 * (y - 16) + 128;
            &&& pixel.len() == 4
            &&& is_channel(grey + coefficients[3] * (u - 128), pixel[0])
            &&& is_channel(
                grey - coefficients[1] * (u - 128) - coefficients[2] * (v - 128),
                pixel[1],
            )
            &&& is_channel(grey + coefficients[0] * (v - 128), pixel[2])
            &&& pixel[3] == 255
        }),
{
}

/// A number is the nearest whole one to a quotient.
pub open spec fn is_nearest(number: int, numerator: int, denominator: int) -> bool {
    -denominator <= 2 * (number * denominator - numerator) <= denominator
}

/// How much red and blue make of luma, in ten-thousandths.
pub open spec fn luma_weights(matrix: Matrix) -> (int, int) {
    match matrix {
        Matrix::Bt601 => (2990, 1140),
        Matrix::Bt709 => (2126, 722),
    }
}

/// The coefficients of a matrix are those that its weights of red and blue give, for
/// chroma of 224 steps and colours of 255, in 256ths to the nearest.
pub proof fn law_coefficients_follow_the_weights(matrix: Matrix)
    ensures
        ({
            let (red, blue) = luma_weights(matrix);
            let green = 10_000 - red - blue;
            let coefficients = matrix.spec_coefficients();
            let step = 2 * 255 * 256;
            &&& coefficients.len() == 4
            &&& is_nearest(coefficients[0] as int, step * (10_000 - red), 2_240_000)
            &&& is_nearest(
                coefficients[1] as int,
                step * (10_000 - blue) * blue,
                2_240_000 * green,
            )
            &&& is_nearest(
                coefficients[2] as int,
                step * (10_000 - red) * red,
                2_240_000 * green,
            )
            &&& is_nearest(coefficients[3] as int, step * (10_000 - blue), 2_240_000)
        }),
{
    match matrix {
        Matrix::Bt601 => {
            assert(is_nearest(100, 130_560int * 8_860 * 1_140, 2_240_000int * 5_870));
            assert(is_nearest(208, 130_560int * 7_010 * 2_990, 2_240_000int * 5_870));
        },
        Matrix::Bt709 => {
            assert(is_nearest(55, 130_560int * 9_278 * 722, 2_240_000int * 7_152));
            assert(is_nearest(136, 130_560int * 7_874 * 2_126, 2_240_000int * 7_152));
        },
    }
}

/// Two bytes that are no further apart than this.
pub open spec fn within(a: u8, b: u8, distance: int) -> bool {
    -distance <= a - b <= distance
}

/// A colour that was encoded and is decoded again is the same colour, but for rounding.
pub proof fn law_colours_survive_encoding_and_decoding(r: u8, g: u8, b: u8)
    ensures
        ({
            let pixel = converted(
                yuv::luma(r, g, b),
                yuv::chroma_u(r, g, b),
                yuv::chroma_v(r, g, b),
                Matrix::Bt601.spec_coefficients(),
            );
            within(pixel[0], b, 4) && within(pixel[1], g, 4) && within(pixel[2], r, 4)
        }),
{
    yuv::law_limited_range(r, g, b);
}

/// A layout holds a sample exactly if its rows and planes are even and hold the picture,
/// and the buffer holds both planes: one of luma, and half as much of chroma.
pub proof fn law_buffers_that_hold_both_planes_are_accepted(layout: Layout, len: usize)
    ensures
        layout.check(len) is Ok <==> {
            &&& 0 < layout.width <= layout.stride
            &&& 0 < layout.height <= layout.coded_height
            &&& layout.stride % 2 == 0
            &&& layout.coded_height % 2 == 0
            &&& 3 * (layout.stride * layout.coded_height) <= 2 * len
        },
        layout.check(len) matches Ok(chroma) ==> chroma == layout.stride * layout.coded_height,
{
    let luma = layout.stride * layout.coded_height;
    let half = layout.stride as int / 2;
    if layout.stride % 2 == 0 {
        assert(luma == 2 * (half * layout.coded_height)) by (nonlinear_arith)
            requires
                luma == layout.stride * layout.coded_height,
                layout.stride == 2 * half,
        ;
    }
    assert(luma >= 0) by (nonlinear_arith)
        requires
            luma == layout.stride * layout.coded_height,
            layout.stride >= 0,
            layout.coded_height >= 0,
    ;
}

/// A pixel of a sample that is converted at its own size comes from the luma at its own
/// place and from the chroma of the square of four pixels that it belongs to.
pub proof fn law_converted_pixels_come_from_their_place(
    source: Seq<u8>,
    layout: Layout,
    x: int,
    y: int,
    channel: int,
)
    requires
        0 <= x < layout.width,
        0 <= y < layout.height,
        0 <= channel < 4,
    ensures
        ({
            let chroma = layout.stride * layout.coded_height + (y / 2) * layout.stride + (x - x
                % 2);
            fully_converted(source, layout)[(y * layout.width + x) * 4 + channel] == converted(
                source[y * layout.stride + x],
                source[chroma],
                source[chroma + 1],
                layout.matrix.spec_coefficients(),
            )[channel]
        }),
{
    let width = layout.width as int;
    let position = y * width + x;
    frame::lemma_flat_position(x, y, width);
    assert(0 <= position < width * layout.height) by (nonlinear_arith)
        requires
            position == y * width + x,
            0 <= x < width,
            0 <= y < layout.height,
    ;
    assert((position * 4 + channel) / 4 == position && (position * 4 + channel) % 4 == channel);
    assert((x / 2) * 2 == x - x % 2);
}

/// A frame that is converted at its own size is the sample, pixel for pixel.
pub proof fn law_own_size_converts_every_pixel<
    B: Fn(u8, u8, u8, u8, u32, u32) -> u8,
    P: Fn(usize, usize, usize) -> (usize, u32),
>(
    blend: B,
    place: P,
    source: Seq<u8>,
    layout: Layout,
    time: MediaTime,
    frame: VideoFrame,
    x: int,
    y: int,
)
    requires
        is_conversion(
            blend,
            place,
            source,
            layout,
            layout.width,
            layout.height,
            time,
            Ok(frame),
        ),
        0 <= x < layout.width,
        0 <= y < layout.height,
    ensures
        frame.width == layout.width,
        frame.height == layout.height,
        frame.time == time,
        frame.bytes_per_row == 4 * layout.width,
        frame.data@.len() == 4 * (layout.width * layout.height),
        ({
            let chroma = layout.stride * layout.coded_height + (y / 2) * layout.stride + (x - x
                % 2);
            let at = (y * layout.width + x) * 4;
            frame.data@.subrange(at, at + 4) == converted(
                source[y * layout.stride + x],
                source[chroma],
                source[chroma + 1],
                layout.matrix.spec_coefficients(),
            )
        }),
{
    assert(frame.data@ == fully_converted(source, layout));
    let at = (y * layout.width + x) * 4;
    assert(0 <= at && at + 4 <= 4 * (layout.width * layout.height)) by (nonlinear_arith)
        requires
            at == (y * layout.width + x) * 4,
            0 <= x < layout.width,
            0 <= y < layout.height,
    ;
    law_converted_pixels_come_from_their_place(source, layout, x, y, 0);
    law_converted_pixels_come_from_their_place(source, layout, x, y, 1);
    law_converted_pixels_come_from_their_place(source, layout, x, y, 2);
    law_converted_pixels_come_from_their_place(source, layout, x, y, 3);
    let chroma = layout.stride * layout.coded_height + (y / 2) * layout.stride + (x - x % 2);
    assert(frame.data@.subrange(at, at + 4) =~= converted(
        source[y * layout.stride + x],
        source[chroma],
        source[chroma + 1],
        layout.matrix.spec_coefficients(),
    ));
}

/// Two frames show the same picture exactly if they have the same size and the same time, and
/// their blue, green and red bytes are the same everywhere.
pub proof fn law_same_pictures_have_the_same_bytes(a: VideoFrame, b: VideoFrame)
    requires
        a.wf(),
        b.wf(),
    ensures
        same_picture(a, b) <==> {
            &&& a.width == b.width && a.height == b.height
            &&& a.time.value == b.time.value && a.time.timescale == b.time.timescale
            &&& forall|x: int, y: int, channel: int|
                0 <= x < a.width && 0 <= y < a.height && 0 <= channel < 3
                    ==> #[trigger] colour_at(a, x, y, channel) == colour_at(b, x, y, channel)
        },
{
    assert forall|x: int, y: int, channel: int|
        0 <= x < a.width && 0 <= y < a.height && 0 <= channel < 3 implies colour_at(
        a,
        x,
        y,
        channel,
    ) == #[trigger] a.pixel(x, y)[channel] by {
        frame::lemma_pixel_within(a, x, y);
    }
    assert forall|x: int, y: int, channel: int|
        0 <= x < b.width && 0 <= y < b.height && 0 <= channel < 3 implies colour_at(
        b,
        x,
        y,
        channel,
    ) == #[trigger] b.pixel(x, y)[channel] by {
        frame::lemma_pixel_within(b, x, y);
    }
    if a.width == b.width && a.height == b.height {
        if same_picture(a, b) {
            assert forall|x: int, y: int, channel: int|
                0 <= x < a.width && 0 <= y < a.height && 0 <= channel < 3 implies
                #[trigger] colour_at(a, x, y, channel) == colour_at(b, x, y, channel) by {
                assert(a.pixel(x, y)[channel] == b.pixel(x, y)[channel]);
            }
        } else if a.time == b.time {
            let (x, y, channel) = choose|x: int, y: int, channel: int|
                0 <= x < a.width && 0 <= y < a.height && 0 <= channel < 3 && #[trigger] a.pixel(
                    x,
                    y,
                )[channel] != b.pixel(x, y)[channel];
            assert(a.pixel(x, y)[channel] != b.pixel(x, y)[channel]);
            assert(colour_at(a, x, y, channel) == a.pixel(x, y)[channel]);
            assert(colour_at(b, x, y, channel) == b.pixel(x, y)[channel]);
        }
    }
}

/// A byte of a frame's pixel.
pub open spec fn colour_at(frame: VideoFrame, x: int, y: int, channel: int) -> u8 {
    frame.data@[y * frame.bytes_per_row + 4 * x + channel]
}

/// The byte of a number that has so many lower bytes.
pub open spec fn byte_of(value: u32, lower: int) -> u8 {
    if lower == 0 {
        (value % 0x100) as u8
    } else if lower == 1 {
        (value / 0x100 % 0x100) as u8
    } else if lower == 2 {
        (value / 0x1_0000 % 0x100) as u8
    } else {
        (value / 0x100_0000) as u8
    }
}

/// An aperture shows the whole picture exactly if it is eight zeros and then the picture's
/// width and height, the lowest byte of each first.
pub proof fn law_whole_apertures(area: Seq<u8>, width: u32, height: u32)
    ensures
        aperture_check(area, width, height) is Ok <==> area.len() == 16 && forall|i: int|
            0 <= i < 16 ==> #[trigger] area[i] == (if i < 8 {
                0
            } else if i < 12 {
                byte_of(width, i - 8)
            } else {
                byte_of(height, i - 12)
            }),
{
    if area.len() == 16 {
        lemma_le_u32_bytes(area, 8, width);
        lemma_le_u32_bytes(area, 12, height);
        if forall|i: int|
            0 <= i < 16 ==> #[trigger] area[i] == (if i < 8 {
                0
            } else if i < 12 {
                byte_of(width, i - 8)
            } else {
                byte_of(height, i - 12)
            }) {
            assert(area[8] == byte_of(width, 0) && area[9] == byte_of(width, 1) && area[10]
                == byte_of(width, 2) && area[11] == byte_of(width, 3));
            assert(area[12] == byte_of(height, 0) && area[13] == byte_of(height, 1) && area[14]
                == byte_of(height, 2) && area[15] == byte_of(height, 3));
        }
        if aperture_check(area, width, height) is Ok {
            assert forall|i: int| 0 <= i < 16 implies #[trigger] area[i] == (if i < 8 {
                0
            } else if i < 12 {
                byte_of(width, i - 8)
            } else {
                byte_of(height, i - 12)
            }) by {
                assert(i < 8 || i == 8 || i == 9 || i == 10 || i == 11 || i == 12 || i == 13 || i
                    == 14 || i == 15);
            }
        }
    }
}

proof fn lemma_le_u32_bytes(bytes: Seq<u8>, at: int, value: u32)
    requires
        0 <= at,
        at + 4 <= bytes.len(),
    ensures
        le_u32(bytes, at) == value <==> bytes[at] == byte_of(value, 0) && bytes[at + 1] == byte_of(
            value,
            1,
        ) && bytes[at + 2] == byte_of(value, 2) && bytes[at + 3] == byte_of(value, 3),
{
    lemma_digits(
        bytes[at] as int,
        bytes[at + 1] as int,
        bytes[at + 2] as int,
        bytes[at + 3] as int,
        value as int,
    );
}

proof fn lemma_digits(first: int, second: int, third: int, fourth: int, value: int)
    requires
        0 <= first < 256,
        0 <= second < 256,
        0 <= third < 256,
        0 <= fourth < 256,
        0 <= value < 0x1_0000_0000,
    ensures
        first + second * 0x100 + third * 0x1_0000 + fourth * 0x100_0000 == value <==> first == value
            % 0x100 && second == value / 0x100 % 0x100 && third == value / 0x1_0000 % 0x100
            && fourth == value / 0x100_0000,
{
    lemma_div_denominator(value, 0x100, 0x100);
    lemma_div_denominator(value, 0x1_0000, 0x100);
    let once = value / 0x100;
    let twice = value / 0x1_0000;
    lemma_fundamental_div_mod(value, 0x100);
    lemma_fundamental_div_mod(once, 0x100);
    lemma_fundamental_div_mod(twice, 0x100);
    if first + second * 0x100 + third * 0x1_0000 + fourth * 0x100_0000 == value {
        let upper = second + third * 0x100 + fourth * 0x1_0000;
        lemma_fundamental_div_mod_converse(value, 0x100, upper, first);
        lemma_fundamental_div_mod_converse(upper, 0x100, third + fourth * 0x100, second);
        lemma_fundamental_div_mod_converse(third + fourth * 0x100, 0x100, fourth, third);
    }
}

/// A native output is converted here exactly if its picture is whole, it is NV12, progressive or
/// mixed, of limited range, with known colours and a known distance of its rows, which are even
/// and hold the coded picture, and that holds the visible one. The layout is then that of the
/// coded picture, with the visible size.
pub proof fn law_native_layouts(format: NativeFormat, width: u32, height: u32)
    ensures
        native_layout(format, width, height) is Ok <==> {
            &&& !(format.pan_scan is Some && format.pan_scan->0 != 0)
            &&& apertures_check(
                format.apertures@,
                format.apertures@.len() as int,
                width,
                height,
            ) is Ok
            &&& format.is_nv12
            &&& format.interlace == Some(Interlace::Progressive) || format.interlace == Some(
                Interlace::MixedOrProgressive,
            )
            &&& format.range == Some(NominalRange::Limited)
            &&& format.matrix == Some(NativeMatrix::Bt601) || format.matrix == Some(
                NativeMatrix::Bt709,
            )
            &&& format.stride is Some && format.stride->0 % 2 == 0 && format.coded_height % 2 == 0
            &&& 0 < width <= format.coded_width <= format.stride->0
            &&& 0 < height <= format.coded_height
        },
        native_layout(format, width, height) matches Ok(layout) ==> {
            &&& layout.stride == format.stride->0
            &&& layout.coded_height == format.coded_height
            &&& layout.width == width
            &&& layout.height == height
            &&& layout.matrix == Matrix::Bt709 <==> format.matrix == Some(NativeMatrix::Bt709)
            &&& layout.mixed_interlace <==> format.interlace == Some(Interlace::MixedOrProgressive)
        },
{
}

/// Apertures are all right exactly if each of them shows the whole picture.
pub proof fn law_every_aperture_counts(
    apertures: Seq<Vec<u8>>,
    count: int,
    width: u32,
    height: u32,
)
    requires
        0 <= count <= apertures.len(),
    ensures
        apertures_check(apertures, count, width, height) is Ok <==> forall|i: int|
            0 <= i < count ==> aperture_check((#[trigger] apertures[i])@, width, height) is Ok,
    decreases count,
{
    if count > 0 {
        law_every_aperture_counts(apertures, count - 1, width, height);
        if apertures_check(apertures, count, width, height) is Ok {
            assert forall|i: int| 0 <= i < count implies aperture_check(
                (#[trigger] apertures[i])@,
                width,
                height,
            ) is Ok by {
                if i == count - 1 {
                    assert(apertures_check(apertures, count - 1, width, height) is Ok);
                }
            }
        } else if forall|i: int|
            0 <= i < count ==> aperture_check((#[trigger] apertures[i])@, width, height) is Ok {
            assert(aperture_check(apertures[count - 1]@, width, height) is Ok);
        }
    }
}

/// A sample can be converted to a size exactly if its buffer holds both planes, and the frame of
/// that size has some width and height and can be counted.
pub proof fn law_whole_samples_are_converted<
    B: Fn(u8, u8, u8, u8, u32, u32) -> u8,
    P: Fn(usize, usize, usize) -> (usize, u32),
>(
    blend: B,
    place: P,
    source: Seq<u8>,
    layout: Layout,
    width: u32,
    height: u32,
    time: MediaTime,
    result: Result<VideoFrame, Nv12Error>,
)
    requires
        is_conversion(blend, place, source, layout, width, height, time, result),
        source.len() <= usize::MAX,
    ensures
        result is Ok <==> {
            &&& layout.check(source.len() as usize) is Ok
            &&& width > 0 && height > 0
            &&& 4 * width <= u32::MAX
            &&& 4 * (width * height) <= usize::MAX
        },
        result matches Ok(frame) ==> frame.width == width && frame.height == height && frame.time
            == time && frame.bytes_per_row == 4 * width,
{
    assert(width * 4 * height == 4 * (width * height)) by (nonlinear_arith);
}

/// The weight that counts as halfway is one half: a single-precision number of the exponent below
/// that of one, without a fraction.
pub proof fn law_halfway_is_one_half()
    ensures
        HALF_WEIGHT == 126 * 0x80_0000,
{
}

} // verus!
