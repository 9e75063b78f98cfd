//! Turning frames into input tensors and alpha tensors into masks.
//!
//! Tensor elements are single-precision numbers, which this module carries by
//! their bits. What is computed with such numbers is handed in: `place` finds
//! a target's place in a source, `mix` blends two elements, and `quantize`
//! turns an element into a byte, or into a larger number if it is not finite.

use crate::frame;
use crate::frame::{validate_bgra_buffer, FrameError, MediaTime, VideoFrame};
use crate::sampling;
use crate::sampling::{sample_coordinates, source_coordinate, SampleCoordinate};
use vstd::arithmetic::div_mod::*;
use vstd::arithmetic::mul::*;
use vstd::arithmetic::power2::pow2;
use vstd::prelude::*;

verus! {

/// Why a tensor could not be filled or read.
#[derive(Debug, Clone, Copy, PartialEq, Eq, Structural)]
pub enum TensorError {
    Frame(FrameError),
    InputSizeOverflow,
    InputSizeMismatch,
    InvalidAlphaShape,
    MaskRowOverflow,
    MaskSizeOverflow,
    NonFinite,
}

/// What stands in the way of filling a tensor of `len` elements from a frame.
pub open spec fn preprocess_check(frame: VideoFrame, len: nat) -> Result<(), TensorError> {
    match frame::bgra_buffer_check(
        frame.width,
        frame.height,
        frame.bytes_per_row,
        frame.data@.len() as usize,
    ) {
        Err(error) => Err(TensorError::Frame(error)),
        Ok(()) => if frame.width * frame.height > usize::MAX {
            Err(TensorError::InputSizeOverflow)
        } else if len != frame.width * frame.height * 3 {
            Err(TensorError::InputSizeMismatch)
        } else {
            Ok(())
        },
    }
}

/// The element at `at` of a frame's tensor: planes of red, green and blue, each
/// row by row, each byte by way of a table.
pub open spec fn tensor_element<T>(frame: VideoFrame, normalized: Seq<T>, at: int) -> T {
    let plane = frame.width * frame.height;
    let channel = at / plane;
    let x = (at % plane) % (frame.width as int);
    let y = (at % plane) / (frame.width as int);
    normalized[frame.pixel(x, y)[2 - channel] as int]
}

proof fn lemma_plane_positions(at: int, plane: int)
    requires
        0 < plane,
        0 <= at < 3 * plane,
    ensures
        at == (at / plane) * plane + at % plane,
        0 <= at / plane < 3,
        0 <= at % plane < plane,
{
    lemma_fundamental_div_mod(at, plane);
    lemma_mod_bound(at, plane);
    lemma_mul_is_commutative(plane, at / plane);
    lemma_div_nonincreasing(at, plane);
    assert(at / plane < 3) by (nonlinear_arith)
        requires
            at == (at / plane) * plane + at % plane,
            at < 3 * plane,
            0 <= at % plane,
            0 < plane,
    ;
    assert(at / plane >= 0) by (nonlinear_arith)
        requires
            at == (at / plane) * plane + at % plane,
            at >= 0,
            at % plane < plane,
            0 < plane,
    ;
}

proof fn lemma_plane_position(channel: int, position: int, plane: int)
    requires
        0 <= position < plane,
    ensures
        (channel * plane + position) / plane == channel,
        (channel * plane + position) % plane == position,
{
    frame::lemma_flat_position(position, channel, plane);
}

/// Fills a tensor with a frame's colours, each byte by way of a table.
pub fn preprocess<T: Copy>(frame: &VideoFrame, tensor: &mut [T], normalized: &[T; 256]) -> (result:
    Result<(), TensorError>)
    ensures
        result == preprocess_check(*frame, old(tensor)@.len()),
        final(tensor)@.len() == old(tensor)@.len(),
        result is Err ==> final(tensor)@ == old(tensor)@,
        result is Ok ==> final(tensor)@ == Seq::new(
            (frame.width * frame.height * 3) as nat,
            |at: int| tensor_element(*frame, normalized@, at),
        ),
{
    match validate_bgra_buffer(frame.width, frame.height, frame.bytes_per_row, frame.data.len()) {
        Ok(()) => {},
        Err(error) => return Err(TensorError::Frame(error)),
    }
    proof {
        frame::lemma_u32_product(frame.width, frame.height);
    }
    let pixels: u64 = frame.width as u64 * frame.height as u64;
    if pixels > usize::MAX as u64 {
        return Err(TensorError::InputSizeOverflow);
    }
    let plane: usize = pixels as usize;
    let len: usize = tensor.len();
    let fits = match plane.checked_mul(3) {
        Some(needed) => len == needed,
        None => false,
    };
    if !fits {
        return Err(TensorError::InputSizeMismatch);
    }
    let width: usize = frame.width as usize;
    let row: usize = frame.bytes_per_row as usize;
    let ghost source = normalized@;
    assert(plane > 0) by (nonlinear_arith)
        requires
            plane == frame.width * frame.height,
            frame.width > 0,
            frame.height > 0,
    ;
    let mut position: usize = 0;
    while position < plane
        invariant
            frame.wf(),
            plane == frame.width * frame.height,
            0 < plane,
            width == frame.width,
            0 < width,
            row == frame.bytes_per_row,
            source == normalized@,
            tensor@.len() == plane * 3,
            tensor@.len() == old(tensor)@.len(),
            position <= plane,
            forall|at: int|
                0 <= at < plane * 3 && at % (plane as int) < position ==> #[trigger] tensor@[at]
                    == tensor_element(*frame, source, at),
        decreases plane - position,
    {
        let x: usize = position % width;
        let y: usize = position / width;
        proof {
            lemma_fundamental_div_mod(position as int, width as int);
            assert(y < frame.height) by (nonlinear_arith)
                requires
                    position == width * y + x,
                    position < frame.width * frame.height,
                    width == frame.width,
                    0 <= x,
            ;
            frame::lemma_pixel_within(*frame, x as int, y as int);
            lemma_mul_nonnegative(y as int, row as int);
        }
        let offset: usize = y * row + x * 4;
        let ghost pixel = frame.pixel(x as int, y as int);
        let ghost before = tensor@;
        tensor[position] = normalized[frame.data[offset + 2] as usize];
        tensor[plane + position] = normalized[frame.data[offset + 1] as usize];
        tensor[plane * 2 + position] = normalized[frame.data[offset] as usize];
        proof {
            lemma_plane_position(0, position as int, plane as int);
            lemma_plane_position(1, position as int, plane as int);
            lemma_plane_position(2, position as int, plane as int);
            assert forall|at: int|
                0 <= at < plane * 3 && at % (plane as int) < position + 1 implies #[trigger] tensor@[at]
                == tensor_element(*frame, source, at) by {
                lemma_plane_positions(at, plane as int);
                if at % (plane as int) < position {
                    assert(before[at] == tensor_element(*frame, source, at));
                    assert(at != position && at != plane + position && at != plane * 2 + position);
                } else {
                    let channel = at / (plane as int);
                    assert(channel == 0 || channel == 1 || channel == 2);
                    assert(at == channel * plane + position);
                }
            }
        }
        position = position + 1;
    }
    proof {
        let expected = Seq::new(
            (frame.width * frame.height * 3) as nat,
            |at: int| tensor_element(*frame, normalized@, at),
        );
        assert forall|at: int| 0 <= at < expected.len() implies #[trigger] tensor@[at]
            == expected[at] by {
            lemma_plane_positions(at, plane as int);
        }
        assert(tensor@ =~= expected);
    }
    Ok(())
}

/// A four-dimensional tensor of single-precision numbers, by their bits.
#[verifier::external_body]
pub struct AlphaTensor {
    array: ndarray::Array4<u32>,
}

/// The lengths of a tensor's four axes.
pub uninterp spec fn alpha_shape(tensor: AlphaTensor) -> Seq<usize>;

/// A tensor's elements, the last axis varying fastest.
pub uninterp spec fn alpha_elements(tensor: AlphaTensor) -> Seq<u32>;

/// Whether a tensor's elements lie in memory in that order, without gaps.
pub uninterp spec fn alpha_is_standard(tensor: AlphaTensor) -> bool;

/// How many elements four axes span.
pub open spec fn shape_size(shape: Seq<usize>) -> int {
    shape[0] * shape[1] * shape[2] * shape[3]
}

/// The product of the axes that are not empty.
pub open spec fn shape_span(shape: Seq<usize>) -> int {
    axis_span(shape[0]) * axis_span(shape[1]) * axis_span(shape[2]) * axis_span(shape[3])
}

pub open spec fn axis_span(axis: usize) -> int {
    if axis == 0 {
        1
    } else {
        axis as int
    }
}

/// Elements with each row of `columns` from its last to its first.
pub open spec fn mirrored(elements: Seq<u32>, columns: usize) -> Seq<u32> {
    Seq::new(
        elements.len(),
        |i: int|
            elements[i / (columns as int) * columns + (columns - 1 - i % (columns as int))],
    )
}

impl AlphaTensor {
    /// Calls `ndarray::Array4::from_shape_vec`: it gives an array in standard
    /// layout that holds the values in their order, exactly when the shape
    /// spans as many elements as there are values and the product of its axes
    /// that are not empty fits an `isize`.
    #[verifier::external_body]
    fn from_shape_vec(shape: [usize; 4], values: Vec<u32>) -> (tensor: Option<AlphaTensor>)
        ensures
            tensor is Some <==> (shape_span(shape@) <= isize::MAX && shape_size(shape@)
                == values@.len()),
            tensor is Some ==> alpha_shape(tensor->0) == shape@,
            tensor is Some ==> alpha_elements(tensor->0) == values@,
            tensor is Some ==> alpha_is_standard(tensor->0),
    {
        match ndarray::Array4::from_shape_vec(shape, values) {
            Ok(array) => Some(AlphaTensor { array }),
            Err(_) => None,
        }
    }

    /// Calls `ndarray::ArrayBase::shape`, which gives the lengths of the axes.
    #[verifier::external_body]
    fn shape(&self) -> (shape: &[usize])
        ensures
            shape@ == alpha_shape(*self),
            shape@.len() == 4,
    {
        self.array.shape()
    }

    /// Calls `ndarray::ArrayBase::as_slice`, which gives the elements in their
    /// order exactly when the array is in standard layout.
    #[verifier::external_body]
    fn as_slice(&self) -> (elements: Option<&[u32]>)
        ensures
            elements is Some <==> alpha_is_standard(*self),
            elements is Some ==> (elements->0)@ == alpha_elements(*self),
            elements is Some ==> (elements->0)@.len() == shape_size(alpha_shape(*self)),
    {
        self.array.as_slice()
    }

    /// Indexes the `ndarray` array, which gives the element at a row and a
    /// column of the first plane.
    #[verifier::external_body]
    fn element(&self, row: usize, column: usize) -> (element: u32)
        requires
            alpha_shape(*self)[0] == 1,
            alpha_shape(*self)[1] == 1,
            row < alpha_shape(*self)[2],
            column < alpha_shape(*self)[3],
        ensures
            element == alpha_elements(*self)[row * alpha_shape(*self)[3] + column],
    {
        self.array[[0, 0, row, column]]
    }

    /// Calls `ndarray::ArrayBase::invert_axis` on the last axis, which turns the
    /// direction of that axis round and moves no element. So an array in standard
    /// layout stays in it only if it is empty or its rows hold no more than one
    /// element. What becomes of another layout is left unsaid.
    #[verifier::external_body]
    fn invert_last_axis(self) -> (tensor: AlphaTensor)
        ensures
            alpha_shape(tensor) == alpha_shape(self),
            alpha_elements(tensor) == mirrored(alpha_elements(self), alpha_shape(self)[3]),
            alpha_is_standard(self) ==> (alpha_is_standard(tensor) <==> alpha_shape(self)[3] <= 1
                || shape_size(alpha_shape(self)) == 0),
    {
        let mut array = self.array;
        array.invert_axis(ndarray::Axis(3));
        AlphaTensor { array }
    }

    /// A tensor of these elements, each row from its last to its first, if the shape
    /// spans as many. The elements lie in memory as they came.
    pub fn mirrored(shape: [usize; 4], values: Vec<u32>) -> (tensor: Option<AlphaTensor>)
        ensures
            tensor is Some <==> (shape_span(shape@) <= isize::MAX && shape_size(shape@)
                == values@.len()),
            tensor is Some ==> alpha_shape(tensor->0) == shape@,
            tensor is Some ==> alpha_elements(tensor->0) == mirrored(values@, shape@[3]),
            tensor is Some ==> (alpha_is_standard(tensor->0) <==> shape@[3] <= 1 || shape_size(
                shape@,
            ) == 0),
    {
        match AlphaTensor::from_shape_vec(shape, values) {
            Some(tensor) => Some(tensor.invert_last_axis()),
            None => None,
        }
    }

    /// A tensor of these elements, if the shape spans as many.
    pub fn new(shape: [usize; 4], values: Vec<u32>) -> (tensor: Option<AlphaTensor>)
        ensures
            tensor is Some <==> (shape_span(shape@) <= isize::MAX && shape_size(shape@)
                == values@.len()),
            tensor is Some ==> alpha_shape(tensor->0) == shape@,
            tensor is Some ==> alpha_elements(tensor->0) == values@,
            tensor is Some ==> alpha_is_standard(tensor->0),
    {
        AlphaTensor::from_shape_vec(shape, values)
    }
}

/// An alpha tensor is one plane that is not empty.
pub open spec fn is_alpha_shape(shape: Seq<usize>) -> bool {
    shape.len() == 4 && shape[0] == 1 && shape[1] == 1 && shape[2] > 0 && shape[3] > 0
}

pub fn validate_alpha_shape(shape: &[usize]) -> (result: Result<(), TensorError>)
    ensures
        result == (if is_alpha_shape(shape@) {
            Ok::<(), TensorError>(())
        } else {
            Err::<(), TensorError>(TensorError::InvalidAlphaShape)
        }),
{
    if shape.len() != 4 || shape[0] != 1 || shape[1] != 1 || shape[2] == 0 || shape[3] == 0 {
        return Err(TensorError::InvalidAlphaShape);
    }
    Ok(())
}

/// A grey, opaque picture; pixels without a value are transparent black.
pub open spec fn mask_bytes(values: Seq<u16>, pixels: nat) -> Seq<u8> {
    Seq::new(
        pixels * 4,
        |at: int|
            if at / 4 >= values.len() {
                0
            } else if at % 4 == 3 {
                255
            } else {
                values[at / 4] as u8
            },
    )
}

/// The mask that quantized values make, one for each pixel, row by row. A value
/// beyond a byte stands for a number that is not finite.
pub open spec fn mask_of(values: Seq<u16>, width: u32, height: u32) -> Result<
    Seq<u8>,
    TensorError,
> {
    if width * 4 > u32::MAX {
        Err(TensorError::MaskRowOverflow)
    } else if width * 4 * height > usize::MAX {
        Err(TensorError::MaskSizeOverflow)
    } else if exists|i: int| 0 <= i < values.len() && i < width * height && values[i] > 255 {
        Err(TensorError::NonFinite)
    } else if width == 0 || height == 0 {
        Err(TensorError::Frame(FrameError::ZeroDimensions { width, height }))
    } else {
        Ok(mask_bytes(values, (width * height) as nat))
    }
}

/// A frame is the mask that quantized values make.
pub open spec fn is_mask(
    result: Result<VideoFrame, TensorError>,
    values: Seq<u16>,
    width: u32,
    height: u32,
    time: MediaTime,
) -> bool {
    match (result, mask_of(values, width, height)) {
        (Ok(frame), Ok(bytes)) => {
            &&& frame.wf()
            &&& frame.is_compact()
            &&& frame.width == width
            &&& frame.height == height
            &&& frame.time == time
            &&& frame.data@ == bytes
        },
        (Err(error), Err(expected)) => error == expected,
        _ => false,
    }
}

/// Makes a mask of quantized values.
pub fn direct_alpha_to_mask(values: &[u16], width: u32, height: u32, time: MediaTime) -> (result:
    Result<VideoFrame, TensorError>)
    ensures
        is_mask(result, values@, width, height, time),
{
    let bytes_per_row: u32 = match width.checked_mul(4) {
        Some(bytes_per_row) => bytes_per_row,
        None => return Err(TensorError::MaskRowOverflow),
    };
    proof {
        frame::lemma_u32_product(bytes_per_row, height);
        frame::lemma_u32_product(width, height);
        assert(width * 4 * height == width * height * 4) by (nonlinear_arith);
    }
    let needed: u64 = bytes_per_row as u64 * height as u64;
    if needed > usize::MAX as u64 {
        return Err(TensorError::MaskSizeOverflow);
    }
    let pixels: usize = (width as u64 * height as u64) as usize;
    let mut data: Vec<u8> = Vec::with_capacity(needed as usize);
    let mut at: usize = 0;
    while at < pixels
        invariant
            at <= pixels,
            pixels == width * height,
            pixels * 4 <= usize::MAX,
            width * 4 <= u32::MAX,
            width * 4 * height <= usize::MAX,
            data@ == mask_bytes(values@, at as nat),
            forall|i: int| 0 <= i < values@.len() && i < at ==> values@[i] <= 255,
        decreases pixels - at,
    {
        let ghost before = data@;
        if at < values.len() {
            let value: u16 = values[at];
            if value > 255 {
                return Err(TensorError::NonFinite);
            }
            let alpha: u8 = value as u8;
            data.push(alpha);
            data.push(alpha);
            data.push(alpha);
            data.push(255);
        } else {
            data.push(0);
            data.push(0);
            data.push(0);
            data.push(0);
        }
        assert(data@ =~= mask_bytes(values@, (at + 1) as nat));
        at = at + 1;
    }
    match VideoFrame::new_bgra(width, height, bytes_per_row, time, data) {
        Ok(frame) => Ok(frame),
        Err(error) => Err(TensorError::Frame(error)),
    }
}

/// A grid so small that sampling at its own size is exact by arithmetic.
pub open spec fn is_small_grid(len: int) -> bool {
    len <= 2048 || (len <= 4096 && len % 2 == 0)
}

/// A coordinate that names one row or column alone. Both bit patterns are zero.
pub open spec fn is_exact(coordinate: SampleCoordinate, index: int) -> bool {
    coordinate.lower == index && (coordinate.weight == 0 || coordinate.weight == 0x8000_0000)
}

/// Whether `place` puts a row or column exactly on itself.
pub open spec fn falls_exactly<P: Fn(usize, usize, usize) -> (usize, u32)>(
    place: P,
    index: usize,
    len: usize,
    exact: bool,
) -> bool {
    exists|coordinate: SampleCoordinate| #[trigger]
        sampling::is_coordinate(place, index, len, len, coordinate) && is_exact(coordinate, index as int)
            == exact
}

/// What comes of asking whether sampling a grid at its own size is exact: it is
/// where the grid is small or `place` puts every row or column on itself, and it is
/// not where `place` puts one elsewhere.
pub open spec fn grid_verdict<P: Fn(usize, usize, usize) -> (usize, u32)>(
    place: P,
    len: usize,
    exact: bool,
) -> bool {
    if is_small_grid(len as int) {
        exact
    } else if exact {
        forall|index: usize| index < len ==> #[trigger] falls_exactly(place, index, len, true)
    } else {
        exists|index: usize| index < len && #[trigger] falls_exactly(place, index, len, false)
    }
}

/// Whether sampling a grid at its own size is exact.
pub fn exact_grid<P: Fn(usize, usize, usize) -> (usize, u32)>(len: usize, place: &P) -> (exact: bool)
    requires
        sampling::places_within(*place),
    ensures
        grid_verdict(*place, len, exact),
{
    if len <= 2048 || (len <= 4096 && len % 2 == 0) {
        return true;
    }
    let mut index: usize = 0;
    while index < len
        invariant
            index <= len,
            !is_small_grid(len as int),
            sampling::places_within(*place),
            forall|i: usize| i < index ==> #[trigger] falls_exactly(*place, i, len, true),
        decreases len - index,
    {
        let coordinate = source_coordinate(index, len, len, place);
        if coordinate.lower != index || (coordinate.weight != 0 && coordinate.weight
            != 0x8000_0000) {
            assert(falls_exactly(*place, index, len, false));
            return false;
        }
        assert(falls_exactly(*place, index, len, true));
        index = index + 1;
    }
    true
}

/// What comes of asking whether a mask can take the elements of a tensor of some
/// height and width one for one.
pub open spec fn identity_verdict<P: Fn(usize, usize, usize) -> (usize, u32)>(
    place: P,
    rows: usize,
    columns: usize,
    width: u32,
    height: u32,
    identity: bool,
) -> bool {
    if rows != height || columns != width {
        !identity
    } else if identity {
        grid_verdict(place, columns, true) && grid_verdict(place, rows, true)
    } else {
        grid_verdict(place, columns, false) || grid_verdict(place, rows, false)
    }
}

/// Whether a mask can take a tensor's elements one for one.
pub fn same_size_sampling_is_identity<P: Fn(usize, usize, usize) -> (usize, u32)>(
    shape: &[usize],
    width: u32,
    height: u32,
    place: &P,
) -> (identity: bool)
    requires
        shape@.len() == 4,
        sampling::places_within(*place),
    ensures
        identity_verdict(*place, shape@[2], shape@[3], width, height, identity),
{
    shape[2] == height as usize && shape[3] == width as usize && exact_grid(width as usize, place)
        && exact_grid(height as usize, place)
}

/// An element blended from the four round a place: along the row above, along
/// the row below, and then between the two.
pub open spec fn is_sample<M: Fn(u32, u32, u32) -> u32>(
    mix: M,
    tensor: AlphaTensor,
    x: SampleCoordinate,
    y: SampleCoordinate,
    value: u32,
) -> bool {
    exists|top: u32, bottom: u32| #[trigger]
        call_ensures(mix, (top, bottom, y.weight), value) && call_ensures(
            mix,
            (
                element_at(tensor, y.lower, x.lower),
                element_at(tensor, y.lower, x.upper),
                x.weight,
            ),
            top,
        ) && call_ensures(
            mix,
            (
                element_at(tensor, y.upper, x.lower),
                element_at(tensor, y.upper, x.upper),
                x.weight,
            ),
            bottom,
        )
}

/// The element at a row and a column of the first plane.
pub open spec fn element_at(tensor: AlphaTensor, row: usize, column: usize) -> u32 {
    alpha_elements(tensor)[row * alpha_shape(tensor)[3] + column]
}

/// Blends the four elements round a place.
pub fn sample_alpha<M: Fn(u32, u32, u32) -> u32>(
    alpha: &AlphaTensor,
    x: SampleCoordinate,
    y: SampleCoordinate,
    mix: &M,
) -> (value: u32)
    requires
        is_alpha_shape(alpha_shape(*alpha)),
        x.lower < alpha_shape(*alpha)[3],
        x.upper < alpha_shape(*alpha)[3],
        y.lower < alpha_shape(*alpha)[2],
        y.upper < alpha_shape(*alpha)[2],
        forall|from: u32, to: u32, amount: u32| call_requires(*mix, (from, to, amount)),
    ensures
        is_sample(*mix, *alpha, x, y, value),
{
    let top = mix(alpha.element(y.lower, x.lower), alpha.element(y.lower, x.upper), x.weight);
    let bottom = mix(alpha.element(y.upper, x.lower), alpha.element(y.upper, x.upper), x.weight);
    mix(top, bottom, y.weight)
}

/// The values of a mask that takes a tensor's elements one for one.
pub open spec fn are_direct_values<Q: Fn(u32) -> u16>(
    quantize: Q,
    tensor: AlphaTensor,
    values: Seq<u16>,
) -> bool {
    forall|i: int|
        0 <= i < values.len() ==> call_ensures(
            quantize,
            (alpha_elements(tensor)[i],),
            #[trigger] values[i],
        )
}

/// The value at `at` of a mask that samples a tensor at the mask's own size.
pub open spec fn is_sampled_value<
    Q: Fn(u32) -> u16,
    M: Fn(u32, u32, u32) -> u32,
    P: Fn(usize, usize, usize) -> (usize, u32),
>(
    quantize: Q,
    mix: M,
    place: P,
    tensor: AlphaTensor,
    width: u32,
    height: u32,
    at: int,
    value: u16,
) -> bool {
    exists|x: SampleCoordinate, y: SampleCoordinate, sample: u32|
        sampling::is_coordinate(
            place,
            (at % (width as int)) as usize,
            width as usize,
            alpha_shape(tensor)[3],
            x,
        ) && sampling::is_coordinate(
            place,
            (at / (width as int)) as usize,
            height as usize,
            alpha_shape(tensor)[2],
            y,
        ) && #[trigger] is_sample(mix, tensor, x, y, sample) && call_ensures(
            quantize,
            (sample,),
            value,
        )
}

/// The values of a mask that samples a tensor at the mask's own size.
pub open spec fn are_sampled_values<
    Q: Fn(u32) -> u16,
    M: Fn(u32, u32, u32) -> u32,
    P: Fn(usize, usize, usize) -> (usize, u32),
>(
    quantize: Q,
    mix: M,
    place: P,
    tensor: AlphaTensor,
    width: u32,
    height: u32,
    values: Seq<u16>,
) -> bool {
    forall|at: int|
        0 <= at < values.len() ==> is_sampled_value(
            quantize,
            mix,
            place,
            tensor,
            width,
            height,
            at,
            #[trigger] values[at],
        )
}

/// The quantized values of the mask that a tensor makes, row by row. A tensor
/// of the mask's size gives its elements where sampling would not change
/// them; any other is sampled.
pub open spec fn are_mask_values<
    Q: Fn(u32) -> u16,
    M: Fn(u32, u32, u32) -> u32,
    P: Fn(usize, usize, usize) -> (usize, u32),
>(
    quantize: Q,
    mix: M,
    place: P,
    tensor: AlphaTensor,
    width: u32,
    height: u32,
    values: Seq<u16>,
) -> bool {
    let rows = alpha_shape(tensor)[2];
    let columns = alpha_shape(tensor)[3];
    &&& values.len() == width * height
    &&& ({
        ||| identity_verdict(place, rows, columns, width, height, true) && alpha_is_standard(tensor)
            && are_direct_values(quantize, tensor, values)
        ||| (identity_verdict(place, rows, columns, width, height, false) || !alpha_is_standard(
            tensor,
        )) && are_sampled_values(quantize, mix, place, tensor, width, height, values)
    })
}

/// The mask that an alpha tensor makes, or why it makes none.
pub open spec fn is_alpha_mask<
    Q: Fn(u32) -> u16,
    M: Fn(u32, u32, u32) -> u32,
    P: Fn(usize, usize, usize) -> (usize, u32),
>(
    quantize: Q,
    mix: M,
    place: P,
    tensor: AlphaTensor,
    width: u32,
    height: u32,
    time: MediaTime,
    result: Result<VideoFrame, TensorError>,
) -> bool {
    if !is_alpha_shape(alpha_shape(tensor)) {
        result == Err::<VideoFrame, TensorError>(TensorError::InvalidAlphaShape)
    } else if width * 4 > u32::MAX {
        result == Err::<VideoFrame, TensorError>(TensorError::MaskRowOverflow)
    } else if width * 4 * height > usize::MAX {
        result == Err::<VideoFrame, TensorError>(TensorError::MaskSizeOverflow)
    } else {
        exists|values: Seq<u16>| #[trigger]
            is_mask(result, values, width, height, time) && are_mask_values(
                quantize,
                mix,
                place,
                tensor,
                width,
                height,
                values,
            )
    }
}

/// Makes a mask of an alpha tensor.
pub fn alpha_to_mask_f32<
    Q: Fn(u32) -> u16,
    M: Fn(u32, u32, u32) -> u32,
    P: Fn(usize, usize, usize) -> (usize, u32),
>(
    alpha: &AlphaTensor,
    width: u32,
    height: u32,
    time: MediaTime,
    quantize: &Q,
    mix: &M,
    place: &P,
) -> (result: Result<VideoFrame, TensorError>)
    requires
        forall|value: u32| call_requires(*quantize, (value,)),
        forall|from: u32, to: u32, amount: u32| call_requires(*mix, (from, to, amount)),
        sampling::places_within(*place),
    ensures
        is_alpha_mask(*quantize, *mix, *place, *alpha, width, height, time, result),
{
    let shape: &[usize] = alpha.shape();
    match validate_alpha_shape(shape) {
        Ok(()) => {},
        Err(error) => return Err(error),
    }
    let bytes_per_row: u32 = match width.checked_mul(4) {
        Some(bytes_per_row) => bytes_per_row,
        None => return Err(TensorError::MaskRowOverflow),
    };
    proof {
        frame::lemma_u32_product(bytes_per_row, height);
        frame::lemma_u32_product(width, height);
        assert(width * 4 * height == width * height * 4) by (nonlinear_arith);
    }
    if bytes_per_row as u64 * height as u64 > usize::MAX as u64 {
        return Err(TensorError::MaskSizeOverflow);
    }
    if same_size_sampling_is_identity(shape, width, height, place) {
        if let Some(elements) = alpha.as_slice() {
            let values = quantize_all(elements, quantize);
            let result = direct_alpha_to_mask(&values, width, height, time);
            assert(elements@.len() == width * height) by {
                assert(1 * 1 * height * width == width * height) by (nonlinear_arith);
            }
            assert(are_mask_values(*quantize, *mix, *place, *alpha, width, height, values@));
            return result;
        }
    }
    let values = sample_all(alpha, width, height, quantize, mix, place);
    let result = direct_alpha_to_mask(&values, width, height, time);
    assert(are_mask_values(*quantize, *mix, *place, *alpha, width, height, values@));
    result
}

fn quantize_all<Q: Fn(u32) -> u16>(elements: &[u32], quantize: &Q) -> (values: Vec<u16>)
    requires
        forall|value: u32| call_requires(*quantize, (value,)),
    ensures
        values@.len() == elements@.len(),
        forall|i: int|
            0 <= i < values@.len() ==> call_ensures(
                *quantize,
                (elements@[i],),
                #[trigger] values@[i],
            ),
{
    let mut values: Vec<u16> = Vec::with_capacity(elements.len());
    let mut at: usize = 0;
    while at < elements.len()
        invariant
            at <= elements@.len(),
            values@.len() == at,
            forall|value: u32| call_requires(*quantize, (value,)),
            forall|i: int|
                0 <= i < at ==> call_ensures(*quantize, (elements@[i],), #[trigger] values@[i]),
        decreases elements@.len() - at,
    {
        values.push(quantize(elements[at]));
        at = at + 1;
    }
    values
}

fn sample_all<
    Q: Fn(u32) -> u16,
    M: Fn(u32, u32, u32) -> u32,
    P: Fn(usize, usize, usize) -> (usize, u32),
>(
    alpha: &AlphaTensor,
    width: u32,
    height: u32,
    quantize: &Q,
    mix: &M,
    place: &P,
) -> (values: Vec<u16>)
    requires
        is_alpha_shape(alpha_shape(*alpha)),
        width * height <= usize::MAX,
        forall|value: u32| call_requires(*quantize, (value,)),
        forall|from: u32, to: u32, amount: u32| call_requires(*mix, (from, to, amount)),
        sampling::places_within(*place),
    ensures
        values@.len() == width * height,
        forall|at: int|
            0 <= at < values@.len() ==> is_sampled_value(
                *quantize,
                *mix,
                *place,
                *alpha,
                width,
                height,
                at,
                #[trigger] values@[at],
            ),
{
    let shape: &[usize] = alpha.shape();
    let source_x = sample_coordinates(width as usize, shape[3], place);
    let source_y = sample_coordinates(height as usize, shape[2], place);
    proof {
        frame::lemma_u32_product(width, height);
    }
    let pixels: usize = (width as u64 * height as u64) as usize;
    let columns: usize = width as usize;
    let mut values: Vec<u16> = Vec::with_capacity(pixels);
    let mut at: usize = 0;
    while at < pixels
        invariant
            at <= pixels,
            pixels == width * height,
            columns == width,
            shape@ == alpha_shape(*alpha),
            is_alpha_shape(alpha_shape(*alpha)),
            forall|value: u32| call_requires(*quantize, (value,)),
            forall|from: u32, to: u32, amount: u32| call_requires(*mix, (from, to, amount)),
            sampling::are_coordinates(*place, width as usize, shape@[3], source_x@),
            sampling::are_coordinates(*place, height as usize, shape@[2], source_y@),
            values@.len() == at,
            forall|i: int|
                0 <= i < at ==> is_sampled_value(
                    *quantize,
                    *mix,
                    *place,
                    *alpha,
                    width,
                    height,
                    i,
                    #[trigger] values@[i],
                ),
        decreases pixels - at,
    {
        assert(columns > 0) by (nonlinear_arith)
            requires
                at < columns * height,
                at >= 0,
                columns >= 0,
        ;
        let x: usize = at % columns;
        let y: usize = at / columns;
        proof {
            lemma_fundamental_div_mod(at as int, columns as int);
            assert(y < height) by (nonlinear_arith)
                requires
                    at == columns * y + x,
                    at < columns * height,
                    0 <= x,
            ;
        }
        let sample_x = source_x[x];
        let sample_y = source_y[y];
        let sample = sample_alpha(alpha, sample_x, sample_y, mix);
        let value: u16 = quantize(sample);
        assert(is_sample(*mix, *alpha, sample_x, sample_y, sample));
        assert(is_sampled_value(
            *quantize,
            *mix,
            *place,
            *alpha,
            width,
            height,
            at as int,
            value,
        ));
        values.push(value);
        at = at + 1;
    }
    values
}

/// A tensor of this shape whose elements are these halves, each made a
/// single-precision number by `widen`.
pub open spec fn is_widened<W: Fn(u16) -> u32>(
    widen: W,
    shape: Seq<usize>,
    halves: Seq<u16>,
    tensor: AlphaTensor,
) -> bool {
    &&& alpha_shape(tensor) == shape
    &&& alpha_is_standard(tensor)
    &&& alpha_elements(tensor).len() == halves.len()
    &&& forall|i: int|
        0 <= i < halves.len() ==> call_ensures(
            widen,
            (halves[i],),
            #[trigger] alpha_elements(tensor)[i],
        )
}

/// The mask that an alpha tensor of half-precision numbers makes, or why it makes none.
pub open spec fn is_half_mask<
    W: Fn(u16) -> u32,
    Q: Fn(u32) -> u16,
    M: Fn(u32, u32, u32) -> u32,
    P: Fn(usize, usize, usize) -> (usize, u32),
>(
    widen: W,
    quantize: Q,
    mix: M,
    place: P,
    shape: Seq<usize>,
    halves: Seq<u16>,
    width: u32,
    height: u32,
    time: MediaTime,
    result: Result<VideoFrame, TensorError>,
) -> bool {
    if shape_span(shape) > isize::MAX || shape_size(shape) != halves.len() {
        result == Err::<VideoFrame, TensorError>(TensorError::InvalidAlphaShape)
    } else {
        exists|tensor: AlphaTensor| #[trigger]
            is_widened(widen, shape, halves, tensor) && is_alpha_mask(
                quantize,
                mix,
                place,
                tensor,
                width,
                height,
                time,
                result,
            )
    }
}

/// Makes a mask of an alpha tensor of half-precision numbers, given by their
/// bits.
pub fn alpha_to_mask_f16<
    W: Fn(u16) -> u32,
    Q: Fn(u32) -> u16,
    M: Fn(u32, u32, u32) -> u32,
    P: Fn(usize, usize, usize) -> (usize, u32),
>(
    shape: [usize; 4],
    halves: &[u16],
    width: u32,
    height: u32,
    time: MediaTime,
    widen: &W,
    quantize: &Q,
    mix: &M,
    place: &P,
) -> (result: Result<VideoFrame, TensorError>)
    requires
        forall|half: u16| call_requires(*widen, (half,)),
        forall|value: u32| call_requires(*quantize, (value,)),
        forall|from: u32, to: u32, amount: u32| call_requires(*mix, (from, to, amount)),
        sampling::places_within(*place),
    ensures
        is_half_mask(
            *widen,
            *quantize,
            *mix,
            *place,
            shape@,
            halves@,
            width,
            height,
            time,
            result,
        ),
{
    let mut values: Vec<u32> = Vec::with_capacity(halves.len());
    let mut at: usize = 0;
    while at < halves.len()
        invariant
            at <= halves@.len(),
            values@.len() == at,
            forall|half: u16| call_requires(*widen, (half,)),
            forall|i: int|
                0 <= i < at ==> call_ensures(*widen, (halves@[i],), #[trigger] values@[i]),
        decreases halves@.len() - at,
    {
        values.push(widen(halves[at]));
        at = at + 1;
    }
    match AlphaTensor::new(shape, values) {
        None => Err(TensorError::InvalidAlphaShape),
        Some(tensor) => {
            let result = alpha_to_mask_f32(&tensor, width, height, time, quantize, mix, place);
            assert(is_widened(*widen, shape@, halves@, tensor));
            result
        },
    }
}

/// Only a frame's pixels count, not how its rows are padded: frames that show the
/// same make the same tensor.
pub proof fn law_padding_makes_no_difference<T>(
    a: VideoFrame,
    b: VideoFrame,
    normalized: Seq<T>,
    at: int,
)
    requires
        a.width == b.width,
        a.height == b.height,
        a.width > 0,
        a.height > 0,
        forall|x: int, y: int|
            0 <= x < a.width && 0 <= y < a.height ==> #[trigger] a.pixel(x, y) == b.pixel(x, y),
        0 <= at < a.width * a.height * 3,
    ensures
        tensor_element(a, normalized, at) == tensor_element(b, normalized, at),
{
    let plane = a.width * a.height;
    assert(plane > 0) by (nonlinear_arith)
        requires
            plane == a.width * a.height,
            a.width > 0,
            a.height > 0,
    ;
    lemma_plane_positions(at, plane);
    let position = at % plane;
    lemma_fundamental_div_mod(position, a.width as int);
    lemma_mod_bound(position, a.width as int);
    let x = position % (a.width as int);
    let y = position / (a.width as int);
    assert(0 <= y < a.height) by (nonlinear_arith)
        requires
            position == a.width * y + x,
            0 <= position < a.width * a.height,
            0 <= x < a.width,
    ;
    assert(a.pixel(x, y) == b.pixel(x, y));
}

/// A mask is grey and opaque everywhere.
pub proof fn law_masks_are_grey_and_opaque(
    frame: VideoFrame,
    values: Seq<u16>,
    width: u32,
    height: u32,
    time: MediaTime,
    at: int,
)
    requires
        is_mask(Ok(frame), values, width, height, time),
        values.len() == width * height,
        0 <= at < width * height,
    ensures
        frame.data@.len() == width * height * 4,
        values[at] <= 255,
        frame.data@[at * 4] == values[at],
        frame.data@[at * 4 + 1] == values[at],
        frame.data@[at * 4 + 2] == values[at],
        frame.data@[at * 4 + 3] == 255,
{
    let pixels = (width * height) as nat;
    assert(frame.data@ == mask_bytes(values, pixels));
    assert((at * 4) / 4 == at && (at * 4 + 1) / 4 == at && (at * 4 + 2) / 4 == at && (at * 4 + 3) / 4
        == at);
}

/// Mixing nothing of the second value into the first gives what is quantized as
/// the first, unless what it gives is not finite.
pub open spec fn keeps_first<Q: Fn(u32) -> u16, M: Fn(u32, u32, u32) -> u32>(
    quantize: Q,
    mix: M,
) -> bool {
    forall|from: u32, to: u32, amount: u32, mixed: u32, value: u16|
        #![trigger call_ensures(mix, (from, to, amount), mixed), call_ensures(quantize, (mixed,), value)]
        (amount == 0 || amount == 0x8000_0000) && call_ensures(mix, (from, to, amount), mixed)
            && call_ensures(quantize, (mixed,), value) && value <= 255 ==> call_ensures(
            quantize,
            (from,),
            value,
        )
}

/// Sampling a tensor at its own size, where every row and column falls on itself,
/// gives what taking its elements one for one gives.
pub proof fn law_exact_sampling_is_direct<
    Q: Fn(u32) -> u16,
    M: Fn(u32, u32, u32) -> u32,
    P: Fn(usize, usize, usize) -> (usize, u32),
>(
    quantize: Q,
    mix: M,
    place: P,
    tensor: AlphaTensor,
    width: u32,
    height: u32,
    values: Seq<u16>,
)
    requires
        alpha_shape(tensor)[2] == height,
        alpha_shape(tensor)[3] == width,
        sampling::places_on_itself(place, width as usize),
        sampling::places_on_itself(place, height as usize),
        keeps_first(quantize, mix),
        values.len() == width * height,
        are_sampled_values(quantize, mix, place, tensor, width, height, values),
        forall|at: int| 0 <= at < values.len() ==> #[trigger] values[at] <= 255,
    ensures
        are_direct_values(quantize, tensor, values),
{
    assert forall|at: int| 0 <= at < values.len() implies call_ensures(
        quantize,
        (alpha_elements(tensor)[at],),
        #[trigger] values[at],
    ) by {
        assert(is_sampled_value(quantize, mix, place, tensor, width, height, at, values[at]));
        let (x, y, sample) = choose|x: SampleCoordinate, y: SampleCoordinate, sample: u32|
            sampling::is_coordinate(
                place,
                (at % (width as int)) as usize,
                width as usize,
                alpha_shape(tensor)[3],
                x,
            ) && sampling::is_coordinate(
                place,
                (at / (width as int)) as usize,
                height as usize,
                alpha_shape(tensor)[2],
                y,
            ) && #[trigger] is_sample(mix, tensor, x, y, sample) && call_ensures(
                quantize,
                (sample,),
                values[at],
            );
        assert(width > 0) by (nonlinear_arith)
            requires
                0 <= at < width * height,
                width >= 0,
        ;
        let column = at % (width as int);
        let row = at / (width as int);
        lemma_fundamental_div_mod(at, width as int);
        lemma_mod_bound(at, width as int);
        assert(0 <= row < height) by (nonlinear_arith)
            requires
                at == width * row + column,
                0 <= at < width * height,
                0 <= column < width,
        ;
        assert(x.lower == column);
        assert(y.lower == row);
        let (top, bottom) = choose|top: u32, bottom: u32| #[trigger]
            call_ensures(mix, (top, bottom, y.weight), sample) && call_ensures(
                mix,
                (
                    element_at(tensor, y.lower, x.lower),
                    element_at(tensor, y.lower, x.upper),
                    x.weight,
                ),
                top,
            ) && call_ensures(
                mix,
                (
                    element_at(tensor, y.upper, x.lower),
                    element_at(tensor, y.upper, x.upper),
                    x.weight,
                ),
                bottom,
            );
        assert(call_ensures(quantize, (top,), values[at]));
        assert(call_ensures(quantize, (element_at(tensor, y.lower, x.lower),), values[at]));
        lemma_mul_is_commutative(width as int, row);
        assert(element_at(tensor, y.lower, x.lower) == alpha_elements(tensor)[at]);
    }
}

/// `quantize` gives one answer to one question.
pub open spec fn quantizes_alike<Q: Fn(u32) -> u16>(quantize: Q) -> bool {
    forall|number: u32, value: u16, again: u16| #[trigger]
        call_ensures(quantize, (number,), value) && #[trigger] call_ensures(
            quantize,
            (number,),
            again,
        ) ==> value == again
}

/// How a tensor lies in memory makes no difference to a mask of its size: where one
/// that has to be sampled makes a mask, one in standard layout that shows the same
/// makes the same.
pub proof fn law_layout_makes_no_difference<
    Q: Fn(u32) -> u16,
    M: Fn(u32, u32, u32) -> u32,
    P: Fn(usize, usize, usize) -> (usize, u32),
>(
    quantize: Q,
    mix: M,
    place: P,
    tensor: AlphaTensor,
    other: AlphaTensor,
    width: u32,
    height: u32,
    time: MediaTime,
    direct: Result<VideoFrame, TensorError>,
    sampled: Result<VideoFrame, TensorError>,
)
    requires
        alpha_shape(tensor) == alpha_shape(other),
        alpha_elements(tensor) == alpha_elements(other),
        alpha_is_standard(tensor),
        alpha_shape(tensor)[2] == height,
        alpha_shape(tensor)[3] == width,
        is_small_grid(width as int),
        is_small_grid(height as int),
        sampling::places_on_itself(place, width as usize),
        sampling::places_on_itself(place, height as usize),
        quantizes_alike(quantize),
        keeps_first(quantize, mix),
        is_alpha_mask(quantize, mix, place, tensor, width, height, time, direct),
        is_alpha_mask(quantize, mix, place, other, width, height, time, sampled),
        sampled is Ok,
    ensures
        direct is Ok,
        direct->Ok_0.data@ == sampled->Ok_0.data@,
{
    let ours = choose|values: Seq<u16>| #[trigger]
        is_mask(direct, values, width, height, time) && are_mask_values(
            quantize,
            mix,
            place,
            tensor,
            width,
            height,
            values,
        );
    let theirs = choose|values: Seq<u16>| #[trigger]
        is_mask(sampled, values, width, height, time) && are_mask_values(
            quantize,
            mix,
            place,
            other,
            width,
            height,
            values,
        );
    assert forall|at: int| 0 <= at < theirs.len() implies #[trigger] theirs[at] <= 255 by {
        law_masks_are_grey_and_opaque(sampled->Ok_0, theirs, width, height, time, at);
    }
    if !alpha_is_standard(other) {
        law_exact_sampling_is_direct(quantize, mix, place, other, width, height, theirs);
    }
    assert forall|at: int| 0 <= at < ours.len() implies #[trigger] ours[at] == theirs[at] by {
        let number = alpha_elements(tensor)[at];
        assert(call_ensures(quantize, (number,), ours[at]));
        assert(call_ensures(quantize, (number,), theirs[at]));
    }
    assert(ours =~= theirs);
}

/// A tensor of half-precision numbers makes a mask of its own size exactly if none of
/// them is beyond a byte, and the mask shows each of them in its place: grey and
/// opaque. Here `shade` is what `quantize` makes of what `widen` makes of a number.
pub proof fn law_half_masks_show_their_elements<
    W: Fn(u16) -> u32,
    Q: Fn(u32) -> u16,
    M: Fn(u32, u32, u32) -> u32,
    P: Fn(usize, usize, usize) -> (usize, u32),
>(
    widen: W,
    quantize: Q,
    mix: M,
    place: P,
    shade: spec_fn(u16) -> u16,
    halves: Seq<u16>,
    width: u32,
    height: u32,
    time: MediaTime,
    result: Result<VideoFrame, TensorError>,
)
    requires
        forall|half: u16, number: u32, value: u16| #[trigger]
            call_ensures(widen, (half,), number) && #[trigger] call_ensures(
                quantize,
                (number,),
                value,
            ) ==> value == shade(half),
        1 <= width <= 2048,
        1 <= height <= 2048,
        halves.len() == width * height,
        is_half_mask(
            widen,
            quantize,
            mix,
            place,
            seq![1usize, 1usize, height as usize, width as usize],
            halves,
            width,
            height,
            time,
            result,
        ),
    ensures
        result is Ok <==> forall|i: int|
            0 <= i < halves.len() ==> shade(#[trigger] halves[i]) <= 255,
        result is Err ==> result == Err::<VideoFrame, TensorError>(TensorError::NonFinite),
        result matches Ok(frame) ==> {
            &&& frame.width == width
            &&& frame.height == height
            &&& frame.bytes_per_row == 4 * width
            &&& frame.time == time
            &&& frame.data@.len() == 4 * halves.len()
            &&& forall|i: int|
                0 <= i < halves.len() ==> {
                    let value = shade(#[trigger] halves[i]) as u8;
                    frame.data@.subrange(4 * i, 4 * i + 4) == seq![value, value, value, 255u8]
                }
        },
{
    let shape = seq![1usize, 1usize, height as usize, width as usize];
    assert(width * height <= 2048 * 2048) by (nonlinear_arith)
        requires
            0 <= width <= 2048,
            0 <= height <= 2048,
    ;
    assert(1 * 1 * height * width == width * height) by (nonlinear_arith);
    assert(width * 4 * height == width * height * 4) by (nonlinear_arith);
    let tensor = choose|tensor: AlphaTensor| #[trigger]
        is_widened(widen, shape, halves, tensor) && is_alpha_mask(
            quantize,
            mix,
            place,
            tensor,
            width,
            height,
            time,
            result,
        );
    let values = choose|values: Seq<u16>| #[trigger]
        is_mask(result, values, width, height, time) && are_mask_values(
            quantize,
            mix,
            place,
            tensor,
            width,
            height,
            values,
        );
    assert forall|i: int| 0 <= i < halves.len() implies #[trigger] values[i] == shade(
        halves[i],
    ) by {
        let number = alpha_elements(tensor)[i];
        assert(call_ensures(widen, (halves[i],), number));
        assert(call_ensures(quantize, (number,), values[i]));
    }
    if let Ok(frame) = result {
        assert forall|i: int| 0 <= i < halves.len() implies {
            let value = shade(#[trigger] halves[i]) as u8;
            frame.data@.subrange(4 * i, 4 * i + 4) == seq![value, value, value, 255u8]
        } by {
            law_masks_are_grey_and_opaque(frame, values, width, height, time, i);
            let value = shade(halves[i]) as u8;
            assert(frame.data@.subrange(4 * i, 4 * i + 4) =~= seq![value, value, value, 255u8]);
        }
        assert forall|i: int| 0 <= i < halves.len() implies shade(#[trigger] halves[i]) <= 255 by {
            assert(values[i] <= 255);
        }
    } else {
        let i = choose|i: int| 0 <= i < values.len() && i < width * height && values[i] > 255;
        assert(shade(halves[i]) > 255);
    }
}

/// A half-precision number, by its bits, that is neither infinite nor no number.
pub open spec fn half_is_finite(half: u16) -> bool {
    half / 0x400 % 32 != 31
}

/// How large a half-precision number is, by its bits and without its sign, in units of
/// the smallest there is: one is 2 to the 24th of them.
pub open spec fn half_magnitude(half: u16) -> nat {
    let exponent = half / 0x400 % 32;
    let fraction = half % 0x400;
    if exponent == 0 {
        fraction as nat
    } else {
        ((0x400 + fraction) * pow2((exponent - 1) as nat)) as nat
    }
}

/// A half-precision number, by its bits, as a byte: kept between nothing and one, taken
/// 255 times and rounded to the nearest, upwards from the middle.
pub open spec fn half_shade(half: u16) -> u8 {
    if half >= 0x8000 {
        0
    } else if half_magnitude(half) >= 0x100_0000 {
        255
    } else {
        ((half_magnitude(half) * 510 + 0x100_0000) / 0x200_0000) as u8
    }
}

/// `quantize` makes of what `widen` makes of a half-precision number that number's byte,
/// or 256 where the number is not finite.
pub open spec fn shades_halves<W: Fn(u16) -> u32, Q: Fn(u32) -> u16>(widen: W, quantize: Q) -> bool {
    forall|half: u16, number: u32, value: u16| #[trigger]
        call_ensures(widen, (half,), number) && #[trigger] call_ensures(quantize, (number,), value)
            ==> value == (if half_is_finite(half) {
            half_shade(half) as u16
        } else {
            256
        })
}

/// A tensor of half-precision numbers makes a mask of its own size exactly if each of
/// them is finite, and the mask shows the byte of each in its place, grey and opaque.
/// So tensors of equal numbers make equal masks, however the numbers lay in memory.
pub proof fn law_half_masks_are_exact<
    W: Fn(u16) -> u32,
    Q: Fn(u32) -> u16,
    M: Fn(u32, u32, u32) -> u32,
    P: Fn(usize, usize, usize) -> (usize, u32),
>(
    widen: W,
    quantize: Q,
    mix: M,
    place: P,
    halves: Seq<u16>,
    width: u32,
    height: u32,
    time: MediaTime,
    result: Result<VideoFrame, TensorError>,
)
    requires
        shades_halves(widen, quantize),
        1 <= width <= 2048,
        1 <= height <= 2048,
        halves.len() == width * height,
        is_half_mask(
            widen,
            quantize,
            mix,
            place,
            seq![1usize, 1usize, height as usize, width as usize],
            halves,
            width,
            height,
            time,
            result,
        ),
    ensures
        result is Ok <==> forall|i: int|
            0 <= i < halves.len() ==> half_is_finite(#[trigger] halves[i]),
        result is Err ==> result == Err::<VideoFrame, TensorError>(TensorError::NonFinite),
        result matches Ok(frame) ==> {
            &&& frame.width == width
            &&& frame.height == height
            &&& frame.bytes_per_row == 4 * width
            &&& frame.time == time
            &&& frame.data@.len() == 4 * halves.len()
            &&& forall|i: int|
                0 <= i < halves.len() ==> {
                    let byte = half_shade(#[trigger] halves[i]);
                    frame.data@.subrange(4 * i, 4 * i + 4) == seq![byte, byte, byte, 255u8]
                }
        },
{
    let shade = |half: u16|
        if half_is_finite(half) {
            half_shade(half) as u16
        } else {
            256u16
        };
    law_half_masks_show_their_elements(
        widen,
        quantize,
        mix,
        place,
        shade,
        halves,
        width,
        height,
        time,
        result,
    );
    assert forall|i: int| 0 <= i < halves.len() implies (shade(#[trigger] halves[i]) <= 255
        <==> half_is_finite(halves[i])) by {}
    if let Ok(frame) = result {
        assert forall|i: int| 0 <= i < halves.len() implies half_is_finite(#[trigger] halves[i])
            && shade(halves[i]) as u8 == half_shade(halves[i]) by {
            assert(shade(halves[i]) <= 255);
        }
    }
}

/// A frame fills a tensor of three planes of its own size, red, green and blue, each row
/// by row from the top: the element of a channel at a row and a column is what the table
/// makes of the frame's byte there, which has blue first.
pub proof fn law_tensors_show_the_frame<T>(
    frame: VideoFrame,
    normalized: Seq<T>,
    tensor: Seq<T>,
    x: int,
    y: int,
    channel: int,
)
    requires
        preprocess_check(frame, tensor.len()) is Ok,
        tensor == Seq::new(
            (frame.width * frame.height * 3) as nat,
            |at: int| tensor_element(frame, normalized, at),
        ),
        frame.data@.len() <= usize::MAX,
        0 <= x < frame.width,
        0 <= y < frame.height,
        0 <= channel < 3,
    ensures
        tensor.len() == 3 * (frame.width * frame.height),
        0 <= y * frame.bytes_per_row + 4 * x + 2 - channel < frame.data@.len(),
        tensor[channel * (frame.width * frame.height) + y * frame.width + x]
            == normalized[frame.data@[y * frame.bytes_per_row + 4 * x + 2 - channel] as int],
{
    let plane = frame.width * frame.height;
    let position = y * frame.width + x;
    frame::lemma_pixel_within(frame, x, y);
    frame::lemma_flat_position(x, y, frame.width as int);
    assert(0 <= position < plane) by (nonlinear_arith)
        requires
            position == y * frame.width + x,
            plane == frame.width * frame.height,
            0 <= x < frame.width,
            0 <= y < frame.height,
    ;
    lemma_plane_position(channel, position, plane);
    assert(0 <= channel * plane + position < 3 * plane) by (nonlinear_arith)
        requires
            0 <= channel < 3,
            0 <= position < plane,
    ;
    assert(frame.pixel(x, y)[2 - channel] == frame.data@[y * frame.bytes_per_row + 4 * x + 2
        - channel]);
}

/// A frame fills a tensor exactly if its rows lie in its bytes and the tensor has three
/// elements for each of its pixels.
pub proof fn law_tensors_of_the_frames_size_are_filled(frame: VideoFrame, len: nat)
    requires
        frame.data@.len() <= usize::MAX,
        len <= usize::MAX,
    ensures
        preprocess_check(frame, len) is Ok <==> {
            &&& frame.width > 0 && frame.height > 0
            &&& 4 * frame.width <= frame.bytes_per_row
            &&& frame.bytes_per_row * frame.height <= frame.data@.len()
            &&& len == 3 * (frame.width * frame.height)
        },
{
    frame::lemma_u32_product(frame.width, frame.height);
}

/// The value of a mask's pixel that is sampled is quantized from a mixture: the tensor's elements
/// in the row above are mixed along the row, so are those in the row below, and the two are mixed
/// downwards, at the place of the pixel's column among the tensor's columns and of its row among
/// the tensor's rows. The pixel is grey of that value, and opaque.
pub proof fn law_sampled_masks_mix_the_neighbours<
    Q: Fn(u32) -> u16,
    M: Fn(u32, u32, u32) -> u32,
    P: Fn(usize, usize, usize) -> (usize, u32),
>(
    quantize: Q,
    mix: M,
    place: P,
    tensor: AlphaTensor,
    width: u32,
    height: u32,
    time: MediaTime,
    frame: VideoFrame,
    x: int,
    y: int,
) -> (found: (SampleCoordinate, SampleCoordinate, u32, u32, u32))
    requires
        is_alpha_mask(quantize, mix, place, tensor, width, height, time, Ok(frame)),
        alpha_shape(tensor)[2] != height || alpha_shape(tensor)[3] != width,
        0 <= x < width,
        0 <= y < height,
    ensures
        frame.width == width,
        frame.height == height,
        frame.time == time,
        frame.bytes_per_row == 4 * width,
        frame.data@.len() == 4 * (width * height),
        ({
            let (across, down, top, bottom, sample) = found;
            let columns = alpha_shape(tensor)[3];
            let elements = alpha_elements(tensor);
            let at = 4 * (y * width + x);
            let value = frame.data@[at];
            &&& sampling::is_coordinate(place, x as usize, width as usize, columns, across)
            &&& sampling::is_coordinate(
                place,
                y as usize,
                height as usize,
                alpha_shape(tensor)[2],
                down,
            )
            &&& call_ensures(
                mix,
                (
                    elements[down.lower * columns + across.lower],
                    elements[down.lower * columns + across.upper],
                    across.weight,
                ),
                top,
            )
            &&& call_ensures(
                mix,
                (
                    elements[down.upper * columns + across.lower],
                    elements[down.upper * columns + across.upper],
                    across.weight,
                ),
                bottom,
            )
            &&& call_ensures(mix, (top, bottom, down.weight), sample)
            &&& call_ensures(quantize, (sample,), value as u16)
            &&& frame.data@[at + 1] == value && frame.data@[at + 2] == value
            &&& frame.data@[at + 3] == 255
        }),
{
    let values = choose|values: Seq<u16>| #[trigger]
        is_mask(Ok(frame), values, width, height, time) && are_mask_values(
            quantize,
            mix,
            place,
            tensor,
            width,
            height,
            values,
        );
    let at = y * width + x;
    frame::lemma_flat_position(x, y, width as int);
    assert(0 <= at < width * height) by (nonlinear_arith)
        requires
            at == y * width + x,
            0 <= x < width,
            0 <= y < height,
    ;
    law_masks_are_grey_and_opaque(frame, values, width, height, time, at);
    assert(is_sampled_value(quantize, mix, place, tensor, width, height, at, values[at]));
    let (across, down, sample) = choose|x: SampleCoordinate, y: SampleCoordinate, sample: u32|
        sampling::is_coordinate(
            place,
            (at % (width as int)) as usize,
            width as usize,
            alpha_shape(tensor)[3],
            x,
        ) && sampling::is_coordinate(
            place,
            (at / (width as int)) as usize,
            height as usize,
            alpha_shape(tensor)[2],
            y,
        ) && #[trigger] is_sample(mix, tensor, x, y, sample) && call_ensures(
            quantize,
            (sample,),
            values[at],
        );
    let (top, bottom) = choose|top: u32, bottom: u32| #[trigger]
        call_ensures(mix, (top, bottom, down.weight), sample) && call_ensures(
            mix,
            (
                element_at(tensor, down.lower, across.lower),
                element_at(tensor, down.lower, across.upper),
                across.weight,
            ),
            top,
        ) && call_ensures(
            mix,
            (
                element_at(tensor, down.upper, across.lower),
                element_at(tensor, down.upper, across.upper),
                across.weight,
            ),
            bottom,
        );
    (across, down, top, bottom, sample)
}

/// Quantized values make a mask exactly if it has some width and height, it can be counted, and
/// none of its values is beyond a byte.
pub proof fn law_masks_are_made_of_bytes(values: Seq<u16>, width: u32, height: u32)
    requires
        values.len() == width * height,
    ensures
        mask_of(values, width, height) is Ok <==> {
            &&& width > 0 && height > 0
            &&& 4 * width <= u32::MAX
            &&& 4 * (width * height) <= usize::MAX
            &&& forall|i: int| 0 <= i < values.len() ==> #[trigger] values[i] <= 255
        },
{
    assert(width * 4 * height == 4 * (width * height)) by (nonlinear_arith);
    if width > 0 && height > 0 && 4 * width <= u32::MAX && 4 * (width * height) <= usize::MAX {
        if forall|i: int| 0 <= i < values.len() ==> #[trigger] values[i] <= 255 {
            assert(!(exists|i: int|
                0 <= i < values.len() && i < width * height && values[i] > 255));
        } else {
            let i = choose|i: int| 0 <= i < values.len() && #[trigger] values[i] > 255;
            assert(values[i] > 255);
        }
    }
}

/// A tensor of one plane makes a mask of any size that can be counted, where every number in it and
/// every mixture of them can be quantized to a byte.
pub proof fn law_alpha_tensors_make_masks<
    Q: Fn(u32) -> u16,
    M: Fn(u32, u32, u32) -> u32,
    P: Fn(usize, usize, usize) -> (usize, u32),
>(
    quantize: Q,
    mix: M,
    place: P,
    tensor: AlphaTensor,
    width: u32,
    height: u32,
    time: MediaTime,
    result: Result<VideoFrame, TensorError>,
)
    requires
        is_alpha_mask(quantize, mix, place, tensor, width, height, time, result),
        alpha_shape(tensor).len() == 4,
        width > 0,
        height > 0,
        4 * width <= u32::MAX,
        4 * (width * height) <= usize::MAX,
        forall|number: u32, value: u16| #[trigger]
            call_ensures(quantize, (number,), value) ==> value <= 255,
    ensures
        result is Ok <==> alpha_shape(tensor)[0] == 1 && alpha_shape(tensor)[1] == 1 && alpha_shape(
            tensor,
        )[2] > 0 && alpha_shape(tensor)[3] > 0,
{
    assert(width * 4 * height == 4 * (width * height)) by (nonlinear_arith);
    if is_alpha_shape(alpha_shape(tensor)) {
        let values = choose|values: Seq<u16>| #[trigger]
            is_mask(result, values, width, height, time) && are_mask_values(
                quantize,
                mix,
                place,
                tensor,
                width,
                height,
                values,
            );
        law_masks_are_made_of_bytes(values, width, height);
        assert forall|i: int| 0 <= i < values.len() implies #[trigger] values[i] <= 255 by {
            if are_direct_values(quantize, tensor, values) {
                assert(call_ensures(quantize, (alpha_elements(tensor)[i],), values[i]));
            } else {
                assert(is_sampled_value(
                    quantize,
                    mix,
                    place,
                    tensor,
                    width,
                    height,
                    i,
                    values[i],
                ));
            }
        }
    }
}

/// A length at which sampling at its own size changes nothing: up to 2048, and even ones up to 4096.
pub open spec fn is_plain_length(len: u32) -> bool {
    len <= 2048 || (len <= 4096 && len % 2 == 0)
}

/// A mask of a tensor's own size takes its elements one for one, where the tensor lies in order and
/// neither its width nor its height is so large that sampling may change something.
pub proof fn law_plain_sizes_are_taken_one_for_one<
    Q: Fn(u32) -> u16,
    M: Fn(u32, u32, u32) -> u32,
    P: Fn(usize, usize, usize) -> (usize, u32),
>(
    quantize: Q,
    mix: M,
    place: P,
    tensor: AlphaTensor,
    width: u32,
    height: u32,
    time: MediaTime,
    frame: VideoFrame,
    at: int,
)
    requires
        is_alpha_mask(quantize, mix, place, tensor, width, height, time, Ok(frame)),
        alpha_is_standard(tensor),
        alpha_shape(tensor)[2] == height,
        alpha_shape(tensor)[3] == width,
        is_plain_length(width),
        is_plain_length(height),
        0 <= at < width * height,
    ensures
        call_ensures(quantize, (alpha_elements(tensor)[at],), frame.data@[4 * at] as u16),
        frame.data@[4 * at + 1] == frame.data@[4 * at],
        frame.data@[4 * at + 2] == frame.data@[4 * at],
        frame.data@[4 * at + 3] == 255,
{
    let values = choose|values: Seq<u16>| #[trigger]
        is_mask(Ok(frame), values, width, height, time) && are_mask_values(
            quantize,
            mix,
            place,
            tensor,
            width,
            height,
            values,
        );
    law_masks_are_grey_and_opaque(frame, values, width, height, time, at);
    assert(call_ensures(quantize, (alpha_elements(tensor)[at],), values[at]));
}

/// `place` never puts a row or column on itself alone.
pub open spec fn places_elsewhere<P: Fn(usize, usize, usize) -> (usize, u32)>(
    place: P,
    index: usize,
    len: usize,
) -> bool {
    forall|placed: (usize, u32)| #[trigger]
        call_ensures(place, (index, len, len), placed) ==> placed.0 != index
            || !sampling::is_weightless(placed.1)
}

/// A mask of a tensor's own size is sampled where some row or column of a large one is not put on
/// itself, and so is one of a tensor that does not lie in order.
pub proof fn law_other_sizes_are_sampled<
    Q: Fn(u32) -> u16,
    M: Fn(u32, u32, u32) -> u32,
    P: Fn(usize, usize, usize) -> (usize, u32),
>(
    quantize: Q,
    mix: M,
    place: P,
    tensor: AlphaTensor,
    width: u32,
    height: u32,
    time: MediaTime,
    result: Result<VideoFrame, TensorError>,
    index: usize,
) -> (values: Seq<u16>)
    requires
        is_alpha_mask(quantize, mix, place, tensor, width, height, time, result),
        is_alpha_shape(alpha_shape(tensor)),
        4 * width <= u32::MAX,
        width * 4 * height <= usize::MAX,
        ({
            ||| !alpha_is_standard(tensor)
            ||| alpha_shape(tensor)[2] != height || alpha_shape(tensor)[3] != width
            ||| !is_plain_length(width) && index < width && places_elsewhere(
                place,
                index,
                width as usize,
            )
            ||| !is_plain_length(height) && index < height && places_elsewhere(
                place,
                index,
                height as usize,
            )
        }),
    ensures
        is_mask(result, values, width, height, time),
        values.len() == width * height,
        are_sampled_values(quantize, mix, place, tensor, width, height, values),
{
    let values = choose|values: Seq<u16>| #[trigger]
        is_mask(result, values, width, height, time) && are_mask_values(
            quantize,
            mix,
            place,
            tensor,
            width,
            height,
            values,
        );
    if alpha_shape(tensor)[2] == height && alpha_shape(tensor)[3] == width {
        if !is_plain_length(width) && index < width && places_elsewhere(
            place,
            index,
            width as usize,
        ) {
            lemma_elsewhere_is_not_exact(place, index, width as usize);
        }
        if !is_plain_length(height) && index < height && places_elsewhere(
            place,
            index,
            height as usize,
        ) {
            lemma_elsewhere_is_not_exact(place, index, height as usize);
        }
    }
    values
}

proof fn lemma_elsewhere_is_not_exact<P: Fn(usize, usize, usize) -> (usize, u32)>(
    place: P,
    index: usize,
    len: usize,
)
    requires
        len > 2048,
        !is_small_grid(len as int),
        index < len,
        places_elsewhere(place, index, len),
    ensures
        !grid_verdict(place, len, true),
{
    if grid_verdict(place, len, true) {
        assert(falls_exactly(place, index, len, true));
        let coordinate = choose|coordinate: SampleCoordinate| #[trigger]
            sampling::is_coordinate(place, index, len, len, coordinate) && is_exact(
                coordinate,
                index as int,
            ) == true;
        assert(call_ensures(place, (index, len, len), (coordinate.lower, coordinate.weight)));
    }
}

/// Mirrored elements have each row from its last to its first.
pub proof fn law_mirrored_rows_are_reversed(
    elements: Seq<u32>,
    columns: usize,
    row: int,
    column: int,
)
    requires
        0 <= column < columns,
        0 <= row,
        (row + 1) * columns <= elements.len(),
    ensures
        mirrored(elements, columns).len() == elements.len(),
        mirrored(elements, columns)[row * columns + column] == elements[row * columns + (columns - 1
            - column)],
{
    frame::lemma_flat_position(column, row, columns as int);
    assert(0 <= row * columns + column < elements.len()) by (nonlinear_arith)
        requires
            0 <= column < columns,
            0 <= row,
            (row + 1) * columns <= elements.len(),
    ;
}

} // verus!
