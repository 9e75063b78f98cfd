//! BGRA video frames, their timestamps and right-angle display rotations.

use vstd::prelude::*;
use vstd::arithmetic::div_mod::*;
use vstd::arithmetic::mul::*;

verus! {

/// Why a frame, a timestamp or a rotation was rejected.
#[derive(Debug, Clone, Copy, PartialEq, Eq, Structural)]
pub enum FrameError {
    UnsupportedRotation { degrees: i32 },
    NonPositiveTimescale { timescale: i32 },
    ZeroDimensions { width: u32, height: u32 },
    RowWidthOverflow,
    RowTooShort { bytes_per_row: u32, minimum: u32 },
    BufferTooShort { len: usize, needed: u64 },
    OutsideFrame { x: u32, y: u32, width: u32, height: u32 },
    PixelOffsetOverflow,
    PixelOutsideData { x: u32, y: u32, offset: usize, len: usize },
    NotBgra,
    RotatedRowOverflow,
    RotatedBufferOverflow,
}

/// A clockwise display rotation by a multiple of ninety degrees.
#[derive(Debug, Clone, Copy, PartialEq, Eq, Structural)]
pub enum DisplayRotation {
    Unrotated,
    Clockwise90,
    Clockwise180,
    Clockwise270,
}

impl DisplayRotation {
    /// How many clockwise quarter turns the rotation makes.
    pub open spec fn quarter_turns(self) -> int {
        match self {
            DisplayRotation::Unrotated => 0,
            DisplayRotation::Clockwise90 => 1,
            DisplayRotation::Clockwise180 => 2,
            DisplayRotation::Clockwise270 => 3,
        }
    }

    /// Whether the rotation exchanges width and height.
    pub open spec fn swaps_axes(self) -> bool {
        self.quarter_turns() % 2 == 1
    }

    pub open spec fn spec_output_dimensions(self, width: u32, height: u32) -> (u32, u32) {
        if self.swaps_axes() {
            (height, width)
        } else {
            (width, height)
        }
    }

    /// Where the pixel shown at `(target_x, target_y)` stands in a source of
    /// `width` by `height` pixels.
    pub open spec fn spec_source_coordinate(
        self,
        target_x: int,
        target_y: int,
        width: int,
        height: int,
    ) -> (int, int) {
        match self {
            DisplayRotation::Unrotated => (target_x, target_y),
            DisplayRotation::Clockwise90 => (target_y, height - 1 - target_x),
            DisplayRotation::Clockwise180 => (width - 1 - target_x, height - 1 - target_y),
            DisplayRotation::Clockwise270 => (width - 1 - target_y, target_x),
        }
    }

    /// Accepts any whole number of degrees that is a multiple of ninety,
    /// negative ones and full turns included.
    pub fn from_clockwise_degrees(degrees: i32) -> (result: Result<Self, FrameError>)
        ensures
            result is Ok <==> degrees as int % 90 == 0,
            result matches Ok(rotation) ==> rotation.quarter_turns() == (degrees as int / 90) % 4,
            result matches Err(error) ==> error == (FrameError::UnsupportedRotation {
                degrees: (degrees as int % 360) as i32,
            }),
    {
        let remainder: i32 = match degrees.checked_rem_euclid(360) {
            Some(remainder) => remainder,
            None => 0,
        };
        assert(remainder == degrees as int % 360);
        assert(degrees as int == 360 * (degrees as int / 360) + remainder);
        match remainder {
            0 => Ok(DisplayRotation::Unrotated),
            90 => Ok(DisplayRotation::Clockwise90),
            180 => Ok(DisplayRotation::Clockwise180),
            270 => Ok(DisplayRotation::Clockwise270),
            _ => Err(FrameError::UnsupportedRotation { degrees: remainder }),
        }
    }

    pub fn output_dimensions(self, width: u32, height: u32) -> (result: (u32, u32))
        ensures
            result == self.spec_output_dimensions(width, height),
    {
        match self {
            DisplayRotation::Unrotated | DisplayRotation::Clockwise180 => (width, height),
            DisplayRotation::Clockwise90 | DisplayRotation::Clockwise270 => (height, width),
        }
    }

    pub fn source_coordinate(
        self,
        target_x: u32,
        target_y: u32,
        width: u32,
        height: u32,
    ) -> (result: (u32, u32))
        requires
            target_x < self.spec_output_dimensions(width, height).0,
            target_y < self.spec_output_dimensions(width, height).1,
        ensures
            (result.0 as int, result.1 as int) == self.spec_source_coordinate(
                target_x as int,
                target_y as int,
                width as int,
                height as int,
            ),
            result.0 < width,
            result.1 < height,
    {
        match self {
            DisplayRotation::Unrotated => (target_x, target_y),
            DisplayRotation::Clockwise90 => (target_y, height - 1 - target_x),
            DisplayRotation::Clockwise180 => (width - 1 - target_x, height - 1 - target_y),
            DisplayRotation::Clockwise270 => (width - 1 - target_y, target_x),
        }
    }
}

/// A timestamp of `value / timescale` seconds.
#[derive(Debug, Clone, Copy, PartialEq, Eq, Structural)]
pub struct MediaTime {
    pub value: i64,
    pub timescale: i32,
}

impl MediaTime {
    pub open spec fn wf(self) -> bool {
        self.timescale > 0
    }

    pub fn new(value: i64, timescale: i32) -> (result: Result<Self, FrameError>)
        ensures
            result == (if timescale > 0 {
                Ok::<MediaTime, FrameError>(MediaTime { value, timescale })
            } else {
                Err::<MediaTime, FrameError>(FrameError::NonPositiveTimescale { timescale })
            }),
    {
        if timescale <= 0 {
            return Err(FrameError::NonPositiveTimescale { timescale });
        }
        Ok(MediaTime { value, timescale })
    }
}

#[derive(Debug, Clone, Copy, PartialEq, Eq, Structural)]
pub enum PixelFormat {
    Bgra,
}

/// What a BGRA buffer of `len` bytes must satisfy to hold `height` rows of
/// `width` pixels that start `bytes_per_row` bytes apart.
pub open spec fn bgra_buffer_check(
    width: u32,
    height: u32,
    bytes_per_row: u32,
    len: usize,
) -> Result<(), FrameError> {
    if width == 0 || height == 0 {
        Err(FrameError::ZeroDimensions { width, height })
    } else if width * 4 > u32::MAX {
        Err(FrameError::RowWidthOverflow)
    } else if bytes_per_row < width * 4 {
        Err(FrameError::RowTooShort { bytes_per_row, minimum: (width * 4) as u32 })
    } else if len < bytes_per_row * height {
        Err(FrameError::BufferTooShort { len, needed: (bytes_per_row * height) as u64 })
    } else {
        Ok(())
    }
}

pub fn validate_bgra_buffer(
    width: u32,
    height: u32,
    bytes_per_row: u32,
    len: usize,
) -> (result: Result<(), FrameError>)
    ensures
        result == bgra_buffer_check(width, height, bytes_per_row, len),
{
    if width == 0 || height == 0 {
        return Err(FrameError::ZeroDimensions { width, height });
    }
    let needed: u32 = match width.checked_mul(4) {
        Some(needed) => needed,
        None => return Err(FrameError::RowWidthOverflow),
    };
    if bytes_per_row < needed {
        return Err(FrameError::RowTooShort { bytes_per_row, minimum: needed });
    }
    proof {
        lemma_u32_product(bytes_per_row, height);
    }
    let min_len: u64 = bytes_per_row as u64 * height as u64;
    if (len as u64) < min_len {
        return Err(FrameError::BufferTooShort { len, needed: min_len });
    }
    Ok(())
}

/// The product of two `u32` values fits a `u64`.
pub proof fn lemma_u32_product(a: u32, b: u32)
    ensures
        0 <= a * b <= u64::MAX,
{
    lemma_mul_upper_bound(a as int, u32::MAX as int, b as int, u32::MAX as int);
    lemma_mul_nonnegative(a as int, b as int);
}

/// A row-major position names its own column and row.
pub proof fn lemma_flat_position(x: int, y: int, width: int)
    requires
        0 <= x < width,
    ensures
        (y * width + x) / width == y,
        (y * width + x) % width == x,
{
    lemma_mul_is_commutative(y, width);
    lemma_fundamental_div_mod_converse(y * width + x, width, y, x);
}

/// A picture with its timestamp. Rows start `bytes_per_row` bytes apart.
#[derive(Debug, Clone)]
pub struct VideoFrame {
    pub width: u32,
    pub height: u32,
    pub bytes_per_row: u32,
    pub format: PixelFormat,
    pub time: MediaTime,
    pub data: Vec<u8>,
}

impl VideoFrame {
    /// The buffer holds every pixel that the dimensions promise.
    pub open spec fn wf(self) -> bool {
        &&& bgra_buffer_check(
            self.width,
            self.height,
            self.bytes_per_row,
            self.data@.len() as usize,
        ) is Ok
        &&& self.data@.len() <= usize::MAX
    }

    /// Rows follow each other without padding and nothing follows the last.
    pub open spec fn is_compact(self) -> bool {
        &&& self.bytes_per_row == self.width * 4
        &&& self.data@.len() == self.width * self.height * 4
    }

    /// Where the first byte of pixel `(x, y)` stands.
    pub open spec fn pixel_offset(self, x: int, y: int) -> int {
        y * self.bytes_per_row + x * 4
    }

    /// The four bytes of pixel `(x, y)`: blue, green, red, alpha.
    pub open spec fn pixel(self, x: int, y: int) -> Seq<u8> {
        self.data@.subrange(self.pixel_offset(x, y), self.pixel_offset(x, y) + 4)
    }

    /// What `checked_pixel_offset` answers.
    pub open spec fn pixel_offset_check(self, x: u32, y: u32) -> Result<usize, FrameError> {
        if x >= self.width || y >= self.height {
            Err(FrameError::OutsideFrame { x, y, width: self.width, height: self.height })
        } else if self.pixel_offset(x as int, y as int) + 3 > usize::MAX {
            Err(FrameError::PixelOffsetOverflow)
        } else if self.pixel_offset(x as int, y as int) + 3 >= self.data@.len() {
            Err(
                FrameError::PixelOutsideData {
                    x,
                    y,
                    offset: self.pixel_offset(x as int, y as int) as usize,
                    len: self.data@.len() as usize,
                },
            )
        } else {
            Ok(self.pixel_offset(x as int, y as int) as usize)
        }
    }

    pub fn new_bgra(
        width: u32,
        height: u32,
        bytes_per_row: u32,
        time: MediaTime,
        data: Vec<u8>,
    ) -> (result: Result<Self, FrameError>)
        ensures
            match result {
                Ok(frame) => {
                    &&& bgra_buffer_check(
                        width,
                        height,
                        bytes_per_row,
                        data@.len() as usize,
                    ) is Ok
                    &&& frame == (VideoFrame {
                        width,
                        height,
                        bytes_per_row,
                        format: PixelFormat::Bgra,
                        time,
                        data,
                    })
                    &&& frame.wf()
                },
                Err(error) => bgra_buffer_check(width, height, bytes_per_row, data@.len() as usize)
                    == Err::<(), FrameError>(error),
            },
    {
        match validate_bgra_buffer(width, height, bytes_per_row, data.len()) {
            Ok(()) => Ok(
                VideoFrame {
                    width,
                    height,
                    bytes_per_row,
                    format: PixelFormat::Bgra,
                    time,
                    data,
                },
            ),
            Err(error) => Err(error),
        }
    }

    pub fn checked_pixel_offset(&self, x: u32, y: u32) -> (result: Result<usize, FrameError>)
        ensures
            result == self.pixel_offset_check(x, y),
    {
        if x >= self.width || y >= self.height {
            return Err(
                FrameError::OutsideFrame { x, y, width: self.width, height: self.height },
            );
        }
        proof {
            lemma_u32_product(y, self.bytes_per_row);
        }
        let row: u128 = y as u128 * self.bytes_per_row as u128;
        let wide: u128 = row + x as u128 * 4;
        if wide + 3 > usize::MAX as u128 {
            return Err(FrameError::PixelOffsetOverflow);
        }
        let offset: usize = wide as usize;
        if offset + 3 >= self.data.len() {
            return Err(
                FrameError::PixelOutsideData { x, y, offset, len: self.data.len() },
            );
        }
        Ok(offset)
    }

    /// Where the `position`-th pixel of the rotated picture, counted row by
    /// row, stands in this frame.
    pub open spec fn rotation_source(self, rotation: DisplayRotation, position: int) -> (int, int) {
        let width = rotation.spec_output_dimensions(self.width, self.height).0 as int;
        rotation.spec_source_coordinate(
            position % width,
            position / width,
            self.width as int,
            self.height as int,
        )
    }

    /// What reading the source of that pixel answers.
    pub open spec fn rotation_source_check(
        self,
        rotation: DisplayRotation,
        position: int,
    ) -> Result<usize, FrameError> {
        let source = self.rotation_source(rotation, position);
        self.pixel_offset_check(source.0 as u32, source.1 as u32)
    }

    /// The `index`-th byte of the rotated picture.
    pub open spec fn rotated_byte(self, rotation: DisplayRotation, index: int) -> u8 {
        let source = self.rotation_source(rotation, index / 4);
        self.data@[self.pixel_offset(source.0, source.1) + index % 4]
    }

    /// What turning the picture comes to.
    pub open spec fn is_rotated_result(
        self,
        rotation: DisplayRotation,
        result: Result<VideoFrame, FrameError>,
    ) -> bool {
        let (width, height) = rotation.spec_output_dimensions(self.width, self.height);
        if rotation == DisplayRotation::Unrotated {
            result == Ok::<VideoFrame, FrameError>(self)
        } else if width * 4 > u32::MAX {
            result == Err::<VideoFrame, FrameError>(FrameError::RotatedRowOverflow)
        } else if width * 4 * height > usize::MAX {
            result == Err::<VideoFrame, FrameError>(FrameError::RotatedBufferOverflow)
        } else {
            match result {
                Ok(frame) => {
                    &&& frame.wf()
                    &&& frame.is_compact()
                    &&& frame.width == width
                    &&& frame.height == height
                    &&& frame.time == self.time
                    &&& frame.format == PixelFormat::Bgra
                    &&& frame.data@ == Seq::new(
                        (width * 4 * height) as nat,
                        |index: int| self.rotated_byte(rotation, index),
                    )
                    &&& forall|position: int|
                        0 <= position < width * height
                            ==> #[trigger] self.rotation_source_check(
                            rotation,
                            position,
                        ) is Ok
                },
                Err(error) => {
                    ||| (width == 0 || height == 0) && error
                        == (FrameError::ZeroDimensions { width, height })
                    ||| exists|position: int|
                        0 <= position < width * height
                            && #[trigger] self.rotation_source_check(rotation, position)
                            == Err::<usize, FrameError>(error) && forall|earlier: int|
                            0 <= earlier < position
                                ==> #[trigger] self.rotation_source_check(
                                rotation,
                                earlier,
                            ) is Ok
                },
            }
        }
    }

    /// Turns the picture into a compact frame. A frame that needs no rotation
    /// comes back as it is. A source too short for its dimensions is refused
    /// at the first pixel that is missing.
    pub fn rotated(self, rotation: DisplayRotation) -> (result: Result<Self, FrameError>)
        ensures
            self.is_rotated_result(rotation, result),
    {
        if rotation == DisplayRotation::Unrotated {
            return Ok(self);
        }
        if self.format != PixelFormat::Bgra {
            return Err(FrameError::NotBgra);
        }
        let (width, height) = rotation.output_dimensions(self.width, self.height);
        let bytes_per_row: u32 = match width.checked_mul(4) {
            Some(bytes_per_row) => bytes_per_row,
            None => return Err(FrameError::RotatedRowOverflow),
        };
        let len: usize = match (bytes_per_row as usize).checked_mul(height as usize) {
            Some(len) => len,
            None => return Err(FrameError::RotatedBufferOverflow),
        };
        let ghost pixels = width as int * height as int;
        assert(len == pixels * 4) by (nonlinear_arith)
            requires
                len == bytes_per_row * height,
                bytes_per_row == width * 4,
                pixels == width as int * height as int,
        ;
        let mut data: Vec<u8> = Vec::with_capacity(len);
        let mut target_y: u32 = 0;
        while target_y < height
            invariant
                (width, height) == rotation.spec_output_dimensions(self.width, self.height),
                rotation != DisplayRotation::Unrotated,
                width * 4 <= u32::MAX,
                width * 4 * height <= usize::MAX,
                pixels == width as int * height as int,
                target_y <= height,
                data@.len() == target_y * width * 4,
                forall|index: int|
                    0 <= index < data@.len() ==> data@[index] == self.rotated_byte(
                        rotation,
                        index,
                    ),
                forall|position: int|
                    0 <= position < target_y * width
                        ==> #[trigger] self.rotation_source_check(rotation, position) is Ok,
            decreases height - target_y,
        {
            let mut target_x: u32 = 0;
            while target_x < width
                invariant
                    (width, height) == rotation.spec_output_dimensions(self.width, self.height),
                    rotation != DisplayRotation::Unrotated,
                    width * 4 <= u32::MAX,
                    width * 4 * height <= usize::MAX,
                    pixels == width as int * height as int,
                    target_y < height,
                    target_x <= width,
                    data@.len() == (target_y * width + target_x) * 4,
                    forall|index: int|
                        0 <= index < data@.len() ==> data@[index] == self.rotated_byte(
                            rotation,
                            index,
                        ),
                    forall|position: int|
                        0 <= position < target_y * width + target_x
                            ==> #[trigger] self.rotation_source_check(rotation, position) is Ok,
                decreases width - target_x,
            {
                let ghost position = target_y * width + target_x;
                proof {
                    lemma_flat_position(target_x as int, target_y as int, width as int);
                    assert(position < pixels) by (nonlinear_arith)
                        requires
                            position == target_y * width + target_x,
                            target_x < width,
                            target_y < height,
                            pixels == width as int * height as int,
                    ;
                }
                let (source_x, source_y) = rotation.source_coordinate(
                    target_x,
                    target_y,
                    self.width,
                    self.height,
                );
                assert(self.rotation_source(rotation, position) == (
                    source_x as int,
                    source_y as int,
                ));
                let source_offset: usize = match self.checked_pixel_offset(source_x, source_y) {
                    Ok(source_offset) => source_offset,
                    Err(error) => {
                        assert(self.rotation_source_check(rotation, position) == Err::<
                            usize,
                            FrameError,
                        >(error));
                        return Err(error);
                    },
                };
                let ghost before = data@;
                data.push(self.data[source_offset]);
                data.push(self.data[source_offset + 1]);
                data.push(self.data[source_offset + 2]);
                data.push(self.data[source_offset + 3]);
                target_x = target_x + 1;
                assert forall|index: int| 0 <= index < data@.len() implies data@[index]
                    == self.rotated_byte(rotation, index) by {
                    if index < before.len() {
                        assert(data@[index] == before[index]);
                    } else {
                        assert(index / 4 == position);
                    }
                }
            }
            assert((target_y + 1) * width == target_y * width + width) by (nonlinear_arith);
            target_y = target_y + 1;
        }
        assert(data@ =~= Seq::new(
            (width * 4 * height) as nat,
            |index: int| self.rotated_byte(rotation, index),
        )) by {
            assert(height * width * 4 == width * 4 * height) by (nonlinear_arith);
        }
        assert(height * width == width * height) by (nonlinear_arith);
        Self::new_bgra(width, height, bytes_per_row, self.time, data)
    }
}

/// A pixel of a frame that holds what it promises lies within its bytes.
pub proof fn lemma_pixel_within(frame: VideoFrame, x: int, y: int)
    requires
        frame.wf(),
        0 <= x < frame.width,
        0 <= y < frame.height,
    ensures
        0 <= y * frame.bytes_per_row,
        0 <= frame.pixel_offset(x, y),
        frame.pixel_offset(x, y) + 4 <= frame.data@.len(),
{
    let row = frame.bytes_per_row as int;
    assert(0 <= y * row && y * row + x * 4 + 4 <= row * frame.height) by (nonlinear_arith)
        requires
            0 <= x < frame.width,
            0 <= y < frame.height,
            frame.width * 4 <= row,
    ;
}

/// `target` shows `source` turned by `rotation`: the axes are exchanged where
/// the rotation exchanges them, and every target pixel is the source pixel that
/// the rotation moves there.
pub open spec fn is_rotation_of(
    target: VideoFrame,
    source: VideoFrame,
    rotation: DisplayRotation,
) -> bool {
    &&& (target.width, target.height) == rotation.spec_output_dimensions(
        source.width,
        source.height,
    )
    &&& forall|x: int, y: int|
        0 <= x < target.width && 0 <= y < target.height ==> #[trigger] target.pixel(x, y) == {
            let from = rotation.spec_source_coordinate(
                x,
                y,
                source.width as int,
                source.height as int,
            );
            source.pixel(from.0, from.1)
        }
}

/// Every pixel of a well-formed frame can be read.
pub proof fn law_well_formed_pixels_are_readable(frame: VideoFrame, x: u32, y: u32)
    requires
        frame.wf(),
        x < frame.width,
        y < frame.height,
    ensures
        frame.pixel_offset_check(x, y) == Ok::<usize, FrameError>(
            frame.pixel_offset(x as int, y as int) as usize,
        ),
        0 <= frame.pixel_offset(x as int, y as int),
        frame.pixel_offset(x as int, y as int) + 4 <= frame.data@.len(),
{
    let row = frame.bytes_per_row as int;
    assert(y * row + row <= row * frame.height) by (nonlinear_arith)
        requires
            y < frame.height,
            0 <= row,
    ;
    assert(0 <= y * row) by (nonlinear_arith)
        requires
            0 <= row,
            0 <= y,
    ;
}

/// A well-formed frame has a readable source for every pixel of its rotation,
/// so turning it fails only where the turned row or buffer is too large.
pub proof fn law_well_formed_frames_rotate(
    frame: VideoFrame,
    rotation: DisplayRotation,
    position: int,
)
    requires
        frame.wf(),
        0 <= position < frame.width * frame.height,
    ensures
        frame.rotation_source_check(rotation, position) is Ok,
{
    let (width, height) = rotation.spec_output_dimensions(frame.width, frame.height);
    let x = position % width as int;
    let y = position / width as int;
    lemma_fundamental_div_mod(position, width as int);
    lemma_mul_is_commutative(frame.width as int, frame.height as int);
    assert(y < height) by (nonlinear_arith)
        requires
            position == width as int * y + x,
            0 <= x,
            position < width as int * height as int,
            0 < width,
    ;
    assert(0 <= y) by {
        lemma_div_pos_is_pos(position, width as int);
    }
    let from = frame.rotation_source(rotation, position);
    law_well_formed_pixels_are_readable(frame, from.0 as u32, from.1 as u32);
}

/// What `rotated` returns shows the source turned by that rotation.
pub proof fn law_rotated_frame_shows_source_turned(
    target: VideoFrame,
    source: VideoFrame,
    rotation: DisplayRotation,
)
    requires
        (target.width, target.height) == rotation.spec_output_dimensions(
            source.width,
            source.height,
        ),
        target.is_compact(),
        target.data@ == Seq::new(
            (target.width * 4 * target.height) as nat,
            |index: int| source.rotated_byte(rotation, index),
        ),
        forall|position: int|
            0 <= position < target.width * target.height
                ==> #[trigger] source.rotation_source_check(rotation, position) is Ok,
    ensures
        is_rotation_of(target, source, rotation),
{
    let width = target.width as int;
    let height = target.height as int;
    assert forall|x: int, y: int| 0 <= x < width && 0 <= y < height implies #[trigger] target.pixel(
        x,
        y,
    ) == ({
        let from = rotation.spec_source_coordinate(
            x,
            y,
            source.width as int,
            source.height as int,
        );
        source.pixel(from.0, from.1)
    }) by {
        let position = y * width + x;
        let from = rotation.spec_source_coordinate(
            x,
            y,
            source.width as int,
            source.height as int,
        );
        lemma_flat_position(x, y, width);
        assert(0 <= position < width * height) by (nonlinear_arith)
            requires
                position == y * width + x,
                0 <= x < width,
                0 <= y < height,
        ;
        assert(target.pixel_offset(x, y) == position * 4) by (nonlinear_arith)
            requires
                target.pixel_offset(x, y) == y * target.bytes_per_row + x * 4,
                target.bytes_per_row == width * 4,
                position == y * width + x,
        ;
        assert(source.rotation_source(rotation, position) == from);
        assert(source.rotation_source_check(rotation, position) is Ok);
        assert(target.data@.len() == width * height * 4);
        assert(target.pixel(x, y) =~= source.pixel(from.0, from.1)) by {
            assert forall|byte: int| 0 <= byte < 4 implies target.pixel(x, y)[byte]
                == source.pixel(from.0, from.1)[byte] by {
                assert((position * 4 + byte) / 4 == position);
                assert((position * 4 + byte) % 4 == byte);
            }
        }
    }
}

/// Two rotations in a row are the rotation by the sum of their quarter turns.
/// In particular a rotation followed by its opposite shows the source again.
pub proof fn law_rotations_compose(
    first: VideoFrame,
    second: VideoFrame,
    third: VideoFrame,
    one: DisplayRotation,
    other: DisplayRotation,
    sum: DisplayRotation,
)
    requires
        is_rotation_of(second, first, one),
        is_rotation_of(third, second, other),
        sum.quarter_turns() == (one.quarter_turns() + other.quarter_turns()) % 4,
    ensures
        is_rotation_of(third, first, sum),
{
    assert forall|x: int, y: int|
        0 <= x < third.width && 0 <= y < third.height implies #[trigger] third.pixel(x, y) == ({
        let from = sum.spec_source_coordinate(x, y, first.width as int, first.height as int);
        first.pixel(from.0, from.1)
    }) by {
        let middle = other.spec_source_coordinate(
            x,
            y,
            second.width as int,
            second.height as int,
        );
        assert(third.pixel(x, y) == second.pixel(middle.0, middle.1));
    }
}

/// A buffer holds a picture exactly if the picture has some width and height, a row holds
/// its pixels, and the buffer holds the rows.
pub proof fn law_buffers_that_hold_the_rows_are_accepted(
    width: u32,
    height: u32,
    bytes_per_row: u32,
    len: usize,
)
    ensures
        bgra_buffer_check(width, height, bytes_per_row, len) is Ok <==> {
            &&& width > 0 && height > 0
            &&& 4 * width <= bytes_per_row
            &&& bytes_per_row * height <= len
        },
{
}

/// Where a pixel of a frame goes when the frame is turned clockwise: by a quarter turn the
/// top row becomes the right column, by a half turn the first pixel becomes the last, and
/// by three quarters the top row becomes the left column from the bottom.
pub open spec fn turned_to(rotation: DisplayRotation, x: int, y: int, width: int, height: int) -> (
    int,
    int,
) {
    match rotation {
        DisplayRotation::Unrotated => (x, y),
        DisplayRotation::Clockwise90 => (height - 1 - y, x),
        DisplayRotation::Clockwise180 => (width - 1 - x, height - 1 - y),
        DisplayRotation::Clockwise270 => (y, width - 1 - x),
    }
}

/// A frame that is turned keeps its time, exchanges width and height on odd quarter turns,
/// and shows every pixel of the source, byte for byte, where the turn takes it. Only a frame with all
/// of its pixels is turned.
pub proof fn law_turning_moves_every_pixel(
    source: VideoFrame,
    rotation: DisplayRotation,
    target: VideoFrame,
    x: int,
    y: int,
    channel: int,
)
    requires
        source.is_rotated_result(rotation, Ok(target)),
        0 <= x < source.width,
        0 <= y < source.height,
        0 <= channel < 4,
    ensures
        target.time == source.time,
        rotation is Unrotated || rotation is Clockwise180 ==> target.width == source.width
            && target.height == source.height,
        rotation is Clockwise90 || rotation is Clockwise270 ==> target.width == source.height
            && target.height == source.width,
        !(rotation is Unrotated) ==> target.bytes_per_row == 4 * target.width
            && target.data@.len() == 4 * (target.width * target.height),
        ({
            let to = turned_to(rotation, x, y, source.width as int, source.height as int);
            &&& 0 <= to.0 < target.width
            &&& 0 <= to.1 < target.height
            &&& target.data@[to.1 * target.bytes_per_row + 4 * to.0 + channel]
                == source.data@[y * source.bytes_per_row + 4 * x + channel]
        }),
        !(rotation is Unrotated) ==> y * source.bytes_per_row + 4 * x + channel
            < source.data@.len(),
{
    let to = turned_to(rotation, x, y, source.width as int, source.height as int);
    if rotation != DisplayRotation::Unrotated {
        let width = target.width as int;
        let position = to.1 * width + to.0;
        lemma_flat_position(to.0, to.1, width);
        assert(0 <= position < width * target.height) by (nonlinear_arith)
            requires
                position == to.1 * width + to.0,
                0 <= to.0 < width,
                0 <= to.1 < target.height,
        ;
        assert(width * 4 * target.height == 4 * (width * target.height) && target.width
            * target.height * 4 == 4 * (width * target.height)) by (nonlinear_arith)
            requires
                width == target.width,
        ;
        assert(source.rotation_source_check(rotation, position) is Ok);
        let index = position * 4 + channel;
        assert(index == to.1 * target.bytes_per_row + 4 * to.0 + channel) by (nonlinear_arith)
            requires
                index == position * 4 + channel,
                position == to.1 * width + to.0,
                target.bytes_per_row == width * 4,
        ;
        assert(index / 4 == position && index % 4 == channel);
        assert(source.rotation_source(rotation, position) == (x, y));
        assert(target.data@[index] == source.rotated_byte(rotation, index));
    }
}

/// Where a pixel goes by so many clockwise quarter turns, one after the other, and the size
/// that the picture then has.
pub open spec fn quarter_turned(turns: nat, x: int, y: int, width: int, height: int) -> (
    int,
    int,
    int,
    int,
)
    decreases turns,
{
    if turns == 0 {
        (x, y, width, height)
    } else {
        let (x, y, width, height) = quarter_turned((turns - 1) as nat, x, y, width, height);
        (height - 1 - y, x, height, width)
    }
}

/// A rotation is so many clockwise quarter turns as it says, from none to three.
pub proof fn law_rotations_are_quarter_turns(
    rotation: DisplayRotation,
    x: int,
    y: int,
    width: int,
    height: int,
)
    ensures
        0 <= rotation.quarter_turns() < 4,
        ({
            let turned = quarter_turned(rotation.quarter_turns() as nat, x, y, width, height);
            turned_to(rotation, x, y, width, height) == (turned.0, turned.1)
        }),
        rotation is Clockwise90 ==> rotation.quarter_turns() == 1,
        rotation is Clockwise180 ==> rotation.quarter_turns() == 2,
        rotation is Clockwise270 ==> rotation.quarter_turns() == 3,
{
    reveal_with_fuel(quarter_turned, 5);
}

/// A frame that holds its rows can be turned, where the turned picture can be counted.
pub proof fn law_whole_frames_can_be_turned(
    source: VideoFrame,
    rotation: DisplayRotation,
    result: Result<VideoFrame, FrameError>,
)
    requires
        source.is_rotated_result(rotation, result),
        source.width > 0,
        source.height > 0,
        4 * source.width <= source.bytes_per_row,
        source.bytes_per_row * source.height <= source.data@.len() <= usize::MAX,
        4 * source.height <= u32::MAX,
        4 * (source.width * source.height) <= usize::MAX,
    ensures
        result is Ok,
{
    let (width, height) = rotation.spec_output_dimensions(source.width, source.height);
    assert(width * 4 * height == 4 * (source.width * source.height)) by (nonlinear_arith)
        requires
            (width == source.width && height == source.height) || (width == source.height && height
                == source.width),
    ;
    assert(width * height == source.width * source.height) by (nonlinear_arith)
        requires
            (width == source.width && height == source.height) || (width == source.height && height
                == source.width),
    ;
    if let Err(error) = result {
        if rotation != DisplayRotation::Unrotated {
            let position = choose|position: int|
                0 <= position < width * height && #[trigger] source.rotation_source_check(
                    rotation,
                    position,
                ) == Err::<usize, FrameError>(error);
            law_well_formed_frames_rotate(source, rotation, position);
        }
    }
}

/// A pixel stands where its row and its column say, four bytes each, and is given out exactly if it
/// lies in the picture and all of its bytes are there. A pixel outside the picture is told apart from
/// one whose bytes are missing.
pub proof fn law_pixels_stand_in_their_place(frame: VideoFrame, x: u32, y: u32)
    ensures
        ({
            let place = y * frame.bytes_per_row + x * 4;
            let answer = frame.pixel_offset_check(x, y);
            &&& answer is Ok <==> x < frame.width && y < frame.height && place + 4
                <= frame.data@.len()
            &&& answer is Ok ==> answer->Ok_0 == place
            &&& (answer is Err && answer->Err_0 is OutsideFrame) <==> !(x < frame.width && y
                < frame.height)
            &&& (answer is Err && answer->Err_0 is OutsideFrame) ==> answer->Err_0
                == FrameError::OutsideFrame { x, y, width: frame.width, height: frame.height }
            &&& (answer is Err && answer->Err_0 is PixelOutsideData) ==> answer->Err_0
                == FrameError::PixelOutsideData {
                x,
                y,
                offset: place as usize,
                len: frame.data@.len() as usize,
            }
            &&& (answer is Err && answer->Err_0 is PixelOffsetOverflow) ==> place + 3 > usize::MAX
            &&& answer is Err ==> answer->Err_0 is OutsideFrame || answer->Err_0 is PixelOutsideData
                || answer->Err_0 is PixelOffsetOverflow
        }),
{
    assert(frame.data.len() <= usize::MAX);
    assert(0 <= y * frame.bytes_per_row) by (nonlinear_arith)
        requires
            0 <= y,
            0 <= frame.bytes_per_row,
    ;
}

} // verus!
