//! Making frames of Media Foundation's samples.

use crate::decoder::clock;
use crate::decoder::clock::{ClockError, TimestampClock};
use crate::decoder::stride;
use crate::decoder::stride::{
    bgra_sample_stride, frame_buffer_len, sample_stride, BgraSampleStride, StrideError,
};
use crate::decoder::surface;
use crate::decoder::surface::{compact_bgra, resize_bgra, SurfaceError};
use crate::frame;
use crate::frame::{DisplayRotation, FrameError, MediaTime, PixelFormat, VideoFrame};
use crate::sampling;
use vstd::prelude::*;

verus! {

/// Why a sample made no frame.
#[derive(Debug, Clone, Copy, PartialEq, Eq, Structural)]
pub enum SampleError {
    StreamError,
    ResizedRowOverflow,
    Stride(StrideError),
    BufferTooShort { len: usize, required: usize },
    Clock(ClockError),
    Surface(SurfaceError),
    Frame(FrameError),
}

/// What reading from a stream comes to.
#[derive(Debug, Clone, Copy, PartialEq, Eq, Structural)]
pub enum StreamRead {
    Sample,
    End,
}

/// Tells whether a read gave a sample: not if the stream reported an error,
/// and not at its end or where nothing came.
pub fn stream_read(error: bool, end_of_stream: bool, has_sample: bool) -> (result: Result<
    StreamRead,
    SampleError,
>)
    ensures
        result == (if error {
            Err::<StreamRead, SampleError>(SampleError::StreamError)
        } else if end_of_stream || !has_sample {
            Ok::<StreamRead, SampleError>(StreamRead::End)
        } else {
            Ok::<StreamRead, SampleError>(StreamRead::Sample)
        }),
{
    if error {
        return Err(SampleError::StreamError);
    }
    if end_of_stream || !has_sample {
        return Ok(StreamRead::End);
    }
    Ok(StreamRead::Sample)
}

/// The stride that a two-dimensional buffer gives by its pitch, if it has one.
pub fn pitch_stride(pitch: i32, width: u32) -> (result: Result<
    Option<BgraSampleStride>,
    StrideError,
>)
    ensures
        pitch == 0 ==> result == Ok::<Option<BgraSampleStride>, StrideError>(None),
        pitch != 0 && pitch == i32::MIN ==> result == Err::<Option<BgraSampleStride>, StrideError>(
            StrideError::InvalidStride,
        ),
        pitch != 0 && pitch != i32::MIN && width * 4 > u32::MAX ==> result == Err::<
            Option<BgraSampleStride>,
            StrideError,
        >(StrideError::RowWidthOverflow),
        pitch != 0 && pitch != i32::MIN && width * 4 <= u32::MAX ==> result == Ok::<
            Option<BgraSampleStride>,
            StrideError,
        >(
            Some(
                BgraSampleStride {
                    bytes_per_row: stride::larger(
                        if pitch >= 0 {
                            pitch as int
                        } else {
                            -pitch
                        },
                        width * 4,
                    ) as u32,
                    rows_are_top_down: pitch >= 0,
                },
            ),
        ),
{
    if pitch == 0 {
        return Ok(None);
    }
    match bgra_sample_stride(pitch, width) {
        Ok(stride) => Ok(Some(stride)),
        Err(error) => Err(error),
    }
}

/// The rotation that a video is shown with: the one that the system reports,
/// if it reports one that turns the picture, or else the container's.
pub open spec fn chosen_rotation(reported: Option<u32>, container: Option<DisplayRotation>) -> Result<
    DisplayRotation,
    FrameError,
> {
    let fallback = match container {
        Some(rotation) => rotation,
        None => DisplayRotation::Unrotated,
    };
    match reported {
        None => Ok(fallback),
        Some(degrees) => {
            let turned = degrees as i32;
            if turned as int % 90 != 0 {
                Err(
                    FrameError::UnsupportedRotation { degrees: (turned as int % 360) as i32 },
                )
            } else if (turned as int / 90) % 4 == 0 {
                Ok(fallback)
            } else if (turned as int / 90) % 4 == 1 {
                Ok(DisplayRotation::Clockwise90)
            } else if (turned as int / 90) % 4 == 2 {
                Ok(DisplayRotation::Clockwise180)
            } else {
                Ok(DisplayRotation::Clockwise270)
            }
        },
    }
}

/// Chooses the rotation that a video is shown with.
pub fn display_rotation(reported: Option<u32>, container: Option<DisplayRotation>) -> (result:
    Result<DisplayRotation, FrameError>)
    ensures
        result == chosen_rotation(reported, container),
{
    if let Some(degrees) = reported {
        match DisplayRotation::from_clockwise_degrees(degrees as i32) {
            Err(error) => return Err(error),
            Ok(rotation) => {
                if rotation != DisplayRotation::Unrotated {
                    return Ok(rotation);
                }
            },
        }
    }
    match container {
        Some(rotation) => Ok(rotation),
        None => Ok(DisplayRotation::Unrotated),
    }
}

/// What follows when the system was asked to give frames in a size.
#[derive(Debug, Clone, Copy)]
pub enum OutputPlan {
    /// It does. Where it was not asked to resize and a size is wanted, frames are
    /// resized here.
    Use { software_resize: Option<(u32, u32)> },
    /// It does not: ask for frames as they are.
    AskForNative,
    Fail,
}

/// What follows when the system was asked to give frames in a size.
pub open spec fn planned_output(
    wanted: Option<(u32, u32)>,
    resizing: bool,
    accepted: bool,
) -> OutputPlan {
    if accepted {
        OutputPlan::Use {
            software_resize: if resizing {
                None
            } else {
                wanted
            },
        }
    } else if resizing && wanted is Some {
        OutputPlan::AskForNative
    } else {
        OutputPlan::Fail
    }
}

/// Decides what follows when the system was asked to give frames in a size.
/// `wanted` is the size that frames are to have, if they are to be resized, and
/// `resizing` says whether the system was asked for it.
pub fn output_plan(wanted: Option<(u32, u32)>, resizing: bool, accepted: bool) -> (plan: OutputPlan)
    ensures
        plan == planned_output(wanted, resizing, accepted),
{
    if accepted {
        if resizing {
            OutputPlan::Use { software_resize: None }
        } else {
            OutputPlan::Use { software_resize: wanted }
        }
    } else if resizing && wanted.is_some() {
        OutputPlan::AskForNative
    } else {
        OutputPlan::Fail
    }
}

/// What is known of a stream's samples, and the clock that its timestamps go
/// by.
pub struct SampleReader {
    pub width: u32,
    pub height: u32,
    pub bytes_per_row: u32,
    pub source_width: u32,
    pub source_height: u32,
    pub source_stride: BgraSampleStride,
    /// The size that frames are resized to here, where the system does not.
    pub software_resize: Option<(u32, u32)>,
    pub display_rotation: DisplayRotation,
    pub timestamp_clock: TimestampClock,
}

/// What surface a sample's bytes make, before it is turned.
pub open spec fn is_surface<
    B: Fn(u8, u8, u8, u8, u32, u32) -> u8,
    P: Fn(usize, usize, usize) -> (usize, u32),
>(
    reader: SampleReader,
    blend: B,
    place: P,
    source: Seq<u8>,
    stride: BgraSampleStride,
    time: MediaTime,
    result: Result<VideoFrame, SurfaceError>,
) -> bool {
    let source_width = reader.source_width;
    let source_height = reader.source_height;
    match reader.software_resize {
        Some((width, height)) => if stride.rows_are_top_down {
            surface::is_resize_outcome(
                blend,
                place,
                source,
                source_width,
                source_height,
                stride.bytes_per_row,
                width,
                height,
                time,
                result,
            )
        } else {
            exists|compact: Result<VideoFrame, SurfaceError>| #[trigger]
                surface::is_compacted(source, source_width, source_height, stride, time, compact)
                    && match compact {
                    Err(error) => result == Err::<VideoFrame, SurfaceError>(error),
                    Ok(frame) => surface::is_resize_outcome(
                        blend,
                        place,
                        frame.data@,
                        frame.width,
                        frame.height,
                        frame.bytes_per_row,
                        width,
                        height,
                        time,
                        result,
                    ),
                }
        },
        None => if stride.rows_are_top_down {
            match result {
                Ok(frame) => {
                    &&& frame.wf()
                    &&& frame.width == reader.width
                    &&& frame.height == reader.height
                    &&& frame.bytes_per_row == stride.bytes_per_row
                    &&& frame.format == PixelFormat::Bgra
                    &&& frame.time == time
                    &&& frame.data@ == source
                },
                Err(error) => {
                    let check = frame::bgra_buffer_check(
                        reader.width,
                        reader.height,
                        stride.bytes_per_row,
                        source.len() as usize,
                    );
                    check matches Err(expected) && error == SurfaceError::Frame(expected)
                },
            }
        } else {
            surface::is_compacted(source, source_width, source_height, stride, time, result)
        },
    }
}

/// What a sample's bytes make: a surface, turned as the video is shown.
pub open spec fn is_turned_surface<
    B: Fn(u8, u8, u8, u8, u32, u32) -> u8,
    P: Fn(usize, usize, usize) -> (usize, u32),
>(
    reader: SampleReader,
    blend: B,
    place: P,
    source: Seq<u8>,
    stride: BgraSampleStride,
    time: MediaTime,
    result: Result<VideoFrame, SampleError>,
) -> bool {
    exists|surface: Result<VideoFrame, SurfaceError>| #[trigger]
        is_surface(reader, blend, place, source, stride, time, surface) && match surface {
            Err(error) => result == Err::<VideoFrame, SampleError>(SampleError::Surface(error)),
            Ok(frame) => match result {
                Ok(turned) => frame.is_rotated_result(reader.display_rotation, Ok(turned)),
                Err(SampleError::Frame(error)) => frame.is_rotated_result(
                    reader.display_rotation,
                    Err(error),
                ),
                Err(_) => false,
            },
        }
}

/// What a sample comes to once its rows can be told apart. The clock goes on
/// exactly if the buffer holds the rows.
pub open spec fn is_frame_result<
    B: Fn(u8, u8, u8, u8, u32, u32) -> u8,
    P: Fn(usize, usize, usize) -> (usize, u32),
>(
    before: SampleReader,
    after: SampleReader,
    blend: B,
    place: P,
    source: Seq<u8>,
    stride: Result<BgraSampleStride, StrideError>,
    timestamp_100ns: i64,
    result: Result<VideoFrame, SampleError>,
) -> bool {
    match stride {
        Err(error) => {
            &&& after == before
            &&& result == Err::<VideoFrame, SampleError>(SampleError::Stride(error))
        },
        Ok(stride) => {
            let required = stride.bytes_per_row * before.source_height;
            if required > usize::MAX {
                &&& after == before
                &&& result == Err::<VideoFrame, SampleError>(
                    SampleError::Stride(StrideError::BufferLengthOverflow),
                )
            } else if source.len() < required {
                &&& after == before
                &&& result == Err::<VideoFrame, SampleError>(
                    SampleError::BufferTooShort {
                        len: source.len() as usize,
                        required: required as usize,
                    },
                )
            } else {
                let (clock, time) = clock::next_time(before.timestamp_clock@, timestamp_100ns);
                &&& after == (SampleReader { timestamp_clock: after.timestamp_clock, ..before })
                &&& after.timestamp_clock@ == clock
                &&& match time {
                    Err(error) => result == Err::<VideoFrame, SampleError>(
                        SampleError::Clock(error),
                    ),
                    Ok(time) => is_turned_surface(
                        before,
                        blend,
                        place,
                        source.subrange(0, required),
                        stride,
                        time,
                        result,
                    ),
                }
            }
        },
    }
}

impl SampleReader {
    pub open spec fn wf(self) -> bool {
        self.timestamp_clock.wf()
    }

    /// A reader for samples of this size. Where frames are resized here, their
    /// rows are those of the new size.
    pub fn new(
        source_size: (u32, u32),
        source_stride: BgraSampleStride,
        software_resize: Option<(u32, u32)>,
        display_rotation: DisplayRotation,
        timestamp_clock: TimestampClock,
    ) -> (result: Result<SampleReader, SampleError>)
        requires
            timestamp_clock.wf(),
        ensures
            match software_resize {
                Some((width, height)) => if width * 4 > u32::MAX {
                    result == Err::<SampleReader, SampleError>(SampleError::ResizedRowOverflow)
                } else {
                    result == Ok::<SampleReader, SampleError>(
                        SampleReader {
                            width,
                            height,
                            bytes_per_row: (width * 4) as u32,
                            source_width: source_size.0,
                            source_height: source_size.1,
                            source_stride,
                            software_resize,
                            display_rotation,
                            timestamp_clock,
                        },
                    )
                },
                None => result == Ok::<SampleReader, SampleError>(
                    SampleReader {
                        width: source_size.0,
                        height: source_size.1,
                        bytes_per_row: source_stride.bytes_per_row,
                        source_width: source_size.0,
                        source_height: source_size.1,
                        source_stride,
                        software_resize,
                        display_rotation,
                        timestamp_clock,
                    },
                ),
            },
            result matches Ok(reader) ==> reader.wf(),
    {
        let (width, height, bytes_per_row): (u32, u32, u32) = match software_resize {
            Some((width, height)) => match width.checked_mul(4) {
                Some(bytes_per_row) => (width, height, bytes_per_row),
                None => return Err(SampleError::ResizedRowOverflow),
            },
            None => (source_size.0, source_size.1, source_stride.bytes_per_row),
        };
        Ok(
            SampleReader {
                width,
                height,
                bytes_per_row,
                source_width: source_size.0,
                source_height: source_size.1,
                source_stride,
                software_resize,
                display_rotation,
                timestamp_clock,
            },
        )
    }

    /// Makes a frame of a sample's buffer. `stride` is what a two-dimensional
    /// buffer says of its rows; without it they are told by the buffer's length.
    pub fn frame_from_sample<
        B: Fn(u8, u8, u8, u8, u32, u32) -> u8,
        P: Fn(usize, usize, usize) -> (usize, u32),
    >(
        &mut self,
        source: &[u8],
        stride: Option<BgraSampleStride>,
        timestamp_100ns: i64,
        blend: &B,
        place: &P,
    ) -> (result: Result<VideoFrame, SampleError>)
        requires
            old(self).wf(),
            source@.len() <= u32::MAX,
            stride is None ==> stride::stride_is_decidable(
                old(self).source_width,
                old(self).source_height,
                old(self).source_stride,
                source@.len() as u32,
            ),
            forall|a: u8, b: u8, c: u8, d: u8, across: u32, down: u32|
                call_requires(*blend, (a, b, c, d, across, down)),
            sampling::places_within(*place),
        ensures
            final(self).wf(),
            exists|found: Result<BgraSampleStride, StrideError>|
                (match stride {
                    Some(known) => found == Ok::<BgraSampleStride, StrideError>(known),
                    None => stride::is_sample_stride(
                        old(self).source_width,
                        old(self).source_height,
                        old(self).source_stride,
                        source@.len() as u32,
                        found,
                    ),
                }) && #[trigger] is_frame_result(
                    *old(self),
                    *final(self),
                    *blend,
                    *place,
                    source@,
                    found,
                    timestamp_100ns,
                    result,
                ),
    {
        let ghost before = *self;
        let found: Result<BgraSampleStride, StrideError> = match stride {
            Some(known) => Ok(known),
            None => sample_stride(
                self.source_width,
                self.source_height,
                self.source_stride,
                source.len() as u32,
            ),
        };
        let rows: BgraSampleStride = match found {
            Ok(rows) => rows,
            Err(error) => {
                assert(is_frame_result(
                    before,
                    *self,
                    *blend,
                    *place,
                    source@,
                    found,
                    timestamp_100ns,
                    Err(SampleError::Stride(error)),
                ));
                return Err(SampleError::Stride(error));
            },
        };
        let required: usize = match frame_buffer_len(rows.bytes_per_row, self.source_height) {
            Ok(required) => required,
            Err(error) => {
                assert(is_frame_result(
                    before,
                    *self,
                    *blend,
                    *place,
                    source@,
                    found,
                    timestamp_100ns,
                    Err(SampleError::Stride(error)),
                ));
                return Err(SampleError::Stride(error));
            },
        };
        if source.len() < required {
            let error = SampleError::BufferTooShort { len: source.len(), required };
            assert(is_frame_result(
                before,
                *self,
                *blend,
                *place,
                source@,
                found,
                timestamp_100ns,
                Err(error),
            ));
            return Err(error);
        }
        proof {
            frame::lemma_u32_product(rows.bytes_per_row, self.source_height);
        }
        let bytes: &[u8] = &source[0..required];
        let time: MediaTime = match self.timestamp_clock.media_time_from_hns(timestamp_100ns) {
            Ok(time) => time,
            Err(error) => {
                assert(is_frame_result(
                    before,
                    *self,
                    *blend,
                    *place,
                    source@,
                    found,
                    timestamp_100ns,
                    Err(SampleError::Clock(error)),
                ));
                return Err(SampleError::Clock(error));
            },
        };
        let surface = self.surface(bytes, rows, time, blend, place);
        assert(is_surface(before, *blend, *place, bytes@, rows, time, surface));
        let result = match surface {
            Err(error) => Err(SampleError::Surface(error)),
            Ok(frame) => match frame.rotated(self.display_rotation) {
                Ok(turned) => Ok(turned),
                Err(error) => Err(SampleError::Frame(error)),
            },
        };
        assert(is_turned_surface(before, *blend, *place, bytes@, rows, time, result));
        assert(is_frame_result(
            before,
            *self,
            *blend,
            *place,
            source@,
            found,
            timestamp_100ns,
            result,
        ));
        result
    }

    fn surface<
        B: Fn(u8, u8, u8, u8, u32, u32) -> u8,
        P: Fn(usize, usize, usize) -> (usize, u32),
    >(
        &self,
        source: &[u8],
        rows: BgraSampleStride,
        time: MediaTime,
        blend: &B,
        place: &P,
    ) -> (result: Result<VideoFrame, SurfaceError>)
        requires
            forall|a: u8, b: u8, c: u8, d: u8, across: u32, down: u32|
                call_requires(*blend, (a, b, c, d, across, down)),
            sampling::places_within(*place),
        ensures
            is_surface(*self, *blend, *place, source@, rows, time, result),
    {
        match self.software_resize {
            Some((width, height)) => {
                if rows.rows_are_top_down {
                    return resize_bgra(
                        source,
                        self.source_width,
                        self.source_height,
                        rows.bytes_per_row,
                        width,
                        height,
                        time,
                        blend,
                        place,
                    );
                }
                let compact = compact_bgra(
                    source,
                    self.source_width,
                    self.source_height,
                    rows,
                    time,
                );
                assert(surface::is_compacted(
                    source@,
                    self.source_width,
                    self.source_height,
                    rows,
                    time,
                    compact,
                ));
                match compact {
                    Err(error) => Err(error),
                    Ok(frame) => resize_bgra(
                        &frame.data,
                        frame.width,
                        frame.height,
                        frame.bytes_per_row,
                        width,
                        height,
                        time,
                        blend,
                        place,
                    ),
                }
            },
            None => {
                if rows.rows_are_top_down {
                    let mut data: Vec<u8> = Vec::with_capacity(source.len());
                    data.extend_from_slice(source);
                    assert(data@ =~= source@);
                    return match VideoFrame::new_bgra(
                        self.width,
                        self.height,
                        rows.bytes_per_row,
                        time,
                        data,
                    ) {
                        Ok(frame) => Ok(frame),
                        Err(error) => Err(SurfaceError::Frame(error)),
                    };
                }
                compact_bgra(source, self.source_width, self.source_height, rows, time)
            },
        }
    }
}

/// A video is turned as the system says, by whole quarter turns and whatever the number of full
/// turns; a system that says nothing, or no turn, leaves it to the container, and a container
/// that says nothing leaves it as it is. Anything but quarter turns is refused.
pub proof fn law_videos_are_turned_as_reported(
    reported: Option<u32>,
    container: Option<DisplayRotation>,
)
    ensures
        ({
            let degrees = (reported->0 as i32) as int;
            let by_system = reported is Some && degrees % 90 == 0 && degrees % 360 != 0;
            let refused = reported is Some && degrees % 90 != 0;
            &&& refused <==> chosen_rotation(reported, container) is Err
            &&& by_system ==> (chosen_rotation(reported, container) matches Ok(rotation)
                && (90 * rotation.quarter_turns() - degrees) % 360 == 0)
            &&& !by_system && !refused && container is Some ==> chosen_rotation(reported, container)
                == Ok::<DisplayRotation, FrameError>(container->0)
            &&& !by_system && !refused && container is None ==> chosen_rotation(reported, container)
                == Ok::<DisplayRotation, FrameError>(DisplayRotation::Unrotated)
        }),
{
    if let Some(reported) = reported {
        let degrees = (reported as i32) as int;
        if degrees % 90 == 0 {
            let turns = degrees / 90;
            assert(degrees == 90 * turns);
            assert(turns == 4 * (turns / 4) + turns % 4);
            assert(degrees == 360 * (turns / 4) + 90 * (turns % 4));
            assert(degrees % 360 == 90 * (turns % 4));
        }
    }
}

/// A sample that is neither resized nor turned becomes a frame that shows it: each pixel is the
/// sample's in the same column and row, where rows that lie from the bottom are turned round.
pub proof fn law_samples_are_shown_as_they_are<
    B: Fn(u8, u8, u8, u8, u32, u32) -> u8,
    P: Fn(usize, usize, usize) -> (usize, u32),
>(
    reader: SampleReader,
    blend: B,
    place: P,
    source: Seq<u8>,
    stride: BgraSampleStride,
    time: MediaTime,
    frame: VideoFrame,
    x: int,
    y: int,
    channel: int,
)
    requires
        is_turned_surface(reader, blend, place, source, stride, time, Ok(frame)),
        reader.software_resize is None,
        reader.display_rotation == DisplayRotation::Unrotated,
        reader.width == reader.source_width,
        reader.height == reader.source_height,
        0 <= x < reader.width,
        0 <= y < reader.height,
        0 <= channel < 4,
    ensures
        frame.width == reader.width,
        frame.height == reader.height,
        frame.time == time,
        frame.data@[y * frame.bytes_per_row + 4 * x + channel] == (if stride.rows_are_top_down {
            source[y * stride.bytes_per_row + 4 * x + channel]
        } else {
            source[(reader.height - 1 - y) * stride.bytes_per_row + 4 * x + channel]
        }),
{
    let surface = choose|surface: Result<VideoFrame, SurfaceError>| #[trigger]
        is_surface(reader, blend, place, source, stride, time, surface) && match surface {
            Err(error) => Ok::<VideoFrame, SampleError>(frame) == Err::<VideoFrame, SampleError>(
                SampleError::Surface(error),
            ),
            Ok(shown) => shown.is_rotated_result(reader.display_rotation, Ok(frame)),
        };
    assert(surface == Ok::<VideoFrame, SurfaceError>(frame));
    if !stride.rows_are_top_down {
        surface::law_compacting_keeps_the_picture(
            source,
            reader.source_width,
            reader.source_height,
            stride,
            time,
            frame,
            x,
            y,
            channel,
        );
    }
}

/// A sample that is turned and not resized becomes a frame that shows it turned: every pixel of
/// the sample stands where the rotation takes it.
pub proof fn law_samples_are_turned<
    B: Fn(u8, u8, u8, u8, u32, u32) -> u8,
    P: Fn(usize, usize, usize) -> (usize, u32),
>(
    reader: SampleReader,
    blend: B,
    place: P,
    source: Seq<u8>,
    stride: BgraSampleStride,
    time: MediaTime,
    frame: VideoFrame,
    x: int,
    y: int,
    channel: int,
)
    requires
        is_turned_surface(reader, blend, place, source, stride, time, Ok(frame)),
        reader.software_resize is None,
        stride.rows_are_top_down,
        0 <= x < reader.width,
        0 <= y < reader.height,
        0 <= channel < 4,
    ensures
        frame.time == time,
        ({
            let to = frame::turned_to(
                reader.display_rotation,
                x,
                y,
                reader.width as int,
                reader.height as int,
            );
            frame.data@[to.1 * frame.bytes_per_row + 4 * to.0 + channel] == source[y
                * stride.bytes_per_row + 4 * x + channel]
        }),
{
    let surface = choose|surface: Result<VideoFrame, SurfaceError>| #[trigger]
        is_surface(reader, blend, place, source, stride, time, surface) && match surface {
            Err(error) => Ok::<VideoFrame, SampleError>(frame) == Err::<VideoFrame, SampleError>(
                SampleError::Surface(error),
            ),
            Ok(shown) => shown.is_rotated_result(reader.display_rotation, Ok(frame)),
        };
    let shown = surface->Ok_0;
    frame::law_turning_moves_every_pixel(shown, reader.display_rotation, frame, x, y, channel);
}

/// A sample that is resized here becomes a frame of that size, turned as the video is shown.
pub proof fn law_resized_samples_have_the_size<
    B: Fn(u8, u8, u8, u8, u32, u32) -> u8,
    P: Fn(usize, usize, usize) -> (usize, u32),
>(
    reader: SampleReader,
    blend: B,
    place: P,
    source: Seq<u8>,
    stride: BgraSampleStride,
    time: MediaTime,
    frame: VideoFrame,
    width: u32,
    height: u32,
)
    requires
        is_turned_surface(reader, blend, place, source, stride, time, Ok(frame)),
        reader.software_resize == Some((width, height)),
        width > 0,
        height > 0,
    ensures
        frame.time == time,
        reader.display_rotation is Unrotated || reader.display_rotation is Clockwise180
            ==> frame.width == width && frame.height == height,
        reader.display_rotation is Clockwise90 || reader.display_rotation is Clockwise270
            ==> frame.width == height && frame.height == width,
{
    let surface = choose|surface: Result<VideoFrame, SurfaceError>| #[trigger]
        is_surface(reader, blend, place, source, stride, time, surface) && match surface {
            Err(error) => Ok::<VideoFrame, SampleError>(frame) == Err::<VideoFrame, SampleError>(
                SampleError::Surface(error),
            ),
            Ok(shown) => shown.is_rotated_result(reader.display_rotation, Ok(frame)),
        };
    let shown = surface->Ok_0;
    frame::law_turning_moves_every_pixel(shown, reader.display_rotation, frame, 0, 0, 0);
}

/// A sample that becomes a frame moves the clock on by its timestamp, and the frame has the time
/// that the clock gives; nothing else of the reader changes. The sample's bytes hold all its rows.
pub proof fn law_frames_have_the_clocks_time<
    B: Fn(u8, u8, u8, u8, u32, u32) -> u8,
    P: Fn(usize, usize, usize) -> (usize, u32),
>(
    before: SampleReader,
    after: SampleReader,
    blend: B,
    place: P,
    source: Seq<u8>,
    stride: BgraSampleStride,
    timestamp_100ns: i64,
    frame: VideoFrame,
)
    requires
        is_frame_result(
            before,
            after,
            blend,
            place,
            source,
            Ok(stride),
            timestamp_100ns,
            Ok(frame),
        ),
    ensures
        clock::next_time(before.timestamp_clock@, timestamp_100ns) == (
            after.timestamp_clock@,
            Ok::<MediaTime, ClockError>(frame.time),
        ),
        stride.bytes_per_row * before.source_height <= source.len(),
        after == (SampleReader { timestamp_clock: after.timestamp_clock, ..before }),
{
    let (_, time) = clock::next_time(before.timestamp_clock@, timestamp_100ns);
    let time = time->Ok_0;
    let bytes = source.subrange(0, stride.bytes_per_row * before.source_height);
    let surface = choose|surface: Result<VideoFrame, SurfaceError>| #[trigger]
        is_surface(before, blend, place, bytes, stride, time, surface) && match surface {
            Err(error) => Ok::<VideoFrame, SampleError>(frame) == Err::<VideoFrame, SampleError>(
                SampleError::Surface(error),
            ),
            Ok(shown) => shown.is_rotated_result(before.display_rotation, Ok(frame)),
        };
    let shown = surface->Ok_0;
    assert(shown.time == time);
    assert(frame.time == shown.time);
}

/// Frames are resized once: by the system where it was asked to and does, and here where it gives
/// them as they are. A system that will not resize is asked for frames as they are, once; one that
/// will not give those either is given up.
pub proof fn law_frames_are_resized_once(wanted: Option<(u32, u32)>)
    ensures
        planned_output(wanted, true, true) == (OutputPlan::Use { software_resize: None }),
        planned_output(wanted, false, true) == (OutputPlan::Use { software_resize: wanted }),
        wanted is Some ==> planned_output(wanted, true, false) == OutputPlan::AskForNative,
        planned_output(wanted, false, false) == OutputPlan::Fail,
        wanted is None ==> planned_output(wanted, true, false) == OutputPlan::Fail,
{
}

} // verus!
