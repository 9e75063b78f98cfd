//! What an encoder does with frames over time: each waits for the next, which
//! tells how long it is shown.

use crate::decoder::clock;
use crate::decoder::clock::rounded_div;
use crate::encoder::yuv;
use crate::encoder::yuv::{bgra_to_nv12, PendingFrame, YuvError};
use crate::frame::{MediaTime, PixelFormat, VideoFrame};
use std::collections::VecDeque;
use vstd::prelude::*;

verus! {

/// How long the last frame is shown if nothing else is known: a thirtieth of a
/// second, in units of 100 nanoseconds.
pub const DEFAULT_FINAL_FRAME_DURATION_HNS: i64 = 333_333;

/// Why a frame was not encoded.
#[derive(Debug, Clone, Copy, PartialEq, Eq, Structural)]
pub enum EncodeError {
    AlreadyFinalized,
    NotBgra,
    OddDimensions { width: u32, height: u32 },
    DimensionsChanged { width: u32, height: u32 },
    TimestampOutOfRange,
    NotIncreasing { previous: i64, current: i64 },
    NonPositiveDuration { duration: i64 },
    NoPendingFrame,
    NoFrames,
    Conversion(YuvError),
    NoSample,
    UnexpectedSample,
    StreamChanged,
    MissingSamples { queued: usize },
}

/// A media time in units of 100 nanoseconds, rounded to the nearest.
pub open spec fn hns_of(time: MediaTime) -> int {
    clock::nearest_quotient(time.value * 10_000_000, time.timescale as int)
}

/// Converts a media time to units of 100 nanoseconds.
pub fn media_time_to_hns(time: MediaTime) -> (result: Result<i64, EncodeError>)
    requires
        time.wf(),
    ensures
        result == (if i64::MIN <= hns_of(time) <= i64::MAX {
            Ok::<i64, EncodeError>(hns_of(time) as i64)
        } else {
            Err::<i64, EncodeError>(EncodeError::TimestampOutOfRange)
        }),
{
    let numerator: i128 = time.value as i128 * 10_000_000;
    let value: i128 = rounded_div(numerator, time.timescale as i128);
    if value < i64::MIN as i128 || value > i64::MAX as i128 {
        return Err(EncodeError::TimestampOutOfRange);
    }
    Ok(value as i64)
}

/// When a frame is shown, and for how long.
#[derive(Debug, Clone, Copy, PartialEq, Eq, Structural)]
pub struct SampleTiming {
    pub time_hns: i64,
    pub duration_hns: i64,
}

/// A frame for the encoder, in NV12.
pub struct EncoderInput {
    pub nv12: Vec<u8>,
    pub timing: SampleTiming,
}

/// What an encoder answers when it is asked for output.
#[derive(Debug, Clone, Copy, PartialEq, Eq, Structural)]
pub enum EncoderOutput {
    Sample,
    /// It said that there was a sample, and gave none.
    Nothing,
    NeedsMoreInput,
    StreamChanged,
}

/// What to do with an encoder's output.
#[derive(Debug, Clone, Copy, PartialEq, Eq, Structural)]
pub enum DrainAction {
    /// Write the sample with this timing, and ask for more.
    Write(SampleTiming),
    Done,
}

/// Where an encoder stands.
pub struct EncoderTimeline {
    /// The size of the frames, once the first has set the encoder up.
    pub size: Option<(u32, u32)>,
    /// The frames that the encoder has and has not given back, in order.
    pub encoded_timings: VecDeque<SampleTiming>,
    pub pending_frame: Option<PendingFrame>,
    pub last_duration_hns: Option<i64>,
    pub expected_duration_hns: Option<i64>,
    pub finalized: bool,
}

/// Two timelines that differ at most in the frame that waits.
pub open spec fn same_but_pending(a: EncoderTimeline, b: EncoderTimeline) -> bool {
    &&& a.size == b.size
    &&& a.encoded_timings == b.encoded_timings
    &&& a.last_duration_hns == b.last_duration_hns
    &&& a.expected_duration_hns == b.expected_duration_hns
    &&& a.finalized == b.finalized
}

/// What a waiting frame becomes when it is shown for so long.
pub open spec fn is_encoder_input(
    pending: PendingFrame,
    size: (u32, u32),
    duration: i64,
    result: Result<EncoderInput, EncodeError>,
) -> bool {
    match result {
        Ok(input) => {
            &&& input.timing == (SampleTiming {
                time_hns: pending.time_hns,
                duration_hns: duration,
            })
            &&& yuv::is_nv12_result(
                pending.data@,
                pending.bytes_per_row,
                size.0,
                size.1,
                Ok(input.nv12@),
            )
        },
        Err(EncodeError::Conversion(error)) => yuv::is_nv12_result(
            pending.data@,
            pending.bytes_per_row,
            size.0,
            size.1,
            Err(error),
        ),
        Err(_) => false,
    }
}

/// What comes of the next frame of a timeline: the frame that has been waiting is given, to be shown
/// until the new one.
pub open spec fn is_next_input(
    before: EncoderTimeline,
    after: EncoderTimeline,
    frame: VideoFrame,
    result: Result<Option<EncoderInput>, EncodeError>,
) -> bool {
    let size = before.size->0;
    let current = hns_of(frame.time);
    if frame.width != size.0 || frame.height != size.1 {
        &&& after == before
        &&& result == Err::<Option<EncoderInput>, EncodeError>(
            EncodeError::DimensionsChanged { width: frame.width, height: frame.height },
        )
    } else if !(i64::MIN <= current <= i64::MAX) {
        &&& after == before
        &&& result == Err::<Option<EncoderInput>, EncodeError>(
            EncodeError::TimestampOutOfRange,
        )
    } else {
        match before.pending_frame {
            None => {
                &&& after == before
                &&& result == Ok::<Option<EncoderInput>, EncodeError>(None)
            },
            Some(pending) => if current <= pending.time_hns {
                &&& after == before
                &&& result == Err::<Option<EncoderInput>, EncodeError>(
                    EncodeError::NotIncreasing {
                        previous: pending.time_hns,
                        current: current as i64,
                    },
                )
            } else {
                &&& same_but_pending(after, before)
                &&& after.pending_frame is None
                &&& match result {
                    Ok(Some(input)) => is_encoder_input(
                        pending,
                        size,
                        (current - pending.time_hns) as i64,
                        Ok(input),
                    ),
                    Ok(None) => false,
                    Err(error) => is_encoder_input(
                        pending,
                        size,
                        (current - pending.time_hns) as i64,
                        Err(error),
                    ),
                }
            },
        }
    }
}

impl EncoderTimeline {
    pub open spec fn wf(self) -> bool {
        &&& self.size matches Some(size) ==> size.0 % 2 == 0 && size.1 % 2 == 0
        &&& self.pending_frame matches Some(pending) ==> self.size matches Some(size)
            && yuv::no_cut_pixel(pending.data@.len(), pending.bytes_per_row, size.0, size.1)
        &&& self.last_duration_hns matches Some(duration) ==> duration > 0
        &&& forall|i: int|
            0 <= i < self.encoded_timings@.len() ==> (
            #[trigger] self.encoded_timings@[i]).duration_hns > 0
    }

    pub fn new() -> (timeline: EncoderTimeline)
        ensures
            timeline.wf(),
            timeline.size is None,
            timeline.encoded_timings@.len() == 0,
            timeline.pending_frame is None,
            timeline.last_duration_hns is None,
            timeline.expected_duration_hns is None,
            !timeline.finalized,
    {
        EncoderTimeline {
            size: None,
            encoded_timings: VecDeque::new(),
            pending_frame: None,
            last_duration_hns: None,
            expected_duration_hns: None,
            finalized: false,
        }
    }

    /// Notes how long the video is going to be.
    pub fn set_expected_duration(&mut self, duration: Option<MediaTime>) -> (result: Result<
        (),
        EncodeError,
    >)
        requires
            old(self).wf(),
            duration matches Some(time) ==> time.wf(),
        ensures
            final(self).wf(),
            final(self).size == old(self).size,
            final(self).encoded_timings == old(self).encoded_timings,
            final(self).pending_frame == old(self).pending_frame,
            final(self).last_duration_hns == old(self).last_duration_hns,
            final(self).finalized == old(self).finalized,
            match duration {
                None => result is Ok && final(self).expected_duration_hns is None,
                Some(time) => if i64::MIN <= hns_of(time) <= i64::MAX {
                    result is Ok && final(self).expected_duration_hns == Some(hns_of(time) as i64)
                } else {
                    result == Err::<(), EncodeError>(EncodeError::TimestampOutOfRange)
                        && final(self).expected_duration_hns == old(self).expected_duration_hns
                },
            },
    {
        match duration {
            None => {
                self.expected_duration_hns = None;
            },
            Some(time) => match media_time_to_hns(time) {
                Ok(hns) => {
                    self.expected_duration_hns = Some(hns);
                },
                Err(error) => return Err(error),
            },
        }
        Ok(())
    }

    /// Whether a frame has to set the encoder up first. An encoder that is
    /// complete takes no frame, and none takes a first frame of odd size.
    pub fn needs_setup(&self, frame: &VideoFrame) -> (result: Result<bool, EncodeError>)
        ensures
            result == (if self.finalized {
                Err::<bool, EncodeError>(EncodeError::AlreadyFinalized)
            } else if frame.format != PixelFormat::Bgra {
                Err::<bool, EncodeError>(EncodeError::NotBgra)
            } else if self.size is Some {
                Ok::<bool, EncodeError>(false)
            } else if frame.width % 2 != 0 || frame.height % 2 != 0 {
                Err::<bool, EncodeError>(
                    EncodeError::OddDimensions { width: frame.width, height: frame.height },
                )
            } else {
                Ok::<bool, EncodeError>(true)
            }),
    {
        if self.finalized {
            return Err(EncodeError::AlreadyFinalized);
        }
        if frame.format != PixelFormat::Bgra {
            return Err(EncodeError::NotBgra);
        }
        if self.size.is_some() {
            return Ok(false);
        }
        if frame.width % 2 != 0 || frame.height % 2 != 0 {
            return Err(
                EncodeError::OddDimensions { width: frame.width, height: frame.height },
            );
        }
        Ok(true)
    }

    /// The encoder is set up for frames of this size.
    pub fn set_up(&mut self, width: u32, height: u32)
        requires
            old(self).wf(),
            old(self).size is None,
            width % 2 == 0,
            height % 2 == 0,
        ensures
            final(self).wf(),
            *final(self) == (EncoderTimeline { size: Some((width, height)), ..*old(self) }),
    {
        self.size = Some((width, height));
    }

    /// Takes a frame's time and gives what is to be encoded now: the frame that
    /// has been waiting, which is shown until the new one.
    pub fn next_input(&mut self, frame: &VideoFrame) -> (result: Result<
        Option<EncoderInput>,
        EncodeError,
    >)
        requires
            old(self).wf(),
            old(self).size is Some,
            frame.time.wf(),
            old(self).gap_fits(frame.time),
        ensures
            final(self).wf(),
            is_next_input(*old(self), *final(self), *frame, result),
    {
        let size: (u32, u32) = match self.size {
            Some(size) => size,
            None => (0, 0),
        };
        if frame.width != size.0 || frame.height != size.1 {
            return Err(
                EncodeError::DimensionsChanged { width: frame.width, height: frame.height },
            );
        }
        let current: i64 = match media_time_to_hns(frame.time) {
            Ok(current) => current,
            Err(error) => return Err(error),
        };
        let previous: i64 = match &self.pending_frame {
            Some(pending) => pending.time_hns,
            None => return Ok(None),
        };
        let duration: i64 = current - previous;
        if duration <= 0 {
            return Err(EncodeError::NotIncreasing { previous, current });
        }
        match self.encode_pending_frame(duration) {
            Ok(input) => Ok(Some(input)),
            Err(error) => Err(error),
        }
    }

    /// Gives the waiting frame, to be shown for so long.
    pub fn encode_pending_frame(&mut self, duration_hns: i64) -> (result: Result<
        EncoderInput,
        EncodeError,
    >)
        requires
            old(self).wf(),
        ensures
            final(self).wf(),
            if duration_hns <= 0 {
                &&& *final(self) == *old(self)
                &&& result == Err::<EncoderInput, EncodeError>(
                    EncodeError::NonPositiveDuration { duration: duration_hns },
                )
            } else {
                match old(self).pending_frame {
                    None => {
                        &&& *final(self) == *old(self)
                        &&& result == Err::<EncoderInput, EncodeError>(EncodeError::NoPendingFrame)
                    },
                    Some(pending) => {
                        &&& same_but_pending(*final(self), *old(self))
                        &&& final(self).pending_frame is None
                        &&& is_encoder_input(pending, old(self).size->0, duration_hns, result)
                    },
                }
            },
    {
        if duration_hns <= 0 {
            return Err(EncodeError::NonPositiveDuration { duration: duration_hns });
        }
        let size: (u32, u32) = match self.size {
            Some(size) => size,
            None => (0, 0),
        };
        let pending: PendingFrame = match self.pending_frame.take() {
            Some(pending) => pending,
            None => return Err(EncodeError::NoPendingFrame),
        };
        let timing = SampleTiming { time_hns: pending.time_hns, duration_hns };
        let converted = bgra_to_nv12(&pending, size.0, size.1);
        match converted {
            Ok(nv12) => Ok(EncoderInput { nv12, timing }),
            Err(error) => Err(EncodeError::Conversion(error)),
        }
    }

    /// The encoder took a frame.
    pub fn input_sent(&mut self, timing: SampleTiming)
        requires
            old(self).wf(),
            timing.duration_hns > 0,
        ensures
            final(self).wf(),
            final(self).encoded_timings@ == old(self).encoded_timings@.push(timing),
            final(self).last_duration_hns == Some(timing.duration_hns),
            final(self).size == old(self).size,
            final(self).pending_frame == old(self).pending_frame,
            final(self).expected_duration_hns == old(self).expected_duration_hns,
            final(self).finalized == old(self).finalized,
    {
        self.encoded_timings.push_back(timing);
        self.last_duration_hns = Some(timing.duration_hns);
    }

    /// The timing of the next frame that the encoder gives back.
    pub fn next_timing(&mut self) -> (result: Result<SampleTiming, EncodeError>)
        requires
            old(self).wf(),
        ensures
            final(self).wf(),
            final(self).size == old(self).size,
            final(self).pending_frame == old(self).pending_frame,
            final(self).last_duration_hns == old(self).last_duration_hns,
            final(self).expected_duration_hns == old(self).expected_duration_hns,
            final(self).finalized == old(self).finalized,
            if old(self).encoded_timings@.len() == 0 {
                &&& result == Err::<SampleTiming, EncodeError>(EncodeError::UnexpectedSample)
                &&& final(self).encoded_timings@ == old(self).encoded_timings@
            } else {
                &&& result == Ok::<SampleTiming, EncodeError>(old(self).encoded_timings@[0])
                &&& final(self).encoded_timings@ == old(self).encoded_timings@.drop_first()
            },
    {
        let ghost before = self.encoded_timings@;
        match self.encoded_timings.pop_front() {
            Some(timing) => {
                assert(self.encoded_timings@ =~= before.drop_first());
                Ok(timing)
            },
            None => Err(EncodeError::UnexpectedSample),
        }
    }

    /// Keeps a frame until the next comes.
    pub fn keep_frame(&mut self, frame: &VideoFrame) -> (result: Result<(), EncodeError>)
        requires
            old(self).wf(),
            old(self).size == Some((frame.width, frame.height)),
            frame.time.wf(),
            yuv::no_cut_pixel(frame.data@.len(), frame.bytes_per_row, frame.width, frame.height),
        ensures
            final(self).wf(),
            same_but_pending(*final(self), *old(self)),
            if i64::MIN <= hns_of(frame.time) <= i64::MAX {
                &&& result is Ok
                &&& final(self).pending_frame matches Some(pending)
                &&& pending.data@ == frame.data@
                &&& pending.time_hns == hns_of(frame.time)
                &&& pending.bytes_per_row == frame.bytes_per_row
            } else {
                &&& result == Err::<(), EncodeError>(EncodeError::TimestampOutOfRange)
                &&& final(self).pending_frame == old(self).pending_frame
            },
    {
        let time_hns: i64 = match media_time_to_hns(frame.time) {
            Ok(time_hns) => time_hns,
            Err(error) => return Err(error),
        };
        let mut data: Vec<u8> = Vec::with_capacity(frame.data.len());
        data.extend_from_slice(&frame.data);
        assert(data@ =~= frame.data@);
        self.pending_frame =
        Some(PendingFrame { data, time_hns, bytes_per_row: frame.bytes_per_row });
        Ok(())
    }

    /// How long the last frame is shown: until the video's expected end if that
    /// comes later, or else as long as the frame before it.
    pub open spec fn final_duration(self) -> int {
        let rest = match (self.pending_frame, self.expected_duration_hns) {
            (Some(pending), Some(expected)) => expected - pending.time_hns,
            _ => 0,
        };
        if rest > 0 {
            rest
        } else {
            match self.last_duration_hns {
                Some(duration) => duration as int,
                None => DEFAULT_FINAL_FRAME_DURATION_HNS as int,
            }
        }
    }

    /// The time from the frame that waits to a frame of this time can be
    /// counted.
    pub open spec fn gap_fits(self, time: MediaTime) -> bool {
        self.pending_frame matches Some(pending) && i64::MIN <= hns_of(time) <= i64::MAX ==> (
        i64::MIN <= hns_of(time) - self.pending_frame->0.time_hns <= i64::MAX)
    }

    /// The time from the frame that waits to the video's expected end can be
    /// counted.
    pub open spec fn rest_fits(self) -> bool {
        match (self.pending_frame, self.expected_duration_hns) {
            (Some(pending), Some(expected)) => i64::MIN <= expected - pending.time_hns <= i64::MAX,
            _ => true,
        }
    }

    /// How long the last frame is shown.
    pub fn final_frame_duration_hns(&self) -> (duration: i64)
        requires
            self.rest_fits(),
        ensures
            duration == self.final_duration(),
    {
        if let Some(pending) = &self.pending_frame {
            if let Some(expected) = self.expected_duration_hns {
                let rest: i64 = expected - pending.time_hns;
                if rest > 0 {
                    return rest;
                }
            }
        }
        match self.last_duration_hns {
            Some(duration) => duration,
            None => DEFAULT_FINAL_FRAME_DURATION_HNS,
        }
    }

    /// Gives the last frame that is to be encoded before the video is complete.
    pub fn final_input(&mut self) -> (result: Result<Option<EncoderInput>, EncodeError>)
        requires
            old(self).wf(),
            old(self).rest_fits(),
        ensures
            final(self).wf(),
            if old(self).finalized {
                &&& *final(self) == *old(self)
                &&& result == Err::<Option<EncoderInput>, EncodeError>(
                    EncodeError::AlreadyFinalized,
                )
            } else if old(self).size is None {
                &&& *final(self) == *old(self)
                &&& result == Err::<Option<EncoderInput>, EncodeError>(EncodeError::NoFrames)
            } else {
                match old(self).pending_frame {
                    None => {
                        &&& *final(self) == *old(self)
                        &&& result == Ok::<Option<EncoderInput>, EncodeError>(None)
                    },
                    Some(pending) => {
                        &&& same_but_pending(*final(self), *old(self))
                        &&& final(self).pending_frame is None
                        &&& match result {
                            Ok(Some(input)) => is_encoder_input(
                                pending,
                                old(self).size->0,
                                old(self).final_duration() as i64,
                                Ok(input),
                            ),
                            Ok(None) => false,
                            Err(error) => is_encoder_input(
                                pending,
                                old(self).size->0,
                                old(self).final_duration() as i64,
                                Err(error),
                            ),
                        }
                    },
                }
            },
    {
        if self.finalized {
            return Err(EncodeError::AlreadyFinalized);
        }
        if self.size.is_none() {
            return Err(EncodeError::NoFrames);
        }
        if self.pending_frame.is_none() {
            return Ok(None);
        }
        let duration: i64 = self.final_frame_duration_hns();
        match self.encode_pending_frame(duration) {
            Ok(input) => Ok(Some(input)),
            Err(error) => Err(error),
        }
    }

    /// Checks that the encoder has given every frame back.
    pub fn check_drained(&self) -> (result: Result<(), EncodeError>)
        ensures
            result == (if self.encoded_timings@.len() == 0 {
                Ok::<(), EncodeError>(())
            } else {
                Err::<(), EncodeError>(
                    EncodeError::MissingSamples { queued: self.encoded_timings@.len() as usize },
                )
            }),
    {
        let queued: usize = self.encoded_timings.len();
        if queued == 0 {
            Ok(())
        } else {
            Err(EncodeError::MissingSamples { queued })
        }
    }

    /// Decides what to do with what the encoder answered when it was asked for
    /// output. A last drain leaves nothing behind.
    pub fn drain_step(&mut self, output: EncoderOutput, last: bool) -> (result: Result<
        DrainAction,
        EncodeError,
    >)
        requires
            old(self).wf(),
        ensures
            final(self).wf(),
            final(self).size == old(self).size,
            final(self).pending_frame == old(self).pending_frame,
            final(self).last_duration_hns == old(self).last_duration_hns,
            final(self).expected_duration_hns == old(self).expected_duration_hns,
            final(self).finalized == old(self).finalized,
            ({
                let timings = old(self).encoded_timings@;
                &&& final(self).encoded_timings@ == (if output is Sample && timings.len() > 0 {
                    timings.drop_first()
                } else {
                    timings
                })
                &&& result == (match output {
                    EncoderOutput::Sample => if timings.len() == 0 {
                        Err::<DrainAction, EncodeError>(EncodeError::UnexpectedSample)
                    } else {
                        Ok::<DrainAction, EncodeError>(DrainAction::Write(timings[0]))
                    },
                    EncoderOutput::Nothing => Err::<DrainAction, EncodeError>(
                        EncodeError::NoSample,
                    ),
                    EncoderOutput::NeedsMoreInput => if last && timings.len() > 0 {
                        Err::<DrainAction, EncodeError>(
                            EncodeError::MissingSamples { queued: timings.len() as usize },
                        )
                    } else {
                        Ok::<DrainAction, EncodeError>(DrainAction::Done)
                    },
                    EncoderOutput::StreamChanged => Err::<DrainAction, EncodeError>(
                        EncodeError::StreamChanged,
                    ),
                })
            }),
    {
        match output {
            EncoderOutput::Sample => match self.next_timing() {
                Ok(timing) => Ok(DrainAction::Write(timing)),
                Err(error) => Err(error),
            },
            EncoderOutput::Nothing => Err(EncodeError::NoSample),
            EncoderOutput::NeedsMoreInput => {
                if last {
                    if let Err(error) = self.check_drained() {
                        return Err(error);
                    }
                }
                Ok(DrainAction::Done)
            },
            EncoderOutput::StreamChanged => Err(EncodeError::StreamChanged),
        }
    }

    /// The video is complete.
    pub fn finish(&mut self)
        requires
            old(self).wf(),
        ensures
            final(self).wf(),
            *final(self) == (EncoderTimeline { finalized: true, ..*old(self) }),
    {
        self.finalized = true;
    }
}

/// A frame that holds what it promises has no pixel cut off.
pub proof fn law_whole_frames_have_whole_pixels(frame: VideoFrame)
    requires
        frame.wf(),
    ensures
        yuv::no_cut_pixel(frame.data@.len(), frame.bytes_per_row, frame.width, frame.height),
{
    assert forall|x: int, y: int|
        0 <= x < frame.width && 0 <= y < frame.height && #[trigger] yuv::pixel_at(
            frame.bytes_per_row,
            x,
            y,
        ) < frame.data@.len() implies yuv::pixel_at(frame.bytes_per_row, x, y) + 2
        < frame.data@.len() by {
        crate::frame::lemma_pixel_within(frame, x, y);
    }
}

/// A frame is shown until the next: it ends when that begins, and no sooner
/// than it began itself.
pub proof fn law_frames_follow_each_other(
    pending: PendingFrame,
    size: (u32, u32),
    next: i64,
    input: EncoderInput,
)
    requires
        pending.time_hns < next,
        next - pending.time_hns <= i64::MAX,
        is_encoder_input(pending, size, (next - pending.time_hns) as i64, Ok(input)),
    ensures
        input.timing.time_hns == pending.time_hns,
        input.timing.duration_hns > 0,
        input.timing.time_hns + input.timing.duration_hns == next,
{
}

/// The last frame is shown for some time, and where the video's expected end
/// lies behind it, until that end.
pub proof fn law_last_frame_is_shown(timeline: EncoderTimeline)
    requires
        timeline.wf(),
    ensures
        timeline.final_duration() > 0,
        timeline.pending_frame matches Some(pending) && timeline.expected_duration_hns matches Some(
            expected,
        ) && expected > pending.time_hns ==> timeline.pending_frame->0.time_hns
            + timeline.final_duration() == timeline.expected_duration_hns->0,
{
}

/// A media time in units of 100 nanoseconds is off by half a unit at most, and of two that
/// are equally near it is the one further from zero.
pub proof fn law_times_are_rounded_to_the_nearest(time: MediaTime)
    requires
        time.timescale > 0,
    ensures
        ({
            let off = hns_of(time) * time.timescale - time.value * 10_000_000;
            &&& -time.timescale <= 2 * off <= time.timescale
            &&& 2 * off == time.timescale ==> time.value > 0
            &&& 2 * off == -time.timescale ==> time.value < 0
        }),
{
    clock::law_nearest_quotient_rounds_away_from_zero(
        time.value * 10_000_000,
        time.timescale as int,
        0,
    );
}

/// The last frame is shown until the video's expected end if that comes later, or else as long
/// as the frame before it, or else for a thirtieth of a second.
pub proof fn law_last_frames_have_a_duration(timeline: EncoderTimeline)
    ensures
        ({
            let late = timeline.pending_frame is Some && timeline.expected_duration_hns is Some
                && timeline.expected_duration_hns->0 > timeline.pending_frame->0.time_hns;
            &&& late ==> timeline.final_duration() == timeline.expected_duration_hns->0
                - timeline.pending_frame->0.time_hns
            &&& !late && timeline.last_duration_hns is Some ==> timeline.final_duration()
                == timeline.last_duration_hns->0
            &&& !late && timeline.last_duration_hns is None ==> timeline.final_duration() == 333_333
        }),
{
}

/// Timelines that differ in the waiting frame alone agree in everything else.
pub proof fn law_only_the_waiting_frame_differs(a: EncoderTimeline, b: EncoderTimeline)
    requires
        same_but_pending(a, b),
    ensures
        a == (EncoderTimeline { pending_frame: a.pending_frame, ..b }),
{
}

/// A frame that was encoded shows the picture that waited, pixel for pixel: the luma of each
/// pixel of so many columns and rows stands in its place.
pub proof fn law_encoded_frames_show_the_picture(
    pending: PendingFrame,
    size: (u32, u32),
    duration: i64,
    input: EncoderInput,
    x: int,
    y: int,
)
    requires
        is_encoder_input(pending, size, duration, Ok(input)),
        0 <= x < size.0,
        0 <= y < size.1,
    ensures
        input.timing.time_hns == pending.time_hns,
        input.timing.duration_hns == duration,
        input.nv12@.len() == size.0 * size.1 + size.0 * size.1 / 2,
        ({
            let at = y * pending.bytes_per_row + 4 * x;
            input.nv12@[y * size.0 + x] == yuv::luma(
                pending.data@[at + 2],
                pending.data@[at + 1],
                pending.data@[at],
            )
        }),
{
    yuv::law_luma_plane_shows_the_frame(
        pending.data@,
        pending.bytes_per_row,
        size.0,
        size.1,
        input.nv12@,
        x,
        y,
    );
}

/// A frame that comes while another waits, of the size that the encoder is set up for and later than
/// that one, has it encoded with the time that it came at, to be shown until the new one. The first
/// frame has nothing encoded. One of another size, or not later, is refused, and nothing changes.
pub proof fn law_frames_are_encoded_when_the_next_comes(
    before: EncoderTimeline,
    after: EncoderTimeline,
    frame: VideoFrame,
    result: Result<Option<EncoderInput>, EncodeError>,
)
    requires
        is_next_input(before, after, frame, result),
        before.size is Some,
        before.gap_fits(frame.time),
        i64::MIN <= hns_of(frame.time) <= i64::MAX,
    ensures
        ({
            let same_size = before.size == Some((frame.width, frame.height));
            let waiting = before.pending_frame is Some;
            let later = hns_of(frame.time) > before.pending_frame->0.time_hns;
            &&& !same_size ==> result is Err && after == before
            &&& same_size && !waiting ==> result == Ok::<Option<EncoderInput>, EncodeError>(None)
                && after == before
            &&& same_size && waiting && !later ==> result is Err && after == before
            &&& same_size && waiting && later ==> after.pending_frame is None && result != Ok::<
                Option<EncoderInput>,
                EncodeError,
            >(None)
        }),
        result matches Ok(Some(input)) ==> {
            &&& before.pending_frame is Some
            &&& input.timing.time_hns == before.pending_frame->0.time_hns
            &&& input.timing.duration_hns > 0
            &&& input.timing.time_hns + input.timing.duration_hns == hns_of(frame.time)
            &&& input.nv12@.len() == frame.width * frame.height + frame.width * frame.height / 2
        },
{
    if let Ok(Some(input)) = result {
        let pending = before.pending_frame->0;
        let size = before.size->0;
        assert(is_encoder_input(
            pending,
            size,
            (hns_of(frame.time) - pending.time_hns) as i64,
            Ok(input),
        ));
    }
}

} // verus!
