//! Running a video through an engine, in one thread or in three.
//!
//! In one thread `open_and_run` does everything. In three, a decoder and an
//! encoder work on threads of their own, with the engine between them; each
//! of the three asks its stage here what to do next.

use crate::decoder::VideoDecoder;
use crate::encoder::{failure, EncoderCall, VideoEncoder};
use crate::engine::Engine;
use crate::frame::{MediaTime, VideoFrame};
use vstd::prelude::*;

verus! {

/// How many frames may wait between two threads.
pub const FRAME_QUEUE_CAPACITY: usize = 2;

#[derive(Debug, Clone, Copy, PartialEq, Eq, Structural)]
pub enum Mode {
    Sequential,
    Pipelined,
}

#[derive(Debug, Clone, Copy, PartialEq, Eq, Structural)]
pub enum Progress {
    Started(Option<MediaTime>),
    Frame(MediaTime, u64),
}

/// Something that is told how far a run has come.
pub trait ProgressSink {
    /// What it was told so far, in order.
    ///
    /// It is for proofs alone. A sink of which nothing is proved need not say it.
    open spec fn told(&self) -> Seq<Progress> {
        arbitrary()
    }

    fn report(&mut self, event: Progress)
        ensures
            final(self).told() == old(self).told().push(event),
    ;
}

/// Keeps what it is told.
pub struct ProgressLog {
    pub events: Vec<Progress>,
}

impl ProgressSink for ProgressLog {
    open spec fn told(&self) -> Seq<Progress> {
        self.events@
    }

    fn report(&mut self, event: Progress) {
        self.events.push(event);
    }
}

/// Why a run ended without success.
#[derive(Debug)]
pub enum RunError<E> {
    /// The decoder, the engine or the encoder failed.
    Stage(E),
    /// There was no frame to encode.
    NoFrames,
    /// There were more frames than can be counted.
    TooManyFrames,
}

/// How a run in one thread ended.
pub enum Ending<E> {
    /// The encoder refused the duration.
    Refused(E),
    ReadFailed(E),
    NotSegmented(VideoFrame, E),
    NotSent(VideoFrame, VideoFrame, E),
    /// Another frame came than could be counted.
    TooMany(VideoFrame),
    /// Every frame was read, and the video is complete or could not be completed.
    Complete(Option<E>),
    /// No frame came.
    Empty,
}

/// A run in one thread: the frames that went all the way, each with its mask, and
/// how it ended.
pub struct FrameRun<E> {
    pub duration: Option<MediaTime>,
    pub frames: Seq<VideoFrame>,
    pub masks: Seq<VideoFrame>,
    pub ending: Ending<E>,
}

/// Frames, as a decoder gives them.
pub open spec fn reads_of<E>(frames: Seq<VideoFrame>) -> Seq<Result<Option<VideoFrame>, E>> {
    Seq::new(frames.len(), |i: int| Ok(Some(frames[i])))
}

/// Frames with their masks, as an engine makes them.
pub open spec fn segmented_of<E>(frames: Seq<VideoFrame>, masks: Seq<VideoFrame>) -> Seq<
    (VideoFrame, Result<VideoFrame, E>),
> {
    Seq::new(frames.len(), |i: int| (frames[i], Ok(masks[i])))
}

/// Masks, as an encoder takes them.
pub open spec fn sends_of<E>(masks: Seq<VideoFrame>) -> Seq<EncoderCall<E>> {
    Seq::new(masks.len(), |i: int| EncoderCall::Sent(masks[i], None))
}

/// What is told of a video whose frames went all the way.
pub open spec fn events_of(duration: Option<MediaTime>, frames: Seq<VideoFrame>) -> Seq<Progress> {
    seq![Progress::Started(duration)] + Seq::new(
        frames.len(),
        |i: int| Progress::Frame(frames[i].time, (i + 1) as u64),
    )
}

impl<E> FrameRun<E> {
    /// There is a mask for each frame, and the run ended as it could.
    pub open spec fn wf(self) -> bool {
        &&& self.masks.len() == self.frames.len() <= u64::MAX
        &&& self.ending is Refused || self.ending is Empty ==> self.frames.len() == 0
        &&& self.ending is Complete ==> self.frames.len() > 0
        &&& self.ending is TooMany ==> self.frames.len() == u64::MAX
    }

    /// What the encoder said to the duration.
    pub open spec fn accepted(self) -> Result<(), E> {
        match self.ending {
            Ending::Refused(error) => Err(error),
            _ => Ok(()),
        }
    }

    /// What the decoder gave, one reading behind the other.
    pub open spec fn reads(self) -> Seq<Result<Option<VideoFrame>, E>> {
        reads_of(self.frames) + match self.ending {
            Ending::Refused(_) => Seq::empty(),
            Ending::ReadFailed(error) => seq![Err(error)],
            Ending::NotSegmented(frame, _) => seq![Ok(Some(frame))],
            Ending::NotSent(frame, _, _) => seq![Ok(Some(frame))],
            Ending::TooMany(frame) => seq![Ok(Some(frame))],
            Ending::Complete(_) => seq![Ok(None)],
            Ending::Empty => seq![Ok(None)],
        }
    }

    /// The frames that went to the engine, each with what came of it.
    pub open spec fn segmented(self) -> Seq<(VideoFrame, Result<VideoFrame, E>)> {
        segmented_of(self.frames, self.masks) + match self.ending {
            Ending::NotSegmented(frame, error) => seq![(frame, Err(error))],
            Ending::NotSent(frame, mask, _) => seq![(frame, Ok(mask))],
            _ => Seq::empty(),
        }
    }

    /// What the encoder was asked behind the duration.
    pub open spec fn calls(self) -> Seq<EncoderCall<E>> {
        sends_of(self.masks) + match self.ending {
            Ending::NotSent(_, mask, error) => seq![EncoderCall::Sent(mask, Some(error))],
            Ending::Complete(error) => seq![EncoderCall::Finalized(error)],
            _ => Seq::empty(),
        }
    }

    /// What was told of the run.
    pub open spec fn events(self) -> Seq<Progress> {
        match self.ending {
            Ending::Refused(_) => Seq::empty(),
            _ => events_of(self.duration, self.frames),
        }
    }

    /// What the run comes to: how many frames there were, or what went wrong.
    pub open spec fn result(self) -> Result<u64, RunError<E>> {
        match self.ending {
            Ending::Refused(error) => Err(RunError::Stage(error)),
            Ending::ReadFailed(error) => Err(RunError::Stage(error)),
            Ending::NotSegmented(_, error) => Err(RunError::Stage(error)),
            Ending::NotSent(_, _, error) => Err(RunError::Stage(error)),
            Ending::TooMany(_) => Err(RunError::TooManyFrames),
            Ending::Complete(Some(error)) => Err(RunError::Stage(error)),
            Ending::Complete(None) => Ok(self.frames.len() as u64),
            Ending::Empty => Err(RunError::NoFrames),
        }
    }

    /// The run could be, and comes to this.
    pub open spec fn led(self, result: Result<u64, RunError<E>>) -> bool {
        self.wf() && result == self.result()
    }
}

/// What came of what a run in one thread did.
pub enum SequentialEvent<E> {
    /// The decoder knows how long its video is, or does not.
    Opened(Option<MediaTime>),
    /// The encoder was told how long its video is going to be.
    Expected(Option<MediaTime>, Result<(), E>),
    Read(Result<Option<VideoFrame>, E>),
    /// A frame of this time went to the engine.
    Segmented(MediaTime, Result<VideoFrame, E>),
    /// The mask of a frame of this time went to the encoder.
    Sent(MediaTime, Result<(), E>),
    Finalized(Result<(), E>),
}

/// What a run in one thread does next.
pub enum SequentialAction<E> {
    Expect(Option<MediaTime>),
    Read,
    Segment(VideoFrame),
    /// Send the mask of a frame of this time.
    Send(MediaTime, VideoFrame),
    Finalize,
    /// The run has come to this.
    Stop(Result<u64, RunError<E>>),
}

/// A run tells the encoder the duration, and then reads, segments and sends one
/// frame behind the other, telling about each that was sent. Behind the last it
/// completes the video if there was one. It ends with the first failure.
pub open spec fn sequential_next<E>(frames: u64, event: SequentialEvent<E>) -> (
    u64,
    Option<Progress>,
    SequentialAction<E>,
) {
    match event {
        SequentialEvent::Opened(duration) => (frames, None, SequentialAction::Expect(duration)),
        SequentialEvent::Expected(duration, Ok(_)) => (
            frames,
            Some(Progress::Started(duration)),
            SequentialAction::Read,
        ),
        SequentialEvent::Read(Ok(Some(frame))) => (
            frames,
            None,
            if frames == u64::MAX {
                SequentialAction::Stop(Err(RunError::TooManyFrames))
            } else {
                SequentialAction::Segment(frame)
            },
        ),
        SequentialEvent::Segmented(time, Ok(mask)) => (
            frames,
            None,
            SequentialAction::Send(time, mask),
        ),
        SequentialEvent::Sent(time, Ok(_)) => (
            counted(frames),
            Some(Progress::Frame(time, counted(frames))),
            SequentialAction::Read,
        ),
        SequentialEvent::Read(Ok(None)) => (
            frames,
            None,
            if frames == 0 {
                SequentialAction::Stop(Err(RunError::NoFrames))
            } else {
                SequentialAction::Finalize
            },
        ),
        SequentialEvent::Finalized(Ok(_)) => (frames, None, SequentialAction::Stop(Ok(frames))),
        SequentialEvent::Expected(_, Err(error))
        | SequentialEvent::Read(Err(error))
        | SequentialEvent::Segmented(_, Err(error))
        | SequentialEvent::Sent(_, Err(error))
        | SequentialEvent::Finalized(Err(error)) => (
            frames,
            None,
            SequentialAction::Stop(Err(RunError::Stage(error))),
        ),
    }
}

/// Says what a run in one thread, which has sent the masks of so many frames, tells
/// and does next, and how many frames it has sent then.
pub fn sequential_step<E>(frames: u64, event: SequentialEvent<E>) -> (next: (
    u64,
    Option<Progress>,
    SequentialAction<E>,
))
    ensures
        next == sequential_next(frames, event),
{
    match event {
        SequentialEvent::Opened(duration) => (frames, None, SequentialAction::Expect(duration)),
        SequentialEvent::Expected(duration, Ok(())) => {
            (frames, Some(Progress::Started(duration)), SequentialAction::Read)
        },
        SequentialEvent::Read(Ok(Some(frame))) => {
            if frames == u64::MAX {
                (frames, None, SequentialAction::Stop(Err(RunError::TooManyFrames)))
            } else {
                (frames, None, SequentialAction::Segment(frame))
            }
        },
        SequentialEvent::Segmented(time, Ok(mask)) => {
            (frames, None, SequentialAction::Send(time, mask))
        },
        SequentialEvent::Sent(time, Ok(())) => {
            let sent: u64 = count_frame(frames);
            (sent, Some(Progress::Frame(time, sent)), SequentialAction::Read)
        },
        SequentialEvent::Read(Ok(None)) => {
            if frames == 0 {
                (frames, None, SequentialAction::Stop(Err(RunError::NoFrames)))
            } else {
                (frames, None, SequentialAction::Finalize)
            }
        },
        SequentialEvent::Finalized(Ok(())) => (frames, None, SequentialAction::Stop(Ok(frames))),
        SequentialEvent::Expected(_, Err(error))
        | SequentialEvent::Read(Err(error))
        | SequentialEvent::Segmented(_, Err(error))
        | SequentialEvent::Sent(_, Err(error))
        | SequentialEvent::Finalized(Err(error)) => {
            (frames, None, SequentialAction::Stop(Err(RunError::Stage(error))))
        },
    }
}

/// A run on its way: what it began with, the frames that went all the way, each with
/// its mask, the frame behind them and that frame's mask.
struct Underway {
    duration: Option<MediaTime>,
    frames: Seq<VideoFrame>,
    masks: Seq<VideoFrame>,
    frame: VideoFrame,
    mask: VideoFrame,
}

impl Underway {
    /// What the decoder gave until this came of what the run did last.
    spec fn reads<E>(self, event: SequentialEvent<E>) -> Seq<Result<Option<VideoFrame>, E>> {
        reads_of(self.frames) + match event {
            SequentialEvent::Read(read) => seq![read],
            SequentialEvent::Segmented(_, _) => seq![Ok(Some(self.frame))],
            SequentialEvent::Sent(_, _) => seq![Ok(Some(self.frame))],
            SequentialEvent::Finalized(_) => seq![Ok(None)],
            _ => Seq::empty(),
        }
    }

    /// What went to the engine until then.
    spec fn segmented<E>(self, event: SequentialEvent<E>) -> Seq<
        (VideoFrame, Result<VideoFrame, E>),
    > {
        segmented_of(self.frames, self.masks) + match event {
            SequentialEvent::Segmented(_, mask) => seq![(self.frame, mask)],
            SequentialEvent::Sent(_, _) => seq![(self.frame, Ok(self.mask))],
            _ => Seq::empty(),
        }
    }

    /// What the encoder was asked until then.
    spec fn calls<E>(self, event: SequentialEvent<E>) -> Seq<EncoderCall<E>> {
        sends_of(self.masks) + match event {
            SequentialEvent::Sent(_, result) => seq![EncoderCall::Sent(self.mask, failure(result))],
            SequentialEvent::Finalized(result) => seq![EncoderCall::Finalized(failure(result))],
            _ => Seq::empty(),
        }
    }

    /// What was told until then.
    spec fn events<E>(self, event: SequentialEvent<E>) -> Seq<Progress> {
        match event {
            SequentialEvent::Opened(_) => Seq::empty(),
            SequentialEvent::Expected(_, _) => Seq::empty(),
            _ => events_of(self.duration, self.frames),
        }
    }

    /// The run can have come this far.
    spec fn agrees<E>(self, frames: u64, event: SequentialEvent<E>) -> bool {
        &&& frames == self.frames.len() == self.masks.len()
        &&& match event {
            SequentialEvent::Opened(duration) => duration == self.duration && frames == 0,
            SequentialEvent::Expected(duration, _) => duration == self.duration && frames == 0,
            SequentialEvent::Read(_) => true,
            SequentialEvent::Segmented(time, _) => time == self.frame.time && frames < u64::MAX,
            SequentialEvent::Sent(time, _) => time == self.frame.time && frames < u64::MAX,
            SequentialEvent::Finalized(_) => frames > 0,
        }
    }

    /// The run, if it ends here.
    spec fn ended<E>(self, event: SequentialEvent<E>) -> FrameRun<E> {
        FrameRun {
            duration: self.duration,
            frames: self.frames,
            masks: self.masks,
            ending: match event {
                SequentialEvent::Expected(_, Err(error)) => Ending::Refused(error),
                SequentialEvent::Read(Err(error)) => Ending::ReadFailed(error),
                SequentialEvent::Read(Ok(Some(frame))) => Ending::TooMany(frame),
                SequentialEvent::Segmented(_, Err(error)) => Ending::NotSegmented(
                    self.frame,
                    error,
                ),
                SequentialEvent::Sent(_, Err(error)) => Ending::NotSent(
                    self.frame,
                    self.mask,
                    error,
                ),
                SequentialEvent::Finalized(result) => Ending::Complete(failure(result)),
                _ => Ending::Empty,
            },
        }
    }

    /// The run once the frame and its mask went all the way.
    spec fn further(self) -> Underway {
        Underway {
            frames: self.frames.push(self.frame),
            masks: self.masks.push(self.mask),
            ..self
        }
    }
}

/// What the encoder said to the duration, in a run that came to this.
spec fn answer<E>(event: SequentialEvent<E>) -> Result<(), E> {
    match event {
        SequentialEvent::Expected(_, result) => result,
        _ => Ok(()),
    }
}

/// How far a run is from its end, or from another frame.
spec fn steps_left<E>(event: SequentialEvent<E>) -> nat {
    match event {
        SequentialEvent::Opened(_) => 5,
        SequentialEvent::Expected(_, _) => 4,
        SequentialEvent::Read(_) => 3,
        SequentialEvent::Segmented(_, _) => 2,
        SequentialEvent::Sent(_, _) => 1,
        SequentialEvent::Finalized(_) => 0,
    }
}

/// What was given, asked and told grows by one entry each time.
proof fn lemma_further<E>(run: Underway)
    requires
        run.frames.len() == run.masks.len() < u64::MAX,
    ensures
        reads_of::<E>(run.further().frames) == reads_of::<E>(run.frames).push(Ok(Some(run.frame))),
        segmented_of::<E>(run.further().frames, run.further().masks) == segmented_of::<E>(
            run.frames,
            run.masks,
        ).push((run.frame, Ok(run.mask))),
        sends_of::<E>(run.further().masks) == sends_of::<E>(run.masks).push(
            EncoderCall::Sent(run.mask, None),
        ),
        events_of(run.duration, run.further().frames) == events_of(run.duration, run.frames).push(
            Progress::Frame(run.frame.time, (run.frames.len() + 1) as u64),
        ),
{
    assert(reads_of::<E>(run.further().frames) =~= reads_of::<E>(run.frames).push(
        Ok(Some(run.frame)),
    ));
    assert(segmented_of::<E>(run.further().frames, run.further().masks) =~= segmented_of::<E>(
        run.frames,
        run.masks,
    ).push((run.frame, Ok(run.mask))));
    assert(sends_of::<E>(run.further().masks) =~= sends_of::<E>(run.masks).push(
        EncoderCall::Sent(run.mask, None),
    ));
    assert(events_of(run.duration, run.further().frames) =~= events_of(
        run.duration,
        run.frames,
    ).push(Progress::Frame(run.frame.time, (run.frames.len() + 1) as u64)));
}

/// Runs every frame of a video through an engine and into an encoder, one at a
/// time, and tells how many there were.
///
/// What the decoder gave, what the engine was handed, what the encoder was asked
/// and what the sink was told has grown by what some run holds, whose duration is
/// the decoder's and whose end is what this comes to. The encoder was told that
/// duration before anything else, and once.
pub fn run_sequential<
    E,
    D: VideoDecoder<E>,
    C: VideoEncoder<E>,
    N: Engine<E> + ?Sized,
    P: ProgressSink,
>(decoder: &mut D, encoder: &mut C, engine: &mut N, progress: &mut P) -> (result: Result<
    u64,
    RunError<E>,
>)
    ensures
        exists|run: FrameRun<E>|
            {
                &&& #[trigger] run.led(result)
                &&& call_ensures(D::duration, (&*old(decoder),), run.duration)
                &&& final(decoder).reads() == old(decoder).reads() + run.reads()
                &&& final(engine).segmented() == old(engine).segmented() + run.segmented()
                &&& final(progress).told() == old(progress).told() + run.events()
                &&& exists|expecting: &mut C|
                    {
                        &&& *expecting == *old(encoder)
                        &&& #[trigger] call_ensures(
                            C::set_expected_duration,
                            (expecting, run.duration),
                            run.accepted(),
                        )
                        &&& final(encoder).calls() == final(expecting).calls() + run.calls()
                    }
                &&& {
                    ||| final(encoder).calls() == old(encoder).calls() + run.calls()
                    ||| final(encoder).calls() == old(encoder).calls().push(
                        EncoderCall::Expected(run.duration, failure(run.accepted())),
                    ) + run.calls()
                }
            },
{
    let duration = decoder.duration();
    let mut frames: u64 = 0;
    let mut event: SequentialEvent<E> = SequentialEvent::Opened(duration);
    let ghost mut run = Underway {
        duration,
        frames: Seq::empty(),
        masks: Seq::empty(),
        frame: arbitrary(),
        mask: arbitrary(),
    };
    let ghost mut expecting = *encoder;
    proof {
        assert(decoder.reads() =~= old(decoder).reads() + run.reads(event));
        assert(engine.segmented() =~= old(engine).segmented() + run.segmented(event));
        assert(progress.told() =~= old(progress).told() + run.events(event));
        assert(encoder.calls() =~= expecting.calls() + run.calls(event));
    }
    loop
        invariant
            run.agrees(frames, event),
            call_ensures(D::duration, (&*old(decoder),), run.duration),
            decoder.reads() == old(decoder).reads() + run.reads(event),
            engine.segmented() == old(engine).segmented() + run.segmented(event),
            progress.told() == old(progress).told() + run.events(event),
            encoder.calls() == expecting.calls() + run.calls(event),
            event is Opened ==> *encoder == *old(encoder),
            ({
                ||| expecting.calls() == old(encoder).calls()
                ||| expecting.calls() == old(encoder).calls().push(
                    EncoderCall::Expected(run.duration, failure(answer(event))),
                )
            }),
            event !is Opened ==> exists|told: &mut C|
                {
                    &&& *told == *old(encoder)
                    &&& *final(told) == expecting
                    &&& #[trigger] call_ensures(
                        C::set_expected_duration,
                        (told, run.duration),
                        answer(event),
                    )
                },
        decreases u64::MAX - frames, steps_left(event),
    {
        let ghost before = event;
        let (sent, told, action) = sequential_step(frames, event);
        frames = sent;
        if let Some(told) = told {
            progress.report(told);
        }
        event = match action {
            SequentialAction::Expect(duration) => {
                let result = encoder.set_expected_duration(duration);
                proof {
                    expecting = *encoder;
                    assert(exists|told: &mut C|
                        {
                            &&& *told == *old(encoder)
                            &&& *final(told) == expecting
                            &&& #[trigger] call_ensures(
                                C::set_expected_duration,
                                (told, run.duration),
                                result,
                            )
                        });
                }
                SequentialEvent::Expected(duration, result)
            },
            SequentialAction::Read => SequentialEvent::Read(decoder.read_frame()),
            SequentialAction::Segment(frame) => {
                let mask = engine.segment(&frame);
                proof {
                    run.frame = frame;
                }
                SequentialEvent::Segmented(frame.time, mask)
            },
            SequentialAction::Send(time, mask) => {
                let result = encoder.send_frame(&mask);
                proof {
                    run.mask = mask;
                }
                SequentialEvent::Sent(time, result)
            },
            SequentialAction::Finalize => SequentialEvent::Finalized(encoder.finalize()),
            SequentialAction::Stop(result) => {
                proof {
                    assert(run.ended(before).led(result));
                }
                return result;
            },
        };
        proof {
            if let SequentialEvent::Expected(_, Ok(accepted)) = before {
                assert(accepted == ());
            }
            if before is Sent {
                lemma_further::<E>(run);
                run = run.further();
            }
            assert(decoder.reads() =~= old(decoder).reads() + run.reads(event));
            assert(engine.segmented() =~= old(engine).segmented() + run.segmented(event));
            assert(progress.told() =~= old(progress).told() + run.events(event));
            assert(encoder.calls() =~= expecting.calls() + run.calls(event));
        }
    }
}

/// What a run in one thread comes to whose decoder and encoder were opened like this:
/// with the first that could not be opened, that error.
pub open spec fn opening_failure<D, C, E>(
    opened: Result<D, E>,
    created: Option<Result<C, E>>,
) -> Option<E> {
    match (opened, created) {
        (Err(error), _) => Some(error),
        (Ok(_), Some(Err(error))) => Some(error),
        _ => None,
    }
}

/// Opens a decoder and then an encoder, and runs every frame of the one through an
/// engine and into the other, in this thread. An encoder is opened only behind a decoder
/// that could be opened, and where either cannot be opened nothing else is asked. Both are
/// gone when this returns.
pub fn open_and_run<
    E,
    D: VideoDecoder<E>,
    C: VideoEncoder<E>,
    N: Engine<E> + ?Sized,
    P: ProgressSink,
    F: FnOnce() -> Result<D, E>,
    G: FnOnce() -> Result<C, E>,
>(open_decoder: F, open_encoder: G, engine: &mut N, progress: &mut P) -> (result: Result<
    u64,
    RunError<E>,
>)
    requires
        call_requires(open_decoder, ()),
        forall|decoder: D| #[trigger]
            call_ensures(open_decoder, (), Ok::<D, E>(decoder)) ==> call_requires(open_encoder, ()),
    ensures
        exists|opened: Result<D, E>, created: Option<Result<C, E>>|
            {
                &&& call_ensures(open_decoder, (), opened)
                &&& created is Some <==> opened is Ok
                &&& created matches Some(created) ==> call_ensures(open_encoder, (), created)
                &&& match #[trigger] opening_failure(opened, created) {
                    Some(error) => {
                        &&& result == Err::<u64, RunError<E>>(RunError::Stage(error))
                        &&& final(engine).segmented() == old(engine).segmented()
                        &&& final(progress).told() == old(progress).told()
                    },
                    None => exists|run: FrameRun<E>, read: D, written: C|
                        {
                            let decoder = opened->Ok_0;
                            let encoder = created->0->Ok_0;
                            &&& #[trigger] run.led(result)
                            &&& call_ensures(D::duration, (&decoder,), run.duration)
                            &&& #[trigger] read.reads() == decoder.reads() + run.reads()
                            &&& final(engine).segmented() == old(engine).segmented()
                                + run.segmented()
                            &&& final(progress).told() == old(progress).told() + run.events()
                            &&& exists|expecting: &mut C|
                                {
                                    &&& *expecting == encoder
                                    &&& #[trigger] call_ensures(
                                        C::set_expected_duration,
                                        (expecting, run.duration),
                                        run.accepted(),
                                    )
                                    &&& #[trigger] written.calls() == final(expecting).calls()
                                        + run.calls()
                                }
                        },
                }
            },
{
    let opened = open_decoder();
    let mut decoder = match opened {
        Ok(decoder) => decoder,
        Err(error) => {
            assert(opening_failure::<D, C, E>(opened, None) == Some(error));
            return Err(RunError::Stage(error));
        },
    };
    let created = open_encoder();
    let mut encoder = match created {
        Ok(encoder) => encoder,
        Err(error) => {
            assert(opening_failure(opened, Some(created)) == Some(error));
            return Err(RunError::Stage(error));
        },
    };
    assert(opening_failure(opened, Some(created)) is None);
    run_sequential(&mut decoder, &mut encoder, engine, progress)
}

/// What passes between threads.
pub enum Message {
    Duration(Option<MediaTime>),
    Frame(VideoFrame),
}

/// What happened in the decoder's thread.
pub enum DecodeEvent {
    /// The decoder is open and knows how long its video is, or does not.
    Opened(Option<MediaTime>),
    /// A message was taken, or nobody is there to take it.
    Delivered(bool),
    /// The decoder gave a frame, or has none left.
    Decoded(Option<VideoFrame>),
}

/// What the decoder's thread does next.
pub enum DecodeAction {
    Send(Message),
    Decode,
    Stop,
}

/// The decoder's thread tells the duration and then sends every frame, until
/// there is none left or nobody takes them.
pub open spec fn decode_next(event: DecodeEvent) -> DecodeAction {
    match event {
        DecodeEvent::Opened(duration) => DecodeAction::Send(Message::Duration(duration)),
        DecodeEvent::Delivered(true) => DecodeAction::Decode,
        DecodeEvent::Delivered(false) => DecodeAction::Stop,
        DecodeEvent::Decoded(Some(frame)) => DecodeAction::Send(Message::Frame(frame)),
        DecodeEvent::Decoded(None) => DecodeAction::Stop,
    }
}

/// Says what the decoder's thread does next.
pub fn decode_step(event: DecodeEvent) -> (action: DecodeAction)
    ensures
        action == decode_next(event),
{
    match event {
        DecodeEvent::Opened(duration) => DecodeAction::Send(Message::Duration(duration)),
        DecodeEvent::Delivered(taken) => {
            if taken {
                DecodeAction::Decode
            } else {
                DecodeAction::Stop
            }
        },
        DecodeEvent::Decoded(Some(frame)) => DecodeAction::Send(Message::Frame(frame)),
        DecodeEvent::Decoded(None) => DecodeAction::Stop,
    }
}

/// One more, as far as it can be counted.
pub open spec fn counted(frames: u64) -> u64 {
    if frames < u64::MAX {
        (frames + 1) as u64
    } else {
        frames
    }
}

fn count_frame(frames: u64) -> (more: u64)
    ensures
        more == counted(frames),
{
    if frames < u64::MAX {
        frames + 1
    } else {
        frames
    }
}

/// Where the encoder's thread is.
#[derive(Debug, Clone, Copy, PartialEq, Eq, Structural)]
pub enum EncodePhase {
    AwaitingDuration,
    Encoding,
    Finished,
}

/// The encoder's thread.
#[derive(Debug, Clone, Copy, PartialEq, Eq, Structural)]
pub struct EncodeStage {
    pub phase: EncodePhase,
    /// How many frames were encoded.
    pub frames: u64,
}

/// What happened in the encoder's thread.
pub enum EncodeEvent {
    /// A message came, or none will come any more.
    Received(Option<Message>),
    /// The encoder is open and knows the duration.
    Opened,
    /// A frame was encoded.
    Encoded,
}

/// What the encoder's thread does next.
pub enum EncodeAction {
    Receive,
    Open(Option<MediaTime>),
    Encode(VideoFrame),
    /// Complete the video, and stop.
    Finalize,
    Stop,
}

/// The encoder's thread opens the encoder once it is told the duration,
/// encodes every frame that comes, and completes the video if there was one.
pub open spec fn encode_next(stage: EncodeStage, event: EncodeEvent) -> (EncodeStage, EncodeAction) {
    let finished = EncodeStage { phase: EncodePhase::Finished, ..stage };
    match (stage.phase, event) {
        (EncodePhase::AwaitingDuration, EncodeEvent::Received(Some(Message::Duration(duration)))) => (
            EncodeStage { phase: EncodePhase::Encoding, ..stage },
            EncodeAction::Open(duration),
        ),
        (EncodePhase::Encoding, EncodeEvent::Opened) => (stage, EncodeAction::Receive),
        (EncodePhase::Encoding, EncodeEvent::Received(Some(Message::Frame(frame)))) => (
            stage,
            EncodeAction::Encode(frame),
        ),
        (EncodePhase::Encoding, EncodeEvent::Encoded) => (
            EncodeStage { frames: counted(stage.frames), ..stage },
            EncodeAction::Receive,
        ),
        (EncodePhase::Encoding, EncodeEvent::Received(_)) => (
            finished,
            if stage.frames > 0 {
                EncodeAction::Finalize
            } else {
                EncodeAction::Stop
            },
        ),
        _ => (finished, EncodeAction::Stop),
    }
}

impl EncodeStage {
    pub fn new() -> (stage: EncodeStage)
        ensures
            stage == (EncodeStage { phase: EncodePhase::AwaitingDuration, frames: 0 }),
    {
        EncodeStage { phase: EncodePhase::AwaitingDuration, frames: 0 }
    }

    /// Says what to do next.
    pub fn step(&mut self, event: EncodeEvent) -> (action: EncodeAction)
        ensures
            (*final(self), action) == encode_next(*old(self), event),
    {
        match (self.phase, event) {
            (
                EncodePhase::AwaitingDuration,
                EncodeEvent::Received(Some(Message::Duration(duration))),
            ) => {
                self.phase = EncodePhase::Encoding;
                EncodeAction::Open(duration)
            },
            (EncodePhase::Encoding, EncodeEvent::Opened) => EncodeAction::Receive,
            (EncodePhase::Encoding, EncodeEvent::Received(Some(Message::Frame(frame)))) => {
                EncodeAction::Encode(frame)
            },
            (EncodePhase::Encoding, EncodeEvent::Encoded) => {
                self.frames = count_frame(self.frames);
                EncodeAction::Receive
            },
            (EncodePhase::Encoding, EncodeEvent::Received(_)) => {
                self.phase = EncodePhase::Finished;
                if self.frames > 0 {
                    EncodeAction::Finalize
                } else {
                    EncodeAction::Stop
                }
            },
            _ => {
                self.phase = EncodePhase::Finished;
                EncodeAction::Stop
            },
        }
    }
}

/// Where the engine's thread is.
#[derive(Debug, Clone, Copy, PartialEq, Eq, Structural)]
pub enum InferencePhase {
    AwaitingDuration,
    ForwardingDuration(Option<MediaTime>),
    AwaitingFrame,
    Segmenting(MediaTime),
    ForwardingMask(MediaTime),
    Finished,
}

/// The engine's thread.
#[derive(Debug, Clone, Copy, PartialEq, Eq, Structural)]
pub struct InferenceStage {
    pub phase: InferencePhase,
    /// How many masks were handed on.
    pub frames: u64,
}

/// What happened in the engine's thread.
pub enum InferenceEvent {
    /// A message came, or none will come any more.
    Received(Option<Message>),
    /// A message was taken, or nobody is there to take it.
    Delivered(bool),
    /// The engine made a mask.
    Segmented(VideoFrame),
}

/// What the engine's thread does next.
pub enum InferenceAction {
    Receive,
    Forward(Message),
    Segment(VideoFrame),
    Stop,
}

/// The engine's thread hands the duration on, and then a mask for every frame
/// that comes, until none comes or nobody takes them. It tells about each that
/// was taken.
pub open spec fn inference_next(stage: InferenceStage, event: InferenceEvent) -> (
    InferenceStage,
    Option<Progress>,
    InferenceAction,
) {
    match (stage.phase, event) {
        (
            InferencePhase::AwaitingDuration,
            InferenceEvent::Received(Some(Message::Duration(duration))),
        ) => (
            InferenceStage { phase: InferencePhase::ForwardingDuration(duration), ..stage },
            None,
            InferenceAction::Forward(Message::Duration(duration)),
        ),
        (InferencePhase::ForwardingDuration(duration), InferenceEvent::Delivered(true)) => (
            InferenceStage { phase: InferencePhase::AwaitingFrame, ..stage },
            Some(Progress::Started(duration)),
            InferenceAction::Receive,
        ),
        (InferencePhase::AwaitingFrame, InferenceEvent::Received(Some(Message::Frame(frame)))) => (
            InferenceStage { phase: InferencePhase::Segmenting(frame.time), ..stage },
            None,
            InferenceAction::Segment(frame),
        ),
        (InferencePhase::Segmenting(time), InferenceEvent::Segmented(mask)) => (
            InferenceStage { phase: InferencePhase::ForwardingMask(time), ..stage },
            None,
            InferenceAction::Forward(Message::Frame(mask)),
        ),
        (InferencePhase::ForwardingMask(time), InferenceEvent::Delivered(true)) => (
            InferenceStage {
                phase: InferencePhase::AwaitingFrame,
                frames: counted(stage.frames),
            },
            Some(Progress::Frame(time, counted(stage.frames))),
            InferenceAction::Receive,
        ),
        _ => (
            InferenceStage { phase: InferencePhase::Finished, ..stage },
            None,
            InferenceAction::Stop,
        ),
    }
}

impl InferenceStage {
    pub fn new() -> (stage: InferenceStage)
        ensures
            stage == (InferenceStage { phase: InferencePhase::AwaitingDuration, frames: 0 }),
    {
        InferenceStage { phase: InferencePhase::AwaitingDuration, frames: 0 }
    }

    /// Says what to tell and what to do next.
    pub fn step(&mut self, event: InferenceEvent) -> (told: (Option<Progress>, InferenceAction))
        ensures
            (*final(self), told.0, told.1) == inference_next(*old(self), event),
    {
        match (self.phase, event) {
            (
                InferencePhase::AwaitingDuration,
                InferenceEvent::Received(Some(Message::Duration(duration))),
            ) => {
                self.phase = InferencePhase::ForwardingDuration(duration);
                (None, InferenceAction::Forward(Message::Duration(duration)))
            },
            (InferencePhase::ForwardingDuration(duration), InferenceEvent::Delivered(true)) => {
                self.phase = InferencePhase::AwaitingFrame;
                (Some(Progress::Started(duration)), InferenceAction::Receive)
            },
            (
                InferencePhase::AwaitingFrame,
                InferenceEvent::Received(Some(Message::Frame(frame))),
            ) => {
                self.phase = InferencePhase::Segmenting(frame.time);
                (None, InferenceAction::Segment(frame))
            },
            (InferencePhase::Segmenting(time), InferenceEvent::Segmented(mask)) => {
                self.phase = InferencePhase::ForwardingMask(time);
                (None, InferenceAction::Forward(Message::Frame(mask)))
            },
            (InferencePhase::ForwardingMask(time), InferenceEvent::Delivered(true)) => {
                self.frames = count_frame(self.frames);
                self.phase = InferencePhase::AwaitingFrame;
                (Some(Progress::Frame(time, self.frames)), InferenceAction::Receive)
            },
            _ => {
                self.phase = InferencePhase::Finished;
                (None, InferenceAction::Stop)
            },
        }
    }
}

/// How a thread ended.
pub enum Joined<T, E> {
    Panicked,
    Failed(E),
    Finished(T),
}

/// Why a run in three threads ended without success.
#[derive(Debug)]
pub enum PipelineError<E> {
    Inference(E),
    DecoderPanicked,
    DecoderFailed(E),
    EncoderPanicked,
    EncoderFailed(E),
    NoFrames,
    WrongCount { encoded: u64, expected: u64 },
}

/// What a run in three threads comes to. Of several failures the engine's
/// counts first and then the decoder's.
pub open spec fn pipeline_outcome<E>(
    inference: Result<u64, E>,
    decoded: Joined<(), E>,
    encoded: Joined<u64, E>,
) -> Result<u64, PipelineError<E>> {
    match (inference, decoded, encoded) {
        (Err(error), _, _) => Err(PipelineError::Inference(error)),
        (_, Joined::Panicked, _) => Err(PipelineError::DecoderPanicked),
        (_, Joined::Failed(error), _) => Err(PipelineError::DecoderFailed(error)),
        (_, _, Joined::Panicked) => Err(PipelineError::EncoderPanicked),
        (_, _, Joined::Failed(error)) => Err(PipelineError::EncoderFailed(error)),
        (Ok(frames), _, Joined::Finished(encoded)) => if frames == 0 {
            Err(PipelineError::NoFrames)
        } else if encoded != frames {
            Err(PipelineError::WrongCount { encoded, expected: frames })
        } else {
            Ok(frames)
        },
    }
}

/// Tells what a run in three threads comes to, once all three have ended.
pub fn join_pipeline<E>(
    inference: Result<u64, E>,
    decoded: Joined<(), E>,
    encoded: Joined<u64, E>,
) -> (result: Result<u64, PipelineError<E>>)
    ensures
        result == pipeline_outcome(inference, decoded, encoded),
{
    let frames: u64 = match inference {
        Ok(frames) => frames,
        Err(error) => return Err(PipelineError::Inference(error)),
    };
    match decoded {
        Joined::Panicked => return Err(PipelineError::DecoderPanicked),
        Joined::Failed(error) => return Err(PipelineError::DecoderFailed(error)),
        Joined::Finished(()) => {},
    }
    let encoded: u64 = match encoded {
        Joined::Panicked => return Err(PipelineError::EncoderPanicked),
        Joined::Failed(error) => return Err(PipelineError::EncoderFailed(error)),
        Joined::Finished(encoded) => encoded,
    };
    if frames == 0 {
        return Err(PipelineError::NoFrames);
    }
    if encoded != frames {
        return Err(PipelineError::WrongCount { encoded, expected: frames });
    }
    Ok(frames)
}

/// A frame that comes while the engine waits for one is segmented, its mask is
/// handed on, and once that is taken the frame is counted and told about with
/// its own time. Then the engine waits for the next.
pub proof fn law_each_frame_is_handed_on(stage: InferenceStage, frame: VideoFrame, mask: VideoFrame)
    requires
        stage.phase == InferencePhase::AwaitingFrame,
        stage.frames < u64::MAX,
    ensures
        ({
            let (first, _, segment) = inference_next(
                stage,
                InferenceEvent::Received(Some(Message::Frame(frame))),
            );
            let (second, _, forward) = inference_next(first, InferenceEvent::Segmented(mask));
            let (third, told, receive) = inference_next(second, InferenceEvent::Delivered(true));
            &&& segment == InferenceAction::Segment(frame)
            &&& forward == InferenceAction::Forward(Message::Frame(mask))
            &&& told == Some(Progress::Frame(frame.time, (stage.frames + 1) as u64))
            &&& receive == InferenceAction::Receive
            &&& third == (InferenceStage { frames: (stage.frames + 1) as u64, ..stage })
        }),
{
}

/// What the stage does with each of a row of frames, encoding them all.
pub open spec fn encode_frames(stage: EncodeStage, frames: Seq<VideoFrame>) -> EncodeStage
    decreases frames.len(),
{
    if frames.len() == 0 {
        stage
    } else {
        let before = encode_frames(stage, frames.drop_last());
        let received = encode_next(
            before,
            EncodeEvent::Received(Some(Message::Frame(frames.last()))),
        ).0;
        encode_next(received, EncodeEvent::Encoded).0
    }
}

/// However many frames come, the encoder's thread encodes each of them, counts
/// them all, and completes the video exactly if there was one.
pub proof fn law_encoder_counts_and_completes(duration: Option<MediaTime>, frames: Seq<VideoFrame>)
    requires
        frames.len() <= u64::MAX,
    ensures
        ({
            let start = EncodeStage { phase: EncodePhase::AwaitingDuration, frames: 0 };
            let (opened, open) = encode_next(
                start,
                EncodeEvent::Received(Some(Message::Duration(duration))),
            );
            let done = encode_frames(opened, frames);
            let (_, last) = encode_next(done, EncodeEvent::Received(None));
            &&& open == EncodeAction::Open(duration)
            &&& done == (EncodeStage { phase: EncodePhase::Encoding, frames: frames.len() as u64 })
            &&& last == (if frames.len() > 0 {
                EncodeAction::Finalize
            } else {
                EncodeAction::Stop
            })
        }),
    decreases frames.len(),
{
    if frames.len() > 0 {
        law_encoder_counts_and_completes(duration, frames.drop_last());
    }
}

/// A run in three threads succeeds exactly if all three did, there was a frame,
/// and as many were encoded as were segmented.
pub proof fn law_pipeline_success<E>(
    inference: Result<u64, E>,
    decoded: Joined<(), E>,
    encoded: Joined<u64, E>,
    frames: u64,
)
    ensures
        pipeline_outcome(inference, decoded, encoded) == Ok::<u64, PipelineError<E>>(frames) <==> (
        inference == Ok::<u64, E>(frames) && decoded is Finished && encoded == Joined::<
            u64,
            E,
        >::Finished(frames) && frames > 0),
{
}

/// A frame that is read goes to the engine, its mask to the encoder, and once that is
/// taken the frame is counted and told about with its own time. Then the next is read.
pub proof fn law_each_frame_is_sent<E>(frames: u64, frame: VideoFrame, mask: VideoFrame)
    requires
        frames < u64::MAX,
    ensures
        sequential_next(frames, SequentialEvent::<E>::Read(Ok(Some(frame)))) == (
            frames,
            None::<Progress>,
            SequentialAction::<E>::Segment(frame),
        ),
        sequential_next(frames, SequentialEvent::<E>::Segmented(frame.time, Ok(mask))) == (
            frames,
            None::<Progress>,
            SequentialAction::<E>::Send(frame.time, mask),
        ),
        sequential_next(frames, SequentialEvent::<E>::Sent(frame.time, Ok(()))) == (
            (frames + 1) as u64,
            Some(Progress::Frame(frame.time, (frames + 1) as u64)),
            SequentialAction::<E>::Read,
        ),
{
}

/// A run that succeeds has read every frame, segmented each of them once and in order,
/// sent each mask once and in order, completed the video behind the last, and told
/// about each frame with its own time and its number.
pub proof fn law_sequential_success<E>(run: FrameRun<E>, count: u64)
    requires
        run.led(Ok(count)),
    ensures
        0 < count == run.frames.len() == run.masks.len(),
        run.accepted() == Ok::<(), E>(()),
        run.reads() == reads_of::<E>(run.frames).push(Ok(None)),
        run.segmented() == segmented_of::<E>(run.frames, run.masks),
        run.calls() == sends_of::<E>(run.masks).push(EncoderCall::Finalized(None)),
        run.events() == events_of(run.duration, run.frames),
{
    assert(run.reads() =~= reads_of::<E>(run.frames).push(Ok(None)));
    assert(run.segmented() =~= segmented_of::<E>(run.frames, run.masks));
    assert(run.calls() =~= sends_of::<E>(run.masks).push(EncoderCall::Finalized(None)));
}

/// Something failed in a run: the encoder did not accept the duration, or a reading, a
/// segmentation or a call of the encoder ended in an error.
pub open spec fn anything_failed<E>(run: FrameRun<E>) -> bool {
    ||| run.accepted() is Err
    ||| exists|i: int| 0 <= i < run.reads().len() && (#[trigger] run.reads()[i]) is Err
    ||| exists|i: int| 0 <= i < run.segmented().len() && (#[trigger] run.segmented()[i]).1 is Err
    ||| exists|i: int| 0 <= i < run.calls().len() && call_failed(#[trigger] run.calls()[i])
}

/// The encoder ended something that it was asked in an error.
pub open spec fn call_failed<E>(call: EncoderCall<E>) -> bool {
    match call {
        EncoderCall::Expected(_, error) => error is Some,
        EncoderCall::Sent(_, error) => error is Some,
        EncoderCall::Finalized(error) => error is Some,
    }
}

/// A run tells a stage's error exactly if something failed. That error is the last
/// thing that came of the stage which failed, and nothing is asked behind it.
pub proof fn law_sequential_failure<E>(run: FrameRun<E>)
    requires
        run.wf(),
    ensures
        run.result() matches Err(RunError::Stage(_)) <==> anything_failed(run),
        run.result() matches Err(RunError::Stage(error)) ==> {
            ||| run.accepted() == Err::<(), E>(error) && run.reads().len() == 0
                && run.segmented().len() == 0 && run.calls().len() == 0
            ||| run.reads().last() == Err::<Option<VideoFrame>, E>(error)
                && run.segmented().len() == run.calls().len() == run.reads().len() - 1
            ||| run.segmented().last().1 == Err::<VideoFrame, E>(error)
                && run.reads().len() == run.segmented().len() == run.calls().len() + 1
            ||| run.segmented().last().1 matches Ok(mask) && run.calls().last()
                == EncoderCall::Sent(mask, Some(error)) && run.reads().len()
                == run.segmented().len() == run.calls().len()
            ||| run.calls().last() == EncoderCall::Finalized(Some(error))
                && run.reads().len() == run.calls().len() == run.segmented().len() + 1
        },
{
    match run.ending {
        Ending::Refused(error) => {},
        Ending::ReadFailed(error) => {
            assert(run.reads().last() is Err);
        },
        Ending::NotSegmented(frame, error) => {
            assert(run.segmented().last().1 is Err);
        },
        Ending::NotSent(frame, mask, error) => {
            assert(run.calls().last() == EncoderCall::Sent(mask, Some(error)));
            assert(call_failed(run.calls()[run.calls().len() - 1]));
        },
        Ending::Complete(Some(error)) => {
            assert(run.calls().last() == EncoderCall::Finalized(Some(error)));
            assert(call_failed(run.calls()[run.calls().len() - 1]));
        },
        _ => {},
    }
}

/// A run without frames is refused as such, and its video is not completed.
pub proof fn law_sequential_without_frames<E>(run: FrameRun<E>)
    requires
        run.wf(),
    ensures
        run.result() == Err::<u64, RunError<E>>(RunError::NoFrames) <==> run.accepted() is Ok
            && run.reads() == seq![Ok::<Option<VideoFrame>, E>(None)],
        run.result() == Err::<u64, RunError<E>>(RunError::NoFrames) ==> run.calls().len() == 0
            && run.segmented().len() == 0 && run.events() == seq![Progress::Started(run.duration)],
{
    let empty = seq![Ok::<Option<VideoFrame>, E>(None)];
    if run.ending is Empty {
        assert(run.reads() =~= empty);
        assert(run.events() =~= seq![Progress::Started(run.duration)]);
    } else if run.reads() == empty {
        assert(run.reads()[0] == Ok::<Option<VideoFrame>, E>(None));
        if run.frames.len() > 0 {
            assert(run.reads()[0] == Ok::<Option<VideoFrame>, E>(Some(run.frames[0])));
        }
    }
}

/// What the decoder's thread sends for frames that it reads one after the other, as
/// long as each is taken.
pub open spec fn decode_frames(frames: Seq<VideoFrame>) -> Seq<DecodeAction> {
    Seq::new(frames.len(), |i: int| decode_next(DecodeEvent::Decoded(Some(frames[i]))))
}

/// The decoder's thread tells the duration first, then sends each frame as it was
/// read and goes on once it is taken, and stops behind the last. It stops too when
/// nobody takes what it sends.
pub proof fn law_decoder_sends_every_frame(duration: Option<MediaTime>, frames: Seq<VideoFrame>)
    ensures
        decode_next(DecodeEvent::Opened(duration)) == DecodeAction::Send(
            Message::Duration(duration),
        ),
        decode_next(DecodeEvent::Delivered(true)) == DecodeAction::Decode,
        decode_frames(frames) == Seq::new(
            frames.len(),
            |i: int| DecodeAction::Send(Message::Frame(frames[i])),
        ),
        decode_next(DecodeEvent::Decoded(None)) == DecodeAction::Stop,
        decode_next(DecodeEvent::Delivered(false)) == DecodeAction::Stop,
{
    assert(decode_frames(frames) =~= Seq::new(
        frames.len(),
        |i: int| DecodeAction::Send(Message::Frame(frames[i])),
    ));
}

/// What the engine's thread is left with, and what it has told, once each of a row of
/// frames was segmented and its mask taken.
pub open spec fn infer_frames(
    stage: InferenceStage,
    frames: Seq<VideoFrame>,
    masks: Seq<VideoFrame>,
) -> (InferenceStage, Seq<Progress>, Seq<Message>)
    decreases frames.len(),
{
    if frames.len() == 0 {
        (stage, Seq::empty(), Seq::empty())
    } else {
        let (before, told, sent) = infer_frames(stage, frames.drop_last(), masks.drop_last());
        let received = inference_next(
            before,
            InferenceEvent::Received(Some(Message::Frame(frames.last()))),
        );
        let segmented = inference_next(received.0, InferenceEvent::Segmented(masks.last()));
        let delivered = inference_next(segmented.0, InferenceEvent::Delivered(true));
        (
            delivered.0,
            match delivered.1 {
                Some(progress) => told.push(progress),
                None => told,
            },
            match segmented.2 {
                InferenceAction::Forward(message) => sent.push(message),
                _ => sent,
            },
        )
    }
}

/// However many frames come, the engine's thread hands a mask on for each of them, in
/// order, counts them all, and tells about each with its own time.
pub proof fn law_engine_hands_every_frame_on(
    duration: Option<MediaTime>,
    frames: Seq<VideoFrame>,
    masks: Seq<VideoFrame>,
)
    requires
        frames.len() == masks.len() <= u64::MAX,
    ensures
        ({
            let start = InferenceStage { phase: InferencePhase::AwaitingDuration, frames: 0 };
            let received = inference_next(
                start,
                InferenceEvent::Received(Some(Message::Duration(duration))),
            );
            let opened = inference_next(received.0, InferenceEvent::Delivered(true));
            let (done, told, sent) = infer_frames(opened.0, frames, masks);
            let last = inference_next(done, InferenceEvent::Received(None));
            &&& received.2 == InferenceAction::Forward(Message::Duration(duration))
            &&& opened.1 == Some(Progress::Started(duration))
            &&& done == (InferenceStage {
                phase: InferencePhase::AwaitingFrame,
                frames: frames.len() as u64,
            })
            &&& sent == Seq::new(masks.len(), |i: int| Message::Frame(masks[i]))
            &&& told == Seq::new(
                frames.len(),
                |i: int| Progress::Frame(frames[i].time, (i + 1) as u64),
            )
            &&& last.2 == InferenceAction::Stop
            &&& last.0.frames == frames.len()
        }),
    decreases frames.len(),
{
    let start = InferenceStage { phase: InferencePhase::AwaitingFrame, frames: 0 };
    let (done, told, sent) = infer_frames(start, frames, masks);
    if frames.len() > 0 {
        law_engine_hands_every_frame_on(duration, frames.drop_last(), masks.drop_last());
        assert(sent =~= Seq::new(masks.len(), |i: int| Message::Frame(masks[i])));
        assert(told =~= Seq::new(
            frames.len(),
            |i: int| Progress::Frame(frames[i].time, (i + 1) as u64),
        ));
    } else {
        assert(sent =~= Seq::new(masks.len(), |i: int| Message::Frame(masks[i])));
        assert(told =~= Seq::new(
            frames.len(),
            |i: int| Progress::Frame(frames[i].time, (i + 1) as u64),
        ));
    }
}

/// When what a stage sends is not taken, or nothing comes any more, it stops, or
/// completes the video and stops, whatever it was doing. So no thread waits for one
/// that has ended.
pub proof fn law_stages_stop_when_left_alone(inference: InferenceStage, encode: EncodeStage)
    ensures
        inference_next(inference, InferenceEvent::Delivered(false)).2 == InferenceAction::Stop,
        inference_next(inference, InferenceEvent::Received(None)).2 == InferenceAction::Stop,
        ({
            let last = encode_next(encode, EncodeEvent::Received(None)).1;
            last == EncodeAction::Stop || last == EncodeAction::Finalize
        }),
        decode_next(DecodeEvent::Delivered(false)) == DecodeAction::Stop,
{
}

/// A run in three threads in which nothing fails comes to what a run in one thread
/// comes to on the same frames: the same count or the same refusal, the same masks in
/// the same order, the same told, and the video completed in both or in neither.
pub proof fn law_both_modes_agree<E>(run: FrameRun<E>)
    requires
        run.wf(),
        run.ending == Ending::<E>::Complete(None) || run.ending == Ending::<E>::Empty,
    ensures
        ({
            let frames = run.frames.len() as u64;
            let piped = pipeline_outcome(
                Ok::<u64, E>(frames),
                Joined::<(), E>::Finished(()),
                Joined::<u64, E>::Finished(frames),
            );
            match run.result() {
                Ok(count) => piped == Ok::<u64, PipelineError<E>>(count) && count == frames,
                Err(RunError::NoFrames) => piped == Err::<u64, PipelineError<E>>(
                    PipelineError::NoFrames,
                ),
                Err(_) => false,
            }
        }),
        ({
            let waiting = InferenceStage { phase: InferencePhase::AwaitingFrame, frames: 0 };
            let (_, told, sent) = infer_frames(waiting, run.frames, run.masks);
            let open = EncodeStage { phase: EncodePhase::Encoding, frames: 0 };
            let encoded = encode_frames(open, run.masks);
            let (_, last) = encode_next(encoded, EncodeEvent::Received(None));
            &&& run.events() == seq![Progress::Started(run.duration)] + told
            &&& sent == Seq::new(run.masks.len(), |i: int| Message::Frame(run.masks[i]))
            &&& encoded.frames == run.frames.len()
            &&& last == EncodeAction::Finalize <==> run.calls() == sends_of::<E>(run.masks).push(
                EncoderCall::Finalized(None),
            )
            &&& last == EncodeAction::Stop <==> run.calls() == sends_of::<E>(run.masks)
        }),
{
    law_engine_hands_every_frame_on(run.duration, run.frames, run.masks);
    law_encoder_counts_and_completes(run.duration, run.masks);
    if run.ending is Complete {
        assert(run.calls() =~= sends_of::<E>(run.masks).push(EncoderCall::Finalized(None)));
    } else {
        assert(run.calls() =~= sends_of::<E>(run.masks));
    }
}

/// Of several failures of a run in three threads the engine's is told before the decoder's, and
/// the decoder's before the encoder's. Where nothing failed, a run without frames is refused, and
/// so is one that did not encode every frame.
pub proof fn law_pipeline_failures_have_an_order<E>(
    inference: Result<u64, E>,
    decoded: Joined<(), E>,
    encoded: Joined<u64, E>,
)
    ensures
        ({
            let outcome = pipeline_outcome(inference, decoded, encoded);
            &&& inference is Err ==> outcome == Err::<u64, PipelineError<E>>(
                PipelineError::Inference(inference->Err_0),
            )
            &&& inference is Ok && decoded is Panicked ==> outcome == Err::<u64, PipelineError<E>>(
                PipelineError::DecoderPanicked,
            )
            &&& inference is Ok && decoded is Failed ==> outcome == Err::<u64, PipelineError<E>>(
                PipelineError::DecoderFailed(decoded->Failed_0),
            )
            &&& inference is Ok && decoded is Finished && encoded is Panicked ==> outcome == Err::<
                u64,
                PipelineError<E>,
            >(PipelineError::EncoderPanicked)
            &&& inference is Ok && decoded is Finished && encoded is Failed ==> outcome == Err::<
                u64,
                PipelineError<E>,
            >(PipelineError::EncoderFailed(encoded->Failed_0))
            &&& inference is Ok && decoded is Finished && encoded is Finished ==> {
                let frames = inference->Ok_0;
                let written = encoded->Finished_0;
                &&& frames == 0 ==> outcome == Err::<u64, PipelineError<E>>(PipelineError::NoFrames)
                &&& frames > 0 && written == frames ==> outcome == Ok::<u64, PipelineError<E>>(
                    frames,
                )
                &&& frames > 0 && written != frames ==> outcome == Err::<u64, PipelineError<E>>(
                    PipelineError::WrongCount { encoded: written, expected: frames },
                )
            }
        }),
{
}

/// A run in one thread begins with the duration, ends with the first failure, and completes a
/// video behind its last frame if it had one.
pub proof fn law_runs_begin_and_end<E>(frames: u64, duration: Option<MediaTime>, error: E)
    ensures
        sequential_next(frames, SequentialEvent::<E>::Opened(duration)).2 == SequentialAction::<
            E,
        >::Expect(duration),
        sequential_next(frames, SequentialEvent::<E>::Expected(duration, Ok(()))) == (
            frames,
            Some(Progress::Started(duration)),
            SequentialAction::<E>::Read,
        ),
        frames > 0 ==> sequential_next(frames, SequentialEvent::<E>::Read(Ok(None))).2
            == SequentialAction::<E>::Finalize,
        frames == 0 ==> sequential_next(frames, SequentialEvent::<E>::Read(Ok(None))).2
            == SequentialAction::<E>::Stop(Err(RunError::NoFrames)),
        sequential_next(frames, SequentialEvent::<E>::Finalized(Ok(()))).2 == SequentialAction::<
            E,
        >::Stop(Ok(frames)),
        sequential_next(frames, SequentialEvent::<E>::Read(Err(error))).2 == SequentialAction::<
            E,
        >::Stop(Err(RunError::Stage(error))),
        sequential_next(frames, SequentialEvent::<E>::Finalized(Err(error))).2
            == SequentialAction::<E>::Stop(Err(RunError::Stage(error))),
        sequential_next(frames, SequentialEvent::<E>::Expected(duration, Err(error))).2
            == SequentialAction::<E>::Stop(Err(RunError::Stage(error))),
{
}

/// Two frames may wait between two threads.
pub proof fn law_queues_are_short()
    ensures
        FRAME_QUEUE_CAPACITY == 2,
{
}

/// A run whose decoder cannot be opened ends with the decoder's error, and one whose encoder cannot be
/// opened ends with the encoder's.
pub proof fn law_openings_fail_in_order<D, C, E>(
    opened: Result<D, E>,
    created: Option<Result<C, E>>,
)
    ensures
        opened is Err ==> opening_failure(opened, created) == Some(opened->Err_0),
        opened is Ok && created is Some && created->0 is Err ==> opening_failure(opened, created)
            == Some(created->0->Err_0),
        opened is Ok && created is Some && created->0 is Ok ==> opening_failure(opened, created)
            is None,
{
}

} // verus!
