//! The three threads of a run taken together, with the queues between them.
//!
//! Each thread does what its stage says. One that sends waits while the queue is full,
//! and one that receives waits while it is empty, unless the other end is gone. Which
//! thread goes on at which time is left open: what is shown here holds for all orders.

use crate::encoder::EncoderCall;
use crate::frame::{MediaTime, VideoFrame};
use crate::processing::{
    decode_next, encode_next, events_of, inference_next, pipeline_outcome, DecodeAction,
    DecodeEvent, EncodeAction, EncodeEvent, EncodePhase, EncodeStage, Ending, FrameRun,
    InferenceAction, InferenceEvent, InferencePhase, InferenceStage, Joined, Message,
    PipelineError, Progress, RunError, FRAME_QUEUE_CAPACITY,
};
use vstd::prelude::*;

verus! {

/// What comes of everything that a run in three threads may ask of its decoder, its
/// engine and its encoder.
pub struct Script<E> {
    /// What opening the decoder gives: how long the video is, where that is known.
    pub opened: Result<Option<MediaTime>, E>,
    /// The frames that the decoder gives.
    pub frames: Seq<VideoFrame>,
    /// What reading behind the last frame fails with, if it fails.
    pub read_error: Option<E>,
    /// What the engine makes of one frame after the other.
    pub masks: Seq<Result<VideoFrame, E>>,
    /// What opening the encoder fails with, if it fails.
    pub created: Option<E>,
    /// What telling the encoder the duration fails with, if it fails.
    pub accepted: Option<E>,
    /// What sending one mask after the other fails with, if it fails.
    pub sent: Seq<Option<E>>,
    /// What completing the video fails with, if it fails.
    pub finalized: Option<E>,
}

/// Something that may fail in a run.
pub enum Fault {
    Opening,
    Reading,
    Segmenting(int),
    Creating,
    Expecting,
    Sending(int),
    Completing,
}

impl<E> Script<E> {
    /// Every frame has something that comes of it, and all can be counted.
    pub open spec fn wf(self) -> bool {
        self.masks.len() == self.sent.len() == self.frames.len() <= u64::MAX
    }

    /// The error that something fails with, if it fails. A video without frames is not
    /// completed.
    pub open spec fn failure(self, fault: Fault) -> Option<E> {
        match fault {
            Fault::Opening => match self.opened {
                Ok(_) => None,
                Err(error) => Some(error),
            },
            Fault::Reading => self.read_error,
            Fault::Segmenting(at) => if 0 <= at < self.frames.len() {
                match self.masks[at] {
                    Ok(_) => None,
                    Err(error) => Some(error),
                }
            } else {
                None
            },
            Fault::Creating => self.created,
            Fault::Expecting => self.accepted,
            Fault::Sending(at) => if 0 <= at < self.frames.len() {
                self.sent[at]
            } else {
                None
            },
            Fault::Completing => if self.frames.len() > 0 {
                self.finalized
            } else {
                None
            },
        }
    }

    /// Nothing fails.
    pub open spec fn succeeds(self) -> bool {
        forall|fault: Fault| #[trigger] self.failure(fault) is None
    }

    /// This fails, and nothing else does.
    pub open spec fn fails_once(self, fault: Fault, error: E) -> bool {
        &&& self.failure(fault) == Some(error)
        &&& forall|other: Fault| other != fault ==> #[trigger] self.failure(other) is None
    }

    /// How long the video is, once the decoder is open.
    pub open spec fn duration(self) -> Option<MediaTime> {
        self.opened->Ok_0
    }

    /// The mask of the frame at `at`, where the engine makes one.
    pub open spec fn mask(self, at: int) -> VideoFrame {
        self.masks[at]->Ok_0
    }

    /// The message at `at` that the decoder's thread has to send.
    pub open spec fn decoded_message(self, at: int) -> Message {
        if at == 0 {
            Message::Duration(self.duration())
        } else {
            Message::Frame(self.frames[at - 1])
        }
    }

    /// The message at `at` that the engine's thread has to send.
    pub open spec fn mask_message(self, at: int) -> Message {
        if at == 0 {
            Message::Duration(self.duration())
        } else {
            Message::Frame(self.mask(at - 1))
        }
    }

    /// What the encoder is asked until `count` masks were sent.
    pub open spec fn accepted_calls(self, count: nat) -> Seq<EncoderCall<E>> {
        seq![EncoderCall::Expected(self.duration(), None)] + Seq::new(
            count,
            |i: int| EncoderCall::Sent(self.mask(i), None),
        )
    }

    /// The run in one thread in which the same comes of everything, where nothing fails.
    pub open spec fn sequential(self) -> FrameRun<E> {
        FrameRun {
            duration: self.duration(),
            frames: self.frames,
            masks: Seq::new(self.frames.len(), |i: int| self.mask(i)),
            ending: if self.frames.len() > 0 {
                Ending::Complete(None)
            } else {
                Ending::Empty
            },
        }
    }
}

/// A queue between two threads: everything that was sent, and how much of it was taken.
pub struct Queue {
    pub sent: Seq<Message>,
    pub taken: nat,
}

impl Queue {
    pub open spec fn waiting(self) -> int {
        self.sent.len() - self.taken
    }

    pub open spec fn is_full(self) -> bool {
        self.waiting() >= FRAME_QUEUE_CAPACITY
    }

    pub open spec fn put(self, message: Message) -> Queue {
        Queue { sent: self.sent.push(message), ..self }
    }

    pub open spec fn next(self) -> Message {
        self.sent[self.taken as int]
    }

    pub open spec fn take(self) -> Queue {
        Queue { taken: self.taken + 1, ..self }
    }
}

/// What the decoder's thread is at.
pub enum Decoding<E> {
    Opening,
    Doing(DecodeAction),
    Ended(Result<(), E>),
}

/// What the engine's thread is at.
pub enum Inferring<E> {
    Doing(InferenceAction),
    Ended(Result<u64, E>),
}

/// What the encoder's thread is at.
pub enum Encoding<E> {
    Doing(EncodeAction),
    Ended(Result<u64, E>),
}

/// One of the three threads.
pub enum Thread {
    Decoder,
    Engine,
    Encoder,
}

/// The three threads at some time, with all that they asked and told until then.
pub struct Threads<E> {
    pub decoding: Decoding<E>,
    /// How many frames were read.
    pub reads: nat,
    pub decoded: Queue,
    pub inference: InferenceStage,
    pub inferring: Inferring<E>,
    /// The frames that went to the engine.
    pub segmented: Seq<VideoFrame>,
    pub told: Seq<Progress>,
    pub masks: Queue,
    pub encode: EncodeStage,
    pub encoding: Encoding<E>,
    /// How often the encoder was opened.
    pub openings: nat,
    /// What the encoder was asked.
    pub calls: Seq<EncoderCall<E>>,
}

impl<E> Threads<E> {
    /// The threads as they start.
    pub open spec fn start() -> Threads<E> {
        Threads {
            decoding: Decoding::Opening,
            reads: 0,
            decoded: Queue { sent: Seq::empty(), taken: 0 },
            inference: InferenceStage { phase: InferencePhase::AwaitingDuration, frames: 0 },
            inferring: Inferring::Doing(InferenceAction::Receive),
            segmented: Seq::empty(),
            told: Seq::empty(),
            masks: Queue { sent: Seq::empty(), taken: 0 },
            encode: EncodeStage { phase: EncodePhase::AwaitingDuration, frames: 0 },
            encoding: Encoding::Doing(EncodeAction::Receive),
            openings: 0,
            calls: Seq::empty(),
        }
    }

    /// The decoder's thread goes on, if it does not wait and has not ended.
    pub open spec fn decoder_step(self, script: Script<E>) -> Option<Threads<E>> {
        match self.decoding {
            Decoding::Opening => Some(
                Threads {
                    decoding: match script.opened {
                        Ok(duration) => Decoding::Doing(decode_next(DecodeEvent::Opened(duration))),
                        Err(error) => Decoding::Ended(Err(error)),
                    },
                    ..self
                },
            ),
            Decoding::Doing(DecodeAction::Send(message)) => if self.inferring is Ended {
                Some(
                    Threads {
                        decoding: Decoding::Doing(decode_next(DecodeEvent::Delivered(false))),
                        ..self
                    },
                )
            } else if self.decoded.is_full() {
                None
            } else {
                Some(
                    Threads {
                        decoding: Decoding::Doing(decode_next(DecodeEvent::Delivered(true))),
                        decoded: self.decoded.put(message),
                        ..self
                    },
                )
            },
            Decoding::Doing(DecodeAction::Decode) => if self.reads < script.frames.len() {
                Some(
                    Threads {
                        decoding: Decoding::Doing(
                            decode_next(
                                DecodeEvent::Decoded(Some(script.frames[self.reads as int])),
                            ),
                        ),
                        reads: self.reads + 1,
                        ..self
                    },
                )
            } else {
                Some(
                    Threads {
                        decoding: match script.read_error {
                            None => Decoding::Doing(decode_next(DecodeEvent::Decoded(None))),
                            Some(error) => Decoding::Ended(Err(error)),
                        },
                        ..self
                    },
                )
            },
            Decoding::Doing(DecodeAction::Stop) => Some(
                Threads { decoding: Decoding::Ended(Ok(())), ..self },
            ),
            Decoding::Ended(_) => None,
        }
    }

    /// Something happened in the engine's thread.
    pub open spec fn inferred(self, event: InferenceEvent) -> Threads<E> {
        let (inference, told, action) = inference_next(self.inference, event);
        Threads {
            inference,
            inferring: Inferring::Doing(action),
            told: match told {
                Some(progress) => self.told.push(progress),
                None => self.told,
            },
            ..self
        }
    }

    /// The engine's thread goes on, if it does not wait and has not ended.
    pub open spec fn engine_step(self, script: Script<E>) -> Option<Threads<E>> {
        match self.inferring {
            Inferring::Doing(InferenceAction::Receive) => if self.decoded.waiting() > 0 {
                let message = self.decoded.next();
                Some(
                    Threads { decoded: self.decoded.take(), ..self }.inferred(
                        InferenceEvent::Received(Some(message)),
                    ),
                )
            } else if self.decoding is Ended {
                Some(self.inferred(InferenceEvent::Received(None)))
            } else {
                None
            },
            Inferring::Doing(InferenceAction::Forward(message)) => if self.encoding is Ended {
                Some(self.inferred(InferenceEvent::Delivered(false)))
            } else if self.masks.is_full() {
                None
            } else {
                Some(
                    Threads { masks: self.masks.put(message), ..self }.inferred(
                        InferenceEvent::Delivered(true),
                    ),
                )
            },
            Inferring::Doing(InferenceAction::Segment(frame)) => {
                let asked = Threads { segmented: self.segmented.push(frame), ..self };
                Some(
                    match script.masks[self.segmented.len() as int] {
                        Ok(mask) => asked.inferred(InferenceEvent::Segmented(mask)),
                        Err(error) => Threads { inferring: Inferring::Ended(Err(error)), ..asked },
                    },
                )
            },
            Inferring::Doing(InferenceAction::Stop) => Some(
                Threads { inferring: Inferring::Ended(Ok(self.inference.frames)), ..self },
            ),
            Inferring::Ended(_) => None,
        }
    }

    /// Something happened in the encoder's thread.
    pub open spec fn encoded(self, event: EncodeEvent) -> Threads<E> {
        let (encode, action) = encode_next(self.encode, event);
        Threads { encode, encoding: Encoding::Doing(action), ..self }
    }

    /// The encoder's thread goes on, if it does not wait and has not ended.
    pub open spec fn encoder_step(self, script: Script<E>) -> Option<Threads<E>> {
        match self.encoding {
            Encoding::Doing(EncodeAction::Receive) => if self.masks.waiting() > 0 {
                let message = self.masks.next();
                Some(
                    Threads { masks: self.masks.take(), ..self }.encoded(
                        EncodeEvent::Received(Some(message)),
                    ),
                )
            } else if self.inferring is Ended {
                Some(self.encoded(EncodeEvent::Received(None)))
            } else {
                None
            },
            Encoding::Doing(EncodeAction::Open(duration)) => {
                let opened = Threads { openings: self.openings + 1, ..self };
                let told = Threads {
                    calls: self.calls.push(EncoderCall::Expected(duration, script.accepted)),
                    ..opened
                };
                Some(
                    match (script.created, script.accepted) {
                        (Some(error), _) => Threads {
                            encoding: Encoding::Ended(Err(error)),
                            ..opened
                        },
                        (None, Some(error)) => Threads {
                            encoding: Encoding::Ended(Err(error)),
                            ..told
                        },
                        (None, None) => told.encoded(EncodeEvent::Opened),
                    },
                )
            },
            Encoding::Doing(EncodeAction::Encode(mask)) => {
                let failure = script.sent[self.calls.len() - 1];
                let asked = Threads {
                    calls: self.calls.push(EncoderCall::Sent(mask, failure)),
                    ..self
                };
                Some(
                    match failure {
                        None => asked.encoded(EncodeEvent::Encoded),
                        Some(error) => Threads { encoding: Encoding::Ended(Err(error)), ..asked },
                    },
                )
            },
            Encoding::Doing(EncodeAction::Finalize) => Some(
                Threads {
                    calls: self.calls.push(EncoderCall::Finalized(script.finalized)),
                    encoding: Encoding::Ended(
                        match script.finalized {
                            None => Ok(self.encode.frames),
                            Some(error) => Err(error),
                        },
                    ),
                    ..self
                },
            ),
            Encoding::Doing(EncodeAction::Stop) => Some(
                Threads { encoding: Encoding::Ended(Ok(self.encode.frames)), ..self },
            ),
            Encoding::Ended(_) => None,
        }
    }

    /// A thread goes on, if it does not wait and has not ended.
    pub open spec fn step(self, script: Script<E>, thread: Thread) -> Option<Threads<E>> {
        match thread {
            Thread::Decoder => self.decoder_step(script),
            Thread::Engine => self.engine_step(script),
            Thread::Encoder => self.encoder_step(script),
        }
    }

    /// The threads after they had their turns in this order. One that waits or has ended
    /// lets its turn pass.
    pub open spec fn after(script: Script<E>, turns: Seq<Thread>) -> Threads<E>
        decreases turns.len(),
    {
        if turns.len() == 0 {
            Threads::start()
        } else {
            let before = Threads::after(script, turns.drop_last());
            match before.step(script, turns.last()) {
                Some(next) => next,
                None => before,
            }
        }
    }

    /// All three threads have ended.
    pub open spec fn all_ended(self) -> bool {
        self.decoding is Ended && self.inferring is Ended && self.encoding is Ended
    }

    /// What the run comes to once all three have ended.
    pub open spec fn outcome(self) -> Result<u64, PipelineError<E>> {
        pipeline_outcome(
            self.inferring->Ended_0,
            match self.decoding->Ended_0 {
                Ok(_) => Joined::Finished(()),
                Err(error) => Joined::Failed(error),
            },
            match self.encoding->Ended_0 {
                Ok(frames) => Joined::Finished(frames),
                Err(error) => Joined::Failed(error),
            },
        )
    }

    spec fn engine_failed(self) -> bool {
        self.inferring matches Inferring::Ended(Err(_))
    }

    spec fn encoder_failed(self) -> bool {
        self.encoding matches Encoding::Ended(Err(_))
    }

    /// The queues hold what they have to, in order.
    spec fn queues_agree(self, script: Script<E>) -> bool {
        &&& self.masks.taken <= self.masks.sent.len() <= self.decoded.taken
        &&& self.decoded.taken <= self.decoded.sent.len() <= script.frames.len() + 1
        &&& self.decoded.waiting() <= FRAME_QUEUE_CAPACITY
        &&& self.masks.waiting() <= FRAME_QUEUE_CAPACITY
        &&& self.decoded.sent.len() > 0 ==> script.opened is Ok
        &&& forall|i: int|
            0 <= i < self.decoded.sent.len() ==> #[trigger] self.decoded.sent[i]
                == script.decoded_message(i)
        &&& forall|i: int|
            0 <= i < self.masks.sent.len() ==> #[trigger] self.masks.sent[i]
                == script.mask_message(i)
        &&& forall|i: int|
            0 <= i < self.masks.sent.len() - 1 ==> (#[trigger] script.masks[i]) is Ok
    }

    /// Everything was read, or nobody is there any more to take it.
    spec fn decoder_is_done(self, script: Script<E>) -> bool {
        &&& script.opened is Ok
        &&& {
            ||| self.decoded.sent.len() == script.frames.len() + 1 && script.read_error is None
            ||| self.engine_failed()
            ||| self.encoder_failed()
        }
    }

    spec fn decoder_agrees(self, script: Script<E>) -> bool {
        let sent = self.decoded.sent.len();
        match self.decoding {
            Decoding::Opening => sent == 0 && self.reads == 0,
            Decoding::Doing(DecodeAction::Send(message)) => {
                &&& script.opened is Ok
                &&& self.reads == sent <= script.frames.len()
                &&& message == script.decoded_message(sent as int)
            },
            Decoding::Doing(DecodeAction::Decode) => {
                &&& script.opened is Ok
                &&& self.reads + 1 == sent
            },
            Decoding::Doing(DecodeAction::Stop) => self.decoder_is_done(script),
            Decoding::Ended(Ok(_)) => self.decoder_is_done(script),
            Decoding::Ended(Err(error)) => {
                ||| script.opened == Err::<Option<MediaTime>, E>(error) && sent == 0
                ||| script.opened is Ok && script.read_error == Some(error) && sent
                    == script.frames.len() + 1
            },
        }
    }

    /// The engine's thread has handed so many masks on, and told about them.
    spec fn engine_told(self, script: Script<E>) -> bool {
        let frames = self.inference.frames as int;
        &&& self.masks.sent.len() == frames + 1
        &&& self.told == events_of(script.duration(), script.frames.take(frames))
    }

    /// The engine's thread has handed nothing on.
    spec fn engine_told_nothing(self) -> bool {
        &&& self.inference.frames == 0
        &&& self.masks.sent.len() == 0
        &&& self.segmented.len() == 0
        &&& self.told.len() == 0
    }

    /// Nothing comes any more, or nobody is there any more to take it.
    spec fn engine_is_done(self, script: Script<E>) -> bool {
        let frames = self.inference.frames as int;
        let taken = self.decoded.taken;
        let drained = self.decoding is Ended && taken == self.decoded.sent.len();
        ||| drained && taken == 0 && self.engine_told_nothing()
        ||| drained && taken == frames + 1 && self.segmented.len() == frames && self.engine_told(
            script,
        )
        ||| self.encoder_failed() && taken == frames + 2 && self.segmented.len() == frames + 1
            && self.engine_told(script)
    }

    spec fn engine_agrees(self, script: Script<E>) -> bool {
        let frames = self.inference.frames as int;
        let taken = self.decoded.taken;
        &&& self.segmented.len() <= script.frames.len()
        &&& self.segmented == script.frames.take(self.segmented.len() as int)
        &&& match self.inferring {
            Inferring::Doing(InferenceAction::Receive) => match self.inference.phase {
                InferencePhase::AwaitingDuration => taken == 0 && self.engine_told_nothing(),
                InferencePhase::AwaitingFrame => {
                    &&& taken == frames + 1
                    &&& self.segmented.len() == frames
                    &&& self.engine_told(script)
                },
                _ => false,
            },
            Inferring::Doing(InferenceAction::Forward(message)) => match self.inference.phase {
                InferencePhase::ForwardingDuration(duration) => {
                    &&& duration == script.duration()
                    &&& message == script.mask_message(0)
                    &&& taken == 1
                    &&& self.engine_told_nothing()
                },
                InferencePhase::ForwardingMask(time) => {
                    &&& taken == frames + 2
                    &&& self.segmented.len() == frames + 1
                    &&& time == script.frames[frames].time
                    &&& script.masks[frames] is Ok
                    &&& message == script.mask_message(frames + 1)
                    &&& self.engine_told(script)
                },
                _ => false,
            },
            Inferring::Doing(InferenceAction::Segment(frame)) => {
                &&& taken == frames + 2
                &&& self.segmented.len() == frames
                &&& frame == script.frames[frames]
                &&& self.inference.phase == InferencePhase::Segmenting(frame.time)
                &&& self.engine_told(script)
            },
            Inferring::Doing(InferenceAction::Stop) => self.engine_is_done(script),
            Inferring::Ended(Ok(count)) => count == frames && self.engine_is_done(script),
            Inferring::Ended(Err(error)) => {
                &&& frames < script.frames.len()
                &&& script.masks[frames] == Err::<VideoFrame, E>(error)
                &&& self.segmented.len() == frames + 1
                &&& self.engine_told(script)
            },
        }
    }

    /// The encoder is open, and has taken so many masks.
    spec fn encoder_took(self, script: Script<E>) -> bool {
        let frames = self.encode.frames as int;
        &&& frames <= script.frames.len()
        &&& self.openings == 1
        &&& script.created is None && script.accepted is None
        &&& forall|i: int| 0 <= i < frames ==> (#[trigger] script.sent[i]) is None
    }

    /// The encoder's thread has not heard of the video.
    spec fn encoder_took_nothing(self) -> bool {
        &&& self.encode.frames == 0
        &&& self.openings == 0
        &&& self.calls.len() == 0
    }

    /// No mask came, and none comes any more.
    spec fn encoder_had_no_masks(self, script: Script<E>) -> bool {
        &&& self.encode.frames == 0
        &&& self.inferring is Ended
        &&& self.masks.taken == self.masks.sent.len()
        &&& {
            ||| self.masks.taken == 0 && self.encoder_took_nothing()
            ||| self.masks.taken == 1 && self.encoder_took(script) && self.calls
                == script.accepted_calls(0)
        }
    }

    /// Every mask that came was taken, and none comes any more.
    spec fn encoder_had_masks(self, script: Script<E>) -> bool {
        &&& self.encode.frames > 0
        &&& self.inferring is Ended
        &&& self.masks.taken == self.masks.sent.len() == self.encode.frames + 1
        &&& self.encoder_took(script)
    }

    spec fn encoder_agrees(self, script: Script<E>) -> bool {
        let frames = self.encode.frames as int;
        let taken = self.masks.taken;
        let calls = script.accepted_calls(frames as nat);
        match self.encoding {
            Encoding::Doing(EncodeAction::Receive) => match self.encode.phase {
                EncodePhase::AwaitingDuration => taken == 0 && self.encoder_took_nothing(),
                EncodePhase::Encoding => {
                    &&& taken == frames + 1
                    &&& self.encoder_took(script)
                    &&& self.calls == calls
                },
                EncodePhase::Finished => false,
            },
            Encoding::Doing(EncodeAction::Open(duration)) => {
                &&& self.encode.phase == EncodePhase::Encoding
                &&& duration == script.duration()
                &&& taken == 1
                &&& self.encoder_took_nothing()
            },
            Encoding::Doing(EncodeAction::Encode(mask)) => {
                &&& self.encode.phase == EncodePhase::Encoding
                &&& taken == frames + 2
                &&& mask == script.mask(frames)
                &&& self.encoder_took(script)
                &&& self.calls == calls
            },
            Encoding::Doing(EncodeAction::Finalize) => {
                &&& self.encoder_had_masks(script)
                &&& self.calls == calls
            },
            Encoding::Doing(EncodeAction::Stop) => self.encoder_had_no_masks(script),
            Encoding::Ended(Ok(count)) => {
                &&& count == frames
                &&& {
                    ||| self.encoder_had_no_masks(script)
                    ||| self.encoder_had_masks(script) && script.finalized is None && self.calls
                        == calls.push(EncoderCall::Finalized(None))
                }
            },
            Encoding::Ended(Err(error)) => {
                &&& taken >= 1
                &&& self.openings == 1
                &&& {
                    ||| frames == 0 && script.created == Some(error) && self.calls.len() == 0
                    ||| frames == 0 && script.accepted == Some(error) && self.calls == seq![
                        EncoderCall::Expected(script.duration(), Some(error)),
                    ]
                    ||| frames < script.frames.len() && script.sent[frames] == Some(error)
                        && self.calls == calls.push(
                        EncoderCall::Sent(script.mask(frames), Some(error)),
                    )
                    ||| self.encoder_had_masks(script) && script.finalized == Some(error)
                        && self.calls == calls.push(EncoderCall::Finalized(Some(error)))
                }
            },
        }
    }

    /// More turns than the threads can still use.
    pub open spec fn turns_left(self, script: Script<E>) -> int {
        let count = script.frames.len() as int;
        let unsent = count + 1 - self.decoded.sent.len();
        let untaken = count + 1 - self.decoded.taken;
        let unwritten = count + 1 - self.masks.taken;
        (match self.decoding {
            Decoding::Opening => 2 * unsent + 3,
            Decoding::Doing(DecodeAction::Send(_)) => 2 * unsent + 2,
            Decoding::Doing(DecodeAction::Decode) => 2 * unsent + 3,
            Decoding::Doing(DecodeAction::Stop) => 1,
            Decoding::Ended(_) => 0,
        }) + (match self.inferring {
            Inferring::Doing(InferenceAction::Receive) => 4 * untaken + 3,
            Inferring::Doing(InferenceAction::Segment(_)) => 4 * untaken + 6,
            Inferring::Doing(InferenceAction::Forward(_)) => 4 * untaken + 5,
            Inferring::Doing(InferenceAction::Stop) => 1,
            Inferring::Ended(_) => 0,
        }) + (match self.encoding {
            Encoding::Doing(EncodeAction::Receive) => 4 * unwritten + 3,
            Encoding::Doing(EncodeAction::Open(_)) => 4 * unwritten + 5,
            Encoding::Doing(EncodeAction::Encode(_)) => 4 * unwritten + 5,
            Encoding::Doing(EncodeAction::Finalize) => 2,
            Encoding::Doing(EncodeAction::Stop) => 1,
            Encoding::Ended(_) => 0,
        })
    }

    /// How many of these turns were not let pass.
    pub open spec fn turns_used(script: Script<E>, turns: Seq<Thread>) -> int
        decreases turns.len(),
    {
        if turns.len() == 0 {
            0
        } else {
            let before = Threads::after(script, turns.drop_last());
            Threads::turns_used(script, turns.drop_last()) + if before.step(
                script,
                turns.last(),
            ) is Some {
                1int
            } else {
                0int
            }
        }
    }

    /// The threads can have come this far.
    spec fn agrees(self, script: Script<E>) -> bool {
        &&& self.queues_agree(script)
        &&& self.decoder_agrees(script)
        &&& self.engine_agrees(script)
        &&& self.encoder_agrees(script)
    }
}

/// Another mask was sent.
proof fn lemma_accepted_calls<E>(script: Script<E>, count: nat)
    ensures
        script.accepted_calls(count + 1) == script.accepted_calls(count).push(
            EncoderCall::Sent(script.mask(count as int), None),
        ),
        script.accepted_calls(count).len() == count + 1,
{
    assert(script.accepted_calls(count + 1) =~= script.accepted_calls(count).push(
        EncoderCall::Sent(script.mask(count as int), None),
    ));
}

/// Another frame was told about.
proof fn lemma_events_of(duration: Option<MediaTime>, frames: Seq<VideoFrame>, count: int)
    requires
        0 <= count < frames.len() <= u64::MAX,
    ensures
        events_of(duration, frames.take(count + 1)) == events_of(
            duration,
            frames.take(count),
        ).push(Progress::Frame(frames[count].time, (count + 1) as u64)),
        frames.take(count + 1) == frames.take(count).push(frames[count]),
{
    assert(frames.take(count + 1) =~= frames.take(count).push(frames[count]));
    assert(events_of(duration, frames.take(count + 1)) =~= events_of(
        duration,
        frames.take(count),
    ).push(Progress::Frame(frames[count].time, (count + 1) as u64)));
}

proof fn lemma_decoder_step<E>(script: Script<E>, threads: Threads<E>)
    requires
        script.wf(),
        threads.agrees(script),
        threads.decoder_step(script) is Some,
    ensures
        threads.decoder_step(script)->0.agrees(script),
{
    let next = threads.decoder_step(script)->0;
    assert(next.queues_agree(script));
    assert(next.decoder_agrees(script));
    assert(next.engine_agrees(script));
    assert(next.encoder_agrees(script));
}

proof fn lemma_engine_step<E>(script: Script<E>, threads: Threads<E>)
    requires
        script.wf(),
        threads.agrees(script),
        threads.engine_step(script) is Some,
    ensures
        threads.engine_step(script)->0.agrees(script),
{
    let next = threads.engine_step(script)->0;
    let frames = threads.inference.frames as int;
    if frames < script.frames.len() {
        lemma_events_of(script.duration(), script.frames, frames);
    }
    assert(script.frames.take(0) =~= Seq::empty());
    assert(events_of(script.duration(), Seq::empty()) =~= seq![
        Progress::Started(script.duration()),
    ]);
    assert(threads.told.len() == 0 ==> threads.told =~= Seq::empty());
    assert(Seq::<Progress>::empty().push(Progress::Started(script.duration())) =~= seq![
        Progress::Started(script.duration()),
    ]);
    assert(next.queues_agree(script));
    assert(next.decoder_agrees(script));
    assert(next.engine_agrees(script));
    assert(next.encoder_agrees(script));
}

proof fn lemma_encoder_step<E>(script: Script<E>, threads: Threads<E>)
    requires
        script.wf(),
        threads.agrees(script),
        threads.encoder_step(script) is Some,
    ensures
        threads.encoder_step(script)->0.agrees(script),
{
    let next = threads.encoder_step(script)->0;
    let frames = threads.encode.frames as nat;
    lemma_accepted_calls(script, frames);
    let expected = EncoderCall::Expected(script.duration(), script.accepted);
    assert(threads.calls.len() == 0 ==> threads.calls.push(expected) =~= seq![expected]);
    assert(script.accepted_calls(0) =~= seq![EncoderCall::Expected(script.duration(), None)]);
    assert(next.queues_agree(script));
    assert(next.decoder_agrees(script));
    assert(next.engine_agrees(script));
    assert(next.encoder_agrees(script));
}

#[verifier::rlimit(30)]
proof fn lemma_step<E>(script: Script<E>, threads: Threads<E>, thread: Thread)
    requires
        script.wf(),
        threads.agrees(script),
        threads.step(script, thread) is Some,
    ensures
        threads.step(script, thread)->0.agrees(script),
        0 <= threads.step(script, thread)->0.turns_left(script) < threads.turns_left(script),
{
    match thread {
        Thread::Decoder => lemma_decoder_step(script, threads),
        Thread::Engine => lemma_engine_step(script, threads),
        Thread::Encoder => lemma_encoder_step(script, threads),
    }
}

proof fn lemma_after<E>(script: Script<E>, turns: Seq<Thread>)
    requires
        script.wf(),
    ensures
        Threads::after(script, turns).agrees(script),
        0 <= Threads::after(script, turns).turns_left(script) <= Threads::<
            E,
        >::start().turns_left(script) - Threads::turns_used(script, turns),
    decreases turns.len(),
{
    if turns.len() == 0 {
        let start = Threads::<E>::start();
        assert(start.segmented =~= script.frames.take(0));
        assert(start.agrees(script));
    } else {
        lemma_after(script, turns.drop_last());
        let before = Threads::after(script, turns.drop_last());
        if before.step(script, turns.last()) is Some {
            lemma_step(script, before, turns.last());
        }
    }
}

/// No run hangs. While a thread has not ended, one of the three can go on, though the
/// queues are bounded. And whatever their order, the threads use no more than so many
/// turns, about ten for each frame.
pub proof fn law_pipeline_never_hangs<E>(script: Script<E>, turns: Seq<Thread>)
    requires
        script.wf(),
    ensures
        ({
            let threads = Threads::after(script, turns);
            threads.all_ended() || exists|thread: Thread| #[trigger]
                threads.step(script, thread) is Some
        }),
        Threads::turns_used(script, turns) <= 10 * script.frames.len() + 19,
{
    lemma_after(script, turns);
    let threads = Threads::after(script, turns);
    if !threads.all_ended() && threads.step(script, Thread::Decoder) is None && threads.step(
        script,
        Thread::Engine,
    ) is None {
        assert(threads.step(script, Thread::Encoder) is Some);
    }
}

/// Whatever the order of their turns, the threads never do more than they have to, nor
/// in another order: the engine is handed the decoder's frames one after the other, what
/// is told is what there is to tell of the frames that went on, and no queue holds more
/// than it may. An encoder is opened only for a decoder that is open, and at most once.
pub proof fn law_pipeline_keeps_the_order<E>(script: Script<E>, turns: Seq<Thread>)
    requires
        script.wf(),
    ensures
        ({
            let threads = Threads::after(script, turns);
            &&& threads.segmented.is_prefix_of(script.frames)
            &&& threads.told.is_prefix_of(events_of(script.duration(), script.frames))
            &&& threads.decoded.waiting() <= FRAME_QUEUE_CAPACITY
            &&& threads.masks.waiting() <= FRAME_QUEUE_CAPACITY
            &&& threads.openings <= 1
            &&& script.opened is Err ==> threads.openings == 0 && threads.calls.len() == 0
                && threads.told.len() == 0
        }),
{
    lemma_after(script, turns);
    let threads = Threads::after(script, turns);
    let frames = threads.inference.frames as int;
    let all = events_of(script.duration(), script.frames);
    if threads.told.len() > 0 {
        assert(threads.told =~= all.take(frames + 1));
    }
}

/// A video that goes on as it must, with these masks sent.
proof fn lemma_success<E>(script: Script<E>, threads: Threads<E>)
    requires
        script.wf(),
        threads.agrees(script),
        threads.all_ended(),
        !threads.engine_failed(),
        !threads.encoder_failed(),
        threads.decoding->Ended_0 is Ok,
    ensures
        script.opened is Ok,
        script.succeeds(),
        threads.inferring->Ended_0 == Ok::<u64, E>(script.frames.len() as u64),
        threads.encoding->Ended_0 == Ok::<u64, E>(script.frames.len() as u64),
        threads.segmented == script.frames,
        threads.told == events_of(script.duration(), script.frames),
        threads.calls == (if script.frames.len() > 0 {
            script.accepted_calls(script.frames.len()).push(EncoderCall::Finalized(None))
        } else {
            script.accepted_calls(0)
        }),
{
    let count = script.frames.len();
    assert(script.frames.take(count as int) =~= script.frames);
    assert forall|fault: Fault| #[trigger] script.failure(fault) is None by {
        match fault {
            Fault::Segmenting(at) => {
                if 0 <= at < count {
                    assert(script.masks[at] is Ok);
                }
            },
            Fault::Sending(at) => {
                if 0 <= at < count {
                    assert(script.sent[at] is None);
                }
            },
            _ => {},
        }
    }
}

/// A run in three threads in which nothing fails comes, whatever the order of their
/// turns, to what a run in one thread comes to: it counts the frames, or refuses a video
/// that has none. The engine is handed each frame once and in order. The encoder is told
/// the duration, sent each mask once and in order, and completes the video if there was
/// a frame. What is told is the start and then each frame with its own time and number.
pub proof fn law_pipeline_success<E>(script: Script<E>, turns: Seq<Thread>)
    requires
        script.wf(),
        script.succeeds(),
        Threads::after(script, turns).all_ended(),
    ensures
        ({
            let threads = Threads::after(script, turns);
            let run = script.sequential();
            &&& run.wf()
            &&& threads.segmented == script.frames
            &&& threads.told == run.events()
            &&& threads.openings == 1
            &&& threads.calls == seq![EncoderCall::Expected(script.duration(), None)] + run.calls()
            &&& script.frames.len() > 0 ==> {
                &&& threads.outcome() == Ok::<u64, PipelineError<E>>(script.frames.len() as u64)
                &&& run.result() == Ok::<u64, RunError<E>>(script.frames.len() as u64)
            }
            &&& script.frames.len() == 0 ==> {
                &&& threads.outcome() == Err::<u64, PipelineError<E>>(PipelineError::NoFrames)
                &&& run.result() == Err::<u64, RunError<E>>(RunError::NoFrames)
            }
        }),
{
    lemma_after(script, turns);
    let threads = Threads::after(script, turns);
    let run = script.sequential();
    assert(script.failure(Fault::Opening) is None);
    assert(script.failure(Fault::Reading) is None);
    assert(script.failure(Fault::Segmenting(threads.inference.frames as int)) is None);
    assert(script.failure(Fault::Creating) is None);
    assert(script.failure(Fault::Expecting) is None);
    assert(script.failure(Fault::Sending(threads.encode.frames as int)) is None);
    assert(script.failure(Fault::Completing) is None);
    lemma_success(script, threads);
    assert(threads.calls =~= seq![EncoderCall::Expected(script.duration(), None)] + run.calls());
}

/// A run in three threads in which one thing fails tells that error, whatever the order
/// of their turns, and with it which thread failed.
pub proof fn law_pipeline_failure<E>(
    script: Script<E>,
    turns: Seq<Thread>,
    fault: Fault,
    error: E,
)
    requires
        script.wf(),
        script.fails_once(fault, error),
        Threads::after(script, turns).all_ended(),
    ensures
        Threads::after(script, turns).outcome() == Err::<u64, PipelineError<E>>(
            match fault {
                Fault::Opening | Fault::Reading => PipelineError::DecoderFailed(error),
                Fault::Segmenting(_) => PipelineError::Inference(error),
                _ => PipelineError::EncoderFailed(error),
            },
        ),
{
    lemma_after(script, turns);
    let threads = Threads::after(script, turns);
    assert(script.failure(fault) is Some);
    let segmenting = Fault::Segmenting(threads.inference.frames as int);
    let sending = Fault::Sending(threads.encode.frames as int);
    assert(fault != segmenting ==> script.failure(segmenting) is None);
    assert(fault != sending ==> script.failure(sending) is None);
    assert(fault != Fault::Opening ==> script.failure(Fault::Opening) is None);
    assert(fault != Fault::Reading ==> script.failure(Fault::Reading) is None);
    assert(fault != Fault::Creating ==> script.failure(Fault::Creating) is None);
    assert(fault != Fault::Expecting ==> script.failure(Fault::Expecting) is None);
    assert(fault != Fault::Completing ==> script.failure(Fault::Completing) is None);
    if !threads.engine_failed() && !threads.encoder_failed() && threads.decoding->Ended_0 is Ok {
        lemma_success(script, threads);
    }
}

/// A run in three threads succeeds exactly if there was a frame and nothing failed,
/// whatever the order of their turns.
pub proof fn law_pipeline_succeeds_exactly_if_nothing_fails<E>(
    script: Script<E>,
    turns: Seq<Thread>,
)
    requires
        script.wf(),
        Threads::after(script, turns).all_ended(),
    ensures
        Threads::after(script, turns).outcome() is Ok <==> script.frames.len() > 0
            && script.succeeds(),
{
    lemma_after(script, turns);
    let threads = Threads::after(script, turns);
    if script.succeeds() {
        law_pipeline_success(script, turns);
    }
    if threads.outcome() is Ok {
        lemma_success(script, threads);
    }
}

} // verus!
