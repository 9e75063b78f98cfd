use segmenter::decoder::VideoDecoder;
use segmenter::encoder::VideoEncoder;
use segmenter::engine::Engine;
use segmenter::frame::{MediaTime, VideoFrame};
use segmenter::processing::{
    decode_step, join_pipeline, open_and_run, run_sequential, sequential_step, DecodeAction,
    DecodeEvent, EncodeAction, EncodeEvent, EncodeStage, InferenceAction, InferenceEvent,
    InferenceStage, Joined, Message, Mode, PipelineError, Progress, ProgressLog, RunError, SequentialAction,
    SequentialEvent, FRAME_QUEUE_CAPACITY,
};
use std::cell::{Cell, RefCell};
use std::collections::VecDeque;
use std::rc::Rc;

struct Decoder {
    next: i64,
    count: i64,
    fail_at: Option<i64>,
}

impl VideoDecoder<String> for Decoder {
    fn read_frame(&mut self) -> Result<Option<VideoFrame>, String> {
        if self.fail_at == Some(self.next) {
            return Err("injected decoder error".to_string());
        }
        if self.next == self.count {
            return Ok(None);
        }
        let frame = VideoFrame::new_bgra(
            2,
            2,
            8,
            MediaTime::new(self.next, 30).unwrap(),
            vec![self.next as u8; 16],
        )
        .unwrap();
        self.next += 1;
        Ok(Some(frame))
    }
}

struct Segmenter {
    next: i64,
    fail_at: Option<i64>,
}

impl Engine<String> for Segmenter {
    fn segment(&mut self, frame: &VideoFrame) -> Result<VideoFrame, String> {
        assert_eq!(
            frame.time.value, self.next,
            "inference must retain temporal order"
        );
        if self.fail_at == Some(self.next) {
            return Err("injected inference error".to_string());
        }
        self.next += 1;
        Ok(frame.clone())
    }
}

struct Encoder {
    frames: Vec<i64>,
    fail_at: Option<i64>,
    fail_finalize: bool,
}

impl VideoEncoder<String> for Encoder {
    fn send_frame(&mut self, frame: &VideoFrame) -> Result<(), String> {
        if self.fail_at == Some(frame.time.value) {
            return Err("injected encoder error".to_string());
        }
        self.frames.push(frame.time.value);
        Ok(())
    }

    fn finalize(&mut self) -> Result<(), String> {
        if self.fail_finalize {
            return Err("injected finalize error".to_string());
        }
        self.frames.push(-1);
        Ok(())
    }
}

fn encoder() -> Encoder {
    Encoder { frames: Vec::new(), fail_at: None, fail_finalize: false }
}

fn decoder(count: i64) -> Decoder {
    Decoder { next: 0, count, fail_at: None }
}

fn segmenter() -> Segmenter {
    Segmenter { next: 0, fail_at: None }
}

fn run_text(error: RunError<String>) -> String {
    match error {
        RunError::Stage(error) => error,
        RunError::NoFrames => "input video did not produce any frames".to_string(),
        RunError::TooManyFrames => "too many frames".to_string(),
    }
}

fn pipeline_text(error: PipelineError<String>) -> String {
    match error {
        PipelineError::Inference(error) => error,
        PipelineError::DecoderPanicked => "video decoder worker panicked".to_string(),
        PipelineError::DecoderFailed(error) => format!("video decoder worker failed: {error}"),
        PipelineError::EncoderPanicked => "video encoder worker panicked".to_string(),
        PipelineError::EncoderFailed(error) => format!("video encoder worker failed: {error}"),
        PipelineError::NoFrames => "input video did not produce any frames".to_string(),
        PipelineError::WrongCount { encoded, expected } => {
            format!("encoder wrote {encoded} frames, expected {expected}")
        }
    }
}

/// The stages of a pipeline, each taken a step whenever it can go on, with
/// bounded queues between them.
fn run_stages<D: VideoDecoder<String>, C: VideoEncoder<String>, N: Engine<String>>(
    open_decoder: impl FnOnce() -> Result<D, String>,
    open_encoder: impl Fn() -> Result<C, String>,
    engine: &mut N,
    events: &mut Vec<Progress>,
) -> Result<u64, PipelineError<String>> {
    let mut decoded: VecDeque<Message> = VecDeque::new();
    let mut masks: VecDeque<Message> = VecDeque::new();

    let mut decode_end: Option<Result<(), String>> = None;
    let mut inference_end: Option<Result<u64, String>> = None;
    let mut encode_end: Option<Result<u64, String>> = None;

    let mut source: Option<D> = None;
    let mut decode_action = match open_decoder() {
        Ok(decoder) => {
            let action = decode_step(DecodeEvent::Opened(decoder.duration()));
            source = Some(decoder);
            Some(action)
        }
        Err(error) => {
            decode_end = Some(Err(error));
            None
        }
    };
    let mut inference = InferenceStage::new();
    let mut inference_action = Some(InferenceAction::Receive);
    let mut encode = EncodeStage::new();
    let mut encode_action = Some(EncodeAction::Receive);
    let mut sink: Option<C> = None;

    while decode_end.is_none() || inference_end.is_none() || encode_end.is_none() {
        if decode_end.is_none() {
            match decode_action.take().unwrap() {
                DecodeAction::Send(message) => {
                    if inference_end.is_some() {
                        decode_action = Some(decode_step(DecodeEvent::Delivered(false)));
                    } else if decoded.len() < FRAME_QUEUE_CAPACITY {
                        decoded.push_back(message);
                        decode_action = Some(decode_step(DecodeEvent::Delivered(true)));
                    } else {
                        decode_action = Some(DecodeAction::Send(message));
                    }
                }
                DecodeAction::Decode => match source.as_mut().unwrap().read_frame() {
                    Ok(read) => decode_action = Some(decode_step(DecodeEvent::Decoded(read))),
                    Err(error) => decode_end = Some(Err(error)),
                },
                DecodeAction::Stop => decode_end = Some(Ok(())),
            }
        }
        if inference_end.is_none() {
            let event = match inference_action.take().unwrap() {
                InferenceAction::Receive => match decoded.pop_front() {
                    Some(message) => Some(InferenceEvent::Received(Some(message))),
                    None if decode_end.is_some() => Some(InferenceEvent::Received(None)),
                    None => {
                        inference_action = Some(InferenceAction::Receive);
                        None
                    }
                },
                InferenceAction::Forward(message) => {
                    if encode_end.is_some() {
                        Some(InferenceEvent::Delivered(false))
                    } else if masks.len() < FRAME_QUEUE_CAPACITY {
                        masks.push_back(message);
                        Some(InferenceEvent::Delivered(true))
                    } else {
                        inference_action = Some(InferenceAction::Forward(message));
                        None
                    }
                }
                InferenceAction::Segment(frame) => match engine.segment(&frame) {
                    Ok(mask) => Some(InferenceEvent::Segmented(mask)),
                    Err(error) => {
                        inference_end = Some(Err(error));
                        None
                    }
                },
                InferenceAction::Stop => {
                    inference_end = Some(Ok(inference.frames));
                    None
                }
            };
            if let Some(event) = event {
                let (progress, action) = inference.step(event);
                events.extend(progress);
                inference_action = Some(action);
            }
        }
        if encode_end.is_none() {
            let event = match encode_action.take().unwrap() {
                EncodeAction::Receive => match masks.pop_front() {
                    Some(message) => Some(EncodeEvent::Received(Some(message))),
                    None if inference_end.is_some() => Some(EncodeEvent::Received(None)),
                    None => {
                        encode_action = Some(EncodeAction::Receive);
                        None
                    }
                },
                EncodeAction::Open(duration) => match open_encoder() {
                    Ok(mut encoder) => match encoder.set_expected_duration(duration) {
                        Ok(()) => {
                            sink = Some(encoder);
                            Some(EncodeEvent::Opened)
                        }
                        Err(error) => {
                            encode_end = Some(Err(error));
                            None
                        }
                    },
                    Err(error) => {
                        encode_end = Some(Err(error));
                        None
                    }
                },
                EncodeAction::Encode(frame) => match sink.as_mut().unwrap().send_frame(&frame) {
                    Ok(()) => Some(EncodeEvent::Encoded),
                    Err(error) => {
                        encode_end = Some(Err(error));
                        None
                    }
                },
                EncodeAction::Finalize => {
                    encode_end = Some(sink.as_mut().unwrap().finalize().map(|()| encode.frames));
                    None
                }
                EncodeAction::Stop => {
                    encode_end = Some(Ok(encode.frames));
                    None
                }
            };
            if let Some(event) = event {
                encode_action = Some(encode.step(event));
            }
        }
    }
    let decoded = match decode_end.unwrap() {
        Ok(()) => Joined::Finished(()),
        Err(error) => Joined::Failed(error),
    };
    let encoded = match encode_end.unwrap() {
        Ok(frames) => Joined::Finished(frames),
        Err(error) => Joined::Failed(error),
    };
    join_pipeline(inference_end.unwrap(), decoded, encoded)
}

fn run<D: VideoDecoder<String>, C: VideoEncoder<String>, N: Engine<String>>(
    mode: Mode,
    open_decoder: impl FnOnce() -> Result<D, String>,
    open_encoder: impl Fn() -> Result<C, String>,
    engine: &mut N,
    events: &mut Vec<Progress>,
) -> Result<u64, String> {
    match mode {
        Mode::Sequential => {
            let mut log = ProgressLog { events: Vec::new() };
            let result = open_and_run(open_decoder, open_encoder, engine, &mut log);
            events.extend(log.events);
            result.map_err(run_text)
        }
        Mode::Pipelined => {
            run_stages(open_decoder, open_encoder, engine, events).map_err(pipeline_text)
        }
    }
}

struct SharedEncoder {
    frames: Rc<Cell<Vec<i64>>>,
    inner: Encoder,
}

impl VideoEncoder<String> for SharedEncoder {
    fn send_frame(&mut self, frame: &VideoFrame) -> Result<(), String> {
        let result = self.inner.send_frame(frame);
        self.frames.set(self.inner.frames.clone());
        result
    }

    fn finalize(&mut self) -> Result<(), String> {
        let result = self.inner.finalize();
        self.frames.set(self.inner.frames.clone());
        result
    }
}

#[test]
fn both_modes_keep_all_frames_in_order_and_finalize() {
    for mode in [Mode::Sequential, Mode::Pipelined] {
        let frames = Rc::new(Cell::new(Vec::new()));
        let count = run(
            mode,
            || Ok(decoder(100)),
            || Ok(SharedEncoder { frames: frames.clone(), inner: encoder() }),
            &mut segmenter(),
            &mut Vec::new(),
        )
        .unwrap();
        assert_eq!(count, 100);
        assert_eq!(frames.take(), (0..100).chain([-1]).collect::<Vec<_>>());
    }
}

#[test]
fn worker_errors_and_inference_errors_disconnect_queues_and_join() {
    for mode in [Mode::Sequential, Mode::Pipelined] {
        for (decode_failure, inference_failure, encode_failure, finalize_failure, expected) in [
            (Some(10), None, None, false, "injected decoder error"),
            (None, Some(10), None, false, "injected inference error"),
            (None, None, Some(10), false, "injected encoder error"),
            (None, None, None, true, "injected finalize error"),
        ] {
            let error = run(
                mode,
                || Ok(Decoder { next: 0, count: 100, fail_at: decode_failure }),
                || {
                    Ok(Encoder {
                        frames: Vec::new(),
                        fail_at: encode_failure,
                        fail_finalize: finalize_failure,
                    })
                },
                &mut Segmenter { next: 0, fail_at: inference_failure },
                &mut Vec::new(),
            )
            .unwrap_err();
            assert!(error.contains(expected), "{error}");
        }
    }
}

#[test]
fn opening_failures_and_empty_input_terminate_cleanly() {
    for mode in [Mode::Sequential, Mode::Pipelined] {
        let mut engine = segmenter();
        let error = run(
            mode,
            || Err::<Decoder, String>("injected open error".to_string()),
            || -> Result<Encoder, String> { unreachable!() },
            &mut engine,
            &mut Vec::new(),
        )
        .unwrap_err();
        assert!(error.contains("injected open error"));
        let error = run(
            mode,
            || Ok(decoder(100)),
            || Err::<Encoder, String>("injected encoder open error".to_string()),
            &mut engine,
            &mut Vec::new(),
        )
        .unwrap_err();
        assert!(error.contains("injected encoder open error"));
        let error = run(
            mode,
            || Ok(decoder(0)),
            || Ok(encoder()),
            &mut engine,
            &mut Vec::new(),
        )
        .unwrap_err();
        assert!(error.contains("did not produce any frames"));
    }
}

struct FailingEncoder;

impl VideoEncoder<String> for FailingEncoder {
    fn set_expected_duration(&mut self, _: Option<MediaTime>) -> Result<(), String> {
        Err("injected duration error".to_string())
    }

    fn send_frame(&mut self, _: &VideoFrame) -> Result<(), String> {
        unreachable!()
    }

    fn finalize(&mut self) -> Result<(), String> {
        unreachable!()
    }
}

#[test]
fn encoder_setup_failure_disconnects_a_busy_decoder() {
    for mode in [Mode::Sequential, Mode::Pipelined] {
        let error = run(
            mode,
            || Ok(decoder(100)),
            || Ok(FailingEncoder),
            &mut segmenter(),
            &mut Vec::new(),
        )
        .unwrap_err();
        assert!(error.contains("injected duration error"));
    }
}

struct Stage {
    dropped: Rc<Cell<usize>>,
    frames: u64,
}

impl Stage {
    fn new(dropped: Rc<Cell<usize>>) -> Self {
        Self { dropped, frames: 0 }
    }
}

impl Drop for Stage {
    fn drop(&mut self) {
        self.dropped.set(self.dropped.get() + 1);
    }
}

impl VideoDecoder<String> for Stage {
    fn duration(&self) -> Option<MediaTime> {
        Some(MediaTime::new(2, 30).unwrap())
    }

    fn read_frame(&mut self) -> Result<Option<VideoFrame>, String> {
        if self.frames == 2 {
            return Ok(None);
        }
        let frame = VideoFrame::new_bgra(
            2,
            2,
            8,
            MediaTime::new(self.frames as i64, 30).unwrap(),
            vec![0; 16],
        )
        .unwrap();
        self.frames += 1;
        Ok(Some(frame))
    }
}

impl VideoEncoder<String> for Stage {
    fn set_expected_duration(&mut self, duration: Option<MediaTime>) -> Result<(), String> {
        assert_eq!(duration, Some(MediaTime::new(2, 30).unwrap()));
        Ok(())
    }

    fn send_frame(&mut self, _: &VideoFrame) -> Result<(), String> {
        self.frames += 1;
        Ok(())
    }

    fn finalize(&mut self) -> Result<(), String> {
        assert_eq!(self.frames, 2);
        Ok(())
    }
}

impl Engine<String> for Stage {
    fn segment(&mut self, frame: &VideoFrame) -> Result<VideoFrame, String> {
        Ok(frame.clone())
    }
}

#[test]
fn both_modes_tell_progress_and_drop_what_they_opened() {
    for mode in [Mode::Sequential, Mode::Pipelined] {
        let dropped = Rc::new(Cell::new(0));
        let mut engine = Stage::new(dropped.clone());
        let mut events = Vec::new();
        let count = run(
            mode,
            || Ok(Stage::new(dropped.clone())),
            || Ok(Stage::new(dropped.clone())),
            &mut engine,
            &mut events,
        )
        .unwrap();
        assert_eq!(count, 2);
        assert_eq!(
            events,
            vec![
                Progress::Started(Some(MediaTime::new(2, 30).unwrap())),
                Progress::Frame(MediaTime::new(0, 30).unwrap(), 1),
                Progress::Frame(MediaTime::new(1, 30).unwrap(), 2),
            ]
        );
        assert_eq!(dropped.get(), 2);
        drop(engine);
        assert_eq!(dropped.get(), 3);
    }
}

#[test]
fn the_first_failure_in_order_is_told() {
    let finished = |frames| Joined::Finished::<u64, String>(frames);
    let text = |result: Result<u64, PipelineError<String>>| pipeline_text(result.unwrap_err());
    assert_eq!(join_pipeline(Ok(3), Joined::Finished(()), finished(3)).unwrap(), 3);
    assert_eq!(
        text(join_pipeline(Err("x".to_string()), Joined::Panicked, Joined::Panicked)),
        "x"
    );
    assert_eq!(
        text(join_pipeline(Ok(3), Joined::Panicked, Joined::Panicked)),
        "video decoder worker panicked"
    );
    assert_eq!(
        text(join_pipeline(Ok(3), Joined::Failed("d".to_string()), Joined::Panicked)),
        "video decoder worker failed: d"
    );
    assert_eq!(
        text(join_pipeline(Ok(3), Joined::Finished(()), Joined::Panicked)),
        "video encoder worker panicked"
    );
    assert_eq!(
        text(join_pipeline(Ok(3), Joined::Finished(()), Joined::Failed("e".to_string()))),
        "video encoder worker failed: e"
    );
    assert_eq!(
        text(join_pipeline(Ok(0), Joined::Finished(()), finished(0))),
        "input video did not produce any frames"
    );
    assert_eq!(
        text(join_pipeline(Ok(3), Joined::Finished(()), finished(2))),
        "encoder wrote 2 frames, expected 3"
    );
}

/// A decoder, an engine and an encoder that note what they are asked.
#[derive(Clone, Default)]
struct Noting {
    notes: Rc<RefCell<Vec<String>>>,
    read: i64,
    count: i64,
}

impl Noting {
    fn note(&self, note: String) {
        self.notes.borrow_mut().push(note);
    }
}

impl VideoDecoder<String> for Noting {
    fn duration(&self) -> Option<MediaTime> {
        self.note("duration".to_string());
        Some(MediaTime::new(5, 6).unwrap())
    }

    fn read_frame(&mut self) -> Result<Option<VideoFrame>, String> {
        self.note("read".to_string());
        if self.read == self.count {
            return Ok(None);
        }
        self.read += 1;
        let time = MediaTime::new(self.read, 30).unwrap();
        Ok(Some(VideoFrame::new_bgra(1, 1, 4, time, vec![self.read as u8; 4]).unwrap()))
    }
}

impl Engine<String> for Noting {
    fn segment(&mut self, frame: &VideoFrame) -> Result<VideoFrame, String> {
        self.note(format!("segment {}", frame.data[0]));
        let mask = vec![frame.data[0] + 100; 4];
        Ok(VideoFrame::new_bgra(1, 1, 4, frame.time, mask).unwrap())
    }
}

impl VideoEncoder<String> for Noting {
    fn set_expected_duration(&mut self, duration: Option<MediaTime>) -> Result<(), String> {
        self.note(format!("expect {}", duration.unwrap().value));
        Ok(())
    }

    fn send_frame(&mut self, frame: &VideoFrame) -> Result<(), String> {
        self.note(format!("send {}", frame.data[0]));
        Ok(())
    }

    fn finalize(&mut self) -> Result<(), String> {
        self.note("finalize".to_string());
        Ok(())
    }
}

#[test]
fn a_run_asks_each_stage_in_turn_and_nothing_else() {
    for (count, expected) in [
        (
            2,
            vec![
                "duration", "expect 5", "read", "segment 1", "send 101", "read", "segment 2",
                "send 102", "read", "finalize",
            ],
        ),
        (0, vec!["duration", "expect 5", "read"]),
    ] {
        let noting = Noting { count, ..Noting::default() };
        let mut log = ProgressLog { events: Vec::new() };
        let result = run_sequential(
            &mut noting.clone(),
            &mut noting.clone(),
            &mut noting.clone(),
            &mut log,
        );
        assert_eq!(result.ok(), if count == 0 { None } else { Some(count as u64) });
        assert_eq!(*noting.notes.borrow(), expected);
        assert_eq!(log.events.len() as i64, count + 1);
    }
}

#[test]
fn a_run_is_told_what_to_do_next() {
    let time = MediaTime::new(7, 30).unwrap();
    let frame = || VideoFrame::new_bgra(1, 1, 4, time, vec![9; 4]).unwrap();
    type Event = SequentialEvent<String>;
    let step = |frames, event: Event| sequential_step(frames, event);

    let (frames, told, action) = step(0, Event::Opened(Some(time)));
    assert_eq!((frames, told), (0, None));
    assert!(matches!(action, SequentialAction::Expect(Some(expected)) if expected == time));

    let (frames, told, action) = step(0, Event::Expected(Some(time), Ok(())));
    assert_eq!((frames, told), (0, Some(Progress::Started(Some(time)))));
    assert!(matches!(action, SequentialAction::Read));

    let (frames, told, action) = step(3, Event::Read(Ok(Some(frame()))));
    assert_eq!((frames, told), (3, None));
    assert!(matches!(action, SequentialAction::Segment(read) if read.data == vec![9; 4]));

    let (frames, told, action) = step(3, Event::Segmented(time, Ok(frame())));
    assert_eq!((frames, told), (3, None));
    assert!(matches!(action, SequentialAction::Send(of, mask)
        if of == time && mask.data == vec![9; 4]));

    let (frames, told, action) = step(3, Event::Sent(time, Ok(())));
    assert_eq!((frames, told), (4, Some(Progress::Frame(time, 4))));
    assert!(matches!(action, SequentialAction::Read));

    assert!(matches!(step(3, Event::Read(Ok(None))).2, SequentialAction::Finalize));
    let stop = |frames, event: Event| match step(frames, event) {
        (after, None, SequentialAction::Stop(result)) if after == frames => {
            result.map_err(run_text)
        }
        _ => panic!("the run goes on"),
    };
    assert_eq!(stop(3, Event::Finalized(Ok(()))), Ok(3));
    let no_frames = "input video did not produce any frames".to_string();
    assert_eq!(stop(0, Event::Read(Ok(None))), Err(no_frames));
    let too_many = "too many frames".to_string();
    assert_eq!(stop(u64::MAX, Event::Read(Ok(Some(frame())))), Err(too_many));
    let failure = || "injected".to_string();
    for event in [
        Event::Expected(None, Err(failure())),
        Event::Read(Err(failure())),
        Event::Segmented(time, Err(failure())),
        Event::Sent(time, Err(failure())),
        Event::Finalized(Err(failure())),
    ] {
        assert_eq!(stop(3, event), Err(failure()));
    }
}
