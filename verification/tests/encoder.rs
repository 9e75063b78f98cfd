use segmenter::encoder::avfoundation::{WriteError, WriterState};
use segmenter::encoder::mediafoundation::{
    media_time_to_hns, DrainAction, EncodeError, EncoderOutput, EncoderTimeline, SampleTiming,
    DEFAULT_FINAL_FRAME_DURATION_HNS,
};
use segmenter::encoder::settings::{
    avg_bitrate, nominal_frame_rate_for_timestamps, output_buffer, output_buffer_len,
    NominalFrameRate, ZeroLengthBuffer,
};
use segmenter::encoder::yuv::{
    bgra_pixel, bgra_to_nv12, rgb_to_yuv_limited, PendingFrame, YuvError,
};
use segmenter::encoder::{create_video_encoder, EncoderError};
use segmenter::frame::{MediaTime, VideoFrame};
use segmenter::platform::{MediaBackend, Platform};

fn frame(time: i64, width: u32, height: u32) -> VideoFrame {
    VideoFrame::new_bgra(
        width,
        height,
        width * 4,
        MediaTime::new(time, 30).unwrap(),
        vec![time as u8; (width * height * 4) as usize],
    )
    .unwrap()
}

#[test]
fn colours_become_limited_range() {
    assert_eq!(rgb_to_yuv_limited(0, 0, 0), (16, 128, 128));
    assert_eq!(rgb_to_yuv_limited(255, 255, 255), (235, 128, 128));
    assert_eq!(rgb_to_yuv_limited(255, 0, 0), (82, 90, 240));
    assert_eq!(rgb_to_yuv_limited(0, 255, 0), (144, 54, 34));
    assert_eq!(rgb_to_yuv_limited(0, 0, 255), (41, 240, 110));
    for level in 0..=255 {
        let (_, u, v) = rgb_to_yuv_limited(level, level, level);
        assert_eq!((u, v), (128, 128));
    }
}

#[test]
fn frames_become_two_planes() {
    let red = [0, 0, 255, 255];
    let black = [0, 0, 0, 255];
    let mut data = Vec::new();
    for pixel in [red, black, [9, 9, 9, 9], red, black, [9, 9, 9, 9]] {
        data.extend_from_slice(&pixel);
    }
    let pending = PendingFrame { data, time_hns: 0, bytes_per_row: 12 };
    assert_eq!(bgra_pixel(&pending, 0, 1), Ok((255, 0, 0)));
    assert_eq!(
        bgra_to_nv12(&pending, 2, 2).unwrap(),
        vec![82, 16, 82, 16, 109, 184]
    );
}

#[test]
fn frames_that_are_too_short_are_not_converted() {
    let pending = PendingFrame { data: vec![0; 8], time_hns: 0, bytes_per_row: 8 };
    assert_eq!(bgra_to_nv12(&pending, 2, 2), Err(YuvError::FrameTooShort));
    assert_eq!(bgra_pixel(&pending, 2, 0), Err(YuvError::FrameTooShort));
    assert_eq!(bgra_pixel(&pending, usize::MAX, 0), Err(YuvError::OffsetOverflow));
}

#[test]
fn times_round_to_ten_millionths() {
    assert_eq!(media_time_to_hns(MediaTime { value: 1, timescale: 3 }), Ok(3_333_333));
    assert_eq!(media_time_to_hns(MediaTime { value: 2, timescale: 3 }), Ok(6_666_667));
    assert_eq!(media_time_to_hns(MediaTime { value: -2, timescale: 3 }), Ok(-6_666_667));
    assert_eq!(
        media_time_to_hns(MediaTime { value: i64::MAX, timescale: 1 }),
        Err(EncodeError::TimestampOutOfRange)
    );
}

#[test]
fn frame_rates_follow_the_timescale() {
    let usual = NominalFrameRate { numerator: 30, denominator: 1 };
    for timescale in [-1, 0, 30, 600, 1_000, 30_000, 90_001, i32::MAX] {
        assert_eq!(nominal_frame_rate_for_timestamps(timescale), usual);
    }
    assert_eq!(
        nominal_frame_rate_for_timestamps(90_000),
        NominalFrameRate { numerator: 90_000, denominator: 1_000 }
    );
    assert_eq!(
        nominal_frame_rate_for_timestamps(15_360),
        NominalFrameRate { numerator: 15_360, denominator: 1_000 }
    );
}

#[test]
fn bitrates_have_limits() {
    assert_eq!(avg_bitrate(16, 16), 1_000_000);
    assert_eq!(avg_bitrate(1920, 1080), 8_294_400);
    assert_eq!(avg_bitrate(7680, 4320), 20_000_000);
    assert_eq!(avg_bitrate(u32::MAX, u32::MAX), 20_000_000);
}

#[test]
fn output_buffers_hold_a_frame() {
    assert_eq!(output_buffer_len(true, 77, 4, 4), 0);
    assert_eq!(output_buffer_len(false, 77, 4, 4), 77);
    assert_eq!(output_buffer_len(false, 7, 4, 4), 64);
    assert_eq!(output_buffer_len(false, 7, u32::MAX, 4), u32::MAX);
    assert_eq!(output_buffer(true, 0), Ok(None));
    assert_eq!(output_buffer(false, 64), Ok(Some(64)));
    assert_eq!(output_buffer(false, 0), Err(ZeroLengthBuffer));
}

fn send(timeline: &mut EncoderTimeline, frame: &VideoFrame) -> Result<Option<SampleTiming>, EncodeError> {
    if timeline.needs_setup(frame)? {
        timeline.set_up(frame.width, frame.height);
    }
    let input = timeline.next_input(frame)?;
    let mut timing = None;
    if let Some(input) = input {
        assert_eq!(input.nv12.len(), (frame.width * frame.height * 3 / 2) as usize);
        timeline.input_sent(input.timing);
        timing = Some(input.timing);
    }
    timeline.keep_frame(frame)?;
    Ok(timing)
}

#[test]
fn each_frame_is_shown_until_the_next() {
    let mut timeline = EncoderTimeline::new();
    timeline
        .set_expected_duration(Some(MediaTime::new(1, 2).unwrap()))
        .unwrap();
    assert_eq!(send(&mut timeline, &frame(0, 2, 2)), Ok(None));
    assert_eq!(
        send(&mut timeline, &frame(3, 2, 2)),
        Ok(Some(SampleTiming { time_hns: 0, duration_hns: 1_000_000 }))
    );
    assert_eq!(
        send(&mut timeline, &frame(5, 2, 2)),
        Ok(Some(SampleTiming { time_hns: 1_000_000, duration_hns: 666_667 }))
    );
    let last = timeline.final_input().unwrap().unwrap();
    assert_eq!(
        last.timing,
        SampleTiming { time_hns: 1_666_667, duration_hns: 3_333_333 }
    );
    timeline.input_sent(last.timing);

    assert_eq!(timeline.check_drained(), Err(EncodeError::MissingSamples { queued: 3 }));
    let mut written = Vec::new();
    for _ in 0..3 {
        match timeline.drain_step(EncoderOutput::Sample, true).unwrap() {
            DrainAction::Write(timing) => written.push(timing),
            DrainAction::Done => panic!("the encoder had a sample"),
        }
    }
    assert_eq!(
        written.iter().map(|timing| timing.time_hns).collect::<Vec<_>>(),
        vec![0, 1_000_000, 1_666_667]
    );
    for pair in written.windows(2) {
        assert_eq!(pair[0].time_hns + pair[0].duration_hns, pair[1].time_hns);
    }
    assert_eq!(
        timeline.drain_step(EncoderOutput::NeedsMoreInput, true),
        Ok(DrainAction::Done)
    );
    timeline.finish();
    assert_eq!(
        timeline.needs_setup(&frame(9, 2, 2)),
        Err(EncodeError::AlreadyFinalized)
    );
    assert!(matches!(timeline.final_input(), Err(EncodeError::AlreadyFinalized)));
}

#[test]
fn the_last_frame_lasts_as_long_as_the_one_before() {
    let mut timeline = EncoderTimeline::new();
    send(&mut timeline, &frame(0, 2, 2)).unwrap();
    assert_eq!(timeline.final_frame_duration_hns(), DEFAULT_FINAL_FRAME_DURATION_HNS);
    send(&mut timeline, &frame(3, 2, 2)).unwrap();
    assert_eq!(timeline.final_frame_duration_hns(), 1_000_000);
    timeline
        .set_expected_duration(Some(MediaTime::new(1, 30).unwrap()))
        .unwrap();
    assert_eq!(timeline.final_frame_duration_hns(), 1_000_000);
}

#[test]
fn frames_that_do_not_fit_are_refused() {
    let mut timeline = EncoderTimeline::new();
    assert!(matches!(timeline.final_input(), Err(EncodeError::NoFrames)));
    assert_eq!(
        send(&mut timeline, &frame(0, 3, 2)),
        Err(EncodeError::OddDimensions { width: 3, height: 2 })
    );
    send(&mut timeline, &frame(4, 2, 2)).unwrap();
    assert_eq!(
        send(&mut timeline, &frame(5, 4, 2)),
        Err(EncodeError::DimensionsChanged { width: 4, height: 2 })
    );
    assert_eq!(
        send(&mut timeline, &frame(4, 2, 2)),
        Err(EncodeError::NotIncreasing { previous: 1_333_333, current: 1_333_333 })
    );
    assert!(matches!(
        timeline.encode_pending_frame(0),
        Err(EncodeError::NonPositiveDuration { duration: 0 })
    ));
    assert!(timeline.encode_pending_frame(5).is_ok());
    assert!(matches!(
        timeline.encode_pending_frame(5),
        Err(EncodeError::NoPendingFrame)
    ));
    let mut endless = frame(4, 2, 2);
    endless.time = MediaTime { value: i64::MAX, timescale: 1 };
    assert_eq!(
        send(&mut timeline, &endless),
        Err(EncodeError::TimestampOutOfRange)
    );
}

#[test]
fn short_frames_fail_when_their_turn_comes() {
    let mut timeline = EncoderTimeline::new();
    let mut short = frame(0, 2, 2);
    short.data.truncate(8);
    send(&mut timeline, &short).unwrap();
    assert_eq!(
        send(&mut timeline, &frame(1, 2, 2)),
        Err(EncodeError::Conversion(YuvError::FrameTooShort))
    );
}

#[test]
fn drains_have_their_errors() {
    let mut timeline = EncoderTimeline::new();
    assert_eq!(
        timeline.drain_step(EncoderOutput::Sample, false),
        Err(EncodeError::UnexpectedSample)
    );
    assert_eq!(timeline.next_timing(), Err(EncodeError::UnexpectedSample));
    assert_eq!(
        timeline.drain_step(EncoderOutput::Nothing, false),
        Err(EncodeError::NoSample)
    );
    assert_eq!(
        timeline.drain_step(EncoderOutput::StreamChanged, false),
        Err(EncodeError::StreamChanged)
    );
    timeline.input_sent(SampleTiming { time_hns: 0, duration_hns: 1 });
    assert_eq!(
        timeline.drain_step(EncoderOutput::NeedsMoreInput, false),
        Ok(DrainAction::Done)
    );
    assert_eq!(
        timeline.drain_step(EncoderOutput::NeedsMoreInput, true),
        Err(EncodeError::MissingSamples { queued: 1 })
    );
}

#[test]
fn a_writer_takes_frames_of_one_size() {
    let mut state = WriterState::new();
    assert_eq!(state.check_finalize(), Err(WriteError::NoFrames));
    assert_eq!(state.check_size(&frame(0, 2, 2)), Err(WriteError::NoFrames));
    assert_eq!(state.needs_start(&frame(0, 2, 2)), Ok(true));
    state.start(2, 2);
    assert_eq!(state.needs_start(&frame(1, 2, 2)), Ok(false));
    assert_eq!(state.check_size(&frame(1, 2, 2)), Ok(()));
    assert_eq!(
        state.check_size(&frame(1, 4, 2)),
        Err(WriteError::DimensionsChanged {
            width: 2,
            height: 2,
            frame_width: 4,
            frame_height: 2
        })
    );
    assert_eq!(state.check_finalize(), Ok(()));
    state.finish();
    assert_eq!(state.check_finalize(), Err(WriteError::AlreadyFinalized));
    assert_eq!(state.needs_start(&frame(2, 2, 2)), Err(WriteError::AlreadyFinalized));
}

#[test]
fn platforms_have_their_encoders() {
    assert_eq!(create_video_encoder(Platform::MacOs), Ok(MediaBackend::AvFoundation));
    assert_eq!(create_video_encoder(Platform::Windows), Ok(MediaBackend::MediaFoundation));
    assert_eq!(
        create_video_encoder(Platform::Other),
        Err(EncoderError::UnsupportedPlatform)
    );
}
