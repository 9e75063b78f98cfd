use segmenter::decoder::avfoundation;
use segmenter::decoder::avfoundation::{
    asset_duration, frame_from_sample, has_sample, native_max_dimension, DecodedSample, ReadError,
    ReadStatus, RotationError, RotationStatus,
};
use segmenter::decoder::clock::TimestampClock;
use segmenter::decoder::mediafoundation;
use segmenter::decoder::mediafoundation::{
    output_plan, pitch_stride, stream_read, OutputPlan, SampleError, SampleReader, StreamRead,
};
use segmenter::decoder::stride::{BgraSampleStride, StrideError};
use segmenter::decoder::{
    open_video_decoder, validate_max_dimension, DecoderError,
};
use segmenter::frame::{DisplayRotation, FrameError, MediaTime};
use segmenter::platform::{MediaBackend, Platform};

fn place(target: usize, target_len: usize, source_len: usize) -> (usize, u32) {
    let source = ((target as f32 + 0.5) * source_len as f32 / target_len as f32 - 0.5)
        .clamp(0.0, (source_len - 1) as f32);
    let lower = source.floor() as usize;
    (lower, (source - lower as f32).to_bits())
}

fn mix(from: f32, to: f32, amount: f32) -> f32 {
    from + (to - from) * amount
}

fn blend(tl: u8, tr: u8, bl: u8, br: u8, across: u32, down: u32) -> u8 {
    let top = mix(tl as f32, tr as f32, f32::from_bits(across));
    let bottom = mix(bl as f32, br as f32, f32::from_bits(across));
    mix(top, bottom, f32::from_bits(down)).round().clamp(0.0, 255.0) as u8
}

fn stride(bytes_per_row: u32, rows_are_top_down: bool) -> BgraSampleStride {
    BgraSampleStride { bytes_per_row, rows_are_top_down }
}

fn reader(
    bytes_per_row: u32,
    rows_are_top_down: bool,
    software_resize: Option<(u32, u32)>,
    rotation: DisplayRotation,
) -> SampleReader {
    match SampleReader::new(
        (2, 2),
        stride(bytes_per_row, rows_are_top_down),
        software_resize,
        rotation,
        TimestampClock::new(None),
    ) {
        Ok(reader) => reader,
        Err(error) => panic!("{error:?}"),
    }
}

const SOURCE: [u8; 20] = [
    1, 1, 1, 255, 2, 2, 2, 255, 0, 0, 3, 3, 3, 255, 4, 4, 4, 255, 0, 0,
];

fn firsts(data: &[u8]) -> Vec<u8> {
    data.chunks_exact(4).map(|pixel| pixel[0]).collect()
}

#[test]
fn samples_become_frames() {
    let frame = reader(10, true, None, DisplayRotation::Unrotated)
        .frame_from_sample(&SOURCE, None, 5, &blend, &place)
        .unwrap();
    assert_eq!(frame.bytes_per_row, 10);
    assert_eq!(frame.data, SOURCE.to_vec());
    assert_eq!(frame.time, MediaTime { value: 5, timescale: 10_000_000 });

    let flipped = reader(10, false, None, DisplayRotation::Unrotated)
        .frame_from_sample(&SOURCE, None, 0, &blend, &place)
        .unwrap();
    assert_eq!(firsts(&flipped.data), vec![3, 4, 1, 2]);

    let turned = reader(10, true, None, DisplayRotation::Clockwise90)
        .frame_from_sample(&SOURCE, None, 0, &blend, &place)
        .unwrap();
    assert_eq!(firsts(&turned.data), vec![3, 1, 4, 2]);

    let resized = reader(10, true, Some((4, 2)), DisplayRotation::Unrotated)
        .frame_from_sample(&SOURCE, None, 0, &blend, &place)
        .unwrap();
    assert_eq!((resized.width, resized.height), (4, 2));
    assert_eq!(firsts(&resized.data), vec![1, 1, 2, 2, 3, 3, 4, 4]);

    let both = reader(10, false, Some((4, 2)), DisplayRotation::Unrotated)
        .frame_from_sample(&SOURCE, None, 0, &blend, &place)
        .unwrap();
    assert_eq!(firsts(&both.data), vec![3, 3, 4, 4, 1, 1, 2, 2]);

    let told = reader(8, true, None, DisplayRotation::Unrotated)
        .frame_from_sample(&SOURCE, Some(stride(10, true)), 0, &blend, &place)
        .unwrap();
    assert_eq!(told.bytes_per_row, 10);
}

#[test]
fn samples_that_are_too_short_leave_the_clock_alone() {
    let mut reader = reader(10, true, None, DisplayRotation::Unrotated);
    assert_eq!(
        reader
            .frame_from_sample(&SOURCE[..19], None, 7, &blend, &place)
            .unwrap_err(),
        SampleError::BufferTooShort { len: 19, required: 20 }
    );
    assert!(reader.timestamp_clock.observed_hns.is_empty());
    reader.frame_from_sample(&SOURCE, None, 7, &blend, &place).unwrap();
    assert_eq!(reader.timestamp_clock.observed_hns, vec![7]);
}

#[test]
fn a_reader_counts_the_rows_of_its_frames() {
    let resized = reader(10, true, Some((4, 6)), DisplayRotation::Unrotated);
    assert_eq!((resized.width, resized.height, resized.bytes_per_row), (4, 6, 16));
    assert_eq!((resized.source_width, resized.source_height), (2, 2));
    let native = reader(10, true, None, DisplayRotation::Unrotated);
    assert_eq!((native.width, native.height, native.bytes_per_row), (2, 2, 10));
    assert!(matches!(
        SampleReader::new(
            (2, 2),
            stride(8, true),
            Some((1 << 30, 2)),
            DisplayRotation::Unrotated,
            TimestampClock::new(None)
        ),
        Err(SampleError::ResizedRowOverflow)
    ));
}

#[test]
fn streams_end_and_fail() {
    assert_eq!(stream_read(false, false, true), Ok(StreamRead::Sample));
    assert_eq!(stream_read(false, true, true), Ok(StreamRead::End));
    assert_eq!(stream_read(false, false, false), Ok(StreamRead::End));
    assert_eq!(stream_read(true, true, false), Err(SampleError::StreamError));
}

#[test]
fn pitches_tell_strides() {
    assert_eq!(pitch_stride(0, 2), Ok(None));
    assert_eq!(pitch_stride(-16, 2), Ok(Some(stride(16, false))));
    assert_eq!(pitch_stride(4, 2), Ok(Some(stride(8, true))));
    assert_eq!(pitch_stride(i32::MIN, 2), Err(StrideError::InvalidStride));
}

#[test]
fn reported_rotations_come_first() {
    let container = Some(DisplayRotation::Clockwise270);
    assert_eq!(
        mediafoundation::display_rotation(Some(90), container),
        Ok(DisplayRotation::Clockwise90)
    );
    assert_eq!(mediafoundation::display_rotation(Some(0), container), Ok(DisplayRotation::Clockwise270));
    assert_eq!(mediafoundation::display_rotation(None, container), Ok(DisplayRotation::Clockwise270));
    assert_eq!(mediafoundation::display_rotation(None, None), Ok(DisplayRotation::Unrotated));
    assert_eq!(
        mediafoundation::display_rotation(Some(u32::MAX - 89), None),
        Ok(DisplayRotation::Clockwise270)
    );
    assert_eq!(
        mediafoundation::display_rotation(Some(91), container),
        Err(FrameError::UnsupportedRotation { degrees: 91 })
    );
}

#[test]
fn resizing_falls_back_to_software() {
    let wanted = Some((4, 2));
    assert!(matches!(
        output_plan(wanted, true, true),
        OutputPlan::Use { software_resize: None }
    ));
    assert!(matches!(output_plan(wanted, true, false), OutputPlan::AskForNative));
    assert!(matches!(
        output_plan(wanted, false, true),
        OutputPlan::Use { software_resize: Some((4, 2)) }
    ));
    assert!(matches!(output_plan(wanted, false, false), OutputPlan::Fail));
    assert!(matches!(output_plan(None, true, false), OutputPlan::Fail));
}

fn sample() -> DecodedSample {
    DecodedSample {
        is_bgra: true,
        pixels: Some(SOURCE.to_vec()),
        width: 2,
        height: 2,
        bytes_per_row: 10,
        time_value: 3,
        time_scale: 60,
    }
}

#[test]
fn native_samples_become_frames() {
    let frame = frame_from_sample(sample(), DisplayRotation::Clockwise180).unwrap();
    assert_eq!(firsts(&frame.data), vec![4, 3, 2, 1]);
    assert_eq!(frame.time, MediaTime { value: 3, timescale: 60 });
    let refused = |sample| frame_from_sample(sample, DisplayRotation::Unrotated).unwrap_err();
    assert_eq!(refused(DecodedSample { is_bgra: false, ..sample() }), ReadError::NotBgra);
    assert_eq!(refused(DecodedSample { pixels: None, ..sample() }), ReadError::NoPixelData);
    assert_eq!(
        refused(DecodedSample { time_scale: 0, ..sample() }),
        ReadError::Frame(FrameError::NonPositiveTimescale { timescale: 0 })
    );
    assert_eq!(
        refused(DecodedSample { height: 3, ..sample() }),
        ReadError::Frame(FrameError::BufferTooShort { len: 20, needed: 30 })
    );
}

#[test]
fn read_states_are_told_apart() {
    assert_eq!(has_sample(ReadStatus::Success), Ok(true));
    assert_eq!(has_sample(ReadStatus::Completed), Ok(false));
    assert_eq!(has_sample(ReadStatus::NoSample), Ok(false));
    assert_eq!(has_sample(ReadStatus::Unknown), Err(ReadError::UnknownStatus));
    assert_eq!(has_sample(ReadStatus::Cancelled), Err(ReadError::Cancelled));
    assert_eq!(has_sample(ReadStatus::Failed), Err(ReadError::Failed));
    assert_eq!(has_sample(ReadStatus::Other(7)), Err(ReadError::UnexpectedStatus(7)));
}

#[test]
fn assets_tell_rotation_and_length() {
    assert_eq!(
        avfoundation::display_rotation(RotationStatus::Degrees(-90)),
        Ok(DisplayRotation::Clockwise270)
    );
    assert_eq!(
        avfoundation::display_rotation(RotationStatus::NotFound),
        Ok(DisplayRotation::Unrotated)
    );
    assert_eq!(
        avfoundation::display_rotation(RotationStatus::Failed(4)),
        Err(RotationError::Failed(4))
    );
    assert_eq!(
        avfoundation::display_rotation(RotationStatus::Degrees(-45)),
        Err(RotationError::Unsupported {
            degrees: -45,
            error: FrameError::UnsupportedRotation { degrees: 315 }
        })
    );
    assert_eq!(asset_duration(Some((5, 2))), Some(MediaTime { value: 5, timescale: 2 }));
    assert_eq!(asset_duration(Some((5, 0))), None);
    assert_eq!(asset_duration(None), None);
    assert_eq!(native_max_dimension(Some(640)), 640);
    assert_eq!(native_max_dimension(None), 0);
}

#[test]
fn platforms_have_their_decoders() {
    assert_eq!(open_video_decoder(Platform::MacOs), Ok(MediaBackend::AvFoundation));
    assert_eq!(open_video_decoder(Platform::Windows), Ok(MediaBackend::MediaFoundation));
    assert_eq!(open_video_decoder(Platform::Other), Err(DecoderError::UnsupportedPlatform));
    assert_eq!(validate_max_dimension(Some(1)), Ok(()));
    assert_eq!(validate_max_dimension(None), Ok(()));
    assert_eq!(validate_max_dimension(Some(0)), Err(DecoderError::ZeroMaxDimension));
}
