use segmenter::frame::{
    validate_bgra_buffer, DisplayRotation, FrameError, MediaTime, PixelFormat, VideoFrame,
};

fn test_frame() -> VideoFrame {
    let pixels = vec![
        [1, 0, 0, 255],
        [2, 0, 0, 255],
        [3, 0, 0, 255],
        [4, 0, 0, 255],
        [5, 0, 0, 255],
        [6, 0, 0, 255],
    ];
    VideoFrame::new_bgra(
        3,
        2,
        12,
        MediaTime::new(0, 1).unwrap(),
        pixels.into_iter().flatten().collect(),
    )
    .unwrap()
}

fn first_channel(frame: &VideoFrame) -> Vec<u8> {
    let mut values = Vec::new();
    for y in 0..frame.height {
        for x in 0..frame.width {
            values.push(frame.data[frame.checked_pixel_offset(x, y).unwrap()]);
        }
    }
    values
}

#[test]
fn rotates_bgra_clockwise_90() {
    let frame = test_frame().rotated(DisplayRotation::Clockwise90).unwrap();

    assert_eq!((frame.width, frame.height), (2, 3));
    assert_eq!(first_channel(&frame), vec![4, 1, 5, 2, 6, 3]);
}

#[test]
fn rotates_bgra_clockwise_180() {
    let frame = test_frame().rotated(DisplayRotation::Clockwise180).unwrap();

    assert_eq!((frame.width, frame.height), (3, 2));
    assert_eq!(first_channel(&frame), vec![6, 5, 4, 3, 2, 1]);
}

#[test]
fn rotates_bgra_clockwise_270() {
    let frame = test_frame().rotated(DisplayRotation::Clockwise270).unwrap();

    assert_eq!((frame.width, frame.height), (2, 3));
    assert_eq!(first_channel(&frame), vec![3, 6, 2, 5, 1, 4]);
}

#[test]
fn an_unrotated_frame_keeps_its_padding() {
    let frame =
        VideoFrame::new_bgra(1, 2, 6, MediaTime::new(4, 5).unwrap(), (0..13).collect()).unwrap();
    let same = frame.clone().rotated(DisplayRotation::Unrotated).unwrap();
    assert_eq!(same.data, frame.data);
    assert_eq!(same.bytes_per_row, 6);
    assert_eq!(same.time, MediaTime { value: 4, timescale: 5 });
}

#[test]
fn rotation_reads_past_row_padding() {
    let mut data = vec![9u8; 10 * 2];
    data[0..8].copy_from_slice(&[1, 2, 3, 4, 5, 6, 7, 8]);
    data[10..18].copy_from_slice(&[11, 12, 13, 14, 15, 16, 17, 18]);
    let frame = VideoFrame::new_bgra(2, 2, 10, MediaTime::new(0, 1).unwrap(), data).unwrap();
    let turned = frame.rotated(DisplayRotation::Clockwise90).unwrap();
    assert_eq!(turned.bytes_per_row, 8);
    assert_eq!(
        turned.data,
        vec![11, 12, 13, 14, 1, 2, 3, 4, 15, 16, 17, 18, 5, 6, 7, 8]
    );
}

#[test]
fn quarter_turns_add_up() {
    let once = test_frame().rotated(DisplayRotation::Clockwise90).unwrap();
    let twice = once.clone().rotated(DisplayRotation::Clockwise90).unwrap();
    let half = test_frame().rotated(DisplayRotation::Clockwise180).unwrap();
    assert_eq!(twice.data, half.data);
    let back = once.rotated(DisplayRotation::Clockwise270).unwrap();
    assert_eq!(back.data, test_frame().data);
    let three = twice.rotated(DisplayRotation::Clockwise90).unwrap();
    let direct = test_frame().rotated(DisplayRotation::Clockwise270).unwrap();
    assert_eq!(three.data, direct.data);
}

#[test]
fn degrees_are_taken_round_the_circle() {
    for (degrees, rotation) in [
        (0, DisplayRotation::Unrotated),
        (360, DisplayRotation::Unrotated),
        (90, DisplayRotation::Clockwise90),
        (450, DisplayRotation::Clockwise90),
        (-90, DisplayRotation::Clockwise270),
        (-270, DisplayRotation::Clockwise90),
        (180, DisplayRotation::Clockwise180),
        (-180, DisplayRotation::Clockwise180),
        (270, DisplayRotation::Clockwise270),
        (2147483520, DisplayRotation::Unrotated),
    ] {
        assert_eq!(DisplayRotation::from_clockwise_degrees(degrees), Ok(rotation));
    }
    for (degrees, rest) in [(1, 1), (-1, 359), (45, 45), (361, 1), (i32::MIN, 232)] {
        assert_eq!(
            DisplayRotation::from_clockwise_degrees(degrees),
            Err(FrameError::UnsupportedRotation { degrees: rest })
        );
    }
}

#[test]
fn a_rotation_names_sizes_and_sources() {
    assert_eq!(DisplayRotation::Clockwise90.output_dimensions(7, 3), (3, 7));
    assert_eq!(DisplayRotation::Clockwise180.output_dimensions(7, 3), (7, 3));
    assert_eq!(DisplayRotation::Clockwise270.output_dimensions(7, 3), (3, 7));
    assert_eq!(DisplayRotation::Unrotated.output_dimensions(7, 3), (7, 3));
    assert_eq!(DisplayRotation::Clockwise90.source_coordinate(2, 6, 7, 3), (6, 0));
    assert_eq!(DisplayRotation::Clockwise180.source_coordinate(0, 0, 7, 3), (6, 2));
    assert_eq!(DisplayRotation::Clockwise270.source_coordinate(2, 6, 7, 3), (0, 2));
    assert_eq!(DisplayRotation::Unrotated.source_coordinate(5, 2, 7, 3), (5, 2));
}

#[test]
fn a_time_needs_a_positive_timescale() {
    assert_eq!(MediaTime::new(-3, 1), Ok(MediaTime { value: -3, timescale: 1 }));
    assert_eq!(
        MediaTime::new(3, 0),
        Err(FrameError::NonPositiveTimescale { timescale: 0 })
    );
    assert_eq!(
        MediaTime::new(3, -7),
        Err(FrameError::NonPositiveTimescale { timescale: -7 })
    );
}

#[test]
fn buffers_are_checked_in_order() {
    assert_eq!(validate_bgra_buffer(2, 3, 8, 24), Ok(()));
    assert_eq!(validate_bgra_buffer(2, 3, 9, 27), Ok(()));
    assert_eq!(
        validate_bgra_buffer(0, 3, 8, 24),
        Err(FrameError::ZeroDimensions { width: 0, height: 3 })
    );
    assert_eq!(
        validate_bgra_buffer(2, 0, 8, 24),
        Err(FrameError::ZeroDimensions { width: 2, height: 0 })
    );
    assert_eq!(
        validate_bgra_buffer(1 << 30, 1, u32::MAX, 24),
        Err(FrameError::RowWidthOverflow)
    );
    assert_eq!(
        validate_bgra_buffer(2, 3, 7, 24),
        Err(FrameError::RowTooShort { bytes_per_row: 7, minimum: 8 })
    );
    assert_eq!(
        validate_bgra_buffer(2, 3, 8, 23),
        Err(FrameError::BufferTooShort { len: 23, needed: 24 })
    );
    assert_eq!(
        validate_bgra_buffer(1, u32::MAX, u32::MAX, 5),
        Err(FrameError::BufferTooShort { len: 5, needed: u32::MAX as u64 * u32::MAX as u64 })
    );
}

#[test]
fn frames_keep_what_they_are_made_of() {
    let time = MediaTime::new(9, 10).unwrap();
    let frame = VideoFrame::new_bgra(1, 1, 4, time, vec![1, 2, 3, 4, 5]).unwrap();
    assert_eq!((frame.width, frame.height, frame.bytes_per_row), (1, 1, 4));
    assert_eq!(frame.format, PixelFormat::Bgra);
    assert_eq!(frame.time, time);
    assert_eq!(frame.data, vec![1, 2, 3, 4, 5]);
    assert_eq!(
        VideoFrame::new_bgra(1, 1, 4, time, vec![1, 2, 3]).unwrap_err(),
        FrameError::BufferTooShort { len: 3, needed: 4 }
    );
}

#[test]
fn pixels_outside_are_refused() {
    let mut frame = test_frame();
    assert_eq!(frame.checked_pixel_offset(2, 1), Ok(20));
    assert_eq!(
        frame.checked_pixel_offset(3, 1),
        Err(FrameError::OutsideFrame { x: 3, y: 1, width: 3, height: 2 })
    );
    assert_eq!(
        frame.checked_pixel_offset(0, 2),
        Err(FrameError::OutsideFrame { x: 0, y: 2, width: 3, height: 2 })
    );
    frame.data.truncate(23);
    assert_eq!(
        frame.checked_pixel_offset(2, 1),
        Err(FrameError::PixelOutsideData { x: 2, y: 1, offset: 20, len: 23 })
    );
    assert_eq!(
        frame.clone().rotated(DisplayRotation::Clockwise180).unwrap_err(),
        FrameError::PixelOutsideData { x: 2, y: 1, offset: 20, len: 23 }
    );
    frame.width = u32::MAX;
    assert_eq!(
        frame.rotated(DisplayRotation::Clockwise180).unwrap_err(),
        FrameError::RotatedRowOverflow
    );
}
