use segmenter::decoder::stride::{
    bgra_sample_stride, frame_buffer_len, infer_coded_surface_stride, pack_frame_size,
    sample_stride, unpack_frame_size, BgraSampleStride, StrideError,
};
use segmenter::decoder::surface::{
    compact_bgra, resize_bgra, resize_dimensions, sample_bgra_channel, source_channel,
    SurfaceError,
};
use segmenter::frame::MediaTime;
use segmenter::sampling::{sample_coordinates, source_coordinate, SampleCoordinate};

fn place(target: usize, target_len: usize, source_len: usize) -> (usize, u32) {
    let source = ((target as f32 + 0.5) * source_len as f32 / target_len as f32 - 0.5)
        .clamp(0.0, (source_len - 1) as f32);
    let lower = source.floor() as usize;
    (lower, (source - lower as f32).to_bits())
}

fn mix(from: f32, to: f32, amount: f32) -> f32 {
    from + (to - from) * amount
}

fn blend(tl: u8, tr: u8, bl: u8, br: u8, across: u32, down: u32) -> u8 {
    let top = mix(tl as f32, tr as f32, f32::from_bits(across));
    let bottom = mix(bl as f32, br as f32, f32::from_bits(across));
    mix(top, bottom, f32::from_bits(down)).round().clamp(0.0, 255.0) as u8
}

fn scale(length: u32, largest: u32, limit: u32) -> u32 {
    let factor = largest as f32 / limit as f32;
    (length as f32 / factor).floor().max(2.0) as u32
}

fn top_down_stride(bytes_per_row: u32) -> BgraSampleStride {
    BgraSampleStride {
        bytes_per_row,
        rows_are_top_down: true,
    }
}

#[test]
fn bgra_sample_stride_preserves_negative_direction() {
    let stride = bgra_sample_stride(-4320, 1080).unwrap();

    assert_eq!(stride.bytes_per_row, 4320);
    assert!(!stride.rows_are_top_down);
}

#[test]
fn sample_stride_uses_reported_stride_for_visible_buffer() {
    assert_eq!(
        sample_stride(1080, 1920, top_down_stride(4320), 4320 * 1920)
            .unwrap()
            .bytes_per_row,
        4320
    );
}

#[test]
fn sample_stride_infers_coded_width_padding() {
    assert_eq!(
        sample_stride(1080, 1920, top_down_stride(4320), 4352 * 1920)
            .unwrap()
            .bytes_per_row,
        4352
    );
}

#[test]
fn sample_stride_ignores_bottom_padding() {
    assert_eq!(
        sample_stride(1920, 1080, top_down_stride(7680), 7680 * 1088)
            .unwrap()
            .bytes_per_row,
        7680
    );
}

#[test]
fn sample_stride_prefers_whole_row_padding_over_width_inference() {
    assert_eq!(
        sample_stride(2000, 1000, top_down_stride(8000), 8000 * 1008)
            .unwrap()
            .bytes_per_row,
        8000
    );
}

#[test]
fn sample_stride_infers_coded_width_and_height_padding() {
    assert_eq!(
        sample_stride(108, 108, top_down_stride(432), 448 * 112)
            .unwrap()
            .bytes_per_row,
        448
    );
}

#[test]
fn sample_stride_rejects_ambiguous_padding() {
    assert!(sample_stride(108, 108, top_down_stride(432), 432 * 108 + 2).is_err());
}

#[test]
fn sample_stride_enforces_minimum_bgra_row_width() {
    assert_eq!(
        sample_stride(1080, 1920, top_down_stride(0), 4320 * 1920)
            .unwrap()
            .bytes_per_row,
        4320
    );
}

#[test]
fn compact_bgra_flips_negative_stride_to_top_down() {
    let source = vec![3, 0, 0, 255, 4, 0, 0, 255, 1, 0, 0, 255, 2, 0, 0, 255];
    let frame = compact_bgra(
        &source,
        2,
        2,
        BgraSampleStride {
            bytes_per_row: 8,
            rows_are_top_down: false,
        },
        MediaTime::new(0, 1).unwrap(),
    )
    .unwrap();

    assert_eq!(
        frame.data,
        vec![1, 0, 0, 255, 2, 0, 0, 255, 3, 0, 0, 255, 4, 0, 0, 255]
    );
}

#[test]
fn compacting_drops_padding_and_needs_every_row() {
    let source: Vec<u8> = (0..15).collect();
    let time = MediaTime::new(1, 2).unwrap();
    let frame = compact_bgra(&source, 1, 3, top_down_stride(5), time).unwrap();
    assert_eq!(frame.data, vec![0, 1, 2, 3, 5, 6, 7, 8, 10, 11, 12, 13]);
    assert_eq!(frame.bytes_per_row, 4);
    assert_eq!(
        compact_bgra(&source[..13], 1, 3, top_down_stride(5), time).unwrap_err(),
        SurfaceError::RowOutOfBounds
    );
    assert_eq!(
        compact_bgra(&source, 1 << 30, 3, top_down_stride(5), time).unwrap_err(),
        SurfaceError::CompactedRowOverflow
    );
}

#[test]
fn strides_have_their_errors() {
    assert_eq!(bgra_sample_stride(i32::MIN, 1), Err(StrideError::InvalidStride));
    assert_eq!(bgra_sample_stride(4, 1 << 30), Err(StrideError::RowWidthOverflow));
    assert_eq!(bgra_sample_stride(4, 2), Ok(top_down_stride(8)));
    assert_eq!(
        sample_stride(1 << 30, 1, top_down_stride(4), 9),
        Err(StrideError::RowWidthOverflow)
    );
    assert_eq!(
        sample_stride(108, 108, top_down_stride(432), 46_658),
        Err(StrideError::AmbiguousPadding {
            width: 108,
            height: 108,
            bytes_per_row: 432,
            buffer_len: 46_658
        })
    );
    assert_eq!(frame_buffer_len(4352, 1920), Ok(4352 * 1920));
    assert_eq!(infer_coded_surface_stride(108, 108, 432, 448 * 112), Some(448));
    assert_eq!(infer_coded_surface_stride(108, 108, 432, 46_658), None);
}

#[test]
fn packed_sizes_come_back() {
    assert_eq!(pack_frame_size(1920, 1080), (1920u64 << 32) | 1080);
    for size in [(0, 0), (1, 2), (u32::MAX, 7), (7, u32::MAX)] {
        assert_eq!(unpack_frame_size(pack_frame_size(size.0, size.1)), size);
    }
}

#[test]
fn sizes_shrink_to_even_ones() {
    assert_eq!(resize_dimensions(1920, 1080, None, &scale), None);
    assert_eq!(resize_dimensions(1920, 1080, Some(1920), &scale), None);
    assert_eq!(resize_dimensions(1920, 1080, Some(960), &scale), Some((960, 540)));
    assert_eq!(resize_dimensions(1080, 1920, Some(101), &scale), Some((56, 100)));
    assert_eq!(resize_dimensions(5000, 3, Some(10), &scale), Some((10, 2)));
}

#[test]
fn coordinates_stay_within_the_source() {
    assert_eq!(
        source_coordinate(3, 4, 1, &place),
        SampleCoordinate { lower: 0, upper: 0, weight: 0 }
    );
    assert_eq!(
        source_coordinate(0, 1, 9, &place),
        SampleCoordinate { lower: 0, upper: 0, weight: 0 }
    );
    let coordinates = sample_coordinates(4, 2, &place);
    let weights: Vec<f32> = coordinates.iter().map(|c| f32::from_bits(c.weight)).collect();
    assert_eq!(weights, vec![0.0, 0.25, 0.75, 0.0]);
    let places: Vec<(usize, usize)> = coordinates.iter().map(|c| (c.lower, c.upper)).collect();
    assert_eq!(places, vec![(0, 1), (0, 1), (0, 1), (1, 1)]);
}

#[test]
fn resizing_blends_neighbours() {
    let source = vec![0, 10, 20, 255, 100, 110, 120, 255];
    let time = MediaTime::new(3, 4).unwrap();
    let frame = resize_bgra(&source, 2, 1, 8, 4, 1, time, &blend, &place).unwrap();
    assert_eq!((frame.width, frame.height, frame.bytes_per_row), (4, 1, 16));
    assert_eq!(frame.time, time);
    assert_eq!(
        frame.data,
        vec![0, 10, 20, 255, 25, 35, 45, 255, 75, 85, 95, 255, 100, 110, 120, 255]
    );
}

#[test]
fn resizing_has_its_errors() {
    let time = MediaTime::new(3, 4).unwrap();
    assert_eq!(
        resize_bgra(&[0; 7], 2, 1, 8, 4, 1, time, &blend, &place).unwrap_err(),
        SurfaceError::OffsetOutOfBounds
    );
    assert_eq!(
        resize_bgra(&[0; 8], 2, 1, 8, 1 << 30, 1, time, &blend, &place).unwrap_err(),
        SurfaceError::ResizedRowOverflow
    );
    assert_eq!(source_channel(&[5, 6, 7, 8], 4, 0, 0, 2), Ok(7));
    assert_eq!(
        source_channel(&[5, 6, 7, 8], 4, 0, 1, 0),
        Err(SurfaceError::OffsetOutOfBounds)
    );
    assert_eq!(
        source_channel(&[5, 6, 7, 8], 4, usize::MAX, 0, 0),
        Err(SurfaceError::OffsetOverflow)
    );
    let x = SampleCoordinate { lower: 0, upper: 1, weight: 0.5f32.to_bits() };
    let y = SampleCoordinate { lower: 0, upper: 0, weight: 0 };
    assert_eq!(
        sample_bgra_channel(&[10, 0, 0, 0, 21, 0, 0, 0], 8, x, y, 0, &blend),
        Ok(16)
    );
}

#[test]
fn the_first_byte_that_is_missing_counts() {
    let far = SampleCoordinate { lower: 0, upper: usize::MAX, weight: 0 };
    let near = SampleCoordinate { lower: 0, upper: 1, weight: 0 };
    // Above on the right the offset overflows, and below on the left it is out of bounds.
    assert_eq!(
        sample_bgra_channel(&[1, 2, 3, 4], 4, far, near, 0, &blend),
        Err(SurfaceError::OffsetOverflow)
    );
    // Above on the right it is out of bounds, and below on the left it overflows.
    assert_eq!(
        sample_bgra_channel(&[1, 2, 3, 4], 4, near, far, 0, &blend),
        Err(SurfaceError::OffsetOutOfBounds)
    );
}
