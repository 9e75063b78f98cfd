use half::f16;
use ndarray::{Array4, Axis};
use segmenter::frame::{FrameError, MediaTime, VideoFrame};
use segmenter::onnx::tensor::{
    alpha_to_mask_f16, alpha_to_mask_f32, direct_alpha_to_mask, exact_grid, preprocess,
    same_size_sampling_is_identity, sample_alpha, validate_alpha_shape, AlphaTensor, TensorError,
};
use segmenter::sampling::source_coordinate;

fn place(target: usize, target_len: usize, source_len: usize) -> (usize, u32) {
    let source = ((target as f32 + 0.5) * source_len as f32 / target_len as f32 - 0.5)
        .clamp(0.0, (source_len - 1) as f32);
    let lower = source.floor() as usize;
    (lower, (source - lower as f32).to_bits())
}

fn mix(from: u32, to: u32, amount: u32) -> u32 {
    let from = f32::from_bits(from);
    (from + (f32::from_bits(to) - from) * f32::from_bits(amount)).to_bits()
}

fn quantize(value: u32) -> u16 {
    let value = f32::from_bits(value);
    if value.is_finite() {
        (value.clamp(0.0, 1.0) * 255.0).round() as u16
    } else {
        256
    }
}

fn widen(half: u16) -> u32 {
    f16::from_bits(half).to_f32().to_bits()
}

fn tensor_of(array: &Array4<f32>) -> AlphaTensor {
    let shape = [
        array.shape()[0],
        array.shape()[1],
        array.shape()[2],
        array.shape()[3],
    ];
    AlphaTensor::new(shape, array.iter().map(|value| value.to_bits()).collect()).unwrap()
}

fn mask_f32(alpha: &Array4<f32>, width: u32, height: u32) -> Result<VideoFrame, TensorError> {
    let time = MediaTime::new(0, 1).unwrap();
    alpha_to_mask_f32(&tensor_of(alpha), width, height, time, &quantize, &mix, &place)
}

fn mask_f16(shape: [usize; 4], halves: &[u16], width: u32, height: u32)
    -> Result<VideoFrame, TensorError> {
    let time = MediaTime::new(0, 1).unwrap();
    alpha_to_mask_f16(shape, halves, width, height, time, &widen, &quantize, &mix, &place)
}

#[test]
fn fp32_identity_path_matches_original_at_rounding_thresholds_and_large_sizes() {
    for width in [270, 480, 720, 1920, 3840, 4097, 5002] {
        let values = (0..width * 2)
            .map(|i| {
                let threshold = ((i % 255) as f32 + 0.5) / 255.0;
                f32::from_bits(threshold.to_bits() + (i % 3) as u32 - 1)
            })
            .collect();
        let alpha = Array4::from_shape_vec([1, 1, 2, width], values).unwrap();
        let frame = mask_f32(&alpha, width as u32, 2).unwrap();
        let tensor = tensor_of(&alpha);
        for (i, pixel) in frame.data.chunks_exact(4).enumerate() {
            let reference = f32::from_bits(sample_alpha(
                &tensor,
                source_coordinate(i % width, width, width, &place),
                source_coordinate(i / width, 2, 2, &place),
                &mix,
            ));
            assert_eq!(
                pixel[0],
                (reference.clamp(0.0, 1.0) * 255.0).round() as u8,
                "width={width} pixel={i}"
            );
        }
    }
}

#[test]
fn preprocessing_preserves_every_byte_value_and_ignores_row_padding() {
    let mut frame =
        VideoFrame::new_bgra(256, 2, 1032, MediaTime::new(7, 30).unwrap(), vec![99; 2064])
            .unwrap();
    for y in 0..2 {
        for x in 0..256 {
            let p = y * 1032 + x * 4;
            frame.data[p..p + 4].copy_from_slice(&[
                x as u8,
                (255 - x) as u8,
                ((x + 113) % 256) as u8,
                255,
            ]);
        }
    }
    let halves: [f16; 256] = std::array::from_fn(|i| f16::from_f32(i as f32 / 255.0));
    let singles: [f32; 256] = std::array::from_fn(|i| i as f32 / 255.0);
    let mut fp16 = vec![f16::ZERO; 1536];
    let mut fp32 = vec![0.0; 1536];
    preprocess(&frame, &mut fp16, &halves).unwrap();
    preprocess(&frame, &mut fp32, &singles).unwrap();
    for c in 0..3 {
        for y in 0..2 {
            for x in 0..256 {
                let value = frame.data[y * 1032 + x * 4 + 2 - c] as f32 / 255.0;
                let p = c * 512 + y * 256 + x;
                assert_eq!(fp32[p].to_bits(), value.to_bits());
                assert_eq!(fp16[p].to_bits(), f16::from_f32(value).to_bits());
            }
        }
    }
    frame.data.truncate(10);
    assert!(preprocess(&frame, &mut fp16, &halves).is_err());
}

#[test]
fn fp16_mask_conversion_matches_original_for_every_finite_half() {
    let values: Vec<_> = (0..=u16::MAX)
        .map(f16::from_bits)
        .map(|v| if v.is_finite() { v } else { f16::ZERO })
        .collect();
    let halves: Vec<u16> = values.iter().map(|v| v.to_bits()).collect();
    let alpha = Array4::from_shape_vec([1, 1, 256, 256], values).unwrap();
    let singles = tensor_of(&alpha.mapv(|v| v.to_f32()));
    let result = mask_f16([1, 1, 256, 256], &halves, 256, 256).unwrap();
    for (index, pixel) in result.data.chunks_exact(4).enumerate() {
        let x = source_coordinate(index % 256, 256, 256, &place);
        let y = source_coordinate(index / 256, 256, 256, &place);
        let sampled = f32::from_bits(sample_alpha(&singles, x, y, &mix));
        let reference = (sampled.clamp(0.0, 1.0) * 255.0).round() as u8;
        assert_eq!(pixel, &[reference, reference, reference, 255]);
    }
}

#[test]
fn mask_resampling_and_noncontiguous_tensors_preserve_bilinear_values() {
    let alpha = Array4::from_shape_vec([1, 1, 2, 2], vec![0.0f32, 0.25, 0.75, 1.0]).unwrap();
    let result = mask_f32(&alpha, 4, 4).unwrap();
    assert_eq!(
        result
            .data
            .chunks_exact(4)
            .map(|p| p[0])
            .collect::<Vec<_>>(),
        vec![0, 16, 48, 64, 48, 64, 96, 112, 143, 159, 191, 207, 191, 207, 239, 255]
    );
    let mut reversed = alpha.clone();
    reversed.invert_axis(Axis(3));
    assert!(reversed.as_slice().is_none());
    let bits = alpha.iter().map(|value| value.to_bits()).collect();
    let reversed = AlphaTensor::mirrored([1, 1, 2, 2], bits).unwrap();
    let time = MediaTime::new(0, 1).unwrap();
    let result = alpha_to_mask_f32(&reversed, 2, 2, time, &quantize, &mix, &place).unwrap();
    assert_eq!(
        result
            .data
            .chunks_exact(4)
            .map(|p| p[0])
            .collect::<Vec<_>>(),
        vec![64, 0, 255, 191]
    );
}

#[test]
fn masks_reject_nonfinite_values_in_fast_and_resampled_paths() {
    for value in [f32::NAN, f32::INFINITY, f32::NEG_INFINITY] {
        let alpha = Array4::from_elem([1, 1, 2, 2], value);
        let halves: Vec<u16> = alpha.iter().map(|v| f16::from_f32(*v).to_bits()).collect();
        for size in [2, 4] {
            assert!(mask_f32(&alpha, size, size).is_err());
            assert!(mask_f16([1, 1, 2, 2], &halves, size, size).is_err());
        }
    }
}

#[test]
fn halves_are_resampled_as_singles_are() {
    let halves: Vec<u16> = [0.0, 0.25, 0.75, 1.0]
        .iter()
        .map(|v| f16::from_f32(*v).to_bits())
        .collect();
    let result = mask_f16([1, 1, 2, 2], &halves, 4, 4).unwrap();
    assert_eq!(
        result.data.chunks_exact(4).map(|p| p[0]).collect::<Vec<_>>(),
        vec![0, 16, 48, 64, 48, 64, 96, 112, 143, 159, 191, 207, 191, 207, 239, 255]
    );
}

#[test]
fn a_tensor_needs_as_many_values_as_its_shape_says() {
    assert!(AlphaTensor::new([1, 1, 2, 2], vec![0; 4]).is_some());
    assert!(AlphaTensor::new([1, 1, 2, 2], vec![0; 3]).is_none());
    assert!(AlphaTensor::new([1, 1, 2, 2], vec![0; 5]).is_none());
}

#[test]
fn shapes_that_are_no_masks_are_refused() {
    assert_eq!(validate_alpha_shape(&[1, 1, 2, 3]), Ok(()));
    for shape in [
        vec![1, 1, 2],
        vec![2, 1, 2, 3],
        vec![1, 2, 2, 3],
        vec![1, 1, 0, 3],
        vec![1, 1, 2, 0],
    ] {
        assert_eq!(validate_alpha_shape(&shape), Err(TensorError::InvalidAlphaShape));
    }
    let wide = Array4::from_elem([1, 2, 2, 2], 0.5f32);
    assert_eq!(mask_f32(&wide, 2, 2).unwrap_err(), TensorError::InvalidAlphaShape);
}

#[test]
fn masks_have_their_errors() {
    let time = MediaTime::new(0, 1).unwrap();
    assert_eq!(
        direct_alpha_to_mask(&[0, 255], 2, 1, time).unwrap().data,
        vec![0, 0, 0, 255, 255, 255, 255, 255]
    );
    assert_eq!(
        direct_alpha_to_mask(&[0, 256], 2, 1, time).unwrap_err(),
        TensorError::NonFinite
    );
    assert_eq!(
        direct_alpha_to_mask(&[0], 1 << 30, 1, time).unwrap_err(),
        TensorError::MaskRowOverflow
    );
    let frame = VideoFrame::new_bgra(1, 1, 4, time, vec![1, 2, 3, 4]).unwrap();
    let table: [u32; 256] = std::array::from_fn(|i| i as u32 + 1000);
    let mut planes = [0; 3];
    preprocess(&frame, &mut planes, &table).unwrap();
    assert_eq!(planes, [1003, 1002, 1001]);
    assert_eq!(
        preprocess(&frame, &mut [0; 4], &table),
        Err(TensorError::InputSizeMismatch)
    );
    let mut short = frame;
    short.data.truncate(3);
    assert_eq!(
        preprocess(&short, &mut [0; 3], &table),
        Err(TensorError::Frame(FrameError::BufferTooShort { len: 3, needed: 4 }))
    );
}

#[test]
fn grids_of_equal_length_are_mostly_exact() {
    assert!(exact_grid(1, &place));
    assert!(exact_grid(2048, &place));
    assert!(exact_grid(4096, &place));
    assert_eq!(
        exact_grid(4097, &place),
        (0..4097).all(|i| place(i, 4097, 4097) == (i, 0))
    );
    assert!(same_size_sampling_is_identity(&[1, 1, 6, 8], 8, 6, &place));
    assert!(!same_size_sampling_is_identity(&[1, 1, 6, 8], 6, 8, &place));
}

#[test]
fn mirrored_tensors_sample_as_what_they_show() {
    let values: Vec<u32> = (0..12).map(|i| (i as f32 / 11.0).to_bits()).collect();
    let shown: Vec<u32> = values.chunks_exact(4).flat_map(|row| row.iter().rev().copied()).collect();
    let mirrored = AlphaTensor::mirrored([1, 1, 3, 4], values.clone()).unwrap();
    let straight = AlphaTensor::new([1, 1, 3, 4], shown).unwrap();
    let time = MediaTime::new(0, 1).unwrap();
    for (width, height) in [(4, 3), (8, 6), (3, 5), (1, 1)] {
        let mask = |tensor: &AlphaTensor| {
            alpha_to_mask_f32(tensor, width, height, time, &quantize, &mix, &place).unwrap().data
        };
        assert_eq!(mask(&mirrored), mask(&straight));
    }
    assert!(AlphaTensor::mirrored([1, 1, 3, 4], values[1..].to_vec()).is_none());
    let columns = AlphaTensor::mirrored([1, 1, 12, 1], values).unwrap();
    let mask = alpha_to_mask_f32(&columns, 1, 12, time, &quantize, &mix, &place).unwrap();
    assert_eq!((mask.data[0], mask.data[44]), (0, 255));
}

#[test]
fn halves_are_shown_as_the_nearest_byte() {
    let byte = |half: u16| -> u16 {
        let (exponent, fraction) = (half >> 10 & 31, u64::from(half & 0x3ff));
        let magnitude = match exponent {
            0 => fraction,
            _ => (0x400 + fraction) << (exponent - 1),
        };
        match (exponent, half >> 15) {
            (31, _) => 256,
            (_, 1) => 0,
            _ => ((magnitude * 510 + (1 << 24)) / (1 << 25)).min(255) as u16,
        }
    };
    for half in 0..=u16::MAX {
        assert_eq!(quantize(widen(half)), byte(half), "{half:#06x}");
    }
    let finite: Vec<u16> = (0..=u16::MAX).map(|half| if byte(half) > 255 { 0 } else { half }).collect();
    let frame = mask_f16([1, 1, 256, 256], &finite, 256, 256).unwrap();
    for (half, pixel) in finite.iter().zip(frame.data.chunks_exact(4)) {
        let shade = byte(*half) as u8;
        assert_eq!(pixel, &[shade, shade, shade, 255]);
    }
    for half in [0x7c00, 0xfc00, 0x7e00] {
        assert_eq!(
            mask_f16([1, 1, 1, 2], &[0, half], 2, 1).unwrap_err(),
            TensorError::NonFinite
        );
    }
}
