use segmenter::decoder::nv12::{
    convert, convert_frame, convert_pixel, current_layout, ensure_progressive, same_rgb_frame,
    to_bgra, validate_aperture, Interlace, Layout, Matrix, NativeFormat, NativeMatrix,
    NominalRange, Nv12Error, HALF_WEIGHT,
};
use segmenter::decoder::surface::resize_bgra;
use segmenter::frame::{MediaTime, VideoFrame};

fn place(target: usize, target_len: usize, source_len: usize) -> (usize, u32) {
    let source = ((target as f32 + 0.5) * source_len as f32 / target_len as f32 - 0.5)
        .clamp(0.0, (source_len - 1) as f32);
    let lower = source.floor() as usize;
    (lower, (source - lower as f32).to_bits())
}

fn mix(from: f32, to: f32, amount: f32) -> f32 {
    from + (to - from) * amount
}

fn blend(tl: u8, tr: u8, bl: u8, br: u8, across: u32, down: u32) -> u8 {
    let top = mix(tl as f32, tr as f32, f32::from_bits(across));
    let bottom = mix(bl as f32, br as f32, f32::from_bits(across));
    mix(top, bottom, f32::from_bits(down)).round().clamp(0.0, 255.0) as u8
}

#[test]
fn checks_aperture_and_per_sample_interlace_flags() {
    let mut area = [0u8; 16];
    area[8..12].copy_from_slice(&8u32.to_le_bytes());
    area[12..16].copy_from_slice(&6u32.to_le_bytes());
    validate_aperture(None, &vec![area.to_vec()], 8, 6).unwrap();
    assert!(validate_aperture(None, &vec![area.to_vec()], 8, 4).is_err());
    area[0] = 1; // Even a fractional offset must not be ignored.
    assert!(validate_aperture(None, &vec![area.to_vec()], 8, 6).is_err());
    let layout = Layout {
        width: 8,
        height: 6,
        stride: 8,
        coded_height: 6,
        matrix: Matrix::Bt709,
        mixed_interlace: true,
    };
    assert!(ensure_progressive(None, layout).is_err());
    ensure_progressive(
        None,
        Layout {
            mixed_interlace: false,
            ..layout
        },
    )
    .unwrap();
    ensure_progressive(Some(0), layout).unwrap();
    assert!(ensure_progressive(Some(1), layout).is_err());
}

fn layout(width: u32, height: u32, matrix: Matrix) -> Layout {
    Layout {
        width,
        height,
        stride: (width as usize + 7) & !1,
        coded_height: (height as usize + 7) & !1,
        matrix,
        mixed_interlace: false,
    }
}

#[test]
fn fused_conversion_matches_convert_then_original_resize() {
    let time = MediaTime::new(31, 30).unwrap();
    for matrix in [Matrix::Bt601, Matrix::Bt709] {
        for (sw, sh, tw, th) in [
            (17, 13, 6, 4),
            (3, 2, 10, 8),
            (1, 5, 7, 1),
            (9, 1, 1, 7),
            (8, 6, 8, 6),
            (32, 24, 8, 6),
            (8, 6, 4, 3),
        ] {
            let layout = layout(sw, sh, matrix);
            let source: Vec<u8> = (0..layout.stride * layout.coded_height * 3 / 2)
                .map(|i| ((i * 73 + i / 7) % 256) as u8)
                .collect();
            let full = to_bgra(&source, layout, sw, sh, time, &blend, &place).unwrap();
            let actual = to_bgra(&source, layout, tw, th, time, &blend, &place).unwrap();
            let expected = resize_bgra(
                &full.data,
                sw,
                sh,
                full.bytes_per_row,
                tw,
                th,
                time,
                &blend,
                &place,
            )
            .unwrap();
            assert_eq!(
                actual.data, expected.data,
                "{matrix:?} {sw}x{sh} -> {tw}x{th}"
            );
            assert_eq!(actual.time, time);
        }
    }
}

#[test]
fn neutral_chroma_is_exact_and_opaque() {
    for y in 0..=255 {
        let gray = ((298 * (i32::from(y) - 16) + 128) >> 8).clamp(0, 255) as u8;
        assert_eq!(
            convert(y, 128, 128, [459, 55, 136, 541]),
            [gray, gray, gray, 255]
        );
    }
}

#[test]
fn rejects_invalid_layouts_and_short_buffers() {
    let valid = layout(8, 6, Matrix::Bt709);
    assert!(valid.validate(1).is_err());
    for invalid in [
        Layout { stride: 7, ..valid },
        Layout {
            coded_height: 5,
            ..valid
        },
        Layout { width: 0, ..valid },
        Layout {
            coded_height: usize::MAX - 1,
            ..valid
        },
    ] {
        assert!(invalid.validate(usize::MAX).is_err());
    }
    let source = vec![0; valid.stride * valid.coded_height * 3 / 2];
    assert!(to_bgra(
        &source,
        valid,
        0,
        1,
        MediaTime::new(0, 1).unwrap(),
        &blend,
        &place
    )
    .is_err());
}

#[test]
fn vector_rows_match_scalar_with_padding_and_tails() {
    for width in [1, 7, 8, 9, 15, 16, 17, 31, 32, 33] {
        let layout = Layout {
            width,
            height: 7,
            stride: (width as usize + 9) & !1,
            coded_height: 12,
            matrix: Matrix::Bt709,
            mixed_interlace: false,
        };
        let uv_offset = layout.stride * layout.coded_height;
        let source: Vec<u8> = (0..uv_offset * 3 / 2)
            .map(|i| ((i * 73 + i / 7) % 256) as u8)
            .collect();
        let coefficients = [459, 55, 136, 541];
        let output = convert_frame(&source, layout, uv_offset, coefficients);
        assert_eq!(output.len(), width as usize * layout.height as usize * 4);
        for y in 0..layout.height as usize {
            for x in 0..width as usize {
                let chroma = uv_offset + (y / 2) * layout.stride + (x & !1);
                assert_eq!(
                    &output[(y * width as usize + x) * 4..][..4],
                    convert(
                        source[y * layout.stride + x],
                        source[chroma],
                        source[chroma + 1],
                        coefficients
                    )
                );
                assert_eq!(
                    &output[(y * width as usize + x) * 4..][..4],
                    convert_pixel(&source, layout, uv_offset, coefficients, x, y)
                );
            }
        }
    }
}

#[test]
fn vector_conversion_matches_scalar_for_all_yuv_values() {
    let rows = Layout {
        width: 256,
        height: 1,
        stride: 256,
        coded_height: 2,
        matrix: Matrix::Bt709,
        mixed_interlace: false,
    };
    let mut source = vec![0u8; 256 * 3];
    for (at, luma) in source[..256].iter_mut().enumerate() {
        *luma = at as u8;
    }
    for coefficients in [[409, 100, 208, 516], [459, 55, 136, 541]] {
        for u in 0..=255 {
            for v in 0..=255 {
                for pair in source[512..].chunks_exact_mut(2) {
                    pair.copy_from_slice(&[u, v]);
                }
                let output = convert_frame(&source, rows, 512, coefficients);
                for (y, pixel) in output.chunks_exact(4).enumerate() {
                    assert_eq!(pixel, convert(y as u8, u, v, coefficients));
                }
            }
        }
    }
}

#[test]
fn colours_convert_by_their_matrix() {
    assert_eq!(Matrix::Bt601.coefficients(), [409, 100, 208, 516]);
    assert_eq!(Matrix::Bt709.coefficients(), [459, 55, 136, 541]);
    assert_eq!(convert(235, 128, 128, [459, 55, 136, 541]), [255, 255, 255, 255]);
    assert_eq!(convert(16, 128, 128, [459, 55, 136, 541]), [0, 0, 0, 255]);
    assert_eq!(convert(81, 90, 240, [409, 100, 208, 516]), [0, 0, 255, 255]);
    assert_eq!(convert(145, 54, 34, [409, 100, 208, 516]), [1, 255, 0, 255]);
}

#[test]
fn a_quarter_of_four_pixels_is_rounded_once() {
    let even = Layout {
        width: 2,
        height: 2,
        stride: 2,
        coded_height: 2,
        matrix: Matrix::Bt709,
        mixed_interlace: false,
    };
    let source = vec![16, 17, 18, 20, 128, 128];
    let frame =
        to_bgra(&source, even, 1, 1, MediaTime::new(0, 1).unwrap(), &blend, &place).unwrap();
    assert_eq!(frame.data, vec![0, 0, 0, 255]);
    let larger = Layout { width: 4, height: 4, stride: 4, coded_height: 4, ..even };
    let mut source: Vec<u8> = (0..16).map(|i| 16 + i * 13).collect();
    source.extend_from_slice(&[128; 8]);
    let frame =
        to_bgra(&source, larger, 2, 2, MediaTime::new(0, 1).unwrap(), &blend, &place).unwrap();
    let full =
        to_bgra(&source, larger, 4, 4, MediaTime::new(0, 1).unwrap(), &blend, &place).unwrap();
    let sum: u32 = [0, 4, 16, 20].iter().map(|&at| full.data[at] as u32).sum();
    assert_eq!(frame.data[0] as u32, (sum + 2) / 4);
    assert_eq!(f32::from_bits(HALF_WEIGHT), 0.5);
}

#[test]
fn pictures_are_compared_without_alpha() {
    let time = MediaTime::new(0, 1).unwrap();
    let a = VideoFrame::new_bgra(1, 1, 4, time, vec![1, 2, 3, 4]).unwrap();
    let b = VideoFrame::new_bgra(1, 1, 5, time, vec![1, 2, 3, 9, 9]).unwrap();
    let c = VideoFrame::new_bgra(1, 1, 4, time, vec![1, 2, 4, 4]).unwrap();
    let d = VideoFrame::new_bgra(1, 2, 4, time, vec![1, 2, 3, 4, 1, 2, 3, 4]).unwrap();
    assert!(same_rgb_frame(&a, &b));
    assert!(same_rgb_frame(&b, &a));
    assert!(!same_rgb_frame(&a, &c));
    assert!(!same_rgb_frame(&a, &d));
}

#[test]
fn apertures_have_their_errors() {
    assert_eq!(validate_aperture(Some(1), &vec![], 8, 6), Err(Nv12Error::PanScan));
    assert_eq!(validate_aperture(Some(0), &vec![], 8, 6), Ok(()));
    assert_eq!(
        validate_aperture(None, &vec![vec![0; 15]], 8, 6),
        Err(Nv12Error::InvalidAperture)
    );
    assert_eq!(
        validate_aperture(None, &vec![vec![0; 16]], 8, 6),
        Err(Nv12Error::NeedsCropping)
    );
}

fn native() -> NativeFormat {
    NativeFormat {
        coded_width: 16,
        coded_height: 16,
        is_nv12: true,
        interlace: Some(Interlace::Progressive),
        range: Some(NominalRange::Limited),
        matrix: Some(NativeMatrix::Bt709),
        stride: Some(16),
        pan_scan: None,
        apertures: Vec::new(),
    }
}

#[test]
fn native_formats_give_layouts() {
    let layout = current_layout(&native(), 16, 16).unwrap();
    assert_eq!(
        layout,
        Layout {
            width: 16,
            height: 16,
            stride: 16,
            coded_height: 16,
            matrix: Matrix::Bt709,
            mixed_interlace: false
        }
    );
    assert_eq!(layout.validate(384), Ok(256));
    assert_eq!(
        layout.validate(383),
        Err(Nv12Error::BufferTooShort { len: 383, required: 384 })
    );
    let mixed = NativeFormat { interlace: Some(Interlace::MixedOrProgressive), ..native() };
    assert!(current_layout(&mixed, 16, 16).unwrap().mixed_interlace);
    assert_eq!(
        current_layout(&NativeFormat { is_nv12: false, ..native() }, 16, 16),
        Err(Nv12Error::NotNv12)
    );
    assert_eq!(
        current_layout(
            &NativeFormat { interlace: Some(Interlace::Unsupported { mode: 3 }), ..native() },
            16,
            16
        ),
        Err(Nv12Error::NotProgressive { mode: 3 })
    );
    assert_eq!(
        current_layout(
            &NativeFormat { range: Some(NominalRange::Unsupported), ..native() },
            16,
            16
        ),
        Err(Nv12Error::NotLimitedRange)
    );
    assert_eq!(
        current_layout(
            &NativeFormat { matrix: Some(NativeMatrix::Unsupported { value: 9 }), ..native() },
            16,
            16
        ),
        Err(Nv12Error::UnsupportedMatrix { value: 9 })
    );
    assert!(current_layout(&native(), 17, 16).is_err());
}

#[test]
fn converted_frames_are_opaque_at_every_size() {
    let time = MediaTime::new(1, 30).unwrap();
    let layout = layout(8, 6, Matrix::Bt709);
    let source: Vec<u8> = (0..layout.stride * layout.coded_height * 3 / 2)
        .map(|i| (i * 37 % 256) as u8)
        .collect();
    for (width, height) in [(8, 6), (4, 3), (8, 3), (5, 11), (1, 1)] {
        let frame = to_bgra(&source, layout, width, height, time, &blend, &place).unwrap();
        assert_eq!(frame.data.len(), width as usize * height as usize * 4);
        assert!(frame.data.chunks_exact(4).all(|pixel| pixel[3] == 255));
    }
}
