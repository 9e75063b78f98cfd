use segmenter::engine::{
    create_engine, detect_model_format, engine_label_for_model, mask_layout, EngineError,
    EngineFeatures, MaskError, MaskLayout, ModelFormat,
};
use segmenter::frame::{FrameError, MediaTime, VideoFrame};
use segmenter::onnx::session::{
    after_build, input_len, model_precision, session_step, tensor_type, validate_io_names,
    BuildStep, ElementType, LookupError, Port, RvmPrecision, SessionError, SessionStep,
};
use segmenter::path::{
    has_mp4_boxes, native_path, validate_output_extension, validate_video_path, writer_container,
    NativePathError, OutputError, PathError, VideoContainer,
};
use segmenter::platform::Platform;
use segmenter::progress::{ProgressReport, ProgressReporter, PROGRESS_INTERVAL_NANOS};

#[test]
fn detects_rvm_metal_from_magic_header() {
    assert_eq!(detect_model_format(b"RVMMETAL\x02\0\0\0"), ModelFormat::RvmMetal);
}

#[test]
fn treats_non_metal_files_as_onnx() {
    assert_eq!(detect_model_format(b"\x08\x06\x12\x07pytorch"), ModelFormat::Onnx);
}

#[test]
fn treats_short_files_as_onnx() {
    assert_eq!(detect_model_format(b"RVM"), ModelFormat::Onnx);
}

#[test]
fn labels_name_the_engine() {
    assert_eq!(engine_label_for_model(b"RVMMETAL"), "Metal");
    assert_eq!(engine_label_for_model(b"RVMMETA"), "ONNX");
}

#[test]
fn engines_depend_on_features_and_platform() {
    let nothing = EngineFeatures { onnx: false, metal: false, windows_default_onnx: false };
    assert_eq!(
        create_engine(ModelFormat::Onnx, Platform::MacOs, nothing),
        Err(EngineError::OnnxNotEnabled)
    );
    assert_eq!(
        create_engine(ModelFormat::RvmMetal, Platform::MacOs, nothing),
        Err(EngineError::MetalNotEnabled)
    );
    assert_eq!(
        create_engine(ModelFormat::RvmMetal, Platform::Windows, nothing),
        Err(EngineError::MetalOnlyOnMacOs)
    );
    let all = EngineFeatures { onnx: true, metal: true, windows_default_onnx: true };
    assert_eq!(
        create_engine(ModelFormat::Onnx, Platform::MacOs, all),
        Ok(ModelFormat::Onnx)
    );
    assert_eq!(
        create_engine(ModelFormat::Onnx, Platform::Other, all),
        Err(EngineError::OnnxNotEnabled)
    );
    let usual = EngineFeatures { windows_default_onnx: true, ..nothing };
    assert_eq!(
        create_engine(ModelFormat::Onnx, Platform::Windows, usual),
        Ok(ModelFormat::Onnx)
    );
    assert_eq!(
        create_engine(ModelFormat::Onnx, Platform::MacOs, usual),
        Err(EngineError::OnnxNotEnabled)
    );
    assert_eq!(
        create_engine(ModelFormat::RvmMetal, Platform::MacOs, all),
        Ok(ModelFormat::RvmMetal)
    );
}

#[test]
fn masks_are_compact() {
    let time = MediaTime::new(0, 1).unwrap();
    let mut frame = VideoFrame::new_bgra(3, 2, 20, time, vec![0; 40]).unwrap();
    assert_eq!(mask_layout(&frame), Ok(MaskLayout { bytes_per_row: 12, len: 24 }));
    frame.data.truncate(39);
    assert_eq!(
        mask_layout(&frame),
        Err(MaskError::Frame(FrameError::BufferTooShort { len: 39, needed: 40 }))
    );
}

fn port(name: &str, element_type: Option<ElementType>) -> Port {
    Port { name: name.to_string(), element_type }
}

fn inputs() -> Vec<Port> {
    ["src", "r1i", "r2i", "r3i", "r4i", "downsample_ratio"]
        .iter()
        .map(|name| port(name, Some(ElementType::Float32)))
        .collect()
}

fn outputs() -> Vec<Port> {
    ["fgr", "pha", "r1o", "r2o", "r3o", "r4o"]
        .iter()
        .map(|name| port(name, Some(ElementType::Float32)))
        .collect()
}

#[test]
fn models_need_their_inputs_and_outputs() {
    assert_eq!(validate_io_names(&inputs(), &outputs(), true), Ok(()));
    let mut fewer = inputs();
    fewer.pop();
    assert_eq!(validate_io_names(&fewer, &outputs(), false), Ok(()));
    assert_eq!(
        validate_io_names(&fewer, &outputs(), true),
        Err(SessionError::MissingInput("downsample_ratio"))
    );
    fewer.remove(2);
    assert_eq!(
        validate_io_names(&fewer, &[], false),
        Err(SessionError::MissingInput("r2i"))
    );
    let mut sequence = inputs();
    sequence[1].element_type = None;
    assert_eq!(
        validate_io_names(&sequence, &outputs(), true),
        Err(SessionError::InputNotTensor("r1i"))
    );
    let mut given = outputs();
    given[5].element_type = None;
    assert_eq!(
        validate_io_names(&inputs(), &given, true),
        Err(SessionError::OutputNotTensor("r4o"))
    );
    given.remove(1);
    assert_eq!(
        validate_io_names(&inputs(), &given, true),
        Err(SessionError::MissingOutput("pha"))
    );
    let mut coarse = inputs();
    coarse[5].element_type = Some(ElementType::Float16);
    assert_eq!(
        validate_io_names(&coarse, &outputs(), true),
        Err(SessionError::RatioNotFloat32)
    );
    assert_eq!(validate_io_names(&coarse, &outputs(), false), Ok(()));
}

#[test]
fn the_picture_input_tells_the_precision() {
    assert_eq!(model_precision(&inputs()), Ok(RvmPrecision::Float32));
    assert_eq!(
        model_precision(&[port("src", Some(ElementType::Float16))]),
        Ok(RvmPrecision::Float16)
    );
    assert_eq!(
        model_precision(&[port("src", Some(ElementType::Other))]),
        Err(SessionError::SourceNotFloat)
    );
    assert_eq!(model_precision(&[]), Err(SessionError::MissingInput("src")));
    assert_eq!(
        model_precision(&[port("src", None)]),
        Err(SessionError::InputNotTensor("src"))
    );
    let twice = [port("a", None), port("a", Some(ElementType::Other))];
    assert_eq!(tensor_type(&twice, "a"), Err(LookupError::NotTensor));
    assert_eq!(tensor_type(&twice, "b"), Err(LookupError::Missing));
}

#[test]
fn sessions_are_built_once_and_retried_once() {
    assert_eq!(session_step(None, 4, 2), SessionStep::Initialize);
    assert_eq!(session_step(Some((4, 2)), 4, 2), SessionStep::Ready);
    assert_eq!(
        session_step(Some((4, 2)), 2, 4),
        SessionStep::Mismatch { width: 4, height: 2 }
    );
    assert_eq!(after_build(true, true, false), BuildStep::Keep);
    assert_eq!(after_build(false, true, true), BuildStep::Retry);
    assert_eq!(after_build(false, false, true), BuildStep::Fail);
    assert_eq!(after_build(false, true, false), BuildStep::Fail);
    assert_eq!(input_len(480, 270), Ok(388_800));
    assert_eq!(
        input_len(u32::MAX, u32::MAX),
        Err(SessionError::InputSizeOverflow)
    );
}

#[test]
fn extensions_are_read_in_any_case() {
    assert!(matches!(validate_video_path(Some("MP4")), Ok(VideoContainer::Mp4)));
    assert!(matches!(validate_video_path(Some("MoV")), Ok(VideoContainer::Mov)));
    assert!(matches!(validate_video_path(None), Err(PathError::NoExtension)));
    match validate_video_path(Some("AVI")) {
        Err(PathError::UnsupportedExtension(extension)) => assert_eq!(extension, "avi"),
        _ => panic!("an extension was accepted"),
    }
    assert_eq!(validate_output_extension(Some("Mp4")), Ok(()));
    assert_eq!(validate_output_extension(Some("MOV")), Err(OutputError::MovNotSupported));
    assert_eq!(
        validate_output_extension(Some("m4v")),
        Err(OutputError::UnsupportedExtension)
    );
    assert_eq!(validate_output_extension(None), Err(OutputError::UnsupportedExtension));
    assert_eq!(writer_container(Some("mov")), Ok(VideoContainer::Mov));
    assert_eq!(writer_container(None), Err(OutputError::UnsupportedExtension));
    assert!(has_mp4_boxes(Some("M4V")));
    assert!(!has_mp4_boxes(Some("avi")));
    assert!(!has_mp4_boxes(None));
}

#[test]
fn native_paths_are_padded_with_zeros() {
    let bytes = native_path("/ä".as_bytes()).unwrap();
    assert_eq!(bytes.len(), 1024);
    assert_eq!(&bytes[..4], [b'/' as i8, 0xc3u8 as i8, 0xa4u8 as i8, 0]);
    assert!(bytes[3..].iter().all(|byte| *byte == 0));
    assert_eq!(native_path(&[b'a', 0, b'b']), Err(NativePathError::InteriorNul));
    assert!(native_path(&[b'a'; 1023]).is_ok());
    assert_eq!(native_path(&[b'a'; 1024]), Err(NativePathError::TooLong));
}

fn clamp(current: f64, duration: Option<f64>) -> f64 {
    let current = current.max(0.0);
    match duration {
        Some(duration) => current.min(duration),
        None => current,
    }
}

fn same(shown: f64, target: f64) -> bool {
    (shown - target).abs() < 0.005
}

fn line(report: &ProgressReport<f64>) -> String {
    match report.duration {
        Some(duration) => format!("{:.2}/{:.2} {}", report.current, duration, report.frames),
        None => format!("{:.2}/NaN {}", report.current, report.frames),
    }
}

#[test]
fn progress_is_shown_once_a_second_and_at_the_end() {
    let mut reporter = ProgressReporter::new(Some(2.0));
    assert_eq!(line(&reporter.emit(0.0, 0, &clamp)), "0.00/2.00 0");
    assert!(reporter
        .maybe_emit(0.5, 15, PROGRESS_INTERVAL_NANOS - 1, &clamp)
        .is_none());
    let report = reporter
        .maybe_emit(2.5, 30, PROGRESS_INTERVAL_NANOS, &clamp)
        .unwrap();
    assert_eq!(line(&report), "2.00/2.00 30");
    assert!(reporter.emit_final(31, &clamp, &same).is_none());
}

#[test]
fn progress_without_a_length_ends_at_the_last_frame() {
    let mut reporter = ProgressReporter::new(None);
    assert!(reporter.emit_final(0, &clamp, &same).is_none());
    assert_eq!(line(&reporter.maybe_emit(-1.0, 1, 0, &clamp).unwrap()), "0.00/NaN 1");
    assert!(reporter.maybe_emit(3.25, 2, 0, &clamp).is_none());
    let report = reporter.emit_final(2, &clamp, &same).unwrap();
    assert_eq!(line(&report), "3.25/NaN 2");
    assert!(reporter.emit_final(2, &clamp, &same).is_none());
}
