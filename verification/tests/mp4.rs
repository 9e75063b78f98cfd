use segmenter::decoder::mp4::{
    find_video_track_timing, mdhd_timing_from_payload, media_duration, media_foundation_duration,
    media_time_from_mp4_units, next_top_level_step, read_be_i32, read_be_u32, read_be_u64,
    read_hdlr_type, read_mp4_box, read_stts_duration, read_tkhd_rotation, read_track_info,
    rotation_from_mp4_matrix, Mp4Error, Mp4Part, Mp4Step, Mp4TrackInfo, Mp4UnknownDuration,
    Mp4VideoTiming, Mp4Window, VIDE,
};
use segmenter::frame::{DisplayRotation, MediaTime};

fn same_seconds(duration: MediaTime, units: u64, timescale: u32) -> bool {
    let unknown_seconds = units as f64 / timescale as f64;
    let tolerance_seconds = 1.0_f64.max(2.0 / timescale as f64);
    (duration.value as f64 / duration.timescale as f64 - unknown_seconds).abs()
        <= tolerance_seconds
}

#[test]
fn read_mp4_box_rejects_overflowing_large_size() {
    let mut bytes = Vec::new();
    bytes.extend_from_slice(&8_u32.to_be_bytes());
    bytes.extend_from_slice(b"ftyp");
    bytes.extend_from_slice(&1_u32.to_be_bytes());
    bytes.extend_from_slice(b"free");
    bytes.extend_from_slice(&u64::MAX.to_be_bytes());
    let window = Mp4Window { base: 0, bytes: &bytes };

    let first = read_mp4_box(&window, 0, u64::MAX).unwrap().unwrap();
    assert_eq!(first.end, 8);

    assert!(read_mp4_box(&window, first.end, u64::MAX).is_err());
}

#[test]
fn mdhd_all_ones_duration_is_marked_unknown() {
    let mut payload = [0_u8; 20];
    payload[12..16].copy_from_slice(&10_240_u32.to_be_bytes());
    payload[16..20].copy_from_slice(&u32::MAX.to_be_bytes());

    let timing = mdhd_timing_from_payload(&payload).unwrap();

    assert_eq!(timing.timescale, Some(10_240));
    assert_eq!(timing.duration_units, None);
    assert_eq!(timing.unknown_duration_units, Some(u32::MAX as u64));
}

#[test]
fn mp4_timing_uses_stts_duration_when_mdhd_duration_is_unknown() {
    let track = Mp4TrackInfo {
        timescale: Some(10_240),
        unknown_mdhd_duration_units: Some(u32::MAX as u64),
        stts_duration_units: Some(10_240),
        ..Mp4TrackInfo::default()
    };

    assert_eq!(
        track.video_timing().duration,
        Some(MediaTime {
            value: 10_240,
            timescale: 10_240
        })
    );
}

#[test]
fn mp4_unknown_duration_matches_media_foundation_rounded_sentinel() {
    let timing = Mp4VideoTiming {
        timescale: Some(10_240),
        unknown_mdhd_duration: Some(Mp4UnknownDuration {
            units: u32::MAX as u64,
            timescale: 10_240,
        }),
        ..Mp4VideoTiming::default()
    };

    assert!(timing.matches_unknown_mdhd_duration(
        MediaTime {
            value: 4_194_304_000_000,
            timescale: 10_000_000,
        },
        &same_seconds
    ));
}

#[test]
fn mp4_display_matrix_rotation_matches_ffmpeg_convention() {
    assert_eq!(
        rotation_from_mp4_matrix(0, 65_536, -65_536, 0).unwrap(),
        DisplayRotation::Clockwise90
    );
    assert_eq!(
        rotation_from_mp4_matrix(0, -65_536, 65_536, 0).unwrap(),
        DisplayRotation::Clockwise270
    );
}

#[test]
fn mp4_display_matrix_rejects_skew() {
    assert!(rotation_from_mp4_matrix(65_536, 1, 0, 65_536).is_err());
}

#[test]
fn tkhd_rotation_ignores_unsupported_display_matrix() {
    let mut payload = vec![0_u8; 76];
    payload[40..44].copy_from_slice(&(-65_536_i32).to_be_bytes());
    payload[56..60].copy_from_slice(&65_536_i32.to_be_bytes());
    let window = Mp4Window { base: 0, bytes: &payload };

    assert_eq!(read_tkhd_rotation(&window, 0, 76).unwrap(), None);
}

fn mp4_box(kind: &[u8; 4], payload: &[u8]) -> Vec<u8> {
    let mut bytes = (payload.len() as u32 + 8).to_be_bytes().to_vec();
    bytes.extend_from_slice(kind);
    bytes.extend_from_slice(payload);
    bytes
}

fn tkhd(a: i32, b: i32, c: i32, d: i32) -> Vec<u8> {
    let mut payload = vec![0_u8; 84];
    for (at, value) in [(40, a), (44, b), (52, c), (56, d)] {
        payload[at..at + 4].copy_from_slice(&value.to_be_bytes());
    }
    mp4_box(b"tkhd", &payload)
}

fn mdhd(timescale: u32, duration: u32) -> Vec<u8> {
    let mut payload = vec![0_u8; 24];
    payload[12..16].copy_from_slice(&timescale.to_be_bytes());
    payload[16..20].copy_from_slice(&duration.to_be_bytes());
    mp4_box(b"mdhd", &payload)
}

fn hdlr(kind: &[u8; 4]) -> Vec<u8> {
    let mut payload = vec![0_u8; 24];
    payload[8..12].copy_from_slice(kind);
    mp4_box(b"hdlr", &payload)
}

fn stts(entries: &[(u32, u32)]) -> Vec<u8> {
    let mut payload = vec![0_u8; 4];
    payload.extend_from_slice(&(entries.len() as u32).to_be_bytes());
    for (count, delta) in entries {
        payload.extend_from_slice(&count.to_be_bytes());
        payload.extend_from_slice(&delta.to_be_bytes());
    }
    mp4_box(b"stts", &payload)
}

fn track(kind: &[u8; 4], timescale: u32, duration: u32, entries: &[(u32, u32)]) -> Vec<u8> {
    let stbl = mp4_box(b"stbl", &stts(entries));
    let minf = mp4_box(b"minf", &stbl);
    let mut mdia = mdhd(timescale, duration);
    mdia.extend_from_slice(&hdlr(kind));
    mdia.extend_from_slice(&minf);
    let mut trak = tkhd(0, 65_536, -65_536, 0);
    trak.extend_from_slice(&mp4_box(b"mdia", &mdia));
    mp4_box(b"trak", &trak)
}

#[test]
fn the_video_track_is_found_behind_others() {
    let mut moov = track(b"soun", 48_000, 96_000, &[(2, 48_000)]);
    moov.extend_from_slice(&track(b"vide", 600, 1_200, &[(30, 20), (30, 20)]));
    let movie = mp4_box(b"moov", &moov);
    let mut file = mp4_box(b"ftyp", b"isom");
    file.extend_from_slice(&movie);

    let window = Mp4Window { base: 0, bytes: &file };
    let step = next_top_level_step(&window, 0, file.len() as u64).unwrap();
    assert_eq!(step, Mp4Step::Skip { next: 12 });
    let step = next_top_level_step(&window, 12, file.len() as u64).unwrap();
    assert_eq!(step, Mp4Step::Movie { payload: 20, end: file.len() as u64 });
    assert_eq!(
        next_top_level_step(&window, file.len() as u64, file.len() as u64),
        Ok(Mp4Step::NoMovie)
    );

    let timing = find_video_track_timing(&window, 20, file.len() as u64).unwrap();
    assert_eq!(timing.timescale, Some(600));
    assert_eq!(timing.duration, Some(MediaTime { value: 1_200, timescale: 600 }));
    assert_eq!(timing.rotation, Some(DisplayRotation::Clockwise90));
    assert_eq!(timing.unknown_mdhd_duration, None);

    let later = Mp4Window { base: 12, bytes: &file[12..] };
    assert_eq!(find_video_track_timing(&later, 20, file.len() as u64), Ok(timing));
}

#[test]
fn an_unknown_length_comes_from_the_samples() {
    let trak = track(b"vide", 600, u32::MAX, &[(30, 20), (1, 7)]);
    let window = Mp4Window { base: 0, bytes: &trak };
    let info = read_track_info(&window, 8, trak.len() as u64).unwrap();
    assert_eq!(info.handler_type, Some(VIDE));
    assert_eq!(info.timescale, Some(600));
    assert_eq!(info.mdhd_duration_units, None);
    assert_eq!(info.unknown_mdhd_duration_units, Some(u32::MAX as u64));
    assert_eq!(info.stts_duration_units, Some(607));
    let timing = info.video_timing();
    assert_eq!(timing.duration, Some(MediaTime { value: 607, timescale: 600 }));
    assert_eq!(
        timing.unknown_mdhd_duration,
        Some(Mp4UnknownDuration { units: u32::MAX as u64, timescale: 600 })
    );

    let reported = media_foundation_duration(Some(71_582_788_250_000));
    assert!(timing.matches_unknown_mdhd_duration(reported.unwrap(), &same_seconds));
    assert_eq!(
        media_duration(reported, timing, &same_seconds),
        Some(MediaTime { value: 607, timescale: 600 })
    );
    let plausible = media_foundation_duration(Some(10_100_000));
    assert_eq!(media_duration(plausible, timing, &same_seconds), plausible);
    assert_eq!(media_duration(None, timing, &same_seconds), timing.duration);
    assert_eq!(media_foundation_duration(Some(0)), None);
    assert_eq!(media_foundation_duration(Some(-5)), None);
    assert_eq!(media_foundation_duration(None), None);
}

#[test]
fn bytes_are_read_with_the_highest_first() {
    assert_eq!(read_be_u32(&[1, 2, 3, 4]), 0x01020304);
    assert_eq!(read_be_i32(&[0xff, 0xff, 0, 0]), -65_536);
    assert_eq!(read_be_u64(&[1, 2, 3, 4, 5, 6, 7, 8]), 0x0102030405060708);
}

#[test]
fn boxes_with_bad_sizes_are_refused() {
    let short = [0, 0, 0, 7, b'f', b'r', b'e', b'e'];
    let window = Mp4Window { base: 0, bytes: &short };
    assert_eq!(read_mp4_box(&window, 0, 8), Err(Mp4Error::InvalidBoxSize));
    let long = [0, 0, 0, 20, b'f', b'r', b'e', b'e'];
    let window = Mp4Window { base: 0, bytes: &long };
    assert_eq!(read_mp4_box(&window, 0, 8), Err(Mp4Error::InvalidBoxSize));
    let open = [0, 0, 0, 0, b'f', b'r', b'e', b'e'];
    let window = Mp4Window { base: 0, bytes: &open };
    assert_eq!(read_mp4_box(&window, 0, 77).unwrap().unwrap().end, 77);
    assert_eq!(read_mp4_box(&window, 3, 8), Ok(None));
}

#[test]
fn headers_that_are_cut_short_are_refused() {
    assert_eq!(mdhd_timing_from_payload(&[]), Err(Mp4Error::MdhdEmpty));
    assert_eq!(mdhd_timing_from_payload(&[0; 15]), Err(Mp4Error::MdhdTooShort));
    assert_eq!(mdhd_timing_from_payload(&[0; 19]).unwrap().timescale, None);
    let mut timed = [0; 19];
    timed[15] = 1;
    assert_eq!(mdhd_timing_from_payload(&timed), Err(Mp4Error::MdhdTooShort));
    let bytes = [0u8; 40];
    let window = Mp4Window { base: 0, bytes: &bytes };
    assert_eq!(read_hdlr_type(&window, 0, 11), Err(Mp4Error::HdlrTooShort));
    assert_eq!(read_stts_duration(&window, 0, 7), Err(Mp4Error::SttsTooShort));
    assert_eq!(read_tkhd_rotation(&window, 0, 0), Err(Mp4Error::TkhdEmpty));
    assert_eq!(read_tkhd_rotation(&window, 0, 40), Err(Mp4Error::TkhdTooShort));
    let future = [9u8; 120];
    let window = Mp4Window { base: 0, bytes: &future };
    assert_eq!(
        read_tkhd_rotation(&window, 0, 120),
        Err(Mp4Error::UnsupportedTkhdVersion { version: 9 })
    );
    assert_eq!(
        read_hdlr_type(&window, 110, 140),
        Err(Mp4Error::Truncated { part: Mp4Part::HdlrPayload })
    );
    assert_eq!(
        read_stts_duration(&window, 115, 140),
        Err(Mp4Error::Truncated { part: Mp4Part::SttsHeader })
    );
    assert_eq!(
        read_tkhd_rotation(&window, 120, 220),
        Err(Mp4Error::Truncated { part: Mp4Part::TkhdVersion })
    );
}

#[test]
fn long_media_headers_are_read() {
    let mut payload = vec![0_u8; 32];
    payload[0] = 1;
    payload[20..24].copy_from_slice(&90_000_u32.to_be_bytes());
    payload[24..32].copy_from_slice(&180_000_u64.to_be_bytes());
    let timing = mdhd_timing_from_payload(&payload).unwrap();
    assert_eq!(timing.timescale, Some(90_000));
    assert_eq!(timing.duration_units, Some(180_000));
    assert_eq!(timing.unknown_duration_units, None);
    payload[24..32].copy_from_slice(&u64::MAX.to_be_bytes());
    let timing = mdhd_timing_from_payload(&payload).unwrap();
    assert_eq!(timing.duration_units, None);
    assert_eq!(timing.unknown_duration_units, Some(u64::MAX));
}

#[test]
fn display_matrices_of_right_angles_are_known() {
    assert_eq!(
        rotation_from_mp4_matrix(65_536, 0, 0, 65_536),
        Ok(DisplayRotation::Unrotated)
    );
    assert_eq!(
        rotation_from_mp4_matrix(-65_536, 0, 0, -65_536),
        Ok(DisplayRotation::Clockwise180)
    );
    assert_eq!(
        rotation_from_mp4_matrix(-65_536, 0, 0, 65_536),
        Err(Mp4Error::UnsupportedMatrix { a: -65_536, b: 0, c: 0, d: 65_536 })
    );
}

#[test]
fn sample_times_may_overflow() {
    let mut payload = vec![0_u8; 4];
    payload.extend_from_slice(&2_u32.to_be_bytes());
    for _ in 0..4 {
        payload.extend_from_slice(&u32::MAX.to_be_bytes());
    }
    let window = Mp4Window { base: 0, bytes: &payload };
    assert_eq!(
        read_stts_duration(&window, 0, payload.len() as u64),
        Err(Mp4Error::SttsDurationOverflow)
    );
}

#[test]
fn mp4_units_become_times_where_they_fit() {
    assert_eq!(
        media_time_from_mp4_units(7, 30),
        Some(MediaTime { value: 7, timescale: 30 })
    );
    assert_eq!(media_time_from_mp4_units(u64::MAX, 30), None);
    assert_eq!(media_time_from_mp4_units(7, u32::MAX), None);
    assert_eq!(media_time_from_mp4_units(7, 0), None);
}
