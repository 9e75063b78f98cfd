use segmenter::decoder::clock::{
    rounded_div, standard_timestamp_scales, timestamp_scale_for_observed, ClockError,
    TimestampClock, TimestampScale,
};
use segmenter::frame::MediaTime;

#[test]
fn timestamp_clock_snaps_vfr_gop_drift_to_observed_video_grid() {
    let mut clock = TimestampClock::new(None);
    let timestamps_hns = [
        0, 333_333, 666_667, 1_000_000, 1_250_000, 1_583_333, 1_916_667, 2_250_000, 2_583_333,
        2_916_667, 3_333_333, 3_666_667, 39_500_000, 39_832_667,
    ];

    let mut last = MediaTime::new(0, 10_000_000).unwrap();
    for timestamp_hns in timestamps_hns {
        last = clock.media_time_from_hns(timestamp_hns).unwrap();
    }

    assert_eq!(
        last,
        MediaTime {
            value: 478,
            timescale: 120
        }
    );
}

#[test]
fn timestamp_clock_keeps_ntsc_frame_grid() {
    let mut clock = TimestampClock::new(None);
    let mut last = MediaTime::new(0, 10_000_000).unwrap();
    for frame in 0..16 {
        let frame = frame as i64;
        let timestamp_hns = ((frame * 1001 * 10_000_000) as f64 / 30_000_f64).round() as i64;
        last = clock.media_time_from_hns(timestamp_hns).unwrap();
    }

    assert_eq!(
        last,
        MediaTime {
            value: 15_015,
            timescale: 30_000
        }
    );
}

#[test]
fn timestamp_clock_prefers_observed_video_grid_over_container_grid() {
    let mut clock = TimestampClock::new(Some(15_360));
    let timestamps_hns = [
        0, 333_333, 666_667, 1_000_000, 1_250_000, 1_583_333, 1_916_667, 2_250_000, 39_832_667,
    ];

    let mut last = MediaTime::new(0, 10_000_000).unwrap();
    for timestamp_hns in timestamps_hns {
        last = clock.media_time_from_hns(timestamp_hns).unwrap();
    }

    assert_eq!(
        last,
        MediaTime {
            value: 478,
            timescale: 120
        }
    );
}

#[test]
fn timestamp_clock_uses_container_grid_for_irregular_mp4_times() {
    let mut clock = TimestampClock::new(Some(15_360));
    let timestamp_hns = 2_333_984;

    assert_eq!(
        clock.media_time_from_hns(timestamp_hns).unwrap(),
        MediaTime {
            value: 3_585,
            timescale: 15_360
        }
    );
}

#[test]
fn timestamp_clock_ignores_unrepresentable_container_timescale() {
    let mut clock = TimestampClock::new(Some(u32::MAX));

    assert_eq!(
        clock.media_time_from_hns(0).unwrap(),
        MediaTime {
            value: 0,
            timescale: 10_000_000
        }
    );
}

#[test]
fn quotients_round_half_away_from_zero() {
    assert_eq!(rounded_div(7, 2), 4);
    assert_eq!(rounded_div(-7, 2), -4);
    assert_eq!(rounded_div(6, 4), 2);
    assert_eq!(rounded_div(5, 4), 1);
    assert_eq!(rounded_div(-5, 4), -1);
    assert_eq!(rounded_div(0, 9), 0);
}

#[test]
fn scales_convert_and_fit() {
    let ntsc = TimestampScale { numerator: 30_000, denominator: 1_001 };
    assert_eq!(ntsc.timestamp_units(333_667), 1_001);
    assert!(ntsc.fits(333_667));
    assert!(!ntsc.fits(340_000));
    assert_eq!(
        ntsc.media_time_from_hns(667_333),
        Ok(MediaTime { value: 2_002, timescale: 30_000 })
    );
    let fine = TimestampScale { numerator: u32::MAX, denominator: 1 };
    assert_eq!(fine.media_time_from_hns(i64::MAX), Err(ClockError::TimestampOutOfRange));
    assert_eq!(fine.media_time_from_hns(0), Err(ClockError::TimescaleOutOfRange));
}

#[test]
fn observed_times_pick_the_first_fitting_scale() {
    let scales = standard_timestamp_scales();
    assert_eq!(scales.len(), 21);
    let film: Vec<i64> = (0..8).map(|frame| (frame * 10_000_000 + 12) / 24).collect();
    let found = timestamp_scale_for_observed(&film).unwrap();
    assert!(film.iter().all(|&time| found.fits(time)));
    let position = scales.iter().position(|scale| *scale == found).unwrap();
    for earlier in &scales[..position] {
        assert!(!film.iter().all(|&time| earlier.fits(time)));
    }
    assert_eq!(timestamp_scale_for_observed(&[]), Some(scales[0]));
    assert_eq!(
        timestamp_scale_for_observed(&[1_234_567, 7_654_321, 3_333]),
        Some(TimestampScale { numerator: 15_360, denominator: 1 })
    );
}

#[test]
fn a_clock_keeps_its_scale_and_gives_near_times() {
    let mut clock = TimestampClock::new(None);
    for frame in 0..40i64 {
        let timestamp = (frame * 10_000_000 + 12) / 25;
        let time = clock.media_time_from_hns(timestamp).unwrap();
        let back = time.value as f64 * 1e7 / time.timescale as f64;
        assert!((back - timestamp as f64).abs() <= 1_000.0);
        if frame >= 8 {
            assert!(clock.scale.is_some());
        }
    }
}

#[test]
fn a_clock_counts_in_ten_millionths_until_it_has_a_grid() {
    let mut clock = TimestampClock::new(None);
    for timestamp in [
        1_234_567, 1_239_999, 2_777_777, 3_111_111, 4_191_919, 5_151_515, 6_767_676,
    ] {
        assert_eq!(
            clock.media_time_from_hns(timestamp),
            Ok(MediaTime { value: timestamp, timescale: 10_000_000 })
        );
    }
    assert_eq!(
        clock.media_time_from_hns(7_999_123),
        Ok(MediaTime { value: 12_287, timescale: 15_360 })
    );
    assert!(!clock.disabled);
}
