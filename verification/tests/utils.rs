use std::time::Duration;

use rawedio::utils::{
    checked_duration_to_num_frames, checked_duration_to_num_samples, convert_num_frames, convert_num_samples,
    duration_to_num_frames, duration_to_num_samples,
};

#[test]
fn test_convert_num_samples() {
    assert_eq!(convert_num_samples(1000, 2, 44100, 2, 44100), 1000);
    assert_eq!(convert_num_samples(1000, 2, 44100, 2, 22050), 500);
    assert_eq!(convert_num_samples(1000, 2, 22050, 2, 44100), 2000);
    assert_eq!(convert_num_samples(1000, 2, 44100, 1, 44100), 500);
    // Truncates fractional samples
    assert_eq!(convert_num_samples(4, 1, 44100, 100, 1), 0);
}

#[test]
fn test_duration_to_num_samples() {
    assert_eq!(
        duration_to_num_samples(Duration::from_millis(1_000), 1, 44100),
        44100
    );
    assert_eq!(
        duration_to_num_samples(Duration::from_millis(1), 1, 44100),
        44
    );
    assert_eq!(
        duration_to_num_samples(Duration::from_millis(10), 1, 44100),
        441
    );
    // 277 hours
    assert_eq!(
        duration_to_num_samples(Duration::from_secs(1_000_000), 6, 44100),
        264_600_000_000
    );
}

#[test]
fn convert_num_frames_scales_and_truncates() {
    assert_eq!(convert_num_frames(1000, 44100, 22050), 500);
    assert_eq!(convert_num_frames(3, 2, 1), 1);
}

#[test]
fn duration_to_num_frames_counts_whole_frames() {
    assert_eq!(duration_to_num_frames(Duration::from_millis(10), 44100), 441);
    // Sub-microsecond parts are dropped.
    assert_eq!(duration_to_num_frames(Duration::from_nanos(999), 1_000_000), 0);
    assert_eq!(duration_to_num_frames(Duration::from_nanos(1_999), 1_000_000), 1);
}

#[test]
fn convert_round_trip_never_gains_samples() {
    let there = convert_num_samples(1001, 2, 44100, 1, 22050);
    let back = convert_num_samples(there, 1, 22050, 2, 44100);
    assert!(back <= 1001);
    assert_eq!(back, 1000);
}

#[test]
fn checked_conversions_refuse_overflow() {
    assert_eq!(checked_duration_to_num_samples(Duration::from_secs(1), 2, 1000), Some(2000));
    assert_eq!(checked_duration_to_num_samples(Duration::from_secs(u64::MAX), 2, 48000), None);
    assert_eq!(checked_duration_to_num_frames(Duration::from_secs(2), 1000), Some(2000));
    assert_eq!(checked_duration_to_num_frames(Duration::from_secs(u64::MAX), 48000), None);
}

#[test]
fn convert_num_samples_bounded_by_old_factors() {
    assert_eq!(convert_num_samples(1 << 20, 256, u32::MAX, u16::MAX, u32::MAX), 268_431_360);
}
