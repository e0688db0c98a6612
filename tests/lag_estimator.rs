use kafka_lag_register::errors::PartitionOffsetsError;
use kafka_lag_register::known_offset::KnownOffset;
use kafka_lag_register::lag_estimator::{interpolated_lag, PartitionLagEstimator};

fn estimator_with(capacity: usize, samples: &[(u64, i64)]) -> PartitionLagEstimator {
    let mut e = PartitionLagEstimator::new(capacity);
    for (offset, at) in samples {
        e.update(*offset, *at);
    }
    e
}

#[test]
fn history_never_exceeds_capacity_and_evicts_oldest_first() {
    let mut e = PartitionLagEstimator::new(3);
    for n in 0..10u64 {
        e.update(100 + n, 1_000 * n as i64);
        assert!(e.history_len() <= 3);
        assert_eq!(e.history_len(), std::cmp::min(n as usize + 1, 3));
    }
    // after ten updates, the oldest retained is the eighth to arrive
    assert_eq!(e.earliest_offset(), Ok(KnownOffset::new(107, 7_000)));
    assert_eq!(e.latest_offset(), Ok(KnownOffset::new(109, 9_000)));
}

#[test]
fn zero_capacity_keeps_nothing() {
    let e = estimator_with(0, &[(10, 1), (20, 2)]);
    assert_eq!(e.history_len(), 0);
    assert_eq!(e.capacity(), 0);
    assert_eq!(e.earliest_offset(), Err(PartitionOffsetsError::NoHistory));
}

#[test]
fn empty_estimator_reports_no_history() {
    let e = PartitionLagEstimator::new(4);
    assert_eq!(e.earliest_offset(), Err(PartitionOffsetsError::NoHistory));
    assert_eq!(e.latest_offset(), Err(PartitionOffsetsError::NoHistory));
    assert_eq!(e.estimate_offset_lag(5), Err(PartitionOffsetsError::NoHistory));
    assert_eq!(e.estimate_time_lag(5, 0), Err(PartitionOffsetsError::NoHistory));
}

#[test]
fn single_sample_is_insufficient_for_time_lag() {
    let e = estimator_with(4, &[(100, 1_000)]);
    assert_eq!(e.estimate_time_lag(50, 0), Err(PartitionOffsetsError::InsufficientHistory));
    assert_eq!(e.estimate_offset_lag(40), Ok(60));
}

#[test]
fn equal_offsets_are_degenerate() {
    let e = estimator_with(4, &[(100, 1_000), (100, 2_000)]);
    assert_eq!(e.estimate_time_lag(150, 0), Err(PartitionOffsetsError::DegenerateHistory));
    assert_eq!(e.estimate_time_lag(100, 0), Err(PartitionOffsetsError::DegenerateHistory));
}

#[test]
fn offset_lag_is_repeatable_and_zero_once_caught_up() {
    let e = estimator_with(3, &[(100, 0), (200, 10)]);
    assert_eq!(e.estimate_offset_lag(150), Ok(50));
    assert_eq!(e.estimate_offset_lag(150), e.estimate_offset_lag(150));
    assert_eq!(e.estimate_offset_lag(200), Ok(0));
    assert_eq!(e.estimate_offset_lag(u64::MAX), Ok(0));
    assert_eq!(e.estimate_offset_lag(0), Ok(200));
}

#[test]
fn exact_hits_map_to_their_sample_time() {
    let samples = [(100u64, 1_000i64), (150, 2_000), (210, 3_700), (250, 4_000)];
    let e = estimator_with(4, &samples);
    for (offset, at) in samples {
        assert_eq!(e.estimate_time_lag(offset, 0), Ok(4_000 - at));
    }
}

#[test]
fn interpolates_between_bracketing_samples() {
    let e = estimator_with(4, &[(100, 1_000), (150, 2_000), (200, 3_000), (250, 4_000)]);
    // offset 175 lies halfway between 150@2000 and 200@3000
    assert_eq!(e.estimate_time_lag(175, 9_999), Ok(1_500));
}

#[test]
fn extrapolates_below_and_above_the_recorded_range() {
    let e = estimator_with(4, &[(100, 1_000), (200, 2_000), (300, 4_000)]);
    // below: earliest pair, 10 ms per record
    assert_eq!(e.estimate_time_lag(50, 0), Ok(4_000 - 500));
    // above: latest pair puts offset 350 at 5000, ahead of the newest sample
    assert_eq!(e.estimate_time_lag(350, 0), Ok(0));
}

#[test]
fn unsorted_history_uses_first_bracketing_pair() {
    let e = estimator_with(4, &[(100, 1_000), (300, 2_000), (200, 3_000), (400, 4_000)]);
    // (100, 300) brackets 250 first: 250 is at 1750
    assert_eq!(e.estimate_time_lag(250, 0), Ok(4_000 - 1_750));
}

#[test]
fn interpolated_lag_rounds_toward_zero() {
    let s1 = KnownOffset::new(0, 0);
    let s2 = KnownOffset::new(3, 10);
    // offset 1 is at 10/3 = 3.33 ms, taken as 3
    assert_eq!(interpolated_lag(s1, s2, 10, 1), 7);
    // offset below the pair: -10/3 = -3.33 ms, taken as -3
    let s3 = KnownOffset::new(1, 0);
    let s4 = KnownOffset::new(4, 10);
    assert_eq!(interpolated_lag(s3, s4, 10, 0), 13);
}

#[test]
fn interpolated_lag_saturates() {
    let s1 = KnownOffset::new(u64::MAX - 1, i64::MIN);
    let s2 = KnownOffset::new(u64::MAX, i64::MAX);
    assert_eq!(interpolated_lag(s1, s2, i64::MAX, 0), i64::MAX);
    assert_eq!(interpolated_lag(s1, s2, i64::MIN, u64::MAX), 0);
}
