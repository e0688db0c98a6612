use kafka_lag_register::errors::PartitionOffsetsError;
use kafka_lag_register::kafka_types::{PartitionOffset, TopicPartition};
use kafka_lag_register::known_offset::KnownOffset;
use kafka_lag_register::register::{PartitionOffsetsRegister, RegisterUsage};

const T0: i64 = 1_700_000_000_000;
const T1: i64 = T0 + 1_000;
const T2: i64 = T0 + 2_000;
const T3: i64 = T0 + 3_000;

fn observation(topic: &str, partition: u32, latest_offset: u64, read_at_ms: i64) -> PartitionOffset {
    PartitionOffset { topic: topic.to_string(), partition, latest_offset, read_at_ms }
}

fn tp(topic: &str, partition: u32) -> TopicPartition {
    TopicPartition::new(topic.to_string(), partition)
}

fn four_updates() -> PartitionOffsetsRegister {
    let mut r = PartitionOffsetsRegister::new(3);
    for (o, t) in [(100, T0), (150, T1), (200, T2), (250, T3)] {
        r.apply(observation("t", 0, o, t));
    }
    r
}

#[test]
fn fifo_history_and_offset_lag() {
    let r = four_updates();
    let k = tp("t", 0);
    assert_eq!(r.get_earliest_offset(&k), Ok(KnownOffset::new(150, T1)));
    assert_eq!(r.get_latest_offset(&k), Ok(KnownOffset::new(250, T3)));
    let usage = r.get_usage();
    assert_eq!(usage.total_len, 3);
    assert_eq!(r.estimate_offset_lag(&k, 180), Ok(70));
    assert_eq!(r.estimate_offset_lag(&k, 300), Ok(0));
}

#[test]
fn time_lag_interpolates_to_midpoint() {
    let r = four_updates();
    let midpoint = (T1 + T2) / 2;
    assert_eq!(r.estimate_time_lag(&tp("t", 0), 175, T3), Ok(T3 - midpoint));
}

#[test]
fn empty_register_usage_is_zero() {
    let r = PartitionOffsetsRegister::new(5);
    assert_eq!(
        r.get_usage(),
        RegisterUsage { min_len: 0, max_len: 0, total_len: 0, count: 0, capacity: 5 }
    );
}

#[test]
fn usage_spans_all_partitions() {
    let mut r = PartitionOffsetsRegister::new(4);
    r.apply(observation("a", 0, 1, T0));
    for n in 0..6u64 {
        r.apply(observation("a", 1, n, T0 + n as i64));
    }
    r.apply(observation("b", 0, 1, T0));
    r.apply(observation("b", 0, 2, T1));
    assert_eq!(
        r.get_usage(),
        RegisterUsage { min_len: 1, max_len: 4, total_len: 7, count: 3, capacity: 4 }
    );
    assert_eq!(r.offsets_history(), 4);
}

#[test]
fn unknown_partition_is_not_found_and_not_created() {
    let mut r = PartitionOffsetsRegister::new(3);
    r.apply(observation("t", 0, 10, T0));
    let missing = tp("t", 1);
    let expected = PartitionOffsetsError::LagEstimatorNotFound("t".to_string(), 1);
    assert_eq!(r.estimate_offset_lag(&missing, 1), Err(expected.clone()));
    assert_eq!(r.estimate_time_lag(&missing, 1, T0), Err(expected.clone()));
    assert_eq!(r.get_earliest_offset(&missing), Err(expected.clone()));
    assert_eq!(r.get_latest_offset(&missing), Err(expected));
    let other_topic = tp("u", 0);
    assert_eq!(
        r.get_latest_offset(&other_topic),
        Err(PartitionOffsetsError::LagEstimatorNotFound("u".to_string(), 0))
    );
    assert_eq!(r.get_usage().count, 1);
}

#[test]
fn partitions_are_kept_apart() {
    let mut r = PartitionOffsetsRegister::new(3);
    r.apply(observation("t", 0, 10, T0));
    r.apply(observation("t", 1, 500, T0));
    r.apply(observation("t", 0, 20, T1));
    assert_eq!(r.get_latest_offset(&tp("t", 0)), Ok(KnownOffset::new(20, T1)));
    assert_eq!(r.get_latest_offset(&tp("t", 1)), Ok(KnownOffset::new(500, T0)));
    assert_eq!(
        r.estimate_time_lag(&tp("t", 1), 400, T0),
        Err(PartitionOffsetsError::InsufficientHistory)
    );
    assert_eq!(r.get_usage().count, 2);
}

#[test]
fn closed_channel_ends_ingestion_and_keeps_data() {
    let mut r = PartitionOffsetsRegister::new(3);
    assert!(r.receive(Some(observation("t", 0, 42, T0))));
    assert!(!r.receive(None));
    assert_eq!(r.get_latest_offset(&tp("t", 0)), Ok(KnownOffset::new(42, T0)));
    assert_eq!(r.estimate_offset_lag(&tp("t", 0), 40), Ok(2));
}

#[test]
fn topic_partition_identity() {
    let a = tp("orders", 3);
    assert!(a.same_as(&tp("orders", 3)));
    assert!(!a.same_as(&tp("orders", 4)));
    assert!(!a.same_as(&tp("order", 3)));
    assert_eq!(a.duplicate(), a);
}
