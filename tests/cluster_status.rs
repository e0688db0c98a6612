use kafka_lag_register::cluster_status::{
    next_emitter_action, Broker, ClusterStatus, EmitterAction, EmitterEvent, PartitionStatus,
    TopicPartitionsStatus,
};

fn partition(id: u32) -> PartitionStatus {
    PartitionStatus {
        id,
        leader_broker: 1,
        replica_brokers: vec![1, 2],
        in_sync_replica_brokers: vec![1],
        begin_offset: 0,
        end_offset: 0,
    }
}

#[test]
fn watermarks_fill_fetched_partitions_only() {
    let mut t = TopicPartitionsStatus {
        name: "orders".to_string(),
        partitions: vec![partition(0), partition(1), partition(2)],
    };
    t.apply_watermarks(&vec![Some((5, 90)), None, Some((-1, 7))]);
    assert_eq!(t.name, "orders");
    assert_eq!((t.partitions[0].begin_offset, t.partitions[0].end_offset), (5, 90));
    assert_eq!((t.partitions[1].begin_offset, t.partitions[1].end_offset), (0, 0));
    assert_eq!((t.partitions[2].begin_offset, t.partitions[2].end_offset), (u64::MAX, 7));
    assert_eq!(t.partitions[1], partition(1));
}

#[test]
fn set_watermarks_keeps_placement() {
    let mut p = partition(4);
    p.set_watermarks(i64::MIN, i64::MAX);
    assert_eq!(p.begin_offset, 1u64 << 63);
    assert_eq!(p.end_offset, i64::MAX as u64);
    assert_eq!(p.id, 4);
    assert_eq!(p.replica_brokers, vec![1, 2]);
}

#[test]
fn emitter_decisions() {
    assert_eq!(next_emitter_action(EmitterEvent::Ticked), EmitterAction::FetchMetadata);
    assert_eq!(next_emitter_action(EmitterEvent::MetadataFetched), EmitterAction::Emit);
    assert_eq!(next_emitter_action(EmitterEvent::MetadataFailed), EmitterAction::AwaitTick);
    assert_eq!(next_emitter_action(EmitterEvent::SendSettled), EmitterAction::AwaitTick);
    assert_eq!(next_emitter_action(EmitterEvent::ShutdownRequested), EmitterAction::Stop);
}

#[test]
fn cluster_status_orders_by_topics() {
    let a = ClusterStatus {
        topics: vec![TopicPartitionsStatus { name: "a".to_string(), partitions: vec![] }],
        brokers: vec![Broker { id: 1, host: "h".to_string(), port: 9092 }],
    };
    let b = ClusterStatus {
        topics: vec![TopicPartitionsStatus { name: "b".to_string(), partitions: vec![] }],
        brokers: vec![],
    };
    assert!(a < b);
    assert_eq!(a.clone(), a);
}
