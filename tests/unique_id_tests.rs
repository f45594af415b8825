use crdt_rga::{LamportTimestamp, UniqueId};

#[test]
fn unique_id_test_unique_id_creation() {
    let id = UniqueId::new(5, 10);
    assert_eq!(id.counter(), 5);
    assert_eq!(id.replica_id(), 10);
    assert_eq!(id.sequence(), 0);
}

#[test]
fn test_unique_id_with_sequence() {
    let id = UniqueId::new_with_sequence(5, 10, 3);
    assert_eq!(id.counter(), 5);
    assert_eq!(id.replica_id(), 10);
    assert_eq!(id.sequence(), 3);
}

#[test]
fn unique_id_test_unique_id_ordering() {
    let id1 = UniqueId::new(1, 1);
    let id2 = UniqueId::new(1, 2);
    let id3 = UniqueId::new(2, 1);

    assert!(id1 < id2);
    assert!(id1 < id3);
    assert!(id2 < id3);
}

#[test]
fn unique_id_test_conversion_between_types() {
    let timestamp = LamportTimestamp { counter: 42, replica_id: 7, sequence: 5 };
    let id: UniqueId = timestamp.into();
    let back_to_timestamp: LamportTimestamp = id.into();

    assert_eq!(timestamp, back_to_timestamp);
    assert_eq!(id.timestamp(), timestamp);
}

#[test]
fn unique_id_test_sequence_ordering() {
    let id1 = UniqueId::new_with_sequence(1, 1, 0);
    let id2 = UniqueId::new_with_sequence(1, 1, 1);
    let id3 = UniqueId::new_with_sequence(1, 2, 0);

    assert!(id1 < id2);
    assert!(id1 < id3);
    assert!(id3 < id2);
}

#[test]
fn types_test_unique_id_creation() {
    let id = UniqueId::new(5, 10);
    assert_eq!(id.counter(), 5);
    assert_eq!(id.replica_id(), 10);
}

#[test]
fn types_test_unique_id_ordering() {
    let id1 = UniqueId::new(1, 1);
    let id2 = UniqueId::new(1, 2);
    let id3 = UniqueId::new(2, 1);

    assert!(id1 < id2);
    assert!(id1 < id3);
    assert!(id2 < id3);
}

#[test]
fn types_test_conversion_between_types() {
    let timestamp = LamportTimestamp { counter: 42, replica_id: 7, sequence: 5 };
    let id: UniqueId = timestamp.into();
    let back_to_timestamp: LamportTimestamp = id.into();

    assert_eq!(timestamp, back_to_timestamp);
    assert_eq!(id.timestamp(), timestamp);
}

#[test]
fn order_key_lists_counter_sequence_replica() {
    let id = UniqueId::new_with_sequence(4, 9, 2);
    assert_eq!(id.order_key(), (4, 2, 9));
}
