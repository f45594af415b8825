use crdt_rga::{LamportTimestamp, UniqueId};
use std::cmp::Ordering;

#[test]
fn timestamp_test_lamport_timestamp_ordering() {
    let ts1 = LamportTimestamp { counter: 1, replica_id: 1, sequence: 0 };
    let ts2 = LamportTimestamp { counter: 1, replica_id: 2, sequence: 0 };
    let ts3 = LamportTimestamp { counter: 2, replica_id: 1, sequence: 0 };
    let ts4 = LamportTimestamp { counter: 1, replica_id: 1, sequence: 1 };

    // Same counter, different replica_id
    assert!(ts1 < ts2);

    // Different counter
    assert!(ts1 < ts3);
    assert!(ts2 < ts3);

    // Same counter and replica, different sequence
    assert!(ts1 < ts4);
}

#[test]
fn timestamp_test_sequence_ordering() {
    let ts1 = LamportTimestamp { counter: 1, replica_id: 1, sequence: 0 };
    let ts2 = LamportTimestamp { counter: 1, replica_id: 1, sequence: 1 };
    let ts3 = LamportTimestamp { counter: 1, replica_id: 2, sequence: 0 };

    assert!(ts1 < ts2);
    assert!(ts1 < ts3);
    assert!(ts3 < ts2);
}

#[test]
fn types_test_lamport_timestamp_ordering() {
    let ts1 = LamportTimestamp { counter: 1, replica_id: 1, sequence: 0 };
    let ts2 = LamportTimestamp { counter: 1, replica_id: 2, sequence: 0 };
    let ts3 = LamportTimestamp { counter: 2, replica_id: 1, sequence: 0 };
    let ts4 = LamportTimestamp { counter: 1, replica_id: 1, sequence: 1 };

    assert!(ts1 < ts2);
    assert!(ts1 < ts3);
    assert!(ts2 < ts3);
    assert!(ts1 < ts4);
}

#[test]
fn types_test_sequence_ordering() {
    let id1 = UniqueId::new_with_sequence(1, 1, 0);
    let id2 = UniqueId::new_with_sequence(1, 1, 1);
    let id3 = UniqueId::new_with_sequence(1, 2, 0);

    assert!(id1 < id2);
    assert!(id1 < id3);
    assert!(id3 < id2);
}

#[test]
fn compare_agrees_with_the_derived_order() {
    let a = LamportTimestamp { counter: 1, replica_id: 9, sequence: 0 };
    let b = LamportTimestamp { counter: 1, replica_id: 1, sequence: 1 };
    let c = LamportTimestamp { counter: 2, replica_id: 0, sequence: 0 };
    assert_eq!(a.compare(&b), Ordering::Less);
    assert_eq!(b.compare(&a), Ordering::Greater);
    assert_eq!(b.compare(&c), Ordering::Less);
    assert_eq!(a.compare(&a), Ordering::Equal);
    assert_eq!(a.compare(&b), a.cmp(&b));
    assert_eq!(c.compare(&b), c.cmp(&b));
}
