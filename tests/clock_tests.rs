use crdt_rga::{LamportClock, LamportTimestamp};

#[test]
fn clock_test_lamport_clock() {
    let mut clock = LamportClock::new(1);

    let ts1 = clock.tick();
    let ts2 = clock.tick();

    assert_eq!(ts1.replica_id, 1);
    assert_eq!(ts2.replica_id, 1);
    assert!(ts1 < ts2);
    assert_eq!(ts1.counter + 1, ts2.counter);
}

#[test]
fn clock_test_lamport_clock_update() {
    let mut clock = LamportClock::new(1);

    // A timestamp from further ahead.
    let future_ts = LamportTimestamp {
        counter: 100,
        replica_id: 2,
        sequence: 0,
    };

    clock.update(future_ts);
    let next_ts = clock.tick();

    assert!(next_ts.counter > future_ts.counter);
    assert_eq!(next_ts.replica_id, 1);
}

#[test]
fn test_clock_sequence_numbering() {
    let mut clock = LamportClock::new(5);

    let ts1 = clock.tick();
    let ts2 = clock.tick();

    assert_eq!(ts1.replica_id, 5);
    assert_eq!(ts2.replica_id, 5);
    assert_eq!(ts1.sequence + 1, ts2.sequence);
    assert!(ts1 < ts2);
}

#[test]
fn test_clock_replica_id() {
    let mut clock = LamportClock::new(42);
    assert_eq!(clock.replica_id(), 42);

    let ts = clock.tick();
    assert_eq!(ts.replica_id, 42);
}

#[test]
fn types_test_lamport_clock() {
    let mut clock = LamportClock::new(1);

    let ts1 = clock.tick();
    let ts2 = clock.tick();

    assert_eq!(ts1.replica_id, 1);
    assert_eq!(ts2.replica_id, 1);
    assert!(ts1 < ts2);
    assert_eq!(ts1.counter + 1, ts2.counter);
}

#[test]
fn types_test_lamport_clock_update() {
    let mut clock = LamportClock::new(1);

    let future_ts = LamportTimestamp {
        counter: 100,
        replica_id: 2,
        sequence: 0,
    };

    clock.update(future_ts);
    let next_ts = clock.tick();

    assert!(next_ts.counter > future_ts.counter);
    assert_eq!(next_ts.replica_id, 1);
}

#[test]
fn clock_starts_at_zero_and_counts_ticks() {
    let mut clock = LamportClock::new(3);
    assert_eq!(clock.current_counter(), 0);
    let ts = clock.tick();
    assert_eq!(ts.counter, 1);
    assert_eq!(ts.sequence, 0);
    assert_eq!(clock.current_counter(), 1);
}

#[test]
fn update_never_moves_the_counter_back() {
    let mut clock = LamportClock::new(1);
    clock.update(LamportTimestamp { counter: 50, sequence: 0, replica_id: 9 });
    assert_eq!(clock.current_counter(), 50);
    clock.update(LamportTimestamp { counter: 10, sequence: 0, replica_id: 9 });
    assert_eq!(clock.current_counter(), 50);
}

#[test]
fn ticks_after_observe_stay_above_observed_counter() {
    let mut clock = LamportClock::new(1);
    let seen = LamportTimestamp { counter: 7, sequence: 3, replica_id: 2 };
    clock.update(seen);
    let a = clock.tick();
    clock.update(LamportTimestamp { counter: 2, sequence: 0, replica_id: 4 });
    let b = clock.tick();
    assert!(a.counter >= seen.counter);
    assert!(b.counter >= seen.counter);
    assert_eq!(a.counter, 8);
    assert_eq!(b.counter, 9);
}

#[test]
fn snapshot_copies_the_clock() {
    let mut clock = LamportClock::new(8);
    clock.tick();
    clock.tick();
    let mut copy = clock.snapshot();
    assert_eq!(copy.current_counter(), 2);
    assert_eq!(copy.replica_id(), 8);
    let ts = copy.tick();
    assert_eq!(ts.counter, 3);
    assert_eq!(ts.sequence, 2);
}
