//! The per-replica Lamport clock that mints identifiers for local edits.
use vstd::prelude::*;

use crate::timestamp::{LamportTimestamp, ReplicaId};

verus! {

/// The counter after observing a timestamp whose counter is `t`: the larger
/// of the two, so the clock never goes back.
pub open spec fn observed(c: u64, t: u64) -> u64 {
    if c >= t {
        c
    } else {
        t
    }
}

/// The sequence number that a tick stamps: the clock's running tick count,
/// kept to its low 32 bits.
pub open spec fn stamped_sequence(s: u64) -> u32 {
    (s % 0x1_0000_0000) as u32
}

/// A Lamport clock owned by one replica.
///
/// `tick` mints timestamps whose counters strictly increase; `update` catches
/// the counter up with a timestamp seen from elsewhere. The clock is changed
/// through `&mut self`: a replica that is shared between threads is put behind
/// a lock by its owner.
pub struct LamportClock {
    counter: u64,
    replica_id: ReplicaId,
    sequence: u64,
}

impl LamportClock {
    /// The current counter: the counter of the last minted or observed timestamp.
    pub closed spec fn counter_value(&self) -> u64 {
        self.counter
    }

    /// How many timestamps this clock has minted.
    pub closed spec fn sequence_value(&self) -> u64 {
        self.sequence
    }

    pub closed spec fn replica_value(&self) -> ReplicaId {
        self.replica_id
    }

    /// Every tick advances the counter too, so the tick count never exceeds it.
    pub closed spec fn wf(&self) -> bool {
        self.sequence <= self.counter
    }

    /// A clock at zero for the given replica.
    pub fn new(replica_id: ReplicaId) -> (r: Self)
        ensures
            r.wf(),
            r.counter_value() == 0,
            r.sequence_value() == 0,
            r.replica_value() == replica_id,
    {
        LamportClock { counter: 0, replica_id, sequence: 0 }
    }

    /// An independent clock in the same state.
    pub fn snapshot(&self) -> (r: Self)
        ensures
            r.wf() == self.wf(),
            r.counter_value() == self.counter_value(),
            r.sequence_value() == self.sequence_value(),
            r.replica_value() == self.replica_value(),
    {
        LamportClock { counter: self.counter, replica_id: self.replica_id, sequence: self.sequence }
    }

    /// Mints the next timestamp of this replica. Its counter is one past the
    /// current counter, so it is greater than every timestamp minted or
    /// observed before.
    pub fn tick(&mut self) -> (r: LamportTimestamp)
        requires
            old(self).wf(),
            old(self).counter_value() < u64::MAX,
        ensures
            final(self).wf(),
            final(self).counter_value() == old(self).counter_value() + 1,
            final(self).sequence_value() == old(self).sequence_value() + 1,
            final(self).replica_value() == old(self).replica_value(),
            r.counter == final(self).counter_value(),
            r.sequence == stamped_sequence(old(self).sequence_value()),
            r.replica_id == old(self).replica_value(),
    {
        self.counter = self.counter + 1;
        let sequence = self.sequence;
        self.sequence = self.sequence + 1;
        LamportTimestamp {
            counter: self.counter,
            sequence: (sequence % 0x1_0000_0000) as u32,
            replica_id: self.replica_id,
        }
    }

    /// Catches the counter up with a received timestamp; it never decreases.
    pub fn update(&mut self, received_timestamp: LamportTimestamp)
        requires
            old(self).wf(),
        ensures
            final(self).wf(),
            final(self).counter_value() == observed(
                old(self).counter_value(),
                received_timestamp.counter,
            ),
            final(self).sequence_value() == old(self).sequence_value(),
            final(self).replica_value() == old(self).replica_value(),
    {
        if received_timestamp.counter > self.counter {
            self.counter = received_timestamp.counter;
        }
    }

    pub fn current_counter(&self) -> (r: u64)
        ensures
            r == self.counter_value(),
    {
        self.counter
    }

    pub fn replica_id(&self) -> (r: ReplicaId)
        ensures
            r == self.replica_value(),
    {
        self.replica_id
    }
}

} // verus!
