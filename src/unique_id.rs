//! Element identifiers: the key that places an element in the document.
use vstd::prelude::*;

use crate::timestamp::{LamportTimestamp, OrderKey, ReplicaId};

verus! {

/// The identifier of one element. It is a Lamport timestamp and orders exactly
/// as the timestamp does.
#[derive(Debug, Clone, Copy, PartialEq, Eq, PartialOrd, Ord, Hash, Structural)]
pub struct UniqueId(pub LamportTimestamp);

impl UniqueId {
    pub open spec fn key(self) -> OrderKey {
        self.0.key()
    }

    /// The identifier stored under an order key.
    pub open spec fn from_key(k: OrderKey) -> UniqueId {
        UniqueId(LamportTimestamp { counter: k.0, sequence: k.1, replica_id: k.2 })
    }

    /// An identifier with sequence number zero.
    pub fn new(counter: u64, replica_id: ReplicaId) -> (r: Self)
        ensures
            r.0.counter == counter,
            r.0.replica_id == replica_id,
            r.0.sequence == 0,
    {
        UniqueId(LamportTimestamp { counter, sequence: 0, replica_id })
    }

    /// An identifier with every field given.
    pub fn new_with_sequence(counter: u64, replica_id: ReplicaId, sequence: u32) -> (r: Self)
        ensures
            r.0.counter == counter,
            r.0.replica_id == replica_id,
            r.0.sequence == sequence,
    {
        UniqueId(LamportTimestamp { counter, sequence, replica_id })
    }

    /// The key under which the element store keeps this identifier.
    pub fn order_key(&self) -> (r: OrderKey)
        ensures
            r == self.key(),
    {
        (self.0.counter, self.0.sequence, self.0.replica_id)
    }

    /// The underlying timestamp.
    pub fn timestamp(&self) -> (r: LamportTimestamp)
        ensures
            r == self.0,
    {
        self.0
    }

    pub fn counter(&self) -> (r: u64)
        ensures
            r == self.0.counter,
    {
        self.0.counter
    }

    pub fn replica_id(&self) -> (r: ReplicaId)
        ensures
            r == self.0.replica_id,
    {
        self.0.replica_id
    }

    pub fn sequence(&self) -> (r: u32)
        ensures
            r == self.0.sequence,
    {
        self.0.sequence
    }
}

impl From<LamportTimestamp> for UniqueId {
    fn from(timestamp: LamportTimestamp) -> (r: UniqueId)
        ensures
            r == UniqueId(timestamp),
    {
        UniqueId(timestamp)
    }
}

impl vstd::std_specs::convert::FromSpecImpl<LamportTimestamp> for UniqueId {
    open spec fn obeys_from_spec() -> bool {
        true
    }

    open spec fn from_spec(v: LamportTimestamp) -> UniqueId {
        UniqueId(v)
    }
}

impl From<UniqueId> for LamportTimestamp {
    fn from(id: UniqueId) -> (r: LamportTimestamp)
        ensures
            r == id.0,
    {
        id.0
    }
}

impl vstd::std_specs::convert::FromSpecImpl<UniqueId> for LamportTimestamp {
    open spec fn obeys_from_spec() -> bool {
        true
    }

    open spec fn from_spec(v: UniqueId) -> LamportTimestamp {
        v.0
    }
}

} // verus!
