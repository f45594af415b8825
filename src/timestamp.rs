//! Lamport timestamps and the total order that places every element.
use vstd::prelude::*;

verus! {

/// Identity of one participating replica, assigned out of band.
pub type ReplicaId = u64;

/// A timestamp's position in the total order: (counter, sequence, replica).
/// Tuples compare lexicographically, so this is also the key under which the
/// element store keeps an element.
pub type OrderKey = (u64, u32, u64);

/// A logical time: a counter, the replica that produced it, and a sequence
/// number that separates timestamps sharing a counter.
///
/// The fields are declared in the order in which they are compared, so the
/// derived `Ord` is the order that `key_lt` states.
#[derive(Debug, Clone, Copy, PartialEq, Eq, PartialOrd, Ord, Hash, Structural)]
pub struct LamportTimestamp {
    /// The logical clock value when this timestamp was created.
    pub counter: u64,
    /// Sequence number that breaks ties between equal counters.
    pub sequence: u32,
    /// The replica that created this timestamp.
    pub replica_id: ReplicaId,
}

/// Strict lexicographic order on order keys.
pub open spec fn key_lt(a: OrderKey, b: OrderKey) -> bool {
    a.0 < b.0 || (a.0 == b.0 && (a.1 < b.1 || (a.1 == b.1 && a.2 < b.2)))
}

/// `key_lt` is a strict total order: irreflexive, transitive and total.
pub proof fn lemma_key_order(a: OrderKey, b: OrderKey, c: OrderKey)
    ensures
        !key_lt(a, a),
        key_lt(a, b) && key_lt(b, c) ==> key_lt(a, c),
        key_lt(a, b) ==> !key_lt(b, a),
        a == b || key_lt(a, b) || key_lt(b, a),
{
}

impl LamportTimestamp {
    pub open spec fn key(self) -> OrderKey {
        (self.counter, self.sequence, self.replica_id)
    }

    /// Compares two timestamps: counter first, then sequence, then replica.
    pub fn compare(&self, other: &Self) -> (r: core::cmp::Ordering)
        ensures
            (r == core::cmp::Ordering::Less) == key_lt(self.key(), other.key()),
            (r == core::cmp::Ordering::Equal) == (*self == *other),
            (r == core::cmp::Ordering::Greater) == key_lt(other.key(), self.key()),
    {
        if self.counter != other.counter {
            if self.counter < other.counter {
                core::cmp::Ordering::Less
            } else {
                core::cmp::Ordering::Greater
            }
        } else if self.sequence != other.sequence {
            if self.sequence < other.sequence {
                core::cmp::Ordering::Less
            } else {
                core::cmp::Ordering::Greater
            }
        } else if self.replica_id < other.replica_id {
            core::cmp::Ordering::Less
        } else if self.replica_id > other.replica_id {
            core::cmp::Ordering::Greater
        } else {
            core::cmp::Ordering::Equal
        }
    }
}

} // verus!
