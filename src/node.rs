//! Elements of the array and the two sentinels that bound it.
use vstd::prelude::*;

use crate::timestamp::{key_lt, OrderKey};
use crate::unique_id::UniqueId;

verus! {

/// Payload of the element that opens every document. No ordinary insertion
/// uses it.
pub const SENTINEL_START_CHAR: char = '\u{2388}';

/// Payload of the element that closes every document.
pub const SENTINEL_END_CHAR: char = '\u{2389}';

/// Error of a delete aimed at a sentinel.
pub const PROTECTED_SENTINEL: &'static str = "Cannot delete sentinel nodes";

/// Whether a payload marks a sentinel.
pub open spec fn is_sentinel_char(c: char) -> bool {
    c == SENTINEL_START_CHAR || c == SENTINEL_END_CHAR
}

/// The order key of the start sentinel: below every other key.
pub open spec fn start_key() -> OrderKey {
    (0, 0, 0)
}

/// The order key of the end sentinel: above every other key.
pub open spec fn end_key() -> OrderKey {
    (u64::MAX, u32::MAX, u64::MAX)
}

/// Every key other than the sentinels' lies strictly between them.
pub proof fn lemma_sentinel_bounds(k: OrderKey)
    ensures
        k != start_key() ==> key_lt(start_key(), k),
        k != end_key() ==> key_lt(k, end_key()),
{
}

/// One character of the array: its identifier, its payload and its tombstone.
///
/// Two elements are equal, and are ordered, by identifier alone.
#[derive(Debug, Clone, Copy)]
pub struct Node {
    /// The identifier that places this element in the sequence.
    pub id: UniqueId,
    /// The payload.
    pub character: char,
    /// Whether the element has been logically deleted.
    pub is_deleted: bool,
}

impl Node {
    /// A sentinel is recognised by its payload.
    pub open spec fn spec_is_sentinel(self) -> bool {
        is_sentinel_char(self.character)
    }

    /// Visible elements are those that are neither tombstoned nor sentinels.
    pub open spec fn spec_is_visible(self) -> bool {
        !self.is_deleted && !self.spec_is_sentinel()
    }

    /// A live element.
    pub fn new(id: UniqueId, character: char) -> (r: Self)
        ensures
            r == (Node { id, character, is_deleted: false }),
    {
        Node { id, character, is_deleted: false }
    }

    /// A tombstone.
    pub fn new_deleted(id: UniqueId, character: char) -> (r: Self)
        ensures
            r == (Node { id, character, is_deleted: true }),
    {
        Node { id, character, is_deleted: true }
    }

    /// The start sentinel, under the smallest identifier.
    pub fn sentinel_start() -> (r: Self)
        ensures
            r.id.key() == start_key(),
            r.character == SENTINEL_START_CHAR,
            !r.is_deleted,
    {
        Node { id: UniqueId::new(0, 0), character: SENTINEL_START_CHAR, is_deleted: false }
    }

    /// The end sentinel, under the greatest identifier.
    pub fn sentinel_end() -> (r: Self)
        ensures
            r.id.key() == end_key(),
            r.character == SENTINEL_END_CHAR,
            !r.is_deleted,
    {
        Node {
            id: UniqueId::new_with_sequence(u64::MAX, u64::MAX, u32::MAX),
            character: SENTINEL_END_CHAR,
            is_deleted: false,
        }
    }

    pub fn is_sentinel(&self) -> (r: bool)
        ensures
            r == self.spec_is_sentinel(),
    {
        self.character == SENTINEL_START_CHAR || self.character == SENTINEL_END_CHAR
    }

    pub fn is_visible(&self) -> (r: bool)
        ensures
            r == self.spec_is_visible(),
    {
        !self.is_deleted && !self.is_sentinel()
    }

    /// Tombstones the element. A sentinel is refused and left unchanged.
    pub fn delete(&mut self) -> (r: Result<(), &'static str>)
        ensures
            old(self).spec_is_sentinel() ==> r == Err::<(), &'static str>(PROTECTED_SENTINEL)
                && *final(self) == *old(self),
            !old(self).spec_is_sentinel() ==> r is Ok && *final(self) == (Node {
                is_deleted: true,
                ..*old(self)
            }),
    {
        if self.is_sentinel() {
            Err(PROTECTED_SENTINEL)
        } else {
            self.is_deleted = true;
            Ok(())
        }
    }

    /// Clears the tombstone.
    pub fn undelete(&mut self)
        ensures
            *final(self) == (Node { is_deleted: false, ..*old(self) }),
    {
        self.is_deleted = false;
    }
}

impl PartialEq for Node {
    fn eq(&self, other: &Node) -> (r: bool) {
        self.id == other.id
    }
}

impl vstd::std_specs::cmp::PartialEqSpecImpl for Node {
    open spec fn obeys_eq_spec() -> bool {
        true
    }

    open spec fn eq_spec(&self, other: &Node) -> bool {
        self.id == other.id
    }
}

impl Eq for Node {}

impl PartialOrd for Node {
    fn partial_cmp(&self, other: &Node) -> (r: Option<core::cmp::Ordering>) {
        Some(self.id.0.compare(&other.id.0))
    }
}

impl vstd::std_specs::cmp::PartialOrdSpecImpl for Node {
    open spec fn obeys_partial_cmp_spec() -> bool {
        true
    }

    open spec fn partial_cmp_spec(&self, other: &Node) -> Option<core::cmp::Ordering> {
        if key_lt(self.id.key(), other.id.key()) {
            Some(core::cmp::Ordering::Less)
        } else if self.id == other.id {
            Some(core::cmp::Ordering::Equal)
        } else {
            Some(core::cmp::Ordering::Greater)
        }
    }
}

} // verus!
