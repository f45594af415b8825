//! A replicated growable array: an ordered sequence of characters that many
//! replicas edit independently and that converges once every replica has seen
//! the same elements, whatever the order of delivery.
//!
//! Each element is placed by its identifier alone. Identifiers are Lamport
//! timestamps ordered by (counter, sequence, replica), so the document order
//! is a pure function of the set of elements a replica holds.

pub mod clock;
pub mod laws;
pub mod node;
pub mod rga;
pub mod session;
pub mod store;
pub mod timestamp;
pub mod unique_id;

pub use clock::LamportClock;
pub use node::{Node, PROTECTED_SENTINEL, SENTINEL_END_CHAR, SENTINEL_START_CHAR};
pub use rga::{NODE_NOT_FOUND, REFERENCE_NOT_FOUND, RGA};
pub use session::{calculate_insertion_point, insert_at_position, plan_operation, RGAOperation, SessionAction};
pub use timestamp::{LamportTimestamp, OrderKey, ReplicaId};
pub use unique_id::UniqueId;
