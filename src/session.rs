//! Decisions of an editing session: which request asks for what, and where a
//! positional insertion is anchored.
use vstd::prelude::*;

use crate::node::{start_key, Node};
use crate::rga::{lemma_visible_of, node_of, shows, visible_of, RGA};
use crate::store::{lemma_listing_exists, listing};
use crate::unique_id::UniqueId;

verus! {

/// An edit request as a client sends it.
pub struct RGAOperation {
    /// What is asked for: `"insert"` or `"get_content"`.
    pub op_type: String,
    /// The character to insert.
    pub character: Option<char>,
    /// The visible position to insert at; the start when absent.
    pub position: Option<usize>,
    pub after_id: Option<String>,
    pub delete_id: Option<String>,
}

/// What a session does with a request.
#[derive(Debug, Clone, Copy, PartialEq, Eq, Structural)]
pub enum SessionAction {
    /// Insert `character` at visible position `position`, then reply with the document.
    Insert { character: char, position: usize },
    /// Reply with the document.
    SendContent,
    /// Nothing: an unknown request, or an insertion without a character.
    Ignore,
}

/// The action that a request asks for.
pub open spec fn action_for(op_type: Seq<char>, character: Option<char>, position: Option<usize>) -> SessionAction {
    if op_type == "insert"@ {
        match character {
            Some(c) => SessionAction::Insert {
                character: c,
                position: match position {
                    Some(p) => p,
                    None => 0,
                },
            },
            None => SessionAction::Ignore,
        }
    } else if op_type == "get_content"@ {
        SessionAction::SendContent
    } else {
        SessionAction::Ignore
    }
}

/// Decides what a request asks for.
pub fn plan_operation(operation: &RGAOperation) -> (r: SessionAction)
    ensures
        r == action_for(operation.op_type@, operation.character, operation.position),
{
    let insert_name = "insert".to_owned();
    let content_name = "get_content".to_owned();
    if operation.op_type == insert_name {
        match operation.character {
            Some(c) => {
                let position = match operation.position {
                    Some(p) => p,
                    None => 0,
                };
                SessionAction::Insert { character: c, position }
            },
            None => SessionAction::Ignore,
        }
    } else if operation.op_type == content_name {
        SessionAction::SendContent
    } else {
        SessionAction::Ignore
    }
}

/// The element after which an insertion at visible position `position` goes:
/// the start sentinel for position zero or an empty document, the last
/// visible element for a position at or past the end, and otherwise the
/// visible element just before the position.
pub open spec fn insertion_anchor(visible: Seq<Node>, position: int) -> UniqueId {
    if position == 0 || visible.len() == 0 {
        UniqueId::from_key(start_key())
    } else if position >= visible.len() {
        visible.last().id
    } else {
        visible[position - 1].id
    }
}

/// The element after which an insertion at visible position `position` goes.
pub fn calculate_insertion_point(rga: &RGA, position: usize) -> (r: UniqueId)
    requires
        rga.wf(),
    ensures
        r == insertion_anchor(visible_of(listing(rga@)), position as int),
{
    let visible_nodes = rga.visible_nodes();
    if position == 0 {
        rga.sentinel_start_id()
    } else if position >= visible_nodes.len() {
        if visible_nodes.len() > 0 {
            visible_nodes[visible_nodes.len() - 1].id
        } else {
            rga.sentinel_start_id()
        }
    } else {
        visible_nodes[position - 1].id
    }
}

/// Inserts `character` at visible position `position`: after the element
/// that `calculate_insertion_point` picks, which is always held, so the
/// insertion always succeeds.
pub fn insert_at_position(rga: &mut RGA, position: usize, character: char) -> (r: Result<UniqueId, &'static str>)
    requires
        old(rga).wf(),
        old(rga).clock_counter() < u64::MAX - 1,
    ensures
        final(rga).wf(),
        final(rga).replica() == old(rga).replica(),
        r matches Ok(id) && {
            &&& id.0.counter == old(rga).clock_counter() + 1
            &&& id.0.replica_id == old(rga).replica()
            &&& !old(rga)@.contains_key(id.key())
            &&& final(rga)@ == old(rga)@.insert(id.key(), (character, false))
        },
{
    let after_id = calculate_insertion_point(rga, position);
    proof {
        let s = listing(rga@);
        lemma_listing_exists(rga@);
        lemma_visible_of(s);
        let vis = visible_of(s);
        if position > 0 && vis.len() > 0 {
            let p = if position >= vis.len() {
                vis.len() - 1
            } else {
                position - 1
            };
            assert(shows(s, vis[p]));
            let j = choose|j: int| 0 <= j < s.len() && vis[p] == node_of(#[trigger] s[j]) && vis[p].spec_is_visible();
            assert(rga@.contains_key(s[j].0));
        }
    }
    rga.insert_after(after_id, character)
}

} // verus!
