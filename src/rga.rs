//! The replica engine: a clock and an element store, with local edits,
//! merging of remote elements and the read views of the document.
use vstd::prelude::*;

use crate::clock::{observed, stamped_sequence, LamportClock};
use crate::node::{
    end_key, is_sentinel_char, start_key, Node, PROTECTED_SENTINEL, SENTINEL_END_CHAR,
    SENTINEL_START_CHAR,
};
use crate::store::{
    is_listing, lemma_listing_is, listing, store_contains, store_contents, store_entries,
    store_get, store_insert, store_len, store_new, Slot, SlotMap,
};
use crate::timestamp::{key_lt, lemma_key_order, LamportTimestamp, OrderKey, ReplicaId};
use crate::unique_id::UniqueId;

verus! {

/// Error of an insertion whose anchor is not in the store.
pub const REFERENCE_NOT_FOUND: &'static str = "Reference node for insertion not found";

/// Error of a delete whose target is not in the store.
pub const NODE_NOT_FOUND: &'static str = "Node to delete not found";

/// The element that an entry of the store stands for.
pub open spec fn node_of(e: (OrderKey, Slot)) -> Node {
    Node { id: UniqueId::from_key(e.0), character: e.1.0, is_deleted: e.1.1 }
}

/// The slot under which the store keeps an element.
pub open spec fn slot_of(n: Node) -> Slot {
    (n.character, n.is_deleted)
}

/// The invariant of every store: finitely many entries, both sentinels in
/// place, live, under their own keys, and every other key strictly between them.
pub open spec fn valid_store(m: Map<OrderKey, Slot>) -> bool {
    &&& m.dom().finite()
    &&& m.contains_key(start_key())
    &&& m[start_key()] == (SENTINEL_START_CHAR, false)
    &&& m.contains_key(end_key())
    &&& m[end_key()] == (SENTINEL_END_CHAR, false)
    &&& forall|k: OrderKey|
        #[trigger] m.contains_key(k) && k != start_key() && k != end_key() ==> key_lt(
            start_key(),
            k,
        ) && key_lt(k, end_key())
}

/// The clock has counted past every element other than the end sentinel, so
/// the identifier it mints next is new to the store.
pub open spec fn clock_covers(m: Map<OrderKey, Slot>, c: u64) -> bool {
    forall|k: OrderKey| #[trigger] m.contains_key(k) && k != end_key() ==> k.0 <= c
}

/// Whether the store holds a tombstone under `k`.
pub open spec fn tombstoned(m: Map<OrderKey, Slot>, k: OrderKey) -> bool {
    m.contains_key(k) && m[k].1
}

/// The store after merging a remote element: the element's payload stands
/// under its key, tombstoned if either the element or the store's own entry
/// is. A tombstone, once set, is never cleared by a merge.
pub open spec fn merged(m: Map<OrderKey, Slot>, n: Node) -> Map<OrderKey, Slot> {
    m.insert(n.id.key(), (n.character, n.is_deleted || tombstoned(m, n.id.key())))
}

/// The store after merging `ns` in order, one `apply_remote_op` after another.
pub open spec fn merged_all(m: Map<OrderKey, Slot>, ns: Seq<Node>) -> Map<OrderKey, Slot>
    decreases ns.len(),
{
    if ns.len() == 0 {
        m
    } else {
        merged(merged_all(m, ns.drop_last()), ns.last())
    }
}

/// A remote element that a replica can take: it may carry a sentinel's
/// identifier only as that very sentinel.
pub open spec fn mergeable(n: Node) -> bool {
    &&& n.id.key() == start_key() ==> n.character == SENTINEL_START_CHAR && !n.is_deleted
    &&& n.id.key() == end_key() ==> n.character == SENTINEL_END_CHAR && !n.is_deleted
}

/// The visible text of a listing: the payloads of its visible elements, in order.
pub open spec fn text_of(s: Seq<(OrderKey, Slot)>) -> Seq<char>
    decreases s.len(),
{
    if s.len() == 0 {
        Seq::empty()
    } else if node_of(s.last()).spec_is_visible() {
        text_of(s.drop_last()).push(s.last().1.0)
    } else {
        text_of(s.drop_last())
    }
}

/// The visible elements of a listing, in order.
pub open spec fn visible_of(s: Seq<(OrderKey, Slot)>) -> Seq<Node>
    decreases s.len(),
{
    if s.len() == 0 {
        Seq::empty()
    } else if node_of(s.last()).spec_is_visible() {
        visible_of(s.drop_last()).push(node_of(s.last()))
    } else {
        visible_of(s.drop_last())
    }
}

/// The identifier of the first live element of a listing whose payload is `c`.
pub open spec fn first_match(s: Seq<(OrderKey, Slot)>, c: char) -> Option<UniqueId>
    decreases s.len(),
{
    if s.len() == 0 {
        None
    } else if s[0].1.0 == c && !s[0].1.1 {
        Some(UniqueId::from_key(s[0].0))
    } else {
        first_match(s.subrange(1, s.len() as int), c)
    }
}

/// `n` is a visible entry of the listing `s`.
pub open spec fn shows(s: Seq<(OrderKey, Slot)>, n: Node) -> bool {
    exists|j: int| 0 <= j < s.len() && n == node_of(#[trigger] s[j]) && n.spec_is_visible()
}

/// Each visible element of a listing is a visible entry of the listing.
pub proof fn lemma_visible_of(s: Seq<(OrderKey, Slot)>)
    ensures
        forall|i: int| 0 <= i < visible_of(s).len() ==> shows(s, #[trigger] visible_of(s)[i]),
    decreases s.len(),
{
    if s.len() > 0 {
        let init = s.drop_last();
        lemma_visible_of(init);
        assert forall|i: int| 0 <= i < visible_of(s).len() implies shows(s, #[trigger] visible_of(s)[i]) by {
            if i < visible_of(init).len() {
                assert(visible_of(s)[i] == visible_of(init)[i]);
                assert(shows(init, visible_of(init)[i]));
                let j = choose|j: int|
                    0 <= j < init.len() && visible_of(init)[i] == node_of(#[trigger] init[j])
                        && visible_of(init)[i].spec_is_visible();
                assert(init[j] == s[j]);
            } else {
                assert(visible_of(s)[i] == node_of(s[s.len() - 1]));
            }
        }
    }
}

/// In a listing of a valid store the start sentinel comes first and the end
/// sentinel last.
pub proof fn lemma_sentinels_at_ends(s: Seq<(OrderKey, Slot)>, m: Map<OrderKey, Slot>)
    requires
        valid_store(m),
        is_listing(s, m),
    ensures
        s.len() >= 2,
        s[0] == (start_key(), (SENTINEL_START_CHAR, false)),
        s[s.len() - 1] == (end_key(), (SENTINEL_END_CHAR, false)),
{
    assert(m.contains_key(start_key()));
    assert(m.contains_key(end_key()));
    let i = choose|i: int| 0 <= i < s.len() && #[trigger] s[i].0 == start_key();
    let j = choose|j: int| 0 <= j < s.len() && #[trigger] s[j].0 == end_key();
    assert(i != j);
    if i > 0 {
        assert(key_lt(s[0].0, s[i].0));
        assert(m.contains_key(s[0].0));
        lemma_key_order(s[0].0, start_key(), s[0].0);
    }
    if j < s.len() - 1 {
        assert(key_lt(s[j].0, s[s.len() - 1].0));
        assert(m.contains_key(s[s.len() - 1].0));
        lemma_key_order(s[s.len() - 1].0, end_key(), s[s.len() - 1].0);
    }
}

/// Relies on `String`'s `FromIterator<char>`: the characters, in order.
#[verifier::external_body]
fn collect_chars(chars: &Vec<char>) -> (r: String)
    ensures
        r@ == chars@,
{
    chars.iter().collect()
}

/// The element that a store entry stands for.
fn entry_node(e: &(OrderKey, Slot)) -> (r: Node)
    ensures
        r == node_of(*e),
{
    Node {
        id: UniqueId(LamportTimestamp { counter: e.0.0, sequence: e.0.1, replica_id: e.0.2 }),
        character: e.1.0,
        is_deleted: e.1.1,
    }
}

/// One replica of the array.
///
/// Its view is the store: a map from order key to slot. The document is the
/// store read in ascending key order. Mutations take `&mut self`; a replica
/// shared between threads is put behind a lock by its owner.
pub struct RGA {
    replica_id: ReplicaId,
    clock: LamportClock,
    store: SlotMap,
}

impl View for RGA {
    type V = Map<OrderKey, Slot>;

    closed spec fn view(&self) -> Map<OrderKey, Slot> {
        store_contents(self.store)
    }
}

impl RGA {
    /// The counter of this replica's clock.
    pub closed spec fn clock_counter(&self) -> u64 {
        self.clock.counter_value()
    }

    /// How many identifiers this replica has minted.
    pub closed spec fn clock_sequence(&self) -> u64 {
        self.clock.sequence_value()
    }

    pub closed spec fn replica(&self) -> ReplicaId {
        self.replica_id
    }

    pub closed spec fn clock_wf(&self) -> bool {
        self.clock.wf() && self.clock.replica_value() == self.replica_id
    }

    pub open spec fn wf(&self) -> bool {
        &&& self.clock_wf()
        &&& valid_store(self@)
        &&& clock_covers(self@, self.clock_counter())
    }

    /// A replica holding the two sentinels only, with its clock at zero.
    pub fn new(replica_id: ReplicaId) -> (r: Self)
        ensures
            r.wf(),
            r@ == map![start_key() => (SENTINEL_START_CHAR, false), end_key() => (SENTINEL_END_CHAR, false)],
            r.replica() == replica_id,
            r.clock_counter() == 0,
            r.clock_sequence() == 0,
    {
        let mut store = store_new();
        let start_node = Node::sentinel_start();
        let end_node = Node::sentinel_end();
        store_insert(&mut store, start_node.id.order_key(), (start_node.character, false));
        store_insert(&mut store, end_node.id.order_key(), (end_node.character, false));
        let r = RGA { replica_id, clock: LamportClock::new(replica_id), store };
        assert(r@ =~= map![start_key() => (SENTINEL_START_CHAR, false), end_key() => (SENTINEL_END_CHAR, false)]);
        r
    }

    pub fn replica_id(&self) -> (r: ReplicaId)
        ensures
            r == self.replica(),
    {
        self.replica_id
    }

    /// The counter of the clock.
    pub fn current_clock(&self) -> (r: u64)
        ensures
            r == self.clock_counter(),
    {
        self.clock.current_counter()
    }

    /// Mints the identifier of a local element.
    fn new_local_id(&mut self) -> (r: UniqueId)
        requires
            old(self).clock_wf(),
            old(self).clock_counter() < u64::MAX,
        ensures
            final(self).clock_wf(),
            final(self)@ == old(self)@,
            final(self).replica() == old(self).replica(),
            final(self).clock_counter() == old(self).clock_counter() + 1,
            final(self).clock_sequence() == old(self).clock_sequence() + 1,
            r.0.counter == final(self).clock_counter(),
            r.0.sequence == stamped_sequence(old(self).clock_sequence()),
            r.0.replica_id == old(self).replica(),
    {
        UniqueId::from(self.clock.tick())
    }

    /// Inserts `character` as a new element, anchored after `after_id`.
    ///
    /// The new element is placed by its freshly minted identifier, which is
    /// greater than every identifier this replica has minted or observed. The
    /// anchor must be in the store (a tombstone will do); if it is not, the
    /// replica is left unchanged.
    pub fn insert_after(&mut self, after_id: UniqueId, character: char) -> (r: Result<
        UniqueId,
        &'static str,
    >)
        requires
            old(self).wf(),
            old(self)@.contains_key(after_id.key()) ==> old(self).clock_counter() < u64::MAX - 1,
        ensures
            final(self).wf(),
            final(self).replica() == old(self).replica(),
            !old(self)@.contains_key(after_id.key()) ==> r == Err::<UniqueId, &'static str>(
                REFERENCE_NOT_FOUND,
            ) && final(self)@ == old(self)@ && final(self).clock_counter() == old(
                self,
            ).clock_counter() && final(self).clock_sequence() == old(self).clock_sequence(),
            old(self)@.contains_key(after_id.key()) ==> (r matches Ok(id) && {
                &&& id.0.counter == old(self).clock_counter() + 1
                &&& id.0.sequence == stamped_sequence(old(self).clock_sequence())
                &&& id.0.replica_id == old(self).replica()
                &&& !old(self)@.contains_key(id.key())
                &&& forall|k: OrderKey|
                    old(self)@.contains_key(k) && k != end_key() ==> #[trigger] key_lt(k, id.key())
                &&& final(self)@ == old(self)@.insert(id.key(), (character, false))
                &&& final(self).clock_counter() == old(self).clock_counter() + 1
                &&& final(self).clock_sequence() == old(self).clock_sequence() + 1
            }),
    {
        if !store_contains(&self.store, after_id.order_key()) {
            return Err(REFERENCE_NOT_FOUND);
        }
        let new_node_id = self.new_local_id();
        let new_node = Node::new(new_node_id, character);
        proof {
            let k = new_node_id.key();
            if self@.contains_key(k) {
                assert(k != end_key());
            }
        }
        store_insert(&mut self.store, new_node.id.order_key(), (new_node.character, false));
        Ok(new_node_id)
    }

    /// Tombstones the element under `id_to_delete`.
    ///
    /// Deleting a tombstone again succeeds and changes nothing. A sentinel is
    /// refused, and so is an identifier that the store does not hold; neither
    /// changes the replica.
    pub fn delete(&mut self, id_to_delete: UniqueId) -> (r: Result<(), &'static str>)
        requires
            old(self).wf(),
        ensures
            final(self).wf(),
            final(self).replica() == old(self).replica(),
            final(self).clock_counter() == old(self).clock_counter(),
            final(self).clock_sequence() == old(self).clock_sequence(),
            !old(self)@.contains_key(id_to_delete.key()) ==> r == Err::<(), &'static str>(
                NODE_NOT_FOUND,
            ) && final(self)@ == old(self)@,
            old(self)@.contains_key(id_to_delete.key()) && is_sentinel_char(
                old(self)@[id_to_delete.key()].0,
            ) ==> r == Err::<(), &'static str>(PROTECTED_SENTINEL) && final(self)@ == old(self)@,
            old(self)@.contains_key(id_to_delete.key()) && !is_sentinel_char(
                old(self)@[id_to_delete.key()].0,
            ) ==> r is Ok && final(self)@ == old(self)@.insert(
                id_to_delete.key(),
                (old(self)@[id_to_delete.key()].0, true),
            ),
            id_to_delete.key() == start_key() || id_to_delete.key() == end_key() ==> r
                == Err::<(), &'static str>(PROTECTED_SENTINEL),
    {
        let key = id_to_delete.order_key();
        match store_get(&self.store, key) {
            None => Err(NODE_NOT_FOUND),
            Some(slot) => {
                let mut node = Node { id: id_to_delete, character: slot.0, is_deleted: slot.1 };
                match node.delete() {
                    Ok(()) => {
                        store_insert(&mut self.store, key, (node.character, node.is_deleted));
                        Ok(())
                    },
                    Err(e) => Err(e),
                }
            },
        }
    }

    /// Merges an element received from another replica.
    ///
    /// The clock catches up with the element's counter, and the element's
    /// payload and tombstone stand under its identifier; a tombstone that the
    /// store already held stays set. Merging never fails.
    pub fn apply_remote_op(&mut self, remote_node: Node)
        requires
            old(self).wf(),
            mergeable(remote_node),
        ensures
            final(self).wf(),
            final(self)@ == merged(old(self)@, remote_node),
            final(self).clock_counter() == observed(
                old(self).clock_counter(),
                remote_node.id.0.counter,
            ),
            final(self).clock_sequence() == old(self).clock_sequence(),
            final(self).replica() == old(self).replica(),
    {
        self.clock.update(remote_node.id.timestamp());
        let key = remote_node.id.order_key();
        let held_tombstone = match store_get(&self.store, key) {
            Some(slot) => slot.1,
            None => false,
        };
        store_insert(
            &mut self.store,
            key,
            (remote_node.character, remote_node.is_deleted || held_tombstone),
        );
    }

    /// Merges a batch of remote elements, in order: a full-state exchange
    /// hands over another replica's elements this way.
    pub fn apply_remote_ops(&mut self, remote_nodes: &Vec<Node>)
        requires
            old(self).wf(),
            forall|i: int| 0 <= i < remote_nodes@.len() ==> mergeable(#[trigger] remote_nodes@[i]),
        ensures
            final(self).wf(),
            final(self)@ == merged_all(old(self)@, remote_nodes@),
            final(self).clock_counter() >= old(self).clock_counter(),
            final(self).clock_sequence() == old(self).clock_sequence(),
            final(self).replica() == old(self).replica(),
    {
        let mut i: usize = 0;
        while i < remote_nodes.len()
            invariant
                i <= remote_nodes@.len(),
                forall|j: int| 0 <= j < remote_nodes@.len() ==> mergeable(#[trigger] remote_nodes@[j]),
                self.wf(),
                self@ == merged_all(old(self)@, remote_nodes@.take(i as int)),
                self.clock_counter() >= old(self).clock_counter(),
                self.clock_sequence() == old(self).clock_sequence(),
                self.replica() == old(self).replica(),
            decreases remote_nodes@.len() - i,
        {
            self.apply_remote_op(remote_nodes[i]);
            assert(remote_nodes@.take(i as int + 1).drop_last() =~= remote_nodes@.take(i as int));
            i = i + 1;
        }
        assert(remote_nodes@.take(remote_nodes@.len() as int) =~= remote_nodes@);
    }

    /// The document: the payloads of the visible elements, in identifier order.
    pub fn to_string(&self) -> (r: String)
        requires
            self.wf(),
        ensures
            r@ == text_of(listing(self@)),
    {
        let entries = store_entries(&self.store);
        proof {
            lemma_listing_is(entries@, self@);
        }
        let mut chars: Vec<char> = Vec::new();
        let mut i: usize = 0;
        while i < entries.len()
            invariant
                i <= entries.len(),
                chars@ == text_of(entries@.take(i as int)),
            decreases entries.len() - i,
        {
            let node = entry_node(&entries[i]);
            proof {
                assert(entries@.take(i as int + 1).drop_last() =~= entries@.take(i as int));
                assert(entries@.take(i as int + 1).last() == entries@[i as int]);
            }
            if node.is_visible() {
                chars.push(node.character);
            }
            i = i + 1;
        }
        proof {
            assert(entries@.take(entries@.len() as int) =~= entries@);
        }
        collect_chars(&chars)
    }

    /// Every element, sentinels and tombstones included, in identifier order.
    pub fn all_nodes(&self) -> (r: Vec<Node>)
        requires
            self.wf(),
        ensures
            r@ == listing(self@).map_values(|e: (OrderKey, Slot)| node_of(e)),
            r@.len() >= 2,
            r@[0] == node_of((start_key(), (SENTINEL_START_CHAR, false))),
            r@.last() == node_of((end_key(), (SENTINEL_END_CHAR, false))),
    {
        let entries = store_entries(&self.store);
        proof {
            lemma_listing_is(entries@, self@);
            lemma_sentinels_at_ends(entries@, self@);
        }
        let mut nodes: Vec<Node> = Vec::new();
        let mut i: usize = 0;
        while i < entries.len()
            invariant
                i <= entries.len(),
                nodes@ == entries@.take(i as int).map_values(|e: (OrderKey, Slot)| node_of(e)),
            decreases entries.len() - i,
        {
            let node = entry_node(&entries[i]);
            nodes.push(node);
            i = i + 1;
            assert(nodes@ =~= entries@.take(i as int).map_values(|e: (OrderKey, Slot)| node_of(e)));
        }
        assert(entries@.take(entries@.len() as int) =~= entries@);
        assert(nodes@[0] == node_of(entries@[0]));
        assert(nodes@[nodes@.len() - 1] == node_of(entries@[entries@.len() - 1]));
        nodes
    }

    /// The visible elements, in identifier order.
    pub fn visible_nodes(&self) -> (r: Vec<Node>)
        requires
            self.wf(),
        ensures
            r@ == visible_of(listing(self@)),
    {
        let entries = store_entries(&self.store);
        proof {
            lemma_listing_is(entries@, self@);
        }
        let mut nodes: Vec<Node> = Vec::new();
        let mut i: usize = 0;
        while i < entries.len()
            invariant
                i <= entries.len(),
                nodes@ == visible_of(entries@.take(i as int)),
            decreases entries.len() - i,
        {
            let node = entry_node(&entries[i]);
            proof {
                assert(entries@.take(i as int + 1).drop_last() =~= entries@.take(i as int));
                assert(entries@.take(i as int + 1).last() == entries@[i as int]);
            }
            if node.is_visible() {
                nodes.push(node);
            }
            i = i + 1;
        }
        assert(entries@.take(entries@.len() as int) =~= entries@);
        nodes
    }

    /// The number of elements, sentinels and tombstones included.
    pub fn total_node_count(&self) -> (r: usize)
        requires
            self.wf(),
        ensures
            r == self@.len(),
            r >= 2,
    {
        proof {
            crate::laws::lemma_at_least_two(self@);
        }
        store_len(&self.store)
    }

    /// The number of visible elements: the length of the document.
    pub fn visible_node_count(&self) -> (r: usize)
        requires
            self.wf(),
        ensures
            r == text_of(listing(self@)).len(),
    {
        let entries = store_entries(&self.store);
        proof {
            lemma_listing_is(entries@, self@);
        }
        let mut count: usize = 0;
        let mut i: usize = 0;
        while i < entries.len()
            invariant
                i <= entries.len(),
                count == text_of(entries@.take(i as int)).len(),
                text_of(entries@.take(i as int)).len() <= i,
            decreases entries.len() - i,
        {
            let node = entry_node(&entries[i]);
            proof {
                assert(entries@.take(i as int + 1).drop_last() =~= entries@.take(i as int));
                assert(entries@.take(i as int + 1).last() == entries@[i as int]);
            }
            if node.is_visible() {
                count = count + 1;
            }
            i = i + 1;
        }
        assert(entries@.take(entries@.len() as int) =~= entries@);
        count
    }

    /// The identifier of the first live element, in identifier order, whose
    /// payload is `character`.
    pub fn find_node_by_char(&self, character: char) -> (r: Option<UniqueId>)
        requires
            self.wf(),
        ensures
            r == first_match(listing(self@), character),
    {
        let entries = store_entries(&self.store);
        proof {
            lemma_listing_is(entries@, self@);
        }
        let mut i: usize = 0;
        assert(entries@.subrange(0, entries@.len() as int) =~= entries@);
        while i < entries.len()
            invariant
                i <= entries.len(),
                listing(self@) == entries@,
                first_match(entries@, character) == first_match(
                    entries@.subrange(i as int, entries@.len() as int),
                    character,
                ),
            decreases entries.len() - i,
        {
            let node = entry_node(&entries[i]);
            let rest = Ghost(entries@.subrange(i as int, entries@.len() as int));
            assert(rest@.len() > 0 && rest@[0] == entries@[i as int]);
            if node.character == character && !node.is_deleted {
                assert(first_match(rest@, character) == Some(node.id));
                return Some(node.id);
            }
            assert(rest@.subrange(1, rest@.len() as int) =~= entries@.subrange(
                i as int + 1,
                entries@.len() as int,
            ));
            i = i + 1;
        }
        None
    }

    /// The identifier of the start sentinel.
    pub fn sentinel_start_id(&self) -> (r: UniqueId)
        ensures
            r.key() == start_key(),
    {
        Node::sentinel_start().id
    }

    /// The identifier of the end sentinel.
    pub fn sentinel_end_id(&self) -> (r: UniqueId)
        ensures
            r.key() == end_key(),
    {
        Node::sentinel_end().id
    }
}

/// A deep copy: the same elements and the same clock, so the copy goes on
/// minting identifiers above everything it holds.
impl Clone for RGA {
    fn clone(&self) -> (r: Self)
        ensures
            r@ == self@,
            r.replica() == self.replica(),
            r.clock_counter() == self.clock_counter(),
            r.clock_sequence() == self.clock_sequence(),
            r.clock_wf() == self.clock_wf(),
    {
        let entries = store_entries(&self.store);
        let mut store = store_new();
        let mut i: usize = 0;
        while i < entries.len()
            invariant
                i <= entries.len(),
                is_listing(entries@, self@),
                forall|k: OrderKey|
                    #[trigger] store_contents(store).contains_key(k) <==> exists|j: int|
                        0 <= j < i && #[trigger] entries@[j].0 == k,
                forall|k: OrderKey| #[trigger]
                    store_contents(store).contains_key(k) ==> store_contents(store)[k] == self@[k],
            decreases entries.len() - i,
        {
            let e = entries[i];
            store_insert(&mut store, e.0, e.1);
            proof {
                assert(entries@[i as int] == e);
                assert forall|k: OrderKey| #[trigger] store_contents(store).contains_key(k) implies exists|j: int|
                    0 <= j < i + 1 && #[trigger] entries@[j].0 == k by {
                    if k != e.0 {
                        let j = choose|j: int| 0 <= j < i && #[trigger] entries@[j].0 == k;
                    }
                }
            }
            i = i + 1;
        }
        assert(store_contents(store) =~= self@) by {
            assert forall|k: OrderKey| self@.contains_key(k) implies #[trigger] store_contents(store).contains_key(k) by {
                let j = choose|j: int| 0 <= j < entries@.len() && #[trigger] entries@[j].0 == k;
            }
        }
        RGA { replica_id: self.replica_id, clock: self.clock.snapshot(), store }
    }
}

} // verus!
