//! Laws of the replicated array: what holds across several operations.
use vstd::prelude::*;

use crate::clock::observed;
use crate::node::{end_key, start_key, Node};
use crate::rga::{
    lemma_visible_of, merged, merged_all, mergeable, node_of, shows, slot_of, text_of,
    tombstoned, valid_store, visible_of, RGA,
};
use crate::store::{lemma_listing_exists, listing, Slot};
use crate::timestamp::{LamportTimestamp, OrderKey, ReplicaId};

verus! {

/// The keys that `ns` carries.
pub open spec fn carried_keys(ns: Seq<Node>) -> Set<OrderKey> {
    Set::new(|k: OrderKey| exists|i: int| 0 <= i < ns.len() && #[trigger] ns[i].id.key() == k)
}

/// `ns` delivers the elements of `m`: each element of `ns` is an entry of
/// `m`, and each entry of `m` other than the sentinels is in `ns`, in any
/// order and any number of times.
pub open spec fn delivers(ns: Seq<Node>, m: Map<OrderKey, Slot>) -> bool {
    &&& forall|i: int|
        0 <= i < ns.len() ==> m.contains_key(#[trigger] ns[i].id.key()) && m[ns[i].id.key()]
            == slot_of(ns[i])
    &&& forall|k: OrderKey|
        #[trigger] m.contains_key(k) && k != start_key() && k != end_key() ==> carried_keys(
            ns,
        ).contains(k)
}

/// Every element of `m` but the sentinels was minted by replica `r`: the
/// state of a replica that has made local edits only.
pub open spec fn minted_by(m: Map<OrderKey, Slot>, r: ReplicaId) -> bool {
    forall|k: OrderKey|
        #[trigger] m.contains_key(k) && k != start_key() && k != end_key() ==> k.2 == r
}

/// `m` with the entries of `b` merged in: `b`'s payload, tombstoned where
/// either side is.
pub open spec fn joined(m: Map<OrderKey, Slot>, b: Map<OrderKey, Slot>) -> Map<OrderKey, Slot> {
    Map::new(
        |k: OrderKey| m.contains_key(k) || b.contains_key(k),
        |k: OrderKey|
            if b.contains_key(k) {
                (b[k].0, b[k].1 || tombstoned(m, k))
            } else {
                m[k]
            },
    )
}

/// Merging elements that agree with `b` joins the entries of `b` that they carry.
proof fn lemma_merged_all(m: Map<OrderKey, Slot>, b: Map<OrderKey, Slot>, ns: Seq<Node>)
    requires
        forall|i: int|
            0 <= i < ns.len() ==> b.contains_key(#[trigger] ns[i].id.key()) && b[ns[i].id.key()]
                == slot_of(ns[i]),
    ensures
        merged_all(m, ns) == joined(m, b.restrict(carried_keys(ns))),
    decreases ns.len(),
{
    if ns.len() == 0 {
        assert(merged_all(m, ns) =~= joined(m, b.restrict(carried_keys(ns))));
    } else {
        let init = ns.drop_last();
        let x = ns.last();
        assert forall|i: int| 0 <= i < init.len() implies b.contains_key(
            #[trigger] init[i].id.key(),
        ) && b[init[i].id.key()] == slot_of(init[i]) by {
            assert(init[i] == ns[i]);
        }
        lemma_merged_all(m, b, init);
        assert(ns[ns.len() - 1] == x);
        assert forall|k: OrderKey|
            carried_keys(ns).contains(k) <==> (carried_keys(init).contains(k) || k
                == x.id.key()) by {
            if k == x.id.key() {
                assert(ns[ns.len() - 1].id.key() == k);
            }
            if carried_keys(ns).contains(k) {
                let i = choose|i: int| 0 <= i < ns.len() && #[trigger] ns[i].id.key() == k;
                if i < ns.len() - 1 {
                    assert(init[i] == ns[i]);
                    assert(init[i].id.key() == k);
                } else {
                    assert(ns[i] == x);
                }
            }
            if carried_keys(init).contains(k) {
                let i = choose|i: int| 0 <= i < init.len() && #[trigger] init[i].id.key() == k;
                assert(init[i] == ns[i]);
            }
        }
        assert(merged_all(m, ns) =~= joined(m, b.restrict(carried_keys(ns))));
    }
}

/// Convergence: two replicas with distinct identities, each holding the
/// sentinels and the elements it minted itself, that then each merge every
/// element of the other (in any order, each at least once, the sentinels
/// optional) end with the same store, and so with the same document.
pub proof fn lemma_convergence(a: RGA, b: RGA, from_b: Seq<Node>, from_a: Seq<Node>)
    requires
        a.wf(),
        b.wf(),
        a.replica() != b.replica(),
        minted_by(a@, a.replica()),
        minted_by(b@, b.replica()),
        delivers(from_b, b@),
        delivers(from_a, a@),
    ensures
        forall|i: int| 0 <= i < from_b.len() ==> mergeable(#[trigger] from_b[i]),
        forall|i: int| 0 <= i < from_a.len() ==> mergeable(#[trigger] from_a[i]),
        merged_all(a@, from_b) == merged_all(b@, from_a),
        text_of(listing(merged_all(a@, from_b))) == text_of(listing(merged_all(b@, from_a))),
{
    lemma_merged_all(a@, b@, from_b);
    lemma_merged_all(b@, a@, from_a);
    let left = joined(a@, b@.restrict(carried_keys(from_b)));
    let right = joined(b@, a@.restrict(carried_keys(from_a)));
    assert forall|k: OrderKey| #[trigger] left.contains_key(k) == right.contains_key(k) by {
        if a@.contains_key(k) && k != start_key() && k != end_key() {
            assert(carried_keys(from_a).contains(k));
        }
        if b@.contains_key(k) && k != start_key() && k != end_key() {
            assert(carried_keys(from_b).contains(k));
        }
    }
    assert forall|k: OrderKey| #[trigger] left.contains_key(k) implies left[k] == right[k] by {
        if k == start_key() || k == end_key() {
        } else if a@.contains_key(k) {
            assert(carried_keys(from_a).contains(k));
            assert(k.2 == a.replica());
            if b@.contains_key(k) {
                assert(k.2 == b.replica());
            }
            if carried_keys(from_b).contains(k) {
                let i = choose|i: int| 0 <= i < from_b.len() && #[trigger] from_b[i].id.key() == k;
                assert(b@.contains_key(from_b[i].id.key()));
                assert(k.2 == b.replica());
            }
        } else {
            assert(carried_keys(from_b).contains(k));
            if carried_keys(from_a).contains(k) {
                let i = choose|i: int| 0 <= i < from_a.len() && #[trigger] from_a[i].id.key() == k;
                assert(a@.contains_key(from_a[i].id.key()));
            }
        }
    }
    assert(left =~= right);
}

/// Merging the same element twice leaves the store and the clock as merging
/// it once.
pub proof fn lemma_merge_idempotent(r: RGA, n: Node)
    ensures
        merged(merged(r@, n), n) == merged(r@, n),
        observed(observed(r.clock_counter(), n.id.0.counter), n.id.0.counter) == observed(
            r.clock_counter(),
            n.id.0.counter,
        ),
{
    assert(merged(merged(r@, n), n) =~= merged(r@, n));
}

/// Merging two elements gives the same store and clock in either order,
/// provided that two elements with one identifier carry one payload.
pub proof fn lemma_merge_commutes(r: RGA, n1: Node, n2: Node)
    requires
        n1.id == n2.id ==> n1.character == n2.character,
    ensures
        merged(merged(r@, n1), n2) == merged(merged(r@, n2), n1),
        observed(observed(r.clock_counter(), n1.id.0.counter), n2.id.0.counter) == observed(
            observed(r.clock_counter(), n2.id.0.counter),
            n1.id.0.counter,
        ),
{
    assert(merged(merged(r@, n1), n2) =~= merged(merged(r@, n2), n1));
}

/// The counter after a run of clock operations: `None` is a `tick`, which
/// adds one; `Some(t)` is an `update` with `t`, which keeps the larger counter.
pub open spec fn run_counter(c: int, ops: Seq<Option<LamportTimestamp>>) -> int
    decreases ops.len(),
{
    if ops.len() == 0 {
        c
    } else {
        let before = run_counter(c, ops.drop_last());
        match ops.last() {
            None => before + 1,
            Some(t) => if before >= t.counter {
                before
            } else {
                t.counter as int
            },
        }
    }
}

/// Monotone clock: after a clock observes `t`, whatever ticks and updates
/// follow, its counter stays at least `t.counter`, and every tick among them
/// stamps a counter above `t.counter`.
pub proof fn lemma_monotone_clock(c: u64, t: LamportTimestamp, ops: Seq<Option<LamportTimestamp>>)
    ensures
        forall|i: int|
            0 <= i <= ops.len() ==> #[trigger] run_counter(observed(c, t.counter) as int, ops.take(i))
                >= t.counter,
        forall|i: int|
            0 <= i < ops.len() && #[trigger] ops[i] is None ==> run_counter(
                observed(c, t.counter) as int,
                ops.take(i),
            ) + 1 > t.counter,
    decreases ops.len(),
{
    if ops.len() > 0 {
        let init = ops.drop_last();
        lemma_monotone_clock(c, t, init);
        assert forall|i: int| 0 <= i <= ops.len() implies #[trigger] run_counter(
            observed(c, t.counter) as int,
            ops.take(i),
        ) >= t.counter by {
            if i < ops.len() {
                assert(ops.take(i) =~= init.take(i));
            } else {
                assert(ops.take(i) =~= ops);
                assert(init.take(init.len() as int) =~= init);
                assert(run_counter(observed(c, t.counter) as int, init.take(init.len() as int))
                    >= t.counter);
            }
        }
        assert forall|i: int| 0 <= i < ops.len() && #[trigger] ops[i] is None implies run_counter(
            observed(c, t.counter) as int,
            ops.take(i),
        ) + 1 > t.counter by {
            assert(run_counter(observed(c, t.counter) as int, ops.take(i)) >= t.counter);
        }
    } else {
        assert forall|i: int| 0 <= i <= ops.len() implies #[trigger] run_counter(
            observed(c, t.counter) as int,
            ops.take(i),
        ) >= t.counter by {
            assert(ops.take(i).len() == 0);
        }
    }
}

/// One step of a replica's store: a refused edit (no change), an
/// `insert_after` (a live element under a key the store did not hold), a
/// `delete` (a held element tombstoned), or an `apply_remote_op` of a
/// mergeable element.
pub open spec fn edit_step(m1: Map<OrderKey, Slot>, m2: Map<OrderKey, Slot>) -> bool {
    ||| m2 == m1
    ||| exists|j: OrderKey, c: char| !m1.contains_key(j) && m2 == #[trigger] m1.insert(j, (c, false))
    ||| exists|j: OrderKey| m1.contains_key(j) && m2 == #[trigger] m1.insert(j, (m1[j].0, true))
    ||| exists|n: Node| mergeable(n) && m2 == #[trigger] merged(m1, n)
}

/// Each step keeps every key and may add one.
proof fn lemma_step_keeps_keys(m1: Map<OrderKey, Slot>, m2: Map<OrderKey, Slot>)
    requires
        m1.dom().finite(),
        edit_step(m1, m2),
    ensures
        m2.dom().finite(),
        m1.dom().subset_of(m2.dom()),
        m1.len() <= m2.len(),
        forall|k: OrderKey| tombstoned(m1, k) ==> #[trigger] tombstoned(m2, k),
{
    if m2 != m1 {
        if exists|j: OrderKey, c: char| !m1.contains_key(j) && m2 == #[trigger] m1.insert(j, (c, false)) {
            let (j, c) = choose|j: OrderKey, c: char| !m1.contains_key(j) && m2 == #[trigger] m1.insert(j, (c, false));
            assert(m2.dom() =~= m1.dom().insert(j));
        } else if exists|j: OrderKey| m1.contains_key(j) && m2 == #[trigger] m1.insert(j, (m1[j].0, true)) {
            let j = choose|j: OrderKey| m1.contains_key(j) && m2 == #[trigger] m1.insert(j, (m1[j].0, true));
            assert(m2.dom() =~= m1.dom().insert(j));
        } else {
            let n = choose|n: Node| mergeable(n) && m2 == #[trigger] merged(m1, n);
            assert(m2.dom() =~= m1.dom().insert(n.id.key()));
        }
    }
}

/// Along a run of steps every store is finite, keeps the keys of the ones
/// before it, and tombstones stay set.
proof fn lemma_run(stores: Seq<Map<OrderKey, Slot>>)
    requires
        stores.len() > 0,
        stores[0].dom().finite(),
        forall|i: int| 0 <= i < stores.len() - 1 ==> edit_step(#[trigger] stores[i], stores[i + 1]),
    ensures
        forall|i: int|
            0 <= i < stores.len() ==> (#[trigger] stores[i]).dom().finite()
                && stores[0].dom().subset_of(stores[i].dom()),
        forall|i: int| 0 <= i < stores.len() - 1 ==> (#[trigger] stores[i]).len() <= stores[i + 1].len(),
        forall|i: int, k: OrderKey|
            0 <= i < stores.len() && tombstoned(stores[0], k) ==> #[trigger] tombstoned(stores[i], k),
    decreases stores.len(),
{
    if stores.len() > 1 {
        let init = stores.drop_last();
        assert forall|i: int| 0 <= i < init.len() - 1 implies edit_step(#[trigger] init[i], init[i + 1]) by {
            assert(init[i] == stores[i] && init[i + 1] == stores[i + 1]);
            assert(edit_step(stores[i], stores[i + 1]));
        }
        lemma_run(init);
        let last = stores.len() - 1;
        assert(init[last - 1] == stores[last - 1]);
        assert(edit_step(stores[last - 1], stores[last]));
        lemma_step_keeps_keys(stores[last - 1], stores[last]);
        assert forall|i: int|
            0 <= i < stores.len() implies (#[trigger] stores[i]).dom().finite()
                && stores[0].dom().subset_of(stores[i].dom()) by {
            if i < last {
                assert(init[i] == stores[i]);
            }
        }
        assert forall|i: int| 0 <= i < stores.len() - 1 implies (#[trigger] stores[i]).len() <= stores[i + 1].len() by {
            if i < last - 1 {
                assert(init[i] == stores[i] && init[i + 1] == stores[i + 1]);
            }
        }
        assert forall|i: int, k: OrderKey|
            0 <= i < stores.len() && tombstoned(stores[0], k) implies #[trigger] tombstoned(stores[i], k) by {
            if i < last {
                assert(init[i] == stores[i]);
            } else {
                assert(tombstoned(init[last - 1], k));
            }
        }
    }
}

/// Tombstones are one way: once the element under `k` is tombstoned, it stays
/// tombstoned through any run of edits and merges, whatever tombstone the
/// merged elements carry, and no visible element of any later store carries `k`.
pub proof fn lemma_tombstone_one_way(stores: Seq<Map<OrderKey, Slot>>, k: OrderKey)
    requires
        stores.len() > 0,
        stores[0].dom().finite(),
        tombstoned(stores[0], k),
        forall|i: int| 0 <= i < stores.len() - 1 ==> edit_step(#[trigger] stores[i], stores[i + 1]),
    ensures
        forall|i: int|
            0 <= i < stores.len() ==> #[trigger] tombstoned(stores[i], k)
                && !node_of((k, stores[i][k])).spec_is_visible(),
        forall|i: int, j: int|
            0 <= i < stores.len() && 0 <= j < visible_of(listing(#[trigger] stores[i])).len()
                ==> (#[trigger] visible_of(listing(stores[i]))[j]).id.key() != k,
{
    lemma_run(stores);
    assert forall|i: int| 0 <= i < stores.len() implies #[trigger] tombstoned(stores[i], k)
        && !node_of((k, stores[i][k])).spec_is_visible() by {
        assert(tombstoned(stores[i], k));
    }
    assert forall|i: int, j: int|
        0 <= i < stores.len() && 0 <= j < visible_of(listing(#[trigger] stores[i])).len()
            implies (#[trigger] visible_of(listing(stores[i]))[j]).id.key() != k by {
        let m = stores[i];
        let s = listing(m);
        assert(tombstoned(stores[i], k));
        lemma_listing_exists(m);
        lemma_visible_of(s);
        let n = visible_of(s)[j];
        assert(shows(s, n));
        let x = choose|x: int| 0 <= x < s.len() && n == node_of(#[trigger] s[x]) && n.spec_is_visible();
        assert(m.contains_key(s[x].0) && m[s[x].0] == s[x].1);
    }
}

/// The element count never drops below the two sentinels and never
/// decreases: elements are tombstoned, never removed.
pub proof fn lemma_count_never_drops(stores: Seq<Map<OrderKey, Slot>>)
    requires
        stores.len() > 0,
        valid_store(stores[0]),
        forall|i: int| 0 <= i < stores.len() - 1 ==> edit_step(#[trigger] stores[i], stores[i + 1]),
    ensures
        forall|i: int| 0 <= i < stores.len() ==> (#[trigger] stores[i]).len() >= 2,
        forall|i: int| 0 <= i < stores.len() - 1 ==> (#[trigger] stores[i]).len() <= stores[i + 1].len(),
{
    lemma_run(stores);
    lemma_at_least_two(stores[0]);
    assert forall|i: int| 0 <= i < stores.len() implies (#[trigger] stores[i]).len() >= 2 by {
        vstd::set_lib::lemma_len_subset(stores[0].dom(), stores[i].dom());
    }
}

/// A valid store holds at least the two sentinels.
pub proof fn lemma_at_least_two(m: Map<OrderKey, Slot>)
    requires
        valid_store(m),
    ensures
        m.len() >= 2,
{
    let both = set![start_key(), end_key()];
    assert(both.subset_of(m.dom()));
    vstd::set_lib::lemma_len_subset(both, m.dom());
    assert(both.len() == 2);
}

} // verus!
