//! The element store: an ordered map from order key to slot, held in a
//! concurrent skip list, and the ordered listing that reads it.
use crossbeam_skiplist::SkipMap;
use vstd::prelude::*;

use crate::timestamp::{key_lt, lemma_key_order, OrderKey};

verus! {

/// What the store holds for one element: its payload and its tombstone flag.
pub type Slot = (char, bool);

#[verifier::external_type_specification]
#[verifier::external_body]
#[verifier::reject_recursive_types(K)]
#[verifier::reject_recursive_types(V)]
pub struct ExSkipMap<K, V>(SkipMap<K, V>);

/// The skip list that holds a replica's elements.
pub type SlotMap = SkipMap<OrderKey, Slot>;

/// The entries that a skip list holds, by key.
pub uninterp spec fn store_contents(m: SlotMap) -> Map<OrderKey, Slot>;

/// `s` lists the entries of `m` once each, in strictly ascending key order.
pub open spec fn is_listing(s: Seq<(OrderKey, Slot)>, m: Map<OrderKey, Slot>) -> bool {
    &&& forall|i: int, j: int| 0 <= i < j < s.len() ==> key_lt(#[trigger] s[i].0, #[trigger] s[j].0)
    &&& forall|i: int| 0 <= i < s.len() ==> m.contains_key(#[trigger] s[i].0) && m[s[i].0] == s[i].1
    &&& forall|k: OrderKey| #[trigger] m.contains_key(k) ==> exists|i: int| 0 <= i < s.len() && #[trigger] s[i].0 == k
}

/// The entries of `m` in ascending key order: the document order.
pub open spec fn listing(m: Map<OrderKey, Slot>) -> Seq<(OrderKey, Slot)> {
    choose|s: Seq<(OrderKey, Slot)>| is_listing(s, m)
}

/// A map has at most one ascending listing.
pub proof fn lemma_listing_unique(s1: Seq<(OrderKey, Slot)>, s2: Seq<(OrderKey, Slot)>, m: Map<OrderKey, Slot>)
    requires
        is_listing(s1, m),
        is_listing(s2, m),
    ensures
        s1 == s2,
    decreases s1.len(),
{
    if s1.len() == 0 {
        if s2.len() > 0 {
            assert(m.contains_key(s2[0].0));
        }
        assert(s1 =~= s2);
    } else {
        assert(m.contains_key(s1[0].0));
        let i0 = choose|i: int| 0 <= i < s2.len() && #[trigger] s2[i].0 == s1[0].0;
        let a = s1.last();
        let b = s2.last();
        assert(m.contains_key(a.0) && m.contains_key(b.0)) by {
            assert(s1[s1.len() - 1] == a);
            assert(s2[s2.len() - 1] == b);
        }
        let i = choose|i: int| 0 <= i < s1.len() && #[trigger] s1[i].0 == b.0;
        let j = choose|j: int| 0 <= j < s2.len() && #[trigger] s2[j].0 == a.0;
        lemma_key_order(a.0, b.0, a.0);
        if i < s1.len() - 1 {
            assert(key_lt(s1[i].0, s1[s1.len() - 1].0));
        }
        if j < s2.len() - 1 {
            assert(key_lt(s2[j].0, s2[s2.len() - 1].0));
        }
        assert(a.0 == b.0);
        assert(a == b);
        let m2 = m.remove(a.0);
        let t1 = s1.drop_last();
        let t2 = s2.drop_last();
        assert forall|x: int| 0 <= x < t1.len() implies m2.contains_key(#[trigger] t1[x].0) && m2[t1[x].0] == t1[x].1 by {
            assert(s1[x] == t1[x]);
            assert(key_lt(s1[x].0, s1[s1.len() - 1].0));
            lemma_key_order(t1[x].0, a.0, a.0);
        }
        assert forall|x: int| 0 <= x < t2.len() implies m2.contains_key(#[trigger] t2[x].0) && m2[t2[x].0] == t2[x].1 by {
            assert(s2[x] == t2[x]);
            assert(key_lt(s2[x].0, s2[s2.len() - 1].0));
            lemma_key_order(t2[x].0, a.0, a.0);
        }
        assert forall|k: OrderKey| #[trigger] m2.contains_key(k) implies exists|x: int| 0 <= x < t1.len() && #[trigger] t1[x].0 == k by {
            assert(m.contains_key(k));
            let x = choose|x: int| 0 <= x < s1.len() && #[trigger] s1[x].0 == k;
            assert(x != s1.len() - 1);
            assert(t1[x].0 == k);
        }
        assert forall|k: OrderKey| #[trigger] m2.contains_key(k) implies exists|x: int| 0 <= x < t2.len() && #[trigger] t2[x].0 == k by {
            assert(m.contains_key(k));
            let x = choose|x: int| 0 <= x < s2.len() && #[trigger] s2[x].0 == k;
            assert(x != s2.len() - 1);
            assert(t2[x].0 == k);
        }
        assert forall|x: int, y: int| 0 <= x < y < t1.len() implies key_lt(#[trigger] t1[x].0, #[trigger] t1[y].0) by {
            assert(t1[x] == s1[x] && t1[y] == s1[y]);
        }
        assert forall|x: int, y: int| 0 <= x < y < t2.len() implies key_lt(#[trigger] t2[x].0, #[trigger] t2[y].0) by {
            assert(t2[x] == s2[x] && t2[y] == s2[y]);
        }
        lemma_listing_unique(t1, t2, m2);
        assert(s1 =~= t1.push(a));
        assert(s2 =~= t2.push(b));
    }
}

/// Any ascending listing of `m` is the listing.
pub proof fn lemma_listing_is(s: Seq<(OrderKey, Slot)>, m: Map<OrderKey, Slot>)
    requires
        is_listing(s, m),
    ensures
        listing(m) == s,
{
    lemma_listing_unique(listing(m), s, m);
}

/// A finite, non-empty set of keys has a greatest key.
proof fn lemma_max_key(d: Set<OrderKey>) -> (k: OrderKey)
    requires
        d.finite(),
        d.len() > 0,
    ensures
        d.contains(k),
        forall|j: OrderKey| d.contains(j) && j != k ==> key_lt(j, k),
    decreases d.len(),
{
    let x = d.choose();
    let rest = d.remove(x);
    if rest.len() == 0 {
        assert forall|j: OrderKey| d.contains(j) && j != x implies key_lt(j, x) by {
            assert(rest.contains(j));
        }
        x
    } else {
        let y = lemma_max_key(rest);
        lemma_key_order(x, y, x);
        if key_lt(x, y) {
            assert forall|j: OrderKey| d.contains(j) && j != y implies key_lt(j, y) by {
                if j != x {
                    assert(rest.contains(j));
                }
            }
            y
        } else {
            assert forall|j: OrderKey| d.contains(j) && j != x implies key_lt(j, x) by {
                assert(rest.contains(j));
                if j != y {
                    lemma_key_order(j, y, x);
                }
            }
            x
        }
    }
}

/// Every finite map has an ascending listing.
pub proof fn lemma_listing_exists(m: Map<OrderKey, Slot>)
    requires
        m.dom().finite(),
    ensures
        is_listing(listing(m), m),
    decreases m.dom().len(),
{
    if m.dom().len() == 0 {
        m.dom().lemma_len0_is_empty();
        let s = Seq::<(OrderKey, Slot)>::empty();
        assert forall|k: OrderKey| #[trigger] m.contains_key(k) implies exists|i: int| 0 <= i < s.len() && #[trigger] s[i].0 == k by {
            assert(m.dom().contains(k));
        }
        assert(is_listing(s, m));
    } else {
        let k = lemma_max_key(m.dom());
        let m2 = m.remove(k);
        assert(m2.dom() =~= m.dom().remove(k));
        lemma_listing_exists(m2);
        let s2 = listing(m2);
        let s = s2.push((k, m[k]));
        assert forall|i: int, j: int| 0 <= i < j < s.len() implies key_lt(#[trigger] s[i].0, #[trigger] s[j].0) by {
            assert(s[i] == s2[i]);
            if j < s2.len() {
                assert(s[j] == s2[j]);
            } else {
                assert(m2.contains_key(s2[i].0));
            }
        }
        assert forall|i: int| 0 <= i < s.len() implies m.contains_key(#[trigger] s[i].0) && m[s[i].0] == s[i].1 by {
            if i < s2.len() {
                assert(s[i] == s2[i]);
                assert(m2.contains_key(s2[i].0));
            }
        }
        assert forall|x: OrderKey| #[trigger] m.contains_key(x) implies exists|i: int| 0 <= i < s.len() && #[trigger] s[i].0 == x by {
            if x == k {
                assert(s[s2.len() as int].0 == x);
            } else {
                assert(m2.contains_key(x));
                let i = choose|i: int| 0 <= i < s2.len() && #[trigger] s2[i].0 == x;
                assert(s[i] == s2[i]);
            }
        }
        assert(is_listing(s, m));
    }
}

/// Relies on `SkipMap::new`: a new skip list is empty.
#[verifier::external_body]
pub(crate) fn store_new() -> (r: SlotMap)
    ensures
        store_contents(r) =~= Map::empty(),
{
    SkipMap::new()
}

/// Relies on `SkipMap::insert`: the entry under `key` is replaced by `value`,
/// every other entry stays.
#[verifier::external_body]
pub(crate) fn store_insert(m: &mut SlotMap, key: OrderKey, value: Slot)
    ensures
        store_contents(*final(m)) == store_contents(*old(m)).insert(key, value),
{
    m.insert(key, value);
}

/// Relies on `SkipMap::contains_key`: whether an entry is held under `key`.
#[verifier::external_body]
pub(crate) fn store_contains(m: &SlotMap, key: OrderKey) -> (r: bool)
    ensures
        r == store_contents(*m).contains_key(key),
{
    m.contains_key(&key)
}

/// Relies on `SkipMap::get`: the value held under `key`, if any.
#[verifier::external_body]
pub(crate) fn store_get(m: &SlotMap, key: OrderKey) -> (r: Option<Slot>)
    ensures
        r == (if store_contents(*m).contains_key(key) {
            Some(store_contents(*m)[key])
        } else {
            None
        }),
{
    match m.get(&key) {
        Some(entry) => Some(*entry.value()),
        None => None,
    }
}

/// Relies on `SkipMap::len`: the number of entries.
#[verifier::external_body]
pub(crate) fn store_len(m: &SlotMap) -> (r: usize)
    ensures
        r as nat == store_contents(*m).len(),
{
    m.len()
}

/// Relies on `SkipMap::iter`: every entry once, from the least key to the greatest.
#[verifier::external_body]
pub(crate) fn store_entries(m: &SlotMap) -> (r: Vec<(OrderKey, Slot)>)
    ensures
        is_listing(r@, store_contents(*m)),
{
    m.iter().map(|entry| (*entry.key(), *entry.value())).collect()
}

} // verus!
