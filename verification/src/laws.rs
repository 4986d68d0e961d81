//! What holds across several operations of a map, stated over the map that
//! the entries stand for and over the entries themselves.

use crate::entries::{
    as_map, keys_of, lemma_entry_at, lemma_key_has_position, lemma_map_len,
    lemma_order_determined, lemma_replace_value, lemma_same_keys, ordered, position_of,
};
use crate::map::KeyNotFound;
use crate::order::OrderedKey;
use vstd::prelude::*;

verus! {

/// Binding one key twice leaves one entry for it, bound to the value given
/// last: the second binding changes neither the keys nor how many there are,
/// and the result is what binding the last value alone would give.
pub proof fn lemma_set_twice<KM, V>(m: Map<KM, V>, k: KM, first: V, second: V)
    ensures
        m.insert(k, first).insert(k, second) == m.insert(k, second),
        m.insert(k, first).insert(k, second).dom() == m.insert(k, first).dom(),
        m.insert(k, first).insert(k, second).len() == m.insert(k, first).len(),
        m.insert(k, first).insert(k, second)[k] == second,
{
    assert(m.insert(k, first).insert(k, second) =~= m.insert(k, second));
    assert(m.insert(k, first).insert(k, second).dom() =~= m.insert(k, first).dom());
}

/// The same over the entries: binding a key that an ordered sequence already
/// holds changes one value and leaves the length and every key as they were.
pub proof fn lemma_set_present_keeps_keys<K: OrderedKey, V>(
    before: Seq<(K::V, V)>,
    after: Seq<(K::V, V)>,
    k: K::V,
    v: V,
)
    requires
        ordered::<K, V>(before),
        ordered::<K, V>(after),
        as_map(before).contains_key(k),
        as_map(after) == as_map(before).insert(k, v),
    ensures
        after.len() == before.len(),
        keys_of(after) == keys_of(before),
        as_map(after)[k] == v,
{
    lemma_key_has_position(before, k);
    let at = position_of(before, k);
    let expected = before.update(at, (k, v));
    lemma_replace_value::<K, V>(before, at, v);
    lemma_order_determined::<K, V>(after, expected);
    assert(keys_of(expected) =~= keys_of(before));
}

/// Removing a key that a map does not hold leaves the map as it was.
pub proof fn lemma_delete_absent<KM, V>(m: Map<KM, V>, k: KM)
    requires
        !m.contains_key(k),
    ensures
        m.remove(k) == m,
        m.remove(k).dom() == m.dom(),
{
    assert(m.remove(k) =~= m);
}

/// Removing a key twice gives what removing it once gives.
pub proof fn lemma_delete_twice<KM, V>(m: Map<KM, V>, k: KM)
    ensures
        m.remove(k).remove(k) == m.remove(k),
{
    assert(m.remove(k).remove(k) =~= m.remove(k));
}

/// Two ordered sequences that stand for the same map are the same sequence,
/// so the map decides what iteration yields and in which order.
pub proof fn lemma_entries_follow_map<K: OrderedKey, V>(a: Seq<(K::V, V)>, b: Seq<(K::V, V)>)
    requires
        ordered::<K, V>(a),
        ordered::<K, V>(b),
        as_map(a) == as_map(b),
    ensures
        a == b,
        a.len() == as_map(a).dom().len(),
{
    lemma_order_determined::<K, V>(a, b);
    lemma_map_len::<K, V>(a);
}

/// A copy is a map of its own. It starts with the keys of its source. A key
/// removed from the copy afterwards is still held by the source, and a key
/// bound in the source afterwards is held by the copy only where the copy was
/// made with it.
pub proof fn lemma_copy_independent<K: OrderedKey, V>(
    source: Seq<(K::V, V)>,
    copy: Seq<(K::V, V)>,
    removed: K::V,
    added: K::V,
    value: V,
)
    requires
        ordered::<K, V>(source),
        keys_of(copy) == keys_of(source),
    ensures
        as_map(copy).dom() == as_map(source).dom(),
        !as_map(copy).remove(removed).contains_key(removed),
        as_map(copy).remove(removed).dom() == as_map(source).dom().remove(removed),
        as_map(source).insert(added, value).contains_key(added),
        as_map(copy).contains_key(added) <==> as_map(source).contains_key(added),
{
    lemma_same_keys::<K, V>(source, copy);
    assert(as_map(copy).remove(removed).dom() =~= as_map(source).dom().remove(removed));
}

/// For a key that a map does not hold, the plain lookup reports absence and
/// the failing lookup reports an error that carries the key: whatever
/// `OrderedMap::get` and `OrderedMap::index` may return under their
/// contracts, these are the results.
pub proof fn lemma_lookup_duality<K: OrderedKey, V>(
    m: Map<K::V, V>,
    key: K,
    got: Option<V>,
    indexed: Result<V, KeyNotFound<K>>,
)
    requires
        !m.contains_key(key@),
        got is Some <==> m.contains_key(key@),
        indexed is Ok <==> m.contains_key(key@),
        indexed matches Err(e) ==> e.key == key,
    ensures
        got is None,
        indexed == Err::<V, KeyNotFound<K>>(KeyNotFound { key }),
{
}

/// In an ordered sequence the keys come in strictly increasing order, no key
/// comes twice, and each key leads to the value at its position.
pub proof fn lemma_ordered_entries<K: OrderedKey, V>(pairs: Seq<(K::V, V)>, i: int, j: int)
    requires
        ordered::<K, V>(pairs),
        0 <= i < j < pairs.len(),
    ensures
        K::precedes(pairs[i].0, pairs[j].0),
        pairs[i].0 != pairs[j].0,
        as_map(pairs)[pairs[i].0] == pairs[i].1,
        as_map(pairs)[pairs[j].0] == pairs[j].1,
{
    assert(K::precedes(keys_of(pairs)[i], keys_of(pairs)[j]));
    K::lemma_irreflexive(pairs[i].0);
    lemma_entry_at::<K, V>(pairs, i);
    lemma_entry_at::<K, V>(pairs, j);
}

} // verus!
