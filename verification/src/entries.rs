//! Sequences of key-value pairs in increasing key order, and the map that
//! such a sequence stands for.

use crate::order::{lemma_increasing_distinct, strictly_increasing, OrderedKey};
use vstd::prelude::*;

verus! {

/// The keys of the pairs, in the order of the pairs.
pub open spec fn keys_of<A, B>(pairs: Seq<(A, B)>) -> Seq<A> {
    pairs.map_values(|e: (A, B)| e.0)
}

/// The values of the pairs, in the order of the pairs.
pub open spec fn values_of<A, B>(pairs: Seq<(A, B)>) -> Seq<B> {
    pairs.map_values(|e: (A, B)| e.1)
}

/// The pairs with each key replaced by its view.
pub open spec fn views_of<K: View, V>(pairs: Seq<(K, V)>) -> Seq<(K::V, V)> {
    pairs.map_values(|e: (K, V)| (e.0@, e.1))
}

/// The views of the keys, in the order of the keys.
pub open spec fn key_views<K: View>(keys: Seq<K>) -> Seq<K::V> {
    keys.map_values(|k: K| k@)
}

/// `to` holds, position by position, a clone of what `from` holds.
pub open spec fn cloned_each<V: Clone>(from: Seq<V>, to: Seq<V>) -> bool {
    &&& from.len() == to.len()
    &&& forall|i: int| 0 <= i < from.len() ==> cloned(#[trigger] from[i], to[i])
}

/// Some pair holds the key `k`.
pub open spec fn has_key<A, B>(pairs: Seq<(A, B)>, k: A) -> bool {
    exists|i: int| 0 <= i < pairs.len() && (#[trigger] pairs[i]).0 == k
}

/// The position of a pair that holds the key `k`, where there is one.
pub open spec fn position_of<A, B>(pairs: Seq<(A, B)>, k: A) -> int {
    choose|i: int| 0 <= i < pairs.len() && (#[trigger] pairs[i]).0 == k
}

/// The map from each key among the pairs to the value paired with it.
pub open spec fn as_map<A, B>(pairs: Seq<(A, B)>) -> Map<A, B> {
    Map::new(|k: A| has_key(pairs, k), |k: A| pairs[position_of(pairs, k)].1)
}

/// The pairs are in strictly increasing key order.
pub open spec fn ordered<K: OrderedKey, V>(pairs: Seq<(K::V, V)>) -> bool {
    strictly_increasing::<K>(keys_of(pairs))
}

/// In an ordered sequence, the pair at `i` is the one that its key leads to.
pub proof fn lemma_entry_at<K: OrderedKey, V>(pairs: Seq<(K::V, V)>, i: int)
    requires
        ordered::<K, V>(pairs),
        0 <= i < pairs.len(),
    ensures
        has_key(pairs, pairs[i].0),
        position_of(pairs, pairs[i].0) == i,
        as_map(pairs).contains_key(pairs[i].0),
        as_map(pairs)[pairs[i].0] == pairs[i].1,
{
    let k = pairs[i].0;
    let j = position_of(pairs, k);
    lemma_increasing_distinct::<K>(keys_of(pairs));
    assert(keys_of(pairs)[i] == keys_of(pairs)[j]);
}

/// A key that the map holds is the key of some pair.
pub proof fn lemma_key_has_position<A, B>(pairs: Seq<(A, B)>, k: A)
    requires
        as_map(pairs).contains_key(k),
    ensures
        0 <= position_of(pairs, k) < pairs.len(),
        pairs[position_of(pairs, k)].0 == k,
        as_map(pairs)[k] == pairs[position_of(pairs, k)].1,
{
}

/// The map of an ordered sequence has as many keys as the sequence has pairs.
pub proof fn lemma_map_len<K: OrderedKey, V>(pairs: Seq<(K::V, V)>)
    requires
        ordered::<K, V>(pairs),
    ensures
        as_map(pairs).dom().finite(),
        as_map(pairs).dom().len() == pairs.len(),
{
    let keys = keys_of(pairs);
    lemma_increasing_distinct::<K>(keys);
    keys.unique_seq_to_set();
    vstd::seq_lib::seq_to_set_is_finite(keys);
    assert(as_map(pairs).dom() =~= keys.to_set()) by {
        assert forall|k: K::V| as_map(pairs).dom().contains(k) implies keys.to_set().contains(
            k,
        ) by {
            let i = position_of(pairs, k);
            assert(keys[i] == k);
        }
        assert forall|k: K::V| keys.to_set().contains(k) implies as_map(pairs).dom().contains(
            k,
        ) by {
            let i = choose|i: int| 0 <= i < keys.len() && keys[i] == k;
            assert(pairs[i].0 == k);
        }
    }
}

/// Putting a new key where it belongs keeps the order and adds the key to
/// the map.
pub proof fn lemma_insert_pair<K: OrderedKey, V>(pairs: Seq<(K::V, V)>, at: int, k: K::V, v: V)
    requires
        ordered::<K, V>(pairs),
        0 <= at <= pairs.len(),
        forall|i: int| 0 <= i < at ==> K::precedes((#[trigger] pairs[i]).0, k),
        forall|i: int| at <= i < pairs.len() ==> K::precedes(k, (#[trigger] pairs[i]).0),
    ensures
        ordered::<K, V>(pairs.insert(at, (k, v))),
        as_map(pairs.insert(at, (k, v))) == as_map(pairs).insert(k, v),
        !as_map(pairs).contains_key(k),
{
    let grown = pairs.insert(at, (k, v));
    let keys = keys_of(pairs);
    let grown_keys = keys_of(grown);
    assert forall|i: int, j: int| 0 <= i < j < grown_keys.len() implies K::precedes(
        #[trigger] grown_keys[i],
        #[trigger] grown_keys[j],
    ) by {
        let a = if i < at { i } else { i - 1 };
        let b = if j < at { j } else { j - 1 };
        if i == at {
            assert(grown_keys[j] == pairs[b].0);
        } else if j == at {
            assert(grown_keys[i] == pairs[a].0);
        } else {
            assert(grown_keys[i] == keys[a]);
            assert(grown_keys[j] == keys[b]);
        }
    }
    assert(!has_key(pairs, k)) by {
        K::lemma_irreflexive(k);
    }
    let target = as_map(pairs).insert(k, v);
    assert forall|x: K::V| as_map(grown).dom().contains(x) <==> target.dom().contains(x) by {
        if as_map(grown).dom().contains(x) {
            assert(has_key(grown, x));
            let i = position_of(grown, x);
            if i != at {
                let a = if i < at { i } else { i - 1 };
                assert(pairs[a].0 == x);
                assert(has_key(pairs, x));
            }
        }
        if target.dom().contains(x) {
            if x == k {
                assert(grown[at].0 == k);
            } else {
                assert(has_key(pairs, x));
                let a = position_of(pairs, x);
                let i = if a < at { a } else { a + 1 };
                assert(grown[i] == pairs[a]);
            }
            assert(has_key(grown, x));
        }
    }
    assert forall|x: K::V| as_map(grown).dom().contains(x) implies as_map(grown)[x] == target[x] by {
        if x == k {
            assert(grown[at].0 == k);
            lemma_entry_at::<K, V>(grown, at);
        } else {
            assert(has_key(pairs, x));
            let a = position_of(pairs, x);
            let i = if a < at { a } else { a + 1 };
            assert(grown[i] == pairs[a]);
            lemma_entry_at::<K, V>(grown, i);
        }
    }
    assert(as_map(grown) =~= target);
}

/// Replacing the value of the pair at `at` keeps the order and rebinds its
/// key in the map.
pub proof fn lemma_replace_value<K: OrderedKey, V>(pairs: Seq<(K::V, V)>, at: int, v: V)
    requires
        ordered::<K, V>(pairs),
        0 <= at < pairs.len(),
    ensures
        ordered::<K, V>(pairs.update(at, (pairs[at].0, v))),
        as_map(pairs.update(at, (pairs[at].0, v))) == as_map(pairs).insert(pairs[at].0, v),
        as_map(pairs).contains_key(pairs[at].0),
{
    let k = pairs[at].0;
    let changed = pairs.update(at, (k, v));
    assert(keys_of(changed) =~= keys_of(pairs));
    lemma_entry_at::<K, V>(pairs, at);
    let target = as_map(pairs).insert(k, v);
    assert forall|x: K::V| as_map(changed).dom().contains(x) <==> target.dom().contains(x) by {
        if as_map(changed).dom().contains(x) {
            assert(has_key(changed, x));
            let i = position_of(changed, x);
            assert(pairs[i].0 == x);
            assert(has_key(pairs, x));
        }
        if target.dom().contains(x) {
            if x == k {
                assert(changed[at].0 == k);
            } else {
                assert(has_key(pairs, x));
                let a = position_of(pairs, x);
                assert(changed[a] == pairs[a]);
            }
            assert(has_key(changed, x));
        }
    }
    assert forall|x: K::V| as_map(changed).dom().contains(x) implies as_map(changed)[x]
        == target[x] by {
        if x == k {
            assert(changed[at].0 == k);
            lemma_entry_at::<K, V>(changed, at);
        } else {
            assert(has_key(pairs, x));
            let a = position_of(pairs, x);
            assert(changed[a] == pairs[a]);
            lemma_entry_at::<K, V>(changed, a);
            lemma_entry_at::<K, V>(pairs, a);
        }
    }
    assert(as_map(changed) =~= target);
}

/// Taking out the pair at `at` keeps the order and removes its key from the
/// map.
pub proof fn lemma_remove_pair<K: OrderedKey, V>(pairs: Seq<(K::V, V)>, at: int)
    requires
        ordered::<K, V>(pairs),
        0 <= at < pairs.len(),
    ensures
        ordered::<K, V>(pairs.remove(at)),
        as_map(pairs.remove(at)) == as_map(pairs).remove(pairs[at].0),
{
    let k = pairs[at].0;
    let rest = pairs.remove(at);
    let keys = keys_of(pairs);
    let rest_keys = keys_of(rest);
    assert forall|i: int, j: int| 0 <= i < j < rest_keys.len() implies K::precedes(
        #[trigger] rest_keys[i],
        #[trigger] rest_keys[j],
    ) by {
        let a = if i < at { i } else { i + 1 };
        let b = if j < at { j } else { j + 1 };
        assert(rest_keys[i] == keys[a]);
        assert(rest_keys[j] == keys[b]);
    }
    lemma_increasing_distinct::<K>(keys);
    let target = as_map(pairs).remove(k);
    assert forall|x: K::V| as_map(rest).dom().contains(x) <==> target.dom().contains(x) by {
        if as_map(rest).dom().contains(x) {
            assert(has_key(rest, x));
            let i = position_of(rest, x);
            let a = if i < at { i } else { i + 1 };
            assert(pairs[a].0 == x);
            assert(keys[a] == x && keys[at] == k);
            assert(has_key(pairs, x));
        }
        if target.dom().contains(x) {
            assert(has_key(pairs, x));
            let a = position_of(pairs, x);
            let i = if a < at { a } else { a - 1 };
            assert(rest[i] == pairs[a]);
            assert(has_key(rest, x));
        }
    }
    assert forall|x: K::V| as_map(rest).dom().contains(x) implies as_map(rest)[x] == target[x] by {
        assert(target.dom().contains(x));
        assert(has_key(pairs, x));
        let a = position_of(pairs, x);
        let i = if a < at { a } else { a - 1 };
        assert(rest[i] == pairs[a]);
        lemma_entry_at::<K, V>(rest, i);
        lemma_entry_at::<K, V>(pairs, a);
    }
    assert(as_map(rest) =~= target);
}

/// A key that comes before, or after, every key of an ordered sequence in the
/// way a search leaves it is not in the map.
pub proof fn lemma_absent<K: OrderedKey, V>(pairs: Seq<(K::V, V)>, at: int, k: K::V)
    requires
        0 <= at <= pairs.len(),
        forall|i: int| 0 <= i < at ==> K::precedes((#[trigger] pairs[i]).0, k),
        forall|i: int| at <= i < pairs.len() ==> K::precedes(k, (#[trigger] pairs[i]).0),
    ensures
        !as_map(pairs).contains_key(k),
{
    K::lemma_irreflexive(k);
}

/// An ordered sequence is determined by the map it stands for: two ordered
/// sequences with the same map are the same sequence.
pub proof fn lemma_order_determined<K: OrderedKey, V>(a: Seq<(K::V, V)>, b: Seq<(K::V, V)>)
    requires
        ordered::<K, V>(a),
        ordered::<K, V>(b),
        as_map(a) == as_map(b),
    ensures
        a == b,
    decreases a.len(),
{
    lemma_map_len::<K, V>(a);
    lemma_map_len::<K, V>(b);
    if a.len() > 0 {
        let n = a.len() - 1;
        let last_a = a[n];
        let last_b = b[n];
        // The last pair of each sequence holds the greatest key of the map.
        lemma_entry_at::<K, V>(a, n);
        lemma_entry_at::<K, V>(b, n);
        let ia = position_of(b, last_a.0);
        let ib = position_of(a, last_b.0);
        assert(b[ia].0 == last_a.0 && a[ib].0 == last_b.0);
        assert(last_a.0 == last_b.0) by {
            K::lemma_irreflexive(last_a.0);
            if ia < n {
                assert(K::precedes(keys_of(b)[ia], keys_of(b)[n]));
                if ib < n {
                    assert(K::precedes(keys_of(a)[ib], keys_of(a)[n]));
                    K::lemma_transitive(last_a.0, last_b.0, last_a.0);
                }
            }
        }
        assert(last_a.1 == last_b.1);
        lemma_remove_pair::<K, V>(a, n);
        lemma_remove_pair::<K, V>(b, n);
        lemma_order_determined::<K, V>(a.remove(n), b.remove(n));
        assert(a =~= a.remove(n).push(last_a));
        assert(b =~= b.remove(n).push(last_b));
    } else {
        assert(a =~= b);
    }
}

/// Two ordered sequences with the same keys stand for maps with the same
/// keys, and a key's two values are those at its one position.
pub proof fn lemma_same_keys<K: OrderedKey, V>(a: Seq<(K::V, V)>, b: Seq<(K::V, V)>)
    requires
        ordered::<K, V>(a),
        keys_of(a) == keys_of(b),
    ensures
        ordered::<K, V>(b),
        as_map(a).dom() == as_map(b).dom(),
        forall|k: K::V| #[trigger]
            as_map(a).contains_key(k) ==> as_map(a)[k] == a[position_of(a, k)].1
                && as_map(b)[k] == b[position_of(a, k)].1,
{
    assert(a.len() == keys_of(a).len() && b.len() == keys_of(b).len());
    assert forall|k: K::V| as_map(a).dom().contains(k) <==> as_map(b).dom().contains(k) by {
        if as_map(a).dom().contains(k) {
            lemma_key_has_position(a, k);
            let i = position_of(a, k);
            assert(0 <= i < a.len());
            assert(a[i].0 == k);
            assert(keys_of(a)[i] == a[i].0);
            assert(0 <= i < b.len());
            assert(keys_of(b)[i] == b[i].0);
            assert(keys_of(a)[i] == keys_of(b)[i]);
            assert(b[i].0 == k);
        }
        if as_map(b).dom().contains(k) {
            lemma_key_has_position(b, k);
            let i = position_of(b, k);
            assert(0 <= i < a.len());
            assert(keys_of(b)[i] == b[i].0);
            assert(keys_of(a)[i] == a[i].0);
            assert(a[i].0 == k);
        }
    }
    assert(as_map(a).dom() =~= as_map(b).dom());
    assert forall|k: K::V| #[trigger] as_map(a).contains_key(k) implies as_map(a)[k] == a[position_of(
        a,
        k,
    )].1 && as_map(b)[k] == b[position_of(a, k)].1 by {
        lemma_key_has_position(a, k);
        let i = position_of(a, k);
        assert(0 <= i < b.len());
        assert(keys_of(a)[i] == a[i].0);
        assert(keys_of(b)[i] == b[i].0);
        lemma_entry_at::<K, V>(a, i);
        lemma_entry_at::<K, V>(b, i);
    }
}


} // verus!
