//! The ordered map: unique keys in strictly increasing order, each bound to
//! one value.

use crate::drain::{DrainItems, DrainKeys, DrainValues};
use crate::entries::{
    as_map, cloned_each, key_views, keys_of, lemma_absent, lemma_entry_at, lemma_insert_pair,
    lemma_key_has_position, lemma_map_len, lemma_remove_pair, lemma_replace_value,
    lemma_same_keys, ordered, position_of, values_of, views_of,
};
use crate::order::{strictly_increasing, Comparison, OrderedKey};
use crate::snapshot::Snapshot;
use std::collections::VecDeque;
use vstd::prelude::*;

verus! {

/// The error of a failing lookup: the key that the map does not hold.
#[derive(Debug)]
pub struct KeyNotFound<K> {
    pub key: K,
}

/// A map from keys of type `K` to values of type `V` that keeps its entries
/// in increasing key order. Values are never inspected: they are stored,
/// handed back and, where a copy is asked for, cloned.
pub struct OrderedMap<K: OrderedKey, V> {
    slots: VecDeque<(K, V)>,
}

impl<K: OrderedKey, V> View for OrderedMap<K, V> {
    type V = Map<K::V, V>;

    /// The map from each key held to its value.
    open spec fn view(&self) -> Map<K::V, V> {
        as_map(self.entries())
    }
}

impl<K: OrderedKey, V> OrderedMap<K, V> {
    /// The entries in iteration order, each key given by its view.
    pub closed spec fn entries(&self) -> Seq<(K::V, V)> {
        views_of(self.slots@)
    }

    #[verifier::type_invariant]
    spec fn sorted(&self) -> bool {
        ordered::<K, V>(self.entries())
    }

    /// An empty map.
    pub fn new() -> (r: Self)
        ensures
            r.entries() == Seq::<(K::V, V)>::empty(),
            r@ == Map::<K::V, V>::empty(),
    {
        let r = OrderedMap { slots: VecDeque::new() };
        assert(r.entries() =~= Seq::<(K::V, V)>::empty());
        assert(r@ =~= Map::<K::V, V>::empty());
        r
    }

    /// The number of entries.
    pub fn len(&self) -> (r: usize)
        ensures
            r == self.entries().len(),
            r == self@.len(),
            self@.dom().finite(),
    {
        proof {
            use_type_invariant(self);
            lemma_map_len::<K, V>(self.entries());
        }
        self.slots.len()
    }

    /// Finds where `key` stands among the entries: the position of its entry
    /// where the map holds it, else the position at which it would be put.
    fn search(&self, key: &K) -> (r: (usize, bool))
        ensures
            r.0 <= self.entries().len(),
            r.1 ==> r.0 < self.entries().len() && self.entries()[r.0 as int].0 == key@,
            r.1 == self@.contains_key(key@),
            !r.1 ==> forall|i: int|
                0 <= i < r.0 ==> K::precedes((#[trigger] self.entries()[i]).0, key@),
            !r.1 ==> forall|i: int|
                r.0 <= i < self.entries().len() ==> K::precedes(
                    key@,
                    (#[trigger] self.entries()[i]).0,
                ),
    {
        proof {
            use_type_invariant(self);
        }
        let ghost pairs = self.entries();
        let ghost keys = keys_of(pairs);
        let mut low: usize = 0;
        let mut high: usize = self.slots.len();
        while low < high
            invariant
                pairs == self.entries(),
                keys == keys_of(pairs),
                ordered::<K, V>(pairs),
                low <= high <= pairs.len(),
                pairs.len() == self.slots@.len(),
                forall|i: int| 0 <= i < low ==> K::precedes((#[trigger] pairs[i]).0, key@),
                forall|i: int| high <= i < pairs.len() ==> K::precedes(key@, (#[trigger] pairs[i]).0),
            decreases high - low,
        {
            let middle = low + (high - low) / 2;
            let probe = &self.slots[middle];
            assert(pairs[middle as int].0 == probe.0@);
            match probe.0.compare(key) {
                Comparison::Less => {
                    proof {
                        assert forall|i: int| 0 <= i < middle + 1 implies K::precedes(
                            (#[trigger] pairs[i]).0,
                            key@,
                        ) by {
                            if i < middle {
                                assert(K::precedes(keys[i], keys[middle as int]));
                                K::lemma_transitive(pairs[i].0, pairs[middle as int].0, key@);
                            }
                        }
                    }
                    low = middle + 1;
                },
                Comparison::Equal => {
                    proof {
                        lemma_entry_at::<K, V>(pairs, middle as int);
                    }
                    return (middle, true);
                },
                Comparison::Greater => {
                    proof {
                        K::lemma_connected(probe.0@, key@);
                        assert forall|i: int| middle <= i < pairs.len() implies K::precedes(
                            key@,
                            (#[trigger] pairs[i]).0,
                        ) by {
                            if middle < i {
                                assert(K::precedes(keys[middle as int], keys[i]));
                                K::lemma_transitive(key@, pairs[middle as int].0, pairs[i].0);
                            }
                        }
                    }
                    high = middle;
                },
            }
        }
        proof {
            lemma_absent::<K, V>(pairs, low as int, key@);
        }
        (low, false)
    }

    /// Whether the map holds `key`.
    pub fn contains(&self, key: K) -> (r: bool)
        ensures
            r == self@.contains_key(key@),
    {
        let (_, found) = self.search(&key);
        found
    }

    /// The value bound to `key`, or `None` where the map does not hold it.
    pub fn get(&self, key: K) -> (r: Option<V>) where V: Clone
        ensures
            r is Some <==> self@.contains_key(key@),
            r matches Some(v) ==> cloned(self@[key@], v),
    {
        proof {
            use_type_invariant(self);
        }
        let (at, found) = self.search(&key);
        if found {
            proof {
                lemma_entry_at::<K, V>(self.entries(), at as int);
            }
            Some(self.slots[at].1.clone())
        } else {
            None
        }
    }

    /// The value bound to `key`, or the error that carries `key` where the
    /// map does not hold it.
    pub fn index(&self, key: K) -> (r: Result<V, KeyNotFound<K>>) where V: Clone
        ensures
            r is Ok <==> self@.contains_key(key@),
            r matches Ok(v) ==> cloned(self@[key@], v),
            r matches Err(e) ==> e.key == key,
    {
        proof {
            use_type_invariant(self);
        }
        let (at, found) = self.search(&key);
        if found {
            proof {
                lemma_entry_at::<K, V>(self.entries(), at as int);
            }
            Ok(self.slots[at].1.clone())
        } else {
            Err(KeyNotFound { key })
        }
    }

    /// Binds `key` to `value`: a new entry where the map does not hold the
    /// key, else the entry's value replaced.
    pub fn set(&mut self, key: K, value: V)
        ensures
            final(self)@ == old(self)@.insert(key@, value),
            ordered::<K, V>(final(self).entries()),
    {
        proof {
            use_type_invariant(&*self);
        }
        let (at, found) = self.search(&key);
        let ghost before = self.entries();
        let mut slots = VecDeque::new();
        core::mem::swap(&mut slots, &mut self.slots);
        if found {
            slots.remove(at);
        }
        slots.insert(at, (key, value));
        proof {
            if found {
                assert(views_of(slots@) =~= before.update(at as int, (before[at as int].0, value)));
                lemma_replace_value::<K, V>(before, at as int, value);
            } else {
                assert(views_of(slots@) =~= before.insert(at as int, (key@, value)));
                lemma_insert_pair::<K, V>(before, at as int, key@, value);
            }
        }
        self.slots = slots;
    }

    /// Removes the entry of `key`; a map that does not hold the key is left
    /// as it is.
    pub fn delete(&mut self, key: K)
        ensures
            final(self)@ == old(self)@.remove(key@),
            ordered::<K, V>(final(self).entries()),
            !old(self)@.contains_key(key@) ==> final(self).entries() == old(self).entries(),
    {
        proof {
            use_type_invariant(&*self);
        }
        let (at, found) = self.search(&key);
        let ghost before = self.entries();
        if found {
            let mut slots = VecDeque::new();
            core::mem::swap(&mut slots, &mut self.slots);
            slots.remove(at);
            proof {
                assert(views_of(slots@) =~= before.remove(at as int));
                lemma_remove_pair::<K, V>(before, at as int);
            }
            self.slots = slots;
        } else {
            assert(self@ =~= self@.remove(key@));
        }
    }
}

impl<K: OrderedKey, V> OrderedMap<K, V> {
    /// A snapshot of the keys, in increasing order.
    pub fn keys(&self) -> (r: Snapshot<K>)
        ensures
            r.remaining().len() == self.entries().len(),
            key_views(r.remaining()) == keys_of(self.entries()),
            strictly_increasing::<K>(key_views(r.remaining())),
            r.cursor() == 0,
    {
        proof {
            use_type_invariant(self);
        }
        let mut copied: VecDeque<K> = VecDeque::new();
        let mut i: usize = 0;
        while i < self.slots.len()
            invariant
                i <= self.slots@.len(),
                copied@.len() == i,
                self.entries().len() == self.slots@.len(),
                key_views(copied@) == keys_of(self.entries()).take(i as int),
            decreases self.slots@.len() - i,
        {
            let key = self.slots[i].0.duplicate();
            let ghost before = copied@;
            copied.push_back(key);
            proof {
                let source = keys_of(self.entries());
                assert(source[i as int] == key@);
                assert forall|j: int| 0 <= j < i + 1 implies key_views(copied@)[j] == source.take(
                    i + 1,
                )[j] by {
                    if j < i {
                        assert(key_views(before)[j] == source.take(i as int)[j]);
                        assert(key_views(before)[j] == before[j]@);
                        assert(copied@[j] == before[j]);
                    }
                }
                assert(key_views(copied@) =~= source.take(i + 1));
            }
            i += 1;
        }
        assert(keys_of(self.entries()).take(i as int) =~= keys_of(self.entries()));
        Snapshot::capture(copied)
    }

    /// What iterating over the map itself gives: a snapshot of the keys.
    pub fn iter(&self) -> (r: Snapshot<K>)
        ensures
            r.remaining().len() == self.entries().len(),
            key_views(r.remaining()) == keys_of(self.entries()),
            strictly_increasing::<K>(key_views(r.remaining())),
            r.cursor() == 0,
    {
        self.keys()
    }

    /// A snapshot of the values, in increasing order of their keys; each is a
    /// clone of the value held.
    pub fn values(&self) -> (r: Snapshot<V>) where V: Clone
        ensures
            cloned_each(values_of(self.entries()), r.remaining()),
            r.cursor() == 0,
    {
        let mut copied: VecDeque<V> = VecDeque::new();
        let mut i: usize = 0;
        while i < self.slots.len()
            invariant
                i <= self.slots@.len(),
                cloned_each(values_of(self.entries()).take(i as int), copied@),
            decreases self.slots@.len() - i,
        {
            let value = self.slots[i].1.clone();
            let ghost before = copied@;
            copied.push_back(value);
            proof {
                let source = values_of(self.entries());
                assert forall|j: int| 0 <= j < i + 1 implies cloned(
                    #[trigger] source.take(i + 1)[j],
                    copied@[j],
                ) by {
                    if j < i {
                        assert(source.take(i as int)[j] == source.take(i + 1)[j]);
                        assert(copied@[j] == before[j]);
                    }
                }
            }
            i += 1;
        }
        assert(values_of(self.entries()).take(i as int) =~= values_of(self.entries()));
        Snapshot::capture(copied)
    }

    /// A copy of the storage: the same keys, each with a clone of its value.
    fn copied_slots(&self) -> (r: VecDeque<(K, V)>) where V: Clone
        ensures
            keys_of(views_of(r@)) == keys_of(self.entries()),
            cloned_each(values_of(self.entries()), values_of(views_of(r@))),
    {
        let mut copied: VecDeque<(K, V)> = VecDeque::new();
        let mut i: usize = 0;
        while i < self.slots.len()
            invariant
                i <= self.slots@.len(),
                keys_of(views_of(copied@)) == keys_of(self.entries()).take(i as int),
                cloned_each(values_of(self.entries()).take(i as int), values_of(views_of(copied@))),
            decreases self.slots@.len() - i,
        {
            let key = self.slots[i].0.duplicate();
            let value = self.slots[i].1.clone();
            let ghost before = copied@;
            copied.push_back((key, value));
            proof {
                let source = values_of(self.entries());
                let source_keys = keys_of(self.entries());
                assert(source_keys[i as int] == key@);
                assert forall|j: int| 0 <= j < i + 1 implies keys_of(views_of(copied@))[j]
                    == source_keys.take(i + 1)[j] by {
                    if j < i {
                        assert(keys_of(views_of(before))[j] == source_keys.take(i as int)[j]);
                    }
                }
                assert(keys_of(views_of(copied@)) =~= source_keys.take(i + 1));
                assert forall|j: int| 0 <= j < i + 1 implies cloned(
                    #[trigger] source.take(i + 1)[j],
                    values_of(views_of(copied@))[j],
                ) by {
                    if j < i {
                        assert(source.take(i as int)[j] == source.take(i + 1)[j]);
                        assert(values_of(views_of(copied@))[j] == values_of(views_of(before))[j]);
                    }
                }
            }
            i += 1;
        }
        assert(keys_of(self.entries()).take(i as int) =~= keys_of(self.entries()));
        assert(values_of(self.entries()).take(i as int) =~= values_of(self.entries()));
        copied
    }

    /// A snapshot of the entries, in increasing key order; each holds the
    /// key and a clone of the value held.
    pub fn items(&self) -> (r: Snapshot<(K, V)>) where V: Clone
        ensures
            keys_of(views_of(r.remaining())) == keys_of(self.entries()),
            cloned_each(values_of(self.entries()), values_of(views_of(r.remaining()))),
            ordered::<K, V>(views_of(r.remaining())),
            r.cursor() == 0,
    {
        proof {
            use_type_invariant(self);
        }
        Snapshot::capture(self.copied_slots())
    }

    /// A map of its own with the same keys, each bound to a clone of the
    /// value that this map holds.
    pub fn copy(&self) -> (r: Self) where V: Clone
        ensures
            keys_of(r.entries()) == keys_of(self.entries()),
            cloned_each(values_of(self.entries()), values_of(r.entries())),
            ordered::<K, V>(r.entries()),
            r@.dom() == self@.dom(),
            forall|k: K::V| #[trigger] self@.contains_key(k) ==> cloned(self@[k], r@[k]),
    {
        proof {
            use_type_invariant(self);
        }
        let slots = self.copied_slots();
        let r = OrderedMap { slots };
        proof {
            let from = self.entries();
            let to = r.entries();
            lemma_same_keys::<K, V>(from, to);
            assert forall|k: K::V| #[trigger] self@.contains_key(k) implies cloned(
                self@[k],
                r@[k],
            ) by {
                let i = position_of(from, k);
                lemma_key_has_position(from, k);
                assert(cloned(values_of(from)[i], values_of(to)[i]));
            }
        }
        r
    }

    /// Detaches the storage and leaves the map empty.
    fn take_slots(&mut self) -> (r: VecDeque<(K, V)>)
        ensures
            views_of(r@) == old(self).entries(),
            ordered::<K, V>(old(self).entries()),
            final(self).entries() == Seq::<(K::V, V)>::empty(),
            final(self)@ == Map::<K::V, V>::empty(),
    {
        proof {
            use_type_invariant(&*self);
        }
        let mut slots = VecDeque::new();
        core::mem::swap(&mut slots, &mut self.slots);
        assert(self.entries() =~= Seq::<(K::V, V)>::empty());
        assert(self@ =~= Map::<K::V, V>::empty());
        slots
    }

    /// Moves every entry into a draining iterator over the keys, smallest
    /// first, and leaves the map empty.
    pub fn keys_final(&mut self) -> (r: DrainKeys<K, V>)
        ensures
            views_of(r.held()) == old(self).entries(),
            key_views(r.remaining()) == keys_of(old(self).entries()),
            strictly_increasing::<K>(key_views(r.remaining())),
            final(self).entries() == Seq::<(K::V, V)>::empty(),
            final(self)@ == Map::<K::V, V>::empty(),
    {
        let slots = self.take_slots();
        assert(key_views(keys_of(slots@)) =~= keys_of(views_of(slots@)));
        DrainKeys::detach(slots)
    }

    /// Moves every entry into a draining iterator over the values, in
    /// increasing order of their keys, and leaves the map empty.
    pub fn values_final(&mut self) -> (r: DrainValues<K, V>)
        ensures
            views_of(r.held()) == old(self).entries(),
            r.remaining() == values_of(old(self).entries()),
            final(self).entries() == Seq::<(K::V, V)>::empty(),
            final(self)@ == Map::<K::V, V>::empty(),
    {
        let slots = self.take_slots();
        assert(values_of(slots@) =~= values_of(views_of(slots@)));
        DrainValues::detach(slots)
    }

    /// Moves every entry into a draining iterator over the entries, smallest
    /// key first, and leaves the map empty.
    pub fn items_final(&mut self) -> (r: DrainItems<K, V>)
        ensures
            views_of(r.remaining()) == old(self).entries(),
            ordered::<K, V>(views_of(r.remaining())),
            final(self).entries() == Seq::<(K::V, V)>::empty(),
            final(self)@ == Map::<K::V, V>::empty(),
    {
        let slots = self.take_slots();
        DrainItems::detach(slots)
    }
}

} // verus!
