//! Draining iteration: a one-pass sequence that owns what was a map's
//! storage and gives up one entry per pull, smallest key first.

use crate::entries::{keys_of, values_of};
use crate::pull::{head_of, rest_of};
use std::collections::VecDeque;
use vstd::prelude::*;

verus! {

/// Yields the detached entries as key-value pairs.
pub struct DrainItems<K, V> {
    store: VecDeque<(K, V)>,
}

/// Yields the keys of the detached entries and drops their values.
pub struct DrainKeys<K, V> {
    store: VecDeque<(K, V)>,
}

/// Yields the values of the detached entries and drops their keys.
pub struct DrainValues<K, V> {
    store: VecDeque<(K, V)>,
}

impl<K, V> DrainItems<K, V> {
    /// The entries still held, in the order in which they will come.
    pub closed spec fn remaining(&self) -> Seq<(K, V)> {
        self.store@
    }

    /// Takes over the given storage.
    pub fn detach(store: VecDeque<(K, V)>) -> (r: Self)
        ensures
            r.remaining() == store@,
    {
        DrainItems { store }
    }

    /// Removes the first entry still held and returns it, or returns `None`
    /// where none is left.
    pub fn next(&mut self) -> (r: Option<(K, V)>)
        ensures
            r == head_of(old(self).remaining()),
            final(self).remaining() == rest_of(old(self).remaining()),
    {
        self.store.pop_front()
    }
}

impl<K, V> DrainKeys<K, V> {
    /// The entries still held, in the order in which they will come.
    pub closed spec fn held(&self) -> Seq<(K, V)> {
        self.store@
    }

    /// The keys still to come.
    pub open spec fn remaining(&self) -> Seq<K> {
        keys_of(self.held())
    }

    /// Takes over the given storage.
    pub fn detach(store: VecDeque<(K, V)>) -> (r: Self)
        ensures
            r.held() == store@,
    {
        DrainKeys { store }
    }

    /// Removes the first entry still held and returns its key, or returns
    /// `None` where none is left.
    pub fn next(&mut self) -> (r: Option<K>)
        ensures
            r == head_of(old(self).remaining()),
            final(self).held() == rest_of(old(self).held()),
            final(self).remaining() == rest_of(old(self).remaining()),
    {
        let first = self.store.pop_front();
        proof {
            if old(self).held().len() > 0 {
                assert(keys_of(old(self).held().skip(1)) =~= keys_of(old(self).held()).skip(1));
            }
        }
        match first {
            Some(entry) => Some(entry.0),
            None => None,
        }
    }
}

impl<K, V> DrainValues<K, V> {
    /// The entries still held, in the order in which they will come.
    pub closed spec fn held(&self) -> Seq<(K, V)> {
        self.store@
    }

    /// The values still to come.
    pub open spec fn remaining(&self) -> Seq<V> {
        values_of(self.held())
    }

    /// Takes over the given storage.
    pub fn detach(store: VecDeque<(K, V)>) -> (r: Self)
        ensures
            r.held() == store@,
    {
        DrainValues { store }
    }

    /// Removes the first entry still held and returns its value, or returns
    /// `None` where none is left.
    pub fn next(&mut self) -> (r: Option<V>)
        ensures
            r == head_of(old(self).remaining()),
            final(self).held() == rest_of(old(self).held()),
            final(self).remaining() == rest_of(old(self).remaining()),
    {
        let first = self.store.pop_front();
        proof {
            if old(self).held().len() > 0 {
                assert(values_of(old(self).held().skip(1)) =~= values_of(old(self).held()).skip(
                    1,
                ));
            }
        }
        match first {
            Some(entry) => Some(entry.1),
            None => None,
        }
    }
}

} // verus!
