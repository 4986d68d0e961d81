//! The map and its iterators at each supported key type.

use crate::drain::{DrainItems, DrainKeys, DrainValues};
use crate::map::OrderedMap;
use crate::snapshot::Snapshot;
use vstd::prelude::*;

verus! {

/// A map keyed by 64-bit signed integers, ordered by value.
pub type IntMap<V> = OrderedMap<i64, V>;

/// A snapshot of the keys of an [`IntMap`].
pub type IntMapKeys = Snapshot<i64>;

/// A snapshot of the entries of an [`IntMap`].
pub type IntMapItems<V> = Snapshot<(i64, V)>;

/// A draining iterator over the keys of an [`IntMap`].
pub type IntMapDrainKeys<V> = DrainKeys<i64, V>;

/// A draining iterator over the values of an [`IntMap`].
pub type IntMapDrainValues<V> = DrainValues<i64, V>;

/// A draining iterator over the entries of an [`IntMap`].
pub type IntMapDrainItems<V> = DrainItems<i64, V>;

/// A map keyed by UTF-8 strings, ordered by the bytes of their encoding.
pub type StringMap<V> = OrderedMap<String, V>;

/// A snapshot of the keys of a [`StringMap`].
pub type StringMapKeys = Snapshot<String>;

/// A snapshot of the entries of a [`StringMap`].
pub type StringMapItems<V> = Snapshot<(String, V)>;

/// A draining iterator over the keys of a [`StringMap`].
pub type StringMapDrainKeys<V> = DrainKeys<String, V>;

/// A draining iterator over the values of a [`StringMap`].
pub type StringMapDrainValues<V> = DrainValues<String, V>;

/// A draining iterator over the entries of a [`StringMap`].
pub type StringMapDrainItems<V> = DrainItems<String, V>;

/// A map keyed by raw byte strings, ordered lexicographically.
pub type BytesMap<V> = OrderedMap<Vec<u8>, V>;

/// A snapshot of the keys of a [`BytesMap`].
pub type BytesMapKeys = Snapshot<Vec<u8>>;

/// A snapshot of the entries of a [`BytesMap`].
pub type BytesMapItems<V> = Snapshot<(Vec<u8>, V)>;

/// A draining iterator over the keys of a [`BytesMap`].
pub type BytesMapDrainKeys<V> = DrainKeys<Vec<u8>, V>;

/// A draining iterator over the values of a [`BytesMap`].
pub type BytesMapDrainValues<V> = DrainValues<Vec<u8>, V>;

/// A draining iterator over the entries of a [`BytesMap`].
pub type BytesMapDrainItems<V> = DrainItems<Vec<u8>, V>;

/// A snapshot of the values of a map, whatever its key type.
pub type MapValues<V> = Snapshot<V>;

} // verus!
