use ordered_maps::drain::{DrainItems, DrainKeys, DrainValues};
use ordered_maps::map::OrderedMap;
use ordered_maps::snapshot::Snapshot;
use ordered_maps::typed_maps::{IntMap, StringMap};
use std::collections::VecDeque;
use std::rc::Rc;

fn sample() -> IntMap<&'static str> {
    let mut m: IntMap<&'static str> = OrderedMap::new();
    m.set(2, "two");
    m.set(1, "one");
    m.set(3, "three");
    m
}

#[test]
fn keys_snapshot_is_isolated_from_later_set() {
    let mut m = sample();
    let mut ks = m.keys();
    m.set(4, "four");
    assert_eq!(ks.next(), Some(1));
    assert_eq!(ks.next(), Some(2));
    assert_eq!(ks.next(), Some(3));
    assert_eq!(ks.next(), None);
    let mut fresh = m.keys();
    assert_eq!(fresh.next(), Some(1));
    assert_eq!(fresh.next(), Some(2));
    assert_eq!(fresh.next(), Some(3));
    assert_eq!(fresh.next(), Some(4));
    assert_eq!(fresh.next(), None);
}

#[test]
fn snapshot_is_isolated_from_later_delete() {
    let mut m = sample();
    let mut items = m.items();
    let mut values = m.values();
    m.delete(1);
    m.delete(2);
    m.delete(3);
    assert_eq!(m.len(), 0);
    assert_eq!(items.next(), Some((1, "one")));
    assert_eq!(items.next(), Some((2, "two")));
    assert_eq!(items.next(), Some((3, "three")));
    assert_eq!(items.next(), None);
    assert_eq!(values.next(), Some("one"));
    assert_eq!(values.next(), Some("two"));
    assert_eq!(values.next(), Some("three"));
    assert_eq!(values.next(), None);
}

#[test]
fn snapshots_leave_the_map_as_it_was() {
    let m = sample();
    let _k = m.keys();
    let _v = m.values();
    let _i = m.items();
    assert_eq!(m.len(), 3);
    assert_eq!(m.get(2), Some("two"));
}

#[test]
fn default_iteration_is_a_key_snapshot() {
    let mut m = sample();
    let mut it = m.iter();
    m.delete(2);
    assert_eq!(it.next(), Some(1));
    assert_eq!(it.next(), Some(2));
    assert_eq!(it.next(), Some(3));
    assert_eq!(it.next(), None);
    assert_eq!(m.len(), 2);
}

#[test]
fn items_final_drains_everything_in_order_and_empties_the_map() {
    let mut m = sample();
    let n = m.len();
    let mut it = m.items_final();
    assert_eq!(m.len(), 0);
    assert!(!m.contains(1));
    let mut out = Vec::new();
    while let Some(e) = it.next() {
        out.push(e);
    }
    assert_eq!(out.len(), n);
    assert_eq!(out, vec![(1, "one"), (2, "two"), (3, "three")]);
    assert_eq!(it.next(), None);
}

#[test]
fn keys_final_drains_keys_and_empties_the_map() {
    let mut m = sample();
    let mut it = m.keys_final();
    assert_eq!(m.len(), 0);
    assert_eq!(it.next(), Some(1));
    assert_eq!(it.next(), Some(2));
    assert_eq!(it.next(), Some(3));
    assert_eq!(it.next(), None);
    assert_eq!(it.next(), None);
}

#[test]
fn values_final_drains_values_and_empties_the_map() {
    let mut m = sample();
    let mut it = m.values_final();
    assert_eq!(m.len(), 0);
    assert_eq!(it.next(), Some("one"));
    assert_eq!(it.next(), Some("two"));
    assert_eq!(it.next(), Some("three"));
    assert_eq!(it.next(), None);
    assert_eq!(it.next(), None);
}

#[test]
fn map_is_usable_after_drain() {
    let mut m = sample();
    let mut first = m.keys_final();
    m.set(10, "ten");
    m.set(5, "five");
    assert_eq!(m.len(), 2);
    assert_eq!(first.next(), Some(1));
    let mut second = m.items_final();
    assert_eq!(m.len(), 0);
    assert_eq!(second.next(), Some((5, "five")));
    assert_eq!(second.next(), Some((10, "ten")));
    assert_eq!(second.next(), None);
    assert_eq!(first.next(), Some(2));
    assert_eq!(first.next(), Some(3));
    assert_eq!(first.next(), None);
}

#[test]
fn drain_of_empty_map_yields_nothing() {
    let mut m: StringMap<i32> = OrderedMap::new();
    let mut a = m.keys_final();
    let mut b = m.values_final();
    let mut c = m.items_final();
    assert_eq!(a.next(), None);
    assert_eq!(b.next(), None);
    assert_eq!(c.next(), None);
    assert_eq!(m.len(), 0);
}

#[test]
fn snapshot_of_empty_map_yields_nothing() {
    let m: StringMap<i32> = OrderedMap::new();
    assert_eq!(m.keys().next(), None);
    assert_eq!(m.values().next(), None);
    assert_eq!(m.items().next(), None);
}

#[test]
fn exhausted_snapshot_stays_exhausted() {
    let m = sample();
    let mut ks = m.keys();
    while ks.next().is_some() {}
    for _ in 0..5 {
        assert_eq!(ks.next(), None);
    }
    let mut vs = m.values();
    while vs.next().is_some() {}
    for _ in 0..5 {
        assert_eq!(vs.next(), None);
    }
}

#[test]
fn exhausted_drain_stays_exhausted() {
    let mut m = sample();
    let mut it = m.items_final();
    while it.next().is_some() {}
    for _ in 0..5 {
        assert_eq!(it.next(), None);
    }
}

#[test]
fn drain_moves_handles_and_releases_them_one_by_one() {
    let a = Rc::new(1);
    let b = Rc::new(2);
    let mut m: IntMap<Rc<i32>> = OrderedMap::new();
    m.set(1, Rc::clone(&a));
    m.set(2, Rc::clone(&b));
    let mut it = m.values_final();
    assert_eq!(Rc::strong_count(&a), 2);
    assert_eq!(Rc::strong_count(&b), 2);
    let first = it.next().unwrap();
    assert!(Rc::ptr_eq(&first, &a));
    assert_eq!(Rc::strong_count(&a), 2);
    drop(first);
    assert_eq!(Rc::strong_count(&a), 1);
    assert_eq!(Rc::strong_count(&b), 2);
    drop(it);
    assert_eq!(Rc::strong_count(&b), 1);
}

#[test]
fn keys_final_releases_the_value_of_each_entry_pulled() {
    let a = Rc::new(1);
    let mut m: IntMap<Rc<i32>> = OrderedMap::new();
    m.set(1, Rc::clone(&a));
    let mut it = m.keys_final();
    assert_eq!(Rc::strong_count(&a), 2);
    assert_eq!(it.next(), Some(1));
    assert_eq!(Rc::strong_count(&a), 1);
}

#[test]
fn snapshot_values_share_handles_with_the_map() {
    let a = Rc::new(1);
    let mut m: IntMap<Rc<i32>> = OrderedMap::new();
    m.set(1, Rc::clone(&a));
    let mut vs = m.values();
    assert_eq!(Rc::strong_count(&a), 3);
    let v = vs.next().unwrap();
    assert!(Rc::ptr_eq(&v, &a));
    drop(v);
    drop(vs);
    assert_eq!(Rc::strong_count(&a), 2);
}

#[test]
fn captured_snapshot_hands_out_elements_front_to_back() {
    let mut q = VecDeque::new();
    q.push_back('x');
    q.push_back('y');
    let mut s = Snapshot::capture(q);
    assert_eq!(s.next(), Some('x'));
    assert_eq!(s.next(), Some('y'));
    assert_eq!(s.next(), None);
    assert_eq!(s.next(), None);
}

#[test]
fn detached_store_is_drained_front_to_back() {
    let mut q = VecDeque::new();
    q.push_back((1u8, 'a'));
    q.push_back((2u8, 'b'));
    let mut items = DrainItems::detach(q.clone());
    let mut keys = DrainKeys::detach(q.clone());
    let mut values = DrainValues::detach(q);
    assert_eq!(items.next(), Some((1, 'a')));
    assert_eq!(items.next(), Some((2, 'b')));
    assert_eq!(items.next(), None);
    assert_eq!(keys.next(), Some(1));
    assert_eq!(keys.next(), Some(2));
    assert_eq!(keys.next(), None);
    assert_eq!(values.next(), Some('a'));
    assert_eq!(values.next(), Some('b'));
    assert_eq!(values.next(), None);
}

#[test]
fn string_items_come_in_key_order() {
    let mut m: StringMap<i32> = OrderedMap::new();
    m.set("pear".to_string(), 3);
    m.set("apple".to_string(), 1);
    m.set("fig".to_string(), 2);
    let mut it = m.items();
    assert_eq!(it.next(), Some(("apple".to_string(), 1)));
    assert_eq!(it.next(), Some(("fig".to_string(), 2)));
    assert_eq!(it.next(), Some(("pear".to_string(), 3)));
    assert_eq!(it.next(), None);
}
