//! Three-way comparison results and the contract of a totally ordered key.

use vstd::prelude::*;

verus! {

/// Outcome of comparing a left operand with a right operand.
#[derive(Clone, Copy, Debug, PartialEq, Eq, Structural)]
pub enum Comparison {
    Less,
    Equal,
    Greater,
}

/// A key type with a strict total order.
///
/// The order is stated over the key's view, so two keys with the same view are
/// the same key. An implementation supplies the order, proves that it is
/// irreflexive, transitive and connected, and provides an executable
/// three-way comparison and a way to duplicate a key.
pub trait OrderedKey: View + Sized {
    /// `a` comes strictly before `b`.
    spec fn precedes(a: Self::V, b: Self::V) -> bool;

    /// No key comes before itself.
    proof fn lemma_irreflexive(a: Self::V)
        ensures
            !Self::precedes(a, a),
    ;

    /// The order is transitive.
    proof fn lemma_transitive(a: Self::V, b: Self::V, c: Self::V)
        requires
            Self::precedes(a, b),
            Self::precedes(b, c),
        ensures
            Self::precedes(a, c),
    ;

    /// Any two distinct keys are ordered one way or the other.
    proof fn lemma_connected(a: Self::V, b: Self::V)
        ensures
            Self::precedes(a, b) || a == b || Self::precedes(b, a),
    ;

    /// Compares `self` with `other`: `Less` where `self` comes first, `Equal`
    /// where the two are the same key, `Greater` otherwise.
    fn compare(&self, other: &Self) -> (r: Comparison)
        ensures
            r == Comparison::Less <==> Self::precedes(self@, other@),
            r == Comparison::Equal <==> self@ == other@,
    ;

    /// A second key with the same view.
    fn duplicate(&self) -> (r: Self)
        ensures
            r@ == self@,
    ;
}

/// The three-way comparison that the strict order of `K` determines.
pub open spec fn comparison_of<K: OrderedKey>(a: K::V, b: K::V) -> Comparison {
    if K::precedes(a, b) {
        Comparison::Less
    } else if a == b {
        Comparison::Equal
    } else {
        Comparison::Greater
    }
}

/// Every element of `keys` comes strictly before each later element.
pub open spec fn strictly_increasing<K: OrderedKey>(keys: Seq<K::V>) -> bool {
    forall|i: int, j: int|
        0 <= i < j < keys.len() ==> K::precedes(#[trigger] keys[i], #[trigger] keys[j])
}

/// `Greater` means that the right operand comes strictly before the left one,
/// and exactly one of the three outcomes describes any pair.
pub proof fn lemma_comparison_of<K: OrderedKey>(a: K::V, b: K::V)
    ensures
        comparison_of::<K>(a, b) == Comparison::Less <==> K::precedes(a, b),
        comparison_of::<K>(a, b) == Comparison::Equal <==> a == b,
        comparison_of::<K>(a, b) == Comparison::Greater <==> K::precedes(b, a),
{
    K::lemma_connected(a, b);
    K::lemma_irreflexive(a);
    if K::precedes(a, b) && K::precedes(b, a) {
        K::lemma_transitive(a, b, a);
    }
}

/// A strictly increasing sequence holds no key twice.
pub proof fn lemma_increasing_distinct<K: OrderedKey>(keys: Seq<K::V>)
    requires
        strictly_increasing::<K>(keys),
    ensures
        keys.no_duplicates(),
{
    assert forall|i: int, j: int| 0 <= i < keys.len() && 0 <= j < keys.len() && i != j implies keys[i]
        != keys[j] by {
        K::lemma_irreflexive(keys[i]);
        if i < j {
            assert(K::precedes(keys[i], keys[j]));
        } else {
            assert(K::precedes(keys[j], keys[i]));
        }
    }
}

} // verus!
