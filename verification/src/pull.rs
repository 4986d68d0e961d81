//! What pulling one element at a time from the front of a sequence yields.

use vstd::prelude::*;

verus! {

/// The element that one pull yields: the first one, or nothing at the end.
pub open spec fn head_of<T>(s: Seq<T>) -> Option<T> {
    if s.len() > 0 {
        Some(s[0])
    } else {
        None
    }
}

/// What is left after one pull: all but the first element, or the empty
/// sequence unchanged.
pub open spec fn rest_of<T>(s: Seq<T>) -> Seq<T> {
    if s.len() > 0 {
        s.skip(1)
    } else {
        s
    }
}

/// What is left after `n` pulls.
pub open spec fn after_pulls<T>(s: Seq<T>, n: nat) -> Seq<T>
    decreases n,
{
    if n == 0 {
        s
    } else {
        after_pulls(rest_of(s), (n - 1) as nat)
    }
}

/// After `n` pulls the first `n` elements are gone, or all of them where the
/// sequence is shorter.
pub proof fn lemma_after_pulls<T>(s: Seq<T>, n: nat)
    ensures
        n <= s.len() ==> after_pulls(s, n) == s.skip(n as int),
        n >= s.len() ==> after_pulls(s, n) == Seq::<T>::empty(),
    decreases n,
{
    if n == 0 {
        assert(s.skip(0) =~= s);
        if s.len() == 0 {
            assert(s =~= Seq::<T>::empty());
        }
    } else {
        lemma_after_pulls(rest_of(s), (n - 1) as nat);
        if s.len() > 0 {
            if n <= s.len() {
                assert(s.skip(1).skip(n - 1) =~= s.skip(n as int));
            }
        } else {
            assert(s =~= Seq::<T>::empty());
        }
    }
}

/// Repeated pulls yield every element exactly once, in order: pull number
/// `i`, counted from zero, yields element `i`.
pub proof fn lemma_pull_yields_in_order<T>(s: Seq<T>, i: nat)
    requires
        i < s.len(),
    ensures
        head_of(after_pulls(s, i)) == Some(s[i as int]),
{
    lemma_after_pulls(s, i);
}

/// Once every element has been pulled, each further pull yields nothing and
/// leaves nothing.
pub proof fn lemma_pull_stays_exhausted<T>(s: Seq<T>, i: nat)
    requires
        i >= s.len(),
    ensures
        head_of(after_pulls(s, i)) is None,
        after_pulls(s, i).len() == 0,
{
    lemma_after_pulls(s, i);
}

/// A pull that yields nothing is followed only by pulls that yield nothing.
pub proof fn lemma_end_is_final<T>(s: Seq<T>, i: nat, j: nat)
    requires
        head_of(after_pulls(s, i)) is None,
        i <= j,
    ensures
        head_of(after_pulls(s, j)) is None,
{
    lemma_after_pulls(s, i);
    lemma_after_pulls(s, j);
    if i < s.len() {
        assert(s.skip(i as int).len() > 0);
    }
}

} // verus!
