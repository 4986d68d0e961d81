//! Lexicographic order on byte sequences.

use crate::order::Comparison;
use vstd::prelude::*;

verus! {

/// `a` and `b` hold the same bytes at every position before `n`.
pub open spec fn agree_before(a: Seq<u8>, b: Seq<u8>, n: int) -> bool {
    &&& 0 <= n <= a.len()
    &&& n <= b.len()
    &&& forall|i: int| 0 <= i < n ==> a[i] == b[i]
}

/// At position `n`, after a common prefix, `a` ends while `b` goes on, or `a`
/// holds the smaller byte.
pub open spec fn falls_behind_at(a: Seq<u8>, b: Seq<u8>, n: int) -> bool {
    &&& agree_before(a, b, n)
    &&& n < b.len()
    &&& (n == a.len() || a[n] < b[n])
}

/// `a` comes strictly before `b` in lexicographic order: a proper prefix comes
/// before the longer sequence, and otherwise the first differing byte decides.
pub open spec fn lex_lt(a: Seq<u8>, b: Seq<u8>) -> bool {
    exists|n: int| falls_behind_at(a, b, n)
}

/// The three-way lexicographic comparison of `a` with `b`.
pub open spec fn lex_comparison(a: Seq<u8>, b: Seq<u8>) -> Comparison {
    if lex_lt(a, b) {
        Comparison::Less
    } else if a == b {
        Comparison::Equal
    } else {
        Comparison::Greater
    }
}

/// No sequence comes before itself.
pub proof fn lemma_lex_irreflexive(a: Seq<u8>)
    ensures
        !lex_lt(a, a),
{
}

/// The lexicographic order is transitive.
pub proof fn lemma_lex_transitive(a: Seq<u8>, b: Seq<u8>, c: Seq<u8>)
    requires
        lex_lt(a, b),
        lex_lt(b, c),
    ensures
        lex_lt(a, c),
{
    let n = choose|n: int| falls_behind_at(a, b, n);
    let m = choose|m: int| falls_behind_at(b, c, m);
    let k = if n <= m {
        n
    } else {
        m
    };
    assert(falls_behind_at(a, c, k));
}

/// Two sequences that agree before `k` are equal or ordered one way or the
/// other.
proof fn lemma_lex_connected_from(a: Seq<u8>, b: Seq<u8>, k: int)
    requires
        agree_before(a, b, k),
    ensures
        lex_lt(a, b) || a == b || lex_lt(b, a),
    decreases a.len() - k,
{
    if k == a.len() {
        if k == b.len() {
            assert(a =~= b);
        } else {
            assert(falls_behind_at(a, b, k));
        }
    } else if k == b.len() {
        assert(agree_before(b, a, k));
        assert(falls_behind_at(b, a, k));
    } else if a[k] < b[k] {
        assert(falls_behind_at(a, b, k));
    } else if b[k] < a[k] {
        assert(agree_before(b, a, k));
        assert(falls_behind_at(b, a, k));
    } else {
        lemma_lex_connected_from(a, b, k + 1);
    }
}

/// Any two distinct sequences are ordered one way or the other.
pub proof fn lemma_lex_connected(a: Seq<u8>, b: Seq<u8>)
    ensures
        lex_lt(a, b) || a == b || lex_lt(b, a),
{
    lemma_lex_connected_from(a, b, 0);
}

/// The order never holds in both directions.
pub proof fn lemma_lex_asymmetric(a: Seq<u8>, b: Seq<u8>)
    requires
        lex_lt(a, b),
    ensures
        !lex_lt(b, a),
        a != b,
{
    if lex_lt(b, a) {
        lemma_lex_transitive(a, b, a);
    }
}

/// Compares two byte strings lexicographically.
pub fn compare_bytes(a: &[u8], b: &[u8]) -> (r: Comparison)
    ensures
        r == lex_comparison(a@, b@),
{
    let mut i: usize = 0;
    while i < a.len() && i < b.len()
        invariant
            agree_before(a@, b@, i as int),
        decreases a.len() - i,
    {
        if a[i] < b[i] {
            assert(falls_behind_at(a@, b@, i as int));
            return Comparison::Less;
        }
        if b[i] < a[i] {
            proof {
                assert(agree_before(b@, a@, i as int));
                assert(falls_behind_at(b@, a@, i as int));
                lemma_lex_asymmetric(b@, a@);
            }
            return Comparison::Greater;
        }
        i += 1;
    }
    if i < b.len() {
        assert(falls_behind_at(a@, b@, i as int));
        Comparison::Less
    } else if i < a.len() {
        proof {
            assert(agree_before(b@, a@, i as int));
            assert(falls_behind_at(b@, a@, i as int));
            lemma_lex_asymmetric(b@, a@);
        }
        Comparison::Greater
    } else {
        proof {
            assert(a@ =~= b@);
            lemma_lex_irreflexive(a@);
        }
        Comparison::Equal
    }
}

} // verus!
