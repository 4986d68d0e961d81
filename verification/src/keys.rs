//! The key types that the maps are instantiated over: 64-bit signed integers,
//! UTF-8 strings and raw byte strings.

use crate::lexical::{
    compare_bytes, lemma_lex_connected, lemma_lex_irreflexive, lemma_lex_transitive, lex_lt,
};
use crate::order::{Comparison, OrderedKey};
use vstd::prelude::*;
use vstd::utf8::{encode_utf8, encode_utf8_decode_utf8};

verus! {

/// Integers are ordered by value.
impl OrderedKey for i64 {
    open spec fn precedes(a: i64, b: i64) -> bool {
        a < b
    }

    proof fn lemma_irreflexive(a: i64) {
    }

    proof fn lemma_transitive(a: i64, b: i64, c: i64) {
    }

    proof fn lemma_connected(a: i64, b: i64) {
    }

    fn compare(&self, other: &Self) -> (r: Comparison) {
        if *self < *other {
            Comparison::Less
        } else if *self == *other {
            Comparison::Equal
        } else {
            Comparison::Greater
        }
    }

    fn duplicate(&self) -> (r: Self) {
        *self
    }
}

/// Byte strings are ordered lexicographically by byte value.
impl OrderedKey for Vec<u8> {
    open spec fn precedes(a: Seq<u8>, b: Seq<u8>) -> bool {
        lex_lt(a, b)
    }

    proof fn lemma_irreflexive(a: Seq<u8>) {
        lemma_lex_irreflexive(a);
    }

    proof fn lemma_transitive(a: Seq<u8>, b: Seq<u8>, c: Seq<u8>) {
        lemma_lex_transitive(a, b, c);
    }

    proof fn lemma_connected(a: Seq<u8>, b: Seq<u8>) {
        lemma_lex_connected(a, b);
    }

    fn compare(&self, other: &Self) -> (r: Comparison) {
        proof {
            lemma_lex_irreflexive(self@);
        }
        compare_bytes(self.as_slice(), other.as_slice())
    }

    fn duplicate(&self) -> (r: Self) {
        let r = self.clone();
        assert(r@ =~= self@);
        r
    }
}

/// Two strings with the same UTF-8 encoding are the same string.
pub proof fn lemma_encoding_injective(a: Seq<char>, b: Seq<char>)
    requires
        encode_utf8(a) == encode_utf8(b),
    ensures
        a == b,
{
    encode_utf8_decode_utf8(a);
    encode_utf8_decode_utf8(b);
}

/// Strings are ordered lexicographically by the bytes of their UTF-8
/// encoding.
impl OrderedKey for String {
    open spec fn precedes(a: Seq<char>, b: Seq<char>) -> bool {
        lex_lt(encode_utf8(a), encode_utf8(b))
    }

    proof fn lemma_irreflexive(a: Seq<char>) {
        lemma_lex_irreflexive(encode_utf8(a));
    }

    proof fn lemma_transitive(a: Seq<char>, b: Seq<char>, c: Seq<char>) {
        lemma_lex_transitive(encode_utf8(a), encode_utf8(b), encode_utf8(c));
    }

    proof fn lemma_connected(a: Seq<char>, b: Seq<char>) {
        lemma_lex_connected(encode_utf8(a), encode_utf8(b));
        if encode_utf8(a) == encode_utf8(b) {
            lemma_encoding_injective(a, b);
        }
    }

    fn compare(&self, other: &Self) -> (r: Comparison) {
        proof {
            lemma_lex_irreflexive(encode_utf8(self@));
            if encode_utf8(self@) == encode_utf8(other@) {
                lemma_encoding_injective(self@, other@);
            }
        }
        compare_bytes(self.as_str().as_bytes(), other.as_str().as_bytes())
    }

    fn duplicate(&self) -> (r: Self) {
        self.clone()
    }
}

} // verus!
