//! A total-order adapter for 64-bit floating-point values.
//!
//! A value is held as its IEEE 754 binary64 bit pattern: one sign bit, eleven
//! exponent bits and fifty-two fraction bits. The comparison places a NaN
//! after every number but before the infinities, so that it yields a definite
//! result for every pair of patterns.

use core::cmp::Ordering;
use vstd::prelude::*;

verus! {

/// The bit that holds the sign.
pub const SIGN_BIT: u64 = 0x8000_0000_0000_0000;

/// The pattern of positive infinity: all exponent bits set, no fraction bit.
pub const INFINITY_BITS: u64 = 0x7ff0_0000_0000_0000;

/// The pattern of negative infinity.
pub const NEG_INFINITY_BITS: u64 = 0xfff0_0000_0000_0000;

/// The pattern without its sign bit.
pub open spec fn magnitude(bits: u64) -> u64 {
    bits % SIGN_BIT
}

/// The sign bit is set.
pub open spec fn is_negative(bits: u64) -> bool {
    bits >= SIGN_BIT
}

/// The pattern is a NaN: all exponent bits set and some fraction bit set.
pub open spec fn is_nan(bits: u64) -> bool {
    magnitude(bits) > INFINITY_BITS
}

/// The pattern is positive or negative infinity.
pub open spec fn is_infinite(bits: u64) -> bool {
    magnitude(bits) == INFINITY_BITS
}

/// Where a pattern that is no NaN stands on the number line: patterns of one
/// sign are ordered as their magnitudes are, negative ones in reverse, and
/// the two zeros share one place.
pub open spec fn position(bits: u64) -> int {
    if is_negative(bits) {
        -(magnitude(bits) as int)
    } else {
        magnitude(bits) as int
    }
}

/// The comparison of two patterns that are no NaN, by numeric value.
pub open spec fn numeric_order(a: u64, b: u64) -> Ordering {
    if position(a) < position(b) {
        Ordering::Less
    } else if position(a) == position(b) {
        Ordering::Equal
    } else {
        Ordering::Greater
    }
}

/// The adapter's comparison of `a` with `b`. The first rule that applies
/// decides: a NaN is less than an infinity of either sign; a NaN is greater
/// than anything else, another NaN included; anything else is less than a
/// NaN; two numbers compare by value.
pub open spec fn adapted_order(a: u64, b: u64) -> Ordering {
    if is_nan(a) && is_infinite(b) {
        Ordering::Less
    } else if is_nan(a) {
        Ordering::Greater
    } else if is_nan(b) {
        Ordering::Less
    } else {
        numeric_order(a, b)
    }
}

/// A floating-point value with a comparison that is defined on every pair.
#[derive(Clone, Copy, Debug)]
pub struct OrderedFloat {
    bits: u64,
}

impl View for OrderedFloat {
    type V = u64;

    /// The bit pattern of the wrapped value.
    closed spec fn view(&self) -> u64 {
        self.bits
    }
}

impl OrderedFloat {
    /// Wraps the value with the given bit pattern.
    pub fn from_bits(bits: u64) -> (r: Self)
        ensures
            r@ == bits,
    {
        OrderedFloat { bits }
    }

    /// The bit pattern of the wrapped value.
    pub fn to_bits(&self) -> (r: u64)
        ensures
            r == self@,
    {
        self.bits
    }

    /// Whether the wrapped value is a NaN.
    pub fn is_nan(&self) -> (r: bool)
        ensures
            r == is_nan(self@),
    {
        self.bits % SIGN_BIT > INFINITY_BITS
    }

    /// Whether the wrapped value is positive or negative infinity.
    pub fn is_infinite(&self) -> (r: bool)
        ensures
            r == is_infinite(self@),
    {
        self.bits % SIGN_BIT == INFINITY_BITS
    }

    /// Compares `self` with `other` under the adapter's order.
    pub fn cmp(&self, other: &Self) -> (r: Ordering)
        ensures
            r == adapted_order(self@, other@),
    {
        if self.is_nan() {
            if other.is_infinite() {
                Ordering::Less
            } else {
                Ordering::Greater
            }
        } else if other.is_nan() {
            Ordering::Less
        } else {
            let left: u64 = self.bits % SIGN_BIT;
            let right: u64 = other.bits % SIGN_BIT;
            let left_negative = self.bits >= SIGN_BIT;
            let right_negative = other.bits >= SIGN_BIT;
            if left_negative != right_negative {
                if left == 0 && right == 0 {
                    Ordering::Equal
                } else if left_negative {
                    Ordering::Less
                } else {
                    Ordering::Greater
                }
            } else if left == right {
                Ordering::Equal
            } else if (left < right) != left_negative {
                Ordering::Less
            } else {
                Ordering::Greater
            }
        }
    }
}

/// The outcome seen from the other operand's side.
pub open spec fn mirrored(o: Ordering) -> Ordering {
    match o {
        Ordering::Less => Ordering::Greater,
        Ordering::Equal => Ordering::Equal,
        Ordering::Greater => Ordering::Less,
    }
}

/// On patterns that are no NaN the adapter's order is the numeric one, and
/// swapping the operands mirrors the outcome.
pub proof fn lemma_numbers_mirror(a: u64, b: u64)
    requires
        !is_nan(a),
        !is_nan(b),
    ensures
        adapted_order(a, b) == numeric_order(a, b),
        adapted_order(b, a) == mirrored(adapted_order(a, b)),
{
}

/// On patterns that are no NaN, less-or-equal is transitive.
pub proof fn lemma_numbers_transitive(a: u64, b: u64, c: u64)
    requires
        !is_nan(a),
        !is_nan(b),
        !is_nan(c),
        adapted_order(a, b) != Ordering::Greater,
        adapted_order(b, c) != Ordering::Greater,
    ensures
        adapted_order(a, c) != Ordering::Greater,
        adapted_order(a, b) == Ordering::Less || adapted_order(b, c) == Ordering::Less
            ==> adapted_order(a, c) == Ordering::Less,
{
}

/// Negative infinity is below, and positive infinity above, every pattern
/// that is no NaN.
pub proof fn lemma_infinities_bound_numbers(a: u64)
    requires
        !is_nan(a),
    ensures
        adapted_order(NEG_INFINITY_BITS, a) != Ordering::Greater,
        adapted_order(a, INFINITY_BITS) != Ordering::Greater,
{
}

/// Where a NaN stands: above every finite number and above another NaN,
/// whichever side it is on, but below both infinities, each of which is in
/// turn below it.
pub proof fn lemma_nan_placement(nan: u64, other: u64)
    requires
        is_nan(nan),
    ensures
        is_infinite(other) ==> adapted_order(nan, other) == Ordering::Less && adapted_order(
            other,
            nan,
        ) == Ordering::Less,
        is_nan(other) ==> adapted_order(nan, other) == Ordering::Greater,
        !is_infinite(other) && !is_nan(other) ==> adapted_order(nan, other) == Ordering::Greater
            && adapted_order(other, nan) == Ordering::Less,
{
}

} // verus!
