//! Floating-point values as bit patterns.
//!
//! A coordinate, a knot or a weight is only ever carried from a body into a
//! record, so it is held as the 64 bits of its IEEE 754 double. The few
//! questions that are asked of such a value are questions about those bits.

use vstd::prelude::*;

verus! {

/// The bits of an IEEE 754 double.
pub type Bits = u64;

/// The bits of `0.0`.
pub const ZERO: Bits = 0x0000_0000_0000_0000;

/// The bits of `-0.0`, which are the sign bit alone.
pub const NEGATIVE_ZERO: Bits = 0x8000_0000_0000_0000;

/// The bits of `1.0`.
pub const ONE: Bits = 0x3ff0_0000_0000_0000;

/// The bits of positive infinity: the first pattern past the finite ones.
pub const INFINITY: Bits = 0x7ff0_0000_0000_0000;

/// The bits without the sign, which grow with the absolute value.
pub open spec fn magnitude(value: Bits) -> int {
    if value >= NEGATIVE_ZERO {
        value - NEGATIVE_ZERO
    } else {
        value as int
    }
}

/// Whether the value is not a number: larger than infinity but for its sign.
pub open spec fn not_a_number(value: Bits) -> bool {
    magnitude(value) > INFINITY
}

/// Equality of doubles: both zeros are one value, and what is not a number
/// equals nothing, itself included.
pub open spec fn same(left: Bits, right: Bits) -> bool {
    ||| left == right && !not_a_number(left)
    ||| magnitude(left) == 0 && magnitude(right) == 0
}

/// Whether the value is finite and greater than zero.
pub open spec fn positive_and_finite(value: Bits) -> bool {
    0 < value < INFINITY
}

/// Whether two values are equal as doubles.
pub fn same_value(left: Bits, right: Bits) -> (equal: bool)
    ensures
        equal == same(left, right),
{
    let left_magnitude: u64 = if left >= NEGATIVE_ZERO { left - NEGATIVE_ZERO } else { left };
    let right_magnitude: u64 = if right >= NEGATIVE_ZERO { right - NEGATIVE_ZERO } else { right };
    (left == right && left_magnitude <= INFINITY) || (left_magnitude == 0 && right_magnitude == 0)
}

/// Whether a width is usable: finite and greater than zero.
pub fn is_positive_and_finite(value: Bits) -> (usable: bool)
    ensures
        usable == positive_and_finite(value),
{
    0 < value && value < INFINITY
}

/// Two doubles are equal where their bits are and they are numbers, and where
/// both are zero, whatever their signs: the lower sixty-three bits of a number
/// are at most those of infinity.
pub proof fn doubles_compare(left: Bits, right: Bits)
    ensures
        same(left, right) <==> {
            ||| left == right && left % 0x8000_0000_0000_0000 <= 0x7ff0_0000_0000_0000
            ||| left % 0x8000_0000_0000_0000 == 0 && right % 0x8000_0000_0000_0000 == 0
        },
        same(left, right) == same(right, left),
{
}

/// A double is finite and greater than zero where it has no sign, is not zero
/// and is less than infinity.
pub proof fn usable_widths(value: Bits)
    ensures
        positive_and_finite(value) <==> 0x0000_0000_0000_0000 < value && value
            < 0x7ff0_0000_0000_0000,
{
}

} // verus!
