//! Numbers of the language: IEEE-754 doubles, held as their 64-bit patterns.
//!
//! Everything the evaluator decides from a number (whether it is zero, whether
//! it is not-a-number, how two numbers are ordered, what its negation is) is
//! read off the bit pattern here. Rounded arithmetic and the conversion
//! between numbers and text are left to the [`Host`](crate::host::Host).

use vstd::prelude::*;

verus! {

/// The sign bit of a double.
pub const SIGN_BIT: u64 = 0x8000_0000_0000_0000;

/// Every bit of a double but its sign.
pub const MAGNITUDE_BITS: u64 = 0x7fff_ffff_ffff_ffff;

/// The magnitude of positive infinity; every larger magnitude is a not-a-number.
pub const INFINITY_BITS: u64 = 0x7ff0_0000_0000_0000;

/// The four rounded operations that the host performs.
#[derive(Clone, Copy, PartialEq, Eq, Structural, Debug)]
pub enum Arithmetic {
    Add,
    Subtract,
    Multiply,
    Divide,
}

/// A double, as the 64 bits that represent it.
///
/// `==` on this type compares bit patterns. The language's own equality is
/// [`Number::equals`], which follows IEEE-754.
#[derive(Clone, Copy, PartialEq, Eq, Structural, Debug, Hash)]
pub struct Number {
    pub bits: u64,
}

impl Number {
    /// The bit pattern without its sign.
    pub open spec fn magnitude(self) -> u64 {
        self.bits & MAGNITUDE_BITS
    }

    /// Whether the sign bit is set.
    pub open spec fn is_negative(self) -> bool {
        self.bits >= SIGN_BIT
    }

    /// Whether this is one of the two zeros.
    pub open spec fn is_zero_spec(self) -> bool {
        self.magnitude() == 0
    }

    /// Whether this is a not-a-number.
    pub open spec fn is_nan_spec(self) -> bool {
        self.magnitude() > INFINITY_BITS
    }

    /// An integer that orders the doubles as their values do: doubles are kept
    /// in sign-magnitude form, so the magnitude bits, negated under a set sign
    /// bit, grow exactly as the value grows. Both zeros have key 0.
    pub open spec fn key(self) -> int {
        if self.is_negative() {
            -(self.magnitude() as int)
        } else {
            self.magnitude() as int
        }
    }

    /// IEEE-754 equality: no not-a-number equals anything, the two zeros are equal.
    pub open spec fn equals_spec(self, other: Number) -> bool {
        !self.is_nan_spec() && !other.is_nan_spec() && self.key() == other.key()
    }

    /// IEEE-754 `<`: false as soon as one side is a not-a-number.
    pub open spec fn less_spec(self, other: Number) -> bool {
        !self.is_nan_spec() && !other.is_nan_spec() && self.key() < other.key()
    }

    /// IEEE-754 `<=`.
    pub open spec fn less_equal_spec(self, other: Number) -> bool {
        !self.is_nan_spec() && !other.is_nan_spec() && self.key() <= other.key()
    }

    /// The number with the same magnitude and the opposite sign.
    pub open spec fn negated(self) -> Number {
        Number { bits: self.bits ^ SIGN_BIT }
    }

    /// The number 10.
    pub open spec fn ten_spec() -> Number {
        Number { bits: 0x4024_0000_0000_0000 }
    }

    /// The number of a decimal digit, by its value.
    pub open spec fn digit_spec(value: u8) -> Number {
        Number {
            bits: if value == 0 {
                0
            } else if value == 1 {
                0x3FF0_0000_0000_0000
            } else if value == 2 {
                0x4000_0000_0000_0000
            } else if value == 3 {
                0x4008_0000_0000_0000
            } else if value == 4 {
                0x4010_0000_0000_0000
            } else if value == 5 {
                0x4014_0000_0000_0000
            } else if value == 6 {
                0x4018_0000_0000_0000
            } else if value == 7 {
                0x401C_0000_0000_0000
            } else if value == 8 {
                0x4020_0000_0000_0000
            } else {
                0x4022_0000_0000_0000
            },
        }
    }

    #[verifier::when_used_as_spec(ten_spec)]
    pub fn ten() -> (r: Number)
        ensures
            r == Number::ten_spec(),
    {
        Number { bits: 0x4024_0000_0000_0000 }
    }

    /// The number of a decimal digit, by its value; 9 for every larger value.
    #[verifier::when_used_as_spec(digit_spec)]
    pub fn digit(value: u8) -> (r: Number)
        ensures
            r == Number::digit_spec(value),
    {
        Number {
            bits: if value == 0 {
                0
            } else if value == 1 {
                0x3FF0_0000_0000_0000
            } else if value == 2 {
                0x4000_0000_0000_0000
            } else if value == 3 {
                0x4008_0000_0000_0000
            } else if value == 4 {
                0x4010_0000_0000_0000
            } else if value == 5 {
                0x4014_0000_0000_0000
            } else if value == 6 {
                0x4018_0000_0000_0000
            } else if value == 7 {
                0x401C_0000_0000_0000
            } else if value == 8 {
                0x4020_0000_0000_0000
            } else {
                0x4022_0000_0000_0000
            },
        }
    }

    pub fn from_bits(bits: u64) -> (r: Number)
        ensures
            r.bits == bits,
    {
        Number { bits }
    }

    pub fn to_bits(self) -> (r: u64)
        ensures
            r == self.bits,
    {
        self.bits
    }

    #[verifier::when_used_as_spec(is_zero_spec)]
    pub fn is_zero(self) -> (r: bool)
        ensures
            r == self.is_zero_spec(),
    {
        self.bits & MAGNITUDE_BITS == 0
    }

    #[verifier::when_used_as_spec(is_nan_spec)]
    pub fn is_nan(self) -> (r: bool)
        ensures
            r == self.is_nan_spec(),
    {
        self.bits & MAGNITUDE_BITS > INFINITY_BITS
    }

    fn order_key(self) -> (k: i128)
        ensures
            k == self.key(),
    {
        let magnitude: u64 = self.bits & MAGNITUDE_BITS;
        if self.bits >= SIGN_BIT {
            -(magnitude as i128)
        } else {
            magnitude as i128
        }
    }

    /// Unary minus: flips the sign bit and nothing else.
    pub fn negate(self) -> (r: Number)
        ensures
            r == self.negated(),
    {
        Number { bits: self.bits ^ SIGN_BIT }
    }

    /// The language's `==` on two numbers.
    pub fn equals(self, other: Number) -> (r: bool)
        ensures
            r == self.equals_spec(other),
    {
        !self.is_nan() && !other.is_nan() && self.order_key() == other.order_key()
    }

    /// The language's `<` on two numbers.
    pub fn less(self, other: Number) -> (r: bool)
        ensures
            r == self.less_spec(other),
    {
        !self.is_nan() && !other.is_nan() && self.order_key() < other.order_key()
    }

    /// The language's `<=` on two numbers.
    pub fn less_equal(self, other: Number) -> (r: bool)
        ensures
            r == self.less_equal_spec(other),
    {
        !self.is_nan() && !other.is_nan() && self.order_key() <= other.order_key()
    }

    /// The language's `>` on two numbers.
    pub fn greater(self, other: Number) -> (r: bool)
        ensures
            r == other.less_spec(self),
    {
        other.less(self)
    }

    /// The language's `>=` on two numbers.
    pub fn greater_equal(self, other: Number) -> (r: bool)
        ensures
            r == other.less_equal_spec(self),
    {
        other.less_equal(self)
    }
}

/// Negation keeps the magnitude, so it keeps zeros zero and not-a-numbers
/// not-a-numbers, and it mirrors the order.
pub proof fn lemma_negation(n: Number)
    ensures
        n.negated().magnitude() == n.magnitude(),
        n.negated().is_negative() == !n.is_negative(),
        n.negated().is_zero_spec() == n.is_zero_spec(),
        n.negated().is_nan_spec() == n.is_nan_spec(),
        n.negated().key() == -n.key(),
        n.negated().negated() == n,
{
    let b = n.bits;
    assert((b ^ 0x8000_0000_0000_0000u64) & 0x7fff_ffff_ffff_ffffu64 == b & 0x7fff_ffff_ffff_ffffu64)
        by (bit_vector);
    assert((b ^ 0x8000_0000_0000_0000u64 >= 0x8000_0000_0000_0000u64) == !(b
        >= 0x8000_0000_0000_0000u64)) by (bit_vector);
    assert((b ^ 0x8000_0000_0000_0000u64) ^ 0x8000_0000_0000_0000u64 == b) by (bit_vector);
}

/// A not-a-number is never equal to itself, and every other number is; no
/// number is less than itself.
pub proof fn law_equal_to_itself(n: Number)
    ensures
        !n.less_spec(n),
        n.equals_spec(n) == !n.is_nan_spec(),
        n.less_equal_spec(n) == !n.is_nan_spec(),
{
}

/// On numbers that are not not-a-numbers the order is total: exactly one of
/// `a < b`, `a == b`, `b < a` holds.
pub proof fn law_order(a: Number, b: Number)
    requires
        !a.is_nan_spec(),
        !b.is_nan_spec(),
    ensures
        a.less_spec(b) || a.equals_spec(b) || b.less_spec(a),
        !(a.less_spec(b) && a.equals_spec(b)),
        !(a.less_spec(b) && b.less_spec(a)),
        !(a.equals_spec(b) && b.less_spec(a)),
        a.less_equal_spec(b) == (a.less_spec(b) || a.equals_spec(b)),
{
}

} // verus!
