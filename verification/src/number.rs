//! IEEE 754 numbers carried as bit patterns.
//!
//! A number is held as its bit pattern, on which comparison, ordering, sign and
//! whole part are integer questions. Arithmetic proper is in [`crate::arith`]
//! and [`crate::wide`].

use vstd::arithmetic::power2::pow2;
use vstd::prelude::*;

verus! {

/// Bit pattern of the single-precision number one half.
pub const SINGLE_HALF: u32 = 0x3F00_0000;

/// Bit pattern of the single-precision number one.
pub const SINGLE_ONE: u32 = 0x3F80_0000;

/// Bit pattern of single-precision positive infinity.
pub const SINGLE_INFINITY: u32 = 0x7F80_0000;

/// The sign bit of a single-precision number.
pub const SINGLE_SIGN: u32 = 0x8000_0000;

/// Bit pattern of the double-precision number one.
pub const DOUBLE_ONE: u64 = 0x3FF0_0000_0000_0000;

/// Bit pattern of double-precision positive infinity.
pub const DOUBLE_INFINITY: u64 = 0x7FF0_0000_0000_0000;

/// The sign bit of a double-precision number.
pub const DOUBLE_SIGN: u64 = 0x8000_0000_0000_0000;

/// A single-precision number, by its bit pattern.
#[derive(Clone, Copy, Debug, PartialEq, Eq, Structural)]
pub struct Single {
    pub bits: u32,
}

/// A double-precision number, by its bit pattern.
#[derive(Clone, Copy, Debug, PartialEq, Eq, Structural)]
pub struct Double {
    pub bits: u64,
}

impl Single {
    /// The sign bit is set.
    pub open spec fn negative(self) -> bool {
        self.bits >= SINGLE_SIGN
    }

    /// The pattern without its sign bit. Magnitudes of numbers compare as
    /// these integers do.
    pub open spec fn magnitude(self) -> int {
        if self.negative() {
            self.bits - SINGLE_SIGN
        } else {
            self.bits as int
        }
    }

    pub open spec fn nan(self) -> bool {
        self.magnitude() > SINGLE_INFINITY
    }

    /// Where the number stands among the numbers. Both zeros stand at 0.
    pub open spec fn order(self) -> int {
        if self.negative() {
            -self.magnitude()
        } else {
            self.magnitude()
        }
    }

    /// The numeric relation `self < other`.
    pub open spec fn lt(self, other: Single) -> bool {
        !self.nan() && !other.nan() && self.order() < other.order()
    }

    /// The numeric relation `self <= other`.
    pub open spec fn le(self, other: Single) -> bool {
        !self.nan() && !other.nan() && self.order() <= other.order()
    }

    /// Position in the IEEE 754 total order, in which every pattern has a
    /// place of its own: negative ones below zero from the largest magnitude
    /// down, then the positive ones.
    pub open spec fn total_order(self) -> int {
        if self.negative() {
            -self.magnitude() - 1
        } else {
            self.magnitude()
        }
    }

    pub fn is_nan(&self) -> (r: bool)
        ensures
            r == self.nan(),
    {
        if self.bits >= SINGLE_SIGN {
            self.bits - SINGLE_SIGN > SINGLE_INFINITY
        } else {
            self.bits > SINGLE_INFINITY
        }
    }

    fn signed_order(&self) -> (r: i64)
        ensures
            r == self.order(),
    {
        if self.bits >= SINGLE_SIGN {
            -((self.bits - SINGLE_SIGN) as i64)
        } else {
            self.bits as i64
        }
    }

    /// `self < other`, false where either is not a number.
    pub fn is_below(&self, other: Single) -> (r: bool)
        ensures
            r == self.lt(other),
    {
        !self.is_nan() && !other.is_nan() && self.signed_order() < other.signed_order()
    }

    /// `self <= other`, false where either is not a number.
    pub fn is_at_most(&self, other: Single) -> (r: bool)
        ensures
            r == self.le(other),
    {
        !self.is_nan() && !other.is_nan() && self.signed_order() <= other.signed_order()
    }

    /// The number with its sign changed.
    #[verifier::allow_in_spec]
    pub fn negated(self) -> Single
        returns
            (Single {
                bits: if self.bits >= SINGLE_SIGN {
                    (self.bits - SINGLE_SIGN) as u32
                } else {
                    (self.bits + SINGLE_SIGN) as u32
                },
            }),
    {
        if self.bits >= SINGLE_SIGN {
            Single { bits: self.bits - SINGLE_SIGN }
        } else {
            Single { bits: self.bits + SINGLE_SIGN }
        }
    }

    /// The number without its sign.
    #[verifier::allow_in_spec]
    pub fn absolute(self) -> Single
        returns
            (Single { bits: self.magnitude() as u32 }),
    {
        if self.bits >= SINGLE_SIGN {
            Single { bits: self.bits - SINGLE_SIGN }
        } else {
            self
        }
    }

    /// The smaller of two numbers; the other one where one is not a number.
    #[verifier::allow_in_spec]
    pub fn lesser(self, other: Single) -> Single
        returns
            (if self.nan() || other.lt(self) {
                other
            } else {
                self
            }),
    {
        if self.is_nan() || other.is_below(self) {
            other
        } else {
            self
        }
    }

    /// The greater of two numbers; the other one where one is not a number.
    #[verifier::allow_in_spec]
    pub fn greater(self, other: Single) -> Single
        returns
            (if self.nan() || self.lt(other) {
                other
            } else {
                self
            }),
    {
        if self.is_nan() || self.is_below(other) {
            other
        } else {
            self
        }
    }

    /// The number, or the bound that it is beyond.
    #[verifier::allow_in_spec]
    pub fn clamped(self, low: Single, high: Single) -> Single
        returns
            (if self.lt(low) {
                low
            } else if high.lt(self) {
                high
            } else {
                self
            }),
    {
        if self.is_below(low) {
            low
        } else if high.is_below(self) {
            high
        } else {
            self
        }
    }

    /// Neither infinite nor other than a number.
    pub open spec fn finite(self) -> bool {
        self.magnitude() < SINGLE_INFINITY
    }

    /// The numeric relation `self == other`, in which both zeros are equal.
    pub open spec fn equals(self, other: Single) -> bool {
        !self.nan() && !other.nan() && self.order() == other.order()
    }

    /// The two numbers do not lie on different sides of zero.
    pub open spec fn agrees(self, other: Single) -> bool {
        &&& !self.nan()
        &&& !other.nan()
        &&& (self.order() >= 0 && other.order() >= 0) || (self.order() <= 0 && other.order() <= 0)
    }

    /// Whether the number is zero, of either sign.
    pub open spec fn zero_valued(self) -> bool {
        self.order() == 0
    }

    pub fn is_zero(&self) -> (r: bool)
        ensures
            r == self.zero_valued(),
    {
        self.signed_order() == 0
    }

    /// The whole part of a number; none where it is negative or not a number.
    /// Infinity stands beyond all numbers.
    pub open spec fn whole_part(self) -> nat {
        let exponent = self.bits as nat / 0x80_0000;
        let significand = 0x80_0000 + self.bits as nat % 0x80_0000;
        if self.negative() || self.nan() || exponent < 127 {
            0
        } else if exponent <= 150 {
            significand / pow2((150 - exponent) as nat)
        } else {
            significand * pow2((exponent - 150) as nat)
        }
    }

    /// The whole part, at most the greatest integer of the type.
    pub fn to_whole(&self) -> (r: u64)
        ensures
            r == (if self.whole_part() <= u64::MAX {
                self.whole_part() as u64
            } else {
                u64::MAX
            }),
    {
        if self.bits >= SINGLE_SIGN || self.bits > SINGLE_INFINITY {
            return 0;
        }
        let exponent: u32 = self.bits / 0x80_0000;
        let significand: u64 = (0x80_0000 + self.bits % 0x80_0000) as u64;
        if exponent < 127 {
            0
        } else if exponent <= 150 {
            let shift: u64 = (150 - exponent) as u64;
            proof {
                vstd::bits::lemma_u64_shr_is_div(significand, shift);
                lemma_quotient_shrinks(significand as nat, pow2(shift as nat));
            }
            significand >> shift
        } else if exponent <= 190 {
            let shift: u64 = (exponent - 150) as u64;
            proof {
                lemma_pow2_bound(shift as nat, 40);
                assert(pow2(40) == 0x100_0000_0000) by {
                    vstd::arithmetic::power2::lemma2_to64_rest();
                }
                assert(significand * pow2(shift as nat) <= 0x100_0000 * 0x100_0000_0000 - 0x100_0000_0000)
                    by (nonlinear_arith)
                    requires
                        significand <= 0xFF_FFFF,
                        pow2(shift as nat) <= 0x100_0000_0000,
                ;
                vstd::bits::lemma_u64_shl_is_mul(significand, shift);
            }
            significand << shift
        } else {
            proof {
                let shift = (exponent - 150) as nat;
                lemma_pow2_bound(41, shift);
                assert(pow2(41) == 0x200_0000_0000) by {
                    vstd::arithmetic::power2::lemma2_to64_rest();
                }
                assert(significand * pow2(shift) > u64::MAX) by (nonlinear_arith)
                    requires
                        significand >= 0x80_0000,
                        pow2(shift) >= 0x200_0000_0000,
                ;
            }
            u64::MAX
        }
    }

    /// An integer that orders patterns as the total order does.
    pub fn rank(&self) -> (r: u64)
        ensures
            r == self.total_order() + SINGLE_SIGN,
    {
        if self.bits >= SINGLE_SIGN {
            (SINGLE_SIGN - 1 - (self.bits - SINGLE_SIGN)) as u64
        } else {
            self.bits as u64 + SINGLE_SIGN as u64
        }
    }
}

impl Double {
    /// The sign bit is set.
    pub open spec fn negative(self) -> bool {
        self.bits >= DOUBLE_SIGN
    }

    /// The pattern without its sign bit.
    pub open spec fn magnitude(self) -> int {
        if self.negative() {
            self.bits - DOUBLE_SIGN
        } else {
            self.bits as int
        }
    }

    pub open spec fn nan(self) -> bool {
        self.magnitude() > DOUBLE_INFINITY
    }

    /// Where the number stands among the numbers. Both zeros stand at 0.
    pub open spec fn order(self) -> int {
        if self.negative() {
            -self.magnitude()
        } else {
            self.magnitude()
        }
    }

    /// The numeric relation `self < other`.
    pub open spec fn lt(self, other: Double) -> bool {
        !self.nan() && !other.nan() && self.order() < other.order()
    }

    /// The numeric relation `self <= other`.
    pub open spec fn le(self, other: Double) -> bool {
        !self.nan() && !other.nan() && self.order() <= other.order()
    }

    /// Neither infinite nor other than a number.
    pub open spec fn finite(self) -> bool {
        self.magnitude() < DOUBLE_INFINITY
    }

    /// Position in the IEEE 754 total order.
    pub open spec fn total_order(self) -> int {
        if self.negative() {
            -self.magnitude() - 1
        } else {
            self.magnitude()
        }
    }

    pub fn is_nan(&self) -> (r: bool)
        ensures
            r == self.nan(),
    {
        if self.bits >= DOUBLE_SIGN {
            self.bits - DOUBLE_SIGN > DOUBLE_INFINITY
        } else {
            self.bits > DOUBLE_INFINITY
        }
    }

    fn signed_order(&self) -> (r: i128)
        ensures
            r == self.order(),
    {
        if self.bits >= DOUBLE_SIGN {
            -((self.bits - DOUBLE_SIGN) as i128)
        } else {
            self.bits as i128
        }
    }

    /// `self < other`, false where either is not a number.
    pub fn is_below(&self, other: Double) -> (r: bool)
        ensures
            r == self.lt(other),
    {
        !self.is_nan() && !other.is_nan() && self.signed_order() < other.signed_order()
    }

    /// The smaller of two numbers; the other one where one is not a number.
    #[verifier::allow_in_spec]
    pub fn lesser(self, other: Double) -> Double
        returns
            (if self.nan() || other.lt(self) {
                other
            } else {
                self
            }),
    {
        if self.is_nan() || other.is_below(self) {
            other
        } else {
            self
        }
    }

    /// The greater of two numbers; the other one where one is not a number.
    #[verifier::allow_in_spec]
    pub fn greater(self, other: Double) -> Double
        returns
            (if self.nan() || self.lt(other) {
                other
            } else {
                self
            }),
    {
        if self.is_nan() || self.is_below(other) {
            other
        } else {
            self
        }
    }

    /// The exponent field of a number without its sign bit.
    pub open spec fn exponent(self) -> nat {
        (self.magnitude() / 0x10_0000_0000_0000) as nat
    }

    /// The significand of a normal number, as an integer.
    pub open spec fn significand(self) -> nat {
        (0x10_0000_0000_0000 + self.magnitude() % 0x10_0000_0000_0000) as nat
    }

    /// The whole part of a number; none where it is negative or not a number.
    /// Infinity stands beyond all numbers.
    pub open spec fn whole_part(self) -> nat {
        if self.negative() || self.nan() || self.exponent() < 1023 {
            0
        } else if self.exponent() <= 1075 {
            self.significand() / pow2((1075 - self.exponent()) as nat)
        } else {
            self.significand() * pow2((self.exponent() - 1075) as nat)
        }
    }

    /// The least integer that is not below a number; none where it is negative
    /// or not a number.
    pub open spec fn ceiling_part(self) -> nat {
        if self.negative() || self.nan() || self.bits == 0 {
            0
        } else if self.exponent() < 1023 {
            1
        } else if self.exponent() <= 1075 {
            let unit = pow2((1075 - self.exponent()) as nat);
            (self.significand() / unit + if self.significand() % unit == 0 {
                0nat
            } else {
                1nat
            }) as nat
        } else {
            self.significand() * pow2((self.exponent() - 1075) as nat)
        }
    }

    /// The whole part, and whether anything is left over; the greatest integer
    /// of the type where it is beyond that.
    fn split(&self) -> (r: (u64, bool))
        requires
            !self.negative(),
            !self.nan(),
        ensures
            r.0 == (if self.whole_part() <= u64::MAX {
                self.whole_part() as u64
            } else {
                u64::MAX
            }),
            self.ceiling_part() == self.whole_part() + (if r.1 {
                1nat
            } else {
                0nat
            }),
            r.1 ==> r.0 <= 0x20_0000_0000_0000,
    {
        let exponent: u64 = self.bits / 0x10_0000_0000_0000;
        let significand: u64 = 0x10_0000_0000_0000 + self.bits % 0x10_0000_0000_0000;
        if exponent < 1023 {
            (0, self.bits != 0)
        } else if exponent <= 1075 {
            let shift: u64 = 1075 - exponent;
            proof {
                vstd::bits::lemma_u64_shr_is_div(significand, shift);
                lemma_quotient_shrinks(significand as nat, pow2(shift as nat));
                lemma_pow2_bound(shift as nat, 52);
                assert(pow2(52) == 0x10_0000_0000_0000) by {
                    vstd::arithmetic::power2::lemma2_to64_rest();
                }
                vstd::bits::lemma_u64_shl_is_mul(1, shift);
                assert(1u64 << shift == pow2(shift as nat));
            }
            let unit: u64 = 1u64 << shift;
            (significand >> shift, significand % unit != 0)
        } else if exponent <= 1086 {
            let shift: u64 = exponent - 1075;
            proof {
                lemma_pow2_bound(shift as nat, 11);
                assert(pow2(11) == 0x800) by {
                    vstd::arithmetic::power2::lemma2_to64();
                }
                assert(significand * pow2(shift as nat) <= 0x1F_FFFF_FFFF_FFFF * 0x800) by (nonlinear_arith)
                    requires
                        significand <= 0x1F_FFFF_FFFF_FFFF,
                        pow2(shift as nat) <= 0x800,
                ;
                vstd::bits::lemma_u64_shl_is_mul(significand, shift);
            }
            (significand << shift, false)
        } else {
            proof {
                let shift = (exponent - 1075) as nat;
                lemma_pow2_bound(12, shift);
                assert(pow2(12) == 0x1000) by {
                    vstd::arithmetic::power2::lemma2_to64();
                }
                assert(significand * pow2(shift) > u64::MAX) by (nonlinear_arith)
                    requires
                        significand >= 0x10_0000_0000_0000,
                        pow2(shift) >= 0x1000,
                ;
            }
            (u64::MAX, false)
        }
    }

    /// The whole part, at most the greatest integer of the type.
    pub fn to_whole(&self) -> (r: u64)
        ensures
            r == (if self.whole_part() <= u64::MAX {
                self.whole_part() as u64
            } else {
                u64::MAX
            }),
    {
        if self.bits >= DOUBLE_SIGN || self.is_nan() {
            0
        } else {
            self.split().0
        }
    }

    /// The least integer that is not below the number, at most the greatest of
    /// the type.
    pub fn to_ceiling(&self) -> (r: u64)
        ensures
            r == (if self.ceiling_part() <= u64::MAX {
                self.ceiling_part() as u64
            } else {
                u64::MAX
            }),
    {
        if self.bits >= DOUBLE_SIGN || self.is_nan() {
            return 0;
        }
        let parts: (u64, bool) = self.split();
        if parts.1 {
            parts.0 + 1
        } else {
            parts.0
        }
    }

    /// An integer that orders patterns as the total order does.
    pub fn rank(&self) -> (r: u64)
        ensures
            r == self.total_order() + DOUBLE_SIGN,
    {
        if self.bits >= DOUBLE_SIGN {
            DOUBLE_SIGN - 1 - (self.bits - DOUBLE_SIGN)
        } else {
            self.bits + DOUBLE_SIGN
        }
    }
}

proof fn lemma_pow2_bound(a: nat, b: nat)
    requires
        a <= b,
    ensures
        pow2(a) <= pow2(b),
        pow2(a) > 0,
{
    vstd::arithmetic::power2::lemma_pow2_pos(a);
    if a < b {
        vstd::arithmetic::power2::lemma_pow2_strictly_increases(a, b);
    }
}

proof fn lemma_quotient_shrinks(a: nat, d: nat)
    ensures
        d > 0 ==> a / d <= a,
{
    if d > 0 {
        vstd::arithmetic::div_mod::lemma_div_is_ordered_by_denominator(a as int, 1, d as int);
    }
}

/// The number of a bit pattern.
#[verifier::allow_in_spec]
pub fn number(bits: u32) -> Single
    returns
        (Single { bits }),
{
    Single { bits }
}

/// The number one.
#[verifier::allow_in_spec]
pub fn one() -> Single
    returns
        (Single { bits: SINGLE_ONE }),
{
    Single { bits: SINGLE_ONE }
}

/// The number zero.
#[verifier::allow_in_spec]
pub fn zero() -> Single
    returns
        (Single { bits: 0 }),
{
    Single { bits: 0 }
}

/// A control value counts as "on" or "down" from one half upward.
pub open spec fn spec_is_on(value: Single) -> bool {
    Single { bits: SINGLE_HALF }.le(value)
}

/// Whether a pedal or a switch at `value` is on.
pub fn is_on(value: Single) -> (r: bool)
    ensures
        r == spec_is_on(value),
{
    Single { bits: SINGLE_HALF }.is_at_most(value)
}

/// No two patterns share a place in the total order.
pub proof fn total_order_is_injective(a: Double, b: Double)
    requires
        a.total_order() == b.total_order(),
    ensures
        a == b,
{
}

/// No two patterns share a place in the total order.
pub proof fn single_total_order_is_injective(a: Single, b: Single)
    requires
        a.total_order() == b.total_order(),
    ensures
        a == b,
{
}

/// The total order refines the numeric one: a smaller number comes first.
pub proof fn total_order_refines_lt(a: Double, b: Double)
    requires
        a.lt(b),
    ensures
        a.total_order() < b.total_order(),
{
}

/// The total order refines the numeric one: a smaller number comes first.
pub proof fn single_total_order_refines_lt(a: Single, b: Single)
    requires
        a.lt(b),
    ensures
        a.total_order() < b.total_order(),
{
}

/// The lesser of two numbers is one of them and no greater than either; where
/// one is not a number it is the other. The greater is the other way about.
pub proof fn lesser_and_greater(a: Single, b: Single)
    ensures
        a.lesser(b) == a || a.lesser(b) == b,
        a.greater(b) == a || a.greater(b) == b,
        !a.nan() && !b.nan() ==> a.lesser(b).le(a) && a.lesser(b).le(b) && a.le(a.greater(b)) && b.le(a.greater(b)),
        a.nan() ==> a.lesser(b) == b && a.greater(b) == b,
        b.nan() && !a.nan() ==> a.lesser(b) == a && a.greater(b) == a,
{
}

/// The same in double precision.
pub proof fn wide_lesser_and_greater(a: Double, b: Double)
    ensures
        a.lesser(b) == a || a.lesser(b) == b,
        a.greater(b) == a || a.greater(b) == b,
        !a.nan() && !b.nan() ==> a.lesser(b).le(a) && a.lesser(b).le(b) && a.le(a.greater(b)) && b.le(a.greater(b)),
        a.nan() ==> a.lesser(b) == b && a.greater(b) == b,
        b.nan() && !a.nan() ==> a.lesser(b) == a && a.greater(b) == a,
{
}

/// A clamped number lies within its bounds, and a number within them stands.
pub proof fn clamped_lies_between(x: Single, low: Single, high: Single)
    requires
        low.le(high),
    ensures
        !x.nan() ==> low.le(x.clamped(low, high)) && x.clamped(low, high).le(high),
        low.le(x) && x.le(high) ==> x.clamped(low, high) == x,
        x.clamped(low, high) == x || x.clamped(low, high) == low || x.clamped(low, high) == high,
{
}

/// A change of sign turns the order around, and undoes itself; a magnitude has
/// no sign, and is as far from zero.
pub proof fn signs_turn_around(a: Single, b: Single)
    ensures
        a.negated().negated() == a,
        a.le(b) <==> b.negated().le(a.negated()),
        a.nan() <==> a.negated().nan(),
        a.absolute() == a || a.absolute() == a.negated(),
        a.negated().absolute() == a.absolute(),
        !a.nan() ==> zero().le(a.absolute()),
{
}

} // verus!
