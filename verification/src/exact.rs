//! What double-precision numbers are worth, in units so small that every one of
//! them is a whole number of units; and steps of arithmetic that lose nothing.

use crate::number::{Double, Single};
use crate::wide::{Wide, WideOp, wide_number};
use vstd::arithmetic::power2::{lemma2_to64, lemma2_to64_rest, lemma_pow2_adds, lemma_pow2_pos, pow2};
use vstd::prelude::*;

verus! {

/// How many of the least units make one: the least number above zero is one
/// unit.
pub open spec fn units() -> int {
    pow2(1074) as int
}

impl Double {
    /// The number is finite and has no sign.
    pub open spec fn counts(self) -> bool {
        self.bits < 0x7FF0_0000_0000_0000
    }

    /// What a number without a sign is worth, in the least units.
    pub open spec fn worth(self) -> int {
        let field = self.bits as int / 0x10_0000_0000_0000;
        let fraction = self.bits as int % 0x10_0000_0000_0000;
        if field == 0 {
            fraction
        } else {
            (0x10_0000_0000_0000 + fraction) * pow2((field - 1) as nat)
        }
    }

    /// The number is the integer `n`.
    pub open spec fn is_integer(self, n: int) -> bool {
        self.counts() && self.worth() == n * units()
    }
}

impl<G: Fn(WideOp) -> Double> Wide<G> {
    /// The sum of two numbers loses nothing.
    pub open spec fn adds_exactly(self, x: Double, y: Double) -> bool {
        &&& x.counts() && y.counts() && self.plus(x, y).counts()
        &&& self.plus(x, y).worth() == x.worth() + y.worth()
    }

    /// The product of two numbers loses nothing.
    pub open spec fn multiplies_exactly(self, x: Double, y: Double) -> bool {
        &&& x.counts() && y.counts() && self.times(x, y).counts()
        &&& self.times(x, y).worth() * units() == x.worth() * y.worth()
    }

    /// The quotient of two numbers loses nothing.
    pub open spec fn divides_exactly(self, x: Double, y: Double) -> bool {
        &&& x.counts() && y.counts() && self.over(x, y).counts()
        &&& self.over(x, y).worth() * y.worth() == x.worth() * units()
    }

    /// The integer has a number of its own.
    pub open spec fn holds_exactly(self, n: int) -> bool {
        0 <= n <= u64::MAX && self.whole(n as u64).is_integer(n)
    }
}

proof fn lemma_shifted(sig: int, up: nat, down: nat, sum: nat)
    requires
        sig >= 0,
        up + down == sum,
    ensures
        (sig / (pow2(down) as int)) * (pow2(sum) as int) <= sig * pow2(up) as int,
        sig * (pow2(up) as int) < (sig / (pow2(down) as int) + 1) * pow2(sum) as int,
        sig % (pow2(down) as int) == 0 ==> (sig / (pow2(down) as int)) * (pow2(sum) as int) == sig * pow2(up) as int,
        sig % (pow2(down) as int) != 0 ==> (sig / (pow2(down) as int)) * (pow2(sum) as int) < sig * pow2(up) as int,
{
    lemma_pow2_adds(up, down);
    lemma_pow2_pos(up);
    lemma_pow2_pos(down);
    let u = pow2(up) as int;
    let d = pow2(down) as int;
    let q = sig / d;
    let r = sig % d;
    assert(pow2(sum) as int == u * d);
    assert(sig == d * q + r && 0 <= r < d) by {
        vstd::arithmetic::div_mod::lemma_fundamental_div_mod(sig, d);
    }
    assert(q * (u * d) + r * u == sig * u) by (nonlinear_arith)
        requires
            sig == d * q + r,
    ;
    assert((q + 1) * (u * d) == q * (u * d) + d * u) by (nonlinear_arith);
    assert(r * u < d * u) by (nonlinear_arith)
        requires
            0 <= r < d,
            u > 0,
    ;
    assert(r * u >= 0) by (nonlinear_arith)
        requires
            0 <= r,
            u > 0,
    ;
    if r == 0 {
        assert(r * u == 0);
    } else {
        assert(r * u > 0) by (nonlinear_arith)
            requires
                r > 0,
                u > 0,
        ;
    }
}

proof fn lemma_below_one(x: Double)
    requires
        x.counts(),
        x.bits < 0x3FF0_0000_0000_0000,
    ensures
        x.worth() < units(),
{
    let field = x.bits as int / 0x10_0000_0000_0000;
    let fraction = x.bits as int % 0x10_0000_0000_0000;
    lemma2_to64_rest();
    lemma_pow2_adds(53, 1021);
    lemma_pow2_pos(1021);
    if field == 0 {
        assert(pow2(1074) >= pow2(53)) by (nonlinear_arith)
            requires
                pow2(1074) == pow2(53) * pow2(1021),
                pow2(1021) >= 1,
        ;
    } else {
        assert(field - 1 <= 1021);
        let p = pow2((field - 1) as nat) as int;
        if field - 1 < 1021 {
            vstd::arithmetic::power2::lemma_pow2_strictly_increases((field - 1) as nat, 1021);
        }
        lemma_pow2_pos((field - 1) as nat);
        assert((0x10_0000_0000_0000 + fraction) * p < pow2(53) * pow2(1021)) by (nonlinear_arith)
            requires
                0 <= 0x10_0000_0000_0000 + fraction < pow2(53),
                0 < p <= pow2(1021),
        ;
    }
}

/// The whole part of a number is the greatest integer that is not above it.
pub proof fn whole_part_rounds_down(x: Double)
    requires
        x.counts(),
    ensures
        x.whole_part() * units() <= x.worth() < (x.whole_part() + 1) * units(),
{
    let field = x.bits as int / 0x10_0000_0000_0000;
    let sig = x.significand() as int;
    assert(x.exponent() == field);
    lemma_pow2_pos(1074);
    let n = x.whole_part() as int;
    assert((n + 1) * units() == n * units() + units()) by (nonlinear_arith);
    if field < 1023 {
        lemma_below_one(x);
        assert(n == 0);
        if field > 0 {
            lemma_pow2_pos((field - 1) as nat);
            assert(x.worth() >= 0) by (nonlinear_arith)
                requires
                    x.worth() == sig * pow2((field - 1) as nat),
                    sig >= 0,
                    pow2((field - 1) as nat) > 0,
            ;
        }
    } else if field <= 1075 {
        lemma_shifted(sig, (field - 1) as nat, (1075 - field) as nat, 1074);
        lemma_pow2_pos((1075 - field) as nat);
        assert(x.whole_part() as int == sig / (pow2((1075 - field) as nat) as int));
        assert(x.worth() == sig * (pow2((field - 1) as nat) as int));
    } else {
        lemma_pow2_adds((field - 1075) as nat, 1074);
        let a = pow2((field - 1075) as nat) as int;
        assert(sig * a * units() == sig * (a * units())) by (nonlinear_arith);
        assert(pow2((field - 1) as nat) as int == a * units());
        assert(x.worth() == sig * (a * units()));
        assert(x.whole_part() as int == sig * a);
        assert((sig * a + 1) * units() == sig * a * units() + units()) by (nonlinear_arith);
    }
}

/// The ceiling of a number is the least integer that is not below it.
pub proof fn ceiling_part_rounds_up(x: Double)
    requires
        x.counts(),
    ensures
        (x.ceiling_part() - 1) * units() < x.worth() <= x.ceiling_part() * units(),
{
    let field = x.bits as int / 0x10_0000_0000_0000;
    let sig = x.significand() as int;
    assert(x.exponent() == field);
    lemma_pow2_pos(1074);
    if x.bits == 0 {
        assert(x.worth() == 0);
        assert((0 - 1) * units() < 0) by (nonlinear_arith)
            requires
                units() > 0,
        ;
    } else if field < 1023 {
        lemma_below_one(x);
        if field > 0 {
            lemma_pow2_pos((field - 1) as nat);
            assert(x.worth() > 0) by (nonlinear_arith)
                requires
                    x.worth() == sig * pow2((field - 1) as nat),
                    sig > 0,
                    pow2((field - 1) as nat) > 0,
            ;
        }
    } else if field <= 1075 {
        let unit = pow2((1075 - field) as nat) as int;
        lemma_shifted(sig, (field - 1) as nat, (1075 - field) as nat, 1074);
        let q = sig / unit;
        lemma_pow2_pos((1075 - field) as nat);
        assert(x.worth() == sig * (pow2((field - 1) as nat) as int));
        if sig % unit == 0 {
            assert(x.ceiling_part() as int == q);
        } else {
            assert(x.ceiling_part() as int == q + 1);
        }
        assert((q - 1) * units() == q * units() - units()) by (nonlinear_arith);
    } else {
        lemma_pow2_adds((field - 1075) as nat, 1074);
        let a = pow2((field - 1075) as nat) as int;
        assert(sig * a * units() == sig * (a * units())) by (nonlinear_arith);
        assert(pow2((field - 1) as nat) as int == a * units());
        assert(x.worth() == sig * (a * units()));
        assert(x.ceiling_part() as int == sig * a);
        assert((sig * a - 1) * units() == sig * a * units() - units()) by (nonlinear_arith);
    }
}

pub proof fn lemma_units()
    ensures
        units() > 0,
{
    lemma_pow2_pos(1074);
}

/// Zero and a million are the integers that they are called.
pub proof fn lemma_zero_and_million()
    ensures
        wide_number(0).is_integer(0),
        wide_number(0x412E_8480_0000_0000).is_integer(1_000_000),
{
    lemma2_to64();
    lemma_pow2_adds(33, 1041);
    lemma2_to64_rest();
    let million = wide_number(0x412E_8480_0000_0000);
    assert(million.worth() == 0x1E_8480_0000_0000 * pow2(1041));
    assert(1_000_000 * units() == 0x1E_8480_0000_0000 * pow2(1041)) by (nonlinear_arith)
        requires
            units() == pow2(33) * pow2(1041),
            pow2(33) == 0x2_0000_0000,
    ;
}

/// Only one integer is the least that is not below a value.
pub proof fn lemma_least_is_unique(value: int, unit: int, a: int, b: int)
    requires
        unit > 0,
        (a - 1) * unit < value <= a * unit,
        (b - 1) * unit < value <= b * unit,
    ensures
        a == b,
{
    if a < b {
        assert(a * unit <= (b - 1) * unit) by (nonlinear_arith)
            requires
                a <= b - 1,
                unit > 0,
        ;
    } else if b < a {
        assert(b * unit <= (a - 1) * unit) by (nonlinear_arith)
            requires
                b <= a - 1,
                unit > 0,
        ;
    }
}

impl Single {
    /// What a number without a sign is worth, in units of which the least number
    /// above zero has one.
    pub open spec fn worth(self) -> int {
        let field = self.bits as int / 0x80_0000;
        let fraction = self.bits as int % 0x80_0000;
        if field == 0 {
            fraction
        } else {
            (0x80_0000 + fraction) * pow2((field - 1) as nat)
        }
    }
}

/// The whole part of a single-precision number is the greatest integer that is
/// not above it.
pub proof fn single_whole_part_rounds_down(x: Single)
    requires
        x.bits < 0x7F80_0000,
    ensures
        x.whole_part() * pow2(149) <= x.worth() < (x.whole_part() + 1) * pow2(149),
{
    let field = x.bits as int / 0x80_0000;
    let fraction = x.bits as int % 0x80_0000;
    let sig = 0x80_0000 + fraction;
    let u = pow2(149) as int;
    let n = x.whole_part() as int;
    lemma_pow2_pos(149);
    assert((n + 1) * u == n * u + u) by (nonlinear_arith);
    if field < 127 {
        lemma_single_below_one(x);
        assert(n == 0);
        if field > 0 {
            lemma_pow2_pos((field - 1) as nat);
            assert(x.worth() >= 0) by (nonlinear_arith)
                requires
                    x.worth() == sig * pow2((field - 1) as nat),
                    sig >= 0,
                    pow2((field - 1) as nat) > 0,
            ;
        }
    } else if field <= 150 {
        lemma_shifted(sig, (field - 1) as nat, (150 - field) as nat, 149);
        lemma_pow2_pos((150 - field) as nat);
        assert(n == sig / (pow2((150 - field) as nat) as int));
        assert(x.worth() == sig * (pow2((field - 1) as nat) as int));
    } else {
        lemma_pow2_adds((field - 150) as nat, 149);
        let a = pow2((field - 150) as nat) as int;
        assert(sig * a * u == sig * (a * u)) by (nonlinear_arith);
        assert(pow2((field - 1) as nat) as int == a * u);
        assert(x.worth() == sig * (a * u));
        assert(n == sig * a);
    }
}

proof fn lemma_single_below_one(x: Single)
    requires
        x.bits < 0x3F80_0000,
    ensures
        x.worth() < pow2(149),
{
    let field = x.bits as int / 0x80_0000;
    let fraction = x.bits as int % 0x80_0000;
    lemma2_to64();
    lemma_pow2_adds(24, 125);
    lemma_pow2_pos(125);
    if field == 0 {
        assert(pow2(149) >= pow2(24)) by (nonlinear_arith)
            requires
                pow2(149) == pow2(24) * pow2(125),
                pow2(125) >= 1,
        ;
    } else {
        let p = pow2((field - 1) as nat) as int;
        if field - 1 < 125 {
            vstd::arithmetic::power2::lemma_pow2_strictly_increases((field - 1) as nat, 125);
        }
        lemma_pow2_pos((field - 1) as nat);
        assert((0x80_0000 + fraction) * p < pow2(24) * pow2(125)) by (nonlinear_arith)
            requires
                0 <= 0x80_0000 + fraction < pow2(24),
                0 < p <= pow2(125),
        ;
    }
}

} // verus!
