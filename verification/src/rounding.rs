//! What rounded arithmetic keeps of exact arithmetic.
//!
//! Contracts name the steps that a quantity is made of, and leave open what the
//! steps give. Laws that speak of size, sign or order say here which facts of
//! the arithmetic they rest on. All of them hold of IEEE 754 steps that round to
//! the nearest number: rounding keeps order and sign, and powers of two are
//! numbers themselves. Of the transcendental steps they ask for range, sign and
//! order only.

use crate::arith::{Arith, Op};
use crate::constant::{N10, N2};
use crate::number::{DOUBLE_ONE, Double, SINGLE_HALF, Single, number, one, zero};
use crate::wide::{Wide, WideOp, wide_number};
use vstd::prelude::*;

verus! {

/// A number of magnitude two to the power `e` at most.
pub open spec fn within(x: Single, e: int) -> bool {
    &&& -126 <= e <= 127
    &&& x.magnitude() <= (127 + e) * 0x80_0000
}

/// A number of magnitude two to the power `e` at least.
pub open spec fn beyond(x: Single, e: int) -> bool {
    &&& -126 <= e <= 127
    &&& !x.nan()
    &&& x.magnitude() >= (127 + e) * 0x80_0000
}

/// A finite number without a sign.
pub open spec fn plain(x: Single) -> bool {
    x.finite() && !x.negative()
}

/// A share: from zero to one.
pub open spec fn is_share(x: Single) -> bool {
    zero().le(x) && x.le(one())
}

impl<F: Fn(Op) -> Single> Arith<F> {
    /// Zero times a number is zero, and adding zero changes no value, nor does a
    /// factor of one; what two equal numbers differ by is zero.
    #[verifier::opaque]
    pub open spec fn has_zero(self) -> bool {
        &&& forall|z: Single, x: Single|
            z.zero_valued() && x.finite() ==> (#[trigger] self.times(z, x)).zero_valued()
        &&& forall|x: Single, z: Single|
            !x.nan() && z.zero_valued() ==> (#[trigger] self.plus(x, z)).equals(x)
        &&& forall|z: Single, x: Single|
            z.zero_valued() && !x.nan() ==> (#[trigger] self.plus(z, x)).equals(x)
        &&& forall|x: Single, z: Single|
            !x.nan() && z.zero_valued() ==> (#[trigger] self.minus(x, z)).equals(x)
        &&& forall|a: Single, b: Single|
            a.finite() && a.equals(b) ==> (#[trigger] self.minus(a, b)).zero_valued()
        &&& forall|x: Single| !x.nan() ==> (#[trigger] self.times(x, one())).equals(x)
    }

    /// Sums, products and quotients stay within the powers of two that their
    /// parts stay within.
    #[verifier::opaque]
    pub open spec fn is_bounded(self) -> bool {
        &&& forall|a: Single, b: Single, i: int, j: int|
            #![trigger self.times(a, b), within(a, i), within(b, j)]
            within(a, i) && within(b, j) && -126 <= i + j <= 127 ==> within(self.times(a, b), i + j)
        &&& forall|a: Single, b: Single, i: int, j: int|
            #![trigger self.times(a, b), beyond(a, i), beyond(b, j)]
            beyond(a, i) && beyond(b, j) && -126 <= i + j <= 127 ==> beyond(self.times(a, b), i + j)
        &&& forall|a: Single, b: Single, i: int, j: int|
            #![trigger self.over(a, b), within(a, i), beyond(b, j)]
            within(a, i) && beyond(b, j) && -126 <= i - j <= 127 ==> within(self.over(a, b), i - j)
        &&& forall|a: Single, b: Single, i: int|
            #![trigger self.plus(a, b), within(a, i), within(b, i)]
            within(a, i) && within(b, i) && i < 127 ==> within(self.plus(a, b), i + 1)
        &&& forall|a: Single, b: Single, i: int|
            #![trigger self.minus(a, b), within(a, i), within(b, i)]
            within(a, i) && within(b, i) && i < 127 ==> within(self.minus(a, b), i + 1)
    }

    /// Finite numbers stay finite under a factor or a divisor that does not
    /// enlarge them, and beside a number that is small against the greatest; a
    /// number that is small against another one leaves it as it is.
    #[verifier::opaque]
    pub open spec fn is_contained(self) -> bool {
        &&& forall|a: Single, b: Single| within(a, 0) && b.finite() ==> (#[trigger] self.times(a, b)).finite()
        &&& forall|a: Single, b: Single| a.finite() && beyond(b, 0) ==> (#[trigger] self.over(a, b)).finite()
        &&& forall|a: Single, b: Single| within(a, 90) && b.finite() ==> (#[trigger] self.minus(a, b)).finite()
        &&& forall|a: Single, b: Single|
            within(a, 90) && beyond(b, 125) && b.finite() ==> (#[trigger] self.minus(a, b)).equals(b.negated())
    }

    /// The sign of a sum, a product or a quotient is that of exact arithmetic, or
    /// the result is zero.
    #[verifier::opaque]
    pub open spec fn is_signed(self) -> bool {
        &&& forall|a: Single, b: Single|
            #![trigger self.times(a, b)]
            a.finite() && b.finite() ==> {
                &&& a.agrees(b) ==> zero().le(self.times(a, b))
                &&& a.agrees(b.negated()) ==> self.times(a, b).le(zero())
                &&& plain(a) && plain(b) ==> !self.times(a, b).negative()
            }
        &&& forall|a: Single, b: Single|
            #![trigger self.over(a, b)]
            a.finite() && zero().lt(b) ==> {
                &&& zero().le(a) ==> zero().le(self.over(a, b))
                &&& a.le(zero()) ==> self.over(a, b).le(zero())
                &&& plain(a) ==> !self.over(a, b).negative()
            }
        &&& forall|a: Single, b: Single|
            a.finite() && a.lt(zero()) && plain(b) ==> (#[trigger] self.over(a, b)).le(zero())
        &&& forall|a: Single, b: Single|
            #![trigger self.plus(a, b)]
            a.finite() && b.finite() ==> {
                &&& zero().le(a) ==> b.le(self.plus(a, b))
                &&& zero().le(b) ==> a.le(self.plus(a, b))
                &&& a.le(zero()) ==> self.plus(a, b).le(b)
                &&& b.le(zero()) ==> self.plus(a, b).le(a)
            }
    }

    /// Shares of one behave as shares, and a step from one number toward another
    /// by a share, none of them positive, leaves neither the sign nor the bounds
    /// of the two, nor the finite numbers unless it is a whole step near their end.
    #[verifier::opaque]
    pub open spec fn has_shares(self) -> bool {
        &&& forall|x: Single| is_share(x) ==> is_share(#[trigger] self.minus(one(), x))
        &&& forall|x: Single| one().le(x) ==> is_share(#[trigger] self.over(one(), x))
        &&& forall|x: Single|
            #![trigger self.minus(x, one())]
            is_share(x) ==> within(self.minus(x, one()), 0) && self.minus(x, one()).le(zero())
        &&& forall|g: Single, t: Single, c: Single|
            #![trigger self.plus(g, self.times(self.minus(t, g), c))]
            g.finite() && t.finite() && g.le(zero()) && t.le(zero()) && is_share(c) && (c.lt(one()) || g.zero_valued()
                || g.le(t)) ==> {
                &&& self.plus(g, self.times(self.minus(t, g), c)).finite()
                &&& self.plus(g, self.times(self.minus(t, g), c)).le(zero())
            }
        &&& forall|g: Single, t: Single, c: Single, e: int|
            #![trigger self.plus(g, self.times(self.minus(t, g), c)), within(g, e)]
            within(g, e) && within(t, e) && -100 <= e <= 126 && g.le(zero()) && t.le(zero()) && is_share(c) ==> {
                &&& within(self.plus(g, self.times(self.minus(t, g), c)), e)
                &&& self.plus(g, self.times(self.minus(t, g), c)).le(zero())
            }
    }

    /// Range and sign of the transcendental steps, and of small integers.
    #[verifier::opaque]
    pub open spec fn has_ranges(self) -> bool {
        &&& forall|x: Single| x.le(zero()) ==> is_share(#[trigger] self.power(number(N10), x))
        &&& forall|x: Single|
            #![trigger self.power(number(N10), x)]
            x.le(number(N2)) ==> zero().le(self.power(number(N10), x)) && within(self.power(number(N10), x), 7)
        &&& forall|x: Single| within(x, 5) ==> zero().lt(#[trigger] self.power(number(N10), x))
        &&& forall|x: Single| x.le(zero()) ==> is_share(#[trigger] self.exp(x))
        &&& forall|x: Single| zero().lt(x) && x.finite() ==> within(#[trigger] self.log(x), 6)
        &&& forall|x: Single|
            #![trigger self.tanh(x)]
            !x.nan() ==> {
                &&& within(self.tanh(x), 0)
                &&& zero().le(x) ==> zero().le(self.tanh(x))
                &&& x.le(zero()) ==> self.tanh(x).le(zero())
                &&& one().le(x) ==> number(SINGLE_HALF).le(self.tanh(x))
            }
        &&& forall|n: u64| n <= 255 ==> zero().le(#[trigger] self.whole(n)) && within(self.whole(n), 8)
    }

    /// Steps keep the order of their parts, or turn it around as in exact
    /// arithmetic.
    #[verifier::opaque]
    pub open spec fn is_ordered(self) -> bool {
        &&& forall|a: Single, b: Single, c: Single|
            #![trigger self.times(a, c), self.times(b, c)]
            a.le(b) && zero().lt(c) && c.finite() ==> self.times(a, c).le(self.times(b, c))
        &&& forall|a: Single, c: Single, d: Single|
            #![trigger self.times(a, c), self.times(a, d)]
            zero().le(a) && zero().lt(c) && c.le(d) && d.finite() ==> self.times(a, c).le(self.times(a, d))
        &&& forall|a: Single, b: Single, c: Single|
            #![trigger self.over(a, c), self.over(b, c)]
            a.le(b) && zero().lt(c) && c.finite() ==> self.over(a, c).le(self.over(b, c))
        &&& forall|c: Single, a: Single, b: Single|
            #![trigger self.over(c, a), self.over(c, b)]
            zero().le(c) && c.finite() && zero().lt(a) && a.le(b) ==> self.over(c, b).le(self.over(c, a))
        &&& forall|c: Single, a: Single, b: Single|
            #![trigger self.plus(c, a), self.plus(c, b)]
            c.finite() && a.le(b) ==> self.plus(c, a).le(self.plus(c, b))
        &&& forall|x: Single, y: Single|
            #![trigger self.power(number(N10), x), self.power(number(N10), y)]
            x.le(y) ==> self.power(number(N10), x).le(self.power(number(N10), y))
    }
}

/// Zero in double precision.
pub open spec fn wide_zero() -> Double {
    wide_number(0)
}

impl<G: Fn(WideOp) -> Double> Wide<G> {
    /// Steps in double precision on numbers that are not negative keep their
    /// order, and give numbers that are not negative.
    #[verifier::opaque]
    pub open spec fn keeps_order(self) -> bool {
        &&& forall|n: u64| #![trigger self.whole(n)] wide_zero().le(self.whole(n)) && self.whole(n).finite()
        &&& forall|n: u64| n >= 1 ==> wide_number(DOUBLE_ONE).le(#[trigger] self.whole(n))
        &&& forall|m: u64, n: u64|
            #![trigger self.whole(m), self.whole(n)]
            m <= n ==> self.whole(m).le(self.whole(n))
        &&& forall|x: Single| one().le(x) ==> wide_number(DOUBLE_ONE).le(#[trigger] self.widen(x))
        &&& forall|a: Double, b: Double|
            wide_number(DOUBLE_ONE).le(a) && wide_number(DOUBLE_ONE).le(b) ==> wide_number(DOUBLE_ONE).le(
                #[trigger] self.times(a, b),
            )
        &&& forall|a: Double, c: Double|
            #![trigger self.over(a, c)]
            wide_zero().le(a) && wide_zero().lt(c) && (a.finite() || c.finite()) ==> wide_zero().le(self.over(a, c))
        &&& forall|a: Double, c: Double|
            a.finite() && wide_number(DOUBLE_ONE).le(c) ==> (#[trigger] self.over(a, c)).finite()
        &&& forall|a: Double, b: Double, c: Double|
            #![trigger self.over(a, c), self.over(b, c)]
            a.le(b) && wide_zero().le(a) && wide_zero().lt(c) && (b.finite() || c.finite()) ==> self.over(a, c).le(
                self.over(b, c),
            )
        &&& forall|a: Double, c: Double|
            #![trigger self.times(a, c)]
            wide_zero().le(a) && wide_zero().le(c) && a.finite() && c.finite() ==> wide_zero().le(self.times(a, c))
        &&& forall|a: Double, b: Double, c: Double|
            #![trigger self.times(a, c), self.times(b, c)]
            a.le(b) && wide_zero().le(a) && wide_zero().le(c) && b.finite() && c.finite() ==> self.times(a, c).le(
                self.times(b, c),
            )
        &&& forall|a: Double, b: Double|
            wide_zero().le(a) && wide_zero().le(b) ==> a.le(#[trigger] self.plus(a, b))
        &&& forall|a: Double, b: Double, c: Double|
            #![trigger self.plus(a, b), self.plus(a, c)]
            wide_zero().le(a) && wide_zero().le(b) && b.le(c) ==> self.plus(a, b).le(self.plus(a, c))
    }
}

/// What stays within a power of two stays within a greater one.
pub proof fn lemma_within(x: Single, i: int, j: int)
    requires
        within(x, i),
        i <= j <= 127,
    ensures
        within(x, j),
        x.finite(),
{
}

pub proof fn lemma_product<F: Fn(Op) -> Single>(k: Arith<F>, a: Single, b: Single, i: int, j: int)
    requires
        k.is_bounded(),
        within(a, i),
        within(b, j),
        -126 <= i + j <= 127,
    ensures
        within(k.times(a, b), i + j),
{
    reveal(Arith::is_bounded);
}

pub proof fn lemma_quotient<F: Fn(Op) -> Single>(k: Arith<F>, a: Single, b: Single, i: int, j: int)
    requires
        k.is_bounded(),
        within(a, i),
        beyond(b, j),
        -126 <= i - j <= 127,
    ensures
        within(k.over(a, b), i - j),
{
    reveal(Arith::is_bounded);
}

pub proof fn lemma_sum<F: Fn(Op) -> Single>(k: Arith<F>, a: Single, b: Single, i: int)
    requires
        k.is_bounded(),
        within(a, i),
        within(b, i),
        i < 127,
    ensures
        within(k.plus(a, b), i + 1),
{
    reveal(Arith::is_bounded);
}

pub proof fn lemma_difference<F: Fn(Op) -> Single>(k: Arith<F>, a: Single, b: Single, i: int)
    requires
        k.is_bounded(),
        within(a, i),
        within(b, i),
        i < 127,
    ensures
        within(k.minus(a, b), i + 1),
{
    reveal(Arith::is_bounded);
}

/// A product of finite numbers has the sign of its parts.
pub proof fn lemma_product_sign<F: Fn(Op) -> Single>(k: Arith<F>, a: Single, b: Single)
    requires
        k.is_signed(),
        a.finite(),
        b.finite(),
    ensures
        a.agrees(b) ==> zero().le(k.times(a, b)),
        a.agrees(b.negated()) ==> k.times(a, b).le(zero()),
        plain(a) && plain(b) ==> !k.times(a, b).negative(),
{
    reveal(Arith::is_signed);
}

/// A quotient by a positive number has the sign of what is divided.
pub proof fn lemma_quotient_sign<F: Fn(Op) -> Single>(k: Arith<F>, a: Single, b: Single)
    requires
        k.is_signed(),
        a.finite(),
        zero().lt(b),
    ensures
        zero().le(a) ==> zero().le(k.over(a, b)),
        a.le(zero()) ==> k.over(a, b).le(zero()),
        plain(a) ==> !k.over(a, b).negative(),
{
    reveal(Arith::is_signed);
}

/// A sum lies on the side of one part that the other part points to.
pub proof fn lemma_sum_sign<F: Fn(Op) -> Single>(k: Arith<F>, a: Single, b: Single)
    requires
        k.is_signed(),
        a.finite(),
        b.finite(),
    ensures
        zero().le(a) ==> b.le(k.plus(a, b)),
        zero().le(b) ==> a.le(k.plus(a, b)),
        a.le(zero()) ==> k.plus(a, b).le(b),
        b.le(zero()) ==> k.plus(a, b).le(a),
{
    reveal(Arith::is_signed);
}

} // verus!
