//! Single-precision arithmetic, one step at a time.
//!
//! Every level, frequency and sample of the instrument is computed by steps of
//! IEEE 754 arithmetic. What a step gives is asked of an evaluator, which the
//! host supplies and which must be a function: the same step always gives the
//! same number. Contracts state each quantity as the steps it is made of.

use crate::number::Single;
use vstd::prelude::*;

verus! {

/// One step of single-precision arithmetic.
#[derive(Clone, Copy, Debug)]
pub enum Op {
    /// The number nearest to an integer.
    Whole { n: u64 },
    Sum { a: Single, b: Single },
    Difference { a: Single, b: Single },
    Product { a: Single, b: Single },
    Quotient { a: Single, b: Single },
    /// The square root.
    Root { a: Single },
    Sine { a: Single },
    Cosine { a: Single },
    /// The hyperbolic tangent.
    Tanh { a: Single },
    /// The exponential.
    Exp { a: Single },
    /// The exponential less one.
    ExpLess { a: Single },
    /// The natural logarithm.
    Ln { a: Single },
    /// The logarithm to base ten.
    Log { a: Single },
    /// `a` to the power `b`.
    Power { a: Single, b: Single },
    /// `a` to a whole power.
    WholePower { a: Single, exponent: i32 },
    /// The angle of the point (`x`, `y`).
    Angle { y: Single, x: Single },
    /// The fractional part.
    Fraction { a: Single },
}

/// An evaluator of steps.
pub struct Arith<F: Fn(Op) -> Single> {
    eval: F,
}

/// The evaluator takes every step, and gives each step one number.
pub open spec fn is_function<F: Fn(Op) -> Single>(eval: F) -> bool {
    &&& forall|op: Op| call_requires(eval, (op,))
    &&& forall|op: Op, x: Single, y: Single|
        call_ensures(eval, (op,), x) && call_ensures(eval, (op,), y) ==> x == y
}

impl<F: Fn(Op) -> Single> Arith<F> {
    #[verifier::type_invariant]
    spec fn lawful(self) -> bool {
        is_function(self.eval)
    }

    /// What a step gives.
    pub closed spec fn value(&self, op: Op) -> Single {
        choose|x: Single| call_ensures(self.eval, (op,), x)
    }

    /// Arithmetic by an evaluator.
    pub fn new(eval: F) -> (r: Arith<F>)
        requires
            is_function(eval),
        ensures
            forall|op: Op, x: Single| call_ensures(eval, (op,), x) ==> r.value(op) == x,
    {
        Arith { eval }
    }

    fn step(&self, op: Op) -> (r: Single)
        ensures
            r == self.value(op),
    {
        proof {
            use_type_invariant(self);
        }
        let f = &self.eval;
        f(op)
    }

    /// The number nearest to an integer.
    #[verifier::allow_in_spec]
    pub fn whole(&self, n: u64) -> Single
        returns
            self.value(Op::Whole { n }),
    {
        self.step(Op::Whole { n })
    }

    #[verifier::allow_in_spec]
    pub fn plus(&self, a: Single, b: Single) -> Single
        returns
            self.value(Op::Sum { a, b }),
    {
        self.step(Op::Sum { a, b })
    }

    #[verifier::allow_in_spec]
    pub fn minus(&self, a: Single, b: Single) -> Single
        returns
            self.value(Op::Difference { a, b }),
    {
        self.step(Op::Difference { a, b })
    }

    #[verifier::allow_in_spec]
    pub fn times(&self, a: Single, b: Single) -> Single
        returns
            self.value(Op::Product { a, b }),
    {
        self.step(Op::Product { a, b })
    }

    #[verifier::allow_in_spec]
    pub fn over(&self, a: Single, b: Single) -> Single
        returns
            self.value(Op::Quotient { a, b }),
    {
        self.step(Op::Quotient { a, b })
    }

    /// `a` to the power `b`.
    #[verifier::allow_in_spec]
    pub fn power(&self, a: Single, b: Single) -> Single
        returns
            self.value(Op::Power { a, b }),
    {
        self.step(Op::Power { a, b })
    }

    /// The square root.
    #[verifier::allow_in_spec]
    pub fn root(&self, a: Single) -> Single
        returns
            self.value(Op::Root { a }),
    {
        self.step(Op::Root { a })
    }

    #[verifier::allow_in_spec]
    pub fn sine(&self, a: Single) -> Single
        returns
            self.value(Op::Sine { a }),
    {
        self.step(Op::Sine { a })
    }

    #[verifier::allow_in_spec]
    pub fn cosine(&self, a: Single) -> Single
        returns
            self.value(Op::Cosine { a }),
    {
        self.step(Op::Cosine { a })
    }

    /// The hyperbolic tangent.
    #[verifier::allow_in_spec]
    pub fn tanh(&self, a: Single) -> Single
        returns
            self.value(Op::Tanh { a }),
    {
        self.step(Op::Tanh { a })
    }

    #[verifier::allow_in_spec]
    pub fn exp(&self, a: Single) -> Single
        returns
            self.value(Op::Exp { a }),
    {
        self.step(Op::Exp { a })
    }

    /// The exponential less one.
    #[verifier::allow_in_spec]
    pub fn exp_less(&self, a: Single) -> Single
        returns
            self.value(Op::ExpLess { a }),
    {
        self.step(Op::ExpLess { a })
    }

    /// The natural logarithm.
    #[verifier::allow_in_spec]
    pub fn ln(&self, a: Single) -> Single
        returns
            self.value(Op::Ln { a }),
    {
        self.step(Op::Ln { a })
    }

    /// The logarithm to base ten.
    #[verifier::allow_in_spec]
    pub fn log(&self, a: Single) -> Single
        returns
            self.value(Op::Log { a }),
    {
        self.step(Op::Log { a })
    }

    /// The fractional part.
    #[verifier::allow_in_spec]
    pub fn fraction(&self, a: Single) -> Single
        returns
            self.value(Op::Fraction { a }),
    {
        self.step(Op::Fraction { a })
    }

    /// `a` to a whole power.
    #[verifier::allow_in_spec]
    pub fn whole_power(&self, a: Single, exponent: i32) -> Single
        returns
            self.value(Op::WholePower { a, exponent }),
    {
        self.step(Op::WholePower { a, exponent })
    }

    /// The angle of the point (`x`, `y`).
    #[verifier::allow_in_spec]
    pub fn angle(&self, y: Single, x: Single) -> Single
        returns
            self.value(Op::Angle { y, x }),
    {
        self.step(Op::Angle { y, x })
    }
}

} // verus!
