//! Double-precision arithmetic on times, one step at a time.
//!
//! As with [`crate::arith`], what a step gives is asked of an evaluator that
//! the host supplies.

use crate::number::{Double, Single};
use vstd::prelude::*;

verus! {

/// One step of double-precision arithmetic.
#[derive(Clone, Copy, Debug)]
pub enum WideOp {
    /// The number nearest to an integer.
    Whole { n: u64 },
    /// A single-precision number, which is one of double precision too.
    Widen { a: Single },
    Sum { x: Double, y: Double },
    Difference { x: Double, y: Double },
    Product { x: Double, y: Double },
    Quotient { x: Double, y: Double },
}

/// An evaluator of steps.
pub struct Wide<G: Fn(WideOp) -> Double> {
    eval: G,
}

/// The evaluator takes every step, and gives each step one number.
pub open spec fn is_wide_function<G: Fn(WideOp) -> Double>(eval: G) -> bool {
    &&& forall|op: WideOp| call_requires(eval, (op,))
    &&& forall|op: WideOp, x: Double, y: Double|
        call_ensures(eval, (op,), x) && call_ensures(eval, (op,), y) ==> x == y
}

/// The number of a bit pattern.
#[verifier::allow_in_spec]
pub fn wide_number(bits: u64) -> Double
    returns
        (Double { bits }),
{
    Double { bits }
}

impl<G: Fn(WideOp) -> Double> Wide<G> {
    #[verifier::type_invariant]
    spec fn lawful(self) -> bool {
        is_wide_function(self.eval)
    }

    /// What a step gives.
    pub closed spec fn value(&self, op: WideOp) -> Double {
        choose|x: Double| call_ensures(self.eval, (op,), x)
    }

    /// Arithmetic by an evaluator.
    pub fn new(eval: G) -> (r: Wide<G>)
        requires
            is_wide_function(eval),
        ensures
            forall|op: WideOp, x: Double| call_ensures(eval, (op,), x) ==> r.value(op) == x,
    {
        Wide { eval }
    }

    fn step(&self, op: WideOp) -> (r: Double)
        ensures
            r == self.value(op),
    {
        proof {
            use_type_invariant(self);
        }
        let f = &self.eval;
        f(op)
    }

    /// The number nearest to an integer.
    #[verifier::allow_in_spec]
    pub fn whole(&self, n: u64) -> Double
        returns
            self.value(WideOp::Whole { n }),
    {
        self.step(WideOp::Whole { n })
    }

    /// A single-precision number in double precision.
    #[verifier::allow_in_spec]
    pub fn widen(&self, a: Single) -> Double
        returns
            self.value(WideOp::Widen { a }),
    {
        self.step(WideOp::Widen { a })
    }

    #[verifier::allow_in_spec]
    pub fn plus(&self, x: Double, y: Double) -> Double
        returns
            self.value(WideOp::Sum { x, y }),
    {
        self.step(WideOp::Sum { x, y })
    }

    #[verifier::allow_in_spec]
    pub fn minus(&self, x: Double, y: Double) -> Double
        returns
            self.value(WideOp::Difference { x, y }),
    {
        self.step(WideOp::Difference { x, y })
    }

    #[verifier::allow_in_spec]
    pub fn times(&self, x: Double, y: Double) -> Double
        returns
            self.value(WideOp::Product { x, y }),
    {
        self.step(WideOp::Product { x, y })
    }

    #[verifier::allow_in_spec]
    pub fn over(&self, x: Double, y: Double) -> Double
        returns
            self.value(WideOp::Quotient { x, y }),
    {
        self.step(WideOp::Quotient { x, y })
    }
}

} // verus!
