//! Master tone equalizer: a presentation stage that shapes the overall
//! spectral balance. The partial amplitudes are calibrated from darker
//! samples than a bright, present recording; this dials in presence and
//! brilliance to taste.
//!
//! Cascade: low shelf (bass trim), presence peak, high shelf (air). Biquads in
//! transposed direct form II, stereo. Allocation-free.

use crate::arith::{Arith, Op};
use crate::constant::{N0_8, N10, N2, N2500, N300, N4, N40, N5000, N6};
use crate::formula::{Filter, Filtered, spec_filtered};
use crate::number::{Single, number, one, zero};
use crate::setting::{answers, is_setting, setting};
use vstd::prelude::*;

verus! {

/// Gains in decibels, corner frequencies in Hz and the quality of the peak.
#[derive(Clone, Copy, Debug)]
pub struct EqParams {
    pub low_db: Single,
    pub low_hz: Single,
    pub peak_db: Single,
    pub peak_hz: Single,
    pub peak_q: Single,
    pub high_db: Single,
    pub high_hz: Single,
}

/// One stage: a filter and what it remembers of either channel.
#[derive(Clone, Copy, Debug)]
pub struct Stage {
    pub filter: Filter,
    pub left: (Single, Single),
    pub right: (Single, Single),
}

/// The equalizer.
pub struct MasterEq {
    stages: [Stage; 3],
    active: bool,
}

/// What an equalizer is and remembers.
#[verifier::ext_equal]
pub struct EqState {
    pub stages: Seq<Stage>,
    pub active: bool,
}

impl View for MasterEq {
    type V = EqState;

    closed spec fn view(&self) -> EqState {
        EqState { stages: self.stages@, active: self.active }
    }
}

/// Coefficients before normalization.
#[derive(Clone, Copy, Debug)]
pub struct Coefficients {
    pub b0: Single,
    pub b1: Single,
    pub b2: Single,
    pub a0: Single,
    pub a1: Single,
    pub a2: Single,
}

/// The filter of some coefficients, normalized by the first of the outputs.
pub open spec fn normalized<F: Fn(Op) -> Single>(k: Arith<F>, c: Coefficients) -> Filter {
    Filter {
        b: (k.over(c.b0, c.a0), k.over(c.b1, c.a0), k.over(c.b2, c.a0)),
        a: (k.over(c.a1, c.a0), k.over(c.a2, c.a0)),
    }
}

/// What the two shelves share: the amplitude, one more and one less than it,
/// the cosine of the corner and the width term.
pub struct Shelf {
    pub a: Single,
    pub more: Single,
    pub less: Single,
    pub c: Single,
    pub sa: Single,
}

pub open spec fn spec_shelf<F: Fn(Op) -> Single>(k: Arith<F>, f0: Single, gain_db: Single, sr: Single) -> Shelf {
    let a = k.power_gain(gain_db);
    let w0 = k.angular_step(f0, sr);
    let alpha = k.times(k.over(k.sine(w0), number(N2)), k.root(number(N2)));
    Shelf {
        a,
        more: k.plus(a, one()),
        less: k.minus(a, one()),
        c: k.cosine(w0),
        sa: k.times(k.times(number(N2), k.root(a)), alpha),
    }
}

/// A shelf below `f0`.
pub open spec fn spec_low_shelf<F: Fn(Op) -> Single>(k: Arith<F>, f0: Single, gain_db: Single, sr: Single) -> Coefficients {
    let s = spec_shelf(k, f0, gain_db, sr);
    let lc = k.times(s.less, s.c);
    let mc = k.times(s.more, s.c);
    Coefficients {
        b0: k.times(s.a, k.plus(k.minus(s.more, lc), s.sa)),
        b1: k.times(k.times(number(N2), s.a), k.minus(s.less, mc)),
        b2: k.times(s.a, k.minus(k.minus(s.more, lc), s.sa)),
        a0: k.plus(k.plus(s.more, lc), s.sa),
        a1: k.times(number(N2).negated(), k.plus(s.less, mc)),
        a2: k.minus(k.plus(s.more, lc), s.sa),
    }
}

/// A shelf above `f0`.
pub open spec fn spec_high_shelf<F: Fn(Op) -> Single>(k: Arith<F>, f0: Single, gain_db: Single, sr: Single) -> Coefficients {
    let s = spec_shelf(k, f0, gain_db, sr);
    let lc = k.times(s.less, s.c);
    let mc = k.times(s.more, s.c);
    Coefficients {
        b0: k.times(s.a, k.plus(k.plus(s.more, lc), s.sa)),
        b1: k.times(k.times(number(N2).negated(), s.a), k.plus(s.less, mc)),
        b2: k.times(s.a, k.minus(k.plus(s.more, lc), s.sa)),
        a0: k.plus(k.minus(s.more, lc), s.sa),
        a1: k.times(number(N2), k.minus(s.less, mc)),
        a2: k.minus(k.minus(s.more, lc), s.sa),
    }
}

/// A peak at `f0`.
pub open spec fn spec_peak<F: Fn(Op) -> Single>(k: Arith<F>, f0: Single, q: Single, gain_db: Single, sr: Single) -> Coefficients {
    let a = k.power_gain(gain_db);
    let w0 = k.angular_step(f0, sr);
    let alpha = k.over(k.sine(w0), k.times(number(N2), q));
    let side = k.times(number(N2).negated(), k.cosine(w0));
    Coefficients {
        b0: k.plus(one(), k.times(alpha, a)),
        b1: side,
        b2: k.minus(one(), k.times(alpha, a)),
        a0: k.plus(one(), k.over(alpha, a)),
        a1: side,
        a2: k.minus(one(), k.over(alpha, a)),
    }
}

/// A stage that remembers nothing yet.
pub open spec fn fresh(filter: Filter) -> Stage {
    Stage { filter, left: (zero(), zero()), right: (zero(), zero()) }
}

/// An equalizer at rest. It does nothing at all where no gain does anything.
pub open spec fn eq_of<F: Fn(Op) -> Single>(k: Arith<F>, sr: Single, p: EqParams) -> EqState {
    EqState {
        stages: seq![
            fresh(normalized(k, spec_low_shelf(k, p.low_hz, p.low_db, sr))),
            fresh(normalized(k, spec_peak(k, p.peak_hz, p.peak_q, p.peak_db, sr))),
            fresh(normalized(k, spec_high_shelf(k, p.high_hz, p.high_db, sr))),
        ],
        active: !p.low_db.zero_valued() || !p.peak_db.zero_valued() || !p.high_db.zero_valued(),
    }
}

/// The settings of the host, with the shipped curve as default.
pub open spec fn eq_settings<G: Fn(&'static str) -> Option<Single>>(get: G, p: EqParams) -> bool {
    &&& is_setting(get, "PIANO_EQ_LOW_DB", MINUS_TWO, p.low_db)
    &&& is_setting(get, "PIANO_EQ_LOW_HZ", N300, p.low_hz)
    &&& is_setting(get, "PIANO_EQ_PEAK_DB", N4, p.peak_db)
    &&& is_setting(get, "PIANO_EQ_PEAK_HZ", N5000, p.peak_hz)
    &&& is_setting(get, "PIANO_EQ_PEAK_Q", N0_8, p.peak_q)
    &&& is_setting(get, "PIANO_EQ_HIGH_DB", N6, p.high_db)
    &&& is_setting(get, "PIANO_EQ_HIGH_HZ", N2500, p.high_hz)
}

/// Bit pattern of minus two, the default bass trim.
pub const MINUS_TWO: u32 = 0xC000_0000;

/// What one channel of a stage remembers.
pub open spec fn memory(s: Stage, left: bool) -> (Single, Single) {
    if left {
        s.left
    } else {
        s.right
    }
}

/// One channel of a sample after the first `n` stages.
pub open spec fn shaped<F: Fn(Op) -> Single>(k: Arith<F>, stages: Seq<Stage>, x: Single, left: bool, n: int) -> Single
    decreases n,
{
    if n <= 0 {
        x
    } else {
        spec_filtered(
            k,
            stages[n - 1].filter,
            memory(stages[n - 1], left),
            shaped(k, stages, x, left, n - 1),
        ).out
    }
}

impl EqState {
    /// The equalizer after one stereo sample.
    pub open spec fn stepped<F: Fn(Op) -> Single>(self, k: Arith<F>, left: Single, right: Single) -> EqState {
        EqState {
            stages: Seq::new(
                self.stages.len(),
                |i: int|
                    Stage {
                        filter: self.stages[i].filter,
                        left: spec_filtered(
                            k,
                            self.stages[i].filter,
                            self.stages[i].left,
                            shaped(k, self.stages, left, true, i),
                        ).z,
                        right: spec_filtered(
                            k,
                            self.stages[i].filter,
                            self.stages[i].right,
                            shaped(k, self.stages, right, false, i),
                        ).z,
                    },
            ),
            ..self
        }
    }

    /// The equalizer after `n` samples.
    pub open spec fn after<F: Fn(Op) -> Single>(self, k: Arith<F>, left: Seq<Single>, right: Seq<Single>, n: int) -> EqState
        decreases n,
    {
        if n <= 0 || !self.active {
            self
        } else {
            self.after(k, left, right, n - 1).stepped(k, left[n - 1], right[n - 1])
        }
    }
}

/// One channel through the equalizer; an inactive one leaves it alone.
pub open spec fn equalized<F: Fn(Op) -> Single>(
    k: Arith<F>,
    eq: EqState,
    left: Seq<Single>,
    right: Seq<Single>,
    to_left: bool,
) -> Seq<Single> {
    let x = if to_left {
        left
    } else {
        right
    };
    if eq.active {
        Seq::new(x.len(), |i: int| shaped(k, eq.after(k, left, right, i).stages, x[i], to_left, 3))
    } else {
        x
    }
}

impl<F: Fn(Op) -> Single> Arith<F> {
    /// The square root of the factor of a level in decibels.
    #[verifier::allow_in_spec]
    pub fn power_gain(&self, db: Single) -> Single
        returns
            self.power(number(N10), self.over(db, number(N40))),
    {
        self.power(number(N10), self.over(db, number(N40)))
    }

    fn normalize(&self, c: Coefficients) -> (f: Filter)
        ensures
            f == normalized(*self, c),
    {
        Filter {
            b: (self.over(c.b0, c.a0), self.over(c.b1, c.a0), self.over(c.b2, c.a0)),
            a: (self.over(c.a1, c.a0), self.over(c.a2, c.a0)),
        }
    }

    fn shelf(&self, f0: Single, gain_db: Single, sr: Single) -> (s: Shelf)
        ensures
            s == spec_shelf(*self, f0, gain_db, sr),
    {
        let a: Single = self.power_gain(gain_db);
        let w0: Single = self.angular_step(f0, sr);
        let alpha: Single = self.times(self.over(self.sine(w0), number(N2)), self.root(number(N2)));
        Shelf {
            a,
            more: self.plus(a, one()),
            less: self.minus(a, one()),
            c: self.cosine(w0),
            sa: self.times(self.times(number(N2), self.root(a)), alpha),
        }
    }

    /// A shelf below `f0`.
    pub fn low_shelf(&self, f0: Single, gain_db: Single, sr: Single) -> (c: Coefficients)
        ensures
            c == spec_low_shelf(*self, f0, gain_db, sr),
    {
        let s: Shelf = self.shelf(f0, gain_db, sr);
        let lc: Single = self.times(s.less, s.c);
        let mc: Single = self.times(s.more, s.c);
        Coefficients {
            b0: self.times(s.a, self.plus(self.minus(s.more, lc), s.sa)),
            b1: self.times(self.times(number(N2), s.a), self.minus(s.less, mc)),
            b2: self.times(s.a, self.minus(self.minus(s.more, lc), s.sa)),
            a0: self.plus(self.plus(s.more, lc), s.sa),
            a1: self.times(number(N2).negated(), self.plus(s.less, mc)),
            a2: self.minus(self.plus(s.more, lc), s.sa),
        }
    }

    /// A shelf above `f0`.
    pub fn high_shelf(&self, f0: Single, gain_db: Single, sr: Single) -> (c: Coefficients)
        ensures
            c == spec_high_shelf(*self, f0, gain_db, sr),
    {
        let s: Shelf = self.shelf(f0, gain_db, sr);
        let lc: Single = self.times(s.less, s.c);
        let mc: Single = self.times(s.more, s.c);
        Coefficients {
            b0: self.times(s.a, self.plus(self.plus(s.more, lc), s.sa)),
            b1: self.times(self.times(number(N2).negated(), s.a), self.plus(s.less, mc)),
            b2: self.times(s.a, self.minus(self.plus(s.more, lc), s.sa)),
            a0: self.plus(self.minus(s.more, lc), s.sa),
            a1: self.times(number(N2), self.minus(s.less, mc)),
            a2: self.minus(self.minus(s.more, lc), s.sa),
        }
    }

    /// A peak at `f0`.
    pub fn peak(&self, f0: Single, q: Single, gain_db: Single, sr: Single) -> (c: Coefficients)
        ensures
            c == spec_peak(*self, f0, q, gain_db, sr),
    {
        let a: Single = self.power_gain(gain_db);
        let w0: Single = self.angular_step(f0, sr);
        let alpha: Single = self.over(self.sine(w0), self.times(number(N2), q));
        let side: Single = self.times(number(N2).negated(), self.cosine(w0));
        Coefficients {
            b0: self.plus(one(), self.times(alpha, a)),
            b1: side,
            b2: self.minus(one(), self.times(alpha, a)),
            a0: self.plus(one(), self.over(alpha, a)),
            a1: side,
            a2: self.minus(one(), self.over(alpha, a)),
        }
    }
}

fn rest(filter: Filter) -> (s: Stage)
    ensures
        s == fresh(filter),
{
    Stage { filter, left: (zero(), zero()), right: (zero(), zero()) }
}

impl MasterEq {
    /// Built from the settings of the host, honoring the shipped defaults.
    pub fn from_env<F: Fn(Op) -> Single, G: Fn(&'static str) -> Option<Single>>(k: &Arith<F>, sr: Single, get: &G) -> (r: MasterEq)
        requires
            answers(*get),
        ensures
            exists|p: EqParams| eq_settings(*get, p) && r@ == #[trigger] eq_of(*k, sr, p),
    {
        let p = EqParams {
            low_db: setting(get, "PIANO_EQ_LOW_DB", MINUS_TWO),
            low_hz: setting(get, "PIANO_EQ_LOW_HZ", N300),
            peak_db: setting(get, "PIANO_EQ_PEAK_DB", N4),
            peak_hz: setting(get, "PIANO_EQ_PEAK_HZ", N5000),
            peak_q: setting(get, "PIANO_EQ_PEAK_Q", N0_8),
            high_db: setting(get, "PIANO_EQ_HIGH_DB", N6),
            high_hz: setting(get, "PIANO_EQ_HIGH_HZ", N2500),
        };
        MasterEq::with_params(k, sr, p)
    }

    /// An equalizer with the given parameters.
    pub fn with_params<F: Fn(Op) -> Single>(k: &Arith<F>, sr: Single, p: EqParams) -> (r: MasterEq)
        ensures
            r@ == eq_of(*k, sr, p),
    {
        let stages: [Stage; 3] = [
            rest(k.normalize(k.low_shelf(p.low_hz, p.low_db, sr))),
            rest(k.normalize(k.peak(p.peak_hz, p.peak_q, p.peak_db, sr))),
            rest(k.normalize(k.high_shelf(p.high_hz, p.high_db, sr))),
        ];
        let active: bool = !p.low_db.is_zero() || !p.peak_db.is_zero() || !p.high_db.is_zero();
        let r = MasterEq { stages, active };
        assert(r@ =~= eq_of(*k, sr, p));
        r
    }

    /// One stereo sample through the stages.
    fn step<F: Fn(Op) -> Single>(&mut self, k: &Arith<F>, left: Single, right: Single) -> (out: (Single, Single))
        ensures
            final(self)@ == old(self)@.stepped(*k, left, right),
            out.0 == shaped(*k, old(self)@.stages, left, true, 3),
            out.1 == shaped(*k, old(self)@.stages, right, false, 3),
    {
        let ghost before = self@;
        let ghost after = before.stepped(*k, left, right);
        let mut l: Single = left;
        let mut r: Single = right;
        let mut i: usize = 0;
        while i < 3
            invariant
                i <= 3,
                before.stages.len() == 3,
                after == before.stepped(*k, left, right),
                self.active == before.active,
                l == shaped(*k, before.stages, left, true, i as int),
                r == shaped(*k, before.stages, right, false, i as int),
                forall|j: int| 0 <= j < i ==> #[trigger] self.stages@[j] == after.stages[j],
                forall|j: int| i <= j < 3 ==> #[trigger] self.stages@[j] == before.stages[j],
            decreases 3 - i,
        {
            let s: Stage = self.stages[i];
            let fl: Filtered = k.filtered(s.filter, s.left, l);
            let fr: Filtered = k.filtered(s.filter, s.right, r);
            self.stages[i] = Stage { filter: s.filter, left: fl.z, right: fr.z };
            l = fl.out;
            r = fr.out;
            i += 1;
        }
        assert(self@.stages =~= after.stages);
        (l, r)
    }

    /// Runs stereo samples through the stages, in place.
    pub fn process<F: Fn(Op) -> Single>(&mut self, k: &Arith<F>, left: &mut [Single], right: &mut [Single])
        requires
            old(left)@.len() == old(right)@.len(),
        ensures
            final(self)@ == old(self)@.after(*k, old(left)@, old(right)@, old(left)@.len() as int),
            final(left)@ == equalized(*k, old(self)@, old(left)@, old(right)@, true),
            final(right)@ == equalized(*k, old(self)@, old(left)@, old(right)@, false),
    {
        if !self.active {
            return;
        }
        let ghost eq = self@;
        let ghost left0 = left@;
        let ghost right0 = right@;
        let n: usize = left.len();
        let mut i: usize = 0;
        while i < n
            invariant
                i <= n,
                eq.active,
                n == left0.len(),
                right0.len() == n,
                left@.len() == n,
                right@.len() == n,
                self@ == eq.after(*k, left0, right0, i as int),
                forall|j: int| 0 <= j < i ==> #[trigger] left@[j] == equalized(*k, eq, left0, right0, true)[j],
                forall|j: int| 0 <= j < i ==> #[trigger] right@[j] == equalized(*k, eq, left0, right0, false)[j],
                forall|j: int| i <= j < n ==> #[trigger] left@[j] == left0[j],
                forall|j: int| i <= j < n ==> #[trigger] right@[j] == right0[j],
            decreases n - i,
        {
            let out = self.step(k, left[i], right[i]);
            left[i] = out.0;
            right[i] = out.1;
            i += 1;
        }
        assert(left@ =~= equalized(*k, eq, left0, right0, true));
        assert(right@ =~= equalized(*k, eq, left0, right0, false));
    }
}

/// An equalizer whose gains are all zero leaves the sound alone.
pub proof fn flat_equalizer_is_transparent<F: Fn(Op) -> Single>(
    k: Arith<F>,
    sr: Single,
    p: EqParams,
    left: Seq<Single>,
    right: Seq<Single>,
)
    requires
        p.low_db.zero_valued(),
        p.peak_db.zero_valued(),
        p.high_db.zero_valued(),
    ensures
        equalized(k, eq_of(k, sr, p), left, right, true) == left,
        equalized(k, eq_of(k, sr, p), left, right, false) == right,
{
}

proof fn lemma_after_prefix<F: Fn(Op) -> Single>(
    eq: EqState,
    k: Arith<F>,
    left: Seq<Single>,
    right: Seq<Single>,
    more_left: Seq<Single>,
    more_right: Seq<Single>,
    n: int,
)
    requires
        left.len() == right.len(),
        n <= left.len(),
    ensures
        eq.after(k, left + more_left, right + more_right, n) == eq.after(k, left, right, n),
        eq.after(k, left, right, n).active == eq.active,
    decreases n,
{
    if n > 0 {
        lemma_after_prefix(eq, k, left, right, more_left, more_right, n - 1);
    }
}

/// Where a block ends does not matter: two blocks go through an equalizer as
/// one.
pub proof fn equalizer_ignores_block_bounds<F: Fn(Op) -> Single>(
    eq: EqState,
    k: Arith<F>,
    left: Seq<Single>,
    right: Seq<Single>,
    more_left: Seq<Single>,
    more_right: Seq<Single>,
    n: int,
)
    requires
        left.len() == right.len(),
        more_left.len() == more_right.len(),
        0 <= n <= more_left.len(),
    ensures
        eq.after(k, left + more_left, right + more_right, left.len() + n) == eq.after(
            k,
            left,
            right,
            left.len() as int,
        ).after(k, more_left, more_right, n),
    decreases n,
{
    lemma_after_prefix(eq, k, left, right, more_left, more_right, left.len() as int);
    if n > 0 {
        equalizer_ignores_block_bounds(eq, k, left, right, more_left, more_right, n - 1);
    }
}

/// An equalizer works as soon as one of its gains is not zero, whichever.
pub proof fn equalizer_works_if_asked<F: Fn(Op) -> Single>(k: Arith<F>, sr: Single, p: EqParams)
    ensures
        !p.low_db.zero_valued() ==> eq_of(k, sr, p).active,
        !p.peak_db.zero_valued() ==> eq_of(k, sr, p).active,
        !p.high_db.zero_valued() ==> eq_of(k, sr, p).active,
{
}

/// Each setting goes to its own stage: the shelf below, the peak and the shelf
/// above, in this order, each at its own corner, and all of them at rest.
pub proof fn equalizer_stages_are_independent<F: Fn(Op) -> Single>(k: Arith<F>, sr: Single, p: EqParams, q: EqParams)
    ensures
        eq_of(k, sr, p).stages.len() == 3,
        p.low_db == q.low_db && p.low_hz == q.low_hz ==> eq_of(k, sr, p).stages[0] == eq_of(k, sr, q).stages[0],
        p.peak_db == q.peak_db && p.peak_hz == q.peak_hz && p.peak_q == q.peak_q ==> eq_of(k, sr, p).stages[1]
            == eq_of(k, sr, q).stages[1],
        p.high_db == q.high_db && p.high_hz == q.high_hz ==> eq_of(k, sr, p).stages[2] == eq_of(k, sr, q).stages[2],
        forall|i: int|
            0 <= i < 3 ==> (#[trigger] eq_of(k, sr, p).stages[i]).left == (zero(), zero()) && eq_of(
                k,
                sr,
                p,
            ).stages[i].right == (zero(), zero()),
{
}

/// A working equalizer passes each sample through all of its stages, one after
/// the other; either channel goes by its own memory.
pub proof fn equalizer_cascades<F: Fn(Op) -> Single>(
    k: Arith<F>,
    eq: EqState,
    left: Seq<Single>,
    right: Seq<Single>,
    i: int,
)
    requires
        eq.active,
        eq.stages.len() == 3,
        0 <= i < left.len(),
        left.len() == right.len(),
    ensures
        ({
            let s = eq.after(k, left, right, i).stages;
            let a = spec_filtered(k, s[0].filter, s[0].left, left[i]);
            let b = spec_filtered(k, s[1].filter, s[1].left, a.out);
            let c = spec_filtered(k, s[2].filter, s[2].left, b.out);
            let next = eq.after(k, left, right, i + 1).stages;
            &&& equalized(k, eq, left, right, true)[i] == c.out
            &&& next[0].left == a.z && next[1].left == b.z && next[2].left == c.z
        }),
        ({
            let s = eq.after(k, left, right, i).stages;
            let a = spec_filtered(k, s[0].filter, s[0].right, right[i]);
            let b = spec_filtered(k, s[1].filter, s[1].right, a.out);
            let c = spec_filtered(k, s[2].filter, s[2].right, b.out);
            let next = eq.after(k, left, right, i + 1).stages;
            &&& equalized(k, eq, left, right, false)[i] == c.out
            &&& next[0].right == a.z && next[1].right == b.z && next[2].right == c.z
        }),
{
    reveal_with_fuel(shaped, 4);
    lemma_stage_count(k, eq, left, right, i);
}

proof fn lemma_stage_count<F: Fn(Op) -> Single>(k: Arith<F>, eq: EqState, left: Seq<Single>, right: Seq<Single>, n: int)
    ensures
        eq.after(k, left, right, n).stages.len() == eq.stages.len(),
        eq.after(k, left, right, n).active == eq.active,
    decreases n,
{
    if n > 0 && eq.active {
        lemma_stage_count(k, eq, left, right, n - 1);
    }
}

/// The peak: at its own frequency, quality and gain, whatever they are, after
/// the usual recipe.
pub proof fn peaks_go_by_their_settings<F: Fn(Op) -> Single>(k: Arith<F>, sr: Single, p: EqParams)
    ensures
        ({
            let a = k.power(number(0x4120_0000), k.over(p.peak_db, number(0x4220_0000)));
            let w = k.over(k.times(number(0x40C9_0FDB), p.peak_hz), sr);
            let alpha = k.over(k.sine(w), k.times(number(0x4000_0000), p.peak_q));
            let side = k.times(number(0x4000_0000).negated(), k.cosine(w));
            let whole = k.plus(one(), k.over(alpha, a));
            let f = eq_of(k, sr, p).stages[1].filter;
            &&& f.b.0 == k.over(k.plus(one(), k.times(alpha, a)), whole)
            &&& f.b.1 == k.over(side, whole)
            &&& f.b.2 == k.over(k.minus(one(), k.times(alpha, a)), whole)
            &&& f.a.0 == k.over(side, whole)
            &&& f.a.1 == k.over(k.minus(one(), k.over(alpha, a)), whole)
        }),
{
}

/// The two shelves: each at its own corner and gain, whatever they are; the one
/// above is the one below with the cosine of its corner turned around.
pub proof fn shelves_go_by_their_settings<F: Fn(Op) -> Single>(k: Arith<F>, sr: Single, p: EqParams)
    ensures
        ({
            let a = k.power(number(0x4120_0000), k.over(p.low_db, number(0x4220_0000)));
            let w = k.over(k.times(number(0x40C9_0FDB), p.low_hz), sr);
            let alpha = k.times(k.over(k.sine(w), number(0x4000_0000)), k.root(number(0x4000_0000)));
            let more = k.plus(a, one());
            let less = k.minus(a, one());
            let width = k.times(k.times(number(0x4000_0000), k.root(a)), alpha);
            let lc = k.times(less, k.cosine(w));
            let mc = k.times(more, k.cosine(w));
            let whole = k.plus(k.plus(more, lc), width);
            let f = eq_of(k, sr, p).stages[0].filter;
            &&& f.b.0 == k.over(k.times(a, k.plus(k.minus(more, lc), width)), whole)
            &&& f.b.1 == k.over(k.times(k.times(number(0x4000_0000), a), k.minus(less, mc)), whole)
            &&& f.b.2 == k.over(k.times(a, k.minus(k.minus(more, lc), width)), whole)
            &&& f.a.0 == k.over(k.times(number(0x4000_0000).negated(), k.plus(less, mc)), whole)
            &&& f.a.1 == k.over(k.minus(k.plus(more, lc), width), whole)
        }),
        ({
            let a = k.power(number(0x4120_0000), k.over(p.high_db, number(0x4220_0000)));
            let w = k.over(k.times(number(0x40C9_0FDB), p.high_hz), sr);
            let alpha = k.times(k.over(k.sine(w), number(0x4000_0000)), k.root(number(0x4000_0000)));
            let more = k.plus(a, one());
            let less = k.minus(a, one());
            let width = k.times(k.times(number(0x4000_0000), k.root(a)), alpha);
            let lc = k.times(less, k.cosine(w));
            let mc = k.times(more, k.cosine(w));
            let whole = k.plus(k.minus(more, lc), width);
            let f = eq_of(k, sr, p).stages[2].filter;
            &&& f.b.0 == k.over(k.times(a, k.plus(k.plus(more, lc), width)), whole)
            &&& f.b.1 == k.over(k.times(k.times(number(0x4000_0000).negated(), a), k.plus(less, mc)), whole)
            &&& f.b.2 == k.over(k.times(a, k.minus(k.plus(more, lc), width)), whole)
            &&& f.a.0 == k.over(k.times(number(0x4000_0000), k.minus(less, mc)), whole)
            &&& f.a.1 == k.over(k.minus(k.minus(more, lc), width), whole)
        }),
{
}

} // verus!
