//! Master bus compressor and soft saturation: a presentation stage for the
//! glued, slightly tape-like character of a mastered recording. Feed-forward
//! peak detector with attack and release smoothed gain reduction, soft knee,
//! makeup gain, and a blendable saturation for analog warmth. Stereo-linked
//! (one gain for both channels, so the image is preserved). Allocation-free.

use crate::arith::{Arith, Op};
use crate::constant::{
    N0_1, N0_12, N0_5, N1000, N15, N160, N1E_6, N2, N20, N24, N2_5, N3, N4, N6,
};
use crate::number::{SINGLE_HALF, SINGLE_ONE, Single, is_on, number, one, spec_is_on, zero};
use crate::rounding::{
    beyond, is_share, lemma_difference, lemma_product, lemma_product_sign, lemma_quotient, lemma_quotient_sign,
    lemma_sum, lemma_sum_sign, lemma_within, plain, within,
};
use crate::setting::{answers, is_setting, setting};
use vstd::prelude::*;

verus! {

/// Bit pattern of the default threshold, 22 decibels below full scale.
pub const DEFAULT_THRESHOLD: u32 = 0xC1B0_0000;

/// What a compressor is asked to do.
#[derive(Clone, Copy, Debug)]
pub struct CompParams {
    pub thresh_db: Single,
    pub ratio: Single,
    pub attack_ms: Single,
    pub release_ms: Single,
    pub makeup_db: Single,
    pub drive: Single,
    pub on: bool,
}

/// The compressor.
#[derive(Clone, Copy, Debug)]
pub struct Compressor {
    /// Current gain reduction in decibels.
    pub gr_db: Single,
    pub thresh_db: Single,
    /// Decibels taken per decibel over.
    pub slope: Single,
    pub attack: Single,
    pub release: Single,
    /// Makeup gain, linear.
    pub makeup: Single,
    /// How much saturation is blended in.
    pub drive: Single,
    pub active: bool,
}

impl<F: Fn(Op) -> Single> Arith<F> {
    /// The share of the way that a smoothed value goes per sample.
    #[verifier::allow_in_spec]
    pub fn smoothing(&self, ms: Single, sr: Single) -> Single
        returns
            self.minus(
                one(),
                self.exp(
                    self.over(
                        one().negated(),
                        self.times(self.over(ms.greater(number(N0_1)), number(N1000)), sr),
                    ),
                ),
            ),
    {
        self.minus(
            one(),
            self.exp(
                self.over(one().negated(), self.times(self.over(ms.greater(number(N0_1)), number(N1000)), sr)),
            ),
        )
    }

    /// The level of a stereo sample in decibels.
    #[verifier::allow_in_spec]
    pub fn level_db(&self, left: Single, right: Single) -> Single
        returns
            self.times(
                number(N20),
                self.log(self.plus(left.absolute().greater(right.absolute()), number(N1E_6))),
            ),
    {
        self.times(
            number(N20),
            self.log(self.plus(left.absolute().greater(right.absolute()), number(N1E_6))),
        )
    }

    /// Where the knee ends, in decibels over the threshold.
    #[verifier::allow_in_spec]
    pub fn half_knee(&self) -> Single
        returns
            self.times(number(N6), number(N0_5)),
    {
        self.times(number(N6), number(N0_5))
    }

    /// How strongly the saturation bends.
    #[verifier::allow_in_spec]
    pub fn bend(&self, drive: Single) -> Single
        returns
            self.plus(one(), self.times(drive, number(N4))),
    {
        self.plus(one(), self.times(drive, number(N4)))
    }

    /// A sample with saturation blended in.
    #[verifier::allow_in_spec]
    pub fn saturated(&self, x: Single, drive: Single) -> Single
        returns
            self.plus(
                self.times(x, self.minus(one(), drive)),
                self.times(
                    self.over(self.tanh(self.times(x, self.bend(drive))), self.tanh(self.bend(drive))),
                    drive,
                ),
            ),
    {
        self.plus(
            self.times(x, self.minus(one(), drive)),
            self.times(
                self.over(self.tanh(self.times(x, self.bend(drive))), self.tanh(self.bend(drive))),
                drive,
            ),
        )
    }
}

/// The static curve with its soft knee: the gain reduction that a level so far
/// over the threshold aims at.
pub open spec fn spec_target<F: Fn(Op) -> Single>(k: Arith<F>, slope: Single, over: Single) -> Single {
    if over.le(k.times(number(N6).negated(), number(N0_5))) {
        zero()
    } else if k.half_knee().le(over) {
        k.times(slope, over)
    } else {
        let x = k.plus(over, k.half_knee());
        k.over(k.times(k.times(slope, x), x), k.times(number(N2), number(N6)))
    }
}

/// A compressor at rest. It does nothing at all where it is off, or where it
/// neither compresses nor saturates.
pub open spec fn comp_of<F: Fn(Op) -> Single>(k: Arith<F>, sr: Single, p: CompParams) -> Compressor {
    Compressor {
        gr_db: zero(),
        thresh_db: p.thresh_db,
        slope: k.minus(k.over(one(), p.ratio.greater(one())), one()),
        attack: k.smoothing(p.attack_ms, sr),
        release: k.smoothing(p.release_ms, sr),
        makeup: k.gain(p.makeup_db),
        drive: p.drive.clamped(zero(), one()),
        active: p.on && (one().lt(p.ratio) || zero().lt(p.drive)),
    }
}

/// The settings of the host, with the shipped ones as default.
pub open spec fn comp_settings<G: Fn(&'static str) -> Option<Single>>(get: G, p: CompParams) -> bool {
    &&& is_setting(get, "PIANO_COMP_THRESH_DB", DEFAULT_THRESHOLD, p.thresh_db)
    &&& is_setting(get, "PIANO_COMP_RATIO", N2_5, p.ratio)
    &&& is_setting(get, "PIANO_COMP_ATTACK_MS", N15, p.attack_ms)
    &&& is_setting(get, "PIANO_COMP_RELEASE_MS", N160, p.release_ms)
    &&& is_setting(get, "PIANO_COMP_MAKEUP_DB", N3, p.makeup_db)
    &&& is_setting(get, "PIANO_COMP_DRIVE", N0_12, p.drive)
    &&& exists|on: Single| #[trigger] is_setting(get, "PIANO_COMP_ON", SINGLE_ONE, on) && p.on == spec_is_on(on)
}

impl Compressor {
    /// The gain reduction after a stereo sample: part of the way to its target,
    /// faster when clamping down.
    pub open spec fn reduction<F: Fn(Op) -> Single>(self, k: Arith<F>, left: Single, right: Single) -> Single {
        let target = spec_target(k, self.slope, k.minus(k.level_db(left, right), self.thresh_db));
        let c = if target.lt(self.gr_db) {
            self.attack
        } else {
            self.release
        };
        k.plus(self.gr_db, k.times(k.minus(target, self.gr_db), c))
    }

    /// One channel of a sample at the gain reduction `gr_db`, never beyond full
    /// scale.
    pub open spec fn squeezed<F: Fn(Op) -> Single>(self, k: Arith<F>, x: Single, gr_db: Single) -> Single {
        let y = k.times(x, k.times(k.gain(gr_db), self.makeup));
        (if zero().lt(self.drive) {
            k.saturated(y, self.drive)
        } else {
            y
        }).clamped(one().negated(), one())
    }

    /// The compressor after `n` samples.
    pub open spec fn after<F: Fn(Op) -> Single>(self, k: Arith<F>, left: Seq<Single>, right: Seq<Single>, n: int) -> Compressor
        decreases n,
    {
        if n <= 0 || !self.active {
            self
        } else {
            let c = self.after(k, left, right, n - 1);
            Compressor { gr_db: c.reduction(k, left[n - 1], right[n - 1]), ..c }
        }
    }

    /// One channel through the compressor; an inactive one leaves it alone.
    pub open spec fn compressed<F: Fn(Op) -> Single>(self, k: Arith<F>, left: Seq<Single>, right: Seq<Single>, x: Seq<Single>) -> Seq<Single> {
        if self.active {
            Seq::new(x.len(), |i: int| self.squeezed(k, x[i], self.after(k, left, right, i + 1).gr_db))
        } else {
            x
        }
    }

    /// Built from the settings of the host, honoring the shipped defaults.
    pub fn from_env<F: Fn(Op) -> Single, G: Fn(&'static str) -> Option<Single>>(k: &Arith<F>, sr: Single, get: &G) -> (r: Compressor)
        requires
            answers(*get),
        ensures
            exists|p: CompParams| comp_settings(*get, p) && r == #[trigger] comp_of(*k, sr, p),
    {
        let p = CompParams {
            thresh_db: setting(get, "PIANO_COMP_THRESH_DB", DEFAULT_THRESHOLD),
            ratio: setting(get, "PIANO_COMP_RATIO", N2_5),
            attack_ms: setting(get, "PIANO_COMP_ATTACK_MS", N15),
            release_ms: setting(get, "PIANO_COMP_RELEASE_MS", N160),
            makeup_db: setting(get, "PIANO_COMP_MAKEUP_DB", N3),
            drive: setting(get, "PIANO_COMP_DRIVE", N0_12),
            on: is_on(setting(get, "PIANO_COMP_ON", SINGLE_ONE)),
        };
        Compressor::with_params(k, sr, p)
    }

    /// A compressor with the given parameters.
    pub fn with_params<F: Fn(Op) -> Single>(k: &Arith<F>, sr: Single, p: CompParams) -> (r: Compressor)
        ensures
            r == comp_of(*k, sr, p),
    {
        Compressor {
            gr_db: zero(),
            thresh_db: p.thresh_db,
            slope: k.minus(k.over(one(), p.ratio.greater(one())), one()),
            attack: k.smoothing(p.attack_ms, sr),
            release: k.smoothing(p.release_ms, sr),
            makeup: k.gain(p.makeup_db),
            drive: p.drive.clamped(zero(), one()),
            active: p.on && (one().is_below(p.ratio) || zero().is_below(p.drive)),
        }
    }

    /// The gain reduction that a level so far over the threshold aims at.
    fn target<F: Fn(Op) -> Single>(&self, k: &Arith<F>, over: Single) -> (r: Single)
        ensures
            r == spec_target(*k, self.slope, over),
    {
        if over.is_at_most(k.times(number(N6).negated(), number(N0_5))) {
            zero()
        } else if k.half_knee().is_at_most(over) {
            k.times(self.slope, over)
        } else {
            let x: Single = k.plus(over, k.half_knee());
            k.over(k.times(k.times(self.slope, x), x), k.times(number(N2), number(N6)))
        }
    }

    fn squeeze<F: Fn(Op) -> Single>(&self, k: &Arith<F>, x: Single, gr_db: Single) -> (r: Single)
        ensures
            r == self.squeezed(*k, x, gr_db),
    {
        let y: Single = k.times(x, k.times(k.gain(gr_db), self.makeup));
        let z: Single = if zero().is_below(self.drive) {
            k.saturated(y, self.drive)
        } else {
            y
        };
        z.clamped(one().negated(), one())
    }

    /// Runs stereo samples through the compressor, in place.
    pub fn process<F: Fn(Op) -> Single>(&mut self, k: &Arith<F>, left: &mut [Single], right: &mut [Single])
        requires
            old(left)@.len() == old(right)@.len(),
        ensures
            *final(self) == old(self).after(*k, old(left)@, old(right)@, old(left)@.len() as int),
            final(left)@ == old(self).compressed(*k, old(left)@, old(right)@, old(left)@),
            final(right)@ == old(self).compressed(*k, old(left)@, old(right)@, old(right)@),
    {
        if !self.active {
            return;
        }
        let ghost comp = *self;
        let ghost left0 = left@;
        let ghost right0 = right@;
        let n: usize = left.len();
        let mut i: usize = 0;
        while i < n
            invariant
                i <= n,
                comp.active,
                n == left0.len(),
                right0.len() == n,
                left@.len() == n,
                right@.len() == n,
                *self == comp.after(*k, left0, right0, i as int),
                *self == (Compressor { gr_db: self.gr_db, ..comp }),
                forall|j: int| 0 <= j < i ==> #[trigger] left@[j] == comp.compressed(*k, left0, right0, left0)[j],
                forall|j: int| 0 <= j < i ==> #[trigger] right@[j] == comp.compressed(*k, left0, right0, right0)[j],
                forall|j: int| i <= j < n ==> #[trigger] left@[j] == left0[j],
                forall|j: int| i <= j < n ==> #[trigger] right@[j] == right0[j],
            decreases n - i,
        {
            let target: Single = self.target(k, k.minus(k.level_db(left[i], right[i]), self.thresh_db));
            let c: Single = if target.is_below(self.gr_db) {
                self.attack
            } else {
                self.release
            };
            let gr_db: Single = k.plus(self.gr_db, k.times(k.minus(target, self.gr_db), c));
            self.gr_db = gr_db;
            left[i] = self.squeeze(k, left[i], gr_db);
            right[i] = self.squeeze(k, right[i], gr_db);
            i += 1;
        }
        assert(left@ =~= comp.compressed(*k, left0, right0, left0));
        assert(right@ =~= comp.compressed(*k, left0, right0, right0));
    }
}

/// What comes out of a compressor at work is never beyond full scale.
pub proof fn compressor_keeps_full_scale<F: Fn(Op) -> Single>(c: Compressor, k: Arith<F>, x: Single, gr_db: Single)
    ensures
        c.squeezed(k, x, gr_db).nan() || (one().negated().le(c.squeezed(k, x, gr_db)) && c.squeezed(k, x, gr_db).le(
            one(),
        )),
{
}

/// A compressor that is off, or that neither compresses nor saturates, leaves
/// the sound alone.
pub proof fn idle_compressor_is_transparent<F: Fn(Op) -> Single>(
    k: Arith<F>,
    sr: Single,
    p: CompParams,
    left: Seq<Single>,
    right: Seq<Single>,
)
    requires
        !p.on || (p.ratio.le(one()) && p.drive.le(zero())),
    ensures
        comp_of(k, sr, p).compressed(k, left, right, left) == left,
        comp_of(k, sr, p).compressed(k, left, right, right) == right,
{
}

proof fn lemma_after_prefix<F: Fn(Op) -> Single>(
    c: Compressor,
    k: Arith<F>,
    left: Seq<Single>,
    right: Seq<Single>,
    more_left: Seq<Single>,
    more_right: Seq<Single>,
    n: int,
)
    requires
        left.len() == right.len(),
        n <= left.len(),
    ensures
        c.after(k, left + more_left, right + more_right, n) == c.after(k, left, right, n),
        c.after(k, left, right, n).active == c.active,
    decreases n,
{
    if n > 0 {
        lemma_after_prefix(c, k, left, right, more_left, more_right, n - 1);
    }
}

/// Where a block ends does not matter: two blocks go through a compressor as
/// one.
pub proof fn compressor_ignores_block_bounds<F: Fn(Op) -> Single>(
    c: Compressor,
    k: Arith<F>,
    left: Seq<Single>,
    right: Seq<Single>,
    more_left: Seq<Single>,
    more_right: Seq<Single>,
    n: int,
)
    requires
        left.len() == right.len(),
        more_left.len() == more_right.len(),
        0 <= n <= more_left.len(),
    ensures
        c.after(k, left + more_left, right + more_right, left.len() + n) == c.after(
            k,
            left,
            right,
            left.len() as int,
        ).after(k, more_left, more_right, n),
    decreases n,
{
    lemma_after_prefix(c, k, left, right, more_left, more_right, left.len() as int);
    if n > 0 {
        compressor_ignores_block_bounds(c, k, left, right, more_left, more_right, n - 1);
    }
}

/// All samples are numbers.
pub open spec fn all_numbers(x: Seq<Single>) -> bool {
    forall|i: int| 0 <= i < x.len() ==> !(#[trigger] x[i]).nan()
}

proof fn lemma_after_sides<F: Fn(Op) -> Single>(c: Compressor, k: Arith<F>, left: Seq<Single>, right: Seq<Single>, n: int)
    requires
        left.len() == right.len(),
        n <= left.len(),
        all_numbers(left),
        all_numbers(right),
    ensures
        c.after(k, right, left, n) == c.after(k, left, right, n),
    decreases n,
{
    if n > 0 {
        lemma_after_sides(c, k, left, right, n - 1);
        let l = left[n - 1].absolute();
        let r = right[n - 1].absolute();
        assert(l.greater(r) == r.greater(l));
    }
}

/// Exchanged channels come out exchanged, and leave the compressor the same: it
/// looks at the louder one, and has one gain for both.
pub proof fn compressor_has_no_side<F: Fn(Op) -> Single>(c: Compressor, k: Arith<F>, left: Seq<Single>, right: Seq<Single>)
    requires
        left.len() == right.len(),
        all_numbers(left),
        all_numbers(right),
    ensures
        c.after(k, right, left, left.len() as int) == c.after(k, left, right, left.len() as int),
        c.compressed(k, right, left, right) == c.compressed(k, left, right, right),
        c.compressed(k, right, left, left) == c.compressed(k, left, right, left),
{
    lemma_after_sides(c, k, left, right, left.len() as int);
    assert forall|i: int| 0 <= i < left.len() implies #[trigger] c.after(k, right, left, i + 1) == c.after(
        k,
        left,
        right,
        i + 1,
    ) by {
        lemma_after_sides(c, k, left, right, i + 1);
    }
    assert(c.compressed(k, right, left, left) =~= c.compressed(k, left, right, left));
    assert(c.compressed(k, right, left, right) =~= c.compressed(k, left, right, right));
}

/// Without saturation, and short of full scale, both channels are the input at
/// one common gain: the stereo image is preserved.
pub proof fn compressor_keeps_the_image<F: Fn(Op) -> Single>(
    c: Compressor,
    k: Arith<F>,
    left: Seq<Single>,
    right: Seq<Single>,
    i: int,
) -> (gain: Single)
    requires
        c.active,
        !zero().lt(c.drive),
        left.len() == right.len(),
        0 <= i < left.len(),
        one().negated().lt(c.compressed(k, left, right, left)[i]),
        c.compressed(k, left, right, left)[i].lt(one()),
        one().negated().lt(c.compressed(k, left, right, right)[i]),
        c.compressed(k, left, right, right)[i].lt(one()),
    ensures
        c.compressed(k, left, right, left)[i] == k.times(left[i], gain),
        c.compressed(k, left, right, right)[i] == k.times(right[i], gain),
{
    k.times(k.gain(c.after(k, left, right, i + 1).gr_db), c.makeup)
}

/// The facts of the arithmetic that the bounds of a compressor rest on.
pub open spec fn is_sound<F: Fn(Op) -> Single>(k: Arith<F>) -> bool {
    k.has_zero() && k.is_bounded() && k.is_contained() && k.is_signed() && k.has_shares() && k.has_ranges()
}

/// The sample rate and the settings are finite, and the makeup gain is at most
/// 24 decibels.
pub open spec fn is_settable(sr: Single, p: CompParams) -> bool {
    &&& sr.finite()
    &&& zero().lt(sr)
    &&& p.thresh_db.finite()
    &&& p.attack_ms.finite()
    &&& p.release_ms.finite()
    &&& p.makeup_db.finite()
    &&& p.makeup_db.le(number(N24))
}

/// What the parts of a compressor at work keep.
pub open spec fn is_tame(c: Compressor) -> bool {
    &&& c.gr_db.finite()
    &&& c.gr_db.le(zero())
    &&& c.thresh_db.finite()
    &&& within(c.slope, 0)
    &&& c.slope.le(zero())
    &&& is_share(c.attack)
    &&& is_share(c.release)
    &&& within(c.makeup, 7)
    &&& zero().le(c.makeup)
    &&& zero().lt(c.drive) ==> is_share(c.drive)
}

/// The threshold is so far below any level that every level is as far over it.
spec fn is_lofty(c: Compressor) -> bool {
    beyond(c.thresh_db, 125) && c.thresh_db.lt(zero())
}

/// Where such a compressor goes.
spec fn lofty_target<F: Fn(Op) -> Single>(k: Arith<F>, c: Compressor) -> Single {
    k.times(c.slope, c.thresh_db.negated())
}

/// A compressor that goes all the way to its target in one sample keeps clear of
/// the end of the finite numbers, or is at its only target already.
spec fn is_paced<F: Fn(Op) -> Single>(k: Arith<F>, c: Compressor) -> bool {
    ||| c.attack.lt(one())
    ||| !is_lofty(c) && within(c.gr_db, 126)
    ||| is_lofty(c) && (c.gr_db.zero_valued() || c.gr_db.equals(lofty_target(k, c)))
}

proof fn lemma_smoothing<F: Fn(Op) -> Single>(k: Arith<F>, ms: Single, sr: Single)
    requires
        is_sound(k),
        sr.finite(),
        zero().lt(sr),
        ms.finite(),
    ensures
        is_share(k.smoothing(ms, sr)),
{
    let longer = ms.greater(number(N0_1));
    let seconds = k.over(longer, number(N1000));
    assert(plain(longer));
    assert(beyond(number(N1000), 0));
    assert(seconds.finite()) by {
        reveal(Arith::is_contained);
    }
    lemma_quotient_sign(k, longer, number(N1000));
    assert(plain(seconds) && plain(sr));
    lemma_product_sign(k, seconds, sr);
    let span = k.times(seconds, sr);
    assert(zero().le(span) && !span.negative());
    let x = k.over(one().negated(), span);
    if zero().lt(span) {
        lemma_quotient_sign(k, one().negated(), span);
    } else {
        assert(plain(span));
        reveal(Arith::is_signed);
    }
    assert(x.le(zero()));
    reveal(Arith::has_ranges);
    reveal(Arith::has_shares);
    assert(is_share(k.exp(x)));
}

proof fn lemma_tame<F: Fn(Op) -> Single>(k: Arith<F>, sr: Single, p: CompParams)
    requires
        is_sound(k),
        is_settable(sr, p),
    ensures
        is_tame(comp_of(k, sr, p)),
        is_paced(k, comp_of(k, sr, p)),
{
    lemma_smoothing(k, p.attack_ms, sr);
    lemma_smoothing(k, p.release_ms, sr);
    reveal(Arith::has_shares);
    reveal(Arith::has_ranges);
    let kept = k.over(one(), p.ratio.greater(one()));
    assert(is_share(kept));
    let m = p.makeup_db;
    let x = k.over(m, number(N20));
    assert(beyond(number(N20), 4));
    lemma_quotient_sign(k, m, number(N20));
    if zero().le(m) {
        assert(within(m, 5));
        lemma_quotient(k, m, number(N20), 5, 4);
    }
    assert(x.le(number(N2)));
    assert(within(zero(), 126));
}

proof fn lemma_knee<F: Fn(Op) -> Single>(k: Arith<F>)
    requires
        is_sound(k),
    ensures
        within(k.half_knee(), 2),
        zero().le(k.half_knee()),
        within(k.times(number(N6).negated(), number(N0_5)), 2),
{
    assert(within(number(N6), 3) && within(number(N6).negated(), 3) && within(number(N0_5), -1));
    lemma_product(k, number(N6), number(N0_5), 3, -1);
    lemma_product_sign(k, number(N6), number(N0_5));
    lemma_product(k, number(N6).negated(), number(N0_5), 3, -1);
}

proof fn lemma_target<F: Fn(Op) -> Single>(k: Arith<F>, slope: Single, over: Single)
    requires
        is_sound(k),
        within(slope, 0),
        slope.le(zero()),
        over.finite(),
    ensures
        spec_target(k, slope, over).finite(),
        spec_target(k, slope, over).le(zero()),
        over.le(zero()) || within(over, 126) ==> within(spec_target(k, slope, over), 126),
{
    let half = k.half_knee();
    lemma_knee(k);
    if over.le(k.times(number(N6).negated(), number(N0_5))) {
        assert(within(zero(), 126));
    } else if half.le(over) {
        lemma_product_sign(k, slope, over);
        reveal(Arith::is_contained);
        if over.le(zero()) {
            assert(within(over, 126));
        }
        if within(over, 126) {
            lemma_product(k, slope, over, 0, 126);
        }
    } else {
        assert(within(over, 2));
        let x = k.plus(over, half);
        lemma_sum(k, over, half, 2);
        let once = k.times(slope, x);
        lemma_product(k, slope, x, 0, 3);
        lemma_product_sign(k, slope, x);
        let twice = k.times(once, x);
        lemma_product(k, once, x, 3, 3);
        lemma_product_sign(k, once, x);
        let whole = k.times(number(N2), number(N6));
        assert(within(number(N2), 1) && beyond(number(N2), 1) && beyond(number(N6), 2) && within(number(N6), 3));
        lemma_product(k, number(N2), number(N6), 1, 3);
        assert(beyond(whole, 3)) by {
            reveal(Arith::is_bounded);
        }
        lemma_product_sign(k, number(N2), number(N6));
        assert(zero().lt(whole));
        lemma_quotient(k, twice, whole, 6, 3);
        lemma_quotient_sign(k, twice, whole);
        lemma_within(k.over(twice, whole), 3, 126);
    }
}

/// How far over the threshold bounded samples are.
proof fn lemma_over<F: Fn(Op) -> Single>(c: Compressor, k: Arith<F>, left: Single, right: Single)
    requires
        is_sound(k),
        is_tame(c),
        within(left, 20),
        within(right, 20),
    ensures
        k.minus(k.level_db(left, right), c.thresh_db).finite(),
        !is_lofty(c) ==> {
            let over = k.minus(k.level_db(left, right), c.thresh_db);
            over.le(zero()) || within(over, 126)
        },
        is_lofty(c) ==> spec_target(k, c.slope, k.minus(k.level_db(left, right), c.thresh_db)) == lofty_target(k, c),
{
    let loud = left.absolute().greater(right.absolute());
    assert(within(loud, 20) && zero().le(loud));
    assert(within(number(N1E_6), 20));
    let lifted = k.plus(loud, number(N1E_6));
    lemma_sum(k, loud, number(N1E_6), 20);
    lemma_sum_sign(k, loud, number(N1E_6));
    assert(zero().lt(lifted));
    assert(within(k.log(lifted), 6)) by {
        reveal(Arith::has_ranges);
    }
    assert(within(number(N20), 5));
    lemma_product(k, number(N20), k.log(lifted), 5, 6);
    let level = k.level_db(left, right);
    let over = k.minus(level, c.thresh_db);
    lemma_within(level, 11, 90);
    reveal(Arith::is_contained);
    if within(c.thresh_db, 125) {
        lemma_within(level, 11, 125);
        lemma_difference(k, level, c.thresh_db, 125);
    } else {
        assert(beyond(c.thresh_db, 125));
        assert(over.equals(c.thresh_db.negated()));
    }
    if is_lofty(c) {
        assert(beyond(c.thresh_db, 125));
        assert(over.equals(c.thresh_db.negated()));
        assert(over == c.thresh_db.negated());
        lemma_knee(k);
    }
}

proof fn lemma_reduction<F: Fn(Op) -> Single>(c: Compressor, k: Arith<F>, left: Single, right: Single)
    requires
        is_sound(k),
        is_tame(c),
        is_paced(k, c),
        within(left, 20),
        within(right, 20),
    ensures
        is_tame(Compressor { gr_db: c.reduction(k, left, right), ..c }),
        is_paced(k, Compressor { gr_db: c.reduction(k, left, right), ..c }),
{
    lemma_over(c, k, left, right);
    let over = k.minus(k.level_db(left, right), c.thresh_db);
    lemma_target(k, c.slope, over);
    let g = c.gr_db;
    let t = spec_target(k, c.slope, over);
    let step = if t.lt(g) {
        c.attack
    } else {
        c.release
    };
    let next = c.reduction(k, left, right);
    assert(next == k.plus(g, k.times(k.minus(t, g), step)));
    if c.attack.lt(one()) {
        reveal(Arith::has_shares);
    } else if !is_lofty(c) {
        assert(within(g, 126) && within(t, 126));
        reveal(Arith::has_shares);
        assert(within(next, 126));
    } else {
        assert(c.attack == one());
        reveal(Arith::has_zero);
        if t.lt(g) {
            assert(g.zero_valued());
            let way = k.minus(t, g);
            assert(way.equals(t));
            let whole = k.times(way, one());
            assert(whole.equals(way));
            assert(next.equals(t));
        } else {
            assert(t.equals(g));
            let way = k.minus(t, g);
            assert(way.zero_valued());
            let part = k.times(way, c.release);
            assert(part.zero_valued());
            assert(next.equals(g));
        }
    }
}

/// The sum of two numbers on the side of zero where `x` is, is there too.
proof fn lemma_same_side<F: Fn(Op) -> Single>(k: Arith<F>, x: Single, a: Single, b: Single)
    requires
        k.is_signed(),
        a.finite(),
        b.finite(),
        zero().le(x) ==> zero().le(a) && zero().le(b),
        x.le(zero()) ==> a.le(zero()) && b.le(zero()),
        !x.nan(),
    ensures
        zero().le(x) ==> zero().le(k.plus(a, b)),
        x.le(zero()) ==> k.plus(a, b).le(zero()),
{
    lemma_sum_sign(k, a, b);
}

proof fn lemma_saturated<F: Fn(Op) -> Single>(k: Arith<F>, x: Single, drive: Single)
    requires
        is_sound(k),
        within(x, 27),
        zero().lt(drive),
        is_share(drive),
    ensures
        within(k.saturated(x, drive), 28),
        zero().le(x) ==> zero().le(k.saturated(x, drive)),
        x.le(zero()) ==> k.saturated(x, drive).le(zero()),
{
    let rest = k.minus(one(), drive);
    assert(is_share(rest)) by {
        reveal(Arith::has_shares);
    }
    assert(within(rest, 0) && within(drive, 0));
    let clean = k.times(x, rest);
    lemma_product(k, x, rest, 27, 0);
    lemma_product_sign(k, x, rest);
    assert(within(number(N4), 2));
    let more = k.times(drive, number(N4));
    lemma_product(k, drive, number(N4), 0, 2);
    lemma_product_sign(k, drive, number(N4));
    lemma_within(one(), 0, 2);
    let bend = k.bend(drive);
    lemma_sum(k, one(), more, 2);
    assert(one().le(bend)) by {
        lemma_sum_sign(k, one(), more);
    }
    let bent = k.times(x, bend);
    lemma_product(k, x, bend, 27, 3);
    lemma_product_sign(k, x, bend);
    let curve = k.tanh(bent);
    let full = k.tanh(bend);
    assert(within(curve, 0) && within(full, 0) && number(SINGLE_HALF).le(full) && (zero().le(bent) ==> zero().le(curve))
        && (bent.le(zero()) ==> curve.le(zero()))) by {
        reveal(Arith::has_ranges);
    }
    assert(beyond(full, -1));
    let warm = k.over(curve, full);
    lemma_quotient(k, curve, full, 0, -1);
    lemma_quotient_sign(k, curve, full);
    let blended = k.times(warm, drive);
    lemma_product(k, warm, drive, 1, 0);
    lemma_product_sign(k, warm, drive);
    lemma_within(blended, 1, 27);
    lemma_sum(k, clean, blended, 27);
    lemma_same_side(k, x, clean, blended);
}

proof fn lemma_squeezed<F: Fn(Op) -> Single>(c: Compressor, k: Arith<F>, x: Single, gr_db: Single)
    requires
        is_sound(k),
        is_tame(c),
        gr_db.finite(),
        gr_db.le(zero()),
        within(x, 20),
    ensures
        one().negated().le(c.squeezed(k, x, gr_db)),
        c.squeezed(k, x, gr_db).le(one()),
        zero().le(x) ==> zero().le(c.squeezed(k, x, gr_db)),
        x.le(zero()) ==> c.squeezed(k, x, gr_db).le(zero()),
{
    assert(beyond(number(N20), 4));
    let share = k.gain(gr_db);
    lemma_quotient_sign(k, gr_db, number(N20));
    assert(is_share(share)) by {
        reveal(Arith::has_ranges);
    }
    assert(within(share, 0));
    let gain = k.times(share, c.makeup);
    lemma_product(k, share, c.makeup, 0, 7);
    lemma_product_sign(k, share, c.makeup);
    let y = k.times(x, gain);
    lemma_product(k, x, gain, 20, 7);
    lemma_product_sign(k, x, gain);
    if zero().lt(c.drive) {
        lemma_saturated(k, y, c.drive);
    }
}

/// A compressor at work only ever reduces, and what comes out of it is a number
/// between the ends of full scale, on the side of zero where the sample was:
/// silence stays silence.
pub proof fn compressor_is_tame<F: Fn(Op) -> Single>(
    k: Arith<F>,
    sr: Single,
    p: CompParams,
    left: Seq<Single>,
    right: Seq<Single>,
    n: int,
)
    requires
        is_sound(k),
        is_settable(sr, p),
        left.len() == right.len(),
        0 <= n <= left.len(),
        comp_of(k, sr, p).active,
        forall|i: int| 0 <= i < left.len() ==> within(#[trigger] left[i], 20) && within(right[i], 20),
    ensures
        comp_of(k, sr, p).after(k, left, right, n).gr_db.le(zero()),
        n > 0 ==> {
            let c = comp_of(k, sr, p);
            let l = c.compressed(k, left, right, left)[n - 1];
            let r = c.compressed(k, left, right, right)[n - 1];
            &&& one().negated().le(l) && l.le(one()) && l.agrees(left[n - 1])
            &&& one().negated().le(r) && r.le(one()) && r.agrees(right[n - 1])
            &&& left[n - 1].zero_valued() ==> l.zero_valued()
            &&& right[n - 1].zero_valued() ==> r.zero_valued()
        },
{
    let c = comp_of(k, sr, p);
    lemma_tame(k, sr, p);
    lemma_stays_tame(c, k, left, right, n);
    if n > 0 {
        let gr_db = c.after(k, left, right, n).gr_db;
        lemma_squeezed(c, k, left[n - 1], gr_db);
        lemma_squeezed(c, k, right[n - 1], gr_db);
    }
}

proof fn lemma_stays_tame<F: Fn(Op) -> Single>(c: Compressor, k: Arith<F>, left: Seq<Single>, right: Seq<Single>, n: int)
    requires
        is_sound(k),
        is_tame(c),
        is_paced(k, c),
        left.len() == right.len(),
        0 <= n <= left.len(),
        forall|i: int| 0 <= i < left.len() ==> within(#[trigger] left[i], 20) && within(right[i], 20),
    ensures
        is_tame(c.after(k, left, right, n)),
        is_paced(k, c.after(k, left, right, n)),
    decreases n,
{
    if n > 0 {
        lemma_stays_tame(c, k, left, right, n - 1);
        if c.active {
            lemma_reduction(c.after(k, left, right, n - 1), k, left[n - 1], right[n - 1]);
        }
    }
}

/// A compressor works exactly if it is on and has something to do: a ratio above
/// one, or some drive, either of which is enough.
pub proof fn compressor_works_if_asked<F: Fn(Op) -> Single>(k: Arith<F>, sr: Single, p: CompParams)
    ensures
        !p.on ==> !comp_of(k, sr, p).active,
        p.on && one().lt(p.ratio) ==> comp_of(k, sr, p).active,
        p.on && zero().lt(p.drive) ==> comp_of(k, sr, p).active,
        !one().lt(p.ratio) && !zero().lt(p.drive) ==> !comp_of(k, sr, p).active,
{
}

/// Settings beyond their range count as the end of it: ratios up to one as one,
/// times up to a tenth of a millisecond as that, and drives outside zero to one
/// as the nearer of the two.
pub proof fn compressor_settings_have_ends<F: Fn(Op) -> Single>(k: Arith<F>, sr: Single, p: CompParams)
    ensures
        p.ratio.lt(one()) ==> comp_of(k, sr, p).slope == comp_of(k, sr, CompParams { ratio: one(), ..p }).slope,
        one().lt(p.ratio) ==> comp_of(k, sr, p).slope == k.minus(k.over(one(), p.ratio), one()),
        p.attack_ms.lt(number(N0_1)) ==> comp_of(k, sr, p).attack == comp_of(
            k,
            sr,
            (CompParams { attack_ms: number(N0_1), ..p }),
        ).attack,
        p.release_ms.lt(number(N0_1)) ==> comp_of(k, sr, p).release == comp_of(
            k,
            sr,
            (CompParams { release_ms: number(N0_1), ..p }),
        ).release,
        p.drive.lt(zero()) ==> comp_of(k, sr, p).drive == zero(),
        one().lt(p.drive) ==> comp_of(k, sr, p).drive == one(),
        zero().le(p.drive) && p.drive.le(one()) ==> comp_of(k, sr, p).drive == p.drive,
{
}

/// Each setting has its own place: the compressor that it builds differs from
/// another in the parts that the differing settings are for.
pub proof fn compressor_settings_are_independent<F: Fn(Op) -> Single>(k: Arith<F>, sr: Single, p: CompParams, q: CompParams)
    ensures
        comp_of(k, sr, p).thresh_db == p.thresh_db,
        comp_of(k, sr, p).gr_db == zero(),
        p.ratio == q.ratio ==> comp_of(k, sr, p).slope == comp_of(k, sr, q).slope,
        p.attack_ms == q.attack_ms ==> comp_of(k, sr, p).attack == comp_of(k, sr, q).attack,
        p.release_ms == q.release_ms ==> comp_of(k, sr, p).release == comp_of(k, sr, q).release,
        p.attack_ms == q.release_ms ==> comp_of(k, sr, p).attack == comp_of(k, sr, q).release,
        p.makeup_db == q.makeup_db ==> comp_of(k, sr, p).makeup == comp_of(k, sr, q).makeup,
        p.drive == q.drive ==> comp_of(k, sr, p).drive == comp_of(k, sr, q).drive,
        comp_of(k, sr, p).makeup == k.gain(p.makeup_db),
{
}

/// The static curve: nothing up to three decibels under the threshold, the full
/// slope from three over it on, and in between a part of it that vanishes at
/// the one end and has the level's own share at the other.
pub proof fn knee_is_soft<F: Fn(Op) -> Single>(k: Arith<F>, slope: Single, over: Single)
    requires
        k.times(number(N6), number(N0_5)) == number(0x4040_0000),
        k.times(number(N6).negated(), number(N0_5)) == number(0xC040_0000),
    ensures
        over.le(number(0xC040_0000)) ==> spec_target(k, slope, over) == zero(),
        number(0x4040_0000).le(over) ==> spec_target(k, slope, over) == k.times(slope, over),
        number(0xC040_0000).lt(over) && over.lt(number(0x4040_0000)) ==> ({
            let x = k.plus(over, number(0x4040_0000));
            spec_target(k, slope, over) == k.over(
                k.times(k.times(slope, x), x),
                k.times(number(N2), number(N6)),
            )
        }),
{
}

/// The gain reduction goes part of the way to its target: by the attack where
/// more has to be taken away, else by the release.
pub proof fn reduction_follows_its_target<F: Fn(Op) -> Single>(c: Compressor, k: Arith<F>, left: Single, right: Single)
    ensures
        ({
            let loud = if right.absolute().le(left.absolute()) {
                left
            } else {
                right
            };
            let over = k.minus(
                k.times(number(N20), k.log(k.plus(loud.absolute(), number(N1E_6)))),
                c.thresh_db,
            );
            let target = spec_target(k, c.slope, over);
            let share = if target.lt(c.gr_db) {
                c.attack
            } else {
                c.release
            };
            !left.nan() && !right.nan() ==> c.reduction(k, left, right) == k.plus(
                c.gr_db,
                k.times(k.minus(target, c.gr_db), share),
            )
        }),
{
    if !left.nan() && !right.nan() {
        lemma_louder(left, right);
    }
}

proof fn lemma_louder(left: Single, right: Single)
    requires
        !left.nan(),
        !right.nan(),
    ensures
        right.absolute().le(left.absolute()) ==> left.absolute().greater(right.absolute()) == left.absolute(),
        !right.absolute().le(left.absolute()) ==> left.absolute().greater(right.absolute()) == right.absolute(),
{
}

/// A working compressor goes sample by sample: each is taken at the reduction
/// that the samples up to it have led to, and changes nothing about the
/// compressor but that.
pub proof fn compressor_goes_sample_by_sample<F: Fn(Op) -> Single>(
    c: Compressor,
    k: Arith<F>,
    left: Seq<Single>,
    right: Seq<Single>,
    x: Seq<Single>,
    i: int,
)
    requires
        c.active,
        0 <= i < x.len(),
    ensures
        ({
            let before = c.after(k, left, right, i);
            let after = c.after(k, left, right, i + 1);
            &&& c.after(k, left, right, 0) == c
            &&& after.gr_db == before.reduction(k, left[i], right[i])
            &&& after == (Compressor { gr_db: after.gr_db, ..before })
            &&& c.compressed(k, left, right, x)[i] == c.squeezed(k, x[i], after.gr_db)
            &&& c.compressed(k, left, right, x).len() == x.len()
        }),
{
}

} // verus!
