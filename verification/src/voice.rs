//! One sounding note: a bank of decaying resonators, with its damper, its
//! attack glide and its noise.
//!
//! The bank is stepped in fixed 8-wide lanes; resonators that decay below
//! audibility are compacted out between blocks.

use crate::arith::{Arith, Op};
use crate::constant::{
    N0_015, N0_02, N0_035, N0_05, N0_06, N0_2, N0_45, N10, N1200, N1E_12, N1E_7, N1_4, N2, N20, N21, N60, N600, N87, TAU,
};
use crate::formula::{Filter, Filtered, spec_filtered};
use crate::number::{Single, number, one, zero};
use crate::rounding::{
    beyond, is_share, lemma_difference, lemma_product, lemma_product_sign, lemma_quotient, lemma_quotient_sign, lemma_sum,
    lemma_sum_sign, lemma_within, within,
};
use crate::rng::{spec_xorshift, xorshift};
use vstd::prelude::*;

verus! {

/// Width of a lane group.
pub const LANES: usize = 8;

/// Partials that the calibration describes.
pub const N_SLOTS: usize = 150;

/// Only the lower partials get extra unison strings.
pub const UNISON_PARTIALS: usize = 16;

/// Resonators per voice: every partial, plus up to two extra unison strings
/// for the low partials, rounded up to a whole number of lanes.
pub const MAX_RES: usize = 184;

/// One decaying partial: a phasor, its rotation and decay per sample, the base
/// angular step of the rotation and the damper factor.
#[derive(Clone, Copy, Debug, PartialEq, Eq, Structural)]
pub struct Resonator {
    pub re: Single,
    pub im: Single,
    pub rot_re: Single,
    pub rot_im: Single,
    pub base_w: Single,
    pub decay: Single,
    pub damping: Single,
}

/// Panning, attack swell, hammer noise and resonant bed of a voice.
#[derive(Clone, Copy, Debug)]
pub struct Tone {
    pub pan_l: Single,
    pub pan_r: Single,
    pub attack_slow: Single,
    pub attack_slow_coeff: Single,
    pub attack_fast: Single,
    pub attack_fast_coeff: Single,
    pub noise_amp: Single,
    pub noise_decay: Single,
    pub noise_filter: Filter,
    pub noise_z: (Single, Single),
    pub bed_amp: Single,
    pub bed_decay: Single,
    pub bed_filter: Filter,
    pub bed_z: (Single, Single),
    pub bed_z2: (Single, Single),
    pub bed_y: (Single, Single),
    pub bed_y2: (Single, Single),
}

/// A sounding note.
#[derive(Clone, Copy)]
pub struct Voice {
    note: u8,
    held: bool,
    damper_blend: Single,
    glide_cents: Single,
    tone: Tone,
    n: usize,
    res: [Resonator; 184],
}

/// What a voice is, its resonators as a sequence.
#[verifier::ext_equal]
pub struct VoiceState {
    pub note: u8,
    pub held: bool,
    pub damper_blend: Single,
    pub glide_cents: Single,
    pub tone: Tone,
    pub res: Seq<Resonator>,
}

impl View for Voice {
    type V = VoiceState;

    closed spec fn view(&self) -> VoiceState {
        VoiceState {
            note: self.note,
            held: self.held,
            damper_blend: self.damper_blend,
            glide_cents: self.glide_cents,
            tone: self.tone,
            res: self.res@.subrange(0, self.n as int),
        }
    }
}

/// A resonator that sounds nothing, which fills up a lane.
#[verifier::allow_in_spec]
pub fn idle() -> Resonator
    returns
        (Resonator {
            re: zero(),
            im: zero(),
            rot_re: one(),
            rot_im: zero(),
            base_w: zero(),
            decay: zero(),
            damping: one(),
        }),
{
    Resonator {
        re: zero(),
        im: zero(),
        rot_re: one(),
        rot_im: zero(),
        base_w: zero(),
        decay: zero(),
        damping: one(),
    }
}

/// The least whole number of lanes that holds `n` resonators.
pub open spec fn lanes_up(n: int) -> int {
    ((n + 7) / 8) * 8
}

/// The resonators, filled up with idle ones to a whole number of lanes.
pub open spec fn padded(res: Seq<Resonator>) -> Seq<Resonator> {
    Seq::new(
        lanes_up(res.len() as int) as nat,
        |k: int|
            if k < res.len() {
                res[k]
            } else {
                idle()
            },
    )
}

/// The resonator can be heard.
pub open spec fn audible<F: Fn(Op) -> Single>(k: Arith<F>, r: Resonator) -> bool {
    number(N1E_12).lt(k.loudness(r.re, r.im))
}

/// The audible ones of the first `n` resonators.
pub open spec fn kept<F: Fn(Op) -> Single>(k: Arith<F>, res: Seq<Resonator>, n: int) -> Seq<Resonator>
    decreases n,
{
    if n <= 0 {
        Seq::empty()
    } else if audible(k, res[n - 1]) {
        kept(k, res, n - 1).push(res[n - 1])
    } else {
        kept(k, res, n - 1)
    }
}

/// The damper rests on none of the strings.
pub open spec fn fully_open(res: Seq<Resonator>) -> bool {
    forall|k: int| 0 <= k < res.len() ==> one().le((#[trigger] res[k]).damping)
}

/// A string of the given frequency, amplitude, phase and decay, undamped.
pub open spec fn string_of<F: Fn(Op) -> Single>(
    k: Arith<F>,
    sr: Single,
    freq: Single,
    amp: Single,
    phase: Single,
    decay_db_s: Single,
) -> Resonator {
    let w = k.angular_step(freq, sr);
    Resonator {
        re: k.times(amp, k.cosine(phase)),
        im: k.times(amp, k.sine(phase)),
        rot_re: k.cosine(w),
        rot_im: k.sine(w),
        base_w: w,
        decay: k.decay_factor(decay_db_s, sr),
        damping: one(),
    }
}

impl<F: Fn(Op) -> Single> Arith<F> {
    /// The damper factor of a string of `note` with angular step `base_w`. Felt
    /// absorption rises with frequency; `pressure` scales the rate.
    #[verifier::allow_in_spec]
    pub fn felt(&self, note: u8, sr: Single, pressure: Single, base_w: Single) -> Single
        returns
            self.decay_factor(
                self.times(
                    self.times(
                        self.over(number(N60), self.felt_stop(note, sr, base_w).greater(number(N0_015))),
                        pressure,
                    ),
                    pressure,
                ),
                sr,
            ),
    {
        let rate: Single = self.times(
            self.times(
                self.over(number(N60), self.felt_stop(note, sr, base_w).greater(number(N0_015))),
                pressure,
            ),
            pressure,
        );
        self.decay_factor(rate, sr)
    }

    /// The time in which full pressure stops a string.
    #[verifier::allow_in_spec]
    pub fn felt_stop(&self, note: u8, sr: Single, base_w: Single) -> Single
        returns
            self.over(
                self.times(self.felt_base(note), number(N600)),
                self.plus(number(N600), self.over(self.times(base_w, sr), number(TAU)).greater(zero())),
            ),
    {
        let freq: Single = self.over(self.times(base_w, sr), number(TAU));
        self.over(self.times(self.felt_base(note), number(N600)), self.plus(number(N600), freq.greater(zero())))
    }

    /// The stop time of a low string, by register.
    #[verifier::allow_in_spec]
    pub fn felt_base(&self, note: u8) -> Single
        returns
            self.plus(
                number(N0_2),
                self.times(
                    self.times(number(N0_45), self.minus(one(), self.keyboard_pos(note))),
                    self.minus(one(), self.keyboard_pos(note)),
                ),
            ),
    {
        let rest: Single = self.minus(one(), self.keyboard_pos(note));
        self.plus(number(N0_2), self.times(self.times(number(N0_45), rest), rest))
    }
}

/// A resonator under the damper, if it sounds at all.
pub open spec fn felt_on<F: Fn(Op) -> Single>(k: Arith<F>, note: u8, sr: Single, pressure: Single, r: Resonator) -> Resonator {
    if r.decay.zero_valued() {
        r
    } else {
        Resonator { damping: k.felt(note, sr, pressure, r.base_w), ..r }
    }
}

/// The sum of `start` and the loudness of the first `n` resonators.
pub open spec fn energy_from<F: Fn(Op) -> Single>(k: Arith<F>, start: Single, res: Seq<Resonator>, n: int) -> Single
    decreases n,
{
    if n <= 0 {
        start
    } else {
        k.plus(energy_from(k, start, res, n - 1), k.loudness(res[n - 1].re, res[n - 1].im))
    }
}

impl VoiceState {
    /// The voice with its damper applied at `pressure`: lifted at next to no
    /// pressure; else on every string that sounds, and starting to land if it
    /// was fully open.
    pub open spec fn damped<F: Fn(Op) -> Single>(self, k: Arith<F>, sr: Single, pressure: Single) -> VoiceState {
        if pressure.le(number(N0_02)) {
            VoiceState {
                damper_blend: one(),
                res: Seq::new(self.res.len(), |i: int| Resonator { damping: one(), ..self.res[i] }),
                ..self
            }
        } else {
            VoiceState {
                damper_blend: if fully_open(self.res) {
                    zero()
                } else {
                    self.damper_blend
                },
                res: Seq::new(self.res.len(), |i: int| felt_on(k, self.note, sr, pressure, self.res[i])),
                ..self
            }
        }
    }

    /// How loud the voice is: its noise, its bed and its strings.
    pub open spec fn energy<F: Fn(Op) -> Single>(self, k: Arith<F>) -> Single {
        energy_from(
            k,
            k.loudness(self.tone.noise_amp, self.tone.bed_amp),
            self.res,
            self.res.len() as int,
        )
    }

    /// The resonators fill whole lanes, and no more than there are.
    pub open spec fn fits(self) -> bool {
        self.res.len() % 8 == 0 && self.res.len() <= MAX_RES
    }

    /// The voice without its inaudible resonators.
    pub open spec fn compacted<F: Fn(Op) -> Single>(self, k: Arith<F>) -> VoiceState {
        VoiceState { res: padded(kept(k, self.res, self.res.len() as int)), ..self }
    }
}

impl Voice {
    pub closed spec fn wf(self) -> bool {
        self.n <= MAX_RES
    }

    /// The resonators fill whole lanes.
    pub open spec fn in_lanes(self) -> bool {
        self@.res.len() % LANES as nat == 0
    }

    /// A held voice without resonators.
    pub fn new(note: u8, glide_cents: Single, tone: Tone) -> (v: Voice)
        ensures
            v.wf(),
            v@ == (VoiceState {
                note,
                held: true,
                damper_blend: one(),
                glide_cents,
                tone,
                res: Seq::empty(),
            }),
    {
        let v = Voice {
            note,
            held: true,
            damper_blend: one(),
            glide_cents,
            tone,
            n: 0,
            res: [idle(); 184],
        };
        assert(v@.res =~= Seq::<Resonator>::empty());
        v
    }

    pub fn note(&self) -> (r: u8)
        ensures
            r == self@.note,
    {
        self.note
    }

    pub fn is_held(&self) -> (r: bool)
        ensures
            r == self@.held,
    {
        self.held
    }

    pub fn tone(&self) -> (r: Tone)
        ensures
            r == self@.tone,
    {
        self.tone
    }

    /// Number of resonators.
    pub fn len(&self) -> (r: usize)
        requires
            self.wf(),
        ensures
            r == self@.res.len(),
            r <= MAX_RES,
    {
        self.n
    }

    pub fn resonator(&self, k: usize) -> (r: Resonator)
        requires
            self.wf(),
            k < self@.res.len(),
        ensures
            r == self@.res[k as int],
    {
        self.res[k]
    }

    pub fn set_tone(&mut self, tone: Tone)
        requires
            old(self).wf(),
        ensures
            final(self).wf(),
            final(self)@ == (VoiceState { tone, ..old(self)@ }),
    {
        self.tone = tone;
    }

    /// Marks the key as released; the damper is not touched.
    pub fn release(&mut self)
        requires
            old(self).wf(),
        ensures
            final(self).wf(),
            final(self)@ == (VoiceState { held: false, ..old(self)@ }),
    {
        self.held = false;
    }

    /// Adds a string; a full voice stays as it is. The phase is random: all
    /// partials starting together would add up to a spike.
    pub fn push_resonator<F: Fn(Op) -> Single>(
        &mut self,
        k: &Arith<F>,
        sr: Single,
        freq: Single,
        amp: Single,
        phase: Single,
        decay_db_s: Single,
    )
        requires
            old(self).wf(),
        ensures
            final(self).wf(),
            final(self)@ == (VoiceState {
                res: if old(self)@.res.len() < MAX_RES {
                    old(self)@.res.push(string_of(*k, sr, freq, amp, phase, decay_db_s))
                } else {
                    old(self)@.res
                },
                ..old(self)@
            }),
    {
        let ghost before = self@;
        if self.n >= MAX_RES {
            return;
        }
        let w: Single = k.angular_step(freq, sr);
        self.res[self.n] = Resonator {
            re: k.times(amp, k.cosine(phase)),
            im: k.times(amp, k.sine(phase)),
            rot_re: k.cosine(w),
            rot_im: k.sine(w),
            base_w: w,
            decay: k.decay_factor(decay_db_s, sr),
            damping: one(),
        };
        self.n = self.n + 1;
        assert(self@.res =~= before.res.push(string_of(*k, sr, freq, amp, phase, decay_db_s)));
    }

    /// Scales every phasor.
    pub fn scale<F: Fn(Op) -> Single>(&mut self, k: &Arith<F>, factor: Single)
        requires
            old(self).wf(),
        ensures
            final(self).wf(),
            final(self)@ == (VoiceState { res: scaled(*k, old(self)@.res, factor), ..old(self)@ }),
    {
        let ghost before = self@;
        let mut i: usize = 0;
        while i < self.n
            invariant
                self.wf(),
                i <= self.n,
                self.n == before.res.len(),
                self@ == (VoiceState { res: self@.res, ..before }),
                forall|j: int| 0 <= j < i ==> #[trigger] self.res@[j] == scaled(*k, before.res, factor)[j],
                forall|j: int| i <= j < self.n ==> #[trigger] self.res@[j] == before.res[j],
            decreases self.n - i,
        {
            let r = self.res[i];
            self.res[i] = Resonator { re: k.times(r.re, factor), im: k.times(r.im, factor), ..r };
            i += 1;
        }
        assert(self@.res =~= scaled(*k, before.res, factor));
    }

    /// Fills up with idle resonators to a whole number of lanes.
    pub fn pad(&mut self)
        requires
            old(self).wf(),
        ensures
            final(self).wf(),
            final(self).in_lanes(),
            final(self)@ == (VoiceState { res: padded(old(self)@.res), ..old(self)@ }),
    {
        let ghost before = self@;
        while self.n % LANES != 0
            invariant
                self.wf(),
                before.res.len() <= self.n <= lanes_up(before.res.len() as int) <= MAX_RES,
                self@ == (VoiceState { res: self@.res, ..before }),
                self@.res.len() == self.n,
                forall|k: int| 0 <= k < before.res.len() ==> self@.res[k] == before.res[k],
                forall|k: int| before.res.len() <= k < self.n ==> self@.res[k] == idle(),
            decreases lanes_up(before.res.len() as int) - self.n,
        {
            let ghost mid = self@;
            self.res[self.n] = idle();
            self.n = self.n + 1;
            assert(self@.res =~= mid.res.push(idle()));
        }
        assert(self@.res =~= padded(before.res));
    }

    /// Drops resonators below audibility and fills up to whole lanes again.
    pub fn compact<F: Fn(Op) -> Single>(&mut self, k: &Arith<F>)
        requires
            old(self).wf(),
        ensures
            final(self).wf(),
            final(self).in_lanes(),
            final(self)@ == old(self)@.compacted(*k),
    {
        let ghost before = self@;
        let n: usize = self.n;
        let mut keep: usize = 0;
        let mut i: usize = 0;
        while i < n
            invariant
                keep <= i <= n <= MAX_RES,
                n == before.res.len(),
                n == self.n,
                self@ == (VoiceState { res: self@.res, ..before }),
                self.res@.subrange(0, keep as int) == kept(*k, before.res, i as int),
                forall|j: int| i <= j < n ==> self.res@[j] == before.res[j],
            decreases n - i,
        {
            let r = self.res[i];
            let ghost mid = self.res@;
            if number(N1E_12).is_below(k.loudness(r.re, r.im)) {
                self.res[keep] = r;
                keep += 1;
                assert(self.res@.subrange(0, keep as int) =~= mid.subrange(0, keep - 1).push(r));
            }
            i += 1;
        }
        self.n = keep;
        assert(self@.res =~= kept(*k, before.res, n as int));
        self.pad();
    }

    /// Applies (or lifts) the damper. `pressure` scales the damping for
    /// half-pedaling; next to none lifts the damper.
    pub fn set_damper<F: Fn(Op) -> Single>(&mut self, k: &Arith<F>, sr: Single, pressure: Single)
        requires
            old(self).wf(),
        ensures
            final(self).wf(),
            final(self)@ == old(self)@.damped(*k, sr, pressure),
    {
        let ghost before = self@;
        let ghost after = before.damped(*k, sr, pressure);
        if pressure.is_at_most(number(N0_02)) {
            let mut i: usize = 0;
            while i < self.n
                invariant
                    self.wf(),
                    i <= self.n,
                    self.n == before.res.len(),
                    self@ == (VoiceState { res: self@.res, ..before }),
                    forall|j: int|
                        0 <= j < i ==> #[trigger] self.res@[j] == (Resonator { damping: one(), ..before.res[j] }),
                    forall|j: int| i <= j < self.n ==> #[trigger] self.res@[j] == before.res[j],
                decreases self.n - i,
            {
                let r = self.res[i];
                self.res[i] = Resonator { damping: one(), ..r };
                i += 1;
            }
            self.damper_blend = one();
            assert(self@.res =~= after.res);
            return;
        }
        let mut open: bool = true;
        let mut j: usize = 0;
        while j < self.n
            invariant
                self.wf(),
                j <= self.n,
                self@ == before,
                self.n == before.res.len(),
                open == (forall|i: int| 0 <= i < j ==> one().le((#[trigger] before.res[i]).damping)),
            decreases self.n - j,
        {
            let d = self.res[j].damping;
            assert(self.res@[j as int] == before.res[j as int]);
            if !one().is_at_most(d) {
                open = false;
            }
            j += 1;
        }
        if open {
            self.damper_blend = zero();
        }
        let ghost mid = self@;
        let mut i: usize = 0;
        while i < self.n
            invariant
                self.wf(),
                i <= self.n,
                self.n == before.res.len(),
                self@ == (VoiceState { res: self@.res, ..mid }),
                mid == (VoiceState { damper_blend: mid.damper_blend, ..before }),
                forall|j: int|
                    0 <= j < i ==> #[trigger] self.res@[j] == felt_on(*k, before.note, sr, pressure, before.res[j]),
                forall|j: int| i <= j < self.n ==> #[trigger] self.res@[j] == before.res[j],
            decreases self.n - i,
        {
            let r = self.res[i];
            if !r.decay.is_zero() {
                self.res[i] = Resonator { damping: k.felt(self.note, sr, pressure, r.base_w), ..r };
            }
            i += 1;
        }
        assert(self@.res =~= after.res);
    }

    /// How loud the voice is.
    pub fn energy<F: Fn(Op) -> Single>(&self, k: &Arith<F>) -> (e: Single)
        requires
            self.wf(),
        ensures
            e == self@.energy(*k),
    {
        let ghost start = k.loudness(self.tone.noise_amp, self.tone.bed_amp);
        let mut e: Single = k.loudness(self.tone.noise_amp, self.tone.bed_amp);
        let mut i: usize = 0;
        while i < self.n
            invariant
                self.wf(),
                i <= self.n,
                e == energy_from(*k, start, self@.res, i as int),
            decreases self.n - i,
        {
            let r = self.res[i];
            assert(self@.res[i as int] == r);
            e = k.plus(e, k.loudness(r.re, r.im));
            i += 1;
        }
        e
    }
}

/// The resonators, each phasor scaled.
pub open spec fn scaled<F: Fn(Op) -> Single>(k: Arith<F>, res: Seq<Resonator>, factor: Single) -> Seq<Resonator> {
    Seq::new(
        res.len(),
        |i: int| Resonator { re: k.times(res[i].re, factor), im: k.times(res[i].im, factor), ..res[i] },
    )
}

/// One sample of a resonator under the damper blend: its phasor turns and
/// decays.
pub open spec fn turned<F: Fn(Op) -> Single>(k: Arith<F>, r: Resonator, blend: Single) -> Resonator {
    let scale = k.times(r.decay, k.plus(one(), k.times(k.minus(r.damping, one()), blend)));
    Resonator {
        re: k.times(k.minus(k.times(r.re, r.rot_re), k.times(r.im, r.rot_im)), scale),
        im: k.times(k.plus(k.times(r.re, r.rot_im), k.times(r.im, r.rot_re)), scale),
        ..r
    }
}

/// A resonator with the rotation of angular step `w`, if it sounds.
pub open spec fn bent<F: Fn(Op) -> Single>(k: Arith<F>, r: Resonator, w: Single) -> Resonator {
    if zero().lt(r.decay) {
        Resonator { rot_re: k.cosine(w), rot_im: k.sine(w), ..r }
    } else {
        r
    }
}

/// The sum of the outputs of the first `l` lanes of lane group `c`.
pub open spec fn lane_total<F: Fn(Op) -> Single>(k: Arith<F>, res: Seq<Resonator>, c: int, l: int) -> Single
    decreases l,
{
    if l <= 0 {
        zero()
    } else {
        k.plus(lane_total(k, res, c, l - 1), res[8 * c + l - 1].im)
    }
}

/// The sum of the outputs of the lane groups `from..to`.
pub open spec fn group_total<F: Fn(Op) -> Single>(k: Arith<F>, res: Seq<Resonator>, from: int, to: int) -> Single
    decreases to - from,
{
    if to <= from {
        zero()
    } else {
        k.plus(group_total(k, res, from, to - 1), lane_total(k, res, to - 1, 8))
    }
}

/// The noise of a voice is on.
pub open spec fn noisy(tone: Tone) -> bool {
    number(N1E_7).lt(tone.noise_amp) || number(N1E_7).lt(tone.bed_amp)
}

/// The generator after one frame: two draws while the noise is on, none else.
pub open spec fn rng_after_frame(tone: Tone, rng: u32) -> u32 {
    if noisy(tone) {
        spec_xorshift(spec_xorshift(rng))
    } else {
        rng
    }
}

/// What a voice gives for one frame, and how its tone goes on.
pub struct Sound {
    pub tone: Tone,
    pub left: Single,
    pub right: Single,
}

/// The strings of one frame: the slow and the fast partials swell, and are
/// panned.
pub open spec fn spec_swell<F: Fn(Op) -> Single>(k: Arith<F>, tone: Tone, slow: Single, fast: Single) -> Sound {
    let attack_slow = k.plus(tone.attack_slow, tone.attack_slow_coeff).lesser(one());
    let attack_fast = k.plus(tone.attack_fast, tone.attack_fast_coeff).lesser(one());
    let sum = k.plus(k.times(slow, attack_slow), k.times(fast, attack_fast));
    Sound {
        tone: Tone { attack_slow, attack_fast, ..tone },
        left: k.times(sum, tone.pan_l),
        right: k.times(sum, tone.pan_r),
    }
}

/// The hammer noise on top: one stream through a lowpass, panned.
pub open spec fn spec_hammer<F: Fn(Op) -> Single>(k: Arith<F>, s: Sound, white: Single) -> Sound {
    let t = s.tone;
    let f = spec_filtered(k, t.noise_filter, t.noise_z, white);
    Sound {
        tone: Tone { noise_z: f.z, noise_amp: k.times(t.noise_amp, t.noise_decay), ..t },
        left: k.plus(s.left, k.times(k.times(f.out, t.noise_amp), t.pan_l)),
        right: k.plus(s.right, k.times(k.times(f.out, t.noise_amp), t.pan_r)),
    }
}

/// The resonant bed on top: two independent streams, each through the lowpass
/// twice.
pub open spec fn spec_bed<F: Fn(Op) -> Single>(k: Arith<F>, s: Sound, white: Single, white2: Single) -> Sound {
    let t = s.tone;
    let y = spec_filtered(k, t.bed_filter, t.bed_z, white);
    let y2 = spec_filtered(k, t.bed_filter, t.bed_z2, white2);
    let c = spec_filtered(k, t.bed_filter, t.bed_y, y.out);
    let c2 = spec_filtered(k, t.bed_filter, t.bed_y2, y2.out);
    Sound {
        tone: Tone {
            bed_z: y.z,
            bed_z2: y2.z,
            bed_y: c.z,
            bed_y2: c2.z,
            bed_amp: k.times(t.bed_amp, t.bed_decay),
            ..t
        },
        left: k.plus(s.left, k.times(k.times(k.times(c.out, t.bed_amp), number(N1_4)), t.pan_l)),
        right: k.plus(s.right, k.times(k.times(k.times(c2.out, t.bed_amp), number(N1_4)), t.pan_r)),
    }
}

/// One frame: the strings, and the noise while it is on.
pub open spec fn spec_sound<F: Fn(Op) -> Single>(k: Arith<F>, tone: Tone, slow: Single, fast: Single, rng: u32) -> Sound {
    let s = spec_swell(k, tone, slow, fast);
    if noisy(tone) {
        let first = spec_xorshift(rng);
        let white = k.draw_white(first);
        let white2 = k.draw_white(spec_xorshift(first));
        spec_bed(k, spec_hammer(k, s, white), white, white2)
    } else {
        s
    }
}

/// A voice in the middle of a block: itself, the generator and the samples.
#[verifier::ext_equal]
pub struct BlockState {
    pub voice: VoiceState,
    pub rng: u32,
    pub left: Seq<Single>,
    pub right: Seq<Single>,
}

impl BlockState {
    /// After frame `i`: its sound is added to the samples and every phasor has
    /// turned.
    pub open spec fn frame<F: Fn(Op) -> Single>(self, k: Arith<F>, blend: Single, i: int) -> BlockState {
        let v = self.voice;
        let groups = v.res.len() as int / 8;
        let slow = group_total(k, v.res, 0, if groups < 1 { groups } else { 1 });
        let fast = group_total(k, v.res, 1, groups);
        let s = spec_sound(k, v.tone, slow, fast, self.rng);
        BlockState {
            voice: VoiceState {
                tone: s.tone,
                res: Seq::new(v.res.len(), |j: int| turned(k, v.res[j], blend)),
                ..v
            },
            rng: rng_after_frame(v.tone, self.rng),
            left: self.left.update(i, k.plus(self.left[i], s.left)),
            right: self.right.update(i, k.plus(self.right[i], s.right)),
        }
    }

    /// After the first `n` frames.
    pub open spec fn frames<F: Fn(Op) -> Single>(self, k: Arith<F>, blend: Single, n: int) -> BlockState
        decreases n,
    {
        if n <= 0 {
            self
        } else {
            self.frames(k, blend, n - 1).frame(k, blend, n - 1)
        }
    }

    /// After a block as long as the samples: the start of the block, its
    /// frames, and the compaction. The frames run at the damper blend from
    /// before the block.
    pub open spec fn block<F: Fn(Op) -> Single>(self, k: Arith<F>, sr: Single) -> BlockState {
        let n = self.left.len() as int;
        let opened = BlockState { voice: self.voice.opened(k, sr, n as u64), ..self };
        let played = opened.frames(k, self.voice.damper_blend, n);
        BlockState { voice: played.voice.compacted(k), ..played }
    }
}

impl VoiceState {
    /// The glide is still to be heard.
    pub open spec fn gliding(self) -> bool {
        number(N0_05).lt(self.glide_cents)
    }

    /// The voice at the start of a block of `n` frames: the damper lands further,
    /// and while the voice glides its strings turn at the bent rate; a glide
    /// that comes in tune ends.
    pub open spec fn opened<F: Fn(Op) -> Single>(self, k: Arith<F>, sr: Single, n: u64) -> VoiceState {
        let damper_blend = k.plus(self.damper_blend, k.over(k.whole(n), k.times(number(N0_035), sr))).lesser(one());
        if self.gliding() {
            let ratio = k.power(number(N2), k.over(self.glide_cents, number(N1200)));
            let next = k.times(
                self.glide_cents,
                k.exp(k.over(k.whole(n).negated(), k.times(number(N0_06), sr))),
            );
            let settled = next.le(number(N0_05));
            VoiceState {
                damper_blend,
                glide_cents: if settled {
                    zero()
                } else {
                    next
                },
                res: Seq::new(
                    self.res.len(),
                    |i: int|
                        bent(
                            k,
                            self.res[i],
                            if settled {
                                self.res[i].base_w
                            } else {
                                k.times(self.res[i].base_w, ratio)
                            },
                        ),
                ),
                ..self
            }
        } else {
            VoiceState { damper_blend, ..self }
        }
    }
}

/// The strings of one frame.
fn swell<F: Fn(Op) -> Single>(k: &Arith<F>, tone: Tone, slow: Single, fast: Single) -> (s: Sound)
    ensures
        s == spec_swell(*k, tone, slow, fast),
{
    let attack_slow: Single = k.plus(tone.attack_slow, tone.attack_slow_coeff).lesser(one());
    let attack_fast: Single = k.plus(tone.attack_fast, tone.attack_fast_coeff).lesser(one());
    let sum: Single = k.plus(k.times(slow, attack_slow), k.times(fast, attack_fast));
    Sound {
        tone: Tone { attack_slow, attack_fast, ..tone },
        left: k.times(sum, tone.pan_l),
        right: k.times(sum, tone.pan_r),
    }
}

/// The hammer noise on top.
fn hammer<F: Fn(Op) -> Single>(k: &Arith<F>, s: Sound, white: Single) -> (r: Sound)
    ensures
        r == spec_hammer(*k, s, white),
{
    let t: Tone = s.tone;
    let f: Filtered = k.filtered(t.noise_filter, t.noise_z, white);
    Sound {
        tone: Tone { noise_z: f.z, noise_amp: k.times(t.noise_amp, t.noise_decay), ..t },
        left: k.plus(s.left, k.times(k.times(f.out, t.noise_amp), t.pan_l)),
        right: k.plus(s.right, k.times(k.times(f.out, t.noise_amp), t.pan_r)),
    }
}

/// The resonant bed on top.
fn bed<F: Fn(Op) -> Single>(k: &Arith<F>, s: Sound, white: Single, white2: Single) -> (r: Sound)
    ensures
        r == spec_bed(*k, s, white, white2),
{
    let t: Tone = s.tone;
    let y: Filtered = k.filtered(t.bed_filter, t.bed_z, white);
    let y2: Filtered = k.filtered(t.bed_filter, t.bed_z2, white2);
    let c: Filtered = k.filtered(t.bed_filter, t.bed_y, y.out);
    let c2: Filtered = k.filtered(t.bed_filter, t.bed_y2, y2.out);
    Sound {
        tone: Tone {
            bed_z: y.z,
            bed_z2: y2.z,
            bed_y: c.z,
            bed_y2: c2.z,
            bed_amp: k.times(t.bed_amp, t.bed_decay),
            ..t
        },
        left: k.plus(s.left, k.times(k.times(k.times(c.out, t.bed_amp), number(N1_4)), t.pan_l)),
        right: k.plus(s.right, k.times(k.times(k.times(c2.out, t.bed_amp), number(N1_4)), t.pan_r)),
    }
}

impl Voice {
    /// Lands the damper further and lets the glide settle; once per block.
    fn open_block<F: Fn(Op) -> Single>(&mut self, k: &Arith<F>, sr: Single, n: u64)
        requires
            old(self).wf(),
        ensures
            final(self).wf(),
            final(self)@ == old(self)@.opened(*k, sr, n),
    {
        let ghost before = self@;
        self.damper_blend = k.plus(self.damper_blend, k.over(k.whole(n), k.times(number(N0_035), sr))).lesser(one());
        if number(N0_05).is_below(self.glide_cents) {
            let ratio: Single = k.power(number(N2), k.over(self.glide_cents, number(N1200)));
            let next: Single = k.times(
                self.glide_cents,
                k.exp(k.over(k.whole(n).negated(), k.times(number(N0_06), sr))),
            );
            let settled: bool = next.is_at_most(number(N0_05));
            let ghost mid = self@;
            let mut i: usize = 0;
            while i < self.n
                invariant
                    self.wf(),
                    i <= self.n,
                    self.n == before.res.len(),
                    self@ == (VoiceState { res: self@.res, ..mid }),
                    forall|j: int|
                        0 <= j < i ==> #[trigger] self.res@[j] == bent(
                            *k,
                            before.res[j],
                            if settled {
                                before.res[j].base_w
                            } else {
                                k.times(before.res[j].base_w, ratio)
                            },
                        ),
                    forall|j: int| i <= j < self.n ==> #[trigger] self.res@[j] == before.res[j],
                decreases self.n - i,
            {
                let r = self.res[i];
                if zero().is_below(r.decay) {
                    let w: Single = if settled {
                        r.base_w
                    } else {
                        k.times(r.base_w, ratio)
                    };
                    self.res[i] = Resonator { rot_re: k.cosine(w), rot_im: k.sine(w), ..r };
                }
                i += 1;
            }
            self.glide_cents = if settled {
                zero()
            } else {
                next
            };
        }
        assert(self@.res =~= before.opened(*k, sr, n).res);
    }

    /// The sum of the outputs of the lane groups `from..to`.
    fn group_sum<F: Fn(Op) -> Single>(&self, k: &Arith<F>, from: usize, to: usize) -> (sum: Single)
        requires
            self.wf(),
            to * 8 <= self@.res.len(),
        ensures
            sum == group_total(*k, self@.res, from as int, to as int),
    {
        let mut sum: Single = zero();
        let mut c: usize = from;
        while c < to
            invariant
                self.wf(),
                to * 8 <= self@.res.len(),
                from <= c,
                c <= to || c == from,
                sum == group_total(*k, self@.res, from as int, c as int),
            decreases to - c,
        {
            let mut lanes: Single = zero();
            let mut l: usize = 0;
            while l < 8
                invariant
                    self.wf(),
                    l <= 8,
                    c < to,
                    to * 8 <= self@.res.len(),
                    lanes == lane_total(*k, self@.res, c as int, l as int),
                decreases 8 - l,
            {
                assert(self@.res[8 * c + l] == self.res@[8 * c + l]);
                lanes = k.plus(lanes, self.res[8 * c + l].im);
                l += 1;
            }
            sum = k.plus(sum, lanes);
            c += 1;
        }
        sum
    }

    /// One frame: turns every phasor. Returns the generator and what is to be
    /// added to the samples.
    fn frame<F: Fn(Op) -> Single>(&mut self, k: &Arith<F>, blend: Single, rng: u32) -> (r: (u32, (Single, Single)))
        requires
            old(self).wf(),
        ensures
            final(self).wf(),
            forall|left: Seq<Single>, right: Seq<Single>, i: int|
                0 <= i < left.len() && left.len() == right.len() ==> #[trigger] (BlockState {
                    voice: old(self)@,
                    rng,
                    left,
                    right,
                }).frame(*k, blend, i) == (BlockState {
                    voice: final(self)@,
                    rng: r.0,
                    left: left.update(i, k.plus(left[i], r.1.0)),
                    right: right.update(i, k.plus(right[i], r.1.1)),
                }),
    {
        let ghost before = self@;
        let groups: usize = self.n / 8;
        let slow: Single = self.group_sum(
            k,
            0,
            if groups < 1 {
                groups
            } else {
                1
            },
        );
        let fast: Single = self.group_sum(k, 1, groups);
        let mut s: Sound = swell(k, self.tone, slow, fast);
        let mut next: u32 = rng;
        if number(N1E_7).is_below(self.tone.noise_amp) || number(N1E_7).is_below(self.tone.bed_amp) {
            let first: u32 = xorshift(rng);
            next = xorshift(first);
            let white: Single = k.draw_white(first);
            let white2: Single = k.draw_white(next);
            s = bed(k, hammer(k, s, white), white, white2);
        }
        assert(s == spec_sound(*k, before.tone, slow, fast, rng));
        self.tone = s.tone;
        let ghost mid = self@;
        let mut i: usize = 0;
        while i < self.n
            invariant
                self.wf(),
                i <= self.n,
                self.n == before.res.len(),
                self@ == (VoiceState { res: self@.res, ..mid }),
                forall|j: int| 0 <= j < i ==> #[trigger] self.res@[j] == turned(*k, before.res[j], blend),
                forall|j: int| i <= j < self.n ==> #[trigger] self.res@[j] == before.res[j],
            decreases self.n - i,
        {
            let r = self.res[i];
            let scale: Single = k.times(r.decay, k.plus(one(), k.times(k.minus(r.damping, one()), blend)));
            let re: Single = k.times(k.minus(k.times(r.re, r.rot_re), k.times(r.im, r.rot_im)), scale);
            let im: Single = k.times(k.plus(k.times(r.re, r.rot_im), k.times(r.im, r.rot_re)), scale);
            self.res[i] = Resonator { re, im, ..r };
            i += 1;
        }
        assert(self@.res =~= Seq::new(before.res.len(), |j: int| turned(*k, before.res[j], blend)));
        (next, (s.left, s.right))
    }

    /// Adds a block of the voice to the samples, and drops the resonators that
    /// have become inaudible. Returns the generator.
    pub fn process<F: Fn(Op) -> Single>(
        &mut self,
        k: &Arith<F>,
        sr: Single,
        left: &mut [Single],
        right: &mut [Single],
        rng: u32,
    ) -> (next: u32)
        requires
            old(self).wf(),
            old(left)@.len() == old(right)@.len(),
        ensures
            final(self).wf(),
            final(self).in_lanes(),
            final(left)@.len() == old(left)@.len(),
            final(right)@.len() == old(right)@.len(),
            (BlockState { voice: final(self)@, rng: next, left: final(left)@, right: final(right)@ }) == (BlockState {
                voice: old(self)@,
                rng,
                left: old(left)@,
                right: old(right)@,
            }).block(*k, sr),
    {
        let ghost before = BlockState { voice: self@, rng, left: left@, right: right@ };
        let blend: Single = self.damper_blend;
        let n: usize = left.len();
        self.open_block(k, sr, n as u64);
        let ghost opened = BlockState { voice: self@, ..before };
        let mut next: u32 = rng;
        let mut i: usize = 0;
        while i < n
            invariant
                self.wf(),
                i <= n,
                left@.len() == n,
                right@.len() == n,
                (BlockState { voice: self@, rng: next, left: left@, right: right@ }) == opened.frames(
                    *k,
                    blend,
                    i as int,
                ),
            decreases n - i,
        {
            let ghost now = BlockState { voice: self@, rng: next, left: left@, right: right@ };
            let r = self.frame(k, blend, next);
            assert(now.frame(*k, blend, i as int).voice == self@);
            next = r.0;
            left[i] = k.plus(left[i], r.1.0);
            right[i] = k.plus(right[i], r.1.1);
            i += 1;
        }
        self.compact(k);
        next
    }
}

/// At next to no pressure the damper is off every string at once.
pub proof fn damper_lifts<F: Fn(Op) -> Single>(k: Arith<F>, v: VoiceState, sr: Single, pressure: Single)
    requires
        pressure.le(number(N0_02)),
    ensures
        fully_open(v.damped(k, sr, pressure).res),
        v.damped(k, sr, pressure).damper_blend == one(),
        v.damped(k, sr, pressure).held == v.held,
{
}

/// A damper that was fully open starts to land gently; one that rests on the
/// strings already stays as far down as it is.
pub proof fn damper_lands_once<F: Fn(Op) -> Single>(k: Arith<F>, v: VoiceState, sr: Single, pressure: Single)
    requires
        !pressure.le(number(N0_02)),
    ensures
        v.damped(k, sr, pressure).damper_blend == (if fully_open(v.res) {
            zero()
        } else {
            v.damper_blend
        }),
{
}

/// Compaction keeps exactly the audible resonators, in their order, and fills
/// up with idle ones.
pub proof fn compaction_keeps_what_sounds<F: Fn(Op) -> Single>(k: Arith<F>, res: Seq<Resonator>, n: int, i: int)
    requires
        0 <= i < n <= res.len(),
    ensures
        audible(k, res[i]) ==> kept(k, res, n).contains(res[i]),
        forall|j: int| 0 <= j < kept(k, res, n).len() ==> audible(k, #[trigger] kept(k, res, n)[j]),
        kept(k, res, n).len() <= n,
    decreases n,
{
    let rest = kept(k, res, n - 1);
    if n > 1 {
        compaction_keeps_what_sounds(k, res, n - 1, if i < n - 1 { i } else { 0 });
    }
    if audible(k, res[n - 1]) {
        assert(kept(k, res, n)[rest.len() as int] == res[n - 1]);
        if i < n - 1 && audible(k, res[i]) {
            let j = choose|j: int| 0 <= j < rest.len() && rest[j] == res[i];
            assert(kept(k, res, n)[j] == res[i]);
        }
    }
}

/// The audible ones of resonators that are all audible, followed by ones that
/// are not, are the former.
proof fn lemma_kept_prefix<F: Fn(Op) -> Single>(k: Arith<F>, res: Seq<Resonator>, m: int, n: int)
    requires
        0 <= m <= res.len(),
        0 <= n <= res.len(),
        forall|i: int| 0 <= i < m ==> audible(k, #[trigger] res[i]),
        forall|i: int| m <= i < res.len() ==> !audible(k, #[trigger] res[i]),
    ensures
        kept(k, res, n) == res.take(if n < m {
            n
        } else {
            m
        }),
    decreases n,
{
    if n > 0 {
        lemma_kept_prefix(k, res, m, n - 1);
        if n <= m {
            assert(res.take(n) =~= res.take(n - 1).push(res[n - 1]));
        }
    } else {
        assert(res.take(0) =~= Seq::<Resonator>::empty());
    }
}

/// Compacting twice is compacting once, and leaves the least whole number of
/// lanes that holds what sounds.
pub proof fn compaction_settles<F: Fn(Op) -> Single>(k: Arith<F>, v: VoiceState)
    requires
        k.has_zero(),
    ensures
        v.compacted(k).compacted(k) == v.compacted(k),
        v.compacted(k).res.len() % 8 == 0,
        kept(k, v.res, v.res.len() as int).len() <= v.compacted(k).res.len() < kept(k, v.res, v.res.len() as int).len()
            + 8,
{
    let heard = kept(k, v.res, v.res.len() as int);
    let res = padded(heard);
    assert(!audible(k, idle())) by {
        reveal(Arith::has_zero);
        let square = k.times(zero(), zero());
        assert(square.zero_valued());
        assert(k.plus(square, square).equals(square));
    }
    assert forall|i: int| 0 <= i < heard.len() implies audible(k, #[trigger] res[i]) by {
        compaction_keeps_what_sounds(k, v.res, v.res.len() as int, 0);
        assert(res[i] == heard[i]);
    }
    lemma_kept_prefix(k, res, heard.len() as int, res.len() as int);
    assert(res.take(heard.len() as int) =~= heard);
    assert(v.compacted(k).compacted(k) =~= v.compacted(k));
}

/// The facts of the arithmetic that the damping of a string rests on.
pub open spec fn is_faithful<F: Fn(Op) -> Single>(k: Arith<F>) -> bool {
    k.has_zero() && k.is_bounded() && k.is_signed() && k.has_ranges() && k.is_ordered()
}

/// What is divided by in a stop time: it grows with the frequency.
spec fn felt_span<F: Fn(Op) -> Single>(k: Arith<F>, sr: Single, base_w: Single) -> Single {
    k.plus(number(N600), k.over(k.times(base_w, sr), number(TAU)).greater(zero()))
}

proof fn lemma_felt_span<F: Fn(Op) -> Single>(k: Arith<F>, sr: Single, low: Single, high: Single)
    requires
        is_faithful(k),
        sr.finite(),
        zero().lt(sr),
        low.le(high),
    ensures
        felt_span(k, sr, low).le(felt_span(k, sr, high)),
        number(N600).le(felt_span(k, sr, low)),
{
    reveal(Arith::is_ordered);
    reveal(Arith::has_zero);
    let a = k.over(k.times(low, sr), number(TAU));
    let b = k.over(k.times(high, sr), number(TAU));
    assert(k.times(low, sr).le(k.times(high, sr)));
    assert(a.le(b));
    assert(a.greater(zero()).le(b.greater(zero())));
    assert(zero().le(a.greater(zero())));
    assert(k.plus(number(N600), zero()).equals(number(N600)));
    assert(k.plus(number(N600), zero()).le(felt_span(k, sr, low)));
}

/// The stop time of a low string is positive, and not long.
proof fn lemma_felt_base<F: Fn(Op) -> Single>(k: Arith<F>, note: u8)
    requires
        is_faithful(k),
    ensures
        within(k.times(k.felt_base(note), number(N600)), 18),
        zero().le(k.times(k.felt_base(note), number(N600))),
{
    let n = k.whole(note as u64);
    assert(within(n, 8)) by {
        reveal(Arith::has_ranges);
    }
    assert(within(number(N21), 8));
    lemma_difference(k, n, number(N21), 8);
    assert(beyond(number(N87), 6));
    lemma_quotient(k, k.minus(n, number(N21)), number(N87), 9, 6);
    let pos = k.keyboard_pos(note);
    assert(within(one(), 3));
    lemma_difference(k, one(), pos, 3);
    let rest = k.minus(one(), pos);
    assert(within(number(N0_45), -1));
    let once = k.times(number(N0_45), rest);
    lemma_product(k, number(N0_45), rest, -1, 4);
    lemma_product_sign(k, number(N0_45), rest);
    let twice = k.times(once, rest);
    lemma_product(k, once, rest, 3, 4);
    lemma_product_sign(k, once, rest);
    assert(zero().le(twice));
    assert(within(number(N0_2), 7));
    let base = k.felt_base(note);
    lemma_sum(k, number(N0_2), twice, 7);
    lemma_sum_sign(k, number(N0_2), twice);
    assert(within(number(N600), 10));
    lemma_product(k, base, number(N600), 8, 10);
    lemma_product_sign(k, base, number(N600));
}

/// The rate at which felt takes the sound of a string away, in decibels per
/// second.
spec fn felt_rate<F: Fn(Op) -> Single>(k: Arith<F>, note: u8, sr: Single, pressure: Single, base_w: Single) -> Single {
    k.times(k.times(k.over(number(N60), k.felt_stop(note, sr, base_w).greater(number(N0_015))), pressure), pressure)
}

proof fn lemma_felt_rate<F: Fn(Op) -> Single>(k: Arith<F>, note: u8, sr: Single, pressure: Single, base_w: Single)
    requires
        is_faithful(k),
        sr.finite(),
        zero().lt(sr),
        !base_w.nan(),
        zero().lt(pressure),
        pressure.le(one()),
    ensures
        zero().le(k.over(number(N60), k.felt_stop(note, sr, base_w).greater(number(N0_015)))),
        zero().le(k.times(k.over(number(N60), k.felt_stop(note, sr, base_w).greater(number(N0_015))), pressure)),
        zero().le(felt_rate(k, note, sr, pressure, base_w)),
        within(felt_rate(k, note, sr, pressure, base_w), 13),
{
    lemma_felt_base(k, note);
    lemma_felt_span(k, sr, base_w, base_w);
    let top = k.times(k.felt_base(note), number(N600));
    let span = felt_span(k, sr, base_w);
    assert(beyond(span, 9));
    lemma_quotient(k, top, span, 18, 9);
    let stop = k.felt_stop(note, sr, base_w).greater(number(N0_015));
    assert(beyond(stop, -7) && number(N0_015).le(stop));
    assert(within(number(N60), 6));
    let full = k.over(number(N60), stop);
    lemma_quotient(k, number(N60), stop, 6, -7);
    lemma_quotient_sign(k, number(N60), stop);
    assert(within(pressure, 0));
    lemma_product(k, full, pressure, 13, 0);
    lemma_product_sign(k, full, pressure);
    let once = k.times(full, pressure);
    lemma_product(k, once, pressure, 13, 0);
    lemma_product_sign(k, once, pressure);
}

/// A faster rate is a smaller factor.
proof fn lemma_felt_falls<F: Fn(Op) -> Single>(k: Arith<F>, sr: Single, slow: Single, fast: Single)
    requires
        is_faithful(k),
        sr.finite(),
        zero().lt(sr),
        slow.le(fast),
    ensures
        k.decay_factor(fast, sr).le(k.decay_factor(slow, sr)),
{
    reveal(Arith::is_ordered);
    assert(fast.negated().le(slow.negated()));
    assert(k.over(fast.negated(), number(N20)).le(k.over(slow.negated(), number(N20))));
}

/// Felt takes some of the sound and leaves some; it takes more of a higher
/// partial, and more at a higher pressure.
pub proof fn felt_absorbs_the_high<F: Fn(Op) -> Single>(
    k: Arith<F>,
    note: u8,
    sr: Single,
    light: Single,
    heavy: Single,
    low: Single,
    high: Single,
)
    requires
        is_faithful(k),
        sr.finite(),
        beyond(sr, 8),
        zero().lt(sr),
        zero().lt(light),
        light.le(heavy),
        heavy.le(one()),
        low.le(high),
    ensures
        zero().lt(k.felt(note, sr, light, low)),
        k.felt(note, sr, light, low).le(one()),
        k.felt(note, sr, light, high).le(k.felt(note, sr, light, low)),
        k.felt(note, sr, heavy, low).le(k.felt(note, sr, light, low)),
{
    lemma_felt_rate(k, note, sr, light, low);
    lemma_felt_rate(k, note, sr, light, high);
    lemma_felt_rate(k, note, sr, heavy, low);
    let rate = felt_rate(k, note, sr, light, low);
    let x = k.over(rate.negated(), number(N20));
    assert(within(rate.negated(), 13) && beyond(number(N20), 4));
    lemma_quotient(k, rate.negated(), number(N20), 13, 4);
    lemma_quotient_sign(k, rate.negated(), number(N20));
    lemma_quotient(k, x, sr, 9, 8);
    lemma_quotient_sign(k, x, sr);
    let y = k.over(x, sr);
    lemma_within(y, 1, 5);
    assert(zero().lt(k.power(number(N10), y)) && is_share(k.power(number(N10), y))) by {
        reveal(Arith::has_ranges);
    }
    lemma_felt_base(k, note);
    lemma_felt_span(k, sr, low, high);
    let top = k.times(k.felt_base(note), number(N600));
    let slow_stop = k.felt_stop(note, sr, low).greater(number(N0_015));
    let fast_stop = k.felt_stop(note, sr, high).greater(number(N0_015));
    let slow = k.over(number(N60), slow_stop);
    let fast = k.over(number(N60), fast_stop);
    assert(felt_rate(k, note, sr, light, low).le(felt_rate(k, note, sr, light, high))) by {
        reveal(Arith::is_ordered);
        assert(k.over(top, felt_span(k, sr, high)).le(k.over(top, felt_span(k, sr, low))));
        assert(fast_stop.le(slow_stop));
        assert(slow.le(fast));
        assert(k.times(slow, light).le(k.times(fast, light)));
    }
    assert(felt_rate(k, note, sr, light, low).le(felt_rate(k, note, sr, heavy, low))) by {
        reveal(Arith::is_ordered);
        assert(k.times(slow, light).le(k.times(slow, heavy)));
        assert(k.times(k.times(slow, light), light).le(k.times(k.times(slow, heavy), light)));
        assert(zero().le(k.times(slow, light)));
        assert(k.times(k.times(slow, heavy), light).le(k.times(k.times(slow, heavy), heavy)));
    }
    lemma_felt_falls(k, sr, felt_rate(k, note, sr, light, low), felt_rate(k, note, sr, light, high));
    lemma_felt_falls(k, sr, felt_rate(k, note, sr, light, low), felt_rate(k, note, sr, heavy, low));
}

/// A damper stops the higher ones of the strings of a voice faster, all of them
/// faster at a higher pressure, and none of them at once.
pub proof fn damper_follows_frequency<F: Fn(Op) -> Single>(
    k: Arith<F>,
    v: VoiceState,
    sr: Single,
    light: Single,
    heavy: Single,
    i: int,
    j: int,
)
    requires
        is_faithful(k),
        sr.finite(),
        beyond(sr, 8),
        zero().lt(sr),
        number(N0_02).lt(light),
        light.le(heavy),
        heavy.le(one()),
        0 <= i < v.res.len(),
        0 <= j < v.res.len(),
        !v.res[i].decay.zero_valued(),
        !v.res[j].decay.zero_valued(),
        v.res[i].base_w.le(v.res[j].base_w),
    ensures
        zero().lt(v.damped(k, sr, light).res[i].damping),
        v.damped(k, sr, light).res[i].damping.le(one()),
        v.damped(k, sr, light).res[j].damping.le(v.damped(k, sr, light).res[i].damping),
        v.damped(k, sr, heavy).res[i].damping.le(v.damped(k, sr, light).res[i].damping),
{
    felt_absorbs_the_high(k, v.note, sr, light, heavy, v.res[i].base_w, v.res[j].base_w);
}

/// A glide comes to its end in tune: at the start of the block in which it
/// settles every string that sounds turns at its own rate again, and no glide is
/// left; until then all of them are raised by the same ratio. A voice that does
/// not glide turns as it did.
pub proof fn glides_end_in_tune<F: Fn(Op) -> Single>(v: VoiceState, k: Arith<F>, sr: Single, n: u64, i: int)
    requires
        0 <= i < v.res.len(),
    ensures
        ({
            let after = v.opened(k, sr, n);
            let next = k.times(v.glide_cents, k.exp(k.over(k.whole(n).negated(), k.times(number(N0_06), sr))));
            let ratio = k.power(number(N2), k.over(v.glide_cents, number(N1200)));
            &&& !number(N0_05).lt(v.glide_cents) ==> after.res == v.res && after.glide_cents == v.glide_cents
            &&& number(N0_05).lt(v.glide_cents) && next.le(number(N0_05)) ==> after.glide_cents == zero()
            &&& number(N0_05).lt(v.glide_cents) && !next.le(number(N0_05)) ==> after.glide_cents == next
            &&& number(N0_05).lt(v.glide_cents) && zero().lt(v.res[i].decay) ==> {
                let w = if next.le(number(N0_05)) {
                    v.res[i].base_w
                } else {
                    k.times(v.res[i].base_w, ratio)
                };
                after.res[i].rot_re == k.cosine(w) && after.res[i].rot_im == k.sine(w)
            }
            &&& after.res[i].re == v.res[i].re && after.res[i].im == v.res[i].im
            &&& after.res[i].decay == v.res[i].decay && after.res[i].damping == v.res[i].damping
            &&& after.tone == v.tone
            &&& after.held == v.held
        }),
{
}

/// Felt takes away by the square of its pressure, for any string: twice the
/// pressure is four times the rate. Returns the rate at full weight, in decibels
/// per second, sixty of them in no less than 0.015 seconds.
pub proof fn felt_presses_by_the_square<F: Fn(Op) -> Single>(k: Arith<F>, note: u8, sr: Single, base_w: Single) -> (rate: Single)
    ensures
        forall|pressure: Single| #[trigger]
            k.felt(note, sr, pressure, base_w) == k.decay_factor(k.times(k.times(rate, pressure), pressure), sr),
        exists|stop: Single| rate == #[trigger] k.over(number(N60), stop) && !stop.lt(number(N0_015)),
{
    let stop = k.felt_stop(note, sr, base_w).greater(number(N0_015));
    assert(!number(N0_015).nan());
    k.over(number(N60), stop)
}

/// A damper lands within 35 thousandths of a second, evenly, and then stays.
pub proof fn dampers_land_evenly<F: Fn(Op) -> Single>(v: VoiceState, k: Arith<F>, sr: Single, n: u64)
    ensures
        ({
            let further = k.plus(v.damper_blend, k.over(k.whole(n), k.times(number(0x3D0F_5C29), sr)));
            &&& further.le(one()) ==> v.opened(k, sr, n).damper_blend == further
            &&& one().lt(further) ==> v.opened(k, sr, n).damper_blend == one()
        }),
{
}

/// A string turns by its rotation and shrinks by its decay and by as much of its
/// damper as has landed: all of it at a blend of one, none of it at zero.
pub proof fn strings_turn_and_shrink<F: Fn(Op) -> Single>(k: Arith<F>, r: Resonator, blend: Single)
    ensures
        ({
            let felt = k.plus(one(), k.times(k.minus(r.damping, one()), blend));
            let shrink = k.times(r.decay, felt);
            let after = turned(k, r, blend);
            &&& after.re == k.times(k.minus(k.times(r.re, r.rot_re), k.times(r.im, r.rot_im)), shrink)
            &&& after.im == k.times(k.plus(k.times(r.re, r.rot_im), k.times(r.im, r.rot_re)), shrink)
            &&& after == (Resonator { re: after.re, im: after.im, ..r })
        }),
{
}

/// Noise and bed sound while either is above a ten-millionth, two draws a frame,
/// and each dies by its own decay; after that only the strings sound, and no
/// draws are made.
pub proof fn noise_lasts_while_it_is_heard<F: Fn(Op) -> Single>(k: Arith<F>, tone: Tone, slow: Single, fast: Single, rng: u32)
    ensures
        ({
            let strings = spec_swell(k, tone, slow, fast);
            let sound = spec_sound(k, tone, slow, fast, rng);
            let on = number(0x33D6_BF95).lt(tone.noise_amp) || number(0x33D6_BF95).lt(tone.bed_amp);
            &&& !on ==> sound == strings && rng_after_frame(tone, rng) == rng
            &&& on ==> {
                &&& rng_after_frame(tone, rng) == spec_xorshift(spec_xorshift(rng))
                &&& sound.tone.noise_amp == k.times(tone.noise_amp, tone.noise_decay)
                &&& sound.tone.bed_amp == k.times(tone.bed_amp, tone.bed_decay)
                &&& sound.tone.attack_slow == strings.tone.attack_slow
                &&& sound.tone.attack_fast == strings.tone.attack_fast
            }
        }),
{
}

/// The strings swell in evenly, slow and fast ones each by their own step, up to
/// all of their sound, and are panned by the place of their key.
pub proof fn attacks_swell_to_one<F: Fn(Op) -> Single>(k: Arith<F>, tone: Tone, slow: Single, fast: Single)
    ensures
        ({
            let s = spec_swell(k, tone, slow, fast);
            let a = k.plus(tone.attack_slow, tone.attack_slow_coeff);
            let b = k.plus(tone.attack_fast, tone.attack_fast_coeff);
            let sum = k.plus(k.times(slow, s.tone.attack_slow), k.times(fast, s.tone.attack_fast));
            &&& a.le(one()) ==> s.tone.attack_slow == a
            &&& one().lt(a) ==> s.tone.attack_slow == one()
            &&& b.le(one()) ==> s.tone.attack_fast == b
            &&& one().lt(b) ==> s.tone.attack_fast == one()
            &&& s.left == k.times(sum, tone.pan_l)
            &&& s.right == k.times(sum, tone.pan_r)
        }),
{
}

/// A voice is as loud as its noise, its bed and each of its strings, squared and
/// added up.
pub proof fn energies_add_up<F: Fn(Op) -> Single>(v: VoiceState, k: Arith<F>, n: int)
    requires
        0 <= n < v.res.len(),
    ensures
        ({
            let start = k.plus(
                k.times(v.tone.noise_amp, v.tone.noise_amp),
                k.times(v.tone.bed_amp, v.tone.bed_amp),
            );
            let r = v.res[n];
            &&& energy_from(k, start, v.res, 0) == start
            &&& energy_from(k, start, v.res, n + 1) == k.plus(
                energy_from(k, start, v.res, n),
                k.plus(k.times(r.re, r.re), k.times(r.im, r.im)),
            )
            &&& v.energy(k) == energy_from(k, start, v.res, v.res.len() as int)
        }),
{
}

/// Strings are filled up to whole lanes of eight with idle ones, which sound
/// nothing, and none is lost or moved.
pub proof fn padding_adds_idle_strings(res: Seq<Resonator>, i: int)
    requires
        0 <= i < padded(res).len(),
    ensures
        padded(res).len() % 8 == 0,
        res.len() <= padded(res).len() < res.len() + 8,
        i < res.len() ==> padded(res)[i] == res[i],
        i >= res.len() ==> padded(res)[i].re == zero() && padded(res)[i].im == zero() && padded(res)[i].decay == zero(),
{
}

} // verus!
