//! Formulas that the instruments share: pitch, decay, keyboard position,
//! filters and random phases.

use crate::arith::{Arith, Op};
use crate::constant::{
    LN_2, N0_05, N0_1, N0_45, N0_9, N1200, N12, N127, N10, N1_6, N2, N20, N21, N440, N60, N69, N87, TAU,
};
use crate::number::{Single, number, one};
use vstd::prelude::*;

verus! {

/// From this note on strings have no damper.
pub const UNDAMPED_NOTE: u8 = 90;

/// A two-pole filter, normalized: what it takes from the input and its last two
/// inputs, and from its last two outputs.
#[derive(Clone, Copy, Debug)]
pub struct Filter {
    pub b: (Single, Single, Single),
    pub a: (Single, Single),
}

/// What a filter gives for one sample, and what it remembers then.
#[derive(Clone, Copy, Debug)]
pub struct Filtered {
    pub out: Single,
    pub z: (Single, Single),
}

/// One sample through a filter in transposed direct form II.
pub open spec fn spec_filtered<F: Fn(Op) -> Single>(k: Arith<F>, f: Filter, z: (Single, Single), x: Single) -> Filtered {
    let out = k.plus(k.times(f.b.0, x), z.0);
    Filtered {
        out,
        z: (
            k.plus(k.minus(k.times(f.b.1, x), k.times(f.a.0, out)), z.1),
            k.minus(k.times(f.b.2, x), k.times(f.a.1, out)),
        ),
    }
}

/// A lowpass of the given corner frequency and quality.
pub open spec fn spec_lowpass<F: Fn(Op) -> Single>(k: Arith<F>, freq: Single, q: Single, sr: Single) -> Filter {
    let w0 = k.times(number(TAU), k.over(freq, sr).lesser(number(N0_45)));
    let alpha = k.over(k.sine(w0), k.times(number(N2), q));
    let cos = k.cosine(w0);
    let a0 = k.plus(one(), alpha);
    let edge = k.over(k.over(k.minus(one(), cos), number(N2)), a0);
    Filter {
        b: (edge, k.over(k.minus(one(), cos), a0), edge),
        a: (k.over(k.times(number(N2).negated(), cos), a0), k.over(k.minus(one(), alpha), a0)),
    }
}

impl<F: Fn(Op) -> Single> Arith<F> {
    /// Equal-tempered frequency of a MIDI note; A4, note 69, is at 440 Hz.
    #[verifier::allow_in_spec]
    pub fn midi_note_freq(&self, note: u8) -> Single
        returns
            self.times(
                number(N440),
                self.power(number(N2), self.over(self.minus(self.whole(note as u64), number(N69)), number(N12))),
            ),
    {
        self.times(
            number(N440),
            self.power(number(N2), self.over(self.minus(self.whole(note as u64), number(N69)), number(N12))),
        )
    }

    /// A frequency raised by some cents.
    #[verifier::allow_in_spec]
    pub fn tuned(&self, freq: Single, cents: Single) -> Single
        returns
            self.times(freq, self.power(number(N2), self.over(cents, number(N1200)))),
    {
        self.times(freq, self.power(number(N2), self.over(cents, number(N1200))))
    }

    /// Partial `n` of a stiff string: `n` times the fundamental, stretched.
    #[verifier::allow_in_spec]
    pub fn partial_freq(&self, f0: Single, stiffness: Single, n: usize) -> Single
        returns
            self.times(
                self.times(self.whole(n as u64), f0),
                self.root(
                    self.plus(
                        one(),
                        self.times(self.times(stiffness, self.whole(n as u64)), self.whole(n as u64)),
                    ),
                ),
            ),
    {
        let nf: Single = self.whole(n as u64);
        self.times(
            self.times(nf, f0),
            self.root(self.plus(one(), self.times(self.times(stiffness, nf), nf))),
        )
    }

    /// Where a note lies on the keyboard: zero at the lowest key, one at the
    /// highest.
    #[verifier::allow_in_spec]
    pub fn keyboard_pos(&self, note: u8) -> Single
        returns
            self.over(self.minus(self.whole(note as u64), number(N21)), number(N87)),
    {
        self.over(self.minus(self.whole(note as u64), number(N21)), number(N87))
    }

    /// A velocity as a share of the greatest.
    #[verifier::allow_in_spec]
    pub fn velocity_share(&self, velocity: u8) -> Single
        returns
            self.over(self.whole(velocity as u64), number(N127)),
    {
        self.over(self.whole(velocity as u64), number(N127))
    }

    /// The factor per sample of a decay in decibels per second.
    #[verifier::allow_in_spec]
    pub fn decay_factor(&self, db_per_s: Single, sr: Single) -> Single
        returns
            self.power(number(N10), self.over(self.over(db_per_s.negated(), number(N20)), sr)),
    {
        self.power(number(N10), self.over(self.over(db_per_s.negated(), number(N20)), sr))
    }

    /// The factor of a level in decibels.
    #[verifier::allow_in_spec]
    pub fn gain(&self, db: Single) -> Single
        returns
            self.power(number(N10), self.over(db, number(N20))),
    {
        self.power(number(N10), self.over(db, number(N20)))
    }

    /// The factor per sample under the damper felt, which stops a string in a
    /// time that depends on the register; there are no dampers at the top.
    #[verifier::allow_in_spec]
    pub fn damper_factor(&self, note: u8, sr: Single) -> Single
        returns
            (if note >= UNDAMPED_NOTE {
                one()
            } else {
                self.decay_factor(
                    self.over(
                        number(N60),
                        self.plus(
                            number(N0_05),
                            self.times(number(N0_1), self.minus(one(), self.keyboard_pos(note))),
                        ),
                    ),
                    sr,
                )
            }),
    {
        if note >= UNDAMPED_NOTE {
            return one();
        }
        let stop_time: Single = self.plus(
            number(N0_05),
            self.times(number(N0_1), self.minus(one(), self.keyboard_pos(note))),
        );
        self.decay_factor(self.over(number(N60), stop_time), sr)
    }

    /// Unison detune in cents, wider toward the bass.
    #[verifier::allow_in_spec]
    pub fn unison_detune_cents(&self, note: u8) -> Single
        returns
            self.minus(number(N1_6), self.times(number(N0_9), self.keyboard_pos(note))),
    {
        self.minus(number(N1_6), self.times(number(N0_9), self.keyboard_pos(note)))
    }

    /// How far a unison string is off, as a share of the frequency.
    #[verifier::allow_in_spec]
    pub fn detune_ratio(&self, note: u8, scale: Single) -> Single
        returns
            self.exp_less(
                self.times(
                    self.over(self.times(self.unison_detune_cents(note), scale), number(N1200)),
                    number(LN_2),
                ),
            ),
    {
        self.exp_less(
            self.times(
                self.over(self.times(self.unison_detune_cents(note), scale), number(N1200)),
                number(LN_2),
            ),
        )
    }

    /// A drawn number as a share of the greatest.
    #[verifier::allow_in_spec]
    pub fn draw_share(&self, draw: u32) -> Single
        returns
            self.over(self.whole(draw as u64), self.whole(u32::MAX as u64)),
    {
        self.over(self.whole(draw as u64), self.whole(u32::MAX as u64))
    }

    /// A drawn number as a phase.
    #[verifier::allow_in_spec]
    pub fn draw_phase(&self, draw: u32) -> Single
        returns
            self.times(self.draw_share(draw), number(TAU)),
    {
        self.times(self.draw_share(draw), number(TAU))
    }

    /// A drawn number as white noise, between minus one and one.
    #[verifier::allow_in_spec]
    pub fn draw_white(&self, draw: u32) -> Single
        returns
            self.minus(self.times(self.draw_share(draw), number(N2)), one()),
    {
        self.minus(self.times(self.draw_share(draw), number(N2)), one())
    }

    /// The square of the length of a phasor.
    #[verifier::allow_in_spec]
    pub fn loudness(&self, re: Single, im: Single) -> Single
        returns
            self.plus(self.times(re, re), self.times(im, im)),
    {
        self.plus(self.times(re, re), self.times(im, im))
    }

    /// The angular step per sample of a frequency.
    #[verifier::allow_in_spec]
    pub fn angular_step(&self, freq: Single, sr: Single) -> Single
        returns
            self.over(self.times(number(TAU), freq), sr),
    {
        self.over(self.times(number(TAU), freq), sr)
    }

    /// One sample through a filter in transposed direct form II.
    pub fn filtered(&self, f: Filter, z: (Single, Single), x: Single) -> (r: Filtered)
        ensures
            r == spec_filtered(*self, f, z, x),
    {
        let out: Single = self.plus(self.times(f.b.0, x), z.0);
        Filtered {
            out,
            z: (
                self.plus(self.minus(self.times(f.b.1, x), self.times(f.a.0, out)), z.1),
                self.minus(self.times(f.b.2, x), self.times(f.a.1, out)),
            ),
        }
    }

    /// A lowpass of the given corner frequency and quality.
    pub fn biquad_lowpass(&self, freq: Single, q: Single, sr: Single) -> (r: Filter)
        ensures
            r == spec_lowpass(*self, freq, q, sr),
    {
        let w0: Single = self.times(number(TAU), self.over(freq, sr).lesser(number(N0_45)));
        let alpha: Single = self.over(self.sine(w0), self.times(number(N2), q));
        let cos: Single = self.cosine(w0);
        let a0: Single = self.plus(one(), alpha);
        let edge: Single = self.over(self.over(self.minus(one(), cos), number(N2)), a0);
        Filter {
            b: (edge, self.over(self.minus(one(), cos), a0), edge),
            a: (self.over(self.times(number(N2).negated(), cos), a0), self.over(self.minus(one(), alpha), a0)),
        }
    }
}

/// A lowpass has its corner at 0.45 of the sample rate at most: any higher
/// corner gives the same filter.
pub proof fn lowpass_has_a_highest_corner<F: Fn(Op) -> Single>(k: Arith<F>, a: Single, b: Single, q: Single, sr: Single)
    requires
        number(0x3EE6_6666).lt(k.over(a, sr)),
        number(0x3EE6_6666).lt(k.over(b, sr)),
    ensures
        spec_lowpass(k, a, q, sr) == spec_lowpass(k, b, q, sr),
{
}

/// A lowpass takes as much of its last input but one as of its input.
pub proof fn lowpass_is_even<F: Fn(Op) -> Single>(k: Arith<F>, freq: Single, q: Single, sr: Single)
    ensures
        spec_lowpass(k, freq, q, sr).b.0 == spec_lowpass(k, freq, q, sr).b.2,
{
}

/// There are no dampers from note 90 on, and below it felt stops a string within
/// a time that its place on the keyboard gives.
pub proof fn dampers_end_at_note_90<F: Fn(Op) -> Single>(k: Arith<F>, note: u8, sr: Single)
    ensures
        note >= 90 ==> k.damper_factor(note, sr) == one(),
        note < 90 ==> exists|stop: Single| k.damper_factor(note, sr) == #[trigger] k.decay_factor(
            k.over(number(N60), stop),
            sr,
        ),
{
    if note < 90 {
        let stop = k.plus(number(N0_05), k.times(number(N0_1), k.minus(one(), k.keyboard_pos(note))));
        assert(k.damper_factor(note, sr) == k.decay_factor(k.over(number(N60), stop), sr));
    }
}

} // verus!
