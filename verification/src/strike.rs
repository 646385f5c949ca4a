//! Building a voice for a struck note: hammer, strings and loudness.

use crate::arith::{Arith, Op};
use crate::bank::{carried, lemma_carried_next};
use crate::calibration::{NoteParams, ParamsState};
use crate::constant::{
    N0_002, N0_008, N0_01, N0_015, N0_02, N0_05, N0_06, N0_09, N0_12, N0_15, N0_3, N0_35, N0_4, N0_5, N0_6, N0_65,
    N0_7, N0_75, N0_8, N0_9, N0_999999, N10, N1000, N1E_9, N1_2, N1_3, N1_6, N2, N20, N2500, N3, N300, N4, N60, QUARTER, TAU,
};
use crate::formula::{Filter, spec_lowpass};
use crate::knobs::Knobs;
use crate::number::{Single, number, one, zero};
use crate::rng::{spec_xorshift, xorshift};
use crate::voice::{
    MAX_RES, N_SLOTS, Resonator, Tone, UNISON_PARTIALS, Voice, VoiceState, padded, scaled, string_of,
};
use vstd::prelude::*;

verus! {

/// From this note on a note has three strings.
pub const TRICHORD_NOTE: u8 = 44;

/// The softest velocity that the calibration covers.
pub const SOFTEST: u8 = 54;

/// The hardest velocity that the calibration covers.
pub const HARDEST: u8 = 114;

/// A strike of the hammer: on which note, how hard, with the hammers shifted or
/// not, on an instrument with these knobs.
#[derive(Clone, Copy, Debug)]
pub struct Strike {
    pub sr: Single,
    pub knobs: Knobs,
    pub note: u8,
    pub velocity: u8,
    pub una: bool,
}

/// How one partial is to sound.
#[derive(Clone, Copy, Debug, PartialEq, Eq, Structural)]
pub struct Shape {
    pub freq: Single,
    pub amp: Single,
    pub fast: Single,
    pub slow: Single,
    pub split: Single,
}

/// The strings built so far, and the generator that scrambles their phases.
#[verifier::ext_equal]
pub struct Strung {
    pub res: Seq<Resonator>,
    pub rng: u32,
}

impl<F: Fn(Op) -> Single> Arith<F> {
    /// The early level that a strike aims at: a velocity curve times the
    /// measured keyboard balance; less with the hammers shifted.
    #[verifier::allow_in_spec]
    pub fn target_rms(&self, velocity: u8, loudness_db: Single, una: bool) -> Single
        returns
            (if una {
                self.times(self.full_rms(velocity, loudness_db), number(N0_65))
            } else {
                self.full_rms(velocity, loudness_db)
            }),
    {
        let rms: Single = self.full_rms(velocity, loudness_db);
        if una {
            self.times(rms, number(N0_65))
        } else {
            rms
        }
    }

    /// The early level that a strike on all strings aims at.
    #[verifier::allow_in_spec]
    pub fn full_rms(&self, velocity: u8, loudness_db: Single) -> Single
        returns
            self.times(
                self.times(number(N0_06), self.power(self.velocity_share(velocity), number(N1_6))),
                self.gain(loudness_db),
            ),
    {
        self.times(
            self.times(number(N0_06), self.power(self.velocity_share(velocity), number(N1_6))),
            self.gain(loudness_db),
        )
    }

    /// How sharp a strike starts, in cents: strongest low on the keyboard,
    /// negligible for soft playing.
    #[verifier::allow_in_spec]
    pub fn strike_glide(&self, s: Strike) -> Single
        returns
            self.times(
                self.times(
                    self.times(
                        self.times(s.knobs.glide_cents, self.velocity_share(s.velocity)),
                        self.velocity_share(s.velocity),
                    ),
                    self.velocity_share(s.velocity),
                ),
                self.minus(number(N1_2), self.keyboard_pos(s.note)),
            ),
    {
        let vel: Single = self.velocity_share(s.velocity);
        self.times(
            self.times(self.times(self.times(s.knobs.glide_cents, vel), vel), vel),
            self.minus(number(N1_2), self.keyboard_pos(s.note)),
        )
    }

    /// The fourth power of the keyboard position.
    #[verifier::allow_in_spec]
    pub fn pos4(&self, note: u8) -> Single
        returns
            self.times(
                self.times(
                    self.times(self.keyboard_pos(note), self.keyboard_pos(note)),
                    self.keyboard_pos(note),
                ),
                self.keyboard_pos(note),
            ),
    {
        let pos: Single = self.keyboard_pos(note);
        self.times(self.times(self.times(pos, pos), pos), pos)
    }

    /// The corner of the hammer noise: dark, brighter when hit hard and toward
    /// the treble.
    #[verifier::allow_in_spec]
    pub fn noise_cutoff(&self, note: u8, velocity: u8) -> Single
        returns
            self.times(
                self.plus(
                    number(N300),
                    self.times(
                        self.times(number(N2500), self.velocity_share(velocity)),
                        self.velocity_share(velocity),
                    ),
                ),
                self.plus(
                    self.plus(number(N0_5), self.times(number(N0_8), self.keyboard_pos(note))),
                    self.times(number(N0_9), self.pos4(note)),
                ),
            ),
    {
        let vel: Single = self.velocity_share(velocity);
        self.times(
            self.plus(number(N300), self.times(self.times(number(N2500), vel), vel)),
            self.plus(
                self.plus(number(N0_5), self.times(number(N0_8), self.keyboard_pos(note))),
                self.times(number(N0_9), self.pos4(note)),
            ),
        )
    }

    /// The amplitude of the hammer noise; it grows faster with velocity than
    /// the tone does.
    #[verifier::allow_in_spec]
    pub fn strike_noise(&self, s: Strike, target_rms: Single) -> Single
        returns
            self.times(
                self.times(
                    self.times(
                        target_rms,
                        self.plus(
                            self.plus(number(N0_12), self.times(number(N0_3), self.keyboard_pos(s.note))),
                            self.times(number(N0_5), self.pos4(s.note)),
                        ),
                    ),
                    self.velocity_share(s.velocity),
                ),
                s.knobs.noise_gain,
            ),
    {
        let share: Single = self.plus(
            self.plus(number(N0_12), self.times(number(N0_3), self.keyboard_pos(s.note))),
            self.times(number(N0_5), self.pos4(s.note)),
        );
        self.times(
            self.times(self.times(target_rms, share), self.velocity_share(s.velocity)),
            s.knobs.noise_gain,
        )
    }

    /// The decay of the hammer noise, by register.
    #[verifier::allow_in_spec]
    pub fn noise_decay(&self, note: u8, sr: Single) -> Single
        returns
            self.decay_factor(
                self.over(
                    number(N60),
                    self.plus(
                        number(N0_01),
                        self.times(number(N0_015), self.minus(one(), self.keyboard_pos(note))),
                    ),
                ),
                sr,
            ),
    {
        let seconds: Single = self.plus(
            number(N0_01),
            self.times(number(N0_015), self.minus(one(), self.keyboard_pos(note))),
        );
        self.decay_factor(self.over(number(N60), seconds), sr)
    }

    /// The rise time of an attack in seconds, within bounds.
    #[verifier::allow_in_spec]
    pub fn rise_time(&self, attack_ms: Single, scale: Single) -> Single
        returns
            self.over(self.times(attack_ms, scale), number(N1000)).clamped(number(N0_002), number(N0_09)),
    {
        self.over(self.times(attack_ms, scale), number(N1000)).clamped(number(N0_002), number(N0_09))
    }

    /// The pan angle of a note.
    #[verifier::allow_in_spec]
    pub fn pan_angle(&self, note: u8) -> Single
        returns
            self.times(
                self.plus(number(N0_15), self.times(number(N0_7), self.keyboard_pos(note))),
                number(QUARTER),
            ),
    {
        self.times(
            self.plus(number(N0_15), self.times(number(N0_7), self.keyboard_pos(note))),
            number(QUARTER),
        )
    }

    /// The spectral tilt of a partial in decibels, outside the velocities that
    /// the calibration covers: a softer hammer is darker, a harder one brighter.
    #[verifier::allow_in_spec]
    pub fn tilt_db(&self, velocity: u8, n: usize) -> Single
        returns
            (if velocity < SOFTEST {
                self.times(
                    self.times(number(N0_01).negated(), self.whole((SOFTEST - velocity) as u64)),
                    self.minus(self.whole(n as u64), one()),
                )
            } else if velocity > HARDEST {
                self.times(
                    self.times(number(N0_008), self.whole((velocity - HARDEST) as u64)),
                    self.minus(self.whole(n as u64), one()),
                )
            } else {
                zero()
            }),
    {
        if velocity < SOFTEST {
            self.times(
                self.times(number(N0_01).negated(), self.whole((SOFTEST - velocity) as u64)),
                self.minus(self.whole(n as u64), one()),
            )
        } else if velocity > HARDEST {
            self.times(
                self.times(number(N0_008), self.whole((velocity - HARDEST) as u64)),
                self.minus(self.whole(n as u64), one()),
            )
        } else {
            zero()
        }
    }

    /// The further tilt of a partial with the hammers shifted.
    #[verifier::allow_in_spec]
    pub fn una_tilt_db(&self, una: bool, n: usize) -> Single
        returns
            (if una {
                self.times(number(N0_35).negated(), self.minus(self.whole(n as u64), one()))
            } else {
                zero()
            }),
    {
        if una {
            self.times(number(N0_35).negated(), self.minus(self.whole(n as u64), one()))
        } else {
            zero()
        }
    }

    /// The greatest slow share of a partial: an even split would let the unison
    /// components cancel completely.
    #[verifier::allow_in_spec]
    pub fn split_cap(&self, n: usize, split_max: Single) -> Single
        returns
            self.plus(
                number(N0_3),
                self.times(number(N0_06), self.minus(self.whole(n as u64), one())),
            ).lesser(split_max),
    {
        self.plus(
            number(N0_3),
            self.times(number(N0_06), self.minus(self.whole(n as u64), one())),
        ).lesser(split_max)
    }

    /// The share of a partial in the slow component; more with the hammers
    /// shifted.
    #[verifier::allow_in_spec]
    pub fn slow_share(&self, split: Single, cap: Single, una: bool) -> Single
        returns
            (if una {
                self.times(split.clamped(number(N0_02), cap), number(N1_6)).lesser(number(N0_9))
            } else {
                split.clamped(number(N0_02), cap)
            }),
    {
        let share: Single = split.clamped(number(N0_02), cap);
        if una {
            self.times(share, number(N1_6)).lesser(number(N0_9))
        } else {
            share
        }
    }

    /// How far the beating string is off, in Hz: the detune, jittered by a draw.
    #[verifier::allow_in_spec]
    pub fn beat_offset(&self, freq: Single, detune_ratio: Single, draw: u32) -> Single
        returns
            self.times(
                self.times(freq, detune_ratio),
                self.plus(
                    number(N0_75),
                    self.times(number(N0_5), self.over(self.draw_phase(draw), number(TAU))),
                ),
            ).greater(number(N0_7)),
    {
        let jit: Single = self.plus(
            number(N0_75),
            self.times(number(N0_5), self.over(self.draw_phase(draw), number(TAU))),
        );
        self.times(self.times(freq, detune_ratio), jit).greater(number(N0_7))
    }

    /// The mean square of a phasor over `window` samples of its decay.
    #[verifier::allow_in_spec]
    pub fn mean_square(&self, re: Single, im: Single, decay: Single, window: i32) -> Single
        returns
            self.times(
                self.over(self.loudness(re, im), number(N2)),
                self.window_gain(self.times(decay, decay), window),
            ),
    {
        self.times(
            self.over(self.loudness(re, im), number(N2)),
            self.window_gain(self.times(decay, decay), window),
        )
    }

    /// The mean of a geometric decay by `d2` per sample over a window.
    pub open spec fn spec_window_gain(&self, d2: Single, window: i32) -> Single {
        if number(N0_999999).lt(d2) {
            one()
        } else {
            self.over(
                self.minus(one(), self.whole_power(d2, window)),
                self.times(self.whole(window as u64), self.minus(one(), d2)),
            )
        }
    }

    /// The mean of a geometric decay by `d2` per sample over a window.
    #[verifier::when_used_as_spec(spec_window_gain)]
    pub fn window_gain(&self, d2: Single, window: i32) -> (r: Single)
        ensures
            r == self.spec_window_gain(d2, window),
    {
        if number(N0_999999).is_below(d2) {
            one()
        } else {
            self.over(
                self.minus(one(), self.whole_power(d2, window)),
                self.times(self.whole(window as u64), self.minus(one(), d2)),
            )
        }
    }
}

/// Panning, swell, hammer noise and bed of a struck voice.
pub open spec fn tone_of<F: Fn(Op) -> Single>(k: Arith<F>, s: Strike, p: ParamsState, target_rms: Single) -> Tone {
    let rise = k.rise_time(p.attack_ms, s.knobs.attack_scale);
    let nothing = (zero(), zero());
    Tone {
        pan_l: k.cosine(k.pan_angle(s.note)),
        pan_r: k.sine(k.pan_angle(s.note)),
        attack_slow: zero(),
        attack_slow_coeff: k.over(one(), k.times(rise, s.sr)),
        attack_fast: zero(),
        attack_fast_coeff: k.over(one(), k.times(k.over(rise, number(N3)), s.sr)),
        noise_amp: k.strike_noise(s, target_rms),
        noise_decay: k.noise_decay(s.note, s.sr),
        noise_filter: spec_lowpass(k, k.noise_cutoff(s.note, s.velocity), number(N0_9), s.sr),
        noise_z: nothing,
        bed_amp: k.times(k.times(target_rms, k.gain(p.bed_db)), s.knobs.bed_gain),
        bed_decay: k.decay_factor(number(N4), s.sr),
        bed_filter: spec_lowpass(k, k.times(p.bed_centroid_hz, number(N0_6)), number(N1_2), s.sr),
        bed_z: nothing,
        bed_z2: nothing,
        bed_y: nothing,
        bed_y2: nothing,
    }
}

/// How partial `n` of a strike is to sound.
pub open spec fn shape_of<F: Fn(Op) -> Single>(k: Arith<F>, s: Strike, p: ParamsState, f0: Single, n: int) -> Shape {
    let fast = k.times(p.decays_fast[n - 1], s.knobs.fast_scale).clamped(number(N0_3), number(N300));
    Shape {
        freq: k.partial_freq(f0, p.b, n as usize),
        amp: k.power(
            number(N10),
            k.over(
                k.plus(
                    k.plus(p.amps_db[n - 1], k.tilt_db(s.velocity, n as usize)),
                    k.una_tilt_db(s.una, n as usize),
                ),
                number(N20),
            ),
        ),
        fast,
        slow: p.decays_slow[n - 1].clamped(number(N0_3), fast),
        split: k.slow_share(p.slow_split[n - 1], k.split_cap(n as usize, s.knobs.split_max), s.una),
    }
}

impl Strung {
    /// With one more string, if there is room.
    pub open spec fn with<F: Fn(Op) -> Single>(
        self,
        k: Arith<F>,
        sr: Single,
        freq: Single,
        amp: Single,
        phase: Single,
        decay: Single,
    ) -> Strung {
        Strung {
            res: if self.res.len() < MAX_RES {
                self.res.push(string_of(k, sr, freq, amp, phase, decay))
            } else {
                self.res
            },
            ..self
        }
    }

    /// After one draw.
    pub open spec fn drawn(self) -> Strung {
        Strung { rng: spec_xorshift(self.rng), ..self }
    }

    /// With the strings of a low partial: the prompt sound, the aftersound in
    /// quadrature to it and nearly co-tuned, and on three-string notes a small
    /// detuned component that carries the beat.
    pub open spec fn with_unison<F: Fn(Op) -> Single>(self, k: Arith<F>, s: Strike, ratio: Single, h: Shape) -> Strung {
        let first = self.drawn();
        let phase = k.draw_phase(first.rng);
        let share = if s.note >= TRICHORD_NOTE {
            number(N0_7)
        } else {
            one()
        };
        let pair = first.with(k, s.sr, h.freq, k.times(h.amp, k.minus(one(), h.split)), phase, h.fast).with(
            k,
            s.sr,
            k.plus(h.freq, number(N0_05)),
            k.times(k.times(h.amp, h.split), share),
            k.plus(phase, number(QUARTER)),
            h.slow,
        );
        if s.note >= TRICHORD_NOTE {
            let second = pair.drawn();
            let third = second.drawn();
            third.with(
                k,
                s.sr,
                k.plus(h.freq, k.beat_offset(h.freq, ratio, second.rng)),
                k.times(k.times(h.amp, h.split), number(N0_3)),
                k.draw_phase(third.rng),
                k.times(h.slow, number(N1_3)),
            )
        } else {
            pair
        }
    }

    /// With the one string of a high partial.
    pub open spec fn with_lone<F: Fn(Op) -> Single>(self, k: Arith<F>, s: Strike, h: Shape) -> Strung {
        let first = self.drawn();
        first.with(k, s.sr, h.freq, h.amp, k.draw_phase(first.rng), h.fast)
    }
}

/// The strings of the first `n` partials; the first partial that the sample
/// rate cannot carry ends the series.
pub open spec fn strung<F: Fn(Op) -> Single>(
    k: Arith<F>,
    s: Strike,
    p: ParamsState,
    f0: Single,
    ratio: Single,
    rng: u32,
    n: int,
) -> Strung
    decreases n,
{
    if n <= 0 {
        Strung { res: Seq::empty(), rng }
    } else {
        let rest = strung(k, s, p, f0, ratio, rng, n - 1);
        if !carried(k, s.sr, f0, p.b, n) {
            rest
        } else if n <= UNISON_PARTIALS {
            rest.with_unison(k, s, ratio, shape_of(k, s, p, f0, n))
        } else {
            rest.with_lone(k, s, shape_of(k, s, p, f0, n))
        }
    }
}

/// The sum of the mean squares of the first `n` strings.
pub open spec fn total_square<F: Fn(Op) -> Single>(k: Arith<F>, res: Seq<Resonator>, window: i32, n: int) -> Single
    decreases n,
{
    if n <= 0 {
        zero()
    } else {
        k.plus(
            total_square(k, res, window, n - 1),
            k.mean_square(res[n - 1].re, res[n - 1].im, res[n - 1].decay, window),
        )
    }
}

/// The window over which loudness was measured, in samples.
pub open spec fn loudness_window<F: Fn(Op) -> Single>(k: Arith<F>, sr: Single) -> i32 {
    let n = k.times(number(N0_4), sr).whole_part();
    if n <= i32::MAX {
        n as i32
    } else {
        i32::MAX
    }
}

/// The scale that brings strings to the target level.
pub open spec fn scale_of<F: Fn(Op) -> Single>(k: Arith<F>, sr: Single, res: Seq<Resonator>, target_rms: Single) -> Single {
    let square = total_square(k, res, loudness_window(k, sr), res.len() as int);
    k.over(target_rms, k.root(square).greater(number(N1E_9)))
}

/// The level that a strike aims at.
pub open spec fn strike_rms<F: Fn(Op) -> Single>(k: Arith<F>, s: Strike, p: ParamsState) -> Single {
    k.target_rms(s.velocity, p.loudness_db, s.una)
}

/// The voice of a strike.
pub open spec fn struck_voice<F: Fn(Op) -> Single>(k: Arith<F>, s: Strike, p: ParamsState, rng: u32) -> VoiceState {
    let target = strike_rms(k, s, p);
    let f0 = k.tuned(k.midi_note_freq(s.note), p.f0_cents);
    let ratio = k.detune_ratio(s.note, s.knobs.detune_scale);
    let res = strung(k, s, p, f0, ratio, rng, N_SLOTS as int).res;
    VoiceState {
        note: s.note,
        held: true,
        damper_blend: one(),
        glide_cents: k.strike_glide(s),
        tone: tone_of(k, s, p, target),
        res: padded(scaled(k, res, scale_of(k, s.sr, res, target))),
    }
}

/// Panning, swell, hammer noise and bed of a struck voice.
fn voicing<F: Fn(Op) -> Single>(k: &Arith<F>, s: Strike, p: &NoteParams, target_rms: Single) -> (t: Tone)
    ensures
        t == tone_of(*k, s, p@, target_rms),
{
    let rise: Single = k.rise_time(p.attack_ms, s.knobs.attack_scale);
    let noise_filter: Filter = k.biquad_lowpass(k.noise_cutoff(s.note, s.velocity), number(N0_9), s.sr);
    let bed_filter: Filter = k.biquad_lowpass(k.times(p.bed_centroid_hz, number(N0_6)), number(N1_2), s.sr);
    Tone {
        pan_l: k.cosine(k.pan_angle(s.note)),
        pan_r: k.sine(k.pan_angle(s.note)),
        attack_slow: zero(),
        attack_slow_coeff: k.over(one(), k.times(rise, s.sr)),
        attack_fast: zero(),
        attack_fast_coeff: k.over(one(), k.times(k.over(rise, number(N3)), s.sr)),
        noise_amp: k.strike_noise(s, target_rms),
        noise_decay: k.noise_decay(s.note, s.sr),
        noise_filter,
        noise_z: (zero(), zero()),
        bed_amp: k.times(k.times(target_rms, k.gain(p.bed_db)), s.knobs.bed_gain),
        bed_decay: k.decay_factor(number(N4), s.sr),
        bed_filter,
        bed_z: (zero(), zero()),
        bed_z2: (zero(), zero()),
        bed_y: (zero(), zero()),
        bed_y2: (zero(), zero()),
    }
}

/// How partial `n` is to sound.
fn shape<F: Fn(Op) -> Single>(k: &Arith<F>, s: Strike, p: &NoteParams, freq: Single, n: usize) -> (h: Shape)
    requires
        1 <= n <= N_SLOTS,
    ensures
        forall|f0: Single|
            freq == #[trigger] k.partial_freq(f0, p.b, n) ==> h == shape_of(*k, s, p@, f0, n as int),
{
    let fast: Single = k.times(p.decays_fast[n - 1], s.knobs.fast_scale).clamped(number(N0_3), number(N300));
    let amp_db: Single = k.plus(
        k.plus(p.amps_db[n - 1], k.tilt_db(s.velocity, n)),
        k.una_tilt_db(s.una, n),
    );
    assert(n as int as usize == n);
    Shape {
        freq,
        amp: k.power(number(N10), k.over(amp_db, number(N20))),
        fast,
        slow: p.decays_slow[n - 1].clamped(number(N0_3), fast),
        split: k.slow_share(p.slow_split[n - 1], k.split_cap(n, s.knobs.split_max), s.una),
    }
}

/// Adds the strings of a low partial to a voice. Returns the generator.
fn string_unison<F: Fn(Op) -> Single>(k: &Arith<F>, v: &mut Voice, s: Strike, ratio: Single, h: Shape, rng: u32) -> (next: u32)
    requires
        old(v).wf(),
    ensures
        final(v).wf(),
        final(v)@ == (VoiceState {
            res: (Strung { res: old(v)@.res, rng }).with_unison(*k, s, ratio, h).res,
            ..old(v)@
        }),
        next == (Strung { res: old(v)@.res, rng }).with_unison(*k, s, ratio, h).rng,
{
    let first: u32 = xorshift(rng);
    let phase: Single = k.draw_phase(first);
    v.push_resonator(k, s.sr, h.freq, k.times(h.amp, k.minus(one(), h.split)), phase, h.fast);
    let share: Single = if s.note >= TRICHORD_NOTE {
        number(N0_7)
    } else {
        one()
    };
    v.push_resonator(
        k,
        s.sr,
        k.plus(h.freq, number(N0_05)),
        k.times(k.times(h.amp, h.split), share),
        k.plus(phase, number(QUARTER)),
        h.slow,
    );
    if s.note >= TRICHORD_NOTE {
        let second: u32 = xorshift(first);
        let offset: Single = k.beat_offset(h.freq, ratio, second);
        let third: u32 = xorshift(second);
        v.push_resonator(
            k,
            s.sr,
            k.plus(h.freq, offset),
            k.times(k.times(h.amp, h.split), number(N0_3)),
            k.draw_phase(third),
            k.times(h.slow, number(N1_3)),
        );
        third
    } else {
        first
    }
}

/// Adds the strings of every partial to a voice.
fn string_all<F: Fn(Op) -> Single>(k: &Arith<F>, v: &mut Voice, s: Strike, p: &NoteParams, rng: u32)
    requires
        old(v).wf(),
        old(v)@.res.len() == 0,
    ensures
        final(v).wf(),
        final(v)@ == (VoiceState {
            res: strung(
                *k,
                s,
                p@,
                k.tuned(k.midi_note_freq(s.note), p.f0_cents),
                k.detune_ratio(s.note, s.knobs.detune_scale),
                rng,
                N_SLOTS as int,
            ).res,
            ..old(v)@
        }),
{
    let f0: Single = k.tuned(k.midi_note_freq(s.note), p.f0_cents);
    let ratio: Single = k.detune_ratio(s.note, s.knobs.detune_scale);
    let nyquist: Single = k.nyquist(s.sr);
    let ghost before = v@;
    let ghost ps = p@;
    assert(before.res =~= Seq::<Resonator>::empty());
    let mut next: u32 = rng;
    let mut over: bool = false;
    let mut n: usize = 1;
    while n <= N_SLOTS
        invariant
            1 <= n <= N_SLOTS + 1,
            v.wf(),
            ps == p@,
            nyquist == k.nyquist(s.sr),
            over == !carried(*k, s.sr, f0, ps.b, n - 1),
            v@ == (VoiceState { res: strung(*k, s, ps, f0, ratio, rng, n - 1).res, ..before }),
            next == strung(*k, s, ps, f0, ratio, rng, n - 1).rng,
        decreases N_SLOTS + 1 - n,
    {
        let freq: Single = k.partial_freq(f0, p.b, n);
        if !over && nyquist.is_at_most(freq) {
            over = true;
        }
        proof {
            lemma_carried_next(*k, s.sr, f0, ps.b, n);
        }
        if !over {
            let h: Shape = shape(k, s, p, freq, n);
            assert(freq == k.partial_freq(f0, p.b, n));
            assert(h == shape_of(*k, s, ps, f0, n as int));
            if n <= UNISON_PARTIALS {
                next = string_unison(k, v, s, ratio, h, next);
            } else {
                next = xorshift(next);
                v.push_resonator(k, s.sr, h.freq, h.amp, k.draw_phase(next), h.fast);
            }
        }
        n += 1;
    }
}

/// The scale that brings the strings of a voice to the target level.
fn level_scale<F: Fn(Op) -> Single>(k: &Arith<F>, v: &Voice, sr: Single, target_rms: Single) -> (scale: Single)
    requires
        v.wf(),
    ensures
        scale == scale_of(*k, sr, v@.res, target_rms),
{
    let whole: u64 = k.times(number(N0_4), sr).to_whole();
    let window: i32 = if whole > i32::MAX as u64 {
        i32::MAX
    } else {
        whole as i32
    };
    let n: usize = v.len();
    let mut sum: Single = zero();
    let mut i: usize = 0;
    while i < n
        invariant
            v.wf(),
            i <= n,
            n == v@.res.len(),
            sum == total_square(*k, v@.res, window, i as int),
        decreases n - i,
    {
        let r = v.resonator(i);
        sum = k.plus(sum, k.mean_square(r.re, r.im, r.decay, window));
        i += 1;
    }
    k.over(target_rms, k.root(sum).greater(number(N1E_9)))
}

/// Builds the voice of a strike: its strings with scrambled phases, brought to
/// the level that the strike aims at.
pub fn strike_voice<F: Fn(Op) -> Single>(k: &Arith<F>, s: Strike, p: &NoteParams, rng: u32) -> (v: Voice)
    ensures
        v.wf(),
        v.in_lanes(),
        v@ == struck_voice(*k, s, p@, rng),
{
    let target: Single = k.target_rms(s.velocity, p.loudness_db, s.una);
    let tone: Tone = voicing(k, s, p, target);
    let mut v = Voice::new(s.note, k.strike_glide(s), tone);
    string_all(k, &mut v, s, p, rng);
    let scale: Single = level_scale(k, &v, s.sr, target);
    v.scale(k, scale);
    v.pad();
    v
}

/// How many strings the first `n` partials can have.
pub open spec fn string_bound(n: int) -> int {
    if n <= UNISON_PARTIALS {
        3 * n
    } else {
        3 * UNISON_PARTIALS + (n - UNISON_PARTIALS)
    }
}

/// A voice has room for every string that a strike asks for.
pub proof fn every_string_fits<F: Fn(Op) -> Single>(
    k: Arith<F>,
    s: Strike,
    p: ParamsState,
    f0: Single,
    ratio: Single,
    rng: u32,
    n: int,
)
    requires
        0 <= n <= N_SLOTS,
    ensures
        strung(k, s, p, f0, ratio, rng, n).res.len() <= string_bound(n) < MAX_RES,
    decreases n,
{
    if n > 0 {
        every_string_fits(k, s, p, f0, ratio, rng, n - 1);
    }
}

/// No damper rests on any of the strings.
pub open spec fn all_open(res: Seq<Resonator>) -> bool {
    forall|i: int| 0 <= i < res.len() ==> (#[trigger] res[i]).damping == one()
}

proof fn lemma_with_keeps_open<F: Fn(Op) -> Single>(
    k: Arith<F>,
    t: Strung,
    sr: Single,
    freq: Single,
    amp: Single,
    phase: Single,
    decay: Single,
)
    requires
        all_open(t.res),
    ensures
        all_open(t.with(k, sr, freq, amp, phase, decay).res),
{
}

proof fn lemma_unison_keeps_open<F: Fn(Op) -> Single>(k: Arith<F>, t: Strung, s: Strike, ratio: Single, h: Shape)
    requires
        all_open(t.res),
    ensures
        all_open(t.with_unison(k, s, ratio, h).res),
{
}

proof fn lemma_strings_start_open<F: Fn(Op) -> Single>(
    k: Arith<F>,
    s: Strike,
    p: ParamsState,
    f0: Single,
    ratio: Single,
    rng: u32,
    n: int,
)
    ensures
        all_open(strung(k, s, p, f0, ratio, rng, n).res),
    decreases n,
{
    if n > 0 {
        lemma_strings_start_open(k, s, p, f0, ratio, rng, n - 1);
        let rest = strung(k, s, p, f0, ratio, rng, n - 1);
        if carried(k, s.sr, f0, p.b, n) {
            let h = shape_of(k, s, p, f0, n);
            if n <= UNISON_PARTIALS {
                lemma_unison_keeps_open(k, rest, s, ratio, h);
            } else {
                let first = rest.drawn();
                lemma_with_keeps_open(k, first, s.sr, h.freq, h.amp, k.draw_phase(first.rng), h.fast);
            }
        }
    }
}

/// A struck voice is held, no damper rests on its strings, and its strings
/// fill whole lanes.
pub proof fn strike_starts_open<F: Fn(Op) -> Single>(k: Arith<F>, s: Strike, p: ParamsState, rng: u32)
    ensures
        struck_voice(k, s, p, rng).held,
        struck_voice(k, s, p, rng).note == s.note,
        all_open(struck_voice(k, s, p, rng).res),
        struck_voice(k, s, p, rng).res.len() % 8 == 0,
        struck_voice(k, s, p, rng).res.len() <= MAX_RES,
{
    let f0 = k.tuned(k.midi_note_freq(s.note), p.f0_cents);
    let ratio = k.detune_ratio(s.note, s.knobs.detune_scale);
    lemma_strings_start_open(k, s, p, f0, ratio, rng, N_SLOTS as int);
    every_string_fits(k, s, p, f0, ratio, rng, N_SLOTS as int);
}

/// The mean of a decay over a window: the sum of the geometric series by the
/// length of the window, and one for a decay so slow that the sum could not be
/// told from it.
pub proof fn windows_average_decays<F: Fn(Op) -> Single>(k: Arith<F>, d2: Single, window: i32)
    ensures
        number(0x3F7F_FFEF).lt(d2) ==> k.spec_window_gain(d2, window) == one(),
        !number(0x3F7F_FFEF).lt(d2) ==> k.spec_window_gain(d2, window) == k.over(
            k.minus(one(), k.whole_power(d2, window)),
            k.times(k.whole(window as u64), k.minus(one(), d2)),
        ),
{
}

/// Loudness is measured over the first four tenths of a second, at whatever
/// sample rate.
pub proof fn loudness_is_measured_early<F: Fn(Op) -> Single>(k: Arith<F>, sr: Single)
    ensures
        k.times(number(0x3ECC_CCCD), sr).whole_part() <= i32::MAX ==> loudness_window(k, sr) == k.times(
            number(0x3ECC_CCCD),
            sr,
        ).whole_part(),
        k.times(number(0x3ECC_CCCD), sr).whole_part() > i32::MAX ==> loudness_window(k, sr) == i32::MAX,
{
}

/// Strings are brought to the level that the strike aims at, by the root of the
/// mean of their squares; all of them by the same factor.
pub proof fn strings_are_brought_to_level<F: Fn(Op) -> Single>(k: Arith<F>, s: Strike, p: ParamsState, rng: u32, i: int)
    requires
        ({
            let f0 = k.tuned(k.midi_note_freq(s.note), p.f0_cents);
            let ratio = k.detune_ratio(s.note, s.knobs.detune_scale);
            0 <= i < strung(k, s, p, f0, ratio, rng, N_SLOTS as int).res.len()
        }),
    ensures
        ({
            let f0 = k.tuned(k.midi_note_freq(s.note), p.f0_cents);
            let ratio = k.detune_ratio(s.note, s.knobs.detune_scale);
            let raw = strung(k, s, p, f0, ratio, rng, N_SLOTS as int).res;
            let square = total_square(k, raw, loudness_window(k, s.sr), raw.len() as int);
            let target = k.target_rms(s.velocity, p.loudness_db, s.una);
            let scale = k.over(target, k.root(square).greater(number(N1E_9)));
            let string = struck_voice(k, s, p, rng).res[i];
            &&& string.re == k.times(raw[i].re, scale)
            &&& string.im == k.times(raw[i].im, scale)
            &&& string == (Resonator { re: string.re, im: string.im, ..raw[i] })
        }),
{
}

/// How a partial is to sound, whichever it is: at the pitch of a stiff string, as
/// loud as measured and as the velocity and the hammers tilt it; with the hammers
/// shifted 1.6 times the slow share, but no more than nine tenths.
pub proof fn partials_sound_as_measured<F: Fn(Op) -> Single>(k: Arith<F>, s: Strike, p: ParamsState, f0: Single, n: int)
    requires
        1 <= n <= 150,
    ensures
        ({
            let h = shape_of(k, s, p, f0, n);
            let db = k.plus(
                k.plus(p.amps_db[n - 1], k.tilt_db(s.velocity, n as usize)),
                k.una_tilt_db(s.una, n as usize),
            );
            let plain = shape_of(k, Strike { una: false, ..s }, p, f0, n).split;
            let more = k.times(plain, number(0x3FCC_CCCD));
            &&& h.freq == k.partial_freq(f0, p.b, n as usize)
            &&& h.amp == k.power(number(0x4120_0000), k.over(db, number(0x41A0_0000)))
            &&& !s.una ==> h.split == plain
            &&& s.una && more.le(number(0x3F66_6666)) ==> h.split == more
            &&& s.una && number(0x3F66_6666).lt(more) ==> h.split == number(0x3F66_6666)
        }),
{
}

/// The strings of a low partial share it: the prompt one has what the slow share
/// leaves, and decays fast; the aftersound, a quarter turn away, has the slow
/// share, and decays slowly. Three-string notes, from 44 on, give three tenths of
/// that share to a third string, which decays 1.3 times as fast.
pub proof fn low_partials_have_unisons<F: Fn(Op) -> Single>(t: Strung, k: Arith<F>, s: Strike, ratio: Single, h: Shape)
    requires
        t.res.len() + 3 <= MAX_RES,
    ensures
        ({
            let n = t.res.len() as int;
            let after = t.with_unison(k, s, ratio, h);
            let first = spec_xorshift(t.rng);
            let phase = k.draw_phase(first);
            &&& after.res.take(n) == t.res
            &&& after.res[n] == string_of(k, s.sr, h.freq, k.times(h.amp, k.minus(one(), h.split)), phase, h.fast)
            &&& s.note < 44 ==> {
                &&& after.res.len() == n + 2
                &&& after.rng == first
                &&& after.res[n + 1] == string_of(
                    k,
                    s.sr,
                    k.plus(h.freq, number(0x3D4C_CCCD)),
                    k.times(k.times(h.amp, h.split), one()),
                    k.plus(phase, number(0x3FC9_0FDB)),
                    h.slow,
                )
            }
            &&& s.note >= 44 ==> {
                let second = spec_xorshift(first);
                let third = spec_xorshift(second);
                &&& after.res.len() == n + 3
                &&& after.rng == third
                &&& after.res[n + 1] == string_of(
                    k,
                    s.sr,
                    k.plus(h.freq, number(0x3D4C_CCCD)),
                    k.times(k.times(h.amp, h.split), number(0x3F33_3333)),
                    k.plus(phase, number(0x3FC9_0FDB)),
                    h.slow,
                )
                &&& after.res[n + 2] == string_of(
                    k,
                    s.sr,
                    k.plus(h.freq, k.beat_offset(h.freq, ratio, second)),
                    k.times(k.times(h.amp, h.split), number(0x3E99_999A)),
                    k.draw_phase(third),
                    k.times(h.slow, number(0x3FA6_6666)),
                )
            }
        }),
{
    let n = t.res.len() as int;
    assert(t.with_unison(k, s, ratio, h).res.take(n) =~= t.res);
}

/// The first sixteen partials have unisons, the others one string each, and the
/// first one that the sample rate cannot carry ends the series.
pub proof fn partials_are_strung_in_turn<F: Fn(Op) -> Single>(
    k: Arith<F>,
    s: Strike,
    p: ParamsState,
    f0: Single,
    ratio: Single,
    rng: u32,
    n: int,
)
    requires
        1 <= n <= 150,
    ensures
        ({
            let before = strung(k, s, p, f0, ratio, rng, n - 1);
            let after = strung(k, s, p, f0, ratio, rng, n);
            let h = shape_of(k, s, p, f0, n);
            let all_below = forall|j: int|
                1 <= j <= n ==> !k.nyquist(s.sr).le(#[trigger] k.partial_freq(f0, p.b, j as usize));
            &&& strung(k, s, p, f0, ratio, rng, 0).res.len() == 0
            &&& !all_below ==> after == before
            &&& all_below && n <= 16 ==> after == before.with_unison(k, s, ratio, h)
            &&& all_below && n > 16 ==> {
                let draw = spec_xorshift(before.rng);
                &&& after.rng == draw
                &&& before.res.len() < MAX_RES ==> after.res == before.res.push(
                    string_of(k, s.sr, h.freq, h.amp, k.draw_phase(draw), h.fast),
                )
            }
        }),
{
}

/// A string starts at its phase with its loudness, turns at its frequency, decays
/// by itself and has no felt on it.
pub proof fn strings_start_at_their_phase<F: Fn(Op) -> Single>(
    k: Arith<F>,
    sr: Single,
    freq: Single,
    amp: Single,
    phase: Single,
    decay: Single,
)
    ensures
        ({
            let r = string_of(k, sr, freq, amp, phase, decay);
            let w = k.over(k.times(number(0x40C9_0FDB), freq), sr);
            &&& r.re == k.times(amp, k.cosine(phase))
            &&& r.im == k.times(amp, k.sine(phase))
            &&& r.rot_re == k.cosine(w)
            &&& r.rot_im == k.sine(w)
            &&& r.base_w == w
            &&& r.decay == k.decay_factor(decay, sr)
            &&& r.damping == one()
        }),
{
}

/// How loud strings are: the mean of each one's square over the window, half the
/// square of its phasor by the mean of its decay, added up.
pub proof fn squares_add_up<F: Fn(Op) -> Single>(k: Arith<F>, res: Seq<Resonator>, window: i32, n: int)
    requires
        0 <= n < res.len(),
    ensures
        ({
            let r = res[n];
            let square = k.plus(k.times(r.re, r.re), k.times(r.im, r.im));
            &&& total_square(k, res, window, 0) == zero()
            &&& total_square(k, res, window, n + 1) == k.plus(
                total_square(k, res, window, n),
                k.times(k.over(square, number(0x4000_0000)), k.spec_window_gain(k.times(r.decay, r.decay), window)),
            )
        }),
{
}

} // verus!
