//! Modal synthesis v1: each note is a bank of exponentially decaying
//! inharmonic partials, the physically correct skeleton of a piano tone.
//!
//! Per-note parameters come from smooth heuristic curves anchored to published
//! piano data. Each partial is a complex phasor rotated and scaled by a decay
//! factor per sample: numerically stable and cheap.

use crate::arith::{Arith, Op};
use crate::bank::carried;
use crate::constant::{
    N0_01, N0_12, N0_25, N0_35, N0_5, N0_7, N108, N1E_12, N1E_4, N1_2, N1_5, N21, N2_8, N2_8E_4, N40, N4000, N60, PI,
    QUARTER,
};
use crate::events::EventKind;
use crate::number::{Single, is_on, number, one, spec_is_on, zero};
use crate::quietest::{find_quietest, quietest, without_quietest};
use crate::synth::{Synth, silence};
use vstd::prelude::*;

verus! {

/// How many voices sound at most.
pub const MAX_VOICES: usize = 40;

/// Partials of a note.
pub const MAX_PARTIALS: usize = 28;

/// One partial: a phasor, its rotation and its decay per sample.
#[derive(Clone, Copy, Debug, PartialEq, Eq, Structural)]
pub struct Partial {
    pub re: Single,
    pub im: Single,
    pub rot_re: Single,
    pub rot_im: Single,
    pub decay: Single,
}

/// A sounding note.
#[derive(Clone, Copy)]
pub struct PlainVoice {
    note: u8,
    held: bool,
    /// Extra decay per sample while the damper is on the string.
    damping: Single,
    pan_l: Single,
    pan_r: Single,
    n: usize,
    partials: [Partial; 28],
}

/// What a voice is, its partials as a sequence.
#[verifier::ext_equal]
pub struct PlainState {
    pub note: u8,
    pub held: bool,
    pub damping: Single,
    pub pan_l: Single,
    pub pan_r: Single,
    pub partials: Seq<Partial>,
}

impl View for PlainVoice {
    type V = PlainState;

    closed spec fn view(&self) -> PlainState {
        PlainState {
            note: self.note,
            held: self.held,
            damping: self.damping,
            pan_l: self.pan_l,
            pan_r: self.pan_r,
            partials: self.partials@.subrange(0, self.n as int),
        }
    }
}

impl<F: Fn(Op) -> Single> Arith<F> {
    /// Inharmonicity of a note, by its logarithm through three anchors.
    pub open spec fn spec_inharmonicity(&self, note: u8) -> Single {
        if note < 60 {
            self.anchored(note, number(N21), number(N1E_4), number(N60), number(N2_8E_4))
        } else {
            self.anchored(note, number(N60), number(N2_8E_4), number(N108), number(N0_01))
        }
    }

    /// Inharmonicity of a note.
    #[verifier::when_used_as_spec(spec_inharmonicity)]
    pub fn inharmonicity(&self, note: u8) -> (r: Single)
        ensures
            r == self.spec_inharmonicity(note),
    {
        if note < 60 {
            self.anchored(note, number(N21), number(N1E_4), number(N60), number(N2_8E_4))
        } else {
            self.anchored(note, number(N60), number(N2_8E_4), number(N108), number(N0_01))
        }
    }

    /// A value between two anchors, by its logarithm, clamped at the ends.
    #[verifier::allow_in_spec]
    pub fn anchored(&self, note: u8, from: Single, a: Single, to: Single, b: Single) -> Single
        returns
            self.exp(
                self.mix(
                    self.ln(a),
                    self.ln(b),
                    self.over(
                        self.minus(self.whole(note as u64), from),
                        self.minus(to, from),
                    ).clamped(zero(), one()),
                ),
            ),
    {
        let t: Single = self.over(self.minus(self.whole(note as u64), from), self.minus(to, from)).clamped(zero(), one());
        self.exp(self.mix(self.ln(a), self.ln(b), t))
    }

    /// Decay rate of the fundamental in decibels per second: bass notes ring
    /// for tens of seconds, top notes die in under a second.
    #[verifier::allow_in_spec]
    pub fn base_decay_db_s(&self, note: u8) -> Single
        returns
            self.times(number(N1_5), self.power(number(N40), self.keyboard_pos(note))),
    {
        self.times(number(N1_5), self.power(number(N40), self.keyboard_pos(note)))
    }

    /// The starting amplitude of partial `n`: a rolloff that hard strikes
    /// flatten, shaped by the comb of the strike point.
    #[verifier::allow_in_spec]
    pub fn plain_amp(&self, velocity: u8, n: usize) -> Single
        returns
            self.over(
                self.times(
                    self.times(number(N0_35), self.velocity_share(velocity)),
                    self.sine(self.times(self.times(number(PI), self.whole(n as u64)), number(N0_12))).absolute(),
                ),
                self.power(
                    self.whole(n as u64),
                    self.minus(number(N2_8), self.times(number(N1_2), self.velocity_share(velocity))),
                ),
            ),
    {
        let nf: Single = self.whole(n as u64);
        let vel: Single = self.velocity_share(velocity);
        let comb: Single = self.sine(self.times(self.times(number(PI), nf), number(N0_12))).absolute();
        let rolloff: Single = self.minus(number(N2_8), self.times(number(N1_2), vel));
        self.over(self.times(self.times(number(N0_35), vel), comb), self.power(nf, rolloff))
    }

    /// The decay of partial `n`: higher partials decay faster.
    #[verifier::allow_in_spec]
    pub fn plain_decay(&self, note: u8, freq: Single, n: usize, sr: Single) -> Single
        returns
            self.decay_factor(
                self.times(
                    self.base_decay_db_s(note),
                    self.plus(
                        self.plus(
                            one(),
                            self.times(number(N0_12), self.minus(self.whole(n as u64), one())),
                        ),
                        self.times(number(N0_7), self.over(freq, number(N4000))),
                    ),
                ),
                sr,
            ),
    {
        let faster: Single = self.plus(
            self.plus(one(), self.times(number(N0_12), self.minus(self.whole(n as u64), one()))),
            self.times(number(N0_7), self.over(freq, number(N4000))),
        );
        self.decay_factor(self.times(self.base_decay_db_s(note), faster), sr)
    }

    /// The pan angle of a note, equal power by keyboard position.
    #[verifier::allow_in_spec]
    pub fn plain_angle(&self, note: u8) -> Single
        returns
            self.times(
                self.plus(number(N0_25), self.times(number(N0_5), self.keyboard_pos(note))),
                number(QUARTER),
            ),
    {
        self.times(
            self.plus(number(N0_25), self.times(number(N0_5), self.keyboard_pos(note))),
            number(QUARTER),
        )
    }
}

/// Partial `n` of a struck note, starting at phase zero.
pub open spec fn plain_partial<F: Fn(Op) -> Single>(k: Arith<F>, sr: Single, note: u8, velocity: u8, n: int) -> Partial {
    let freq = k.partial_freq(k.midi_note_freq(note), k.inharmonicity(note), n as usize);
    let w = k.angular_step(freq, sr);
    Partial {
        re: k.plain_amp(velocity, n as usize),
        im: zero(),
        rot_re: k.cosine(w),
        rot_im: k.sine(w),
        decay: k.plain_decay(note, freq, n as usize, sr),
    }
}

/// The first `n` partials of a struck note; the first one that the sample rate
/// cannot carry ends the series.
pub open spec fn plain_partials<F: Fn(Op) -> Single>(k: Arith<F>, sr: Single, note: u8, velocity: u8, n: int) -> Seq<Partial>
    decreases n,
{
    if n <= 0 {
        Seq::empty()
    } else if carried(k, sr, k.midi_note_freq(note), k.inharmonicity(note), n) {
        plain_partials(k, sr, note, velocity, n - 1).push(plain_partial(k, sr, note, velocity, n))
    } else {
        plain_partials(k, sr, note, velocity, n - 1)
    }
}

/// The voice of a struck note.
pub open spec fn plain_voice<F: Fn(Op) -> Single>(k: Arith<F>, sr: Single, note: u8, velocity: u8) -> PlainState {
    PlainState {
        note,
        held: true,
        damping: one(),
        pan_l: k.cosine(k.plain_angle(note)),
        pan_r: k.sine(k.plain_angle(note)),
        partials: plain_partials(k, sr, note, velocity, MAX_PARTIALS as int),
    }
}

/// The loudness of the first `n` partials.
pub open spec fn plain_energy<F: Fn(Op) -> Single>(k: Arith<F>, partials: Seq<Partial>, n: int) -> Single
    decreases n,
{
    if n <= 0 {
        zero()
    } else {
        k.plus(plain_energy(k, partials, n - 1), k.loudness(partials[n - 1].re, partials[n - 1].im))
    }
}

/// The output of the first `n` partials.
pub open spec fn plain_sum<F: Fn(Op) -> Single>(k: Arith<F>, partials: Seq<Partial>, n: int) -> Single
    decreases n,
{
    if n <= 0 {
        zero()
    } else {
        k.plus(plain_sum(k, partials, n - 1), partials[n - 1].im)
    }
}

/// A partial one sample on.
pub open spec fn plain_turned<F: Fn(Op) -> Single>(k: Arith<F>, p: Partial, damping: Single) -> Partial {
    let scale = k.times(p.decay, damping);
    Partial {
        re: k.times(k.minus(k.times(p.re, p.rot_re), k.times(p.im, p.rot_im)), scale),
        im: k.times(k.plus(k.times(p.re, p.rot_im), k.times(p.im, p.rot_re)), scale),
        ..p
    }
}

impl PlainState {
    /// How loud the voice is.
    pub open spec fn energy<F: Fn(Op) -> Single>(self, k: Arith<F>) -> Single {
        plain_energy(k, self.partials, self.partials.len() as int)
    }

    /// The output of the voice, before panning.
    pub open spec fn output<F: Fn(Op) -> Single>(self, k: Arith<F>) -> Single {
        plain_sum(k, self.partials, self.partials.len() as int)
    }

    /// The voice one sample on.
    pub open spec fn next<F: Fn(Op) -> Single>(self, k: Arith<F>) -> PlainState {
        PlainState {
            partials: Seq::new(self.partials.len(), |i: int| plain_turned(k, self.partials[i], self.damping)),
            ..self
        }
    }

    /// The voice after `n` samples.
    pub open spec fn after<F: Fn(Op) -> Single>(self, k: Arith<F>, n: int) -> PlainState
        decreases n,
    {
        if n <= 0 {
            self
        } else {
            self.after(k, n - 1).next(k)
        }
    }

    /// Left samples with the voice added.
    pub open spec fn over_left<F: Fn(Op) -> Single>(self, k: Arith<F>, left: Seq<Single>) -> Seq<Single> {
        Seq::new(left.len(), |i: int| k.plus(left[i], k.times(self.after(k, i).output(k), self.pan_l)))
    }

    /// Right samples with the voice added.
    pub open spec fn over_right<F: Fn(Op) -> Single>(self, k: Arith<F>, right: Seq<Single>) -> Seq<Single> {
        Seq::new(right.len(), |i: int| k.plus(right[i], k.times(self.after(k, i).output(k), self.pan_r)))
    }
}

/// How loud each voice is.
pub open spec fn energies<F: Fn(Op) -> Single>(k: Arith<F>, voices: Seq<PlainState>) -> Seq<Single> {
    voices.map_values(|v: PlainState| v.energy(k))
}

/// The voices with room for one more: where there are as many as there can be,
/// the quietest gives way to the last.
pub open spec fn with_room<F: Fn(Op) -> Single>(k: Arith<F>, voices: Seq<PlainState>) -> Seq<PlainState> {
    if voices.len() >= MAX_VOICES {
        without_quietest(voices, energies(k, voices))
    } else {
        voices
    }
}

/// Those of the first `n` voices that can still be heard.
pub open spec fn sounding<F: Fn(Op) -> Single>(k: Arith<F>, voices: Seq<PlainState>, n: int) -> Seq<PlainState>
    decreases n,
{
    if n <= 0 {
        Seq::empty()
    } else if number(N1E_12).lt(voices[n - 1].energy(k)) {
        sounding(k, voices, n - 1).push(voices[n - 1])
    } else {
        sounding(k, voices, n - 1)
    }
}

/// The synthesizer.
pub struct ModalSynth<F: Fn(Op) -> Single> {
    k: Arith<F>,
    sr: Single,
    voices: Vec<PlainVoice>,
    sustain: bool,
}

/// Everything that decides how the synthesizer goes on.
#[verifier::ext_equal]
pub struct PlainSynthState<F: Fn(Op) -> Single> {
    pub k: Arith<F>,
    pub sr: Single,
    pub voices: Seq<PlainState>,
    pub sustain: bool,
}

impl<F: Fn(Op) -> Single> View for ModalSynth<F> {
    type V = PlainSynthState<F>;

    closed spec fn view(&self) -> PlainSynthState<F> {
        PlainSynthState {
            k: self.k,
            sr: self.sr,
            voices: self.voices@.map_values(|v: PlainVoice| v@),
            sustain: self.sustain,
        }
    }
}

/// A voice whose key is let go: the damper falls unless the pedal holds it.
pub open spec fn let_go<F: Fn(Op) -> Single>(k: Arith<F>, sr: Single, note: u8, sustain: bool, v: PlainState) -> PlainState {
    if v.note == note && v.held {
        PlainState {
            held: false,
            damping: if sustain {
                v.damping
            } else {
                k.damper_factor(v.note, sr)
            },
            ..v
        }
    } else {
        v
    }
}

/// A voice with the pedal gone down or up.
pub open spec fn pedaled<F: Fn(Op) -> Single>(k: Arith<F>, sr: Single, down: bool, v: PlainState) -> PlainState {
    if v.held {
        v
    } else {
        PlainState {
            damping: if down {
                one()
            } else {
                k.damper_factor(v.note, sr)
            },
            ..v
        }
    }
}

impl<F: Fn(Op) -> Single> PlainSynthState<F> {
    /// After a note has been struck.
    pub open spec fn struck(self, note: u8, velocity: u8) -> PlainSynthState<F> {
        PlainSynthState {
            voices: with_room(self.k, self.voices).push(plain_voice(self.k, self.sr, note, velocity)),
            ..self
        }
    }

    /// After a key has been let go.
    pub open spec fn let_go(self, note: u8) -> PlainSynthState<F> {
        PlainSynthState {
            voices: self.voices.map_values(|v: PlainState| let_go(self.k, self.sr, note, self.sustain, v)),
            ..self
        }
    }

    /// After the pedal has moved; only passing the middle matters.
    pub open spec fn pedal(self, position: Single) -> PlainSynthState<F> {
        let down = spec_is_on(position);
        if down == self.sustain {
            self
        } else {
            PlainSynthState {
                sustain: down,
                voices: self.voices.map_values(|v: PlainState| pedaled(self.k, self.sr, down, v)),
                ..self
            }
        }
    }

    /// The left samples after the first `m` voices.
    pub open spec fn mix_left(self, n: nat, m: int) -> Seq<Single>
        decreases m,
    {
        if m <= 0 {
            Seq::new(n, |i: int| zero())
        } else {
            self.voices[m - 1].over_left(self.k, self.mix_left(n, m - 1))
        }
    }

    /// The right samples after the first `m` voices.
    pub open spec fn mix_right(self, n: nat, m: int) -> Seq<Single>
        decreases m,
    {
        if m <= 0 {
            Seq::new(n, |i: int| zero())
        } else {
            self.voices[m - 1].over_right(self.k, self.mix_right(n, m - 1))
        }
    }

    /// After a block of `n` frames; voices that have died away are dropped.
    pub open spec fn played(self, n: nat) -> PlainSynthState<F> {
        PlainSynthState {
            voices: sounding(
                self.k,
                self.voices.map_values(|v: PlainState| v.after(self.k, n as int)),
                self.voices.len() as int,
            ),
            ..self
        }
    }

    /// The damper of every voice is up exactly while its key is held or the
    /// pedal is down.
    pub open spec fn consistent(self) -> bool {
        &&& self.voices.len() <= MAX_VOICES
        &&& forall|i: int|
            0 <= i < self.voices.len() ==> (#[trigger] self.voices[i]).damping == (if self.voices[i].held
                || self.sustain {
                one()
            } else {
                self.k.damper_factor(self.voices[i].note, self.sr)
            })
    }
}

proof fn lemma_after_keeps<F: Fn(Op) -> Single>(k: Arith<F>, v: PlainState, n: int)
    ensures
        v.after(k, n).note == v.note,
        v.after(k, n).held == v.held,
        v.after(k, n).damping == v.damping,
        v.after(k, n).pan_l == v.pan_l,
        v.after(k, n).pan_r == v.pan_r,
        v.after(k, n).partials.len() == v.partials.len(),
    decreases n,
{
    if n > 0 {
        lemma_after_keeps(k, v, n - 1);
    }
}

proof fn lemma_sounding<F: Fn(Op) -> Single>(k: Arith<F>, voices: Seq<PlainState>, n: int)
    requires
        0 <= n <= voices.len(),
    ensures
        sounding(k, voices, n).len() <= n,
        forall|i: int|
            0 <= i < sounding(k, voices, n).len() ==> voices.contains(#[trigger] sounding(k, voices, n)[i]),
    decreases n,
{
    if n > 0 {
        lemma_sounding(k, voices, n - 1);
    }
}

/// Playing leaves every damper where it is, and drops voices only.
pub proof fn playing_is_consistent<F: Fn(Op) -> Single>(s: PlainSynthState<F>, n: nat)
    requires
        s.consistent(),
    ensures
        s.played(n).consistent(),
{
    let aged = s.voices.map_values(|v: PlainState| v.after(s.k, n as int));
    lemma_sounding(s.k, aged, aged.len() as int);
    let t = s.played(n);
    assert forall|i: int| 0 <= i < t.voices.len() implies (#[trigger] t.voices[i]).damping == (if t.voices[i].held
        || t.sustain {
        one()
    } else {
        t.k.damper_factor(t.voices[i].note, t.sr)
    }) by {
        assert(aged.contains(t.voices[i]));
        let j = choose|j: int| 0 <= j < aged.len() && aged[j] == t.voices[i];
        lemma_after_keeps(s.k, s.voices[j], n as int);
        assert(s.voices[j].damping == (if s.voices[j].held || s.sustain {
            one()
        } else {
            s.k.damper_factor(s.voices[j].note, s.sr)
        }));
    }
}

impl PlainVoice {
    closed spec fn wf(self) -> bool {
        self.n <= MAX_PARTIALS
    }

    fn energy<F: Fn(Op) -> Single>(&self, k: &Arith<F>) -> (e: Single)
        requires
            self.wf(),
        ensures
            e == self@.energy(*k),
    {
        let mut e: Single = zero();
        let mut i: usize = 0;
        while i < self.n
            invariant
                self.wf(),
                i <= self.n,
                e == plain_energy(*k, self@.partials, i as int),
            decreases self.n - i,
        {
            let p = self.partials[i];
            assert(self@.partials[i as int] == p);
            e = k.plus(e, k.loudness(p.re, p.im));
            i += 1;
        }
        e
    }

    /// The voice of a struck note.
    fn strike<F: Fn(Op) -> Single>(k: &Arith<F>, sr: Single, note: u8, velocity: u8) -> (v: PlainVoice)
        ensures
            v.wf(),
            v@ == plain_voice(*k, sr, note, velocity),
    {
        let f0: Single = k.midi_note_freq(note);
        let b: Single = k.inharmonicity(note);
        let nyquist: Single = k.nyquist(sr);
        let idle = Partial { re: zero(), im: zero(), rot_re: one(), rot_im: zero(), decay: one() };
        let mut partials: [Partial; 28] = [idle; 28];
        let mut count: usize = 0;
        let mut over: bool = false;
        let mut n: usize = 1;
        assert(partials@.subrange(0, 0) =~= Seq::<Partial>::empty());
        while n <= MAX_PARTIALS
            invariant
                1 <= n <= MAX_PARTIALS + 1,
                count < n,
                f0 == k.midi_note_freq(note),
                b == k.inharmonicity(note),
                nyquist == k.nyquist(sr),
                over == !carried(*k, sr, f0, b, n - 1),
                partials@.subrange(0, count as int) == plain_partials(*k, sr, note, velocity, n - 1),
            decreases MAX_PARTIALS + 1 - n,
        {
            let freq: Single = k.partial_freq(f0, b, n);
            if !over && nyquist.is_at_most(freq) {
                over = true;
            }
            proof {
                crate::bank::lemma_carried_next(*k, sr, f0, b, n);
            }
            if !over {
                let w: Single = k.angular_step(freq, sr);
                let p = Partial {
                    re: k.plain_amp(velocity, n),
                    im: zero(),
                    rot_re: k.cosine(w),
                    rot_im: k.sine(w),
                    decay: k.plain_decay(note, freq, n, sr),
                };
                let ghost earlier = partials@;
                partials[count] = p;
                count += 1;
                assert(n as int as usize == n);
                assert(p == plain_partial(*k, sr, note, velocity, n as int));
                assert(partials@.subrange(0, count as int) =~= earlier.subrange(0, count - 1).push(p));
            }
            n += 1;
        }
        PlainVoice {
            note,
            held: true,
            damping: one(),
            pan_l: k.cosine(k.plain_angle(note)),
            pan_r: k.sine(k.plain_angle(note)),
            n: count,
            partials,
        }
    }

    /// The voice one sample on; returns its output.
    fn frame<F: Fn(Op) -> Single>(&mut self, k: &Arith<F>) -> (sum: Single)
        requires
            old(self).wf(),
        ensures
            final(self).wf(),
            final(self)@ == old(self)@.next(*k),
            sum == old(self)@.output(*k),
    {
        let ghost before = self@;
        let mut sum: Single = zero();
        let mut i: usize = 0;
        while i < self.n
            invariant
                self.wf(),
                i <= self.n,
                self.n == before.partials.len(),
                self@ == (PlainState { partials: self@.partials, ..before }),
                sum == plain_sum(*k, before.partials, i as int),
                forall|j: int|
                    0 <= j < i ==> #[trigger] self.partials@[j] == plain_turned(*k, before.partials[j], before.damping),
                forall|j: int| i <= j < self.n ==> #[trigger] self.partials@[j] == before.partials[j],
            decreases self.n - i,
        {
            let p: Partial = self.partials[i];
            sum = k.plus(sum, p.im);
            let scale: Single = k.times(p.decay, self.damping);
            self.partials[i] = Partial {
                re: k.times(k.minus(k.times(p.re, p.rot_re), k.times(p.im, p.rot_im)), scale),
                im: k.times(k.plus(k.times(p.re, p.rot_im), k.times(p.im, p.rot_re)), scale),
                ..p
            };
            i += 1;
        }
        assert(self@.partials =~= before.next(*k).partials);
        sum
    }

    /// Adds a block of the voice to the samples.
    fn process<F: Fn(Op) -> Single>(&mut self, k: &Arith<F>, left: &mut [Single], right: &mut [Single])
        requires
            old(self).wf(),
            old(left)@.len() == old(right)@.len(),
        ensures
            final(self).wf(),
            final(self)@ == old(self)@.after(*k, old(left)@.len() as int),
            final(left)@ == old(self)@.over_left(*k, old(left)@),
            final(right)@ == old(self)@.over_right(*k, old(right)@),
    {
        let ghost before = self@;
        let ghost left0 = left@;
        let ghost right0 = right@;
        let n: usize = left.len();
        let mut i: usize = 0;
        while i < n
            invariant
                self.wf(),
                i <= n,
                n == left0.len(),
                n == right0.len(),
                left@.len() == n,
                right@.len() == n,
                self@ == before.after(*k, i as int),
                forall|j: int| 0 <= j < i ==> #[trigger] left@[j] == before.over_left(*k, left0)[j],
                forall|j: int| 0 <= j < i ==> #[trigger] right@[j] == before.over_right(*k, right0)[j],
                forall|j: int| i <= j < n ==> #[trigger] left@[j] == left0[j],
                forall|j: int| i <= j < n ==> #[trigger] right@[j] == right0[j],
            decreases n - i,
        {
            proof {
                lemma_after_keeps(*k, before, i as int);
                lemma_after_keeps(*k, before, i + 1);
            }
            let sum: Single = self.frame(k);
            left[i] = k.plus(left[i], k.times(sum, self.pan_l));
            right[i] = k.plus(right[i], k.times(sum, self.pan_r));
            i += 1;
        }
        assert(left@ =~= before.over_left(*k, left0));
        assert(right@ =~= before.over_right(*k, right0));
    }
}

impl<F: Fn(Op) -> Single> ModalSynth<F> {
    closed spec fn wf(&self) -> bool {
        &&& self@.consistent()
        &&& forall|i: int| 0 <= i < self.voices@.len() ==> (#[trigger] self.voices@[i]).wf()
    }

    /// What a synthesizer in use keeps.
    pub proof fn lemma_ready(&self)
        requires
            self.ready(),
        ensures
            self@.consistent(),
    {
    }

    /// A silent synthesizer. Room for all voices is made at once, so that no
    /// note allocates.
    pub fn new(k: Arith<F>, sr: Single) -> (r: ModalSynth<F>)
        ensures
            r.ready(),
            r@ == (PlainSynthState { k, sr, voices: Seq::empty(), sustain: false }),
    {
        let r = ModalSynth { k, sr, voices: Vec::with_capacity(MAX_VOICES), sustain: false };
        assert(r@.voices =~= Seq::<PlainState>::empty());
        r
    }

    /// How many voices sound.
    pub fn voice_count(&self) -> (n: usize)
        ensures
            n == self@.voices.len(),
    {
        self.voices.len()
    }

    /// The quietest voice.
    fn pick_quietest(&self) -> (i: usize)
        requires
            self.wf(),
            self@.voices.len() > 0,
        ensures
            i < self@.voices.len(),
            i == quietest(energies(self@.k, self@.voices)),
    {
        let n: usize = self.voices.len();
        let mut levels: [Single; 40] = [zero(); 40];
        let mut i: usize = 0;
        while i < n
            invariant
                self.wf(),
                i <= n <= MAX_VOICES,
                n == self.voices@.len(),
                forall|j: int| 0 <= j < i ==> #[trigger] levels@[j] == energies(self@.k, self@.voices)[j],
            decreases n - i,
        {
            assert(self.voices@[i as int].wf());
            levels[i] = self.voices[i].energy(&self.k);
            i += 1;
        }
        assert(levels@.take(n as int) =~= energies(self@.k, self@.voices));
        find_quietest(levels.as_slice(), n)
    }

    fn retain(&mut self)
        requires
            forall|i: int| 0 <= i < old(self).voices@.len() ==> (#[trigger] old(self).voices@[i]).wf(),
        ensures
            forall|i: int| 0 <= i < final(self).voices@.len() ==> (#[trigger] final(self).voices@[i]).wf(),
            final(self)@ == (PlainSynthState {
                voices: sounding(old(self)@.k, old(self)@.voices, old(self)@.voices.len() as int),
                ..old(self)@
            }),
    {
        let ghost before = self@;
        let n: usize = self.voices.len();
        let mut keep: usize = 0;
        let mut i: usize = 0;
        while i < n
            invariant
                forall|i: int| 0 <= i < self.voices@.len() ==> (#[trigger] self.voices@[i]).wf(),
                keep <= i <= n,
                n == self.voices@.len(),
                n == before.voices.len(),
                self@ == (PlainSynthState { voices: self@.voices, ..before }),
                self@.voices.subrange(0, keep as int) == sounding(before.k, before.voices, i as int),
                forall|j: int| i <= j < n ==> #[trigger] self@.voices[j] == before.voices[j],
            decreases n - i,
        {
            let ghost mid = self@.voices;
            assert(self.voices@[i as int].wf());
            assert(self.voices@[i as int]@ == mid[i as int]);
            if number(N1E_12).is_below(self.voices[i].energy(&self.k)) {
                let v: PlainVoice = self.voices[i];
                self.voices[keep] = v;
                keep += 1;
                assert(self@.voices =~= mid.update(keep - 1, v@));
                assert(self@.voices.subrange(0, keep as int) =~= mid.subrange(0, keep - 1).push(v@));
            }
            i += 1;
        }
        let ghost last = self@.voices;
        self.voices.truncate(keep);
        assert(self@.voices =~= last.subrange(0, keep as int));
    }
}

impl<F: Fn(Op) -> Single> Synth<Single> for ModalSynth<F> {
    type Model = PlainSynthState<F>;

    open spec fn model(&self) -> PlainSynthState<F> {
        self@
    }

    closed spec fn ready(&self) -> bool {
        self.wf()
    }

    open spec fn takes(note: u8) -> bool {
        true
    }

    open spec fn told(m: PlainSynthState<F>, kind: EventKind) -> PlainSynthState<F> {
        match kind {
            EventKind::NoteOn { note, velocity } => m.struck(note, velocity),
            EventKind::NoteOff { note } => m.let_go(note),
            EventKind::Sustain { position } => m.pedal(position),
            EventKind::Control { .. } => m,
        }
    }

    open spec fn played(m: PlainSynthState<F>, n: nat) -> PlainSynthState<F> {
        m.played(n)
    }

    open spec fn sounded(m: PlainSynthState<F>, n: nat) -> (Seq<Single>, Seq<Single>) {
        (m.mix_left(n, m.voices.len() as int), m.mix_right(n, m.voices.len() as int))
    }

    fn note_on(&mut self, note: u8, velocity: u8) {
        let ghost before = self@;
        let ghost list = self.voices@;
        if self.voices.len() >= MAX_VOICES {
            let i = self.pick_quietest();
            let _ = self.voices.swap_remove(i);
            assert forall|j: int| 0 <= j < self.voices@.len() implies (#[trigger] self.voices@[j]).wf() by {
                assert(list[j].wf());
                assert(list[list.len() - 1].wf());
            }
            assert(self@.voices =~= with_room(before.k, before.voices));
        }
        let ghost room = self@.voices;
        let v: PlainVoice = PlainVoice::strike(&self.k, self.sr, note, velocity);
        self.voices.push(v);
        assert(self@.voices =~= room.push(v@));
        assert(self@ =~= before.struck(note, velocity));
        assert forall|i: int| 0 <= i < self@.voices.len() implies (#[trigger] self@.voices[i]).damping == (if self@.voices[i].held
            || self@.sustain {
            one()
        } else {
            self@.k.damper_factor(self@.voices[i].note, self@.sr)
        }) by {
            if i < room.len() {
                assert(self@.voices[i] == room[i]);
                assert(before.voices.contains(room[i])) by {
                    if before.voices.len() >= MAX_VOICES {
                        assert(before.voices[i] == before.voices[i]);
                        assert(before.voices.last() == before.voices[before.voices.len() - 1]);
                    }
                }
                let j = choose|j: int| 0 <= j < before.voices.len() && before.voices[j] == room[i];
                assert(before.voices[j].damping == (if before.voices[j].held || before.sustain {
                    one()
                } else {
                    before.k.damper_factor(before.voices[j].note, before.sr)
                }));
            }
        }
    }

    fn note_off(&mut self, note: u8) {
        let ghost before = self@;
        let mut i: usize = 0;
        while i < self.voices.len()
            invariant
                forall|i: int| 0 <= i < self.voices@.len() ==> (#[trigger] self.voices@[i]).wf(),
                i <= self.voices@.len(),
                self@.voices.len() == before.voices.len(),
                self@ == (PlainSynthState { voices: self@.voices, ..before }),
                forall|j: int|
                    0 <= j < i ==> #[trigger] self@.voices[j] == let_go(
                        before.k,
                        before.sr,
                        note,
                        before.sustain,
                        before.voices[j],
                    ),
                forall|j: int| i <= j < before.voices.len() ==> #[trigger] self@.voices[j] == before.voices[j],
            decreases self.voices@.len() - i,
        {
            let ghost mid = self@.voices;
            assert(self.voices@[i as int].wf());
            assert(self.voices@[i as int]@ == mid[i as int]);
            let mut v: PlainVoice = self.voices[i];
            if v.note == note && v.held {
                v.held = false;
                if !self.sustain {
                    v.damping = self.k.damper_factor(note, self.sr);
                }
                self.voices[i] = v;
            }
            assert(self@.voices =~= mid.update(
                i as int,
                let_go(before.k, before.sr, note, before.sustain, before.voices[i as int]),
            ));
            i += 1;
        }
        assert(self@ =~= before.let_go(note));
    }

    fn set_sustain(&mut self, position: Single) {
        let ghost before = self@;
        let down: bool = is_on(position);
        if down == self.sustain {
            return;
        }
        self.sustain = down;
        let mut i: usize = 0;
        while i < self.voices.len()
            invariant
                forall|i: int| 0 <= i < self.voices@.len() ==> (#[trigger] self.voices@[i]).wf(),
                i <= self.voices@.len(),
                self@.voices.len() == before.voices.len(),
                self@ == (PlainSynthState { voices: self@.voices, sustain: down, ..before }),
                forall|j: int|
                    0 <= j < i ==> #[trigger] self@.voices[j] == pedaled(before.k, before.sr, down, before.voices[j]),
                forall|j: int| i <= j < before.voices.len() ==> #[trigger] self@.voices[j] == before.voices[j],
            decreases self.voices@.len() - i,
        {
            let ghost mid = self@.voices;
            assert(self.voices@[i as int].wf());
            assert(self.voices@[i as int]@ == mid[i as int]);
            let mut v: PlainVoice = self.voices[i];
            if !v.held {
                v.damping = if down {
                    one()
                } else {
                    self.k.damper_factor(v.note, self.sr)
                };
                self.voices[i] = v;
            }
            assert(self@.voices =~= mid.update(
                i as int,
                pedaled(before.k, before.sr, down, before.voices[i as int]),
            ));
            i += 1;
        }
        assert(self@ =~= before.pedal(position));
    }

    fn set_control(&mut self, controller: u8, value: Single) {
    }

    fn process(&mut self, left: &mut [Single], right: &mut [Single]) {
        let ghost before = self@;
        proof {
            playing_is_consistent(before, left@.len());
        }
        let n: usize = left.len();
        silence(left);
        silence(right);
        let mut m: usize = 0;
        while m < self.voices.len()
            invariant
                forall|i: int| 0 <= i < self.voices@.len() ==> (#[trigger] self.voices@[i]).wf(),
                m <= self.voices@.len(),
                left@.len() == n,
                right@.len() == n,
                self@.voices.len() == before.voices.len(),
                self@ == (PlainSynthState { voices: self@.voices, ..before }),
                left@ == before.mix_left(n as nat, m as int),
                right@ == before.mix_right(n as nat, m as int),
                forall|j: int| 0 <= j < m ==> #[trigger] self@.voices[j] == before.voices[j].after(before.k, n as int),
                forall|j: int| m <= j < before.voices.len() ==> #[trigger] self@.voices[j] == before.voices[j],
            decreases self.voices@.len() - m,
        {
            let ghost mid = self@.voices;
            assert(self.voices@[m as int].wf());
            assert(self.voices@[m as int]@ == mid[m as int]);
            self.voices[m].process(&self.k, left, right);
            assert(self@.voices =~= mid.update(m as int, before.voices[m as int].after(before.k, n as int)));
            m += 1;
        }
        assert(self@.voices =~= before.voices.map_values(|v: PlainState| v.after(before.k, n as int)));
        self.retain();
    }
}

/// A strike adds one voice, held, open and last, and while there is room leaves
/// the others alone; the pedal stays where it is.
pub proof fn strikes_add_one_voice<F: Fn(Op) -> Single>(s: PlainSynthState<F>, note: u8, velocity: u8)
    ensures
        s.struck(note, velocity).voices.last().note == note,
        s.struck(note, velocity).voices.last().held,
        s.struck(note, velocity).voices.last().damping == one(),
        s.voices.len() < 40 ==> s.struck(note, velocity).voices.len() == s.voices.len() + 1 && forall|i: int|
            0 <= i < s.voices.len() ==> #[trigger] s.struck(note, velocity).voices[i] == s.voices[i],
        s.voices.len() == 40 ==> s.struck(note, velocity).voices.len() == 40,
        s.struck(note, velocity).sustain == s.sustain,
{
    if s.voices.len() == 40 {
        crate::quietest::theft_keeps_the_others(s.voices, energies(s.k, s.voices));
    }
}

/// Letting go of a key releases its held voices, damps them unless the pedal is
/// down, and concerns no other voice.
pub proof fn releases_concern_their_note<F: Fn(Op) -> Single>(s: PlainSynthState<F>, note: u8, i: int)
    requires
        0 <= i < s.voices.len(),
    ensures
        s.let_go(note).voices.len() == s.voices.len(),
        s.let_go(note).sustain == s.sustain,
        s.voices[i].note != note || !s.voices[i].held ==> s.let_go(note).voices[i] == s.voices[i],
        s.voices[i].note == note && s.voices[i].held ==> s.let_go(note).voices[i] == (PlainState {
            held: false,
            damping: if s.sustain {
                s.voices[i].damping
            } else {
                s.k.damper_factor(note, s.sr)
            },
            ..s.voices[i]
        }),
{
}

/// The pedal is down from one half on. As it goes down the dampers of released
/// voices lift, as it goes up they fall; held voices, and a movement that stays
/// on one side, change nothing.
pub proof fn pedal_has_two_sides<F: Fn(Op) -> Single>(s: PlainSynthState<F>, position: Single, i: int)
    requires
        0 <= i < s.voices.len(),
    ensures
        s.pedal(position).sustain <==> number(0x3F00_0000).le(position),
        s.sustain == number(0x3F00_0000).le(position) ==> s.pedal(position) == s,
        s.voices[i].held ==> s.pedal(position).voices[i] == s.voices[i],
        !s.voices[i].held && s.sustain != number(0x3F00_0000).le(position) ==> s.pedal(position).voices[i] == (
        PlainState {
            damping: if number(0x3F00_0000).le(position) {
                one()
            } else {
                s.k.damper_factor(s.voices[i].note, s.sr)
            },
            ..s.voices[i]
        }),
        s.pedal(position).voices.len() == s.voices.len(),
{
}

/// A note let go under the pedal is damped when the pedal comes up, as it would
/// have been without the pedal.
pub proof fn pedal_holds_releases<F: Fn(Op) -> Single>(s: PlainSynthState<F>, note: u8, down: Single, up: Single, i: int)
    requires
        0 <= i < s.voices.len(),
        s.voices[i].note == note,
        s.voices[i].held,
        number(0x3F00_0000).le(down),
        !number(0x3F00_0000).le(up),
    ensures
        s.pedal(down).let_go(note).pedal(up).voices[i] == s.pedal(up).let_go(note).voices[i],
{
    assert(s.pedal(down).voices[i] == s.voices[i]);
    assert(s.pedal(up).voices[i] == s.voices[i]);
}

/// Controllers other than the sustain pedal change nothing.
pub proof fn other_controllers_change_nothing<F: Fn(Op) -> Single>(s: PlainSynthState<F>, controller: u8, value: Single)
    ensures
        ModalSynth::<F>::told(s, EventKind::Control { controller, value }) == s,
{
}

/// A block drops exactly the voices that can no longer be heard, held or not.
/// Returns where the voice is kept, if it is.
pub proof fn silent_voices_are_dropped<F: Fn(Op) -> Single>(k: Arith<F>, voices: Seq<PlainState>, n: int, i: int) -> (at: int)
    requires
        0 <= i < n <= voices.len(),
    ensures
        number(N1E_12).lt(voices[i].energy(k)) ==> 0 <= at < sounding(k, voices, n).len() && sounding(k, voices, n)[at]
            == voices[i],
        forall|j: int|
            0 <= j < sounding(k, voices, n).len() ==> number(N1E_12).lt((#[trigger] sounding(k, voices, n)[j]).energy(k)),
    decreases n,
{
    lemma_sounding_sounds(k, voices, n);
    if i < n - 1 {
        silent_voices_are_dropped(k, voices, n - 1, i)
    } else {
        sounding(k, voices, n - 1).len() as int
    }
}

proof fn lemma_sounding_sounds<F: Fn(Op) -> Single>(k: Arith<F>, voices: Seq<PlainState>, n: int)
    requires
        0 <= n <= voices.len(),
    ensures
        forall|j: int|
            0 <= j < sounding(k, voices, n).len() ==> number(N1E_12).lt((#[trigger] sounding(k, voices, n)[j]).energy(k)),
    decreases n,
{
    if n > 0 {
        lemma_sounding_sounds(k, voices, n - 1);
        let rest = sounding(k, voices, n - 1);
        assert forall|j: int| 0 <= j < sounding(k, voices, n).len() implies number(N1E_12).lt(
            (#[trigger] sounding(k, voices, n)[j]).energy(k),
        ) by {
            if j < rest.len() {
                assert(sounding(k, voices, n)[j] == rest[j]);
            }
        }
    }
}

/// A voice of the first modal synthesizer turns and shrinks as its damper lets
/// it, and sounds by the place of its key.
pub proof fn plain_voices_turn_and_shrink<F: Fn(Op) -> Single>(k: Arith<F>, v: PlainState, i: int)
    requires
        0 <= i < v.partials.len(),
    ensures
        ({
            let p = v.partials[i];
            let shrink = k.times(p.decay, v.damping);
            let after = v.next(k).partials[i];
            &&& after.re == k.times(k.minus(k.times(p.re, p.rot_re), k.times(p.im, p.rot_im)), shrink)
            &&& after.im == k.times(k.plus(k.times(p.re, p.rot_im), k.times(p.im, p.rot_re)), shrink)
            &&& after.decay == p.decay
            &&& v.next(k).held == v.held
            &&& v.next(k).damping == v.damping
            &&& v.next(k).note == v.note
        }),
{
}

/// Stiffness goes by the place of the note between three anchors, by its
/// logarithm, and stays at the ends.
pub proof fn stiffness_goes_by_anchors<F: Fn(Op) -> Single>(k: Arith<F>, note: u8)
    ensures
        note < 60 ==> ({
            let t = k.over(k.minus(k.whole(note as u64), number(0x41A8_0000)), k.minus(number(0x4270_0000), number(0x41A8_0000))).clamped(zero(), one());
            k.inharmonicity(note) == k.exp(k.mix(k.ln(number(0x38D1_B717)), k.ln(number(0x3992_CCF7)), t))
        }),
        note >= 60 ==> ({
            let t = k.over(k.minus(k.whole(note as u64), number(0x4270_0000)), k.minus(number(0x42D8_0000), number(0x4270_0000))).clamped(zero(), one());
            k.inharmonicity(note) == k.exp(k.mix(k.ln(number(0x3992_CCF7)), k.ln(number(0x3C23_D70A)), t))
        }),
{
}

/// A note of the first modal synthesizer has the first 28 of its partials that
/// the sample rate can carry, in order; the first that it cannot ends the series.
pub proof fn plain_notes_have_their_partials<F: Fn(Op) -> Single>(k: Arith<F>, sr: Single, note: u8, velocity: u8, n: int)
    requires
        1 <= n <= 28,
    ensures
        ({
            let f0 = k.midi_note_freq(note);
            let stiffness = k.inharmonicity(note);
            let all_below = forall|j: int|
                1 <= j <= n ==> !k.nyquist(sr).le(#[trigger] k.partial_freq(f0, stiffness, j as usize));
            let freq = k.partial_freq(f0, stiffness, n as usize);
            let before = plain_partials(k, sr, note, velocity, n - 1);
            let after = plain_partials(k, sr, note, velocity, n);
            &&& plain_partials(k, sr, note, velocity, 0).len() == 0
            &&& !all_below ==> after == before
            &&& all_below ==> {
                &&& after == before.push(after.last())
                &&& after.last().re == k.plain_amp(velocity, n as usize)
                &&& after.last().im == zero()
                &&& after.last().rot_re == k.cosine(k.angular_step(freq, sr))
                &&& after.last().rot_im == k.sine(k.angular_step(freq, sr))
                &&& after.last().decay == k.plain_decay(note, freq, n as usize, sr)
            }
        }),
        plain_voice(k, sr, note, velocity).partials == plain_partials(k, sr, note, velocity, 28),
        plain_voice(k, sr, note, velocity).pan_l == k.cosine(k.plain_angle(note)),
        plain_voice(k, sr, note, velocity).pan_r == k.sine(k.plain_angle(note)),
{
    if carried(k, sr, k.midi_note_freq(note), k.inharmonicity(note), n) {
        let before = plain_partials(k, sr, note, velocity, n - 1);
        let after = plain_partials(k, sr, note, velocity, n);
        assert(after == before.push(plain_partial(k, sr, note, velocity, n)));
        assert(after.last() == plain_partial(k, sr, note, velocity, n));
    }
}

/// Voices are added up one after the other, from silence; what a voice gives is
/// the sum of its partials, and it is as loud as their squares add up to.
pub proof fn plain_voices_add_up<F: Fn(Op) -> Single>(s: PlainSynthState<F>, n: nat, c: int, partials: Seq<Partial>, m: int)
    requires
        0 <= c < s.voices.len(),
        0 <= m < partials.len(),
    ensures
        s.mix_left(n, 0) == Seq::new(n, |i: int| zero()),
        s.mix_right(n, 0) == Seq::new(n, |i: int| zero()),
        s.mix_left(n, c + 1) == s.voices[c].over_left(s.k, s.mix_left(n, c)),
        s.mix_right(n, c + 1) == s.voices[c].over_right(s.k, s.mix_right(n, c)),
        plain_sum(s.k, partials, 0) == zero(),
        plain_sum(s.k, partials, m + 1) == s.k.plus(plain_sum(s.k, partials, m), partials[m].im),
        plain_energy(s.k, partials, 0) == zero(),
        plain_energy(s.k, partials, m + 1) == s.k.plus(
            plain_energy(s.k, partials, m),
            s.k.plus(s.k.times(partials[m].re, partials[m].re), s.k.times(partials[m].im, partials[m].im)),
        ),
{
}

/// Playing moves neither keys nor the pedal of the first modal synthesizer.
pub proof fn playing_moves_no_control<F: Fn(Op) -> Single>(s: PlainSynthState<F>, n: nat)
    ensures
        s.played(n).sustain == s.sustain,
        s.played(n).sr == s.sr,
        s.played(n).voices == sounding(
            s.k,
            s.voices.map_values(|v: PlainState| v.after(s.k, n as int)),
            s.voices.len() as int,
        ),
{
}

} // verus!
