//! The deliberately dumb baseline: each note is a sine wave at the fundamental
//! frequency, held for one second with a short fade in and out to avoid
//! clicks. Velocity maps linearly to amplitude. This exists purely to anchor
//! the bottom of the score ladder.

use crate::arith::{Arith, Op};
use crate::constant::{N0_005, N0_2, N127, TAU};
use crate::events::EventKind;
use crate::number::{Single, number, one, zero};
use crate::synth::{Synth, silence};
use vstd::prelude::*;

verus! {

/// How many notes sound at most.
pub const MAX_TONES: usize = 128;

/// One sine, `age` samples into its life of `total`.
#[derive(Clone, Copy, Debug, PartialEq, Eq, Structural)]
pub struct SineTone {
    pub phase: Single,
    pub phase_inc: Single,
    pub amp: Single,
    pub age: u32,
    pub total: u32,
    pub fade: u32,
}

/// The baseline synthesizer.
pub struct BaselineSynth<F: Fn(Op) -> Single> {
    k: Arith<F>,
    sr: Single,
    tones: Vec<SineTone>,
}

/// Everything that decides how the baseline goes on.
#[verifier::ext_equal]
pub struct BaselineState<F: Fn(Op) -> Single> {
    pub k: Arith<F>,
    pub sr: Single,
    pub tones: Seq<SineTone>,
}

impl<F: Fn(Op) -> Single> View for BaselineSynth<F> {
    type V = BaselineState<F>;

    closed spec fn view(&self) -> BaselineState<F> {
        BaselineState { k: self.k, sr: self.sr, tones: self.tones@ }
    }
}

/// The whole part of a number, as far as a count can hold it.
pub open spec fn count_of(x: Single) -> u32 {
    if x.whole_part() <= u32::MAX {
        x.whole_part() as u32
    } else {
        u32::MAX
    }
}

/// The whole part of a number, as far as a count can hold it.
pub fn to_count(x: Single) -> (n: u32)
    ensures
        n == count_of(x),
{
    let w: u64 = x.to_whole();
    if w > u32::MAX as u64 {
        u32::MAX
    } else {
        w as u32
    }
}

/// The tone of a struck note.
pub open spec fn sine_of<F: Fn(Op) -> Single>(k: Arith<F>, sr: Single, note: u8, velocity: u8) -> SineTone {
    SineTone {
        phase: zero(),
        phase_inc: k.over(k.midi_note_freq(note), sr),
        amp: k.over(k.times(number(N0_2), k.whole(velocity as u64)), number(N127)),
        age: 0,
        total: count_of(k.times(one(), sr)),
        fade: count_of(k.times(number(N0_005), sr)),
    }
}

impl<F: Fn(Op) -> Single> Arith<F> {
    /// The share of a fade after so many samples, at most one.
    #[verifier::allow_in_spec]
    pub fn faded(&self, samples: u32, fade: u32) -> Single
        returns
            self.over(self.whole(samples as u64), self.whole(fade as u64)).lesser(one()),
    {
        self.over(self.whole(samples as u64), self.whole(fade as u64)).lesser(one())
    }
}

impl SineTone {
    /// What the tone adds to its next sample: the sine at its phase, under the
    /// smaller of fade-in and fade-out.
    pub open spec fn sample<F: Fn(Op) -> Single>(self, k: Arith<F>) -> Single {
        k.times(
            k.times(k.sine(k.times(self.phase, number(TAU))), self.amp),
            k.faded(self.age, self.fade).lesser(k.faded((self.total - self.age) as u32, self.fade)),
        )
    }

    /// The tone one sample on; a tone that is over stays as it is.
    pub open spec fn next<F: Fn(Op) -> Single>(self, k: Arith<F>) -> SineTone {
        if self.age >= self.total {
            self
        } else {
            SineTone {
                phase: k.fraction(k.plus(self.phase, self.phase_inc)),
                age: (self.age + 1) as u32,
                ..self
            }
        }
    }

    /// The tone after `n` samples.
    pub open spec fn after<F: Fn(Op) -> Single>(self, k: Arith<F>, n: int) -> SineTone
        decreases n,
    {
        if n <= 0 {
            self
        } else {
            self.after(k, n - 1).next(k)
        }
    }

    /// Samples with the tone added, for as long as it lasts.
    pub open spec fn over<F: Fn(Op) -> Single>(self, k: Arith<F>, samples: Seq<Single>) -> Seq<Single> {
        Seq::new(
            samples.len(),
            |i: int|
                if self.after(k, i).age < self.total {
                    k.plus(samples[i], self.after(k, i).sample(k))
                } else {
                    samples[i]
                },
        )
    }
}

impl<F: Fn(Op) -> Single> BaselineState<F> {
    /// After a note has been struck; it is ignored where there are as many
    /// tones as there can be.
    pub open spec fn struck(self, note: u8, velocity: u8) -> BaselineState<F> {
        if self.tones.len() >= MAX_TONES {
            self
        } else {
            BaselineState { tones: self.tones.push(sine_of(self.k, self.sr, note, velocity)), ..self }
        }
    }

    /// The samples after the first `m` tones.
    pub open spec fn mix(self, n: nat, m: int) -> Seq<Single>
        decreases m,
    {
        if m <= 0 {
            Seq::new(n, |i: int| zero())
        } else {
            self.tones[m - 1].over(self.k, self.mix(n, m - 1))
        }
    }

    /// After a block of `n` frames; tones that are over are dropped.
    pub open spec fn played(self, n: nat) -> BaselineState<F> {
        BaselineState {
            tones: lasting(self.tones.map_values(|t: SineTone| t.after(self.k, n as int)), self.tones.len() as int),
            ..self
        }
    }
}

/// Those of the first `n` tones that are not over.
pub open spec fn lasting(tones: Seq<SineTone>, n: int) -> Seq<SineTone>
    decreases n,
{
    if n <= 0 {
        Seq::empty()
    } else if tones[n - 1].age < tones[n - 1].total {
        lasting(tones, n - 1).push(tones[n - 1])
    } else {
        lasting(tones, n - 1)
    }
}

proof fn lemma_after_keeps<F: Fn(Op) -> Single>(k: Arith<F>, t: SineTone, n: int)
    ensures
        t.after(k, n).total == t.total,
        t.after(k, n).fade == t.fade,
        t.after(k, n).amp == t.amp,
        t.age <= t.total ==> t.after(k, n).age <= t.total,
    decreases n,
{
    if n > 0 {
        lemma_after_keeps(k, t, n - 1);
    }
}

/// A tone lasts exactly as long as it is meant to: after `n` samples it is `n`
/// samples older, up to its end.
pub proof fn tone_lasts_its_time<F: Fn(Op) -> Single>(k: Arith<F>, t: SineTone, n: nat)
    requires
        t.age <= t.total,
    ensures
        t.after(k, n as int).age == (if t.age + n <= t.total {
            t.age + n
        } else {
            t.total as int
        }),
    decreases n,
{
    lemma_after_keeps(k, t, n as int);
    if n > 0 {
        tone_lasts_its_time(k, t, (n - 1) as nat);
        lemma_after_keeps(k, t, n - 1);
    }
}

/// Adds a tone to samples.
fn add_tone<F: Fn(Op) -> Single>(k: &Arith<F>, tone: SineTone, samples: &mut [Single]) -> (r: SineTone)
    ensures
        r == tone.after(*k, old(samples)@.len() as int),
        final(samples)@ == tone.over(*k, old(samples)@),
{
    let ghost before = samples@;
    let n: usize = samples.len();
    let mut t: SineTone = tone;
    let mut i: usize = 0;
    while i < n
        invariant
            i <= n,
            n == before.len(),
            samples@.len() == n,
            t == tone.after(*k, i as int),
            forall|j: int| 0 <= j < i ==> #[trigger] samples@[j] == tone.over(*k, before)[j],
            forall|j: int| i <= j < n ==> #[trigger] samples@[j] == before[j],
        decreases n - i,
    {
        proof {
            lemma_after_keeps(*k, tone, i as int);
        }
        if t.age < t.total {
            let fade_in: Single = k.faded(t.age, t.fade);
            let fade_out: Single = k.faded(t.total - t.age, t.fade);
            let sine: Single = k.times(k.sine(k.times(t.phase, number(TAU))), t.amp);
            samples[i] = k.plus(samples[i], k.times(sine, fade_in.lesser(fade_out)));
            t = SineTone { phase: k.fraction(k.plus(t.phase, t.phase_inc)), age: t.age + 1, ..t };
        }
        i += 1;
    }
    assert(samples@ =~= tone.over(*k, before));
    t
}

impl<F: Fn(Op) -> Single> BaselineSynth<F> {
    /// A silent synthesizer. Room for all tones is made at once, so that no
    /// note allocates on the audio thread.
    pub fn new(k: Arith<F>, sr: Single) -> (r: BaselineSynth<F>)
        ensures
            r.ready(),
            r@ == (BaselineState { k, sr, tones: Seq::empty() }),
    {
        BaselineSynth { k, sr, tones: Vec::with_capacity(MAX_TONES) }
    }

    /// How many tones sound.
    pub fn tone_count(&self) -> (n: usize)
        ensures
            n == self@.tones.len(),
    {
        self.tones.len()
    }

    /// There are never more tones than there can be.
    pub proof fn lemma_ready(&self)
        requires
            self.ready(),
        ensures
            self@.tones.len() <= MAX_TONES,
    {
    }

    fn retain(&mut self)
        ensures
            final(self)@ == (BaselineState {
                tones: lasting(old(self)@.tones, old(self)@.tones.len() as int),
                ..old(self)@
            }),
            final(self)@.tones.len() <= old(self)@.tones.len(),
    {
        let ghost before = self@;
        let n: usize = self.tones.len();
        let mut keep: usize = 0;
        let mut i: usize = 0;
        while i < n
            invariant
                keep <= i <= n,
                n == self.tones@.len(),
                n == before.tones.len(),
                self@ == (BaselineState { tones: self.tones@, ..before }),
                self.tones@.subrange(0, keep as int) == lasting(before.tones, i as int),
                forall|j: int| i <= j < n ==> #[trigger] self.tones@[j] == before.tones[j],
            decreases n - i,
        {
            let ghost mid = self.tones@;
            let t: SineTone = self.tones[i];
            if t.age < t.total {
                self.tones[keep] = t;
                keep += 1;
                assert(self.tones@.subrange(0, keep as int) =~= mid.subrange(0, keep - 1).push(t));
            }
            i += 1;
        }
        self.tones.truncate(keep);
    }
}

impl<F: Fn(Op) -> Single> Synth<Single> for BaselineSynth<F> {
    type Model = BaselineState<F>;

    open spec fn model(&self) -> BaselineState<F> {
        self@
    }

    closed spec fn ready(&self) -> bool {
        self.tones@.len() <= MAX_TONES
    }

    open spec fn takes(note: u8) -> bool {
        true
    }

    open spec fn told(m: BaselineState<F>, kind: EventKind) -> BaselineState<F> {
        match kind {
            EventKind::NoteOn { note, velocity } => m.struck(note, velocity),
            _ => m,
        }
    }

    open spec fn played(m: BaselineState<F>, n: nat) -> BaselineState<F> {
        m.played(n)
    }

    open spec fn sounded(m: BaselineState<F>, n: nat) -> (Seq<Single>, Seq<Single>) {
        (m.mix(n, m.tones.len() as int), m.mix(n, m.tones.len() as int))
    }

    fn note_on(&mut self, note: u8, velocity: u8) {
        if self.tones.len() >= MAX_TONES {
            return;
        }
        let tone = SineTone {
            phase: zero(),
            phase_inc: self.k.over(self.k.midi_note_freq(note), self.sr),
            amp: self.k.over(self.k.times(number(N0_2), self.k.whole(velocity as u64)), number(N127)),
            age: 0,
            total: to_count(self.k.times(one(), self.sr)),
            fade: to_count(self.k.times(number(N0_005), self.sr)),
        };
        self.tones.push(tone);
    }

    fn note_off(&mut self, note: u8) {
    }

    fn set_sustain(&mut self, position: Single) {
    }

    fn set_control(&mut self, controller: u8, value: Single) {
    }

    fn process(&mut self, left: &mut [Single], right: &mut [Single]) {
        let ghost before = self@;
        let n: usize = left.len();
        silence(left);
        let mut m: usize = 0;
        while m < self.tones.len()
            invariant
                m <= self.tones@.len(),
                left@.len() == n,
                right@.len() == n,
                self.tones@.len() == before.tones.len(),
                self@ == (BaselineState { tones: self.tones@, ..before }),
                left@ == before.mix(n as nat, m as int),
                forall|j: int| 0 <= j < m ==> #[trigger] self.tones@[j] == before.tones[j].after(before.k, n as int),
                forall|j: int| m <= j < before.tones.len() ==> #[trigger] self.tones@[j] == before.tones[j],
            decreases self.tones@.len() - m,
        {
            let tone: SineTone = self.tones[m];
            let next: SineTone = add_tone(&self.k, tone, left);
            self.tones[m] = next;
            m += 1;
        }
        assert(self.tones@ =~= before.tones.map_values(|t: SineTone| t.after(before.k, n as int)));
        self.retain();
        let mut i: usize = 0;
        while i < n
            invariant
                i <= n,
                left@.len() == n,
                right@.len() == n,
                forall|j: int| 0 <= j < i ==> #[trigger] right@[j] == left@[j],
            decreases n - i,
        {
            right[i] = left[i];
            i += 1;
        }
        assert(right@ =~= left@);
    }
}

/// The baseline knows strikes and nothing else: releases, pedals and
/// controllers change nothing.
pub proof fn only_strikes_count<F: Fn(Op) -> Single>(m: BaselineState<F>, kind: EventKind)
    requires
        !(kind is NoteOn),
    ensures
        BaselineSynth::<F>::told(m, kind) == m,
{
}

/// A strike adds one tone after the others and leaves those alone, as long as
/// there are fewer than 128 of them: at the pitch of its note, as loud as its
/// velocity, a fifth of full scale at the hardest, from its very start. Where
/// there are as many as there can be, a strike changes nothing.
pub proof fn strikes_add_one_tone<F: Fn(Op) -> Single>(m: BaselineState<F>, note: u8, velocity: u8)
    ensures
        m.tones.len() >= 128 ==> m.struck(note, velocity) == m,
        m.tones.len() < 128 ==> {
            let tones = m.struck(note, velocity).tones;
            let tone = tones.last();
            &&& tones.len() == m.tones.len() + 1
            &&& forall|i: int| 0 <= i < m.tones.len() ==> #[trigger] tones[i] == m.tones[i]
            &&& tone.amp == m.k.over(m.k.times(number(N0_2), m.k.whole(velocity as u64)), number(N127))
            &&& tone.phase_inc == m.k.over(m.k.midi_note_freq(note), m.sr)
            &&& tone.phase == zero()
            &&& tone.age == 0
        },
        m.struck(note, velocity).sr == m.sr,
{
}

/// How long a tone lasts depends on the sample rate alone: every note is held
/// for one second and fades over five thousandths of one, whatever note it is
/// and however hard it is struck.
pub proof fn every_tone_lasts_one_second<F: Fn(Op) -> Single>(
    k: Arith<F>,
    sr: Single,
    note: u8,
    velocity: u8,
)
    requires
        k.times(one(), sr) == sr,
        sr.whole_part() <= u32::MAX,
    ensures
        sine_of(k, sr, note, velocity).total == sr.whole_part(),
        k.times(number(0x3BA3_D70A), sr).whole_part() <= u32::MAX ==> sine_of(k, sr, note, velocity).fade == k.times(
            number(0x3BA3_D70A),
            sr,
        ).whole_part(),
{
}

/// A tone sounds until it is over and not a sample longer: what comes after is
/// left as it was.
pub proof fn tones_end<F: Fn(Op) -> Single>(k: Arith<F>, t: SineTone, samples: Seq<Single>, i: int)
    requires
        t.age <= t.total,
        0 <= i < samples.len(),
    ensures
        t.over(k, samples).len() == samples.len(),
        t.age + i >= t.total ==> t.over(k, samples)[i] == samples[i],
        t.age + i < t.total ==> t.over(k, samples)[i] == k.plus(samples[i], t.after(k, i).sample(k)),
{
    tone_lasts_its_time(k, t, i as nat);
}

/// A tone fades in as it fades out: so far from its start and so far from its
/// end the envelope is the same, and never more than one.
pub proof fn fades_mirror<F: Fn(Op) -> Single>(k: Arith<F>, a: SineTone, b: SineTone)
    requires
        a.age <= a.total,
        b.age <= b.total,
        a.total == b.total,
        a.fade == b.fade,
        a.age == b.total - b.age,
        !k.faded(a.age, a.fade).nan(),
        !k.faded(b.age, b.fade).nan(),
        !k.faded(a.age, a.fade).zero_valued(),
        !k.faded(b.age, b.fade).zero_valued(),
        a.phase == b.phase,
        a.amp == b.amp,
    ensures
        a.sample(k) == b.sample(k),
{
    lemma_lesser_is_even(k.faded(a.age, a.fade), k.faded(b.age, b.fade));
}

proof fn lemma_lesser_is_even(x: Single, y: Single)
    requires
        !x.nan(),
        !y.nan(),
        !x.zero_valued(),
        !y.zero_valued(),
    ensures
        x.lesser(y) == y.lesser(x),
{
}

/// Both channels carry the same sound.
pub proof fn baseline_is_mono<F: Fn(Op) -> Single>(m: BaselineState<F>, n: nat)
    ensures
        BaselineSynth::<F>::sounded(m, n).0 == BaselineSynth::<F>::sounded(m, n).1,
{
}

/// A block drops exactly the tones that are over. Returns where the tone is kept,
/// if it is.
pub proof fn ended_tones_are_dropped(tones: Seq<SineTone>, n: int, i: int) -> (at: int)
    requires
        0 <= i < n <= tones.len(),
    ensures
        tones[i].age < tones[i].total ==> 0 <= at < lasting(tones, n).len() && lasting(tones, n)[at] == tones[i],
        forall|j: int|
            0 <= j < lasting(tones, n).len() ==> (#[trigger] lasting(tones, n)[j]).age < lasting(tones, n)[j].total,
    decreases n,
{
    lemma_lasting_last(tones, n);
    if i < n - 1 {
        ended_tones_are_dropped(tones, n - 1, i)
    } else {
        lasting(tones, n - 1).len() as int
    }
}

proof fn lemma_lasting_last(tones: Seq<SineTone>, n: int)
    requires
        0 <= n <= tones.len(),
    ensures
        forall|j: int|
            0 <= j < lasting(tones, n).len() ==> (#[trigger] lasting(tones, n)[j]).age < lasting(tones, n)[j].total,
    decreases n,
{
    if n > 0 {
        lemma_lasting_last(tones, n - 1);
        let rest = lasting(tones, n - 1);
        assert forall|j: int| 0 <= j < lasting(tones, n).len() implies (#[trigger] lasting(tones, n)[j]).age < lasting(
            tones,
            n,
        )[j].total by {
            if j < rest.len() {
                assert(lasting(tones, n)[j] == rest[j]);
            }
        }
    }
}

} // verus!
