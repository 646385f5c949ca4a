//! The voices that sound together.

use crate::arith::{Arith, Op};
use crate::constant::{N0_002, N0_02, N0_045, N0_4, N0_6, N0_8, N1E_12, N1_5, N2, N4, N420, N60};
use crate::formula::{Filter, UNDAMPED_NOTE, spec_lowpass};
use crate::number::{Single, is_on, number, one, spec_is_on, zero};
use crate::quietest::{find_quietest, quietest, without_quietest};
use crate::strike::all_open;
use crate::voice::{BlockState, Resonator, Tone, Voice, VoiceState, fully_open};
use vstd::prelude::*;

verus! {

/// How many voices sound at most.
pub const MAX_VOICES: usize = 40;

/// The voices, in the order in which they are mixed.
pub struct Voices {
    list: Vec<Voice>,
}

impl View for Voices {
    type V = Seq<VoiceState>;

    closed spec fn view(&self) -> Seq<VoiceState> {
        self.list@.map_values(|v: Voice| v@)
    }
}

/// How loud each voice is.
pub open spec fn energies<F: Fn(Op) -> Single>(k: Arith<F>, voices: Seq<VoiceState>) -> Seq<Single> {
    voices.map_values(|v: VoiceState| v.energy(k))
}

/// A voice whose string is struck again: the hammer's contact largely replaces
/// the previous vibration.
pub open spec fn restruck<F: Fn(Op) -> Single>(k: Arith<F>, sr: Single, note: u8, v: VoiceState) -> VoiceState {
    if v.note == note {
        (VoiceState { held: false, ..v }).damped(k, sr, one())
    } else {
        v
    }
}

/// The voices with room for one more: where there are as many as there can be,
/// the quietest gives way to the last.
pub open spec fn with_room<F: Fn(Op) -> Single>(k: Arith<F>, voices: Seq<VoiceState>) -> Seq<VoiceState> {
    if voices.len() >= MAX_VOICES {
        without_quietest(voices, energies(k, voices))
    } else {
        voices
    }
}

impl<F: Fn(Op) -> Single> Arith<F> {
    /// The decay of the bed after its string is damped: the soundboard keeps
    /// ringing briefly.
    #[verifier::allow_in_spec]
    pub fn bed_release(&self, sr: Single) -> Single
        returns
            self.decay_factor(self.over(number(N60), number(N0_6)), sr),
    {
        self.decay_factor(self.over(number(N60), number(N0_6)), sr)
    }

    /// The level of the damper thud: by how much the string was still
    /// vibrating, with a faint mechanical floor.
    #[verifier::allow_in_spec]
    pub fn thud_level(&self, energy: Single) -> Single
        returns
            self.plus(self.times(self.root(self.over(energy, number(N2))), number(N1_5)), number(N0_002)),
    {
        self.plus(self.times(self.root(self.over(energy, number(N2))), number(N1_5)), number(N0_002))
    }
}

/// The tone of a voice with the thud of its damper on top; there are no dampers
/// at the top of the keyboard.
pub open spec fn thudded<F: Fn(Op) -> Single>(k: Arith<F>, sr: Single, v: VoiceState) -> Tone {
    let tone = Tone { bed_decay: k.bed_release(sr), ..v.tone };
    if v.note < UNDAMPED_NOTE {
        Tone {
            noise_amp: tone.noise_amp.greater(k.thud_level(v.energy(k))),
            noise_decay: k.decay_factor(k.over(number(N60), number(N0_045)), sr),
            noise_filter: spec_lowpass(k, number(N420), number(N0_8), sr),
            ..tone
        }
    } else {
        tone
    }
}

/// A voice under dampers at `pressure`. At the top of the keyboard there are no
/// dampers to be laid on, and the strings ring on; next to no pressure leaves the
/// strings of any voice open.
pub open spec fn under_damper<F: Fn(Op) -> Single>(k: Arith<F>, sr: Single, pressure: Single, v: VoiceState) -> VoiceState {
    if v.note >= UNDAMPED_NOTE && !pressure.le(number(N0_02)) {
        v
    } else {
        v.damped(k, sr, pressure)
    }
}

/// A voice whose key is let go under dampers at `pressure`.
pub open spec fn released<F: Fn(Op) -> Single>(k: Arith<F>, sr: Single, note: u8, pressure: Single, v: VoiceState) -> VoiceState {
    if v.note == note && v.held {
        let damped = under_damper(k, sr, pressure, VoiceState { held: false, ..v });
        if number(N0_4).lt(pressure) {
            VoiceState { tone: thudded(k, sr, damped), ..damped }
        } else {
            damped
        }
    } else {
        v
    }
}

/// A voice with the pedal moved to `position`: a released one is damped by the
/// rest of the way, and its bed rings on while the pedal is down.
pub open spec fn pedaled<F: Fn(Op) -> Single>(k: Arith<F>, sr: Single, position: Single, v: VoiceState) -> VoiceState {
    if v.held {
        v
    } else {
        let damped = under_damper(k, sr, k.minus(one(), position), v);
        VoiceState {
            tone: Tone {
                bed_decay: if spec_is_on(position) {
                    k.decay_factor(number(N4), sr)
                } else {
                    k.bed_release(sr)
                },
                ..damped.tone
            },
            ..damped
        }
    }
}

/// The voices, the generator and the samples, while a block is mixed.
#[verifier::ext_equal]
pub struct MixState {
    pub voices: Seq<VoiceState>,
    pub rng: u32,
    pub left: Seq<Single>,
    pub right: Seq<Single>,
}

impl MixState {
    /// After the first `n` voices have been mixed in.
    pub open spec fn mixed<F: Fn(Op) -> Single>(self, k: Arith<F>, sr: Single, n: int) -> MixState
        decreases n,
    {
        if n <= 0 {
            self
        } else {
            let m = self.mixed(k, sr, n - 1);
            let b = (BlockState { voice: m.voices[n - 1], rng: m.rng, left: m.left, right: m.right }).block(k, sr);
            MixState { voices: m.voices.update(n - 1, b.voice), rng: b.rng, left: b.left, right: b.right }
        }
    }
}

/// The voice can still be heard.
pub open spec fn sounds<F: Fn(Op) -> Single>(k: Arith<F>, v: VoiceState) -> bool {
    number(N1E_12).lt(v.energy(k))
}

/// Those of the first `n` voices that can still be heard.
pub open spec fn sounding<F: Fn(Op) -> Single>(k: Arith<F>, voices: Seq<VoiceState>, n: int) -> Seq<VoiceState>
    decreases n,
{
    if n <= 0 {
        Seq::empty()
    } else if sounds(k, voices[n - 1]) {
        sounding(k, voices, n - 1).push(voices[n - 1])
    } else {
        sounding(k, voices, n - 1)
    }
}

impl Voices {
    pub closed spec fn wf(self) -> bool {
        &&& self.list@.len() <= MAX_VOICES
        &&& forall|i: int|
            0 <= i < self.list@.len() ==> (#[trigger] self.list@[i]).wf() && self.list@[i].in_lanes()
    }

    /// There are never more voices than there can be, and the strings of each
    /// fill whole lanes.
    pub proof fn lemma_wf(&self)
        requires
            self.wf(),
        ensures
            self@.len() <= MAX_VOICES,
            forall|i: int| 0 <= i < self@.len() ==> (#[trigger] self@[i]).res.len() % 8 == 0,
    {
        assert forall|i: int| 0 <= i < self@.len() implies (#[trigger] self@[i]).res.len() % 8 == 0 by {
            assert(self.list@[i].in_lanes());
        }
    }

    /// No voices. Room for all that there can be is made at once, so that no
    /// note allocates.
    pub fn new() -> (r: Voices)
        ensures
            r.wf(),
            r@ == Seq::<VoiceState>::empty(),
    {
        let r = Voices { list: Vec::with_capacity(MAX_VOICES) };
        assert(r@ =~= Seq::<VoiceState>::empty());
        r
    }

    pub fn len(&self) -> (n: usize)
        ensures
            n == self@.len(),
    {
        self.list.len()
    }

    pub fn voice(&self, i: usize) -> (v: &Voice)
        requires
            self.wf(),
            i < self@.len(),
        ensures
            v.wf(),
            v@ == self@[i as int],
    {
        &self.list[i]
    }

    /// Damps every voice of a note whose string is struck again.
    pub fn restrike<F: Fn(Op) -> Single>(&mut self, k: &Arith<F>, sr: Single, note: u8)
        requires
            old(self).wf(),
        ensures
            final(self).wf(),
            final(self)@ == old(self)@.map_values(|v: VoiceState| restruck(*k, sr, note, v)),
    {
        let ghost before = self@;
        let mut i: usize = 0;
        while i < self.list.len()
            invariant
                self.wf(),
                i <= self.list@.len(),
                self@.len() == before.len(),
                forall|j: int| 0 <= j < i ==> #[trigger] self@[j] == restruck(*k, sr, note, before[j]),
                forall|j: int| i <= j < before.len() ==> #[trigger] self@[j] == before[j],
            decreases self.list@.len() - i,
        {
            let ghost mid = self@;
            assert(self.list@[i as int].wf() && self.list@[i as int].in_lanes());
            assert(self.list@[i as int]@ == mid[i as int]);
            if self.list[i].note() == note {
                self.list[i].release();
                self.list[i].set_damper(k, sr, one());
            }
            assert(self@ =~= mid.update(i as int, restruck(*k, sr, note, before[i as int])));
            i += 1;
        }
        assert(self@ =~= before.map_values(|v: VoiceState| restruck(*k, sr, note, v)));
    }

    /// The quietest voice.
    fn pick_quietest<F: Fn(Op) -> Single>(&self, k: &Arith<F>) -> (i: usize)
        requires
            self.wf(),
            self@.len() > 0,
        ensures
            i < self@.len(),
            i == quietest(energies(*k, self@)),
    {
        let n: usize = self.list.len();
        let mut levels: [Single; 40] = [zero(); 40];
        let mut i: usize = 0;
        while i < n
            invariant
                self.wf(),
                i <= n <= MAX_VOICES,
                n == self.list@.len(),
                forall|j: int| 0 <= j < i ==> #[trigger] levels@[j] == energies(*k, self@)[j],
            decreases n - i,
        {
            assert(self.list@[i as int].wf());
            levels[i] = self.list[i].energy(k);
            i += 1;
        }
        assert(levels@.take(n as int) =~= energies(*k, self@));
        find_quietest(levels.as_slice(), n)
    }

    /// Makes room for one more voice, by stealing the quietest if need be.
    pub fn make_room<F: Fn(Op) -> Single>(&mut self, k: &Arith<F>)
        requires
            old(self).wf(),
        ensures
            final(self).wf(),
            final(self)@ == with_room(*k, old(self)@),
            final(self)@.len() < MAX_VOICES,
    {
        let ghost before = self@;
        if self.list.len() >= MAX_VOICES {
            let i = self.pick_quietest(k);
            let ghost list = self.list@;
            let _ = self.list.swap_remove(i);
            assert forall|j: int| 0 <= j < self.list@.len() implies (#[trigger] self.list@[j]).wf()
                && self.list@[j].in_lanes() by {
                assert(list[j].wf() && list[j].in_lanes());
                assert(list.last() == list[list.len() - 1]);
                assert(list[list.len() - 1].wf() && list[list.len() - 1].in_lanes());
            }
            assert(self@ =~= with_room(*k, before));
        }
    }

    /// Adds a voice.
    pub fn push(&mut self, v: Voice)
        requires
            old(self).wf(),
            old(self)@.len() < MAX_VOICES,
            v.wf(),
            v.in_lanes(),
        ensures
            final(self).wf(),
            final(self)@ == old(self)@.push(v@),
    {
        let ghost before = self@;
        self.list.push(v);
        assert(self@ =~= before.push(v@));
    }

    /// Lets the key of a note go, under dampers at `pressure`.
    pub fn release<F: Fn(Op) -> Single>(&mut self, k: &Arith<F>, sr: Single, note: u8, pressure: Single)
        requires
            old(self).wf(),
        ensures
            final(self).wf(),
            final(self)@ == old(self)@.map_values(|v: VoiceState| released(*k, sr, note, pressure, v)),
    {
        let ghost before = self@;
        let mut i: usize = 0;
        while i < self.list.len()
            invariant
                self.wf(),
                i <= self.list@.len(),
                self@.len() == before.len(),
                forall|j: int| 0 <= j < i ==> #[trigger] self@[j] == released(*k, sr, note, pressure, before[j]),
                forall|j: int| i <= j < before.len() ==> #[trigger] self@[j] == before[j],
            decreases self.list@.len() - i,
        {
            let ghost mid = self@;
            assert(self.list@[i as int].wf() && self.list@[i as int].in_lanes());
            assert(self.list@[i as int]@ == mid[i as int]);
            if self.list[i].note() == note && self.list[i].is_held() {
                self.list[i].release();
                if note < UNDAMPED_NOTE || pressure.is_at_most(number(N0_02)) {
                    self.list[i].set_damper(k, sr, pressure);
                }
                if number(N0_4).is_below(pressure) {
                    let mut tone: Tone = self.list[i].tone();
                    if note < UNDAMPED_NOTE {
                        let thud: Single = k.thud_level(self.list[i].energy(k));
                        let filter: Filter = k.biquad_lowpass(number(N420), number(N0_8), sr);
                        tone = Tone {
                            noise_amp: tone.noise_amp.greater(thud),
                            noise_decay: k.decay_factor(k.over(number(N60), number(N0_045)), sr),
                            noise_filter: filter,
                            ..tone
                        };
                    }
                    self.list[i].set_tone(Tone { bed_decay: k.bed_release(sr), ..tone });
                }
            }
            assert(self@ =~= mid.update(i as int, released(*k, sr, note, pressure, before[i as int])));
            i += 1;
        }
        assert(self@ =~= before.map_values(|v: VoiceState| released(*k, sr, note, pressure, v)));
    }

    /// Follows the pedal to `position`, with the voices whose keys are up.
    pub fn pedal<F: Fn(Op) -> Single>(&mut self, k: &Arith<F>, sr: Single, position: Single)
        requires
            old(self).wf(),
        ensures
            final(self).wf(),
            final(self)@ == old(self)@.map_values(|v: VoiceState| pedaled(*k, sr, position, v)),
    {
        let ghost before = self@;
        let pressure: Single = k.minus(one(), position);
        let bed_decay: Single = if is_on(position) {
            k.decay_factor(number(N4), sr)
        } else {
            k.bed_release(sr)
        };
        let mut i: usize = 0;
        while i < self.list.len()
            invariant
                self.wf(),
                i <= self.list@.len(),
                self@.len() == before.len(),
                pressure == k.minus(one(), position),
                bed_decay == (if spec_is_on(position) {
                    k.decay_factor(number(N4), sr)
                } else {
                    k.bed_release(sr)
                }),
                forall|j: int| 0 <= j < i ==> #[trigger] self@[j] == pedaled(*k, sr, position, before[j]),
                forall|j: int| i <= j < before.len() ==> #[trigger] self@[j] == before[j],
            decreases self.list@.len() - i,
        {
            let ghost mid = self@;
            assert(self.list@[i as int].wf() && self.list@[i as int].in_lanes());
            assert(self.list@[i as int]@ == mid[i as int]);
            if !self.list[i].is_held() {
                if self.list[i].note() < UNDAMPED_NOTE || pressure.is_at_most(number(N0_02)) {
                    self.list[i].set_damper(k, sr, pressure);
                }
                let tone: Tone = self.list[i].tone();
                self.list[i].set_tone(Tone { bed_decay, ..tone });
            }
            assert(self@ =~= mid.update(i as int, pedaled(*k, sr, position, before[i as int])));
            i += 1;
        }
        assert(self@ =~= before.map_values(|v: VoiceState| pedaled(*k, sr, position, v)));
    }

    /// Mixes a block of every voice into the samples. Returns the generator.
    pub fn process<F: Fn(Op) -> Single>(
        &mut self,
        k: &Arith<F>,
        sr: Single,
        left: &mut [Single],
        right: &mut [Single],
        rng: u32,
    ) -> (next: u32)
        requires
            old(self).wf(),
            old(left)@.len() == old(right)@.len(),
        ensures
            final(self).wf(),
            final(left)@.len() == old(left)@.len(),
            final(right)@.len() == old(right)@.len(),
            (MixState { voices: final(self)@, rng: next, left: final(left)@, right: final(right)@ }) == (MixState {
                voices: old(self)@,
                rng,
                left: old(left)@,
                right: old(right)@,
            }).mixed(*k, sr, old(self)@.len() as int),
    {
        let ghost before = MixState { voices: self@, rng, left: left@, right: right@ };
        let mut next: u32 = rng;
        let mut i: usize = 0;
        while i < self.list.len()
            invariant
                self.wf(),
                i <= self.list@.len(),
                self@.len() == before.voices.len(),
                left@.len() == before.left.len(),
                right@.len() == before.right.len(),
                left@.len() == right@.len(),
                (MixState { voices: self@, rng: next, left: left@, right: right@ }) == before.mixed(*k, sr, i as int),
            decreases self.list@.len() - i,
        {
            let ghost mid = self@;
            assert(self.list@[i as int].wf() && self.list@[i as int].in_lanes());
            assert(self.list@[i as int]@ == mid[i as int]);
            next = self.list[i].process(k, sr, left, right, next);
            assert(self@ =~= mid.update(i as int, self@[i as int]));
            i += 1;
        }
        next
    }

    /// Drops the voices that have decayed below audibility.
    pub fn retain<F: Fn(Op) -> Single>(&mut self, k: &Arith<F>)
        requires
            old(self).wf(),
        ensures
            final(self).wf(),
            final(self)@ == sounding(*k, old(self)@, old(self)@.len() as int),
    {
        let ghost before = self@;
        let n: usize = self.list.len();
        let mut keep: usize = 0;
        let mut i: usize = 0;
        while i < n
            invariant
                self.wf(),
                keep <= i <= n,
                n == self.list@.len(),
                n == before.len(),
                self@.subrange(0, keep as int) == sounding(*k, before, i as int),
                forall|j: int| i <= j < n ==> #[trigger] self@[j] == before[j],
            decreases n - i,
        {
            let ghost mid = self@;
            assert(self.list@[i as int].wf() && self.list@[i as int].in_lanes());
            assert(self.list@[i as int]@ == mid[i as int]);
            if number(N1E_12).is_below(self.list[i].energy(k)) {
                let v: Voice = self.list[i];
                self.list[keep] = v;
                keep += 1;
                assert(self@ =~= mid.update(keep - 1, v@));
                assert(self@.subrange(0, keep as int) =~= mid.subrange(0, keep - 1).push(v@));
            }
            i += 1;
        }
        let ghost last = self@;
        self.list.truncate(keep);
        assert(self@ =~= last.subrange(0, keep as int));
    }
}

/// Strings without dampers ring on: neither letting the key go nor the pedal
/// lays anything on them.
pub proof fn top_notes_ring_on<F: Fn(Op) -> Single>(
    k: Arith<F>,
    sr: Single,
    note: u8,
    pressure: Single,
    position: Single,
    v: VoiceState,
)
    requires
        v.note >= UNDAMPED_NOTE,
    ensures
        v.note == note ==> !released(k, sr, note, pressure, v).held,
        all_open(v.res) ==> released(k, sr, note, pressure, v).res == v.res,
        all_open(v.res) ==> pedaled(k, sr, position, v).res == v.res,
        !pressure.le(number(N0_02)) ==> released(k, sr, note, pressure, v).res == v.res && released(
            k,
            sr,
            note,
            pressure,
            v,
        ).damper_blend == v.damper_blend,
        !k.minus(one(), position).le(number(N0_02)) ==> pedaled(k, sr, position, v).res == v.res && pedaled(
            k,
            sr,
            position,
            v,
        ).damper_blend == v.damper_blend,
{
    assert(all_open(v.res) ==> released(k, sr, note, pressure, v).res =~= v.res);
    assert(all_open(v.res) ==> pedaled(k, sr, position, v).res =~= v.res);
}

/// The pedal leaves a voice alone whose key is held, and moves no phasor of any
/// other; all the way down it opens every string.
pub proof fn pedal_moves_dampers_only<F: Fn(Op) -> Single>(k: Arith<F>, sr: Single, position: Single, v: VoiceState)
    ensures
        v.held ==> pedaled(k, sr, position, v) == v,
        pedaled(k, sr, position, v).note == v.note,
        pedaled(k, sr, position, v).held == v.held,
        pedaled(k, sr, position, v).res.len() == v.res.len(),
        forall|i: int|
            0 <= i < v.res.len() ==> (#[trigger] pedaled(k, sr, position, v).res[i]) == (Resonator {
                damping: pedaled(k, sr, position, v).res[i].damping,
                ..v.res[i]
            }),
        !v.held && k.minus(one(), position).le(number(N0_02)) ==> all_open(pedaled(k, sr, position, v).res)
            && pedaled(k, sr, position, v).damper_blend == one(),
{
}

/// Felt at this pressure takes something away from any string.
pub open spec fn felt_bites<F: Fn(Op) -> Single>(k: Arith<F>, sr: Single, pressure: Single) -> bool {
    forall|note: u8, base_w: Single|
        note < UNDAMPED_NOTE ==> !one().le(#[trigger] k.felt(note, sr, pressure, base_w))
}

/// The pedal acts by where it is: where felt bites, or the dampers are lifted,
/// moving it to where it is changes nothing.
pub proof fn pedal_acts_by_position<F: Fn(Op) -> Single>(k: Arith<F>, sr: Single, position: Single, v: VoiceState)
    requires
        k.minus(one(), position).le(number(N0_02)) || felt_bites(k, sr, k.minus(one(), position)),
    ensures
        pedaled(k, sr, position, pedaled(k, sr, position, v)) == pedaled(k, sr, position, v),
{
    let pressure = k.minus(one(), position);
    if !v.held && (v.note < UNDAMPED_NOTE || pressure.le(number(N0_02))) {
        let once = v.damped(k, sr, pressure);
        let twice = once.damped(k, sr, pressure);
        assert(twice.res =~= once.res);
        if !pressure.le(number(N0_02)) {
            if exists|i: int| 0 <= i < v.res.len() && !(#[trigger] v.res[i]).decay.zero_valued() {
                let i = choose|i: int| 0 <= i < v.res.len() && !(#[trigger] v.res[i]).decay.zero_valued();
                assert(once.res[i].damping == k.felt(v.note, sr, pressure, v.res[i].base_w));
                assert(!fully_open(once.res));
            } else {
                assert(once.res =~= v.res);
            }
        }
        assert(twice =~= once);
    }
    let p = pedaled(k, sr, position, v);
    assert(pedaled(k, sr, position, p).res =~= p.res);
    assert(pedaled(k, sr, position, p) =~= p);
}

/// A block drops exactly the voices that can no longer be heard, held or not, and
/// keeps the others in their order. Returns where the voice is kept, if it is.
pub proof fn silent_voices_are_dropped<F: Fn(Op) -> Single>(k: Arith<F>, voices: Seq<VoiceState>, n: int, i: int) -> (at: int)
    requires
        0 <= i < n <= voices.len(),
    ensures
        number(N1E_12).lt(voices[i].energy(k)) ==> 0 <= at < sounding(k, voices, n).len() && sounding(k, voices, n)[at]
            == voices[i],
        forall|j: int|
            0 <= j < sounding(k, voices, n).len() ==> number(N1E_12).lt((#[trigger] sounding(k, voices, n)[j]).energy(k)),
        sounding(k, voices, n).len() <= n,
    decreases n,
{
    lemma_sounding_sounds(k, voices, n);
    if i < n - 1 {
        silent_voices_are_dropped(k, voices, n - 1, i)
    } else {
        sounding(k, voices, n - 1).len() as int
    }
}

proof fn lemma_sounding_sounds<F: Fn(Op) -> Single>(k: Arith<F>, voices: Seq<VoiceState>, n: int)
    requires
        0 <= n <= voices.len(),
    ensures
        forall|j: int|
            0 <= j < sounding(k, voices, n).len() ==> number(N1E_12).lt((#[trigger] sounding(k, voices, n)[j]).energy(k)),
        sounding(k, voices, n).len() <= n,
    decreases n,
{
    if n > 0 {
        lemma_sounding_sounds(k, voices, n - 1);
    }
}

} // verus!
