//! Modal synthesis v2: per-note parameters fitted from reference samples, plus
//! unison detuning with double decay, hammer noise, half-pedaling, una corda,
//! sympathetic strings and a soundboard body.

use crate::arith::{Arith, Op};
use crate::bank::{BANK_NOTES, BankState, BankString, LOWEST_NOTE, StringBank, couplings, tuned_strings, undamped};
use crate::body::{Body, BodyState, quiet_body};
use crate::calibration::{Calibration, LayerState, NoteParams, params_at};
use crate::constant::N0_02;
use crate::events::EventKind;
use crate::formula::UNDAMPED_NOTE;
use crate::knobs::{Knobs, is_knob};
use crate::number::{Single, is_on, number, one, spec_is_on, zero};
use crate::rng::{SEED, advance, spec_advance};
use crate::strike::{Strike, all_open, strike_rms, strike_voice, struck_voice};
use crate::synth::{Synth, silence};
use crate::voice::{BlockState, Resonator, Voice, VoiceState, energy_from, kept};
use crate::quietest::{quietest, quietest_exists, theft_keeps_the_others};
use crate::voices::{
    MAX_VOICES, MixState, Voices, energies, felt_bites, pedal_acts_by_position, pedaled, released, restruck, sounding,
    top_notes_ring_on, with_room,
};
use vstd::prelude::*;

verus! {

/// The controller of the una corda pedal.
pub const UNA_CORDA: u8 = 67;

/// The instrument.
pub struct ModalV2<F: Fn(Op) -> Single> {
    k: Arith<F>,
    sr: Single,
    cal: Calibration,
    voices: Voices,
    sustain: bool,
    /// Pedal position for half-pedaling.
    sustain_pos: Single,
    /// Hammers shifted, striking fewer strings softly.
    una_corda: bool,
    rng: u32,
    held: [bool; 128],
    bank: StringBank,
    body: Body,
    knobs: Knobs,
}

/// Everything that decides how the instrument goes on.
#[verifier::ext_equal]
pub struct ModalState<F: Fn(Op) -> Single> {
    pub k: Arith<F>,
    pub sr: Single,
    pub layers: Seq<LayerState>,
    pub voices: Seq<VoiceState>,
    pub sustain: bool,
    pub sustain_pos: Single,
    pub una_corda: bool,
    pub rng: u32,
    pub held: Seq<bool>,
    pub bank: BankState,
    pub body: BodyState,
    pub knobs: Knobs,
}

impl<F: Fn(Op) -> Single> View for ModalV2<F> {
    type V = ModalState<F>;

    closed spec fn view(&self) -> ModalState<F> {
        ModalState {
            k: self.k,
            sr: self.sr,
            layers: self.cal@,
            voices: self.voices@,
            sustain: self.sustain,
            sustain_pos: self.sustain_pos,
            una_corda: self.una_corda,
            rng: self.rng,
            held: self.held@,
            bank: self.bank@,
            body: self.body@,
            knobs: self.knobs,
        }
    }
}

/// The bank after the pedal has gone down, or up, over the first `n` strings:
/// down opens every string, up closes those whose keys are not held.
pub open spec fn gated(bank: BankState, held: Seq<bool>, down: bool, n: int) -> BankState
    decreases n,
{
    if n <= 0 {
        bank
    } else {
        let rest = gated(bank, held, down, n - 1);
        let note = (LOWEST_NOTE + n - 1) as u8;
        if down {
            rest.with_open(note, true)
        } else if !held[note as int] {
            rest.with_open(note, false)
        } else {
            rest
        }
    }
}

/// The samples under the sympathetic strings and the body.
#[verifier::ext_equal]
pub struct Ringing {
    pub bank: BankState,
    pub body: BodyState,
    pub left: Seq<Single>,
    pub right: Seq<Single>,
}

impl Ringing {
    /// After frame `i`: the strings are driven by the mix of the voices and
    /// added to it, and the body rings on top of everything.
    pub open spec fn frame<F: Fn(Op) -> Single>(self, k: Arith<F>, bank_drive: Single, i: int) -> Ringing {
        let drive = k.times(k.plus(self.left[i], self.right[i]), bank_drive);
        let l = k.plus(self.left[i], k.times(self.bank.output(k, true), one()));
        let r = k.plus(self.right[i], k.times(self.bank.output(k, false), one()));
        let out = self.body.output(k);
        Ringing {
            bank: self.bank.stepped(k, drive),
            body: self.body.stepped(k, k.mono(l, r)),
            left: self.left.update(i, k.plus(l, out)),
            right: self.right.update(i, k.plus(r, out)),
        }
    }

    /// After the first `n` frames.
    pub open spec fn frames<F: Fn(Op) -> Single>(self, k: Arith<F>, bank_drive: Single, n: int) -> Ringing
        decreases n,
    {
        if n <= 0 {
            self
        } else {
            self.frames(k, bank_drive, n - 1).frame(k, bank_drive, n - 1)
        }
    }
}

impl<F: Fn(Op) -> Single> ModalState<F> {
    /// The strike of a hammer on this instrument.
    pub open spec fn strike(self, note: u8, velocity: u8) -> Strike {
        Strike { sr: self.sr, knobs: self.knobs, note, velocity, una: self.una_corda }
    }

    /// After a note has been struck: earlier voices of the note are damped, a
    /// voice is stolen if need be, the new one sounds, and the other open
    /// strings ring with it.
    pub open spec fn struck(self, note: u8, velocity: u8) -> ModalState<F> {
        let s = self.strike(note, velocity);
        let p = params_at(self.k, self.layers, note, velocity);
        let room = with_room(self.k, self.voices.map_values(|v: VoiceState| restruck(self.k, self.sr, note, v)));
        let moved = spec_advance(self.rng);
        let strength = self.k.times(strike_rms(self.k, s, p), self.knobs.bank_ping);
        ModalState {
            voices: room.push(struck_voice(self.k, s, p, self.rng)),
            rng: self.bank.rng_after_ping(note, moved),
            held: self.held.update(note as int, true),
            bank: self.bank.pinged(self.k, note, strength, moved).with_open(note, true),
            ..self
        }
    }

    /// After a key has been let go: its voice is damped as far as the pedal is
    /// up, and its string closes unless the pedal holds it.
    pub open spec fn let_go(self, note: u8) -> ModalState<F> {
        let pressure = self.k.minus(one(), self.sustain_pos);
        ModalState {
            voices: self.voices.map_values(|v: VoiceState| released(self.k, self.sr, note, pressure, v)),
            held: self.held.update(note as int, false),
            bank: if self.sustain {
                self.bank
            } else {
                self.bank.with_open(note, false)
            },
            ..self
        }
    }

    /// After the pedal has moved: damping follows continuously, and the strings
    /// of the bank open or close as the pedal passes the middle.
    pub open spec fn pedal(self, position: Single) -> ModalState<F> {
        let down = spec_is_on(position);
        ModalState {
            sustain_pos: position,
            sustain: down,
            voices: self.voices.map_values(|v: VoiceState| pedaled(self.k, self.sr, position, v)),
            bank: if down == self.sustain {
                self.bank
            } else {
                gated(self.bank, self.held, down, BANK_NOTES as int)
            },
            ..self
        }
    }

    /// After another controller has moved.
    pub open spec fn control(self, controller: u8, value: Single) -> ModalState<F> {
        if controller == UNA_CORDA {
            ModalState { una_corda: spec_is_on(value), ..self }
        } else {
            self
        }
    }

    /// The mix of the voices for `n` frames.
    pub open spec fn mix(self, n: nat) -> MixState {
        let silence = Seq::new(n, |i: int| zero());
        (MixState { voices: self.voices, rng: self.rng, left: silence, right: silence }).mixed(
            self.k,
            self.sr,
            self.voices.len() as int,
        )
    }

    /// The strings and the body under `n` frames.
    pub open spec fn ring(self, n: nat) -> Ringing {
        let m = self.mix(n);
        (Ringing { bank: self.bank, body: self.body, left: m.left, right: m.right }).frames(
            self.k,
            self.knobs.bank_drive,
            n as int,
        )
    }

    /// After a block of `n` frames; voices that have died away are dropped.
    pub open spec fn played(self, n: nat) -> ModalState<F> {
        let m = self.mix(n);
        let r = self.ring(n);
        ModalState {
            voices: sounding(self.k, m.voices, m.voices.len() as int),
            rng: m.rng,
            bank: r.bank,
            body: r.body,
            ..self
        }
    }

    /// What the state of an instrument keeps:
    /// - a string is open exactly while its key is held, the pedal is down, or
    ///   it has no damper;
    /// - the key of every held voice is down, and no note has two held voices;
    /// - no damper rests on the strings of a held voice;
    /// - the pedal counts as down from the middle of its way on;
    /// - the strings of every voice fill whole lanes, and no line of the body is
    ///   empty;
    /// - the body rings at the gain of its knob.
    pub open spec fn consistent(self) -> bool {
        &&& self.held.len() == 128
        &&& self.voices.len() <= MAX_VOICES
        &&& self.bank.sized()
        &&& self.bank.gated()
        &&& self.body.lined()
        &&& self.body.gain == self.knobs.body_gain
        &&& self.sustain == spec_is_on(self.sustain_pos)
        &&& forall|i: int| 0 <= i < self.voices.len() ==> (#[trigger] self.voices[i]).fits()
        &&& forall|s: int|
            0 <= s < BANK_NOTES ==> #[trigger] self.bank.open[s] == (self.held[LOWEST_NOTE + s] || self.sustain
                || undamped(s))
        &&& forall|i: int|
            0 <= i < self.voices.len() && (#[trigger] self.voices[i]).held ==> self.voices[i].note < 128
                && self.held[self.voices[i].note as int] && all_open(self.voices[i].res)
        &&& forall|i: int, j: int|
            0 <= i < j < self.voices.len() && (#[trigger] self.voices[i]).held && (#[trigger] self.voices[j]).held
                ==> self.voices[i].note != self.voices[j].note
    }
}

/// Opening or closing a string keeps the bank in order.
proof fn lemma_opening(bank: BankState, note: u8, open: bool)
    requires
        bank.sized(),
        bank.gated(),
    ensures
        bank.with_open(note, open).sized(),
        bank.with_open(note, open).gated(),
{
}

/// What a movement of the pedal does to the strings.
proof fn lemma_gated(bank: BankState, held: Seq<bool>, down: bool, n: int)
    requires
        bank.sized(),
        bank.gated(),
        held.len() == 128,
        0 <= n <= BANK_NOTES,
    ensures
        gated(bank, held, down, n).sized(),
        gated(bank, held, down, n).gated(),
        forall|s: int|
            0 <= s < BANK_NOTES ==> #[trigger] gated(bank, held, down, n).open[s] == (if s >= n {
                bank.open[s]
            } else {
                down || undamped(s) || (held[LOWEST_NOTE + s] && bank.open[s])
            }),
    decreases n,
{
    if n > 0 {
        lemma_gated(bank, held, down, n - 1);
        let rest = gated(bank, held, down, n - 1);
        let note = (LOWEST_NOTE + n - 1) as u8;
        lemma_opening(rest, note, true);
        lemma_opening(rest, note, false);
        assert(rest.open[n - 1] == bank.open[n - 1]);
    }
}

/// Nothing about a block of a voice touches its key or its dampers.
proof fn lemma_block<F: Fn(Op) -> Single>(k: Arith<F>, sr: Single, s: BlockState)
    ensures
        s.block(k, sr).voice.note == s.voice.note,
        s.block(k, sr).voice.held == s.voice.held,
        all_open(s.voice.res) ==> all_open(s.block(k, sr).voice.res),
        s.voice.fits() ==> s.block(k, sr).voice.fits(),
{
    let n = s.left.len() as int;
    let opened = BlockState { voice: s.voice.opened(k, sr, n as u64), ..s };
    lemma_frames(k, opened, s.voice.damper_blend, n);
    let played = opened.frames(k, s.voice.damper_blend, n);
    lemma_kept_len(k, played.voice.res, played.voice.res.len() as int);
    if all_open(s.voice.res) {
        assert(all_open(opened.voice.res));
        lemma_kept(k, played.voice.res, played.voice.res.len() as int);
    }
}

proof fn lemma_frames<F: Fn(Op) -> Single>(k: Arith<F>, s: BlockState, blend: Single, n: int)
    ensures
        s.frames(k, blend, n).voice.note == s.voice.note,
        s.frames(k, blend, n).voice.held == s.voice.held,
        s.frames(k, blend, n).voice.res.len() == s.voice.res.len(),
        all_open(s.voice.res) ==> all_open(s.frames(k, blend, n).voice.res),
    decreases n,
{
    if n > 0 {
        lemma_frames(k, s, blend, n - 1);
    }
}

proof fn lemma_kept_len<F: Fn(Op) -> Single>(k: Arith<F>, res: Seq<Resonator>, n: int)
    requires
        0 <= n <= res.len(),
    ensures
        kept(k, res, n).len() <= n,
    decreases n,
{
    if n > 0 {
        lemma_kept_len(k, res, n - 1);
    }
}

proof fn lemma_kept<F: Fn(Op) -> Single>(k: Arith<F>, res: Seq<Resonator>, n: int)
    requires
        0 <= n <= res.len(),
        all_open(res),
    ensures
        all_open(kept(k, res, n)),
    decreases n,
{
    if n > 0 {
        lemma_kept(k, res, n - 1);
    }
}

/// Mixing keeps every voice's key and dampers.
proof fn lemma_mixed<F: Fn(Op) -> Single>(k: Arith<F>, sr: Single, m: MixState, n: int)
    requires
        0 <= n <= m.voices.len(),
    ensures
        m.mixed(k, sr, n).voices.len() == m.voices.len(),
        forall|i: int|
            #![trigger m.mixed(k, sr, n).voices[i]]
            0 <= i < m.voices.len() ==> {
                &&& m.mixed(k, sr, n).voices[i].note == m.voices[i].note
                &&& m.mixed(k, sr, n).voices[i].held == m.voices[i].held
                &&& all_open(m.voices[i].res) ==> all_open(m.mixed(k, sr, n).voices[i].res)
                &&& m.voices[i].fits() ==> m.mixed(k, sr, n).voices[i].fits()
            },
    decreases n,
{
    if n > 0 {
        lemma_mixed(k, sr, m, n - 1);
        let p = m.mixed(k, sr, n - 1);
        lemma_block(k, sr, BlockState { voice: p.voices[n - 1], rng: p.rng, left: p.left, right: p.right });
    }
}

/// The sounding voices are some of the voices, in their order.
proof fn lemma_sounding<F: Fn(Op) -> Single>(k: Arith<F>, voices: Seq<VoiceState>, n: int, i: int, j: int) -> (r: (int, int))
    requires
        0 <= n <= voices.len(),
        0 <= i < j < sounding(k, voices, n).len(),
    ensures
        0 <= r.0 < r.1 < n,
        sounding(k, voices, n)[i] == voices[r.0],
        sounding(k, voices, n)[j] == voices[r.1],
    decreases n,
{
    let rest = sounding(k, voices, n - 1);
    if j < rest.len() {
        lemma_sounding(k, voices, n - 1, i, j)
    } else {
        (lemma_sounding_one(k, voices, n - 1, i), n - 1)
    }
}

proof fn lemma_sounding_one<F: Fn(Op) -> Single>(k: Arith<F>, voices: Seq<VoiceState>, n: int, i: int) -> (r: int)
    requires
        0 <= n <= voices.len(),
        0 <= i < sounding(k, voices, n).len(),
    ensures
        0 <= r < n,
        sounding(k, voices, n)[i] == voices[r],
    decreases n,
{
    let rest = sounding(k, voices, n - 1);
    if i < rest.len() {
        lemma_sounding_one(k, voices, n - 1, i)
    } else {
        n - 1
    }
}

proof fn lemma_sounding_len<F: Fn(Op) -> Single>(k: Arith<F>, voices: Seq<VoiceState>, n: int)
    requires
        0 <= n <= voices.len(),
    ensures
        sounding(k, voices, n).len() <= n,
    decreases n,
{
    if n > 0 {
        lemma_sounding_len(k, voices, n - 1);
    }
}

/// Every sounding voice is held by its key, if at all, and by it alone.
pub open spec fn keys_agree(voices: Seq<VoiceState>, held: Seq<bool>) -> bool {
    &&& forall|i: int|
        0 <= i < voices.len() && (#[trigger] voices[i]).held ==> voices[i].note < 128
            && held[voices[i].note as int] && all_open(voices[i].res)
    &&& forall|i: int, j: int|
        0 <= i < j < voices.len() && (#[trigger] voices[i]).held && (#[trigger] voices[j]).held
            ==> voices[i].note != voices[j].note
}

/// A strike keeps the instrument consistent.
pub proof fn striking_is_consistent<F: Fn(Op) -> Single>(s: ModalState<F>, note: u8, velocity: u8)
    requires
        s.consistent(),
        note < 128,
    ensures
        s.struck(note, velocity).consistent(),
{
    let t = s.struck(note, velocity);
    let damped = s.voices.map_values(|v: VoiceState| restruck(s.k, s.sr, note, v));
    let room = with_room(s.k, damped);
    let p = params_at(s.k, s.layers, note, velocity);
    crate::strike::strike_starts_open(s.k, s.strike(note, velocity), p, s.rng);
    assert forall|i: int| 0 <= i < damped.len() && (#[trigger] damped[i]).held implies damped[i] == s.voices[i]
        && s.voices[i].note != note by {
        assert(damped[i] == restruck(s.k, s.sr, note, s.voices[i]));
    }
    assert forall|i: int| 0 <= i < damped.len() implies (#[trigger] damped[i]).fits() by {
        assert(s.voices[i].fits());
    }
    assert(keys_agree(damped, s.held)) by {
        assert forall|i: int, j: int|
            0 <= i < j < damped.len() && (#[trigger] damped[i]).held && (#[trigger] damped[j]).held implies damped[i].note
            != damped[j].note by {
            assert(damped[i] == s.voices[i] && damped[j] == s.voices[j]);
        }
    }
    assert(keys_agree(room, s.held) && forall|i: int|
        0 <= i < room.len() && (#[trigger] room[i]).held ==> room[i].note != note) by {
        if damped.len() >= MAX_VOICES {
            theft_keeps_the_others(damped, energies(s.k, damped));
        }
    }
    if damped.len() >= MAX_VOICES {
        theft_keeps_the_others(damped, energies(s.k, damped));
    }
    let strength = s.k.times(strike_rms(s.k, s.strike(note, velocity), p), s.knobs.bank_ping);
    let pinged = s.bank.pinged(s.k, note, strength, spec_advance(s.rng));
    assert(pinged.sized() && pinged.gated());
    lemma_opening(pinged, note, true);
    assert forall|i: int| 0 <= i < t.voices.len() implies (#[trigger] t.voices[i]).fits() by {
        if i < room.len() {
            assert(room[i] == t.voices[i]);
        }
    }
    assert(keys_agree(t.voices, t.held));
    assert(t.voices.len() <= MAX_VOICES);
    assert(t.bank.sized() && t.bank.gated());
    assert forall|x: int| 0 <= x < BANK_NOTES implies #[trigger] t.bank.open[x] == (t.held[LOWEST_NOTE + x] || t.sustain
        || undamped(x)) by {
        assert(s.bank.open[x] == (s.held[LOWEST_NOTE + x] || s.sustain || undamped(x)));
        assert(pinged.open == s.bank.open);
    }
}

/// Letting a key go keeps the instrument consistent.
pub proof fn letting_go_is_consistent<F: Fn(Op) -> Single>(s: ModalState<F>, note: u8)
    requires
        s.consistent(),
        note < 128,
    ensures
        s.let_go(note).consistent(),
{
    let t = s.let_go(note);
    let pressure = s.k.minus(one(), s.sustain_pos);
    lemma_opening(s.bank, note, false);
    assert forall|i: int| 0 <= i < t.voices.len() implies (#[trigger] t.voices[i]).fits() by {
        assert(s.voices[i].fits());
    }
    assert forall|i: int| 0 <= i < t.voices.len() && (#[trigger] t.voices[i]).held implies t.voices[i] == s.voices[i]
        && s.voices[i].note != note by {
        assert(t.voices[i] == released(s.k, s.sr, note, pressure, s.voices[i]));
    }
    assert(keys_agree(t.voices, t.held)) by {
        assert forall|i: int, j: int|
            0 <= i < j < t.voices.len() && (#[trigger] t.voices[i]).held && (#[trigger] t.voices[j]).held implies t.voices[i].note
            != t.voices[j].note by {
            assert(t.voices[i] == s.voices[i] && t.voices[j] == s.voices[j]);
        }
    }
}

/// The pedal keeps the instrument consistent.
pub proof fn pedaling_is_consistent<F: Fn(Op) -> Single>(s: ModalState<F>, position: Single)
    requires
        s.consistent(),
    ensures
        s.pedal(position).consistent(),
{
    let t = s.pedal(position);
    lemma_gated(s.bank, s.held, spec_is_on(position), BANK_NOTES as int);
    assert forall|i: int| 0 <= i < t.voices.len() implies (#[trigger] t.voices[i]).fits() by {
        assert(s.voices[i].fits());
    }
    assert forall|i: int| 0 <= i < t.voices.len() && (#[trigger] t.voices[i]).held implies t.voices[i] == s.voices[i] by {
        assert(t.voices[i] == pedaled(s.k, s.sr, position, s.voices[i]));
    }
    assert(keys_agree(t.voices, t.held)) by {
        assert forall|i: int, j: int|
            0 <= i < j < t.voices.len() && (#[trigger] t.voices[i]).held && (#[trigger] t.voices[j]).held implies t.voices[i].note
            != t.voices[j].note by {
            assert(t.voices[i] == s.voices[i] && t.voices[j] == s.voices[j]);
        }
    }
}

proof fn lemma_ringing<F: Fn(Op) -> Single>(k: Arith<F>, r: Ringing, drive: Single, n: int)
    requires
        r.bank.sized(),
        r.bank.gated(),
    ensures
        r.frames(k, drive, n).bank.sized(),
        r.frames(k, drive, n).bank.gated(),
        r.frames(k, drive, n).bank.open == r.bank.open,
        r.body.lined() ==> r.frames(k, drive, n).body.lined(),
        r.frames(k, drive, n).body.gain == r.body.gain,
    decreases n,
{
    if n > 0 {
        lemma_ringing(k, r, drive, n - 1);
    }
}

/// Playing keeps the instrument consistent.
pub proof fn playing_is_consistent<F: Fn(Op) -> Single>(s: ModalState<F>, n: nat)
    requires
        s.consistent(),
    ensures
        s.played(n).consistent(),
{
    let t = s.played(n);
    let silence = Seq::new(n, |i: int| zero());
    let m0 = MixState { voices: s.voices, rng: s.rng, left: silence, right: silence };
    lemma_mixed(s.k, s.sr, m0, s.voices.len() as int);
    let m = s.mix(n);
    lemma_ringing(
        s.k,
        Ringing { bank: s.bank, body: s.body, left: m.left, right: m.right },
        s.knobs.bank_drive,
        n as int,
    );
    lemma_sounding_len(s.k, m.voices, m.voices.len() as int);
    assert(keys_agree(m.voices, s.held));
    assert forall|i: int| 0 <= i < t.voices.len() implies (#[trigger] t.voices[i]).fits() by {
        let a = lemma_sounding_one(s.k, m.voices, m.voices.len() as int, i);
        assert(s.voices[a].fits());
        assert(m.voices[a].fits());
    }
    assert(keys_agree(t.voices, t.held)) by {
        assert forall|i: int| 0 <= i < t.voices.len() && (#[trigger] t.voices[i]).held implies t.voices[i].note < 128
            && t.held[t.voices[i].note as int] && all_open(t.voices[i].res) by {
            let a = lemma_sounding_one(s.k, m.voices, m.voices.len() as int, i);
            assert(t.voices[i] == m.voices[a]);
        }
        assert forall|i: int, j: int|
            0 <= i < j < t.voices.len() && (#[trigger] t.voices[i]).held && (#[trigger] t.voices[j]).held implies t.voices[i].note
            != t.voices[j].note by {
            let ab = lemma_sounding(s.k, m.voices, m.voices.len() as int, i, j);
            assert(t.voices[i] == m.voices[ab.0] && t.voices[j] == m.voices[ab.1]);
        }
    }
}

/// A new instrument: silent, with all keys up and the pedals too.
pub open spec fn new_modal<F: Fn(Op) -> Single>(
    k: Arith<F>,
    sr: Single,
    layers: Seq<LayerState>,
    knobs: Knobs,
    strings: Seq<BankString>,
) -> ModalState<F> {
    ModalState {
        k,
        sr,
        layers,
        voices: Seq::empty(),
        sustain: false,
        sustain_pos: zero(),
        una_corda: false,
        rng: SEED,
        held: Seq::new(128, |i: int| false),
        bank: BankState {
            strings,
            open: Seq::new(BANK_NOTES as nat, |s: int| undamped(s)),
            ping: couplings(k, sr, layers, strings),
        },
        body: quiet_body(k, sr, knobs.body_gain),
        knobs,
    }
}

impl<F: Fn(Op) -> Single> ModalV2<F> {
    closed spec fn wf(&self) -> bool {
        &&& self.cal.wf()
        &&& self.cal@.len() > 0
        &&& self.voices.wf()
        &&& self.bank.wf()
        &&& self.body.wf()
        &&& self@.consistent()
    }

    /// What an instrument in use keeps.
    pub proof fn lemma_ready(&self)
        requires
            self.ready(),
        ensures
            self@.consistent(),
    {
    }

    /// An instrument at the given sample rate, tuned from a calibration.
    pub fn new(k: Arith<F>, sr: Single, cal: Calibration, knobs: Knobs) -> (r: ModalV2<F>)
        requires
            cal.wf(),
            cal@.len() > 0,
        ensures
            r.ready(),
            r@ == new_modal(k, sr, cal@, knobs, tuned_strings(k, sr, cal@)),
    {
        let bank = StringBank::new(&k, sr, &cal);
        let body = Body::new(&k, sr, knobs.body_gain);
        let r = ModalV2 {
            k,
            sr,
            cal,
            voices: Voices::new(),
            sustain: false,
            sustain_pos: zero(),
            una_corda: false,
            rng: SEED,
            held: [false; 128],
            bank,
            body,
            knobs,
        };
        proof {
            r.bank.lemma_wf();
            assert(r@.held =~= Seq::new(128, |i: int| false));
        }
        r
    }

    /// The arithmetic of the instrument.
    pub fn arith(&self) -> (k: &Arith<F>)
        ensures
            *k == self@.k,
    {
        &self.k
    }

    /// How many voices sound.
    pub fn voice_count(&self) -> (n: usize)
        ensures
            n == self@.voices.len(),
    {
        self.voices.len()
    }

    /// Sets the knob of that name; an unknown name sets none.
    pub fn set_param(&mut self, name: &str, value: Single)
        requires
            old(self).ready(),
        ensures
            final(self).ready(),
            final(self)@ == old(self)@.with_knob(name@, value),
    {
        self.knobs.set(name, value);
        self.body.set_gain(self.knobs.body_gain);
    }
}

impl<F: Fn(Op) -> Single> ModalState<F> {
    /// With the knob of that name set; the body follows its gain at once.
    pub open spec fn with_knob(self, name: Seq<char>, value: Single) -> ModalState<F> {
        let knobs = self.knobs.with(name, value);
        ModalState { knobs, body: BodyState { gain: knobs.body_gain, ..self.body }, ..self }
    }
}

impl<F: Fn(Op) -> Single> Synth<Single> for ModalV2<F> {
    type Model = ModalState<F>;

    open spec fn model(&self) -> ModalState<F> {
        self@
    }

    closed spec fn ready(&self) -> bool {
        self.wf()
    }

    open spec fn takes(note: u8) -> bool {
        note < 128
    }

    open spec fn told(m: ModalState<F>, kind: EventKind) -> ModalState<F> {
        match kind {
            EventKind::NoteOn { note, velocity } => m.struck(note, velocity),
            EventKind::NoteOff { note } => m.let_go(note),
            EventKind::Sustain { position } => m.pedal(position),
            EventKind::Control { controller, value } => m.control(controller, value),
        }
    }

    open spec fn played(m: ModalState<F>, n: nat) -> ModalState<F> {
        m.played(n)
    }

    open spec fn sounded(m: ModalState<F>, n: nat) -> (Seq<Single>, Seq<Single>) {
        (m.ring(n).left, m.ring(n).right)
    }

    fn note_on(&mut self, note: u8, velocity: u8) {
        let ghost before = self@;
        proof {
            striking_is_consistent(before, note, velocity);
        }
        self.voices.restrike(&self.k, self.sr, note);
        self.voices.make_room(&self.k);
        let params: NoteParams = self.cal.lookup(&self.k, note, velocity);
        let s = Strike { sr: self.sr, knobs: self.knobs, note, velocity, una: self.una_corda };
        let voice: Voice = strike_voice(&self.k, s, &params, self.rng);
        self.voices.push(voice);
        self.rng = advance(self.rng);
        self.held[note as usize] = true;
        let target: Single = self.k.target_rms(velocity, params.loudness_db, self.una_corda);
        let strength: Single = self.k.times(target, self.knobs.bank_ping);
        self.rng = self.bank.ping(&self.k, note, strength, self.rng);
        self.bank.set_open(note, true);
        assert(self@ =~= before.struck(note, velocity));
    }

    fn note_off(&mut self, note: u8) {
        let ghost before = self@;
        proof {
            letting_go_is_consistent(before, note);
        }
        self.held[note as usize] = false;
        let pressure: Single = self.k.minus(one(), self.sustain_pos);
        self.voices.release(&self.k, self.sr, note, pressure);
        if !self.sustain {
            self.bank.set_open(note, false);
        }
        assert(self@ =~= before.let_go(note));
    }

    fn set_sustain(&mut self, position: Single) {
        let ghost before = self@;
        proof {
            pedaling_is_consistent(before, position);
        }
        self.sustain_pos = position;
        let down: bool = is_on(position);
        self.voices.pedal(&self.k, self.sr, position);
        if down != self.sustain {
            self.sustain = down;
            let ghost mid = *self;
            let mut s: u8 = 0;
            while s < 88
                invariant
                    s <= 88,
                    self.bank.wf(),
                    self.held@.len() == 128,
                    self.held@ == before.held,
                    self.bank@ == gated(before.bank, before.held, down, s as int),
                    *self == (ModalV2 { bank: self.bank, ..mid }),
                decreases 88 - s,
            {
                let note: u8 = LOWEST_NOTE + s;
                if down {
                    self.bank.set_open(note, true);
                } else if !self.held[note as usize] {
                    self.bank.set_open(note, false);
                }
                s += 1;
            }
        }
        assert(self@ =~= before.pedal(position));
    }

    fn set_control(&mut self, controller: u8, value: Single) {
        if controller == UNA_CORDA {
            self.una_corda = is_on(value);
        }
    }

    fn process(&mut self, left: &mut [Single], right: &mut [Single]) {
        let ghost before = self@;
        proof {
            playing_is_consistent(before, left@.len());
        }
        let n: usize = left.len();
        silence(left);
        silence(right);
        self.rng = self.voices.process(&self.k, self.sr, left, right, self.rng);
        let ghost mixed = *self;
        let ghost mix = before.mix(n as nat);
        let ghost start = Ringing { bank: before.bank, body: before.body, left: mix.left, right: mix.right };
        let mut i: usize = 0;
        while i < n
            invariant
                i <= n,
                left@.len() == n,
                right@.len() == n,
                self.bank.wf(),
                self.body.wf(),
                *self == (ModalV2 { bank: self.bank, body: self.body, ..mixed }),
                mixed.k == before.k,
                mixed.knobs == before.knobs,
                (Ringing { bank: self.bank@, body: self.body@, left: left@, right: right@ }) == start.frames(
                    before.k,
                    before.knobs.bank_drive,
                    i as int,
                ),
            decreases n - i,
        {
            let drive: Single = self.k.times(self.k.plus(left[i], right[i]), self.knobs.bank_drive);
            let b: (Single, Single) = self.bank.step(&self.k, drive);
            let l: Single = self.k.plus(left[i], self.k.times(b.0, one()));
            let r: Single = self.k.plus(right[i], self.k.times(b.1, one()));
            let out: Single = self.body.step(&self.k, self.k.mono(l, r));
            left[i] = self.k.plus(l, out);
            right[i] = self.k.plus(r, out);
            i += 1;
        }
        self.voices.retain(&self.k);
        assert(self@ =~= before.played(n as nat));
    }
}

/// Moving the pedal changes no voice whose key is held, and adds or drops none;
/// moving it to where it is, where felt bites or the dampers are lifted, changes
/// nothing at all.
pub proof fn pedaling_twice_is_pedaling_once<F: Fn(Op) -> Single>(s: ModalState<F>, position: Single)
    requires
        s.k.minus(one(), position).le(number(N0_02)) || felt_bites(s.k, s.sr, s.k.minus(one(), position)),
    ensures
        s.pedal(position).pedal(position) == s.pedal(position),
        s.pedal(position).voices.len() == s.voices.len(),
        forall|i: int|
            0 <= i < s.voices.len() && (#[trigger] s.voices[i]).held ==> s.pedal(position).voices[i] == s.voices[i],
{
    let once = s.pedal(position);
    let twice = once.pedal(position);
    assert forall|i: int| 0 <= i < s.voices.len() implies #[trigger] twice.voices[i] == once.voices[i] by {
        pedal_acts_by_position(s.k, s.sr, position, s.voices[i]);
        assert(once.voices[i] == pedaled(s.k, s.sr, position, s.voices[i]));
    }
    assert(twice.voices =~= once.voices);
    assert(twice =~= once);
}

/// Letting go of a key at the top of the keyboard, where there are no dampers,
/// leaves its strings open: those of its voices and the one of the bank.
pub proof fn letting_go_of_the_top_damps_nothing<F: Fn(Op) -> Single>(s: ModalState<F>, note: u8, i: int)
    requires
        s.consistent(),
        UNDAMPED_NOTE <= note < 128,
        0 <= i < s.voices.len(),
        s.voices[i].note == note,
        s.voices[i].held,
    ensures
        !s.let_go(note).voices[i].held,
        s.let_go(note).voices[i].res == s.voices[i].res,
        all_open(s.let_go(note).voices[i].res),
        note < LOWEST_NOTE + BANK_NOTES ==> s.let_go(note).bank.open[note - LOWEST_NOTE],
{
    letting_go_is_consistent(s, note);
    top_notes_ring_on(s.k, s.sr, note, s.k.minus(one(), s.sustain_pos), s.sustain_pos, s.voices[i]);
    if note < LOWEST_NOTE + BANK_NOTES {
        assert(undamped(note - LOWEST_NOTE));
    }
}

/// To set a knob that there is not changes nothing.
pub proof fn unknown_knobs_change_nothing<F: Fn(Op) -> Single>(s: ModalState<F>, name: Seq<char>, value: Single)
    requires
        s.consistent(),
        !is_knob(name),
    ensures
        s.with_knob(name, value) == s,
{
}

/// A knob keeps the instrument consistent.
pub proof fn tuning_is_consistent<F: Fn(Op) -> Single>(s: ModalState<F>, name: Seq<char>, value: Single)
    requires
        s.consistent(),
    ensures
        s.with_knob(name, value).consistent(),
{
}

/// Damping a voice leaves it as loud as it was.
proof fn lemma_restruck_energy<F: Fn(Op) -> Single>(k: Arith<F>, sr: Single, note: u8, v: VoiceState, start: Single, n: int)
    requires
        0 <= n <= v.res.len(),
    ensures
        energy_from(k, start, restruck(k, sr, note, v).res, n) == energy_from(k, start, v.res, n),
    decreases n,
{
    if n > 0 {
        lemma_restruck_energy(k, sr, note, v, start, n - 1);
    }
}

/// A strike adds one voice, held and last, for the note. While there is room the
/// other voices are those from before, each damped if it was of this note. Where
/// there is none, one of them is gone, none of which was quieter, and the last
/// takes its place.
pub proof fn striking_adds_one_voice<F: Fn(Op) -> Single>(s: ModalState<F>, note: u8, velocity: u8)
    requires
        s.consistent(),
        note < 128,
    ensures
        s.struck(note, velocity).voices.len() == (if s.voices.len() < MAX_VOICES {
            s.voices.len() + 1
        } else {
            MAX_VOICES as nat
        }),
        s.struck(note, velocity).voices.last().note == note,
        s.struck(note, velocity).voices.last().held,
        s.voices.len() < MAX_VOICES ==> forall|i: int|
            0 <= i < s.voices.len() ==> #[trigger] s.struck(note, velocity).voices[i] == restruck(
                s.k,
                s.sr,
                note,
                s.voices[i],
            ),
        s.voices.len() == MAX_VOICES ==> ({
            let gone = quietest(energies(s.k, s.voices));
            &&& 0 <= gone < s.voices.len()
            &&& forall|i: int|
                0 <= i < s.voices.len() ==> s.voices[gone].energy(s.k).total_order() <= (#[trigger] s.voices[i]).energy(
                    s.k,
                ).total_order()
            &&& forall|i: int|
                0 <= i < s.voices.len() - 1 ==> #[trigger] s.struck(note, velocity).voices[i] == restruck(
                    s.k,
                    s.sr,
                    note,
                    s.voices[if i == gone {
                        s.voices.len() - 1
                    } else {
                        i
                    }],
                )
        }),
{
    let damped = s.voices.map_values(|v: VoiceState| restruck(s.k, s.sr, note, v));
    let p = params_at(s.k, s.layers, note, velocity);
    crate::strike::strike_starts_open(s.k, s.strike(note, velocity), p, s.rng);
    if s.voices.len() == MAX_VOICES {
        let levels = energies(s.k, s.voices);
        assert(energies(s.k, damped) =~= levels) by {
            assert forall|i: int| 0 <= i < levels.len() implies energies(s.k, damped)[i] == levels[i] by {
                let v = s.voices[i];
                lemma_restruck_energy(
                    s.k,
                    s.sr,
                    note,
                    v,
                    s.k.loudness(v.tone.noise_amp, v.tone.bed_amp),
                    v.res.len() as int,
                );
            }
        }
        quietest_exists(levels);
        theft_keeps_the_others(damped, levels);
        let gone = quietest(levels);
        assert forall|i: int| 0 <= i < s.voices.len() implies s.voices[gone].energy(s.k).total_order() <= (
        #[trigger] s.voices[i]).energy(s.k).total_order() by {
            assert(levels[i] == s.voices[i].energy(s.k));
            assert(levels[gone] == s.voices[gone].energy(s.k));
        }
    }
}

} // verus!
