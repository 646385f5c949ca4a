//! What keys and pedals do to the strings of the instrument: how far the felt
//! comes down on a string goes by where the pedal is, and by nothing else.

use crate::arith::{Arith, Op};
use crate::bank::{BANK_NOTES, LOWEST_NOTE};
use crate::constant::{N0_02, N0_045, N0_4, N0_6, N4, N60};
use crate::modal2::{ModalState, Ringing, letting_go_is_consistent, pedaling_is_consistent};
use crate::number::{Single, number, one, zero};
use crate::voice::{Resonator, Tone, VoiceState, fully_open};
use crate::voices::{MAX_VOICES, MixState, released, restruck, under_damper};
use vstd::prelude::*;

verus! {

/// The felt rests on every string of the voice that sounds, at `pressure`; next
/// to no pressure leaves all of them open. The strings are otherwise those of
/// `before`.
pub open spec fn felt_rests<F: Fn(Op) -> Single>(
    k: Arith<F>,
    sr: Single,
    pressure: Single,
    before: VoiceState,
    after: VoiceState,
) -> bool {
    &&& after.res.len() == before.res.len()
    &&& forall|r: int|
        0 <= r < after.res.len() ==> {
            &&& (#[trigger] after.res[r]) == (Resonator { damping: after.res[r].damping, ..before.res[r] })
            &&& pressure.le(number(N0_02)) ==> after.res[r].damping == one()
            &&& !pressure.le(number(N0_02)) && !before.res[r].decay.zero_valued() ==> after.res[r].damping
                == k.felt(before.note, sr, pressure, before.res[r].base_w)
        }
}

/// A key that is let go with the pedal at `position` lays the felt on its
/// strings by the rest of the way: at the pressure of one less the position that
/// the pedal was last moved to, half way down as at either end.
pub proof fn releases_damp_by_the_pedal<F: Fn(Op) -> Single>(s: ModalState<F>, position: Single, note: u8, i: int)
    requires
        note < 90,
        0 <= i < s.voices.len(),
        s.voices[i].note == note,
        s.voices[i].held,
    ensures
        !s.pedal(position).let_go(note).voices[i].held,
        felt_rests(
            s.k,
            s.sr,
            s.k.minus(one(), position),
            s.voices[i],
            s.pedal(position).let_go(note).voices[i],
        ),
{
    assert(s.pedal(position).voices[i] == s.voices[i]);
}

/// To move the pedal to where it is, right after a key was let go, changes
/// nothing about the strings of that key: its release had laid the felt on them
/// as far as the pedal lets it.
pub proof fn releases_and_pedal_agree<F: Fn(Op) -> Single>(s: ModalState<F>, note: u8, i: int)
    requires
        s.consistent(),
        note < 90,
        0 <= i < s.voices.len(),
        s.voices[i].note == note,
        s.voices[i].held,
    ensures
        s.let_go(note).pedal(s.sustain_pos).voices[i].res == s.let_go(note).voices[i].res,
        s.let_go(note).pedal(s.sustain_pos).voices[i].damper_blend == s.let_go(note).voices[i].damper_blend,
{
    let once = s.let_go(note).voices[i];
    let twice = s.let_go(note).pedal(s.sustain_pos).voices[i];
    let pressure = s.k.minus(one(), s.sustain_pos);
    assert(once.note == note && !once.held);
    assert(fully_open(s.voices[i].res));
    assert forall|r: int| 0 <= r < once.res.len() implies once.res[r] == twice.res[r] by {
        assert(s.voices[i].res[r].damping == one());
    }
    assert(twice.res =~= once.res);
}

/// It does not matter whether the pedal moves before a key is let go or after:
/// the felt comes to rest at the same pressure.
pub proof fn pedal_before_or_after_release<F: Fn(Op) -> Single>(
    s: ModalState<F>,
    first: Single,
    position: Single,
    note: u8,
    i: int,
)
    requires
        s.consistent(),
        note < 90,
        0 <= i < s.voices.len(),
        s.voices[i].note == note,
        s.voices[i].held,
    ensures
        s.pedal(first).let_go(note).pedal(position).voices[i].res == s.pedal(position).let_go(note).voices[i].res,
{
    let after = s.pedal(first).let_go(note).pedal(position).voices[i];
    let before = s.pedal(position).let_go(note).voices[i];
    assert(s.pedal(first).voices[i] == s.voices[i]);
    assert(s.pedal(position).voices[i] == s.voices[i]);
    assert forall|r: int| 0 <= r < before.res.len() implies after.res[r] == before.res[r] by {
        assert(s.voices[i].res[r].damping == one());
    }
    assert(after.res =~= before.res);
}

/// Letting go of a key under dampers that are mostly down makes the bed die
/// within six tenths of a second and adds the thud of the felt, which never
/// makes the noise of the voice softer; under dampers that are mostly up, or at
/// the top of the keyboard, there is no thud, and the bed rings on.
pub proof fn dampers_thud_as_they_fall<F: Fn(Op) -> Single>(s: ModalState<F>, note: u8, i: int)
    requires
        0 <= i < s.voices.len(),
        s.voices[i].note == note,
        s.voices[i].held,
    ensures
        ({
            let pressure = s.k.minus(one(), s.sustain_pos);
            let before = s.voices[i].tone;
            let after = s.let_go(note).voices[i].tone;
            &&& !number(N0_4).lt(pressure) ==> after == before
            &&& number(N0_4).lt(pressure) ==> {
                &&& after.bed_decay == s.k.decay_factor(s.k.over(number(N60), number(N0_6)), s.sr)
                &&& after.bed_amp == before.bed_amp
                &&& note >= 90 ==> after == (Tone { bed_decay: after.bed_decay, ..before })
                &&& note < 90 ==> {
                    &&& after.noise_decay == s.k.decay_factor(s.k.over(number(N60), number(N0_045)), s.sr)
                    &&& !before.noise_amp.nan() && !after.noise_amp.nan() ==> before.noise_amp.le(after.noise_amp)
                    &&& after.noise_amp == before.noise_amp || after.noise_amp == s.k.thud_level(
                        s.let_go(note).voices[i].energy_of(s.k, before),
                    )
                }
            }
        }),
{
    let pressure = s.k.minus(one(), s.sustain_pos);
    let lifted = VoiceState { held: false, ..s.voices[i] };
    let damped = under_damper(s.k, s.sr, pressure, lifted);
    assert(damped.tone == s.voices[i].tone);
    let after = s.let_go(note).voices[i];
    assert(after == released(s.k, s.sr, note, pressure, s.voices[i]));
    assert(after.res == damped.res);
    assert(after.energy_of(s.k, s.voices[i].tone) == damped.energy(s.k));
}

impl VoiceState {
    /// How loud the voice would be with the noise and the bed of `tone`.
    pub open spec fn energy_of<F: Fn(Op) -> Single>(self, k: Arith<F>, tone: Tone) -> Single {
        (VoiceState { tone, ..self }).energy(k)
    }
}

/// Letting go of a key concerns its own held voice, its own string and nothing
/// else.
pub proof fn releases_are_local<F: Fn(Op) -> Single>(s: ModalState<F>, note: u8)
    requires
        s.consistent(),
        note < 128,
    ensures
        s.let_go(note).voices.len() == s.voices.len(),
        forall|i: int|
            0 <= i < s.voices.len() && ((#[trigger] s.voices[i]).note != note || !s.voices[i].held) ==> s.let_go(
                note,
            ).voices[i] == s.voices[i],
        forall|m: int| 0 <= m < 128 ==> #[trigger] s.let_go(note).held[m] == (s.held[m] && m != note),
        forall|b: int|
            0 <= b < BANK_NOTES && b != note - LOWEST_NOTE ==> #[trigger] s.let_go(note).bank.open[b] == s.bank.open[b],
        forall|b: int|
            0 <= b < BANK_NOTES && b == note - LOWEST_NOTE ==> #[trigger] s.let_go(note).bank.open[b] == (s.sustain
                || note >= 90),
        s.let_go(note).rng == s.rng,
        s.let_go(note).body == s.body,
        s.let_go(note).knobs == s.knobs,
        s.let_go(note).una_corda == s.una_corda,
        s.let_go(note).sustain_pos == s.sustain_pos,
        s.let_go(note).sustain == s.sustain,
{
    letting_go_is_consistent(s, note);
    assert forall|b: int| 0 <= b < BANK_NOTES && b == note - LOWEST_NOTE implies #[trigger] s.let_go(
        note,
    ).bank.open[b] == (s.sustain || note >= 90) by {
        assert(s.let_go(note).held[note as int] == false);
    }
}

/// Moving the pedal lays the felt on the strings of every released voice by the
/// rest of the way, wherever the pedal was before; it is down from one half on,
/// and then the beds ring on at four decibels a second, else they die within six
/// tenths of a second. Held voices and everything else stay as they are.
pub proof fn pedal_damps_by_position<F: Fn(Op) -> Single>(s: ModalState<F>, position: Single, i: int)
    requires
        0 <= i < s.voices.len(),
    ensures
        s.pedal(position).sustain_pos == position,
        s.pedal(position).sustain <==> number(0x3F00_0000).le(position),
        s.voices[i].held ==> s.pedal(position).voices[i] == s.voices[i],
        !s.voices[i].held && s.voices[i].note < 90 ==> felt_rests(
            s.k,
            s.sr,
            s.k.minus(one(), position),
            s.voices[i],
            s.pedal(position).voices[i],
        ),
        !s.voices[i].held ==> s.pedal(position).voices[i].tone == (Tone {
            bed_decay: if number(0x3F00_0000).le(position) {
                s.k.decay_factor(number(N4), s.sr)
            } else {
                s.k.decay_factor(s.k.over(number(N60), number(N0_6)), s.sr)
            },
            ..s.voices[i].tone
        }),
        s.pedal(position).rng == s.rng,
        s.pedal(position).held == s.held,
        s.pedal(position).body == s.body,
        s.pedal(position).knobs == s.knobs,
        s.pedal(position).una_corda == s.una_corda,
{
}

/// The pedal has no memory: where it went before leaves no trace on the strings
/// that sound, on the beds or on the strings of the bank.
pub proof fn pedal_has_no_memory<F: Fn(Op) -> Single>(s: ModalState<F>, first: Single, last: Single, i: int, r: int)
    requires
        s.consistent(),
        0 <= i < s.voices.len(),
        s.voices[i].note < 90,
        0 <= r < s.voices[i].res.len(),
        !s.voices[i].res[r].decay.zero_valued(),
    ensures
        s.pedal(first).pedal(last).voices[i].res[r] == s.pedal(last).voices[i].res[r],
        s.pedal(first).pedal(last).voices[i].tone == s.pedal(last).voices[i].tone,
        s.pedal(first).pedal(last).sustain == s.pedal(last).sustain,
        s.pedal(first).pedal(last).bank.open == s.pedal(last).bank.open,
{
    pedaling_is_consistent(s, first);
    pedaling_is_consistent(s.pedal(first), last);
    pedaling_is_consistent(s, last);
    let a = s.pedal(first).pedal(last);
    let b = s.pedal(last);
    assert forall|m: int| 0 <= m < BANK_NOTES implies #[trigger] a.bank.open[m] == b.bank.open[m] by {
    }
    assert(a.bank.open =~= b.bank.open);
}

/// Of the other controllers the instrument knows the soft pedal, controller 67:
/// the hammers are shifted from one half on, whatever they were before. Every
/// other controller changes nothing, and this one nothing else.
pub proof fn soft_pedal_shifts_the_hammers<F: Fn(Op) -> Single>(s: ModalState<F>, controller: u8, value: Single)
    ensures
        controller == 67 ==> (s.control(controller, value).una_corda <==> number(0x3F00_0000).le(value)),
        controller != 67 ==> s.control(controller, value) == s,
        s.control(controller, value) == (ModalState { una_corda: s.control(controller, value).una_corda, ..s }),
{
}

/// Striking a string that still sounds stops it: while there is room, every
/// earlier voice of the note is let go under the full weight of the felt, and
/// every voice of another note sounds on as it was.
pub proof fn striking_stops_the_string<F: Fn(Op) -> Single>(s: ModalState<F>, note: u8, velocity: u8, i: int)
    requires
        s.voices.len() < MAX_VOICES,
        0 <= i < s.voices.len(),
    ensures
        s.voices[i].note != note ==> s.struck(note, velocity).voices[i] == s.voices[i],
        s.voices[i].note == note ==> {
            &&& !s.struck(note, velocity).voices[i].held
            &&& s.struck(note, velocity).voices[i].tone == s.voices[i].tone
            &&& s.struck(note, velocity).voices[i].res.len() == s.voices[i].res.len()
            &&& forall|r: int|
                0 <= r < s.voices[i].res.len() && !(#[trigger] s.voices[i].res[r]).decay.zero_valued() ==> s.struck(
                    note,
                    velocity,
                ).voices[i].res[r] == (Resonator {
                    damping: s.k.felt(note, s.sr, one(), s.voices[i].res[r].base_w),
                    ..s.voices[i].res[r]
                })
        },
{
    assert(s.struck(note, velocity).voices[i] == restruck(s.k, s.sr, note, s.voices[i]));
    assert(!one().le(number(N0_02)));
}

/// A strike rings the bank by its own level and the coupling knob, and opens
/// the string of its key; the pedals, the body and the knobs stay as they are.
pub proof fn striking_rings_the_bank<F: Fn(Op) -> Single>(s: ModalState<F>, note: u8, velocity: u8, b: int)
    requires
        s.consistent(),
        note < 128,
        0 <= b < BANK_NOTES,
    ensures
        s.struck(note, velocity).bank.open[b] == (s.bank.open[b] || b == note - LOWEST_NOTE),
        forall|m: int| 0 <= m < 128 ==> #[trigger] s.struck(note, velocity).held[m] == (s.held[m] || m == note),
        s.struck(note, velocity).body == s.body,
        s.struck(note, velocity).knobs == s.knobs,
        s.struck(note, velocity).sustain == s.sustain,
        s.struck(note, velocity).sustain_pos == s.sustain_pos,
        s.struck(note, velocity).una_corda == s.una_corda,
{
}

/// Playing moves no key, no pedal and no knob.
pub proof fn playing_moves_no_control<F: Fn(Op) -> Single>(s: ModalState<F>, n: nat)
    ensures
        s.played(n).held == s.held,
        s.played(n).sustain == s.sustain,
        s.played(n).sustain_pos == s.sustain_pos,
        s.played(n).una_corda == s.una_corda,
        s.played(n).knobs == s.knobs,
        s.played(n).layers == s.layers,
        s.played(n).sr == s.sr,
        s.played(n).rng == s.mix(n).rng,
        s.played(n).bank == s.ring(n).bank,
        s.played(n).body == s.ring(n).body,
{
}

/// The mix starts from silence, with all voices and the generator as they are;
/// the strings and the body then go on from where they are, under the mix.
pub proof fn sound_starts_from_silence<F: Fn(Op) -> Single>(s: ModalState<F>, n: nat)
    ensures
        ({
            let silence = Seq::new(n, |i: int| zero());
            let start = MixState { voices: s.voices, rng: s.rng, left: silence, right: silence };
            let m = s.mix(n);
            &&& m == start.mixed(s.k, s.sr, s.voices.len() as int)
            &&& s.ring(n) == (Ringing { bank: s.bank, body: s.body, left: m.left, right: m.right }).frames(
                s.k,
                s.knobs.bank_drive,
                n as int,
            )
        }),
        s.voices.len() == 0 ==> s.mix(n).left == Seq::new(n, |i: int| zero()) && s.mix(n).right == Seq::new(
            n,
            |i: int| zero(),
        ) && s.mix(n).rng == s.rng,
{
}

/// Turning a knob changes the knobs and the gain of the body, which follows its
/// own at once; whatever sounds goes on as it was.
pub proof fn knobs_leave_the_sound<F: Fn(Op) -> Single>(s: ModalState<F>, name: Seq<char>, value: Single)
    ensures
        ({
            let t = s.with_knob(name, value);
            &&& t.knobs == s.knobs.with(name, value)
            &&& t.body.gain == t.knobs.body_gain
            &&& t.body.lines == s.body.lines
            &&& t.body.damp == s.body.damp
            &&& t.body.fb == s.body.fb
            &&& t.voices == s.voices
            &&& t.bank == s.bank
            &&& t.rng == s.rng
            &&& t.held == s.held
            &&& t.sustain == s.sustain
            &&& t.sustain_pos == s.sustain_pos
            &&& t.una_corda == s.una_corda
        }),
{
}

} // verus!
