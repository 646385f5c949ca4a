//! What each knob of the instrument does to the sound of a strike, and what it
//! leaves alone.

use crate::arith::{Arith, Op};
use crate::bank::carried;
use crate::body::{BodyState, alternating};
use crate::calibration::{ParamsState, params_at};
use crate::constant::{
    LN_2, N0_002, N0_02, N0_05, N0_06, N0_09, N0_12, N0_3, N0_5, N0_65, N1000, N1200, N1_2, N3, N300,
};
use crate::delay::taps_of;
use crate::formula::spec_lowpass;
use crate::knobs::Knobs;
use crate::modal2::{ModalState, Ringing};
use crate::number::{Single, number, one, zero};
use crate::rng::{spec_advance, spec_xorshift};
use crate::strike::{Strike, Strung, shape_of, strike_rms, struck_voice, strung};
use crate::voice::N_SLOTS;
use vstd::prelude::*;

verus! {

/// The same strike on an instrument with other knobs.
pub open spec fn with_knobs(s: Strike, knobs: Knobs) -> Strike {
    Strike { knobs, ..s }
}

/// Two strikes string alike: neither the knobs that shape the strings nor
/// anything else about the strings differs.
pub open spec fn string_alike(s: Strike, t: Strike) -> bool {
    &&& s.sr == t.sr
    &&& s.note == t.note
    &&& s.velocity == t.velocity
    &&& s.una == t.una
    &&& s.knobs.fast_scale == t.knobs.fast_scale
    &&& s.knobs.split_max == t.knobs.split_max
}

proof fn lemma_strung_alike<F: Fn(Op) -> Single>(
    k: Arith<F>,
    s: Strike,
    t: Strike,
    p: ParamsState,
    f0: Single,
    ratio: Single,
    rng: u32,
    n: int,
)
    requires
        string_alike(s, t),
    ensures
        strung(k, s, p, f0, ratio, rng, n) == strung(k, t, p, f0, ratio, rng, n),
    decreases n,
{
    if n > 0 {
        lemma_strung_alike(k, s, t, p, f0, ratio, rng, n - 1);
        assert(shape_of(k, s, p, f0, n) == shape_of(k, t, p, f0, n));
    }
}

/// The knobs of noise, bed, attack and glide leave the strings alone.
pub proof fn strings_ignore_other_knobs<F: Fn(Op) -> Single>(k: Arith<F>, s: Strike, knobs: Knobs, p: ParamsState, rng: u32)
    requires
        knobs.fast_scale == s.knobs.fast_scale,
        knobs.split_max == s.knobs.split_max,
        knobs.detune_scale == s.knobs.detune_scale,
    ensures
        struck_voice(k, with_knobs(s, knobs), p, rng).res == struck_voice(k, s, p, rng).res,
{
    let f0 = k.tuned(k.midi_note_freq(s.note), p.f0_cents);
    let ratio = k.detune_ratio(s.note, s.knobs.detune_scale);
    lemma_strung_alike(k, s, with_knobs(s, knobs), p, f0, ratio, rng, N_SLOTS as int);
}

/// The noise knob scales the hammer noise. Returns the noise before scaling.
pub proof fn noise_follows_its_knob<F: Fn(Op) -> Single>(k: Arith<F>, s: Strike, p: ParamsState, rng: u32) -> (level:
    Single)
    ensures
        forall|gain: Single|
            (#[trigger] struck_voice(k, with_knobs(s, Knobs { noise_gain: gain, ..s.knobs }), p, rng)).tone.noise_amp
                == k.times(level, gain),
{
    let share = k.plus(
        k.plus(number(N0_12), k.times(number(N0_3), k.keyboard_pos(s.note))),
        k.times(number(N0_5), k.pos4(s.note)),
    );
    k.times(k.times(strike_rms(k, s, p), share), k.velocity_share(s.velocity))
}

/// The bed knob scales the resonant bed. Returns the bed before scaling.
pub proof fn bed_follows_its_knob<F: Fn(Op) -> Single>(k: Arith<F>, s: Strike, p: ParamsState, rng: u32) -> (level: Single)
    ensures
        forall|gain: Single|
            (#[trigger] struck_voice(k, with_knobs(s, Knobs { bed_gain: gain, ..s.knobs }), p, rng)).tone.bed_amp
                == k.times(level, gain),
        level == k.times(k.target_rms(s.velocity, p.loudness_db, s.una), k.gain(p.bed_db)),
{
    k.times(strike_rms(k, s, p), k.gain(p.bed_db))
}

/// The attack knob scales the measured rise time, within two thousandths and
/// nine hundredths of a second; the slow swell takes that long, and the fast one
/// a third of it.
pub proof fn attack_follows_its_knob<F: Fn(Op) -> Single>(k: Arith<F>, s: Strike, p: ParamsState, rng: u32)
    ensures
        ({
            let asked = k.over(k.times(p.attack_ms, s.knobs.attack_scale), number(N1000));
            let rise = if asked.lt(number(N0_002)) {
                number(N0_002)
            } else if number(N0_09).lt(asked) {
                number(N0_09)
            } else {
                asked
            };
            let tone = struck_voice(k, s, p, rng).tone;
            &&& tone.attack_slow_coeff == k.over(one(), k.times(rise, s.sr))
            &&& tone.attack_fast_coeff == k.over(one(), k.times(k.over(rise, number(N3)), s.sr))
        }),
{
}

/// The glide knob is the glide of the hardest strike: softer ones glide by the
/// cube of their velocity, higher ones less.
pub proof fn glide_follows_its_knob<F: Fn(Op) -> Single>(k: Arith<F>, s: Strike, p: ParamsState, rng: u32)
    ensures
        ({
            let v = k.velocity_share(s.velocity);
            struck_voice(k, s, p, rng).glide_cents == k.times(
                k.times(k.times(k.times(s.knobs.glide_cents, v), v), v),
                k.minus(number(N1_2), k.keyboard_pos(s.note)),
            )
        }),
{
}

/// The decay knob scales the measured prompt decay of every partial, within
/// three tenths and three hundred decibels a second; the aftersound decays as
/// measured, but never faster than the prompt sound.
pub proof fn decays_follow_their_knob<F: Fn(Op) -> Single>(k: Arith<F>, s: Strike, p: ParamsState, f0: Single, n: int)
    ensures
        ({
            let asked = k.times(p.decays_fast[n - 1], s.knobs.fast_scale);
            let h = shape_of(k, s, p, f0, n);
            &&& h.fast == (if asked.lt(number(N0_3)) {
                number(N0_3)
            } else if number(N300).lt(asked) {
                number(N300)
            } else {
                asked
            })
            &&& h.slow == number(N0_3) || h.slow == h.fast || h.slow == p.decays_slow[n - 1]
            &&& !h.fast.nan() && !h.slow.nan() ==> h.slow.le(h.fast)
        }),
{
    assert(number(N0_3).le(number(N0_3)));
    assert(number(N0_3).le(number(N300)));
}

/// The split knob caps the slow share of every partial, as the register of the
/// partial does; a measured share within the caps stands as it is.
pub proof fn splits_follow_their_knob<F: Fn(Op) -> Single>(k: Arith<F>, s: Strike, p: ParamsState, f0: Single, n: int)
    requires
        !s.una,
        1 <= n <= N_SLOTS,
    ensures
        ({
            let cap = k.plus(number(N0_3), k.times(number(N0_06), k.minus(k.whole(n as u64), one())));
            let measured = p.slow_split[n - 1];
            let split = shape_of(k, s, p, f0, n).split;
            &&& number(N0_02).le(measured) && measured.le(cap) && measured.le(s.knobs.split_max) ==> split == measured
            &&& number(N0_02).le(measured) && s.knobs.split_max.lt(measured) && s.knobs.split_max.lt(cap) ==> split
                == s.knobs.split_max
            &&& number(N0_02).le(measured) && cap.lt(measured) && cap.lt(s.knobs.split_max) ==> split == cap
        }),
{
    assert(n as usize as u64 == n as u64);
}

/// The strings of the first partials stay where they are as more are added.
proof fn lemma_strings_stay<F: Fn(Op) -> Single>(
    k: Arith<F>,
    s: Strike,
    p: ParamsState,
    f0: Single,
    ratio: Single,
    rng: u32,
    a: int,
    b: int,
    i: int,
)
    requires
        0 <= a <= b,
        0 <= i < strung(k, s, p, f0, ratio, rng, a).res.len(),
    ensures
        i < strung(k, s, p, f0, ratio, rng, b).res.len(),
        strung(k, s, p, f0, ratio, rng, b).res[i] == strung(k, s, p, f0, ratio, rng, a).res[i],
    decreases b - a,
{
    if a < b {
        lemma_strings_stay(k, s, p, f0, ratio, rng, a, b - 1, i);
    }
}

/// The strings of the first partial of a note with three strings: the prompt
/// one in tune, the aftersound a twentieth of a Hertz above it, and the third
/// off by the detune knob's share of the cents of its register, at least seven
/// tenths of a Hertz; the prompt one decays by the decay knob.
pub proof fn unison_follows_its_knobs<F: Fn(Op) -> Single>(k: Arith<F>, s: Strike, p: ParamsState, rng: u32)
    requires
        s.note >= 44,
        ({
            let f0 = k.tuned(k.midi_note_freq(s.note), p.f0_cents);
            !k.nyquist(s.sr).le(k.partial_freq(f0, p.b, 1))
        }),
    ensures
        ({
            let f0 = k.tuned(k.midi_note_freq(s.note), p.f0_cents);
            let freq = k.partial_freq(f0, p.b, 1);
            let cents = k.times(k.unison_detune_cents(s.note), s.knobs.detune_scale);
            let ratio = k.exp_less(k.times(k.over(cents, number(N1200)), number(LN_2)));
            let draw = spec_xorshift(spec_xorshift(rng));
            let v = struck_voice(k, s, p, rng);
            &&& v.res.len() >= 3
            &&& v.res[0].base_w == k.angular_step(freq, s.sr)
            &&& v.res[1].base_w == k.angular_step(k.plus(freq, number(N0_05)), s.sr)
            &&& v.res[2].base_w == k.angular_step(k.plus(freq, k.beat_offset(freq, ratio, draw)), s.sr)
            &&& v.res[0].decay == k.decay_factor(
                k.times(p.decays_fast[0], s.knobs.fast_scale).clamped(number(N0_3), number(N300)),
                s.sr,
            )
        }),
{
    let f0 = k.tuned(k.midi_note_freq(s.note), p.f0_cents);
    let ratio = k.detune_ratio(s.note, s.knobs.detune_scale);
    let h = shape_of(k, s, p, f0, 1);
    let none = strung(k, s, p, f0, ratio, rng, 0);
    let one_partial = strung(k, s, p, f0, ratio, rng, 1);
    assert(carried(k, s.sr, f0, p.b, 1)) by {
        assert forall|j: int| 1 <= j <= 1 implies !k.nyquist(s.sr).le(#[trigger] k.partial_freq(f0, p.b, j as usize)) by {
        }
    }
    assert(none == (Strung { res: Seq::empty(), rng }));
    assert(one_partial == none.with_unison(k, s, ratio, h));
    assert(one_partial.res.len() == 3);
    lemma_strings_stay(k, s, p, f0, ratio, rng, 1, N_SLOTS as int, 0);
    lemma_strings_stay(k, s, p, f0, ratio, rng, 1, N_SLOTS as int, 1);
    lemma_strings_stay(k, s, p, f0, ratio, rng, 1, N_SLOTS as int, 2);
}

/// A strike with the hammers shifted aims at 0.65 of the level of the same
/// strike on all strings.
pub proof fn shifted_hammers_strike_softer<F: Fn(Op) -> Single>(k: Arith<F>, s: Strike, p: ParamsState)
    ensures
        strike_rms(k, Strike { una: true, ..s }, p) == k.times(
            strike_rms(k, Strike { una: false, ..s }, p),
            number(N0_65),
        ),
{
}

/// The coupling knob scales how hard a strike rings the open strings.
pub proof fn bank_rings_by_its_knob<F: Fn(Op) -> Single>(s: ModalState<F>, note: u8, velocity: u8)
    ensures
        ({
            let level = s.k.target_rms(velocity, params_at(s.k, s.layers, note, velocity).loudness_db, s.una_corda);
            s.struck(note, velocity).bank == s.bank.pinged(
                s.k,
                note,
                s.k.times(level, s.knobs.bank_ping),
                spec_advance(s.rng),
            ).with_open(note, true)
        }),
{
}

/// The strings of the bank are driven by what the voices play, by the drive
/// knob, in every frame.
pub proof fn bank_is_driven_by_its_knob<F: Fn(Op) -> Single>(s: ModalState<F>, n: nat, i: int)
    requires
        0 <= i < n,
    ensures
        ({
            let m = s.mix(n);
            let start = Ringing { bank: s.bank, body: s.body, left: m.left, right: m.right };
            let before = start.frames(s.k, s.knobs.bank_drive, i);
            let after = start.frames(s.k, s.knobs.bank_drive, i + 1);
            &&& s.ring(n) == start.frames(s.k, s.knobs.bank_drive, n as int)
            &&& after.bank == before.bank.stepped(
                s.k,
                s.k.times(s.k.plus(before.left[i], before.right[i]), s.knobs.bank_drive),
            )
        }),
{
}

/// The body knob scales what the body adds to the sound, at once. Returns what
/// the body gives before scaling.
pub proof fn body_follows_its_knob<F: Fn(Op) -> Single>(k: Arith<F>, b: BodyState) -> (level: Single)
    ensures
        forall|gain: Single| (#[trigger] (BodyState { gain, ..b }).output(k)) == k.times(level, gain),
{
    alternating(k, taps_of(b.lines), 4)
}

/// A frame of the instrument is what the voices play, with the open strings and
/// the body on top, the body played by both, and no frame touches another.
pub proof fn frames_ring_on<F: Fn(Op) -> Single>(r: Ringing, k: Arith<F>, drive: Single, i: int)
    requires
        0 <= i < r.left.len(),
        r.left.len() == r.right.len(),
    ensures
        ({
            let l = k.plus(r.left[i], k.times(r.bank.output(k, true), one()));
            let rt = k.plus(r.right[i], k.times(r.bank.output(k, false), one()));
            let after = r.frame(k, drive, i);
            &&& after.left[i] == k.plus(l, r.body.output(k))
            &&& after.right[i] == k.plus(rt, r.body.output(k))
            &&& after.body == r.body.stepped(k, k.mono(l, rt))
            &&& after.bank == r.bank.stepped(k, k.times(k.plus(r.left[i], r.right[i]), drive))
            &&& after.left.len() == r.left.len()
            &&& after.right.len() == r.right.len()
            &&& forall|j: int|
                0 <= j < r.left.len() && j != i ==> #[trigger] after.left[j] == r.left[j] && after.right[j] == r.right[j]
        }),
{
}

/// A struck voice starts from nothing: held, with its damper up and no sound in
/// its filters. It is panned by its key; its noise is dark by key and velocity
/// and dies by key; its bed is as dark as six tenths of what was measured and
/// dies at four decibels a second.
pub proof fn struck_voices_start_from_nothing<F: Fn(Op) -> Single>(k: Arith<F>, s: Strike, p: ParamsState, rng: u32)
    ensures
        ({
            let v = struck_voice(k, s, p, rng);
            let t = v.tone;
            let nothing = (zero(), zero());
            &&& v.note == s.note
            &&& v.held
            &&& v.damper_blend == one()
            &&& t.pan_l == k.cosine(k.pan_angle(s.note))
            &&& t.pan_r == k.sine(k.pan_angle(s.note))
            &&& t.attack_slow == zero()
            &&& t.attack_fast == zero()
            &&& t.noise_decay == k.noise_decay(s.note, s.sr)
            &&& t.noise_filter == spec_lowpass(k, k.noise_cutoff(s.note, s.velocity), number(0x3F66_6666), s.sr)
            &&& t.noise_z == nothing
            &&& t.bed_decay == k.decay_factor(number(0x4080_0000), s.sr)
            &&& t.bed_filter == spec_lowpass(k, k.times(p.bed_centroid_hz, number(0x3F19_999A)), number(0x3F99_999A), s.sr)
            &&& t.bed_z == nothing && t.bed_z2 == nothing && t.bed_y == nothing && t.bed_y2 == nothing
        }),
{
}

/// The thud of a damper is dark, with its corner at 420 Hz.
pub proof fn thuds_are_dark<F: Fn(Op) -> Single>(s: ModalState<F>, note: u8, i: int)
    requires
        note < 90,
        0 <= i < s.voices.len(),
        s.voices[i].note == note,
        s.voices[i].held,
        number(0x3ECC_CCCD).lt(s.k.minus(one(), s.sustain_pos)),
    ensures
        s.let_go(note).voices[i].tone.noise_filter == spec_lowpass(s.k, number(0x43D2_0000), number(0x3F4C_CCCD), s.sr),
        s.let_go(note).voices[i].tone.noise_z == s.voices[i].tone.noise_z,
        s.let_go(note).voices[i].tone.bed_filter == s.voices[i].tone.bed_filter,
        s.let_go(note).voices[i].tone.pan_l == s.voices[i].tone.pan_l,
        s.let_go(note).voices[i].tone.pan_r == s.voices[i].tone.pan_r,
        s.let_go(note).voices[i].glide_cents == s.voices[i].glide_cents,
{
}

/// A lowpass: its corner as a part of a turn, its quality as the width of it, and
/// as much of the middle input as of both others.
pub proof fn lowpasses_go_by_their_settings<F: Fn(Op) -> Single>(k: Arith<F>, freq: Single, q: Single, sr: Single)
    requires
        k.over(freq, sr).le(number(0x3EE6_6666)),
    ensures
        ({
            let w = k.times(number(0x40C9_0FDB), k.over(freq, sr));
            let alpha = k.over(k.sine(w), k.times(number(0x4000_0000), q));
            let whole = k.plus(one(), alpha);
            let middle = k.minus(one(), k.cosine(w));
            let f = spec_lowpass(k, freq, q, sr);
            &&& f.b.0 == k.over(k.over(middle, number(0x4000_0000)), whole)
            &&& f.b.1 == k.over(middle, whole)
            &&& f.b.2 == f.b.0
            &&& f.a.0 == k.over(k.times(number(0x4000_0000).negated(), k.cosine(w)), whole)
            &&& f.a.1 == k.over(k.minus(one(), alpha), whole)
        }),
{
}

} // verus!
