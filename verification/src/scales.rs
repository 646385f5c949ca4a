//! The scales that the instruments and the effects are set in: decibels, cents,
//! Hertz, milliseconds and the keys and velocities of the keyboard. Each holds
//! over the whole of its range, with no ends but those that are stated.

use crate::arith::{Arith, Op};
use crate::number::{Single, number, one, zero};
use vstd::prelude::*;

verus! {

/// Decibels: a level is ten to a twentieth of it as a factor, and to a fortieth
/// as the root of one; a decay of so many decibels a second is the factor of its
/// part of one sample, taken away.
pub proof fn decibels_are_factors<F: Fn(Op) -> Single>(k: Arith<F>, db: Single, sr: Single)
    ensures
        k.gain(db) == k.power(number(0x4120_0000), k.over(db, number(0x41A0_0000))),
        k.power_gain(db) == k.power(number(0x4120_0000), k.over(db, number(0x4220_0000))),
        k.decay_factor(db, sr) == k.power(number(0x4120_0000), k.over(k.over(db.negated(), number(0x41A0_0000)), sr)),
{
}

/// Pitch: note 69 is at 440 Hz and every twelfth note at twice the frequency;
/// cents are hundredths of a note; a frequency turns by its part of a sample.
pub proof fn pitch_is_equal_tempered<F: Fn(Op) -> Single>(k: Arith<F>, note: u8, freq: Single, cents: Single, sr: Single)
    ensures
        k.midi_note_freq(note) == k.times(
            number(0x43DC_0000),
            k.power(number(0x4000_0000), k.over(k.minus(k.whole(note as u64), number(0x428A_0000)), number(0x4140_0000))),
        ),
        k.tuned(freq, cents) == k.times(freq, k.power(number(0x4000_0000), k.over(cents, number(0x4496_0000)))),
        k.angular_step(freq, sr) == k.over(k.times(number(0x40C9_0FDB), freq), sr),
        k.nyquist(sr) == k.times(k.times(sr, number(0x3F00_0000)), number(0x3F73_3333)),
{
}

/// Stiff strings: partial `n` is `n` times the fundamental, stretched by the root
/// of one and the stiffness times the square of `n`.
pub proof fn partials_are_stretched<F: Fn(Op) -> Single>(k: Arith<F>, f0: Single, stiffness: Single, n: usize)
    ensures
        ({
            let nf = k.whole(n as u64);
            k.partial_freq(f0, stiffness, n) == k.times(
                k.times(nf, f0),
                k.root(k.plus(one(), k.times(k.times(stiffness, nf), nf))),
            )
        }),
{
}

/// The keyboard: keys count from 21 over 87 of them, velocities up to 127, for
/// every key and every velocity, on the keyboard or not.
pub proof fn keys_and_velocities_are_shares<F: Fn(Op) -> Single>(k: Arith<F>, note: u8, velocity: u8)
    ensures
        k.keyboard_pos(note) == k.over(k.minus(k.whole(note as u64), number(0x41A8_0000)), number(0x42AE_0000)),
        k.velocity_share(velocity) == k.over(k.whole(velocity as u64), number(0x42FE_0000)),
        k.unison_detune_cents(note) == k.minus(number(0x3FCC_CCCD), k.times(number(0x3F66_6666), k.keyboard_pos(note))),
{
}

/// Draws: a drawn number is a share of the greatest, a phase is that share of a
/// turn, and white noise is that share of the way from minus one to one.
pub proof fn draws_are_shares<F: Fn(Op) -> Single>(k: Arith<F>, draw: u32)
    ensures
        k.draw_phase(draw) == k.times(k.over(k.whole(draw as u64), k.whole(0xFFFF_FFFF)), number(0x40C9_0FDB)),
        k.draw_white(draw) == k.minus(
            k.times(k.over(k.whole(draw as u64), k.whole(0xFFFF_FFFF)), number(0x4000_0000)),
            one(),
        ),
{
}

/// Times: a smoothed value goes all but the exponential of a sample's part of its
/// time, no time being less than a tenth of a millisecond; a line is as many
/// samples long as its milliseconds make; and a loop falls by sixty decibels in
/// its reverberation time, however long.
pub proof fn times_are_in_samples<F: Fn(Op) -> Single>(k: Arith<F>, ms: Single, len: usize, rt60: Single, sr: Single)
    ensures
        number(0x3DCC_CCCD).le(ms) ==> k.smoothing(ms, sr) == k.minus(
            one(),
            k.exp(k.over(one().negated(), k.times(k.over(ms, number(0x447A_0000)), sr))),
        ),
        k.times(k.over(ms, number(0x447A_0000)), sr).whole_part() <= usize::MAX ==> k.samples(ms, sr) == k.times(
            k.over(ms, number(0x447A_0000)),
            sr,
        ).whole_part(),
        k.feedback(len, rt60, sr) == k.power(
            number(0x4120_0000),
            k.over(k.times(number(0x4040_0000).negated(), k.whole(len as u64)), k.times(rt60, sr)),
        ),
{
}

/// Lowpasses of one pole: the pole is the exponential of a sample's part of a
/// turn at the corner, and each sample goes so far from the last to the new.
pub proof fn poles_absorb<F: Fn(Op) -> Single>(k: Arith<F>, freq: Single, sr: Single, d: Single, v: Single, pole: Single)
    ensures
        k.pole(freq, sr) == k.exp(k.over(k.times(number(0x40C9_0FDB).negated(), freq), sr)),
        k.absorbed(d, v, pole) == k.plus(k.times(d, pole), k.times(v, k.minus(one(), pole))),
        k.mono(d, v) == k.times(number(0x3F00_0000), k.plus(d, v)),
{
}

/// Mixing goes from the one to the other by its weight, and a phasor is as loud
/// as its square is long.
pub proof fn mixes_and_squares<F: Fn(Op) -> Single>(k: Arith<F>, x: Single, y: Single, w: Single)
    ensures
        k.mix(x, y, w) == k.plus(x, k.times(w, k.minus(y, x))),
        k.loudness(x, y) == k.plus(k.times(x, x), k.times(y, y)),
{
}

/// Saturation bends the sound as the drive says, by the hyperbolic tangent at
/// one and four times the drive, scaled back to full scale, and blends that in by
/// the drive.
pub proof fn saturation_blends_in<F: Fn(Op) -> Single>(k: Arith<F>, x: Single, drive: Single)
    ensures
        ({
            let bend = k.plus(one(), k.times(drive, number(0x4080_0000)));
            k.saturated(x, drive) == k.plus(
                k.times(x, k.minus(one(), drive)),
                k.times(k.over(k.tanh(k.times(x, bend)), k.tanh(bend)), drive),
            )
        }),
{
}

/// The level that a strike aims at: six hundredths of full scale, by the velocity
/// to the power of 1.6 and by the measured balance of the keyboard; the thud of a
/// damper is as loud as one and a half times what still swings, with a floor.
pub proof fn strikes_aim_by_velocity<F: Fn(Op) -> Single>(k: Arith<F>, velocity: u8, loudness_db: Single, energy: Single)
    ensures
        k.target_rms(velocity, loudness_db, false) == k.times(
            k.times(number(0x3D75_C28F), k.power(k.over(k.whole(velocity as u64), number(0x42FE_0000)), number(0x3FCC_CCCD))),
            k.power(number(0x4120_0000), k.over(loudness_db, number(0x41A0_0000))),
        ),
        k.thud_level(energy) == k.plus(k.times(k.root(k.over(energy, number(0x4000_0000))), number(0x3FC0_0000)), number(0x3B03_126F)),
{
}

/// How soft a partial is struck: between the velocities 54 and 114, which were
/// measured, as measured; below them darker by a hundredth of a decibel for each
/// step of velocity and each partial above the first, above them brighter by
/// eight thousandths.
pub proof fn velocities_tilt_the_sound<F: Fn(Op) -> Single>(k: Arith<F>, velocity: u8, n: usize)
    ensures
        54 <= velocity <= 114 ==> k.tilt_db(velocity, n) == zero(),
        velocity < 54 ==> k.tilt_db(velocity, n) == k.times(
            k.times(number(0x3C23_D70A).negated(), k.whole((54 - velocity) as u64)),
            k.minus(k.whole(n as u64), one()),
        ),
        velocity > 114 ==> k.tilt_db(velocity, n) == k.times(
            k.times(number(0x3C03_126F), k.whole((velocity - 114) as u64)),
            k.minus(k.whole(n as u64), one()),
        ),
        k.una_tilt_db(true, n) == k.times(number(0x3EB3_3333).negated(), k.minus(k.whole(n as u64), one())),
        k.una_tilt_db(false, n) == zero(),
{
}

/// How long felt takes to stop a string: by its register, two tenths of a second
/// and up to 0.45 more toward the bass, and less the higher the string swings:
/// half as long at 600 Hz.
pub proof fn felt_stops_by_register<F: Fn(Op) -> Single>(k: Arith<F>, note: u8, sr: Single, base_w: Single)
    ensures
        ({
            let rest = k.minus(one(), k.keyboard_pos(note));
            let base = k.plus(number(0x3E4C_CCCD), k.times(k.times(number(0x3EE6_6666), rest), rest));
            let freq = k.over(k.times(base_w, sr), number(0x40C9_0FDB));
            &&& zero().lt(freq) ==> k.felt_stop(note, sr, base_w) == k.over(k.times(base, number(0x4416_0000)), k.plus(number(0x4416_0000), freq))
            &&& freq.lt(zero()) ==> k.felt_stop(note, sr, base_w) == k.over(
                k.times(base, number(0x4416_0000)),
                k.plus(number(0x4416_0000), zero()),
            )
        }),
{
}

/// How far apart the strings of a unison are in Hertz: the detune of the
/// frequency, jittered by a draw within a quarter either way, but no less than
/// seven tenths.
pub proof fn unisons_beat<F: Fn(Op) -> Single>(k: Arith<F>, freq: Single, ratio: Single, draw: u32)
    ensures
        ({
            let jitter = k.plus(number(0x3F40_0000), k.times(number(0x3F00_0000), k.over(k.draw_phase(draw), number(0x40C9_0FDB))));
            let asked = k.times(k.times(freq, ratio), jitter);
            &&& number(0x3F33_3333).le(asked) ==> k.beat_offset(freq, ratio, draw) == asked
            &&& asked.lt(number(0x3F33_3333)) ==> k.beat_offset(freq, ratio, draw) == number(0x3F33_3333)
        }),
{
}

/// What the place of a key gives, for every key: how far to the right it sounds,
/// how dark and how short its hammer noise is, and how much of it there is.
pub proof fn registers_sound_apart<F: Fn(Op) -> Single>(k: Arith<F>, note: u8, velocity: u8, sr: Single)
    ensures
        ({
            let pos = k.keyboard_pos(note);
            let v = k.velocity_share(velocity);
            let pos4 = k.times(k.times(k.times(pos, pos), pos), pos);
            &&& k.pan_angle(note) == k.times(k.plus(number(0x3E19_999A), k.times(number(0x3F33_3333), pos)), number(0x3FC9_0FDB))
            &&& k.plain_angle(note) == k.times(k.plus(number(0x3E80_0000), k.times(number(0x3F00_0000), pos)), number(0x3FC9_0FDB))
            &&& k.noise_cutoff(note, velocity) == k.times(
                k.plus(number(0x4396_0000), k.times(k.times(number(0x451C_4000), v), v)),
                k.plus(k.plus(number(0x3F00_0000), k.times(number(0x3F4C_CCCD), pos)), k.times(number(0x3F66_6666), pos4)),
            )
            &&& k.noise_decay(note, sr) == k.decay_factor(
                k.over(number(0x4270_0000), k.plus(number(0x3C23_D70A), k.times(number(0x3C75_C28F), k.minus(one(), pos)))),
                sr,
            )
            &&& note < 90 ==> k.damper_factor(note, sr) == k.decay_factor(
                k.over(number(0x4270_0000), k.plus(number(0x3D4C_CCCD), k.times(number(0x3DCC_CCCD), k.minus(one(), pos)))),
                sr,
            )
            &&& k.base_decay_db_s(note) == k.times(number(0x3FC0_0000), k.power(number(0x4220_0000), pos))
        }),
{
}

/// The partials of the first modal synthesizer: how loud each starts, by the
/// velocity and the comb of the strike point, and how fast it decays.
pub proof fn plain_partials_roll_off<F: Fn(Op) -> Single>(k: Arith<F>, note: u8, velocity: u8, freq: Single, n: usize, sr: Single)
    ensures
        ({
            let nf = k.whole(n as u64);
            let v = k.velocity_share(velocity);
            let comb = k.sine(k.times(k.times(number(0x4049_0FDB), nf), number(0x3DF5_C28F))).absolute();
            &&& k.plain_amp(velocity, n) == k.over(
                k.times(k.times(number(0x3EB3_3333), v), comb),
                k.power(nf, k.minus(number(0x4033_3333), k.times(number(0x3F99_999A), v))),
            )
            &&& k.plain_decay(note, freq, n, sr) == k.decay_factor(
                k.times(
                    k.base_decay_db_s(note),
                    k.plus(
                        k.plus(one(), k.times(number(0x3DF5_C28F), k.minus(nf, one()))),
                        k.times(number(0x3F33_3333), k.over(freq, number(0x457A_0000))),
                    ),
                ),
                sr,
            )
        }),
{
}

/// A share of a fade is the samples by its length, and at most one.
pub proof fn fades_are_shares<F: Fn(Op) -> Single>(k: Arith<F>, samples: u32, fade: u32)
    ensures
        ({
            let share = k.over(k.whole(samples as u64), k.whole(fade as u64));
            &&& share.le(one()) ==> k.faded(samples, fade) == share
            &&& one().lt(share) ==> k.faded(samples, fade) == one()
        }),
{
}

} // verus!
