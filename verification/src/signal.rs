//! What a sample goes through on its way: filters, strings, lines and mixes, at
//! any level, beyond full scale as below it. Only the compressor and the
//! conversion to sixteen bits ever clip.

use crate::arith::{Arith, Op};
use crate::bank::{BankState, BankString, driven, lane_mix};
use crate::baseline::{BaselineState, SineTone};
use crate::body::BodyState;
use crate::comp::Compressor;
use crate::delay::{shifted, tap_total, taps_of};
use crate::formula::{Filter, spec_filtered};
use crate::modal::PlainState;
use crate::number::{Single, number, one, zero};
use crate::reverb::{RoomState, early_gain, reflections};
use crate::voice::{
    BlockState, Resonator, Sound, group_total, lane_total, spec_bed, spec_hammer, spec_sound, turned,
};
use crate::voices::MixState;
use vstd::prelude::*;

verus! {

/// A filter of two poles gives its first share of the input and what it
/// remembers, and remembers the rest for the next two samples.
pub proof fn filters_are_linear<F: Fn(Op) -> Single>(k: Arith<F>, f: Filter, z: (Single, Single), x: Single)
    ensures
        ({
            let y = k.plus(k.times(f.b.0, x), z.0);
            let r = spec_filtered(k, f, z, x);
            &&& r.out == y
            &&& r.z.0 == k.plus(k.minus(k.times(f.b.1, x), k.times(f.a.0, y)), z.1)
            &&& r.z.1 == k.minus(k.times(f.b.2, x), k.times(f.a.1, y))
        }),
{
}

/// A string of the bank turns, decays and takes in its share of the drive, however
/// strong that is.
pub proof fn bank_strings_take_in_the_drive<F: Fn(Op) -> Single>(k: Arith<F>, s: BankString, drive: Single)
    ensures
        driven(k, s, drive).re == k.plus(
            k.times(k.minus(k.times(s.re, s.rot_re), k.times(s.im, s.rot_im)), s.decay),
            k.times(drive, s.gain_in),
        ),
        driven(k, s, drive).im == k.times(k.plus(k.times(s.re, s.rot_im), k.times(s.im, s.rot_re)), s.decay),
        driven(k, s, drive) == (BankString { re: driven(k, s, drive).re, im: driven(k, s, drive).im, ..s }),
{
}

/// Every string of a bank takes in the same drive, and the bank keeps its gates.
pub proof fn banks_take_in_the_drive<F: Fn(Op) -> Single>(k: Arith<F>, b: BankState, drive: Single, r: int)
    requires
        0 <= r < b.strings.len(),
    ensures
        b.stepped(k, drive).strings[r] == driven(k, b.strings[r], drive),
        b.stepped(k, drive).open == b.open,
        b.stepped(k, drive).ping == b.ping,
        b.stepped(k, drive).strings.len() == b.strings.len(),
{
}

/// A lane of a bank sums what its strings give to a side, each by its panning.
pub proof fn lanes_sum_their_strings<F: Fn(Op) -> Single>(k: Arith<F>, strings: Seq<BankString>, lane: int, c: int)
    requires
        c >= 0,
    ensures
        lane_mix(k, strings, true, lane, 0) == zero(),
        lane_mix(k, strings, false, lane, 0) == zero(),
        lane_mix(k, strings, true, lane, c + 1) == k.plus(
            lane_mix(k, strings, true, lane, c),
            k.times(strings[8 * c + lane].im, strings[8 * c + lane].pan_l),
        ),
        lane_mix(k, strings, false, lane, c + 1) == k.plus(
            lane_mix(k, strings, false, lane, c),
            k.times(strings[8 * c + lane].im, strings[8 * c + lane].pan_r),
        ),
{
}

/// Each line of the body is fed its own tap less half of all of them, by its
/// feedback, and half of the input, through its pole; what it is fed is what its
/// pole remembers and what it will give.
pub proof fn bodies_feed_their_lines<F: Fn(Op) -> Single>(k: Arith<F>, b: BodyState, input: Single, i: int)
    requires
        b.sized(),
        0 <= i < 4,
    ensures
        ({
            let taps = taps_of(b.lines);
            let common = k.times(number(0x3F00_0000), tap_total(k, taps, 4));
            let fed = k.plus(k.times(k.minus(b.lines[i][0], common), b.fb[i]), k.times(input, number(0x3F00_0000)));
            let kept = k.plus(k.times(b.damp[i], b.damp_coeff), k.times(fed, k.minus(one(), b.damp_coeff)));
            let after = b.stepped(k, input);
            &&& after.damp[i] == kept
            &&& after.lines[i] == shifted(b.lines[i], kept)
            &&& after.fb == b.fb
            &&& after.gain == b.gain
        }),
{
}

/// The body gives its four lines with alternating signs, by its gain.
pub proof fn bodies_give_alternating_lines<F: Fn(Op) -> Single>(k: Arith<F>, b: BodyState)
    requires
        b.sized(),
    ensures
        b.output(k) == k.times(
            k.plus(
                k.plus(
                    k.plus(k.plus(zero(), b.lines[0][0]), b.lines[1][0].negated()),
                    b.lines[2][0],
                ),
                b.lines[3][0].negated(),
            ),
            b.gain,
        ),
{
    reveal_with_fuel(crate::body::alternating, 5);
}

/// Each line of a room is fed its own tap less a quarter of all of them, by its
/// feedback, and 0.35 of what is injected on its side, through its pole.
pub proof fn rooms_feed_their_lines<F: Fn(Op) -> Single>(k: Arith<F>, room: RoomState, left: Single, right: Single, i: int)
    requires
        room.sized(),
        0 <= i < 8,
    ensures
        ({
            let mono = k.times(number(0x3F00_0000), k.plus(left, right));
            let taps = taps_of(room.fdn);
            let common = k.times(k.over(number(0x4000_0000), number(0x4100_0000)), tap_total(k, taps, 8));
            let line = if i % 2 == 0 {
                room.pre_l
            } else {
                room.pre_r
            };
            let injected = k.plus(shifted(line, mono)[0], reflections(k, taps_of(room.early), i % 2 == 0, 6));
            let fed = k.plus(
                k.times(k.minus(room.fdn[i][0], common), room.fdn_gain[i]),
                k.times(injected, number(0x3EB3_3333)),
            );
            let kept = k.plus(
                k.times(room.damp[i], room.damp_coeff),
                k.times(fed, k.minus(one(), room.damp_coeff)),
            );
            let after = room.stepped(k, left, right);
            &&& after.damp[i] == kept
            &&& after.fdn[i] == shifted(room.fdn[i], kept)
            &&& after.pre_l == shifted(room.pre_l, mono)
            &&& after.pre_r == shifted(room.pre_r, mono)
            &&& forall|j: int| 0 <= j < 6 ==> #[trigger] after.early[j] == shifted(room.early[j], mono)
        }),
{
}

/// Early reflections alternate, left first: each side has every other one, by
/// its own gain.
pub proof fn reflections_alternate<F: Fn(Op) -> Single>(k: Arith<F>, taps: Seq<Single>, n: int)
    requires
        0 <= n < 6,
    ensures
        ({
            let gain = number(early_gain(n as usize));
            let to_left = n % 2 == 0;
            &&& reflections(k, taps, to_left, n + 1) == k.plus(
                reflections(k, taps, to_left, n),
                k.times(taps[n], gain),
            )
            &&& reflections(k, taps, !to_left, n + 1) == reflections(k, taps, !to_left, n)
        }),
{
}

/// What a room adds is 0.55 of its reflections and 0.75 of its tail, which has
/// every other line on a side, with alternating signs.
pub proof fn echoes_are_reflections_and_tail<F: Fn(Op) -> Single>(k: Arith<F>, room: RoomState)
    requires
        room.sized(),
    ensures
        room.echo(k, true) == k.plus(
            k.times(reflections(k, taps_of(room.early), true, 6), number(0x3F0C_CCCD)),
            k.times(
                k.minus(
                    k.plus(k.minus(room.fdn[0][0], room.fdn[2][0]), room.fdn[4][0]),
                    room.fdn[6][0],
                ),
                number(0x3F40_0000),
            ),
        ),
        room.echo(k, false) == k.plus(
            k.times(reflections(k, taps_of(room.early), false, 6), number(0x3F0C_CCCD)),
            k.times(
                k.minus(
                    k.plus(k.minus(room.fdn[1][0], room.fdn[3][0]), room.fdn[5][0]),
                    room.fdn[7][0],
                ),
                number(0x3F40_0000),
            ),
        ),
{
}

/// The compressor takes each sample at its gain and its makeup, saturates it
/// where it has drive, and clips it at full scale.
pub proof fn compressor_takes_samples_at_its_gain<F: Fn(Op) -> Single>(c: Compressor, k: Arith<F>, x: Single, gr_db: Single)
    ensures
        ({
            let y = k.times(x, k.times(k.power(number(0x4120_0000), k.over(gr_db, number(0x41A0_0000))), c.makeup));
            let z = if zero().lt(c.drive) {
                k.saturated(y, c.drive)
            } else {
                y
            };
            let out = c.squeezed(k, x, gr_db);
            &&& one().negated().le(z) && z.le(one()) ==> out == z
            &&& one().lt(z) ==> out == one()
            &&& z.lt(one().negated()) ==> out == one().negated()
        }),
{
}

/// A tone of the baseline is a sine at its phase, by its loudness and by its
/// fades; its phase goes on by its step and around.
pub proof fn tones_are_sines<F: Fn(Op) -> Single>(k: Arith<F>, t: SineTone)
    requires
        t.age < t.total,
    ensures
        t.sample(k) == k.times(
            k.times(k.sine(k.times(t.phase, number(0x40C9_0FDB))), t.amp),
            k.faded(t.age, t.fade).lesser(k.faded((t.total - t.age) as u32, t.fade)),
        ),
        t.next(k).phase == k.fraction(k.plus(t.phase, t.phase_inc)),
        t.next(k).age == t.age + 1,
        t.next(k).amp == t.amp,
        t.next(k).phase_inc == t.phase_inc,
{
}

/// The tones of the baseline are added up, one after the other, from silence.
pub proof fn tones_add_up<F: Fn(Op) -> Single>(m: BaselineState<F>, n: nat, c: int)
    requires
        0 <= c < m.tones.len(),
    ensures
        m.mix(n, 0) == Seq::new(n, |i: int| zero()),
        m.mix(n, c + 1) == m.tones[c].over(m.k, m.mix(n, c)),
{
}

/// A voice of the first modal synthesizer is added to either side by its panning.
pub proof fn plain_voices_are_panned<F: Fn(Op) -> Single>(k: Arith<F>, v: PlainState, samples: Seq<Single>, i: int)
    requires
        0 <= i < samples.len(),
    ensures
        v.over_left(k, samples)[i] == k.plus(samples[i], k.times(v.after(k, i).output(k), v.pan_l)),
        v.over_right(k, samples)[i] == k.plus(samples[i], k.times(v.after(k, i).output(k), v.pan_r)),
        v.over_left(k, samples).len() == samples.len(),
        v.over_right(k, samples).len() == samples.len(),
{
}

/// Hammer noise is one filtered stream, by its level, panned; the bed is two
/// streams, filtered twice, one for each side.
pub proof fn noise_is_filtered<F: Fn(Op) -> Single>(k: Arith<F>, s: Sound, white: Single, white2: Single)
    ensures
        ({
            let t = s.tone;
            let n = spec_filtered(k, t.noise_filter, t.noise_z, white);
            let h = spec_hammer(k, s, white);
            &&& h.left == k.plus(s.left, k.times(k.times(n.out, t.noise_amp), t.pan_l))
            &&& h.right == k.plus(s.right, k.times(k.times(n.out, t.noise_amp), t.pan_r))
            &&& h.tone.noise_z == n.z
        }),
        ({
            let t = s.tone;
            let y = spec_filtered(k, t.bed_filter, t.bed_z, white);
            let y2 = spec_filtered(k, t.bed_filter, t.bed_z2, white2);
            let c = spec_filtered(k, t.bed_filter, t.bed_y, y.out);
            let c2 = spec_filtered(k, t.bed_filter, t.bed_y2, y2.out);
            let r = spec_bed(k, s, white, white2);
            &&& r.left == k.plus(s.left, k.times(k.times(k.times(c.out, t.bed_amp), number(0x3FB3_3333)), t.pan_l))
            &&& r.right == k.plus(s.right, k.times(k.times(k.times(c2.out, t.bed_amp), number(0x3FB3_3333)), t.pan_r))
            &&& r.tone.bed_z == y.z && r.tone.bed_z2 == y2.z && r.tone.bed_y == c.z && r.tone.bed_y2 == c2.z
        }),
{
}

/// A frame of a voice adds its sound to its own sample and to no other; its first
/// eight strings swell slowly, the others fast, and all of them turn.
pub proof fn voices_add_their_frames<F: Fn(Op) -> Single>(k: Arith<F>, s: BlockState, blend: Single, i: int)
    requires
        0 <= i < s.left.len(),
        s.left.len() == s.right.len(),
        s.voice.res.len() >= 8,
    ensures
        ({
            let v = s.voice;
            let groups = v.res.len() as int / 8;
            let sound = spec_sound(k, v.tone, group_total(k, v.res, 0, 1), group_total(k, v.res, 1, groups), s.rng);
            let after = s.frame(k, blend, i);
            &&& after.left[i] == k.plus(s.left[i], sound.left)
            &&& after.right[i] == k.plus(s.right[i], sound.right)
            &&& after.left.len() == s.left.len()
            &&& after.right.len() == s.right.len()
            &&& forall|j: int|
                0 <= j < s.left.len() && j != i ==> #[trigger] after.left[j] == s.left[j] && after.right[j] == s.right[j]
            &&& after.voice.tone == sound.tone
            &&& after.voice.res.len() == v.res.len()
            &&& forall|j: int| 0 <= j < v.res.len() ==> #[trigger] after.voice.res[j] == turned(k, v.res[j], blend)
        }),
{
}

/// The output of a group of lanes is the sum of what its eight strings give.
pub proof fn groups_sum_their_strings<F: Fn(Op) -> Single>(k: Arith<F>, res: Seq<Resonator>, c: int, l: int)
    requires
        0 <= c,
        0 <= l < 8,
    ensures
        lane_total(k, res, c, 0) == zero(),
        lane_total(k, res, c, l + 1) == k.plus(lane_total(k, res, c, l), res[8 * c + l].im),
        group_total(k, res, c, c) == zero(),
        group_total(k, res, c, c + 1) == k.plus(zero(), lane_total(k, res, c, 8)),
{
    reveal_with_fuel(group_total, 2);
}

/// Voices are mixed one after the other, each going on with the generator where
/// the one before it left it.
pub proof fn voices_are_mixed_in_turn<F: Fn(Op) -> Single>(k: Arith<F>, sr: Single, m: MixState, i: int)
    requires
        0 <= i < m.voices.len(),
    ensures
        m.mixed(k, sr, 0) == m,
        ({
            let before = m.mixed(k, sr, i);
            let after = m.mixed(k, sr, i + 1);
            let played = (BlockState {
                voice: before.voices[i],
                rng: before.rng,
                left: before.left,
                right: before.right,
            }).block(k, sr);
            &&& after.left == played.left
            &&& after.right == played.right
            &&& after.rng == played.rng
            &&& after.voices == before.voices.update(i, played.voice)
        }),
{
}

} // verus!
