//! Room simulation: a small early-reflection stage into an 8-line feedback
//! delay network with per-line high-frequency damping.
//!
//! This is a presentation stage: single notes are rendered dry, while MIDI
//! renders and live playing get the room by default. Allocation happens only
//! at construction.

use crate::arith::{Arith, Op};
use crate::constant::{
    N0_17, N0_22, N0_28, N0_34, N0_35, N0_42, N0_5, N0_55, N0_75, N11_3, N14, N16_5, N17_2, N1_5, N2, N23_1, N29_7, N29_9,
    N37_1, N38_7, N41_1, N43_7, N47_3, N4800, N53, N61_3, N71_9, N8, N83_3,
};
use crate::delay::{DelayBank, DelayLine, fed, quiet, shifted, sum_taps, tap_total, taps_of};
use crate::number::{Single, number, zero};
use crate::rounding::{lemma_difference, lemma_product, lemma_sum, lemma_within, within};
use crate::setting::{answers, is_setting, setting};
use vstd::prelude::*;

verus! {

/// Lines of the feedback delay network.
pub const FDN_LINES: usize = 8;

/// Early reflections.
pub const EARLY_LINES: usize = 6;

/// The delay of network line `i`, as a bit pattern of milliseconds; mutually
/// prime-ish.
#[verifier::allow_in_spec]
pub fn fdn_ms(i: usize) -> u32
    returns
        (match i {
            0 => N29_7,
            1 => N37_1,
            2 => N41_1,
            3 => N43_7,
            4 => N53,
            5 => N61_3,
            6 => N71_9,
            _ => N83_3,
        }),
{
    match i {
        0 => N29_7,
        1 => N37_1,
        2 => N41_1,
        3 => N43_7,
        4 => N53,
        5 => N61_3,
        6 => N71_9,
        _ => N83_3,
    }
}

/// The delay of early reflection `i`, as a bit pattern of milliseconds.
#[verifier::allow_in_spec]
pub fn early_ms(i: usize) -> u32
    returns
        (match i {
            0 => N11_3,
            1 => N17_2,
            2 => N23_1,
            3 => N29_9,
            4 => N38_7,
            _ => N47_3,
        }),
{
    match i {
        0 => N11_3,
        1 => N17_2,
        2 => N23_1,
        3 => N29_9,
        4 => N38_7,
        _ => N47_3,
    }
}

/// The gain of early reflection `i`, as a bit pattern.
#[verifier::allow_in_spec]
pub fn early_gain(i: usize) -> u32
    returns
        (match i {
            0 => N0_5,
            1 => N0_42,
            2 => N0_34,
            3 => N0_28,
            4 => N0_22,
            _ => N0_17,
        }),
{
    match i {
        0 => N0_5,
        1 => N0_42,
        2 => N0_34,
        3 => N0_28,
        4 => N0_22,
        _ => N0_17,
    }
}

/// The room: two predelays, the early reflections and the network.
pub struct Reverb {
    predelay_l: DelayLine<Single>,
    predelay_r: DelayLine<Single>,
    early: DelayBank<Single>,
    fdn: DelayBank<Single>,
    fdn_gain: [Single; 8],
    damp: [Single; 8],
    damp_coeff: Single,
    wet: Single,
}

/// Everything a room is and remembers.
#[verifier::ext_equal]
pub struct RoomState {
    pub pre_l: Seq<Single>,
    pub pre_r: Seq<Single>,
    pub early: Seq<Seq<Single>>,
    pub fdn: Seq<Seq<Single>>,
    pub fdn_gain: Seq<Single>,
    pub damp: Seq<Single>,
    pub damp_coeff: Single,
    pub wet: Single,
}

impl View for Reverb {
    type V = RoomState;

    closed spec fn view(&self) -> RoomState {
        RoomState {
            pre_l: self.predelay_l@,
            pre_r: self.predelay_r@,
            early: self.early@,
            fdn: self.fdn@,
            fdn_gain: self.fdn_gain@,
            damp: self.damp@,
            damp_coeff: self.damp_coeff,
            wet: self.wet,
        }
    }
}

/// A silent room with the reverberation time `rt60`, mixed in at `wet`.
pub open spec fn quiet_room<F: Fn(Op) -> Single>(k: Arith<F>, sr: Single, rt60: Single, wet: Single) -> RoomState {
    RoomState {
        pre_l: quiet(k.samples(number(N14), sr) as int, zero()),
        pre_r: quiet(k.samples(number(N16_5), sr) as int, zero()),
        early: Seq::new(6, |i: int| quiet(k.samples(number(early_ms(i as usize)), sr) as int, zero())),
        fdn: Seq::new(8, |i: int| quiet(k.samples(number(fdn_ms(i as usize)), sr) as int, zero())),
        fdn_gain: Seq::new(8, |i: int| k.feedback(k.samples(number(fdn_ms(i as usize)), sr), rt60, sr)),
        damp: Seq::new(8, |i: int| zero()),
        damp_coeff: k.pole(number(N4800), sr),
        wet,
    }
}

/// The sum of those of the first `n` early reflections that go to one side;
/// they alternate, left first.
pub open spec fn reflections<F: Fn(Op) -> Single>(k: Arith<F>, taps: Seq<Single>, left: bool, n: int) -> Single
    decreases n,
{
    if n <= 0 {
        zero()
    } else if ((n - 1) % 2 == 0) == left {
        k.plus(reflections(k, taps, left, n - 1), k.times(taps[n - 1], number(early_gain((n - 1) as usize))))
    } else {
        reflections(k, taps, left, n - 1)
    }
}

impl<F: Fn(Op) -> Single> Arith<F> {
    /// The mean of two channels.
    #[verifier::allow_in_spec]
    pub fn mono(&self, left: Single, right: Single) -> Single
        returns
            self.times(number(N0_5), self.plus(left, right)),
    {
        self.times(number(N0_5), self.plus(left, right))
    }

    /// Taps of every other line with alternating signs, which decorrelates the
    /// channels.
    #[verifier::allow_in_spec]
    pub fn tail(&self, a: Single, b: Single, c: Single, d: Single) -> Single
        returns
            self.minus(self.plus(self.minus(a, b), c), d),
    {
        self.minus(self.plus(self.minus(a, b), c), d)
    }

    /// The dry sound with reflections and tail mixed in.
    #[verifier::allow_in_spec]
    pub fn roomy(&self, dry: Single, wet: Single, early: Single, tail: Single) -> Single
        returns
            self.plus(
                dry,
                self.times(wet, self.plus(self.times(early, number(N0_55)), self.times(tail, number(N0_75)))),
            ),
    {
        self.plus(
            dry,
            self.times(wet, self.plus(self.times(early, number(N0_55)), self.times(tail, number(N0_75)))),
        )
    }
}

impl RoomState {
    pub open spec fn sized(self) -> bool {
        &&& self.early.len() == EARLY_LINES
        &&& self.fdn.len() == FDN_LINES
        &&& self.fdn_gain.len() == FDN_LINES
        &&& self.damp.len() == FDN_LINES
    }

    /// All lines are there, and none is empty.
    pub open spec fn lined(self) -> bool {
        &&& self.sized()
        &&& self.pre_l.len() > 0
        &&& self.pre_r.len() > 0
        &&& forall|i: int| 0 <= i < EARLY_LINES ==> (#[trigger] self.early[i]).len() > 0
        &&& forall|i: int| 0 <= i < FDN_LINES ==> (#[trigger] self.fdn[i]).len() > 0
    }

    /// The lines of the two rooms are as long as each other.
    pub open spec fn as_long_as(self, other: RoomState) -> bool {
        &&& self.early.len() == other.early.len()
        &&& self.fdn.len() == other.fdn.len()
        &&& self.pre_l.len() == other.pre_l.len()
        &&& self.pre_r.len() == other.pre_r.len()
        &&& forall|i: int| 0 <= i < self.early.len() ==> (#[trigger] self.early[i]).len() == other.early[i].len()
        &&& forall|i: int| 0 <= i < self.fdn.len() ==> (#[trigger] self.fdn[i]).len() == other.fdn[i].len()
    }

    /// What is injected into the lines of one side: the predelayed sound and
    /// the early reflections.
    pub open spec fn injected<F: Fn(Op) -> Single>(self, k: Arith<F>, mono: Single, left: bool) -> Single {
        let pre = shifted(
            if left {
                self.pre_l
            } else {
                self.pre_r
            },
            mono,
        )[0];
        k.plus(pre, reflections(k, taps_of(self.early), left, 6))
    }

    /// What goes into network line `i`: its own tap less the common part, fed
    /// back and damped, with what is injected on its side.
    pub open spec fn intake<F: Fn(Op) -> Single>(self, k: Arith<F>, mono: Single, i: int) -> Single {
        let taps = taps_of(self.fdn);
        let h = k.times(k.over(number(N2), number(N8)), tap_total(k, taps, 8));
        let v = k.plus(
            k.times(k.minus(taps[i], h), self.fdn_gain[i]),
            k.times(self.injected(k, mono, i % 2 == 0), number(N0_35)),
        );
        k.absorbed(self.damp[i], v, self.damp_coeff)
    }

    /// The room after one sample.
    pub open spec fn stepped<F: Fn(Op) -> Single>(self, k: Arith<F>, left: Single, right: Single) -> RoomState {
        let mono = k.mono(left, right);
        let feed = Seq::new(8, |i: int| self.intake(k, mono, i));
        RoomState {
            pre_l: shifted(self.pre_l, mono),
            pre_r: shifted(self.pre_r, mono),
            early: self.early.map_values(|line: Seq<Single>| shifted(line, mono)),
            fdn: fed(self.fdn, feed),
            damp: feed,
            ..self
        }
    }

    /// What the room has to add on one side: the early reflections and the tail.
    pub open spec fn echo<F: Fn(Op) -> Single>(self, k: Arith<F>, left: bool) -> Single {
        let t = taps_of(self.fdn);
        let tail = if left {
            k.tail(t[0], t[2], t[4], t[6])
        } else {
            k.tail(t[1], t[3], t[5], t[7])
        };
        k.plus(k.times(reflections(k, taps_of(self.early), left, 6), number(N0_55)), k.times(tail, number(N0_75)))
    }

    /// What the room gives for one sample on the left.
    pub open spec fn output_left<F: Fn(Op) -> Single>(self, k: Arith<F>, dry: Single) -> Single {
        let t = taps_of(self.fdn);
        k.roomy(dry, self.wet, reflections(k, taps_of(self.early), true, 6), k.tail(t[0], t[2], t[4], t[6]))
    }

    /// What the room gives for one sample on the right.
    pub open spec fn output_right<F: Fn(Op) -> Single>(self, k: Arith<F>, dry: Single) -> Single {
        let t = taps_of(self.fdn);
        k.roomy(dry, self.wet, reflections(k, taps_of(self.early), false, 6), k.tail(t[1], t[3], t[5], t[7]))
    }

    /// The room after `n` samples.
    pub open spec fn after<F: Fn(Op) -> Single>(self, k: Arith<F>, left: Seq<Single>, right: Seq<Single>, n: int) -> RoomState
        decreases n,
    {
        if n <= 0 {
            self
        } else {
            self.after(k, left, right, n - 1).stepped(k, left[n - 1], right[n - 1])
        }
    }
}

/// The left channel through a room.
pub open spec fn room_left<F: Fn(Op) -> Single>(k: Arith<F>, room: RoomState, left: Seq<Single>, right: Seq<Single>) -> Seq<Single> {
    Seq::new(left.len(), |i: int| room.after(k, left, right, i).output_left(k, left[i]))
}

/// The right channel through a room.
pub open spec fn room_right<F: Fn(Op) -> Single>(k: Arith<F>, room: RoomState, left: Seq<Single>, right: Seq<Single>) -> Seq<Single> {
    Seq::new(left.len(), |i: int| room.after(k, left, right, i).output_right(k, right[i]))
}

/// The settings of the host, with the shipped room as default.
pub open spec fn room_settings<G: Fn(&'static str) -> Option<Single>>(get: G, rt60: Single, wet: Single) -> bool {
    &&& is_setting(get, "PIANO_REVERB_RT60", N1_5, rt60)
    &&& is_setting(get, "PIANO_REVERB_WET", N0_5, wet)
}

impl Reverb {
    pub closed spec fn wf(self) -> bool {
        &&& self.predelay_l.wf()
        &&& self.predelay_r.wf()
        &&& self.early.wf()
        &&& self.fdn.wf()
        &&& self@.sized()
    }

    /// No line of a room that is in use is empty.
    pub proof fn lemma_wf(&self)
        requires
            self.wf(),
        ensures
            self@.lined(),
    {
        self.predelay_l.lemma_wf();
        self.predelay_r.lemma_wf();
        self.early.lemma_wf();
        self.fdn.lemma_wf();
    }

    /// A silent room; `rt60` in seconds, `wet` from zero to one (dry stays at
    /// unity).
    pub fn new<F: Fn(Op) -> Single>(k: &Arith<F>, sr: Single, rt60: Single, wet: Single) -> (r: Reverb)
        ensures
            r.wf(),
            r@ == quiet_room(*k, sr, rt60, wet),
    {
        let mut early: [usize; 6] = [1; 6];
        let mut i: usize = 0;
        while i < 6
            invariant
                i <= 6,
                forall|j: int| 0 <= j < i ==> #[trigger] early@[j] == k.samples(number(early_ms(j as usize)), sr),
            decreases 6 - i,
        {
            early[i] = k.samples(number(early_ms(i)), sr);
            i += 1;
        }
        let mut lens: [usize; 8] = [1; 8];
        let mut fdn_gain: [Single; 8] = [zero(); 8];
        let mut m: usize = 0;
        while m < 8
            invariant
                m <= 8,
                forall|j: int| 0 <= j < m ==> #[trigger] lens@[j] == k.samples(number(fdn_ms(j as usize)), sr),
                forall|j: int|
                    0 <= j < m ==> #[trigger] fdn_gain@[j] == k.feedback(
                        k.samples(number(fdn_ms(j as usize)), sr),
                        rt60,
                        sr,
                    ),
            decreases 8 - m,
        {
            lens[m] = k.samples(number(fdn_ms(m)), sr);
            fdn_gain[m] = k.feedback(lens[m], rt60, sr);
            m += 1;
        }
        let r = Reverb {
            predelay_l: DelayLine::new(k.samples(number(N14), sr), zero()),
            predelay_r: DelayLine::new(k.samples(number(N16_5), sr), zero()),
            early: DelayBank::new(early.as_slice(), zero()),
            fdn: DelayBank::new(lens.as_slice(), zero()),
            fdn_gain,
            damp: [zero(); 8],
            damp_coeff: k.pole(number(N4800), sr),
            wet,
        };
        assert(r@ =~= quiet_room(*k, sr, rt60, wet));
        r
    }

    /// The shipped room, honoring the settings of the host.
    pub fn default_room<F: Fn(Op) -> Single, G: Fn(&'static str) -> Option<Single>>(k: &Arith<F>, sr: Single, get: &G) -> (r: Reverb)
        requires
            answers(*get),
        ensures
            r.wf(),
            exists|rt60: Single, wet: Single|
                room_settings(*get, rt60, wet) && r@ == #[trigger] quiet_room(*k, sr, rt60, wet),
    {
        let rt60: Single = setting(get, "PIANO_REVERB_RT60", N1_5);
        let wet: Single = setting(get, "PIANO_REVERB_WET", N0_5);
        Reverb::new(k, sr, rt60, wet)
    }

    /// The early reflections that go to the left and to the right.
    fn reflect<F: Fn(Op) -> Single>(&self, k: &Arith<F>) -> (r: (Single, Single))
        requires
            self.wf(),
        ensures
            r.0 == reflections(*k, taps_of(self@.early), true, 6),
            r.1 == reflections(*k, taps_of(self@.early), false, 6),
    {
        let mut left: Single = zero();
        let mut right: Single = zero();
        let mut i: usize = 0;
        while i < 6
            invariant
                i <= 6,
                self.wf(),
                left == reflections(*k, taps_of(self@.early), true, i as int),
                right == reflections(*k, taps_of(self@.early), false, i as int),
            decreases 6 - i,
        {
            let out: Single = k.times(self.early.tap(i), number(early_gain(i)));
            if i % 2 == 0 {
                left = k.plus(left, out);
            } else {
                right = k.plus(right, out);
            }
            i += 1;
        }
        (left, right)
    }

    /// One stereo sample through the room.
    fn step<F: Fn(Op) -> Single>(&mut self, k: &Arith<F>, dry_l: Single, dry_r: Single) -> (out: (Single, Single))
        requires
            old(self).wf(),
        ensures
            final(self).wf(),
            final(self)@ == old(self)@.stepped(*k, dry_l, dry_r),
            out.0 == old(self)@.output_left(*k, dry_l),
            out.1 == old(self)@.output_right(*k, dry_r),
    {
        let ghost before = self@;
        let mono: Single = k.mono(dry_l, dry_r);
        let er: (Single, Single) = self.reflect(k);
        self.predelay_l.write(mono);
        self.predelay_r.write(mono);
        let inject_l: Single = k.plus(self.predelay_l.read(), er.0);
        let inject_r: Single = k.plus(self.predelay_r.read(), er.1);
        self.early.feed_all(mono);
        let mut taps: [Single; 8] = [zero(); 8];
        let mut m: usize = 0;
        while m < 8
            invariant
                m <= 8,
                self.fdn.wf(),
                self.fdn@ == before.fdn,
                self.fdn@.len() == FDN_LINES,
                forall|j: int| 0 <= j < m ==> #[trigger] taps@[j] == taps_of(before.fdn)[j],
            decreases 8 - m,
        {
            taps[m] = self.fdn.tap(m);
            m += 1;
        }
        assert(taps@ =~= taps_of(before.fdn));
        let h: Single = k.times(k.over(number(N2), number(N8)), sum_taps(k, taps.as_slice()));
        let mut feed: [Single; 8] = [zero(); 8];
        let mut i: usize = 0;
        while i < 8
            invariant
                i <= 8,
                before.sized(),
                self.fdn_gain@ == before.fdn_gain,
                self.damp@ == before.damp,
                self.damp_coeff == before.damp_coeff,
                taps@ == taps_of(before.fdn),
                inject_l == before.injected(*k, mono, true),
                inject_r == before.injected(*k, mono, false),
                h == k.times(k.over(number(N2), number(N8)), tap_total(*k, taps@, 8)),
                forall|j: int| 0 <= j < i ==> #[trigger] feed@[j] == before.intake(*k, mono, j),
            decreases 8 - i,
        {
            let inject: Single = if i % 2 == 0 {
                inject_l
            } else {
                inject_r
            };
            let v: Single = k.plus(k.times(k.minus(taps[i], h), self.fdn_gain[i]), k.times(inject, number(N0_35)));
            feed[i] = k.absorbed(self.damp[i], v, self.damp_coeff);
            i += 1;
        }
        self.fdn.feed(feed.as_slice());
        self.damp = feed;
        assert(feed@ =~= Seq::new(8, |i: int| before.intake(*k, mono, i)));
        assert(self@ =~= before.stepped(*k, dry_l, dry_r));
        (
            k.roomy(dry_l, self.wet, er.0, k.tail(taps[0], taps[2], taps[4], taps[6])),
            k.roomy(dry_r, self.wet, er.1, k.tail(taps[1], taps[3], taps[5], taps[7])),
        )
    }

    /// Runs stereo samples through the room, in place.
    pub fn process<F: Fn(Op) -> Single>(&mut self, k: &Arith<F>, left: &mut [Single], right: &mut [Single])
        requires
            old(self).wf(),
            old(left)@.len() == old(right)@.len(),
        ensures
            final(self).wf(),
            final(self)@ == old(self)@.after(*k, old(left)@, old(right)@, old(left)@.len() as int),
            final(left)@ == room_left(*k, old(self)@, old(left)@, old(right)@),
            final(right)@ == room_right(*k, old(self)@, old(left)@, old(right)@),
    {
        let ghost room = self@;
        let ghost left0 = left@;
        let ghost right0 = right@;
        let n: usize = left.len();
        let mut i: usize = 0;
        while i < n
            invariant
                i <= n,
                n == left0.len(),
                right0.len() == n,
                left@.len() == n,
                right@.len() == n,
                self.wf(),
                self@ == room.after(*k, left0, right0, i as int),
                forall|j: int| 0 <= j < i ==> #[trigger] left@[j] == room_left(*k, room, left0, right0)[j],
                forall|j: int| 0 <= j < i ==> #[trigger] right@[j] == room_right(*k, room, left0, right0)[j],
                forall|j: int| i <= j < n ==> #[trigger] left@[j] == left0[j],
                forall|j: int| i <= j < n ==> #[trigger] right@[j] == right0[j],
            decreases n - i,
        {
            let out = self.step(k, left[i], right[i]);
            left[i] = out.0;
            right[i] = out.1;
            i += 1;
        }
        assert(left@ =~= room_left(*k, room, left0, right0));
        assert(right@ =~= room_right(*k, room, left0, right0));
    }
}

proof fn lemma_after_prefix<F: Fn(Op) -> Single>(
    room: RoomState,
    k: Arith<F>,
    left: Seq<Single>,
    right: Seq<Single>,
    more_left: Seq<Single>,
    more_right: Seq<Single>,
    n: int,
)
    requires
        left.len() == right.len(),
        n <= left.len(),
    ensures
        room.after(k, left + more_left, right + more_right, n) == room.after(k, left, right, n),
    decreases n,
{
    if n > 0 {
        lemma_after_prefix(room, k, left, right, more_left, more_right, n - 1);
    }
}

/// Where a block ends does not matter: two blocks go through a room as one.
pub proof fn room_ignores_block_bounds<F: Fn(Op) -> Single>(
    room: RoomState,
    k: Arith<F>,
    left: Seq<Single>,
    right: Seq<Single>,
    more_left: Seq<Single>,
    more_right: Seq<Single>,
    n: int,
)
    requires
        left.len() == right.len(),
        more_left.len() == more_right.len(),
        0 <= n <= more_left.len(),
    ensures
        room.after(k, left + more_left, right + more_right, left.len() + n) == room.after(
            k,
            left,
            right,
            left.len() as int,
        ).after(k, more_left, more_right, n),
    decreases n,
{
    if n > 0 {
        room_ignores_block_bounds(room, k, left, right, more_left, more_right, n - 1);
    } else {
        lemma_after_prefix(room, k, left, right, more_left, more_right, left.len() as int);
    }
}

proof fn lemma_after_wet<F: Fn(Op) -> Single>(room: RoomState, k: Arith<F>, left: Seq<Single>, right: Seq<Single>, n: int)
    ensures
        room.after(k, left, right, n).wet == room.wet,
    decreases n,
{
    if n > 0 {
        lemma_after_wet(room, k, left, right, n - 1);
    }
}

/// A room that is not mixed in leaves the sound alone, whatever rings in it, as
/// long as that is finite: every sample keeps its value.
pub proof fn dry_room_is_transparent<F: Fn(Op) -> Single>(
    room: RoomState,
    k: Arith<F>,
    left: Seq<Single>,
    right: Seq<Single>,
    i: int,
)
    requires
        k.has_zero(),
        room.wet.zero_valued(),
        left.len() == right.len(),
        0 <= i < left.len(),
        !left[i].nan(),
        !right[i].nan(),
        room.after(k, left, right, i).echo(k, true).finite(),
        room.after(k, left, right, i).echo(k, false).finite(),
    ensures
        room_left(k, room, left, right)[i].equals(left[i]),
        room_right(k, room, left, right)[i].equals(right[i]),
{
    reveal(Arith::has_zero);
    lemma_after_wet(room, k, left, right, i);
    let r = room.after(k, left, right, i);
    assert(k.times(r.wet, r.echo(k, true)).zero_valued());
    assert(k.times(r.wet, r.echo(k, false)).zero_valued());
}

/// Playing changes the length of no line.
pub proof fn room_keeps_its_lines<F: Fn(Op) -> Single>(
    room: RoomState,
    k: Arith<F>,
    left: Seq<Single>,
    right: Seq<Single>,
    n: int,
)
    requires
        room.lined(),
    ensures
        room.after(k, left, right, n).lined(),
        room.after(k, left, right, n).as_long_as(room),
    decreases n,
{
    if n > 0 {
        room_keeps_its_lines(room, k, left, right, n - 1);
        let r = room.after(k, left, right, n - 1);
        let next = room.after(k, left, right, n);
        assert forall|i: int| 0 <= i < EARLY_LINES implies (#[trigger] next.early[i]).len() == r.early[i].len() by {}
        assert forall|i: int| 0 <= i < FDN_LINES implies (#[trigger] next.fdn[i]).len() == r.fdn[i].len() by {}
    }
}

/// What rings in a room is bounded.
pub open spec fn rings_within(room: RoomState, e: int) -> bool {
    &&& room.sized()
    &&& forall|i: int| 0 <= i < EARLY_LINES ==> within(#[trigger] taps_of(room.early)[i], e)
    &&& forall|i: int| 0 <= i < FDN_LINES ==> within(#[trigger] taps_of(room.fdn)[i], e)
}

proof fn lemma_reflections<F: Fn(Op) -> Single>(k: Arith<F>, taps: Seq<Single>, left: bool, e: int, n: int)
    requires
        k.is_bounded(),
        0 <= n <= 6,
        0 <= e <= 100,
        taps.len() == 6,
        forall|i: int| 0 <= i < 6 ==> within(#[trigger] taps[i], e),
    ensures
        within(reflections(k, taps, left, n), e + n),
    decreases n,
{
    if n > 0 {
        lemma_reflections(k, taps, left, e, n - 1);
        let gain = number(early_gain((n - 1) as usize));
        assert(within(taps[n - 1], e));
        assert(within(gain, 0));
        lemma_product(k, taps[n - 1], gain, e, 0);
        let r = reflections(k, taps, left, n - 1);
        lemma_within(k.times(taps[n - 1], gain), e, e + n - 1);
        lemma_sum(k, r, k.times(taps[n - 1], gain), e + n - 1);
        lemma_within(r, e + n - 1, e + n);
    }
}

/// What a room has to add is finite as long as what rings in it is bounded.
pub proof fn echoes_are_finite<F: Fn(Op) -> Single>(k: Arith<F>, room: RoomState, left: bool, e: int)
    requires
        k.is_bounded(),
        0 <= e <= 100,
        rings_within(room, e),
    ensures
        room.echo(k, left).finite(),
{
    let early = taps_of(room.early);
    let t = taps_of(room.fdn);
    lemma_reflections(k, early, left, e, 6);
    let (a, b, c, d) = if left {
        (t[0], t[2], t[4], t[6])
    } else {
        (t[1], t[3], t[5], t[7])
    };
    lemma_difference(k, a, b, e);
    lemma_within(c, e, e + 1);
    lemma_sum(k, k.minus(a, b), c, e + 1);
    lemma_within(d, e, e + 2);
    lemma_difference(k, k.plus(k.minus(a, b), c), d, e + 2);
    let tail = k.tail(a, b, c, d);
    assert(within(number(N0_55), 0) && within(number(N0_75), 0));
    let r = reflections(k, early, left, 6);
    lemma_product(k, r, number(N0_55), e + 6, 0);
    lemma_product(k, tail, number(N0_75), e + 3, 0);
    lemma_within(k.times(tail, number(N0_75)), e + 3, e + 6);
    lemma_sum(k, k.times(r, number(N0_55)), k.times(tail, number(N0_75)), e + 6);
}

/// A room adds its echo to the dry sound, by its share and on the side that the
/// echo is on.
pub proof fn rooms_add_their_echo<F: Fn(Op) -> Single>(k: Arith<F>, room: RoomState, left: Seq<Single>, right: Seq<Single>, i: int)
    requires
        0 <= i < left.len(),
        left.len() == right.len(),
    ensures
        room_left(k, room, left, right)[i] == k.plus(
            left[i],
            k.times(room.after(k, left, right, i).wet, room.after(k, left, right, i).echo(k, true)),
        ),
        room_right(k, room, left, right)[i] == k.plus(
            right[i],
            k.times(room.after(k, left, right, i).wet, room.after(k, left, right, i).echo(k, false)),
        ),
        room.after(k, left, right, i).wet == room.wet,
{
    lemma_wet_stays(k, room, left, right, i);
}

proof fn lemma_wet_stays<F: Fn(Op) -> Single>(k: Arith<F>, room: RoomState, left: Seq<Single>, right: Seq<Single>, n: int)
    ensures
        room.after(k, left, right, n).wet == room.wet,
    decreases n,
{
    if n > 0 {
        lemma_wet_stays(k, room, left, right, n - 1);
    }
}

/// What a room has in its lines does not depend on how much of it is mixed in,
/// nor does what it is built from: only the reverberation time sets the
/// feedback, and only the share sets the mix.
pub proof fn room_settings_are_independent<F: Fn(Op) -> Single>(k: Arith<F>, sr: Single, rt60: Single, wet: Single, other: Single)
    ensures
        quiet_room(k, sr, rt60, wet).wet == wet,
        quiet_room(k, sr, rt60, other) == (RoomState { wet: other, ..quiet_room(k, sr, rt60, wet) }),
        quiet_room(k, sr, other, wet) == (RoomState {
            fdn_gain: quiet_room(k, sr, other, wet).fdn_gain,
            ..quiet_room(k, sr, rt60, wet)
        }),
        forall|i: int|
            0 <= i < 8 ==> #[trigger] quiet_room(k, sr, rt60, wet).fdn_gain[i] == k.feedback(
                k.samples(number(fdn_ms(i as usize)), sr),
                rt60,
                sr,
            ),
{
    assert(quiet_room(k, sr, rt60, other) =~= (RoomState { wet: other, ..quiet_room(k, sr, rt60, wet) }));
    assert(quiet_room(k, sr, other, wet) =~= (RoomState {
        fdn_gain: quiet_room(k, sr, other, wet).fdn_gain,
        ..quiet_room(k, sr, rt60, wet)
    }));
}

/// A room at rest: predelays of 14 and 16.5 milliseconds, and all lines silent
/// and as long as their times make, a sample at least, under a pole at 4800 Hz.
pub proof fn rooms_start_at_rest<F: Fn(Op) -> Single>(k: Arith<F>, sr: Single, rt60: Single, wet: Single, i: int)
    requires
        0 <= i < 8,
    ensures
        ({
            let room = quiet_room(k, sr, rt60, wet);
            &&& room.pre_l.len() == at_least_one(k.samples(number(0x4160_0000), sr))
            &&& room.pre_r.len() == at_least_one(k.samples(number(0x4184_0000), sr))
            &&& room.fdn[i].len() == at_least_one(k.samples(number(fdn_ms(i as usize)), sr))
            &&& i < 6 ==> room.early[i].len() == at_least_one(k.samples(number(early_ms(i as usize)), sr))
            &&& room.damp[i] == zero()
            &&& room.damp_coeff == k.pole(number(0x4596_0000), sr)
            &&& forall|j: int| 0 <= j < room.fdn[i].len() ==> #[trigger] room.fdn[i][j] == zero()
        }),
{
}

/// A length, but no less than one.
pub open spec fn at_least_one(len: usize) -> int {
    if len == 0 {
        1
    } else {
        len as int
    }
}

} // verus!
