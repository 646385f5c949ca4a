//! The soundboard body: a small dark feedback-delay network that the whole
//! instrument plays into. Unlike the bed of a voice, which dies with it, and
//! the room, which is presentation only, the body is part of the instrument:
//! it keeps ringing after dampers fall, and gives the top octave its
//! knock-into-the-box character.

use crate::arith::{Arith, Op};
use crate::constant::{N0_5, N0_55, N11_3, N14_7, N18_9, N2800, N7_9};
use crate::delay::{DelayBank, fed, quiet, sum_taps, tap_total, taps_of};
use crate::number::{Single, number, zero};
use vstd::prelude::*;

verus! {

/// Lines of the body.
pub const BODY_LINES: usize = 4;

/// The body.
pub struct Body {
    lines: DelayBank<Single>,
    fb: [Single; 4],
    damp: [Single; 4],
    damp_coeff: Single,
    gain: Single,
}

/// What a body is and remembers.
#[verifier::ext_equal]
pub struct BodyState {
    pub lines: Seq<Seq<Single>>,
    pub fb: Seq<Single>,
    pub damp: Seq<Single>,
    pub damp_coeff: Single,
    pub gain: Single,
}

impl View for Body {
    type V = BodyState;

    closed spec fn view(&self) -> BodyState {
        BodyState {
            lines: self.lines@,
            fb: self.fb@,
            damp: self.damp@,
            damp_coeff: self.damp_coeff,
            gain: self.gain,
        }
    }
}

/// The length of line `i`, at least one sample: short, mutually detuned delays
/// for dense early soundboard modes.
pub open spec fn body_len<F: Fn(Op) -> Single>(k: Arith<F>, sr: Single, i: int) -> usize {
    let ms = number(
        if i == 0 {
            N7_9
        } else if i == 1 {
            N11_3
        } else if i == 2 {
            N14_7
        } else {
            N18_9
        },
    );
    let len = k.samples(ms, sr);
    if len == 0 {
        1
    } else {
        len
    }
}

/// A body at rest.
pub open spec fn quiet_body<F: Fn(Op) -> Single>(k: Arith<F>, sr: Single, gain: Single) -> BodyState {
    BodyState {
        lines: Seq::new(4, |i: int| quiet(body_len(k, sr, i) as int, zero())),
        fb: Seq::new(4, |i: int| k.feedback(body_len(k, sr, i), number(N0_55), sr)),
        damp: Seq::new(4, |i: int| zero()),
        damp_coeff: k.pole(number(N2800), sr),
        gain,
    }
}

/// The alternating sum of the first `n` taps.
pub open spec fn alternating<F: Fn(Op) -> Single>(k: Arith<F>, taps: Seq<Single>, n: int) -> Single
    decreases n,
{
    if n <= 0 {
        zero()
    } else {
        k.plus(
            alternating(k, taps, n - 1),
            if (n - 1) % 2 == 0 {
                taps[n - 1]
            } else {
                taps[n - 1].negated()
            },
        )
    }
}

impl BodyState {
    pub open spec fn sized(self) -> bool {
        self.lines.len() == BODY_LINES && self.fb.len() == BODY_LINES && self.damp.len() == BODY_LINES
    }

    /// All lines are there, and none is empty.
    pub open spec fn lined(self) -> bool {
        self.sized() && forall|i: int| 0 <= i < BODY_LINES ==> (#[trigger] self.lines[i]).len() > 0
    }

    /// What goes into line `i`: its own tap less the common part, fed back and
    /// lowpassed, with a share of the input.
    pub open spec fn intake<F: Fn(Op) -> Single>(self, k: Arith<F>, input: Single, i: int) -> Single {
        let taps = taps_of(self.lines);
        let h = k.times(number(N0_5), tap_total(k, taps, 4));
        let v = k.plus(k.times(k.minus(taps[i], h), self.fb[i]), k.times(input, number(N0_5)));
        k.absorbed(self.damp[i], v, self.damp_coeff)
    }

    /// The body after one sample.
    pub open spec fn stepped<F: Fn(Op) -> Single>(self, k: Arith<F>, input: Single) -> BodyState {
        let feed = Seq::new(4, |i: int| self.intake(k, input, i));
        BodyState { lines: fed(self.lines, feed), damp: feed, ..self }
    }

    /// What the body gives for one sample.
    pub open spec fn output<F: Fn(Op) -> Single>(self, k: Arith<F>) -> Single {
        k.times(alternating(k, taps_of(self.lines), 4), self.gain)
    }
}

impl Body {
    pub closed spec fn wf(self) -> bool {
        self.lines.wf() && self@.sized()
    }

    /// A body at rest.
    pub fn new<F: Fn(Op) -> Single>(k: &Arith<F>, sr: Single, gain: Single) -> (r: Body)
        ensures
            r.wf(),
            r@ == quiet_body(*k, sr, gain),
    {
        let ms: [u32; 4] = [N7_9, N11_3, N14_7, N18_9];
        let mut lens: [usize; 4] = [1; 4];
        let mut fb: [Single; 4] = [zero(); 4];
        let mut i: usize = 0;
        while i < 4
            invariant
                i <= 4,
                ms@ == seq![N7_9, N11_3, N14_7, N18_9],
                forall|j: int| 0 <= j < i ==> #[trigger] lens@[j] == body_len(*k, sr, j),
                forall|j: int| 0 <= j < i ==> #[trigger] fb@[j] == k.feedback(body_len(*k, sr, j), number(N0_55), sr),
            decreases 4 - i,
        {
            let len: usize = k.samples(number(ms[i]), sr);
            lens[i] = if len == 0 {
                1
            } else {
                len
            };
            fb[i] = k.feedback(lens[i], number(N0_55), sr);
            i += 1;
        }
        let r = Body {
            lines: DelayBank::new(lens.as_slice(), zero()),
            fb,
            damp: [zero(); 4],
            damp_coeff: k.pole(number(N2800), sr),
            gain,
        };
        assert(r@ =~= quiet_body(*k, sr, gain));
        r
    }

    pub fn set_gain(&mut self, gain: Single)
        requires
            old(self).wf(),
        ensures
            final(self).wf(),
            final(self)@ == (BodyState { gain, ..old(self)@ }),
    {
        self.gain = gain;
    }

    /// One sample into the body, and what it gives.
    pub fn step<F: Fn(Op) -> Single>(&mut self, k: &Arith<F>, input: Single) -> (out: Single)
        requires
            old(self).wf(),
        ensures
            final(self).wf(),
            final(self)@ == old(self)@.stepped(*k, input),
            out == old(self)@.output(*k),
    {
        let ghost before = self@;
        let mut taps: [Single; 4] = [zero(); 4];
        let mut i: usize = 0;
        while i < 4
            invariant
                i <= 4,
                self.lines.wf(),
                self.lines@ == before.lines,
                before.sized(),
                forall|j: int| 0 <= j < i ==> #[trigger] taps@[j] == taps_of(before.lines)[j],
            decreases 4 - i,
        {
            taps[i] = self.lines.tap(i);
            i += 1;
        }
        assert(taps@ =~= taps_of(before.lines));
        let h: Single = k.times(number(N0_5), sum_taps(k, taps.as_slice()));
        let mut feed: [Single; 4] = [zero(); 4];
        let mut out: Single = zero();
        let mut j: usize = 0;
        while j < 4
            invariant
                j <= 4,
                before.sized(),
                self@ == before,
                taps@ == taps_of(before.lines),
                h == k.times(number(N0_5), tap_total(*k, taps@, 4)),
                out == alternating(*k, taps@, j as int),
                forall|m: int| 0 <= m < j ==> #[trigger] feed@[m] == before.intake(*k, input, m),
            decreases 4 - j,
        {
            assert(self.fb@ == before.fb && self.damp@ == before.damp);
            let v: Single = k.plus(k.times(k.minus(taps[j], h), self.fb[j]), k.times(input, number(N0_5)));
            feed[j] = k.absorbed(self.damp[j], v, self.damp_coeff);
            out = k.plus(
                out,
                if j % 2 == 0 {
                    taps[j]
                } else {
                    taps[j].negated()
                },
            );
            j += 1;
        }
        self.lines.feed(feed.as_slice());
        self.damp = feed;
        assert(feed@ =~= Seq::new(4, |i: int| before.intake(*k, input, i)));
        k.times(out, self.gain)
    }
}

/// A body at rest has four lines of 7.9, 11.3, 14.7 and 18.9 milliseconds, at
/// least a sample long, each falling by sixty decibels in 0.55 seconds, under a
/// pole at 2800 Hz.
pub proof fn bodies_start_at_rest<F: Fn(Op) -> Single>(k: Arith<F>, sr: Single, gain: Single, i: int)
    requires
        0 <= i < 4,
    ensures
        ({
            let ms = if i == 0 {
                number(0x40FC_CCCD)
            } else if i == 1 {
                number(0x4134_CCCD)
            } else if i == 2 {
                number(0x416B_3333)
            } else {
                number(0x4197_3333)
            };
            let asked = k.samples(ms, sr);
            let len = if asked == 0 {
                1
            } else {
                asked
            };
            let b = quiet_body(k, sr, gain);
            &&& b.lines[i].len() == len
            &&& forall|j: int| 0 <= j < len ==> #[trigger] b.lines[i][j] == zero()
            &&& b.fb[i] == k.feedback(len, number(0x3F0C_CCCD), sr)
            &&& b.damp[i] == zero()
            &&& b.damp_coeff == k.pole(number(0x452F_0000), sr)
            &&& b.gain == gain
        }),
{
}

} // verus!
