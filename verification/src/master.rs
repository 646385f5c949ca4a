//! The last stages before a file or a sound card: the presentation chain, peak
//! normalization, the limiter of live playing and the conversion to samples of
//! sixteen bits.

use crate::arith::{Arith, Op};
use crate::comp::Compressor;
use crate::constant::{N0_08, N0_891, N0_95, N32767};
use crate::eq::{EqState, MasterEq, equalized};
use crate::number::{Single, number, one, zero};
use crate::render::{interleave, join_channels, split_channels};
use crate::reverb::{Reverb, RoomState, room_left, room_right};
use vstd::arithmetic::power2::pow2;
use vstd::prelude::*;

verus! {

/// A pair of channels.
#[verifier::ext_equal]
pub struct Stereo {
    pub left: Seq<Single>,
    pub right: Seq<Single>,
}

impl Stereo {
    /// Through an equalizer.
    pub open spec fn eq<F: Fn(Op) -> Single>(self, k: Arith<F>, eq: EqState) -> Stereo {
        Stereo {
            left: equalized(k, eq, self.left, self.right, true),
            right: equalized(k, eq, self.left, self.right, false),
        }
    }

    /// Through a room.
    pub open spec fn room<F: Fn(Op) -> Single>(self, k: Arith<F>, room: RoomState) -> Stereo {
        Stereo {
            left: room_left(k, room, self.left, self.right),
            right: room_right(k, room, self.left, self.right),
        }
    }

    /// Through a compressor.
    pub open spec fn comp<F: Fn(Op) -> Single>(self, k: Arith<F>, comp: Compressor) -> Stereo {
        Stereo {
            left: comp.compressed(k, self.left, self.right, self.left),
            right: comp.compressed(k, self.left, self.right, self.right),
        }
    }

    /// Through the presentation chain: the instrument is equalized before the
    /// room, so that the tail reverberates the brightened tone rather than
    /// getting brightened itself, and compressed last.
    pub open spec fn presented<F: Fn(Op) -> Single>(self, k: Arith<F>, eq: EqState, room: RoomState, comp: Compressor) -> Stereo {
        self.eq(k, eq).room(k, room).comp(k, comp)
    }
}

/// The channels of interleaved samples.
pub open spec fn channels_of(audio: Seq<Single>) -> Stereo {
    Stereo {
        left: Seq::new(audio.len() / 2, |i: int| audio[2 * i]),
        right: Seq::new(audio.len() / 2, |i: int| audio[2 * i + 1]),
    }
}

/// Runs interleaved samples through the presentation chain.
pub fn present<F: Fn(Op) -> Single>(
    k: &Arith<F>,
    audio: &[Single],
    eq: &mut MasterEq,
    room: &mut Reverb,
    comp: &mut Compressor,
) -> (out: Vec<Single>)
    requires
        audio@.len() % 2 == 0,
        old(room).wf(),
    ensures
        final(room).wf(),
        final(eq)@ == old(eq)@.after(
            *k,
            channels_of(audio@).left,
            channels_of(audio@).right,
            audio@.len() as int / 2,
        ),
        final(room)@ == old(room)@.after(
            *k,
            channels_of(audio@).eq(*k, old(eq)@).left,
            channels_of(audio@).eq(*k, old(eq)@).right,
            audio@.len() as int / 2,
        ),
        *final(comp) == old(comp).after(
            *k,
            channels_of(audio@).eq(*k, old(eq)@).room(*k, old(room)@).left,
            channels_of(audio@).eq(*k, old(eq)@).room(*k, old(room)@).right,
            audio@.len() as int / 2,
        ),
        out@ == interleave(
            channels_of(audio@).presented(*k, old(eq)@, old(room)@, *old(comp)).left,
            channels_of(audio@).presented(*k, old(eq)@, old(room)@, *old(comp)).right,
        ),
{
    let (mut left, mut right) = split_channels(audio);
    assert(left@ =~= channels_of(audio@).left);
    assert(right@ =~= channels_of(audio@).right);
    eq.process(k, left.as_mut_slice(), right.as_mut_slice());
    room.process(k, left.as_mut_slice(), right.as_mut_slice());
    comp.process(k, left.as_mut_slice(), right.as_mut_slice());
    assert(left@.len() == audio@.len() / 2 && audio@.len() == audio.len());
    join_channels(left.as_slice(), right.as_slice())
}

/// The greatest magnitude among the first `n` samples.
pub open spec fn peak_of(audio: Seq<Single>, n: int) -> Single
    decreases n,
{
    if n <= 0 {
        zero()
    } else {
        peak_of(audio, n - 1).greater(audio[n - 1].absolute())
    }
}

/// The greatest magnitude among the samples.
pub fn peak(audio: &[Single]) -> (p: Single)
    ensures
        p == peak_of(audio@, audio@.len() as int),
{
    let mut p: Single = zero();
    let mut i: usize = 0;
    while i < audio.len()
        invariant
            i <= audio@.len(),
            p == peak_of(audio@, i as int),
        decreases audio@.len() - i,
    {
        p = p.greater(audio[i].absolute());
        i += 1;
    }
    p
}

/// No sample is beyond the peak.
pub proof fn peak_bounds_samples(audio: Seq<Single>, n: int, i: int)
    requires
        0 <= i < n <= audio.len(),
        !audio[i].nan(),
    ensures
        audio[i].absolute().le(peak_of(audio, n)),
    decreases n,
{
    lemma_peak_is_number(audio, n);
    lemma_peak_is_number(audio, n - 1);
    if i < n - 1 {
        peak_bounds_samples(audio, n - 1, i);
    }
}

proof fn lemma_peak_is_number(audio: Seq<Single>, n: int)
    requires
        n <= audio.len(),
    ensures
        !peak_of(audio, n).nan(),
    decreases n,
{
    if n > 0 {
        lemma_peak_is_number(audio, n - 1);
    }
}

impl<F: Fn(Op) -> Single> Arith<F> {
    /// The gain that brings a peak just below full scale.
    #[verifier::allow_in_spec]
    pub fn peak_gain(&self, peak: Single) -> Single
        returns
            self.over(number(N0_891), peak),
    {
        self.over(number(N0_891), peak)
    }
}

/// The samples at the gain for their peak, but never louder; silence stays.
pub open spec fn normalized<F: Fn(Op) -> Single>(k: Arith<F>, audio: Seq<Single>) -> Seq<Single> {
    let peak = peak_of(audio, audio.len() as int);
    if zero().lt(peak) {
        Seq::new(audio.len(), |i: int| k.times(audio[i], k.peak_gain(peak).lesser(one())))
    } else {
        audio
    }
}

/// Peak normalization, instead of letting loud passages clip. Returns the peak.
pub fn normalize<F: Fn(Op) -> Single>(k: &Arith<F>, audio: &mut [Single]) -> (p: Single)
    ensures
        final(audio)@ == normalized(*k, old(audio)@),
        p == peak_of(old(audio)@, old(audio)@.len() as int),
{
    let ghost before = audio@;
    let p: Single = peak(audio);
    if zero().is_below(p) {
        let gain: Single = k.peak_gain(p).lesser(one());
        let n: usize = audio.len();
        let mut i: usize = 0;
        while i < n
            invariant
                i <= n,
                n == before.len(),
                audio@.len() == n,
                forall|j: int| 0 <= j < i ==> #[trigger] audio@[j] == k.times(before[j], gain),
                forall|j: int| i <= j < n ==> #[trigger] audio@[j] == before[j],
            decreases n - i,
        {
            audio[i] = k.times(audio[i], gain);
            i += 1;
        }
        assert(audio@ =~= normalized(*k, before));
    }
    p
}

/// A sample in sixteen bits: clipped at full scale, then cut to its whole part.
pub open spec fn pcm_of<F: Fn(Op) -> Single>(k: Arith<F>, x: Single) -> i16 {
    let scaled = k.times(x.clamped(one().negated(), one()), number(N32767));
    let whole = scaled.absolute().whole_part();
    if scaled.nan() {
        0
    } else if scaled.negative() {
        if whole <= 0x8000 {
            (-(whole as int)) as i16
        } else {
            i16::MIN
        }
    } else if whole <= 0x7FFF {
        whole as i16
    } else {
        i16::MAX
    }
}

/// A sample in sixteen bits.
pub fn to_pcm<F: Fn(Op) -> Single>(k: &Arith<F>, x: Single) -> (r: i16)
    ensures
        r == pcm_of(*k, x),
{
    let scaled: Single = k.times(x.clamped(one().negated(), one()), number(N32767));
    if scaled.is_nan() {
        return 0;
    }
    let whole: u64 = scaled.absolute().to_whole();
    if scaled.bits >= crate::number::SINGLE_SIGN {
        if whole <= 0x8000 {
            (-(whole as i64)) as i16
        } else {
            i16::MIN
        }
    } else if whole <= 0x7FFF {
        whole as i16
    } else {
        i16::MAX
    }
}

/// The soft peak limiter of live playing: loud chords in a wet room can exceed
/// full scale, and raw clipping at the device is audible as tearing. Instant
/// attack, slow release.
#[derive(Clone, Copy, Debug)]
pub struct Limiter {
    pub env: Single,
    pub release: Single,
}

impl Limiter {
    /// The limiter after a stereo sample.
    pub open spec fn next<F: Fn(Op) -> Single>(self, k: Arith<F>, left: Single, right: Single) -> Limiter {
        let peak = k.times(left.absolute().greater(right.absolute()), self.env);
        Limiter {
            env: if number(N0_95).lt(peak) {
                k.times(self.env, k.over(number(N0_95), peak))
            } else {
                k.minus(one(), k.times(k.minus(one(), self.env), self.release))
            },
            ..self
        }
    }

    /// The limiter after the first `n` samples.
    pub open spec fn after<F: Fn(Op) -> Single>(self, k: Arith<F>, left: Seq<Single>, right: Seq<Single>, n: int) -> Limiter
        decreases n,
    {
        if n <= 0 {
            self
        } else {
            self.after(k, left, right, n - 1).next(k, left[n - 1], right[n - 1])
        }
    }

    /// Samples at the gain in force when each of them comes.
    pub open spec fn limited<F: Fn(Op) -> Single>(self, k: Arith<F>, left: Seq<Single>, right: Seq<Single>, x: Seq<Single>) -> Seq<Single> {
        Seq::new(x.len(), |i: int| k.times(x[i], self.after(k, left, right, i + 1).env))
    }

    /// A limiter at rest.
    pub fn new<F: Fn(Op) -> Single>(k: &Arith<F>, sr: Single) -> (r: Limiter)
        ensures
            r == (Limiter { env: one(), release: k.exp(k.over(one().negated(), k.times(number(N0_08), sr))) }),
    {
        Limiter { env: one(), release: k.exp(k.over(one().negated(), k.times(number(N0_08), sr))) }
    }

    /// Limits stereo samples, in place.
    pub fn process<F: Fn(Op) -> Single>(&mut self, k: &Arith<F>, left: &mut [Single], right: &mut [Single])
        requires
            old(left)@.len() == old(right)@.len(),
        ensures
            *final(self) == old(self).after(*k, old(left)@, old(right)@, old(left)@.len() as int),
            final(left)@ == old(self).limited(*k, old(left)@, old(right)@, old(left)@),
            final(right)@ == old(self).limited(*k, old(left)@, old(right)@, old(right)@),
    {
        let ghost start = *self;
        let ghost left0 = left@;
        let ghost right0 = right@;
        let n: usize = left.len();
        let mut i: usize = 0;
        while i < n
            invariant
                i <= n,
                n == left0.len(),
                n == right0.len(),
                left@.len() == n,
                right@.len() == n,
                *self == start.after(*k, left0, right0, i as int),
                forall|j: int| 0 <= j < i ==> #[trigger] left@[j] == start.limited(*k, left0, right0, left0)[j],
                forall|j: int| 0 <= j < i ==> #[trigger] right@[j] == start.limited(*k, left0, right0, right0)[j],
                forall|j: int| i <= j < n ==> #[trigger] left@[j] == left0[j],
                forall|j: int| i <= j < n ==> #[trigger] right@[j] == right0[j],
            decreases n - i,
        {
            let peak: Single = k.times(left[i].absolute().greater(right[i].absolute()), self.env);
            if number(N0_95).is_below(peak) {
                self.env = k.times(self.env, k.over(number(N0_95), peak));
            } else {
                self.env = k.minus(one(), k.times(k.minus(one(), self.env), self.release));
            }
            left[i] = k.times(left[i], self.env);
            right[i] = k.times(right[i], self.env);
            i += 1;
        }
        assert(left@ =~= start.limited(*k, left0, right0, left0));
        assert(right@ =~= start.limited(*k, left0, right0, right0));
    }
}

/// A buffer of frames with `channels` channels each, of which the first two
/// carry left and right; a single channel carries the left.
pub open spec fn is_spread(left: Seq<Single>, right: Seq<Single>, channels: int, before: Seq<Single>, after: Seq<Single>) -> bool {
    &&& after.len() == before.len()
    &&& forall|i: int|
        0 <= i < after.len() ==> #[trigger] after[i] == (if i % channels == 0 && i / channels < left.len() {
            left[i / channels]
        } else if i % channels == 1 && i / channels < left.len() {
            right[i / channels]
        } else {
            before[i]
        })
}

/// Writes stereo samples into a device buffer.
pub fn spread(left: &[Single], right: &[Single], channels: usize, out: &mut [Single])
    requires
        channels > 0,
        left@.len() == right@.len(),
        left@.len() * channels <= old(out)@.len(),
    ensures
        is_spread(left@, right@, channels as int, old(out)@, final(out)@),
{
    let ghost before = out@;
    let ghost c = channels as int;
    let n: usize = left.len();
    let size: usize = out.len();
    let mut i: usize = 0;
    while i < n
        invariant
            i <= n,
            n == left@.len(),
            size == before.len(),
            c == channels,
            channels > 0,
            left@.len() == right@.len(),
            n * c <= before.len(),
            out@.len() == before.len(),
            forall|j: int|
                0 <= j < out@.len() ==> #[trigger] out@[j] == (if j % c == 0 && j / c < i {
                    left@[j / c]
                } else if j % c == 1 && j / c < i {
                    right@[j / c]
                } else {
                    before[j]
                }),
        decreases n - i,
    {
        proof {
            assert((i + 1) * c <= n * c) by (nonlinear_arith)
                requires
                    i + 1 <= n,
                    c > 0,
            ;
            assert((i + 1) * c == i * c + c) by (nonlinear_arith);
            assert(i * channels == i * c);
            assert(i * c >= 0) by (nonlinear_arith)
                requires
                    c > 0,
                    i >= 0,
            ;
        }
        let at: usize = i * channels;
        out[at] = left[i];
        if channels > 1 {
            out[at + 1] = right[i];
        }
        proof {
            assert forall|j: int| 0 <= j < out@.len() implies #[trigger] out@[j] == (if j % c == 0 && j / c < i + 1 {
                left@[j / c]
            } else if j % c == 1 && j / c < i + 1 {
                right@[j / c]
            } else {
                before[j]
            }) by {
                vstd::arithmetic::div_mod::lemma_fundamental_div_mod(j, c);
                vstd::arithmetic::div_mod::lemma_fundamental_div_mod_converse(at as int, c, i as int, 0);
                if c > 1 {
                    vstd::arithmetic::div_mod::lemma_fundamental_div_mod_converse(at + 1, c, i as int, 1);
                }
                if j / c == i && j % c == 0 {
                    assert(j == i * c) by (nonlinear_arith)
                        requires
                            j == c * (j / c) + j % c,
                            j / c == i,
                            j % c == 0,
                    ;
                }
                if j / c == i && j % c == 1 {
                    assert(j == i * c + 1) by (nonlinear_arith)
                        requires
                            j == c * (j / c) + j % c,
                            j / c == i,
                            j % c == 1,
                    ;
                }
            }
        }
        i += 1;
    }
}

/// Peak normalization never makes anything louder: a recording whose peak is
/// below 0.891 of full scale is taken at a gain of one, a louder one at the gain
/// that brings its peak there, and silence stays as it is. Every sample is taken
/// at one gain.
pub proof fn normalizing_only_softens<F: Fn(Op) -> Single>(k: Arith<F>, audio: Seq<Single>, i: int)
    requires
        0 <= i < audio.len(),
    ensures
        ({
            let peak = peak_of(audio, audio.len() as int);
            let gain = k.over(number(0x3F64_1893), peak);
            &&& normalized(k, audio).len() == audio.len()
            &&& !zero().lt(peak) ==> normalized(k, audio)[i] == audio[i]
            &&& zero().lt(peak) && one().lt(gain) ==> normalized(k, audio)[i] == k.times(audio[i], one())
            &&& zero().lt(peak) && gain.lt(one()) ==> normalized(k, audio)[i] == k.times(audio[i], gain)
        }),
{
}

/// The peak is the magnitude of a sample, if any is above zero.
pub proof fn peak_is_a_sample(audio: Seq<Single>, n: int) -> (i: int)
    requires
        0 <= n <= audio.len(),
        zero().lt(peak_of(audio, n)),
    ensures
        0 <= i < n,
        peak_of(audio, n) == audio[i].absolute(),
    decreases n,
{
    if peak_of(audio, n) == audio[n - 1].absolute() {
        n - 1
    } else {
        peak_is_a_sample(audio, n - 1)
    }
}

/// Samples beyond full scale are clipped: they are written as full scale is.
pub proof fn pcm_clips<F: Fn(Op) -> Single>(k: Arith<F>, x: Single)
    ensures
        one().lt(x) ==> pcm_of(k, x) == pcm_of(k, one()),
        x.lt(one().negated()) ==> pcm_of(k, x) == pcm_of(k, one().negated()),
{
}

/// Sixteen bits keep the sign: where the arithmetic is the same on either side
/// of zero, a sample and its opposite are written as opposites, and a sample
/// within full scale is its whole part at 32767 to full scale.
pub proof fn pcm_is_odd<F: Fn(Op) -> Single>(k: Arith<F>, x: Single)
    requires
        zero().le(x),
        x.le(one()),
        x.bits < 0x8000_0000,
        k.times(x.negated(), number(0x46FF_FE00)) == k.times(x, number(0x46FF_FE00)).negated(),
        zero().le(k.times(x, number(0x46FF_FE00))),
        k.times(x, number(0x46FF_FE00)).bits < 0x8000_0000,
        k.times(x, number(0x46FF_FE00)).le(number(0x46FF_FE00)),
    ensures
        pcm_of(k, x) == k.times(x, number(0x46FF_FE00)).whole_part(),
        pcm_of(k, x.negated()) == -pcm_of(k, x),
{
    let y = k.times(x, number(0x46FF_FE00));
    lemma_full_scale(y);
    assert(x.clamped(one().negated(), one()) == x);
    assert(x.negated().clamped(one().negated(), one()) == x.negated());
    assert(y.negated().absolute() == y.absolute());
}

proof fn lemma_full_scale(y: Single)
    requires
        zero().le(y),
        y.bits <= 0x46FF_FE00,
    ensures
        y.whole_part() <= 32767,
{
    let exponent = y.bits as nat / 0x80_0000;
    let significand = 0x80_0000 + y.bits as nat % 0x80_0000;
    vstd::arithmetic::power2::lemma2_to64();
    if exponent == 141 {
        assert(pow2(9) == 512);
        assert(significand <= 0xFF_FE00);
        assert(significand / 512 <= 32767);
    } else if 127 <= exponent {
        let shift = (150 - exponent) as nat;
        assert(shift >= 10);
        vstd::arithmetic::power2::lemma_pow2_pos(shift);
        if shift > 10 {
            vstd::arithmetic::power2::lemma_pow2_strictly_increases(10, shift);
        }
        assert(pow2(10) == 1024);
        assert(significand / pow2(shift) <= 0x100_0000nat / 1024) by (nonlinear_arith)
            requires
                significand <= 0x100_0000,
                pow2(shift) >= 1024,
        ;
    }
}

/// The limiter holds a loud sample at 0.95 of full scale: where the gain in force
/// would leave more, it is cut by as much as is too much, at once and on both
/// sides; else it recovers by its release.
pub proof fn limiter_holds_peaks<F: Fn(Op) -> Single>(k: Arith<F>, l: Limiter, left: Seq<Single>, right: Seq<Single>, i: int)
    requires
        0 <= i < left.len(),
        left.len() == right.len(),
    ensures
        ({
            let before = l.after(k, left, right, i).env;
            let after = l.after(k, left, right, i + 1).env;
            let peak = k.times(left[i].absolute().greater(right[i].absolute()), before);
            &&& l.limited(k, left, right, left)[i] == k.times(left[i], after)
            &&& l.limited(k, left, right, right)[i] == k.times(right[i], after)
            &&& number(0x3F73_3333).lt(peak) ==> after == k.times(before, k.over(number(0x3F73_3333), peak))
            &&& !number(0x3F73_3333).lt(peak) ==> after == k.minus(
                one(),
                k.times(k.minus(one(), before), l.release),
            )
        }),
{
    lemma_release_stays(k, l, left, right, i);
}

proof fn lemma_release_stays<F: Fn(Op) -> Single>(k: Arith<F>, l: Limiter, left: Seq<Single>, right: Seq<Single>, n: int)
    ensures
        l.after(k, left, right, n).release == l.release,
    decreases n,
{
    if n > 0 {
        lemma_release_stays(k, l, left, right, n - 1);
    }
}

/// A limiter at rest leaves a recording that never exceeds its threshold alone,
/// where one is one: where one less nothing is one, and a factor of one changes
/// no sample.
pub proof fn limiter_leaves_soft_sound<F: Fn(Op) -> Single>(
    k: Arith<F>,
    l: Limiter,
    left: Seq<Single>,
    right: Seq<Single>,
    n: int,
)
    requires
        l.env == one(),
        k.minus(one(), k.times(k.minus(one(), one()), l.release)) == one(),
        0 <= n <= left.len(),
        left.len() == right.len(),
        forall|i: int|
            0 <= i < left.len() ==> !number(0x3F73_3333).lt(
                k.times((#[trigger] left[i]).absolute().greater(right[i].absolute()), one()),
            ),
    ensures
        l.after(k, left, right, n).env == one(),
        forall|i: int| 0 <= i < n ==> #[trigger] l.limited(k, left, right, left)[i] == k.times(left[i], one()),
    decreases n,
{
    if n > 0 {
        limiter_leaves_soft_sound(k, l, left, right, n - 1);
        lemma_release_stays(k, l, left, right, n - 1);
        assert(!number(0x3F73_3333).lt(k.times(left[n - 1].absolute().greater(right[n - 1].absolute()), one())));
    }
}

/// A limiter does not notice where one block ends and the next begins.
pub proof fn limiter_ignores_block_bounds<F: Fn(Op) -> Single>(
    k: Arith<F>,
    l: Limiter,
    left: Seq<Single>,
    right: Seq<Single>,
    more_left: Seq<Single>,
    more_right: Seq<Single>,
    n: int,
)
    requires
        left.len() == right.len(),
        more_left.len() == more_right.len(),
        0 <= n <= more_left.len(),
    ensures
        l.after(k, left + more_left, right + more_right, left.len() + n) == l.after(
            k,
            left,
            right,
            left.len() as int,
        ).after(k, more_left, more_right, n),
    decreases n,
{
    if n > 0 {
        limiter_ignores_block_bounds(k, l, left, right, more_left, more_right, n - 1);
        assert((left + more_left)[left.len() + n - 1] == more_left[n - 1]);
        assert((right + more_right)[left.len() + n - 1] == more_right[n - 1]);
    } else {
        lemma_limiter_prefix(k, l, left, right, more_left, more_right, left.len() as int);
    }
}

proof fn lemma_limiter_prefix<F: Fn(Op) -> Single>(
    k: Arith<F>,
    l: Limiter,
    left: Seq<Single>,
    right: Seq<Single>,
    more_left: Seq<Single>,
    more_right: Seq<Single>,
    n: int,
)
    requires
        left.len() == right.len(),
        0 <= n <= left.len(),
    ensures
        l.after(k, left + more_left, right + more_right, n) == l.after(k, left, right, n),
    decreases n,
{
    if n > 0 {
        lemma_limiter_prefix(k, l, left, right, more_left, more_right, n - 1);
        assert((left + more_left)[n - 1] == left[n - 1]);
        assert((right + more_right)[n - 1] == right[n - 1]);
    }
}

/// A frame of a device buffer carries left first and right second, further
/// channels keep what they held, and one channel alone carries the left.
pub proof fn spreading_fills_two_channels(
    left: Seq<Single>,
    right: Seq<Single>,
    channels: int,
    before: Seq<Single>,
    after: Seq<Single>,
    f: int,
    c: int,
)
    requires
        is_spread(left, right, channels, before, after),
        left.len() == right.len(),
        0 <= f < left.len(),
        0 <= c < channels,
        left.len() * channels <= before.len(),
    ensures
        f * channels + c < after.len(),
        after[f * channels + c] == (if c == 0 {
            left[f]
        } else if c == 1 {
            right[f]
        } else {
            before[f * channels + c]
        }),
{
    let at = f * channels + c;
    assert((f + 1) * channels <= left.len() * channels) by (nonlinear_arith)
        requires
            f + 1 <= left.len(),
            channels > 0,
    ;
    assert((f + 1) * channels == f * channels + channels) by (nonlinear_arith);
    assert(f * channels >= 0) by (nonlinear_arith)
        requires
            f >= 0,
            channels > 0,
    ;
    vstd::arithmetic::div_mod::lemma_fundamental_div_mod_converse(at, channels, f, c);
}

/// What is not a number is written as silence.
pub proof fn pcm_of_no_number_is_silent<F: Fn(Op) -> Single>(k: Arith<F>, x: Single)
    requires
        k.times(x.clamped(one().negated(), one()), number(0x46FF_FE00)).nan(),
    ensures
        pcm_of(k, x) == 0,
{
}

/// The presentation chain is the equalizer, then the room, then the compressor.
pub proof fn chain_runs_in_order<F: Fn(Op) -> Single>(s: Stereo, k: Arith<F>, eq: EqState, room: RoomState, comp: Compressor)
    ensures
        ({
            let bright_left = equalized(k, eq, s.left, s.right, true);
            let bright_right = equalized(k, eq, s.left, s.right, false);
            let wet_left = room_left(k, room, bright_left, bright_right);
            let wet_right = room_right(k, room, bright_left, bright_right);
            &&& s.presented(k, eq, room, comp).left == comp.compressed(k, wet_left, wet_right, wet_left)
            &&& s.presented(k, eq, room, comp).right == comp.compressed(k, wet_left, wet_right, wet_right)
        }),
{
}

/// A frame of interleaved samples is the left sample and the right one.
pub proof fn frames_are_left_and_right(audio: Seq<Single>, i: int)
    requires
        0 <= i < audio.len() / 2,
    ensures
        channels_of(audio).left[i] == audio[2 * i],
        channels_of(audio).right[i] == audio[2 * i + 1],
        channels_of(audio).left.len() == audio.len() / 2,
        channels_of(audio).right.len() == audio.len() / 2,
{
}

} // verus!
