//! Delay lines: ring buffers read at one end and written at the other.

use crate::arith::{Arith, Op};
use crate::constant::{N10, N1000, N3, TAU};
use crate::number::{Single, number, one, zero};
use vstd::prelude::*;

verus! {

/// A delay line. Its view lists the samples still to come out, oldest first.
pub struct DelayLine<T> {
    buf: Vec<T>,
    pos: usize,
}

/// Position `k` of a ring of `len` entries, counted from `pos`.
pub open spec fn ring_index(pos: int, len: int, k: int) -> int {
    if pos + k < len {
        pos + k
    } else {
        pos + k - len
    }
}

impl<T> View for DelayLine<T> {
    type V = Seq<T>;

    closed spec fn view(&self) -> Seq<T> {
        Seq::new(
            self.buf@.len(),
            |k: int| self.buf@[ring_index(self.pos as int, self.buf@.len() as int, k)],
        )
    }
}

/// A line of `len` samples of silence, of one where `len` is zero.
pub open spec fn quiet<T>(len: int, silence: T) -> Seq<T> {
    Seq::new(
        if len <= 0 {
            1
        } else {
            len as nat
        },
        |k: int| silence,
    )
}

/// One sample in, the oldest one out.
pub open spec fn shifted<T>(line: Seq<T>, v: T) -> Seq<T> {
    line.drop_first().push(v)
}

/// The line after writing all of `ws`, one after the other.
pub open spec fn after_writes<T>(line: Seq<T>, ws: Seq<T>) -> Seq<T>
    decreases ws.len(),
{
    if ws.len() == 0 {
        line
    } else {
        shifted(after_writes(line, ws.drop_last()), ws.last())
    }
}

impl<T: Copy> DelayLine<T> {
    pub closed spec fn wf(self) -> bool {
        self.pos < self.buf@.len()
    }

    /// A line of `len` samples of silence, of one where `len` is zero.
    pub fn new(len: usize, silence: T) -> (r: DelayLine<T>)
        ensures
            r.wf(),
            r@ == quiet(len as int, silence),
    {
        let n: usize = if len == 0 {
            1
        } else {
            len
        };
        let mut buf: Vec<T> = Vec::with_capacity(n);
        let mut i: usize = 0;
        while i < n
            invariant
                i <= n,
                buf@.len() == i,
                forall|k: int| 0 <= k < i ==> #[trigger] buf@[k] == silence,
            decreases n - i,
        {
            buf.push(silence);
            i += 1;
        }
        let r = DelayLine { buf, pos: 0 };
        assert(r@ =~= quiet(len as int, silence));
        r
    }

    /// A line that is in use is never empty.
    pub proof fn lemma_wf(&self)
        requires
            self.wf(),
        ensures
            self@.len() > 0,
    {
    }

    /// The oldest sample.
    pub fn read(&self) -> (v: T)
        requires
            self.wf(),
        ensures
            v == self@[0],
    {
        self.buf[self.pos]
    }

    /// Writes a sample over the oldest one.
    pub fn write(&mut self, v: T)
        requires
            old(self).wf(),
        ensures
            final(self).wf(),
            final(self)@ == shifted(old(self)@, v),
    {
        let ghost before = *self;
        self.buf[self.pos] = v;
        if self.pos == self.buf.len() - 1 {
            self.pos = 0;
        } else {
            self.pos = self.pos + 1;
        }
        assert(self@ =~= shifted(before@, v));
    }
}

proof fn lemma_after_writes_len<T>(line: Seq<T>, ws: Seq<T>)
    requires
        line.len() > 0,
    ensures
        after_writes(line, ws).len() == line.len(),
    decreases ws.len(),
{
    if ws.len() > 0 {
        lemma_after_writes_len(line, ws.drop_last());
    }
}

/// A line of `n` samples delays by exactly `n` writes: what it holds is always
/// the last `n` samples of what it held and what was written since.
pub proof fn line_delays_by_its_length<T>(line: Seq<T>, ws: Seq<T>)
    requires
        line.len() > 0,
    ensures
        after_writes(line, ws) == (line + ws).subrange(ws.len() as int, (line.len() + ws.len()) as int),
        ws.len() >= line.len() ==> after_writes(line, ws)[0] == ws[ws.len() - line.len()],
    decreases ws.len(),
{
    if ws.len() > 0 {
        let front = ws.drop_last();
        line_delays_by_its_length(line, front);
        lemma_after_writes_len(line, front);
    }
    assert(after_writes(line, ws) =~= (line + ws).subrange(ws.len() as int, (line.len() + ws.len()) as int));
}

/// A bank of delay lines that are read together and written together.
pub struct DelayBank<T> {
    lines: Vec<DelayLine<T>>,
}

impl<T> View for DelayBank<T> {
    type V = Seq<Seq<T>>;

    closed spec fn view(&self) -> Seq<Seq<T>> {
        self.lines@.map_values(|line: DelayLine<T>| line@)
    }
}

/// The oldest sample of every line.
pub open spec fn taps_of<T>(lines: Seq<Seq<T>>) -> Seq<T> {
    lines.map_values(|line: Seq<T>| line[0])
}

/// Every line after writing its own sample.
pub open spec fn fed<T>(lines: Seq<Seq<T>>, vs: Seq<T>) -> Seq<Seq<T>> {
    Seq::new(lines.len(), |k: int| shifted(lines[k], vs[k]))
}

impl<T: Copy> DelayBank<T> {
    pub closed spec fn wf(self) -> bool {
        forall|k: int| 0 <= k < self.lines@.len() ==> (#[trigger] self.lines@[k]).wf()
    }

    /// No line of a bank that is in use is empty.
    pub proof fn lemma_wf(&self)
        requires
            self.wf(),
        ensures
            forall|k: int| 0 <= k < self@.len() ==> (#[trigger] self@[k]).len() > 0,
    {
        assert forall|k: int| 0 <= k < self@.len() implies (#[trigger] self@[k]).len() > 0 by {
            self.lines@[k].lemma_wf();
        }
    }

    /// Lines of the given lengths, silent.
    pub fn new(lens: &[usize], silence: T) -> (r: DelayBank<T>)
        ensures
            r.wf(),
            r@ == lens@.map_values(|len: usize| quiet(len as int, silence)),
    {
        let mut lines: Vec<DelayLine<T>> = Vec::with_capacity(lens.len());
        let mut k: usize = 0;
        while k < lens.len()
            invariant
                k <= lens@.len(),
                lines@.len() == k,
                forall|j: int|
                    #![trigger lines@[j]]
                    0 <= j < k ==> lines@[j].wf() && lines@[j]@ == quiet(lens@[j] as int, silence),
            decreases lens@.len() - k,
        {
            lines.push(DelayLine::new(lens[k], silence));
            k += 1;
        }
        let r = DelayBank { lines };
        assert(r@ =~= lens@.map_values(|len: usize| quiet(len as int, silence)));
        r
    }

    /// The number of lines.
    pub fn len(&self) -> (n: usize)
        ensures
            n == self@.len(),
    {
        self.lines.len()
    }

    /// The oldest sample of line `k`.
    pub fn tap(&self, k: usize) -> (v: T)
        requires
            self.wf(),
            k < self@.len(),
        ensures
            v == taps_of(self@)[k as int],
    {
        self.lines[k].read()
    }

    /// Writes sample `vs[k]` to line `k`, for every line.
    pub fn feed(&mut self, vs: &[T])
        requires
            old(self).wf(),
            vs@.len() == old(self)@.len(),
        ensures
            final(self).wf(),
            final(self)@ == fed(old(self)@, vs@),
    {
        let ghost before = *self;
        let mut k: usize = 0;
        while k < self.lines.len()
            invariant
                k <= self.lines@.len(),
                self.lines@.len() == before.lines@.len(),
                vs@.len() == self.lines@.len(),
                forall|j: int| 0 <= j < self.lines@.len() ==> (#[trigger] self.lines@[j]).wf(),
                forall|j: int| 0 <= j < k ==> (#[trigger] self.lines@[j])@ == shifted(before.lines@[j]@, vs@[j]),
                forall|j: int| k <= j < self.lines@.len() ==> #[trigger] self.lines@[j] == before.lines@[j],
            decreases self.lines@.len() - k,
        {
            self.lines[k].write(vs[k]);
            k += 1;
        }
        assert(self@ =~= fed(before@, vs@));
    }

    /// Writes one sample to every line.
    pub fn feed_all(&mut self, v: T)
        requires
            old(self).wf(),
        ensures
            final(self).wf(),
            final(self)@ == old(self)@.map_values(|line: Seq<T>| shifted(line, v)),
    {
        let ghost before = *self;
        let mut k: usize = 0;
        while k < self.lines.len()
            invariant
                k <= self.lines@.len(),
                self.lines@.len() == before.lines@.len(),
                forall|j: int| 0 <= j < self.lines@.len() ==> (#[trigger] self.lines@[j]).wf(),
                forall|j: int| 0 <= j < k ==> (#[trigger] self.lines@[j])@ == shifted(before.lines@[j]@, v),
                forall|j: int| k <= j < self.lines@.len() ==> #[trigger] self.lines@[j] == before.lines@[j],
            decreases self.lines@.len() - k,
        {
            self.lines[k].write(v);
            k += 1;
        }
        assert(self@ =~= before@.map_values(|line: Seq<T>| shifted(line, v)));
    }
}

/// The least of an integer and what an index can hold.
pub open spec fn index_of(n: nat) -> usize {
    if n <= usize::MAX {
        n as usize
    } else {
        usize::MAX
    }
}

impl<F: Fn(Op) -> Single> Arith<F> {
    /// A time in milliseconds, in samples.
    pub open spec fn spec_samples(&self, ms: Single, sr: Single) -> usize {
        index_of(self.times(self.over(ms, number(N1000)), sr).whole_part())
    }

    /// A time in milliseconds, in whole samples.
    #[verifier::when_used_as_spec(spec_samples)]
    pub fn samples(&self, ms: Single, sr: Single) -> (r: usize)
        ensures
            r == self.spec_samples(ms, sr),
    {
        to_index(self.times(self.over(ms, number(N1000)), sr))
    }

    /// The feedback factor of a line of `len` samples, such that a loop falls
    /// by sixty decibels in `rt60` seconds.
    #[verifier::allow_in_spec]
    pub fn feedback(&self, len: usize, rt60: Single, sr: Single) -> Single
        returns
            self.power(
                number(N10),
                self.over(self.times(number(N3).negated(), self.whole(len as u64)), self.times(rt60, sr)),
            ),
    {
        self.power(
            number(N10),
            self.over(self.times(number(N3).negated(), self.whole(len as u64)), self.times(rt60, sr)),
        )
    }

    /// The factor of a one-pole lowpass with its corner at `freq`.
    #[verifier::allow_in_spec]
    pub fn pole(&self, freq: Single, sr: Single) -> Single
        returns
            self.exp(self.over(self.times(number(TAU).negated(), freq), sr)),
    {
        self.exp(self.over(self.times(number(TAU).negated(), freq), sr))
    }

    /// One sample of a one-pole lowpass at state `d`.
    #[verifier::allow_in_spec]
    pub fn absorbed(&self, d: Single, v: Single, pole: Single) -> Single
        returns
            self.plus(self.times(d, pole), self.times(v, self.minus(one(), pole))),
    {
        self.plus(self.times(d, pole), self.times(v, self.minus(one(), pole)))
    }
}

/// The whole part of a number, as far as an index can hold it.
pub fn to_index(x: Single) -> (r: usize)
    ensures
        r == index_of(x.whole_part()),
{
    let n: u64 = x.to_whole();
    if n > usize::MAX as u64 {
        usize::MAX
    } else {
        n as usize
    }
}

/// The sum of the first `n` taps.
pub open spec fn tap_total<F: Fn(Op) -> Single>(k: Arith<F>, taps: Seq<Single>, n: int) -> Single
    decreases n,
{
    if n <= 0 {
        zero()
    } else {
        k.plus(tap_total(k, taps, n - 1), taps[n - 1])
    }
}

/// The sum of some taps, in order.
pub fn sum_taps<F: Fn(Op) -> Single>(k: &Arith<F>, taps: &[Single]) -> (sum: Single)
    ensures
        sum == tap_total(*k, taps@, taps@.len() as int),
{
    let mut sum: Single = zero();
    let mut i: usize = 0;
    while i < taps.len()
        invariant
            i <= taps@.len(),
            sum == tap_total(*k, taps@, i as int),
        decreases taps@.len() - i,
    {
        sum = k.plus(sum, taps[i]);
        i += 1;
    }
    sum
}

} // verus!
