//! Offline rendering: drive a synthesizer through a timed event list and
//! capture the output, exactly as a real-time host would but unclocked.

use crate::delay::index_of;
use crate::events::{Event, EventKind};
use crate::exact::{ceiling_part_rounds_up, lemma_least_is_unique, lemma_units, units, whole_part_rounds_down};
use crate::number::{Double, Single, zero};
use crate::synth::Synth;
use crate::wide::{Wide, WideOp, wide_number};
use vstd::prelude::*;

verus! {

/// The largest number of frames generated in one go.
pub const BLOCK: usize = 256;

/// One step of a rendering.
pub enum Step {
    /// Hand event `index` to the synthesizer.
    Dispatch { index: int },
    /// Generate `frames` frames.
    Block { frames: int },
}

/// The first event, from `index` on, that is not due at sample `cursor`.
pub open spec fn first_not_due(starts: Seq<usize>, index: int, cursor: int) -> int
    decreases starts.len() - index,
{
    if 0 <= index < starts.len() && starts[index] <= cursor {
        first_not_due(starts, index + 1, cursor)
    } else {
        index
    }
}

/// How many frames follow sample `cursor` before the next event, where event
/// `next` is the next one: up to it or to the end, at most a block.
pub open spec fn block_length(starts: Seq<usize>, total: int, next: int, cursor: int) -> int {
    let end = if next < starts.len() && starts[next] < total {
        starts[next] as int
    } else {
        total
    };
    if end - cursor < 1 {
        1
    } else if end - cursor > BLOCK {
        BLOCK as int
    } else {
        end - cursor
    }
}

/// Dispatching the events `from..to`.
pub open spec fn dispatches(from: int, to: int) -> Seq<Step> {
    Seq::new((to - from) as nat, |i: int| Step::Dispatch { index: from + i })
}

/// The steps that render the samples `cursor..total`, where the events before
/// `index` are done: all events due at `cursor`, then a block, and on.
pub open spec fn schedule(starts: Seq<usize>, total: int, index: int, cursor: int) -> Seq<Step>
    decreases total - cursor,
{
    if cursor >= total {
        Seq::empty()
    } else {
        let next = first_not_due(starts, index, cursor);
        let frames = block_length(starts, total, next, cursor);
        dispatches(index, next) + seq![Step::Block { frames }] + schedule(
            starts,
            total,
            next,
            cursor + frames,
        )
    }
}

/// Two channels of one length, sample by sample in turn.
pub open spec fn interleave<T>(left: Seq<T>, right: Seq<T>) -> Seq<T> {
    Seq::new(
        2 * left.len(),
        |i: int|
            if i % 2 == 0 {
                left[i / 2]
            } else {
                right[i / 2]
            },
    )
}

/// The model of a synthesizer after the first `p` steps.
pub open spec fn model_after<T, S: Synth<T>>(m: S::Model, steps: Seq<Step>, events: Seq<Event>, p: int) -> S::Model
    decreases p,
{
    if p <= 0 {
        m
    } else {
        let before = model_after::<T, S>(m, steps, events, p - 1);
        match steps[p - 1] {
            Step::Dispatch { index } => S::told(before, events[index].kind),
            Step::Block { frames } => S::played(before, frames as nat),
        }
    }
}

/// What the first `p` steps sound like, interleaved.
pub open spec fn audio_after<T, S: Synth<T>>(m: S::Model, steps: Seq<Step>, events: Seq<Event>, p: int) -> Seq<T>
    decreases p,
{
    if p <= 0 {
        Seq::empty()
    } else {
        let before = audio_after::<T, S>(m, steps, events, p - 1);
        match steps[p - 1] {
            Step::Dispatch { index } => before,
            Step::Block { frames } => {
                let block = S::sounded(model_after::<T, S>(m, steps, events, p - 1), frames as nat);
                before + interleave(block.0, block.1)
            },
        }
    }
}

/// The synthesizer knows the note of the event, if it has one.
pub open spec fn is_playable<T, S: Synth<T>>(kind: EventKind) -> bool {
    match kind {
        EventKind::NoteOn { note, .. } => S::takes(note),
        EventKind::NoteOff { note } => S::takes(note),
        _ => true,
    }
}

/// Hands one event to the synthesizer.
pub fn dispatch<T, S: Synth<T>>(synth: &mut S, kind: EventKind)
    requires
        old(synth).ready(),
        is_playable::<T, S>(kind),
    ensures
        final(synth).ready(),
        final(synth).model() == S::told(old(synth).model(), kind),
{
    match kind {
        EventKind::NoteOn { note, velocity } => synth.note_on(note, velocity),
        EventKind::NoteOff { note } => synth.note_off(note),
        EventKind::Sustain { position } => synth.set_sustain(position),
        EventKind::Control { controller, value } => synth.set_control(controller, value),
    }
}

/// The sample at which each event starts: its time in samples, rounded down.
pub open spec fn starts_of<G: Fn(WideOp) -> Double>(w: Wide<G>, events: Seq<Event>, sample_rate: Single) -> Seq<usize> {
    events.map_values(|e: Event| index_of(w.times(e.time, w.widen(sample_rate)).whole_part()))
}

/// When a rendering ends: `tail` seconds after its last event.
pub open spec fn end_time<G: Fn(WideOp) -> Double>(w: Wide<G>, events: Seq<Event>, tail: Double) -> Double {
    w.plus(
        if events.len() > 0 {
            events.last().time
        } else {
            wide_number(0)
        },
        tail,
    )
}

/// How many frames a rendering has: its time in samples, rounded up.
pub open spec fn frames_of<G: Fn(WideOp) -> Double>(w: Wide<G>, events: Seq<Event>, sample_rate: Single, tail: Double) -> usize {
    index_of(w.times(end_time(w, events, tail), w.widen(sample_rate)).ceiling_part())
}

/// The steps of a rendering.
pub open spec fn steps_of<G: Fn(WideOp) -> Double>(w: Wide<G>, events: Seq<Event>, sample_rate: Single, tail: Double) -> Seq<Step> {
    schedule(starts_of(w, events, sample_rate), frames_of(w, events, sample_rate, tail) as int, 0, 0)
}

/// The number of frames of a rendering.
pub fn frame_count<G: Fn(WideOp) -> Double>(w: &Wide<G>, events: &[Event], sample_rate: Single, tail: Double) -> (n: usize)
    ensures
        n == frames_of(*w, events@, sample_rate, tail),
{
    let last: Double = if events.len() > 0 {
        events[events.len() - 1].time
    } else {
        wide_number(0)
    };
    let n: u64 = w.times(w.plus(last, tail), w.widen(sample_rate)).to_ceiling();
    if n > usize::MAX as u64 {
        usize::MAX
    } else {
        n as usize
    }
}

/// Render an event timeline to interleaved stereo samples.
///
/// `tail` seconds of silence-driven processing are appended after the last
/// event so decays and pedal releases ring out naturally.
pub fn render_events<G: Fn(WideOp) -> Double, S: Synth<Single>>(
    synth: &mut S,
    w: &Wide<G>,
    events: &[Event],
    sample_rate: Single,
    tail: Double,
) -> (out: Vec<Single>)
    requires
        old(synth).ready(),
        forall|i: int| 0 <= i < events@.len() ==> is_playable::<Single, S>((#[trigger] events@[i]).kind),
        2 * frames_of(*w, events@, sample_rate, tail) <= usize::MAX,
    ensures
        final(synth).ready(),
        out@.len() == 2 * frames_of(*w, events@, sample_rate, tail),
        out@ == audio_after::<Single, S>(
            old(synth).model(),
            steps_of(*w, events@, sample_rate, tail),
            events@,
            steps_of(*w, events@, sample_rate, tail).len() as int,
        ),
        final(synth).model() == model_after::<Single, S>(
            old(synth).model(),
            steps_of(*w, events@, sample_rate, tail),
            events@,
            steps_of(*w, events@, sample_rate, tail).len() as int,
        ),
{
    let total: usize = frame_count(w, events, sample_rate, tail);
    let sr: Double = w.widen(sample_rate);
    let mut starts: Vec<usize> = Vec::with_capacity(events.len());
    let mut i: usize = 0;
    while i < events.len()
        invariant
            i <= events@.len(),
            sr == w.widen(sample_rate),
            starts@.len() == i,
            forall|j: int| 0 <= j < i ==> #[trigger] starts@[j] == starts_of(*w, events@, sample_rate)[j],
        decreases events@.len() - i,
    {
        let n: u64 = w.times(events[i].time, sr).to_whole();
        starts.push(
            if n > usize::MAX as u64 {
                usize::MAX
            } else {
                n as usize
            },
        );
        i += 1;
    }
    assert(starts@ =~= starts_of(*w, events@, sample_rate));
    render_schedule(synth, events, starts.as_slice(), total, zero())
}

/// Render an event timeline to interleaved stereo samples. Event `i` starts at
/// sample `starts[i]`; `total` frames are rendered.
pub fn render_schedule<T: Copy, S: Synth<T>>(
    synth: &mut S,
    events: &[Event],
    starts: &[usize],
    total: usize,
    silence: T,
) -> (out: Vec<T>)
    requires
        old(synth).ready(),
        forall|i: int| 0 <= i < events@.len() ==> is_playable::<T, S>((#[trigger] events@[i]).kind),
        starts@.len() == events@.len(),
        2 * total <= usize::MAX,
    ensures
        final(synth).ready(),
        out@.len() == 2 * total,
        out@ == audio_after::<T, S>(
            old(synth).model(),
            schedule(starts@, total as int, 0, 0),
            events@,
            schedule(starts@, total as int, 0, 0).len() as int,
        ),
        final(synth).model() == model_after::<T, S>(
            old(synth).model(),
            schedule(starts@, total as int, 0, 0),
            events@,
            schedule(starts@, total as int, 0, 0).len() as int,
        ),
{
    let mut out: Vec<T> = Vec::with_capacity(total * 2);
    let mut left: Vec<T> = vec![silence; BLOCK];
    let mut right: Vec<T> = vec![silence; BLOCK];
    let ghost start = synth.model();
    let ghost plan = schedule(starts@, total as int, 0, 0);
    let ghost mut done: int = 0;
    let mut index: usize = 0;
    let mut cursor: usize = 0;
    assert(plan.skip(0) =~= plan);
    while cursor < total
        invariant
            synth.ready(),
            forall|i: int| 0 <= i < events@.len() ==> is_playable::<T, S>((#[trigger] events@[i]).kind),
            starts@.len() == events@.len(),
            2 * total <= usize::MAX,
            cursor <= total,
            index <= events@.len(),
            left@.len() == BLOCK,
            right@.len() == BLOCK,
            0 <= done <= plan.len(),
            plan.skip(done) == schedule(starts@, total as int, index as int, cursor as int),
            synth.model() == model_after::<T, S>(start, plan, events@, done),
            out@ == audio_after::<T, S>(start, plan, events@, done),
            out@.len() == 2 * cursor,
        decreases total - cursor,
    {
        let ghost first = index as int;
        let ghost next = first_not_due(starts@, first, cursor as int);
        let ghost done0 = done;
        let ghost frames = block_length(starts@, total as int, next, cursor as int);
        let ghost rest = schedule(starts@, total as int, next, cursor + frames);
        proof {
            lemma_first_not_due(starts@, first, cursor as int);
            assert(plan.skip(done0) == dispatches(first, next) + seq![Step::Block { frames }] + rest);
            assert forall|j: int| 0 <= j < next - first implies #[trigger] plan[done0 + j] == (Step::Dispatch {
                index: first + j,
            }) by {
                assert(plan.skip(done0)[j] == plan[done0 + j]);
            }
            assert(plan.skip(done0)[next - first] == plan[done0 + (next - first)]);
            assert(plan.skip(done0).len() == next - first + 1 + rest.len());
            assert(plan.skip(done0 + (next - first) + 1) =~= rest) by {
                assert forall|j: int| 0 <= j < rest.len() implies plan.skip(done0 + (next - first) + 1)[j] == rest[j] by {
                    assert(plan.skip(done0)[next - first + 1 + j] == rest[j]);
                }
            }
        }
        while index < events.len() && starts[index] <= cursor
            invariant
                synth.ready(),
                forall|i: int| 0 <= i < events@.len() ==> is_playable::<T, S>((#[trigger] events@[i]).kind),
                starts@.len() == events@.len(),
                first <= index <= next <= events@.len(),
                0 <= first,
                0 <= done0,
                done == done0 + (index - first),
                next == first_not_due(starts@, index as int, cursor as int),
                forall|j: int|
                    0 <= j < next - first ==> #[trigger] plan[done0 + j] == (Step::Dispatch { index: first + j }),
                synth.model() == model_after::<T, S>(start, plan, events@, done),
                out@ == audio_after::<T, S>(start, plan, events@, done),
            decreases events@.len() - index,
        {
            let kind = events[index].kind;
            proof {
                lemma_first_not_due(starts@, index + 1, cursor as int);
                assert(plan[done0 + (index - first)] == (Step::Dispatch { index: first + (index - first) }));
            }
            dispatch(synth, kind);
            proof {
                done = done + 1;
            }
            index += 1;
        }
        assert(index == next);
        let end: usize = if index < events.len() && starts[index] < total {
            starts[index]
        } else {
            total
        };
        let gap: usize = end - cursor;
        let n: usize = if gap > BLOCK {
            BLOCK
        } else {
            gap
        };
        assert(n == frames);
        let ghost out1 = out@;
        let (l, l_rest) = left.as_mut_slice().split_at_mut(n);
        let (r, r_rest) = right.as_mut_slice().split_at_mut(n);
        synth.process(l, r);
        let ghost left_block: Seq<T> = l@;
        let ghost right_block: Seq<T> = r@;
        proof {
            assert(plan[done] == (Step::Block { frames: n as int }));
            done = done + 1;
            assert(plan.skip(done) =~= rest);
        }
        assert(left@.subrange(0, n as int) =~= left_block);
        assert(right@.subrange(0, n as int) =~= right_block);
        assert(out1 + interleave(left_block, right_block).subrange(0, 0) =~= out1);
        let mut i: usize = 0;
        while i < n
            invariant
                i <= n <= BLOCK,
                left@.len() == BLOCK,
                right@.len() == BLOCK,
                left_block == left@.subrange(0, n as int),
                right_block == right@.subrange(0, n as int),
                out@ == out1 + interleave(left_block, right_block).subrange(0, 2 * i),
            decreases n - i,
        {
            out.push(left[i]);
            out.push(right[i]);
            proof {
                let woven = interleave(left_block, right_block);
                assert(woven.subrange(0, 2 * (i + 1)) =~= woven.subrange(0, 2 * i).push(left_block[i as int]).push(
                    right_block[i as int],
                ));
                assert(out@ =~= out1 + woven.subrange(0, 2 * (i + 1)));
            }
            i += 1;
        }
        proof {
            let woven = interleave(left_block, right_block);
            assert(woven.subrange(0, 2 * n) =~= woven);
        }
        cursor += n;
    }
    proof {
        assert(plan.skip(done).len() == 0);
    }
    out
}

/// What [`first_not_due`] finds.
proof fn lemma_first_not_due(starts: Seq<usize>, index: int, cursor: int)
    requires
        0 <= index <= starts.len(),
    ensures
        index <= first_not_due(starts, index, cursor) <= starts.len(),
        first_not_due(starts, index, cursor) < starts.len() ==> starts[first_not_due(starts, index, cursor)]
            > cursor,
        forall|i: int| index <= i < first_not_due(starts, index, cursor) ==> (#[trigger] starts[i]) <= cursor,
    decreases starts.len() - index,
{
    if index < starts.len() && starts[index] <= cursor {
        lemma_first_not_due(starts, index + 1, cursor);
    }
}

/// Frames generated by the first `p` steps.
pub open spec fn frames_in(steps: Seq<Step>, p: int) -> int
    decreases p,
{
    if p <= 0 {
        0
    } else {
        frames_in(steps, p - 1) + match steps[p - 1] {
            Step::Block { frames } => frames,
            Step::Dispatch { index } => 0,
        }
    }
}

/// Events dispatched by the first `p` steps.
pub open spec fn dispatched_in(steps: Seq<Step>, p: int) -> int
    decreases p,
{
    if p <= 0 {
        0
    } else {
        dispatched_in(steps, p - 1) + match steps[p - 1] {
            Step::Block { frames } => 0int,
            Step::Dispatch { index } => 1int,
        }
    }
}

/// The sample at which event `i` is due, when rendering goes on at `cursor`
/// with event `index`: its own start, or that of an earlier event of the list
/// if that is later.
pub open spec fn due_sample(starts: Seq<usize>, index: int, cursor: int, i: int) -> int
    decreases i - index + 1,
{
    if i < index {
        cursor
    } else {
        let before = due_sample(starts, index, cursor, i - 1);
        if starts[i] > before {
            starts[i] as int
        } else {
            before
        }
    }
}

/// Step `p` of a rendering that goes on at `cursor` with event `index`: events
/// come one after the other, each on the sample at which it is due, and blocks
/// have at least one frame and at most [`BLOCK`].
pub open spec fn step_is_timely(starts: Seq<usize>, index: int, cursor: int, steps: Seq<Step>, p: int) -> bool {
    match steps[p] {
        Step::Dispatch { index: i } => {
            &&& i == index + dispatched_in(steps, p)
            &&& 0 <= i < starts.len()
            &&& cursor + frames_in(steps, p) == due_sample(starts, index, cursor, i)
        },
        Step::Block { frames } => 1 <= frames <= BLOCK,
    }
}

proof fn lemma_counts_of_front(a: Seq<Step>, b: Seq<Step>, p: int)
    requires
        p <= a.len(),
    ensures
        frames_in(a + b, p) == frames_in(a, p),
        dispatched_in(a + b, p) == dispatched_in(a, p),
    decreases p,
{
    if p > 0 {
        lemma_counts_of_front(a, b, p - 1);
        assert((a + b)[p - 1] == a[p - 1]);
    }
}

proof fn lemma_counts_of_back(a: Seq<Step>, b: Seq<Step>, q: int)
    requires
        0 <= q <= b.len(),
    ensures
        frames_in(a + b, a.len() + q) == frames_in(a, a.len() as int) + frames_in(b, q),
        dispatched_in(a + b, a.len() + q) == dispatched_in(a, a.len() as int) + dispatched_in(b, q),
    decreases q,
{
    if q == 0 {
        lemma_counts_of_front(a, b, a.len() as int);
    } else {
        lemma_counts_of_back(a, b, q - 1);
        assert((a + b)[a.len() + q - 1] == b[q - 1]);
    }
}

proof fn lemma_counts_of_dispatches(from: int, to: int, p: int)
    requires
        0 <= p <= to - from,
    ensures
        frames_in(dispatches(from, to), p) == 0,
        dispatched_in(dispatches(from, to), p) == p,
    decreases p,
{
    if p > 0 {
        lemma_counts_of_dispatches(from, to, p - 1);
        assert(dispatches(from, to)[p - 1] == Step::Dispatch { index: from + p - 1 });
    }
}

/// An event that is already due is due now.
proof fn lemma_due_now(starts: Seq<usize>, index: int, cursor: int, i: int)
    requires
        0 <= index,
        i < starts.len(),
        forall|k: int| index <= k <= i ==> (#[trigger] starts[k]) <= cursor,
    ensures
        due_sample(starts, index, cursor, i) == cursor,
    decreases i - index + 1,
{
    if i >= index {
        lemma_due_now(starts, index, cursor, i - 1);
        assert(starts[i] <= cursor);
    }
}

/// Going on with the first event that is not due changes no later due sample.
proof fn lemma_due_later(starts: Seq<usize>, index: int, cursor: int, next: int, later: int, i: int)
    requires
        0 <= index <= next <= i < starts.len(),
        forall|k: int| index <= k < next ==> (#[trigger] starts[k]) <= cursor,
        cursor < later <= starts[next],
    ensures
        due_sample(starts, index, cursor, i) == due_sample(starts, next, later, i),
        due_sample(starts, next, later, i) >= later,
    decreases i,
{
    if i == next {
        lemma_due_now(starts, index, cursor, next - 1);
        assert(due_sample(starts, next, later, next - 1) == later);
    } else {
        lemma_due_later(starts, index, cursor, next, later, i - 1);
    }
}

/// A rendering hands over its events one after the other, each on the very
/// sample at which it is due, and fills exactly the time it is given.
pub proof fn rendering_is_sample_accurate(starts: Seq<usize>, total: int, index: int, cursor: int)
    requires
        0 <= index <= starts.len(),
        cursor <= total,
    ensures
        ({
            let steps = schedule(starts, total, index, cursor);
            &&& frames_in(steps, steps.len() as int) == total - cursor
            &&& forall|p: int|
                0 <= p < steps.len() ==> #[trigger] step_is_timely(starts, index, cursor, steps, p)
        }),
    decreases total - cursor,
{
    let steps = schedule(starts, total, index, cursor);
    if cursor < total {
        let next = first_not_due(starts, index, cursor);
        lemma_first_not_due(starts, index, cursor);
        let frames = block_length(starts, total, next, cursor);
        let later = cursor + frames;
        let rest = schedule(starts, total, next, later);
        rendering_is_sample_accurate(starts, total, next, later);
        let front = dispatches(index, next);
        let block = seq![Step::Block { frames }];
        let head = front + block;
        let d = front.len() as int;
        lemma_counts_of_dispatches(index, next, d);
        lemma_counts_of_back(front, block, 0);
        lemma_counts_of_back(front, block, 1);
        reveal_with_fuel(frames_in, 2);
        reveal_with_fuel(dispatched_in, 2);
        assert(block[0] == Step::Block { frames });
        assert(frames_in(head, head.len() as int) == frames);
        assert(dispatched_in(head, head.len() as int) == d);
        assert(steps == head + rest);
        lemma_counts_of_back(head, rest, rest.len() as int);
        assert forall|p: int| 0 <= p < steps.len() implies #[trigger] step_is_timely(starts, index, cursor, steps, p) by {
            if p < d {
                lemma_counts_of_dispatches(index, next, p);
                lemma_counts_of_front(front, block, p);
                lemma_counts_of_front(head, rest, p);
                assert(steps[p] == front[p]);
                lemma_due_now(starts, index, cursor, index + p);
            } else if p == d {
                assert(steps[p] == block[0]);
            } else {
                let q = p - d - 1;
                assert(steps[p] == rest[q]);
                assert(step_is_timely(starts, next, later, rest, q));
                lemma_counts_of_back(head, rest, q);
                match rest[q] {
                    Step::Dispatch { index: i } => {
                        lemma_dispatched_nonnegative(rest, q);
                        lemma_due_later(starts, index, cursor, next, later, i);
                    },
                    Step::Block { frames: f } => {},
                }
            }
        }
    }
}

proof fn lemma_dispatched_nonnegative(steps: Seq<Step>, p: int)
    ensures
        dispatched_in(steps, p) >= 0,
    decreases p,
{
    if p > 0 {
        lemma_dispatched_nonnegative(steps, p - 1);
    }
}

/// A rendering hands over exactly the leading events that start before its end.
pub proof fn rendering_dispatches_what_starts_in_time(starts: Seq<usize>, total: int, index: int, cursor: int)
    requires
        0 <= index <= starts.len(),
        cursor <= total,
    ensures
        ({
            let steps = schedule(starts, total, index, cursor);
            let after = index + dispatched_in(steps, steps.len() as int);
            &&& index <= after <= starts.len()
            &&& cursor < total ==> forall|i: int| index <= i < after ==> (#[trigger] starts[i]) < total
            &&& cursor < total && after < starts.len() ==> starts[after] >= total
        }),
    decreases total - cursor,
{
    let steps = schedule(starts, total, index, cursor);
    if cursor < total {
        let next = first_not_due(starts, index, cursor);
        lemma_first_not_due(starts, index, cursor);
        let frames = block_length(starts, total, next, cursor);
        let later = cursor + frames;
        let rest = schedule(starts, total, next, later);
        rendering_dispatches_what_starts_in_time(starts, total, next, later);
        let front = dispatches(index, next);
        let block = seq![Step::Block { frames }];
        let head = front + block;
        let d = front.len() as int;
        lemma_counts_of_dispatches(index, next, d);
        lemma_counts_of_back(front, block, 1);
        reveal_with_fuel(dispatched_in, 2);
        assert(block[0] == Step::Block { frames });
        assert(steps == head + rest);
        lemma_counts_of_back(head, rest, rest.len() as int);
        assert(index + dispatched_in(steps, steps.len() as int) == next + dispatched_in(
            rest,
            rest.len() as int,
        ));
    }
}

/// Splits interleaved stereo samples into the two channels.
pub fn split_channels<T: Copy>(audio: &[T]) -> (r: (Vec<T>, Vec<T>))
    ensures
        r.0@.len() == audio@.len() / 2,
        r.1@.len() == audio@.len() / 2,
        forall|i: int| 0 <= i < audio@.len() / 2 ==> #[trigger] r.0@[i] == audio@[2 * i],
        forall|i: int| 0 <= i < audio@.len() / 2 ==> #[trigger] r.1@[i] == audio@[2 * i + 1],
{
    let n: usize = audio.len() / 2;
    let mut left: Vec<T> = Vec::with_capacity(n);
    let mut right: Vec<T> = Vec::with_capacity(n);
    let mut i: usize = 0;
    while i < n
        invariant
            i <= n,
            2 * n <= usize::MAX,
            n == audio@.len() / 2,
            left@.len() == i,
            right@.len() == i,
            forall|k: int| 0 <= k < i ==> #[trigger] left@[k] == audio@[2 * k],
            forall|k: int| 0 <= k < i ==> #[trigger] right@[k] == audio@[2 * k + 1],
        decreases n - i,
    {
        left.push(audio[2 * i]);
        right.push(audio[2 * i + 1]);
        i += 1;
    }
    (left, right)
}

/// Interleaves two channels of one length.
pub fn join_channels<T: Copy>(left: &[T], right: &[T]) -> (out: Vec<T>)
    requires
        left@.len() == right@.len(),
        2 * left@.len() <= usize::MAX,
    ensures
        out@ == interleave(left@, right@),
{
    let mut out: Vec<T> = Vec::with_capacity(left.len() * 2);
    let mut i: usize = 0;
    while i < left.len()
        invariant
            i <= left@.len(),
            left@.len() == right@.len(),
            out@.len() == 2 * i,
            forall|k: int| 0 <= k < 2 * i ==> #[trigger] out@[k] == interleave(left@, right@)[k],
        decreases left@.len() - i,
    {
        out.push(left[i]);
        out.push(right[i]);
        i += 1;
    }
    assert(out@ =~= interleave(left@, right@));
    out
}

/// Interleaving the two channels of a rendering gives the rendering back.
pub proof fn join_undoes_split<T>(audio: Seq<T>, left: Seq<T>, right: Seq<T>)
    requires
        audio.len() % 2 == 0,
        left.len() == audio.len() / 2,
        right.len() == audio.len() / 2,
        forall|i: int| 0 <= i < left.len() ==> #[trigger] left[i] == audio[2 * i],
        forall|i: int| 0 <= i < right.len() ==> #[trigger] right[i] == audio[2 * i + 1],
    ensures
        interleave(left, right) == audio,
{
    let woven = interleave(left, right);
    assert forall|i: int| 0 <= i < audio.len() implies woven[i] == audio[i] by {
        if i % 2 == 0 {
            assert(woven[i] == left[i / 2]);
            assert(2 * (i / 2) == i);
        } else {
            assert(woven[i] == right[i / 2]);
            assert(2 * (i / 2) + 1 == i);
        }
    }
    assert(woven =~= audio);
}

/// A rendering lasts until `tail` seconds after its last event, however long
/// that is: where the arithmetic loses nothing, its frames are the least number
/// that holds that time at the sample rate.
pub proof fn renderings_last_through_the_tail<G: Fn(WideOp) -> Double>(
    w: Wide<G>,
    events: Seq<Event>,
    sample_rate: Single,
    last: Double,
    tail: Double,
)
    requires
        events.len() == 0 ==> last == wide_number(0),
        events.len() > 0 ==> last == events[events.len() - 1].time,
        w.adds_exactly(last, tail),
        w.multiplies_exactly(w.plus(last, tail), w.widen(sample_rate)),
        frames_of(w, events, sample_rate, tail) < usize::MAX,
    ensures
        ({
            let frames = frames_of(w, events, sample_rate, tail) as int;
            let length = (last.worth() + tail.worth()) * w.widen(sample_rate).worth();
            (frames - 1) * (units() * units()) < length <= frames * (units() * units())
        }),
{
    let end = w.times(w.plus(last, tail), w.widen(sample_rate));
    let frames = frames_of(w, events, sample_rate, tail) as int;
    ceiling_part_rounds_up(end);
    lemma_units();
    assert(end.worth() * units() > (frames - 1) * (units() * units())) by (nonlinear_arith)
        requires
            (frames - 1) * units() < end.worth(),
            units() > 0,
    ;
    assert(end.worth() * units() <= frames * (units() * units())) by (nonlinear_arith)
        requires
            end.worth() <= frames * units(),
            units() > 0,
    ;
}

/// A tail that is longer by `d` seconds gives `d` seconds' worth of further
/// frames.
pub proof fn longer_tails_add_frames<G: Fn(WideOp) -> Double>(
    w: Wide<G>,
    events: Seq<Event>,
    sample_rate: Single,
    last: Double,
    tail: Double,
    longer: Double,
    d: int,
    rate: int,
)
    requires
        events.len() == 0 ==> last == wide_number(0),
        events.len() > 0 ==> last == events[events.len() - 1].time,
        w.adds_exactly(last, tail),
        w.adds_exactly(last, longer),
        w.multiplies_exactly(w.plus(last, tail), w.widen(sample_rate)),
        w.multiplies_exactly(w.plus(last, longer), w.widen(sample_rate)),
        frames_of(w, events, sample_rate, tail) < usize::MAX,
        frames_of(w, events, sample_rate, longer) < usize::MAX,
        w.widen(sample_rate).is_integer(rate),
        longer.worth() == tail.worth() + d * units(),
    ensures
        frames_of(w, events, sample_rate, longer) == frames_of(w, events, sample_rate, tail) + d * rate,
{
    renderings_last_through_the_tail(w, events, sample_rate, last, tail);
    renderings_last_through_the_tail(w, events, sample_rate, last, longer);
    let a = frames_of(w, events, sample_rate, tail) as int;
    let b = frames_of(w, events, sample_rate, longer) as int;
    let u = units();
    let x = last.worth() + tail.worth();
    let y = last.worth() + longer.worth();
    lemma_units();
    assert(y * (rate * u) == x * (rate * u) + (d * rate) * (u * u)) by (nonlinear_arith)
        requires
            y == x + d * u,
    ;
    assert((a + d * rate) * (u * u) == a * (u * u) + (d * rate) * (u * u)) by (nonlinear_arith);
    assert((a + d * rate - 1) * (u * u) == (a - 1) * (u * u) + (d * rate) * (u * u)) by (nonlinear_arith);
    assert(u * u > 0) by (nonlinear_arith)
        requires
            u > 0,
    ;
    lemma_least_is_unique(y * (rate * u), u * u, b, a + d * rate);
}

/// An event starts at the sample in which its time falls, whatever that time
/// is.
pub proof fn events_start_on_time<G: Fn(WideOp) -> Double>(w: Wide<G>, events: Seq<Event>, sample_rate: Single, i: int)
    requires
        0 <= i < events.len(),
        w.multiplies_exactly(events[i].time, w.widen(sample_rate)),
        starts_of(w, events, sample_rate)[i] < usize::MAX,
    ensures
        ({
            let start = starts_of(w, events, sample_rate)[i] as int;
            let time = events[i].time.worth() * w.widen(sample_rate).worth();
            start * (units() * units()) <= time < (start + 1) * (units() * units())
        }),
{
    let at = w.times(events[i].time, w.widen(sample_rate));
    let start = starts_of(w, events, sample_rate)[i] as int;
    whole_part_rounds_down(at);
    lemma_units();
    assert(start * (units() * units()) <= at.worth() * units()) by (nonlinear_arith)
        requires
            start * units() <= at.worth(),
            units() > 0,
    ;
    assert(at.worth() * units() < (start + 1) * (units() * units())) by (nonlinear_arith)
        requires
            at.worth() < (start + 1) * units(),
            units() > 0,
    ;
}

/// An event whole seconds into a rendering starts that many times the sample
/// rate into it.
pub proof fn whole_seconds_start_exactly<G: Fn(WideOp) -> Double>(
    w: Wide<G>,
    events: Seq<Event>,
    sample_rate: Single,
    i: int,
    second: int,
    rate: int,
)
    requires
        0 <= i < events.len(),
        w.multiplies_exactly(events[i].time, w.widen(sample_rate)),
        events[i].time.is_integer(second),
        w.widen(sample_rate).is_integer(rate),
        starts_of(w, events, sample_rate)[i] < usize::MAX,
    ensures
        starts_of(w, events, sample_rate)[i] == second * rate,
{
    events_start_on_time(w, events, sample_rate, i);
    let start = starts_of(w, events, sample_rate)[i] as int;
    let u = units();
    lemma_units();
    assert((second * u) * (rate * u) == (second * rate) * (u * u)) by (nonlinear_arith);
    assert(u * u > 0) by (nonlinear_arith)
        requires
            u > 0,
    ;
    assert(start == second * rate) by (nonlinear_arith)
        requires
            start * (u * u) <= (second * rate) * (u * u),
            (second * rate) * (u * u) < (start + 1) * (u * u),
            u * u > 0,
    ;
}

/// Nothing is generated in larger pieces than 256 frames, and nothing in empty
/// ones.
pub proof fn blocks_are_short(starts: Seq<usize>, total: int, index: int, cursor: int, p: int)
    requires
        0 <= index <= starts.len(),
        cursor <= total,
        0 <= p < schedule(starts, total, index, cursor).len(),
    ensures
        schedule(starts, total, index, cursor)[p] matches Step::Block { frames } ==> 1 <= frames <= 256,
    decreases total - cursor,
{
    if cursor < total {
        let next = first_not_due(starts, index, cursor);
        lemma_first_not_due(starts, index, cursor);
        let frames = block_length(starts, total, next, cursor);
        let head = dispatches(index, next) + seq![Step::Block { frames }];
        let rest = schedule(starts, total, next, cursor + frames);
        assert(schedule(starts, total, index, cursor) == head + rest);
        if p >= head.len() {
            blocks_are_short(starts, total, next, cursor + frames, p - head.len());
            assert((head + rest)[p] == rest[p - head.len()]);
        } else {
            assert((head + rest)[p] == head[p]);
        }
    }
}

/// Whatever a rendering hands over is told to the synthesizer, of whichever kind
/// it is, and whatever it generates is what the synthesizer plays then, left and
/// right in turn.
pub proof fn every_step_counts<T, S: Synth<T>>(m: S::Model, steps: Seq<Step>, events: Seq<Event>, p: int)
    requires
        0 <= p < steps.len(),
    ensures
        model_after::<T, S>(m, steps, events, 0) == m,
        audio_after::<T, S>(m, steps, events, 0).len() == 0,
        steps[p] matches Step::Dispatch { index } ==> {
            &&& model_after::<T, S>(m, steps, events, p + 1) == S::told(
                model_after::<T, S>(m, steps, events, p),
                events[index].kind,
            )
            &&& audio_after::<T, S>(m, steps, events, p + 1) == audio_after::<T, S>(m, steps, events, p)
        },
        steps[p] matches Step::Block { frames } ==> {
            let before = model_after::<T, S>(m, steps, events, p);
            let heard = audio_after::<T, S>(m, steps, events, p);
            let after = audio_after::<T, S>(m, steps, events, p + 1);
            let left = S::sounded(before, frames as nat).0;
            let right = S::sounded(before, frames as nat).1;
            &&& model_after::<T, S>(m, steps, events, p + 1) == S::played(before, frames as nat)
            &&& after.len() == heard.len() + 2 * left.len()
            &&& after.take(heard.len() as int) == heard
            &&& forall|i: int|
                0 <= i < left.len() ==> after[heard.len() + 2 * i] == #[trigger] left[i] && after[heard.len() + 2 * i + 1]
                    == right[i]
        },
{
    if let Step::Block { frames } = steps[p] {
        let before = model_after::<T, S>(m, steps, events, p);
        let heard = audio_after::<T, S>(m, steps, events, p);
        let after = audio_after::<T, S>(m, steps, events, p + 1);
        let block = S::sounded(before, frames as nat);
        let part = interleave(block.0, block.1);
        assert(after == heard + part);
        assert(after.take(heard.len() as int) =~= heard);
        assert forall|i: int| 0 <= i < block.0.len() implies after[heard.len() + 2 * i] == #[trigger] block.0[i]
            && after[heard.len() + 2 * i + 1] == block.1[i] by {
            assert(part[2 * i] == block.0[i]);
            assert(part[2 * i + 1] == block.1[i]);
        }
    }
}

/// Events are due one after the other: event `i` at its own start, or when the
/// one before it is due, if that is later.
pub proof fn events_are_due_in_turn(starts: Seq<usize>, i: int)
    requires
        0 <= i < starts.len(),
    ensures
        i == 0 ==> due_sample(starts, 0, 0, i) == starts[0],
        i > 0 ==> due_sample(starts, 0, 0, i) == (if starts[i] < due_sample(starts, 0, 0, i - 1) {
            due_sample(starts, 0, 0, i - 1)
        } else {
            starts[i] as int
        }),
        (forall|j: int| 0 <= j < i ==> #[trigger] starts[j] <= starts[i]) ==> due_sample(starts, 0, 0, i) == starts[i],
    decreases i,
{
    reveal_with_fuel(due_sample, 2);
    if i > 0 {
        lemma_due_bounded(starts, i - 1, starts[i] as int);
    }
}

proof fn lemma_due_bounded(starts: Seq<usize>, i: int, bound: int)
    requires
        0 <= i < starts.len(),
        0 <= bound,
    ensures
        (forall|j: int| 0 <= j <= i ==> #[trigger] starts[j] <= bound) ==> due_sample(starts, 0, 0, i) <= bound,
    decreases i,
{
    reveal_with_fuel(due_sample, 2);
    if i > 0 {
        lemma_due_bounded(starts, i - 1, bound);
        if forall|j: int| 0 <= j <= i ==> #[trigger] starts[j] <= bound {
            assert(starts[i] <= bound);
        }
    } else if forall|j: int| 0 <= j <= i ==> #[trigger] starts[j] <= bound {
        assert(starts[0] <= bound);
    }
}

/// A rendering that ends before it starts, or at no time at all, has no frames;
/// and an event before the start, or at no time at all, starts with the first
/// sample.
pub proof fn nothing_comes_before_the_start<G: Fn(WideOp) -> Double>(
    w: Wide<G>,
    events: Seq<Event>,
    sample_rate: Single,
    tail: Double,
    i: int,
)
    requires
        0 <= i < events.len(),
    ensures
        ({
            let last = events[events.len() - 1].time;
            let end = w.times(w.plus(last, tail), w.widen(sample_rate));
            end.bits >= 0x8000_0000_0000_0000 || end.nan() ==> frames_of(w, events, sample_rate, tail) == 0
        }),
        ({
            let at = w.times(events[i].time, w.widen(sample_rate));
            at.bits >= 0x8000_0000_0000_0000 || at.nan() ==> starts_of(w, events, sample_rate)[i] == 0
        }),
{
}

/// A whole rendering begins with the first sample and the first event: it fills
/// the frames that it has, and tells every event that starts within them, each on
/// the sample at which it is due.
pub proof fn renderings_are_whole<G: Fn(WideOp) -> Double>(w: Wide<G>, events: Seq<Event>, sample_rate: Single, tail: Double)
    ensures
        ({
            let starts = starts_of(w, events, sample_rate);
            let steps = steps_of(w, events, sample_rate, tail);
            let frames = frames_of(w, events, sample_rate, tail) as int;
            &&& frames_in(steps, steps.len() as int) == frames
            &&& forall|p: int| 0 <= p < steps.len() ==> #[trigger] step_is_timely(starts, 0, 0, steps, p)
            &&& dispatched_in(steps, steps.len() as int) <= events.len()
            &&& 0 < frames && dispatched_in(steps, steps.len() as int) < events.len() ==> starts[dispatched_in(
                steps,
                steps.len() as int,
            )] >= frames
            &&& 0 < frames ==> forall|i: int|
                0 <= i < dispatched_in(steps, steps.len() as int) ==> (#[trigger] starts[i]) < frames
        }),
{
    let starts = starts_of(w, events, sample_rate);
    let frames = frames_of(w, events, sample_rate, tail) as int;
    rendering_is_sample_accurate(starts, frames, 0, 0);
    rendering_dispatches_what_starts_in_time(starts, frames, 0, 0);
}

} // verus!
