//! Making typeset timelines playable: heuristic pedaling and legato; and the
//! timelines of the renderer's own demonstrations.

use crate::events::{Event, EventKind, in_time_order, sort_events};
use crate::number::{DOUBLE_INFINITY, Double, one, zero};
use crate::wide::{Wide, WideOp, wide_number};
use vstd::prelude::*;

verus! {

/// Notes below this one count as bass.
pub const BASS_LIMIT: u8 = 48;

/// The timeline carries pedal events of its own.
pub open spec fn has_pedal(events: Seq<Event>) -> bool {
    exists|i: int| 0 <= i < events.len() && (#[trigger] events[i]).kind is Sustain
}

/// The pedal events for the first `n` events: around every bass note onset the
/// pedal goes up at `before` and down at `after`.
pub open spec fn pedal_points(
    events: Seq<Event>,
    before: Seq<Double>,
    after: Seq<Double>,
    n: int,
) -> Seq<Event>
    decreases n,
{
    if n <= 0 {
        Seq::empty()
    } else {
        let earlier = pedal_points(events, before, after, n - 1);
        match events[n - 1].kind {
            EventKind::NoteOn { note, velocity } => if note < BASS_LIMIT {
                earlier.push(
                    Event { time: before[n - 1], kind: EventKind::Sustain { position: zero() } },
                ).push(Event { time: after[n - 1], kind: EventKind::Sustain { position: one() } })
            } else {
                earlier
            },
            _ => earlier,
        }
    }
}

/// The timeline with pedal events at every bass note onset, in time order; a
/// timeline that has pedal events is left as it is.
pub open spec fn pedaled(events: Seq<Event>, before: Seq<Double>, after: Seq<Double>) -> Seq<Event> {
    if has_pedal(events) {
        events
    } else {
        in_time_order(events + pedal_points(events, before, after, events.len() as int))
    }
}

/// Whether the timeline carries pedal events of its own.
fn carries_pedal(events: &[Event]) -> (r: bool)
    ensures
        r == has_pedal(events@),
{
    let mut i: usize = 0;
    while i < events.len()
        invariant
            i <= events@.len(),
            forall|k: int| 0 <= k < i ==> !((#[trigger] events@[k]).kind is Sustain),
        decreases events@.len() - i,
    {
        if let EventKind::Sustain { position } = events[i].kind {
            assert(events@[i as int].kind is Sustain);
            return true;
        }
        i += 1;
    }
    false
}

/// Re-pedals at every bass note onset: for event `i`, `before[i]` is the time
/// just before it and `after[i]` the time just after.
pub fn repedal(events: &[Event], before: &[Double], after: &[Double]) -> (out: Vec<Event>)
    requires
        before@.len() == events@.len(),
        after@.len() == events@.len(),
    ensures
        out@ == pedaled(events@, before@, after@),
{
    let mut all: Vec<Event> = Vec::new();
    let mut i: usize = 0;
    while i < events.len()
        invariant
            i <= events@.len(),
            all@ == events@.subrange(0, i as int),
        decreases events@.len() - i,
    {
        all.push(events[i]);
        i += 1;
        assert(events@.subrange(0, i as int) =~= events@.subrange(0, i - 1).push(events@[i - 1]));
    }
    assert(all@ =~= events@);
    if carries_pedal(events) {
        return all;
    }
    let mut j: usize = 0;
    assert(all@ =~= events@ + pedal_points(events@, before@, after@, 0));
    while j < events.len()
        invariant
            j <= events@.len(),
            before@.len() == events@.len(),
            after@.len() == events@.len(),
            all@ == events@ + pedal_points(events@, before@, after@, j as int),
        decreases events@.len() - j,
    {
        let ghost earlier = pedal_points(events@, before@, after@, j as int);
        if let EventKind::NoteOn { note, velocity } = events[j].kind {
            if note < BASS_LIMIT {
                let up = Event { time: before[j], kind: EventKind::Sustain { position: zero() } };
                let down = Event { time: after[j], kind: EventKind::Sustain { position: one() } };
                all.push(up);
                all.push(down);
                assert((events@ + earlier).push(up).push(down) =~= events@ + earlier.push(up).push(down));
            }
        }
        j += 1;
    }
    sort_events(all.as_slice())
}

proof fn lemma_pedal_points_are_pedal(events: Seq<Event>, before: Seq<Double>, after: Seq<Double>, n: int)
    ensures
        forall|i: int|
            0 <= i < pedal_points(events, before, after, n).len() ==> (#[trigger] pedal_points(
                events,
                before,
                after,
                n,
            )[i]).kind is Sustain,
    decreases n,
{
    if n > 0 {
        lemma_pedal_points_are_pedal(events, before, after, n - 1);
        let earlier = pedal_points(events, before, after, n - 1);
        assert forall|i: int| 0 <= i < pedal_points(events, before, after, n).len() implies (
        #[trigger] pedal_points(events, before, after, n)[i]).kind is Sustain by {
            if i < earlier.len() {
                assert(earlier[i].kind is Sustain);
            }
        }
    }
}

/// Pedaling adds pedal events and takes nothing away.
pub proof fn pedaling_keeps_events(events: Seq<Event>, before: Seq<Double>, after: Seq<Double>, e: Event)
    requires
        (events + pedal_points(events, before, after, events.len() as int)).len() <= usize::MAX,
    ensures
        events.contains(e) ==> pedaled(events, before, after).contains(e),
        pedaled(events, before, after).contains(e) ==> events.contains(e) || e.kind is Sustain,
{
    let points = pedal_points(events, before, after, events.len() as int);
    let all = events + points;
    lemma_pedal_points_are_pedal(events, before, after, events.len() as int);
    crate::events::sorting_keeps_events(all);
    if events.contains(e) {
        let i = choose|i: int| 0 <= i < events.len() && events[i] == e;
        assert(all[i] == e);
        assert(all.contains(e));
    }
    assert(in_time_order(all).contains(e) <==> all.contains(e));
    if all.contains(e) && !events.contains(e) {
        let i = choose|i: int| 0 <= i < all.len() && all[i] == e;
        if i < events.len() {
            assert(events[i] == e);
        } else {
            assert(points[i - events.len()] == e);
        }
    }
}

/// Event `j` strikes, after event `i`, the note that event `i` releases.
pub open spec fn is_later_strike(events: Seq<Event>, i: int, j: int) -> bool {
    &&& 0 <= j < events.len()
    &&& events[i].time.lt(events[j].time)
    &&& events[i].kind matches EventKind::NoteOff { note: released }
        && events[j].kind matches EventKind::NoteOn { note, velocity } && note == released
}

/// Event `j` is the earliest later strike of the note that event `i` releases.
pub open spec fn is_next_strike(events: Seq<Event>, i: int, j: int) -> bool {
    &&& is_later_strike(events, i, j)
    &&& forall|k: int|
        #![trigger is_later_strike(events, i, k)]
        is_later_strike(events, i, k) ==> events[j].time.order() <= events[k].time.order() && (k < j
            ==> events[j].time.order() < events[k].time.order())
}

/// The latest time for the release at event `i`: `gap[j]` where event `j`
/// strikes the note next, no limit where none does.
pub open spec fn release_limit(events: Seq<Event>, gap: Seq<Double>, i: int) -> Double {
    if exists|j: int| is_next_strike(events, i, j) {
        gap[choose|j: int| is_next_strike(events, i, j)]
    } else {
        Double { bits: DOUBLE_INFINITY }
    }
}

/// The events with each release moved to `extended`, but not past its limit.
pub open spec fn extended_releases(events: Seq<Event>, extended: Seq<Double>, gap: Seq<Double>) -> Seq<Event> {
    Seq::new(
        events.len(),
        |i: int|
            if events[i].kind is NoteOff {
                Event {
                    time: extended[i].lesser(release_limit(events, gap, i)),
                    kind: events[i].kind,
                }
            } else {
                events[i]
            },
    )
}

/// The first strike among the earliest later ones of the note that event `i`
/// releases.
fn next_strike(events: &[Event], i: usize) -> (r: Option<usize>)
    requires
        i < events@.len(),
    ensures
        match r {
            Some(j) => is_next_strike(events@, i as int, j as int),
            None => forall|j: int| !is_later_strike(events@, i as int, j),
        },
{
    let released: u8 = match events[i].kind {
        EventKind::NoteOff { note } => note,
        _ => {
            return None;
        },
    };
    let mut best: Option<usize> = None;
    let mut j: usize = 0;
    while j < events.len()
        invariant
            i < events@.len(),
            j <= events@.len(),
            events@[i as int].kind == (EventKind::NoteOff { note: released }),
            match best {
                Some(b) => {
                    &&& b < j
                    &&& is_later_strike(events@, i as int, b as int)
                    &&& forall|k: int|
                        #![trigger is_later_strike(events@, i as int, k)]
                        k < j && is_later_strike(events@, i as int, k) ==> events@[b as int].time.order()
                            <= events@[k].time.order() && (k < b ==> events@[b as int].time.order()
                            < events@[k].time.order())
                },
                None => forall|k: int| k < j ==> !is_later_strike(events@, i as int, k),
            },
        decreases events@.len() - j,
    {
        let e = events[j];
        if let EventKind::NoteOn { note, velocity } = e.kind {
            if note == released && events[i].time.is_below(e.time) {
                assert(is_later_strike(events@, i as int, j as int));
                match best {
                    Some(b) => {
                        if e.time.is_below(events[b].time) {
                            best = Some(j);
                        }
                    },
                    None => {
                        best = Some(j);
                    },
                }
            }
        }
        j += 1;
    }
    best
}

proof fn lemma_next_strike_is_unique(events: Seq<Event>, i: int, a: int, b: int)
    requires
        is_next_strike(events, i, a),
        is_next_strike(events, i, b),
    ensures
        a == b,
{
    assert(is_later_strike(events, i, a));
    assert(is_later_strike(events, i, b));
}

/// Moves each note-off into the gap after it, but never past a re-strike of the
/// same note: for event `i`, `extended[i]` is its time moved into the gap, and
/// `gap[i]` the latest time at which a release of its note still comes before
/// it.
pub fn extend_releases(events: &[Event], extended: &[Double], gap: &[Double]) -> (out: Vec<Event>)
    requires
        extended@.len() == events@.len(),
        gap@.len() == events@.len(),
    ensures
        out@ == in_time_order(extended_releases(events@, extended@, gap@)),
{
    let mut moved: Vec<Event> = Vec::with_capacity(events.len());
    let ghost goal = extended_releases(events@, extended@, gap@);
    let mut i: usize = 0;
    while i < events.len()
        invariant
            i <= events@.len(),
            extended@.len() == events@.len(),
            gap@.len() == events@.len(),
            goal == extended_releases(events@, extended@, gap@),
            moved@.len() == i,
            forall|k: int| 0 <= k < i ==> moved@[k] == goal[k],
        decreases events@.len() - i,
    {
        let e = events[i];
        if let EventKind::NoteOff { note } = e.kind {
            let limit: Double = match next_strike(events, i) {
                Some(j) => {
                    proof {
                        let c = choose|c: int| is_next_strike(events@, i as int, c);
                        lemma_next_strike_is_unique(events@, i as int, j as int, c);
                    }
                    gap[j]
                },
                None => Double { bits: DOUBLE_INFINITY },
            };
            assert(limit == release_limit(events@, gap@, i as int));
            moved.push(Event { time: extended[i].lesser(limit), kind: e.kind });
        } else {
            moved.push(e);
        }
        i += 1;
    }
    assert(moved@ =~= goal);
    sort_events(moved.as_slice())
}

/// Legato never moves a release past a re-strike of its note, as long as the
/// times in `gap` precede the strikes they belong to.
pub proof fn legato_respects_strikes(
    events: Seq<Event>,
    extended: Seq<Double>,
    gap: Seq<Double>,
    i: int,
    strike: int,
)
    requires
        0 <= i < events.len(),
        extended.len() == events.len(),
        gap.len() == events.len(),
        forall|j: int| 0 <= j < events.len() && (#[trigger] events[j]).kind is NoteOn ==> gap[j].lt(events[j].time),
        is_later_strike(events, i, strike),
    ensures
        extended_releases(events, extended, gap)[i].time.lt(events[strike].time),
{
    lemma_some_next_strike(events, i, strike);
    let c = choose|c: int| is_next_strike(events, i, c);
    assert(is_next_strike(events, i, c));
    assert(gap[c].lt(events[c].time));
}

/// Among the later strikes there is an earliest one.
proof fn lemma_some_next_strike(events: Seq<Event>, i: int, strike: int)
    requires
        is_later_strike(events, i, strike),
    ensures
        exists|j: int| is_next_strike(events, i, j),
{
    let j = lemma_first_best(events, i, events.len() as int, strike);
    assert(is_next_strike(events, i, j));
}

/// The earliest of the later strikes among the first `n` events.
proof fn lemma_first_best(events: Seq<Event>, i: int, n: int, strike: int) -> (j: int)
    requires
        0 <= strike < n <= events.len(),
        is_later_strike(events, i, strike),
    ensures
        0 <= j < n,
        is_later_strike(events, i, j),
        forall|k: int|
            #![trigger is_later_strike(events, i, k)]
            0 <= k < n && is_later_strike(events, i, k) ==> events[j].time.order() <= events[k].time.order() && (k
                < j ==> events[j].time.order() < events[k].time.order()),
    decreases n,
{
    let last = n - 1;
    if exists|k: int| 0 <= k < last && is_later_strike(events, i, k) {
        let k = choose|k: int| 0 <= k < last && is_later_strike(events, i, k);
        let best = lemma_first_best(events, i, last, k);
        if is_later_strike(events, i, last) && events[last].time.order() < events[best].time.order() {
            last
        } else {
            best
        }
    } else {
        assert(strike == last);
        last
    }
}

/// Bit pattern of two hundredths, the seconds by which the pedal leads and
/// follows a bass note.
pub const PEDAL_MARGIN: u64 = 0x3F94_7AE1_47AE_147B;

/// Bit pattern of seven hundredths, the seconds by which legato extends a note.
pub const OVERLAP: u64 = 0x3FB1_EB85_1EB8_51EC;

/// Bit pattern of one hundredth, the seconds that legato leaves before a
/// re-strike.
pub const STRIKE_GAP: u64 = 0x3F84_7AE1_47AE_147B;

/// The times just before the events, but not before the start.
pub open spec fn leads<G: Fn(WideOp) -> Double>(w: Wide<G>, events: Seq<Event>) -> Seq<Double> {
    events.map_values(|e: Event| w.minus(e.time, wide_number(PEDAL_MARGIN)).greater(wide_number(0)))
}

/// The times just after the events.
pub open spec fn follows<G: Fn(WideOp) -> Double>(w: Wide<G>, events: Seq<Event>) -> Seq<Double> {
    events.map_values(|e: Event| w.plus(e.time, wide_number(PEDAL_MARGIN)))
}

/// The times of the events, extended.
pub open spec fn overlaps<G: Fn(WideOp) -> Double>(w: Wide<G>, events: Seq<Event>) -> Seq<Double> {
    events.map_values(|e: Event| w.plus(e.time, wide_number(OVERLAP)))
}

/// The latest times that still come before the events.
pub open spec fn gaps<G: Fn(WideOp) -> Double>(w: Wide<G>, events: Seq<Event>) -> Seq<Double> {
    events.map_values(|e: Event| w.minus(e.time, wide_number(STRIKE_GAP)))
}

/// Heuristic pedaling: re-pedal at every bass note onset. Typeset timelines
/// rarely carry pedal events; one that does is left as it is.
pub fn auto_pedal<G: Fn(WideOp) -> Double>(w: &Wide<G>, events: &[Event]) -> (out: Vec<Event>)
    ensures
        out@ == pedaled(events@, leads(*w, events@), follows(*w, events@)),
{
    let mut before: Vec<Double> = Vec::with_capacity(events.len());
    let mut after: Vec<Double> = Vec::with_capacity(events.len());
    let mut i: usize = 0;
    while i < events.len()
        invariant
            i <= events@.len(),
            before@.len() == i,
            after@.len() == i,
            forall|j: int| 0 <= j < i ==> #[trigger] before@[j] == leads(*w, events@)[j],
            forall|j: int| 0 <= j < i ==> #[trigger] after@[j] == follows(*w, events@)[j],
        decreases events@.len() - i,
    {
        let time: Double = events[i].time;
        before.push(w.minus(time, wide_number(PEDAL_MARGIN)).greater(wide_number(0)));
        after.push(w.plus(time, wide_number(PEDAL_MARGIN)));
        i += 1;
    }
    assert(before@ =~= leads(*w, events@));
    assert(after@ =~= follows(*w, events@));
    repedal(events, before.as_slice(), after.as_slice())
}

/// Legato: typeset notes have exactly quantized lengths with no overlap, human
/// fingers overlap adjacent notes. Each note-off moves into the gap after it,
/// but never past a re-strike of the same note.
pub fn legato<G: Fn(WideOp) -> Double>(w: &Wide<G>, events: &[Event]) -> (out: Vec<Event>)
    ensures
        out@ == in_time_order(extended_releases(events@, overlaps(*w, events@), gaps(*w, events@))),
{
    let mut extended: Vec<Double> = Vec::with_capacity(events.len());
    let mut gap: Vec<Double> = Vec::with_capacity(events.len());
    let mut i: usize = 0;
    while i < events.len()
        invariant
            i <= events@.len(),
            extended@.len() == i,
            gap@.len() == i,
            forall|j: int| 0 <= j < i ==> #[trigger] extended@[j] == overlaps(*w, events@)[j],
            forall|j: int| 0 <= j < i ==> #[trigger] gap@[j] == gaps(*w, events@)[j],
        decreases events@.len() - i,
    {
        let time: Double = events[i].time;
        extended.push(w.plus(time, wide_number(OVERLAP)));
        gap.push(w.minus(time, wide_number(STRIKE_GAP)));
        i += 1;
    }
    assert(extended@ =~= overlaps(*w, events@));
    assert(gap@ =~= gaps(*w, events@));
    extend_releases(events, extended.as_slice(), gap.as_slice())
}

/// Steps of the load benchmark.
pub const BENCH_STEPS: u32 = 120;

/// Notes that each step strikes.
pub const BENCH_NOTES: u32 = 16;

/// Bit pattern of a quarter, the seconds between two steps.
pub const BENCH_PACE: u64 = 0x3FD0_0000_0000_0000;

/// Bit pattern of a fifth, the seconds that each note is held.
pub const BENCH_HOLD: u64 = 0x3FC9_9999_9999_999A;

/// Note `voice` of step `step`.
pub open spec fn bench_pitch(step: int, voice: int) -> u8 {
    (21 + ((step * 16 + voice) * 7) % 88) as u8
}

/// The first `n` strikes of the load benchmark, with their releases, after the
/// pedal has gone down.
pub open spec fn bench_strikes<G: Fn(WideOp) -> Double>(w: Wide<G>, n: int) -> Seq<Event>
    decreases n,
{
    if n <= 0 {
        seq![Event { time: wide_number(0), kind: EventKind::Sustain { position: one() } }]
    } else {
        let step = (n - 1) / 16;
        let t = w.times(w.whole(step as u64), wide_number(BENCH_PACE));
        let note = bench_pitch(step, (n - 1) % 16);
        bench_strikes(w, n - 1).push(Event { time: t, kind: EventKind::NoteOn { note, velocity: 100 } }).push(
            Event { time: w.plus(t, wide_number(BENCH_HOLD)), kind: EventKind::NoteOff { note } },
        )
    }
}

/// A dense load: many simultaneous notes retriggered over and over with the
/// pedal down, approximating worst-case playing.
pub fn bench_events<G: Fn(WideOp) -> Double>(w: &Wide<G>) -> (out: Vec<Event>)
    ensures
        out@ == in_time_order(bench_strikes(*w, 1920)),
{
    let mut events: Vec<Event> = Vec::new();
    events.push(Event { time: wide_number(0), kind: EventKind::Sustain { position: one() } });
    assert(events@ =~= bench_strikes(*w, 0));
    let mut step: u32 = 0;
    while step < BENCH_STEPS
        invariant
            step <= BENCH_STEPS,
            events@ == bench_strikes(*w, 16 * step),
        decreases BENCH_STEPS - step,
    {
        let t: Double = w.times(w.whole(step as u64), wide_number(BENCH_PACE));
        let mut v: u32 = 0;
        while v < BENCH_NOTES
            invariant
                step < BENCH_STEPS,
                v <= BENCH_NOTES,
                t == w.times(w.whole(step as u64), wide_number(BENCH_PACE)),
                events@ == bench_strikes(*w, 16 * step + v),
            decreases BENCH_NOTES - v,
        {
            let note: u8 = (21 + ((step * 16 + v) * 7) % 88) as u8;
            events.push(Event { time: t, kind: EventKind::NoteOn { note, velocity: 100 } });
            events.push(Event { time: w.plus(t, wide_number(BENCH_HOLD)), kind: EventKind::NoteOff { note } });
            assert((16 * step + v) / 16 == step && (16 * step + v) % 16 == v);
            v += 1;
        }
        step += 1;
    }
    sort_events(events.as_slice())
}

/// Every note of the load benchmark is on the keyboard.
pub proof fn bench_stays_on_the_keyboard(step: int, voice: int)
    requires
        0 <= step,
        0 <= voice,
    ensures
        21 <= bench_pitch(step, voice) <= 108,
{
}

/// A single note, released after `dur` seconds.
pub fn note_events(note: u8, velocity: u8, dur: Double) -> (out: Vec<Event>)
    ensures
        out@ == seq![
            Event { time: wide_number(0), kind: EventKind::NoteOn { note, velocity } },
            Event { time: dur, kind: EventKind::NoteOff { note } },
        ],
{
    let out = vec![
        Event { time: wide_number(0), kind: EventKind::NoteOn { note, velocity } },
        Event { time: dur, kind: EventKind::NoteOff { note } },
    ];
    assert(out@ =~= seq![
        Event { time: wide_number(0), kind: EventKind::NoteOn { note, velocity } },
        Event { time: dur, kind: EventKind::NoteOff { note } },
    ]);
    out
}

/// Bit patterns of the times of the sympathetic demonstration: a half, eight
/// tenths and six.
pub const DEMO_STRIKE: u64 = 0x3FE0_0000_0000_0000;

pub const DEMO_RELEASE: u64 = 0x3FE9_9999_9999_999A;

pub const DEMO_END: u64 = 0x4018_0000_0000_0000;

/// Holds C3 silently (string open, barely audible) and strikes C2 staccato: the
/// string of C3 should ring on after C2 is damped.
pub fn sympathetic_events() -> (out: Vec<Event>)
    ensures
        out@ == seq![
            Event { time: wide_number(0), kind: EventKind::NoteOn { note: 48, velocity: 1 } },
            Event { time: wide_number(DEMO_STRIKE), kind: EventKind::NoteOn { note: 36, velocity: 112 } },
            Event { time: wide_number(DEMO_RELEASE), kind: EventKind::NoteOff { note: 36 } },
            Event { time: wide_number(DEMO_END), kind: EventKind::NoteOff { note: 48 } },
        ],
{
    let out = vec![
        Event { time: wide_number(0), kind: EventKind::NoteOn { note: 48, velocity: 1 } },
        Event { time: wide_number(DEMO_STRIKE), kind: EventKind::NoteOn { note: 36, velocity: 112 } },
        Event { time: wide_number(DEMO_RELEASE), kind: EventKind::NoteOff { note: 36 } },
        Event { time: wide_number(DEMO_END), kind: EventKind::NoteOff { note: 48 } },
    ];
    assert(out@ =~= seq![
        Event { time: wide_number(0), kind: EventKind::NoteOn { note: 48, velocity: 1 } },
        Event { time: wide_number(DEMO_STRIKE), kind: EventKind::NoteOn { note: 36, velocity: 112 } },
        Event { time: wide_number(DEMO_RELEASE), kind: EventKind::NoteOff { note: 36 } },
        Event { time: wide_number(DEMO_END), kind: EventKind::NoteOff { note: 48 } },
    ]);
    out
}

/// How many of the first `n` events strike a note below 48.
pub open spec fn bass_strikes(events: Seq<Event>, n: int) -> nat
    decreases n,
{
    if n <= 0 {
        0
    } else {
        bass_strikes(events, n - 1) + match events[n - 1].kind {
            EventKind::NoteOn { note, velocity } if note < 48 => 1nat,
            _ => 0nat,
        }
    }
}

/// Event `i` strikes a note below 48.
pub open spec fn strikes_bass(events: Seq<Event>, i: int) -> bool {
    &&& 0 <= i < events.len()
    &&& events[i].kind matches EventKind::NoteOn { note, velocity } && note < 48
}

/// The pedal goes up: an event at `time`.
pub open spec fn pedal_up(time: Double) -> Event {
    Event { time, kind: EventKind::Sustain { position: zero() } }
}

/// The pedal goes down: an event at `time`.
pub open spec fn pedal_down(time: Double) -> Event {
    Event { time, kind: EventKind::Sustain { position: one() } }
}

proof fn lemma_pedal_count(events: Seq<Event>, before: Seq<Double>, after: Seq<Double>, n: int)
    ensures
        pedal_points(events, before, after, n).len() == 2 * bass_strikes(events, n),
    decreases n,
{
    if n > 0 {
        lemma_pedal_count(events, before, after, n - 1);
    }
}

proof fn lemma_bass_is_pedaled(events: Seq<Event>, before: Seq<Double>, after: Seq<Double>, n: int, i: int)
    requires
        strikes_bass(events, i),
        i < n <= events.len(),
    ensures
        pedal_points(events, before, after, n).contains(pedal_up(before[i])),
        pedal_points(events, before, after, n).contains(pedal_down(after[i])),
    decreases n,
{
    let points = pedal_points(events, before, after, n);
    let earlier = pedal_points(events, before, after, n - 1);
    if i < n - 1 {
        lemma_bass_is_pedaled(events, before, after, n - 1, i);
        let u = choose|u: int| 0 <= u < earlier.len() && earlier[u] == pedal_up(before[i]);
        let d = choose|d: int| 0 <= d < earlier.len() && earlier[d] == pedal_down(after[i]);
        assert(points[u] == pedal_up(before[i]));
        assert(points[d] == pedal_down(after[i]));
    } else {
        assert(points[earlier.len() as int] == pedal_up(before[i]));
        assert(points[earlier.len() as int + 1] == pedal_down(after[i]));
    }
}

proof fn lemma_pedal_is_for_bass(events: Seq<Event>, before: Seq<Double>, after: Seq<Double>, n: int, x: int) -> (i: int)
    requires
        n <= events.len(),
        0 <= x < pedal_points(events, before, after, n).len(),
    ensures
        strikes_bass(events, i),
        ({
            let e = pedal_points(events, before, after, n)[x];
            e == pedal_up(before[i]) || e == pedal_down(after[i])
        }),
    decreases n,
{
    let earlier = pedal_points(events, before, after, n - 1);
    if x < earlier.len() {
        lemma_pedal_is_for_bass(events, before, after, n - 1, x)
    } else {
        n - 1
    }
}

/// In a timeline without pedal events every bass note, struck below 48, is
/// pedaled anew: the pedal goes up two hundredths of a second before it, but
/// not before the start, and down two hundredths after it. Two events are added
/// for each such strike and none besides, and nothing is taken away.
pub proof fn bass_notes_are_pedaled<G: Fn(WideOp) -> Double>(w: Wide<G>, events: Seq<Event>)
    requires
        forall|i: int| 0 <= i < events.len() ==> !((#[trigger] events[i]).kind is Sustain),
        events.len() + 2 * bass_strikes(events, events.len() as int) <= usize::MAX,
    ensures
        ({
            let margin = wide_number(0x3F94_7AE1_47AE_147B);
            let out = pedaled(events, leads(w, events), follows(w, events));
            &&& out.len() == events.len() + 2 * bass_strikes(events, events.len() as int)
            &&& forall|e: Event| events.contains(e) ==> #[trigger] out.contains(e)
            &&& forall|i: int| #[trigger]
                strikes_bass(events, i) ==> {
                    &&& out.contains(pedal_up(w.minus(events[i].time, margin).greater(wide_number(0))))
                    &&& out.contains(pedal_down(w.plus(events[i].time, margin)))
                }
        }),
{
    let before = leads(w, events);
    let after = follows(w, events);
    let margin = wide_number(0x3F94_7AE1_47AE_147B);
    let n = events.len() as int;
    let points = pedal_points(events, before, after, n);
    let all = events + points;
    let out = pedaled(events, before, after);
    lemma_pedal_count(events, before, after, n);
    assert(all.len() == events.len() + points.len());
    crate::events::sorting_keeps_events(all);
    assert(out == in_time_order(all));
    assert forall|e: Event| events.contains(e) implies #[trigger] out.contains(e) by {
        let i = choose|i: int| 0 <= i < events.len() && events[i] == e;
        assert(all[i] == e);
        assert(all.contains(e));
        assert(in_time_order(all).contains(e));
    }
    assert forall|i: int| #[trigger] strikes_bass(events, i) implies {
        &&& out.contains(pedal_up(w.minus(events[i].time, margin).greater(wide_number(0))))
        &&& out.contains(pedal_down(w.plus(events[i].time, margin)))
    } by {
        lemma_bass_is_pedaled(events, before, after, n, i);
        let u = choose|u: int| 0 <= u < points.len() && points[u] == pedal_up(before[i]);
        let d = choose|d: int| 0 <= d < points.len() && points[d] == pedal_down(after[i]);
        assert(all[n + u] == pedal_up(before[i]));
        assert(all[n + d] == pedal_down(after[i]));
        assert(all.contains(pedal_up(before[i])));
        assert(all.contains(pedal_down(after[i])));
        assert(in_time_order(all).contains(pedal_up(before[i])));
        assert(in_time_order(all).contains(pedal_down(after[i])));
    }
}

/// Whatever pedaling adds, it adds for a bass note: an event of the outcome that
/// was not there before lifts the pedal just before such a strike or lowers it
/// just after. Returns where in the timeline that strike stands.
pub proof fn pedals_are_for_bass_notes<G: Fn(WideOp) -> Double>(w: Wide<G>, events: Seq<Event>, e: Event) -> (i: int)
    requires
        events.len() + 2 * bass_strikes(events, events.len() as int) <= usize::MAX,
        pedaled(events, leads(w, events), follows(w, events)).contains(e),
        !events.contains(e),
    ensures
        strikes_bass(events, i),
        e == pedal_up(
            w.minus(events[i].time, wide_number(0x3F94_7AE1_47AE_147B)).greater(wide_number(0)),
        ) || e == pedal_down(w.plus(events[i].time, wide_number(0x3F94_7AE1_47AE_147B))),
{
    let before = leads(w, events);
    let after = follows(w, events);
    let n = events.len() as int;
    let points = pedal_points(events, before, after, n);
    let all = events + points;
    lemma_pedal_count(events, before, after, n);
    assert(all.len() == events.len() + points.len());
    crate::events::sorting_keeps_events(all);
    assert(in_time_order(all).contains(e));
    assert(all.contains(e));
    let x = choose|x: int| 0 <= x < all.len() && all[x] == e;
    if x < n {
        assert(events[x] == e);
    }
    assert(points[x - n] == e);
    lemma_pedal_is_for_bass(events, before, after, n, x - n)
}

/// A timeline that has a pedal event, wherever it stands, is left alone.
pub proof fn pedaled_timelines_stay<G: Fn(WideOp) -> Double>(w: Wide<G>, events: Seq<Event>, i: int)
    requires
        0 <= i < events.len(),
        events[i].kind is Sustain,
    ensures
        pedaled(events, leads(w, events), follows(w, events)) == events,
{
}

/// Legato moves releases and nothing else: strikes and pedals stay as they are,
/// releases stay releases of their note, and no event comes or goes.
pub proof fn legato_moves_releases_only<G: Fn(WideOp) -> Double>(w: Wide<G>, events: Seq<Event>)
    requires
        events.len() <= usize::MAX,
    ensures
        ({
            let moved = extended_releases(events, overlaps(w, events), gaps(w, events));
            &&& in_time_order(moved).to_multiset() == moved.to_multiset()
            &&& moved.len() == events.len()
            &&& forall|i: int| 0 <= i < events.len() ==> (#[trigger] moved[i]).kind == events[i].kind
            &&& forall|i: int|
                0 <= i < events.len() && !(events[i].kind is NoteOff) ==> #[trigger] moved[i] == events[i]
        }),
{
    crate::events::sorting_keeps_multiplicity(extended_releases(events, overlaps(w, events), gaps(w, events)));
}

/// The event strikes the note.
pub open spec fn strikes(e: Event, note: u8) -> bool {
    e.kind matches EventKind::NoteOn { note: struck, velocity } && struck == note
}

/// A release after which its note is not struck again comes seven hundredths of
/// a second later.
pub proof fn last_releases_come_later<G: Fn(WideOp) -> Double>(w: Wide<G>, events: Seq<Event>, i: int, note: u8)
    requires
        0 <= i < events.len(),
        events[i].kind == (EventKind::NoteOff { note }),
        forall|k: int|
            0 <= k < events.len() && events[i].time.lt((#[trigger] events[k]).time) ==> !strikes(events[k], note),
        !w.plus(events[i].time, wide_number(0x3FB1_EB85_1EB8_51EC)).nan(),
    ensures
        extended_releases(events, overlaps(w, events), gaps(w, events))[i].time == w.plus(
            events[i].time,
            wide_number(0x3FB1_EB85_1EB8_51EC),
        ),
{
    if exists|j: int| is_next_strike(events, i, j) {
        let j = choose|j: int| is_next_strike(events, i, j);
        assert(is_later_strike(events, i, j));
        assert(events[i].time.lt(events[j].time));
    }
}

/// A release before the next strike `j` of its note comes seven hundredths of a
/// second later, but no later than one hundredth before that strike.
pub proof fn releases_leave_a_gap<G: Fn(WideOp) -> Double>(w: Wide<G>, events: Seq<Event>, i: int, j: int, note: u8)
    requires
        0 <= i < events.len(),
        0 <= j < events.len(),
        events[i].kind == (EventKind::NoteOff { note }),
        strikes(events[j], note),
        events[i].time.lt(events[j].time),
        forall|k: int|
            0 <= k < events.len() && events[i].time.lt((#[trigger] events[k]).time) && strikes(events[k], note)
                ==> events[j].time.le(events[k].time) && (k < j ==> events[j].time.lt(events[k].time)),
    ensures
        extended_releases(events, overlaps(w, events), gaps(w, events))[i].time == w.plus(
            events[i].time,
            wide_number(0x3FB1_EB85_1EB8_51EC),
        ).lesser(w.minus(events[j].time, wide_number(0x3F84_7AE1_47AE_147B))),
{
    assert forall|k: int|
        #![trigger is_later_strike(events, i, k)]
        is_later_strike(events, i, k) implies events[j].time.order() <= events[k].time.order() && (k < j
        ==> events[j].time.order() < events[k].time.order()) by {
        assert(events[i].time.lt(events[k].time));
    }
    assert(is_later_strike(events, i, j));
    assert(is_next_strike(events, i, j));
    let c = choose|c: int| is_next_strike(events, i, c);
    lemma_next_strike_is_unique(events, i, j, c);
}

proof fn lemma_bench_strikes<G: Fn(WideOp) -> Double>(w: Wide<G>, n: int, m: int)
    requires
        0 <= m < n,
    ensures
        bench_strikes(w, n).len() == 2 * n + 1,
        bench_strikes(w, n)[0] == pedal_down(wide_number(0)),
        ({
            let t = w.times(w.whole((m / 16) as u64), wide_number(0x3FD0_0000_0000_0000));
            let note = (21 + (m * 7) % 88) as u8;
            &&& bench_strikes(w, n)[2 * m + 1] == (Event { time: t, kind: EventKind::NoteOn { note, velocity: 100 } })
            &&& bench_strikes(w, n)[2 * m + 2] == (Event {
                time: w.plus(t, wide_number(0x3FC9_9999_9999_999A)),
                kind: EventKind::NoteOff { note },
            })
        }),
    decreases n,
{
    assert((m / 16) * 16 + m % 16 == m);
    if m < n - 1 {
        lemma_bench_strikes(w, n - 1, m);
    } else if n > 1 {
        lemma_bench_strikes(w, n - 1, n - 2);
    } else {
        assert(bench_strikes(w, 0).len() == 1);
    }
}

/// The load benchmark: with the pedal down from the start, 1920 notes, sixteen
/// every quarter of a second, each seven keys on from the one before and around
/// the keyboard of 88, each held for a fifth of a second.
pub proof fn bench_is_dense<G: Fn(WideOp) -> Double>(w: Wide<G>)
    ensures
        ({
            let out = in_time_order(bench_strikes(w, 1920));
            &&& out.len() == 3841
            &&& out.contains(pedal_down(wide_number(0)))
            &&& forall|m: int|
                0 <= m < 1920 ==> {
                    let t = w.times(w.whole(#[trigger] (m / 16) as u64), wide_number(0x3FD0_0000_0000_0000));
                    let note = (21 + (m * 7) % 88) as u8;
                    &&& out.contains(Event { time: t, kind: EventKind::NoteOn { note, velocity: 100 } })
                    &&& out.contains(
                        (Event {
                            time: w.plus(t, wide_number(0x3FC9_9999_9999_999A)),
                            kind: EventKind::NoteOff { note },
                        }),
                    )
                }
        }),
{
    let all = bench_strikes(w, 1920);
    let out = in_time_order(all);
    lemma_bench_strikes(w, 1920, 0);
    crate::events::sorting_keeps_events(all);
    assert(all.contains(all[0]));
    assert forall|m: int| 0 <= m < 1920 implies {
        let t = w.times(w.whole(#[trigger] (m / 16) as u64), wide_number(0x3FD0_0000_0000_0000));
        let note = (21 + (m * 7) % 88) as u8;
        &&& out.contains(Event { time: t, kind: EventKind::NoteOn { note, velocity: 100 } })
        &&& out.contains(
            (Event { time: w.plus(t, wide_number(0x3FC9_9999_9999_999A)), kind: EventKind::NoteOff { note } }),
        )
    } by {
        lemma_bench_strikes(w, 1920, m);
        assert(all.contains(all[2 * m + 1]));
        assert(all.contains(all[2 * m + 2]));
    }
}

/// Where a note and an added movement of the pedal fall on one time, the note
/// comes first: a pedal event of the outcome that stands before any other event
/// is earlier than it.
pub proof fn notes_come_before_added_pedals<G: Fn(WideOp) -> Double>(w: Wide<G>, events: Seq<Event>, i: int, j: int)
    requires
        forall|m: int| 0 <= m < events.len() ==> !((#[trigger] events[m]).kind is Sustain),
        events.len() + 2 * bass_strikes(events, events.len() as int) <= usize::MAX,
        0 <= i < j < events.len() + 2 * bass_strikes(events, events.len() as int),
        pedaled(events, leads(w, events), follows(w, events))[i].kind is Sustain,
        !(pedaled(events, leads(w, events), follows(w, events))[j].kind is Sustain),
    ensures
        pedaled(events, leads(w, events), follows(w, events))[i].time.total_order() < pedaled(
            events,
            leads(w, events),
            follows(w, events),
        )[j].time.total_order(),
{
    let before = leads(w, events);
    let after = follows(w, events);
    let n = events.len() as int;
    let points = pedal_points(events, before, after, n);
    let all = events + points;
    lemma_pedal_count(events, before, after, n);
    lemma_pedal_points_are_pedal(events, before, after, n);
    assert(all.len() == events.len() + points.len());
    let places = crate::events::sorting_is_stable(all, i, j);
    if places.0 < n {
        assert(all[places.0] == events[places.0]);
    }
    if places.1 >= n {
        assert(all[places.1] == points[places.1 - n]);
    }
}

/// Two given events that fall on one time stand as they stood before: pedaling
/// never swaps them. Returns where they stood.
pub proof fn pedaling_keeps_the_order<G: Fn(WideOp) -> Double>(w: Wide<G>, events: Seq<Event>, i: int, j: int) -> (places: (
    int,
    int,
))
    requires
        forall|m: int| 0 <= m < events.len() ==> !((#[trigger] events[m]).kind is Sustain),
        events.len() + 2 * bass_strikes(events, events.len() as int) <= usize::MAX,
        0 <= i < j < events.len() + 2 * bass_strikes(events, events.len() as int),
        ({
            let out = pedaled(events, leads(w, events), follows(w, events));
            &&& !(out[i].kind is Sustain)
            &&& !(out[j].kind is Sustain)
            &&& out[i].time.total_order() == out[j].time.total_order()
        }),
    ensures
        0 <= places.0 < places.1 < events.len(),
        pedaled(events, leads(w, events), follows(w, events))[i] == events[places.0],
        pedaled(events, leads(w, events), follows(w, events))[j] == events[places.1],
{
    let before = leads(w, events);
    let after = follows(w, events);
    let n = events.len() as int;
    let points = pedal_points(events, before, after, n);
    let all = events + points;
    lemma_pedal_count(events, before, after, n);
    lemma_pedal_points_are_pedal(events, before, after, n);
    assert(all.len() == events.len() + points.len());
    let places = crate::events::sorting_is_stable(all, i, j);
    if places.0 >= n {
        assert(all[places.0] == points[places.0 - n]);
    }
    if places.1 >= n {
        assert(all[places.1] == points[places.1 - n]);
    }
    places
}

} // verus!
