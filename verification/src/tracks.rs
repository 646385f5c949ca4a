//! What becomes of the tracks of a file: every tempo change and every note and
//! pedal message counts, each once and at its own tick, and nothing else does;
//! and the clock gives each tick the time that the tempo map gives it.

use crate::events::{Event, EventKind, MidiMessage, event_of_message, in_time_order, sorting_keeps_events};
use crate::exact::{lemma_units, lemma_zero_and_million, units};
use crate::midi::{
    SmfContents, TempoChange, TickEvent, Timing, TrackEvent, TrackEventKind, all_notes, all_tempi, elapsed,
    exact_time, is_segment, is_tempo_map, merged_notes, note_ticks, seconds, segment_of, segment_start,
    segments_are_unique, spec_frame_rate, tempo_at, tempo_is_honored, tempo_map, tempo_map_starts_at_zero, tempo_sum,
    tempo_ticks, tick_after, tick_rate, tick_time, ticks_fit, timeline, track_notes, track_tempi,
};
use crate::number::{Double, number};
use crate::order::{precedes, stable_order_exists, stable_order_of, stable_order_sorts};
use crate::wide::{Wide, WideOp, wide_number};
use vstd::arithmetic::power2::pow2;
use vstd::prelude::*;

verus! {

/// The tick of an event is that of the event before it and its own delta; the
/// first event of a track counts from tick 0.
pub proof fn ticks_add_up(track: Seq<TrackEvent>, i: int)
    requires
        0 <= i < track.len(),
    ensures
        tick_after(track, 0) == 0,
        tick_after(track, i + 1) == tick_after(track, i) + track[i].delta,
{
}

/// Event `i` of the track sets the tempo `c`, at its tick.
pub open spec fn sets_tempo(track: Seq<TrackEvent>, i: int, c: TempoChange) -> bool {
    &&& track[i].kind == (TrackEventKind::Tempo { us_per_beat: c.us_per_beat })
    &&& tick_after(track, i + 1) == c.tick
}

/// How often the first `n` events of a track set the tempo `c`.
pub open spec fn tempo_count(track: Seq<TrackEvent>, c: TempoChange, n: int) -> nat
    decreases n,
{
    if n <= 0 {
        0
    } else if sets_tempo(track, n - 1, c) {
        tempo_count(track, c, n - 1) + 1
    } else {
        tempo_count(track, c, n - 1)
    }
}

/// How often the first `n` tracks set the tempo `c`.
pub open spec fn tempo_total(tracks: Seq<Seq<TrackEvent>>, c: TempoChange, n: int) -> nat
    decreases n,
{
    if n <= 0 {
        0
    } else {
        tempo_total(tracks, c, n - 1) + tempo_count(tracks[n - 1], c, tracks[n - 1].len() as int)
    }
}

/// Event `i` of the track is a message that says `e`, at its tick.
pub open spec fn says(track: Seq<TrackEvent>, i: int, e: TickEvent) -> bool {
    &&& track[i].kind matches TrackEventKind::Midi { message } && event_of_message(message) == Some(e.kind)
    &&& tick_after(track, i + 1) == e.tick
}

/// How often the first `n` events of a track say `e`.
pub open spec fn note_count(track: Seq<TrackEvent>, e: TickEvent, n: int) -> nat
    decreases n,
{
    if n <= 0 {
        0
    } else if says(track, n - 1, e) {
        note_count(track, e, n - 1) + 1
    } else {
        note_count(track, e, n - 1)
    }
}

/// How often the first `n` tracks say `e`.
pub open spec fn note_total(tracks: Seq<Seq<TrackEvent>>, e: TickEvent, n: int) -> nat
    decreases n,
{
    if n <= 0 {
        0
    } else {
        note_total(tracks, e, n - 1) + note_count(tracks[n - 1], e, tracks[n - 1].len() as int)
    }
}

proof fn lemma_ticks_below(track: Seq<TrackEvent>, i: int, n: int)
    requires
        0 <= i <= n <= track.len(),
    ensures
        0 <= tick_after(track, i) <= tick_after(track, n),
    decreases n,
{
    if i < n {
        lemma_ticks_below(track, i, n - 1);
    } else if n > 0 {
        lemma_ticks_below(track, i - 1, n - 1);
    }
}

proof fn lemma_track_tempi(track: Seq<TrackEvent>, c: TempoChange, n: int)
    requires
        0 <= n <= track.len(),
        tick_after(track, track.len() as int) <= u64::MAX,
    ensures
        track_tempi(track, n).to_multiset().count(c) == tempo_count(track, c, n),
    decreases n,
{
    broadcast use vstd::multiset::group_multiset_axioms;

    if n > 0 {
        lemma_track_tempi(track, c, n - 1);
        lemma_ticks_below(track, n, track.len() as int);
        if let TrackEventKind::Tempo { us_per_beat } = track[n - 1].kind {
            let change = TempoChange { tick: tick_after(track, n) as u64, us_per_beat };
            vstd::seq_lib::to_multiset_build(track_tempi(track, n - 1), change);
            assert(track_tempi(track, n) == track_tempi(track, n - 1).push(change));
        }
    } else {
        assert(track_tempi(track, n) =~= Seq::<TempoChange>::empty());
        Seq::<TempoChange>::empty().to_multiset_ensures();
    }
}

proof fn lemma_all_tempi(tracks: Seq<Seq<TrackEvent>>, c: TempoChange, n: int)
    requires
        0 <= n <= tracks.len(),
        ticks_fit(tracks),
    ensures
        all_tempi(tracks, n).to_multiset().count(c) == tempo_total(tracks, c, n) + (if c == (TempoChange {
            tick: 0,
            us_per_beat: 500_000,
        }) {
            1nat
        } else {
            0nat
        }),
    decreases n,
{
    broadcast use vstd::multiset::group_multiset_axioms;

    if n > 0 {
        lemma_all_tempi(tracks, c, n - 1);
        let track = tracks[n - 1];
        lemma_track_tempi(track, c, track.len() as int);
        vstd::seq_lib::lemma_multiset_commutative(
            all_tempi(tracks, n - 1),
            track_tempi(track, track.len() as int),
        );
    } else {
        let start = TempoChange { tick: 0, us_per_beat: 500_000 };
        let none = Seq::<TempoChange>::empty();
        assert(all_tempi(tracks, n) =~= none.push(start));
        vstd::seq_lib::to_multiset_build(none, start);
        none.to_multiset_ensures();
    }
}

/// Every tempo change counts: the tempo map holds the tempo set by each tempo
/// event of each track, at the sum of the deltas up to that event, as often as
/// such events occur. Beside the default tempo of 120 beats per minute at tick
/// 0 it holds nothing else.
pub proof fn every_tempo_change_counts(tracks: Seq<Seq<TrackEvent>>, c: TempoChange)
    requires
        ticks_fit(tracks),
        all_tempi(tracks, tracks.len() as int).len() <= usize::MAX,
    ensures
        tempo_map(tracks).to_multiset().count(c) == tempo_total(tracks, c, tracks.len() as int) + (if c == (
        TempoChange { tick: 0, us_per_beat: 500_000 }) {
            1nat
        } else {
            0nat
        }),
{
    let tempi = all_tempi(tracks, tracks.len() as int);
    stable_order_sorts(tempi, tempo_ticks(tempi));
    lemma_all_tempi(tracks, c, tracks.len() as int);
}

proof fn lemma_count_has(track: Seq<TrackEvent>, c: TempoChange, n: int, i: int)
    requires
        0 <= i < n,
        sets_tempo(track, i, c),
    ensures
        tempo_count(track, c, n) > 0,
    decreases n,
{
    if i < n - 1 {
        lemma_count_has(track, c, n - 1, i);
    }
}

proof fn lemma_total_has(tracks: Seq<Seq<TrackEvent>>, c: TempoChange, n: int, t: int, i: int)
    requires
        0 <= t < n,
        0 <= i < tracks[t].len(),
        sets_tempo(tracks[t], i, c),
    ensures
        tempo_total(tracks, c, n) > 0,
    decreases n,
{
    if t < n - 1 {
        lemma_total_has(tracks, c, n - 1, t, i);
    } else {
        lemma_count_has(tracks[t], c, tracks[t].len() as int, i);
    }
}

/// Each tempo event is in the tempo map, the first of a track and every later
/// one alike.
pub proof fn each_tempo_event_is_mapped(tracks: Seq<Seq<TrackEvent>>, t: int, i: int, us_per_beat: u32)
    requires
        ticks_fit(tracks),
        all_tempi(tracks, tracks.len() as int).len() <= usize::MAX,
        0 <= t < tracks.len(),
        0 <= i < tracks[t].len(),
        tracks[t][i].kind == (TrackEventKind::Tempo { us_per_beat }),
    ensures
        tempo_map(tracks).contains(TempoChange { tick: tick_after(tracks[t], i + 1) as u64, us_per_beat }),
{
    let c = TempoChange { tick: tick_after(tracks[t], i + 1) as u64, us_per_beat };
    lemma_ticks_below(tracks[t], i + 1, tracks[t].len() as int);
    every_tempo_change_counts(tracks, c);
    lemma_total_has(tracks, c, tracks.len() as int, t, i);
    tempo_map(tracks).to_multiset_ensures();
}

proof fn lemma_track_notes(track: Seq<TrackEvent>, e: TickEvent, n: int)
    requires
        0 <= n <= track.len(),
        tick_after(track, track.len() as int) <= u64::MAX,
    ensures
        track_notes(track, n).to_multiset().count(e) == note_count(track, e, n),
    decreases n,
{
    broadcast use vstd::multiset::group_multiset_axioms;

    if n > 0 {
        lemma_track_notes(track, e, n - 1);
        lemma_ticks_below(track, n, track.len() as int);
        if let TrackEventKind::Midi { message } = track[n - 1].kind {
            if let Some(kind) = event_of_message(message) {
                let said = TickEvent { tick: tick_after(track, n) as u64, kind };
                vstd::seq_lib::to_multiset_build(track_notes(track, n - 1), said);
                assert(track_notes(track, n) == track_notes(track, n - 1).push(said));
            }
        }
    } else {
        assert(track_notes(track, n) =~= Seq::<TickEvent>::empty());
        Seq::<TickEvent>::empty().to_multiset_ensures();
    }
}

proof fn lemma_all_notes(tracks: Seq<Seq<TrackEvent>>, e: TickEvent, n: int)
    requires
        0 <= n <= tracks.len(),
        ticks_fit(tracks),
    ensures
        all_notes(tracks, n).to_multiset().count(e) == note_total(tracks, e, n),
    decreases n,
{
    broadcast use vstd::multiset::group_multiset_axioms;

    if n > 0 {
        lemma_all_notes(tracks, e, n - 1);
        let track = tracks[n - 1];
        lemma_track_notes(track, e, track.len() as int);
        vstd::seq_lib::lemma_multiset_commutative(
            all_notes(tracks, n - 1),
            track_notes(track, track.len() as int),
        );
    } else {
        assert(all_notes(tracks, n) =~= Seq::<TickEvent>::empty());
        Seq::<TickEvent>::empty().to_multiset_ensures();
    }
}

/// Every note and pedal message counts: merging the tracks keeps what each
/// message of each track says, at its tick, as often as it is said, and adds
/// nothing.
pub proof fn every_note_counts(tracks: Seq<Seq<TrackEvent>>, e: TickEvent)
    requires
        ticks_fit(tracks),
        all_notes(tracks, tracks.len() as int).len() <= usize::MAX,
    ensures
        merged_notes(tracks).to_multiset().count(e) == note_total(tracks, e, tracks.len() as int),
        all_notes(tracks, tracks.len() as int).to_multiset().count(e) == note_total(tracks, e, tracks.len() as int),
{
    let notes = all_notes(tracks, tracks.len() as int);
    stable_order_sorts(notes, note_ticks(notes));
    lemma_all_notes(tracks, e, tracks.len() as int);
}

proof fn lemma_note_count_has(track: Seq<TrackEvent>, e: TickEvent, n: int, i: int)
    requires
        0 <= i < n,
        says(track, i, e),
    ensures
        note_count(track, e, n) > 0,
    decreases n,
{
    if i < n - 1 {
        lemma_note_count_has(track, e, n - 1, i);
    }
}

proof fn lemma_note_total_has(tracks: Seq<Seq<TrackEvent>>, e: TickEvent, n: int, t: int, i: int)
    requires
        0 <= t < n,
        0 <= i < tracks[t].len(),
        says(tracks[t], i, e),
    ensures
        note_total(tracks, e, n) > 0,
    decreases n,
{
    if t < n - 1 {
        lemma_note_total_has(tracks, e, n - 1, t, i);
    } else {
        lemma_note_count_has(tracks[t], e, tracks[t].len() as int, i);
    }
}

/// Each note or pedal message of a file is on its timeline, at the time of its
/// tick: by the tempo map where the file counts beats, by the frame rate where
/// it counts frames.
pub proof fn each_message_is_on_the_timeline<G: Fn(WideOp) -> Double>(
    w: Wide<G>,
    file: SmfContents,
    t: int,
    i: int,
    message: MidiMessage,
    kind: EventKind,
)
    requires
        ticks_fit(file.tracks),
        all_notes(file.tracks, file.tracks.len() as int).len() <= usize::MAX,
        0 <= t < file.tracks.len(),
        0 <= i < file.tracks[t].len(),
        file.tracks[t][i].kind == (TrackEventKind::Midi { message }),
        event_of_message(message) == Some(kind),
    ensures
        ({
            let tick = tick_after(file.tracks[t], i + 1);
            let time = match file.timing {
                Timing::Metrical { ticks_per_beat } => tick_time(w, tempo_map(file.tracks), ticks_per_beat, tick),
                Timing::Timecode { fps, subframes } => w.over(w.whole(tick as u64), tick_rate(w, fps, subframes)),
            };
            timeline(w, file).contains(Event { time, kind })
        }),
        timeline(w, file).len() == all_notes(file.tracks, file.tracks.len() as int).len(),
{
    let tick = tick_after(file.tracks[t], i + 1);
    let e = TickEvent { tick: tick as u64, kind };
    lemma_ticks_below(file.tracks[t], i + 1, file.tracks[t].len() as int);
    every_note_counts(file.tracks, e);
    lemma_note_total_has(file.tracks, e, file.tracks.len() as int, t, i);
    let notes = all_notes(file.tracks, file.tracks.len() as int);
    stable_order_sorts(notes, note_ticks(notes));
    let out = timeline(w, file);
    match file.timing {
        Timing::Metrical { ticks_per_beat } => {
            let merged = merged_notes(file.tracks);
            merged.to_multiset_ensures();
            assert(merged.contains(e));
            let x = choose|x: int| 0 <= x < merged.len() && merged[x] == e;
            assert(out[x] == (Event { time: tick_time(w, tempo_map(file.tracks), ticks_per_beat, tick), kind }));
        },
        Timing::Timecode { fps, subframes } => {
            notes.to_multiset_ensures();
            assert(notes.contains(e));
            let x = choose|x: int| 0 <= x < notes.len() && notes[x] == e;
            let rate = tick_rate(w, fps, subframes);
            let clocked = Seq::new(
                notes.len(),
                |j: int| Event { time: w.over(w.whole(notes[j].tick), rate), kind: notes[j].kind },
            );
            sorting_keeps_events(clocked);
            let said = Event { time: w.over(w.whole(tick as u64), rate), kind };
            assert(clocked[x] == said);
            assert(clocked.contains(said));
            assert(in_time_order(clocked).contains(said));
        },
    }
}

/// The steps that turn ticks into seconds lose nothing.
pub open spec fn times_exactly<G: Fn(WideOp) -> Double>(w: Wide<G>, ticks: int, ticks_per_beat: u16, us_per_beat: u32) -> bool {
    let whole = w.whole(ticks as u64);
    let beat = w.whole(ticks_per_beat as u64);
    let tempo = w.whole(us_per_beat as u64);
    &&& w.holds_exactly(ticks)
    &&& w.holds_exactly(ticks_per_beat as int)
    &&& w.holds_exactly(us_per_beat as int)
    &&& w.divides_exactly(whole, beat)
    &&& w.multiplies_exactly(w.over(whole, beat), tempo)
    &&& w.divides_exactly(w.times(w.over(whole, beat), tempo), wide_number(0x412E_8480_0000_0000))
}

/// Where the arithmetic loses nothing, `ticks` last as many beats as they make
/// at `us_per_beat` microseconds each.
pub proof fn beats_last_their_tempo<G: Fn(WideOp) -> Double>(w: Wide<G>, ticks: int, ticks_per_beat: u16, us_per_beat: u32)
    requires
        times_exactly(w, ticks, ticks_per_beat, us_per_beat),
    ensures
        seconds(w, ticks, ticks_per_beat, us_per_beat).counts(),
        seconds(w, ticks, ticks_per_beat, us_per_beat).worth() * (ticks_per_beat * 1_000_000) == (ticks * us_per_beat)
            * units(),
{
    lemma_zero_and_million();
    lemma_units();
    let u = units();
    let p = ticks_per_beat as int;
    let us = us_per_beat as int;
    let q = w.over(w.whole(ticks as u64), w.whole(ticks_per_beat as u64)).worth();
    let m = w.times(w.over(w.whole(ticks as u64), w.whole(ticks_per_beat as u64)), w.whole(us_per_beat as u64)).worth();
    let r = seconds(w, ticks, ticks_per_beat, us_per_beat).worth();
    assert(q * (p * u) == (ticks * u) * u);
    assert(q * p == ticks * u) by (nonlinear_arith)
        requires
            q * (p * u) == (ticks * u) * u,
            u > 0,
    ;
    assert(m * u == q * (us * u));
    assert(m == q * us) by (nonlinear_arith)
        requires
            m * u == q * (us * u),
            u > 0,
    ;
    assert(r * (1_000_000 * u) == m * u);
    assert(r * 1_000_000 == m) by (nonlinear_arith)
        requires
            r * (1_000_000 * u) == m * u,
            u > 0,
    ;
    assert(r * (p * 1_000_000) == (ticks * us) * u) by (nonlinear_arith)
        requires
            r * 1_000_000 == m,
            m == q * us,
            q * p == ticks * u,
    ;
}

/// The steps that give the time of tempo change `s` lose nothing.
pub open spec fn starts_exactly<G: Fn(WideOp) -> Double>(w: Wide<G>, tempo: Seq<TempoChange>, ticks_per_beat: u16, s: int) -> bool {
    forall|j: int|
        0 <= j < s ==> {
            let span = tempo[j + 1].tick - (#[trigger] tempo[j]).tick;
            &&& times_exactly(w, span, ticks_per_beat, tempo[j].us_per_beat)
            &&& w.adds_exactly(
                segment_start(w, tempo, ticks_per_beat, j),
                seconds(w, span, ticks_per_beat, tempo[j].us_per_beat),
            )
        }
}

proof fn lemma_start_is_exact<G: Fn(WideOp) -> Double>(w: Wide<G>, tempo: Seq<TempoChange>, ticks_per_beat: u16, s: int)
    requires
        0 <= s < tempo.len(),
        starts_exactly(w, tempo, ticks_per_beat, s),
    ensures
        segment_start(w, tempo, ticks_per_beat, s).counts(),
        segment_start(w, tempo, ticks_per_beat, s).worth() * (ticks_per_beat * 1_000_000) == elapsed(tempo, s) * units(),
    decreases s,
{
    lemma_zero_and_million();
    if s > 0 {
        lemma_start_is_exact(w, tempo, ticks_per_beat, s - 1);
        let span = tempo[s].tick - tempo[s - 1].tick;
        let us = tempo[s - 1].us_per_beat;
        let before = segment_start(w, tempo, ticks_per_beat, s - 1);
        let during = seconds(w, span, ticks_per_beat, us);
        assert(w.adds_exactly(before, during));
        beats_last_their_tempo(w, span, ticks_per_beat, us);
        lemma_shares(before.worth(), during.worth(), ticks_per_beat * 1_000_000, elapsed(tempo, s - 1), span * us);
    } else {
        assert(segment_start(w, tempo, ticks_per_beat, s) == wide_number(0));
    }
}

proof fn lemma_shares(a: int, b: int, k: int, x: int, y: int)
    requires
        a * k == x * units(),
        b * k == y * units(),
    ensures
        (a + b) * k == (x + y) * units(),
{
    assert((a + b) * k == a * k + b * k) by (nonlinear_arith);
    assert((x + y) * units() == x * units() + y * units()) by (nonlinear_arith);
}

/// The clock keeps the tempo: where the arithmetic loses nothing, the time of a
/// tick is the sum of the tempo in force over all ticks before it, divided by
/// the ticks of a beat, in microseconds.
pub proof fn clock_keeps_tempo<G: Fn(WideOp) -> Double>(
    w: Wide<G>,
    tempo: Seq<TempoChange>,
    ticks_per_beat: u16,
    tick: int,
    s: int,
)
    requires
        is_tempo_map(tempo),
        0 <= tick,
        is_segment(tempo, tick, s),
        starts_exactly(w, tempo, ticks_per_beat, s),
        times_exactly(w, tick - tempo[s].tick, ticks_per_beat, tempo[s].us_per_beat),
        w.adds_exactly(
            segment_start(w, tempo, ticks_per_beat, s),
            seconds(w, tick - tempo[s].tick, ticks_per_beat, tempo[s].us_per_beat),
        ),
    ensures
        tick_time(w, tempo, ticks_per_beat, tick).worth() * (ticks_per_beat * 1_000_000) == tempo_sum(tempo, tick)
            * units(),
{
    segments_are_unique(tempo, tick, s, segment_of(tempo, tick));
    lemma_start_is_exact(w, tempo, ticks_per_beat, s);
    let ticks = tick - tempo[s].tick;
    beats_last_their_tempo(w, ticks, ticks_per_beat, tempo[s].us_per_beat);
    tempo_is_honored(tempo, tick, s);
    lemma_shares(
        segment_start(w, tempo, ticks_per_beat, s).worth(),
        seconds(w, ticks, ticks_per_beat, tempo[s].us_per_beat).worth(),
        ticks_per_beat * 1_000_000,
        elapsed(tempo, s),
        ticks * tempo[s].us_per_beat,
    );
    assert(exact_time(tempo, s, ticks) == elapsed(tempo, s) + ticks * tempo[s].us_per_beat);
}

/// Files that count frames: where the arithmetic loses nothing, the time of a
/// tick is the tick divided by the frames of a second and by the ticks of a
/// frame.
pub proof fn frames_keep_their_rate<G: Fn(WideOp) -> Double>(w: Wide<G>, fps: u8, subframes: u8, tick: int, frames: int)
    requires
        w.widen(number(spec_frame_rate(fps))).is_integer(frames),
        w.holds_exactly(subframes as int),
        w.holds_exactly(tick),
        w.multiplies_exactly(w.widen(number(spec_frame_rate(fps))), w.whole(subframes as u64)),
        w.divides_exactly(w.whole(tick as u64), tick_rate(w, fps, subframes)),
    ensures
        w.over(w.whole(tick as u64), tick_rate(w, fps, subframes)).worth() * (frames * subframes) == tick * units(),
{
    lemma_units();
    let u = units();
    let rate = tick_rate(w, fps, subframes).worth();
    let time = w.over(w.whole(tick as u64), tick_rate(w, fps, subframes)).worth();
    let n = subframes as int;
    assert(rate * u == (frames * u) * (n * u));
    assert(rate == frames * n * u) by (nonlinear_arith)
        requires
            rate * u == (frames * u) * (n * u),
            u > 0,
    ;
    assert(time * rate == (tick * u) * u);
    assert(time * (frames * n) == tick * u) by (nonlinear_arith)
        requires
            time * rate == (tick * u) * u,
            rate == frames * n * u,
            u > 0,
    ;
}

/// A frame rate is that of its name, but for 29, which stands for 30 less a
/// thousandth: between 29 and 30.
pub proof fn frame_rates_are_as_named()
    ensures
        number(spec_frame_rate(24)).whole_part() == 24,
        number(spec_frame_rate(25)).whole_part() == 25,
        number(spec_frame_rate(29)).whole_part() == 29,
        number(spec_frame_rate(30)).whole_part() == 30,
        number(spec_frame_rate(29)).lt(number(spec_frame_rate(30))),
{
    vstd::arithmetic::power2::lemma2_to64();
    assert(0x41C0_0000nat / 0x80_0000 == 131);
    assert(pow2(19) == 0x8_0000);
    assert(0xC0_0000nat / 0x8_0000 == 24);
    assert(0xC8_0000nat / 0x8_0000 == 25);
    assert(0xEF_C29Enat / 0x8_0000 == 29);
    assert(0xF0_0000nat / 0x8_0000 == 30);
}

/// Where what message `i` of track `t` says stands among all that is said, track
/// by track.
pub open spec fn place_of(tracks: Seq<Seq<TrackEvent>>, t: int, i: int) -> int {
    (all_notes(tracks, t).len() + track_notes(tracks[t], i).len()) as int
}

proof fn lemma_track_notes_grow(track: Seq<TrackEvent>, i: int, n: int)
    requires
        0 <= i < n,
    ensures
        track_notes(track, i).len() <= track_notes(track, n).len(),
        track_notes(track, i + 1).len() > track_notes(track, i).len() ==> {
            &&& track_notes(track, i).len() < track_notes(track, n).len()
            &&& track_notes(track, n)[track_notes(track, i).len() as int] == track_notes(track, i + 1).last()
        },
    decreases n,
{
    if i + 1 < n {
        lemma_track_notes_grow(track, i, n - 1);
    }
}

proof fn lemma_all_notes_grow(tracks: Seq<Seq<TrackEvent>>, t: int, n: int, x: int)
    requires
        0 <= t < n,
        0 <= x < track_notes(tracks[t], tracks[t].len() as int).len(),
    ensures
        all_notes(tracks, t).len() + x < all_notes(tracks, n).len(),
        all_notes(tracks, n)[all_notes(tracks, t).len() + x] == track_notes(tracks[t], tracks[t].len() as int)[x],
    decreases n,
{
    if t + 1 < n {
        lemma_all_notes_grow(tracks, t, n - 1, x);
    }
}

/// Messages are taken track by track and in the order of their track: what each
/// says stands after all that the tracks before it say, and after all that its
/// own track says before.
pub proof fn messages_stay_in_order(tracks: Seq<Seq<TrackEvent>>, t: int, i: int, message: MidiMessage, kind: EventKind)
    requires
        0 <= t < tracks.len(),
        0 <= i < tracks[t].len(),
        tracks[t][i].kind == (TrackEventKind::Midi { message }),
        event_of_message(message) == Some(kind),
    ensures
        ({
            let notes = all_notes(tracks, tracks.len() as int);
            &&& 0 <= place_of(tracks, t, i) < notes.len()
            &&& notes[place_of(tracks, t, i)] == (TickEvent { tick: tick_after(tracks[t], i + 1) as u64, kind })
        }),
        forall|j: int| 0 <= j < i ==> #[trigger] place_of(tracks, t, j) <= place_of(tracks, t, i),
{
    let track = tracks[t];
    let n = track.len() as int;
    let x = track_notes(track, i).len() as int;
    assert(track_notes(track, i + 1) == track_notes(track, i).push(
        TickEvent { tick: tick_after(track, i + 1) as u64, kind },
    ));
    lemma_track_notes_grow(track, i, n);
    lemma_all_notes_grow(tracks, t, tracks.len() as int, x);
    assert forall|j: int| 0 <= j < i implies #[trigger] place_of(tracks, t, j) <= place_of(tracks, t, i) by {
        lemma_track_notes_grow(track, j, i);
    }
}

/// What is said at one tick stays in the order in which it was taken; of two
/// ticks the earlier comes first. Returns where the two stood before merging.
pub proof fn merging_is_stable(tracks: Seq<Seq<TrackEvent>>, i: int, j: int) -> (places: (int, int))
    requires
        all_notes(tracks, tracks.len() as int).len() <= usize::MAX,
        0 <= i < j < merged_notes(tracks).len(),
    ensures
        ({
            let notes = all_notes(tracks, tracks.len() as int);
            let a = notes[places.0];
            let b = notes[places.1];
            &&& 0 <= places.0 < notes.len() && 0 <= places.1 < notes.len()
            &&& merged_notes(tracks)[i] == a && merged_notes(tracks)[j] == b
            &&& a.tick < b.tick || (a.tick == b.tick && places.0 < places.1)
        }),
{
    let notes = all_notes(tracks, tracks.len() as int);
    let keys = note_ticks(notes);
    let perm = stable_order_of(keys);
    stable_order_exists(keys);
    assert(precedes(keys, perm[i] as int, perm[j] as int));
    assert(keys[perm[i] as int] == notes[perm[i] as int].tick);
    assert(keys[perm[j] as int] == notes[perm[j] as int].tick);
    (perm[i] as int, perm[j] as int)
}

/// Of tempo changes at one tick the one that was taken last is in force: the
/// tempo map lists them in the order in which they were taken, and the segment
/// of a tick is that of the last change at or before it.
pub proof fn last_tempo_change_is_in_force(tracks: Seq<Seq<TrackEvent>>, i: int, j: int, tick: int) -> (places: (int, int))
    requires
        all_tempi(tracks, tracks.len() as int).len() <= usize::MAX,
        0 <= i < j < tempo_map(tracks).len(),
        tempo_map(tracks)[j].tick <= tick,
    ensures
        ({
            let tempi = all_tempi(tracks, tracks.len() as int);
            let a = tempi[places.0];
            let b = tempi[places.1];
            &&& 0 <= places.0 < tempi.len() && 0 <= places.1 < tempi.len()
            &&& tempo_map(tracks)[i] == a && tempo_map(tracks)[j] == b
            &&& a.tick < b.tick || (a.tick == b.tick && places.0 < places.1)
        }),
        !is_segment(tempo_map(tracks), tick, i),
{
    let tempi = all_tempi(tracks, tracks.len() as int);
    let keys = tempo_ticks(tempi);
    let perm = stable_order_of(keys);
    let map = tempo_map(tracks);
    stable_order_exists(keys);
    assert(precedes(keys, perm[i] as int, perm[j] as int));
    assert(keys[perm[i] as int] == tempi[perm[i] as int].tick);
    assert(keys[perm[j] as int] == tempi[perm[j] as int].tick);
    tempo_map_starts_at_zero(tracks);
    if i + 1 < j {
        assert(map[i + 1].tick <= map[j].tick);
    }
    (perm[i] as int, perm[j] as int)
}

/// The tempo during a tick is that of the last change at or before it.
pub proof fn tempo_goes_by_the_last_change(tempo: Seq<TempoChange>, x: int, s: int)
    requires
        is_tempo_map(tempo),
        0 <= s < tempo.len(),
        tempo[s].tick <= x,
        s + 1 < tempo.len() ==> x < tempo[s + 1].tick,
    ensures
        tempo_at(tempo, x) == tempo[s].us_per_beat,
        segment_of(tempo, x) == s,
{
    assert(is_segment(tempo, x, s));
    segments_are_unique(tempo, x, s, segment_of(tempo, x));
}

/// The timeline of a file that counts beats follows its merged notes one by one:
/// each event is what is said there, at the time of its tick.
pub proof fn timeline_follows_the_merged_notes<G: Fn(WideOp) -> Double>(w: Wide<G>, file: SmfContents, ticks_per_beat: u16, i: int)
    requires
        file.timing == (Timing::Metrical { ticks_per_beat }),
        0 <= i < merged_notes(file.tracks).len(),
    ensures
        timeline(w, file).len() == merged_notes(file.tracks).len(),
        timeline(w, file)[i].kind == merged_notes(file.tracks)[i].kind,
        timeline(w, file)[i].time == tick_time(
            w,
            tempo_map(file.tracks),
            ticks_per_beat,
            merged_notes(file.tracks)[i].tick as int,
        ),
{
}

/// A timeline has as many events as the tracks have messages that say something.
pub proof fn timelines_add_nothing<G: Fn(WideOp) -> Double>(w: Wide<G>, file: SmfContents)
    requires
        all_notes(file.tracks, file.tracks.len() as int).len() <= usize::MAX,
    ensures
        timeline(w, file).len() == all_notes(file.tracks, file.tracks.len() as int).len(),
{
    let notes = all_notes(file.tracks, file.tracks.len() as int);
    stable_order_sorts(notes, note_ticks(notes));
    if let Timing::Timecode { fps, subframes } = file.timing {
        let rate = tick_rate(w, fps, subframes);
        let clocked = Seq::new(
            notes.len(),
            |j: int| Event { time: w.over(w.whole(notes[j].tick), rate), kind: notes[j].kind },
        );
        sorting_keeps_events(clocked);
    }
}

} // verus!
