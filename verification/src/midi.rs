//! Standard MIDI Files: merging the tracks and honoring tempo changes.

use crate::chunk::{bad_rate, find_bad_header, readable, readable_part_is_sound};
use crate::events::{Event, EventKind, MidiMessage, event_of_message, in_time_order, midi_message_to_event, sort_events};
use crate::number::{DOUBLE_ONE, Double, number, one};
use crate::rounding::wide_zero;
use crate::order::{arrange, stable_order, stable_order_of};
use crate::wide::{Wide, WideOp, wide_number};
use vstd::prelude::*;
use vstd::slice::slice_subrange;

verus! {

/// How a file counts time.
#[derive(Clone, Copy, Debug, PartialEq, Eq, Structural)]
pub enum Timing {
    /// Ticks per beat; the length of a beat is set by tempo changes.
    Metrical { ticks_per_beat: u16 },
    /// Frames per second and ticks per frame: absolute time.
    Timecode { fps: u8, subframes: u8 },
}

/// What happens at one point of a track.
#[derive(Clone, Copy, Debug, PartialEq, Eq, Structural)]
pub enum TrackEventKind {
    Midi { message: MidiMessage },
    Tempo { us_per_beat: u32 },
    Other,
}

#[derive(Clone, Copy, Debug, PartialEq, Eq, Structural)]
pub struct TrackEvent {
    /// Ticks since the previous event of the track.
    pub delta: u32,
    pub kind: TrackEventKind,
}

/// What a MIDI file says: its timing and its tracks.
#[verifier::ext_equal]
pub struct SmfContents {
    pub timing: Timing,
    pub tracks: Seq<Seq<TrackEvent>>,
}

/// A MIDI file, read.
pub struct MidiFile {
    pub timing: Timing,
    pub tracks: Vec<Vec<TrackEvent>>,
}

/// A note or pedal event at an absolute tick.
#[derive(Clone, Copy, Debug, PartialEq, Eq, Structural)]
pub struct TickEvent {
    pub tick: u64,
    pub kind: EventKind,
}

/// From `tick` on, a beat takes `us_per_beat` microseconds.
#[derive(Clone, Copy, Debug, PartialEq, Eq, Structural)]
pub struct TempoChange {
    pub tick: u64,
    pub us_per_beat: u32,
}

/// An event by its tempo segment: `ticks` after the tempo change `segment`.
#[derive(Clone, Copy, Debug, PartialEq, Eq, Structural)]
pub struct PlacedEvent {
    pub segment: usize,
    pub ticks: u64,
    pub kind: EventKind,
}

/// The events of a file, ready to be put on a clock.
pub enum Score {
    /// In tick order, each placed in the tempo map.
    Metrical { ticks_per_beat: u16, tempo: Vec<TempoChange>, events: Vec<PlacedEvent> },
    /// In track order; a tick has a fixed length.
    Timecode { fps: u8, subframes: u8, notes: Vec<TickEvent> },
}

/// Why a file was not read.
#[derive(Debug)]
pub enum MidiError {
    /// The parser rejected the file.
    Parse { cause: midly::Error },
    /// The header gives a frame rate of -128, which has no negative.
    FrameRate,
}

impl View for MidiFile {
    type V = SmfContents;

    open spec fn view(&self) -> SmfContents {
        SmfContents {
            timing: self.timing,
            tracks: self.tracks@.map_values(|t: Vec<TrackEvent>| t@),
        }
    }
}

#[verifier::external_type_specification]
#[verifier::external_body]
pub struct ExMidlySmf<'a>(midly::Smf<'a>);

#[verifier::external_type_specification]
#[verifier::external_body]
pub struct ExMidlyError(midly::Error);

/// What `midly` reads from the bytes of a file; `None` where it rejects them.
pub uninterp spec fn smf_parse(bytes: Seq<u8>) -> Option<SmfContents>;

/// What a file that `midly` has read holds.
pub uninterp spec fn smf_contents(smf: midly::Smf<'_>) -> SmfContents;

impl SmfContents {
    /// The ranges of the MIDI format: seven-bit keys, velocities and
    /// controllers, 24-bit tempi, 28-bit deltas, and tracks whose byte length
    /// has 32 bits.
    pub open spec fn in_range(self) -> bool {
        &&& self.timing matches Timing::Metrical { ticks_per_beat } ==> ticks_per_beat < 0x8000
        &&& forall|t: int| 0 <= t < self.tracks.len() ==> (#[trigger] self.tracks[t]).len() <= u32::MAX
        &&& forall|t: int, i: int|
            0 <= t < self.tracks.len() && 0 <= i < self.tracks[t].len()
                ==> event_in_range(#[trigger] self.tracks[t][i])
    }
}

/// One event of a track respects the ranges of the MIDI format.
pub open spec fn event_in_range(e: TrackEvent) -> bool {
    &&& e.delta < 0x1000_0000
    &&& match e.kind {
        TrackEventKind::Midi { message } => match message {
            MidiMessage::NoteOff { key } => key < 128,
            MidiMessage::NoteOn { key, vel } => key < 128 && vel < 128,
            MidiMessage::Controller { controller, value } => controller < 128 && value < 128,
            MidiMessage::Other => true,
        },
        TrackEventKind::Tempo { us_per_beat } => us_per_beat < 0x100_0000,
        TrackEventKind::Other => true,
    }
}

/// Calls `midly::Smf::parse`. Claimed of it: it accepts exactly the bytes
/// that the name `smf_parse` gives contents for, what it returns then holds
/// those contents, and they respect the ranges of the format (`midly` keeps
/// them in integer types of 7, 15, 24 and 28 bits, and reads a track from a
/// chunk whose length has 32 bits, at least one byte per event). Left out are
/// the files in which it comes to a header with frame rate -128: negating it
/// overflows inside the call.
#[verifier::external_body]
fn parse_smf(bytes: &[u8]) -> (r: Result<midly::Smf<'_>, midly::Error>)
    requires
        !bad_rate(bytes@),
    ensures
        r is Ok <==> smf_parse(bytes@) is Some,
        r matches Ok(smf) ==> smf_parse(bytes@) == Some(smf_contents(smf)) && smf_contents(smf).in_range(),
{
    midly::Smf::parse(bytes)
}

/// Reads the field `header.timing` of a `midly::Smf`. Claimed: it is the
/// timing of the contents.
#[verifier::external_body]
fn smf_timing(smf: &midly::Smf<'_>) -> (r: Timing)
    ensures
        r == smf_contents(*smf).timing,
{
    match smf.header.timing {
        midly::Timing::Metrical(t) => Timing::Metrical { ticks_per_beat: t.as_int() },
        midly::Timing::Timecode(f, s) => Timing::Timecode { fps: f.as_int(), subframes: s },
    }
}

/// Reads the number of tracks of a `midly::Smf`. Claimed: it is that of the
/// contents.
#[verifier::external_body]
fn smf_track_count(smf: &midly::Smf<'_>) -> (r: usize)
    ensures
        r == smf_contents(*smf).tracks.len(),
{
    smf.tracks.len()
}

/// Reads the number of events in one track of a `midly::Smf`. Claimed: it is
/// that of the contents.
#[verifier::external_body]
fn smf_track_len(smf: &midly::Smf<'_>, track: usize) -> (r: usize)
    requires
        track < smf_contents(*smf).tracks.len(),
    ensures
        r == smf_contents(*smf).tracks[track as int].len(),
{
    smf.tracks[track].len()
}

/// Reads one event of a `midly::Smf`, field by field. Claimed: it is the event
/// that the contents hold at this place; messages other than notes and
/// controllers, and meta events other than tempo changes, are `Other` there.
#[verifier::external_body]
fn smf_event(smf: &midly::Smf<'_>, track: usize, i: usize) -> (r: TrackEvent)
    requires
        track < smf_contents(*smf).tracks.len(),
        i < smf_contents(*smf).tracks[track as int].len(),
    ensures
        r == smf_contents(*smf).tracks[track as int][i as int],
{
    let e = smf.tracks[track][i];
    let kind = match e.kind {
        midly::TrackEventKind::Midi { message, .. } => TrackEventKind::Midi { message: match message {
            midly::MidiMessage::NoteOff { key, .. } => MidiMessage::NoteOff { key: key.as_int() },
            midly::MidiMessage::NoteOn { key, vel } => MidiMessage::NoteOn { key: key.as_int(), vel: vel.as_int() },
            midly::MidiMessage::Controller { controller, value } => MidiMessage::Controller { controller: controller.as_int(), value: value.as_int() },
            _ => MidiMessage::Other,
        } },
        midly::TrackEventKind::Meta(midly::MetaMessage::Tempo(t)) => TrackEventKind::Tempo { us_per_beat: t.as_int() },
        _ => TrackEventKind::Other,
    };
    TrackEvent { delta: e.delta.as_int(), kind }
}

/// Takes everything that matters out of a parsed file.
fn read_contents(smf: &midly::Smf<'_>) -> (r: MidiFile)
    ensures
        r@ == smf_contents(*smf),
{
    let mut tracks: Vec<Vec<TrackEvent>> = Vec::new();
    let count = smf_track_count(smf);
    let ghost all = smf_contents(*smf);
    let mut t: usize = 0;
    while t < count
        invariant
            t <= count,
            all == smf_contents(*smf),
            count == all.tracks.len(),
            tracks@.len() == t,
            forall|k: int| 0 <= k < t ==> (#[trigger] tracks@[k])@ == all.tracks[k],
        decreases count - t,
    {
        let len = smf_track_len(smf, t);
        let mut track: Vec<TrackEvent> = Vec::with_capacity(len);
        let mut i: usize = 0;
        while i < len
            invariant
                i <= len,
                t < count,
                all == smf_contents(*smf),
                count == all.tracks.len(),
                len == all.tracks[t as int].len(),
                track@.len() == i,
                forall|k: int| 0 <= k < i ==> track@[k] == all.tracks[t as int][k],
            decreases len - i,
        {
            track.push(smf_event(smf, t, i));
            i += 1;
        }
        assert(track@ =~= all.tracks[t as int]);
        tracks.push(track);
        t += 1;
    }
    let r = MidiFile { timing: smf_timing(smf), tracks };
    assert(r@.tracks =~= all.tracks);
    r
}

/// The tick at which the first `n` events of a track have all happened.
pub open spec fn tick_after(track: Seq<TrackEvent>, n: int) -> int
    decreases n,
{
    if n <= 0 {
        0
    } else {
        tick_after(track, n - 1) + track[n - 1].delta
    }
}

/// The note and pedal events among the first `n` events of a track.
pub open spec fn track_notes(track: Seq<TrackEvent>, n: int) -> Seq<TickEvent>
    decreases n,
{
    if n <= 0 {
        Seq::empty()
    } else {
        let before = track_notes(track, n - 1);
        match track[n - 1].kind {
            TrackEventKind::Midi { message } => match event_of_message(message) {
                Some(kind) => before.push(TickEvent { tick: tick_after(track, n) as u64, kind }),
                None => before,
            },
            _ => before,
        }
    }
}

/// The tempo changes among the first `n` events of a track.
pub open spec fn track_tempi(track: Seq<TrackEvent>, n: int) -> Seq<TempoChange>
    decreases n,
{
    if n <= 0 {
        Seq::empty()
    } else {
        let before = track_tempi(track, n - 1);
        match track[n - 1].kind {
            TrackEventKind::Tempo { us_per_beat } => before.push(
                TempoChange { tick: tick_after(track, n) as u64, us_per_beat },
            ),
            _ => before,
        }
    }
}

/// The note and pedal events of the first `n` tracks, track by track.
pub open spec fn all_notes(tracks: Seq<Seq<TrackEvent>>, n: int) -> Seq<TickEvent>
    decreases n,
{
    if n <= 0 {
        Seq::empty()
    } else {
        all_notes(tracks, n - 1) + track_notes(tracks[n - 1], tracks[n - 1].len() as int)
    }
}

/// The tempo changes of the first `n` tracks, track by track, after the tempo
/// that a file starts with: 120 beats per minute.
pub open spec fn all_tempi(tracks: Seq<Seq<TrackEvent>>, n: int) -> Seq<TempoChange>
    decreases n,
{
    if n <= 0 {
        seq![TempoChange { tick: 0, us_per_beat: DEFAULT_TEMPO }]
    } else {
        all_tempi(tracks, n - 1) + track_tempi(tracks[n - 1], tracks[n - 1].len() as int)
    }
}

/// Microseconds per beat until a file says otherwise.
pub const DEFAULT_TEMPO: u32 = 500_000;

/// The ticks of every track can be counted in 64 bits.
pub open spec fn ticks_fit(tracks: Seq<Seq<TrackEvent>>) -> bool {
    forall|t: int|
        0 <= t < tracks.len() ==> tick_after(#[trigger] tracks[t], tracks[t].len() as int) <= u64::MAX
}

pub open spec fn note_ticks(notes: Seq<TickEvent>) -> Seq<u64> {
    notes.map_values(|e: TickEvent| e.tick)
}

pub open spec fn tempo_ticks(tempi: Seq<TempoChange>) -> Seq<u64> {
    tempi.map_values(|c: TempoChange| c.tick)
}

/// All notes of a file in tick order, those at one tick in track order.
pub open spec fn merged_notes(tracks: Seq<Seq<TrackEvent>>) -> Seq<TickEvent> {
    let notes = all_notes(tracks, tracks.len() as int);
    arrange(notes, stable_order_of(note_ticks(notes)))
}

/// The tempo map of a file: all its tempo changes in tick order.
pub open spec fn tempo_map(tracks: Seq<Seq<TrackEvent>>) -> Seq<TempoChange> {
    let tempi = all_tempi(tracks, tracks.len() as int);
    arrange(tempi, stable_order_of(tempo_ticks(tempi)))
}

/// Change `segment` is the last one at or before `tick`.
pub open spec fn is_segment(tempo: Seq<TempoChange>, tick: int, segment: int) -> bool {
    &&& 0 <= segment < tempo.len()
    &&& tempo[segment].tick <= tick
    &&& segment + 1 < tempo.len() ==> tick < tempo[segment + 1].tick
}

/// A tempo map: it starts at tick 0 and its ticks ascend.
pub open spec fn is_tempo_map(tempo: Seq<TempoChange>) -> bool {
    &&& tempo.len() > 0
    &&& tempo[0].tick == 0
    &&& forall|i: int, j: int| 0 <= i < j < tempo.len() ==> (#[trigger] tempo[i]).tick <= (#[trigger] tempo[j]).tick
}

/// `placed` is the note placed in the tempo map.
pub open spec fn is_placed(tempo: Seq<TempoChange>, note: TickEvent, placed: PlacedEvent) -> bool {
    &&& is_segment(tempo, note.tick as int, placed.segment as int)
    &&& placed.ticks == note.tick - tempo[placed.segment as int].tick
    &&& placed.kind == note.kind
}

/// `score` holds the events of the file.
pub open spec fn is_score(file: SmfContents, score: Score) -> bool {
    match (file.timing, score) {
        (Timing::Metrical { ticks_per_beat: a }, Score::Metrical { ticks_per_beat, tempo, events }) => {
            &&& ticks_per_beat == a
            &&& tempo@ == tempo_map(file.tracks)
            &&& events@.len() == merged_notes(file.tracks).len()
            &&& forall|i: int|
                0 <= i < events@.len() ==> is_placed(
                    tempo@,
                    merged_notes(file.tracks)[i],
                    #[trigger] events@[i],
                )
        },
        (Timing::Timecode { fps: a, subframes: b }, Score::Timecode { fps, subframes, notes }) => {
            &&& fps == a
            &&& subframes == b
            &&& notes@ == all_notes(file.tracks, file.tracks.len() as int)
        },
        _ => false,
    }
}

proof fn lemma_tick_after_grows(track: Seq<TrackEvent>, a: int, b: int)
    requires
        0 <= a <= b,
    ensures
        0 <= tick_after(track, a) <= tick_after(track, b),
    decreases b,
{
    if a < b {
        lemma_tick_after_grows(track, a, b - 1);
    } else if b > 0 {
        lemma_tick_after_grows(track, a - 1, b - 1);
    }
}

/// Collects the notes and the tempo changes of all tracks, at absolute ticks.
fn collect_events(tracks: &Vec<Vec<TrackEvent>>) -> (r: (Vec<TempoChange>, Vec<TickEvent>))
    requires
        ticks_fit(tracks@.map_values(|t: Vec<TrackEvent>| t@)),
    ensures
        r.0@ == all_tempi(tracks@.map_values(|t: Vec<TrackEvent>| t@), tracks@.len() as int),
        r.1@ == all_notes(tracks@.map_values(|t: Vec<TrackEvent>| t@), tracks@.len() as int),
{
    let ghost all = tracks@.map_values(|t: Vec<TrackEvent>| t@);
    let mut tempi: Vec<TempoChange> = Vec::new();
    tempi.push(TempoChange { tick: 0, us_per_beat: DEFAULT_TEMPO });
    let mut notes: Vec<TickEvent> = Vec::new();
    assert(tempi@ =~= all_tempi(all, 0));
    let mut t: usize = 0;
    while t < tracks.len()
        invariant
            t <= tracks@.len(),
            all == tracks@.map_values(|t: Vec<TrackEvent>| t@),
            ticks_fit(all),
            tempi@ == all_tempi(all, t as int),
            notes@ == all_notes(all, t as int),
        decreases tracks@.len() - t,
    {
        let track = &tracks[t];
        let ghost tempi0 = tempi@;
        let ghost notes0 = notes@;
        let mut tick: u64 = 0;
        let mut i: usize = 0;
        assert(all[t as int] == track@);
        assert(tempi0 + track_tempi(track@, 0) =~= tempi0);
        assert(notes0 + track_notes(track@, 0) =~= notes0);
        while i < track.len()
            invariant
                i <= track@.len(),
                tick == tick_after(track@, i as int),
                tick_after(track@, track@.len() as int) <= u64::MAX,
                tempi@ == tempi0 + track_tempi(track@, i as int),
                notes@ == notes0 + track_notes(track@, i as int),
            decreases track@.len() - i,
        {
            let ev = track[i];
            proof {
                lemma_tick_after_grows(track@, i + 1, track@.len() as int);
            }
            tick = tick + ev.delta as u64;
            let ghost before = track_notes(track@, i as int);
            let ghost tempi_before = track_tempi(track@, i as int);
            match ev.kind {
                TrackEventKind::Midi { message } => {
                    if let Some(kind) = midi_message_to_event(message) {
                        notes.push(TickEvent { tick, kind });
                        assert((notes0 + before).push(TickEvent { tick, kind }) =~= notes0 + before.push(
                            TickEvent { tick, kind },
                        ));
                    }
                },
                TrackEventKind::Tempo { us_per_beat } => {
                    tempi.push(TempoChange { tick, us_per_beat });
                    assert((tempi0 + tempi_before).push(TempoChange { tick, us_per_beat }) =~= tempi0
                        + tempi_before.push(TempoChange { tick, us_per_beat }));
                },
                TrackEventKind::Other => {},
            }
            i += 1;
        }
        t += 1;
    }
    (tempi, notes)
}

/// The notes in tick order, those at one tick in the order given.
fn sort_notes(notes: &Vec<TickEvent>) -> (out: Vec<TickEvent>)
    ensures
        out@ == arrange(notes@, stable_order_of(note_ticks(notes@))),
        out@.len() == notes@.len(),
{
    let mut keys: Vec<u64> = Vec::with_capacity(notes.len());
    let mut i: usize = 0;
    while i < notes.len()
        invariant
            i <= notes@.len(),
            keys@.len() == i,
            forall|k: int| 0 <= k < i ==> keys@[k] == notes@[k].tick,
        decreases notes@.len() - i,
    {
        keys.push(notes[i].tick);
        i += 1;
    }
    assert(keys@ =~= note_ticks(notes@));
    let perm = stable_order(keys.as_slice());
    let mut out: Vec<TickEvent> = Vec::with_capacity(perm.len());
    let mut j: usize = 0;
    while j < perm.len()
        invariant
            j <= perm@.len(),
            perm@.len() == notes@.len(),
            forall|k: int| 0 <= k < perm@.len() ==> (#[trigger] perm@[k]) < notes@.len(),
            out@.len() == j,
            forall|k: int| 0 <= k < j ==> out@[k] == notes@[perm@[k] as int],
        decreases perm@.len() - j,
    {
        out.push(notes[perm[j]]);
        j += 1;
    }
    assert(out@ =~= arrange(notes@, stable_order_of(note_ticks(notes@))));
    out
}

/// The tempo changes in tick order, those at one tick in the order given.
fn sort_tempi(tempi: &Vec<TempoChange>) -> (out: Vec<TempoChange>)
    ensures
        out@ == arrange(tempi@, stable_order_of(tempo_ticks(tempi@))),
        out@.len() == tempi@.len(),
{
    let mut keys: Vec<u64> = Vec::with_capacity(tempi.len());
    let mut i: usize = 0;
    while i < tempi.len()
        invariant
            i <= tempi@.len(),
            keys@.len() == i,
            forall|k: int| 0 <= k < i ==> keys@[k] == tempi@[k].tick,
        decreases tempi@.len() - i,
    {
        keys.push(tempi[i].tick);
        i += 1;
    }
    assert(keys@ =~= tempo_ticks(tempi@));
    let perm = stable_order(keys.as_slice());
    let mut out: Vec<TempoChange> = Vec::with_capacity(perm.len());
    let mut j: usize = 0;
    while j < perm.len()
        invariant
            j <= perm@.len(),
            perm@.len() == tempi@.len(),
            forall|k: int| 0 <= k < perm@.len() ==> (#[trigger] perm@[k]) < tempi@.len(),
            out@.len() == j,
            forall|k: int| 0 <= k < j ==> out@[k] == tempi@[perm@[k] as int],
        decreases perm@.len() - j,
    {
        out.push(tempi[perm[j]]);
        j += 1;
    }
    assert(out@ =~= arrange(tempi@, stable_order_of(tempo_ticks(tempi@))));
    out
}

/// Notes in tick order never go back in time.
pub proof fn merged_notes_ascend(tracks: Seq<Seq<TrackEvent>>)
    requires
        all_notes(tracks, tracks.len() as int).len() <= usize::MAX,
    ensures
        forall|i: int, j: int|
            0 <= i < j < merged_notes(tracks).len() ==> (#[trigger] merged_notes(tracks)[i]).tick
                <= (#[trigger] merged_notes(tracks)[j]).tick,
        merged_notes(tracks).len() == all_notes(tracks, tracks.len() as int).len(),
        forall|e: TickEvent|
            merged_notes(tracks).contains(e) <==> all_notes(tracks, tracks.len() as int).contains(e),
{
    let notes = all_notes(tracks, tracks.len() as int);
    let keys = note_ticks(notes);
    let perm = stable_order_of(keys);
    let out = merged_notes(tracks);
    crate::order::stable_order_exists(keys);
    crate::order::stable_order_is_complete(keys, perm);
    assert forall|i: int, j: int| 0 <= i < j < out.len() implies (#[trigger] out[i]).tick <= (#[trigger] out[j]).tick by {
        assert(crate::order::precedes(keys, perm[i] as int, perm[j] as int));
        assert(keys[perm[i] as int] == notes[perm[i] as int].tick);
        assert(keys[perm[j] as int] == notes[perm[j] as int].tick);
    }
    assert forall|e: TickEvent| out.contains(e) <==> notes.contains(e) by {
        if notes.contains(e) {
            let k = choose|k: int| 0 <= k < notes.len() && notes[k] == e;
            assert(perm.contains(k as usize));
            let i = choose|i: int| 0 <= i < perm.len() && perm[i] == k as usize;
            assert(out[i] == e);
        }
        if out.contains(e) {
            let i = choose|i: int| 0 <= i < out.len() && out[i] == e;
            assert(notes[perm[i] as int] == e);
        }
    }
}

proof fn lemma_all_tempi_start(tracks: Seq<Seq<TrackEvent>>, n: int)
    ensures
        all_tempi(tracks, n).len() > 0,
        all_tempi(tracks, n)[0] == (TempoChange { tick: 0, us_per_beat: DEFAULT_TEMPO }),
    decreases n,
{
    if n > 0 {
        lemma_all_tempi_start(tracks, n - 1);
    }
}

/// The tempo changes of a file in tick order start at tick 0 with the tempo
/// that every file starts with.
pub proof fn tempo_map_starts_at_zero(tracks: Seq<Seq<TrackEvent>>)
    requires
        all_tempi(tracks, tracks.len() as int).len() <= usize::MAX,
    ensures
        is_tempo_map(tempo_map(tracks)),
        tempo_map(tracks)[0].us_per_beat == DEFAULT_TEMPO,
{
    let tempi = all_tempi(tracks, tracks.len() as int);
    let keys = tempo_ticks(tempi);
    let perm = stable_order_of(keys);
    lemma_all_tempi_start(tracks, tracks.len() as int);
    crate::order::stable_order_exists(keys);
    crate::order::stable_order_is_complete(keys, perm);
    assert(perm.contains(0usize));
    let z = choose|z: int| 0 <= z < perm.len() && perm[z] == 0usize;
    if z > 0 {
        assert(crate::order::precedes(keys, perm[0] as int, perm[z] as int));
        assert(keys[0] == 0);
    }
    let out = tempo_map(tracks);
    assert forall|i: int, j: int| 0 <= i < j < out.len() implies (#[trigger] out[i]).tick <= (#[trigger] out[j]).tick by {
        assert(crate::order::precedes(keys, perm[i] as int, perm[j] as int));
        assert(keys[perm[i] as int] == tempi[perm[i] as int].tick);
        assert(keys[perm[j] as int] == tempi[perm[j] as int].tick);
    }
}

/// Places notes, given in tick order, in a tempo map.
pub fn place_notes(tempo: &Vec<TempoChange>, notes: &Vec<TickEvent>) -> (events: Vec<PlacedEvent>)
    requires
        is_tempo_map(tempo@),
        forall|i: int, j: int| 0 <= i < j < notes@.len() ==> (#[trigger] notes@[i]).tick <= (#[trigger] notes@[j]).tick,
    ensures
        events@.len() == notes@.len(),
        forall|i: int| 0 <= i < events@.len() ==> is_placed(tempo@, notes@[i], #[trigger] events@[i]),
{
    let mut events: Vec<PlacedEvent> = Vec::with_capacity(notes.len());
    let mut segment: usize = 0;
    let mut i: usize = 0;
    while i < notes.len()
        invariant
            i <= notes@.len(),
            is_tempo_map(tempo@),
            forall|a: int, b: int|
                0 <= a < b < notes@.len() ==> (#[trigger] notes@[a]).tick <= (#[trigger] notes@[b]).tick,
            segment < tempo@.len(),
            i < notes@.len() ==> tempo@[segment as int].tick <= notes@[i as int].tick,
            events@.len() == i,
            forall|k: int| 0 <= k < i ==> is_placed(tempo@, notes@[k], #[trigger] events@[k]),
        decreases notes@.len() - i,
    {
        let note = notes[i];
        while segment < tempo.len() - 1 && tempo[segment + 1].tick <= note.tick
            invariant
                segment < tempo@.len(),
                tempo@[segment as int].tick <= note.tick,
            decreases tempo@.len() - segment,
        {
            segment += 1;
        }
        let ticks: u64 = note.tick - tempo[segment].tick;
        events.push(PlacedEvent { segment, ticks, kind: note.kind });
        i += 1;
    }
    events
}

/// Merges the tracks of a file and places their events on its tempo map.
pub fn read_score(file: &MidiFile) -> (r: Score)
    requires
        ticks_fit(file@.tracks),
    ensures
        is_score(file@, r),
        r matches Score::Metrical { ticks_per_beat, tempo, events } ==> is_tempo_map(tempo@),
        all_notes(file@.tracks, file@.tracks.len() as int).len() <= usize::MAX,
{
    let (tempi, notes) = collect_events(&file.tracks);
    assert(notes@.len() == notes.len());
    match file.timing {
        Timing::Metrical { ticks_per_beat } => {
            let tempo = sort_tempi(&tempi);
            let sorted = sort_notes(&notes);
            assert(tempi@.len() == tempi.len());
            proof {
                tempo_map_starts_at_zero(file@.tracks);
                merged_notes_ascend(file@.tracks);
            }
            let events = place_notes(&tempo, &sorted);
            Score::Metrical { ticks_per_beat, tempo, events }
        },
        Timing::Timecode { fps, subframes } => Score::Timecode { fps, subframes, notes },
    }
}

proof fn lemma_ticks_bounded(track: Seq<TrackEvent>, n: int)
    requires
        0 <= n <= track.len(),
        forall|i: int| 0 <= i < track.len() ==> event_in_range(#[trigger] track[i]),
    ensures
        tick_after(track, n) <= n * 0x1000_0000,
    decreases n,
{
    if n > 0 {
        lemma_ticks_bounded(track, n - 1);
        assert(event_in_range(track[n - 1]));
    }
}

/// Ticks always fit in a file that respects the ranges of the format.
pub proof fn ticks_of_a_file_fit(file: SmfContents)
    requires
        file.in_range(),
    ensures
        ticks_fit(file.tracks),
{
    assert forall|t: int| 0 <= t < file.tracks.len() implies tick_after(
        #[trigger] file.tracks[t],
        file.tracks[t].len() as int,
    ) <= u64::MAX by {
        let track = file.tracks[t];
        assert forall|i: int| 0 <= i < track.len() implies event_in_range(#[trigger] track[i]) by {
            assert(event_in_range(file.tracks[t][i]));
        }
        lemma_ticks_bounded(track, track.len() as int);
    }
}

/// Bit pattern of a million.
pub const MILLION: u64 = 0x412E_8480_0000_0000;

/// How many seconds `ticks` last.
pub open spec fn seconds<G: Fn(WideOp) -> Double>(w: Wide<G>, ticks: int, ticks_per_beat: u16, us_per_beat: u32) -> Double {
    w.over(
        w.times(w.over(w.whole(ticks as u64), w.whole(ticks_per_beat as u64)), w.whole(us_per_beat as u64)),
        wide_number(MILLION),
    )
}

/// When tempo change `s` happens: the segments before it, each at its own tempo,
/// added up.
pub open spec fn segment_start<G: Fn(WideOp) -> Double>(w: Wide<G>, tempo: Seq<TempoChange>, ticks_per_beat: u16, s: int) -> Double
    decreases s,
{
    if s <= 0 {
        wide_number(0)
    } else {
        w.plus(
            segment_start(w, tempo, ticks_per_beat, s - 1),
            seconds(w, tempo[s].tick - tempo[s - 1].tick, ticks_per_beat, tempo[s - 1].us_per_beat),
        )
    }
}

/// The tempo segment of a tick.
pub open spec fn segment_of(tempo: Seq<TempoChange>, tick: int) -> int {
    choose|s: int| is_segment(tempo, tick, s)
}

/// When a tick happens.
pub open spec fn tick_time<G: Fn(WideOp) -> Double>(w: Wide<G>, tempo: Seq<TempoChange>, ticks_per_beat: u16, tick: int) -> Double {
    let s = segment_of(tempo, tick);
    w.plus(
        segment_start(w, tempo, ticks_per_beat, s),
        seconds(w, tick - tempo[s].tick, ticks_per_beat, tempo[s].us_per_beat),
    )
}

/// Bit pattern of a frame rate; the rate of 29 is 30 less a thousandth.
pub open spec fn spec_frame_rate(fps: u8) -> u32 {
    if fps == 24 {
        0x41C0_0000
    } else if fps == 25 {
        0x41C8_0000
    } else if fps == 29 {
        0x41EF_C29E
    } else {
        0x41F0_0000
    }
}

/// Bit pattern of a frame rate.
pub fn frame_rate(fps: u8) -> (bits: u32)
    ensures
        bits == spec_frame_rate(fps),
{
    if fps == 24 {
        0x41C0_0000
    } else if fps == 25 {
        0x41C8_0000
    } else if fps == 29 {
        0x41EF_C29E
    } else {
        0x41F0_0000
    }
}

/// Ticks per second of absolute time.
pub open spec fn tick_rate<G: Fn(WideOp) -> Double>(w: Wide<G>, fps: u8, subframes: u8) -> Double {
    w.times(w.widen(number(spec_frame_rate(fps))), w.whole(subframes as u64))
}

/// The events of a file on the clock, in time order.
pub open spec fn timeline<G: Fn(WideOp) -> Double>(w: Wide<G>, file: SmfContents) -> Seq<Event> {
    match file.timing {
        Timing::Metrical { ticks_per_beat } => {
            let notes = merged_notes(file.tracks);
            let tempo = tempo_map(file.tracks);
            Seq::new(
                notes.len(),
                |i: int| Event { time: tick_time(w, tempo, ticks_per_beat, notes[i].tick as int), kind: notes[i].kind },
            )
        },
        Timing::Timecode { fps, subframes } => {
            let notes = all_notes(file.tracks, file.tracks.len() as int);
            let rate = tick_rate(w, fps, subframes);
            in_time_order(
                Seq::new(
                    notes.len(),
                    |i: int| Event { time: w.over(w.whole(notes[i].tick), rate), kind: notes[i].kind },
                ),
            )
        },
    }
}

fn to_seconds<G: Fn(WideOp) -> Double>(w: &Wide<G>, ticks: u64, ticks_per_beat: u16, us_per_beat: u32) -> (t: Double)
    ensures
        t == seconds(*w, ticks as int, ticks_per_beat, us_per_beat),
{
    w.over(
        w.times(w.over(w.whole(ticks), w.whole(ticks_per_beat as u64)), w.whole(us_per_beat as u64)),
        wide_number(MILLION),
    )
}

/// Puts placed events on the clock by walking the tempo map.
fn clock_metrical<G: Fn(WideOp) -> Double>(
    w: &Wide<G>,
    ticks_per_beat: u16,
    tempo: &Vec<TempoChange>,
    events: &Vec<PlacedEvent>,
) -> (out: Vec<Event>)
    requires
        is_tempo_map(tempo@),
        forall|i: int| 0 <= i < events@.len() ==> (#[trigger] events@[i]).segment < tempo@.len(),
    ensures
        out@.len() == events@.len(),
        forall|i: int|
            #![trigger out@[i]]
            0 <= i < out@.len() ==> {
                let s = events@[i].segment as int;
                &&& out@[i].kind == events@[i].kind
                &&& out@[i].time == w.plus(
                    segment_start(*w, tempo@, ticks_per_beat, s),
                    seconds(*w, events@[i].ticks as int, ticks_per_beat, tempo@[s].us_per_beat),
                )
            },
{
    let mut starts: Vec<Double> = Vec::with_capacity(tempo.len());
    starts.push(wide_number(0));
    let mut s: usize = 1;
    while s < tempo.len()
        invariant
            1 <= s <= tempo@.len(),
            is_tempo_map(tempo@),
            starts@.len() == s,
            forall|j: int| 0 <= j < s ==> #[trigger] starts@[j] == segment_start(*w, tempo@, ticks_per_beat, j),
        decreases tempo@.len() - s,
    {
        assert(tempo@[s - 1].tick <= tempo@[s as int].tick);
        let span: Double = to_seconds(w, tempo[s].tick - tempo[s - 1].tick, ticks_per_beat, tempo[s - 1].us_per_beat);
        let start: Double = w.plus(starts[s - 1], span);
        starts.push(start);
        s += 1;
    }
    let mut out: Vec<Event> = Vec::with_capacity(events.len());
    let mut i: usize = 0;
    while i < events.len()
        invariant
            i <= events@.len(),
            starts@.len() == tempo@.len(),
            forall|j: int| 0 <= j < events@.len() ==> (#[trigger] events@[j]).segment < tempo@.len(),
            forall|j: int|
                0 <= j < tempo@.len() ==> #[trigger] starts@[j] == segment_start(*w, tempo@, ticks_per_beat, j),
            out@.len() == i,
            forall|j: int|
                #![trigger out@[j]]
                0 <= j < i ==> {
                    let s = events@[j].segment as int;
                    &&& out@[j].kind == events@[j].kind
                    &&& out@[j].time == w.plus(
                        segment_start(*w, tempo@, ticks_per_beat, s),
                        seconds(*w, events@[j].ticks as int, ticks_per_beat, tempo@[s].us_per_beat),
                    )
                },
        decreases events@.len() - i,
    {
        let e: PlacedEvent = events[i];
        let span: Double = to_seconds(w, e.ticks, ticks_per_beat, tempo[e.segment].us_per_beat);
        out.push(Event { time: w.plus(starts[e.segment], span), kind: e.kind });
        i += 1;
    }
    out
}

/// Puts events at fixed ticks on the clock.
fn clock_timecode<G: Fn(WideOp) -> Double>(w: &Wide<G>, fps: u8, subframes: u8, notes: &Vec<TickEvent>) -> (out: Vec<Event>)
    ensures
        out@ == in_time_order(
            Seq::new(
                notes@.len(),
                |i: int|
                    Event { time: w.over(w.whole(notes@[i].tick), tick_rate(*w, fps, subframes)), kind: notes@[i].kind },
            ),
        ),
{
    let rate: Double = w.times(w.widen(number(frame_rate(fps))), w.whole(subframes as u64));
    let mut out: Vec<Event> = Vec::with_capacity(notes.len());
    let mut i: usize = 0;
    while i < notes.len()
        invariant
            i <= notes@.len(),
            rate == tick_rate(*w, fps, subframes),
            out@.len() == i,
            forall|j: int|
                0 <= j < i ==> #[trigger] out@[j] == (Event {
                    time: w.over(w.whole(notes@[j].tick), rate),
                    kind: notes@[j].kind,
                }),
        decreases notes@.len() - i,
    {
        out.push(Event { time: w.over(w.whole(notes[i].tick), rate), kind: notes[i].kind });
        i += 1;
    }
    assert(out@ =~= Seq::new(
        notes@.len(),
        |i: int| Event { time: w.over(w.whole(notes@[i].tick), tick_rate(*w, fps, subframes)), kind: notes@[i].kind },
    ));
    sort_events(out.as_slice())
}

/// Puts the events of a file on the clock.
pub fn clock_file<G: Fn(WideOp) -> Double>(w: &Wide<G>, file: &MidiFile) -> (out: Vec<Event>)
    requires
        ticks_fit(file@.tracks),
    ensures
        out@ == timeline(*w, file@),
        all_notes(file@.tracks, file@.tracks.len() as int).len() <= usize::MAX,
{
    let score = read_score(file);
    let ghost tracks = file@.tracks;
    match score {
        Score::Metrical { ticks_per_beat, tempo, events } => {
            let ghost notes = merged_notes(tracks);
            assert forall|i: int| 0 <= i < events@.len() implies (#[trigger] events@[i]).segment < tempo@.len() by {
                assert(is_placed(tempo@, notes[i], events@[i]));
            }
            let out = clock_metrical(w, ticks_per_beat, &tempo, &events);
            assert forall|i: int| 0 <= i < out@.len() implies out@[i] == #[trigger] timeline(*w, file@)[i] by {
                assert(is_placed(tempo@, notes[i], events@[i]));
                lemma_segment_is_unique(
                    tempo@,
                    notes[i].tick as int,
                    events@[i].segment as int,
                    segment_of(tempo@, notes[i].tick as int),
                );
            }
            assert(out@ =~= timeline(*w, file@));
            out
        },
        Score::Timecode { fps, subframes, notes } => clock_timecode(w, fps, subframes, &notes),
    }
}

/// Reads a Standard MIDI File into a flat, time-sorted event list. All tracks
/// are merged; tempo changes are honored. A later header that cannot be read ends
/// the reading, and what came before it counts.
pub fn load_midi<G: Fn(WideOp) -> Double>(w: &Wide<G>, bytes: &[u8]) -> (r: Result<Vec<Event>, MidiError>)
    ensures
        match readable(bytes@) {
            None => r matches Err(MidiError::FrameRate),
            Some(part) => match smf_parse(part) {
                Some(file) => r is Ok && r.unwrap()@ == timeline(*w, file),
                None => r matches Err(MidiError::Parse { cause }),
            },
        },
        r matches Ok(events) ==> all_known(events@),
{
    let part: &[u8] = match find_bad_header(bytes) {
        Some((at, started)) => {
            if !started {
                return Err(MidiError::FrameRate);
            }
            slice_subrange(bytes, 0, at)
        },
        None => bytes,
    };
    proof {
        assert(bytes@.subrange(0, part@.len() as int) =~= bytes@.take(part@.len() as int));
        readable_part_is_sound(bytes@);
    }
    match parse_smf(part) {
        Ok(smf) => {
            let file = read_contents(&smf);
            proof {
                ticks_of_a_file_fit(file@);
            }
            let out = clock_file(w, &file);
            proof {
                files_have_known_notes(*w, file@);
            }
            Ok(out)
        },
        Err(cause) => Err(MidiError::Parse { cause }),
    }
}

/// The event speaks of a note that there is, if of any.
pub open spec fn is_known(kind: EventKind) -> bool {
    match kind {
        EventKind::NoteOn { note, velocity } => note < 128 && 0 < velocity < 128,
        EventKind::NoteOff { note } => note < 128,
        _ => true,
    }
}

/// All events speak of notes that there are.
pub open spec fn all_known(events: Seq<Event>) -> bool {
    forall|i: int| 0 <= i < events.len() ==> is_known((#[trigger] events[i]).kind)
}

proof fn lemma_track_notes_known(track: Seq<TrackEvent>, n: int)
    requires
        0 <= n <= track.len(),
        forall|i: int| 0 <= i < track.len() ==> event_in_range(#[trigger] track[i]),
    ensures
        forall|i: int| 0 <= i < track_notes(track, n).len() ==> is_known((#[trigger] track_notes(track, n)[i]).kind),
    decreases n,
{
    if n > 0 {
        lemma_track_notes_known(track, n - 1);
        assert(event_in_range(track[n - 1]));
    }
}

proof fn lemma_all_notes_known(file: SmfContents, n: int)
    requires
        file.in_range(),
        0 <= n <= file.tracks.len(),
    ensures
        forall|i: int|
            0 <= i < all_notes(file.tracks, n).len() ==> is_known((#[trigger] all_notes(file.tracks, n)[i]).kind),
    decreases n,
{
    if n > 0 {
        lemma_all_notes_known(file, n - 1);
        let track = file.tracks[n - 1];
        assert forall|i: int| 0 <= i < track.len() implies event_in_range(#[trigger] track[i]) by {
            assert(event_in_range(file.tracks[n - 1][i]));
        }
        lemma_track_notes_known(track, track.len() as int);
    }
}

/// The events of a file speak of notes that there are.
pub proof fn files_have_known_notes<G: Fn(WideOp) -> Double>(w: Wide<G>, file: SmfContents)
    requires
        file.in_range(),
        all_notes(file.tracks, file.tracks.len() as int).len() <= usize::MAX,
    ensures
        all_known(timeline(w, file)),
{
    let notes = all_notes(file.tracks, file.tracks.len() as int);
    lemma_all_notes_known(file, file.tracks.len() as int);
    match file.timing {
        Timing::Metrical { ticks_per_beat } => {
            crate::order::stable_order_exists(note_ticks(notes));
            let perm = stable_order_of(note_ticks(notes));
            assert forall|i: int| 0 <= i < timeline(w, file).len() implies is_known(
                (#[trigger] timeline(w, file)[i]).kind,
            ) by {
                assert(merged_notes(file.tracks)[i] == notes[perm[i] as int]);
            }
        },
        Timing::Timecode { fps, subframes } => {
            let rate = tick_rate(w, fps, subframes);
            let events = Seq::new(
                notes.len(),
                |i: int| Event { time: w.over(w.whole(notes[i].tick), rate), kind: notes[i].kind },
            );
            let keys = crate::events::time_keys(events);
            crate::order::stable_order_exists(keys);
            let perm = stable_order_of(keys);
            assert forall|i: int| 0 <= i < timeline(w, file).len() implies is_known(
                (#[trigger] timeline(w, file)[i]).kind,
            ) by {
                assert(timeline(w, file)[i] == events[perm[i] as int]);
                assert(events[perm[i] as int].kind == notes[perm[i] as int].kind);
            }
        },
    }
}

/// Time from tick 0 to the tempo change `segment`, in microseconds times ticks
/// per beat: each segment lasts its ticks at its own tempo.
pub open spec fn elapsed(tempo: Seq<TempoChange>, segment: int) -> int
    decreases segment,
{
    if segment <= 0 {
        0
    } else {
        elapsed(tempo, segment - 1) + (tempo[segment].tick - tempo[segment - 1].tick) * tempo[segment
            - 1].us_per_beat
    }
}

/// Time from tick 0 to a place in the tempo map, in the same unit.
pub open spec fn exact_time(tempo: Seq<TempoChange>, segment: int, ticks: int) -> int {
    elapsed(tempo, segment) + ticks * tempo[segment].us_per_beat
}

/// The tempo during tick `x`: that of the last change at or before it.
pub open spec fn tempo_at(tempo: Seq<TempoChange>, x: int) -> int {
    tempo[choose|s: int| is_segment(tempo, x, s)].us_per_beat as int
}

/// The sum of the tempo over all ticks before `tick`.
pub open spec fn tempo_sum(tempo: Seq<TempoChange>, tick: int) -> int
    decreases tick,
{
    if tick <= 0 {
        0
    } else {
        tempo_sum(tempo, tick - 1) + tempo_at(tempo, tick - 1)
    }
}

proof fn lemma_segment_from(tempo: Seq<TempoChange>, tick: int, from: int) -> (s: int)
    requires
        is_tempo_map(tempo),
        0 <= from < tempo.len(),
        tempo[from].tick <= tick,
    ensures
        is_segment(tempo, tick, s),
        from <= s,
    decreases tempo.len() - from,
{
    if from + 1 < tempo.len() && tempo[from + 1].tick <= tick {
        lemma_segment_from(tempo, tick, from + 1)
    } else {
        from
    }
}

proof fn lemma_segment_is_unique(tempo: Seq<TempoChange>, tick: int, a: int, b: int)
    requires
        is_tempo_map(tempo),
        is_segment(tempo, tick, a),
        is_segment(tempo, tick, b),
    ensures
        a == b,
{
    if a < b {
        if a + 1 < b {
            assert(tempo[a + 1].tick <= tempo[b].tick);
        }
    }
    if b < a {
        if b + 1 < a {
            assert(tempo[b + 1].tick <= tempo[a].tick);
        }
    }
}

/// Segments that start together add no time.
proof fn lemma_elapsed_over_equal_ticks(tempo: Seq<TempoChange>, a: int, b: int)
    requires
        is_tempo_map(tempo),
        0 <= a <= b < tempo.len(),
        tempo[a].tick == tempo[b].tick,
    ensures
        elapsed(tempo, b) == elapsed(tempo, a),
    decreases b - a,
{
    if a < b {
        if a < b - 1 {
            assert(tempo[a].tick <= tempo[b - 1].tick);
        }
        assert(tempo[b - 1].tick <= tempo[b].tick);
        lemma_elapsed_over_equal_ticks(tempo, a, b - 1);
        assert(elapsed(tempo, b) == elapsed(tempo, b - 1)) by {
            assert(tempo[b].tick - tempo[b - 1].tick == 0);
            assert((tempo[b].tick - tempo[b - 1].tick) * tempo[b - 1].us_per_beat == 0) by (nonlinear_arith)
                requires
                    tempo[b].tick - tempo[b - 1].tick == 0,
            ;
        }
    }
}

/// Tempo changes are honored: the time of a place in the tempo map is the sum
/// of the tempo in force over all ticks before it.
pub proof fn tempo_is_honored(tempo: Seq<TempoChange>, tick: int, segment: int)
    requires
        is_tempo_map(tempo),
        0 <= tick,
        is_segment(tempo, tick, segment),
    ensures
        exact_time(tempo, segment, tick - tempo[segment].tick) == tempo_sum(tempo, tick),
    decreases tick,
{
    if tick == 0 {
        lemma_elapsed_over_equal_ticks(tempo, 0, segment);
        assert((tick - tempo[segment].tick) * tempo[segment].us_per_beat == 0) by (nonlinear_arith)
            requires
                tick - tempo[segment].tick == 0,
        ;
    } else {
        let s = lemma_segment_from(tempo, tick - 1, 0);
        tempo_is_honored(tempo, tick - 1, s);
        let before = tick - 1;
        let chosen = choose|c: int| is_segment(tempo, before, c);
        lemma_segment_is_unique(tempo, tick - 1, s, chosen);
        let us = tempo[s].us_per_beat as int;
        let start = tempo[s].tick as int;
        let next = lemma_segment_from(tempo, tick, s);
        lemma_segment_is_unique(tempo, tick, next, segment);
        assert((tick - 1 - start) * us + us == (tick - start) * us) by (nonlinear_arith);
        if segment > s {
            assert(tempo[s + 1].tick == tick) by {
                if s + 1 < segment {
                    assert(tempo[s + 1].tick <= tempo[segment].tick);
                }
            }
            if s + 1 < segment {
                assert(tempo[s + 1].tick <= tempo[segment].tick);
            }
            lemma_elapsed_over_equal_ticks(tempo, s + 1, segment);
            assert((tick - tempo[segment].tick) * tempo[segment].us_per_beat == 0) by (nonlinear_arith)
                requires
                    tick - tempo[segment].tick == 0,
            ;
        }
    }
}

/// Time does not run backward: a later tick is not at an earlier time.
pub proof fn time_follows_ticks(tempo: Seq<TempoChange>, a: int, b: int)
    requires
        is_tempo_map(tempo),
        0 <= a <= b,
    ensures
        0 <= tempo_sum(tempo, a) <= tempo_sum(tempo, b),
    decreases b,
{
    if b > 0 {
        if a == b {
            time_follows_ticks(tempo, a - 1, b - 1);
        } else {
            time_follows_ticks(tempo, a, b - 1);
        }
        assert(tempo_at(tempo, b - 1) >= 0);
    }
}

/// More ticks take longer.
proof fn lemma_seconds<G: Fn(WideOp) -> Double>(w: Wide<G>, a: int, b: int, ticks_per_beat: u16, us_per_beat: u32)
    requires
        w.keeps_order(),
        0 <= a <= b <= u64::MAX,
        ticks_per_beat > 0,
    ensures
        wide_zero().le(seconds(w, a, ticks_per_beat, us_per_beat)),
        seconds(w, a, ticks_per_beat, us_per_beat).le(seconds(w, b, ticks_per_beat, us_per_beat)),
{
    reveal(Wide::keeps_order);
    let beats_a = w.over(w.whole(a as u64), w.whole(ticks_per_beat as u64));
    let beats_b = w.over(w.whole(b as u64), w.whole(ticks_per_beat as u64));
    assert(w.whole(a as u64).le(w.whole(b as u64)));
    assert(beats_a.le(beats_b) && beats_b.finite() && wide_zero().le(beats_a));
    let us = w.whole(us_per_beat as u64);
    assert(w.times(beats_a, us).le(w.times(beats_b, us)));
    assert(wide_zero().le(w.times(beats_a, us)));
}

proof fn lemma_starts_ascend<G: Fn(WideOp) -> Double>(w: Wide<G>, tempo: Seq<TempoChange>, ticks_per_beat: u16, a: int, b: int)
    requires
        w.keeps_order(),
        is_tempo_map(tempo),
        ticks_per_beat > 0,
        0 <= a <= b < tempo.len(),
    ensures
        wide_zero().le(segment_start(w, tempo, ticks_per_beat, a)),
        segment_start(w, tempo, ticks_per_beat, a).le(segment_start(w, tempo, ticks_per_beat, b)),
    decreases b,
{
    if b > 0 {
        if a < b {
            lemma_starts_ascend(w, tempo, ticks_per_beat, a, b - 1);
        } else {
            lemma_starts_ascend(w, tempo, ticks_per_beat, a - 1, b - 1);
        }
        assert(tempo[b - 1].tick <= tempo[b].tick);
        lemma_seconds(
            w,
            tempo[b].tick - tempo[b - 1].tick,
            tempo[b].tick - tempo[b - 1].tick,
            ticks_per_beat,
            tempo[b - 1].us_per_beat,
        );
        reveal(Wide::keeps_order);
    }
}

/// On the clock, too, a later tick is not at an earlier time.
pub proof fn clock_follows_ticks<G: Fn(WideOp) -> Double>(
    w: Wide<G>,
    tempo: Seq<TempoChange>,
    ticks_per_beat: u16,
    a: int,
    b: int,
)
    requires
        w.keeps_order(),
        is_tempo_map(tempo),
        ticks_per_beat > 0,
        0 <= a <= b <= u64::MAX,
    ensures
        wide_zero().le(tick_time(w, tempo, ticks_per_beat, a)),
        tick_time(w, tempo, ticks_per_beat, a).le(tick_time(w, tempo, ticks_per_beat, b)),
{
    let from = lemma_segment_from(tempo, a, 0);
    let to = lemma_segment_from(tempo, b, 0);
    let s = segment_of(tempo, a);
    let t = segment_of(tempo, b);
    lemma_segment_is_unique(tempo, a, from, s);
    lemma_segment_is_unique(tempo, b, to, t);
    assert(s <= t) by {
        if t < s {
            if t + 1 < s {
                assert(tempo[t + 1].tick <= tempo[s].tick);
            }
        }
    }
    lemma_starts_ascend(w, tempo, ticks_per_beat, s, t);
    let us = tempo[s].us_per_beat;
    let start = segment_start(w, tempo, ticks_per_beat, s);
    let early = seconds(w, a - tempo[s].tick, ticks_per_beat, us);
    if s == t {
        lemma_seconds(w, a - tempo[s].tick, b - tempo[s].tick, ticks_per_beat, us);
        reveal(Wide::keeps_order);
        assert(start.le(w.plus(start, early)));
    } else {
        lemma_seconds(w, a - tempo[s].tick, tempo[s + 1].tick - tempo[s].tick, ticks_per_beat, us);
        lemma_starts_ascend(w, tempo, ticks_per_beat, s + 1, t);
        let late = seconds(w, b - tempo[t].tick, ticks_per_beat, tempo[t].us_per_beat);
        lemma_seconds(w, b - tempo[t].tick, b - tempo[t].tick, ticks_per_beat, tempo[t].us_per_beat);
        reveal(Wide::keeps_order);
        let next = segment_start(w, tempo, ticks_per_beat, s + 1);
        assert(w.plus(start, early).le(next));
        assert(segment_start(w, tempo, ticks_per_beat, t).le(
            w.plus(segment_start(w, tempo, ticks_per_beat, t), late),
        ));
        assert(start.le(w.plus(start, early)));
    }
}

/// The division of time is not by zero.
pub open spec fn divides_time(timing: Timing) -> bool {
    match timing {
        Timing::Metrical { ticks_per_beat } => ticks_per_beat > 0,
        Timing::Timecode { subframes, .. } => subframes > 0,
    }
}

/// A file is read into a list that is sorted by time, from zero on.
pub proof fn timeline_ascends<G: Fn(WideOp) -> Double>(w: Wide<G>, file: SmfContents)
    requires
        w.keeps_order(),
        divides_time(file.timing),
        all_notes(file.tracks, file.tracks.len() as int).len() <= usize::MAX,
        all_tempi(file.tracks, file.tracks.len() as int).len() <= usize::MAX,
    ensures
        forall|i: int| 0 <= i < timeline(w, file).len() ==> wide_zero().le((#[trigger] timeline(w, file)[i]).time),
        forall|i: int, j: int|
            0 <= i < j < timeline(w, file).len() ==> (#[trigger] timeline(w, file)[i]).time.le(
                (#[trigger] timeline(w, file)[j]).time,
            ),
{
    let out = timeline(w, file);
    match file.timing {
        Timing::Metrical { ticks_per_beat } => {
            let notes = merged_notes(file.tracks);
            let tempo = tempo_map(file.tracks);
            merged_notes_ascend(file.tracks);
            tempo_map_starts_at_zero(file.tracks);
            assert forall|i: int| 0 <= i < out.len() implies wide_zero().le((#[trigger] out[i]).time) by {
                let tick = notes[i].tick as int;
                clock_follows_ticks(w, tempo, ticks_per_beat, tick, tick);
            }
            assert forall|i: int, j: int| 0 <= i < j < out.len() implies (#[trigger] out[i]).time.le(
                (#[trigger] out[j]).time,
            ) by {
                assert(notes[i].tick <= notes[j].tick);
                clock_follows_ticks(w, tempo, ticks_per_beat, notes[i].tick as int, notes[j].tick as int);
            }
        },
        Timing::Timecode { fps, subframes } => {
            let notes = all_notes(file.tracks, file.tracks.len() as int);
            let rate = tick_rate(w, fps, subframes);
            let events = Seq::new(
                notes.len(),
                |i: int| Event { time: w.over(w.whole(notes[i].tick), rate), kind: notes[i].kind },
            );
            assert forall|i: int| 0 <= i < events.len() implies wide_zero().le((#[trigger] events[i]).time) by {
                reveal(Wide::keeps_order);
                assert(one().le(number(spec_frame_rate(fps))));
                assert(wide_number(DOUBLE_ONE).le(w.whole(subframes as u64)));
                assert(wide_number(DOUBLE_ONE).le(rate));
            }
            crate::events::sorting_keeps_events(events);
            let sorted = in_time_order(events);
            assert(out == sorted);
            assert forall|i: int| 0 <= i < out.len() implies wide_zero().le((#[trigger] out[i]).time) by {
                assert(sorted[i] == out[i]);
                assert(sorted.contains(sorted[i]));
                assert(events.contains(sorted[i]));
                let j = choose|j: int| 0 <= j < events.len() && events[j] == out[i];
                assert(wide_zero().le(events[j].time));
            }
            assert forall|i: int, j: int| 0 <= i < j < out.len() implies (#[trigger] out[i]).time.le(
                (#[trigger] out[j]).time,
            ) by {
                assert(sorted[i].time.total_order() <= sorted[j].time.total_order());
            }
        },
    }
}

/// A tick is in one tempo segment only.
pub proof fn segments_are_unique(tempo: Seq<TempoChange>, tick: int, a: int, b: int)
    requires
        is_tempo_map(tempo),
        is_segment(tempo, tick, a),
        is_segment(tempo, tick, b),
    ensures
        a == b,
{
    lemma_segment_is_unique(tempo, tick, a, b);
}

} // verus!
