//! Timed note events, and the MIDI messages they come from.

use crate::number::{Double, Single, spec_is_on};
use crate::order::{arrange, stable_order, stable_order_of};
use vstd::arithmetic::power2::*;
use vstd::prelude::*;

verus! {

#[derive(Clone, Copy, Debug, PartialEq, Eq, Structural)]
pub enum EventKind {
    NoteOn { note: u8, velocity: u8 },
    NoteOff { note: u8 },
    Sustain { position: Single },
    Control { controller: u8, value: Single },
}

#[derive(Clone, Copy, Debug, PartialEq, Eq, Structural)]
pub struct Event {
    /// Seconds from the start of the timeline.
    pub time: Double,
    pub kind: EventKind,
}

/// The channel messages of a MIDI file that matter to a piano.
#[derive(Clone, Copy, Debug, PartialEq, Eq, Structural)]
pub enum MidiMessage {
    NoteOff { key: u8 },
    NoteOn { key: u8, vel: u8 },
    Controller { controller: u8, value: u8 },
    Other,
}

/// Controller number of the sustain pedal.
pub const CC_SUSTAIN: u8 = 64;

/// Controller number of the una corda pedal.
pub const CC_UNA_CORDA: u8 = 67;

/// `bits` is the single-precision pattern with significand `sig` and scale
/// `k`, and `sig` is the integer nearest to `value / 127 * 2^k`, which lies
/// between 2^23 and 2^24.
pub open spec fn quotient_pattern(value: int, bits: int, k: nat, sig: int) -> bool {
    &&& 127 * 0x80_0000 <= value * pow2(k) < 127 * 0x100_0000
    &&& -127 < 2 * (127 * sig - value * pow2(k)) < 127
    &&& bits == (150 - k) * 0x80_0000 + (sig - 0x80_0000)
}

/// `bits` is the pattern of the single-precision number nearest to
/// `value / 127`.
pub open spec fn is_level(value: u8, bits: u32) -> bool {
    if value == 0 {
        bits == 0
    } else {
        exists|k: nat, sig: int| quotient_pattern(value as int, bits as int, k, sig)
    }
}

/// The single-precision number nearest to `value / 127`.
pub open spec fn spec_midi_level(value: u8) -> Single {
    Single { bits: choose|bits: u32| is_level(value, bits) }
}

proof fn lemma_scale_is_unique(value: int, bits: int, k: nat, sig: int, bits2: int, k2: nat, sig2: int)
    requires
        quotient_pattern(value, bits, k, sig),
        quotient_pattern(value, bits2, k2, sig2),
    ensures
        k2 <= k,
{
    if k < k2 {
        lemma_pow2_unfold((k + 1) as nat);
        if k + 1 < k2 {
            lemma_pow2_strictly_increases((k + 1) as nat, k2);
        }
        let p = pow2(k) as int;
        let q = pow2(k2) as int;
        assert(q >= 2 * p);
        if value <= 0 {
            lemma_pow2_pos(k);
            assert(value * p <= 0) by (nonlinear_arith)
                requires
                    value <= 0,
                    p > 0,
            ;
        }
        assert(value * q >= 2 * (value * p)) by (nonlinear_arith)
            requires
                q >= 2 * p,
                value > 0,
        ;
    }
}

/// No two patterns are nearest to the same quotient.
proof fn lemma_level_is_unique(value: u8, a: u32, b: u32)
    requires
        is_level(value, a),
        is_level(value, b),
    ensures
        a == b,
{
    if value != 0 {
        let v = value as int;
        let (k, sig) = choose|k: nat, sig: int| quotient_pattern(v, a as int, k, sig);
        let (k2, sig2) = choose|k: nat, sig: int| quotient_pattern(v, b as int, k, sig);
        lemma_scale_is_unique(v, a as int, k, sig, b as int, k2, sig2);
        lemma_scale_is_unique(v, b as int, k2, sig2, a as int, k, sig);
    }
}

/// A MIDI data byte as a control value: the single-precision number nearest
/// to `value / 127`.
pub fn midi_level(value: u8) -> (r: Single)
    ensures
        is_level(value, r.bits),
        r == spec_midi_level(value),
{
    if value == 0 {
        proof {
            assert(is_level(0, 0));
            lemma_level_is_unique(0, 0, spec_midi_level(0).bits);
        }
        return Single { bits: 0 };
    }
    let mut k: u32 = 22;
    let mut n: u64 = value as u64 * 0x40_0000;
    proof {
        lemma2_to64();
    }
    while n < 127 * 0x80_0000
        invariant
            1 <= value,
            22 <= k <= 30,
            n == value * pow2(k as nat),
            0 < n < 127 * 0x100_0000,
        decreases 127 * 0x100_0000 - n,
    {
        proof {
            lemma_pow2_unfold((k + 1) as nat);
            let p = pow2(k as nat) as int;
            assert(value * (2 * p) == 2 * (value * p)) by (nonlinear_arith);
            lemma2_to64();
            if k == 30 {
                assert(value * pow2(30) >= pow2(30)) by (nonlinear_arith)
                    requires
                        value >= 1,
                        pow2(30) >= 0,
                ;
            }
        }
        n = n * 2;
        k += 1;
    }
    let sig: u64 = (2 * n + 127) / 254;
    let field: u64 = (150 - k) as u64;
    let bits: u32 = (field * 0x80_0000 + (sig - 0x80_0000)) as u32;
    proof {
        assert(2 * n + 127 - 253 <= 254 * sig <= 2 * n + 127);
        // An odd divisor leaves no ties.
        assert(254 * sig != 2 * n + 127);
        assert(254 * sig != 2 * n - 127);
        assert(quotient_pattern(value as int, bits as int, k as nat, sig as int));
        assert(is_level(value, bits));
        lemma_level_is_unique(value, bits, spec_midi_level(value).bits);
    }
    Single { bits }
}

/// A pedal at MIDI value 64 or above is down, below that it is up.
pub proof fn pedal_is_down_from_64(value: u8, bits: u32)
    requires
        is_level(value, bits),
    ensures
        spec_is_on(Single { bits }) <==> value >= 64,
{
    if value != 0 {
        let v = value as int;
        let (k, sig) = choose|k: nat, sig: int| quotient_pattern(v, bits as int, k, sig);
        lemma2_to64();
        let p = pow2(k) as int;
        lemma_pow2_pos(k);
        if k <= 24 {
            if k < 24 {
                lemma_pow2_strictly_increases(k, 24);
            }
            assert(v * p <= v * 0x100_0000) by (nonlinear_arith)
                requires
                    p <= 0x100_0000,
                    v > 0,
            ;
        } else {
            if k > 25 {
                lemma_pow2_strictly_increases(25, k);
            }
            assert(v * p >= v * 0x200_0000) by (nonlinear_arith)
                requires
                    p >= 0x200_0000,
                    v > 0,
            ;
        }
        if k < 21 {
            lemma_pow2_strictly_increases(k, 21);
            assert(v * p <= 255 * 0x20_0000) by (nonlinear_arith)
                requires
                    p <= 0x20_0000,
                    0 < v <= 255,
            ;
        }
        if k > 31 {
            lemma_pow2_strictly_increases(31, k);
        }
    }
}

/// The event that a channel message stands for. A note-on with velocity 0 is
/// a note-off; of the controllers only the two pedals count.
pub open spec fn event_of_message(message: MidiMessage) -> Option<EventKind> {
    match message {
        MidiMessage::NoteOn { key, vel } => if vel == 0 {
            Some(EventKind::NoteOff { note: key })
        } else {
            Some(EventKind::NoteOn { note: key, velocity: vel })
        },
        MidiMessage::NoteOff { key } => Some(EventKind::NoteOff { note: key }),
        MidiMessage::Controller { controller, value } => if controller == CC_SUSTAIN {
            Some(EventKind::Sustain { position: spec_midi_level(value) })
        } else if controller == CC_UNA_CORDA {
            Some(EventKind::Control { controller: CC_UNA_CORDA, value: spec_midi_level(value) })
        } else {
            None
        },
        MidiMessage::Other => None,
    }
}

/// The event that a channel message stands for.
pub fn midi_message_to_event(message: MidiMessage) -> (r: Option<EventKind>)
    ensures
        r == event_of_message(message),
{
    match message {
        MidiMessage::NoteOn { key, vel } => {
            if vel == 0 {
                Some(EventKind::NoteOff { note: key })
            } else {
                Some(EventKind::NoteOn { note: key, velocity: vel })
            }
        },
        MidiMessage::NoteOff { key } => Some(EventKind::NoteOff { note: key }),
        MidiMessage::Controller { controller, value } => {
            if controller == CC_SUSTAIN {
                Some(EventKind::Sustain { position: midi_level(value) })
            } else if controller == CC_UNA_CORDA {
                Some(EventKind::Control { controller: CC_UNA_CORDA, value: midi_level(value) })
            } else {
                None
            }
        },
        MidiMessage::Other => None,
    }
}

/// The event that a raw message of a live keyboard stands for: three bytes,
/// of which the upper half of the first tells the kind. Every controller but
/// the sustain pedal is passed on.
pub open spec fn event_of_bytes(msg: Seq<u8>) -> Option<EventKind> {
    if msg.len() != 3 {
        None
    } else if 0x90 <= msg[0] < 0xA0 {
        if msg[2] > 0 {
            Some(EventKind::NoteOn { note: msg[1], velocity: msg[2] })
        } else {
            Some(EventKind::NoteOff { note: msg[1] })
        }
    } else if 0x80 <= msg[0] < 0x90 {
        Some(EventKind::NoteOff { note: msg[1] })
    } else if 0xB0 <= msg[0] < 0xC0 {
        if msg[1] == CC_SUSTAIN {
            Some(EventKind::Sustain { position: spec_midi_level(msg[2]) })
        } else {
            Some(EventKind::Control { controller: msg[1], value: spec_midi_level(msg[2]) })
        }
    } else {
        None
    }
}

/// The event that a raw message of a live keyboard stands for.
pub fn live_event(msg: &[u8]) -> (r: Option<EventKind>)
    ensures
        r == event_of_bytes(msg@),
{
    if msg.len() != 3 {
        return None;
    }
    let status: u8 = msg[0] / 16;
    if status == 9 {
        if msg[2] > 0 {
            Some(EventKind::NoteOn { note: msg[1], velocity: msg[2] })
        } else {
            Some(EventKind::NoteOff { note: msg[1] })
        }
    } else if status == 8 {
        Some(EventKind::NoteOff { note: msg[1] })
    } else if status == 11 {
        if msg[1] == CC_SUSTAIN {
            Some(EventKind::Sustain { position: midi_level(msg[2]) })
        } else {
            Some(EventKind::Control { controller: msg[1], value: midi_level(msg[2]) })
        }
    } else {
        None
    }
}

/// The sort keys of a timeline: times in the total order.
pub open spec fn time_keys(events: Seq<Event>) -> Seq<u64> {
    events.map_values(|e: Event| (e.time.total_order() + crate::number::DOUBLE_SIGN) as u64)
}

/// The timeline in time order, events at one time in the order given.
pub open spec fn in_time_order(events: Seq<Event>) -> Seq<Event> {
    arrange(events, stable_order_of(time_keys(events)))
}

/// Sorts a timeline by time, keeping the order of events at one time.
pub fn sort_events(events: &[Event]) -> (out: Vec<Event>)
    ensures
        out@ == in_time_order(events@),
        out@.len() == events@.len(),
{
    let mut keys: Vec<u64> = Vec::with_capacity(events.len());
    let mut i: usize = 0;
    while i < events.len()
        invariant
            i <= events@.len(),
            keys@.len() == i,
            forall|k: int| 0 <= k < i ==> keys@[k] == time_keys(events@)[k],
        decreases events@.len() - i,
    {
        keys.push(events[i].time.rank());
        i += 1;
    }
    assert(keys@ =~= time_keys(events@));
    let perm = stable_order(keys.as_slice());
    let mut out: Vec<Event> = Vec::with_capacity(perm.len());
    let mut j: usize = 0;
    while j < perm.len()
        invariant
            j <= perm@.len(),
            perm@.len() == events@.len(),
            forall|k: int| 0 <= k < perm@.len() ==> (#[trigger] perm@[k]) < events@.len(),
            out@.len() == j,
            forall|k: int| 0 <= k < j ==> out@[k] == events@[perm@[k] as int],
        decreases perm@.len() - j,
    {
        out.push(events[perm[j]]);
        j += 1;
    }
    assert(out@ =~= in_time_order(events@));
    out
}

/// Every event of a timeline is in the sorted one, and nothing else is; times
/// never go back.
pub proof fn sorting_keeps_events(events: Seq<Event>)
    requires
        events.len() <= usize::MAX,
    ensures
        in_time_order(events).len() == events.len(),
        forall|e: Event| in_time_order(events).contains(e) <==> events.contains(e),
        forall|i: int, j: int|
            0 <= i < j < events.len() ==> (#[trigger] in_time_order(events)[i]).time.total_order()
                <= (#[trigger] in_time_order(events)[j]).time.total_order(),
{
    let keys = time_keys(events);
    let perm = stable_order_of(keys);
    let out = in_time_order(events);
    crate::order::stable_order_exists(keys);
    crate::order::stable_order_is_complete(keys, perm);
    assert forall|e: Event| out.contains(e) <==> events.contains(e) by {
        if events.contains(e) {
            let k = choose|k: int| 0 <= k < events.len() && events[k] == e;
            assert(perm.contains(k as usize));
            let i = choose|i: int| 0 <= i < perm.len() && perm[i] == k as usize;
            assert(out[i] == e);
        }
        if out.contains(e) {
            let i = choose|i: int| 0 <= i < out.len() && out[i] == e;
            assert(events[perm[i] as int] == e);
        }
    }
    assert forall|i: int, j: int| 0 <= i < j < events.len() implies (#[trigger] out[i]).time.total_order()
        <= (#[trigger] out[j]).time.total_order() by {
        assert(crate::order::precedes(keys, perm[i] as int, perm[j] as int));
        assert(keys[perm[i] as int] <= keys[perm[j] as int]);
    }
}

/// Sorting a timeline keeps every event as often as it was there.
pub proof fn sorting_keeps_multiplicity(events: Seq<Event>)
    requires
        events.len() <= usize::MAX,
    ensures
        in_time_order(events).to_multiset() == events.to_multiset(),
{
    crate::order::stable_order_sorts(events, time_keys(events));
}

/// What a raw message of a live keyboard says, on any of the sixteen channels:
/// a note-on strikes, one with velocity 0 lets go as a note-off does, the
/// sustain pedal and every other controller are passed on by their level, and
/// anything that is not three bytes of one of these says nothing.
pub proof fn live_messages_mean(channel: u8, a: u8, b: u8)
    requires
        channel < 16,
    ensures
        b > 0 ==> event_of_bytes(seq![(0x90 + channel) as u8, a, b]) == Some(
            EventKind::NoteOn { note: a, velocity: b },
        ),
        event_of_bytes(seq![(0x90 + channel) as u8, a, 0]) == event_of_bytes(
            seq![(0x80 + channel) as u8, a, b],
        ),
        event_of_bytes(seq![(0x80 + channel) as u8, a, b]) == Some(EventKind::NoteOff { note: a }),
        a == 64 ==> event_of_bytes(seq![(0xB0 + channel) as u8, a, b]) == Some(
            EventKind::Sustain { position: spec_midi_level(b) },
        ),
        a != 64 ==> event_of_bytes(seq![(0xB0 + channel) as u8, a, b]) == Some(
            EventKind::Control { controller: a, value: spec_midi_level(b) },
        ),
        event_of_bytes(seq![(0xA0 + channel) as u8, a, b]) is None,
        event_of_bytes(seq![(0xC0 + channel) as u8, a, b]) is None,
        event_of_bytes(seq![(0xD0 + channel) as u8, a, b]) is None,
        event_of_bytes(seq![(0xE0 + channel) as u8, a, b]) is None,
        event_of_bytes(seq![(0xF0 + channel) as u8, a, b]) is None,
{
}

/// A message of any other length, or one that begins with a data byte, says
/// nothing.
pub proof fn other_messages_say_nothing(msg: Seq<u8>)
    requires
        msg.len() != 3 || msg[0] < 0x80,
    ensures
        event_of_bytes(msg) is None,
{
}

/// A file and a live keyboard mean the same by the same message: notes and the
/// two pedals alike, on every channel. Only the other controllers, which a file
/// may carry and no timeline keeps, differ.
pub proof fn files_and_keyboards_agree(channel: u8, key: u8, value: u8)
    requires
        channel < 16,
    ensures
        event_of_message(MidiMessage::NoteOn { key, vel: value }) == event_of_bytes(
            seq![(0x90 + channel) as u8, key, value],
        ),
        event_of_message(MidiMessage::NoteOff { key }) == event_of_bytes(
            seq![(0x80 + channel) as u8, key, value],
        ),
        key == 64 || key == 67 ==> event_of_message(MidiMessage::Controller { controller: key, value })
            == event_of_bytes(seq![(0xB0 + channel) as u8, key, value]),
        key != 64 && key != 67 ==> event_of_message(
            MidiMessage::Controller { controller: key, value },
        ) is None,
        event_of_message(MidiMessage::Other) is None,
{
}

/// Events at one time stay in the order in which they were given: of two of them
/// the one that comes first after sorting came first before.
pub proof fn sorting_is_stable(events: Seq<Event>, i: int, j: int) -> (places: (int, int))
    requires
        events.len() <= usize::MAX,
        0 <= i < j < events.len(),
    ensures
        0 <= places.0 < events.len(),
        0 <= places.1 < events.len(),
        in_time_order(events)[i] == events[places.0],
        in_time_order(events)[j] == events[places.1],
        events[places.0].time.total_order() < events[places.1].time.total_order() || (
        events[places.0].time.total_order() == events[places.1].time.total_order() && places.0 < places.1),
{
    let keys = time_keys(events);
    let perm = stable_order_of(keys);
    crate::order::stable_order_exists(keys);
    assert(crate::order::precedes(keys, perm[i] as int, perm[j] as int));
    assert(keys[perm[i] as int] == events[perm[i] as int].time.total_order() + crate::number::DOUBLE_SIGN);
    assert(keys[perm[j] as int] == events[perm[j] as int].time.total_order() + crate::number::DOUBLE_SIGN);
    (perm[i] as int, perm[j] as int)
}

} // verus!
