use piano::arith::{Arith, Op};
use piano::baseline::BaselineSynth;
use piano::events::{Event, EventKind, MidiMessage, live_event, midi_level, midi_message_to_event, sort_events};
use piano::midi::{MidiError, load_midi};
use piano::modal::ModalSynth;
use piano::number::{Double, Single};
use piano::performance::{auto_pedal, bench_events, legato, note_events, sympathetic_events};
use piano::render::{frame_count, render_events, render_schedule};
use piano::synth::Synth;
use piano::wide::{Wide, WideOp};

fn bits(x: f32) -> Single {
    Single { bits: x.to_bits() }
}

fn value(x: Single) -> f32 {
    f32::from_bits(x.bits)
}

fn eval(op: Op) -> Single {
    bits(match op {
        Op::Whole { n } => n as f32,
        Op::Sum { a, b } => value(a) + value(b),
        Op::Difference { a, b } => value(a) - value(b),
        Op::Product { a, b } => value(a) * value(b),
        Op::Quotient { a, b } => value(a) / value(b),
        Op::Root { a } => value(a).sqrt(),
        Op::Sine { a } => value(a).sin(),
        Op::Cosine { a } => value(a).cos(),
        Op::Tanh { a } => value(a).tanh(),
        Op::Exp { a } => value(a).exp(),
        Op::ExpLess { a } => value(a).exp_m1(),
        Op::Ln { a } => value(a).ln(),
        Op::Log { a } => value(a).log10(),
        Op::Power { a, b } => value(a).powf(value(b)),
        Op::WholePower { a, exponent } => value(a).powi(exponent),
        Op::Angle { y, x } => value(y).atan2(value(x)),
        Op::Fraction { a } => value(a).fract(),
    })
}

fn arith() -> Arith<impl Fn(Op) -> Single> {
    Arith::new(eval)
}

fn wide_bits(x: f64) -> Double {
    Double { bits: x.to_bits() }
}

fn wide_value(x: Double) -> f64 {
    f64::from_bits(x.bits)
}

fn wide_eval(op: WideOp) -> Double {
    wide_bits(match op {
        WideOp::Whole { n } => n as f64,
        WideOp::Widen { a } => f32::from_bits(a.bits) as f64,
        WideOp::Sum { x, y } => wide_value(x) + wide_value(y),
        WideOp::Difference { x, y } => wide_value(x) - wide_value(y),
        WideOp::Product { x, y } => wide_value(x) * wide_value(y),
        WideOp::Quotient { x, y } => wide_value(x) / wide_value(y),
    })
}

fn wide() -> Wide<impl Fn(WideOp) -> Double> {
    Wide::new(wide_eval)
}

fn on(time: f64, note: u8, velocity: u8) -> Event {
    Event { time: wide_bits(time), kind: EventKind::NoteOn { note, velocity } }
}

fn off(time: f64, note: u8) -> Event {
    Event { time: wide_bits(time), kind: EventKind::NoteOff { note } }
}

fn pedal(time: f64, position: f32) -> Event {
    Event { time: wide_bits(time), kind: EventKind::Sustain { position: bits(position) } }
}

#[test]
fn levels_are_shares_of_127() {
    for v in 0..=255u8 {
        assert_eq!(midi_level(v), bits(v as f32 / 127.0));
    }
}

#[test]
fn channel_messages_become_events() {
    assert_eq!(
        midi_message_to_event(MidiMessage::NoteOn { key: 60, vel: 90 }),
        Some(EventKind::NoteOn { note: 60, velocity: 90 })
    );
    assert_eq!(
        midi_message_to_event(MidiMessage::NoteOn { key: 60, vel: 0 }),
        Some(EventKind::NoteOff { note: 60 })
    );
    assert_eq!(midi_message_to_event(MidiMessage::NoteOff { key: 61 }), Some(EventKind::NoteOff { note: 61 }));
    assert_eq!(
        midi_message_to_event(MidiMessage::Controller { controller: 64, value: 127 }),
        Some(EventKind::Sustain { position: bits(1.0) })
    );
    assert_eq!(
        midi_message_to_event(MidiMessage::Controller { controller: 67, value: 0 }),
        Some(EventKind::Control { controller: 67, value: bits(0.0) })
    );
    assert_eq!(midi_message_to_event(MidiMessage::Controller { controller: 1, value: 5 }), None);
    assert_eq!(midi_message_to_event(MidiMessage::Other), None);
}

#[test]
fn live_bytes_become_events() {
    assert_eq!(live_event(&[0x93, 60, 100]), Some(EventKind::NoteOn { note: 60, velocity: 100 }));
    assert_eq!(live_event(&[0x90, 60, 0]), Some(EventKind::NoteOff { note: 60 }));
    assert_eq!(live_event(&[0x8F, 60, 64]), Some(EventKind::NoteOff { note: 60 }));
    assert_eq!(live_event(&[0xB0, 64, 127]), Some(EventKind::Sustain { position: bits(1.0) }));
    assert_eq!(
        live_event(&[0xB5, 1, 64]),
        Some(EventKind::Control { controller: 1, value: bits(64.0 / 127.0) })
    );
    assert_eq!(live_event(&[0xC0, 1, 2]), None);
    assert_eq!(live_event(&[0x90, 60]), None);
    assert_eq!(live_event(&[]), None);
}

#[test]
fn events_sort_by_time_and_stay_in_order() {
    let events = [on(2.0, 1, 1), on(0.5, 2, 1), off(2.0, 3), on(-1.0, 4, 1), off(0.5, 5)];
    let sorted = sort_events(&events);
    assert_eq!(sorted, vec![events[3], events[1], events[4], events[0], events[2]]);
}

fn chunk(id: &[u8], data: &[u8]) -> Vec<u8> {
    let mut out = id.to_vec();
    out.extend_from_slice(&(data.len() as u32).to_be_bytes());
    out.extend_from_slice(data);
    out
}

fn file(timing: [u8; 2], tracks: &[&[u8]]) -> Vec<u8> {
    let mut header = vec![0, 1, 0, tracks.len() as u8];
    header.extend_from_slice(&timing);
    let mut out = chunk(b"MThd", &header);
    for t in tracks {
        out.extend(chunk(b"MTrk", t));
    }
    out
}

#[test]
fn files_are_merged_and_tempo_changes_honored() {
    let tempo: &[u8] = &[
        0x60, 0xFF, 0x51, 0x03, 0x03, 0xD0, 0x90, // after 96 ticks: 250000
        0x00, 0xFF, 0x2F, 0x00,
    ];
    let notes: &[u8] = &[
        0x00, 0x90, 60, 100, // tick 0
        0x30, 0x80, 60, 0, // tick 48
        0x60, 0xB0, 64, 127, // tick 144
        0x00, 0xC0, 5, // ignored
        0x60, 0x90, 60, 0, // tick 240
        0x00, 0xFF, 0x2F, 0x00,
    ];
    let more: &[u8] = &[0x30, 0x91, 72, 50, 0x00, 0xFF, 0x2F, 0x00];
    let events = load_midi(&wide(), &file([0, 96], &[tempo, notes, more])).unwrap();
    let expected = vec![
        on(0.0, 60, 100),
        off(48.0 / 96.0 * 500000.0 / 1e6, 60),
        on(48.0 / 96.0 * 500000.0 / 1e6, 72, 50),
        pedal(0.5 + 48.0 / 96.0 * 250000.0 / 1e6, 1.0),
        off(0.5 + 144.0 / 96.0 * 250000.0 / 1e6, 60),
    ];
    assert_eq!(events, expected);
    assert_eq!(wide_value(events[4].time), 0.875);
}

#[test]
fn timecode_files_have_absolute_time() {
    let early: &[u8] = &[0x64, 0x90, 60, 100, 0x00, 0xFF, 0x2F, 0x00];
    let late: &[u8] = &[0x0A, 0x90, 61, 100, 0x5A, 0x80, 61, 0, 0x00, 0xFF, 0x2F, 0x00];
    for (code, rate) in [(24u8, 24.0f32), (25, 25.0), (29, 30.0 / 1.001), (30, 30.0)] {
        let bytes = file([(code as i8).wrapping_neg() as u8, 4], &[early, late]);
        let events = load_midi(&wide(), &bytes).unwrap();
        let ticks_per_sec = rate as f64 * 4.0;
        let expected = vec![on(10.0 / ticks_per_sec, 61, 100), on(100.0 / ticks_per_sec, 60, 100), off(100.0 / ticks_per_sec, 61)];
        assert_eq!(events, expected);
    }
}

#[test]
fn broken_files_are_refused() {
    assert!(matches!(load_midi(&wide(), b"not a file"), Err(MidiError::Parse { .. })));
    assert!(matches!(load_midi(&wide(), &[]), Err(MidiError::Parse { .. })));
    let unknown_rate = file([0x90, 4], &[]);
    assert!(matches!(load_midi(&wide(), &unknown_rate), Err(MidiError::Parse { .. })));
}

#[test]
fn a_frame_rate_without_negative_is_refused() {
    let bytes = file([0x80, 4], &[]);
    assert!(matches!(load_midi(&wide(), &bytes), Err(MidiError::FrameRate)));
}

#[test]
fn header_bytes_inside_a_track_do_no_harm() {
    let track: &[u8] = &[
        0x00, 0xFF, 0x01, 0x0E, b'M', b'T', b'h', b'd', 0, 0, 0, 6, 0, 1, 0, 1, 0x80, 4, // a text event
        0x00, 0x90, 60, 100, 0x00, 0xFF, 0x2F, 0x00,
    ];
    let events = load_midi(&wide(), &file([0, 96], &[track])).unwrap();
    assert_eq!(events, vec![on(0.0, 60, 100)]);
}

#[test]
fn wrapped_files_are_read() {
    let track: &[u8] = &[0x00, 0x90, 60, 100, 0x00, 0xFF, 0x2F, 0x00];
    let inner = file([0, 96], &[track]);
    let mut bytes = b"RIFF".to_vec();
    bytes.extend_from_slice(&((inner.len() + 12) as u32).to_le_bytes());
    bytes.extend_from_slice(b"RMIDdata");
    bytes.extend_from_slice(&(inner.len() as u32).to_le_bytes());
    bytes.extend(inner);
    assert_eq!(load_midi(&wide(), &bytes).unwrap(), vec![on(0.0, 60, 100)]);
}

#[test]
fn bass_notes_are_repedaled() {
    let events = [on(0.01, 40, 90), off(1.0, 40), on(1.0, 48, 90), on(2.0, 47, 90)];
    let out = auto_pedal(&wide(), &events);
    let expected = vec![
        pedal((0.01f64 - 0.02).max(0.0), 0.0),
        events[0],
        pedal(0.01 + 0.02, 1.0),
        events[1],
        events[2],
        pedal(2.0 - 0.02, 0.0),
        events[3],
        pedal(2.0 + 0.02, 1.0),
    ];
    assert_eq!(out, expected);
}

#[test]
fn pedaled_timelines_are_left_alone() {
    let events = [on(0.0, 40, 90), pedal(0.5, 1.0), off(0.2, 40)];
    assert_eq!(auto_pedal(&wide(), &events), events.to_vec());
}

#[test]
fn legato_extends_releases_but_not_past_a_strike() {
    let events = [on(0.0, 60, 90), off(1.0, 60), on(1.05, 60, 90), off(2.0, 60), on(1.0, 61, 90), off(1.02, 61)];
    let out = legato(&wide(), &events);
    let expected = vec![
        on(0.0, 60, 90),
        on(1.0, 61, 90),
        off(1.05 - 0.01, 60),
        on(1.05, 60, 90),
        off(1.02 + 0.07, 61),
        off(2.0 + 0.07, 60),
    ];
    assert_eq!(out, expected);
}

#[test]
fn the_benchmark_plays_a_dense_load() {
    let mut events = vec![pedal(0.0, 1.0)];
    for step in 0..120 {
        let t = step as f64 * 0.25;
        for v in 0..16 {
            let note = 21 + ((step * 16 + v) * 7) % 88;
            events.push(on(t, note as u8, 100));
            events.push(off(t + 0.2, note as u8));
        }
    }
    events.sort_by(|a, b| wide_value(a.time).total_cmp(&wide_value(b.time)));
    assert_eq!(bench_events(&wide()), events);
}

#[test]
fn demonstrations_have_their_events() {
    assert_eq!(note_events(60, 96, wide_bits(8.0)), vec![on(0.0, 60, 96), off(8.0, 60)]);
    assert_eq!(sympathetic_events(), vec![on(0.0, 48, 1), on(0.5, 36, 112), off(0.8, 36), off(6.0, 48)]);
}

fn model_render(synth: &mut impl Synth<Single>, events: &[Event], sample_rate: f32, tail: f64) -> Vec<Single> {
    let end_time = events.last().map(|e| wide_value(e.time)).unwrap_or(0.0) + tail;
    let total = (end_time * sample_rate as f64).ceil() as usize;
    let mut out = Vec::new();
    let mut left = [bits(0.0); 256];
    let mut right = [bits(0.0); 256];
    let mut index = 0;
    let mut cursor: usize = 0;
    while cursor < total {
        while index < events.len() {
            let at = (wide_value(events[index].time) * sample_rate as f64) as usize;
            if at > cursor {
                break;
            }
            match events[index].kind {
                EventKind::NoteOn { note, velocity } => synth.note_on(note, velocity),
                EventKind::NoteOff { note } => synth.note_off(note),
                EventKind::Sustain { position } => synth.set_sustain(position),
                EventKind::Control { controller, value } => synth.set_control(controller, value),
            }
            index += 1;
        }
        let boundary = if index < events.len() {
            ((wide_value(events[index].time) * sample_rate as f64) as usize).min(total)
        } else {
            total
        };
        let n = (boundary - cursor).clamp(1, 256);
        synth.process(&mut left[..n], &mut right[..n]);
        for i in 0..n {
            out.push(left[i]);
            out.push(right[i]);
        }
        cursor += n;
    }
    out
}

#[test]
fn renderings_follow_the_timeline() {
    let events = [
        on(0.0, 60, 100),
        on(0.0, 64, 80),
        pedal(0.011, 1.0),
        off(0.05, 60),
        on(0.05003, 67, 90),
        off(0.12, 64),
        pedal(0.2, 0.0),
    ];
    let mut a = ModalSynth::new(arith(), bits(8000.0));
    let mut b = ModalSynth::new(arith(), bits(8000.0));
    let out = render_events(&mut a, &wide(), &events, bits(8000.0), wide_bits(0.3));
    assert_eq!(out.len(), 2 * 4000);
    assert_eq!(out, model_render(&mut b, &events, 8000.0, 0.3));
}

#[test]
fn an_empty_timeline_renders_its_tail() {
    let mut synth = BaselineSynth::new(arith(), bits(1000.0));
    let out = render_events(&mut synth, &wide(), &[], bits(1000.0), wide_bits(0.0005));
    assert_eq!(out, vec![bits(0.0); 2]);
    assert_eq!(frame_count(&wide(), &[], bits(1000.0), wide_bits(0.0)), 0);
    assert_eq!(frame_count(&wide(), &[off(1.0, 60)], bits(44100.0), wide_bits(4.0)), 220500);
}

#[test]
fn events_start_on_their_sample() {
    let events = [on(0.0, 69, 127)];
    for start in [0usize, 1, 255, 256, 300] {
        let mut synth = BaselineSynth::new(arith(), bits(44100.0));
        let out = render_schedule(&mut synth, &events, &[start], 600, bits(0.0));
        assert_eq!(out.len(), 1200);
        let first = out.iter().position(|x| x.bits & 0x7FFF_FFFF != 0).unwrap();
        assert_eq!(first / 2, start + 1);
    }
}

fn container(chunks: &[(&[u8], &[u8])]) -> Vec<u8> {
    let mut body = b"RMID".to_vec();
    for (id, data) in chunks {
        body.extend_from_slice(id);
        body.extend_from_slice(&(data.len() as u32).to_le_bytes());
        body.extend_from_slice(data);
        if data.len() % 2 == 1 {
            body.push(0);
        }
    }
    let mut out = b"RIFF".to_vec();
    out.extend_from_slice(&(body.len() as u32).to_le_bytes());
    out.extend(body);
    out
}

#[test]
fn only_a_first_header_is_refused() {
    let track: &[u8] = &[0x00, 0x90, 60, 100, 0x00, 0xFF, 0x2F, 0x00];
    let good = file([0, 96], &[track]);
    let bad = chunk(b"MThd", &[0, 1, 0, 1, 0x80, 4]);
    let refused = |bytes: &[u8]| matches!(load_midi(&wide(), bytes), Err(MidiError::FrameRate));
    let notes = vec![on(0.0, 60, 100)];

    let mut second = good.clone();
    second.extend_from_slice(&bad);
    second.extend(chunk(b"MTrk", &[0x00, 0x90, 61, 100]));
    assert_eq!(load_midi(&wide(), &second).unwrap(), notes);
    assert_eq!(load_midi(&wide(), &container(&[(b"odd ", &[1]), (b"data", &second)])).unwrap(), notes);

    let mut unread = good.clone();
    unread.extend(chunk(b"MThd", &[0, 7, 0, 1, 0, 96]));
    unread.extend_from_slice(&bad);
    assert_eq!(load_midi(&wide(), &unread).unwrap(), notes);

    let mut short = good.clone();
    short.extend(chunk(b"MThd", &[0, 1, 0, 1]));
    short.extend_from_slice(&bad);
    assert_eq!(load_midi(&wide(), &short).unwrap(), notes);

    let mut inside = good.clone();
    inside.extend(chunk(b"XXXX", &bad));
    assert_eq!(load_midi(&wide(), &inside).unwrap(), notes);

    assert!(refused(&container(&[(b"data", &bad)])));
    assert!(refused(&container(&[(b"odd ", &[1, 2, 3]), (b"data", &bad)])));
    assert_eq!(load_midi(&wide(), &container(&[(b"note", &bad), (b"data", &good)])).unwrap(), notes);
    assert_eq!(load_midi(&wide(), &container(&[(b"odd ", &bad[..13]), (b"data", &good)])).unwrap(), notes);
    let mut headless = chunk(b"MTrk", track);
    headless.extend_from_slice(&bad);
    assert!(matches!(load_midi(&wide(), &container(&[(b"data", &headless)])), Err(MidiError::Parse { .. })));
    assert!(matches!(load_midi(&wide(), &container(&[(b"none", &good)])), Err(MidiError::Parse { .. })));
}

#[test]
fn loaded_files_are_sorted_by_time() {
    let tempi: &[u8] = &[
        0x07, 0xFF, 0x51, 0x03, 0x00, 0x00, 0x01, 0x05, 0xFF, 0x51, 0x03, 0xFF, 0xFF, 0xFF, 0x00, 0xFF, 0x51, 0x03, 0x00, 0x00, 0x00,
        0x09, 0xFF, 0x51, 0x03, 0x07, 0xA1, 0x20, 0x00, 0xFF, 0x2F, 0x00,
    ];
    let mut notes: Vec<u8> = Vec::new();
    for i in 0..60u8 {
        notes.extend([i % 3, 0x90, 30 + i, 64]);
    }
    for timing in [[0, 1], [0, 97], [0x7F, 0xFF], [0xE8, 1], [0xE3, 200]] {
        let events = load_midi(&wide(), &file(timing, &[tempi, &notes, &notes[4..]])).unwrap();
        assert_eq!(events.len(), 119);
        assert!(wide_value(events[0].time) >= 0.0);
        assert!(events.windows(2).all(|p| wide_value(p[0].time) <= wide_value(p[1].time)));
    }
}
