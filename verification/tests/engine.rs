use piano::arith::{Arith, Op};
use piano::calibration::{Calibration, RawCalibration, RawNote};
use piano::comp::{CompParams, Compressor};
use piano::engine::{Engine, StageKind, shipped_stages};
use piano::eq::{EqParams, MasterEq};
use piano::instrument::{Instrument, create_synth, synth_names};
use piano::knobs::{Knobs, shipped_knobs};
use piano::modal2::ModalV2;
use piano::number::Single;
use piano::reverb::Reverb;
use piano::synth::Synth;

fn bits(x: f32) -> Single {
    Single { bits: x.to_bits() }
}

fn value(x: Single) -> f32 {
    f32::from_bits(x.bits)
}

fn eval(op: Op) -> Single {
    bits(match op {
        Op::Whole { n } => n as f32,
        Op::Sum { a, b } => value(a) + value(b),
        Op::Difference { a, b } => value(a) - value(b),
        Op::Product { a, b } => value(a) * value(b),
        Op::Quotient { a, b } => value(a) / value(b),
        Op::Root { a } => value(a).sqrt(),
        Op::Sine { a } => value(a).sin(),
        Op::Cosine { a } => value(a).cos(),
        Op::Tanh { a } => value(a).tanh(),
        Op::Exp { a } => value(a).exp(),
        Op::ExpLess { a } => value(a).exp_m1(),
        Op::Ln { a } => value(a).ln(),
        Op::Log { a } => value(a).log10(),
        Op::Power { a, b } => value(a).powf(value(b)),
        Op::WholePower { a, exponent } => value(a).powi(exponent),
        Op::Angle { y, x } => value(y).atan2(value(x)),
        Op::Fraction { a } => value(a).fract(),
    })
}

fn arith() -> Arith<impl Fn(Op) -> Single> {
    Arith::new(eval)
}

fn calibration() -> Calibration {
    let list = |scale: f32, tilt: f32| (0..150).map(|i| bits(scale + tilt * i as f32)).collect::<Vec<_>>();
    let note = |note: u8| RawNote {
        note,
        velocity: 92,
        f0_cents: bits(0.0),
        b: bits(3.0e-4),
        bed_db: bits(-30.0),
        bed_centroid_hz: bits(800.0),
        loudness_db: bits(0.0),
        attack_ms: bits(10.0),
        amps_db: list(0.0, -1.0),
        decays_fast_db_s: list(10.0, 1.0),
        decays_slow_db_s: list(3.0, 0.5),
        slow_split: list(0.2, 0.0),
    };
    Calibration::parse(&RawCalibration { version: 9, layers: vec![vec![note(21), note(108)]] })
}

fn engine() -> Engine<impl Fn(Op) -> Single> {
    Engine::new(arith(), bits(8000.0), calibration(), shipped_knobs())
}

fn play(e: &mut Engine<impl Fn(Op) -> Single>, n: usize) -> (Vec<Single>, Vec<Single>) {
    e.render(n);
    (e.left()[..n].to_vec(), e.right()[..n].to_vec())
}

#[test]
fn the_engine_runs_the_chain() {
    let k = arith();
    let sr = bits(8000.0);
    let mut synth = ModalV2::new(arith(), sr, calibration(), shipped_knobs());
    let p = shipped_stages();
    let mut eq = MasterEq::with_params(&k, sr, p.eq);
    let mut room = Reverb::new(&k, sr, bits(1.5), bits(0.35));
    let mut comp = Compressor::with_params(&k, sr, p.comp);
    let mut e = engine();
    e.set_sustain(bits(1.0));
    e.set_control(67, bits(1.0));
    e.note_on(60, 100);
    synth.set_sustain(bits(1.0));
    synth.set_control(67, bits(1.0));
    synth.note_on(60, 100);
    for n in [100usize, 300, 7] {
        let mut l = vec![bits(0.0); n];
        let mut r = vec![bits(0.0); n];
        synth.process(&mut l, &mut r);
        eq.process(&k, &mut l, &mut r);
        room.process(&k, &mut l, &mut r);
        comp.process(&k, &mut l, &mut r);
        assert_eq!(play(&mut e, n), (l, r));
        e.note_off(60);
        synth.note_off(60);
    }
}

#[test]
fn stages_can_be_switched_off() {
    let mut synth = ModalV2::new(arith(), bits(8000.0), calibration(), shipped_knobs());
    let mut e = engine();
    e.set_param("EQ_ON", bits(0.0));
    e.set_param("REVERB_ON", bits(0.49));
    e.set_param("COMP_ON", bits(0.0));
    e.note_on(50, 90);
    synth.note_on(50, 90);
    let mut l = vec![bits(0.0); 200];
    let mut r = vec![bits(0.0); 200];
    synth.process(&mut l, &mut r);
    assert_eq!(play(&mut e, 200), (l, r));
}

#[test]
fn buffers_grow_as_needed() {
    let mut e = engine();
    assert_eq!(e.left().len(), 2048);
    e.render(10);
    assert_eq!(e.left().len(), 2048);
    e.render(3000);
    assert_eq!(e.left().len(), 3000);
    assert_eq!(e.right().len(), 3000);
    e.render(5);
    assert_eq!(e.right().len(), 3000);
}

#[test]
fn knobs_belong_to_their_stage() {
    let mut p = shipped_stages();
    for (i, name) in ["EQ_LOW_DB", "EQ_LOW_HZ", "EQ_PEAK_DB", "EQ_PEAK_HZ", "EQ_PEAK_Q", "EQ_HIGH_DB", "EQ_HIGH_HZ"]
        .iter()
        .enumerate()
    {
        assert_eq!(p.set(name, bits(i as f32)), Some(StageKind::Eq));
    }
    for (i, name) in ["COMP_THRESH_DB", "COMP_RATIO", "COMP_ATTACK_MS", "COMP_RELEASE_MS", "COMP_MAKEUP_DB", "COMP_DRIVE"]
        .iter()
        .enumerate()
    {
        assert_eq!(p.set(name, bits(10.0 + i as f32)), Some(StageKind::Comp));
    }
    assert_eq!(p.set("REVERB_RT60", bits(20.0)), Some(StageKind::Room));
    assert_eq!(p.set("REVERB_WET", bits(21.0)), Some(StageKind::Room));
    assert_eq!(p.set("EQ_ON", bits(0.0)), Some(StageKind::Eq));
    assert_eq!(p.set("REVERB_ON", bits(0.0)), Some(StageKind::Room));
    assert_eq!(p.set("COMP_ON", bits(0.0)), Some(StageKind::Comp));
    assert_eq!(p.set("BODY_GAIN", bits(0.0)), None);
    assert_eq!(p.set("EQ_", bits(0.0)), None);
    let EqParams { low_db, low_hz, peak_db, peak_hz, peak_q, high_db, high_hz } = p.eq;
    let eq: Vec<f32> = [low_db, low_hz, peak_db, peak_hz, peak_q, high_db, high_hz].iter().map(|&x| value(x)).collect();
    assert_eq!(eq, vec![0.0, 1.0, 2.0, 3.0, 4.0, 5.0, 6.0]);
    let CompParams { thresh_db, ratio, attack_ms, release_ms, makeup_db, drive, on } = p.comp;
    let comp: Vec<f32> = [thresh_db, ratio, attack_ms, release_ms, makeup_db, drive].iter().map(|&x| value(x)).collect();
    assert_eq!(comp, vec![10.0, 11.0, 12.0, 13.0, 14.0, 15.0]);
    assert_eq!((value(p.rt60), value(p.wet)), (20.0, 21.0));
    assert!(!on && !p.eq_on && !p.reverb_on);
}

#[test]
fn the_shipped_stages_are_as_tuned() {
    let p = shipped_stages();
    let numbers: Vec<f32> = [
        p.eq.low_db, p.eq.low_hz, p.eq.peak_db, p.eq.peak_hz, p.eq.peak_q, p.eq.high_db, p.eq.high_hz, p.rt60, p.wet,
        p.comp.thresh_db, p.comp.ratio, p.comp.attack_ms, p.comp.release_ms, p.comp.makeup_db, p.comp.drive,
    ]
    .iter()
    .map(|&x| value(x))
    .collect();
    assert_eq!(
        numbers,
        vec![-2.0, 300.0, 4.0, 5000.0, 0.8, 6.0, 2500.0, 1.5, 0.35, -22.0, 2.5, 15.0, 160.0, 3.0, 0.12]
    );
    assert!(p.comp.on && p.eq_on && p.reverb_on);
}

#[test]
fn a_stage_knob_rebuilds_its_stage() {
    let k = arith();
    let sr = bits(8000.0);
    let mut e = engine();
    e.set_param("REVERB_ON", bits(0.0));
    e.set_param("COMP_ON", bits(0.0));
    e.note_on(60, 100);
    e.render(50);
    e.set_param("EQ_LOW_DB", bits(9.0));
    let mut synth = ModalV2::new(arith(), sr, calibration(), shipped_knobs());
    synth.note_on(60, 100);
    let mut l = vec![bits(0.0); 50];
    let mut r = vec![bits(0.0); 50];
    synth.process(&mut l, &mut r);
    let mut p = shipped_stages();
    p.set("EQ_LOW_DB", bits(9.0));
    let mut eq = MasterEq::with_params(&k, sr, p.eq);
    synth.process(&mut l, &mut r);
    eq.process(&k, &mut l, &mut r);
    assert_eq!(play(&mut e, 50), (l, r));
}

#[test]
fn other_knobs_go_to_the_instrument() {
    let mut a = engine();
    let mut b = engine();
    b.set_param("NOISE_GAIN", bits(0.0));
    a.note_on(60, 100);
    b.note_on(60, 100);
    assert_ne!(play(&mut a, 100), play(&mut b, 100));
}

#[test]
fn synths_are_created_by_name() {
    let make = |name: &str| create_synth(name, arith(), bits(8000.0), calibration, shipped_knobs());
    assert_eq!(synth_names(), vec!["baseline", "modal-v1", "modal-v2"]);
    assert!(matches!(make("baseline"), Some(Instrument::Baseline { .. })));
    assert!(matches!(make("modal-v1"), Some(Instrument::ModalV1 { .. })));
    assert!(matches!(make("modal-v2"), Some(Instrument::ModalV2 { .. })));
    assert!(make("modal-v3").is_none());
    assert!(make("").is_none());
    for name in synth_names() {
        let mut synth = make(name).unwrap();
        synth.note_on(60, 100);
        let mut l = vec![bits(0.0); 64];
        let mut r = vec![bits(0.0); 64];
        synth.process(&mut l, &mut r);
        assert!(l.iter().any(|x| x.bits & 0x7FFF_FFFF != 0));
        synth.note_off(60);
        synth.set_sustain(bits(1.0));
        synth.set_control(67, bits(1.0));
    }
}

#[test]
fn knobs_go_by_their_settings() {
    let knobs = [
        ("DETUNE_SCALE", "PIANO_DETUNE_SCALE"),
        ("ATTACK_SCALE", "PIANO_ATTACK_SCALE"),
        ("GLIDE_CENTS", "PIANO_GLIDE_CENTS"),
        ("BED_GAIN", "PIANO_BED_GAIN"),
        ("NOISE_GAIN", "PIANO_NOISE_GAIN"),
        ("SPLIT_MAX", "PIANO_SPLIT_MAX"),
        ("FAST_SCALE", "PIANO_FAST_SCALE"),
        ("BANK_DRIVE", "PIANO_BANK_DRIVE"),
        ("BANK_PING", "PIANO_BANK_PING"),
        ("BODY_GAIN", "PIANO_BODY_GAIN"),
    ];
    for (knob, name) in knobs {
        let given = Knobs::from_env(&|asked: &'static str| (asked == name).then_some(bits(0.125)));
        let mut set = shipped_knobs();
        set.set(knob, bits(0.125));
        assert_eq!(given, set);
        assert_ne!(given, shipped_knobs());
    }
    let given = Knobs::from_env(&|asked: &'static str| (asked == "BED_GAIN").then_some(bits(0.125)));
    assert_eq!(given, shipped_knobs());
}

#[test]
fn short_renders_leave_the_rest_of_the_buffers() {
    let mut e = engine();
    e.note_on(60, 100);
    let (left, right) = play(&mut e, 64);
    e.render(16);
    assert_eq!(e.left()[16..64], left[16..]);
    assert_eq!(e.right()[16..64], right[16..]);
    assert_ne!(e.left()[..16], left[..16]);
    assert!(left[16..].iter().any(|x| value(*x) != 0.0));
}

#[test]
fn unknown_names_change_nothing() {
    let mut a = engine();
    let mut b = engine();
    b.set_param("NO_SUCH_KNOB", bits(0.75));
    b.set_param("", bits(0.75));
    b.set_param("EQ_", bits(0.75));
    a.note_on(60, 100);
    b.note_on(60, 100);
    assert_eq!(play(&mut a, 200), play(&mut b, 200));
}
