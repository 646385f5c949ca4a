use piano::arith::{Arith, Op};
use piano::calibration::{Bracket, Calibration, RawCalibration, RawNote, bracket};
use piano::number::Single;

fn bits(x: f32) -> Single {
    Single { bits: x.to_bits() }
}

fn value(x: Single) -> f32 {
    f32::from_bits(x.bits)
}

fn eval(op: Op) -> Single {
    bits(match op {
        Op::Whole { n } => n as f32,
        Op::Sum { a, b } => value(a) + value(b),
        Op::Difference { a, b } => value(a) - value(b),
        Op::Product { a, b } => value(a) * value(b),
        Op::Quotient { a, b } => value(a) / value(b),
        Op::Root { a } => value(a).sqrt(),
        Op::Sine { a } => value(a).sin(),
        Op::Cosine { a } => value(a).cos(),
        Op::Tanh { a } => value(a).tanh(),
        Op::Exp { a } => value(a).exp(),
        Op::ExpLess { a } => value(a).exp_m1(),
        Op::Ln { a } => value(a).ln(),
        Op::Log { a } => value(a).log10(),
        Op::Power { a, b } => value(a).powf(value(b)),
        Op::WholePower { a, exponent } => value(a).powi(exponent),
        Op::Angle { y, x } => value(y).atan2(value(x)),
        Op::Fraction { a } => value(a).fract(),
    })
}

fn arith() -> Arith<impl Fn(Op) -> Single> {
    Arith::new(eval)
}

fn note(note: u8, velocity: u8, x: f32) -> RawNote {
    let list = |scale: f32| (0..150).map(|i| bits(x * scale + i as f32)).collect::<Vec<_>>();
    RawNote {
        note,
        velocity,
        f0_cents: bits(x),
        b: bits(1.0e-4 * (1.0 + x)),
        bed_db: bits(x + 1.0),
        bed_centroid_hz: bits(x + 2.0),
        loudness_db: bits(x + 3.0),
        attack_ms: bits(x + 4.0),
        amps_db: list(1.0),
        decays_fast_db_s: list(2.0),
        decays_slow_db_s: list(3.0),
        slow_split: list(4.0),
    }
}

fn raw() -> RawCalibration {
    RawCalibration {
        version: 9,
        layers: vec![
            vec![note(72, 100, 7.0), note(60, 100, 6.0)],
            vec![note(60, 50, 1.0), note(72, 50, 2.0), note(48, 50, 0.5)],
        ],
    }
}

fn mix(x: f32, y: f32, w: f32) -> f32 {
    x + w * (y - x)
}

#[test]
fn values_lie_between_neighbors() {
    let keys = [10u8, 20, 20, 40];
    assert_eq!(bracket(&keys, 0), Bracket::At { index: 0 });
    assert_eq!(bracket(&keys, 10), Bracket::At { index: 0 });
    assert_eq!(bracket(&keys, 13), Bracket::Between { low: 0, part: 3, whole: 10 });
    assert_eq!(bracket(&keys, 20), Bracket::Between { low: 0, part: 10, whole: 10 });
    assert_eq!(bracket(&keys, 25), Bracket::Between { low: 2, part: 5, whole: 20 });
    assert_eq!(bracket(&keys, 41), Bracket::At { index: 3 });
    assert_eq!(bracket(&[7], 9), Bracket::At { index: 0 });
}

#[test]
fn lookups_clamp_at_the_ends() {
    let cal = Calibration::parse(&raw());
    let k = arith();
    let low = cal.lookup(&k, 21, 1);
    assert_eq!(value(low.f0_cents), 0.5);
    assert_eq!(value(low.amps_db[10]), 10.5);
    let high = cal.lookup(&k, 108, 127);
    assert_eq!(value(high.f0_cents), 7.0);
    assert_eq!(value(high.slow_split[149]), 28.0 + 149.0);
}

#[test]
fn lookups_interpolate_across_notes_and_velocities() {
    let cal = Calibration::parse(&raw());
    let k = arith();
    let p = cal.lookup(&k, 63, 75);
    let w = 3.0f32 / 12.0;
    let v = 25.0f32 / 50.0;
    assert_eq!(value(p.f0_cents), mix(mix(1.0, 2.0, w), mix(6.0, 7.0, w), v));
    assert_eq!(value(p.bed_db), mix(mix(2.0, 3.0, w), mix(7.0, 8.0, w), v));
    let b = |x: f32| 1.0e-4f32 * (1.0 + x);
    let lo = mix(b(1.0).ln(), b(2.0).ln(), w).exp();
    let hi = mix(b(6.0).ln(), b(7.0).ln(), w).exp();
    assert_eq!(value(p.b), mix(lo.ln(), hi.ln(), v).exp());
    for i in 0..150 {
        let f = i as f32;
        assert_eq!(
            value(p.decays_fast[i]),
            mix(mix(2.0 + f, 4.0 + f, w), mix(12.0 + f, 14.0 + f, w), v)
        );
        assert_eq!(
            value(p.decays_slow[i]),
            mix(mix(3.0 + f, 6.0 + f, w), mix(18.0 + f, 21.0 + f, w), v)
        );
    }
    assert_eq!(value(p.attack_ms), mix(mix(5.0, 6.0, w), mix(10.0, 11.0, w), v));
    assert_eq!(value(p.loudness_db), mix(mix(4.0, 5.0, w), mix(9.0, 10.0, w), v));
    assert_eq!(value(p.bed_centroid_hz), mix(mix(3.0, 4.0, w), mix(8.0, 9.0, w), v));
}

#[test]
fn unusable_measurements_are_told_apart() {
    assert!(raw().is_usable());
    assert!(!RawCalibration { version: 8, ..raw() }.is_usable());
    let mut empty = raw();
    empty.layers.push(Vec::new());
    assert!(!empty.is_usable());
    for field in 0..4 {
        let mut short = raw();
        let n = &mut short.layers[1][2];
        match field {
            0 => n.amps_db.truncate(149),
            1 => n.decays_fast_db_s.truncate(149),
            2 => n.decays_slow_db_s.truncate(149),
            _ => n.slow_split.truncate(149),
        }
        assert!(!short.is_usable());
    }
    let mut long = raw();
    long.layers[0][0].amps_db.push(bits(1.0));
    assert!(long.is_usable());
}

#[test]
fn each_axis_clamps_alone() {
    let cal = Calibration::parse(&raw());
    let k = arith();
    for note in [48u8, 55, 60, 66, 72] {
        assert_eq!(cal.lookup(&k, note, 1).f0_cents, cal.lookup(&k, note, 50).f0_cents);
        assert_eq!(cal.lookup(&k, note, 127).f0_cents, cal.lookup(&k, note, 101).f0_cents);
    }
    for velocity in [50u8, 60, 75, 100] {
        assert_eq!(cal.lookup(&k, 21, velocity).bed_db, cal.lookup(&k, 48, velocity).bed_db);
        assert_eq!(cal.lookup(&k, 108, velocity).bed_db, cal.lookup(&k, 73, velocity).bed_db);
    }
}
