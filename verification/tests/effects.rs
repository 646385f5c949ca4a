use piano::arith::{Arith, Op};
use piano::comp::{CompParams, Compressor};
use piano::delay::{DelayBank, DelayLine};
use piano::eq::{EqParams, MasterEq};
use piano::master::{Limiter, normalize, peak, present, spread, to_pcm};
use piano::number::Single;
use piano::render::{join_channels, split_channels};
use piano::reverb::Reverb;

fn bits(x: f32) -> Single {
    Single { bits: x.to_bits() }
}

fn value(x: Single) -> f32 {
    f32::from_bits(x.bits)
}

fn eval(op: Op) -> Single {
    bits(match op {
        Op::Whole { n } => n as f32,
        Op::Sum { a, b } => value(a) + value(b),
        Op::Difference { a, b } => value(a) - value(b),
        Op::Product { a, b } => value(a) * value(b),
        Op::Quotient { a, b } => value(a) / value(b),
        Op::Root { a } => value(a).sqrt(),
        Op::Sine { a } => value(a).sin(),
        Op::Cosine { a } => value(a).cos(),
        Op::Tanh { a } => value(a).tanh(),
        Op::Exp { a } => value(a).exp(),
        Op::ExpLess { a } => value(a).exp_m1(),
        Op::Ln { a } => value(a).ln(),
        Op::Log { a } => value(a).log10(),
        Op::Power { a, b } => value(a).powf(value(b)),
        Op::WholePower { a, exponent } => value(a).powi(exponent),
        Op::Angle { y, x } => value(y).atan2(value(x)),
        Op::Fraction { a } => value(a).fract(),
    })
}

fn arith() -> Arith<impl Fn(Op) -> Single> {
    Arith::new(eval)
}

const FDN_LINES: usize = 8;

struct ModelLine {
    buf: Vec<f32>,
    pos: usize,
}

impl ModelLine {
    fn new(len: usize) -> ModelLine {
        ModelLine { buf: vec![0.0; len.max(1)], pos: 0 }
    }

        fn read(&self) -> f32 {
        self.buf[self.pos]
    }

        fn write(&mut self, v: f32) {
        self.buf[self.pos] = v;
        self.pos += 1;
        if self.pos == self.buf.len() {
            self.pos = 0;
        }
    }
}

struct RoomModel {
    predelay_l: ModelLine,
    predelay_r: ModelLine,
    early: Vec<(ModelLine, f32, bool)>,
    fdn: [ModelLine; FDN_LINES],
    fdn_gain: [f32; FDN_LINES],
    damp_state: [f32; FDN_LINES],
    damp_coeff: f32,
    wet: f32,
}

impl RoomModel {
    fn new(sample_rate: f32, rt60: f32, wet: f32) -> RoomModel {
        let ms = |m: f32| (m / 1000.0 * sample_rate) as usize;
        let lens = [
            ms(29.7), ms(37.1), ms(41.1), ms(43.7),
            ms(53.0), ms(61.3), ms(71.9), ms(83.3),
        ];
        let mut fdn_gain = [0f32; FDN_LINES];
        for (i, &len) in lens.iter().enumerate() {
            fdn_gain[i] = 10f32.powf(-3.0 * len as f32 / (rt60 * sample_rate));
        }
        RoomModel {
            predelay_l: ModelLine::new(ms(14.0)),
            predelay_r: ModelLine::new(ms(16.5)),
            early: [
                (11.3, 0.50, true), (17.2, 0.42, false), (23.1, 0.34, true),
                (29.9, 0.28, false), (38.7, 0.22, true), (47.3, 0.17, false),
            ]
            .into_iter()
            .map(|(m, g, left)| (ModelLine::new(ms(m)), g, left))
            .collect(),
            fdn: lens.map(ModelLine::new),
            fdn_gain,
            damp_state: [0.0; FDN_LINES],
            damp_coeff: (-std::f32::consts::TAU * 4800.0 / sample_rate).exp(),
            wet,
        }
    }

    fn process(&mut self, left: &mut [f32], right: &mut [f32]) {
        for i in 0..left.len() {
            let dry_l = left[i];
            let dry_r = right[i];
            let mono = 0.5 * (dry_l + dry_r);

            self.predelay_l.write(mono);
            self.predelay_r.write(mono);
            let pre_l = self.predelay_l.read();
            let pre_r = self.predelay_r.read();

            let mut er_l = 0.0;
            let mut er_r = 0.0;
            for (line, gain, goes_left) in &mut self.early {
                let out = line.read();
                line.write(mono);
                if *goes_left {
                    er_l += out * *gain;
                } else {
                    er_r += out * *gain;
                }
            }

            let mut taps = [0f32; FDN_LINES];
            let mut sum = 0.0;
            for (k, line) in self.fdn.iter().enumerate() {
                taps[k] = line.read();
                sum += taps[k];
            }
            let h = 2.0 / FDN_LINES as f32 * sum;
            for k in 0..FDN_LINES {
                let inject = if k % 2 == 0 { pre_l + er_l } else { pre_r + er_r };
                let mut v = (taps[k] - h) * self.fdn_gain[k] + inject * 0.35;
                self.damp_state[k] = self.damp_state[k] * self.damp_coeff
                    + v * (1.0 - self.damp_coeff);
                v = self.damp_state[k];
                self.fdn[k].write(v);
            }
            let tail_l = taps[0] - taps[2] + taps[4] - taps[6];
            let tail_r = taps[1] - taps[3] + taps[5] - taps[7];

            left[i] = dry_l + self.wet * (er_l * 0.55 + tail_l * 0.75);
            right[i] = dry_r + self.wet * (er_r * 0.55 + tail_r * 0.75);
        }
    }
}

struct ModelBiquad {
    b0: f32,
    b1: f32,
    b2: f32,
    a1: f32,
    a2: f32,
    z: [(f32, f32); 2],
}

impl ModelBiquad {
    fn new(b0: f32, b1: f32, b2: f32, a0: f32, a1: f32, a2: f32) -> ModelBiquad {
        ModelBiquad { b0: b0 / a0, b1: b1 / a0, b2: b2 / a0, a1: a1 / a0, a2: a2 / a0,
                 z: [(0.0, 0.0); 2] }
    }

    fn low_shelf(f0: f32, gain_db: f32, sr: f32) -> ModelBiquad {
        let a = 10f32.powf(gain_db / 40.0);
        let w0 = std::f32::consts::TAU * f0 / sr;
        let (s, c) = w0.sin_cos();
        let alpha = s / 2.0 * (2.0f32).sqrt();
        let sa = 2.0 * a.sqrt() * alpha;
        ModelBiquad::new(
            a * ((a + 1.0) - (a - 1.0) * c + sa),
            2.0 * a * ((a - 1.0) - (a + 1.0) * c),
            a * ((a + 1.0) - (a - 1.0) * c - sa),
            (a + 1.0) + (a - 1.0) * c + sa,
            -2.0 * ((a - 1.0) + (a + 1.0) * c),
            (a + 1.0) + (a - 1.0) * c - sa,
        )
    }

    fn high_shelf(f0: f32, gain_db: f32, sr: f32) -> ModelBiquad {
        let a = 10f32.powf(gain_db / 40.0);
        let w0 = std::f32::consts::TAU * f0 / sr;
        let (s, c) = w0.sin_cos();
        let alpha = s / 2.0 * (2.0f32).sqrt();
        let sa = 2.0 * a.sqrt() * alpha;
        ModelBiquad::new(
            a * ((a + 1.0) + (a - 1.0) * c + sa),
            -2.0 * a * ((a - 1.0) + (a + 1.0) * c),
            a * ((a + 1.0) + (a - 1.0) * c - sa),
            (a + 1.0) - (a - 1.0) * c + sa,
            2.0 * ((a - 1.0) - (a + 1.0) * c),
            (a + 1.0) - (a - 1.0) * c - sa,
        )
    }

    fn peak(f0: f32, q: f32, gain_db: f32, sr: f32) -> ModelBiquad {
        let a = 10f32.powf(gain_db / 40.0);
        let w0 = std::f32::consts::TAU * f0 / sr;
        let (s, c) = w0.sin_cos();
        let alpha = s / (2.0 * q);
        ModelBiquad::new(
            1.0 + alpha * a,
            -2.0 * c,
            1.0 - alpha * a,
            1.0 + alpha / a,
            -2.0 * c,
            1.0 - alpha / a,
        )
    }

        fn run(&mut self, x: f32, ch: usize) -> f32 {
        let z = &mut self.z[ch];
        let y = self.b0 * x + z.0;
        z.0 = self.b1 * x - self.a1 * y + z.1;
        z.1 = self.b2 * x - self.a2 * y;
        y
    }
}

struct EqModel {
    stages: Vec<ModelBiquad>,
    active: bool,
}

impl EqModel {
    fn with_params(
        sr: f32,
        low_db: f32,
        low_hz: f32,
        peak_db: f32,
        peak_hz: f32,
        peak_q: f32,
        high_db: f32,
        high_hz: f32,
    ) -> EqModel {
        let stages = vec![
            ModelBiquad::low_shelf(low_hz, low_db, sr),
            ModelBiquad::peak(peak_hz, peak_q, peak_db, sr),
            ModelBiquad::high_shelf(high_hz, high_db, sr),
        ];
        let active = low_db != 0.0 || peak_db != 0.0 || high_db != 0.0;
        EqModel { stages, active }
    }

    fn process(&mut self, left: &mut [f32], right: &mut [f32]) {
        if !self.active {
            return;
        }
        for i in 0..left.len() {
            let mut l = left[i];
            let mut r = right[i];
            for s in &mut self.stages {
                l = s.run(l, 0);
                r = s.run(r, 1);
            }
            left[i] = l;
            right[i] = r;
        }
    }
}

struct CompModel {
    gr_db: f32,
    thresh_db: f32,
    slope: f32,
    knee_db: f32,
    attack: f32,
    release: f32,
    makeup: f32,
    drive: f32,
    active: bool,
}

impl CompModel {
    fn with_params(
        sr: f32,
        thresh_db: f32,
        ratio: f32,
        attack_ms: f32,
        release_ms: f32,
        makeup_db: f32,
        drive: f32,
        on: bool,
    ) -> CompModel {
        let coeff = |ms: f32| 1.0 - (-1.0 / (ms.max(0.1) / 1000.0 * sr)).exp();
        CompModel {
            gr_db: 0.0,
            thresh_db,
            slope: 1.0 / ratio.max(1.0) - 1.0,
            knee_db: 6.0,
            attack: coeff(attack_ms),
            release: coeff(release_ms),
            makeup: 10f32.powf(makeup_db / 20.0),
            drive: drive.clamp(0.0, 1.0),
            active: on && (ratio > 1.0 || drive > 0.0),
        }
    }

    fn process(&mut self, left: &mut [f32], right: &mut [f32]) {
        if !self.active {
            return;
        }
        let k = 1.0 + self.drive * 4.0;
        let kt = k.tanh();
        for i in 0..left.len() {
            let peak = left[i].abs().max(right[i].abs());
            let level_db = 20.0 * (peak + 1e-6).log10();
            let over = level_db - self.thresh_db;
            let target = if over <= -self.knee_db * 0.5 {
                0.0
            } else if over >= self.knee_db * 0.5 {
                self.slope * over
            } else {
                let x = over + self.knee_db * 0.5;
                self.slope * x * x / (2.0 * self.knee_db)
            };
            let c = if target < self.gr_db { self.attack } else { self.release };
            self.gr_db += (target - self.gr_db) * c;
            let gain = 10f32.powf(self.gr_db / 20.0) * self.makeup;
            let mut l = left[i] * gain;
            let mut r = right[i] * gain;
            if self.drive > 0.0 {
                l = l * (1.0 - self.drive) + (l * k).tanh() / kt * self.drive;
                r = r * (1.0 - self.drive) + (r * k).tanh() / kt * self.drive;
            }
            left[i] = l.clamp(-1.0, 1.0);
            right[i] = r.clamp(-1.0, 1.0);
        }
    }
}

fn list(v: &[f32]) -> Vec<Single> {
    v.iter().map(|&x| bits(x)).collect()
}

fn noise(n: usize, seed: u32, level: f32) -> Vec<f32> {
    let mut x = seed;
    (0..n)
        .map(|_| {
            x ^= x << 13;
            x ^= x >> 17;
            x ^= x << 5;
            ((x as f32 / u32::MAX as f32) * 2.0 - 1.0) * level
        })
        .collect()
}

#[test]
fn the_room_sounds_as_modeled() {
    for (sr, rt60, wet) in [(8000.0f32, 1.5f32, 0.5f32), (44100.0, 0.3, 1.0), (20.0, 1.0, 0.7)] {
        let k = arith();
        let mut model = RoomModel::new(sr, rt60, wet);
        let mut room = Reverb::new(&k, bits(sr), bits(rt60), bits(wet));
        for seed in 1..5u32 {
            let mut left = noise(900, seed, 0.5);
            let mut right = noise(900, seed + 100, 0.5);
            let mut l = list(&left);
            let mut r = list(&right);
            model.process(&mut left, &mut right);
            room.process(&k, &mut l, &mut r);
            assert_eq!(list(&left), l);
            assert_eq!(list(&right), r);
        }
    }
}

#[test]
fn the_default_room_takes_host_settings() {
    let k = arith();
    let mut a = Reverb::default_room(&k, bits(8000.0), &|_: &'static str| None);
    let mut b = Reverb::new(&k, bits(8000.0), bits(1.5), bits(0.5));
    let mut c = Reverb::default_room(&k, bits(8000.0), &|name: &'static str| {
        if name == "PIANO_REVERB_WET" { Some(bits(0.0)) } else { None }
    });
    let dry = list(&noise(800, 3, 0.5));
    let (mut l, mut r) = (dry.clone(), dry.clone());
    let (mut l2, mut r2) = (dry.clone(), dry.clone());
    let (mut l3, mut r3) = (dry.clone(), dry.clone());
    a.process(&k, &mut l, &mut r);
    b.process(&k, &mut l2, &mut r2);
    c.process(&k, &mut l3, &mut r3);
    assert_eq!((&l, &r), (&l2, &r2));
    assert_ne!(l, dry);
    assert_eq!(l3.iter().map(|&x| value(x)).collect::<Vec<_>>(), dry.iter().map(|&x| value(x)).collect::<Vec<_>>());
    assert_eq!(r3.len(), 800);
}

fn eq_params(p: [f32; 7]) -> EqParams {
    EqParams {
        low_db: bits(p[0]),
        low_hz: bits(p[1]),
        peak_db: bits(p[2]),
        peak_hz: bits(p[3]),
        peak_q: bits(p[4]),
        high_db: bits(p[5]),
        high_hz: bits(p[6]),
    }
}

#[test]
fn the_equalizer_sounds_as_modeled() {
    for p in [
        [-2.0f32, 300.0, 4.0, 5000.0, 0.8, 6.0, 2500.0],
        [3.0, 100.0, 0.0, 1000.0, 2.0, -4.0, 8000.0],
        [0.0, 300.0, 0.0, 5000.0, 0.8, 0.0, 2500.0],
    ] {
        let k = arith();
        let mut model = EqModel::with_params(44100.0, p[0], p[1], p[2], p[3], p[4], p[5], p[6]);
        let mut eq = MasterEq::with_params(&k, bits(44100.0), eq_params(p));
        for seed in 1..4u32 {
            let mut left = noise(300, seed, 0.8);
            let mut right = noise(300, seed + 50, 0.8);
            let mut l = list(&left);
            let mut r = list(&right);
            model.process(&mut left, &mut right);
            eq.process(&k, &mut l, &mut r);
            assert_eq!(list(&left), l);
            assert_eq!(list(&right), r);
        }
    }
}

#[test]
fn a_flat_equalizer_is_transparent() {
    let k = arith();
    let mut eq = MasterEq::with_params(&k, bits(44100.0), eq_params([0.0, 300.0, -0.0, 5000.0, 0.8, 0.0, 2500.0]));
    let x = list(&noise(50, 9, 1.0));
    let (mut l, mut r) = (x.clone(), x.clone());
    eq.process(&k, &mut l, &mut r);
    assert_eq!(l, x);
    assert_eq!(r, x);
}

#[test]
fn the_equalizer_takes_host_settings() {
    let k = arith();
    let names = [
        ("PIANO_EQ_LOW_DB", 1.0f32),
        ("PIANO_EQ_LOW_HZ", 200.0),
        ("PIANO_EQ_PEAK_DB", 2.0),
        ("PIANO_EQ_PEAK_HZ", 3000.0),
        ("PIANO_EQ_PEAK_Q", 1.5),
        ("PIANO_EQ_HIGH_DB", -3.0),
        ("PIANO_EQ_HIGH_HZ", 6000.0),
    ];
    let given = |name: &'static str| names.iter().find(|(n, _)| *n == name).map(|(_, v)| bits(*v));
    let mut a = MasterEq::from_env(&k, bits(44100.0), &given);
    let mut b = MasterEq::with_params(&k, bits(44100.0), eq_params([1.0, 200.0, 2.0, 3000.0, 1.5, -3.0, 6000.0]));
    let mut c = MasterEq::from_env(&k, bits(44100.0), &|_: &'static str| None);
    let mut d = MasterEq::with_params(&k, bits(44100.0), eq_params([-2.0, 300.0, 4.0, 5000.0, 0.8, 6.0, 2500.0]));
    for (x, y) in [(&mut a, &mut b), (&mut c, &mut d)] {
        let s = list(&noise(60, 5, 0.5));
        let (mut l, mut r) = (s.clone(), s.clone());
        let (mut l2, mut r2) = (s.clone(), s.clone());
        x.process(&k, &mut l, &mut r);
        y.process(&k, &mut l2, &mut r2);
        assert_eq!(l, l2);
        assert_eq!(r, r2);
        assert_ne!(l, s);
    }
}

fn comp_params(p: [f32; 6], on: bool) -> CompParams {
    CompParams {
        thresh_db: bits(p[0]),
        ratio: bits(p[1]),
        attack_ms: bits(p[2]),
        release_ms: bits(p[3]),
        makeup_db: bits(p[4]),
        drive: bits(p[5]),
        on,
    }
}

#[test]
fn the_compressor_sounds_as_modeled() {
    for (p, on) in [
        ([-22.0f32, 2.5, 15.0, 160.0, 3.0, 0.12], true),
        ([-30.0, 8.0, 0.01, 20.0, 12.0, 1.5], true),
        ([-10.0, 1.0, 5.0, 50.0, 0.0, 0.5], true),
        ([-10.0, 4.0, 5.0, 50.0, 0.0, -0.5], true),
        ([-22.0, 2.5, 15.0, 160.0, 3.0, 0.12], false),
        ([-22.0, 0.5, 15.0, 160.0, 3.0, 0.0], true),
    ] {
        let k = arith();
        let mut model = CompModel::with_params(44100.0, p[0], p[1], p[2], p[3], p[4], p[5], on);
        let mut comp = Compressor::with_params(&k, bits(44100.0), comp_params(p, on));
        for (seed, level) in [(1u32, 0.9f32), (2, 0.01), (3, 0.2), (4, 0.08)] {
            let mut left = noise(300, seed, level);
            let mut right = noise(300, seed + 50, level);
            let mut l = list(&left);
            let mut r = list(&right);
            model.process(&mut left, &mut right);
            comp.process(&k, &mut l, &mut r);
            assert_eq!(list(&left), l);
            assert_eq!(list(&right), r);
        }
    }
}

#[test]
fn the_compressor_keeps_full_scale() {
    let k = arith();
    let mut comp = Compressor::with_params(&k, bits(44100.0), comp_params([0.0, 1.5, 15.0, 160.0, 40.0, 0.0], true));
    let mut l = list(&noise(100, 1, 5.0));
    let mut r = list(&noise(100, 2, 5.0));
    comp.process(&k, &mut l, &mut r);
    assert!(l.iter().chain(r.iter()).all(|&x| value(x).abs() <= 1.0));
}

#[test]
fn the_compressor_takes_host_settings() {
    let k = arith();
    let a = Compressor::from_env(&k, bits(44100.0), &|_: &'static str| None);
    let b = Compressor::with_params(&k, bits(44100.0), comp_params([-22.0, 2.5, 15.0, 160.0, 3.0, 0.12], true));
    assert_eq!(format!("{a:?}"), format!("{b:?}"));
    let names = [
        ("PIANO_COMP_THRESH_DB", -20.0f32),
        ("PIANO_COMP_RATIO", 3.0),
        ("PIANO_COMP_ATTACK_MS", 10.0),
        ("PIANO_COMP_RELEASE_MS", 100.0),
        ("PIANO_COMP_MAKEUP_DB", 1.0),
        ("PIANO_COMP_DRIVE", 0.3),
        ("PIANO_COMP_ON", 0.4),
    ];
    let given = |name: &'static str| names.iter().find(|(n, _)| *n == name).map(|(_, v)| bits(*v));
    let c = Compressor::from_env(&k, bits(44100.0), &given);
    let d = Compressor::with_params(&k, bits(44100.0), comp_params([-20.0, 3.0, 10.0, 100.0, 1.0, 0.3], false));
    assert_eq!(format!("{c:?}"), format!("{d:?}"));
    assert!(!c.active);
}

#[test]
fn block_bounds_do_not_matter() {
    let k = arith();
    let p = [-22.0f32, 2.5, 15.0, 160.0, 3.0, 0.12];
    let sr = bits(8000.0);
    let left = list(&noise(500, 1, 0.9));
    let right = list(&noise(500, 2, 0.9));
    let stages = || {
        (
            MasterEq::from_env(&k, sr, &|_: &'static str| None),
            Reverb::new(&k, sr, bits(1.5), bits(0.35)),
            Compressor::with_params(&k, sr, comp_params(p, true)),
            Limiter::new(&k, sr),
        )
    };
    let (mut whole_l, mut whole_r) = (left.clone(), right.clone());
    let (mut eq, mut room, mut comp, mut limiter) = stages();
    eq.process(&k, &mut whole_l, &mut whole_r);
    room.process(&k, &mut whole_l, &mut whole_r);
    comp.process(&k, &mut whole_l, &mut whole_r);
    limiter.process(&k, &mut whole_l, &mut whole_r);
    let (mut l, mut r) = (left, right);
    let (mut eq, mut room, mut comp, mut limiter) = stages();
    for (from, to) in [(0usize, 13usize), (13, 200), (200, 500)] {
        eq.process(&k, &mut l[from..to], &mut r[from..to]);
        room.process(&k, &mut l[from..to], &mut r[from..to]);
        comp.process(&k, &mut l[from..to], &mut r[from..to]);
        limiter.process(&k, &mut l[from..to], &mut r[from..to]);
    }
    assert_eq!(l, whole_l);
    assert_eq!(r, whole_r);
}

#[test]
fn the_presentation_chain_runs_in_order() {
    let k = arith();
    let sr = bits(8000.0);
    let audio = list(&noise(600, 7, 0.7));
    let none = |_: &'static str| None;
    let (mut eq, mut room, mut comp) =
        (MasterEq::from_env(&k, sr, &none), Reverb::default_room(&k, sr, &none), Compressor::from_env(&k, sr, &none));
    let out = present(&k, &audio, &mut eq, &mut room, &mut comp);
    let (mut l, mut r) = split_channels(&audio);
    let (mut eq, mut room, mut comp) =
        (MasterEq::from_env(&k, sr, &none), Reverb::default_room(&k, sr, &none), Compressor::from_env(&k, sr, &none));
    eq.process(&k, &mut l, &mut r);
    room.process(&k, &mut l, &mut r);
    comp.process(&k, &mut l, &mut r);
    assert_eq!(out, join_channels(&l, &r));
}

#[test]
fn channels_split_and_join() {
    let audio = list(&[1.0, 2.0, 3.0, 4.0, 5.0, 6.0]);
    let (l, r) = split_channels(&audio);
    assert_eq!(l, list(&[1.0, 3.0, 5.0]));
    assert_eq!(r, list(&[2.0, 4.0, 6.0]));
    assert_eq!(join_channels(&l, &r), audio);
}

#[test]
fn loud_renders_are_normalized() {
    let k = arith();
    let mut audio = list(&[0.5, -2.0, 1.0, 0.0]);
    assert_eq!(value(peak(&audio)), 2.0);
    assert_eq!(value(normalize(&k, &mut audio)), 2.0);
    let gain = 0.891f32 / 2.0;
    assert_eq!(audio, list(&[0.5 * gain, -2.0 * gain, 1.0 * gain, 0.0 * gain]));
    let mut soft = list(&[0.25, -0.5]);
    normalize(&k, &mut soft);
    assert_eq!(soft, list(&[0.25, -0.5]));
    let mut silent = list(&[0.0, -0.0]);
    normalize(&k, &mut silent);
    assert_eq!(silent, list(&[0.0, -0.0]));
}

#[test]
fn samples_convert_to_sixteen_bits() {
    let k = arith();
    for x in [0.0f32, -0.0, 1.0, -1.0, 0.5, -0.5, 2.0, -7.0, 0.3, -0.99999, 1e-9, f32::NAN, f32::INFINITY] {
        let expected = (x.clamp(-1.0, 1.0) * i16::MAX as f32) as i16;
        assert_eq!(to_pcm(&k, bits(x)), expected);
    }
    assert_eq!(to_pcm(&k, bits(1.0)), 32767);
    assert_eq!(to_pcm(&k, bits(-1.0)), -32767);
}

#[test]
fn the_limiter_follows_its_curve() {
    let k = arith();
    let sr = 8000.0f32;
    let mut limiter = Limiter::new(&k, bits(sr));
    let mut env = 1.0f32;
    let release = (-1.0 / (0.080 * sr)).exp();
    let left = noise(400, 1, 2.0);
    let right = noise(400, 2, 0.5);
    let (mut l, mut r) = (list(&left), list(&right));
    limiter.process(&k, &mut l, &mut r);
    for i in 0..400 {
        let p = left[i].abs().max(right[i].abs()) * env;
        if p > 0.95 {
            env *= 0.95 / p;
        } else {
            env = 1.0 - (1.0 - env) * release;
        }
        assert_eq!(l[i], bits(left[i] * env));
        assert_eq!(r[i], bits(right[i] * env));
    }
}

#[test]
fn frames_are_spread_over_device_channels() {
    let (l, r) = (list(&[1.0, 2.0]), list(&[3.0, 4.0]));
    let mut four = list(&[9.0; 9]);
    spread(&l, &r, 4, &mut four);
    assert_eq!(four, list(&[1.0, 3.0, 9.0, 9.0, 2.0, 4.0, 9.0, 9.0, 9.0]));
    let mut two = list(&[9.0; 4]);
    spread(&l, &r, 2, &mut two);
    assert_eq!(two, list(&[1.0, 3.0, 2.0, 4.0]));
    let mut one = list(&[9.0; 3]);
    spread(&l, &r, 1, &mut one);
    assert_eq!(one, list(&[1.0, 2.0, 9.0]));
}

#[test]
fn a_line_delays_by_its_length() {
    let mut line = DelayLine::new(3, 0);
    let mut out = Vec::new();
    for i in 1..=8 {
        out.push(line.read());
        line.write(i);
    }
    assert_eq!(out, vec![0, 0, 0, 1, 2, 3, 4, 5]);
    let mut short = DelayLine::new(0, 7);
    assert_eq!(short.read(), 7);
    short.write(8);
    assert_eq!(short.read(), 8);
}

#[test]
fn a_bank_of_lines_is_fed_together() {
    let mut bank = DelayBank::new(&[1, 2], 0);
    assert_eq!(bank.len(), 2);
    bank.feed(&[5, 6]);
    assert_eq!((bank.tap(0), bank.tap(1)), (5, 0));
    bank.feed_all(9);
    assert_eq!((bank.tap(0), bank.tap(1)), (9, 6));
}

#[test]
fn a_dry_room_is_transparent() {
    let k = arith();
    let mut room = Reverb::new(&k, bits(8000.0), bits(1.5), bits(0.0));
    for seed in [1, 2, 3] {
        let (l0, r0) = (noise(900, seed, 0.7), noise(900, seed + 10, 0.7));
        let (mut l, mut r) = (list(&l0), list(&r0));
        room.process(&k, &mut l, &mut r);
        assert!(l.iter().zip(&l0).all(|(x, y)| value(*x) == *y));
        assert!(r.iter().zip(&r0).all(|(x, y)| value(*x) == *y));
    }
}

#[test]
fn the_compressor_has_no_side() {
    let k = arith();
    let p = comp_params([-22.0, 2.5, 15.0, 160.0, 3.0, 0.12], true);
    let (l0, r0) = (noise(400, 5, 1.3), noise(400, 6, 0.4));
    let mut a = Compressor::with_params(&k, bits(8000.0), p);
    let mut b = a;
    let (mut l, mut r) = (list(&l0), list(&r0));
    a.process(&k, &mut l, &mut r);
    let (mut x, mut y) = (list(&r0), list(&l0));
    b.process(&k, &mut x, &mut y);
    assert_eq!(l, y);
    assert_eq!(r, x);
    assert_eq!(a.gr_db, b.gr_db);
}

#[test]
fn the_compressor_is_tame() {
    let k = arith();
    for p in [[-22.0, 2.5, 15.0, 160.0, 24.0, 0.12], [-60.0, 20.0, 0.1, 5.0, 0.0, 1.0], [0.0, 1.5, 1.0, 1.0, 6.0, 0.0]] {
        let mut c = Compressor::with_params(&k, bits(8000.0), comp_params(p, true));
        for scale in [1e-3f32, 1.0, 1e6] {
            let mut l0 = noise(200, 9, scale);
            l0[17] = 0.0;
            let r0 = noise(200, 8, scale);
            let (mut l, mut r) = (list(&l0), list(&r0));
            c.process(&k, &mut l, &mut r);
            assert!(value(c.gr_db) <= 0.0);
            assert_eq!(value(l[17]), 0.0);
            for (x, y) in l.iter().zip(&l0).chain(r.iter().zip(&r0)) {
                let x = value(*x);
                assert!((-1.0..=1.0).contains(&x));
                assert!(x * y >= 0.0);
            }
        }
    }
}

#[test]
fn the_compressor_is_tame_at_any_finite_setting() {
    let k = arith();
    let far = f32::MAX;
    for thresh in [far, -far, -2f32.powi(125), -2f32.powi(126), 2f32.powi(126), 0.0, -22.0] {
        for ms in [-far, 0.0, 1e-30, 15.0, far] {
            for sr in [1e-30f32, 1.0, 44100.0, far] {
                for (ratio, drive, makeup) in [(far, 1.0f32, -far), (1.5, 0.0, 24.0), (20.0, 0.3, 0.0)] {
                    let p = comp_params([thresh, ratio, ms, ms, makeup, drive], true);
                    let mut c = Compressor::with_params(&k, bits(sr), p);
                    let (l0, r0) = (noise(40, 3, 1e6), noise(40, 4, 1e-3));
                    let (mut l, mut r) = (list(&l0), list(&r0));
                    c.process(&k, &mut l, &mut r);
                    assert!(value(c.gr_db) <= 0.0 && value(c.gr_db).is_finite());
                    for (x, y) in l.iter().zip(&l0).chain(r.iter().zip(&r0)) {
                        let x = value(*x);
                        assert!((-1.0..=1.0).contains(&x));
                        assert!(x == 0.0 || (x > 0.0) == (*y > 0.0));
                    }
                }
            }
        }
    }
}
