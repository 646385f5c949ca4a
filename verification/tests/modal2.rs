use piano::arith::{Arith, Op};
use piano::calibration::{Calibration, RawCalibration, RawNote};
use piano::knobs::{Knobs, shipped_knobs};
use piano::modal2::ModalV2;
use piano::strike::{Strike, strike_voice};
use piano::voices::Voices;
use piano::number::Single;
use piano::synth::Synth;

const N_SLOTS: usize = 150;

fn bits(x: f32) -> Single {
    Single { bits: x.to_bits() }
}

fn value(x: Single) -> f32 {
    f32::from_bits(x.bits)
}

fn eval(op: Op) -> Single {
    bits(match op {
        Op::Whole { n } => n as f32,
        Op::Sum { a, b } => value(a) + value(b),
        Op::Difference { a, b } => value(a) - value(b),
        Op::Product { a, b } => value(a) * value(b),
        Op::Quotient { a, b } => value(a) / value(b),
        Op::Root { a } => value(a).sqrt(),
        Op::Sine { a } => value(a).sin(),
        Op::Cosine { a } => value(a).cos(),
        Op::Tanh { a } => value(a).tanh(),
        Op::Exp { a } => value(a).exp(),
        Op::ExpLess { a } => value(a).exp_m1(),
        Op::Ln { a } => value(a).ln(),
        Op::Log { a } => value(a).log10(),
        Op::Power { a, b } => value(a).powf(value(b)),
        Op::WholePower { a, exponent } => value(a).powi(exponent),
        Op::Angle { y, x } => value(y).atan2(value(x)),
        Op::Fraction { a } => value(a).fract(),
    })
}

fn arith() -> Arith<impl Fn(Op) -> Single> {
    Arith::new(eval)
}

fn midi_note_freq(note: u8) -> f32 {
    440.0 * 2f32.powf((note as f32 - 69.0) / 12.0)
}

#[derive(Clone)]
struct ModelParams {
    f0_cents: f32,
    b: f32,
    bed_db: f32,
    bed_centroid_hz: f32,
    loudness_db: f32,
    attack_ms: f32,
    amps_db: [f32; N_SLOTS],
    decays_fast: [f32; N_SLOTS],
    decays_slow: [f32; N_SLOTS],
    slow_split: [f32; N_SLOTS],
}

struct ModelLayer {
    velocity: f32,
    notes: Vec<(f32, ModelParams)>,
}

struct ModelCalibration {
    layers: Vec<ModelLayer>,
}

impl ModelCalibration {
    fn lookup(&self, note: u8, velocity: u8) -> ModelParams {
        let vel = velocity as f32;
        let (lo, hi, w) = bracket(&self.layers, vel, |l| l.velocity);
        let a = lookup_in_layer(&self.layers[lo], note as f32);
        if lo == hi {
            return a;
        }
        let b = lookup_in_layer(&self.layers[hi], note as f32);
        lerp_params(&a, &b, w)
    }
}

fn lookup_in_layer(layer: &ModelLayer, note: f32) -> ModelParams {
    let (lo, hi, w) = bracket(&layer.notes, note, |n| n.0);
    let a = &layer.notes[lo].1;
    if lo == hi {
        return clone_params(a);
    }
    lerp_params(a, &layer.notes[hi].1, w)
}

fn bracket<T>(items: &[T], x: f32, key: impl Fn(&T) -> f32) -> (usize, usize, f32) {
    if x <= key(&items[0]) {
        return (0, 0, 0.0);
    }
    for i in 0..items.len() - 1 {
        let (a, b) = (key(&items[i]), key(&items[i + 1]));
        if x <= b {
            return (i, i + 1, (x - a) / (b - a));
        }
    }
    (items.len() - 1, items.len() - 1, 0.0)
}

fn clone_params(p: &ModelParams) -> ModelParams {
    ModelParams {
        f0_cents: p.f0_cents,
        b: p.b,
        bed_db: p.bed_db,
        bed_centroid_hz: p.bed_centroid_hz,
        loudness_db: p.loudness_db,
        attack_ms: p.attack_ms,
        amps_db: p.amps_db,
        decays_fast: p.decays_fast,
        decays_slow: p.decays_slow,
        slow_split: p.slow_split,
    }
}

fn lerp_params(a: &ModelParams, b: &ModelParams, w: f32) -> ModelParams {
    let lerp_array = |x: &[f32; N_SLOTS], y: &[f32; N_SLOTS]| {
        let mut out = [0f32; N_SLOTS];
        for i in 0..N_SLOTS {
            out[i] = x[i] + w * (y[i] - x[i]);
        }
        out
    };
    ModelParams {
        f0_cents: a.f0_cents + w * (b.f0_cents - a.f0_cents),
        b: (a.b.ln() + w * (b.b.ln() - a.b.ln())).exp(),
        bed_db: a.bed_db + w * (b.bed_db - a.bed_db),
        bed_centroid_hz: a.bed_centroid_hz + w * (b.bed_centroid_hz - a.bed_centroid_hz),
        loudness_db: a.loudness_db + w * (b.loudness_db - a.loudness_db),
        attack_ms: a.attack_ms + w * (b.attack_ms - a.attack_ms),
        amps_db: lerp_array(&a.amps_db, &b.amps_db),
        decays_fast: lerp_array(&a.decays_fast, &b.decays_fast),
        decays_slow: lerp_array(&a.decays_slow, &b.decays_slow),
        slow_split: lerp_array(&a.slow_split, &b.slow_split),
    }
}

const NOTES: [u8; 6] = [21, 36, 50, 64, 88, 108];
const LAYERS: [u8; 3] = [54, 92, 114];

fn curve(note: u8, velocity: u8, i: usize, scale: f32, tilt: f32) -> f32 {
    let wobble = ((note as usize * 7 + velocity as usize * 3 + i * 13) % 11) as f32;
    scale + tilt * i as f32 + 0.1 * wobble
}

fn model_params(note: u8, velocity: u8) -> ModelParams {
    let mut amps_db = [0f32; N_SLOTS];
    let mut decays_fast = [0f32; N_SLOTS];
    let mut decays_slow = [0f32; N_SLOTS];
    let mut slow_split = [0f32; N_SLOTS];
    for i in 0..N_SLOTS {
        amps_db[i] = curve(note, velocity, i, 0.0, -0.45);
        decays_fast[i] = curve(note, velocity, i, 4.0 + note as f32 * 0.2, 0.3);
        decays_slow[i] = curve(note, velocity, i, 1.0 + note as f32 * 0.05, 0.1);
        slow_split[i] = 0.05 + 0.05 * curve(note, velocity, i, 1.0, 0.02);
    }
    ModelParams {
        f0_cents: (note as f32 - 60.0) * 0.2,
        b: 1.0e-4 * 1.04f32.powf(note as f32 - 21.0),
        bed_db: -30.0 + 0.05 * velocity as f32,
        bed_centroid_hz: 200.0 + 20.0 * note as f32,
        loudness_db: 0.03 * (note as f32 - 60.0),
        attack_ms: 20.0 - 0.1 * note as f32,
        amps_db,
        decays_fast,
        decays_slow,
        slow_split,
    }
}

fn model_calibration() -> ModelCalibration {
    ModelCalibration {
        layers: LAYERS
            .iter()
            .map(|&v| ModelLayer {
                velocity: v as f32,
                notes: NOTES.iter().map(|&n| (n as f32, model_params(n, v))).collect(),
            })
            .collect(),
    }
}

fn list(v: &[f32]) -> Vec<Single> {
    v.iter().map(|&x| bits(x)).collect()
}

fn calibration() -> Calibration {
    let mut layers = Vec::new();
    for &velocity in LAYERS.iter().rev() {
        let mut notes = Vec::new();
        for &note in NOTES.iter().rev() {
            let p = model_params(note, velocity);
            notes.push(RawNote {
                note,
                velocity,
                f0_cents: bits(p.f0_cents),
                b: bits(p.b),
                bed_db: bits(p.bed_db),
                bed_centroid_hz: bits(p.bed_centroid_hz),
                loudness_db: bits(p.loudness_db),
                attack_ms: bits(p.attack_ms),
                amps_db: list(&p.amps_db),
                decays_fast_db_s: list(&p.decays_fast),
                decays_slow_db_s: list(&p.decays_slow),
                slow_split: list(&p.slow_split),
            });
        }
        layers.push(notes);
    }
    let raw = RawCalibration { version: 9, layers };
    assert!(raw.is_usable());
    Calibration::parse(&raw)
}

const MAX_VOICES: usize = 40;
const UNISON_PARTIALS: usize = 16;
const LANES: usize = 8;
const MAX_RES: usize = (N_SLOTS + 2 * UNISON_PARTIALS).div_ceil(LANES) * LANES;

struct ModelVoice {
    note: u8,
    n: usize,
    re: [f32; MAX_RES],
    im: [f32; MAX_RES],
    rot_re: [f32; MAX_RES],
    rot_im: [f32; MAX_RES],
    decay: [f32; MAX_RES],
    base_w: [f32; MAX_RES],
    damping: [f32; MAX_RES],
    damper_blend: f32,
    held: bool,
    pan_l: f32,
    pan_r: f32,
    attack_slow: f32,
    attack_slow_coeff: f32,
    attack_fast: f32,
    attack_fast_coeff: f32,
    glide_cents: f32,
    noise_amp: f32,
    noise_decay: f32,
    noise_b: (f32, f32, f32),
    noise_a: (f32, f32),
    noise_z: (f32, f32),
    bed_amp: f32,
    bed_decay: f32,
    bed_b: (f32, f32, f32),
    bed_a: (f32, f32),
    bed_z: (f32, f32),
    bed_z2: (f32, f32),
    bed_y: (f32, f32),
    bed_y2: (f32, f32),
}

impl ModelVoice {
    fn push_resonator(&mut self, freq: f32, amp: f32, phase: f32, decay_db_s: f32, sr: f32) {
        if self.n >= MAX_RES {
            return;
        }
        let w = std::f32::consts::TAU * freq / sr;
        let k = self.n;
        self.re[k] = amp * phase.cos();
        self.im[k] = amp * phase.sin();
        self.rot_re[k] = w.cos();
        self.rot_im[k] = w.sin();
        self.base_w[k] = w;
        self.decay[k] = decay_factor(decay_db_s, sr);
        self.n += 1;
    }

    fn compact(&mut self) {
        let mut keep = 0;
        for k in 0..self.n {
            if self.re[k] * self.re[k] + self.im[k] * self.im[k] > 1e-12 {
                if keep != k {
                    self.re[keep] = self.re[k];
                    self.im[keep] = self.im[k];
                    self.rot_re[keep] = self.rot_re[k];
                    self.rot_im[keep] = self.rot_im[k];
                    self.base_w[keep] = self.base_w[k];
                    self.decay[keep] = self.decay[k];
                    self.damping[keep] = self.damping[k];
                }
                keep += 1;
            }
        }
        self.n = keep;
        self.pad();
    }

    fn pad(&mut self) {
        while self.n % LANES != 0 {
            let k = self.n;
            self.re[k] = 0.0;
            self.im[k] = 0.0;
            self.rot_re[k] = 1.0;
            self.rot_im[k] = 0.0;
            self.base_w[k] = 0.0;
            self.decay[k] = 0.0;
            self.damping[k] = 1.0;
            self.n += 1;
        }
    }

    fn set_damper(&mut self, on: bool, note: u8, sr: f32, pressure: f32) {
        if !on || pressure <= 0.02 {
            self.damping[..self.n].fill(1.0);
            self.damper_blend = 1.0;
            return;
        }
        if self.damping[..self.n].iter().all(|&d| d >= 1.0) {
            self.damper_blend = 0.0;
        }
        let pos = (note as f32 - 21.0) / 87.0;
        let base = 0.20 + 0.45 * (1.0 - pos) * (1.0 - pos);
        for k in 0..self.n {
            if self.decay[k] == 0.0 {
                continue;
            }
            let freq = self.base_w[k] * sr / std::f32::consts::TAU;
            let stop = base * 600.0 / (600.0 + freq.max(0.0));
            let rate = 60.0 / stop.max(0.015) * pressure * pressure;
            self.damping[k] = decay_factor(rate, sr);
        }
    }

    fn energy(&self) -> f32 {
        let mut e = self.noise_amp * self.noise_amp + self.bed_amp * self.bed_amp;
        for k in 0..self.n {
            e += self.re[k] * self.re[k] + self.im[k] * self.im[k];
        }
        e
    }
}

const BANK_PARTIALS: usize = 3;
const BANK_NOTES: usize = 88;
const BANK_RES: usize = BANK_NOTES * BANK_PARTIALS;

struct ModelBank {
    re: [f32; BANK_RES],
    im: [f32; BANK_RES],
    rot_re: [f32; BANK_RES],
    rot_im: [f32; BANK_RES],
    decay: [f32; BANK_RES],
    open_decay: [f32; BANK_RES],
    damped_decay: [f32; BANK_RES],
    gain_in: [f32; BANK_RES],
    pan_l: [f32; BANK_RES],
    pan_r: [f32; BANK_RES],
    open: [bool; BANK_NOTES],
    ping: Vec<f32>,
}

impl ModelBank {
    fn new(sample_rate: f32, cal: &ModelCalibration) -> Box<ModelBank> {
        let mut bank = Box::new(ModelBank {
            re: [0.0; BANK_RES],
            im: [0.0; BANK_RES],
            rot_re: [1.0; BANK_RES],
            rot_im: [0.0; BANK_RES],
            decay: [0.0; BANK_RES],
            open_decay: [0.0; BANK_RES],
            damped_decay: [0.0; BANK_RES],
            gain_in: [0.0; BANK_RES],
            pan_l: [0.0; BANK_RES],
            pan_r: [0.0; BANK_RES],
            open: [false; BANK_NOTES],
            ping: vec![0.0; BANK_NOTES * BANK_RES],
        });
        let nyquist = sample_rate * 0.5 * 0.95;
        for string in 0..BANK_NOTES {
            let note = 21 + string as u8;
            let params = cal.lookup(note, 100);
            let f0 = midi_note_freq(note) * 2f32.powf(params.f0_cents / 1200.0);
            let pos = string as f32 / 87.0;
            let angle = (0.25 + 0.5 * pos) * std::f32::consts::FRAC_PI_2;
            for p in 0..BANK_PARTIALS {
                let k = string * BANK_PARTIALS + p;
                let nf = (p + 1) as f32;
                let freq = nf * f0 * (1.0 + params.b * nf * nf).sqrt();
                if freq >= nyquist {
                    continue;
                }
                let w = std::f32::consts::TAU * freq / sample_rate;
                bank.rot_re[k] = w.cos();
                bank.rot_im[k] = w.sin();
                let ring = params.decays_slow[p].clamp(1.0, 30.0);
                bank.open_decay[k] = decay_factor(ring, sample_rate);
                bank.damped_decay[k] =
                    decay_factor(35.0, sample_rate).min(bank.open_decay[k]);
                bank.decay[k] = bank.damped_decay[k];
                bank.gain_in[k] = 8.0 * (1.0 - bank.open_decay[k]) / nf;
                bank.pan_l[k] = angle.cos();
                bank.pan_r[k] = angle.sin();
            }
            if note >= 90 {
                bank.open[string] = true;
                for p in 0..BANK_PARTIALS {
                    let k = string * BANK_PARTIALS + p;
                    bank.decay[k] = bank.open_decay[k];
                    bank.damped_decay[k] = bank.open_decay[k];
                }
            }
        }

        let mut bank_freqs = [0f32; BANK_RES];
        for k in 0..BANK_RES {
            bank_freqs[k] =
                bank.rot_im[k].atan2(bank.rot_re[k]) * sample_rate / std::f32::consts::TAU;
        }
        for played in 0..BANK_NOTES {
            let note = 21 + played as u8;
            let params = cal.lookup(note, 100);
            let f0 = midi_note_freq(note) * 2f32.powf(params.f0_cents / 1200.0);
            for m in 1..=16usize {
                let mf = m as f32;
                let freq = mf * f0 * (1.0 + params.b * mf * mf).sqrt();
                if freq >= nyquist {
                    break;
                }
                let amp = 10f32.powf(params.amps_db[m - 1].clamp(-40.0, 6.0) / 20.0);
                let width = 1.5 + 0.004 * freq;
                for k in 0..BANK_RES {
                    if bank.gain_in[k] == 0.0 {
                        continue;
                    }
                    let df = (bank_freqs[k] - freq).abs();
                    if df < width * 4.0 {
                        let kernel = 1.0 / (1.0 + (df / width) * (df / width));
                        bank.ping[played * BANK_RES + k] += amp * kernel / mf.sqrt();
                    }
                }
            }
        }
        bank
    }

    fn ping(&mut self, note: u8, strength: f32, rng: &mut u32) {
        if !(21..21 + BANK_NOTES as u8).contains(&note) {
            return;
        }
        let played = (note - 21) as usize;
        for k in 0..BANK_RES {
            if !self.open[k / BANK_PARTIALS] || k / BANK_PARTIALS == played {
                continue;
            }
            let c = self.ping[played * BANK_RES + k];
            if c <= 1e-4 {
                continue;
            }
            *rng ^= *rng << 13;
            *rng ^= *rng >> 17;
            *rng ^= *rng << 5;
            let phase = (*rng as f32 / u32::MAX as f32) * std::f32::consts::TAU;
            self.re[k] += strength * c * phase.cos();
            self.im[k] += strength * c * phase.sin();
        }
    }

    fn set_open(&mut self, note: u8, open: bool) {
        if !(21..21 + BANK_NOTES as u8).contains(&note) {
            return;
        }
        let string = (note - 21) as usize;
        self.open[string] = open || note >= 90;
        for p in 0..BANK_PARTIALS {
            let k = string * BANK_PARTIALS + p;
            self.decay[k] = if open { self.open_decay[k] } else { self.damped_decay[k] };
        }
    }

        fn step(&mut self, drive: f32) -> (f32, f32) {
        let mut acc_l = [0f32; LANES];
        let mut acc_r = [0f32; LANES];
        for chunk in (0..BANK_RES).step_by(LANES) {
            for lane in 0..LANES {
                let k = chunk + lane;
                let out = self.im[k];
                let re = (self.re[k] * self.rot_re[k] - self.im[k] * self.rot_im[k])
                    * self.decay[k]
                    + drive * self.gain_in[k];
                self.im[k] =
                    (self.re[k] * self.rot_im[k] + self.im[k] * self.rot_re[k]) * self.decay[k];
                self.re[k] = re;
                acc_l[lane] += out * self.pan_l[k];
                acc_r[lane] += out * self.pan_r[k];
            }
        }
        (acc_l.iter().sum(), acc_r.iter().sum())
    }
}

#[derive(Clone, Copy)]
struct ModelKnobs {
    detune_scale: f32,
    attack_scale: f32,
    glide_cents: f32,
    bed_gain: f32,
    noise_gain: f32,
    split_max: f32,
    fast_scale: f32,
    bank_drive: f32,
    bank_ping: f32,
    body_gain: f32,
}

impl ModelKnobs {
    fn shipped() -> ModelKnobs {
        ModelKnobs {
            detune_scale: 1.82,
            attack_scale: 0.77,
            glide_cents: 3.0,
            bed_gain: 0.82,
            noise_gain: 1.0,
            split_max: 0.7,
            fast_scale: 0.8,
            bank_drive: 0.031,
            bank_ping: 0.08,
            body_gain: 0.25,
        }
    }
}

struct ModelBody {
    lines: [Vec<f32>; 4],
    pos: [usize; 4],
    fb: [f32; 4],
    damp: [f32; 4],
    damp_coeff: f32,
    gain: f32,
}

impl ModelBody {
    fn new(sample_rate: f32, gain: f32) -> ModelBody {
        let ms = |m: f32| ((m / 1000.0 * sample_rate) as usize).max(1);
        let lens = [ms(7.9), ms(11.3), ms(14.7), ms(18.9)];
        let rt = 0.55;
        let mut fb = [0f32; 4];
        for (i, &len) in lens.iter().enumerate() {
            fb[i] = 10f32.powf(-3.0 * len as f32 / (rt * sample_rate));
        }
        ModelBody {
            lines: lens.map(|l| vec![0.0; l]),
            pos: [0; 4],
            fb,
            damp: [0.0; 4],
            damp_coeff: (-std::f32::consts::TAU * 2800.0 / sample_rate).exp(),
            gain,
        }
    }

        fn step(&mut self, input: f32) -> f32 {
        let mut taps = [0f32; 4];
        let mut sum = 0.0;
        for k in 0..4 {
            taps[k] = self.lines[k][self.pos[k]];
            sum += taps[k];
        }
        let h = 0.5 * sum;
        let mut out = 0.0;
        for k in 0..4 {
            let mut v = (taps[k] - h) * self.fb[k] + input * 0.5;
            self.damp[k] = self.damp[k] * self.damp_coeff + v * (1.0 - self.damp_coeff);
            v = self.damp[k];
            self.lines[k][self.pos[k]] = v;
            self.pos[k] += 1;
            if self.pos[k] == self.lines[k].len() {
                self.pos[k] = 0;
            }
            out += if k % 2 == 0 { taps[k] } else { -taps[k] };
        }
        out * self.gain
    }
}

struct Model {
    cal: ModelCalibration,
    sample_rate: f32,
    voices: Vec<ModelVoice>,
    sustain: bool,
    sustain_pos: f32,
    una_corda: bool,
    rng: u32,
    held: [bool; 128],
    bank: Box<ModelBank>,
    bank_drive: f32,
    bank_level: f32,
    body: ModelBody,
    knobs: ModelKnobs,
}

impl Model {
    fn new(sample_rate: f32, cal: ModelCalibration) -> Self {
        let bank = ModelBank::new(sample_rate, &cal);
        Self {
            cal,
            sample_rate,
            voices: Vec::with_capacity(MAX_VOICES),
            sustain: false,
            sustain_pos: 0.0,
            una_corda: false,
            rng: 0x12345678,
            held: [false; 128],
            bank,
            bank_drive: ModelKnobs::shipped().bank_drive,
            bank_level: 1.0,
            body: ModelBody::new(sample_rate, ModelKnobs::shipped().body_gain),
            knobs: ModelKnobs::shipped(),
        }
    }
}

const BED_DECAY_DB_S: f32 = 4.0;

fn biquad_lowpass(freq: f32, q: f32, sr: f32) -> ((f32, f32, f32), (f32, f32)) {
    let w0 = std::f32::consts::TAU * (freq / sr).min(0.45);
    let alpha = w0.sin() / (2.0 * q);
    let cos = w0.cos();
    let a0 = 1.0 + alpha;
    (
        (
            (1.0 - cos) / 2.0 / a0,
            (1.0 - cos) / a0,
            (1.0 - cos) / 2.0 / a0,
        ),
        (-2.0 * cos / a0, (1.0 - alpha) / a0),
    )
}

fn unison_detune_cents(note: u8) -> f32 {
    let pos = (note as f32 - 21.0) / 87.0;
    1.6 - 0.9 * pos
}

fn decay_factor(db_per_s: f32, sample_rate: f32) -> f32 {
    10f32.powf(-db_per_s / 20.0 / sample_rate)
}

impl Model {
    fn note_on(&mut self, note: u8, velocity: u8) {
        let sr = self.sample_rate;
        for v in &mut self.voices {
            if v.note == note {
                v.held = false;
                v.set_damper(true, note, sr, 1.0);
            }
        }
        if self.voices.len() == self.voices.capacity() {
            if let Some(idx) = quietest(&self.voices) {
                self.voices.swap_remove(idx);
            }
        }
        let una = self.una_corda;
        let params = self.cal.lookup(note, velocity);
        let vel = velocity as f32 / 127.0;
        let f0 = midi_note_freq(note) * 2f32.powf(params.f0_cents / 1200.0);
        let nyquist = self.sample_rate * 0.5 * 0.95;
        let mut target_rms = 0.06 * vel.powf(1.6) * 10f32.powf(params.loudness_db / 20.0);
        if una {
            target_rms *= 0.65;
        }
        let level = 1.0;
        let detune_ratio = (unison_detune_cents(note) * self.knobs.detune_scale / 1200.0
            * std::f32::consts::LN_2)
            .exp_m1();

        let pos = (note as f32 - 21.0) / 87.0;
        let glide0 = self.knobs.glide_cents * vel * vel * vel * (1.2 - pos);
        let angle = (0.15 + 0.7 * pos) * std::f32::consts::FRAC_PI_2;
        let pos4 = pos * pos * pos * pos;
        let cutoff = (300.0 + 2500.0 * vel * vel) * (0.5 + 0.8 * pos + 0.9 * pos4);
        let noise_seconds = 0.010 + 0.015 * (1.0 - pos);
        let noise_filter = biquad_lowpass(cutoff, 0.9, self.sample_rate);

        let mut voice = ModelVoice {
            note,
            n: 0,
            re: [0.0; MAX_RES],
            im: [0.0; MAX_RES],
            rot_re: [1.0; MAX_RES],
            rot_im: [0.0; MAX_RES],
            base_w: [0.0; MAX_RES],
            decay: [0.0; MAX_RES],
            damping: [1.0; MAX_RES],
            damper_blend: 1.0,
            glide_cents: glide0,
            held: true,
            pan_l: angle.cos(),
            pan_r: angle.sin(),
            attack_slow: 0.0,
            attack_slow_coeff: {
                let t = (params.attack_ms * self.knobs.attack_scale / 1000.0).clamp(0.002, 0.09);
                1.0 / (t * self.sample_rate)
            },
            attack_fast: 0.0,
            attack_fast_coeff: {
                let t = (params.attack_ms * self.knobs.attack_scale / 1000.0).clamp(0.002, 0.09)
                    / 3.0;
                1.0 / (t * self.sample_rate)
            },
            noise_amp: target_rms * (0.12 + 0.30 * pos + 0.5 * pos4) * vel
                * self.knobs.noise_gain,
            noise_decay: decay_factor(60.0 / noise_seconds, self.sample_rate),
            noise_b: noise_filter.0,
            noise_a: noise_filter.1,
            noise_z: (0.0, 0.0),
            bed_amp: target_rms * 10f32.powf(params.bed_db / 20.0) * self.knobs.bed_gain,
            bed_decay: decay_factor(BED_DECAY_DB_S, self.sample_rate),
            bed_b: biquad_lowpass(params.bed_centroid_hz * 0.6, 1.2, self.sample_rate).0,
            bed_a: biquad_lowpass(params.bed_centroid_hz * 0.6, 1.2, self.sample_rate).1,
            bed_z: (0.0, 0.0),
            bed_z2: (0.0, 0.0),
            bed_y: (0.0, 0.0),
            bed_y2: (0.0, 0.0),
        };

        let mut rng = self.rng;
        let mut rand_phase = move || {
            rng ^= rng << 13;
            rng ^= rng >> 17;
            rng ^= rng << 5;
            (rng as f32 / u32::MAX as f32) * std::f32::consts::TAU
        };
        for n in 1..=N_SLOTS {
            let nf = n as f32;
            let freq = nf * f0 * (1.0 + params.b * nf * nf).sqrt();
            if freq >= nyquist {
                break;
            }
            let tilt_db = if velocity < 54 {
                -0.010 * (54 - velocity) as f32 * (nf - 1.0)
            } else if velocity > 114 {
                0.008 * (velocity - 114) as f32 * (nf - 1.0)
            } else {
                0.0
            };
            let una_tilt = if una { -0.35 * (nf - 1.0) } else { 0.0 };
            let amp = level * 10f32.powf((params.amps_db[n - 1] + tilt_db + una_tilt) / 20.0);
            let fast = (params.decays_fast[n - 1] * self.knobs.fast_scale).clamp(0.3, 300.0);
            let slow = params.decays_slow[n - 1].clamp(0.3, fast);
            let split_cap = (0.30 + 0.06 * (nf - 1.0)).min(self.knobs.split_max);
            let mut split = params.slow_split[n - 1].clamp(0.02, split_cap);
            if una {
                split = (split * 1.6).min(0.9);
            }
            if n <= UNISON_PARTIALS {
                let phase_c = rand_phase();
                voice.push_resonator(
                    freq, amp * (1.0 - split), phase_c, fast, self.sample_rate,
                );
                let quad_share = if note >= 44 { 0.7 } else { 1.0 };
                voice.push_resonator(
                    freq + 0.05,
                    amp * split * quad_share,
                    phase_c + std::f32::consts::FRAC_PI_2,
                    slow,
                    self.sample_rate,
                );
                if note >= 44 {
                    let jit = 0.75 + 0.5 * (rand_phase() / std::f32::consts::TAU);
                    let df = (freq * detune_ratio * jit).max(0.7);
                    voice.push_resonator(
                        freq + df,
                        amp * split * 0.3,
                        rand_phase(),
                        slow * 1.3,
                        self.sample_rate,
                    );
                }
            } else {
                voice.push_resonator(freq, amp, rand_phase(), fast, self.sample_rate);
            }
        }
        let window = (0.4 * self.sample_rate) as i32;
        let mean_square: f32 = (0..voice.n)
            .map(|k| {
                let a2 = voice.re[k] * voice.re[k] + voice.im[k] * voice.im[k];
                let d2 = voice.decay[k] * voice.decay[k];
                let g = if d2 > 0.999_999 {
                    1.0
                } else {
                    (1.0 - d2.powi(window)) / (window as f32 * (1.0 - d2))
                };
                a2 / 2.0 * g
            })
            .sum();
        let scale = target_rms / mean_square.sqrt().max(1e-9);
        for k in 0..voice.n {
            voice.re[k] *= scale;
            voice.im[k] *= scale;
        }
        voice.pad();
        self.voices.push(voice);
        self.rng = self.rng.wrapping_mul(0x9E3779B9).wrapping_add(1);
        self.held[note as usize] = true;
        let mut rng = self.rng;
        self.bank.ping(note, target_rms * self.knobs.bank_ping, &mut rng);
        self.rng = rng;
        self.bank.set_open(note, true);
    }

    fn note_off(&mut self, note: u8) {
        self.held[note as usize] = false;
        let sr = self.sample_rate;
        for v in &mut self.voices {
            if v.note == note && v.held {
                v.held = false;
                let pressure = 1.0 - self.sustain_pos;
                if note < 90 || pressure <= 0.02 {
                    v.set_damper(true, note, sr, pressure);
                }
                if pressure > 0.4 {
                    v.bed_decay = decay_factor(60.0 / 0.6, sr);
                    if v.note < 90 {
                        let ringing =
                            (v.energy() / 2.0).sqrt() * 1.5 + 0.002;
                        v.noise_amp = v.noise_amp.max(ringing);
                        v.noise_decay = decay_factor(60.0 / 0.045, sr);
                        let f = biquad_lowpass(420.0, 0.8, sr);
                        v.noise_b = f.0;
                        v.noise_a = f.1;
                    }
                }
            }
        }
        if !self.sustain {
            self.bank.set_open(note, false);
        }
    }

    fn set_sustain(&mut self, position: f32) {
        self.sustain_pos = position;
        let down = position >= 0.5;
        let sr = self.sample_rate;
        for v in &mut self.voices {
            if !v.held {
                let note = v.note;
                if note < 90 || 1.0 - position <= 0.02 {
                    v.set_damper(true, note, sr, 1.0 - position);
                }
                v.bed_decay = if down {
                    decay_factor(BED_DECAY_DB_S, sr)
                } else {
                    decay_factor(60.0 / 0.6, sr)
                };
            }
        }
        if down != self.sustain {
            self.sustain = down;
            for note in 21..21 + BANK_NOTES as u8 {
                if down {
                    self.bank.set_open(note, true);
                } else if !self.held[note as usize] {
                    self.bank.set_open(note, false);
                }
            }
        }
    }

    fn set_control(&mut self, controller: u8, value: f32) {
        if controller == 67 {
            self.una_corda = value >= 0.5;
        }
    }

    fn process(&mut self, left: &mut [f32], right: &mut [f32]) {
        left.fill(0.0);
        right.fill(0.0);
        for voice in &mut self.voices {
            let blend = voice.damper_blend;
            voice.damper_blend =
                (voice.damper_blend + left.len() as f32 / (0.035 * self.sample_rate)).min(1.0);
            if voice.glide_cents > 0.05 {
                let ratio = 2f32.powf(voice.glide_cents / 1200.0);
                for k in 0..voice.n {
                    if voice.decay[k] > 0.0 {
                        let w = voice.base_w[k] * ratio;
                        voice.rot_re[k] = w.cos();
                        voice.rot_im[k] = w.sin();
                    }
                }
                voice.glide_cents *=
                    (-(left.len() as f32) / (0.06 * self.sample_rate)).exp();
                if voice.glide_cents <= 0.05 {
                    voice.glide_cents = 0.0;
                    for k in 0..voice.n {
                        if voice.decay[k] > 0.0 {
                            voice.rot_re[k] = voice.base_w[k].cos();
                            voice.rot_im[k] = voice.base_w[k].sin();
                        }
                    }
                }
            }
            for i in 0..left.len() {
                let mut sum_slow = 0.0f32;
                let mut sum_fast = 0.0f32;
                for chunk in (0..voice.n).step_by(LANES) {
                    let mut acc = [0f32; LANES];
                    for lane in 0..LANES {
                        let k = chunk + lane;
                        let out = voice.im[k];
                        let scale = voice.decay[k]
                            * (1.0 + (voice.damping[k] - 1.0) * blend);
                        let re = (voice.re[k] * voice.rot_re[k]
                            - voice.im[k] * voice.rot_im[k])
                            * scale;
                        voice.im[k] = (voice.re[k] * voice.rot_im[k]
                            + voice.im[k] * voice.rot_re[k])
                            * scale;
                        voice.re[k] = re;
                        acc[lane] += out;
                    }
                    let chunk_sum: f32 = acc.iter().sum();
                    if chunk == 0 {
                        sum_slow += chunk_sum;
                    } else {
                        sum_fast += chunk_sum;
                    }
                }
                voice.attack_slow = (voice.attack_slow + voice.attack_slow_coeff).min(1.0);
                voice.attack_fast = (voice.attack_fast + voice.attack_fast_coeff).min(1.0);
                let sum = sum_slow * voice.attack_slow + sum_fast * voice.attack_fast;
                let mut l = sum * voice.pan_l;
                let mut r = sum * voice.pan_r;
                if voice.noise_amp > 1e-7 || voice.bed_amp > 1e-7 {
                    self.rng ^= self.rng << 13;
                    self.rng ^= self.rng >> 17;
                    self.rng ^= self.rng << 5;
                    let white = (self.rng as f32 / u32::MAX as f32) * 2.0 - 1.0;
                    self.rng ^= self.rng << 13;
                    self.rng ^= self.rng >> 17;
                    self.rng ^= self.rng << 5;
                    let white2 = (self.rng as f32 / u32::MAX as f32) * 2.0 - 1.0;
                    {
                        let (b0, b1, b2) = voice.noise_b;
                        let (a1, a2) = voice.noise_a;
                        let y = b0 * white + voice.noise_z.0;
                        voice.noise_z.0 = b1 * white - a1 * y + voice.noise_z.1;
                        voice.noise_z.1 = b2 * white - a2 * y;
                        l += y * voice.noise_amp * voice.pan_l;
                        r += y * voice.noise_amp * voice.pan_r;
                        voice.noise_amp *= voice.noise_decay;
                    }
                    let (b0, b1, b2) = voice.bed_b;
                    let (a1, a2) = voice.bed_a;
                    let mut y = b0 * white + voice.bed_z.0;
                    voice.bed_z.0 = b1 * white - a1 * y + voice.bed_z.1;
                    voice.bed_z.1 = b2 * white - a2 * y;
                    let mut y2 = b0 * white2 + voice.bed_z2.0;
                    voice.bed_z2.0 = b1 * white2 - a1 * y2 + voice.bed_z2.1;
                    voice.bed_z2.1 = b2 * white2 - a2 * y2;
                    let yc = b0 * y + voice.bed_y.0;
                    voice.bed_y.0 = b1 * y - a1 * yc + voice.bed_y.1;
                    voice.bed_y.1 = b2 * y - a2 * yc;
                    y = yc;
                    let yc2 = b0 * y2 + voice.bed_y2.0;
                    voice.bed_y2.0 = b1 * y2 - a1 * yc2 + voice.bed_y2.1;
                    voice.bed_y2.1 = b2 * y2 - a2 * yc2;
                    y2 = yc2;
                    l += y * voice.bed_amp * 1.4 * voice.pan_l;
                    r += y2 * voice.bed_amp * 1.4 * voice.pan_r;
                    voice.bed_amp *= voice.bed_decay;
                }
                left[i] += l;
                right[i] += r;
            }
            voice.compact();
        }
        for i in 0..left.len() {
            let drive = (left[i] + right[i]) * self.bank_drive;
            let (bl, br) = self.bank.step(drive);
            left[i] += bl * self.bank_level;
            right[i] += br * self.bank_level;
            let body = self.body.step(0.5 * (left[i] + right[i]));
            left[i] += body;
            right[i] += body;
        }
        self.voices.retain(|v| v.energy() > 1e-12);
    }
}

fn quietest(voices: &[ModelVoice]) -> Option<usize> {
    voices
        .iter()
        .enumerate()
        .map(|(i, v)| (i, v.energy()))
        .min_by(|a, b| a.1.total_cmp(&b.1))
        .map(|(i, _)| i)
}

fn instrument(sr: f32) -> ModalV2<impl Fn(Op) -> Single> {
    ModalV2::new(arith(), bits(sr), calibration(), shipped_knobs())
}

enum Do {
    On(u8, u8),
    Off(u8),
    Pedal(f32),
    Control(u8, f32),
    Play(usize),
}

fn agree(sr: f32, script: &[Do]) {
    let mut model = Model::new(sr, model_calibration());
    let mut synth = instrument(sr);
    for step in script {
        match *step {
            Do::On(note, velocity) => {
                model.note_on(note, velocity);
                synth.note_on(note, velocity);
            }
            Do::Off(note) => {
                model.note_off(note);
                synth.note_off(note);
            }
            Do::Pedal(position) => {
                model.set_sustain(position);
                synth.set_sustain(bits(position));
            }
            Do::Control(controller, value) => {
                model.set_control(controller, value);
                synth.set_control(controller, bits(value));
            }
            Do::Play(n) => {
                let mut left = vec![9f32; n];
                let mut right = vec![9f32; n];
                let mut l = vec![bits(7.0); n];
                let mut r = vec![bits(7.0); n];
                model.process(&mut left, &mut right);
                synth.process(&mut l, &mut r);
                assert_eq!(list(&left), l);
                assert_eq!(list(&right), r);
                assert_eq!(model.voices.len(), synth.voice_count());
            }
        }
    }
}

#[test]
fn a_single_note_sounds_as_modeled() {
    agree(44100.0, &[Do::On(60, 100), Do::Play(256), Do::Play(100), Do::Off(60), Do::Play(256)]);
}

#[test]
fn a_chord_with_the_pedal_sounds_as_modeled() {
    agree(
        12000.0,
        &[
            Do::Pedal(1.0),
            Do::On(40, 60),
            Do::On(43, 120),
            Do::On(91, 30),
            Do::Play(128),
            Do::Off(40),
            Do::Off(91),
            Do::Play(64),
            Do::Pedal(0.55),
            Do::Play(64),
            Do::Pedal(0.3),
            Do::Play(64),
            Do::Pedal(0.99),
            Do::Off(43),
            Do::Play(64),
            Do::Pedal(0.0),
            Do::Play(128),
        ],
    );
}

#[test]
fn una_corda_sounds_as_modeled() {
    agree(
        16000.0,
        &[
            Do::Control(67, 1.0),
            Do::On(55, 90),
            Do::Play(96),
            Do::Control(67, 0.2),
            Do::Control(66, 1.0),
            Do::On(56, 90),
            Do::Play(96),
        ],
    );
}

#[test]
fn repeated_strikes_sound_as_modeled() {
    agree(
        11025.0,
        &[
            Do::On(64, 45),
            Do::Play(60),
            Do::On(64, 125),
            Do::Play(60),
            Do::Off(64),
            Do::On(64, 45),
            Do::Play(60),
            Do::Off(64),
            Do::Off(64),
            Do::Play(60),
        ],
    );
}

#[test]
fn notes_beyond_the_keyboard_sound_as_modeled() {
    agree(
        11025.0,
        &[Do::On(5, 100), Do::On(127, 100), Do::On(109, 20), Do::Play(50), Do::Off(5), Do::Off(127), Do::Play(50)],
    );
}

#[test]
fn the_quietest_voice_is_stolen_as_modeled() {
    let mut script = vec![Do::Pedal(1.0)];
    for i in 0..45u8 {
        script.push(Do::On(30 + i, 20 + (i * 37) % 100));
        script.push(Do::Play(3));
    }
    script.push(Do::Play(40));
    agree(8000.0, &script);
}

#[test]
fn voices_die_away_as_modeled() {
    let mut script = vec![Do::On(100, 10), Do::On(60, 3), Do::Off(100), Do::Off(60)];
    for _ in 0..40 {
        script.push(Do::Play(256));
    }
    agree(8000.0, &script);
}

#[test]
fn there_are_never_more_than_forty_voices() {
    let mut synth = instrument(8000.0);
    for i in 0..60u8 {
        synth.note_on(30 + i, 100);
        assert!(synth.voice_count() <= 40);
    }
    assert_eq!(synth.voice_count(), 40);
}

fn level(synth: &mut ModalV2<impl Fn(Op) -> Single>, n: usize) -> f32 {
    let mut l = vec![bits(0.0); n];
    let mut r = vec![bits(0.0); n];
    synth.process(&mut l, &mut r);
    (l.iter().map(|&x| value(x) * value(x)).sum::<f32>() / n as f32).sqrt()
}

#[test]
fn the_pedal_holds_the_sound() {
    let mut open = instrument(16000.0);
    let mut closed = instrument(16000.0);
    open.set_sustain(bits(1.0));
    for s in [&mut open, &mut closed] {
        s.note_on(48, 100);
        for _ in 0..10 {
            level(s, 256);
        }
        s.note_off(48);
        for _ in 0..30 {
            level(s, 256);
        }
    }
    assert!(level(&mut open, 256) > 3.0 * level(&mut closed, 256));
}

#[test]
fn una_corda_is_quieter() {
    let mut soft = instrument(16000.0);
    let mut full = instrument(16000.0);
    soft.set_control(67, bits(1.0));
    soft.note_on(60, 100);
    full.note_on(60, 100);
    assert!(level(&mut soft, 512) < level(&mut full, 512));
}

#[test]
fn an_open_string_rings_in_sympathy() {
    let mut held = instrument(16000.0);
    held.note_on(48, 1);
    held.note_on(36, 112);
    let mut alone = instrument(16000.0);
    alone.note_on(36, 112);
    for s in [&mut held, &mut alone] {
        for _ in 0..10 {
            level(s, 256);
        }
        s.note_off(36);
        for _ in 0..80 {
            level(s, 256);
        }
    }
    assert!(level(&mut held, 512) > level(&mut alone, 512));
}

#[test]
fn knobs_are_set_by_name() {
    let mut k: Knobs = shipped_knobs();
    for (i, name) in [
        "DETUNE_SCALE",
        "ATTACK_SCALE",
        "GLIDE_CENTS",
        "BED_GAIN",
        "NOISE_GAIN",
        "SPLIT_MAX",
        "FAST_SCALE",
        "BANK_DRIVE",
        "BANK_PING",
        "BODY_GAIN",
    ]
    .iter()
    .enumerate()
    {
        k.set(name, bits(i as f32));
    }
    k.set("NO_SUCH_KNOB", bits(99.0));
    assert_eq!(
        k,
        Knobs {
            detune_scale: bits(0.0),
            attack_scale: bits(1.0),
            glide_cents: bits(2.0),
            bed_gain: bits(3.0),
            noise_gain: bits(4.0),
            split_max: bits(5.0),
            fast_scale: bits(6.0),
            bank_drive: bits(7.0),
            bank_ping: bits(8.0),
            body_gain: bits(9.0),
        }
    );
}

#[test]
fn knobs_come_from_the_host() {
    let k = Knobs::from_env(&|name: &'static str| if name == "PIANO_BODY_GAIN" { Some(bits(0.5)) } else { None });
    assert_eq!(k, Knobs { body_gain: bits(0.5), ..shipped_knobs() });
    assert_eq!(Knobs::from_env(&|_: &'static str| None), shipped_knobs());
    assert_eq!(value(shipped_knobs().detune_scale), 1.82);
    assert_eq!(value(shipped_knobs().bank_drive), 0.031);
}

#[test]
fn the_body_gain_takes_effect_at_once() {
    let mut a = instrument(16000.0);
    let mut b = instrument(16000.0);
    b.set_param("BODY_GAIN", bits(0.0));
    for s in [&mut a, &mut b] {
        s.note_on(60, 100);
    }
    let (x, y) = (level(&mut a, 1024), level(&mut b, 1024));
    assert!(x != y);
}

fn struck(note: u8) -> Voices {
    let k = arith();
    let params = calibration().lookup(&k, note, 100);
    let s = Strike { sr: bits(44100.0), knobs: shipped_knobs(), note, velocity: 100, una: false };
    let mut voices = Voices::new();
    voices.push(strike_voice(&k, s, &params, 12345));
    voices
}

fn dampings(voices: &Voices) -> Vec<f32> {
    let v = voices.voice(0);
    (0..v.len()).map(|i| value(v.resonator(i).damping)).collect()
}

#[test]
fn notes_at_the_top_have_no_dampers() {
    let k = arith();
    for (note, damped) in [(89u8, true), (90, false), (96, false), (108, false)] {
        let mut voices = struck(note);
        voices.release(&k, bits(44100.0), note, bits(1.0));
        assert!(!voices.voice(0).is_held());
        assert_eq!(dampings(&voices).iter().any(|&d| d < 1.0), damped, "note {note}");
        voices.pedal(&k, bits(44100.0), bits(0.25));
        assert_eq!(dampings(&voices).iter().any(|&d| d < 1.0), damped, "note {note}");
    }
}

#[test]
fn dampers_stop_high_partials_faster() {
    let k = arith();
    let mut light = struck(60);
    let mut heavy = struck(60);
    light.release(&k, bits(44100.0), 60, bits(0.5));
    heavy.release(&k, bits(44100.0), 60, bits(1.0));
    let v = light.voice(0);
    let mut strings: Vec<(f32, f32)> = (0..v.len())
        .map(|i| v.resonator(i))
        .filter(|r| value(r.decay) != 0.0)
        .map(|r| (value(r.base_w), value(r.damping)))
        .collect();
    strings.sort_by(|a, b| a.0.total_cmp(&b.0));
    assert!(strings.windows(2).all(|p| p[1].1 <= p[0].1));
    assert!(strings.iter().all(|s| 0.0 < s.1 && s.1 < 1.0));
    let pairs: Vec<(f32, f32)> = dampings(&light).into_iter().zip(dampings(&heavy)).collect();
    assert!(pairs.iter().all(|(l, h)| h <= l));
    assert!(pairs.iter().any(|(l, h)| h < l));
}

#[test]
fn the_pedal_acts_by_its_position() {
    let k = arith();
    for position in [0.0, 0.3, 0.5, 0.97, 0.99, 1.0] {
        let mut voices = struck(60);
        voices.release(&k, bits(44100.0), 60, bits(1.0));
        voices.pedal(&k, bits(44100.0), bits(position));
        let once = dampings(&voices);
        voices.pedal(&k, bits(44100.0), bits(position));
        assert_eq!(dampings(&voices), once);
        assert_eq!(once.iter().all(|&d| d == 1.0), position >= 0.99);
    }
}

#[test]
fn a_repeated_pedal_changes_nothing() {
    for position in [0.0f32, 0.4, 0.5, 1.0] {
        let mut a = instrument(16000.0);
        let mut b = instrument(16000.0);
        for synth in [&mut a, &mut b] {
            synth.note_on(60, 100);
            synth.note_on(96, 90);
            level(synth, 200);
            synth.note_off(60);
            synth.note_off(96);
            synth.set_sustain(bits(position));
        }
        b.set_sustain(bits(position));
        assert_eq!(level(&mut a, 500).to_bits(), level(&mut b, 500).to_bits());
    }
}

#[test]
fn compacting_twice_is_compacting_once() {
    let k = arith();
    let p = calibration().lookup(&k, 60, 100);
    let s = Strike { sr: bits(44100.0), knobs: shipped_knobs(), note: 60, velocity: 100, una: false };
    let mut v = strike_voice(&k, s, &p, 7);
    v.scale(&k, bits(1e-4));
    v.compact(&k);
    let once: Vec<_> = (0..v.len()).map(|i| v.resonator(i)).collect();
    v.compact(&k);
    let twice: Vec<_> = (0..v.len()).map(|i| v.resonator(i)).collect();
    assert_eq!(once, twice);
    assert_eq!(once.len() % 8, 0);
}

#[test]
fn the_pedal_opens_a_restruck_top_note() {
    let k = arith();
    let mut voices = struck(96);
    voices.restrike(&k, bits(44100.0), 96);
    assert!(dampings(&voices).iter().any(|&d| d < 1.0));
    voices.pedal(&k, bits(44100.0), bits(0.5));
    assert!(dampings(&voices).iter().any(|&d| d < 1.0));
    voices.pedal(&k, bits(44100.0), bits(1.0));
    assert!(dampings(&voices).iter().all(|&d| d == 1.0));
}

#[test]
fn restruck_top_notes_sound_as_modeled() {
    agree(
        44100.0,
        &[
            Do::On(96, 100),
            Do::Play(128),
            Do::On(96, 80),
            Do::Play(64),
            Do::Pedal(0.6),
            Do::Play(64),
            Do::Pedal(1.0),
            Do::Play(128),
            Do::Off(96),
            Do::Play(64),
            Do::Pedal(0.0),
            Do::Play(128),
        ],
    );
}
