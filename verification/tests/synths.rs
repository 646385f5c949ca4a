use piano::arith::{Arith, Op};
use piano::baseline::BaselineSynth;
use piano::modal::ModalSynth;
use piano::number::Single;
use piano::synth::Synth;

fn bits(x: f32) -> Single {
    Single { bits: x.to_bits() }
}

fn value(x: Single) -> f32 {
    f32::from_bits(x.bits)
}

fn eval(op: Op) -> Single {
    bits(match op {
        Op::Whole { n } => n as f32,
        Op::Sum { a, b } => value(a) + value(b),
        Op::Difference { a, b } => value(a) - value(b),
        Op::Product { a, b } => value(a) * value(b),
        Op::Quotient { a, b } => value(a) / value(b),
        Op::Root { a } => value(a).sqrt(),
        Op::Sine { a } => value(a).sin(),
        Op::Cosine { a } => value(a).cos(),
        Op::Tanh { a } => value(a).tanh(),
        Op::Exp { a } => value(a).exp(),
        Op::ExpLess { a } => value(a).exp_m1(),
        Op::Ln { a } => value(a).ln(),
        Op::Log { a } => value(a).log10(),
        Op::Power { a, b } => value(a).powf(value(b)),
        Op::WholePower { a, exponent } => value(a).powi(exponent),
        Op::Angle { y, x } => value(y).atan2(value(x)),
        Op::Fraction { a } => value(a).fract(),
    })
}

fn arith() -> Arith<impl Fn(Op) -> Single> {
    Arith::new(eval)
}

fn midi_note_freq(note: u8) -> f32 {
    440.0 * 2f32.powf((note as f32 - 69.0) / 12.0)
}

const MAX_VOICES: usize = 40;
const MAX_PARTIALS: usize = 28;
const STRIKE_POS: f32 = 0.12;

fn inharmonicity(note: u8) -> f32 {
    let pts = [(21.0f32, 1.0e-4f32), (60.0, 2.8e-4), (108.0, 1.0e-2)];
    let n = note as f32;
    let (a, b) = if n < pts[1].0 { (pts[0], pts[1]) } else { (pts[1], pts[2]) };
    let t = ((n - a.0) / (b.0 - a.0)).clamp(0.0, 1.0);
    (a.1.ln() + t * (b.1.ln() - a.1.ln())).exp()
}

fn base_decay_db_s(note: u8) -> f32 {
    let t = (note as f32 - 21.0) / 87.0;
    1.5 * (40.0f32).powf(t)
}

struct ModalPartial {
    re: f32,
    im: f32,
    rot_re: f32,
    rot_im: f32,
    decay: f32,
}

struct ModalVoice {
    note: u8,
    partials: [ModalPartial; MAX_PARTIALS],
    n_partials: usize,
    held: bool,
    damping: f32,
    pan_l: f32,
    pan_r: f32,
}

struct ModalModel {
    sample_rate: f32,
    voices: Vec<ModalVoice>,
    sustain: bool,
}

impl ModalModel {
    fn new(sample_rate: f32) -> Self {
        Self {
            sample_rate,
            voices: Vec::with_capacity(MAX_VOICES),
            sustain: false,
        }
    }
}

impl ModalModel {
    fn note_on(&mut self, note: u8, velocity: u8) {
        if self.voices.len() == self.voices.capacity() {
            if let Some(idx) = quietest(&self.voices) {
                self.voices.swap_remove(idx);
            }
        }
        let f0 = midi_note_freq(note);
        let b = inharmonicity(note);
        let vel = velocity as f32 / 127.0;

        let rolloff = 2.8 - 1.2 * vel;
        let base_decay = base_decay_db_s(note);
        let nyquist = self.sample_rate * 0.5 * 0.95;

        let mut partials = [(); MAX_PARTIALS].map(|_| ModalPartial {
            re: 0.0, im: 0.0, rot_re: 1.0, rot_im: 0.0, decay: 1.0,
        });
        let mut n_partials = 0;
        for n in 1..=MAX_PARTIALS {
            let nf = n as f32;
            let freq = nf * f0 * (1.0 + b * nf * nf).sqrt();
            if freq >= nyquist {
                break;
            }
            let comb = (std::f32::consts::PI * nf * STRIKE_POS).sin().abs();
            let amp = 0.35 * vel * comb / nf.powf(rolloff);
            let decay_db_s = base_decay * (1.0 + 0.12 * (nf - 1.0) + 0.7 * (freq / 4000.0));
            let decay = decay_factor(decay_db_s, self.sample_rate);
            let w = std::f32::consts::TAU * freq / self.sample_rate;
            partials[n - 1] = ModalPartial {
                re: amp,
                im: 0.0,
                rot_re: w.cos(),
                rot_im: w.sin(),
                decay,
            };
            n_partials += 1;
        }

        let pos = (note as f32 - 21.0) / 87.0;
        let angle = (0.25 + 0.5 * pos) * std::f32::consts::FRAC_PI_2;

        self.voices.push(ModalVoice {
            note,
            partials,
            n_partials,
            held: true,
            damping: 1.0,
            pan_l: angle.cos(),
            pan_r: angle.sin(),
        });
    }

    fn note_off(&mut self, note: u8) {
        for v in &mut self.voices {
            if v.note == note && v.held {
                v.held = false;
                if !self.sustain {
                    v.damping = damper_factor(v.note, self.sample_rate);
                }
            }
        }
    }

    fn set_sustain(&mut self, position: f32) {
        let down = position >= 0.5;
        if down != self.sustain {
            self.sustain = down;
            for v in &mut self.voices {
                if !v.held {
                    v.damping = if down {
                        1.0
                    } else {
                        damper_factor(v.note, self.sample_rate)
                    };
                }
            }
        }
    }

    fn process(&mut self, left: &mut [f32], right: &mut [f32]) {
        left.fill(0.0);
        right.fill(0.0);
        for voice in &mut self.voices {
            for i in 0..left.len() {
                let mut sum = 0.0;
                for p in &mut voice.partials[..voice.n_partials] {
                    sum += p.im;
                    let scale = p.decay * voice.damping;
                    let re = (p.re * p.rot_re - p.im * p.rot_im) * scale;
                    p.im = (p.re * p.rot_im + p.im * p.rot_re) * scale;
                    p.re = re;
                }
                left[i] += sum * voice.pan_l;
                right[i] += sum * voice.pan_r;
            }
        }
        self.voices.retain(|v| {
            v.partials[..v.n_partials]
                .iter()
                .map(|p| p.re * p.re + p.im * p.im)
                .sum::<f32>()
                > 1e-12
        });
    }
}

fn decay_factor(db_per_s: f32, sample_rate: f32) -> f32 {
    10f32.powf(-db_per_s / 20.0 / sample_rate)
}

fn damper_factor(note: u8, sample_rate: f32) -> f32 {
    if note >= 90 {
        return 1.0;
    }
    let stop_time = 0.05 + 0.10 * (1.0 - (note as f32 - 21.0) / 87.0);
    decay_factor(60.0 / stop_time, sample_rate)
}

fn quietest(voices: &[ModalVoice]) -> Option<usize> {
    voices
        .iter()
        .enumerate()
        .map(|(i, v)| {
            let e: f32 = v.partials[..v.n_partials]
                .iter()
                .map(|p| p.re * p.re + p.im * p.im)
                .sum();
            (i, e)
        })
        .min_by(|a, b| a.1.total_cmp(&b.1))
        .map(|(i, _)| i)
}

const NOTE_SECONDS: f32 = 1.0;
const FADE_SECONDS: f32 = 0.005;

struct SineVoice {
    phase: f32,
    phase_inc: f32,
    amp: f32,
    age: u32,
    total: u32,
    fade: u32,
}

struct SineModel {
    sample_rate: f32,
    voices: Vec<SineVoice>,
}

impl SineModel {
    fn new(sample_rate: f32) -> Self {
        Self {
            sample_rate,
            voices: Vec::with_capacity(128),
        }
    }
}

impl SineModel {
    fn note_on(&mut self, note: u8, velocity: u8) {
        if self.voices.len() == self.voices.capacity() {
            return;
        }
        self.voices.push(SineVoice {
            phase: 0.0,
            phase_inc: midi_note_freq(note) / self.sample_rate,
            amp: 0.2 * velocity as f32 / 127.0,
            age: 0,
            total: (NOTE_SECONDS * self.sample_rate) as u32,
            fade: (FADE_SECONDS * self.sample_rate) as u32,
        });
    }

    fn process(&mut self, left: &mut [f32], right: &mut [f32]) {
        left.fill(0.0);
        for voice in &mut self.voices {
            for sample in left.iter_mut() {
                if voice.age >= voice.total {
                    break;
                }
                let fade_in = (voice.age as f32 / voice.fade as f32).min(1.0);
                let fade_out =
                    ((voice.total - voice.age) as f32 / voice.fade as f32).min(1.0);
                *sample += (voice.phase * std::f32::consts::TAU).sin()
                    * voice.amp
                    * fade_in.min(fade_out);
                voice.phase = (voice.phase + voice.phase_inc).fract();
                voice.age += 1;
            }
        }
        self.voices.retain(|v| v.age < v.total);
        right.copy_from_slice(left);
    }
}

fn list(v: &[f32]) -> Vec<Single> {
    v.iter().map(|&x| bits(x)).collect()
}

enum Do {
    On(u8, u8),
    Off(u8),
    Pedal(f32),
    Play(usize),
}

fn modal_agrees(sr: f32, script: &[Do]) {
    let mut model = ModalModel::new(sr);
    let mut synth = ModalSynth::new(arith(), bits(sr));
    for step in script {
        match *step {
            Do::On(note, velocity) => {
                model.note_on(note, velocity);
                synth.note_on(note, velocity);
            }
            Do::Off(note) => {
                model.note_off(note);
                synth.note_off(note);
            }
            Do::Pedal(position) => {
                model.set_sustain(position);
                synth.set_sustain(bits(position));
                synth.set_control(67, bits(position));
            }
            Do::Play(n) => {
                let mut left = vec![9f32; n];
                let mut right = vec![9f32; n];
                let mut l = vec![bits(7.0); n];
                let mut r = vec![bits(7.0); n];
                model.process(&mut left, &mut right);
                synth.process(&mut l, &mut r);
                assert_eq!(list(&left), l);
                assert_eq!(list(&right), r);
                assert_eq!(model.voices.len(), synth.voice_count());
            }
        }
    }
}

#[test]
fn the_first_modal_synth_sounds_as_modeled() {
    modal_agrees(
        44100.0,
        &[
            Do::On(60, 100),
            Do::Play(200),
            Do::On(60, 40),
            Do::On(95, 127),
            Do::Play(200),
            Do::Off(60),
            Do::Play(200),
            Do::Pedal(0.5),
            Do::Play(100),
            Do::Off(95),
            Do::Play(100),
            Do::Pedal(0.7),
            Do::Pedal(0.49),
            Do::Play(100),
        ],
    );
}

#[test]
fn the_first_modal_synth_covers_all_notes() {
    let mut script = Vec::new();
    for i in 0..30u8 {
        script.push(Do::On(i * 8, 10 + i * 3));
        script.push(Do::Play(4));
    }
    modal_agrees(22050.0, &script);
}

#[test]
fn the_first_modal_synth_steals_the_quietest() {
    let mut script = Vec::new();
    for i in 0..50u8 {
        script.push(Do::On(40 + i, 1 + (i * 41) % 120));
        script.push(Do::Play(5));
    }
    script.push(Do::Play(50));
    modal_agrees(16000.0, &script);
}

#[test]
fn voices_of_the_first_modal_synth_die_away() {
    let mut script = vec![Do::On(30, 20), Do::On(80, 20), Do::Off(30), Do::Off(80)];
    for _ in 0..40 {
        script.push(Do::Play(256));
    }
    modal_agrees(8000.0, &script);
}

#[test]
fn the_baseline_sounds_as_modeled() {
    for sr in [44100.0f32, 8000.0, 100.0] {
        let mut model = SineModel::new(sr);
        let mut synth = BaselineSynth::new(arith(), bits(sr));
        for round in 0..40u8 {
            if round % 3 == 0 {
                model.note_on(40 + round, 90);
                synth.note_on(40 + round, 90);
            }
            synth.note_off(40 + round);
            synth.set_sustain(bits(1.0));
            synth.set_control(67, bits(1.0));
            let n = 37 + round as usize;
            let mut left = vec![9f32; n];
            let mut right = vec![9f32; n];
            let mut l = vec![bits(7.0); n];
            let mut r = vec![bits(7.0); n];
            model.process(&mut left, &mut right);
            synth.process(&mut l, &mut r);
            assert_eq!(list(&left), l);
            assert_eq!(list(&right), r);
            assert_eq!(model.voices.len(), synth.tone_count());
        }
    }
}

#[test]
fn the_baseline_ignores_notes_beyond_its_room() {
    let mut synth = BaselineSynth::new(arith(), bits(8000.0));
    for i in 0..200u8 {
        synth.note_on(i, 100);
    }
    assert_eq!(synth.tone_count(), 128);
}

#[test]
fn a_baseline_tone_lasts_one_second() {
    let mut synth = BaselineSynth::new(arith(), bits(1000.0));
    synth.note_on(69, 127);
    let mut l = vec![bits(0.0); 999];
    let mut r = vec![bits(0.0); 999];
    synth.process(&mut l, &mut r);
    assert_eq!(synth.tone_count(), 1);
    synth.process(&mut l[..1], &mut r[..1]);
    assert_eq!(synth.tone_count(), 0);
}

#[test]
fn pitches_are_equal_tempered() {
    let k = arith();
    assert_eq!(value(k.midi_note_freq(69)), 440.0);
    assert_eq!(value(k.midi_note_freq(81)), 880.0);
    for note in 0..=255u8 {
        assert_eq!(value(k.midi_note_freq(note)), midi_note_freq(note));
    }
}

#[test]
fn heuristics_match_their_curves() {
    let k = arith();
    for note in 0..=255u8 {
        assert_eq!(value(k.inharmonicity(note)), inharmonicity(note));
        assert_eq!(value(k.base_decay_db_s(note)), base_decay_db_s(note));
        assert_eq!(value(k.damper_factor(note, bits(44100.0))), damper_factor(note, 44100.0));
    }
    assert_eq!(value(k.damper_factor(90, bits(44100.0))), 1.0);
    assert_eq!(value(k.decay_factor(bits(60.0), bits(1000.0))), decay_factor(60.0, 1000.0));
}
