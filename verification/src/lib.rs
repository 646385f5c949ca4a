//! Physics-based piano synthesizer.
//!
//! The core abstraction is [`Synth`]: a streaming, real-time-capable audio
//! generator driven by note events. Offline rendering (WAV files, MIDI
//! playback) is the same core run faster than real time: see [`render`].
//! Numbers are carried by their bit patterns, and the host supplies the steps
//! of floating-point arithmetic: see [`arith`].

pub mod number;
pub mod arith;
pub mod wide;
pub mod constant;
pub mod rounding;
pub mod exact;
pub mod formula;
pub mod rng;
pub mod order;
pub mod text;
pub mod cli;
pub mod events;
pub mod chunk;
pub mod midi;
pub mod tracks;
pub mod performance;
pub mod synth;
pub mod render;
pub mod delay;
pub mod setting;
pub mod reverb;
pub mod eq;
pub mod comp;
pub mod voice;
pub mod bank;
pub mod body;
pub mod calibration;
pub mod knobs;
pub mod strike;
pub mod quietest;
pub mod voices;
pub mod modal2;
pub mod damping;
pub mod tuning;
pub mod scales;
pub mod baseline;
pub mod modal;
pub mod instrument;
pub mod master;
pub mod signal;
pub mod engine;

pub use instrument::{create_synth, synth_names};
pub use synth::Synth;
