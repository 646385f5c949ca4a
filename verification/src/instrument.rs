//! The registry of synthesizers.

use crate::arith::{Arith, Op};
use crate::baseline::{BaselineState, BaselineSynth};
use crate::bank::tuned_strings;
use crate::calibration::{Calibration, LayerState};
use crate::events::EventKind;
use crate::knobs::Knobs;
use crate::modal::{ModalSynth, PlainSynthState};
use crate::modal2::{ModalState, ModalV2, new_modal};
use crate::number::{Single, zero};
use crate::synth::Synth;
use crate::text::same_text;
use vstd::prelude::*;

verus! {

/// Any of the synthesizers.
#[allow(inconsistent_fields)]
pub enum Instrument<F: Fn(Op) -> Single> {
    Baseline { synth: BaselineSynth<F> },
    ModalV1 { synth: ModalSynth<F> },
    ModalV2 { synth: ModalV2<F> },
}

/// Everything that decides how an instrument goes on.
#[allow(inconsistent_fields)]
pub enum InstrumentState<F: Fn(Op) -> Single> {
    Baseline { state: BaselineState<F> },
    ModalV1 { state: PlainSynthState<F> },
    ModalV2 { state: ModalState<F> },
}

/// The name that an instrument is asked for by.
pub open spec fn name_of<F: Fn(Op) -> Single>(instrument: Instrument<F>) -> Seq<char> {
    match instrument {
        Instrument::Baseline { synth } => "baseline"@,
        Instrument::ModalV1 { synth } => "modal-v1"@,
        Instrument::ModalV2 { synth } => "modal-v2"@,
    }
}

/// The names of all instruments.
pub open spec fn is_name(name: Seq<char>) -> bool {
    name == "baseline"@ || name == "modal-v1"@ || name == "modal-v2"@
}

/// A new instrument; `layers` are the measurements that it is tuned from, if
/// it needs any.
pub open spec fn new_instrument<F: Fn(Op) -> Single>(
    name: Seq<char>,
    k: Arith<F>,
    sr: Single,
    layers: Seq<LayerState>,
    knobs: Knobs,
) -> InstrumentState<F> {
    if name == "baseline"@ {
        InstrumentState::Baseline { state: BaselineState { k, sr, tones: Seq::empty() } }
    } else if name == "modal-v1"@ {
        InstrumentState::ModalV1 { state: PlainSynthState { k, sr, voices: Seq::empty(), sustain: false } }
    } else {
        InstrumentState::ModalV2 { state: new_modal(k, sr, layers, knobs, tuned_strings(k, sr, layers)) }
    }
}

/// The source gives a calibration that can be played from.
pub open spec fn gives_calibration<C: FnOnce() -> Calibration>(source: C) -> bool {
    &&& call_requires(source, ())
    &&& forall|cal: Calibration| #[trigger] call_ensures(source, (), cal) ==> cal.wf() && cal@.len() > 0
}

/// Constructs a synth by name. This is the registry that the renderer and the
/// scoring harness use to select an implementation. `source` is asked for the
/// calibration if the synth needs one.
pub fn create_synth<F: Fn(Op) -> Single, C: FnOnce() -> Calibration>(name: &str, k: Arith<F>, sr: Single, source: C, knobs: Knobs) -> (r:
    Option<Instrument<F>>)
    requires
        gives_calibration(source),
    ensures
        r is Some <==> is_name(name@),
        r matches Some(instrument) ==> {
            &&& instrument.ready()
            &&& name_of(instrument) == name@
            &&& exists|layers: Seq<LayerState>|
                {
                    &&& instrument.model() == #[trigger] new_instrument(name@, k, sr, layers, knobs)
                    &&& name@ == "modal-v2"@ ==> exists|cal: Calibration|
                        #[trigger] call_ensures(source, (), cal) && cal@ == layers
                }
        },
{
    proof {
        names_are_distinct();
    }
    let ghost none: Seq<LayerState> = Seq::empty();
    if same_text(name, "baseline") {
        let r = Instrument::Baseline { synth: BaselineSynth::new(k, sr) };
        assert(r.model() == new_instrument(name@, k, sr, none, knobs));
        Some(r)
    } else if same_text(name, "modal-v1") {
        let r = Instrument::ModalV1 { synth: ModalSynth::new(k, sr) };
        assert(r.model() == new_instrument(name@, k, sr, none, knobs));
        Some(r)
    } else if same_text(name, "modal-v2") {
        let cal: Calibration = source();
        assert(call_ensures(source, (), cal));
        let ghost layers = cal@;
        let r = Instrument::ModalV2 { synth: ModalV2::new(k, sr, cal, knobs) };
        assert(r.model() == new_instrument(name@, k, sr, layers, knobs));
        Some(r)
    } else {
        None
    }
}

/// Names of all registered synths, for command line help and harness
/// enumeration.
pub fn synth_names() -> (names: Vec<&'static str>)
    ensures
        names@.len() == 3,
        names@[0]@ == "baseline"@,
        names@[1]@ == "modal-v1"@,
        names@[2]@ == "modal-v2"@,
{
    vec!["baseline", "modal-v1", "modal-v2"]
}

/// No two synthesizers share a name.
pub proof fn names_are_distinct()
    ensures
        "baseline"@ != "modal-v1"@,
        "baseline"@ != "modal-v2"@,
        "modal-v1"@ != "modal-v2"@,
{
    reveal_strlit("baseline");
    reveal_strlit("modal-v1");
    reveal_strlit("modal-v2");
    assert("baseline"@[0] == 'b');
    assert("modal-v1"@[7] == '1');
    assert("modal-v2"@[7] == '2');
    assert("modal-v2"@[0] == 'm');
    assert("modal-v1"@[0] == 'm');
}

impl<F: Fn(Op) -> Single> Synth<Single> for Instrument<F> {
    type Model = InstrumentState<F>;

    open spec fn model(&self) -> InstrumentState<F> {
        match *self {
            Instrument::Baseline { synth } => InstrumentState::Baseline { state: synth@ },
            Instrument::ModalV1 { synth } => InstrumentState::ModalV1 { state: synth@ },
            Instrument::ModalV2 { synth } => InstrumentState::ModalV2 { state: synth@ },
        }
    }

    open spec fn ready(&self) -> bool {
        match *self {
            Instrument::Baseline { synth } => synth.ready(),
            Instrument::ModalV1 { synth } => synth.ready(),
            Instrument::ModalV2 { synth } => synth.ready(),
        }
    }

    open spec fn takes(note: u8) -> bool {
        note < 128
    }

    open spec fn told(m: InstrumentState<F>, kind: EventKind) -> InstrumentState<F> {
        match m {
            InstrumentState::Baseline { state } => InstrumentState::Baseline {
                state: BaselineSynth::<F>::told(state, kind),
            },
            InstrumentState::ModalV1 { state } => InstrumentState::ModalV1 {
                state: ModalSynth::<F>::told(state, kind),
            },
            InstrumentState::ModalV2 { state } => InstrumentState::ModalV2 { state: ModalV2::<F>::told(state, kind) },
        }
    }

    open spec fn played(m: InstrumentState<F>, n: nat) -> InstrumentState<F> {
        match m {
            InstrumentState::Baseline { state } => InstrumentState::Baseline { state: state.played(n) },
            InstrumentState::ModalV1 { state } => InstrumentState::ModalV1 { state: state.played(n) },
            InstrumentState::ModalV2 { state } => InstrumentState::ModalV2 { state: state.played(n) },
        }
    }

    open spec fn sounded(m: InstrumentState<F>, n: nat) -> (Seq<Single>, Seq<Single>) {
        match m {
            InstrumentState::Baseline { state } => BaselineSynth::<F>::sounded(state, n),
            InstrumentState::ModalV1 { state } => ModalSynth::<F>::sounded(state, n),
            InstrumentState::ModalV2 { state } => ModalV2::<F>::sounded(state, n),
        }
    }

    fn note_on(&mut self, note: u8, velocity: u8) {
        match self {
            Instrument::Baseline { synth } => synth.note_on(note, velocity),
            Instrument::ModalV1 { synth } => synth.note_on(note, velocity),
            Instrument::ModalV2 { synth } => synth.note_on(note, velocity),
        }
    }

    fn note_off(&mut self, note: u8) {
        match self {
            Instrument::Baseline { synth } => synth.note_off(note),
            Instrument::ModalV1 { synth } => synth.note_off(note),
            Instrument::ModalV2 { synth } => synth.note_off(note),
        }
    }

    fn set_sustain(&mut self, position: Single) {
        match self {
            Instrument::Baseline { synth } => synth.set_sustain(position),
            Instrument::ModalV1 { synth } => synth.set_sustain(position),
            Instrument::ModalV2 { synth } => synth.set_sustain(position),
        }
    }

    fn set_control(&mut self, controller: u8, value: Single) {
        match self {
            Instrument::Baseline { synth } => synth.set_control(controller, value),
            Instrument::ModalV1 { synth } => synth.set_control(controller, value),
            Instrument::ModalV2 { synth } => synth.set_control(controller, value),
        }
    }

    fn process(&mut self, left: &mut [Single], right: &mut [Single]) {
        match self {
            Instrument::Baseline { synth } => synth.process(left, right),
            Instrument::ModalV1 { synth } => synth.process(left, right),
            Instrument::ModalV2 { synth } => synth.process(left, right),
        }
    }
}

/// A new instrument is silent and at rest: nothing sounds, no key is down, no
/// pedal either, and its knobs are those that it was asked for with.
pub proof fn new_instruments_rest<F: Fn(Op) -> Single>(
    name: Seq<char>,
    k: Arith<F>,
    sr: Single,
    layers: Seq<LayerState>,
    knobs: Knobs,
)
    requires
        is_name(name),
    ensures
        match new_instrument(name, k, sr, layers, knobs) {
            InstrumentState::Baseline { state } => name == "baseline"@ && state.tones.len() == 0 && state.sr == sr,
            InstrumentState::ModalV1 { state } => {
                &&& name == "modal-v1"@
                &&& state.voices.len() == 0
                &&& !state.sustain
                &&& state.sr == sr
            },
            InstrumentState::ModalV2 { state } => {
                &&& name == "modal-v2"@
                &&& state.voices.len() == 0
                &&& !state.sustain
                &&& state.sustain_pos == zero()
                &&& !state.una_corda
                &&& state.held.len() == 128
                &&& forall|i: int| 0 <= i < 128 ==> !#[trigger] state.held[i]
                &&& forall|i: int| 0 <= i < 88 ==> #[trigger] state.bank.open[i] == (21 + i >= 90)
                &&& state.knobs == knobs
                &&& state.body.gain == knobs.body_gain
                &&& state.sr == sr
                &&& state.layers == layers
            },
        },
{
}

/// Whichever instrument it is, it is told what is played on it, and sounds as it
/// does on its own.
pub proof fn instruments_play_as_themselves<F: Fn(Op) -> Single>(m: InstrumentState<F>, kind: EventKind, n: nat)
    ensures
        match m {
            InstrumentState::Baseline { state } => {
                &&& Instrument::<F>::told(m, kind) == (InstrumentState::Baseline {
                    state: BaselineSynth::<F>::told(state, kind),
                })
                &&& Instrument::<F>::played(m, n) == (InstrumentState::Baseline {
                    state: BaselineSynth::<F>::played(state, n),
                })
                &&& Instrument::<F>::sounded(m, n) == BaselineSynth::<F>::sounded(state, n)
            },
            InstrumentState::ModalV1 { state } => {
                &&& Instrument::<F>::told(m, kind) == (InstrumentState::ModalV1 {
                    state: ModalSynth::<F>::told(state, kind),
                })
                &&& Instrument::<F>::played(m, n) == (InstrumentState::ModalV1 {
                    state: ModalSynth::<F>::played(state, n),
                })
                &&& Instrument::<F>::sounded(m, n) == ModalSynth::<F>::sounded(state, n)
            },
            InstrumentState::ModalV2 { state } => {
                &&& Instrument::<F>::told(m, kind) == (InstrumentState::ModalV2 {
                    state: ModalV2::<F>::told(state, kind),
                })
                &&& Instrument::<F>::played(m, n) == (InstrumentState::ModalV2 {
                    state: ModalV2::<F>::played(state, n),
                })
                &&& Instrument::<F>::sounded(m, n) == ModalV2::<F>::sounded(state, n)
            },
        },
{
}

} // verus!
