//! The tuning engine: the instrument with its presentation stages behind one
//! small interface of note events, knobs by name, and a block renderer.

use crate::arith::{Arith, Op};
use crate::bank::tuned_strings;
use crate::calibration::Calibration;
use crate::comp::{CompParams, Compressor, DEFAULT_THRESHOLD, comp_of, comp_settings};
use crate::constant::{
    N0_12, N0_35, N0_5, N0_8, N15, N160, N1_5, N2500, N2_5, N3, N300, N4, N5000, N6,
};
use crate::eq::{EqParams, EqState, MINUS_TWO, MasterEq, eq_of, eq_settings};
use crate::knobs::{Knobs, is_knob, last_knob_stands};
use crate::master::Stereo;
use crate::modal2::{ModalState, ModalV2, new_modal, unknown_knobs_change_nothing};
use crate::number::{SINGLE_ONE, Single, is_on, number, spec_is_on, zero};
use crate::reverb::{Reverb, RoomState, quiet_room, room_settings};
use crate::setting::{given_settings_stand, is_given, is_setting, setting_name};
use crate::synth::Synth;
use crate::text::same_text;
use vstd::prelude::*;

verus! {

/// Frames that the buffers of an engine hold to begin with.
pub const FRAMES: usize = 2048;

/// The knob values that the engine owns; the instrument owns the rest.
#[derive(Clone, Copy, Debug)]
pub struct StageParams {
    pub eq: EqParams,
    pub rt60: Single,
    pub wet: Single,
    pub comp: CompParams,
    pub eq_on: bool,
    pub reverb_on: bool,
}

/// The stages that a knob can belong to.
#[derive(Clone, Copy, Debug, PartialEq, Eq, Structural)]
pub enum StageKind {
    Eq,
    Room,
    Comp,
}

/// The knob belongs to the equalizer.
pub open spec fn is_eq_knob(name: Seq<char>) -> bool {
    ||| name == "EQ_LOW_DB"@
    ||| name == "EQ_LOW_HZ"@
    ||| name == "EQ_PEAK_DB"@
    ||| name == "EQ_PEAK_HZ"@
    ||| name == "EQ_PEAK_Q"@
    ||| name == "EQ_HIGH_DB"@
    ||| name == "EQ_HIGH_HZ"@
    ||| name == "EQ_ON"@
}

/// The knob belongs to the room.
pub open spec fn is_room_knob(name: Seq<char>) -> bool {
    ||| name == "REVERB_RT60"@
    ||| name == "REVERB_WET"@
    ||| name == "REVERB_ON"@
}

/// The knob belongs to the compressor.
pub open spec fn is_comp_knob(name: Seq<char>) -> bool {
    ||| name == "COMP_THRESH_DB"@
    ||| name == "COMP_RATIO"@
    ||| name == "COMP_ATTACK_MS"@
    ||| name == "COMP_RELEASE_MS"@
    ||| name == "COMP_MAKEUP_DB"@
    ||| name == "COMP_DRIVE"@
    ||| name == "COMP_ON"@
}

/// The stage that a knob belongs to.
pub open spec fn stage_of(name: Seq<char>) -> Option<StageKind> {
    if is_eq_knob(name) {
        Some(StageKind::Eq)
    } else if is_room_knob(name) {
        Some(StageKind::Room)
    } else if is_comp_knob(name) {
        Some(StageKind::Comp)
    } else {
        None
    }
}

/// No knob belongs to two stages.
pub proof fn knobs_have_one_stage(name: Seq<char>)
    ensures
        !(is_eq_knob(name) && is_room_knob(name)),
        !(is_eq_knob(name) && is_comp_knob(name)),
        !(is_room_knob(name) && is_comp_knob(name)),
{
    reveal_strlit("EQ_LOW_DB");
    reveal_strlit("EQ_LOW_HZ");
    reveal_strlit("EQ_PEAK_DB");
    reveal_strlit("EQ_PEAK_HZ");
    reveal_strlit("EQ_PEAK_Q");
    reveal_strlit("EQ_HIGH_DB");
    reveal_strlit("EQ_HIGH_HZ");
    reveal_strlit("EQ_ON");
    reveal_strlit("REVERB_RT60");
    reveal_strlit("REVERB_WET");
    reveal_strlit("REVERB_ON");
    reveal_strlit("COMP_THRESH_DB");
    reveal_strlit("COMP_RATIO");
    reveal_strlit("COMP_ATTACK_MS");
    reveal_strlit("COMP_RELEASE_MS");
    reveal_strlit("COMP_MAKEUP_DB");
    reveal_strlit("COMP_DRIVE");
    reveal_strlit("COMP_ON");
    if is_eq_knob(name) {
        assert(name[0] == 'E');
    }
    if is_room_knob(name) {
        assert(name[0] == 'R');
    }
    if is_comp_knob(name) {
        assert(name[0] == 'C');
    }
}

/// The shipped knob values.
#[verifier::allow_in_spec]
pub fn shipped_stages() -> StageParams
    returns
        (StageParams {
            eq: EqParams {
                low_db: number(MINUS_TWO),
                low_hz: number(N300),
                peak_db: number(N4),
                peak_hz: number(N5000),
                peak_q: number(N0_8),
                high_db: number(N6),
                high_hz: number(N2500),
            },
            rt60: number(N1_5),
            wet: number(N0_35),
            comp: CompParams {
                thresh_db: number(DEFAULT_THRESHOLD),
                ratio: number(N2_5),
                attack_ms: number(N15),
                release_ms: number(N160),
                makeup_db: number(N3),
                drive: number(N0_12),
                on: true,
            },
            eq_on: true,
            reverb_on: true,
        }),
{
    StageParams {
        eq: EqParams {
            low_db: number(MINUS_TWO),
            low_hz: number(N300),
            peak_db: number(N4),
            peak_hz: number(N5000),
            peak_q: number(N0_8),
            high_db: number(N6),
            high_hz: number(N2500),
        },
        rt60: number(N1_5),
        wet: number(N0_35),
        comp: CompParams {
            thresh_db: number(DEFAULT_THRESHOLD),
            ratio: number(N2_5),
            attack_ms: number(N15),
            release_ms: number(N160),
            makeup_db: number(N3),
            drive: number(N0_12),
            on: true,
        },
        eq_on: true,
        reverb_on: true,
    }
}

impl StageParams {
    /// With the knob of that name set; an unknown name sets none.
    pub open spec fn with(self, name: Seq<char>, value: Single) -> StageParams {
        if name == "EQ_LOW_DB"@ {
            StageParams { eq: EqParams { low_db: value, ..self.eq }, ..self }
        } else if name == "EQ_LOW_HZ"@ {
            StageParams { eq: EqParams { low_hz: value, ..self.eq }, ..self }
        } else if name == "EQ_PEAK_DB"@ {
            StageParams { eq: EqParams { peak_db: value, ..self.eq }, ..self }
        } else if name == "EQ_PEAK_HZ"@ {
            StageParams { eq: EqParams { peak_hz: value, ..self.eq }, ..self }
        } else if name == "EQ_PEAK_Q"@ {
            StageParams { eq: EqParams { peak_q: value, ..self.eq }, ..self }
        } else if name == "EQ_HIGH_DB"@ {
            StageParams { eq: EqParams { high_db: value, ..self.eq }, ..self }
        } else if name == "EQ_HIGH_HZ"@ {
            StageParams { eq: EqParams { high_hz: value, ..self.eq }, ..self }
        } else if name == "EQ_ON"@ {
            StageParams { eq_on: spec_is_on(value), ..self }
        } else if name == "REVERB_RT60"@ {
            StageParams { rt60: value, ..self }
        } else if name == "REVERB_WET"@ {
            StageParams { wet: value, ..self }
        } else if name == "REVERB_ON"@ {
            StageParams { reverb_on: spec_is_on(value), ..self }
        } else if name == "COMP_THRESH_DB"@ {
            StageParams { comp: CompParams { thresh_db: value, ..self.comp }, ..self }
        } else if name == "COMP_RATIO"@ {
            StageParams { comp: CompParams { ratio: value, ..self.comp }, ..self }
        } else if name == "COMP_ATTACK_MS"@ {
            StageParams { comp: CompParams { attack_ms: value, ..self.comp }, ..self }
        } else if name == "COMP_RELEASE_MS"@ {
            StageParams { comp: CompParams { release_ms: value, ..self.comp }, ..self }
        } else if name == "COMP_MAKEUP_DB"@ {
            StageParams { comp: CompParams { makeup_db: value, ..self.comp }, ..self }
        } else if name == "COMP_DRIVE"@ {
            StageParams { comp: CompParams { drive: value, ..self.comp }, ..self }
        } else if name == "COMP_ON"@ {
            StageParams { comp: CompParams { on: spec_is_on(value), ..self.comp }, ..self }
        } else {
            self
        }
    }

    /// Sets the knob of that name, and tells the stage that it belongs to.
    pub fn set(&mut self, name: &str, value: Single) -> (stage: Option<StageKind>)
        ensures
            *final(self) == old(self).with(name@, value),
            stage == stage_of(name@),
    {
        proof {
            knobs_have_one_stage(name@);
        }
        if same_text(name, "EQ_LOW_DB") {
            self.eq.low_db = value;
            Some(StageKind::Eq)
        } else if same_text(name, "EQ_LOW_HZ") {
            self.eq.low_hz = value;
            Some(StageKind::Eq)
        } else if same_text(name, "EQ_PEAK_DB") {
            self.eq.peak_db = value;
            Some(StageKind::Eq)
        } else if same_text(name, "EQ_PEAK_HZ") {
            self.eq.peak_hz = value;
            Some(StageKind::Eq)
        } else if same_text(name, "EQ_PEAK_Q") {
            self.eq.peak_q = value;
            Some(StageKind::Eq)
        } else if same_text(name, "EQ_HIGH_DB") {
            self.eq.high_db = value;
            Some(StageKind::Eq)
        } else if same_text(name, "EQ_HIGH_HZ") {
            self.eq.high_hz = value;
            Some(StageKind::Eq)
        } else if same_text(name, "EQ_ON") {
            self.eq_on = is_on(value);
            Some(StageKind::Eq)
        } else if same_text(name, "REVERB_RT60") {
            self.rt60 = value;
            Some(StageKind::Room)
        } else if same_text(name, "REVERB_WET") {
            self.wet = value;
            Some(StageKind::Room)
        } else if same_text(name, "REVERB_ON") {
            self.reverb_on = is_on(value);
            Some(StageKind::Room)
        } else if same_text(name, "COMP_THRESH_DB") {
            self.comp.thresh_db = value;
            Some(StageKind::Comp)
        } else if same_text(name, "COMP_RATIO") {
            self.comp.ratio = value;
            Some(StageKind::Comp)
        } else if same_text(name, "COMP_ATTACK_MS") {
            self.comp.attack_ms = value;
            Some(StageKind::Comp)
        } else if same_text(name, "COMP_RELEASE_MS") {
            self.comp.release_ms = value;
            Some(StageKind::Comp)
        } else if same_text(name, "COMP_MAKEUP_DB") {
            self.comp.makeup_db = value;
            Some(StageKind::Comp)
        } else if same_text(name, "COMP_DRIVE") {
            self.comp.drive = value;
            Some(StageKind::Comp)
        } else if same_text(name, "COMP_ON") {
            self.comp.on = is_on(value);
            Some(StageKind::Comp)
        } else {
            None
        }
    }
}

/// The engine.
pub struct Engine<F: Fn(Op) -> Single> {
    synth: ModalV2<F>,
    eq: MasterEq,
    reverb: Reverb,
    comp: Compressor,
    sr: Single,
    p: StageParams,
    left: Vec<Single>,
    right: Vec<Single>,
}

/// What an engine is.
#[verifier::ext_equal]
pub struct EngineState<F: Fn(Op) -> Single> {
    pub synth: ModalState<F>,
    pub eq: EqState,
    pub room: RoomState,
    pub comp: Compressor,
    pub sr: Single,
    pub p: StageParams,
    pub left: Seq<Single>,
    pub right: Seq<Single>,
}

impl<F: Fn(Op) -> Single> View for Engine<F> {
    type V = EngineState<F>;

    closed spec fn view(&self) -> EngineState<F> {
        EngineState {
            synth: self.synth@,
            eq: self.eq@,
            room: self.reverb@,
            comp: self.comp,
            sr: self.sr,
            p: self.p,
            left: self.left@,
            right: self.right@,
        }
    }
}

impl<F: Fn(Op) -> Single> EngineState<F> {
    /// With a knob set: a knob of a stage rebuilds that stage alone, everything
    /// else goes to the instrument.
    pub open spec fn with_param(self, name: Seq<char>, value: Single) -> EngineState<F> {
        let p = self.p.with(name, value);
        match stage_of(name) {
            Some(StageKind::Eq) => EngineState { p, eq: eq_of(self.synth.k, self.sr, p.eq), ..self },
            Some(StageKind::Room) => EngineState {
                p,
                room: quiet_room(self.synth.k, self.sr, p.rt60, p.wet),
                ..self
            },
            Some(StageKind::Comp) => EngineState { p, comp: comp_of(self.synth.k, self.sr, p.comp), ..self },
            None => EngineState { synth: self.synth.with_knob(name, value), ..self },
        }
    }

    /// What the instrument plays for `n` frames.
    pub open spec fn dry(self, n: nat) -> Stereo {
        Stereo { left: self.synth.ring(n).left, right: self.synth.ring(n).right }
    }

    /// The same through the equalizer, if it is on.
    pub open spec fn equalized(self, n: nat) -> Stereo {
        if self.p.eq_on {
            self.dry(n).eq(self.synth.k, self.eq)
        } else {
            self.dry(n)
        }
    }

    /// The same through the room, if it is on.
    pub open spec fn roomy(self, n: nat) -> Stereo {
        if self.p.reverb_on {
            self.equalized(n).room(self.synth.k, self.room)
        } else {
            self.equalized(n)
        }
    }

    /// The same through the compressor, if it is on.
    pub open spec fn presented(self, n: nat) -> Stereo {
        if self.p.comp.on {
            self.roomy(n).comp(self.synth.k, self.comp)
        } else {
            self.roomy(n)
        }
    }

    /// The stages after `n` frames; the buffers begin with what was played, and
    /// go on as they were.
    pub open spec fn is_rendered(self, n: nat, after: EngineState<F>) -> bool {
        let k = self.synth.k;
        let out = self.presented(n);
        &&& after.synth == self.synth.played(n)
        &&& after.sr == self.sr
        &&& after.p == self.p
        &&& after.eq == (if self.p.eq_on {
            self.eq.after(k, self.dry(n).left, self.dry(n).right, n as int)
        } else {
            self.eq
        })
        &&& after.room == (if self.p.reverb_on {
            self.room.after(k, self.equalized(n).left, self.equalized(n).right, n as int)
        } else {
            self.room
        })
        &&& after.comp == (if self.p.comp.on {
            self.comp.after(k, self.roomy(n).left, self.roomy(n).right, n as int)
        } else {
            self.comp
        })
        &&& after.left.len() == (if self.left.len() < n {
            n
        } else {
            self.left.len()
        })
        &&& after.right.len() == after.left.len()
        &&& after.left.take(n as int) == out.left
        &&& after.right.take(n as int) == out.right
        &&& self.left.len() >= n ==> after.left.skip(n as int) == self.left.skip(n as int)
        &&& self.left.len() >= n ==> after.right.skip(n as int) == self.right.skip(n as int)
    }
}

impl<F: Fn(Op) -> Single> Engine<F> {
    pub closed spec fn wf(self) -> bool {
        self.synth.ready() && self.reverb.wf() && self.left@.len() == self.right@.len()
    }

    /// The instrument of an engine in use is consistent.
    pub proof fn lemma_wf(&self)
        requires
            self.wf(),
        ensures
            self@.synth.consistent(),
    {
        self.synth.lemma_ready();
    }

    /// An engine with the shipped knob values.
    pub fn new(k: Arith<F>, sr: Single, cal: Calibration, knobs: Knobs) -> (r: Engine<F>)
        requires
            cal.wf(),
            cal@.len() > 0,
        ensures
            r.wf(),
            r@.synth == new_modal(k, sr, cal@, knobs, tuned_strings(k, sr, cal@)),
            r@.eq == eq_of(k, sr, shipped_stages().eq),
            r@.room == quiet_room(k, sr, shipped_stages().rt60, shipped_stages().wet),
            r@.comp == comp_of(k, sr, shipped_stages().comp),
            r@.sr == sr,
            r@.p == shipped_stages(),
            r@.left == Seq::new(FRAMES as nat, |i: int| zero()),
            r@.right == Seq::new(FRAMES as nat, |i: int| zero()),
    {
        let p: StageParams = shipped_stages();
        let eq = MasterEq::with_params(&k, sr, p.eq);
        let reverb = Reverb::new(&k, sr, p.rt60, p.wet);
        let comp = Compressor::with_params(&k, sr, p.comp);
        let r = Engine {
            synth: ModalV2::new(k, sr, cal, knobs),
            eq,
            reverb,
            comp,
            sr,
            p,
            left: vec![zero(); 2048],
            right: vec![zero(); 2048],
        };
        assert(r@.left =~= Seq::new(FRAMES as nat, |i: int| zero()));
        assert(r@.right =~= Seq::new(FRAMES as nat, |i: int| zero()));
        r
    }

    /// Strikes a key.
    pub fn note_on(&mut self, note: u8, velocity: u8)
        requires
            old(self).wf(),
            note < 128,
        ensures
            final(self).wf(),
            final(self)@ == (EngineState { synth: old(self)@.synth.struck(note, velocity), ..old(self)@ }),
    {
        self.synth.note_on(note, velocity);
    }

    /// Lets a key go.
    pub fn note_off(&mut self, note: u8)
        requires
            old(self).wf(),
            note < 128,
        ensures
            final(self).wf(),
            final(self)@ == (EngineState { synth: old(self)@.synth.let_go(note), ..old(self)@ }),
    {
        self.synth.note_off(note);
    }

    /// Moves the sustain pedal.
    pub fn set_sustain(&mut self, position: Single)
        requires
            old(self).wf(),
        ensures
            final(self).wf(),
            final(self)@ == (EngineState { synth: old(self)@.synth.pedal(position), ..old(self)@ }),
    {
        self.synth.set_sustain(position);
    }

    /// Moves a controller.
    pub fn set_control(&mut self, controller: u8, value: Single)
        requires
            old(self).wf(),
        ensures
            final(self).wf(),
            final(self)@ == (EngineState { synth: old(self)@.synth.control(controller, value), ..old(self)@ }),
    {
        self.synth.set_control(controller, value);
    }

    /// Sets any knob by the name of its setting without the common prefix.
    pub fn set_param(&mut self, name: &str, value: Single)
        requires
            old(self).wf(),
        ensures
            final(self).wf(),
            final(self)@ == old(self)@.with_param(name@, value),
    {
        let ghost before = self@;
        let mut p: StageParams = self.p;
        let stage: Option<StageKind> = p.set(name, value);
        match stage {
            Some(StageKind::Eq) => {
                self.p = p;
                self.eq = MasterEq::with_params(self.synth.arith(), self.sr, p.eq);
            },
            Some(StageKind::Room) => {
                self.p = p;
                self.reverb = Reverb::new(self.synth.arith(), self.sr, p.rt60, p.wet);
            },
            Some(StageKind::Comp) => {
                self.p = p;
                self.comp = Compressor::with_params(self.synth.arith(), self.sr, p.comp);
            },
            None => {
                self.synth.set_param(name, value);
            },
        }
        assert(self@ =~= before.with_param(name@, value));
    }

    /// Renders `frames` frames into the buffers.
    #[verifier::rlimit(30)]
    pub fn render(&mut self, frames: usize)
        requires
            old(self).wf(),
        ensures
            final(self).wf(),
            old(self)@.is_rendered(frames as nat, final(self)@),
    {
        let ghost before = self@;
        let ghost n = frames as int;
        if self.left.len() < frames {
            self.left.resize(frames, zero());
            self.right.resize(frames, zero());
        }
        let ghost rest_l = self.left@.skip(n);
        let ghost rest_r = self.right@.skip(n);
        let (l, l_rest) = self.left.as_mut_slice().split_at_mut(frames);
        let (r, r_rest) = self.right.as_mut_slice().split_at_mut(frames);
        self.synth.process(l, r);
        if self.p.eq_on {
            self.eq.process(self.synth.arith(), l, r);
        }
        if self.p.reverb_on {
            self.reverb.process(self.synth.arith(), l, r);
        }
        if self.p.comp.on {
            self.comp.process(self.synth.arith(), l, r);
        }
        let ghost out_l = l@;
        let ghost out_r = r@;
        assert(self.left@.take(n) =~= out_l);
        assert(self.right@.take(n) =~= out_r);
        assert(self.left@.skip(n) =~= rest_l);
        assert(self.right@.skip(n) =~= rest_r);
    }

    /// The left buffer.
    pub fn left(&self) -> (r: &[Single])
        ensures
            r@ == self@.left,
    {
        self.left.as_slice()
    }

    /// The right buffer.
    pub fn right(&self) -> (r: &[Single])
        ensures
            r@ == self@.right,
    {
        self.right.as_slice()
    }
}

/// A knob of one stage leaves the instrument and the other stages as they are.
pub proof fn tuning_is_local<F: Fn(Op) -> Single>(e: EngineState<F>, name: Seq<char>, value: Single)
    ensures
        stage_of(name) is Some ==> e.with_param(name, value).synth == e.synth,
        stage_of(name) != Some(StageKind::Eq) ==> e.with_param(name, value).eq == e.eq,
        stage_of(name) != Some(StageKind::Room) ==> e.with_param(name, value).room == e.room,
        stage_of(name) != Some(StageKind::Comp) ==> e.with_param(name, value).comp == e.comp,
        e.with_param(name, value).synth.voices == e.synth.voices,
{
}

/// The knobs of the stages go by the names of the settings too: to set one to
/// what the host has set it to changes nothing. The switches of the equalizer
/// and of the room are not settings of the host.
pub proof fn stages_go_by_settings<G: Fn(&'static str) -> Option<Single>>(
    get: G,
    p: StageParams,
    name: Seq<char>,
    value: Single,
)
    requires
        eq_settings(get, p.eq),
        room_settings(get, p.rt60, p.wet),
        comp_settings(get, p.comp),
        is_given(get, name, value),
        name != "EQ_ON"@,
        name != "REVERB_ON"@,
    ensures
        p.with(name, value) == p,
{
    reveal_strlit("PIANO_");
    if name == "EQ_LOW_DB"@ {
        reveal_strlit("EQ_LOW_DB");
        reveal_strlit("PIANO_EQ_LOW_DB");
        assert("PIANO_EQ_LOW_DB"@ =~= setting_name(name));
        given_settings_stand(get, name, value, "PIANO_EQ_LOW_DB", MINUS_TWO, p.eq.low_db);
    } else if name == "EQ_LOW_HZ"@ {
        reveal_strlit("EQ_LOW_HZ");
        reveal_strlit("PIANO_EQ_LOW_HZ");
        assert("PIANO_EQ_LOW_HZ"@ =~= setting_name(name));
        given_settings_stand(get, name, value, "PIANO_EQ_LOW_HZ", N300, p.eq.low_hz);
    } else if name == "EQ_PEAK_DB"@ {
        reveal_strlit("EQ_PEAK_DB");
        reveal_strlit("PIANO_EQ_PEAK_DB");
        assert("PIANO_EQ_PEAK_DB"@ =~= setting_name(name));
        given_settings_stand(get, name, value, "PIANO_EQ_PEAK_DB", N4, p.eq.peak_db);
    } else if name == "EQ_PEAK_HZ"@ {
        reveal_strlit("EQ_PEAK_HZ");
        reveal_strlit("PIANO_EQ_PEAK_HZ");
        assert("PIANO_EQ_PEAK_HZ"@ =~= setting_name(name));
        given_settings_stand(get, name, value, "PIANO_EQ_PEAK_HZ", N5000, p.eq.peak_hz);
    } else if name == "EQ_PEAK_Q"@ {
        reveal_strlit("EQ_PEAK_Q");
        reveal_strlit("PIANO_EQ_PEAK_Q");
        assert("PIANO_EQ_PEAK_Q"@ =~= setting_name(name));
        given_settings_stand(get, name, value, "PIANO_EQ_PEAK_Q", N0_8, p.eq.peak_q);
    } else if name == "EQ_HIGH_DB"@ {
        reveal_strlit("EQ_HIGH_DB");
        reveal_strlit("PIANO_EQ_HIGH_DB");
        assert("PIANO_EQ_HIGH_DB"@ =~= setting_name(name));
        given_settings_stand(get, name, value, "PIANO_EQ_HIGH_DB", N6, p.eq.high_db);
    } else if name == "EQ_HIGH_HZ"@ {
        reveal_strlit("EQ_HIGH_HZ");
        reveal_strlit("PIANO_EQ_HIGH_HZ");
        assert("PIANO_EQ_HIGH_HZ"@ =~= setting_name(name));
        given_settings_stand(get, name, value, "PIANO_EQ_HIGH_HZ", N2500, p.eq.high_hz);
    } else if name == "REVERB_RT60"@ {
        reveal_strlit("REVERB_RT60");
        reveal_strlit("PIANO_REVERB_RT60");
        assert("PIANO_REVERB_RT60"@ =~= setting_name(name));
        given_settings_stand(get, name, value, "PIANO_REVERB_RT60", N1_5, p.rt60);
    } else if name == "REVERB_WET"@ {
        reveal_strlit("REVERB_WET");
        reveal_strlit("PIANO_REVERB_WET");
        assert("PIANO_REVERB_WET"@ =~= setting_name(name));
        given_settings_stand(get, name, value, "PIANO_REVERB_WET", N0_5, p.wet);
    } else if name == "COMP_THRESH_DB"@ {
        reveal_strlit("COMP_THRESH_DB");
        reveal_strlit("PIANO_COMP_THRESH_DB");
        assert("PIANO_COMP_THRESH_DB"@ =~= setting_name(name));
        given_settings_stand(get, name, value, "PIANO_COMP_THRESH_DB", DEFAULT_THRESHOLD, p.comp.thresh_db);
    } else if name == "COMP_RATIO"@ {
        reveal_strlit("COMP_RATIO");
        reveal_strlit("PIANO_COMP_RATIO");
        assert("PIANO_COMP_RATIO"@ =~= setting_name(name));
        given_settings_stand(get, name, value, "PIANO_COMP_RATIO", N2_5, p.comp.ratio);
    } else if name == "COMP_ATTACK_MS"@ {
        reveal_strlit("COMP_ATTACK_MS");
        reveal_strlit("PIANO_COMP_ATTACK_MS");
        assert("PIANO_COMP_ATTACK_MS"@ =~= setting_name(name));
        given_settings_stand(get, name, value, "PIANO_COMP_ATTACK_MS", N15, p.comp.attack_ms);
    } else if name == "COMP_RELEASE_MS"@ {
        reveal_strlit("COMP_RELEASE_MS");
        reveal_strlit("PIANO_COMP_RELEASE_MS");
        assert("PIANO_COMP_RELEASE_MS"@ =~= setting_name(name));
        given_settings_stand(get, name, value, "PIANO_COMP_RELEASE_MS", N160, p.comp.release_ms);
    } else if name == "COMP_MAKEUP_DB"@ {
        reveal_strlit("COMP_MAKEUP_DB");
        reveal_strlit("PIANO_COMP_MAKEUP_DB");
        assert("PIANO_COMP_MAKEUP_DB"@ =~= setting_name(name));
        given_settings_stand(get, name, value, "PIANO_COMP_MAKEUP_DB", N3, p.comp.makeup_db);
    } else if name == "COMP_DRIVE"@ {
        reveal_strlit("COMP_DRIVE");
        reveal_strlit("PIANO_COMP_DRIVE");
        assert("PIANO_COMP_DRIVE"@ =~= setting_name(name));
        given_settings_stand(get, name, value, "PIANO_COMP_DRIVE", N0_12, p.comp.drive);
    } else if name == "COMP_ON"@ {
        reveal_strlit("COMP_ON");
        reveal_strlit("PIANO_COMP_ON");
        assert("PIANO_COMP_ON"@ =~= setting_name(name));
        let on = choose|on: Single| #[trigger]
            is_setting(get, "PIANO_COMP_ON", SINGLE_ONE, on) && p.comp.on == spec_is_on(on);
        given_settings_stand(get, name, value, "PIANO_COMP_ON", SINGLE_ONE, on);
    }
}

/// A name that is neither of a stage nor of the instrument changes nothing.
pub proof fn unknown_names_change_nothing<F: Fn(Op) -> Single>(e: EngineState<F>, name: Seq<char>, value: Single)
    requires
        e.synth.consistent(),
        stage_of(name) is None,
        !is_knob(name),
    ensures
        e.with_param(name, value) == e,
{
    unknown_knobs_change_nothing(e.synth, name, value);
}

/// A switch takes the value given, whatever it was before: it is on from one
/// half upward, and off for everything else.
pub proof fn switches_take_their_value(p: StageParams, value: Single)
    ensures
        p.with("EQ_ON"@, value).eq_on <==> number(0x3F00_0000).le(value),
        p.with("REVERB_ON"@, value).reverb_on <==> number(0x3F00_0000).le(value),
        p.with("COMP_ON"@, value).comp.on <==> number(0x3F00_0000).le(value),
{
    reveal_strlit("EQ_LOW_DB");
    reveal_strlit("EQ_LOW_HZ");
    reveal_strlit("EQ_PEAK_DB");
    reveal_strlit("EQ_PEAK_HZ");
    reveal_strlit("EQ_PEAK_Q");
    reveal_strlit("EQ_HIGH_DB");
    reveal_strlit("EQ_HIGH_HZ");
    reveal_strlit("EQ_ON");
    reveal_strlit("REVERB_RT60");
    reveal_strlit("REVERB_WET");
    reveal_strlit("REVERB_ON");
    reveal_strlit("COMP_THRESH_DB");
    reveal_strlit("COMP_RATIO");
    reveal_strlit("COMP_ATTACK_MS");
    reveal_strlit("COMP_RELEASE_MS");
    reveal_strlit("COMP_MAKEUP_DB");
    reveal_strlit("COMP_DRIVE");
    reveal_strlit("COMP_ON");
    assert("EQ_LOW_DB"@.len() == 9);
    assert("EQ_LOW_HZ"@.len() == 9);
    assert("EQ_PEAK_DB"@.len() == 10);
    assert("EQ_PEAK_HZ"@.len() == 10);
    assert("EQ_PEAK_Q"@.len() == 9);
    assert("EQ_HIGH_DB"@.len() == 10);
    assert("EQ_HIGH_HZ"@.len() == 10);
    assert("EQ_ON"@.len() == 5);
    assert("REVERB_RT60"@.len() == 11);
    assert("REVERB_WET"@.len() == 10);
    assert("REVERB_ON"@.len() == 9);
    assert("COMP_THRESH_DB"@.len() == 14);
    assert("COMP_RATIO"@.len() == 10);
    assert("COMP_ATTACK_MS"@.len() == 14);
    assert("COMP_RELEASE_MS"@.len() == 15);
    assert("COMP_MAKEUP_DB"@.len() == 14);
    assert("COMP_DRIVE"@.len() == 10);
    assert("COMP_ON"@.len() == 7);
    assert("EQ_LOW_DB"@[7] != "EQ_LOW_HZ"@[7]);
    assert("EQ_LOW_DB"@[3] != "EQ_PEAK_Q"@[3]);
    assert("EQ_LOW_DB"@[0] != "REVERB_ON"@[0]);
    assert("EQ_LOW_HZ"@[3] != "EQ_PEAK_Q"@[3]);
    assert("EQ_LOW_HZ"@[0] != "REVERB_ON"@[0]);
    assert("EQ_PEAK_DB"@[8] != "EQ_PEAK_HZ"@[8]);
    assert("EQ_PEAK_DB"@[3] != "EQ_HIGH_DB"@[3]);
    assert("EQ_PEAK_DB"@[3] != "EQ_HIGH_HZ"@[3]);
    assert("EQ_PEAK_DB"@[0] != "REVERB_WET"@[0]);
    assert("EQ_PEAK_DB"@[0] != "COMP_RATIO"@[0]);
    assert("EQ_PEAK_DB"@[0] != "COMP_DRIVE"@[0]);
    assert("EQ_PEAK_HZ"@[3] != "EQ_HIGH_DB"@[3]);
    assert("EQ_PEAK_HZ"@[3] != "EQ_HIGH_HZ"@[3]);
    assert("EQ_PEAK_HZ"@[0] != "REVERB_WET"@[0]);
    assert("EQ_PEAK_HZ"@[0] != "COMP_RATIO"@[0]);
    assert("EQ_PEAK_HZ"@[0] != "COMP_DRIVE"@[0]);
    assert("EQ_PEAK_Q"@[0] != "REVERB_ON"@[0]);
    assert("EQ_HIGH_DB"@[8] != "EQ_HIGH_HZ"@[8]);
    assert("EQ_HIGH_DB"@[0] != "REVERB_WET"@[0]);
    assert("EQ_HIGH_DB"@[0] != "COMP_RATIO"@[0]);
    assert("EQ_HIGH_DB"@[0] != "COMP_DRIVE"@[0]);
    assert("EQ_HIGH_HZ"@[0] != "REVERB_WET"@[0]);
    assert("EQ_HIGH_HZ"@[0] != "COMP_RATIO"@[0]);
    assert("EQ_HIGH_HZ"@[0] != "COMP_DRIVE"@[0]);
    assert("REVERB_WET"@[0] != "COMP_RATIO"@[0]);
    assert("REVERB_WET"@[0] != "COMP_DRIVE"@[0]);
    assert("COMP_THRESH_DB"@[5] != "COMP_ATTACK_MS"@[5]);
    assert("COMP_THRESH_DB"@[5] != "COMP_MAKEUP_DB"@[5]);
    assert("COMP_RATIO"@[5] != "COMP_DRIVE"@[5]);
    assert("COMP_ATTACK_MS"@[5] != "COMP_MAKEUP_DB"@[5]);
}

/// A knob takes the value given, whatever it was before.
pub proof fn stage_knobs_take_their_value(p: StageParams, value: Single)
    ensures
        p.with("EQ_LOW_DB"@, value).eq.low_db == value,
        p.with("EQ_LOW_HZ"@, value).eq.low_hz == value,
        p.with("EQ_PEAK_DB"@, value).eq.peak_db == value,
        p.with("EQ_PEAK_HZ"@, value).eq.peak_hz == value,
        p.with("EQ_PEAK_Q"@, value).eq.peak_q == value,
        p.with("EQ_HIGH_DB"@, value).eq.high_db == value,
        p.with("EQ_HIGH_HZ"@, value).eq.high_hz == value,
        p.with("REVERB_RT60"@, value).rt60 == value,
        p.with("REVERB_WET"@, value).wet == value,
        p.with("COMP_THRESH_DB"@, value).comp.thresh_db == value,
        p.with("COMP_RATIO"@, value).comp.ratio == value,
        p.with("COMP_ATTACK_MS"@, value).comp.attack_ms == value,
        p.with("COMP_RELEASE_MS"@, value).comp.release_ms == value,
        p.with("COMP_MAKEUP_DB"@, value).comp.makeup_db == value,
        p.with("COMP_DRIVE"@, value).comp.drive == value,
{
    reveal_strlit("EQ_LOW_DB");
    reveal_strlit("EQ_LOW_HZ");
    reveal_strlit("EQ_PEAK_DB");
    reveal_strlit("EQ_PEAK_HZ");
    reveal_strlit("EQ_PEAK_Q");
    reveal_strlit("EQ_HIGH_DB");
    reveal_strlit("EQ_HIGH_HZ");
    reveal_strlit("EQ_ON");
    reveal_strlit("REVERB_RT60");
    reveal_strlit("REVERB_WET");
    reveal_strlit("REVERB_ON");
    reveal_strlit("COMP_THRESH_DB");
    reveal_strlit("COMP_RATIO");
    reveal_strlit("COMP_ATTACK_MS");
    reveal_strlit("COMP_RELEASE_MS");
    reveal_strlit("COMP_MAKEUP_DB");
    reveal_strlit("COMP_DRIVE");
    reveal_strlit("COMP_ON");
    assert("EQ_LOW_DB"@.len() == 9);
    assert("EQ_LOW_HZ"@.len() == 9);
    assert("EQ_PEAK_DB"@.len() == 10);
    assert("EQ_PEAK_HZ"@.len() == 10);
    assert("EQ_PEAK_Q"@.len() == 9);
    assert("EQ_HIGH_DB"@.len() == 10);
    assert("EQ_HIGH_HZ"@.len() == 10);
    assert("EQ_ON"@.len() == 5);
    assert("REVERB_RT60"@.len() == 11);
    assert("REVERB_WET"@.len() == 10);
    assert("REVERB_ON"@.len() == 9);
    assert("COMP_THRESH_DB"@.len() == 14);
    assert("COMP_RATIO"@.len() == 10);
    assert("COMP_ATTACK_MS"@.len() == 14);
    assert("COMP_RELEASE_MS"@.len() == 15);
    assert("COMP_MAKEUP_DB"@.len() == 14);
    assert("COMP_DRIVE"@.len() == 10);
    assert("COMP_ON"@.len() == 7);
    assert("EQ_LOW_DB"@[7] != "EQ_LOW_HZ"@[7]);
    assert("EQ_LOW_DB"@[3] != "EQ_PEAK_Q"@[3]);
    assert("EQ_LOW_DB"@[0] != "REVERB_ON"@[0]);
    assert("EQ_LOW_HZ"@[3] != "EQ_PEAK_Q"@[3]);
    assert("EQ_LOW_HZ"@[0] != "REVERB_ON"@[0]);
    assert("EQ_PEAK_DB"@[8] != "EQ_PEAK_HZ"@[8]);
    assert("EQ_PEAK_DB"@[3] != "EQ_HIGH_DB"@[3]);
    assert("EQ_PEAK_DB"@[3] != "EQ_HIGH_HZ"@[3]);
    assert("EQ_PEAK_DB"@[0] != "REVERB_WET"@[0]);
    assert("EQ_PEAK_DB"@[0] != "COMP_RATIO"@[0]);
    assert("EQ_PEAK_DB"@[0] != "COMP_DRIVE"@[0]);
    assert("EQ_PEAK_HZ"@[3] != "EQ_HIGH_DB"@[3]);
    assert("EQ_PEAK_HZ"@[3] != "EQ_HIGH_HZ"@[3]);
    assert("EQ_PEAK_HZ"@[0] != "REVERB_WET"@[0]);
    assert("EQ_PEAK_HZ"@[0] != "COMP_RATIO"@[0]);
    assert("EQ_PEAK_HZ"@[0] != "COMP_DRIVE"@[0]);
    assert("EQ_PEAK_Q"@[0] != "REVERB_ON"@[0]);
    assert("EQ_HIGH_DB"@[8] != "EQ_HIGH_HZ"@[8]);
    assert("EQ_HIGH_DB"@[0] != "REVERB_WET"@[0]);
    assert("EQ_HIGH_DB"@[0] != "COMP_RATIO"@[0]);
    assert("EQ_HIGH_DB"@[0] != "COMP_DRIVE"@[0]);
    assert("EQ_HIGH_HZ"@[0] != "REVERB_WET"@[0]);
    assert("EQ_HIGH_HZ"@[0] != "COMP_RATIO"@[0]);
    assert("EQ_HIGH_HZ"@[0] != "COMP_DRIVE"@[0]);
    assert("REVERB_WET"@[0] != "COMP_RATIO"@[0]);
    assert("REVERB_WET"@[0] != "COMP_DRIVE"@[0]);
    assert("COMP_THRESH_DB"@[5] != "COMP_ATTACK_MS"@[5]);
    assert("COMP_THRESH_DB"@[5] != "COMP_MAKEUP_DB"@[5]);
    assert("COMP_RATIO"@[5] != "COMP_DRIVE"@[5]);
    assert("COMP_ATTACK_MS"@[5] != "COMP_MAKEUP_DB"@[5]);
}

/// Of two settings of one knob the last one stands.
pub proof fn last_setting_stands(p: StageParams, name: Seq<char>, first: Single, last: Single)
    ensures
        p.with(name, first).with(name, last) == p.with(name, last),
{
}

/// Knobs are independent: two of them can be set in either order.
pub proof fn stage_knobs_are_independent(p: StageParams, m: Seq<char>, a: Single, n: Seq<char>, b: Single)
    requires
        m != n,
    ensures
        p.with(m, a).with(n, b) == p.with(n, b).with(m, a),
{
}

/// A name of no stage leaves the settings of all stages as they are, and every
/// knob of a stage but a switch tells two values that differ apart.
pub proof fn every_stage_knob_counts(p: StageParams, name: Seq<char>, a: Single, b: Single)
    ensures
        stage_of(name) is None ==> p.with(name, a) == p,
        stage_of(name) is Some && a != b && name != "EQ_ON"@ && name != "REVERB_ON"@ && name != "COMP_ON"@
            ==> p.with(name, a) != p.with(name, b),
{
}

/// A stage whose knob was turned is the one that an engine with those settings
/// is made with: turning a knob keeps nothing of what the stage was before.
pub proof fn turned_stages_are_as_new<F: Fn(Op) -> Single>(e: EngineState<F>, name: Seq<char>, value: Single)
    ensures
        stage_of(name) is Some ==> e.with_param(name, value).p == e.p.with(name, value),
        stage_of(name) is None ==> e.with_param(name, value).p == e.p,
        stage_of(name) == Some(StageKind::Eq) ==> e.with_param(name, value).eq == eq_of(
            e.synth.k,
            e.sr,
            e.p.with(name, value).eq,
        ),
        stage_of(name) == Some(StageKind::Room) ==> e.with_param(name, value).room == quiet_room(
            e.synth.k,
            e.sr,
            e.p.with(name, value).rt60,
            e.p.with(name, value).wet,
        ),
        stage_of(name) == Some(StageKind::Comp) ==> e.with_param(name, value).comp == comp_of(
            e.synth.k,
            e.sr,
            e.p.with(name, value).comp,
        ),
        stage_of(name) is None ==> e.with_param(name, value).synth.knobs == e.synth.knobs.with(name, value),
        e.with_param(name, value).sr == e.sr,
        e.with_param(name, value).left == e.left,
        e.with_param(name, value).right == e.right,
{
}

/// Of two settings of one knob of the engine the last one stands.
pub proof fn last_param_stands<F: Fn(Op) -> Single>(e: EngineState<F>, name: Seq<char>, first: Single, last: Single)
    ensures
        e.with_param(name, first).with_param(name, last) == e.with_param(name, last),
{
    last_setting_stands(e.p, name, first, last);
    last_knob_stands(e.synth.knobs, name, first, last);
}

/// What is rendered is what the instrument plays, through the stages that are
/// on and through no other: through none, the instrument itself; through one,
/// that stage of it; through all, the presentation chain that renders files.
pub proof fn rendering_goes_through_stages<F: Fn(Op) -> Single>(e: EngineState<F>, n: nat, after: EngineState<F>)
    requires
        e.is_rendered(n, after),
    ensures
        after.synth == e.synth.played(n),
        ({
            let k = e.synth.k;
            let dry = Stereo { left: e.synth.ring(n).left, right: e.synth.ring(n).right };
            let out = Stereo { left: after.left.take(n as int), right: after.right.take(n as int) };
            match (e.p.eq_on, e.p.reverb_on, e.p.comp.on) {
                (false, false, false) => out == dry,
                (true, false, false) => out == dry.eq(k, e.eq),
                (false, true, false) => out == dry.room(k, e.room),
                (false, false, true) => out == dry.comp(k, e.comp),
                (true, true, false) => out == dry.eq(k, e.eq).room(k, e.room),
                (true, false, true) => out == dry.eq(k, e.eq).comp(k, e.comp),
                (false, true, true) => out == dry.room(k, e.room).comp(k, e.comp),
                (true, true, true) => out == dry.presented(k, e.eq, e.room, e.comp),
            }
        }),
        !e.p.eq_on ==> after.eq == e.eq,
        !e.p.reverb_on ==> after.room == e.room,
        !e.p.comp.on ==> after.comp == e.comp,
        after.p == e.p,
{
}

/// An engine starts as a host without settings has it, but for the room, which
/// is mixed in at 0.35.
pub proof fn engines_start_as_shipped<G: Fn(&'static str) -> Option<Single>>(get: G, eq: EqParams, comp: CompParams, rt60: Single, wet: Single)
    requires
        forall|name: &'static str, given: Option<Single>| call_ensures(get, (name,), given) ==> given is None,
        eq_settings(get, eq),
        comp_settings(get, comp),
        room_settings(get, rt60, wet),
    ensures
        shipped_stages().eq == eq,
        shipped_stages().comp == comp,
        shipped_stages().rt60 == rt60,
        shipped_stages().wet == number(0x3EB3_3333),
        wet == number(0x3F00_0000),
        shipped_stages().eq_on,
        shipped_stages().reverb_on,
{
}

/// The stages that are on remember what went through them, each what reached it;
/// the buffers grow to what is asked for and keep what lies beyond it.
pub proof fn rendering_leaves_its_traces<F: Fn(Op) -> Single>(e: EngineState<F>, n: nat, after: EngineState<F>)
    requires
        e.is_rendered(n, after),
    ensures
        ({
            let k = e.synth.k;
            let dry = Stereo { left: e.synth.ring(n).left, right: e.synth.ring(n).right };
            let bright = if e.p.eq_on {
                dry.eq(k, e.eq)
            } else {
                dry
            };
            let wet = if e.p.reverb_on {
                bright.room(k, e.room)
            } else {
                bright
            };
            &&& e.p.eq_on ==> after.eq == e.eq.after(k, dry.left, dry.right, n as int)
            &&& e.p.reverb_on ==> after.room == e.room.after(k, bright.left, bright.right, n as int)
            &&& e.p.comp.on ==> after.comp == e.comp.after(k, wet.left, wet.right, n as int)
        }),
        e.left.len() < n ==> after.left.len() == n,
        e.left.len() >= n ==> after.left.len() == e.left.len() && after.left.skip(n as int) == e.left.skip(n as int)
            && after.right.skip(n as int) == e.right.skip(n as int),
        after.right.len() == after.left.len(),
{
}

/// Every knob has its place: the names of the equalizer, of the room and of the
/// compressor belong to them, and those of the instrument to none of the three.
pub proof fn knobs_have_their_place()
    ensures
        stage_of("EQ_LOW_DB"@) == Some(StageKind::Eq),
        stage_of("EQ_LOW_HZ"@) == Some(StageKind::Eq),
        stage_of("EQ_PEAK_DB"@) == Some(StageKind::Eq),
        stage_of("EQ_PEAK_HZ"@) == Some(StageKind::Eq),
        stage_of("EQ_PEAK_Q"@) == Some(StageKind::Eq),
        stage_of("EQ_HIGH_DB"@) == Some(StageKind::Eq),
        stage_of("EQ_HIGH_HZ"@) == Some(StageKind::Eq),
        stage_of("EQ_ON"@) == Some(StageKind::Eq),
        stage_of("REVERB_RT60"@) == Some(StageKind::Room),
        stage_of("REVERB_WET"@) == Some(StageKind::Room),
        stage_of("REVERB_ON"@) == Some(StageKind::Room),
        stage_of("COMP_THRESH_DB"@) == Some(StageKind::Comp),
        stage_of("COMP_RATIO"@) == Some(StageKind::Comp),
        stage_of("COMP_ATTACK_MS"@) == Some(StageKind::Comp),
        stage_of("COMP_RELEASE_MS"@) == Some(StageKind::Comp),
        stage_of("COMP_MAKEUP_DB"@) == Some(StageKind::Comp),
        stage_of("COMP_DRIVE"@) == Some(StageKind::Comp),
        stage_of("COMP_ON"@) == Some(StageKind::Comp),
        stage_of("DETUNE_SCALE"@) is None && is_knob("DETUNE_SCALE"@),
        stage_of("ATTACK_SCALE"@) is None && is_knob("ATTACK_SCALE"@),
        stage_of("GLIDE_CENTS"@) is None && is_knob("GLIDE_CENTS"@),
        stage_of("BED_GAIN"@) is None && is_knob("BED_GAIN"@),
        stage_of("NOISE_GAIN"@) is None && is_knob("NOISE_GAIN"@),
        stage_of("SPLIT_MAX"@) is None && is_knob("SPLIT_MAX"@),
        stage_of("FAST_SCALE"@) is None && is_knob("FAST_SCALE"@),
        stage_of("BANK_DRIVE"@) is None && is_knob("BANK_DRIVE"@),
        stage_of("BANK_PING"@) is None && is_knob("BANK_PING"@),
        stage_of("BODY_GAIN"@) is None && is_knob("BODY_GAIN"@),
{
    reveal_strlit("EQ_LOW_DB");
    reveal_strlit("EQ_LOW_HZ");
    reveal_strlit("EQ_PEAK_DB");
    reveal_strlit("EQ_PEAK_HZ");
    reveal_strlit("EQ_PEAK_Q");
    reveal_strlit("EQ_HIGH_DB");
    reveal_strlit("EQ_HIGH_HZ");
    reveal_strlit("EQ_ON");
    reveal_strlit("REVERB_RT60");
    reveal_strlit("REVERB_WET");
    reveal_strlit("REVERB_ON");
    reveal_strlit("COMP_THRESH_DB");
    reveal_strlit("COMP_RATIO");
    reveal_strlit("COMP_ATTACK_MS");
    reveal_strlit("COMP_RELEASE_MS");
    reveal_strlit("COMP_MAKEUP_DB");
    reveal_strlit("COMP_DRIVE");
    reveal_strlit("COMP_ON");
    reveal_strlit("DETUNE_SCALE");
    reveal_strlit("ATTACK_SCALE");
    reveal_strlit("GLIDE_CENTS");
    reveal_strlit("BED_GAIN");
    reveal_strlit("NOISE_GAIN");
    reveal_strlit("SPLIT_MAX");
    reveal_strlit("FAST_SCALE");
    reveal_strlit("BANK_DRIVE");
    reveal_strlit("BANK_PING");
    reveal_strlit("BODY_GAIN");
    assert("EQ_LOW_DB"@[0] == 'E' && "EQ_LOW_DB"@[1] == 'Q');
    assert("EQ_LOW_HZ"@[0] == 'E' && "EQ_LOW_HZ"@[1] == 'Q');
    assert("EQ_PEAK_DB"@[0] == 'E' && "EQ_PEAK_DB"@[1] == 'Q');
    assert("EQ_PEAK_HZ"@[0] == 'E' && "EQ_PEAK_HZ"@[1] == 'Q');
    assert("EQ_PEAK_Q"@[0] == 'E' && "EQ_PEAK_Q"@[1] == 'Q');
    assert("EQ_HIGH_DB"@[0] == 'E' && "EQ_HIGH_DB"@[1] == 'Q');
    assert("EQ_HIGH_HZ"@[0] == 'E' && "EQ_HIGH_HZ"@[1] == 'Q');
    assert("EQ_ON"@[0] == 'E' && "EQ_ON"@[1] == 'Q');
    assert("REVERB_RT60"@[0] == 'R' && "REVERB_RT60"@[1] == 'E');
    assert("REVERB_WET"@[0] == 'R' && "REVERB_WET"@[1] == 'E');
    assert("REVERB_ON"@[0] == 'R' && "REVERB_ON"@[1] == 'E');
    assert("COMP_THRESH_DB"@[0] == 'C' && "COMP_THRESH_DB"@[1] == 'O');
    assert("COMP_RATIO"@[0] == 'C' && "COMP_RATIO"@[1] == 'O');
    assert("COMP_ATTACK_MS"@[0] == 'C' && "COMP_ATTACK_MS"@[1] == 'O');
    assert("COMP_RELEASE_MS"@[0] == 'C' && "COMP_RELEASE_MS"@[1] == 'O');
    assert("COMP_MAKEUP_DB"@[0] == 'C' && "COMP_MAKEUP_DB"@[1] == 'O');
    assert("COMP_DRIVE"@[0] == 'C' && "COMP_DRIVE"@[1] == 'O');
    assert("COMP_ON"@[0] == 'C' && "COMP_ON"@[1] == 'O');
    assert("DETUNE_SCALE"@[0] == 'D' && "DETUNE_SCALE"@[1] == 'E');
    assert("ATTACK_SCALE"@[0] == 'A' && "ATTACK_SCALE"@[1] == 'T');
    assert("GLIDE_CENTS"@[0] == 'G' && "GLIDE_CENTS"@[1] == 'L');
    assert("BED_GAIN"@[0] == 'B' && "BED_GAIN"@[1] == 'E');
    assert("NOISE_GAIN"@[0] == 'N' && "NOISE_GAIN"@[1] == 'O');
    assert("SPLIT_MAX"@[0] == 'S' && "SPLIT_MAX"@[1] == 'P');
    assert("FAST_SCALE"@[0] == 'F' && "FAST_SCALE"@[1] == 'A');
    assert("BANK_DRIVE"@[0] == 'B' && "BANK_DRIVE"@[1] == 'A');
    assert("BANK_PING"@[0] == 'B' && "BANK_PING"@[1] == 'A');
    assert("BODY_GAIN"@[0] == 'B' && "BODY_GAIN"@[1] == 'O');
}

} // verus!
