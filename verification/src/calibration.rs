//! Fitted per-note parameters, measured from reference samples. The synth
//! interpolates across note (within a dynamic layer) and across velocity
//! (between layers); fitted amplitude profiles are relative to partial 1,
//! fitted tuning is in cents from equal temperament (the Railsback stretch).

use crate::arith::{Arith, Op};
use crate::number::{Single, zero};
use crate::order::{arrange, stable_order, stable_order_of};
use vstd::prelude::*;

verus! {

/// Partials that a note describes.
pub const N_SLOTS: usize = 150;

/// The version of the measurements that this instrument understands.
pub const VERSION: u32 = 9;

/// A measured note, as it was written down.
pub struct RawNote {
    pub note: u8,
    pub velocity: u8,
    pub f0_cents: Single,
    pub b: Single,
    pub bed_db: Single,
    pub bed_centroid_hz: Single,
    pub loudness_db: Single,
    pub attack_ms: Single,
    pub amps_db: Vec<Single>,
    pub decays_fast_db_s: Vec<Single>,
    pub decays_slow_db_s: Vec<Single>,
    pub slow_split: Vec<Single>,
}

/// Measured notes by dynamic layer, as they were written down.
pub struct RawCalibration {
    pub version: u32,
    pub layers: Vec<Vec<RawNote>>,
}

/// Per-partial decay is two-stage: the prompt sound decays at `decays_fast`,
/// the aftersound at `decays_slow`, with `slow_split` of the initial amplitude
/// in the slow component.
#[derive(Clone, Copy)]
pub struct NoteParams {
    pub f0_cents: Single,
    pub b: Single,
    /// Broadband resonant bed: level in dB relative to the note's early sound,
    /// and spectral centroid in Hz.
    pub bed_db: Single,
    pub bed_centroid_hz: Single,
    /// Early loudness of this note relative to its layer median, dB.
    pub loudness_db: Single,
    /// Onset-to-peak rise time, ms.
    pub attack_ms: Single,
    pub amps_db: [Single; 150],
    pub decays_fast: [Single; 150],
    pub decays_slow: [Single; 150],
    pub slow_split: [Single; 150],
}

/// What the parameters of a note are, its partials as sequences.
#[verifier::ext_equal]
pub struct ParamsState {
    pub f0_cents: Single,
    pub b: Single,
    pub bed_db: Single,
    pub bed_centroid_hz: Single,
    pub loudness_db: Single,
    pub attack_ms: Single,
    pub amps_db: Seq<Single>,
    pub decays_fast: Seq<Single>,
    pub decays_slow: Seq<Single>,
    pub slow_split: Seq<Single>,
}

impl View for NoteParams {
    type V = ParamsState;

    open spec fn view(&self) -> ParamsState {
        ParamsState {
            f0_cents: self.f0_cents,
            b: self.b,
            bed_db: self.bed_db,
            bed_centroid_hz: self.bed_centroid_hz,
            loudness_db: self.loudness_db,
            attack_ms: self.attack_ms,
            amps_db: self.amps_db@,
            decays_fast: self.decays_fast@,
            decays_slow: self.decays_slow@,
            slow_split: self.slow_split@,
        }
    }
}

/// One dynamic layer: the notes measured at one velocity, by note.
struct Layer {
    velocity: u8,
    keys: Vec<u8>,
    notes: Vec<NoteParams>,
}

/// What a layer is.
#[verifier::ext_equal]
pub struct LayerState {
    pub velocity: u8,
    pub keys: Seq<u8>,
    pub notes: Seq<ParamsState>,
}

impl Layer {
    spec fn state(self) -> LayerState {
        LayerState {
            velocity: self.velocity,
            keys: self.keys@,
            notes: self.notes@.map_values(|p: NoteParams| p@),
        }
    }
}

/// The measurements, layers by velocity.
pub struct Calibration {
    velocities: Vec<u8>,
    layers: Vec<Layer>,
}

impl View for Calibration {
    type V = Seq<LayerState>;

    closed spec fn view(&self) -> Seq<LayerState> {
        self.layers@.map_values(|l: Layer| l.state())
    }
}

impl RawNote {
    /// The note describes every partial.
    pub open spec fn complete(self) -> bool {
        &&& self.amps_db@.len() >= N_SLOTS
        &&& self.decays_fast_db_s@.len() >= N_SLOTS
        &&& self.decays_slow_db_s@.len() >= N_SLOTS
        &&& self.slow_split@.len() >= N_SLOTS
    }

    fn is_complete(&self) -> (r: bool)
        ensures
            r == self.complete(),
    {
        self.amps_db.len() >= N_SLOTS && self.decays_fast_db_s.len() >= N_SLOTS && self.decays_slow_db_s.len()
            >= N_SLOTS && self.slow_split.len() >= N_SLOTS
    }
}

/// The layer has notes, and each describes every partial.
pub open spec fn usable_layer(layer: Seq<RawNote>) -> bool {
    layer.len() > 0 && forall|i: int| 0 <= i < layer.len() ==> (#[trigger] layer[i]).complete()
}

impl RawCalibration {
    /// The measurements can be used: they are of the version that is
    /// understood, no layer is empty and every note describes every partial.
    pub open spec fn usable(self) -> bool {
        self.version == VERSION && forall|l: int|
            0 <= l < self.layers@.len() ==> usable_layer((#[trigger] self.layers@[l])@)
    }

    /// Whether the measurements can be used.
    pub fn is_usable(&self) -> (r: bool)
        ensures
            r == self.usable(),
    {
        if self.version != VERSION {
            return false;
        }
        let mut l: usize = 0;
        while l < self.layers.len()
            invariant
                l <= self.layers@.len(),
                forall|j: int| 0 <= j < l ==> usable_layer((#[trigger] self.layers@[j])@),
            decreases self.layers@.len() - l,
        {
            let layer = &self.layers[l];
            if layer.len() == 0 {
                assert(!usable_layer(self.layers@[l as int]@));
                return false;
            }
            let mut i: usize = 0;
            while i < layer.len()
                invariant
                    l < self.layers@.len(),
                    layer == self.layers@[l as int],
                    i <= layer@.len(),
                    forall|j: int| 0 <= j < i ==> (#[trigger] layer@[j]).complete(),
                decreases layer@.len() - i,
            {
                if !layer[i].is_complete() {
                    assert(!layer@[i as int].complete());
                    assert(!usable_layer(self.layers@[l as int]@));
                    return false;
                }
                i += 1;
            }
            l += 1;
        }
        true
    }
}

/// The parameters of a measured note.
pub open spec fn params_of(n: RawNote) -> ParamsState {
    ParamsState {
        f0_cents: n.f0_cents,
        b: n.b,
        bed_db: n.bed_db,
        bed_centroid_hz: n.bed_centroid_hz,
        loudness_db: n.loudness_db,
        attack_ms: n.attack_ms,
        amps_db: n.amps_db@.take(N_SLOTS as int),
        decays_fast: n.decays_fast_db_s@.take(N_SLOTS as int),
        decays_slow: n.decays_slow_db_s@.take(N_SLOTS as int),
        slow_split: n.slow_split@.take(N_SLOTS as int),
    }
}

/// The sort keys of a layer.
pub open spec fn note_keys(layer: Seq<RawNote>) -> Seq<u64> {
    layer.map_values(|n: RawNote| n.note as u64)
}

/// A layer, its notes sorted; its velocity is that of the note that was written
/// down first.
pub open spec fn layer_of(layer: Seq<RawNote>) -> LayerState {
    let order = stable_order_of(note_keys(layer));
    LayerState {
        velocity: layer[0].velocity,
        keys: arrange(layer.map_values(|n: RawNote| n.note), order),
        notes: arrange(layer.map_values(|n: RawNote| params_of(n)), order),
    }
}

/// The sort keys of the layers.
pub open spec fn velocity_keys(layers: Seq<Vec<RawNote>>) -> Seq<u64> {
    layers.map_values(|l: Vec<RawNote>| l@[0].velocity as u64)
}

/// The layers, sorted by velocity.
pub open spec fn layers_of(layers: Seq<Vec<RawNote>>) -> Seq<LayerState> {
    arrange(layers.map_values(|l: Vec<RawNote>| layer_of(l@)), stable_order_of(velocity_keys(layers)))
}

/// The first entries of a list of numbers.
fn to_array(v: &Vec<Single>) -> (a: [Single; 150])
    requires
        v@.len() >= N_SLOTS,
    ensures
        a@ == v@.take(N_SLOTS as int),
{
    let mut a: [Single; 150] = [zero(); 150];
    let mut i: usize = 0;
    while i < 150
        invariant
            i <= 150,
            v@.len() >= 150,
            forall|j: int| 0 <= j < i ==> #[trigger] a@[j] == v@[j],
        decreases 150 - i,
    {
        a[i] = v[i];
        i += 1;
    }
    assert(a@ =~= v@.take(N_SLOTS as int));
    a
}

fn to_params(n: &RawNote) -> (p: NoteParams)
    requires
        n.complete(),
    ensures
        p@ == params_of(*n),
{
    NoteParams {
        f0_cents: n.f0_cents,
        b: n.b,
        bed_db: n.bed_db,
        bed_centroid_hz: n.bed_centroid_hz,
        loudness_db: n.loudness_db,
        attack_ms: n.attack_ms,
        amps_db: to_array(&n.amps_db),
        decays_fast: to_array(&n.decays_fast_db_s),
        decays_slow: to_array(&n.decays_slow_db_s),
        slow_split: to_array(&n.slow_split),
    }
}

fn to_layer(layer: &Vec<RawNote>) -> (r: Layer)
    requires
        usable_layer(layer@),
    ensures
        r.state() == layer_of(layer@),
        r.keys@.len() == layer@.len(),
        r.notes@.len() == layer@.len(),
{
    let mut keys: Vec<u64> = Vec::with_capacity(layer.len());
    let mut i: usize = 0;
    while i < layer.len()
        invariant
            i <= layer@.len(),
            keys@.len() == i,
            forall|j: int| 0 <= j < i ==> #[trigger] keys@[j] == note_keys(layer@)[j],
        decreases layer@.len() - i,
    {
        keys.push(layer[i].note as u64);
        i += 1;
    }
    assert(keys@ =~= note_keys(layer@));
    let order = stable_order(keys.as_slice());
    let mut sorted: Vec<u8> = Vec::with_capacity(order.len());
    let mut notes: Vec<NoteParams> = Vec::with_capacity(order.len());
    let mut j: usize = 0;
    while j < order.len()
        invariant
            usable_layer(layer@),
            j <= order@.len(),
            order@.len() == layer@.len(),
            forall|i: int| 0 <= i < order@.len() ==> (#[trigger] order@[i]) < layer@.len(),
            sorted@.len() == j,
            notes@.len() == j,
            forall|i: int| 0 <= i < j ==> #[trigger] sorted@[i] == layer@[order@[i] as int].note,
            forall|i: int| 0 <= i < j ==> (#[trigger] notes@[i])@ == params_of(layer@[order@[i] as int]),
        decreases order@.len() - j,
    {
        let n = &layer[order[j]];
        sorted.push(n.note);
        notes.push(to_params(n));
        j += 1;
    }
    let r = Layer { velocity: layer[0].velocity, keys: sorted, notes };
    assert(r.state().keys =~= layer_of(layer@).keys);
    assert(r.state().notes =~= layer_of(layer@).notes);
    r
}

/// Where a value lies among keys: at one key, or part of the way between two
/// neighbors, as a quotient of integers.
#[derive(Clone, Copy, Debug, PartialEq, Eq, Structural)]
pub enum Bracket {
    At { index: usize },
    Between { low: usize, part: u8, whole: u8 },
}

/// `at` is the first of the keys that is not below `x`.
pub open spec fn is_first_reaching(keys: Seq<u8>, x: u8, at: int) -> bool {
    &&& 0 <= at < keys.len()
    &&& x <= keys[at]
    &&& forall|i: int| 0 <= i < at ==> #[trigger] keys[i] < x
}

/// The neighbors of `x` among the keys: up to the first key it is there, beyond
/// the last key it is there, else it lies between the first key that is not
/// below it and the one before.
pub open spec fn is_bracket(keys: Seq<u8>, x: u8, at: Bracket) -> bool {
    match at {
        Bracket::At { index } => (index == 0 && x <= keys[0]) || (index == keys.len() - 1 && forall|i: int|
            0 <= i < keys.len() ==> #[trigger] keys[i] < x),
        Bracket::Between { low, part, whole } => {
            &&& is_first_reaching(keys, x, low + 1)
            &&& part == x - keys[low as int]
            &&& whole == keys[low + 1] - keys[low as int]
        },
    }
}

/// Any value has one place only.
pub proof fn bracket_is_unique(keys: Seq<u8>, x: u8, a: Bracket, b: Bracket)
    requires
        keys.len() > 0,
        is_bracket(keys, x, a),
        is_bracket(keys, x, b),
    ensures
        a == b,
{
    if let Bracket::Between { low, .. } = a {
        if let Bracket::Between { low: other, .. } = b {
            if low < other {
                assert(keys[low + 1] < x);
            }
            if other < low {
                assert(keys[other + 1] < x);
            }
        } else {
            assert(keys[low as int] < x);
            assert(keys[0] < x);
        }
    } else if let Bracket::Between { low, .. } = b {
        assert(keys[low as int] < x);
        assert(keys[0] < x);
    }
}

/// The first of the keys from `n` on that is not below `x`; all before are.
proof fn lemma_first_reaching(keys: Seq<u8>, x: u8, n: int) -> (at: int)
    requires
        0 <= n <= keys.len(),
        forall|i: int| 0 <= i < n ==> #[trigger] keys[i] < x,
    ensures
        n <= at <= keys.len(),
        forall|i: int| 0 <= i < at ==> #[trigger] keys[i] < x,
        at < keys.len() ==> x <= keys[at],
    decreases keys.len() - n,
{
    if n == keys.len() || x <= keys[n] {
        n
    } else {
        lemma_first_reaching(keys, x, n + 1)
    }
}

/// Any value has a place.
pub proof fn bracket_exists(keys: Seq<u8>, x: u8)
    requires
        0 < keys.len() <= usize::MAX,
    ensures
        is_bracket(keys, x, bracket_of(keys, x)),
{
    let at = lemma_first_reaching(keys, x, 0);
    let place = if at == 0 {
        Bracket::At { index: 0 }
    } else if at == keys.len() {
        Bracket::At { index: (at - 1) as usize }
    } else {
        Bracket::Between {
            low: (at - 1) as usize,
            part: (x - keys[at - 1]) as u8,
            whole: (keys[at] - keys[at - 1]) as u8,
        }
    };
    if 0 < at < keys.len() {
        assert(keys[at - 1] < x);
    }
    assert(is_bracket(keys, x, place));
}

/// A value between two keys lies beyond the one and no further than the other,
/// so that the keys differ.
pub proof fn bracket_is_proper(keys: Seq<u8>, x: u8, at: Bracket)
    requires
        keys.len() > 0,
        is_bracket(keys, x, at),
    ensures
        match at {
            Bracket::At { index } => index < keys.len(),
            Bracket::Between { low, part, whole } => low + 1 < keys.len() && 0 < part <= whole,
        },
{
    if let Bracket::Between { low, part, whole } = at {
        assert(keys[low as int] < x);
    }
}

/// The place of a value among keys.
pub open spec fn bracket_of(keys: Seq<u8>, x: u8) -> Bracket {
    choose|at: Bracket| is_bracket(keys, x, at)
}

/// Finds the bracketing pair around `x`. Clamps at the ends.
pub fn bracket(keys: &[u8], x: u8) -> (r: Bracket)
    requires
        keys@.len() > 0,
    ensures
        is_bracket(keys@, x, r),
        r == bracket_of(keys@, x),
{
    if x <= keys[0] {
        let r = Bracket::At { index: 0 };
        proof {
            assert(is_bracket(keys@, x, r));
            bracket_is_unique(keys@, x, r, bracket_of(keys@, x));
        }
        return r;
    }
    let mut i: usize = 0;
    while i < keys.len() - 1
        invariant
            i < keys@.len(),
            forall|j: int| 0 <= j <= i ==> #[trigger] keys@[j] < x,
        decreases keys@.len() - i,
    {
        let a: u8 = keys[i];
        let b: u8 = keys[i + 1];
        if x <= b {
            let r = Bracket::Between { low: i, part: x - a, whole: b - a };
            proof {
                assert(is_bracket(keys@, x, r));
                bracket_is_unique(keys@, x, r, bracket_of(keys@, x));
            }
            return r;
        }
        i += 1;
    }
    let r = Bracket::At { index: keys.len() - 1 };
    proof {
        assert(is_bracket(keys@, x, r));
        bracket_is_unique(keys@, x, r, bracket_of(keys@, x));
    }
    r
}

impl<F: Fn(Op) -> Single> Arith<F> {
    /// Part of the way from `x` to `y`.
    #[verifier::allow_in_spec]
    pub fn mix(&self, x: Single, y: Single, w: Single) -> Single
        returns
            self.plus(x, self.times(w, self.minus(y, x))),
    {
        self.plus(x, self.times(w, self.minus(y, x)))
    }

    fn mix_all(&self, x: &[Single; 150], y: &[Single; 150], w: Single) -> (r: [Single; 150])
        ensures
            r@ == mixed_all(*self, x@, y@, w),
    {
        let mut r: [Single; 150] = [zero(); 150];
        let mut i: usize = 0;
        while i < 150
            invariant
                i <= 150,
                forall|j: int| 0 <= j < i ==> #[trigger] r@[j] == self.mix(x@[j], y@[j], w),
            decreases 150 - i,
        {
            r[i] = self.mix(x[i], y[i], w);
            i += 1;
        }
        assert(r@ =~= mixed_all(*self, x@, y@, w));
        r
    }
}

/// Part of the way from the numbers `x` to the numbers `y`.
pub open spec fn mixed_all<F: Fn(Op) -> Single>(k: Arith<F>, x: Seq<Single>, y: Seq<Single>, w: Single) -> Seq<Single> {
    Seq::new(x.len(), |i: int| k.mix(x[i], y[i], w))
}

/// Part of the way from the parameters `x` to the parameters `y`. Stiffness
/// spans decades and is interpolated by its logarithm.
pub open spec fn mixed<F: Fn(Op) -> Single>(k: Arith<F>, x: ParamsState, y: ParamsState, w: Single) -> ParamsState {
    ParamsState {
        f0_cents: k.mix(x.f0_cents, y.f0_cents, w),
        b: k.exp(k.mix(k.ln(x.b), k.ln(y.b), w)),
        bed_db: k.mix(x.bed_db, y.bed_db, w),
        bed_centroid_hz: k.mix(x.bed_centroid_hz, y.bed_centroid_hz, w),
        loudness_db: k.mix(x.loudness_db, y.loudness_db, w),
        attack_ms: k.mix(x.attack_ms, y.attack_ms, w),
        amps_db: mixed_all(k, x.amps_db, y.amps_db, w),
        decays_fast: mixed_all(k, x.decays_fast, y.decays_fast, w),
        decays_slow: mixed_all(k, x.decays_slow, y.decays_slow, w),
        slow_split: mixed_all(k, x.slow_split, y.slow_split, w),
    }
}

fn lerp_params<F: Fn(Op) -> Single>(k: &Arith<F>, x: &NoteParams, y: &NoteParams, w: Single) -> (r: NoteParams)
    ensures
        r@ == mixed(*k, x@, y@, w),
{
    NoteParams {
        f0_cents: k.mix(x.f0_cents, y.f0_cents, w),
        b: k.exp(k.mix(k.ln(x.b), k.ln(y.b), w)),
        bed_db: k.mix(x.bed_db, y.bed_db, w),
        bed_centroid_hz: k.mix(x.bed_centroid_hz, y.bed_centroid_hz, w),
        loudness_db: k.mix(x.loudness_db, y.loudness_db, w),
        attack_ms: k.mix(x.attack_ms, y.attack_ms, w),
        amps_db: k.mix_all(&x.amps_db, &y.amps_db, w),
        decays_fast: k.mix_all(&x.decays_fast, &y.decays_fast, w),
        decays_slow: k.mix_all(&x.decays_slow, &y.decays_slow, w),
        slow_split: k.mix_all(&x.slow_split, &y.slow_split, w),
    }
}

/// A quotient of small integers as a weight.
pub open spec fn weight<F: Fn(Op) -> Single>(k: Arith<F>, part: u8, whole: u8) -> Single {
    k.over(k.whole(part as u64), k.whole(whole as u64))
}

impl LayerState {
    /// The parameters of any note in this layer.
    pub open spec fn lookup<F: Fn(Op) -> Single>(self, k: Arith<F>, note: u8) -> ParamsState {
        match bracket_of(self.keys, note) {
            Bracket::At { index } => self.notes[index as int],
            Bracket::Between { low, part, whole } => mixed(
                k,
                self.notes[low as int],
                self.notes[low + 1],
                weight(k, part, whole),
            ),
        }
    }
}

/// The velocities of the layers.
pub open spec fn velocities_of(layers: Seq<LayerState>) -> Seq<u8> {
    layers.map_values(|l: LayerState| l.velocity)
}

/// The interpolated parameters for any note and velocity: across note within
/// a layer, and across velocity between two layers.
pub open spec fn params_at<F: Fn(Op) -> Single>(k: Arith<F>, layers: Seq<LayerState>, note: u8, velocity: u8) -> ParamsState {
    match bracket_of(velocities_of(layers), velocity) {
        Bracket::At { index } => layers[index as int].lookup(k, note),
        Bracket::Between { low, part, whole } => mixed(
            k,
            layers[low as int].lookup(k, note),
            layers[low + 1].lookup(k, note),
            weight(k, part, whole),
        ),
    }
}

impl Layer {
    spec fn wf(self) -> bool {
        self.keys@.len() > 0 && self.notes@.len() == self.keys@.len()
    }

    fn lookup<F: Fn(Op) -> Single>(&self, k: &Arith<F>, note: u8) -> (r: NoteParams)
        requires
            self.wf(),
        ensures
            r@ == self.state().lookup(*k, note),
    {
        let at = bracket(self.keys.as_slice(), note);
        proof {
            bracket_is_proper(self.keys@, note, at);
            assert(self.keys@.len() == self.keys.len());
        }
        match at {
            Bracket::At { index } => self.notes[index],
            Bracket::Between { low, part, whole } => lerp_params(
                k,
                &self.notes[low],
                &self.notes[low + 1],
                k.over(k.whole(part as u64), k.whole(whole as u64)),
            ),
        }
    }
}

impl Calibration {
    pub closed spec fn wf(self) -> bool {
        &&& self.velocities@ == velocities_of(self@)
        &&& forall|l: int| 0 <= l < self.layers@.len() ==> (#[trigger] self.layers@[l]).wf()
    }

    /// Sorts the measurements by velocity and note.
    pub fn parse(raw: &RawCalibration) -> (r: Calibration)
        requires
            raw.usable(),
        ensures
            r.wf(),
            r@ == layers_of(raw.layers@),
    {
        let layers = &raw.layers;
        let mut keys: Vec<u64> = Vec::with_capacity(layers.len());
        let mut i: usize = 0;
        while i < layers.len()
            invariant
                i <= layers@.len(),
                raw.usable(),
                *layers == raw.layers,
                keys@.len() == i,
                forall|j: int| 0 <= j < i ==> #[trigger] keys@[j] == velocity_keys(layers@)[j],
            decreases layers@.len() - i,
        {
            assert(usable_layer(layers@[i as int]@));
            keys.push(layers[i][0].velocity as u64);
            i += 1;
        }
        assert(keys@ =~= velocity_keys(layers@));
        let order = stable_order(keys.as_slice());
        let mut out: Vec<Layer> = Vec::with_capacity(order.len());
        let mut velocities: Vec<u8> = Vec::with_capacity(order.len());
        let mut j: usize = 0;
        while j < order.len()
            invariant
                j <= order@.len(),
                order@.len() == layers@.len(),
                raw.usable(),
                *layers == raw.layers,
                forall|i: int| 0 <= i < order@.len() ==> (#[trigger] order@[i]) < layers@.len(),
                out@.len() == j,
                velocities@.len() == j,
                forall|i: int| 0 <= i < j ==> (#[trigger] out@[i]).state() == layer_of(layers@[order@[i] as int]@),
                forall|i: int| 0 <= i < j ==> (#[trigger] out@[i]).wf(),
                forall|i: int| 0 <= i < j ==> #[trigger] velocities@[i] == out@[i].velocity,
            decreases order@.len() - j,
        {
            assert(usable_layer(layers@[order@[j as int] as int]@));
            let layer = to_layer(&layers[order[j]]);
            velocities.push(layer.velocity);
            out.push(layer);
            j += 1;
        }
        let r = Calibration { velocities, layers: out };
        assert(r@ =~= layers_of(layers@));
        assert(r.velocities@ =~= velocities_of(r@));
        r
    }

    /// How many layers were measured.
    pub fn layer_count(&self) -> (n: usize)
        ensures
            n == self@.len(),
    {
        self.layers.len()
    }

    /// Interpolated parameters for any note and velocity.
    pub fn lookup<F: Fn(Op) -> Single>(&self, k: &Arith<F>, note: u8, velocity: u8) -> (r: NoteParams)
        requires
            self.wf(),
            self@.len() > 0,
        ensures
            r@ == params_at(*k, self@, note, velocity),
    {
        let at = bracket(self.velocities.as_slice(), velocity);
        proof {
            bracket_is_proper(self.velocities@, velocity, at);
            assert(self.velocities@.len() == self.velocities.len());
        }
        match at {
            Bracket::At { index } => self.layers[index].lookup(k, note),
            Bracket::Between { low, part, whole } => {
                let a = self.layers[low].lookup(k, note);
                let b = self.layers[low + 1].lookup(k, note);
                lerp_params(k, &a, &b, k.over(k.whole(part as u64), k.whole(whole as u64)))
            },
        }
    }
}

/// The keys of a layer ascend, and so do the velocities of the layers.
pub proof fn calibration_is_sorted(layers: Seq<Vec<RawNote>>, layer: Seq<RawNote>)
    requires
        layers.len() <= usize::MAX,
        layer.len() <= usize::MAX,
    ensures
        forall|i: int, j: int|
            0 <= i < j < layers_of(layers).len() ==> (#[trigger] layers_of(layers)[i]).velocity <= (
            #[trigger] layers_of(layers)[j]).velocity,
        forall|i: int, j: int|
            0 <= i < j < layer_of(layer).keys.len() ==> #[trigger] layer_of(layer).keys[i]
                <= #[trigger] layer_of(layer).keys[j],
{
    let vs = velocity_keys(layers);
    let ns = note_keys(layer);
    crate::order::stable_order_exists(vs);
    crate::order::stable_order_exists(ns);
    let vo = stable_order_of(vs);
    let no = stable_order_of(ns);
    assert forall|i: int, j: int| 0 <= i < j < layers_of(layers).len() implies (#[trigger] layers_of(
        layers,
    )[i]).velocity <= (#[trigger] layers_of(layers)[j]).velocity by {
        assert(crate::order::precedes(vs, vo[i] as int, vo[j] as int));
        assert(vs[vo[i] as int] == layers[vo[i] as int]@[0].velocity as u64);
        assert(vs[vo[j] as int] == layers[vo[j] as int]@[0].velocity as u64);
    }
    assert forall|i: int, j: int| 0 <= i < j < layer_of(layer).keys.len() implies #[trigger] layer_of(layer).keys[i]
        <= #[trigger] layer_of(layer).keys[j] by {
        assert(crate::order::precedes(ns, no[i] as int, no[j] as int));
        assert(ns[no[i] as int] == layer[no[i] as int].note as u64);
        assert(ns[no[j] as int] == layer[no[j] as int].note as u64);
    }
}

/// At and below the lowest measured velocity the softest layer counts alone,
/// and beyond the highest the loudest.
pub proof fn velocities_clamp<F: Fn(Op) -> Single>(k: Arith<F>, layers: Seq<LayerState>, note: u8, velocity: u8)
    requires
        0 < layers.len() <= usize::MAX,
    ensures
        velocity <= layers[0].velocity ==> params_at(k, layers, note, velocity) == layers[0].lookup(k, note),
        (forall|l: int| 0 <= l < layers.len() ==> (#[trigger] layers[l]).velocity < velocity) ==> params_at(
            k,
            layers,
            note,
            velocity,
        ) == layers.last().lookup(k, note),
{
    let vs = velocities_of(layers);
    if velocity <= layers[0].velocity {
        let first = Bracket::At { index: 0 };
        assert(is_bracket(vs, velocity, first));
        bracket_is_unique(vs, velocity, first, bracket_of(vs, velocity));
    }
    if forall|l: int| 0 <= l < layers.len() ==> (#[trigger] layers[l]).velocity < velocity {
        let top = Bracket::At { index: (layers.len() - 1) as usize };
        assert(is_bracket(vs, velocity, top)) by {
            assert forall|i: int| 0 <= i < vs.len() implies #[trigger] vs[i] < velocity by {
                assert(layers[i].velocity < velocity);
            }
        }
        bracket_is_unique(vs, velocity, top, bracket_of(vs, velocity));
    }
}

/// At and below the lowest measured note of a layer that note counts as it is,
/// and beyond the highest the highest.
pub proof fn notes_clamp<F: Fn(Op) -> Single>(k: Arith<F>, layer: LayerState, note: u8)
    requires
        0 < layer.keys.len() <= usize::MAX,
    ensures
        note <= layer.keys[0] ==> layer.lookup(k, note) == layer.notes[0],
        (forall|i: int| 0 <= i < layer.keys.len() ==> #[trigger] layer.keys[i] < note) ==> layer.lookup(k, note)
            == layer.notes[layer.keys.len() - 1],
{
    let keys = layer.keys;
    if note <= keys[0] {
        let first = Bracket::At { index: 0 };
        assert(is_bracket(keys, note, first));
        bracket_is_unique(keys, note, first, bracket_of(keys, note));
    }
    if forall|i: int| 0 <= i < keys.len() ==> #[trigger] keys[i] < note {
        let end = Bracket::At { index: (keys.len() - 1) as usize };
        assert(is_bracket(keys, note, end));
        bracket_is_unique(keys, note, end, bracket_of(keys, note));
    }
}

/// Where every layer clamps a note to one of its measurements, the note counts
/// as that measured note at any velocity.
pub proof fn lookup_clamps_notes<F: Fn(Op) -> Single>(
    k: Arith<F>,
    layers: Seq<LayerState>,
    note: u8,
    edge: u8,
    velocity: u8,
)
    requires
        0 < layers.len() <= usize::MAX,
        forall|l: int| 0 <= l < layers.len() ==> 0 < (#[trigger] layers[l]).keys.len() <= usize::MAX,
        ({
            ||| forall|l: int|
                0 <= l < layers.len() ==> note <= (#[trigger] layers[l]).keys[0] && edge <= layers[l].keys[0]
            ||| forall|l: int, i: int|
                0 <= l < layers.len() && 0 <= i < layers[l].keys.len() ==> (#[trigger] layers[l].keys[i]) < note
                    && layers[l].keys[i] < edge
        }),
    ensures
        params_at(k, layers, note, velocity) == params_at(k, layers, edge, velocity),
{
    assert forall|l: int| 0 <= l < layers.len() implies #[trigger] layers[l].lookup(k, note) == layers[l].lookup(k, edge) by {
        notes_clamp(k, layers[l], note);
        notes_clamp(k, layers[l], edge);
    }
    let vs = velocities_of(layers);
    bracket_exists(vs, velocity);
    bracket_is_proper(vs, velocity, bracket_of(vs, velocity));
}

/// A note that was measured lies at its own measurement: the lowest one stands as
/// it is, and any other is all of the way from the one before it.
pub proof fn measured_notes_stand<F: Fn(Op) -> Single>(k: Arith<F>, layer: LayerState, note: u8, i: int)
    requires
        0 < layer.keys.len() <= usize::MAX,
        layer.notes.len() == layer.keys.len(),
        0 <= i < layer.keys.len(),
        layer.keys[i] == note,
        forall|j: int| 0 <= j < i ==> #[trigger] layer.keys[j] < note,
    ensures
        i == 0 ==> layer.lookup(k, note) == layer.notes[0],
        i > 0 ==> ({
            let whole = (note - layer.keys[i - 1]) as u8;
            layer.lookup(k, note) == mixed(k, layer.notes[i - 1], layer.notes[i], weight(k, whole, whole))
        }),
{
    let keys = layer.keys;
    let at = if i == 0 {
        Bracket::At { index: 0 }
    } else {
        let whole = (note - keys[i - 1]) as u8;
        Bracket::Between { low: (i - 1) as usize, part: whole, whole }
    };
    if i > 0 {
        assert(keys[i - 1] < note);
        assert(is_first_reaching(keys, note, i));
    }
    assert(is_bracket(keys, note, at));
    bracket_is_unique(keys, note, at, bracket_of(keys, note));
}

/// Between two measured notes every parameter goes from the one to the other by
/// how far the note is between them, and nothing else comes in.
pub proof fn notes_between_are_mixed<F: Fn(Op) -> Single>(k: Arith<F>, layer: LayerState, note: u8, i: int)
    requires
        1 <= i < layer.keys.len() <= usize::MAX,
        layer.notes.len() == layer.keys.len(),
        note <= layer.keys[i],
        forall|j: int| 0 <= j < i ==> #[trigger] layer.keys[j] < note,
    ensures
        ({
            let part = k.whole((note - layer.keys[i - 1]) as u64);
            let whole = k.whole((layer.keys[i] - layer.keys[i - 1]) as u64);
            layer.lookup(k, note) == mixed(k, layer.notes[i - 1], layer.notes[i], k.over(part, whole))
        }),
{
    let keys = layer.keys;
    assert(keys[i - 1] < note);
    let at = Bracket::Between {
        low: (i - 1) as usize,
        part: (note - keys[i - 1]) as u8,
        whole: (keys[i] - keys[i - 1]) as u8,
    };
    assert(is_first_reaching(keys, note, i));
    assert(is_bracket(keys, note, at));
    bracket_is_unique(keys, note, at, bracket_of(keys, note));
}

/// Between two layers every parameter goes from the softer to the harder by how
/// far the velocity is between them.
pub proof fn velocities_between_are_mixed<F: Fn(Op) -> Single>(k: Arith<F>, layers: Seq<LayerState>, note: u8, velocity: u8, l: int)
    requires
        1 <= l < layers.len() <= usize::MAX,
        velocity <= layers[l].velocity,
        forall|j: int| 0 <= j < l ==> (#[trigger] layers[j]).velocity < velocity,
    ensures
        ({
            let part = k.whole((velocity - layers[l - 1].velocity) as u64);
            let whole = k.whole((layers[l].velocity - layers[l - 1].velocity) as u64);
            params_at(k, layers, note, velocity) == mixed(
                k,
                layers[l - 1].lookup(k, note),
                layers[l].lookup(k, note),
                k.over(part, whole),
            )
        }),
{
    let vs = velocities_of(layers);
    assert(layers[l - 1].velocity < velocity);
    let at = Bracket::Between {
        low: (l - 1) as usize,
        part: (velocity - vs[l - 1]) as u8,
        whole: (vs[l] - vs[l - 1]) as u8,
    };
    assert forall|j: int| 0 <= j < l implies #[trigger] vs[j] < velocity by {
        assert(layers[j].velocity < velocity);
    }
    assert(is_first_reaching(vs, velocity, l));
    assert(is_bracket(vs, velocity, at));
    bracket_is_unique(vs, velocity, at, bracket_of(vs, velocity));
}

/// Mixing treats every partial and every parameter alike: a mix of two sets has
/// the mix of each number of the one with the same number of the other, but for
/// the stiffness, of which the logarithm is mixed.
pub proof fn mixing_is_by_number<F: Fn(Op) -> Single>(k: Arith<F>, x: ParamsState, y: ParamsState, w: Single, i: int)
    requires
        0 <= i < N_SLOTS,
        x.amps_db.len() == N_SLOTS && x.decays_fast.len() == N_SLOTS && x.decays_slow.len() == N_SLOTS
            && x.slow_split.len() == N_SLOTS,
        y.amps_db.len() == N_SLOTS && y.decays_fast.len() == N_SLOTS && y.decays_slow.len() == N_SLOTS
            && y.slow_split.len() == N_SLOTS,
    ensures
        ({
            let z = mixed(k, x, y, w);
            &&& z.f0_cents == k.mix(x.f0_cents, y.f0_cents, w)
            &&& z.b == k.exp(k.mix(k.ln(x.b), k.ln(y.b), w))
            &&& z.bed_db == k.mix(x.bed_db, y.bed_db, w)
            &&& z.bed_centroid_hz == k.mix(x.bed_centroid_hz, y.bed_centroid_hz, w)
            &&& z.loudness_db == k.mix(x.loudness_db, y.loudness_db, w)
            &&& z.attack_ms == k.mix(x.attack_ms, y.attack_ms, w)
            &&& z.amps_db[i] == k.mix(x.amps_db[i], y.amps_db[i], w)
            &&& z.decays_fast[i] == k.mix(x.decays_fast[i], y.decays_fast[i], w)
            &&& z.decays_slow[i] == k.mix(x.decays_slow[i], y.decays_slow[i], w)
            &&& z.slow_split[i] == k.mix(x.slow_split[i], y.slow_split[i], w)
        }),
{
}

/// Reading keeps every measured layer and every measured note of it, each as
/// often as it was written down, whatever their order was.
pub proof fn reading_keeps_measurements(layers: Seq<Vec<RawNote>>, layer: Seq<RawNote>)
    requires
        layers.len() <= usize::MAX,
        layer.len() <= usize::MAX,
    ensures
        layers_of(layers).to_multiset() == layers.map_values(|l: Vec<RawNote>| layer_of(l@)).to_multiset(),
        layer_of(layer).keys.to_multiset() == layer.map_values(|n: RawNote| n.note).to_multiset(),
        layer_of(layer).notes.to_multiset() == layer.map_values(|n: RawNote| params_of(n)).to_multiset(),
        forall|i: int|
            0 <= i < layer.len() ==> exists|j: int|
                0 <= j < layer.len() && layer_of(layer).keys[i] == (#[trigger] layer[j]).note && #[trigger] layer_of(
                    layer,
                ).notes[i] == params_of(layer[j]),
{
    let order = stable_order_of(note_keys(layer));
    crate::order::stable_order_sorts(
        layers.map_values(|l: Vec<RawNote>| layer_of(l@)),
        velocity_keys(layers),
    );
    crate::order::stable_order_sorts(layer.map_values(|n: RawNote| n.note), note_keys(layer));
    crate::order::stable_order_sorts(layer.map_values(|n: RawNote| params_of(n)), note_keys(layer));
    crate::order::stable_order_exists(note_keys(layer));
    assert forall|i: int| 0 <= i < layer.len() implies exists|j: int|
        0 <= j < layer.len() && layer_of(layer).keys[i] == (#[trigger] layer[j]).note && #[trigger] layer_of(
            layer,
        ).notes[i] == params_of(layer[j]) by {
        let j = order[i] as int;
        assert(layer_of(layer).keys[i] == layer[j].note);
        assert(layer_of(layer).notes[i] == params_of(layer[j]));
    }
}

/// Measurements can be used only in the ninth version of their form, with notes
/// in every layer and all four lists of every note as long as the partials are
/// many.
pub proof fn usable_measurements_are_complete(raw: RawCalibration, l: int, i: int)
    requires
        0 <= l < raw.layers@.len(),
        0 <= i < raw.layers@[l]@.len(),
    ensures
        raw.usable() ==> {
            let n = raw.layers@[l]@[i];
            &&& raw.version == 9
            &&& n.amps_db@.len() >= 150
            &&& n.decays_fast_db_s@.len() >= 150
            &&& n.decays_slow_db_s@.len() >= 150
            &&& n.slow_split@.len() >= 150
        },
{
}

/// A layer is as loud as the note of it that was written down first, wherever
/// that note is on the keyboard.
pub proof fn first_note_gives_the_velocity(layer: Seq<RawNote>)
    requires
        layer.len() > 0,
    ensures
        layer_of(layer).velocity == layer[0].velocity,
{
}

/// A measured note is taken as it was measured, number by number, and of its
/// lists the first 150.
pub proof fn measurements_are_taken_as_they_are(n: RawNote, i: int)
    requires
        n.complete(),
        0 <= i < 150,
    ensures
        params_of(n).f0_cents == n.f0_cents,
        params_of(n).b == n.b,
        params_of(n).bed_db == n.bed_db,
        params_of(n).bed_centroid_hz == n.bed_centroid_hz,
        params_of(n).loudness_db == n.loudness_db,
        params_of(n).attack_ms == n.attack_ms,
        params_of(n).amps_db[i] == n.amps_db@[i],
        params_of(n).decays_fast[i] == n.decays_fast_db_s@[i],
        params_of(n).decays_slow[i] == n.decays_slow_db_s@[i],
        params_of(n).slow_split[i] == n.slow_split@[i],
{
}

/// Measurements of that version can be used as soon as no layer is empty and no
/// list of any note is short, however few layers and notes there are; an empty
/// layer makes them useless.
pub proof fn complete_measurements_are_usable(raw: RawCalibration)
    ensures
        raw.version == 9 && (forall|l: int| 0 <= l < raw.layers@.len() ==> (#[trigger] raw.layers@[l])@.len() > 0) && (
        forall|l: int, i: int|
            0 <= l < raw.layers@.len() && 0 <= i < raw.layers@[l]@.len() ==> {
                let n = #[trigger] raw.layers@[l]@[i];
                &&& n.amps_db@.len() >= 150
                &&& n.decays_fast_db_s@.len() >= 150
                &&& n.decays_slow_db_s@.len() >= 150
                &&& n.slow_split@.len() >= 150
            }) ==> raw.usable(),
        (exists|l: int| 0 <= l < raw.layers@.len() && (#[trigger] raw.layers@[l])@.len() == 0) ==> !raw.usable(),
        raw.version != 9 ==> !raw.usable(),
{
    if raw.version == 9 && (forall|l: int| 0 <= l < raw.layers@.len() ==> (#[trigger] raw.layers@[l])@.len() > 0) && (
    forall|l: int, i: int|
        0 <= l < raw.layers@.len() && 0 <= i < raw.layers@[l]@.len() ==> {
            let n = #[trigger] raw.layers@[l]@[i];
            &&& n.amps_db@.len() >= 150
            &&& n.decays_fast_db_s@.len() >= 150
            &&& n.decays_slow_db_s@.len() >= 150
            &&& n.slow_split@.len() >= 150
        }) {
        assert forall|l: int| 0 <= l < raw.layers@.len() implies usable_layer((#[trigger] raw.layers@[l])@) by {
            assert forall|i: int| 0 <= i < raw.layers@[l]@.len() implies (#[trigger] raw.layers@[l]@[i]).complete() by {
                assert(raw.layers@[l]@[i].amps_db@.len() >= 150);
            }
        }
    }
}

} // verus!
