//! Sympathetic resonance: every piano string shares the bridge, so any
//! sounding note rings every undamped string: keys held down, pedal down, and
//! everything above F#6, where there are no dampers. The strings are a bank of
//! 88 times 3 partials of resonators, driven by the mix of the voices, with
//! per-string damper gating.

use crate::arith::{Arith, Op};
use crate::calibration::{Calibration, LayerState, NoteParams, ParamsState, params_at};
use crate::constant::{
    N0_004, N0_25, N0_5, N0_95, N1E_4, N1_5, N30, N35, N4, N40, N6, N8, N87, QUARTER, TAU,
};
use crate::formula::UNDAMPED_NOTE;
use crate::number::{Single, number, one, zero};
use crate::rng::{spec_draws, xorshift};
use vstd::prelude::*;

verus! {

/// Partials per string.
pub const BANK_PARTIALS: usize = 3;

/// Strings.
pub const BANK_NOTES: usize = 88;

/// Resonators of the bank.
pub const BANK_RES: usize = 264;

/// Entries of the coupling table: one row of resonators per played note.
pub const COUPLINGS: usize = 23_232;

/// Overtones of a played note that ring other strings.
pub const OVERTONES: usize = 16;

/// The note of the lowest string.
pub const LOWEST_NOTE: u8 = 21;

/// The velocity at which the calibration is read for the bank.
pub const BANK_VELOCITY: u8 = 100;

/// One partial of a string. The decay in force is that of the open or of the
/// damped string.
#[derive(Clone, Copy, Debug)]
pub struct BankString {
    pub re: Single,
    pub im: Single,
    pub rot_re: Single,
    pub rot_im: Single,
    pub decay: Single,
    pub open_decay: Single,
    pub damped_decay: Single,
    pub gain_in: Single,
    pub pan_l: Single,
    pub pan_r: Single,
}

/// The bank.
pub struct StringBank {
    strings: [BankString; 264],
    open: [bool; 88],
    /// How strongly a note-on rings each string partial, row by row of played
    /// notes: the instant sympathetic ping that slow driven buildup cannot give.
    ping: Vec<Single>,
}

/// What a bank is, as sequences.
#[verifier::ext_equal]
pub struct BankState {
    pub strings: Seq<BankString>,
    pub open: Seq<bool>,
    pub ping: Seq<Single>,
}

impl View for StringBank {
    type V = BankState;

    closed spec fn view(&self) -> BankState {
        BankState { strings: self.strings@, open: self.open@, ping: self.ping@ }
    }
}

/// The note has a string.
pub open spec fn has_string(note: u8) -> bool {
    LOWEST_NOTE <= note < LOWEST_NOTE + BANK_NOTES
}

/// String `s` has no damper.
pub open spec fn undamped(s: int) -> bool {
    LOWEST_NOTE + s >= UNDAMPED_NOTE
}

/// A string above what the sample rate can carry: it never sounds.
#[verifier::allow_in_spec]
pub fn dead() -> BankString
    returns
        (BankString {
            re: zero(),
            im: zero(),
            rot_re: one(),
            rot_im: zero(),
            decay: zero(),
            open_decay: zero(),
            damped_decay: zero(),
            gain_in: zero(),
            pan_l: zero(),
            pan_r: zero(),
        }),
{
    BankString {
        re: zero(),
        im: zero(),
        rot_re: one(),
        rot_im: zero(),
        decay: zero(),
        open_decay: zero(),
        damped_decay: zero(),
        gain_in: zero(),
        pan_l: zero(),
        pan_r: zero(),
    }
}

/// Partial `p` of string `s` as it is tuned from the parameters of its note.
/// The ring decays like the aftersound. Resting dampers leak. The gain is
/// normalized for resonant buildup, and lower partials couple more strongly.
pub open spec fn tuned_string<F: Fn(Op) -> Single>(k: Arith<F>, sr: Single, params: ParamsState, s: int, p: int) -> BankString {
    let note = (LOWEST_NOTE + s) as u8;
    let f0 = k.tuned(k.midi_note_freq(note), params.f0_cents);
    let freq = k.partial_freq(f0, params.b, (p + 1) as usize);
    let w = k.angular_step(freq, sr);
    let open_decay = k.decay_factor(params.decays_slow[p].clamped(one(), number(N30)), sr);
    let damped_decay = if undamped(s) {
        open_decay
    } else {
        k.decay_factor(number(N35), sr).lesser(open_decay)
    };
    let angle = k.times(
        k.plus(number(N0_25), k.times(number(N0_5), k.over(k.whole(s as u64), number(N87)))),
        number(QUARTER),
    );
    if k.nyquist(sr).le(freq) {
        dead()
    } else {
        BankString {
            re: zero(),
            im: zero(),
            rot_re: k.cosine(w),
            rot_im: k.sine(w),
            decay: damped_decay,
            open_decay,
            damped_decay,
            gain_in: k.over(k.times(number(N8), k.minus(one(), open_decay)), k.whole((p + 1) as u64)),
            pan_l: k.cosine(angle),
            pan_r: k.sine(angle),
        }
    }
}

/// The strings of a silent bank.
pub open spec fn tuned_strings<F: Fn(Op) -> Single>(k: Arith<F>, sr: Single, layers: Seq<LayerState>) -> Seq<BankString> {
    Seq::new(
        BANK_RES as nat,
        |r: int|
            tuned_string(
                k,
                sr,
                params_at(k, layers, (LOWEST_NOTE + r / 3) as u8, BANK_VELOCITY),
                r / 3,
                r % 3,
            ),
    )
}

/// What overtone `m` of a played note adds to the coupling of a string: its
/// amplitude by how near in frequency the two are, nothing if they are far
/// apart or the string is dead.
pub open spec fn overtone_coupling<F: Fn(Op) -> Single>(
    k: Arith<F>,
    sr: Single,
    freq: Single,
    amp_db: Single,
    m: int,
    string: BankString,
) -> Option<Single> {
    let amp = k.gain(amp_db.clamped(number(N40).negated(), number(N6)));
    let width = k.plus(number(N1_5), k.times(number(N0_004), freq));
    let own = k.over(k.times(k.angle(string.rot_im, string.rot_re), sr), number(TAU));
    let df = k.minus(own, freq).absolute();
    if string.gain_in.zero_valued() || !df.lt(k.times(width, number(N4))) {
        None
    } else {
        let off = k.over(df, width);
        let kernel = k.over(one(), k.plus(one(), k.times(off, off)));
        Some(k.over(k.times(amp, kernel), k.root(k.whole(m as u64))))
    }
}

/// The first `m` overtones are all below what the sample rate can carry.
pub open spec fn carried<F: Fn(Op) -> Single>(k: Arith<F>, sr: Single, f0: Single, b: Single, m: int) -> bool {
    forall|j: int| 1 <= j <= m ==> !k.nyquist(sr).le(#[trigger] k.partial_freq(f0, b, j as usize))
}

/// One more overtone is carried exactly if it is itself below the limit.
pub proof fn lemma_carried_next<F: Fn(Op) -> Single>(k: Arith<F>, sr: Single, f0: Single, b: Single, n: usize)
    requires
        n >= 1,
    ensures
        carried(k, sr, f0, b, n as int) == (carried(k, sr, f0, b, n - 1) && !k.nyquist(sr).le(
            k.partial_freq(f0, b, n),
        )),
{
    let m = n as int;
    assert(m as usize == n);
    if carried(k, sr, f0, b, n - 1) && !k.nyquist(sr).le(k.partial_freq(f0, b, n)) {
        assert forall|j: int| 1 <= j <= m implies !k.nyquist(sr).le(
            #[trigger] k.partial_freq(f0, b, j as usize),
        ) by {
            if j == m {
                assert(j as usize == n);
            }
        }
    }
    if carried(k, sr, f0, b, m) {
        assert(!k.nyquist(sr).le(k.partial_freq(f0, b, m as usize)));
        assert forall|j: int| 1 <= j <= m - 1 implies !k.nyquist(sr).le(
            #[trigger] k.partial_freq(f0, b, j as usize),
        ) by {
        }
    }
}

/// The coupling of a string to a played note by its first `m` overtones; the
/// first one that is not carried ends the series.
pub open spec fn coupling<F: Fn(Op) -> Single>(
    k: Arith<F>,
    sr: Single,
    params: ParamsState,
    f0: Single,
    string: BankString,
    m: int,
) -> Single
    decreases m,
{
    if m <= 0 {
        zero()
    } else {
        let rest = coupling(k, sr, params, f0, string, m - 1);
        let freq = k.partial_freq(f0, params.b, m as usize);
        match overtone_coupling(k, sr, freq, params.amps_db[m - 1], m, string) {
            Some(c) if carried(k, sr, f0, params.b, m) => k.plus(rest, c),
            _ => rest,
        }
    }
}

/// How strongly a played note rings a string.
pub open spec fn coupling_of<F: Fn(Op) -> Single>(
    k: Arith<F>,
    sr: Single,
    layers: Seq<LayerState>,
    played: int,
    string: BankString,
) -> Single {
    let note = (LOWEST_NOTE + played) as u8;
    let params = params_at(k, layers, note, BANK_VELOCITY);
    let f0 = k.tuned(k.midi_note_freq(note), params.f0_cents);
    coupling(k, sr, params, f0, string, OVERTONES as int)
}

/// The coupling table.
pub open spec fn couplings<F: Fn(Op) -> Single>(
    k: Arith<F>,
    sr: Single,
    layers: Seq<LayerState>,
    strings: Seq<BankString>,
) -> Seq<Single> {
    Seq::new(COUPLINGS as nat, |i: int| coupling_of(k, sr, layers, i / 264, strings[i % 264]))
}

/// A string partial rung with the given strength at the phase of a draw.
pub open spec fn rung<F: Fn(Op) -> Single>(k: Arith<F>, s: BankString, strength: Single, c: Single, draw: u32) -> BankString {
    let push = k.times(strength, c);
    let phase = k.draw_phase(draw);
    BankString {
        re: k.plus(s.re, k.times(push, k.cosine(phase))),
        im: k.plus(s.im, k.times(push, k.sine(phase))),
        ..s
    }
}

/// A string partial after one sample under `drive`.
pub open spec fn driven<F: Fn(Op) -> Single>(k: Arith<F>, s: BankString, drive: Single) -> BankString {
    BankString {
        re: k.plus(
            k.times(k.minus(k.times(s.re, s.rot_re), k.times(s.im, s.rot_im)), s.decay),
            k.times(drive, s.gain_in),
        ),
        im: k.times(k.plus(k.times(s.re, s.rot_im), k.times(s.im, s.rot_re)), s.decay),
        ..s
    }
}

/// The panning of a string partial to one side.
pub open spec fn pan_of(s: BankString, left: bool) -> Single {
    if left {
        s.pan_l
    } else {
        s.pan_r
    }
}

/// The sum of lane `lane` over the first `c` lane groups, panned to one side.
pub open spec fn lane_mix<F: Fn(Op) -> Single>(k: Arith<F>, strings: Seq<BankString>, left: bool, lane: int, c: int) -> Single
    decreases c,
{
    if c <= 0 {
        zero()
    } else {
        let s = strings[8 * (c - 1) + lane];
        k.plus(lane_mix(k, strings, left, lane, c - 1), k.times(s.im, pan_of(s, left)))
    }
}

/// The sum of the first `l` lanes, panned to one side.
pub open spec fn bank_mix<F: Fn(Op) -> Single>(k: Arith<F>, strings: Seq<BankString>, left: bool, l: int) -> Single
    decreases l,
{
    if l <= 0 {
        zero()
    } else {
        k.plus(bank_mix(k, strings, left, l - 1), lane_mix(k, strings, left, l - 1, 33))
    }
}

impl BankState {
    pub open spec fn sized(self) -> bool {
        &&& self.strings.len() == BANK_RES
        &&& self.open.len() == BANK_NOTES
        &&& self.ping.len() == COUPLINGS
    }

    /// Every resonator decays as its string is gated, and strings without a
    /// damper are open.
    pub open spec fn gated(self) -> bool {
        &&& forall|r: int|
            0 <= r < BANK_RES ==> (#[trigger] self.strings[r]).decay == (if self.open[r / 3] {
                self.strings[r].open_decay
            } else {
                self.strings[r].damped_decay
            })
        &&& forall|r: int|
            0 <= r < BANK_RES && undamped(r / 3) ==> (#[trigger] self.strings[r]).damped_decay
                == self.strings[r].open_decay
        &&& forall|s: int| 0 <= s < BANK_NOTES && undamped(s) ==> #[trigger] self.open[s]
    }

    /// The bank with the string of `note` opened or closed; a string without a
    /// damper does not close, and a note without a string changes nothing.
    pub open spec fn with_open(self, note: u8, open: bool) -> BankState {
        if has_string(note) {
            let s = note - LOWEST_NOTE;
            BankState {
                open: self.open.update(s, open || note >= UNDAMPED_NOTE),
                strings: Seq::new(
                    self.strings.len(),
                    |r: int|
                        if r / 3 == s {
                            BankString {
                                decay: if open {
                                    self.strings[r].open_decay
                                } else {
                                    self.strings[r].damped_decay
                                },
                                ..self.strings[r]
                            }
                        } else {
                            self.strings[r]
                        },
                ),
                ..self
            }
        } else {
            self
        }
    }

    /// Resonator `r` answers when string `played` is struck: its own string is
    /// open, is another one, and couples.
    pub open spec fn rings(self, played: int, r: int) -> bool {
        &&& self.open[r / 3]
        &&& r / 3 != played
        &&& !self.ping[played * 264 + r].le(number(N1E_4))
    }

    /// How many of the first `r` resonators answer.
    pub open spec fn ring_count(self, played: int, r: int) -> nat
        decreases r,
    {
        if r <= 0 {
            0
        } else {
            self.ring_count(played, r - 1) + if self.rings(played, r - 1) {
                1nat
            } else {
                0nat
            }
        }
    }

    /// The bank after `note` was struck: every resonator that answers is rung
    /// by its coupling, at the phase of a draw of its own.
    pub open spec fn pinged<F: Fn(Op) -> Single>(self, k: Arith<F>, note: u8, strength: Single, rng: u32) -> BankState {
        let played = note - LOWEST_NOTE;
        if has_string(note) {
            BankState {
                strings: Seq::new(
                    self.strings.len(),
                    |r: int|
                        if self.rings(played, r) {
                            rung(
                                k,
                                self.strings[r],
                                strength,
                                self.ping[played * 264 + r],
                                spec_draws(rng, self.ring_count(played, r) + 1),
                            )
                        } else {
                            self.strings[r]
                        },
                ),
                ..self
            }
        } else {
            self
        }
    }

    /// The generator after `note` was struck: one draw for every resonator that
    /// answers.
    pub open spec fn rng_after_ping(self, note: u8, rng: u32) -> u32 {
        if has_string(note) {
            spec_draws(rng, self.ring_count(note - LOWEST_NOTE, BANK_RES as int))
        } else {
            rng
        }
    }

    /// The bank after one sample.
    pub open spec fn stepped<F: Fn(Op) -> Single>(self, k: Arith<F>, drive: Single) -> BankState {
        BankState {
            strings: Seq::new(self.strings.len(), |r: int| driven(k, self.strings[r], drive)),
            ..self
        }
    }

    /// What the bank gives to one side.
    pub open spec fn output<F: Fn(Op) -> Single>(self, k: Arith<F>, left: bool) -> Single {
        bank_mix(k, self.strings, left, 8)
    }
}

impl<F: Fn(Op) -> Single> Arith<F> {
    /// The frequency up to which the sample rate can carry a partial, with a
    /// margin.
    #[verifier::allow_in_spec]
    pub fn nyquist(&self, sr: Single) -> Single
        returns
            self.times(self.times(sr, number(N0_5)), number(N0_95)),
    {
        self.times(self.times(sr, number(N0_5)), number(N0_95))
    }
}

fn tune_string<F: Fn(Op) -> Single>(k: &Arith<F>, sr: Single, params: &NoteParams, s: usize, p: usize) -> (r: BankString)
    requires
        s < BANK_NOTES,
        p < BANK_PARTIALS,
    ensures
        r == tuned_string(*k, sr, params@, s as int, p as int),
{
    let note: u8 = LOWEST_NOTE + s as u8;
    let f0: Single = k.tuned(k.midi_note_freq(note), params.f0_cents);
    let freq: Single = k.partial_freq(f0, params.b, p + 1);
    if k.nyquist(sr).is_at_most(freq) {
        return dead();
    }
    let w: Single = k.angular_step(freq, sr);
    let open_decay: Single = k.decay_factor(params.decays_slow[p].clamped(one(), number(N30)), sr);
    let damped_decay: Single = if note >= UNDAMPED_NOTE {
        open_decay
    } else {
        k.decay_factor(number(N35), sr).lesser(open_decay)
    };
    let angle: Single = k.times(
        k.plus(number(N0_25), k.times(number(N0_5), k.over(k.whole(s as u64), number(N87)))),
        number(QUARTER),
    );
    BankString {
        re: zero(),
        im: zero(),
        rot_re: k.cosine(w),
        rot_im: k.sine(w),
        decay: damped_decay,
        open_decay,
        damped_decay,
        gain_in: k.over(k.times(number(N8), k.minus(one(), open_decay)), k.whole((p + 1) as u64)),
        pan_l: k.cosine(angle),
        pan_r: k.sine(angle),
    }
}

/// What one overtone adds to the coupling of a string.
fn couple<F: Fn(Op) -> Single>(k: &Arith<F>, sr: Single, freq: Single, amp_db: Single, m: usize, string: BankString) -> (r: Option<Single>)
    ensures
        r == overtone_coupling(*k, sr, freq, amp_db, m as int, string),
{
    if string.gain_in.is_zero() {
        return None;
    }
    let amp: Single = k.gain(amp_db.clamped(number(N40).negated(), number(N6)));
    let width: Single = k.plus(number(N1_5), k.times(number(N0_004), freq));
    let own: Single = k.over(k.times(k.angle(string.rot_im, string.rot_re), sr), number(TAU));
    let df: Single = k.minus(own, freq).absolute();
    if !df.is_below(k.times(width, number(N4))) {
        return None;
    }
    let off: Single = k.over(df, width);
    let kernel: Single = k.over(one(), k.plus(one(), k.times(off, off)));
    Some(k.over(k.times(amp, kernel), k.root(k.whole(m as u64))))
}

/// One row of the coupling table.
fn couple_row<F: Fn(Op) -> Single>(k: &Arith<F>, sr: Single, cal: &Calibration, strings: &[BankString; 264], played: usize) -> (row: [Single; 264])
    requires
        cal.wf(),
        cal@.len() > 0,
        played < BANK_NOTES,
    ensures
        forall|r: int| 0 <= r < BANK_RES ==> #[trigger] row@[r] == coupling_of(*k, sr, cal@, played as int, strings@[r]),
{
    let note: u8 = LOWEST_NOTE + played as u8;
    let params: NoteParams = cal.lookup(k, note, BANK_VELOCITY);
    let ghost p = params@;
    let f0: Single = k.tuned(k.midi_note_freq(note), params.f0_cents);
    let mut row: [Single; 264] = [zero(); 264];
    let mut over: bool = false;
    let mut m: usize = 1;
    while m <= OVERTONES
        invariant
            1 <= m <= OVERTONES + 1,
            p == params@,
            over == !carried(*k, sr, f0, p.b, m - 1),
            forall|r: int| 0 <= r < BANK_RES ==> #[trigger] row@[r] == coupling(*k, sr, p, f0, strings@[r], m - 1),
        decreases OVERTONES + 1 - m,
    {
        let freq: Single = k.partial_freq(f0, params.b, m);
        if !over && k.nyquist(sr).is_at_most(freq) {
            over = true;
        }
        proof {
            lemma_carried_next(*k, sr, f0, p.b, m);
        }
        let mut r: usize = 0;
        while r < 264
            invariant
                1 <= m <= OVERTONES,
                r <= 264,
                p == params@,
                freq == k.partial_freq(f0, p.b, m),
                over == !carried(*k, sr, f0, p.b, m as int),
                forall|i: int| 0 <= i < r ==> #[trigger] row@[i] == coupling(*k, sr, p, f0, strings@[i], m as int),
                forall|i: int| r <= i < 264 ==> #[trigger] row@[i] == coupling(*k, sr, p, f0, strings@[i], m - 1),
            decreases 264 - r,
        {
            let c: Option<Single> = couple(k, sr, freq, params.amps_db[m - 1], m, strings[r]);
            assert(m as int as usize == m);
            if !over {
                if let Some(c) = c {
                    row[r] = k.plus(row[r], c);
                }
            }
            r += 1;
        }
        m += 1;
    }
    row
}

impl StringBank {
    pub closed spec fn wf(self) -> bool {
        self@.sized() && self@.gated()
    }

    /// What a bank in use keeps.
    pub proof fn lemma_wf(&self)
        requires
            self.wf(),
        ensures
            self@.sized(),
            self@.gated(),
    {
    }

    /// A silent bank, tuned from the calibration. Strings without a damper are
    /// open from the start.
    pub fn new<F: Fn(Op) -> Single>(k: &Arith<F>, sr: Single, cal: &Calibration) -> (r: StringBank)
        requires
            cal.wf(),
            cal@.len() > 0,
        ensures
            r.wf(),
            r@.strings == tuned_strings(*k, sr, cal@),
            r@.open == Seq::new(BANK_NOTES as nat, |s: int| undamped(s)),
            r@.ping == couplings(*k, sr, cal@, r@.strings),
    {
        let mut strings: [BankString; 264] = [dead(); 264];
        let mut open: [bool; 88] = [false; 88];
        let mut s: usize = 0;
        while s < 88
            invariant
                s <= 88,
                cal.wf(),
                cal@.len() > 0,
                forall|j: int| 0 <= j < s ==> #[trigger] open@[j] == undamped(j),
                forall|j: int| 0 <= j < 3 * s ==> #[trigger] strings@[j] == tuned_strings(*k, sr, cal@)[j],
            decreases 88 - s,
        {
            let note: u8 = LOWEST_NOTE + s as u8;
            open[s] = note >= UNDAMPED_NOTE;
            let params: NoteParams = cal.lookup(k, note, BANK_VELOCITY);
            let mut p: usize = 0;
            while p < 3
                invariant
                    s < 88,
                    p <= 3,
                    params@ == params_at(*k, cal@, (LOWEST_NOTE + s) as u8, BANK_VELOCITY),
                    forall|j: int| 0 <= j < 3 * s + p ==> #[trigger] strings@[j] == tuned_strings(*k, sr, cal@)[j],
                decreases 3 - p,
            {
                let r: usize = s * 3 + p;
                assert(r as int / 3 == s && r as int % 3 == p);
                strings[r] = tune_string(k, sr, &params, s, p);
                p += 1;
            }
            s += 1;
        }
        let mut ping: Vec<Single> = Vec::with_capacity(COUPLINGS);
        let mut played: usize = 0;
        while played < 88
            invariant
                played <= 88,
                cal.wf(),
                cal@.len() > 0,
                ping@.len() == 264 * played,
                forall|i: int|
                    0 <= i < ping@.len() ==> #[trigger] ping@[i] == coupling_of(
                        *k,
                        sr,
                        cal@,
                        i / 264,
                        strings@[i % 264],
                    ),
            decreases 88 - played,
        {
            let row: [Single; 264] = couple_row(k, sr, cal, &strings, played);
            let mut r: usize = 0;
            while r < 264
                invariant
                    played < 88,
                    r <= 264,
                    ping@.len() == 264 * played + r,
                    forall|j: int|
                        0 <= j < BANK_RES ==> #[trigger] row@[j] == coupling_of(
                            *k,
                            sr,
                            cal@,
                            played as int,
                            strings@[j],
                        ),
                    forall|i: int|
                        0 <= i < ping@.len() ==> #[trigger] ping@[i] == coupling_of(
                            *k,
                            sr,
                            cal@,
                            i / 264,
                            strings@[i % 264],
                        ),
                decreases 264 - r,
            {
                assert((264 * played + r) as int / 264 == played && (264 * played + r) as int % 264 == r);
                ping.push(row[r]);
                r += 1;
            }
            played += 1;
        }
        let bank = StringBank { strings, open, ping };
        assert(bank@.strings =~= tuned_strings(*k, sr, cal@));
        assert(bank@.open =~= Seq::new(BANK_NOTES as nat, |s: int| undamped(s)));
        assert(bank@.ping =~= couplings(*k, sr, cal@, bank@.strings));
        bank
    }

    /// Rings all open strings, except the played one, at note-on. Returns the
    /// generator.
    pub fn ping<F: Fn(Op) -> Single>(&mut self, k: &Arith<F>, note: u8, strength: Single, rng: u32) -> (next: u32)
        requires
            old(self).wf(),
        ensures
            final(self).wf(),
            final(self)@ == old(self)@.pinged(*k, note, strength, rng),
            next == old(self)@.rng_after_ping(note, rng),
    {
        let ghost bank = self@;
        if note < LOWEST_NOTE || note >= LOWEST_NOTE + BANK_NOTES as u8 {
            return rng;
        }
        let ghost after = bank.pinged(*k, note, strength, rng);
        let played: usize = (note - LOWEST_NOTE) as usize;
        let mut next: u32 = rng;
        let mut r: usize = 0;
        while r < BANK_RES
            invariant
                r <= BANK_RES,
                played < BANK_NOTES,
                played == note - LOWEST_NOTE,
                has_string(note),
                bank.sized(),
                bank.gated(),
                after == bank.pinged(*k, note, strength, rng),
                self@ == (BankState { strings: self@.strings, ..bank }),
                next == spec_draws(rng, bank.ring_count(played as int, r as int)),
                forall|j: int| 0 <= j < r ==> #[trigger] self@.strings[j] == after.strings[j],
                forall|j: int| r <= j < BANK_RES ==> #[trigger] self@.strings[j] == bank.strings[j],
            decreases BANK_RES - r,
        {
            let string: usize = r / 3;
            assert(self.open@ == bank.open);
            assert(self.ping@ == bank.ping);
            let c: Single = self.ping[played * 264 + r];
            if self.open[string] && string != played && !c.is_at_most(number(N1E_4)) {
                assert(bank.rings(played as int, r as int));
                next = xorshift(next);
                let ghost mid = self@;
                let phase: Single = k.draw_phase(next);
                let push: Single = k.times(strength, c);
                let s: BankString = self.strings[r];
                assert(s == mid.strings[r as int]);
                self.strings[r] = BankString {
                    re: k.plus(s.re, k.times(push, k.cosine(phase))),
                    im: k.plus(s.im, k.times(push, k.sine(phase))),
                    ..s
                };
                assert(self@.strings =~= mid.strings.update(r as int, self@.strings[r as int]));
            }
            r += 1;
        }
        assert(self@.strings =~= after.strings);
        next
    }

    /// Opens or closes the string of a note; strings without a damper stay
    /// open.
    pub fn set_open(&mut self, note: u8, open: bool)
        requires
            old(self).wf(),
        ensures
            final(self).wf(),
            final(self)@ == old(self)@.with_open(note, open),
    {
        let ghost bank = self@;
        if note < LOWEST_NOTE || note >= LOWEST_NOTE + BANK_NOTES as u8 {
            return;
        }
        let ghost after = bank.with_open(note, open);
        let string: usize = (note - LOWEST_NOTE) as usize;
        self.open[string] = open || note >= UNDAMPED_NOTE;
        let mut p: usize = 0;
        while p < BANK_PARTIALS
            invariant
                p <= 3,
                string < 88,
                string == note - LOWEST_NOTE,
                bank.sized(),
                after == bank.with_open(note, open),
                self@ == (BankState { open: after.open, strings: self@.strings, ..bank }),
                forall|r: int|
                    0 <= r < BANK_RES ==> #[trigger] self@.strings[r] == (if r < 3 * string + p {
                        after.strings[r]
                    } else {
                        bank.strings[r]
                    }),
            decreases 3 - p,
        {
            let r: usize = string * 3 + p;
            let ghost mid = self@;
            let s: BankString = self.strings[r];
            assert(s == mid.strings[r as int]);
            assert(r as int / 3 == string);
            self.strings[r] = BankString {
                decay: if open {
                    s.open_decay
                } else {
                    s.damped_decay
                },
                ..s
            };
            assert(self@.strings =~= mid.strings.update(r as int, self@.strings[r as int]));
            p += 1;
        }
        assert(self@.strings =~= after.strings);
        assert(self@ =~= after);
        assert(self@.gated());
    }

    /// Advances one sample: excites the strings with the bridge signal, and
    /// returns what they give to the left and to the right.
    pub fn step<F: Fn(Op) -> Single>(&mut self, k: &Arith<F>, drive: Single) -> (out: (Single, Single))
        requires
            old(self).wf(),
        ensures
            final(self).wf(),
            final(self)@ == old(self)@.stepped(*k, drive),
            out.0 == old(self)@.output(*k, true),
            out.1 == old(self)@.output(*k, false),
    {
        let ghost bank = self@;
        let mut acc_l: [Single; 8] = [zero(); 8];
        let mut acc_r: [Single; 8] = [zero(); 8];
        let mut c: usize = 0;
        while c < 33
            invariant
                c <= 33,
                bank.sized(),
                bank.gated(),
                self@ == (BankState { strings: self@.strings, ..bank }),
                forall|j: int| 0 <= j < 8 * c ==> #[trigger] self@.strings[j] == driven(*k, bank.strings[j], drive),
                forall|j: int| 8 * c <= j < BANK_RES ==> #[trigger] self@.strings[j] == bank.strings[j],
                forall|l: int| 0 <= l < 8 ==> #[trigger] acc_l@[l] == lane_mix(*k, bank.strings, true, l, c as int),
                forall|l: int| 0 <= l < 8 ==> #[trigger] acc_r@[l] == lane_mix(*k, bank.strings, false, l, c as int),
            decreases 33 - c,
        {
            let mut l: usize = 0;
            while l < 8
                invariant
                    c < 33,
                    l <= 8,
                    bank.sized(),
                    bank.gated(),
                    self@ == (BankState { strings: self@.strings, ..bank }),
                    forall|j: int|
                        0 <= j < 8 * c + l ==> #[trigger] self@.strings[j] == driven(*k, bank.strings[j], drive),
                    forall|j: int| 8 * c + l <= j < BANK_RES ==> #[trigger] self@.strings[j] == bank.strings[j],
                    forall|i: int|
                        0 <= i < 8 ==> #[trigger] acc_l@[i] == lane_mix(
                            *k,
                            bank.strings,
                            true,
                            i,
                            if i < l {
                                c + 1
                            } else {
                                c as int
                            },
                        ),
                    forall|i: int|
                        0 <= i < 8 ==> #[trigger] acc_r@[i] == lane_mix(
                            *k,
                            bank.strings,
                            false,
                            i,
                            if i < l {
                                c + 1
                            } else {
                                c as int
                            },
                        ),
                decreases 8 - l,
            {
                let r: usize = 8 * c + l;
                let ghost mid = self@;
                let s: BankString = self.strings[r];
                assert(s == mid.strings[r as int]);
                let re: Single = k.plus(
                    k.times(k.minus(k.times(s.re, s.rot_re), k.times(s.im, s.rot_im)), s.decay),
                    k.times(drive, s.gain_in),
                );
                let im: Single = k.times(k.plus(k.times(s.re, s.rot_im), k.times(s.im, s.rot_re)), s.decay);
                self.strings[r] = BankString { re, im, ..s };
                assert(self@.strings =~= mid.strings.update(r as int, driven(*k, s, drive)));
                acc_l[l] = k.plus(acc_l[l], k.times(s.im, s.pan_l));
                acc_r[l] = k.plus(acc_r[l], k.times(s.im, s.pan_r));
                l += 1;
            }
            c += 1;
        }
        let mut left: Single = zero();
        let mut right: Single = zero();
        let mut l: usize = 0;
        while l < 8
            invariant
                l <= 8,
                forall|i: int| 0 <= i < 8 ==> #[trigger] acc_l@[i] == lane_mix(*k, bank.strings, true, i, 33),
                forall|i: int| 0 <= i < 8 ==> #[trigger] acc_r@[i] == lane_mix(*k, bank.strings, false, i, 33),
                left == bank_mix(*k, bank.strings, true, l as int),
                right == bank_mix(*k, bank.strings, false, l as int),
            decreases 8 - l,
        {
            left = k.plus(left, acc_l[l]);
            right = k.plus(right, acc_r[l]);
            l += 1;
        }
        assert(self@.strings =~= bank.stepped(*k, drive).strings);
        (left, right)
    }
}

/// A strike rings only open strings, never its own, and none that it does not
/// couple to; it changes the swing of those that it rings and nothing else.
pub proof fn strikes_ring_open_strings<F: Fn(Op) -> Single>(b: BankState, k: Arith<F>, note: u8, strength: Single, rng: u32, r: int)
    requires
        b.sized(),
        0 <= r < 264,
    ensures
        ({
            let after = b.pinged(k, note, strength, rng).strings[r];
            &&& after == (BankString { re: after.re, im: after.im, ..b.strings[r] })
            &&& !b.open[r / 3] || r / 3 == note - 21 ==> after == b.strings[r]
            &&& 21 <= note <= 108 && b.ping[(note - 21) * 264 + r].le(number(N1E_4)) ==> after == b.strings[r]
            &&& 21 <= note <= 108 && b.open[r / 3] && r / 3 != note - 21 && number(N1E_4).lt(
                b.ping[(note - 21) * 264 + r],
            ) ==> exists|draw: u32| after == #[trigger] rung(k, b.strings[r], strength, b.ping[(note - 21) * 264 + r], draw)
        }),
        note < 21 || note > 108 ==> b.pinged(k, note, strength, rng) == b,
        b.pinged(k, note, strength, rng).open == b.open,
        b.pinged(k, note, strength, rng).ping == b.ping,
{
    if has_string(note) {
        let played = note - LOWEST_NOTE;
        if b.rings(played, r) {
            let draw = spec_draws(rng, b.ring_count(played, r) + 1);
            assert(b.pinged(k, note, strength, rng).strings[r] == rung(
                k,
                b.strings[r],
                strength,
                b.ping[played * 264 + r],
                draw,
            ));
        }
    }
}

/// Opening or closing a string concerns that string alone, and only how fast it
/// decays; a string without a damper never closes.
pub proof fn gating_is_local(b: BankState, note: u8, open: bool, r: int, s: int)
    requires
        b.sized(),
        b.gated(),
        0 <= r < 264,
        0 <= s < 88,
    ensures
        ({
            let after = b.with_open(note, open);
            &&& after.strings[r] == (BankString { decay: after.strings[r].decay, ..b.strings[r] })
            &&& r / 3 != note - 21 ==> after.strings[r] == b.strings[r]
            &&& r / 3 == note - 21 && open ==> after.strings[r].decay == b.strings[r].open_decay
            &&& r / 3 == note - 21 && !open ==> after.strings[r].decay == b.strings[r].damped_decay
            &&& s != note - 21 ==> after.open[s] == b.open[s]
            &&& s == note - 21 ==> after.open[s] == (open || note >= 90)
            &&& note >= 90 && s == note - 21 ==> after.open[s] == b.open[s]
            &&& note < 21 || note > 108 ==> after == b
        }),
{
    if has_string(note) && note >= 90 {
        assert(undamped(note - LOWEST_NOTE));
    }
}

/// How a string of the bank is tuned: it rings as long as the aftersound of its
/// note, within one and thirty decibels a second; under a damper it leaks at
/// thirty-five, unless it rings shorter anyway or has no damper; it takes in by
/// how long it rings and by its partial; and one that the sample rate cannot
/// carry never sounds.
pub proof fn bank_strings_are_tuned<F: Fn(Op) -> Single>(k: Arith<F>, sr: Single, params: ParamsState, s: int, p: int)
    requires
        0 <= s < 88,
        0 <= p < 3,
    ensures
        ({
            let f0 = k.tuned(k.midi_note_freq((21 + s) as u8), params.f0_cents);
            let freq = k.partial_freq(f0, params.b, (p + 1) as usize);
            let asked = params.decays_slow[p];
            let slow = if asked.lt(one()) {
                one()
            } else if number(0x41F0_0000).lt(asked) {
                number(0x41F0_0000)
            } else {
                asked
            };
            let open = k.decay_factor(slow, sr);
            let leak = k.decay_factor(number(0x420C_0000), sr);
            let angle = k.times(
                k.plus(number(0x3E80_0000), k.times(number(0x3F00_0000), k.over(k.whole(s as u64), number(0x42AE_0000)))),
                number(0x3FC9_0FDB),
            );
            let t = tuned_string(k, sr, params, s, p);
            &&& k.nyquist(sr).le(freq) ==> t.gain_in == zero() && t.re == zero() && t.im == zero()
            &&& !k.nyquist(sr).le(freq) ==> {
                &&& t.open_decay == open
                &&& 21 + s >= 90 ==> t.damped_decay == open
                &&& 21 + s < 90 && !leak.nan() && !open.nan() ==> t.damped_decay == (if open.lt(leak) {
                    open
                } else {
                    leak
                })
                &&& t.decay == t.damped_decay
                &&& t.gain_in == k.over(k.times(number(0x4100_0000), k.minus(one(), open)), k.whole((p + 1) as u64))
                &&& t.rot_re == k.cosine(k.angular_step(freq, sr))
                &&& t.rot_im == k.sine(k.angular_step(freq, sr))
                &&& t.pan_l == k.cosine(angle)
                &&& t.pan_r == k.sine(angle)
                &&& t.re == zero() && t.im == zero()
            }
        }),
{
}

/// An overtone couples to a string by how near it is: within four widths, which
/// grow with the frequency, by its own level between minus forty and six
/// decibels, and less the higher it is.
pub proof fn near_overtones_couple<F: Fn(Op) -> Single>(k: Arith<F>, sr: Single, freq: Single, amp_db: Single, m: int, string: BankString)
    requires
        !amp_db.nan(),
    ensures
        ({
            let width = k.plus(number(0x3FC0_0000), k.times(number(0x3B83_126F), freq));
            let own = k.over(k.times(k.angle(string.rot_im, string.rot_re), sr), number(0x40C9_0FDB));
            let df = k.minus(own, freq).absolute();
            let off = k.over(df, width);
            let level = if amp_db.lt(number(0x4220_0000).negated()) {
                number(0x4220_0000).negated()
            } else if number(0x40C0_0000).lt(amp_db) {
                number(0x40C0_0000)
            } else {
                amp_db
            };
            let c = overtone_coupling(k, sr, freq, amp_db, m, string);
            &&& string.gain_in.zero_valued() ==> c is None
            &&& !df.lt(k.times(width, number(0x4080_0000))) ==> c is None
            &&& !string.gain_in.zero_valued() && df.lt(k.times(width, number(0x4080_0000))) ==> c == Some(
                k.over(
                    k.times(
                        k.power(number(0x4120_0000), k.over(level, number(0x41A0_0000))),
                        k.over(one(), k.plus(one(), k.times(off, off))),
                    ),
                    k.root(k.whole(m as u64)),
                ),
            )
        }),
{
}

/// A bank holds three partials of each of 88 strings, from note 21 on, tuned from
/// the measurements at velocity 100.
pub proof fn banks_hold_every_string<F: Fn(Op) -> Single>(k: Arith<F>, sr: Single, layers: Seq<LayerState>, s: int, p: int)
    requires
        0 <= s < 88,
        0 <= p < 3,
    ensures
        tuned_strings(k, sr, layers).len() == 264,
        tuned_strings(k, sr, layers)[3 * s + p] == tuned_string(
            k,
            sr,
            params_at(k, layers, (21 + s) as u8, 100),
            s,
            p,
        ),
{
    assert((3 * s + p) / 3 == s && (3 * s + p) % 3 == p);
}

/// A played note couples to a string by its first sixteen overtones, each by its
/// own share; the first that the sample rate cannot carry ends them.
pub proof fn overtones_couple_in_turn<F: Fn(Op) -> Single>(
    k: Arith<F>,
    sr: Single,
    params: ParamsState,
    f0: Single,
    string: BankString,
    m: int,
)
    requires
        1 <= m <= 16,
    ensures
        ({
            let freq = k.partial_freq(f0, params.b, m as usize);
            let all_below = forall|j: int|
                1 <= j <= m ==> !k.nyquist(sr).le(#[trigger] k.partial_freq(f0, params.b, j as usize));
            let share = overtone_coupling(k, sr, freq, params.amps_db[m - 1], m, string);
            let before = coupling(k, sr, params, f0, string, m - 1);
            let after = coupling(k, sr, params, f0, string, m);
            &&& coupling(k, sr, params, f0, string, 0) == zero()
            &&& !all_below || share is None ==> after == before
            &&& all_below && share is Some ==> after == k.plus(before, share.unwrap())
        }),
{
}

/// The coupling table has a row for every played note and an entry in it for
/// every string partial, read at velocity 100.
pub proof fn couplings_are_by_note_and_string<F: Fn(Op) -> Single>(
    k: Arith<F>,
    sr: Single,
    layers: Seq<LayerState>,
    strings: Seq<BankString>,
    played: int,
    r: int,
)
    requires
        0 <= played < 88,
        0 <= r < 264,
    ensures
        ({
            let note = (21 + played) as u8;
            let params = params_at(k, layers, note, 100);
            let f0 = k.tuned(k.midi_note_freq(note), params.f0_cents);
            &&& couplings(k, sr, layers, strings).len() == 88 * 264
            &&& couplings(k, sr, layers, strings)[played * 264 + r] == coupling(k, sr, params, f0, strings[r], 16)
        }),
{
    let at = played * 264 + r;
    assert(0 <= at < 23_232);
    assert(at / 264 == played && at % 264 == r);
}

/// What a bank gives to a side is the sum of its eight lanes.
pub proof fn banks_sum_their_lanes<F: Fn(Op) -> Single>(k: Arith<F>, b: BankState, left: bool, l: int)
    requires
        0 <= l < 8,
    ensures
        b.output(k, left) == bank_mix(k, b.strings, left, 8),
        bank_mix(k, b.strings, left, 0) == zero(),
        bank_mix(k, b.strings, left, l + 1) == k.plus(
            bank_mix(k, b.strings, left, l),
            lane_mix(k, b.strings, left, l, 33),
        ),
{
}

/// A strike makes one draw for every string partial that it rings, and none
/// besides.
pub proof fn strikes_draw_once_per_ring(b: BankState, note: u8, rng: u32, r: int)
    requires
        0 <= r < 264,
    ensures
        note < 21 || note > 108 ==> b.rng_after_ping(note, rng) == rng,
        21 <= note <= 108 ==> b.rng_after_ping(note, rng) == spec_draws(rng, b.ring_count(note - 21, 264)),
        b.ring_count(note - 21, 0) == 0,
        b.ring_count(note - 21, r + 1) == b.ring_count(note - 21, r) + (if b.open[r / 3] && r / 3 != note - 21
            && !b.ping[(note - 21) * 264 + r].le(number(0x38D1_B717)) {
            1nat
        } else {
            0nat
        }),
{
}

} // verus!
