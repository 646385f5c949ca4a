//! Scalar tuning knobs of the instrument.

use crate::constant::{N0_031, N0_08, N0_25, N0_7, N0_77, N0_8, N0_82, N1_82, N3};
use crate::number::{SINGLE_ONE, Single, number};
use crate::setting::{answers, given_settings_stand, is_given, is_setting, setting, setting_name};
use crate::text::same_text;
use vstd::prelude::*;

verus! {

/// Scalar tuning knobs. Defaults are the shipped values; each can be overridden
/// by the host, so that a scoring harness can hill-climb them.
#[derive(Clone, Copy, Debug, PartialEq, Eq, Structural)]
pub struct Knobs {
    pub detune_scale: Single,
    pub attack_scale: Single,
    pub glide_cents: Single,
    pub bed_gain: Single,
    pub noise_gain: Single,
    pub split_max: Single,
    pub fast_scale: Single,
    pub bank_drive: Single,
    pub bank_ping: Single,
    pub body_gain: Single,
}

/// The settings of the host, with the shipped ones as default.
pub open spec fn knob_settings<G: Fn(&'static str) -> Option<Single>>(get: G, k: Knobs) -> bool {
    &&& is_setting(get, "PIANO_DETUNE_SCALE", N1_82, k.detune_scale)
    &&& is_setting(get, "PIANO_ATTACK_SCALE", N0_77, k.attack_scale)
    &&& is_setting(get, "PIANO_GLIDE_CENTS", N3, k.glide_cents)
    &&& is_setting(get, "PIANO_BED_GAIN", N0_82, k.bed_gain)
    &&& is_setting(get, "PIANO_NOISE_GAIN", SINGLE_ONE, k.noise_gain)
    &&& is_setting(get, "PIANO_SPLIT_MAX", N0_7, k.split_max)
    &&& is_setting(get, "PIANO_FAST_SCALE", N0_8, k.fast_scale)
    &&& is_setting(get, "PIANO_BANK_DRIVE", N0_031, k.bank_drive)
    &&& is_setting(get, "PIANO_BANK_PING", N0_08, k.bank_ping)
    &&& is_setting(get, "PIANO_BODY_GAIN", N0_25, k.body_gain)
}

/// There is a knob of that name.
pub open spec fn is_knob(name: Seq<char>) -> bool {
    ||| name == "DETUNE_SCALE"@
    ||| name == "ATTACK_SCALE"@
    ||| name == "GLIDE_CENTS"@
    ||| name == "BED_GAIN"@
    ||| name == "NOISE_GAIN"@
    ||| name == "SPLIT_MAX"@
    ||| name == "FAST_SCALE"@
    ||| name == "BANK_DRIVE"@
    ||| name == "BANK_PING"@
    ||| name == "BODY_GAIN"@
}

/// The shipped knobs.
#[verifier::allow_in_spec]
pub fn shipped_knobs() -> Knobs
    returns
        (Knobs {
            detune_scale: number(N1_82),
            attack_scale: number(N0_77),
            glide_cents: number(N3),
            bed_gain: number(N0_82),
            noise_gain: number(SINGLE_ONE),
            split_max: number(N0_7),
            fast_scale: number(N0_8),
            bank_drive: number(N0_031),
            bank_ping: number(N0_08),
            body_gain: number(N0_25),
        }),
{
    Knobs {
        detune_scale: number(N1_82),
        attack_scale: number(N0_77),
        glide_cents: number(N3),
        bed_gain: number(N0_82),
        noise_gain: number(SINGLE_ONE),
        split_max: number(N0_7),
        fast_scale: number(N0_8),
        bank_drive: number(N0_031),
        bank_ping: number(N0_08),
        body_gain: number(N0_25),
    }
}

impl Knobs {
    /// The knobs with the one of that name set; an unknown name sets none. The
    /// names are those of the host's settings without their common prefix.
    pub open spec fn with(self, name: Seq<char>, value: Single) -> Knobs {
        if name == "DETUNE_SCALE"@ {
            Knobs { detune_scale: value, ..self }
        } else if name == "ATTACK_SCALE"@ {
            Knobs { attack_scale: value, ..self }
        } else if name == "GLIDE_CENTS"@ {
            Knobs { glide_cents: value, ..self }
        } else if name == "BED_GAIN"@ {
            Knobs { bed_gain: value, ..self }
        } else if name == "NOISE_GAIN"@ {
            Knobs { noise_gain: value, ..self }
        } else if name == "SPLIT_MAX"@ {
            Knobs { split_max: value, ..self }
        } else if name == "FAST_SCALE"@ {
            Knobs { fast_scale: value, ..self }
        } else if name == "BANK_DRIVE"@ {
            Knobs { bank_drive: value, ..self }
        } else if name == "BANK_PING"@ {
            Knobs { bank_ping: value, ..self }
        } else if name == "BODY_GAIN"@ {
            Knobs { body_gain: value, ..self }
        } else {
            self
        }
    }

    /// The knobs as the host sets them.
    pub fn from_env<G: Fn(&'static str) -> Option<Single>>(get: &G) -> (r: Knobs)
        requires
            answers(*get),
        ensures
            knob_settings(*get, r),
    {
        Knobs {
            detune_scale: setting(get, "PIANO_DETUNE_SCALE", N1_82),
            attack_scale: setting(get, "PIANO_ATTACK_SCALE", N0_77),
            glide_cents: setting(get, "PIANO_GLIDE_CENTS", N3),
            bed_gain: setting(get, "PIANO_BED_GAIN", N0_82),
            noise_gain: setting(get, "PIANO_NOISE_GAIN", SINGLE_ONE),
            split_max: setting(get, "PIANO_SPLIT_MAX", N0_7),
            fast_scale: setting(get, "PIANO_FAST_SCALE", N0_8),
            bank_drive: setting(get, "PIANO_BANK_DRIVE", N0_031),
            bank_ping: setting(get, "PIANO_BANK_PING", N0_08),
            body_gain: setting(get, "PIANO_BODY_GAIN", N0_25),
        }
    }

    /// Sets the knob of that name.
    pub fn set(&mut self, name: &str, value: Single)
        ensures
            *final(self) == old(self).with(name@, value),
    {
        if same_text(name, "DETUNE_SCALE") {
            self.detune_scale = value;
        } else if same_text(name, "ATTACK_SCALE") {
            self.attack_scale = value;
        } else if same_text(name, "GLIDE_CENTS") {
            self.glide_cents = value;
        } else if same_text(name, "BED_GAIN") {
            self.bed_gain = value;
        } else if same_text(name, "NOISE_GAIN") {
            self.noise_gain = value;
        } else if same_text(name, "SPLIT_MAX") {
            self.split_max = value;
        } else if same_text(name, "FAST_SCALE") {
            self.fast_scale = value;
        } else if same_text(name, "BANK_DRIVE") {
            self.bank_drive = value;
        } else if same_text(name, "BANK_PING") {
            self.bank_ping = value;
        } else if same_text(name, "BODY_GAIN") {
            self.body_gain = value;
        }
    }
}

/// A host that gives no settings leaves the instrument as it was shipped.
pub proof fn shipped_by_default<G: Fn(&'static str) -> Option<Single>>(get: G, k: Knobs)
    requires
        knob_settings(get, k),
        forall|name: &'static str, given: Option<Single>| call_ensures(get, (name,), given) ==> given is None,
    ensures
        k == shipped_knobs(),
{
}

/// The knobs go by the names of the settings: to set a knob to what the host
/// has set it to changes nothing.
pub proof fn knobs_go_by_settings<G: Fn(&'static str) -> Option<Single>>(get: G, k: Knobs, name: Seq<char>, value: Single)
    requires
        knob_settings(get, k),
        is_given(get, name, value),
    ensures
        k.with(name, value) == k,
{
    reveal_strlit("PIANO_");
    if name == "DETUNE_SCALE"@ {
        reveal_strlit("DETUNE_SCALE");
        reveal_strlit("PIANO_DETUNE_SCALE");
        assert("PIANO_DETUNE_SCALE"@ =~= setting_name(name));
        given_settings_stand(get, name, value, "PIANO_DETUNE_SCALE", N1_82, k.detune_scale);
    } else if name == "ATTACK_SCALE"@ {
        reveal_strlit("ATTACK_SCALE");
        reveal_strlit("PIANO_ATTACK_SCALE");
        assert("PIANO_ATTACK_SCALE"@ =~= setting_name(name));
        given_settings_stand(get, name, value, "PIANO_ATTACK_SCALE", N0_77, k.attack_scale);
    } else if name == "GLIDE_CENTS"@ {
        reveal_strlit("GLIDE_CENTS");
        reveal_strlit("PIANO_GLIDE_CENTS");
        assert("PIANO_GLIDE_CENTS"@ =~= setting_name(name));
        given_settings_stand(get, name, value, "PIANO_GLIDE_CENTS", N3, k.glide_cents);
    } else if name == "BED_GAIN"@ {
        reveal_strlit("BED_GAIN");
        reveal_strlit("PIANO_BED_GAIN");
        assert("PIANO_BED_GAIN"@ =~= setting_name(name));
        given_settings_stand(get, name, value, "PIANO_BED_GAIN", N0_82, k.bed_gain);
    } else if name == "NOISE_GAIN"@ {
        reveal_strlit("NOISE_GAIN");
        reveal_strlit("PIANO_NOISE_GAIN");
        assert("PIANO_NOISE_GAIN"@ =~= setting_name(name));
        given_settings_stand(get, name, value, "PIANO_NOISE_GAIN", SINGLE_ONE, k.noise_gain);
    } else if name == "SPLIT_MAX"@ {
        reveal_strlit("SPLIT_MAX");
        reveal_strlit("PIANO_SPLIT_MAX");
        assert("PIANO_SPLIT_MAX"@ =~= setting_name(name));
        given_settings_stand(get, name, value, "PIANO_SPLIT_MAX", N0_7, k.split_max);
    } else if name == "FAST_SCALE"@ {
        reveal_strlit("FAST_SCALE");
        reveal_strlit("PIANO_FAST_SCALE");
        assert("PIANO_FAST_SCALE"@ =~= setting_name(name));
        given_settings_stand(get, name, value, "PIANO_FAST_SCALE", N0_8, k.fast_scale);
    } else if name == "BANK_DRIVE"@ {
        reveal_strlit("BANK_DRIVE");
        reveal_strlit("PIANO_BANK_DRIVE");
        assert("PIANO_BANK_DRIVE"@ =~= setting_name(name));
        given_settings_stand(get, name, value, "PIANO_BANK_DRIVE", N0_031, k.bank_drive);
    } else if name == "BANK_PING"@ {
        reveal_strlit("BANK_PING");
        reveal_strlit("PIANO_BANK_PING");
        assert("PIANO_BANK_PING"@ =~= setting_name(name));
        given_settings_stand(get, name, value, "PIANO_BANK_PING", N0_08, k.bank_ping);
    } else if name == "BODY_GAIN"@ {
        reveal_strlit("BODY_GAIN");
        reveal_strlit("PIANO_BODY_GAIN");
        assert("PIANO_BODY_GAIN"@ =~= setting_name(name));
        given_settings_stand(get, name, value, "PIANO_BODY_GAIN", N0_25, k.body_gain);
    }
}

/// A knob takes the value given, whatever it was before.
pub proof fn knobs_take_their_value(k: Knobs, value: Single)
    ensures
        k.with("DETUNE_SCALE"@, value).detune_scale == value,
        k.with("ATTACK_SCALE"@, value).attack_scale == value,
        k.with("GLIDE_CENTS"@, value).glide_cents == value,
        k.with("BED_GAIN"@, value).bed_gain == value,
        k.with("NOISE_GAIN"@, value).noise_gain == value,
        k.with("SPLIT_MAX"@, value).split_max == value,
        k.with("FAST_SCALE"@, value).fast_scale == value,
        k.with("BANK_DRIVE"@, value).bank_drive == value,
        k.with("BANK_PING"@, value).bank_ping == value,
        k.with("BODY_GAIN"@, value).body_gain == value,
{
    reveal_strlit("DETUNE_SCALE");
    reveal_strlit("ATTACK_SCALE");
    reveal_strlit("GLIDE_CENTS");
    reveal_strlit("BED_GAIN");
    reveal_strlit("NOISE_GAIN");
    reveal_strlit("SPLIT_MAX");
    reveal_strlit("FAST_SCALE");
    reveal_strlit("BANK_DRIVE");
    reveal_strlit("BANK_PING");
    reveal_strlit("BODY_GAIN");
    assert("DETUNE_SCALE"@.len() == 12);
    assert("ATTACK_SCALE"@.len() == 12);
    assert("GLIDE_CENTS"@.len() == 11);
    assert("BED_GAIN"@.len() == 8);
    assert("NOISE_GAIN"@.len() == 10);
    assert("SPLIT_MAX"@.len() == 9);
    assert("FAST_SCALE"@.len() == 10);
    assert("BANK_DRIVE"@.len() == 10);
    assert("BANK_PING"@.len() == 9);
    assert("BODY_GAIN"@.len() == 9);
    assert("DETUNE_SCALE"@[0] != "ATTACK_SCALE"@[0]);
    assert("NOISE_GAIN"@[0] != "FAST_SCALE"@[0]);
    assert("NOISE_GAIN"@[0] != "BANK_DRIVE"@[0]);
    assert("SPLIT_MAX"@[0] != "BANK_PING"@[0]);
    assert("SPLIT_MAX"@[0] != "BODY_GAIN"@[0]);
    assert("FAST_SCALE"@[0] != "BANK_DRIVE"@[0]);
    assert("BANK_PING"@[1] != "BODY_GAIN"@[1]);
}

/// Of two settings of one knob the last one stands.
pub proof fn last_knob_stands(k: Knobs, name: Seq<char>, first: Single, last: Single)
    ensures
        k.with(name, first).with(name, last) == k.with(name, last),
{
}

/// Knobs are independent: two of them can be set in either order.
pub proof fn knobs_are_independent(k: Knobs, m: Seq<char>, a: Single, n: Seq<char>, b: Single)
    requires
        m != n,
    ensures
        k.with(m, a).with(n, b) == k.with(n, b).with(m, a),
{
}

/// Every knob counts and nothing else does: two values that differ leave
/// different knobs, and an unknown name leaves them as they are.
pub proof fn every_knob_counts(k: Knobs, name: Seq<char>, a: Single, b: Single)
    ensures
        is_knob(name) && a != b ==> k.with(name, a) != k.with(name, b),
        !is_knob(name) ==> k.with(name, a) == k,
{
}

} // verus!
