//! Settings with defaults, which the host may override by name.

use crate::number::{Single, number};
use vstd::prelude::*;

verus! {

/// `x` is the setting of that name as the host gives it, or the default where
/// the host gives none.
pub open spec fn is_setting<G: Fn(&'static str) -> Option<Single>>(get: G, name: &'static str, default: u32, x: Single) -> bool {
    exists|given: Option<Single>|
        #[trigger] call_ensures(get, (name,), given) && x == (match given {
            Some(value) => value,
            None => number(default),
        })
}

/// The host can be asked for any name.
pub open spec fn answers<G: Fn(&'static str) -> Option<Single>>(get: G) -> bool {
    forall|name: &'static str| call_requires(get, (name,))
}

/// The name of the setting of a knob.
pub open spec fn setting_name(knob: Seq<char>) -> Seq<char> {
    "PIANO_"@ + knob
}

/// The host sets the knob of that name, and sets it to `value`.
pub open spec fn is_given<G: Fn(&'static str) -> Option<Single>>(get: G, knob: Seq<char>, value: Single) -> bool {
    forall|name: &'static str, given: Option<Single>| #[trigger]
        call_ensures(get, (name,), given) && name@ == setting_name(knob) ==> given == Some(value)
}

/// A setting that the host gives is what the host gives.
pub proof fn given_settings_stand<G: Fn(&'static str) -> Option<Single>>(
    get: G,
    knob: Seq<char>,
    value: Single,
    name: &'static str,
    default: u32,
    x: Single,
)
    requires
        is_given(get, knob, value),
        name@ == setting_name(knob),
        is_setting(get, name, default, x),
    ensures
        x == value,
{
}

/// The setting of that name, or its default.
pub fn setting<G: Fn(&'static str) -> Option<Single>>(get: &G, name: &'static str, default: u32) -> (x: Single)
    requires
        answers(*get),
    ensures
        is_setting(*get, name, default, x),
{
    let given: Option<Single> = get(name);
    match given {
        Some(value) => value,
        None => number(default),
    }
}

} // verus!
