//! Reading command lines, and choosing among input ports.

use crate::text::{begins_with, contains_text, holds, same_text};
use vstd::prelude::*;

verus! {

/// What the renderer can be asked to do.
#[derive(Clone, Copy, Debug, PartialEq, Eq, Structural)]
pub enum Command {
    Note,
    Midi,
    SympatheticDemo,
    Bench,
}

/// Position `i` holds the first argument that reads `flag`.
pub open spec fn first_at(args: Seq<String>, flag: Seq<char>, i: int) -> bool {
    &&& 0 <= i < args.len()
    &&& args[i]@ == flag
    &&& forall|j: int| 0 <= j < i ==> (#[trigger] args[j])@ != flag
}

/// Some argument reads `flag`.
pub open spec fn mentions(args: Seq<String>, flag: Seq<char>) -> bool {
    exists|i: int| 0 <= i < args.len() && (#[trigger] args[i])@ == flag
}

/// The flags that stand alone, without a value.
pub open spec fn boolean_flag(arg: Seq<char>) -> bool {
    arg == "--auto-pedal"@ || arg == "--dry"@ || arg == "--legato"@
}

pub open spec fn dashed(arg: Seq<char>) -> bool {
    arg.len() > 0 && arg[0] == '-'
}

/// The positions of the positional arguments from position `i` on: a boolean
/// flag is skipped, any other flag is skipped with its value.
pub open spec fn positions_from(args: Seq<String>, i: int) -> Seq<int>
    decreases (if i >= args.len() { 0 } else { args.len() - i }),
{
    if i >= args.len() {
        Seq::empty()
    } else if boolean_flag(args[i]@) {
        positions_from(args, i + 1)
    } else if dashed(args[i]@) {
        positions_from(args, i + 2)
    } else {
        seq![i] + positions_from(args, i + 1)
    }
}

/// The positional arguments after the subcommand.
pub open spec fn positional_args(args: Seq<String>) -> Seq<String> {
    positions_from(args, 1).map_values(|i: int| args[i])
}

/// The subcommand that a word stands for.
pub open spec fn spec_command(word: Seq<char>) -> Option<Command> {
    if word == "note"@ {
        Some(Command::Note)
    } else if word == "midi"@ {
        Some(Command::Midi)
    } else if word == "sympathetic-demo"@ {
        Some(Command::SympatheticDemo)
    } else if word == "bench"@ {
        Some(Command::Bench)
    } else {
        None
    }
}

/// The value that follows the first occurrence of `flag`.
pub fn flag_value(args: &[String], flag: &str) -> (r: Option<String>)
    ensures
        !mentions(args@, flag@) ==> r is None,
        forall|i: int| #[trigger]
            first_at(args@, flag@, i) ==> if i + 1 < args@.len() {
                r is Some && r.unwrap()@ == args@[i + 1]@
            } else {
                r is None
            },
{
    let mut i: usize = 0;
    while i < args.len()
        invariant
            i <= args@.len(),
            forall|j: int| 0 <= j < i ==> (#[trigger] args@[j])@ != flag@,
        decreases args@.len() - i,
    {
        if same_text(args[i].as_str(), flag) {
            assert(first_at(args@, flag@, i as int));
            if args.len() - i > 1 {
                return Some(args[i + 1].clone());
            }
            return None;
        }
        i += 1;
    }
    None
}

/// Whether a flag occurs among the arguments.
pub fn has_flag(args: &[String], flag: &str) -> (r: bool)
    ensures
        r == mentions(args@, flag@),
{
    let mut i: usize = 0;
    while i < args.len()
        invariant
            i <= args@.len(),
            forall|j: int| 0 <= j < i ==> (#[trigger] args@[j])@ != flag@,
        decreases args@.len() - i,
    {
        if same_text(args[i].as_str(), flag) {
            return true;
        }
        i += 1;
    }
    false
}

fn is_boolean_flag(arg: &str) -> (r: bool)
    ensures
        r == boolean_flag(arg@),
{
    same_text(arg, "--auto-pedal") || same_text(arg, "--dry") || same_text(arg, "--legato")
}

/// Positional arguments after the subcommand (skipping flags; boolean flags
/// take no value).
pub fn positionals(args: &[String]) -> (out: Vec<&String>)
    ensures
        out@.len() == positional_args(args@).len(),
        forall|k: int| 0 <= k < out@.len() ==> *(#[trigger] out@[k]) == positional_args(args@)[k],
{
    let mut out: Vec<&String> = Vec::new();
    let mut i: usize = 1;
    let ghost mut seen: Seq<int> = Seq::empty();
    while i < args.len()
        invariant
            positions_from(args@, 1) == seen + positions_from(args@, i as int),
            out@.len() == seen.len(),
            forall|k: int| 0 <= k < out@.len() ==> *(#[trigger] out@[k]) == args@[seen[k]],
        decreases args@.len() - i,
    {
        if is_boolean_flag(args[i].as_str()) {
            i += 1;
        } else if begins_with(args[i].as_str(), '-') {
            if args.len() - i < 2 {
                assert(positions_from(args@, i + 2) == Seq::<int>::empty());
                assert(positions_from(args@, args@.len() as int) == Seq::<int>::empty());
                i = args.len();
            } else {
                i += 2;
            }
        } else {
            out.push(&args[i]);
            proof {
                assert(seen + (seq![i as int] + positions_from(args@, i + 1)) =~= seen.push(i as int)
                    + positions_from(args@, i + 1));
                seen = seen.push(i as int);
            }
            i += 1;
        }
    }
    assert(positions_from(args@, i as int) == Seq::<int>::empty());
    assert(positions_from(args@, 1) =~= seen);
    out
}

/// The subcommand that a word stands for.
pub fn command(word: &str) -> (r: Option<Command>)
    ensures
        r == spec_command(word@),
{
    if same_text(word, "note") {
        Some(Command::Note)
    } else if same_text(word, "midi") {
        Some(Command::Midi)
    } else if same_text(word, "sympathetic-demo") {
        Some(Command::SympatheticDemo)
    } else if same_text(word, "bench") {
        Some(Command::Bench)
    } else {
        None
    }
}

/// All of `ps` are positions at or after `i`, ascending, and none holds a
/// flag.
pub open spec fn plain_positions(args: Seq<String>, i: int, ps: Seq<int>) -> bool {
    &&& forall|k: int|
        0 <= k < ps.len() ==> i <= (#[trigger] ps[k]) < args.len() && !dashed(args[ps[k]]@)
            && !boolean_flag(args[ps[k]]@)
    &&& forall|j: int, k: int| 0 <= j < k < ps.len() ==> (#[trigger] ps[j]) < (#[trigger] ps[k])
}

/// Positional arguments are taken in the order given and never are flags.
pub proof fn positionals_are_not_flags(args: Seq<String>, i: int)
    ensures
        plain_positions(args, i, positions_from(args, i)),
    decreases (if i >= args.len() { 0 } else { args.len() - i }),
{
    if i < args.len() {
        positionals_are_not_flags(args, i + 1);
        positionals_are_not_flags(args, i + 2);
        let rest = positions_from(args, i + 1);
        if !boolean_flag(args[i]@) && !dashed(args[i]@) {
            assert(positions_from(args, i) == seq![i] + rest);
        }
    }
}

/// Port `i` is meant: where a name is wanted, one whose folded name holds it,
/// else any but a loopback, which carries its kind in its name. A port may have
/// no name that can be read.
pub open spec fn is_meant(names: Seq<Option<String>>, folded: Seq<Option<String>>, wanted: Option<&str>, i: int) -> bool {
    match wanted {
        Some(part) => folded[i] is Some && holds(folded[i].unwrap()@, part@),
        None => !(names[i] is Some && holds(names[i].unwrap()@, "Midi Through"@)),
    }
}

/// The first port that is meant. `folded` holds the names in lower case, as
/// `wanted` is.
pub fn pick_port(names: &Vec<Option<String>>, folded: &Vec<Option<String>>, wanted: Option<&str>) -> (r: Option<usize>)
    requires
        folded@.len() == names@.len(),
    ensures
        match r {
            Some(i) => {
                &&& i < names@.len()
                &&& is_meant(names@, folded@, wanted, i as int)
                &&& forall|j: int| 0 <= j < i ==> !is_meant(names@, folded@, wanted, j)
            },
            None => forall|j: int| 0 <= j < names@.len() ==> !is_meant(names@, folded@, wanted, j),
        },
{
    let mut i: usize = 0;
    while i < names.len()
        invariant
            i <= names@.len(),
            folded@.len() == names@.len(),
            forall|j: int| 0 <= j < i ==> !is_meant(names@, folded@, wanted, j),
        decreases names@.len() - i,
    {
        let meant: bool = match wanted {
            Some(part) => match &folded[i] {
                Some(name) => contains_text(name.as_str(), part),
                None => false,
            },
            None => match &names[i] {
                Some(name) => !contains_text(name.as_str(), "Midi Through"),
                None => true,
            },
        };
        assert(meant == is_meant(names@, folded@, wanted, i as int));
        if meant {
            return Some(i);
        }
        i += 1;
    }
    None
}

/// A flag of its own is passed over alone, so that what follows it still counts;
/// any other flag is passed over with its value; whatever else there is counts.
pub proof fn flags_are_passed_over(args: Seq<String>, i: int)
    requires
        1 <= i < args.len(),
    ensures
        args[i]@ == "--auto-pedal"@ || args[i]@ == "--dry"@ || args[i]@ == "--legato"@ ==> positions_from(args, i)
            == positions_from(args, i + 1),
        args[i]@ != "--auto-pedal"@ && args[i]@ != "--dry"@ && args[i]@ != "--legato"@ && args[i]@.len() > 0
            && args[i]@[0] == '-' ==> positions_from(args, i) == positions_from(args, i + 2),
        !(args[i]@.len() > 0 && args[i]@[0] == '-') ==> positions_from(args, i).len() == positions_from(
            args,
            i + 1,
        ).len() + 1 && positions_from(args, i)[0] == i && forall|k: int|
            0 <= k < positions_from(args, i + 1).len() ==> positions_from(args, i)[k + 1]
                == #[trigger] positions_from(args, i + 1)[k],
{
    reveal_strlit("--auto-pedal");
    reveal_strlit("--dry");
    reveal_strlit("--legato");
    assert("--auto-pedal"@[0] == '-');
    assert("--dry"@[0] == '-');
    assert("--legato"@[0] == '-');
}

/// Arguments that are no flags all count, from the one after the subcommand on,
/// in the order given.
pub proof fn plain_arguments_all_count(args: Seq<String>, i: int)
    requires
        1 <= i <= args.len(),
        forall|j: int| i <= j < args.len() ==> !((#[trigger] args[j])@.len() > 0 && args[j]@[0] == '-'),
    ensures
        positions_from(args, i).len() == args.len() - i,
        forall|k: int| 0 <= k < args.len() - i ==> #[trigger] positions_from(args, i)[k] == i + k,
    decreases args.len() - i,
{
    if i < args.len() {
        plain_arguments_all_count(args, i + 1);
        flags_are_passed_over(args, i);
    }
}

/// Each subcommand goes by one word, and no other word stands for one.
pub proof fn commands_go_by_their_word(word: Seq<char>)
    ensures
        spec_command("note"@) == Some(Command::Note),
        spec_command("midi"@) == Some(Command::Midi),
        spec_command("sympathetic-demo"@) == Some(Command::SympatheticDemo),
        spec_command("bench"@) == Some(Command::Bench),
        word != "note"@ && word != "midi"@ && word != "sympathetic-demo"@ && word != "bench"@ ==> spec_command(
            word,
        ) is None,
{
    reveal_strlit("note");
    reveal_strlit("midi");
    reveal_strlit("sympathetic-demo");
    reveal_strlit("bench");
    assert("note"@.len() == 4 && "note"@[0] == 'n');
    assert("midi"@.len() == 4 && "midi"@[0] == 'm');
    assert("sympathetic-demo"@.len() == 16);
    assert("bench"@.len() == 5);
}

/// Which ports are meant: with a name asked for, those whose folded name has it
/// in it, a loopback among them; with none, all but the loopbacks, those without
/// a name that can be read among them.
pub proof fn ports_are_meant_by_name(names: Seq<Option<String>>, folded: Seq<Option<String>>, part: &str, i: int)
    requires
        0 <= i < names.len(),
        folded.len() == names.len(),
    ensures
        is_meant(names, folded, Some(part), i) <==> folded[i] is Some && exists|at: int|
            0 <= at <= folded[i].unwrap()@.len() - part@.len() && #[trigger] folded[i].unwrap()@.subrange(
                at,
                at + part@.len(),
            ) == part@,
        names[i] is None ==> is_meant(names, folded, None, i),
        names[i] is Some && names[i].unwrap()@ == "Midi Through"@ ==> !is_meant(names, folded, None, i),
{
    if is_meant(names, folded, Some(part), i) {
        let name = folded[i].unwrap()@;
        let at = choose|at: int| crate::text::stands_at(name, part@, at);
        assert(name.subrange(at, at + part@.len()) == part@);
    }
    if folded[i] is Some && exists|at: int|
        0 <= at <= folded[i].unwrap()@.len() - part@.len() && #[trigger] folded[i].unwrap()@.subrange(
            at,
            at + part@.len(),
        ) == part@ {
        let name = folded[i].unwrap()@;
        let at = choose|at: int|
            0 <= at <= name.len() - part@.len() && #[trigger] name.subrange(at, at + part@.len()) == part@;
        assert(crate::text::stands_at(name, part@, at));
    }
    if names[i] is Some && names[i].unwrap()@ == "Midi Through"@ {
        let name = names[i].unwrap()@;
        assert(name.subrange(0, name.len() as int) =~= name);
        assert(crate::text::stands_at(name, "Midi Through"@, 0));
    }
}

/// Positional arguments are counted from the one after the subcommand on, and
/// are the arguments at their positions.
pub proof fn positionals_follow_the_subcommand(args: Seq<String>, i: int)
    requires
        0 <= i < positions_from(args, 1).len(),
    ensures
        positional_args(args).len() == positions_from(args, 1).len(),
        positional_args(args)[i] == args[positions_from(args, 1)[i]],
        positions_from(args, 1)[i] >= 1,
{
    positionals_are_not_flags(args, 1);
}

/// Of several arguments that read the same the first one counts, and there is a
/// first one wherever there is any.
pub proof fn first_flag_counts(args: Seq<String>, flag: Seq<char>, i: int, j: int)
    requires
        0 <= j < args.len(),
        args[j]@ == flag,
    ensures
        first_at(args, flag, i) ==> 0 <= i <= j && args[i]@ == flag,
        mentions(args, flag),
        exists|f: int| #[trigger] first_at(args, flag, f),
    decreases j,
{
    if first_at(args, flag, i) && j < i {
        assert(args[j]@ != flag);
    }
    if forall|e: int| 0 <= e < j ==> (#[trigger] args[e])@ != flag {
        assert(first_at(args, flag, j));
    } else {
        let e = choose|e: int| 0 <= e < j && (#[trigger] args[e])@ == flag;
        first_flag_counts(args, flag, i, e);
    }
}

/// A port is a loopback, and passed over where no name is asked for, if its name
/// has that of the loopbacks anywhere in it.
pub proof fn loopbacks_are_passed_over(names: Seq<Option<String>>, folded: Seq<Option<String>>, i: int, at: int)
    requires
        0 <= i < names.len(),
        names[i] is Some,
        0 <= at <= names[i].unwrap()@.len() - "Midi Through"@.len(),
        names[i].unwrap()@.subrange(at, at + "Midi Through"@.len()) == "Midi Through"@,
    ensures
        !is_meant(names, folded, None, i),
{
    assert(crate::text::stands_at(names[i].unwrap()@, "Midi Through"@, at));
}

} // verus!
