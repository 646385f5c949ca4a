use piano::cli::{Command, command, flag_value, has_flag, pick_port, positionals};
use piano::text::{begins_with, contains_text, same_text};

fn args(words: &[&str]) -> Vec<String> {
    words.iter().map(|w| w.to_string()).collect()
}

#[test]
fn flags_have_values() {
    let a = args(&["note", "60", "96", "-o", "out.wav", "--synth", "modal-v2", "-o", "other.wav", "--dur"]);
    assert_eq!(flag_value(&a, "-o"), Some("out.wav".to_string()));
    assert_eq!(flag_value(&a, "--synth"), Some("modal-v2".to_string()));
    assert_eq!(flag_value(&a, "--sr"), None);
    assert_eq!(flag_value(&a, "--dur"), None);
}

#[test]
fn flags_can_be_asked_for() {
    let a = args(&["midi", "--dry", "x.mid"]);
    assert!(has_flag(&a, "--dry"));
    assert!(!has_flag(&a, "--legato"));
}

#[test]
fn positionals_skip_flags() {
    let a = args(&["note", "60", "--synth", "baseline", "96", "-o", "out.wav"]);
    assert_eq!(positionals(&a), vec!["60", "96"]);
    let b = args(&["midi", "--auto-pedal", "--dry", "a.mid", "--legato", "-o", "o.wav"]);
    assert_eq!(positionals(&b), vec!["a.mid"]);
    let c = args(&["midi", "a.mid", "-o"]);
    assert_eq!(positionals(&c), vec!["a.mid"]);
    assert!(positionals(&[]).is_empty());
    assert!(positionals(&args(&["bench"])).is_empty());
}

#[test]
fn commands_are_known_by_name() {
    assert_eq!(command("note"), Some(Command::Note));
    assert_eq!(command("midi"), Some(Command::Midi));
    assert_eq!(command("sympathetic-demo"), Some(Command::SympatheticDemo));
    assert_eq!(command("bench"), Some(Command::Bench));
    assert_eq!(command("Bench"), None);
    assert_eq!(command(""), None);
}

#[test]
fn texts_are_compared_by_character() {
    assert!(same_text("a\u{e9}b", "a\u{e9}b"));
    assert!(!same_text("ab", "abc"));
    assert!(!same_text("ab", "ac"));
    assert!(begins_with("-o", '-'));
    assert!(!begins_with("", '-'));
    assert!(contains_text("Midi Through 14:0", "Through"));
    assert!(contains_text("\u{e9}t\u{e9}", "t\u{e9}"));
    assert!(contains_text("abc", ""));
    assert!(!contains_text("abc", "abcd"));
    assert!(!contains_text("aab", "ba"));
}

#[test]
fn ports_are_picked_by_name() {
    let some = |s: &str| Some(s.to_string());
    let names = vec![some("Midi Through Port-0"), None, some("Digital Piano"), some("Other Piano")];
    let folded: Vec<Option<String>> = names.iter().map(|n| n.as_ref().map(|n| n.to_lowercase())).collect();
    assert_eq!(pick_port(&names, &folded, None), Some(1));
    assert_eq!(pick_port(&names, &folded, Some("piano")), Some(2));
    assert_eq!(pick_port(&names, &folded, Some("other")), Some(3));
    assert_eq!(pick_port(&names, &folded, Some("through")), Some(0));
    assert_eq!(pick_port(&names, &folded, Some("organ")), None);
    assert_eq!(pick_port(&vec![some("Midi Through")], &vec![some("midi through")], None), None);
}
