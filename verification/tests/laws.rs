use vietnamese_input::composer::BACKSPACE;
use vietnamese_input::config::{chord_to_string, parse_chord};
use vietnamese_input::integration::Chord;
use vietnamese_input::config_parser::{
    detect_conflicts, detect_cycles, ConfigParser, InputMethodConfig, RuleContext, TransformationRule, ValidationError,
};
use vietnamese_input::{ComposerResult, InputMethod, VietnameseComposer};

fn feed(composer: &mut VietnameseComposer, sid: &str, seq: &str) {
    for ch in seq.chars() {
        assert_eq!(composer.process_key(sid, ch), ComposerResult::Consumed, "key {ch:?} of {seq:?}");
    }
}

/// One buffered keystroke followed by one backspace leaves the session's
/// composition as it was before the keystroke, in every method.
#[test]
fn backspace_takes_back_the_last_buffered_keystroke() {
    let cases = [
        (InputMethod::Telex, "uo", 'w', "uo", "ươ"),
        (InputMethod::Telex, "a", 's', "a", "á"),
        (InputMethod::Telex, "d", 'd', "d", "đ"),
        (InputMethod::Vni, "uo", '7', "uo", "ươ"),
        (InputMethod::Vni, "a6", '1', "â", "ấ"),
        (InputMethod::VniWindows, "a1", '6', "á", "ấ"),
    ];
    for (method, prefix, key, before, after) in cases {
        let mut composer = VietnameseComposer::with_method(method);
        feed(&mut composer, "s", prefix);
        feed(&mut composer, "other", "vi");
        assert_eq!(composer.get_buffer_content("s"), Some(before));
        assert_eq!(composer.process_key("s", key), ComposerResult::Consumed);
        assert_eq!(composer.get_buffer_content("s"), Some(after));
        assert_eq!(composer.handle_backspace("s"), ComposerResult::Consumed);
        assert_eq!(composer.get_buffer_content("s"), Some(before), "{method:?} {prefix}{key}");
        assert_eq!(composer.get_buffer_content("other"), Some("vi"));
    }
}

/// The law holds also once the history has reached its cap.
#[test]
fn backspace_takes_back_a_keystroke_past_the_history_cap() {
    let mut composer = VietnameseComposer::with_method(InputMethod::Telex);
    feed(&mut composer, "s", "bcghklmnpqtv");
    assert_eq!(composer.handle_backspace("s"), ComposerResult::Consumed);
    assert_eq!(composer.get_buffer_content("s"), Some("bcghklmnpqt"));
}

/// The first keystroke of a session, taken back, leaves no session behind.
#[test]
fn backspace_after_first_keystroke_drops_the_session() {
    let mut composer = VietnameseComposer::with_method(InputMethod::Vni);
    feed(&mut composer, "s", "o");
    assert_eq!(composer.handle_backspace("s"), ComposerResult::Consumed);
    assert!(!composer.has_session("s"));
    match composer.handle_backspace("s") {
        ComposerResult::PassThrough(ev) => assert_eq!(ev.seq(), BACKSPACE.to_string()),
        other => panic!("expected PassThrough, got {other:?}"),
    }
}

/// A keystroke in one session leaves every other session as it was.
#[test]
fn keystrokes_and_backspaces_leave_other_sessions_alone() {
    let mut composer = VietnameseComposer::with_method(InputMethod::Telex);
    feed(&mut composer, "a", "ngu");
    feed(&mut composer, "b", "dd");
    composer.process_key("b", ' ');
    composer.handle_backspace("c");
    composer.process_key("c", 'x');
    assert_eq!(composer.get_buffer_content("a"), Some("ngu"));
    assert!(!composer.has_session("b"));
}

/// Four cycles return to the starting method; two toggles return to the
/// starting method.
#[test]
fn cycling_four_times_and_toggling_twice_return_to_start() {
    for start in [InputMethod::Telex, InputMethod::Vni, InputMethod::VniWindows, InputMethod::Off] {
        let mut c = VietnameseComposer::with_method(start);
        for _ in 0..4 {
            c.cycle_method();
        }
        assert_eq!(c.active_method(), start);
        c.toggle_method();
        c.toggle_method();
        assert_eq!(c.active_method(), start);
    }
}

/// Every chord, written out, reads back as itself.
#[test]
fn chord_text_round_trips_for_every_modifier_set() {
    for bits in 0u8..16 {
        for key in ['a', 'z', '0', '/'] {
            let chord = Chord::new(bits & 1 != 0, bits & 2 != 0, bits & 4 != 0, bits & 8 != 0, key);
            assert_eq!(parse_chord(&chord_to_string(&chord)), Some(chord));
        }
    }
}

/// Toggling from off always turns composition on, with the last composing
/// method, whichever way composition was switched off.
#[test]
fn toggling_from_off_restores_the_last_composing_method() {
    for m in [InputMethod::Telex, InputMethod::Vni, InputMethod::VniWindows] {
        let mut c = VietnameseComposer::new();
        c.set_method(m);
        c.set_method(InputMethod::Off);
        assert_eq!(c.toggle_method(), m);
        assert_eq!(c.toggle_method(), InputMethod::Off);
        assert_eq!(c.toggle_method(), m);
    }
    let mut c = VietnameseComposer::with_method(InputMethod::Vni);
    for _ in 0..2 {
        c.cycle_method();
    }
    assert_eq!(c.active_method(), InputMethod::Off);
    assert_eq!(c.toggle_method(), InputMethod::VniWindows);
}

fn plain_rule(input: &str, output: char) -> TransformationRule {
    TransformationRule { input_sequence: input.to_string(), output_char: output, context: None }
}

fn rules_config(rules: Vec<TransformationRule>) -> InputMethodConfig {
    InputMethodConfig { id: "laws".to_string(), name: "Laws".to_string(), rules, metadata: None }
}

/// A conflict lists a key's distinct outputs in first-seen order; the same
/// input under another context is another key and never conflicts.
#[test]
fn conflicts_group_by_input_and_context() {
    let found = detect_conflicts(&vec![plain_rule("x", 'a'), plain_rule("x", 'b'), plain_rule("x", 'a'), plain_rule("x", 'c')]);
    assert_eq!(found, vec![ValidationError::ConflictingMapping { input: "x".to_string(), outputs: vec!['a', 'b', 'c'] }]);
    let with_context = TransformationRule {
        input_sequence: "x".to_string(),
        output_char: 'b',
        context: Some(RuleContext { preceding: Some(vec!['q']), not_preceding: None }),
    };
    assert!(detect_conflicts(&vec![plain_rule("x", 'a'), with_context]).is_empty());
}

/// Validation succeeds exactly when equal keys agree on their output and no
/// chain of rules loops back.
#[test]
fn validation_accepts_exactly_consistent_acyclic_rules() {
    let consistent = rules_config(vec![plain_rule("aa", 'â'), plain_rule("aa", 'â'), plain_rule("ee", 'ê')]);
    assert_eq!(ConfigParser::validate_rules(&consistent), Ok(()));
    let inconsistent = rules_config(vec![plain_rule("aa", 'â'), plain_rule("ee", 'ê'), plain_rule("aa", 'ä')]);
    assert!(ConfigParser::validate_rules(&inconsistent).is_err());
    let looping = rules_config(vec![plain_rule("a", 'b'), plain_rule("b", 'a')]);
    assert!(ConfigParser::validate_rules(&looping).is_err());
}

/// A rule whose output is its own input is a cycle of one rule; the cycle
/// search reports nothing on an acyclic rule set.
#[test]
fn cycle_search_reports_exactly_the_cycles() {
    assert_eq!(detect_cycles(&vec![plain_rule("a", 'a')]), vec![ValidationError::CyclicRule { rules: vec![0] }]);
    assert!(detect_cycles(&vec![plain_rule("aa", 'â'), plain_rule("ee", 'ê')]).is_empty());
    let found = detect_cycles(&vec![plain_rule("a", 'b'), plain_rule("b", 'c'), plain_rule("c", 'a')]);
    assert_eq!(found.len(), 1);
    match &found[0] {
        ValidationError::CyclicRule { rules } => {
            let mut sorted = rules.clone();
            sorted.sort();
            assert_eq!(sorted, vec![0, 1, 2]);
        }
        other => panic!("expected a cycle, got {:?}", other),
    }
}
