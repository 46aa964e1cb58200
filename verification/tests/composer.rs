use std::time::Duration;

use vietnamese_input::composer::{MEMORY_LIMIT_BYTES, PROCESSING_BUDGET, SLOW_KEYSTROKE_THRESHOLD};
use vietnamese_input::composer::exceeds_memory_limit;
use vietnamese_input::{ComposerResult, InputMethod, NormalizationForm, VietnameseComposer};

type SessionID = String;

fn session() -> SessionID {
    "session-1".to_string()
}

/// Feed a whole sequence into the composer for one session, returning the
/// final result. Intermediate results are asserted to be `Consumed`.
fn feed(composer: &mut VietnameseComposer, sid: &SessionID, seq: &str) -> ComposerResult {
    let mut last = ComposerResult::Consumed;
    for ch in seq.chars() {
        last = composer.process_key(sid, ch);
    }
    last
}

// --- Construction / method state -------------------------------------

#[test]
fn new_composer_defaults_to_off() {
    let composer = VietnameseComposer::new();
    assert_eq!(composer.active_method(), InputMethod::Off);
}

#[test]
fn set_method_changes_active_method() {
    let mut composer = VietnameseComposer::new();
    composer.set_method(InputMethod::Telex);
    assert_eq!(composer.active_method(), InputMethod::Telex);
    composer.set_method(InputMethod::Vni);
    assert_eq!(composer.active_method(), InputMethod::Vni);
}

// --- Off pass-through -------------------------------------------------

#[test]
fn off_mode_passes_every_key_through() {
    let mut composer = VietnameseComposer::new(); // Off by default
    let sid = session();
    match composer.process_key(&sid, 'a') {
        ComposerResult::PassThrough(ev) => assert_eq!(ev.seq(), "a"),
        other => panic!("expected PassThrough, got {other:?}"),
    }
    // No buffer should be created in Off mode.
    assert!(composer.get_buffer_content(&sid).is_none());
}

// --- Method routing: Telex vs VNI ------------------------------------

#[test]
fn routes_to_telex_engine() {
    let mut composer = VietnameseComposer::with_method(InputMethod::Telex);
    let sid = session();
    // "as " → "á" + space via Telex tone key 's'.
    feed(&mut composer, &sid, "as");
    match composer.process_key(&sid, ' ') {
        ComposerResult::Compose(text) => assert_eq!(text, "á "),
        other => panic!("expected Compose, got {other:?}"),
    }
}

#[test]
fn routes_to_vni_engine() {
    let mut composer = VietnameseComposer::with_method(InputMethod::Vni);
    let sid = session();
    // "a1 " → "á" + space via VNI tone key '1'.
    feed(&mut composer, &sid, "a1");
    match composer.process_key(&sid, ' ') {
        ComposerResult::Compose(text) => assert_eq!(text, "á "),
        other => panic!("expected Compose, got {other:?}"),
    }
}

#[test]
fn routes_to_vni_windows_engine() {
    let mut composer = VietnameseComposer::with_method(InputMethod::VniWindows);
    let sid = session();
    // "a61 " → "ấ" + space via VNI Windows (vowel mark then tone).
    feed(&mut composer, &sid, "a61");
    match composer.process_key(&sid, ' ') {
        ComposerResult::Compose(text) => assert_eq!(text, "ấ "),
        other => panic!("expected Compose, got {other:?}"),
    }
}

// --- Buffering / Consumed --------------------------------------------

#[test]
fn composable_keys_are_consumed_while_building() {
    let mut composer = VietnameseComposer::with_method(InputMethod::Telex);
    let sid = session();
    assert_eq!(composer.process_key(&sid, 'v'), ComposerResult::Consumed);
    assert_eq!(composer.process_key(&sid, 'i'), ComposerResult::Consumed);
    assert_eq!(composer.process_key(&sid, 'e'), ComposerResult::Consumed);
    assert_eq!(composer.get_buffer_content(&sid), Some("vie"));
}

// --- Commit triggers + normalization ---------------------------------

#[test]
fn space_commits_and_appends_trigger() {
    let mut composer = VietnameseComposer::with_method(InputMethod::Telex);
    let sid = session();
    // Classic "được" composition then a committing space.
    feed(&mut composer, &sid, "dduowjc");
    match composer.process_key(&sid, ' ') {
        ComposerResult::Compose(text) => assert_eq!(text, "được "),
        other => panic!("expected Compose, got {other:?}"),
    }
    // Buffer is empty after commit.
    assert!(composer.get_buffer_content(&sid).is_none());
}

#[test]
fn punctuation_commits_composition() {
    let mut composer = VietnameseComposer::with_method(InputMethod::Telex);
    let sid = session();
    feed(&mut composer, &sid, "as");
    match composer.process_key(&sid, '.') {
        ComposerResult::Compose(text) => assert_eq!(text, "á."),
        other => panic!("expected Compose, got {other:?}"),
    }
}

#[test]
fn commit_output_is_nfc_normalized() {
    let mut composer = VietnameseComposer::with_method(InputMethod::Telex);
    let sid = session();
    // "Vieejt" → "Việt"; verify NFC single-codepoint form for the vowel.
    feed(&mut composer, &sid, "Vieejt");
    match composer.process_key(&sid, ' ') {
        ComposerResult::Compose(text) => {
            assert_eq!(text, "Việt ");
            // 'ệ' is a single precomposed scalar in NFC: V i ệ t space = 5.
            assert_eq!(text.chars().count(), 5);
        }
        other => panic!("expected Compose, got {other:?}"),
    }
}

#[test]
fn nfd_normalization_decomposes_output() {
    let mut composer = VietnameseComposer::with_method(InputMethod::Telex);
    composer.set_normalization(NormalizationForm::Nfd);
    let sid = session();
    feed(&mut composer, &sid, "as");
    match composer.process_key(&sid, ' ') {
        ComposerResult::Compose(text) => {
            // NFD: base 'a' + combining acute (U+0301) + space = 3 scalars.
            assert_eq!(text, "a\u{0301} ");
            assert_eq!(text.chars().count(), 3);
        }
        other => panic!("expected Compose, got {other:?}"),
    }
}

// --- Trigger with empty buffer passes through ------------------------

#[test]
fn trigger_with_empty_buffer_passes_through() {
    let mut composer = VietnameseComposer::with_method(InputMethod::Telex);
    let sid = session();
    match composer.process_key(&sid, ' ') {
        ComposerResult::PassThrough(ev) => assert_eq!(ev.seq(), " "),
        other => panic!("expected PassThrough, got {other:?}"),
    }
    // No lingering empty buffer is retained.
    assert!(composer.get_buffer_content(&sid).is_none());
}

// --- Per-session buffer creation & isolation -------------------------

#[test]
fn buffers_are_created_per_session() {
    let mut composer = VietnameseComposer::with_method(InputMethod::Telex);
    let a = "session-a".to_string();
    let b = "session-b".to_string();
    feed(&mut composer, &a, "vi");
    feed(&mut composer, &b, "ng");
    assert_eq!(composer.get_buffer_content(&a), Some("vi"));
    assert_eq!(composer.get_buffer_content(&b), Some("ng"));
}

#[test]
fn sessions_do_not_share_state() {
    let mut composer = VietnameseComposer::with_method(InputMethod::Telex);
    let a = "session-a".to_string();
    let b = "session-b".to_string();
    // Interleave keystrokes across two sessions.
    composer.process_key(&a, 'd');
    composer.process_key(&b, 'm');
    composer.process_key(&a, 'd'); // dd → đ in session A only
    composer.process_key(&b, 'e');
    assert_eq!(composer.get_buffer_content(&a), Some("đ"));
    assert_eq!(composer.get_buffer_content(&b), Some("me"));
}

// --- Session count helper --------------------------------------------

#[test]
fn session_count_tracks_live_buffers() {
    let mut composer = VietnameseComposer::with_method(InputMethod::Telex);
    assert_eq!(composer.session_count(), 0);

    let a = "session-a".to_string();
    let b = "session-b".to_string();
    feed(&mut composer, &a, "vi");
    assert_eq!(composer.session_count(), 1);
    assert!(composer.has_session(&a));
    assert!(!composer.has_session(&b));

    feed(&mut composer, &b, "ng");
    assert_eq!(composer.session_count(), 2);
    assert!(composer.has_session(&b));

    // Closing a session releases its state and decrements the count.
    composer.clear_session(&a);
    assert_eq!(composer.session_count(), 1);
    assert!(!composer.has_session(&a));
    assert!(composer.has_session(&b));
}

#[test]
fn off_mode_creates_no_session_buffers() {
    let mut composer = VietnameseComposer::new(); // Off by default
    let sid = session();
    composer.process_key(&sid, 'a');
    composer.process_key(&sid, 's');
    assert_eq!(composer.session_count(), 0);
    assert!(!composer.has_session(&sid));
}

#[test]
fn ten_concurrent_sessions_compose_independently() {
    let mut composer = VietnameseComposer::with_method(InputMethod::Telex);

    // Ten distinct sessions, each with its own distinct composition.
    let sessions: Vec<SessionID> = (0..10).map(|i| format!("session-{i}")).collect();

    // Drive every session with the classic "dduowjc" → "được" sequence,
    // interleaving one keystroke at a time across all sessions so that a
    // round of input touches all ten buffers before any of them advances.
    // This catches any cross-session state leakage in routing.
    let sequence: Vec<char> = "dduowjc".chars().collect();
    for &key in &sequence {
        for sid in &sessions {
            assert_eq!(composer.process_key(sid, key), ComposerResult::Consumed);
        }
    }

    // All ten sessions are live and hold the same in-flight composition,
    // each in its own buffer.
    assert_eq!(composer.session_count(), 10);
    for sid in &sessions {
        assert_eq!(composer.get_buffer_content(sid), Some("được"));
    }

    // Committing each session emits its own composed text and empties only
    // that session's buffer.
    for (i, sid) in sessions.iter().enumerate() {
        match composer.process_key(sid, ' ') {
            ComposerResult::Compose(text) => assert_eq!(text, "được "),
            other => panic!("session {i}: expected Compose, got {other:?}"),
        }
        assert!(composer.get_buffer_content(sid).is_none());
        // The remaining sessions are untouched by this commit.
        assert_eq!(composer.session_count(), 10 - (i + 1));
    }
}

#[test]
fn interleaved_distinct_sequences_stay_isolated_across_many_sessions() {
    let mut composer = VietnameseComposer::with_method(InputMethod::Telex);

    // Twelve sessions, each typing a *different* Telex sequence, fed one
    // keystroke per session per round. Each expected composed result is the
    // committed Vietnamese text for that session's raw sequence.
    let cases: Vec<(SessionID, &str, &str)> = vec![
        ("s0".into(), "as", "á"),
        ("s1".into(), "af", "à"),
        ("s2".into(), "ar", "ả"),
        ("s3".into(), "ax", "ã"),
        ("s4".into(), "aj", "ạ"),
        ("s5".into(), "dd", "đ"),
        ("s6".into(), "ow", "ơ"),
        ("s7".into(), "uw", "ư"),
        ("s8".into(), "ee", "ê"),
        ("s9".into(), "oo", "ô"),
        ("s10".into(), "aa", "â"),
        ("s11".into(), "aw", "ă"),
    ];

    // Interleave keystrokes: round-robin one character from each session's
    // raw sequence until all are exhausted.
    let max_len = cases.iter().map(|(_, raw, _)| raw.len()).max().unwrap();
    for idx in 0..max_len {
        for (sid, raw, _) in &cases {
            if let Some(ch) = raw.chars().nth(idx) {
                assert_eq!(composer.process_key(sid, ch), ComposerResult::Consumed);
            }
        }
    }

    assert_eq!(composer.session_count(), cases.len());

    // Every session committed independently yields exactly its own result,
    // proving no keystrokes bled between the interleaved buffers.
    for (sid, raw, expected) in &cases {
        match composer.process_key(sid, ' ') {
            ComposerResult::Compose(text) => {
                assert_eq!(text, format!("{expected} "), "session {sid} (raw {raw})")
            }
            other => panic!("session {sid}: expected Compose, got {other:?}"),
        }
    }
}

#[test]
fn composition_state_preserved_across_session_switches() {
    let mut composer = VietnameseComposer::with_method(InputMethod::Telex);
    let a = "session-a".to_string();
    let b = "session-b".to_string();

    // Start composing the prefix of "người" in session A, then switch away
    // mid-composition.
    // "ngu" are plain base characters, so the in-flight buffer is "ngu".
    feed(&mut composer, &a, "ngu");
    assert_eq!(composer.get_buffer_content(&a), Some("ngu"));

    // Switch to session B and complete a whole word there ("được").
    feed(&mut composer, &b, "dduowjc");
    assert_eq!(composer.get_buffer_content(&b), Some("được"));
    match composer.process_key(&b, ' ') {
        ComposerResult::Compose(text) => assert_eq!(text, "được "),
        other => panic!("expected Compose for session B, got {other:?}"),
    }
    assert!(composer.get_buffer_content(&b).is_none());

    // Session A's incomplete composition must be exactly as we left it.
    assert_eq!(composer.get_buffer_content(&a), Some("ngu"));

    // Resume composing in A; the buffer continues from "ngu" → "người"
    // ("owif": o, w applies the horn to the u/o cluster → ươ, i, then the
    // huyền tone f).
    feed(&mut composer, &a, "owif");
    match composer.process_key(&a, ' ') {
        ComposerResult::Compose(text) => assert_eq!(text, "người "),
        other => panic!("expected Compose for session A, got {other:?}"),
    }
}

// --- Session lifecycle ------------------------------------------------

#[test]
fn clear_session_removes_buffer() {
    let mut composer = VietnameseComposer::with_method(InputMethod::Telex);
    let sid = session();
    feed(&mut composer, &sid, "vi");
    assert!(composer.get_buffer_content(&sid).is_some());
    composer.clear_session(&sid);
    assert!(composer.get_buffer_content(&sid).is_none());
}

#[test]
fn flush_session_returns_raw_keystrokes() {
    let mut composer = VietnameseComposer::with_method(InputMethod::Telex);
    let sid = session();
    feed(&mut composer, &sid, "dduowjc");
    // Flushing returns the verbatim keystrokes, not the composed text.
    assert_eq!(composer.flush_session(&sid), Some("dduowjc".to_string()));
    // Buffer is empty afterwards.
    assert!(composer.get_buffer_content(&sid).is_none());
}

#[test]
fn flush_session_on_unknown_session_is_none() {
    let mut composer = VietnameseComposer::with_method(InputMethod::Telex);
    assert_eq!(composer.flush_session(&"nope".to_string()), None);
}

// --- Method preserved across switch ----------------------------------

#[test]
fn buffer_preserved_when_switching_method() {
    let mut composer = VietnameseComposer::with_method(InputMethod::Telex);
    let sid = session();
    feed(&mut composer, &sid, "vi");
    composer.set_method(InputMethod::Vni);
    // Existing composition is preserved across the method switch.
    assert_eq!(composer.get_buffer_content(&sid), Some("vi"));
}

// --- Backspace handling -----------------------------------

#[test]
fn backspace_reverts_tone_then_base_in_lifo_order() {
    let mut composer = VietnameseComposer::with_method(InputMethod::Telex);
    let sid = session();
    // "as" → "á": base 'a' then the sắc tone mark.
    feed(&mut composer, &sid, "as");
    assert_eq!(composer.get_buffer_content(&sid), Some("á"));

    // First backspace removes the most recent step (the tone), reverting
    // to the base vowel.
    assert_eq!(composer.handle_backspace(&sid), ComposerResult::Consumed);
    assert_eq!(composer.get_buffer_content(&sid), Some("a"));

    // Second backspace removes the base character, emptying the buffer.
    assert_eq!(composer.handle_backspace(&sid), ComposerResult::Consumed);
    assert!(composer.get_buffer_content(&sid).is_none());

    // With nothing left to revert, backspace is forwarded to the remote.
    match composer.handle_backspace(&sid) {
        ComposerResult::PassThrough(ev) => assert_eq!(ev.seq(), "\u{0008}"),
        other => panic!("expected PassThrough backspace, got {other:?}"),
    }
}

#[test]
fn backspace_replays_composition_states_in_reverse_for_uowj() {
    let mut composer = VietnameseComposer::with_method(InputMethod::Telex);
    let sid = session();

    // Build "ượ" via Telex (u, o, w → horn vowel mark, j → nặng tone),
    // snapshotting the buffer after each keystroke. These are the exact
    // intermediate composition states (the "ượ" → "ươ" → "uo" → "u"
    // reversal chain from the backspace example).
    let mut forward = Vec::new();
    for ch in "uowj".chars() {
        assert_eq!(composer.process_key(&sid, ch), ComposerResult::Consumed);
        forward.push(
            composer
                .get_buffer_content(&sid)
                .expect("composition in flight")
                .to_string(),
        );
    }
    // Sanity: the last snapshot is the fully composed cluster currently in
    // the buffer.
    assert_eq!(
        forward.last().map(String::as_str),
        composer.get_buffer_content(&sid)
    );

    // Backspace until the buffer empties, recording the state after each
    // reversal. Every backspace that undoes a step is Consumed.
    let mut reversed = Vec::new();
    while composer.get_buffer_content(&sid).is_some() {
        assert_eq!(composer.handle_backspace(&sid), ComposerResult::Consumed);
        if let Some(state) = composer.get_buffer_content(&sid) {
            reversed.push(state.to_string());
        }
    }

    // The states visited on the way back are the forward states in reverse,
    // excluding the fully composed state we started reversing from.
    let expected: Vec<String> = forward.iter().rev().skip(1).cloned().collect();
    assert_eq!(reversed, expected);

    // Buffer is empty and discarded; a further backspace passes through.
    assert!(composer.get_buffer_content(&sid).is_none());
    match composer.handle_backspace(&sid) {
        ComposerResult::PassThrough(ev) => assert_eq!(ev.seq(), "\u{0008}"),
        other => panic!("expected PassThrough backspace, got {other:?}"),
    }
}

#[test]
fn backspace_with_no_buffer_passes_through() {
    let mut composer = VietnameseComposer::with_method(InputMethod::Telex);
    let sid = session();
    // No keystrokes typed yet → no buffer exists for the session.
    match composer.handle_backspace(&sid) {
        ComposerResult::PassThrough(ev) => assert_eq!(ev.seq(), "\u{0008}"),
        other => panic!("expected PassThrough backspace, got {other:?}"),
    }
    // No empty buffer is created as a side effect.
    assert!(composer.get_buffer_content(&sid).is_none());
}

#[test]
fn backspace_on_empty_buffer_passes_through() {
    let mut composer = VietnameseComposer::with_method(InputMethod::Telex);
    let sid = session();
    // Compose then fully revert so the buffer existed but is now empty.
    feed(&mut composer, &sid, "a");
    assert_eq!(composer.handle_backspace(&sid), ComposerResult::Consumed);
    assert!(composer.get_buffer_content(&sid).is_none());

    // A backspace against the (now empty / removed) buffer passes through.
    match composer.handle_backspace(&sid) {
        ComposerResult::PassThrough(ev) => assert_eq!(ev.seq(), "\u{0008}"),
        other => panic!("expected PassThrough backspace, got {other:?}"),
    }
}

#[test]
fn backspace_is_isolated_per_session() {
    let mut composer = VietnameseComposer::with_method(InputMethod::Telex);
    let a = "session-a".to_string();
    let b = "session-b".to_string();
    feed(&mut composer, &a, "as"); // "á" in session A
    feed(&mut composer, &b, "vi"); // "vi" in session B

    // Backspacing in A must not touch B's composition.
    assert_eq!(composer.handle_backspace(&a), ComposerResult::Consumed);
    assert_eq!(composer.get_buffer_content(&a), Some("a"));
    assert_eq!(composer.get_buffer_content(&b), Some("vi"));
}

// --- Method cycling --------------------------------------

#[test]
fn cycle_method_follows_fixed_order_and_wraps() {
    let mut composer = VietnameseComposer::with_method(InputMethod::Telex);
    // Telex → VNI → VNI Windows → Off → Telex (wrap).
    assert_eq!(composer.cycle_method(), InputMethod::Vni);
    assert_eq!(composer.active_method(), InputMethod::Vni);
    assert_eq!(composer.cycle_method(), InputMethod::VniWindows);
    assert_eq!(composer.cycle_method(), InputMethod::Off);
    assert_eq!(composer.cycle_method(), InputMethod::Telex);
    // A full cycle of four presses returns to the start.
    assert_eq!(composer.active_method(), InputMethod::Telex);
}

#[test]
fn cycle_method_wraps_from_any_start() {
    // Starting from Off, the next method is Telex.
    let mut composer = VietnameseComposer::new(); // Off by default
    assert_eq!(composer.cycle_method(), InputMethod::Telex);

    // Four cycles from any starting method return to that method.
    for start in [
        InputMethod::Telex,
        InputMethod::Vni,
        InputMethod::VniWindows,
        InputMethod::Off,
    ] {
        let mut c = VietnameseComposer::with_method(start);
        for _ in 0..4 {
            c.cycle_method();
        }
        assert_eq!(c.active_method(), start, "4 cycles from {start:?}");
    }
}

#[test]
fn cycle_method_preserves_buffers() {
    let mut composer = VietnameseComposer::with_method(InputMethod::Telex);
    let sid = session();
    feed(&mut composer, &sid, "vi");
    assert_eq!(composer.get_buffer_content(&sid), Some("vi"));
    // Cycling the method does not disturb the in-flight composition.
    composer.cycle_method();
    assert_eq!(composer.get_buffer_content(&sid), Some("vi"));
}

// --- Method toggling -------------------------------------

#[test]
fn toggle_method_off_then_on_restores_method() {
    let mut composer = VietnameseComposer::with_method(InputMethod::Vni);
    // Toggling off remembers VNI and switches to Off.
    assert_eq!(composer.toggle_method(), InputMethod::Off);
    assert_eq!(composer.active_method(), InputMethod::Off);
    // Toggling back on restores the remembered VNI method.
    assert_eq!(composer.toggle_method(), InputMethod::Vni);
    assert_eq!(composer.active_method(), InputMethod::Vni);
}

#[test]
fn toggle_method_defaults_to_telex_when_never_composed() {
    // A fresh composer is Off and has never used a composing method.
    let mut composer = VietnameseComposer::new();
    assert_eq!(composer.active_method(), InputMethod::Off);
    // Turning on defaults to Telex.
    assert_eq!(composer.toggle_method(), InputMethod::Telex);
    assert_eq!(composer.active_method(), InputMethod::Telex);
}

#[test]
fn toggle_method_remembers_method_set_via_cycle() {
    let mut composer = VietnameseComposer::with_method(InputMethod::Telex);
    // Cycle to VNI Windows, then toggle off and back on.
    composer.cycle_method(); // Vni
    composer.cycle_method(); // VniWindows
    assert_eq!(composer.active_method(), InputMethod::VniWindows);
    assert_eq!(composer.toggle_method(), InputMethod::Off);
    assert_eq!(composer.toggle_method(), InputMethod::VniWindows);
}

#[test]
fn toggle_method_preserves_buffers() {
    let mut composer = VietnameseComposer::with_method(InputMethod::Telex);
    let sid = session();
    feed(&mut composer, &sid, "vi");
    // Toggling off and on must not lose the in-flight composition.
    composer.toggle_method();
    assert_eq!(composer.get_buffer_content(&sid), Some("vi"));
    composer.toggle_method();
    assert_eq!(composer.get_buffer_content(&sid), Some("vi"));
}

// --- Timeout / app-switch flushing -----------------------

#[test]
fn flush_if_timed_out_returns_none_for_unknown_session() {
    let mut composer = VietnameseComposer::with_method(InputMethod::Telex);
    let sid = session();
    assert_eq!(composer.flush_if_timed_out(&sid, Duration::ZERO.as_nanos()), None);
}

#[test]
fn flush_if_timed_out_flushes_stale_sequence_as_raw() {
    let mut composer = VietnameseComposer::with_method(InputMethod::Vni);
    let sid = session();
    // Incomplete VNI sequence ("u" + horn key "7" → "ư"); raw input is "u7".
    feed(&mut composer, &sid, "u7");
    assert_eq!(composer.get_buffer_content(&sid), Some("ư"));
    // A zero timeout means any non-empty, touched buffer is already stale,
    // so the raw keystrokes are flushed verbatim.
    let flushed = composer.flush_if_timed_out(&sid, Duration::ZERO.as_nanos());
    assert_eq!(flushed.as_deref(), Some("u7"));
    // The buffer is dropped after the flush.
    assert!(composer.get_buffer_content(&sid).is_none());
    assert!(!composer.has_session(&sid));
}

#[test]
fn flush_if_timed_out_keeps_fresh_sequence() {
    let mut composer = VietnameseComposer::with_method(InputMethod::Telex);
    let sid = session();
    feed(&mut composer, &sid, "vi");
    // A large timeout: the just-typed sequence has not gone stale.
    assert_eq!(
        composer.flush_if_timed_out(&sid, Duration::from_secs(3600).as_nanos()),
        None
    );
    // Composition is preserved untouched.
    assert_eq!(composer.get_buffer_content(&sid), Some("vi"));
}

#[test]
fn flush_timed_out_sessions_flushes_only_stale_buffers() {
    let mut composer = VietnameseComposer::with_method(InputMethod::Telex);
    let a = "session-a".to_string();
    let b = "session-b".to_string();
    feed(&mut composer, &a, "vi");
    feed(&mut composer, &b, "ng");
    // Zero timeout flushes every non-empty session.
    let mut flushed = composer.flush_timed_out_sessions(Duration::ZERO.as_nanos());
    flushed.sort();
    assert_eq!(
        flushed,
        vec![
            ("session-a".to_string(), "vi".to_string()),
            ("session-b".to_string(), "ng".to_string()),
        ]
    );
    assert_eq!(composer.session_count(), 0);
}

#[test]
fn flush_all_sessions_flushes_everything_as_raw() {
    let mut composer = VietnameseComposer::with_method(InputMethod::Telex);
    let a = "session-a".to_string();
    let b = "session-b".to_string();
    // "dd" → "đ" but raw input is "dd"; flushing on app switch emits raw.
    feed(&mut composer, &a, "dd");
    feed(&mut composer, &b, "uw");
    let mut flushed = composer.flush_all_sessions();
    flushed.sort();
    assert_eq!(
        flushed,
        vec![
            ("session-a".to_string(), "dd".to_string()),
            ("session-b".to_string(), "uw".to_string()),
        ]
    );
    // All buffers are released after an app-switch flush.
    assert_eq!(composer.session_count(), 0);
}

#[test]
fn flush_all_sessions_is_empty_when_no_buffers() {
    let mut composer = VietnameseComposer::with_method(InputMethod::Telex);
    assert!(composer.flush_all_sessions().is_empty());
}

// --- Graceful degradation: processing-time guard ----------

#[test]
fn processing_guard_resets_counter_within_budget() {
    let mut composer = VietnameseComposer::with_method(InputMethod::Telex);
    let sid = session();
    // A keystroke comfortably within the 10ms budget leaves the counter at 0.
    composer.guard_processing_time(&sid, 'a', Duration::from_millis(1).as_nanos());
    assert_eq!(composer.consecutive_slow_keystrokes(), 0);
}

#[test]
fn processing_guard_counts_consecutive_slow_keystrokes() {
    let mut composer = VietnameseComposer::with_method(InputMethod::Telex);
    let sid = session();
    let slow = PROCESSING_BUDGET + Duration::from_millis(5).as_nanos();

    composer.guard_processing_time(&sid, 'a', slow);
    assert_eq!(composer.consecutive_slow_keystrokes(), 1);
    composer.guard_processing_time(&sid, 'b', slow);
    assert_eq!(composer.consecutive_slow_keystrokes(), 2);
    // Third consecutive slow keystroke reaches the degradation threshold.
    composer.guard_processing_time(&sid, 'c', slow);
    assert_eq!(composer.consecutive_slow_keystrokes(), SLOW_KEYSTROKE_THRESHOLD);

    // A keystroke back within budget breaks the run and resets the counter.
    composer.guard_processing_time(&sid, 'd', Duration::ZERO.as_nanos());
    assert_eq!(composer.consecutive_slow_keystrokes(), 0);
}

#[test]
fn processing_guard_exactly_at_budget_is_not_slow() {
    let mut composer = VietnameseComposer::with_method(InputMethod::Telex);
    let sid = session();
    // Exactly at the budget is within tolerance (guard uses strictly-greater).
    composer.guard_processing_time(&sid, 'a', PROCESSING_BUDGET);
    assert_eq!(composer.consecutive_slow_keystrokes(), 0);
}

// --- Graceful degradation: memory monitoring --------------

#[test]
fn fresh_composer_is_within_memory_budget() {
    let composer = VietnameseComposer::with_method(InputMethod::Telex);
    assert!(!composer.is_over_memory_limit());
    assert!(composer.estimated_memory_bytes() <= MEMORY_LIMIT_BYTES);
}

#[test]
fn estimated_memory_grows_with_composition() {
    let mut composer = VietnameseComposer::with_method(InputMethod::Telex);
    let baseline = composer.estimated_memory_bytes();
    let sid = session();
    // An in-flight composition adds buffer + history bytes on top of the
    // fixed composer footprint.
    feed(&mut composer, &sid, "dduowjc");
    assert!(
        composer.estimated_memory_bytes() > baseline,
        "memory estimate should grow once a session buffer exists"
    );
}

#[test]
fn estimated_memory_returns_to_baseline_after_clear() {
    let mut composer = VietnameseComposer::with_method(InputMethod::Telex);
    let baseline = composer.estimated_memory_bytes();
    let sid = session();
    feed(&mut composer, &sid, "vi");
    assert!(composer.estimated_memory_bytes() > baseline);
    composer.clear_session(&sid);
    // With the only buffer gone, usage returns to the fixed footprint.
    assert_eq!(composer.estimated_memory_bytes(), baseline);
}

#[test]
fn enforce_memory_limit_is_noop_within_budget() {
    let mut composer = VietnameseComposer::with_method(InputMethod::Telex);
    let sid = session();
    feed(&mut composer, &sid, "vi");
    // Normal usage is far below 10MB, so nothing is flushed.
    assert!(composer.enforce_memory_limit().is_empty());
    assert_eq!(composer.get_buffer_content(&sid), Some("vi"));
}

#[test]
fn enforce_memory_limit_flushes_completed_compositions_when_over_budget() {
    let mut composer = VietnameseComposer::with_method(InputMethod::Telex);
    let sid = session();
    // Build a real in-flight composition (raw "as" → "á").
    feed(&mut composer, &sid, "as");

    // Report usage past the 10MB budget to simulate memory pressure
    // without depending on the allocator's growth heuristics.
    let used = composer.estimated_memory_bytes() + MEMORY_LIMIT_BYTES + 1024;
    assert!(exceeds_memory_limit(used));

    // Enforcing the limit flushes the session's raw keystrokes for delivery
    // to the remote and releases its buffer.
    let flushed = composer.enforce_memory_limit_with(used);
    assert_eq!(flushed, vec![(sid.clone(), "as".to_string())]);
    assert_eq!(composer.session_count(), 0);
    assert!(!composer.is_over_memory_limit());
}

#[test]
fn is_over_memory_limit_false_for_many_normal_sessions() {
    let mut composer = VietnameseComposer::with_method(InputMethod::Telex);
    // Ten concurrent sessions each composing a word stays well under 10MB.
    for i in 0..10 {
        let sid = format!("session-{i}");
        feed(&mut composer, &sid, "dduowjc");
    }
    assert_eq!(composer.session_count(), 10);
    assert!(!composer.is_over_memory_limit());
}

#[test]
fn dump_buffer_state_reports_no_buffers_when_idle() {
    let composer = VietnameseComposer::with_method(InputMethod::Telex);
    let dump = composer.dump_buffer_state();
    assert!(
        dump.contains("active_method=Telex"),
        "dump should report the active method, got: {dump}"
    );
    assert!(
        dump.contains("active_sessions=0"),
        "dump should report zero sessions, got: {dump}"
    );
    assert!(
        dump.contains("(no active composition buffers)"),
        "dump should note the absence of buffers, got: {dump}"
    );
}

#[test]
fn dump_buffer_state_reports_in_flight_composition() {
    let mut composer = VietnameseComposer::with_method(InputMethod::Telex);
    let sid = session();
    // "as" composes to "á" but is not committed, so it remains in flight.
    feed(&mut composer, &sid, "as");

    let dump = composer.dump_buffer_state();
    assert!(
        dump.contains("active_sessions=1"),
        "dump should report one session, got: {dump}"
    );
    assert!(
        dump.contains("session=session-1"),
        "dump should name the session, got: {dump}"
    );
    // The composed current text and the raw keystrokes that produced it.
    assert!(
        dump.contains("current=\"á\""),
        "dump should show the composed text, got: {dump}"
    );
    assert!(
        dump.contains("raw_input=\"as\""),
        "dump should show the raw keystrokes, got: {dump}"
    );
}

#[test]
fn dump_buffer_state_lists_all_sessions_deterministically() {
    let mut composer = VietnameseComposer::with_method(InputMethod::Telex);
    // Create buffers out of sorted order to prove the dump sorts them.
    feed(&mut composer, &"session-b".to_string(), "as");
    feed(&mut composer, &"session-a".to_string(), "af");

    let dump = composer.dump_buffer_state();
    assert!(dump.contains("active_sessions=2"), "got: {dump}");
    let idx_a = dump.find("session=session-a").expect("session-a present");
    let idx_b = dump.find("session=session-b").expect("session-b present");
    assert!(
        idx_a < idx_b,
        "sessions should be listed in sorted id order, got: {dump}"
    );
}
