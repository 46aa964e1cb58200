use vietnamese_input::config::{
    chord_to_string, keys, method_to_str, parse_bool, parse_chord, MemoryOptionStore, OptionStore,
    VietnameseInputConfig, DEFAULT_TIMEOUT_MS,
};
use vietnamese_input::integration::{self, Chord, InputState};
use vietnamese_input::{InputMethod, NormalizationForm};

#[test]
fn default_config_has_expected_values() {
    let config = VietnameseInputConfig::default();
    assert!(!config.enabled);
    assert_eq!(config.default_method, InputMethod::Telex);
    assert_eq!(config.normalization, NormalizationForm::Nfc);
    assert_eq!(config.toggle_shortcut, Chord::ctrl_shift('v'));
    assert_eq!(config.cycle_shortcut, Chord::ctrl_shift('i'));
    assert!(config.show_overlay);
    assert_eq!(config.custom_rules_dir, None);
    assert_eq!(config.timeout_ms, DEFAULT_TIMEOUT_MS);
}

#[test]
fn load_from_empty_store_yields_defaults() {
    let mut store = MemoryOptionStore::new();
    let config = VietnameseInputConfig::load_from(&store);
    assert_eq!(config, VietnameseInputConfig::default());
}

#[test]
fn save_then_load_round_trips_default() {
    let mut store = MemoryOptionStore::new();
    let original = VietnameseInputConfig::default();
    original.save_to(&mut store);
    let loaded = VietnameseInputConfig::load_from(&store);
    assert_eq!(loaded, original);
}

#[test]
fn save_then_load_round_trips_non_default() {
    let mut store = MemoryOptionStore::new();
    let original = VietnameseInputConfig {
        enabled: true,
        default_method: InputMethod::VniWindows,
        normalization: NormalizationForm::Nfd,
        toggle_shortcut: Chord::new(true, false, true, false, 'k'),
        cycle_shortcut: Chord::new(true, true, false, true, 'm'),
        show_overlay: false,
        custom_rules_dir: Some("/tmp/vn-rules".to_string()),
        timeout_ms: 750,
    };
    original.save_to(&mut store);
    let loaded = VietnameseInputConfig::load_from(&store);
    assert_eq!(loaded, original);
}

#[test]
fn load_reads_each_persisted_field() {
    let mut store = MemoryOptionStore::new();
    store.set(keys::ENABLED, "Y");
    store.set(keys::METHOD, "vni");
    store.set(keys::NORMALIZATION, "nfd");
    store.set(keys::TOGGLE_SHORTCUT, "ctrl+shift+x");
    store.set(keys::CYCLE_SHORTCUT, "alt+y");
    store.set(keys::SHOW_OVERLAY, "N");
    store.set(keys::CUSTOM_RULES_DIR, "/opt/rules");
    store.set(keys::TIMEOUT_MS, "1200");

    let config = VietnameseInputConfig::load_from(&store);
    assert!(config.enabled);
    assert_eq!(config.default_method, InputMethod::Vni);
    assert_eq!(config.normalization, NormalizationForm::Nfd);
    assert_eq!(config.toggle_shortcut, Chord::ctrl_shift('x'));
    assert_eq!(config.cycle_shortcut, Chord::new(false, false, true, false, 'y'));
    assert!(!config.show_overlay);
    assert_eq!(config.custom_rules_dir, Some("/opt/rules".to_string()));
    assert_eq!(config.timeout_ms, 1200);
}

#[test]
fn unparseable_fields_fall_back_to_defaults() {
    let mut store = MemoryOptionStore::new();
    store.set(keys::METHOD, "not-a-method");
    store.set(keys::NORMALIZATION, "nfx");
    store.set(keys::TIMEOUT_MS, "abc");
    store.set(keys::TOGGLE_SHORTCUT, "ctrl+shift"); // no trigger key

    let config = VietnameseInputConfig::load_from(&store);
    let defaults = VietnameseInputConfig::default();
    assert_eq!(config.default_method, defaults.default_method);
    assert_eq!(config.normalization, defaults.normalization);
    assert_eq!(config.timeout_ms, defaults.timeout_ms);
    assert_eq!(config.toggle_shortcut, defaults.toggle_shortcut);
}

#[test]
fn method_string_round_trips_all_variants() {
    for method in [
        InputMethod::Telex,
        InputMethod::Vni,
        InputMethod::VniWindows,
        InputMethod::Off,
    ] {
        let s = method_to_str(method);
        assert_eq!(integration::parse_method(s), Some(method));
    }
}

#[test]
fn chord_string_round_trips() {
    let chords = [
        Chord::ctrl_shift('v'),
        Chord::ctrl_shift('i'),
        Chord::new(true, false, false, false, 'a'),
        Chord::new(false, true, true, false, 'z'),
        Chord::new(true, true, true, true, 'q'),
        Chord::new(false, false, false, true, 'm'),
    ];
    for chord in chords {
        let s = chord_to_string(&chord);
        assert_eq!(parse_chord(&s), Some(chord), "round-trip failed for {s}");
    }
}

#[test]
fn parse_chord_is_case_insensitive_and_trimmed() {
    assert_eq!(parse_chord("  Ctrl + Shift + V "), Some(Chord::ctrl_shift('v')));
    assert_eq!(parse_chord("CONTROL+SHIFT+I"), Some(Chord::ctrl_shift('i')));
}

#[test]
fn parse_chord_rejects_missing_key() {
    assert_eq!(parse_chord("ctrl+shift"), None);
    assert_eq!(parse_chord(""), None);
    assert_eq!(parse_chord("   "), None);
}

#[test]
fn parse_bool_accepts_common_spellings() {
    assert!(parse_bool("Y", false));
    assert!(parse_bool("true", false));
    assert!(parse_bool("1", false));
    assert!(!parse_bool("N", true));
    assert!(!parse_bool("false", true));
    // Unset / unrecognized falls back to the provided default.
    assert!(parse_bool("", true));
    assert!(!parse_bool("", false));
    assert!(parse_bool("garbage", true));
}

#[test]
fn load_and_apply_restores_persisted_selection() {
    let mut store = MemoryOptionStore::new();
    let saved = VietnameseInputConfig {
        enabled: true,
        default_method: InputMethod::Vni,
        normalization: NormalizationForm::Nfd,
        toggle_shortcut: Chord::ctrl_shift('j'),
        ..VietnameseInputConfig::default()
    };
    saved.save_to(&mut store);
    let mut state = InputState::new();
    let loaded = VietnameseInputConfig::load_and_apply(&store, &mut state);
    assert_eq!(loaded, saved);
    assert!(integration::is_vietnamese_input_enabled(&state));
    assert_eq!(state.composer.active_method(), InputMethod::Vni);
    assert_eq!(integration::toggle_shortcut(&state), Chord::ctrl_shift('j'));
    assert_eq!(integration::cycle_shortcut(&state), Chord::ctrl_shift('i'));
}

#[test]
fn apply_disabled_config_turns_gate_off() {
    let mut state = InputState::new();
    integration::set_enabled(&mut state, true);
    let config = VietnameseInputConfig { enabled: false, default_method: InputMethod::Telex, ..VietnameseInputConfig::default() };
    config.apply(&mut state);
    assert!(!integration::is_vietnamese_input_enabled(&state));
    assert_eq!(state.composer.active_method(), InputMethod::Telex);
}

#[test]
fn timeout_field_round_trips_large_values() {
    let mut store = MemoryOptionStore::new();
    let config = VietnameseInputConfig { timeout_ms: u64::MAX, ..VietnameseInputConfig::default() };
    config.save_to(&mut store);
    assert_eq!(store.get(keys::TIMEOUT_MS), u64::MAX.to_string());
    assert_eq!(VietnameseInputConfig::load_from(&store).timeout_ms, u64::MAX);
}

#[test]
fn option_entries_list_every_key_in_order() {
    let config = VietnameseInputConfig { custom_rules_dir: Some("/r".to_string()), ..VietnameseInputConfig::default() };
    let entries = config.option_entries();
    let expected: Vec<(String, String)> = vec![
        (keys::ENABLED, ""),
        (keys::METHOD, "telex"),
        (keys::NORMALIZATION, "nfc"),
        (keys::TOGGLE_SHORTCUT, "ctrl+shift+v"),
        (keys::CYCLE_SHORTCUT, "ctrl+shift+i"),
        (keys::SHOW_OVERLAY, "Y"),
        (keys::CUSTOM_RULES_DIR, "/r"),
        (keys::TIMEOUT_MS, "500"),
    ]
    .into_iter()
    .map(|(k, v)| (k.to_string(), v.to_string()))
    .collect();
    assert_eq!(entries, expected);
}

#[test]
fn from_entries_takes_the_last_value_of_each_key_and_trims() {
    let entries: Vec<(String, String)> = vec![
        (keys::TIMEOUT_MS.to_string(), "7".to_string()),
        (keys::TIMEOUT_MS.to_string(), " 42 ".to_string()),
        (keys::CUSTOM_RULES_DIR.to_string(), "  /x  ".to_string()),
        (keys::SHOW_OVERLAY.to_string(), "no".to_string()),
    ];
    let config = VietnameseInputConfig::from_entries(&entries);
    assert_eq!(config.timeout_ms, 42);
    assert_eq!(config.custom_rules_dir, Some("/x".to_string()));
    assert!(!config.show_overlay);
    assert_eq!(config.default_method, InputMethod::Telex);
}

#[test]
fn save_writes_each_key_and_leaves_other_keys_alone() {
    let mut store = MemoryOptionStore::new();
    store.set("unrelated", "keep");
    store.set(keys::METHOD, "vni");
    let config = VietnameseInputConfig { enabled: true, ..VietnameseInputConfig::default() };
    config.save_to(&mut store);
    assert_eq!(store.get("unrelated"), "keep");
    assert_eq!(store.get(keys::ENABLED), "Y");
    assert_eq!(store.get(keys::METHOD), "telex");
    assert_eq!(store.get(keys::CUSTOM_RULES_DIR), "");
    assert_eq!(store.get(keys::TIMEOUT_MS), "500");
}

#[test]
fn memory_store_reads_back_the_last_value_set() {
    let mut store = MemoryOptionStore::new();
    assert_eq!(store.get("k"), "");
    store.set("k", "a");
    store.set("k", "b");
    assert_eq!(store.get("k"), "b");
    store.set("k", "");
    assert_eq!(store.get("k"), "");
}

