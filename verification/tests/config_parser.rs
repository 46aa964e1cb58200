use serde_json::Value;

type Fields = serde_json::Map<String, Value>;

use vietnamese_input::config_parser::{
    line_from_byte_offset, ConfigFormat, ConfigMetadata, ConfigParser, DecodeError, InputMethodConfig, ParseError,
    RuleContext, TransformationRule, ValidationError, MAX_CONFIG_FILE_SIZE,
};

// ---- Format decoders handed to `ConfigParser::parse` ------------------
//
// Each format's text is read into a generic document tree (serde_json's or
// toml's own value type) and the configuration schema is then read off the
// tree; a schema violation is reported the way serde reports it ("missing
// field `x`", "invalid type: ...").

fn text_field(obj: &Fields, key: &str) -> Result<Option<String>, String> {
    match obj.get(key) {
        None => Ok(None),
        Some(Value::String(s)) => Ok(Some(s.clone())),
        Some(other) => Err(format!("invalid type: {}, expected a string", other)),
    }
}

fn required_text(obj: &Fields, key: &str) -> Result<String, String> {
    text_field(obj, key)?.ok_or_else(|| format!("missing field `{}`", key))
}

fn single_char(v: &Value) -> Result<char, String> {
    match v {
        Value::String(s) => {
            let mut it = s.chars();
            match (it.next(), it.next()) {
                (Some(c), None) => Ok(c),
                _ => Err(format!("invalid value: string {:?}, expected a character", s)),
            }
        }
        other => Err(format!("invalid type: {}, expected a character", other)),
    }
}

fn char_list(obj: &Fields, key: &str) -> Result<Option<Vec<char>>, String> {
    match obj.get(key) {
        None => Ok(None),
        Some(Value::Array(items)) => items.iter().map(single_char).collect::<Result<Vec<char>, String>>().map(Some),
        Some(other) => Err(format!("invalid type: {}, expected a sequence", other)),
    }
}

fn object(v: &Value) -> Result<&Fields, String> {
    match v {
        Value::Object(m) => Ok(m),
        other => Err(format!("invalid type: {}, expected a map", other)),
    }
}

fn rule_from(v: &Value) -> Result<TransformationRule, String> {
    let obj = object(v)?;
    let input_sequence = required_text(obj, "input_sequence")?;
    let output_char = match obj.get("output_char") {
        None => return Err("missing field `output_char`".to_string()),
        Some(c) => single_char(c)?,
    };
    let context = match obj.get("context") {
        None => None,
        Some(c) => {
            let c = object(c)?;
            Some(RuleContext { preceding: char_list(c, "preceding")?, not_preceding: char_list(c, "not_preceding")? })
        }
    };
    Ok(TransformationRule { input_sequence, output_char, context })
}

fn config_from(v: &Value) -> Result<InputMethodConfig, String> {
    let obj = object(v)?;
    let id = required_text(obj, "id")?;
    let name = required_text(obj, "name")?;
    let rules = match obj.get("rules") {
        None => return Err("missing field `rules`".to_string()),
        Some(Value::Array(items)) => items.iter().map(rule_from).collect::<Result<Vec<_>, String>>()?,
        Some(other) => return Err(format!("invalid type: {}, expected a sequence", other)),
    };
    let metadata = match obj.get("metadata") {
        None => None,
        Some(m) => {
            let m = object(m)?;
            Some(ConfigMetadata {
                version: required_text(m, "version")?,
                author: text_field(m, "author")?,
                description: text_field(m, "description")?,
            })
        }
    };
    Ok(InputMethodConfig { id, name, rules, metadata })
}

fn toml_to_tree(v: toml::Value) -> Value {
    match v {
        toml::Value::String(s) => Value::String(s),
        toml::Value::Integer(i) => Value::from(i),
        toml::Value::Float(f) => Value::from(f),
        toml::Value::Boolean(b) => Value::Bool(b),
        toml::Value::Datetime(d) => Value::String(d.to_string()),
        toml::Value::Array(items) => Value::Array(items.into_iter().map(toml_to_tree).collect()),
        toml::Value::Table(t) => Value::Object(t.into_iter().map(|(k, v)| (k, toml_to_tree(v))).collect()),
    }
}

fn decode(input: &str, format: ConfigFormat) -> Result<InputMethodConfig, DecodeError> {
    match format {
        ConfigFormat::Json => {
            let tree: Value = serde_json::from_str(input).map_err(|e| DecodeError::Json {
                message: e.to_string(),
                data: e.is_data(),
                line: e.line(),
            })?;
            config_from(&tree).map_err(|message| DecodeError::Json {
                message,
                data: true,
                line: input.matches('\n').count() + 1,
            })
        }
        ConfigFormat::Toml => {
            let table: toml::Table = toml::from_str(input).map_err(|e| DecodeError::Toml {
                message: e.message().to_string(),
                offset: e.span().map(|s| s.start),
            })?;
            config_from(&toml_to_tree(toml::Value::Table(table)))
                .map_err(|message| DecodeError::Toml { message, offset: None })
        }
    }
}

const VALID_JSON: &str = r#"
{
    "id": "custom-telex",
    "name": "Custom Telex",
    "rules": [
        { "input_sequence": "aa", "output_char": "â" },
        { "input_sequence": "aw", "output_char": "ă",
          "context": { "preceding": ["a"] } }
    ],
    "metadata": { "version": "1.0", "author": "user" }
}
"#;

const VALID_TOML: &str = r#"
    id = "custom-vni"
    name = "Custom VNI"

    [[rules]]
    input_sequence = "o6"
    output_char = "ô"

    [[rules]]
    input_sequence = "o7"
    output_char = "ơ"

    [metadata]
    version = "2.0"
    description = "A custom VNI variant"
"#;

#[test]
fn parses_valid_json_config() {
    let config = ConfigParser::parse(VALID_JSON, ConfigFormat::Json, decode)
        .expect("valid JSON should parse");
    assert_eq!(config.id, "custom-telex");
    assert_eq!(config.name, "Custom Telex");
    assert_eq!(config.rules.len(), 2);
    assert_eq!(config.rules[0].input_sequence, "aa");
    assert_eq!(config.rules[0].output_char, 'â');
    // Second rule carries a preceding context constraint.
    let ctx = config.rules[1]
        .context
        .as_ref()
        .expect("second rule should have context");
    assert_eq!(ctx.preceding.as_ref().unwrap(), &vec!['a']);
    let meta = config.metadata.expect("metadata present");
    assert_eq!(meta.version, "1.0");
    assert_eq!(meta.author.as_deref(), Some("user"));
}

#[test]
fn parses_valid_toml_config() {
    let config = ConfigParser::parse(VALID_TOML, ConfigFormat::Toml, decode)
        .expect("valid TOML should parse");
    assert_eq!(config.id, "custom-vni");
    assert_eq!(config.name, "Custom VNI");
    assert_eq!(config.rules.len(), 2);
    assert_eq!(config.rules[1].input_sequence, "o7");
    assert_eq!(config.rules[1].output_char, 'ơ');
    let meta = config.metadata.expect("metadata present");
    assert_eq!(meta.version, "2.0");
    assert_eq!(meta.description.as_deref(), Some("A custom VNI variant"));
}

#[test]
fn missing_required_field_json_reports_field() {
    // `name` is omitted.
    let json = r#"{ "id": "x", "rules": [] }"#;
    let err = ConfigParser::parse(json, ConfigFormat::Json, decode).unwrap_err();
    match err {
        ParseError::MissingField { field } => assert_eq!(field, "name"),
        other => panic!("expected MissingField, got {:?}", other),
    }
}

#[test]
fn missing_required_field_toml_reports_field() {
    // `rules` is omitted.
    let toml_str = "id = \"x\"\nname = \"X\"\n";
    let err = ConfigParser::parse(toml_str, ConfigFormat::Toml, decode).unwrap_err();
    match err {
        ParseError::MissingField { field } => assert_eq!(field, "rules"),
        other => panic!("expected MissingField, got {:?}", other),
    }
}

#[test]
fn syntax_error_reports_line_number() {
    // Malformed JSON: trailing comma / unterminated object across lines.
    let json = "{\n  \"id\": \"x\",\n  \"name\": \"X\"\n  \"rules\": []\n}";
    let err = ConfigParser::parse(json, ConfigFormat::Json, decode).unwrap_err();
    match err {
        ParseError::SyntaxError { line, .. } => {
            assert!(line >= 1, "line number should be reported, got {}", line)
        }
        other => panic!("expected SyntaxError, got {:?}", other),
    }
}

#[test]
fn rejects_file_exceeding_max_size() {
    // Build an input just over the 10 MB limit cheaply.
    let big = "a".repeat(MAX_CONFIG_FILE_SIZE + 1);
    let err = ConfigParser::parse(&big, ConfigFormat::Json, decode).unwrap_err();
    match err {
        ParseError::FileTooLarge { size, max } => {
            assert_eq!(size, MAX_CONFIG_FILE_SIZE + 1);
            assert_eq!(max, MAX_CONFIG_FILE_SIZE);
        }
        other => panic!("expected FileTooLarge, got {:?}", other),
    }
}

#[test]
fn line_from_byte_offset_counts_newlines() {
    let text = "a\nb\nc";
    assert_eq!(line_from_byte_offset(text, 0), 1);
    assert_eq!(line_from_byte_offset(text, 2), 2);
    assert_eq!(line_from_byte_offset(text, 4), 3);
    // Offset beyond end clamps to last line.
    assert_eq!(line_from_byte_offset(text, 999), 3);
}

// ---- Rule validation: helpers ----------------------------------------

/// Build a rule with no context.
fn rule(input: &str, output: char) -> TransformationRule {
    TransformationRule {
        input_sequence: input.to_string(),
        output_char: output,
        context: None,
    }
}

/// Build a rule with a `preceding` context constraint.
fn rule_with_preceding(input: &str, output: char, preceding: Vec<char>) -> TransformationRule {
    TransformationRule {
        input_sequence: input.to_string(),
        output_char: output,
        context: Some(RuleContext {
            preceding: Some(preceding),
            not_preceding: None,
        }),
    }
}

fn config_with_rules(rules: Vec<TransformationRule>) -> InputMethodConfig {
    InputMethodConfig {
        id: "test".to_string(),
        name: "Test".to_string(),
        rules,
        metadata: None,
    }
}

// ---- Rule validation: conflict detection -----------------------------

#[test]
fn valid_config_without_conflicts_or_cycles_passes() {
    let config = config_with_rules(vec![
        rule("aa", 'â'),
        rule("aw", 'ă'),
        rule("ee", 'ê'),
        rule("dd", 'đ'),
    ]);
    assert_eq!(ConfigParser::validate_rules(&config), Ok(()));
}

#[test]
fn duplicate_rule_same_output_is_not_a_conflict() {
    // Same input AND same output appearing twice is redundant, not a
    // conflict (only one distinct output character).
    let config = config_with_rules(vec![rule("aa", 'â'), rule("aa", 'â')]);
    assert_eq!(ConfigParser::validate_rules(&config), Ok(()));
}

#[test]
fn conflicting_mapping_same_input_different_output_detected() {
    let config = config_with_rules(vec![rule("aa", 'â'), rule("aa", 'ä')]);
    let errors = ConfigParser::validate_rules(&config).unwrap_err();
    assert_eq!(errors.len(), 1);
    match &errors[0] {
        ValidationError::ConflictingMapping { input, outputs } => {
            assert_eq!(input, "aa");
            assert_eq!(outputs, &vec!['â', 'ä']);
        }
        other => panic!("expected ConflictingMapping, got {:?}", other),
    }
}

#[test]
fn multiple_conflicts_are_all_collected() {
    let config = config_with_rules(vec![
        rule("aa", 'â'),
        rule("aa", 'ä'),
        rule("ee", 'ê'),
        rule("ee", 'ë'),
    ]);
    let errors = ConfigParser::validate_rules(&config).unwrap_err();
    let conflicts: Vec<_> = errors
        .iter()
        .filter(|e| matches!(e, ValidationError::ConflictingMapping { .. }))
        .collect();
    assert_eq!(conflicts.len(), 2);
    // Reported in first-seen input order: "aa" then "ee".
    match conflicts[0] {
        ValidationError::ConflictingMapping { input, .. } => assert_eq!(input, "aa"),
        _ => unreachable!(),
    }
    match conflicts[1] {
        ValidationError::ConflictingMapping { input, .. } => assert_eq!(input, "ee"),
        _ => unreachable!(),
    }
}

#[test]
fn same_input_different_context_is_not_a_conflict() {
    // Two rules share the input "w" but apply under different preceding
    // contexts, so they never fire for the same keystrokes -> no conflict.
    let config = config_with_rules(vec![
        rule_with_preceding("w", 'ơ', vec!['o']),
        rule_with_preceding("w", 'ư', vec!['u']),
    ]);
    assert_eq!(ConfigParser::validate_rules(&config), Ok(()));
}

#[test]
fn three_distinct_outputs_reported_in_first_seen_order() {
    let config = config_with_rules(vec![
        rule("x", 'a'),
        rule("x", 'b'),
        rule("x", 'c'),
    ]);
    let errors = ConfigParser::validate_rules(&config).unwrap_err();
    let conflict = errors
        .iter()
        .find_map(|e| match e {
            ValidationError::ConflictingMapping { input, outputs } if input == "x" => {
                Some(outputs.clone())
            }
            _ => None,
        })
        .expect("conflict for input x");
    assert_eq!(conflict, vec!['a', 'b', 'c']);
}

// ---- Rule validation: cycle detection --------------------------------

#[test]
fn acyclic_ruleset_passes_cycle_check() {
    // a -> b -> c, no back edge.
    let config = config_with_rules(vec![rule("a", 'b'), rule("b", 'c'), rule("c", 'd')]);
    assert_eq!(ConfigParser::validate_rules(&config), Ok(()));
}

#[test]
fn direct_two_rule_cycle_detected() {
    // a -> b and b -> a form a cycle through both rules.
    let config = config_with_rules(vec![rule("a", 'b'), rule("b", 'a')]);
    let errors = ConfigParser::validate_rules(&config).unwrap_err();
    let cycles: Vec<_> = errors
        .iter()
        .filter_map(|e| match e {
            ValidationError::CyclicRule { rules } => Some(rules.clone()),
            _ => None,
        })
        .collect();
    assert_eq!(cycles.len(), 1, "exactly one cycle expected: {:?}", errors);
    let mut involved = cycles[0].clone();
    involved.sort_unstable();
    assert_eq!(involved, vec![0, 1]);
}

#[test]
fn self_loop_cycle_detected() {
    // A rule whose output feeds its own input: "a" -> 'a'.
    let config = config_with_rules(vec![rule("a", 'a')]);
    let errors = ConfigParser::validate_rules(&config).unwrap_err();
    let cycles: Vec<_> = errors
        .iter()
        .filter(|e| matches!(e, ValidationError::CyclicRule { .. }))
        .collect();
    assert_eq!(cycles.len(), 1);
    match cycles[0] {
        ValidationError::CyclicRule { rules } => assert_eq!(rules, &vec![0]),
        _ => unreachable!(),
    }
}

#[test]
fn longer_cycle_detected() {
    // a -> b -> c -> a (three-rule cycle).
    let config = config_with_rules(vec![rule("a", 'b'), rule("b", 'c'), rule("c", 'a')]);
    let errors = ConfigParser::validate_rules(&config).unwrap_err();
    let cycles: Vec<_> = errors
        .iter()
        .filter_map(|e| match e {
            ValidationError::CyclicRule { rules } => Some(rules.clone()),
            _ => None,
        })
        .collect();
    assert_eq!(cycles.len(), 1);
    let mut involved = cycles[0].clone();
    involved.sort_unstable();
    assert_eq!(involved, vec![0, 1, 2]);
}

#[test]
fn conflicts_and_cycles_collected_together() {
    // One conflict ("aa" -> â/ä) and one cycle (a -> b -> a).
    let config = config_with_rules(vec![
        rule("aa", 'â'),
        rule("aa", 'ä'),
        rule("a", 'b'),
        rule("b", 'a'),
    ]);
    let errors = ConfigParser::validate_rules(&config).unwrap_err();
    let has_conflict = errors
        .iter()
        .any(|e| matches!(e, ValidationError::ConflictingMapping { .. }));
    let has_cycle = errors
        .iter()
        .any(|e| matches!(e, ValidationError::CyclicRule { .. }));
    assert!(has_conflict, "expected a conflict in {:?}", errors);
    assert!(has_cycle, "expected a cycle in {:?}", errors);
}

#[test]
fn empty_ruleset_passes_validation() {
    let config = config_with_rules(vec![]);
    assert_eq!(ConfigParser::validate_rules(&config), Ok(()));
}

#[test]
fn invalid_toml_syntax_reports_line_number() {
    // An unterminated string on line 3 is a TOML syntax error.
    let toml_str = "id = \"x\"\nname = \"X\"\nrules = [oops\n";
    let err = ConfigParser::parse(toml_str, ConfigFormat::Toml, decode).unwrap_err();
    match err {
        ParseError::SyntaxError { line, .. } => {
            assert!(line >= 1, "line number should be reported, got {}", line);
        }
        other => panic!("expected SyntaxError, got {:?}", other),
    }
}

#[test]
fn empty_input_is_rejected() {
    // Empty documents are not valid configurations in either format.
    assert!(ConfigParser::parse("", ConfigFormat::Json, decode).is_err());
    // An empty TOML document parses as an empty table, which is missing
    // the required `id` field.
    match ConfigParser::parse("", ConfigFormat::Toml, decode).unwrap_err() {
        ParseError::MissingField { .. } | ParseError::SyntaxError { .. } => {}
        other => panic!("expected MissingField or SyntaxError, got {:?}", other),
    }
}

#[test]
fn input_at_exact_max_size_is_not_rejected_for_size() {
    // The size guard rejects strictly greater than the maximum, so an
    // input of exactly MAX bytes must fail for *content* reasons (it is
    // not valid JSON) rather than as FileTooLarge.
    let exact = "a".repeat(MAX_CONFIG_FILE_SIZE);
    let err = ConfigParser::parse(&exact, ConfigFormat::Json, decode).unwrap_err();
    assert!(
        !matches!(err, ParseError::FileTooLarge { .. }),
        "input of exactly MAX bytes must not be rejected as too large, got {:?}",
        err
    );
}

#[test]
fn invalid_output_char_value_is_rejected() {
    // `output_char` must be a single character; a multi-character string
    // is a data error, surfaced as a parse failure rather than a panic.
    let json = r#"{ "id": "x", "name": "X",
        "rules": [{ "input_sequence": "aa", "output_char": "ab" }] }"#;
    assert!(ConfigParser::parse(json, ConfigFormat::Json, decode).is_err());
}

// ---- Deterministic generator for the conflict-detection property ------

/// A tiny deterministic PRNG (LCG core + xorshift output mixing).
struct Lcg {
    state: u64,
}

impl Lcg {
    fn new(seed: u64) -> Self {
        Lcg { state: seed }
    }

    fn next_u64(&mut self) -> u64 {
        // LCG step with well-known 64-bit constants.
        self.state = self
            .state
            .wrapping_mul(6364136223846793005)
            .wrapping_add(1442695040888963407);
        // Mix the output so low bits are usable.
        let mut x = self.state;
        x ^= x >> 33;
        x = x.wrapping_mul(0xff51afd7ed558ccd);
        x ^= x >> 33;
        x
    }

    /// Uniform-ish value in `0..n` (n must be > 0).
    fn below(&mut self, n: usize) -> usize {
        (self.next_u64() % n as u64) as usize
    }

    /// Inclusive range `lo..=hi` (requires `lo <= hi`).
    fn range(&mut self, lo: usize, hi: usize) -> usize {
        lo + self.below(hi - lo + 1)
    }
}

/// Distinct output characters (mix of ASCII and Vietnamese, all unique).
const OUTPUT_CHARS: &[char] = &[
    'a', 'â', 'ă', 'e', 'ê', 'o', 'ô', 'ơ', 'u', 'ư', 'i', 'y', 'đ', 'á', 'à', 'ả', 'ã', 'ạ',
    'Đ', 'Ê',
];

// For rule sets with injected conflicting mappings (same input_sequence +
// same context -> different output_char), validate_rules detects and
// reports ALL conflicts.
#[test]
fn property_11_configuration_conflict_detection() {
    let mut rng = Lcg::new(0x0fed_cba9_8765_4321);
    for iter in 0..120 {
        // Base rules: each has a unique input sequence (and no context), so
        // they never conflict among themselves and form no cycles (their
        // multi-character inputs never equal a single-character output).
        let base_count = rng.range(2, 8);
        let base_rules: Vec<TransformationRule> = (0..base_count)
            .map(|j| TransformationRule {
                input_sequence: format!("k{}_{}", iter, j),
                output_char: OUTPUT_CHARS[rng.below(OUTPUT_CHARS.len())],
                context: None,
            })
            .collect();

        // Inject conflicts: re-use an existing input sequence with a
        // guaranteed-different output character.
        let mut rules = base_rules.clone();
        let mut expected: std::collections::BTreeSet<String> =
            std::collections::BTreeSet::new();
        let conflict_count = rng.range(1, base_count);
        for _ in 0..conflict_count {
            let idx = rng.below(base_count);
            let base = &base_rules[idx];
            // Pick an output distinct from the base rule's output. Since
            // OUTPUT_CHARS holds distinct values, advancing to the next
            // index always yields a different character.
            let mut k = rng.below(OUTPUT_CHARS.len());
            if OUTPUT_CHARS[k] == base.output_char {
                k = (k + 1) % OUTPUT_CHARS.len();
            }
            rules.push(TransformationRule {
                input_sequence: base.input_sequence.clone(),
                output_char: OUTPUT_CHARS[k],
                context: None,
            });
            expected.insert(base.input_sequence.clone());
        }

        let config = config_with_rules(rules);
        let errors = ConfigParser::validate_rules(&config)
            .expect_err("injected conflicts must fail validation");

        // Every injected conflict must be reported, and no spurious ones.
        let reported: std::collections::BTreeSet<String> = errors
            .iter()
            .filter_map(|e| match e {
                ValidationError::ConflictingMapping { input, .. } => Some(input.clone()),
                _ => None,
            })
            .collect();
        assert_eq!(
            reported, expected,
            "iteration {}: reported conflict set does not match injected set",
            iter
        );
    }
}

#[test]
fn every_cycle_the_search_closes_is_reported_in_order() {
    let config = config_with_rules(vec![rule("a", 'a'), rule("b", 'b'), rule("c", 'd'), rule("d", 'c')]);
    let errors = ConfigParser::validate_rules(&config).unwrap_err();
    assert_eq!(
        errors,
        vec![
            ValidationError::CyclicRule { rules: vec![0] },
            ValidationError::CyclicRule { rules: vec![1] },
            ValidationError::CyclicRule { rules: vec![2, 3] },
        ]
    );
}
