use vietnamese_input::config_parser::{extract_missing_field, DecodeError, MAX_CONFIG_FILE_SIZE};
use vietnamese_input::{ConfigFormat, ConfigParser, InputMethodConfig, ParseError};

#[test]
fn describe_gives_one_message_per_variant() {
    let e = ParseError::SyntaxError { line: 12, message: "expected `,`".to_string() };
    assert_eq!(e.describe(), "syntax error at line 12: expected `,`");
    let e = ParseError::MissingField { field: "rules".to_string() };
    assert_eq!(e.describe(), "missing required field: `rules`");
    let e = ParseError::InvalidRule { rule_index: 3, message: "empty input".to_string() };
    assert_eq!(e.describe(), "invalid rule at index 3: empty input");
    let e = ParseError::FileTooLarge { size: 10485761, max: MAX_CONFIG_FILE_SIZE };
    assert_eq!(e.describe(), "configuration file too large: 10485761 bytes (maximum 10485760 bytes)");
}

#[test]
fn extract_missing_field_reads_the_backquoted_name() {
    assert_eq!(extract_missing_field("missing field `name` at line 1 column 26"), Some("name".to_string()));
    assert_eq!(extract_missing_field("oops: missing field `id`"), Some("id".to_string()));
    assert_eq!(extract_missing_field("missing field ``"), Some(String::new()));
    assert_eq!(extract_missing_field("missing field name"), None);
    assert_eq!(extract_missing_field("missing field `unterminated"), None);
    assert_eq!(extract_missing_field("invalid type: string"), None);
    assert_eq!(extract_missing_field(""), None);
}

#[test]
fn json_data_error_naming_a_field_is_a_missing_field() {
    let e = DecodeError::Json { message: "missing field `name` at line 1 column 26".to_string(), data: true, line: 1 };
    assert_eq!(ConfigParser::classify_error("{}", e), ParseError::MissingField { field: "name".to_string() });
}

#[test]
fn json_syntax_error_keeps_its_line_even_if_it_mentions_a_field() {
    let message = "missing field `x` expected at line 4".to_string();
    let e = DecodeError::Json { message: message.clone(), data: false, line: 4 };
    assert_eq!(ConfigParser::classify_error("{", e), ParseError::SyntaxError { line: 4, message });
}

#[test]
fn toml_error_offset_becomes_a_line() {
    let input = "id = \"x\"\nname = \"X\"\nrules = [oops\n";
    let e = DecodeError::Toml { message: "invalid array".to_string(), offset: Some(29) };
    assert_eq!(
        ConfigParser::classify_error(input, e),
        ParseError::SyntaxError { line: 3, message: "invalid array".to_string() }
    );
    let e = DecodeError::Toml { message: "invalid array".to_string(), offset: Some(1000) };
    assert_eq!(
        ConfigParser::classify_error(input, e),
        ParseError::SyntaxError { line: 4, message: "invalid array".to_string() }
    );
    let e = DecodeError::Toml { message: "unknown".to_string(), offset: None };
    assert_eq!(
        ConfigParser::classify_error(input, e),
        ParseError::SyntaxError { line: 0, message: "unknown".to_string() }
    );
    let e = DecodeError::Toml { message: "missing field `rules`".to_string(), offset: Some(0) };
    assert_eq!(ConfigParser::classify_error(input, e), ParseError::MissingField { field: "rules".to_string() });
}

fn accept(_: &str, _: ConfigFormat) -> Result<InputMethodConfig, DecodeError> {
    Ok(InputMethodConfig { id: "m".to_string(), name: "M".to_string(), rules: Vec::new(), metadata: None })
}

fn reject(_: &str, _: ConfigFormat) -> Result<InputMethodConfig, DecodeError> {
    Err(DecodeError::Json { message: "missing field `id`".to_string(), data: true, line: 1 })
}

#[test]
fn parse_returns_the_decoded_configuration_or_the_classified_failure() {
    let c = ConfigParser::parse("anything", ConfigFormat::Json, accept).unwrap();
    assert_eq!(c.id, "m");
    assert_eq!(
        ConfigParser::parse("{}", ConfigFormat::Json, reject),
        Err(ParseError::MissingField { field: "id".to_string() })
    );
}

#[test]
fn oversized_input_is_never_decoded() {
    let big = " ".repeat(MAX_CONFIG_FILE_SIZE + 3);
    let r = ConfigParser::parse(&big, ConfigFormat::Toml, |_: &str, _: ConfigFormat| -> Result<InputMethodConfig, DecodeError> {
        panic!("decoder must not run")
    });
    assert_eq!(r, Err(ParseError::FileTooLarge { size: MAX_CONFIG_FILE_SIZE + 3, max: MAX_CONFIG_FILE_SIZE }));
}
