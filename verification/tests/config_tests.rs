use sentinel::config::parse_toml;
use sentinel::config::parse_toml_value;
use sentinel::config::TomlValue;

#[test]
fn test_parse_toml() {
    let input = r#"
# Top-level config
[anthropic]
model = "sonnet-4-5-20250929"
max_tokens = 4096
api_key_env = "MY_API_KEY"

[telegram]
allowed_users = [123, 456]

[security]
allowed_read_paths = ["/tmp", "/home/user"]
allowed_commands = ["ls", "cat"]
"#;

    let doc = parse_toml(input).unwrap();
    assert_eq!(
        doc.get_str("anthropic", "model").unwrap(),
        "sonnet-4-5-20250929"
    );
    assert_eq!(doc.get_str("anthropic", "max_tokens").unwrap(), "4096");
    assert_eq!(
        doc.get_i64_list("telegram", "allowed_users").unwrap(),
        vec![123, 456]
    );
    assert_eq!(
        doc.get_str_list("security", "allowed_read_paths").unwrap(),
        vec!["/tmp", "/home/user"]
    );
}

#[test]
fn test_parse_toml_empty_arrays() {
    let input = r#"
[security]
allowed_commands = []
"#;
    let doc = parse_toml(input).unwrap();
    assert_eq!(
        doc.get_str_list("security", "allowed_commands").unwrap(),
        Vec::<String>::new()
    );
}

#[test]
fn test_parse_toml_boolean() {
    let input = r#"
[agent]
verbose = true
"#;
    let doc = parse_toml(input).unwrap();
    assert_eq!(doc.get_str("agent", "verbose").unwrap(), "true");
}

#[test]
fn test_parse_toml_comments_stripped() {
    let input = r#"
[section]
key = "value" # this is a comment
"#;
    let doc = parse_toml(input).unwrap();
    assert_eq!(doc.get_str("section", "key").unwrap(), "value");
}

#[test]
fn test_parse_toml_missing_key() {
    let input = r#"
[section]
key = "value"
"#;
    let doc = parse_toml(input).unwrap();
    assert!(doc.get_str("section", "nonexistent").is_none());
    assert!(doc.get_str("nonexistent", "key").is_none());
}

#[test]
fn test_parse_toml_value_types() {
    assert!(matches!(parse_toml_value("42").unwrap(), TomlValue::Int(42)));
    assert!(matches!(parse_toml_value("-5").unwrap(), TomlValue::Int(-5)));
    assert!(matches!(parse_toml_value("\"hello\"").unwrap(), TomlValue::Str(s) if s == "hello"));
}

#[test]
fn test_parse_toml_invalid_line() {
    let input = "no_section_key";
    assert!(parse_toml(input).is_err());
}

#[test]
fn test_parse_toml_command_timeout() {
    let input = r#"
[security]
command_timeout = 60
"#;
    let doc = parse_toml(input).unwrap();
    assert_eq!(doc.get_str("security", "command_timeout").unwrap(), "60");
}

#[test]
fn test_parse_toml_line_number_in_error() {
    let err = parse_toml("\n\nbroken line").unwrap_err();
    assert_eq!(err, "line 3: expected '='");
}

#[test]
fn test_parse_toml_value_errors() {
    assert_eq!(parse_toml_value("\"open").unwrap_err(), "unterminated string");
    assert_eq!(parse_toml_value("[1, 2").unwrap_err(), "unterminated array");
    assert_eq!(parse_toml_value("what?").unwrap_err(), "cannot parse value: what?");
}

#[test]
fn test_parse_toml_last_binding_wins() {
    let input = r#"
[s]
k = 1
k = 2
"#;
    let doc = parse_toml(input).unwrap();
    assert_eq!(doc.get_str("s", "k").unwrap(), "2");
}
