use sentinel::manifest::parse_manifest;

#[test]
fn test_parse_manifest_basic() {
    let content = r#"
[skill]
name = "web-search"
version = "0.1.0"
description = "Search the web"
binary = "web-search"

[capabilities]
network = true
file_read = ["/tmp"]
file_write = []
commands = []

[tool]
name = "web_search"
description = "Search the web for information"
param_names = ["query"]
param_types = ["string"]
param_descriptions = ["The search query"]
param_required = ["query"]
"#;
    let manifest = parse_manifest(content).unwrap();
    assert_eq!(manifest.name, "web-search");
    assert_eq!(manifest.version, "0.1.0");
    assert_eq!(manifest.binary, "web-search");
    assert!(manifest.cap_network);
    assert_eq!(manifest.cap_file_read, vec!["/tmp"]);
    assert_eq!(manifest.tool_name, "web_search");
    assert_eq!(manifest.parameters.len(), 1);
    assert_eq!(manifest.parameters[0].name, "query");
    assert!(manifest.parameters[0].required);
}

#[test]
fn test_parse_manifest_minimal() {
    let content = r#"
[skill]
name = "hello"
binary = "hello-skill"

[tool]
name = "hello"
"#;
    let manifest = parse_manifest(content).unwrap();
    assert_eq!(manifest.name, "hello");
    assert_eq!(manifest.binary, "hello-skill");
    assert!(!manifest.cap_network);
    assert!(manifest.parameters.is_empty());
}

#[test]
fn test_parse_manifest_missing_name() {
    let content = r#"
[skill]
binary = "test"

[tool]
name = "test"
"#;
    assert!(parse_manifest(content).is_err());
}

#[test]
fn test_parse_manifest_invalid_tool_name() {
    let content = r#"
[skill]
name = "test"
binary = "test"

[tool]
name = "invalid-name"
"#;
    assert!(parse_manifest(content).is_err());
}

#[test]
fn test_parse_manifest_multiple_params() {
    let content = r#"
[skill]
name = "calculator"
binary = "calc"

[capabilities]
network = false

[tool]
name = "calculate"
description = "Perform a calculation"
param_names = ["expression", "precision"]
param_types = ["string", "number"]
param_descriptions = ["Math expression", "Decimal places"]
param_required = ["expression"]
"#;
    let manifest = parse_manifest(content).unwrap();
    assert_eq!(manifest.parameters.len(), 2);
    assert!(manifest.parameters[0].required);
    assert!(!manifest.parameters[1].required);
    assert_eq!(manifest.parameters[1].param_type, "number");
}

#[test]
fn test_parse_manifest_defaults() {
    let content = r#"
[skill]
name = "thing"
binary = "thing-bin"

[tool]
name = "thing_tool"
"#;
    let manifest = parse_manifest(content).unwrap();
    assert_eq!(manifest.version, "0.1.0");
    assert_eq!(manifest.description, "thing");
    assert_eq!(manifest.tool_description, "thing");
}

#[test]
fn test_parse_manifest_error_texts() {
    let missing_binary = "[skill]\nname = \"x\"\n\n[tool]\nname = \"t\"\n";
    assert_eq!(parse_manifest(missing_binary).unwrap_err(), "skill.binary is required");
    let missing_tool = "[skill]\nname = \"x\"\nbinary = \"b\"\n";
    assert_eq!(parse_manifest(missing_tool).unwrap_err(), "tool.name is required");
    let bad_tool = "[skill]\nname = \"x\"\nbinary = \"b\"\n\n[tool]\nname = \"a-b\"\n";
    assert_eq!(
        parse_manifest(bad_tool).unwrap_err(),
        "tool.name 'a-b' must be alphanumeric with underscores"
    );
}
