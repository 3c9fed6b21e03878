use sentinel::audit::AuditEvent;
use sentinel::capability::CapabilityChecker;
use sentinel::skills::build_skill_request;
use sentinel::skills::interpret_skill_response;
use sentinel::skills::skill_timeout_message;
use sentinel::skills::sort_skills_by_name;
use sentinel::skills::SkillDef;
use sentinel::skills::SkillRunner;
use sentinel::manifest::parse_manifest;
use sentinel::platform::render_directory_listing;
use sentinel::platform::DirEntry;
use sentinel::tools::authorized_path_param;
use sentinel::tools::list_failure_message;
use sentinel::tools::read_failure_message;
use sentinel::tools::write_failure_message;
use sentinel::tools::PathAccess;
use sentinel::tools::combine_output;
use sentinel::tools::command_timeout_message;
use sentinel::tools::exit_failure_message;
use sentinel::tools::tool_definitions;
use sentinel::tools::write_success_message;
use sentinel::tools::ToolAction;
use sentinel::tools::ToolExecutor;
use sentinel::tools::ToolInput;
use sentinel::tools::ToolValue;

fn str_input(pairs: &[(&str, &str)]) -> ToolInput {
    let mut fields = Vec::new();
    for (k, v) in pairs {
        fields.push((k.to_string(), ToolValue::Str(v.to_string())));
    }
    ToolInput { fields }
}

#[test]
fn test_tool_definitions_count() {
    let defs = tool_definitions();
    assert_eq!(defs.len(), 4);
    assert_eq!(defs[0].name, "read_file");
    assert_eq!(defs[1].name, "write_file");
    assert_eq!(defs[2].name, "list_directory");
    assert_eq!(defs[3].name, "run_command");
}

#[test]
fn test_plan_allowed_read() {
    let caps = CapabilityChecker::new(vec!["/tmp".into()], vec![], vec![]);
    let executor = ToolExecutor::new(&caps, 5);
    let input = str_input(&[("path", "/tmp/x")]);
    let plan = executor.plan(
        "read_file",
        &input,
        "{\"path\":\"/tmp/x\"}",
        false,
        Some(&"/tmp/x".to_string()),
        &vec!["/tmp".to_string()],
    );
    match plan.audit {
        Some(AuditEvent::ToolCallAllowed { tool, params }) => {
            assert_eq!(tool, "read_file");
            assert_eq!(params, "{\"path\":\"/tmp/x\"}");
        }
        _ => panic!("expected an allowance record"),
    }
    assert!(matches!(plan.action, Some(ToolAction::ReadFile { path }) if path == "/tmp/x"));
    assert!(plan.error.is_none());
}

#[test]
fn test_plan_denied_read() {
    let caps = CapabilityChecker::new(vec!["/tmp".into()], vec![], vec![]);
    let executor = ToolExecutor::new(&caps, 5);
    let input = str_input(&[("path", "/etc/passwd")]);
    let plan = executor.plan(
        "read_file",
        &input,
        "{\"path\":\"/etc/passwd\"}",
        false,
        Some(&"/etc/passwd".to_string()),
        &vec!["/tmp".to_string()],
    );
    match plan.audit {
        Some(AuditEvent::ToolCallDenied { tool, params, reason }) => {
            assert_eq!(tool, "read_file");
            assert_eq!(params, "{\"path\":\"/etc/passwd\"}");
            assert!(!reason.is_empty());
            assert!(reason.contains("/etc/passwd"));
        }
        _ => panic!("expected a denial record"),
    }
    assert!(plan.action.is_none());
    let err = plan.error.unwrap();
    assert!(err.starts_with("access denied:"));
    assert!(err.contains("/etc/passwd"));
}

#[test]
fn test_plan_denied_command() {
    let caps = CapabilityChecker::new(vec![], vec![], vec!["echo".into()]);
    let executor = ToolExecutor::new(&caps, 5);
    let input = str_input(&[("command", "rm")]);
    let plan = executor.plan("run_command", &input, "{\"command\":\"rm\"}", false, None, &vec![]);
    assert!(matches!(plan.audit, Some(AuditEvent::ToolCallDenied { .. })));
    assert!(plan.action.is_none());
    assert!(plan.error.unwrap().contains("access denied"));
}

#[test]
fn test_plan_command_with_args() {
    let caps = CapabilityChecker::new(vec![], vec![], vec!["echo".into()]);
    let executor = ToolExecutor::new(&caps, 5);
    let input = ToolInput {
        fields: vec![
            ("command".to_string(), ToolValue::Str("echo".to_string())),
            (
                "args".to_string(),
                ToolValue::List(vec![
                    ToolValue::Str("hello".to_string()),
                    ToolValue::Other,
                    ToolValue::Str("world".to_string()),
                ]),
            ),
        ],
    };
    let plan = executor.plan("run_command", &input, "{}", false, None, &vec![]);
    match plan.action {
        Some(ToolAction::RunCommand { command, args }) => {
            assert_eq!(command, "echo");
            assert_eq!(args, vec!["hello", "world"]);
        }
        _ => panic!("expected a command action"),
    }
}

#[test]
fn test_plan_unknown_tool() {
    let caps = CapabilityChecker::new(vec![], vec![], vec![]);
    let executor = ToolExecutor::new(&caps, 5);
    let input = ToolInput { fields: vec![] };
    let plan = executor.plan("nonexistent_tool", &input, "null", false, None, &vec![]);
    assert!(plan.audit.is_none());
    assert!(plan.action.is_none());
    assert_eq!(plan.error.unwrap(), "unknown tool: nonexistent_tool");
}

#[test]
fn test_plan_malformed_input_is_inert() {
    let caps = CapabilityChecker::new(vec!["/tmp".into()], vec!["/tmp".into()], vec![]);
    let executor = ToolExecutor::new(&caps, 5);
    // No `path` parameter: no audit record, no action, only an error.
    let input = ToolInput { fields: vec![] };
    let plan = executor.plan("write_file", &input, "{}", false, None, &vec![]);
    assert!(plan.audit.is_none());
    assert!(plan.action.is_none());
    assert_eq!(plan.error.unwrap(), "missing 'path' parameter");
    // Wrong-typed parameter reads as missing too.
    let input = ToolInput {
        fields: vec![("path".to_string(), ToolValue::Other)],
    };
    let plan = executor.plan("read_file", &input, "{}", false, None, &vec![]);
    assert!(plan.audit.is_none());
    assert!(plan.action.is_none());
    assert_eq!(plan.error.unwrap(), "missing 'path' parameter");
}

#[test]
fn test_plan_skill_dispatch() {
    let caps = CapabilityChecker::new(vec![], vec![], vec![]);
    let executor = ToolExecutor::new(&caps, 5);
    let input = ToolInput { fields: vec![] };
    let plan = executor.plan("web_search", &input, "{\"query\":\"x\"}", true, None, &vec![]);
    match plan.audit {
        Some(AuditEvent::ToolCallAllowed { tool, .. }) => assert_eq!(tool, "skill:web_search"),
        _ => panic!("expected an allowance record"),
    }
    assert!(matches!(plan.action, Some(ToolAction::RunSkill { tool_name }) if tool_name == "web_search"));
}

#[test]
fn test_result_texts() {
    assert_eq!(write_success_message("/tmp/y", "hello"), "wrote 5 bytes to '/tmp/y'");
    assert_eq!(combine_output("out", ""), "out");
    assert_eq!(combine_output("", "err"), "err");
    assert_eq!(combine_output("out", "err"), "out\n--- stderr ---\nerr");
    assert_eq!(
        exit_failure_message(2, "boom"),
        "command exited with status 2\nboom"
    );
    let msg = command_timeout_message("sleep", 1);
    assert_eq!(msg, "command 'sleep' timed out after 1s");
    assert!(msg.contains("timed out"));
}

#[test]
fn test_skill_ipc_texts() {
    assert_eq!(build_skill_request("{\"text\":\"hello\"}"), "{\"params\":{\"text\":\"hello\"}}\n");
    assert_eq!(
        interpret_skill_response(None, Some("got it".to_string()), None, "ignored").unwrap(),
        "got it"
    );
    assert_eq!(
        interpret_skill_response(Some("something failed".to_string()), None, None, "x")
            .unwrap_err(),
        "skill error: something failed"
    );
    assert_eq!(
        interpret_skill_response(None, None, Some("[1,2]".to_string()), "x").unwrap(),
        "[1,2]"
    );
    assert_eq!(
        interpret_skill_response(None, None, None, "raw line").unwrap(),
        "raw line"
    );
    assert_eq!(skill_timeout_message(5), "skill timed out after 5s");
}

fn skill_named(name: &str, tool: &str) -> SkillDef {
    let text = format!(
        "[skill]\nname = \"{}\"\nbinary = \"bin\"\n\n[tool]\nname = \"{}\"\n",
        name, tool
    );
    SkillDef {
        manifest: parse_manifest(&text).unwrap(),
        binary_path: format!("/skills/{}/bin", name),
        skill_dir: format!("/skills/{}", name),
    }
}

#[test]
fn test_skill_runner_lookup_and_order() {
    let defs = vec![
        skill_named("zeta", "zeta_tool"),
        skill_named("alpha", "alpha_tool"),
        skill_named("mid", "mid_tool"),
    ];
    let sorted = sort_skills_by_name(defs);
    assert_eq!(sorted[0].manifest.name, "alpha");
    assert_eq!(sorted[1].manifest.name, "mid");
    assert_eq!(sorted[2].manifest.name, "zeta");

    let runner = SkillRunner::new(sorted, 10);
    assert!(runner.has_skills());
    assert!(runner.handles("mid_tool"));
    assert!(!runner.handles("other_tool"));
    let s = runner.find_skill("zeta_tool").unwrap();
    assert_eq!(s.manifest.name, "zeta");

    let defs = runner.tool_definitions();
    assert_eq!(defs.len(), 3);
    assert_eq!(defs[0].name, "alpha_tool");
}

#[test]
fn test_empty_runner() {
    let runner = SkillRunner::new(vec![], 10);
    assert!(!runner.has_skills());
    assert!(!runner.handles("anything"));
    assert!(runner.find_skill("anything").is_none());
}

#[test]
fn test_plan_unresolvable_path() {
    let caps = CapabilityChecker::new(vec!["/tmp".into()], vec![], vec![]);
    let executor = ToolExecutor::new(&caps, 5);
    let input = str_input(&[("path", "/nope/dir/x")]);
    // The resolver found no canonical form for the path.
    let plan = executor.plan(
        "read_file",
        &input,
        "{}",
        false,
        None,
        &vec!["/tmp".to_string()],
    );
    assert!(matches!(plan.audit, Some(AuditEvent::ToolCallDenied { .. })));
    assert!(plan.action.is_none());
    assert_eq!(
        plan.error.unwrap(),
        "access denied: cannot resolve path '/nope/dir/x'"
    );
}

#[test]
fn test_authorized_path_param() {
    let input = str_input(&[("path", "/tmp/x")]);
    match authorized_path_param("read_file", &input) {
        Some((p, PathAccess::ReadAccess)) => assert_eq!(p, "/tmp/x"),
        _ => panic!("expected a read path"),
    }
    match authorized_path_param("write_file", &input) {
        Some((p, PathAccess::WriteAccess)) => assert_eq!(p, "/tmp/x"),
        _ => panic!("expected a write path"),
    }
    assert!(authorized_path_param("run_command", &input).is_none());
    assert!(authorized_path_param("read_file", &str_input(&[])).is_none());
}

#[test]
fn test_failure_texts() {
    assert_eq!(
        read_failure_message("/tmp/x", "No such file or directory (os error 2)"),
        "failed to read '/tmp/x': No such file or directory (os error 2)"
    );
    assert_eq!(write_failure_message("/a", "denied"), "failed to write '/a': denied");
    assert_eq!(list_failure_message("/b", "oops"), "failed to list '/b': oops");
}

#[test]
fn test_render_directory_listing() {
    let entries = vec![
        DirEntry { name: "zeta.txt".to_string(), is_dir: false },
        DirEntry { name: "alpha".to_string(), is_dir: true },
        DirEntry { name: "beta.log".to_string(), is_dir: false },
    ];
    assert_eq!(render_directory_listing(&entries), "alpha/\nbeta.log\nzeta.txt");
    let empty: Vec<DirEntry> = vec![];
    assert_eq!(render_directory_listing(&empty), "");
}
