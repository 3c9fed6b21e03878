use sentinel::audit::escape_string;
use sentinel::audit::render_audit_record;
use sentinel::audit::AuditEvent;
use sentinel::platform::canonicalize_path;
use sentinel::capability::CapabilityChecker;
use sentinel::capability::CapabilityResult;
use sentinel::sandbox::build_seccomp_filter;
use sentinel::sandbox::landlock_rule_plan;
use sentinel::sandbox::SECCOMP_RET_ALLOW;
use sentinel::sandbox::SECCOMP_RET_ERRNO_EPERM;

#[test]
fn test_command_allowlist() {
    let checker = CapabilityChecker::new(vec![], vec![], vec!["ls".into(), "cat".into()]);
    assert!(matches!(checker.check_command("ls"), CapabilityResult::Allowed));
    assert!(matches!(checker.check_command("rm"), CapabilityResult::Denied(_)));
    assert!(matches!(checker.check_command("/bin/ls"), CapabilityResult::Allowed));
}

#[test]
fn test_empty_allowlist_denies() {
    let checker = CapabilityChecker::new(vec![], vec![], vec![]);
    assert!(matches!(checker.check_command("ls"), CapabilityResult::Denied(_)));
    assert!(matches!(
        checker.check_file_read("/tmp/x", Some(&"/tmp/x".to_string()), &vec![]),
        CapabilityResult::Denied(_)
    ));
}

#[test]
fn test_path_check() {
    let checker = CapabilityChecker::new(vec!["/tmp".into()], vec![], vec![]);
    let entries = vec!["/tmp".to_string()];
    assert!(matches!(
        checker.check_file_read("/tmp/test", Some(&"/tmp/test".to_string()), &entries),
        CapabilityResult::Allowed
    ));
    assert!(matches!(
        checker.check_file_read("/etc/passwd", Some(&"/etc/passwd".to_string()), &entries),
        CapabilityResult::Denied(_)
    ));
}

#[test]
fn test_canonicalize_resolves_dots() {
    assert_eq!(canonicalize_path("/tmp/../etc/passwd").unwrap(), "/etc/passwd");
    assert_eq!(canonicalize_path("/a/./b//c").unwrap(), "/a/b/c");
    assert_eq!(canonicalize_path("/").unwrap(), "/");
    assert_eq!(canonicalize_path("/a/.."). unwrap(), "/");
    assert!(canonicalize_path("relative/path").is_none());
    assert!(canonicalize_path("/..").is_none());
}

#[test]
fn test_traversal_is_caught() {
    let checker = CapabilityChecker::new(vec!["/tmp".into()], vec![], vec![]);
    // The resolver reports the canonical form of /tmp/../etc/passwd; it
    // leaves /tmp, so the check denies it.
    assert!(matches!(
        checker.check_file_read(
            "/tmp/../etc/passwd",
            Some(&"/etc/passwd".to_string()),
            &vec!["/tmp".to_string()],
        ),
        CapabilityResult::Denied(_)
    ));
}

#[test]
fn test_denied_reason_names_path() {
    let checker = CapabilityChecker::new(vec!["/tmp".into()], vec![], vec![]);
    let entries = vec!["/tmp".to_string()];
    match checker.check_file_read("/etc/passwd", Some(&"/etc/passwd".to_string()), &entries) {
        CapabilityResult::Denied(reason) => {
            assert_eq!(reason, "read access denied for path '/etc/passwd'");
        }
        CapabilityResult::Allowed => panic!("expected denial"),
    }
    // A path the resolver could not canonicalize.
    match checker.check_file_read("/nope/x", None, &entries) {
        CapabilityResult::Denied(reason) => {
            assert_eq!(reason, "cannot resolve path '/nope/x'");
        }
        CapabilityResult::Allowed => panic!("expected denial"),
    }
    match checker.check_file_write("/etc/passwd", Some(&"/etc/passwd".to_string()), &vec![]) {
        CapabilityResult::Denied(reason) => {
            assert_eq!(reason, "no write paths are allowed");
        }
        CapabilityResult::Allowed => panic!("expected denial"),
    }
    match checker.check_command("rm") {
        CapabilityResult::Denied(reason) => {
            assert_eq!(reason, "no commands are allowed");
        }
        CapabilityResult::Allowed => panic!("expected denial"),
    }
}

#[test]
fn test_check_is_deterministic() {
    let checker = CapabilityChecker::new(vec!["/tmp".into()], vec![], vec!["ls".into()]);
    let entries = vec!["/tmp".to_string()];
    for _ in 0..3 {
        assert!(matches!(
            checker.check_file_read("/tmp/a", Some(&"/tmp/a".to_string()), &entries),
            CapabilityResult::Allowed
        ));
        assert!(matches!(checker.check_command("ls"), CapabilityResult::Allowed));
        assert!(matches!(checker.check_command("cat"), CapabilityResult::Denied(_)));
    }
}

#[test]
fn test_escape_string_controls() {
    assert_eq!(escape_string("plain"), "plain");
    assert_eq!(escape_string("a\"b"), "a\\\"b");
    assert_eq!(escape_string("a\\b"), "a\\\\b");
    assert_eq!(escape_string("a\nb\tc"), "a\\nb\\tc");
    assert_eq!(escape_string("\u{1}"), "\\u0001");
}

#[test]
fn test_audit_record_shape() {
    let e = AuditEvent::ToolCallAllowed {
        tool: "read_file".to_string(),
        params: "{\"path\":\"/tmp/x\"}".to_string(),
    };
    let line = render_audit_record(&e, 1700000000);
    assert_eq!(
        line,
        "{\"event\":\"tool_call_allowed\",\"ts\":1700000000,\"tool\":\"read_file\",\"params\":\"{\\\"path\\\":\\\"/tmp/x\\\"}\"}"
    );
}

#[test]
fn test_audit_record_denied_carries_reason() {
    let e = AuditEvent::ToolCallDenied {
        tool: "run_command".to_string(),
        params: "{}".to_string(),
        reason: "no commands are allowed".to_string(),
    };
    let line = render_audit_record(&e, 7);
    assert_eq!(
        line,
        "{\"event\":\"tool_call_denied\",\"ts\":7,\"tool\":\"run_command\",\"params\":\"{}\",\"reason\":\"no commands are allowed\"}"
    );
}

#[test]
fn test_seccomp_filter_shape() {
    let filter = build_seccomp_filter();
    let n = filter.len();
    // Architecture check, syscall load, one comparison per allowed call,
    // the deny and the allow.
    assert!(n > 6);
    assert_eq!(filter[0].code, 0x20);
    assert_eq!(filter[0].k, 4);
    assert_eq!(filter[1].code, 0x15);
    assert_eq!(filter[2].k, SECCOMP_RET_ERRNO_EPERM);
    assert_eq!(filter[3].k, 0);
    // The first comparison jumps over every later one plus the deny.
    assert_eq!(filter[4].jt as usize, n - 6);
    assert_eq!(filter[4].k, 0);
    assert_eq!(filter[n - 2].k, SECCOMP_RET_ERRNO_EPERM);
    assert_eq!(filter[n - 1].k, SECCOMP_RET_ALLOW);
}

#[test]
fn test_landlock_plan_grants() {
    let rules = landlock_rule_plan(&vec!["/data".to_string()], &vec!["/scratch".to_string()]);
    assert_eq!(rules[0].path, "/data");
    assert_eq!(rules[0].access, 12);
    assert_eq!(rules[1].path, "/scratch");
    assert_eq!(rules[1].access, 12 | 434);
    // The ambient grants follow the policy rules.
    assert_eq!(rules.len(), 2 + 14);
    let last = &rules[rules.len() - 1];
    assert_eq!(last.path, "/tmp");
    assert_eq!(last.access, 12 | 434);
}

#[test]
fn test_audit_record_other_events() {
    let e = AuditEvent::MessageReceived {
        chat_id: -12,
        user_id: 34,
        username: "ada".to_string(),
    };
    assert_eq!(
        render_audit_record(&e, 5),
        "{\"event\":\"message_received\",\"ts\":5,\"chat_id\":-12,\"user_id\":34,\"username\":\"ada\"}"
    );
    let e = AuditEvent::UnauthorizedUser { user_id: 9, username: "mallory".to_string() };
    assert_eq!(
        render_audit_record(&e, 6),
        "{\"event\":\"unauthorized_user\",\"ts\":6,\"user_id\":9,\"username\":\"mallory\"}"
    );
    let e = AuditEvent::ApiCall { endpoint: "/v1/messages".to_string(), status: 200 };
    assert_eq!(
        render_audit_record(&e, 7),
        "{\"event\":\"api_call\",\"ts\":7,\"endpoint\":\"/v1/messages\",\"status\":200}"
    );
}

#[test]
fn test_command_basename_semantics() {
    let checker = CapabilityChecker::new(vec![], vec![], vec!["foo".into()]);
    // Empty and `.` segments drop out of the basename.
    assert!(matches!(checker.check_command("bar/foo"), CapabilityResult::Allowed));
    assert!(matches!(checker.check_command("bar/foo/"), CapabilityResult::Allowed));
    assert!(matches!(checker.check_command("foo/."), CapabilityResult::Allowed));
    // A command ending in `..` falls back to its full text.
    assert!(matches!(checker.check_command("foo/.."), CapabilityResult::Denied(_)));
}
