use sentinel::agent::apply_response;
use sentinel::agent::extract_text;
use sentinel::agent::push_tool_results;
use sentinel::agent::push_user_text;
use sentinel::agent::rate_limit_wait;
use sentinel::agent::stream_delta_action;
use sentinel::agent::tool_result_from;
use sentinel::agent::trim_history;
use sentinel::agent::ContentBlock;
use sentinel::agent::Message;
use sentinel::agent::Role;
use sentinel::agent::StopReason;
use sentinel::agent::StreamAction;
use sentinel::agent::TurnStep;
use sentinel::supervisor::classify_inbound;
use sentinel::supervisor::is_authorized;
use sentinel::supervisor::ConversationStore;
use sentinel::supervisor::InboundDirective;
use sentinel::config::Config;
use sentinel::tools::ToolInput;

fn test_config(allowed_users: Vec<i64>) -> Config {
    Config {
        provider: "anthropic".to_string(),
        api_key: "k".to_string(),
        model: "m".to_string(),
        max_tokens: 1024,
        openai_base_url: "https://api.openai.com/v1".to_string(),
        system_prompt: None,
        telegram_token: "t".to_string(),
        telegram_allowed_users: allowed_users,
        allowed_read_paths: vec![],
        allowed_write_paths: vec![],
        allowed_commands: vec![],
        command_timeout: 30,
        audit_log_path: None,
    }
}

#[test]
fn test_extract_text_joins_blocks() {
    let content = vec![
        ContentBlock::Text { text: "first".to_string() },
        ContentBlock::ToolResult {
            tool_use_id: "id".to_string(),
            content: "ignored".to_string(),
            is_error: false,
        },
        ContentBlock::Text { text: "second".to_string() },
    ];
    assert_eq!(extract_text(&content), "first\nsecond");
    let empty: Vec<ContentBlock> = vec![];
    assert_eq!(extract_text(&empty), "(no text response)");
}

#[test]
fn test_tool_round_history() {
    // A stub LLM round: the assistant asks for one tool, the executor
    // answers, the next round ends the turn.
    let mut history: Vec<Message> = Vec::new();
    push_user_text(&mut history, "read /tmp/x please".to_string());

    let tool_use = ContentBlock::ToolUse {
        id: "toolu_1".to_string(),
        name: "read_file".to_string(),
        input: ToolInput { fields: vec![] },
        raw_input: "{\"path\":\"/tmp/x\"}".to_string(),
    };
    let step = apply_response(&mut history, vec![tool_use], StopReason::ToolUse);
    assert!(matches!(step, TurnStep::ExecuteTools));

    let result = tool_result_from("toolu_1", Ok("abc".to_string()));
    push_tool_results(&mut history, vec![result]);

    let step = apply_response(
        &mut history,
        vec![ContentBlock::Text { text: "content was abc".to_string() }],
        StopReason::EndTurn,
    );
    assert!(matches!(step, TurnStep::Finish));

    assert_eq!(history.len(), 4);
    assert!(matches!(history[1].role, Role::Assistant));
    assert!(matches!(history[2].role, Role::User));
    match &history[2].content[0] {
        ContentBlock::ToolResult { tool_use_id, content, is_error } => {
            assert_eq!(tool_use_id, "toolu_1");
            assert_eq!(content, "abc");
            assert!(!is_error);
        }
        _ => panic!("expected a tool result"),
    }
    match &history[3].content[0] {
        ContentBlock::Text { text } => assert_eq!(text, "content was abc"),
        _ => panic!("expected text"),
    }
}

#[test]
fn test_unexpected_stop_reason() {
    let mut history: Vec<Message> = Vec::new();
    let step = apply_response(
        &mut history,
        vec![],
        StopReason::Other("pause_turn".to_string()),
    );
    match step {
        TurnStep::Fail(m) => assert_eq!(m, "unexpected stop reason: pause_turn"),
        _ => panic!("expected failure"),
    }
}

#[test]
fn test_trim_history_bound() {
    let mut history: Vec<Message> = Vec::new();
    for i in 0..50 {
        push_user_text(&mut history, format!("message {}", i));
    }
    trim_history(&mut history, 40);
    assert_eq!(history.len(), 40);
    match &history[0].content[0] {
        ContentBlock::Text { text } => assert_eq!(text, "message 10"),
        _ => panic!("expected text"),
    }
    trim_history(&mut history, 40);
    assert_eq!(history.len(), 40);
}

#[test]
fn test_stream_throttle() {
    assert!(matches!(stream_delta_action(100, false, 100), StreamAction::Hold));
    assert!(matches!(stream_delta_action(5, false, 600), StreamAction::Hold));
    assert!(matches!(stream_delta_action(15, false, 600), StreamAction::SendNew));
    assert!(matches!(stream_delta_action(2, true, 600), StreamAction::Edit));
}

#[test]
fn test_rate_limit_wait_default() {
    assert_eq!(rate_limit_wait(&Some(3)), 3);
    assert_eq!(rate_limit_wait(&None), 10);
}

#[test]
fn test_authorization() {
    let open_config = test_config(vec![]);
    assert!(is_authorized(&open_config, "telegram", "42"));
    assert!(!is_authorized(&open_config, "discord", "42"));

    let closed = test_config(vec![42, 99]);
    assert!(is_authorized(&closed, "telegram", "42"));
    assert!(!is_authorized(&closed, "telegram", "41"));
    assert!(!is_authorized(&closed, "telegram", "not-a-number"));
}

#[test]
fn test_classify_inbound() {
    let config = test_config(vec![7]);
    assert!(matches!(
        classify_inbound(&config, "telegram", "8", "hi"),
        InboundDirective::Unauthorized
    ));
    assert!(matches!(
        classify_inbound(&config, "telegram", "7", "  /clear  "),
        InboundDirective::ClearConversation
    ));
    assert!(matches!(
        classify_inbound(&config, "telegram", "7", "what's up"),
        InboundDirective::RunTurn
    ));
}

#[test]
fn test_clear_resets_conversation() {
    let mut store = ConversationStore::new();
    let mut h = store.take("telegram:1");
    assert!(h.is_empty());
    push_user_text(&mut h, "hello".to_string());
    store.put("telegram:1", h);

    let h = store.take("telegram:1");
    assert_eq!(h.len(), 1);
    store.put("telegram:1", h);

    // `/clear` drops the entry; the next message starts from an empty
    // history, exactly as a brand-new conversation would.
    store.clear("telegram:1");
    let h = store.take("telegram:1");
    assert!(h.is_empty());
    store.put("telegram:1", h);
}

#[test]
fn test_store_keys_are_independent() {
    let mut store = ConversationStore::new();
    let mut h = store.take("telegram:1");
    push_user_text(&mut h, "one".to_string());
    store.put("telegram:1", h);

    let mut h2 = store.take("telegram:2");
    push_user_text(&mut h2, "two".to_string());
    push_user_text(&mut h2, "more".to_string());
    store.put("telegram:2", h2);

    store.clear("telegram:1");
    let h2 = store.take("telegram:2");
    assert_eq!(h2.len(), 2);
}
