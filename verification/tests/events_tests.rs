use session_desk::bridge::BridgeRelay;
use session_desk::events::ClaudeEvent;
use session_desk::json::JsonValue;

fn event_of(line: &str) -> Option<ClaudeEvent> {
    let mut relay = BridgeRelay::new();
    relay.on_line(line)
}

#[test]
fn ready_and_stream_markers() {
    assert_eq!(event_of("{\"type\":\"ready\"}"), Some(ClaudeEvent::Ready));
    assert_eq!(event_of("{\"type\":\"message_start\"}"), Some(ClaudeEvent::MessageStart));
    assert_eq!(event_of("{\"type\":\"message_stop\"}"), Some(ClaudeEvent::MessageStop));
}

#[test]
fn system_event() {
    let e = event_of("{\"type\":\"system\",\"session_id\":\"s-1\",\"model\":\"m-1\"}");
    assert_eq!(
        e,
        Some(ClaudeEvent::System { session_id: "s-1".to_string(), model: "m-1".to_string() })
    );
    // missing fields read as empty
    let e2 = event_of("{\"type\":\"system\"}");
    assert_eq!(
        e2,
        Some(ClaudeEvent::System { session_id: String::new(), model: String::new() })
    );
}

#[test]
fn text_and_thinking_events() {
    assert_eq!(
        event_of("{\"type\":\"text\",\"text\":\"hello\"}"),
        Some(ClaudeEvent::Text { text: "hello".to_string() })
    );
    assert_eq!(
        event_of("{\"type\":\"thinking\",\"text\":\"hmm\"}"),
        Some(ClaudeEvent::Thinking { text: "hmm".to_string() })
    );
}

#[test]
fn tool_use_event_keeps_input_tree() {
    let e = event_of(
        "{\"type\":\"tool_use\",\"id\":\"t1\",\"name\":\"bash\",\"input\":{\"cmd\":\"ls\",\"n\":3}}",
    );
    match e {
        Some(ClaudeEvent::ToolUse { id, name, input }) => {
            assert_eq!(id, "t1");
            assert_eq!(name, "bash");
            assert_eq!(
                input,
                JsonValue::Obj(vec![
                    ("cmd".to_string(), JsonValue::Str("ls".to_string())),
                    ("n".to_string(), JsonValue::Num(3)),
                ])
            );
        },
        other => panic!("expected tool_use, got {:?}", other),
    }
}

#[test]
fn tool_use_without_input_reads_null() {
    let e = event_of("{\"type\":\"tool_use\",\"id\":\"t1\",\"name\":\"bash\"}");
    match e {
        Some(ClaudeEvent::ToolUse { input, .. }) => assert_eq!(input, JsonValue::Null),
        other => panic!("expected tool_use, got {:?}", other),
    }
}

#[test]
fn tool_result_event() {
    let e = event_of(
        "{\"type\":\"tool_result\",\"tool_use_id\":\"t1\",\"content\":\"done\",\"is_error\":true}",
    );
    assert_eq!(
        e,
        Some(ClaudeEvent::ToolResult {
            tool_use_id: "t1".to_string(),
            content: "done".to_string(),
            is_error: true,
        })
    );
}

#[test]
fn permission_request_event() {
    let e = event_of(
        "{\"type\":\"permission_request\",\"id\":\"p1\",\"tool\":\"write\",\"input\":{\"f\":\"x\"},\"description\":\"write x\"}",
    );
    match e {
        Some(ClaudeEvent::PermissionRequest { id, tool, input, description }) => {
            assert_eq!(id, "p1");
            assert_eq!(tool, "write");
            assert_eq!(description, "write x");
            assert_eq!(
                input,
                JsonValue::Obj(vec![("f".to_string(), JsonValue::Str("x".to_string()))])
            );
        },
        other => panic!("expected permission_request, got {:?}", other),
    }
}

#[test]
fn user_question_event_default_questions() {
    let e = event_of("{\"type\":\"user_question\",\"id\":\"q1\"}");
    assert_eq!(
        e,
        Some(ClaudeEvent::UserQuestion { id: "q1".to_string(), questions: JsonValue::Arr(vec![]) })
    );
}

#[test]
fn result_event_with_model_usage() {
    let e = event_of(
        "{\"type\":\"result\",\"subtype\":\"success\",\"duration_ms\":1234,\"is_error\":false,\"num_turns\":2,\"session_id\":\"s9\",\"model_usage\":{\"some-model\":{\"inputTokens\":10,\"outputTokens\":20,\"cacheReadInputTokens\":1,\"cacheCreationInputTokens\":2,\"contextWindow\":200000}}}",
    );
    match e {
        Some(ClaudeEvent::Result { subtype, duration_ms, is_error, num_turns, session_id, model_usage }) => {
            assert_eq!(subtype, "success");
            assert_eq!(duration_ms, 1234);
            assert!(!is_error);
            assert_eq!(num_turns, 2);
            assert_eq!(session_id, "s9");
            let mu = model_usage.expect("usage should be present");
            assert_eq!(mu.model, "some-model");
            assert_eq!(mu.input_tokens, 10);
            assert_eq!(mu.output_tokens, 20);
            assert_eq!(mu.cache_read_input_tokens, 1);
            assert_eq!(mu.cache_creation_input_tokens, 2);
            assert_eq!(mu.context_window, 200000);
        },
        other => panic!("expected result, got {:?}", other),
    }
}

#[test]
fn result_event_snake_case_usage_and_defaults() {
    let e = event_of(
        "{\"type\":\"result\",\"model_usage\":{\"m\":{\"input_tokens\":7,\"output_tokens\":8,\"cache_read_input_tokens\":0,\"cache_creation_input_tokens\":0,\"context_window\":1000}}}",
    );
    match e {
        Some(ClaudeEvent::Result { subtype, duration_ms, is_error, num_turns, session_id, model_usage }) => {
            // absent fields fall back to their defaults
            assert_eq!(subtype, "success");
            assert_eq!(duration_ms, 0);
            assert!(!is_error);
            assert_eq!(num_turns, 0);
            assert_eq!(session_id, "");
            let mu = model_usage.unwrap();
            assert_eq!(mu.input_tokens, 7);
            assert_eq!(mu.output_tokens, 8);
        },
        other => panic!("expected result, got {:?}", other),
    }
}

#[test]
fn result_event_without_usage() {
    let e = event_of("{\"type\":\"result\",\"subtype\":\"aborted\"}");
    match e {
        Some(ClaudeEvent::Result { subtype, model_usage, .. }) => {
            assert_eq!(subtype, "aborted");
            assert!(model_usage.is_none());
        },
        other => panic!("expected result, got {:?}", other),
    }
}

#[test]
fn error_event_and_default_message() {
    assert_eq!(
        event_of("{\"type\":\"error\",\"message\":\"boom\"}"),
        Some(ClaudeEvent::Error { message: "boom".to_string() })
    );
    assert_eq!(
        event_of("{\"type\":\"error\"}"),
        Some(ClaudeEvent::Error { message: "Unknown error".to_string() })
    );
}

#[test]
fn non_object_and_typeless_lines_yield_nothing() {
    assert_eq!(event_of("42"), None);
    assert_eq!(event_of("[1,2,3]"), None);
    assert_eq!(event_of("{\"no_type\":true}"), None);
    assert_eq!(event_of("{\"type\":7}"), None);
}
