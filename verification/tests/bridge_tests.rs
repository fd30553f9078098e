use session_desk::SessionError;
use session_desk::bridge::BridgeCommand;
use session_desk::bridge::ClaudeManager;
use session_desk::bridge::encode_command_line;
use session_desk::bridge::init_command_line;
use session_desk::json::JsonValue;

#[test]
fn init_command_is_the_first_line() {
    // The embedder writes this line before anything else reaches the
    // child: it must be exactly one initialize object and a newline.
    let line = init_command_line("/tmp/proj");
    assert_eq!(line, "{\"type\":\"init\",\"projectPath\":\"/tmp/proj\"}\n");
}

#[test]
fn message_line_encoding() {
    let mut m = ClaudeManager::new("/opt/bridge.mjs".to_string());
    let id = m.create_session("/tmp/proj").unwrap();
    let line = m.send_message(&id, "hello world").unwrap();
    assert_eq!(line, "{\"type\":\"message\",\"text\":\"hello world\"}\n");
}

#[test]
fn message_line_escapes_text() {
    let mut m = ClaudeManager::new("/opt/bridge.mjs".to_string());
    let id = m.create_session("/tmp/proj").unwrap();
    let line = m.send_message(&id, "say \"hi\"\nplease\\now").unwrap();
    assert_eq!(
        line,
        "{\"type\":\"message\",\"text\":\"say \\\"hi\\\"\\nplease\\\\now\"}\n"
    );
}

#[test]
fn permission_response_with_message() {
    let mut m = ClaudeManager::new("/opt/bridge.mjs".to_string());
    let id = m.create_session("/tmp/proj").unwrap();
    let line = m
        .respond_to_permission(&id, "req-1", false, Some("not now".to_string()))
        .unwrap();
    assert_eq!(
        line,
        "{\"type\":\"permission_response\",\"id\":\"req-1\",\"allowed\":false,\"message\":\"not now\"}\n"
    );
}

#[test]
fn permission_response_without_message() {
    let mut m = ClaudeManager::new("/opt/bridge.mjs".to_string());
    let id = m.create_session("/tmp/proj").unwrap();
    let line = m.respond_to_permission(&id, "req-2", true, None).unwrap();
    assert_eq!(
        line,
        "{\"type\":\"permission_response\",\"id\":\"req-2\",\"allowed\":true,\"message\":null}\n"
    );
}

#[test]
fn question_response_carries_answers() {
    let mut m = ClaudeManager::new("/opt/bridge.mjs".to_string());
    let id = m.create_session("/tmp/proj").unwrap();
    let answers = JsonValue::Arr(vec![
        JsonValue::Str("yes".to_string()),
        JsonValue::Num(2),
    ]);
    let line = m.respond_to_question(&id, "q-1", answers).unwrap();
    assert_eq!(
        line,
        "{\"type\":\"permission_response\",\"id\":\"q-1\",\"allowed\":true,\"message\":null,\"updatedInput\":{\"answers\":[\"yes\",2]}}\n"
    );
}

#[test]
fn interrupt_line_encoding() {
    let mut m = ClaudeManager::new("/opt/bridge.mjs".to_string());
    let id = m.create_session("/tmp/proj").unwrap();
    let line = m.interrupt_session(&id).unwrap();
    assert_eq!(line, "{\"type\":\"abort\"}\n");
}

#[test]
fn commands_to_unknown_session_fail_not_found() {
    let m = ClaudeManager::new("/opt/bridge.mjs".to_string());
    assert_eq!(m.send_message("nope", "x"), Err(SessionError::SessionNotFound));
    assert_eq!(m.interrupt_session("nope"), Err(SessionError::SessionNotFound));
}

#[test]
fn commands_after_reader_exit_fail_write_failure() {
    let mut m = ClaudeManager::new("/opt/bridge.mjs".to_string());
    let id = m.create_session("/tmp/proj").unwrap();
    assert!(m.on_reader_exit(&id));
    // the session still exists, but its input stream is gone
    assert!(m.session(&id).is_some());
    assert_eq!(m.send_message(&id, "late"), Err(SessionError::WriteFailure));
    assert_eq!(m.interrupt_session(&id), Err(SessionError::WriteFailure));
}

#[test]
fn commands_after_destroy_fail_not_found() {
    let mut m = ClaudeManager::new("/opt/bridge.mjs".to_string());
    let id = m.create_session("/tmp/proj").unwrap();
    assert!(m.destroy_session(&id));
    assert_eq!(m.send_message(&id, "late"), Err(SessionError::SessionNotFound));
}

#[test]
fn encode_command_line_unicode_passthrough() {
    let cmd = BridgeCommand::Message { text: "héllo — ok".to_string() };
    assert_eq!(encode_command_line(&cmd), "{\"type\":\"message\",\"text\":\"héllo — ok\"}\n");
}

#[test]
fn bridge_path_is_kept() {
    let m = ClaudeManager::new("/opt/bridge.mjs".to_string());
    assert_eq!(m.bridge_path(), "/opt/bridge.mjs");
}
