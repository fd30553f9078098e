use session_desk::conversation::ConversationMessage;
use session_desk::conversation::encode_project_dir;
use session_desk::conversation::extract_conversation;

fn msg(uuid: &str, role: &str, text: &str, timestamp: &str) -> ConversationMessage {
    ConversationMessage {
        uuid: uuid.to_string(),
        role: role.to_string(),
        text: text.to_string(),
        timestamp: timestamp.to_string(),
    }
}

#[test]
fn encode_project_dir_hyphenates() {
    assert_eq!(encode_project_dir("/tmp/my proj"), "-tmp-my-proj");
    assert_eq!(encode_project_dir("C:\\work\\x_1"), "C--work-x-1");
    assert_eq!(encode_project_dir("abc123"), "abc123");
}

#[test]
fn user_and_assistant_messages_are_extracted() {
    let content = "{\"type\":\"user\",\"uuid\":\"u1\",\"timestamp\":\"t1\",\"message\":{\"content\":\"hello\"}}\n{\"type\":\"assistant\",\"timestamp\":\"t2\",\"message\":{\"id\":\"a1\",\"content\":[{\"type\":\"text\",\"text\":\"hi\"},{\"type\":\"tool_use\"},{\"type\":\"text\",\"text\":\"there\"}]}}\n";
    let messages = extract_conversation(content);
    assert_eq!(
        messages,
        vec![
            msg("u1", "human", "hello", "t1"),
            msg("a1", "assistant", "hi\n\nthere", "t2"),
        ]
    );
}

#[test]
fn sidechain_meta_and_other_records_are_skipped() {
    let content = "{\"type\":\"summary\"}\n{\"type\":\"user\",\"uuid\":\"u1\",\"isSidechain\":true,\"message\":{\"content\":\"side\"}}\n{\"type\":\"user\",\"uuid\":\"u2\",\"isMeta\":true,\"message\":{\"content\":\"meta\"}}\nnot json\n\n{\"type\":\"user\",\"uuid\":\"u3\",\"message\":{\"content\":\"kept\"}}\n";
    let messages = extract_conversation(content);
    assert_eq!(messages, vec![msg("u3", "human", "kept", "")]);
}

#[test]
fn records_without_identifier_or_text_are_skipped() {
    let content = "{\"type\":\"user\",\"message\":{\"content\":\"no id\"}}\n{\"type\":\"user\",\"uuid\":\"u1\",\"message\":{\"content\":\"\"}}\n{\"type\":\"user\",\"uuid\":\"u2\",\"message\":{}}\n";
    assert_eq!(extract_conversation(content), Vec::<ConversationMessage>::new());
}

#[test]
fn duplicate_identifiers_keep_last_record_in_first_position() {
    let content = "{\"type\":\"user\",\"uuid\":\"u1\",\"message\":{\"content\":\"draft\"}}\n{\"type\":\"user\",\"uuid\":\"u2\",\"message\":{\"content\":\"between\"}}\n{\"type\":\"user\",\"uuid\":\"u1\",\"message\":{\"content\":\"final\"}}\n";
    let messages = extract_conversation(content);
    assert_eq!(
        messages,
        vec![msg("u1", "human", "final", ""), msg("u2", "human", "between", "")]
    );
}

#[test]
fn assistant_content_with_bare_strings() {
    let content =
        "{\"type\":\"assistant\",\"message\":{\"id\":\"a1\",\"content\":[\"alpha\",{\"x\":1},\"beta\"]}}\n";
    let messages = extract_conversation(content);
    assert_eq!(messages, vec![msg("a1", "assistant", "alpha\n\nbeta", "")]);
}
