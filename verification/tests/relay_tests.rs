use session_desk::bridge::BridgeRelay;
use session_desk::events::ClaudeEvent;
use session_desk::pty::PtyOutputEvent;
use session_desk::pty::PtyRelay;

#[test]
fn chunks_are_forwarded_in_order() {
    let mut r = PtyRelay::new();
    let a = r.on_chunk(b"A".to_vec());
    let b = r.on_chunk(b"B".to_vec());
    assert_eq!(a, Some(PtyOutputEvent::Data(b"A".to_vec())));
    assert_eq!(b, Some(PtyOutputEvent::Data(b"B".to_vec())));
}

#[test]
fn empty_chunks_are_dropped() {
    let mut r = PtyRelay::new();
    assert_eq!(r.on_chunk(Vec::new()), None);
    assert_eq!(r.on_chunk(b"x".to_vec()), Some(PtyOutputEvent::Data(b"x".to_vec())));
}

#[test]
fn exactly_one_exit_event() {
    let mut r = PtyRelay::new();
    assert!(r.on_chunk(b"echo hi\n".to_vec()).is_some());
    assert_eq!(r.on_eof(Some(0)), Some(PtyOutputEvent::Exit(Some(0))));
    // nothing follows the exit event
    assert_eq!(r.on_eof(Some(0)), None);
    assert_eq!(r.on_eof(None), None);
    assert_eq!(r.on_chunk(b"late".to_vec()), None);
}

#[test]
fn terminal_session_output_stream() {
    // A terminal session that echoes and exits: the data events arrive in
    // order and the exit event comes last.
    let mut r = PtyRelay::new();
    let first = r.on_chunk(b"echo hi\r\n".to_vec());
    let second = r.on_chunk(b"hi\r\n".to_vec());
    let exit = r.on_eof(Some(0));
    match first {
        Some(PtyOutputEvent::Data(d)) => assert_eq!(d, b"echo hi\r\n".to_vec()),
        other => panic!("expected a data event, got {:?}", other),
    }
    match second {
        Some(PtyOutputEvent::Data(d)) => {
            let text = String::from_utf8(d).unwrap();
            assert!(text.contains("hi"));
        },
        other => panic!("expected a data event, got {:?}", other),
    }
    assert_eq!(exit, Some(PtyOutputEvent::Exit(Some(0))));
}

#[test]
fn exit_without_status() {
    let mut r = PtyRelay::new();
    assert_eq!(r.on_eof(None), Some(PtyOutputEvent::Exit(None)));
}

#[test]
fn bridge_relay_parses_lines_in_order() {
    let mut r = BridgeRelay::new();
    let a = r.on_line("{\"type\":\"text\",\"text\":\"one\"}");
    let b = r.on_line("{\"type\":\"text\",\"text\":\"two\"}");
    assert_eq!(a, Some(ClaudeEvent::Text { text: "one".to_string() }));
    assert_eq!(b, Some(ClaudeEvent::Text { text: "two".to_string() }));
}

#[test]
fn bridge_relay_drops_blank_and_malformed_lines() {
    let mut r = BridgeRelay::new();
    assert_eq!(r.on_line(""), None);
    assert_eq!(r.on_line("   \t "), None);
    assert_eq!(r.on_line("not json at all"), None);
    assert_eq!(r.on_line("{\"type\":"), None);
    // an unknown discriminator is ignored without error
    assert_eq!(r.on_line("{\"type\":\"future_thing\",\"x\":1}"), None);
    // and the relay still works afterwards
    assert_eq!(r.on_line("{\"type\":\"ready\"}"), Some(ClaudeEvent::Ready));
}

#[test]
fn bridge_relay_trims_line_endings() {
    let mut r = BridgeRelay::new();
    assert_eq!(
        r.on_line("  {\"type\":\"ready\"}\r"),
        Some(ClaudeEvent::Ready)
    );
}
