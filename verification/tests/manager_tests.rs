use session_desk::SessionError;
use session_desk::bridge::ClaudeManager;
use session_desk::pty::claude_shell_command;
use session_desk::pty::PtyManager;

#[test]
fn spawn_registers_fresh_session() {
    let mut m = PtyManager::new();
    let id = m.spawn("/tmp/proj", 80, 24).expect("spawn should register");
    assert!(m.write(&id).is_ok());
    let info = m.session(&id).expect("session should be registered");
    assert_eq!(info.project_path, "/tmp/proj");
    assert_eq!(info.cols, 80);
    assert_eq!(info.rows, 24);
}

#[test]
fn spawn_twice_gives_distinct_sessions() {
    let mut m = PtyManager::new();
    let a = m.spawn("/tmp/a", 80, 24).unwrap();
    let b = m.spawn("/tmp/b", 100, 30).unwrap();
    assert_ne!(a, b);
    assert!(m.write(&a).is_ok());
    assert!(m.write(&b).is_ok());
}

#[test]
fn register_rejects_duplicate_identifier() {
    let mut m = PtyManager::new();
    let id = m.register("tab-1".to_string(), "/tmp/a", 80, 24).unwrap();
    assert_eq!(id, "tab-1");
    let again = m.register("tab-1".to_string(), "/tmp/b", 10, 10);
    assert_eq!(again, Err(SessionError::SpawnFailure));
    // the original registration is untouched
    let info = m.session("tab-1").unwrap();
    assert_eq!(info.project_path, "/tmp/a");
}

#[test]
fn resize_updates_dimensions() {
    let mut m = PtyManager::new();
    let id = m.spawn("/tmp/proj", 80, 24).unwrap();
    assert!(m.resize(&id, 120, 40).is_ok());
    let info = m.session(&id).unwrap();
    assert_eq!(info.cols, 120);
    assert_eq!(info.rows, 40);
    assert_eq!(info.project_path, "/tmp/proj");
}

#[test]
fn resize_unknown_session_fails() {
    let mut m = PtyManager::new();
    let r = m.resize("no-such-session", 80, 24);
    assert_eq!(r, Err(SessionError::SessionNotFound));
}

#[test]
fn write_after_kill_fails_not_found() {
    let mut m = PtyManager::new();
    let id = m.spawn("/tmp/proj", 80, 24).unwrap();
    assert!(m.kill(&id));
    assert_eq!(m.write(&id), Err(SessionError::SessionNotFound));
}

#[test]
fn kill_is_idempotent() {
    let mut m = PtyManager::new();
    let id = m.spawn("/tmp/proj", 80, 24).unwrap();
    assert!(m.kill(&id));
    // the second kill finds nothing to remove and still succeeds
    assert!(!m.kill(&id));
    assert!(m.session(&id).is_none());
}

#[test]
fn kill_all_empties_the_registry() {
    let mut m = PtyManager::new();
    let a = m.spawn("/tmp/a", 80, 24).unwrap();
    let b = m.spawn("/tmp/b", 80, 24).unwrap();
    let c = m.spawn("/tmp/c", 80, 24).unwrap();
    let mut ids = m.kill_all();
    ids.sort();
    let mut expected = vec![a.clone(), b.clone(), c.clone()];
    expected.sort();
    assert_eq!(ids, expected);
    assert_eq!(m.write(&a), Err(SessionError::SessionNotFound));
    assert_eq!(m.write(&b), Err(SessionError::SessionNotFound));
    assert_eq!(m.write(&c), Err(SessionError::SessionNotFound));
}

#[test]
fn bridge_destroy_is_idempotent() {
    let mut m = ClaudeManager::new("/opt/bridge.mjs".to_string());
    let id = m.create_session("/tmp/proj").unwrap();
    assert!(m.destroy_session(&id));
    assert!(!m.destroy_session(&id));
    assert!(m.session(&id).is_none());
}

#[test]
fn bridge_destroy_all_empties_the_registry() {
    let mut m = ClaudeManager::new("/opt/bridge.mjs".to_string());
    let a = m.create_session("/tmp/a").unwrap();
    let b = m.create_session("/tmp/b").unwrap();
    let ids = m.destroy_all();
    assert_eq!(ids.len(), 2);
    assert!(ids.contains(&a));
    assert!(ids.contains(&b));
    assert!(m.session(&a).is_none());
    assert!(m.session(&b).is_none());
}

#[test]
fn error_messages() {
    assert_eq!(SessionError::SpawnFailure.message(), "failed to spawn session");
    assert_eq!(SessionError::SessionNotFound.message(), "session not found");
    assert_eq!(
        SessionError::WriteFailure.message(),
        "write failed: input stream closed"
    );
}

#[test]
fn shell_command_layout() {
    assert_eq!(claude_shell_command(false), vec!["cmd.exe", "/c", "agent"]);
    assert_eq!(
        claude_shell_command(true),
        vec!["cmd.exe", "/c", "agent", "--continue"]
    );
}

#[test]
fn bridge_register_rejects_duplicate_identifier() {
    let mut m = ClaudeManager::new("/opt/bridge.mjs".to_string());
    let id = m.register("tab-b".to_string(), "/tmp/a").unwrap();
    assert_eq!(id, "tab-b");
    assert_eq!(
        m.register("tab-b".to_string(), "/tmp/b"),
        Err(SessionError::SpawnFailure)
    );
    let info = m.session("tab-b").unwrap();
    assert_eq!(info.project_path, "/tmp/a");
    assert!(info.stdin_open);
    assert!(info.child_alive);
}
