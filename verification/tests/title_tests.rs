use session_desk::title::SessionFileInfo;
use session_desk::title::build_title_generation_prompt;
use session_desk::title::clean_model_title;
use session_desk::title::collapse_whitespace;
use session_desk::title::deterministic_title_from_prompts;
use session_desk::title::enforce_max_chars;
use session_desk::title::extract_user_prompts;
use session_desk::title::is_viable_title;
use session_desk::title::normalize_compare_path;
use session_desk::title::sanitize_user_prompt_for_title;
use session_desk::title::select_session_file;
use session_desk::title::session_meta_of_lines;
use session_desk::title::strip_wrapping_quotes;
use session_desk::title::title_from_model_output;

#[test]
fn collapse_whitespace_squeezes_runs() {
    assert_eq!(collapse_whitespace("  a\t\n b  "), "a b");
    assert_eq!(collapse_whitespace(""), "");
    assert_eq!(collapse_whitespace(" \t\n "), "");
    assert_eq!(collapse_whitespace("one"), "one");
    // control characters collapse like whitespace
    assert_eq!(collapse_whitespace("a\u{7}b"), "a b");
}

#[test]
fn enforce_max_chars_cuts_with_ellipsis() {
    assert_eq!(enforce_max_chars("hello world", 20), "hello world");
    assert_eq!(enforce_max_chars("hello world", 8), "hello...");
    assert_eq!(enforce_max_chars("hello world", 2), "he");
    assert_eq!(enforce_max_chars("ab cdef", 6), "ab...");
}

#[test]
fn strip_wrapping_quotes_peels_pairs() {
    assert_eq!(strip_wrapping_quotes("\"title\""), "title");
    assert_eq!(strip_wrapping_quotes("\"'nested'\""), "nested");
    assert_eq!(strip_wrapping_quotes("`code`"), "code");
    assert_eq!(strip_wrapping_quotes("  \" padded \"  "), "padded");
    assert_eq!(strip_wrapping_quotes("'unbalanced\""), "'unbalanced\"");
    assert_eq!(strip_wrapping_quotes("\""), "\"");
}

#[test]
fn clean_model_title_takes_first_line_and_strips() {
    assert_eq!(clean_model_title("\n\n  \"Fix the Bug.\"  \nsecond line"), "Fix the Bug");
    assert_eq!(clean_model_title("Plain title"), "Plain title");
    assert_eq!(clean_model_title("Title::;."), "Title");
    assert_eq!(clean_model_title("   "), "");
}

#[test]
fn viable_titles() {
    assert!(is_viable_title("ok title"));
    assert!(is_viable_title(" a1 "));
    assert!(!is_viable_title("a"));
    assert!(!is_viable_title("!!"));
    assert!(!is_viable_title(""));
}

#[test]
fn sanitize_rejects_noise() {
    assert_eq!(sanitize_user_prompt_for_title("fix the tests"), Some("fix the tests".to_string()));
    assert_eq!(sanitize_user_prompt_for_title("  "), None);
    assert_eq!(sanitize_user_prompt_for_title("<environment_context>stuff"), None);
    assert_eq!(sanitize_user_prompt_for_title("<ENVIRONMENT_CONTEXT> x"), None);
    assert_eq!(sanitize_user_prompt_for_title("<turn_aborted>"), None);
    assert_eq!(sanitize_user_prompt_for_title("# AGENTS.md instructions here"), None);
    assert_eq!(sanitize_user_prompt_for_title("see <instructions> within"), None);
    assert_eq!(sanitize_user_prompt_for_title("<tag>body</tag>"), None);
    // an angle bracket alone is not noise
    assert_eq!(sanitize_user_prompt_for_title("a < b"), Some("a < b".to_string()));
}

#[test]
fn deterministic_title_combines_prompts() {
    let prompts = vec!["newest ask".to_string(), "older ask".to_string()];
    assert_eq!(
        deterministic_title_from_prompts(&prompts, 40),
        Some("newest ask older ask".to_string())
    );
    assert_eq!(deterministic_title_from_prompts(&Vec::new(), 40), None);
    assert_eq!(
        deterministic_title_from_prompts(&vec!["   ".to_string()], 40),
        None
    );
    // long input is cut with an ellipsis
    let long = vec!["a very long prompt that keeps going".to_string()];
    assert_eq!(deterministic_title_from_prompts(&long, 10), Some("a very...".to_string()));
}

#[test]
fn title_prompt_layout() {
    let prompts = vec!["do the thing".to_string()];
    let p = build_title_generation_prompt(&prompts, 60);
    assert_eq!(
        p,
        "Generate a brief terminal tab title for this user prompt. Rules: output ONLY the title, no quotes, no prefixes, no explanation. Use 2-5 words. Maximum 60 characters.\n\nUser prompt: do the thing"
    );
    let empty = build_title_generation_prompt(&Vec::new(), 8);
    assert!(empty.ends_with("User prompt: "));
}

#[test]
fn normalize_compare_path_unifies_separators() {
    assert_eq!(normalize_compare_path("  C:\\proj\\x\\  "), "C:/proj/x");
    assert_eq!(normalize_compare_path("/home/me/proj///"), "/home/me/proj");
    assert_eq!(normalize_compare_path("plain"), "plain");
}

#[test]
fn model_output_is_judged() {
    assert_eq!(
        title_from_model_output("  \"Fix Parser Bug.\"\n", 30),
        Some("Fix Parser Bug".to_string())
    );
    assert_eq!(title_from_model_output("", 30), None);
    assert_eq!(title_from_model_output("...", 30), None);
}

#[test]
fn session_meta_reads_first_meta_record() {
    let lines = vec![
        "{\"type\":\"other\"}".to_string(),
        "{\"type\":\"session_meta\",\"payload\":{\"cwd\":\"/tmp/proj\",\"timestamp\":\"2024-01-01T00:00:00Z\"}}"
            .to_string(),
    ];
    let meta = session_meta_of_lines(&lines).expect("meta should parse");
    assert_eq!(meta.0, "/tmp/proj");
    assert_eq!(meta.1, 1704067200000);
}

#[test]
fn session_meta_requires_fields() {
    let lines = vec!["{\"type\":\"session_meta\",\"payload\":{\"cwd\":\"/x\"}}".to_string()];
    assert_eq!(session_meta_of_lines(&lines), None);
    assert_eq!(session_meta_of_lines(&Vec::new()), None);
}

fn prompt_line(ts: &str, text: &str) -> String {
    format!(
        "{{\"type\":\"response_item\",\"timestamp\":\"{}\",\"payload\":{{\"type\":\"message\",\"role\":\"user\",\"content\":[{{\"type\":\"input_text\",\"text\":\"{}\"}}]}}}}",
        ts, text
    )
}

#[test]
fn user_prompts_are_filtered_and_newest_first() {
    let spawned = 1704067200000i64;  // 2024-01-01T00:00:00Z
    let lines = vec![
        prompt_line("2023-12-31T23:59:00Z", "too early"),
        prompt_line("2024-01-01T00:01:00Z", "first"),
        "{\"type\":\"response_item\",\"timestamp\":\"2024-01-01T00:02:00Z\",\"payload\":{\"type\":\"message\",\"role\":\"assistant\",\"content\":\"not a user\"}}".to_string(),
        prompt_line("2024-01-01T00:03:00Z", "second"),
        prompt_line("2024-01-01T00:04:00Z", "third"),
    ];
    let prompts = extract_user_prompts(&lines, spawned, 2);
    assert_eq!(prompts, vec!["third".to_string(), "second".to_string()]);
}

#[test]
fn select_prefers_sessions_started_after_spawn() {
    let spawned = 1000i64;
    let files = vec![
        SessionFileInfo {
            path: "a.jsonl".to_string(),
            cwd: "/p".to_string(),
            started_ms: 2000,
            mtime_ms: Some(2500),
        },
        SessionFileInfo {
            path: "b.jsonl".to_string(),
            cwd: "/p".to_string(),
            started_ms: 1500,
            mtime_ms: Some(3000),
        },
        SessionFileInfo {
            path: "other.jsonl".to_string(),
            cwd: "/q".to_string(),
            started_ms: 1200,
            mtime_ms: Some(1300),
        },
    ];
    assert_eq!(select_session_file(&files, "/p", spawned), Some("b.jsonl".to_string()));
}

#[test]
fn select_falls_back_to_modification_time() {
    let spawned = 1000i64;
    let files = vec![
        SessionFileInfo {
            path: "old-started.jsonl".to_string(),
            cwd: "/p/".to_string(),
            started_ms: 500,
            mtime_ms: Some(1200),
        },
        SessionFileInfo {
            path: "stale.jsonl".to_string(),
            cwd: "/p".to_string(),
            started_ms: 400,
            mtime_ms: Some(900),
        },
    ];
    // the working directory is compared in normalized form
    assert_eq!(
        select_session_file(&files, "/p", spawned),
        Some("old-started.jsonl".to_string())
    );
    assert_eq!(select_session_file(&files, "/elsewhere", spawned), None);
}

#[test]
fn select_keeps_first_of_equal_candidates() {
    let spawned = 1000i64;
    let files = vec![
        SessionFileInfo {
            path: "first.jsonl".to_string(),
            cwd: "/p".to_string(),
            started_ms: 2000,
            mtime_ms: None,
        },
        SessionFileInfo {
            path: "second.jsonl".to_string(),
            cwd: "/p".to_string(),
            started_ms: 2000,
            mtime_ms: None,
        },
    ];
    assert_eq!(select_session_file(&files, "/p", spawned), Some("first.jsonl".to_string()));
}
