use session_desk::git::DiffStat;
use session_desk::git::GitFileEntry;
use session_desk::git::count_lines;
use session_desk::git::parse_numstat;
use session_desk::git::parse_porcelain;
use session_desk::git::partition_file_entries;
use session_desk::git::synthetic_diff;

fn entry(path: &str, status: &str, staged: bool) -> GitFileEntry {
    GitFileEntry { path: path.to_string(), status: status.to_string(), staged }
}

#[test]
fn porcelain_basic_statuses() {
    let out = " M src/main.rs\n?? new.txt\nA  added.rs\n";
    let files = parse_porcelain(out);
    assert_eq!(
        files,
        vec![
            entry("src/main.rs", "M", false),
            entry("new.txt", "?", false),
            entry("added.rs", "A", true),
        ]
    );
}

#[test]
fn porcelain_both_staged_and_unstaged() {
    let files = parse_porcelain("MM both.rs\n");
    assert_eq!(files, vec![entry("both.rs", "M", true), entry("both.rs", "M", false)]);
}

#[test]
fn porcelain_rename_keeps_target() {
    let files = parse_porcelain("R  old.txt -> new.txt\n");
    assert_eq!(files, vec![entry("new.txt", "R", true)]);
}

#[test]
fn porcelain_short_lines_are_skipped() {
    assert_eq!(parse_porcelain("x\n\nM \n"), Vec::<GitFileEntry>::new());
}

#[test]
fn numstat_parses_counts_and_binary_dashes() {
    let stats = parse_numstat("3\t1\tsrc/a.rs\n-\t-\tassets/logo.png\n");
    assert_eq!(
        stats,
        vec![
            DiffStat { path: "src/a.rs".to_string(), insertions: 3, deletions: 1 },
            DiffStat { path: "assets/logo.png".to_string(), insertions: 0, deletions: 0 },
        ]
    );
}

#[test]
fn numstat_ignores_short_lines() {
    assert_eq!(parse_numstat("3\t1\n\n"), Vec::<DiffStat>::new());
}

#[test]
fn partition_groups_files() {
    let files = vec![
        entry("u.txt", "?", false),
        entry("s.rs", "M", true),
        entry("w.rs", "M", false),
        entry("u2.txt", "?", false),
    ];
    let (untracked, staged, unstaged) = partition_file_entries(&files);
    assert_eq!(untracked, vec![entry("u.txt", "?", false), entry("u2.txt", "?", false)]);
    assert_eq!(staged, vec![entry("s.rs", "M", true)]);
    assert_eq!(unstaged, vec![entry("w.rs", "M", false)]);
}

#[test]
fn synthetic_diff_for_untracked_file() {
    let diff = synthetic_diff("notes.txt", "first\nsecond\n");
    assert_eq!(
        diff,
        "--- /dev/null\n+++ b/notes.txt\n@@ -0,0 +1,2 @@\n+first\n+second\n"
    );
}

#[test]
fn synthetic_diff_empty_file() {
    assert_eq!(
        synthetic_diff("empty.txt", ""),
        "--- /dev/null\n+++ b/empty.txt\n@@ -0,0 +1,0 @@\n"
    );
}

#[test]
fn count_lines_counts_like_lines() {
    assert_eq!(count_lines(""), 0);
    assert_eq!(count_lines("a"), 1);
    assert_eq!(count_lines("a\nb"), 2);
    assert_eq!(count_lines("a\nb\n"), 2);
    assert_eq!(count_lines("a\r\nb\r\n"), 2);
}

#[test]
fn numstat_count_edge_cases() {
    // a leading plus sign parses; an overflowing count reads as zero
    let stats = parse_numstat("+3\t4294967295\ta\n99999999999\t0\tb\n");
    assert_eq!(
        stats,
        vec![
            DiffStat { path: "a".to_string(), insertions: 3, deletions: 4294967295 },
            DiffStat { path: "b".to_string(), insertions: 0, deletions: 0 },
        ]
    );
}

#[test]
fn numstat_extra_fields_keep_third() {
    let stats = parse_numstat("1\t2\tpath\twith\ttabs\n");
    assert_eq!(
        stats,
        vec![DiffStat { path: "path".to_string(), insertions: 1, deletions: 2 }]
    );
}

#[test]
fn synthetic_diff_keeps_unterminated_carriage_return() {
    // a carriage return is stripped only as part of a CRLF ending
    assert_eq!(
        synthetic_diff("f", "a\r\n"),
        "--- /dev/null\n+++ b/f\n@@ -0,0 +1,1 @@\n+a\n"
    );
    assert_eq!(
        synthetic_diff("f", "a\r"),
        "--- /dev/null\n+++ b/f\n@@ -0,0 +1,1 @@\n+a\r\n"
    );
}
