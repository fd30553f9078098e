use session_desk::dirtree::FileTreeEntry;
use session_desk::dirtree::is_hardcoded_skip;
use session_desk::dirtree::organize_directory_entries;

fn entry(name: &str, path: &str, is_dir: bool) -> FileTreeEntry {
    FileTreeEntry {
        name: name.to_string(),
        path: path.to_string(),
        full_path: format!("/proj/{}", path),
        is_dir,
    }
}

#[test]
fn skip_list_membership() {
    assert!(is_hardcoded_skip(&"node_modules".to_string()));
    assert!(is_hardcoded_skip(&".git".to_string()));
    assert!(is_hardcoded_skip(&"Thumbs.db".to_string()));
    assert!(!is_hardcoded_skip(&"src".to_string()));
    assert!(!is_hardcoded_skip(&"Node_modules".to_string()));
}

#[test]
fn organize_orders_dirs_first_case_insensitively() {
    let entries = vec![
        entry("zeta.rs", "zeta.rs", false),
        entry("Alpha", "Alpha", true),
        entry("beta.rs", "beta.rs", false),
        entry("gamma", "gamma", true),
        entry("Beta.rs", "Beta.rs", false),
    ];
    let r = organize_directory_entries(&entries, false, &Vec::new());
    let names: Vec<&str> = r.iter().map(|e| e.name.as_str()).collect();
    assert_eq!(names, vec!["Alpha", "gamma", "beta.rs", "Beta.rs", "zeta.rs"]);
    assert!(r[0].is_dir && r[1].is_dir);
    assert!(!r[2].is_dir && !r[3].is_dir && !r[4].is_dir);
}

#[test]
fn organize_drops_skip_list_names() {
    let entries = vec![
        entry("src", "src", true),
        entry("node_modules", "node_modules", true),
        entry(".git", ".git", true),
        entry("main.rs", "main.rs", false),
        entry(".DS_Store", ".DS_Store", false),
    ];
    let r = organize_directory_entries(&entries, false, &Vec::new());
    let names: Vec<&str> = r.iter().map(|e| e.name.as_str()).collect();
    assert_eq!(names, vec!["src", "main.rs"]);
}

#[test]
fn organize_honours_git_ignored_paths() {
    let entries = vec![
        entry("kept.rs", "kept.rs", false),
        entry("gen.rs", "gen/gen.rs", false),
        entry("also-kept", "also-kept", true),
    ];
    let ignored = vec!["gen/gen.rs".to_string()];
    let r = organize_directory_entries(&entries, true, &ignored);
    let names: Vec<&str> = r.iter().map(|e| e.name.as_str()).collect();
    assert_eq!(names, vec!["also-kept", "kept.rs"]);
    // outside a git repository the ignore list does not apply
    let r2 = organize_directory_entries(&entries, false, &ignored);
    assert_eq!(r2.len(), 3);
}
