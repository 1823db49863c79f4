use git_pluck::cache::{extract_pluck_source_sha, PluckCache};
use git_pluck::log::{
    append_trailer, build_log_branch_message, log_commit_parents, log_source_parent_index,
    trailer_for, validate_log_pluck_consistency,
};

#[test]
fn test_build_log_branch_message_format() {
    let cache = PluckCache::new();
    let msg = build_log_branch_message("mypluckname", &cache);
    assert!(msg.contains("[SOURCE:PLUCK]"));
    assert!(msg.contains("mypluckname"));
}

#[test]
fn test_build_log_branch_message_with_entries() {
    let mut cache = PluckCache::new();
    cache.add_new(
        "aaaaaaaaaaaaaaaaaaaaaaaaaaaaaaaaaaaaaaaa".to_string(),
        "bbbbbbbbbbbbbbbbbbbbbbbbbbbbbbbbbbbbbbbb".to_string(),
    );
    cache.add_new(
        "cccccccccccccccccccccccccccccccccccccccc".to_string(),
        "dddddddddddddddddddddddddddddddddddddddd".to_string(),
    );
    let msg = build_log_branch_message("test", &cache);
    assert!(msg.contains("[SOURCE:PLUCK] test"));
    assert!(msg.contains("aaaaaaaaaaaaaaaaaaaaaaaaaaaaaaaaaaaaaaaa:bbbbbbbbbbbbbbbbbbbbbbbbbbbbbbbbbbbbbbbb"));
    assert!(msg.contains("cccccccccccccccccccccccccccccccccccccccc:dddddddddddddddddddddddddddddddddddddddd"));
}

#[test]
fn test_build_log_branch_message_entries_newest_first() {
    let mut cache = PluckCache::new();
    cache.add_new("source1".to_string(), "pluck1".to_string());
    cache.add_new("source2".to_string(), "pluck2".to_string());
    let msg = build_log_branch_message("test", &cache);
    let first_pos = msg.find("source2").unwrap();
    let second_pos = msg.find("source1").unwrap();
    assert!(first_pos < second_pos, "Newest entry should appear first");
}

#[test]
fn test_get_last_plucked_source_delegates_log_branch() {
    // Reading the log branch needs a repository; the parent choice is tested below.
}

#[test]
fn test_get_last_plucked_source_delegates_log_message() {
    // Reading the pluck branch needs a repository; the trailer reading is tested below.
}

#[test]
fn build_log_branch_message_exact_text() {
    let mut cache = PluckCache::new();
    cache.add_new("s1".to_string(), "p1".to_string());
    cache.add_new("s2".to_string(), "p2".to_string());
    assert_eq!(build_log_branch_message("n", &cache), "[SOURCE:PLUCK] n\n\ns2:p2\ns1:p1\n");
}

#[test]
fn log_branch_message_round_trip() {
    let a = "a".repeat(40);
    let b = "b".repeat(40);
    let c = "c".repeat(40);
    let d = "d".repeat(40);
    let mut written = PluckCache::new();
    written.add_new(a.clone(), b.clone());
    written.add_new(c.clone(), d.clone());
    let msg = build_log_branch_message("proj", &written);
    let mut read = PluckCache::new();
    read.load_from_log_branch(&vec![msg]);
    assert_eq!(read.lookup_pluck_sha(&a), Some(&b));
    assert_eq!(read.lookup_pluck_sha(&c), Some(&d));
}

#[test]
fn log_source_parent_choice() {
    assert_eq!(log_source_parent_index(3), Some(1));
    assert_eq!(log_source_parent_index(4), Some(1));
    assert_eq!(log_source_parent_index(2), Some(0));
    assert_eq!(log_source_parent_index(1), Some(0));
    assert_eq!(log_source_parent_index(0), None);
}

#[test]
fn log_commit_parents_first_and_later_runs() {
    assert_eq!(
        log_commit_parents(None, "s".to_string(), "p".to_string()),
        vec!["s".to_string(), "s".to_string(), "p".to_string()]
    );
    assert_eq!(
        log_commit_parents(Some("l".to_string()), "s".to_string(), "p".to_string()),
        vec!["l".to_string(), "s".to_string(), "p".to_string()]
    );
}

#[test]
fn log_pluck_consistency() {
    let parents = vec!["x".to_string(), "tip".to_string()];
    assert!(validate_log_pluck_consistency(Some("tip"), Some("log"), &parents).is_ok());
    assert!(validate_log_pluck_consistency(None, Some("log"), &parents).is_ok());
    assert!(validate_log_pluck_consistency(Some("other"), None, &parents).is_ok());
    let err = validate_log_pluck_consistency(Some("other"), Some("log"), &parents).unwrap_err();
    assert_eq!(
        err.message(),
        "Log branch inconsistency: pluck tip other is not an immediate parent of log branch tip log"
    );
}

#[test]
fn trailer_text_and_round_trip() {
    let sha = "0123456789abcdef0123456789abcdef01234567";
    assert_eq!(trailer_for(sha), format!("Plucked from: {sha}"));
    let msg = append_trailer("Fix things\n\nBody", sha);
    assert_eq!(msg, format!("Fix things\n\nBody\n\nPlucked from: {sha}"));
    assert_eq!(extract_pluck_source_sha(&msg), Some(sha.to_string()));
}

#[test]
fn the_log_commit_records_the_source_where_the_next_run_reads_it() {
    for current in [None, Some("l".to_string())] {
        let parents = log_commit_parents(current, "s".to_string(), "p".to_string());
        let i = log_source_parent_index(parents.len()).unwrap();
        assert_eq!(parents[i], "s");
    }
}

#[test]
fn a_new_log_commit_passes_the_consistency_check() {
    let parents = log_commit_parents(Some("l".to_string()), "s".to_string(), "p".to_string());
    assert!(validate_log_pluck_consistency(Some("p"), Some("new"), &parents).is_ok());
}
