use git_pluck::cache::{extract_pluck_source_sha, is_sha_pair, PluckCache};

#[test]
fn test_is_sha_pair_valid() {
    assert!(is_sha_pair("aaaaaaaaaaaaaaaaaaaaaaaaaaaaaaaaaaaaaaaa:bbbbbbbbbbbbbbbbbbbbbbbbbbbbbbbbbbbbbbbb"));
}

#[test]
fn test_is_sha_pair_lowercase_hex() {
    assert!(is_sha_pair("abcdef0123456789abcdef0123456789abcdef01:abcdef0123456789abcdef0123456789abcdef01"));
}

#[test]
fn test_is_sha_pair_uppercase_hex() {
    assert!(is_sha_pair("ABCDEF0123456789ABCDEF0123456789ABCDEF01:ABCDEF0123456789ABCDEF0123456789ABCDEF01"));
}

#[test]
fn test_is_sha_pair_too_short() {
    assert!(!is_sha_pair("aaaaa:bbbbb"));
}

#[test]
fn test_is_sha_pair_too_long() {
    assert!(!is_sha_pair("aaaaaaaaaaaaaaaaaaaaaaaaaaaaaaaaaaaaaaaaa:bbbbbbbbbbbbbbbbbbbbbbbbbbbbbbbbbbbbbbbb"));
}

#[test]
fn test_is_sha_pair_non_hex() {
    assert!(!is_sha_pair("zzzzzzzzzzzzzzzzzzzzzzzzzzzzzzzzzzzzzzzz:bbbbbbbbbbbbbbbbbbbbbbbbbbbbbbbbbbbbbbbb"));
}

#[test]
fn test_is_sha_pair_missing_colon() {
    assert!(!is_sha_pair("aaaaaaaaaaaaaaaaaaaaaaaaaaaaaaaaaaaaaaaabbbbbbbbbbbbbbbbbbbbbbbbbbbbbbbbbbbbbbbb"));
}

#[test]
fn test_is_sha_pair_extra_colon() {
    assert!(!is_sha_pair("aaaaaaaaaaaaaaaaaaaaaaaaaaaaaaaaaaaaaaaa:bbbb:cccc"));
}

#[test]
fn test_is_sha_pair_empty() {
    assert!(!is_sha_pair(""));
}

#[test]
fn test_is_sha_pair_empty_parts() {
    assert!(!is_sha_pair(":"));
    assert!(!is_sha_pair("aaaaaa:"));
    assert!(!is_sha_pair(":bbbbbb"));
}

#[test]
fn test_extract_pluck_source_sha_valid() {
    let sha = "aaaaaaaaaaaaaaaaaaaaaaaaaaaaaaaaaaaaaaaa";
    let msg = format!("Some commit message\n\nPlucked from: {}", sha);
    assert_eq!(extract_pluck_source_sha(&msg), Some(sha.to_string()));
}

#[test]
fn test_extract_pluck_source_sha_only_trailer() {
    let sha = "bbbbbbbbbbbbbbbbbbbbbbbbbbbbbbbbbbbbbbbb";
    let msg = format!("Plucked from: {}", sha);
    assert_eq!(extract_pluck_source_sha(&msg), Some(sha.to_string()));
}

#[test]
fn test_extract_pluck_source_sha_with_other_trailers() {
    let sha = "cccccccccccccccccccccccccccccccccccccccc";
    let msg = format!("Commit message\n\nSome-Other: value\nPlucked from: {}\nAnother: stuff", sha);
    assert_eq!(extract_pluck_source_sha(&msg), Some(sha.to_string()));
}

#[test]
fn test_extract_pluck_source_sha_missing() {
    let msg = "Just a regular commit message\n\nNo trailers here";
    assert!(extract_pluck_source_sha(msg).is_none());
}

#[test]
fn test_extract_pluck_source_sha_invalid_sha() {
    let msg = "Plucked from: not-a-valid-sha";
    assert!(extract_pluck_source_sha(msg).is_none());
}

#[test]
fn test_extract_pluck_source_sha_too_short() {
    let msg = "Plucked from: aaaa";
    assert!(extract_pluck_source_sha(msg).is_none());
}

#[test]
fn test_extract_pluck_source_sha_last_wins() {
    let sha1 = "aaaaaaaaaaaaaaaaaaaaaaaaaaaaaaaaaaaaaaaa";
    let sha2 = "bbbbbbbbbbbbbbbbbbbbbbbbbbbbbbbbbbbbbbbb";
    let msg = format!("Message\n\nPlucked from: {sha1}\nPlucked from: {sha2}");
    assert_eq!(extract_pluck_source_sha(&msg), Some(sha2.to_string()));
}

#[test]
fn test_pluck_cache_new() {
    let cache = PluckCache::new();
    assert!(cache.preload.is_empty());
    assert!(cache.new_entries.is_empty());
}

#[test]
fn test_pluck_cache_add_new_prepend() {
    let mut cache = PluckCache::new();
    cache.add_new("source1".to_string(), "pluck1".to_string());
    cache.add_new("source2".to_string(), "pluck2".to_string());

    assert_eq!(cache.new_entries.len(), 2);
    assert_eq!(cache.new_entries[0], ("source2".to_string(), "pluck2".to_string()));
    assert_eq!(cache.new_entries[1], ("source1".to_string(), "pluck1".to_string()));

    assert_eq!(cache.preload.get("source1"), Some(&"pluck1".to_string()));
    assert_eq!(cache.preload.get("source2"), Some(&"pluck2".to_string()));
}

#[test]
fn test_pluck_cache_lookup_pluck_sha() {
    let mut cache = PluckCache::new();
    cache.preload.insert("source1".to_string(), "pluck1".to_string());
    cache.preload.insert("source2".to_string(), "pluck2".to_string());

    assert_eq!(cache.lookup_pluck_sha("source1"), Some(&"pluck1".to_string()));
    assert_eq!(cache.lookup_pluck_sha("source2"), Some(&"pluck2".to_string()));
    assert!(cache.lookup_pluck_sha("nonexistent").is_none());
}

#[test]
fn test_pluck_cache_lookup_source_sha() {
    let mut cache = PluckCache::new();
    cache.preload.insert("source1".to_string(), "pluck1".to_string());
    cache.preload.insert("source2".to_string(), "pluck2".to_string());

    assert_eq!(cache.lookup_source_sha("pluck1"), Some(&"source1".to_string()));
    assert_eq!(cache.lookup_source_sha("pluck2"), Some(&"source2".to_string()));
    assert!(cache.lookup_source_sha("nonexistent").is_none());
}

#[test]
fn test_pluck_cache_lookup_source_sha_empty() {
    let cache = PluckCache::new();
    assert!(cache.lookup_source_sha("anything").is_none());
}

// -- reading the log back --

#[test]
fn load_from_log_branch_reads_pairs_of_every_message() {
    let a = "a".repeat(40);
    let b = "b".repeat(40);
    let c = "c".repeat(40);
    let d = "d".repeat(40);
    let mut cache = PluckCache::new();
    let messages = vec![
        format!("[SOURCE:PLUCK] name\n\n{a}:{b}\n  not a pair\n"),
        format!("[SOURCE:PLUCK] name\n\n  {c}:{d}  \n"),
    ];
    cache.load_from_log_branch(&messages);
    assert_eq!(cache.lookup_pluck_sha(&a), Some(&b));
    assert_eq!(cache.lookup_pluck_sha(&c), Some(&d));
    assert!(cache.lookup_pluck_sha("not a pair").is_none());
}

#[test]
fn load_from_log_branch_later_message_wins() {
    let a = "a".repeat(40);
    let b = "b".repeat(40);
    let c = "c".repeat(40);
    let mut cache = PluckCache::new();
    let messages = vec![format!("{a}:{b}\n"), format!("{a}:{c}\n")];
    cache.load_from_log_branch(&messages);
    assert_eq!(cache.lookup_pluck_sha(&a), Some(&c));
}

#[test]
fn load_from_log_message_maps_trailer_to_commit() {
    let src = "e".repeat(40);
    let mut cache = PluckCache::new();
    let log = vec![("p1".to_string(), format!("Subject\n\nPlucked from: {src}"))];
    assert!(cache.load_from_log_message(&log, false).is_ok());
    assert_eq!(cache.lookup_pluck_sha(&src), Some(&"p1".to_string()));
    assert_eq!(cache.lookup_source_sha("p1"), Some(&src));
}

#[test]
fn load_from_log_message_missing_trailer_fails_unless_forced() {
    let src = "e".repeat(40);
    let log = vec![
        ("p1".to_string(), format!("Plucked from: {src}")),
        ("p2".to_string(), "no trailer".to_string()),
    ];
    let mut cache = PluckCache::new();
    let err = cache.load_from_log_message(&log, false).unwrap_err();
    assert_eq!(err.message(), "Commit p2 is missing Pluck source SHA information");
    assert_eq!(cache.lookup_pluck_sha(&src), Some(&"p1".to_string()));

    let mut forced = PluckCache::new();
    assert!(forced.load_from_log_message(&log, true).is_ok());
    assert_eq!(forced.lookup_pluck_sha(&src), Some(&"p1".to_string()));
}

#[test]
fn preload_from_log_uses_enabled_mechanisms_only() {
    let a = "a".repeat(40);
    let b = "b".repeat(40);
    let mut config = git_pluck::config::PluckConfig::default();
    config.log_branch = false;
    config.log_message = false;
    let branch = vec![format!("{a}:{b}\n")];
    let log = vec![("p".to_string(), "no trailer".to_string())];
    let mut cache = PluckCache::new();
    assert!(cache.preload_from_log(&config, &branch, &log).is_ok());
    assert!(cache.preload.is_empty());

    config.log_branch = true;
    let mut cache = PluckCache::new();
    assert!(cache.preload_from_log(&config, &branch, &log).is_ok());
    assert_eq!(cache.lookup_pluck_sha(&a), Some(&b));

    config.log_message = true;
    let mut cache = PluckCache::new();
    assert!(cache.preload_from_log(&config, &branch, &log).is_err());
}
