use git_pluck::cache::PluckCache;
use git_pluck::collections::StrSet;
use git_pluck::config::{ensure_not_empty, parse_bool, parse_config_file, resolve_config, PluckConfig};
use git_pluck::map::{add_mapping_text, remove_mapping_text};
use git_pluck::pluck::{resolve_message, validate_sanity_checks};
use git_pluck::tree::{emplace_parent_trees, TreeEntry};
use git_pluck::error::{determine_error_code, env_flag_set, ErrorCode, PluckError};

#[test]
fn test_exit_code_plucking_error() {
    assert_eq!(ErrorCode::PluckingError.to_raw(false), 1);
}

#[test]
fn test_exit_code_config_error() {
    assert_eq!(ErrorCode::ConfigError.to_raw(false), 2);
}

#[test]
fn test_exit_code_internal() {
    assert_eq!(ErrorCode::Internal(3).to_raw(false), 3);
}

#[test]
fn test_no_return_error_unset() {
    assert!(!env_flag_set(None));
}

#[test]
fn test_no_return_error_zero() {
    assert!(!env_flag_set(Some("0")));
}

#[test]
fn test_no_return_error_empty() {
    assert!(!env_flag_set(Some("")));
}

#[test]
fn test_no_return_error_nonzero() {
    assert!(env_flag_set(Some("1")));
}

#[test]
fn test_no_return_error_arbitrary() {
    assert!(env_flag_set(Some("true")));
}

#[test]
fn test_exit_code_respects_no_return_error() {
    let on = env_flag_set(Some("1"));
    assert_eq!(ErrorCode::PluckingError.to_raw(on), 0);
    assert_eq!(ErrorCode::ConfigError.to_raw(on), 0);
    assert_eq!(ErrorCode::Internal(3).to_raw(on), 0);
}

#[test]
fn exit_code_of_large_internal_code_wraps() {
    assert_eq!(ErrorCode::Internal(u32::MAX).to_raw(false), -1);
}

#[test]
fn error_codes_follow_message_words() {
    assert_eq!(determine_error_code("Failed to parse CONFIG file"), ErrorCode::ConfigError);
    assert_eq!(
        determine_error_code("--allow-unchanged-tree and --recursive cannot be combined"),
        ErrorCode::ConfigError
    );
    assert_eq!(determine_error_code("Mapped source 'a' not found in commit b"), ErrorCode::Internal(3));
    assert_eq!(determine_error_code("Log branch inconsistency: x"), ErrorCode::Internal(3));
    assert_eq!(determine_error_code("No revisions to pluck"), ErrorCode::PluckingError);
}

#[test]
fn error_messages() {
    assert_eq!(
        PluckError::MappedSourceNotFound("lib".to_string(), "abc".to_string()).message(),
        "Mapped source 'lib' not found in commit abc"
    );
    assert_eq!(PluckError::NoRevisions.message(), "No revisions to pluck");
    assert_eq!(PluckError::NoCommitsCreated.message(), "No pluck commits created");
    assert_eq!(
        PluckError::LogInconsistency("p".to_string(), "l".to_string()).message(),
        "Log branch inconsistency: pluck tip p is not an immediate parent of log branch tip l"
    );
}

fn config() -> PluckConfig {
    PluckConfig::default()
}

#[test]
fn each_error_variant_has_an_input_that_gives_it() {
    assert!(matches!(parse_bool("maybe"), Err(PluckError::InvalidBool(v)) if v == "maybe"));
    assert!(matches!(ensure_not_empty("startRef", ""), Err(PluckError::EmptyConfigValue(k)) if k == "startRef"));
    let mut c = config();
    assert!(matches!(parse_config_file(b"[pluck\nquiet = true\n", &mut c), Err(PluckError::ConfigParse(_))));
    assert!(matches!(resolve_config("name", None, b""), Err(PluckError::NoConfig(n)) if n == "name"));
    assert!(matches!(
        add_mapping_text("[forward.from \"lib\"]\n", "lib", false),
        Err(PluckError::SourceExists(s)) if s == "lib"
    ));
    assert!(matches!(remove_mapping_text("[pluck]\n", "lib"), Err(PluckError::SourceNotInConfig(s)) if s == "lib"));

    let mut c = config();
    c.allow_unchanged_tree = true;
    c.recursive = true;
    assert!(matches!(validate_sanity_checks(&c), Err(PluckError::UnchangedTreeWithRecursive)));
    let mut c = config();
    c.log_branch = false;
    c.log_message = false;
    assert!(matches!(validate_sanity_checks(&c), Err(PluckError::NoLogMechanism)));
    let mut c = config();
    c.rep_author_regex = Some("x".to_string());
    assert!(matches!(validate_sanity_checks(&c), Err(PluckError::AuthorRegexIncomplete)));
    let mut c = config();
    c.rep_committer_regex = Some("x".to_string());
    c.rep_committer_name = Some("n".to_string());
    assert!(matches!(validate_sanity_checks(&c), Err(PluckError::CommitterRegexIncomplete)));

    let mut cache = PluckCache::new();
    let log = vec![("abc".to_string(), "no trailer here".to_string())];
    assert!(matches!(cache.load_from_log_message(&log, false), Err(PluckError::MissingPluckSource(id)) if id == "abc"));

    let mut c = config();
    c.rep_message_filter = Some("(".to_string());
    assert!(matches!(resolve_message(&c, "msg"), Err(PluckError::InvalidMessageFilter(f)) if f == "("));

    // The child "a/éé/f" is cut at byte 5, inside its second 'é'.
    let full = vec![TreeEntry {
        mode: "100644".to_string(),
        obj_type: "blob".to_string(),
        sha: "0123".to_string(),
        path: "a/éé/f".to_string(),
    }];
    let mut entries: Vec<TreeEntry> = Vec::new();
    let mut emplaced = StrSet::new();
    let base = "a".to_string();
    assert!(matches!(
        emplace_parent_trees("a/éé/x", &mut entries, &mut emplaced, &full, Some(&base), &[]),
        Err(PluckError::PathSlice(p)) if p == "a/éé/f"
    ));
}

#[test]
fn invalid_settings_are_config_errors() {
    assert_eq!(
        determine_error_code("Invalid boolean value: 'yes' (expected true/false or 1/0)"),
        ErrorCode::ConfigError
    );
    assert_eq!(determine_error_code("Invalid message filter regex: ("), ErrorCode::ConfigError);
}
