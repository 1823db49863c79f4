use git_pluck::config::PluckConfig;
use git_pluck::pluck::{
    check_created, check_revisions, cleanup_refs, final_ref_plan, resolve_author, resolve_committer,
    resolve_message, should_replace_email, single_commit_parent_ref, tree_unchanged,
    validate_sanity_checks,
};

#[test]
fn test_should_replace_email_match_allow_no_deny() {
    assert!(!should_replace_email(".*@example\\.com", "user@example.com"));
}

#[test]
fn test_should_replace_email_no_match_allow() {
    assert!(should_replace_email(".*@other\\.com", "user@example.com"));
}

#[test]
fn test_should_replace_email_deny_override() {
    assert!(should_replace_email(".*@example\\.com:.*@example\\.com", "user@example.com"));
}

#[test]
fn test_should_replace_email_deny_no_match() {
    assert!(!should_replace_email(".*@example\\.com:.*@bad\\.com", "user@example.com"));
}

#[test]
fn test_should_replace_email_default_deny() {
    assert!(!should_replace_email(".*@example\\.com", "user@example.com"));
}

#[test]
fn test_should_replace_email_empty_allow() {
    assert!(should_replace_email("^$", "user@example.com"));
}

#[test]
fn test_should_replace_email_empty_allow_empty_email() {
    assert!(should_replace_email("^$", ""));
}

#[test]
fn test_should_replace_email_wildcard_allow() {
    assert!(!should_replace_email(".*", "any@email.com"));
}

#[test]
fn test_should_replace_email_specific_deny() {
    assert!(should_replace_email(".*:bad@actor\\.com", "bad@actor.com"));
    assert!(!should_replace_email(".*:bad@actor\\.com", "good@actor.com"));
}

#[test]
fn test_should_replace_email_invalid_regex_no_replace() {
    assert!(!should_replace_email("[invalid", "anything@example.com"));
}

#[test]
fn test_should_replace_email_invalid_deny_valid_allow() {
    assert!(!should_replace_email(".*@example\\.com:[invalid", "user@example.com"));
}

#[test]
fn test_resolve_message_sourceal() {
    let config = PluckConfig::default();
    let msg = resolve_message(&config, "Sourceal message").unwrap();
    assert_eq!(msg, "Sourceal message");
}

#[test]
fn test_resolve_message_replacement() {
    let config = PluckConfig { rep_message: Some("Replaced".to_string()), ..Default::default() };
    let msg = resolve_message(&config, "Sourceal message").unwrap();
    assert_eq!(msg, "Replaced");
}

#[test]
fn test_resolve_message_filter() {
    let config = PluckConfig { rep_message_filter: Some("Secret".to_string()), ..Default::default() };
    let sourceal = "Line one\nSecret line\nLine three";
    let msg = resolve_message(&config, sourceal).unwrap();
    assert!(msg.contains("Line one"));
    assert!(!msg.contains("Secret line"));
    assert!(msg.contains("Line three"));
}

#[test]
fn test_resolve_message_filter_multiline() {
    let config = PluckConfig { rep_message_filter: Some("^DEBUG".to_string()), ..Default::default() };
    let sourceal = "Commit message\n\nDEBUG: some info\nBody text\nDEBUG: more";
    let msg = resolve_message(&config, sourceal).unwrap();
    assert!(msg.contains("Commit message"));
    assert!(msg.contains("Body text"));
    assert!(!msg.contains("DEBUG"));
}

#[test]
fn test_resolve_message_replacement_overrides_filter() {
    let config = PluckConfig {
        rep_message: Some("Full replacement".to_string()),
        rep_message_filter: Some(".*".to_string()),
        ..Default::default()
    };
    let msg = resolve_message(&config, "Sourceal").unwrap();
    assert_eq!(msg, "Full replacement");
}

#[test]
fn test_resolve_message_invalid_filter() {
    let config = PluckConfig { rep_message_filter: Some("[invalid".to_string()), ..Default::default() };
    let result = resolve_message(&config, "Sourceal");
    assert!(result.is_err());
}

#[test]
fn test_resolve_message_empty_sourceal() {
    let config = PluckConfig::default();
    let msg = resolve_message(&config, "").unwrap();
    assert_eq!(msg, "");
}

#[test]
fn test_sanity_checks_pass() {
    let config = PluckConfig::default();
    assert!(validate_sanity_checks(&config).is_ok());
}

#[test]
fn test_sanity_checks_allow_unchanged_tree_recursive() {
    let config = PluckConfig { allow_unchanged_tree: true, recursive: true, ..Default::default() };
    let result = validate_sanity_checks(&config);
    assert!(result.is_err());
    assert!(result.unwrap_err().message().contains("cannot be combined"));
}

#[test]
fn test_sanity_checks_no_log_branch_no_log_message() {
    let config = PluckConfig { log_branch: false, log_message: false, ..Default::default() };
    let result = validate_sanity_checks(&config);
    assert!(result.is_err());
    assert!(result.unwrap_err().message().contains("must be enabled"));
}

#[test]
fn test_sanity_checks_log_branch_only_ok() {
    let config = PluckConfig { log_branch: true, log_message: false, ..Default::default() };
    assert!(validate_sanity_checks(&config).is_ok());
}

#[test]
fn test_sanity_checks_log_message_only_ok() {
    let config = PluckConfig { log_branch: false, log_message: true, ..Default::default() };
    assert!(validate_sanity_checks(&config).is_ok());
}

#[test]
fn test_sanity_checks_both_log_branch_and_message_ok() {
    let config = PluckConfig { log_branch: true, log_message: true, ..Default::default() };
    assert!(validate_sanity_checks(&config).is_ok());
}

#[test]
fn test_sanity_checks_rep_author_regex_no_name() {
    let config = PluckConfig { rep_author_regex: Some(".*".to_string()), ..Default::default() };
    let result = validate_sanity_checks(&config);
    assert!(result.is_err());
    assert!(result.unwrap_err().message().contains("requires"));
}

#[test]
fn test_sanity_checks_rep_author_regex_no_email() {
    let config = PluckConfig {
        rep_author_regex: Some(".*".to_string()),
        rep_author_name: Some("Name".to_string()),
        ..Default::default()
    };
    let result = validate_sanity_checks(&config);
    assert!(result.is_err());
    assert!(result.unwrap_err().message().contains("requires"));
}

#[test]
fn test_sanity_checks_rep_author_regex_with_both_ok() {
    let config = PluckConfig {
        rep_author_regex: Some(".*".to_string()),
        rep_author_name: Some("Name".to_string()),
        rep_author_email: Some("email@example.com".to_string()),
        ..Default::default()
    };
    assert!(validate_sanity_checks(&config).is_ok());
}

#[test]
fn test_sanity_checks_rep_committer_regex_no_name() {
    let config = PluckConfig { rep_committer_regex: Some(".*".to_string()), ..Default::default() };
    let result = validate_sanity_checks(&config);
    assert!(result.is_err());
    assert!(result.unwrap_err().message().contains("requires"));
}

#[test]
fn test_sanity_checks_rep_committer_regex_no_email() {
    let config = PluckConfig {
        rep_committer_regex: Some(".*".to_string()),
        rep_committer_name: Some("Name".to_string()),
        ..Default::default()
    };
    let result = validate_sanity_checks(&config);
    assert!(result.is_err());
    assert!(result.unwrap_err().message().contains("requires"));
}

#[test]
fn test_sanity_checks_rep_committer_regex_with_both_ok() {
    let config = PluckConfig {
        rep_committer_regex: Some(".*".to_string()),
        rep_committer_name: Some("Name".to_string()),
        rep_committer_email: Some("email@example.com".to_string()),
        ..Default::default()
    };
    assert!(validate_sanity_checks(&config).is_ok());
}

// -- author, committer, refs --

#[test]
fn author_replaced_unconditionally_without_regex() {
    let config = PluckConfig {
        rep_author_name: Some("Bot".to_string()),
        rep_author_email: Some("".to_string()),
        ..Default::default()
    };
    let (name, email) = resolve_author(&config, "Alice", "alice@example.com");
    assert_eq!(name, "Bot");
    assert_eq!(email, "alice@example.com");
}

#[test]
fn committer_replaced_only_when_regex_says_so() {
    let config = PluckConfig {
        rep_committer_regex: Some(".*@corp\\.com".to_string()),
        rep_committer_name: Some("Corp".to_string()),
        rep_committer_email: Some("dev@corp.com".to_string()),
        ..Default::default()
    };
    let kept = resolve_committer(&config, "Alice", "alice@corp.com");
    assert_eq!(kept, ("Alice".to_string(), "alice@corp.com".to_string()));
    let replaced = resolve_committer(&config, "Bob", "bob@home.org");
    assert_eq!(replaced, ("Corp".to_string(), "dev@corp.com".to_string()));
}

#[test]
fn message_filter_joins_kept_lines() {
    let config = PluckConfig { rep_message_filter: Some("^x".to_string()), ..Default::default() };
    assert_eq!(resolve_message(&config, "a\nx1\nb\n").unwrap(), "a\nb");
    let err = resolve_message(
        &PluckConfig { rep_message_filter: Some("(".to_string()), ..Default::default() },
        "a",
    )
    .unwrap_err();
    assert_eq!(err.message(), "Invalid message filter regex: (");
}

#[test]
fn single_commit_parent_ref_choice() {
    let config = PluckConfig::default();
    assert_eq!(single_commit_parent_ref(&config, "web"), Some("refs/heads/pluck/web".to_string()));
    let config = PluckConfig { ignorant_pluck: Some("refs/heads/x".to_string()), ..Default::default() };
    assert_eq!(single_commit_parent_ref(&config, "web"), Some("refs/heads/x".to_string()));
    let config = PluckConfig { ignorant_pluck: Some(String::new()), ..Default::default() };
    assert_eq!(single_commit_parent_ref(&config, "web"), Some("refs/heads/pluck/web".to_string()));
}

#[test]
fn unchanged_tree_detection() {
    let parents = vec!["p".to_string()];
    assert!(tree_unchanged(&parents, false, Some("t"), "t"));
    assert!(!tree_unchanged(&parents, true, Some("t"), "t"));
    assert!(!tree_unchanged(&parents, false, Some("u"), "t"));
    assert!(!tree_unchanged(&parents, false, None, "t"));
    assert!(!tree_unchanged(&Vec::new(), false, Some("t"), "t"));
}

#[test]
fn run_outcome_checks() {
    let config = PluckConfig::default();
    assert_eq!(check_revisions(0, &config).unwrap_err().message(), "No revisions to pluck");
    assert!(check_revisions(1, &config).is_ok());
    assert!(check_revisions(0, &PluckConfig { force: true, ..Default::default() }).is_ok());
    assert_eq!(check_created(0, &config).unwrap_err().message(), "No pluck commits created");
    assert!(check_created(0, &PluckConfig { allow_missing_path: true, ..Default::default() }).is_ok());
}

#[test]
fn final_ref_plan_cases() {
    let config = PluckConfig::default();
    let nothing = final_ref_plan(&config, "web", 0, false);
    assert!(nothing.pluck_ref.is_none() && nothing.log_ref.is_none() && !nothing.delete_progress);

    let full = final_ref_plan(&config, "web", 2, true);
    assert_eq!(full.pluck_ref, Some("refs/heads/pluck/web".to_string()));
    assert_eq!(full.log_ref, Some("refs/heads/pluck/log/web".to_string()));
    assert!(full.delete_progress && full.summary);

    let forced = PluckConfig { force: true, ..Default::default() };
    let no_last = final_ref_plan(&forced, "web", 0, false);
    assert!(no_last.pluck_ref.is_none() && no_last.delete_progress && !no_last.summary);

    let ignorant = PluckConfig { ignorant_pluck: Some("refs/heads/x".to_string()), ..Default::default() };
    let plan = final_ref_plan(&ignorant, "web", 1, true);
    assert_eq!(plan.pluck_ref, Some("refs/heads/x".to_string()));
    assert!(plan.log_ref.is_none());
}

#[test]
fn cleanup_refs_after_failure() {
    assert_eq!(cleanup_refs("web", true), vec!["refs/heads/pluck/recovery/web".to_string()]);
    assert_eq!(
        cleanup_refs("web", false),
        vec!["refs/heads/pluck/recovery/web".to_string(), "refs/heads/pluck/log/web".to_string()]
    );
}

#[test]
fn deny_pattern_overrides_allow_pattern() {
    assert!(should_replace_email("@x\\.com$:^boss@", "boss@x.com"));
    assert!(!should_replace_email("@x\\.com$:^boss@", "dev@x.com"));
    assert!(should_replace_email("@x\\.com$:^boss@", "dev@y.com"));
    let mut c = PluckConfig::default();
    c.rep_author_name = Some("Anon".to_string());
    c.rep_author_email = Some("anon@x.com".to_string());
    assert_eq!(resolve_author(&c, "Dev", "dev@y.com"), ("Anon".to_string(), "anon@x.com".to_string()));
}

#[test]
fn a_run_without_new_commits_moves_no_branch() {
    let plain = PluckConfig::default();
    assert!(check_revisions(0, &plain).is_err());
    for force in [false, true] {
        let config = PluckConfig { force, ..Default::default() };
        let plan = final_ref_plan(&config, "name", 0, false);
        assert!(plan.pluck_ref.is_none());
        assert!(plan.log_ref.is_none());
    }
}

#[test]
fn an_empty_ignorant_pluck_ref_counts_as_unset() {
    let config = PluckConfig { ignorant_pluck: Some(String::new()), ..Default::default() };
    let plan = final_ref_plan(&config, "web", 1, true);
    assert_eq!(plan.pluck_ref, Some("refs/heads/pluck/web".to_string()));
    assert_eq!(plan.log_ref, Some("refs/heads/pluck/log/web".to_string()));
}
