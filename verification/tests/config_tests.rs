use git_pluck::config::{
    embedded_config_path, get_pluckname, parse_bool, parse_config_file, resolve_config,
    set_pluck_config, PluckConfig,
};

#[test]
fn config_test_default_config_values() {
    let config = PluckConfig::default();
    assert_eq!(config.debug, 0);
    assert!(!config.force);
    assert!(!config.allow_unchanged_tree);
    assert!(!config.mirror_map);
    assert_eq!(config.start_ref, "HEAD");
    assert!(!config.allow_missing_path);
    assert!(config.rep_author_regex.is_none());
    assert!(config.rep_author_name.is_none());
    assert!(config.rep_author_email.is_none());
    assert!(config.rep_committer_regex.is_none());
    assert!(config.rep_committer_name.is_none());
    assert!(config.rep_committer_email.is_none());
    assert!(config.rep_message.is_none());
    assert!(config.rep_message_filter.is_none());
    assert!(!config.allow_nested_map);
    assert!(!config.allow_incomplete_ancestry);
    assert!(!config.quiet);
    assert!(!config.recursive);
    assert!(config.recursive_opts.is_none());
    assert!(!config.auto_reverse_map);
    assert!(!config.log_message);
    assert!(!config.timer);
    assert!(config.log_branch);
    assert!(!config.skip_dedup_ancestry);
    assert!(config.ignorant_pluck.is_none());
    assert!(config.path_mappings.is_empty());
}

#[test]
fn test_parse_bool_true() {
    assert!(parse_bool("true").unwrap());
}

#[test]
fn test_parse_bool_false() {
    assert!(!parse_bool("false").unwrap());
}

#[test]
fn test_parse_bool_one() {
    assert!(parse_bool("1").unwrap());
}

#[test]
fn test_parse_bool_zero() {
    assert!(!parse_bool("0").unwrap());
}

#[test]
fn test_parse_bool_invalid_errors() {
    assert!(parse_bool("yes").is_err());
    assert!(parse_bool("").is_err());
    assert!(parse_bool("random").is_err());
}

#[test]
fn test_get_pluckname_src_path() {
    assert_eq!(get_pluckname(Some("/some/path/mypluck")), "mypluck");
}

#[test]
fn test_get_pluckname_src_path_with_extension() {
    assert_eq!(get_pluckname(Some("/some/path/mypluck.pluck")), "mypluck");
}

#[test]
fn test_get_pluckname_none() {
    assert_eq!(get_pluckname(None), "default");
}

#[test]
fn test_get_pluckname_no_stem() {
    assert_eq!(get_pluckname(Some("/")), "default");
}

fn parsed(content: &str) -> PluckConfig {
    let mut config = PluckConfig::default();
    parse_config_file(content.as_bytes(), &mut config).unwrap();
    config
}

#[test]
fn test_parse_config_path_mappings() {
    let content = r#"
[forward.from "src"]
    to = dest
[forward.from "docs"]
    to = (Mirror)
[forward.from "vendor"]
    to = (Remove)
"#;
    let config = parsed(content);
    assert_eq!(config.path_mappings.len(), 3);
    assert_eq!(config.path_mappings[0].src_path, "src");
    assert_eq!(config.path_mappings[0].dst_paths, vec!["dest"]);
    assert_eq!(config.path_mappings[1].src_path, "docs");
    assert_eq!(config.path_mappings[1].dst_paths, vec!["(Mirror)"]);
    assert_eq!(config.path_mappings[2].src_path, "vendor");
    assert_eq!(config.path_mappings[2].dst_paths, vec!["(Remove)"]);
}

#[test]
fn test_parse_config_multiple_maps_same_section() {
    let content = r#"
[forward.from "src"]
    to = dest
    to = (Copy)copy1
    to = (Copy)copy2
"#;
    let config = parsed(content);
    assert_eq!(config.path_mappings.len(), 1);
    assert_eq!(config.path_mappings[0].src_path, "src");
    assert_eq!(config.path_mappings[0].dst_paths, vec!["dest", "(Copy)copy1", "(Copy)copy2"]);
}

#[test]
fn test_parse_config_behavior_keys() {
    let content = r#"
[forward.from "src"]
    to = (Mirror)

[pluck]
    force = true
    debug = 2
    recursive = max-count:10
    startRef = abc123
    logBranch = false
"#;
    let config = parsed(content);
    assert!(config.force);
    assert_eq!(config.debug, 2);
    assert!(config.recursive);
    assert_eq!(config.recursive_opts, Some("max-count:10".to_string()));
    assert_eq!(config.start_ref, "abc123");
    assert!(!config.log_branch);
}

#[test]
fn test_parse_config_comments_ignored() {
    let content = r#"
# This is a comment
; This is also a comment
[forward.from "src"]
    to = (Mirror)
"#;
    let config = parsed(content);
    assert_eq!(config.path_mappings.len(), 1);
}

#[test]
fn test_parse_config_empty_recursive() {
    let config = parsed("[pluck]\n    recursive = true\n");
    assert!(config.recursive);
    assert_eq!(config.recursive_opts, Some("true".to_string()));
}

#[test]
fn test_parse_config_truly_empty_recursive() {
    let config = parsed("[pluck]\n    recursive = \n");
    assert!(!config.recursive);
    assert!(config.recursive_opts.is_none());
}

#[test]
fn test_set_pluck_config_unknown_key_ignored() {
    let mut config = PluckConfig::default();
    let unknown = parse_config_file(
        "[pluck]\n    unknownKey = value\n    anotherUnknown = 123\n".as_bytes(),
        &mut config,
    )
    .unwrap();
    assert_eq!(config.path_mappings.len(), 0);
    assert_eq!(unknown.len(), 2);
}

#[test]
fn test_parse_config_map_with_inline_comment() {
    let content = r#"
[forward.from "lib"]
    to = libs/1   # maps "lib" to "libs/1"
[forward.from "lib2"]
    to = libs/2   # maps "lib2" to "libs/2"
"#;
    let config = parsed(content);
    assert_eq!(config.path_mappings.len(), 2);
    assert_eq!(config.path_mappings[0].dst_paths, vec!["libs/1"]);
    assert_eq!(config.path_mappings[1].dst_paths, vec!["libs/2"]);
}

#[test]
fn test_parse_config_pluck_section_with_inline_comment() {
    let config = parsed("[pluck]\n    force = true   # enable force mode\n");
    assert!(config.force);
}

// -- errors and the other entry points --

#[test]
fn parse_config_invalid_bool_is_an_error() {
    let mut config = PluckConfig::default();
    let err = parse_config_file("[pluck]\n    force = yes\n".as_bytes(), &mut config).unwrap_err();
    assert_eq!(err.message(), "Invalid boolean value: 'yes' (expected true/false or 1/0)");
}

#[test]
fn parse_config_empty_value_is_an_error() {
    let mut config = PluckConfig::default();
    let err = parse_config_file("[pluck]\n    startRef = \n".as_bytes(), &mut config).unwrap_err();
    assert!(err.message().contains("must not be empty"));
}

#[test]
fn parse_config_malformed_file_is_an_error() {
    let mut config = PluckConfig::default();
    let err = parse_config_file("[forward.from \"src\"\n    to = x\n".as_bytes(), &mut config).unwrap_err();
    assert!(err.message().starts_with("Failed to parse config file: "));
}

#[test]
fn set_pluck_config_reports_known_keys() {
    let mut config = PluckConfig::default();
    assert_eq!(set_pluck_config("quiet", "1", &mut config).unwrap(), true);
    assert!(config.quiet);
    assert_eq!(set_pluck_config("somethingElse", "1", &mut config).unwrap(), false);
}

#[test]
fn resolve_config_without_file_is_an_error() {
    let err = match resolve_config("name", None, b"") {
        Err(e) => e,
        Ok(_) => panic!("a missing config must be refused"),
    };
    assert_eq!(err.message(), "No config found for pluck name 'name'. Use -c to specify a config file.");
}

#[test]
fn resolve_config_reads_the_file() {
    let loaded = match resolve_config("name", Some("my.cfg".to_string()), b"[pluck]\n    quiet = true\n") {
        Ok(l) => l,
        Err(e) => panic!("{}", e.message()),
    };
    assert!(loaded.config.quiet);
    assert_eq!(loaded.path, Some("my.cfg".to_string()));
}

#[test]
fn embedded_config_path_is_under_gitpluck() {
    assert_eq!(embedded_config_path("web"), ".gitpluck/web/config.cfg");
}

#[test]
fn config_text_reads_invalid_utf8_leniently() {
    assert_eq!(git_pluck::config::to_string(b"  a\xffb \n"), "a\u{FFFD}b");
    assert_eq!(git_pluck::config::to_string(b"plain"), "plain");
}

#[test]
fn parse_config_keeps_the_settings_before_a_bad_value() {
    let mut config = PluckConfig::default();
    let r = parse_config_file(b"[forward.from \"lib\"]\n    to = out\n[pluck]\n    quiet = true\n    force = maybe\n    timer = true\n", &mut config);
    assert!(r.is_err());
    assert!(config.quiet);
    assert!(!config.force);
    assert!(!config.timer);
    assert_eq!(config.path_mappings.len(), 1);
}

#[test]
fn skip_dedup_ancestry_key_is_read() {
    let mut config = PluckConfig::default();
    assert_eq!(set_pluck_config("skipDedupAncestry", "true", &mut config).unwrap(), true);
    assert!(config.skip_dedup_ancestry);
}
