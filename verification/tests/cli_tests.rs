use git_pluck::cli::{apply_cli_to_config, apply_string_flag, choose_command, Cli, Command};
use git_pluck::config::PluckConfig;

/// The options of a command line that gives none.
fn no_options() -> Cli {
    Cli {
        config: None,
        debug: None,
        force: false,
        allow_unchanged_tree: false,
        mirror_map: false,
        quiet: false,
        timer: false,
        start_ref: None,
        allow_incomplete_ancestry: false,
        recursive: None,
        log_branch: false,
        skip_dedup_ancestry: false,
        ignorant_pluck: None,
        add_map: None,
        show_src_paths: false,
        show_dst_paths: false,
        check_config: false,
        allow_missing_path: false,
        allow_nested_map: false,
        remove: None,
        auto_reverse_map: false,
        find_source_sha: None,
        find_pluck_sha: None,
        rep_author_name: None,
        rep_author_email: None,
        rep_author_regex: None,
        rep_committer_name: None,
        rep_committer_email: None,
        rep_committer_regex: None,
        rep_message: None,
        rep_message_filter: None,
        log_message: false,
        test_mode: false,
        no_force: false,
        no_unchanged_tree: false,
        no_mirror_map: false,
        no_missing_path: false,
        no_nested_map: false,
        no_incomplete_ancestry: false,
        no_auto_reverse_map: false,
        no_log_branch: false,
        no_skip_dedup_ancestry: false,
        no_log_message: false,
        no_rep_author_name: false,
        no_rep_author_email: false,
        no_rep_author_regex: false,
        no_rep_committer_name: false,
        no_rep_committer_email: false,
        no_rep_committer_regex: false,
        no_rep_message: false,
        no_rep_message_filter: false,
        no_ignorant_pluck: false,
        no_recursive: false,
        pluckname: None,
    }
}

#[test]
fn no_options_leave_the_config_alone() {
    let mut config = PluckConfig {
        force: true,
        log_branch: false,
        rep_message: Some("m".to_string()),
        recursive: true,
        recursive_opts: Some("max-count:2".to_string()),
        ..Default::default()
    };
    apply_cli_to_config(&no_options(), &mut config);
    assert!(config.force);
    assert!(!config.log_branch);
    assert_eq!(config.rep_message, Some("m".to_string()));
    assert!(config.recursive);
    assert_eq!(config.recursive_opts, Some("max-count:2".to_string()));
    assert_eq!(config.start_ref, "HEAD");
}

#[test]
fn options_override_the_config() {
    let mut cli = no_options();
    cli.quiet = true;
    cli.log_message = true;
    cli.start_ref = Some("main".to_string());
    cli.rep_author_name = Some("Anon".to_string());
    cli.debug = Some(Some("2".to_string()));
    cli.recursive = Some(Some("max-count:5".to_string()));
    let mut config = PluckConfig { rep_author_name: Some("Old".to_string()), ..Default::default() };
    apply_cli_to_config(&cli, &mut config);
    assert!(config.quiet);
    assert!(config.log_message);
    assert_eq!(config.start_ref, "main");
    assert_eq!(config.rep_author_name, Some("Anon".to_string()));
    assert_eq!(config.debug, 2);
    assert!(config.recursive);
    assert_eq!(config.recursive_opts, Some("max-count:5".to_string()));
}

#[test]
fn negations_win_over_flags_and_config() {
    let mut cli = no_options();
    cli.force = true;
    cli.no_force = true;
    cli.no_log_branch = true;
    cli.rep_message = Some("new".to_string());
    cli.no_rep_message = true;
    cli.recursive = Some(Some(String::new()));
    cli.no_recursive = true;
    let mut config = PluckConfig { recursive: true, recursive_opts: Some("x".to_string()), ..Default::default() };
    apply_cli_to_config(&cli, &mut config);
    assert!(!config.force);
    assert!(!config.log_branch);
    assert_eq!(config.rep_message, Some(String::new()));
    assert!(!config.recursive);
    assert_eq!(config.recursive_opts, None);
}

#[test]
fn bare_flags_without_values() {
    let mut cli = no_options();
    cli.recursive = Some(Some(String::new()));
    cli.debug = Some(Some("lots".to_string()));
    let mut config = PluckConfig::default();
    apply_cli_to_config(&cli, &mut config);
    assert!(config.recursive);
    assert_eq!(config.recursive_opts, None);
    assert_eq!(config.debug, 1);
}

#[test]
fn string_flag_application() {
    let mut target = Some("old".to_string());
    apply_string_flag(Some("new"), false, &mut target);
    assert_eq!(target, Some("new".to_string()));
    apply_string_flag(None, false, &mut target);
    assert_eq!(target, Some("new".to_string()));
    apply_string_flag(Some("other"), true, &mut target);
    assert_eq!(target, Some(String::new()));
}

#[test]
fn commands_in_order_of_precedence() {
    let mut cli = no_options();
    assert!(matches!(choose_command(&cli), Command::Pluck));
    cli.find_pluck_sha = Some("p".to_string());
    assert!(matches!(choose_command(&cli), Command::FindPluckSha(q) if q == "p"));
    cli.find_source_sha = Some("s".to_string());
    assert!(matches!(choose_command(&cli), Command::FindSourceSha(q) if q == "s"));
    cli.check_config = true;
    assert!(matches!(choose_command(&cli), Command::CheckConfig));
    cli.show_dst_paths = true;
    assert!(matches!(choose_command(&cli), Command::ShowDstPaths));
    cli.show_src_paths = true;
    assert!(matches!(choose_command(&cli), Command::ShowSrcPaths));
    cli.remove = Some("lib".to_string());
    assert!(matches!(choose_command(&cli), Command::Remove(s) if s == "lib"));
    cli.add_map = Some("lib:out".to_string());
    assert!(matches!(choose_command(&cli), Command::AddMap(s) if s == "lib:out"));
}

#[test]
fn an_unset_start_ref_keeps_the_config_value() {
    let mut config = PluckConfig { start_ref: "abc123".to_string(), ..Default::default() };
    apply_cli_to_config(&no_options(), &mut config);
    assert_eq!(config.start_ref, "abc123");
}
