use git_pluck::config::{PathMappingEntry, PluckConfig};
use git_pluck::map::{
    add_mapping_text, build_pluck_map, list_destinations, list_sources, parse_map_target,
    remove_mapping_text, validate_map, MapEntry, MapTarget,
};

fn make_entry(src_path: &str, primary: MapTarget, copies: Vec<String>) -> MapEntry {
    MapEntry { src_path: src_path.to_string(), primary, copies }
}

fn config_with(src: &str, dsts: &[&str]) -> PluckConfig {
    let mut config = PluckConfig::default();
    config.path_mappings.push(PathMappingEntry {
        src_path: src.to_string(),
        dst_paths: dsts.iter().map(|d| d.to_string()).collect(),
    });
    config
}

#[test]
fn test_parse_map_target_mirror() {
    assert!(matches!(parse_map_target("(Mirror)"), MapTarget::Mirror));
}

#[test]
fn test_parse_map_target_remove() {
    assert!(matches!(parse_map_target("(Remove)"), MapTarget::Remove));
}

#[test]
fn test_parse_map_target_unpack() {
    assert!(matches!(parse_map_target("."), MapTarget::Root));
}

#[test]
fn test_parse_map_target_move() {
    let target = parse_map_target("some/path");
    assert!(matches!(&target, MapTarget::Move(p) if p == "some/path"));
}

#[test]
fn test_build_pluck_map_empty() {
    let config = PluckConfig::default();
    let entries = build_pluck_map(&config).unwrap();
    assert!(entries.is_empty());
}

#[test]
fn test_build_pluck_map_mirror() {
    let entries = build_pluck_map(&config_with("src", &["(Mirror)"])).unwrap();
    assert_eq!(entries.len(), 1);
    assert!(matches!(entries[0].primary, MapTarget::Mirror));
}

#[test]
fn test_build_pluck_map_remove() {
    let entries = build_pluck_map(&config_with("vendor", &["(Remove)"])).unwrap();
    assert_eq!(entries.len(), 1);
    assert!(matches!(entries[0].primary, MapTarget::Remove));
}

#[test]
fn test_build_pluck_map_move() {
    let entries = build_pluck_map(&config_with("src", &["dest"])).unwrap();
    assert_eq!(entries.len(), 1);
    assert!(matches!(&entries[0].primary, MapTarget::Move(d) if d == "dest"));
}

#[test]
fn test_build_pluck_map_unpack() {
    let entries = build_pluck_map(&config_with("src/core", &["."])).unwrap();
    assert_eq!(entries.len(), 1);
    assert!(matches!(entries[0].primary, MapTarget::Root));
}

#[test]
fn test_build_pluck_map_copy_entries() {
    let entries = build_pluck_map(&config_with("src", &["dest", "(Copy)copy1", "(Copy)copy2"])).unwrap();
    assert_eq!(entries.len(), 1);
    assert!(matches!(&entries[0].primary, MapTarget::Move(d) if d == "dest"));
    assert_eq!(entries[0].copies, vec!["copy1", "copy2"]);
}

#[test]
fn test_build_pluck_map_only_copies() {
    let entries = build_pluck_map(&config_with("src", &["(Copy)copy1", "(Copy)copy2"])).unwrap();
    assert_eq!(entries.len(), 1);
    assert!(matches!(entries[0].primary, MapTarget::Mirror));
    assert_eq!(entries[0].copies, vec!["copy1", "copy2"]);
}

#[test]
fn test_build_pluck_map_reverse() {
    let mut config = config_with("src", &["dest"]);
    config.auto_reverse_map = true;
    let entries = build_pluck_map(&config).unwrap();
    assert_eq!(entries.len(), 1);
    assert_eq!(entries[0].src_path, "dest");
    assert!(matches!(&entries[0].primary, MapTarget::Move(s) if s == "src"));
}

#[test]
fn test_build_pluck_map_reverse_remove_unchanged() {
    let mut config = config_with("vendor", &["(Remove)"]);
    config.auto_reverse_map = true;
    let entries = build_pluck_map(&config).unwrap();
    assert_eq!(entries.len(), 1);
    assert_eq!(entries[0].src_path, "vendor");
    assert!(matches!(entries[0].primary, MapTarget::Remove));
}

#[test]
fn test_build_pluck_map_mirror_map() {
    let mut config = config_with("src", &["dest"]);
    config.mirror_map = true;
    let entries = build_pluck_map(&config).unwrap();
    assert_eq!(entries.len(), 1);
    assert_eq!(entries[0].src_path, "src");
    assert!(matches!(entries[0].primary, MapTarget::Mirror));
    assert!(entries[0].copies.is_empty());
}

#[test]
fn test_build_pluck_map_mirror_map_strips_copies() {
    let mut config = config_with("src", &["dest", "(Copy)copy1", "(Copy)copy2"]);
    config.mirror_map = true;
    let entries = build_pluck_map(&config).unwrap();
    assert_eq!(entries.len(), 1);
    assert!(matches!(entries[0].primary, MapTarget::Mirror));
    assert!(entries[0].copies.is_empty());
}

#[test]
fn test_validate_map_clean() {
    let entries = vec![make_entry("src", MapTarget::Move("dest".to_string()), vec![])];
    let issues = validate_map(&entries, false);
    assert!(issues.is_empty());
}

#[test]
fn test_validate_map_duplicate_destination() {
    let entries = vec![
        make_entry("a", MapTarget::Move("same".to_string()), vec![]),
        make_entry("b", MapTarget::Move("same".to_string()), vec![]),
    ];
    let issues = validate_map(&entries, false);
    assert!(!issues.is_empty());
    assert!(issues.iter().any(|i| i.contains("Duplicate")));
}

#[test]
fn test_validate_map_trailing_slash_source() {
    let entries = vec![make_entry("src/", MapTarget::Mirror, vec![])];
    let issues = validate_map(&entries, false);
    assert!(!issues.is_empty());
    assert!(issues.iter().any(|i| i.contains("Trailing slash")));
}

#[test]
fn test_validate_map_trailing_slash_destination() {
    let entries = vec![make_entry("src", MapTarget::Move("dest/".to_string()), vec![])];
    let issues = validate_map(&entries, false);
    assert!(!issues.is_empty());
    assert!(issues.iter().any(|i| i.contains("Trailing slash")));
}

#[test]
fn test_validate_map_nested_error() {
    let entries = vec![make_entry("a", MapTarget::Mirror, vec![]), make_entry("a/b", MapTarget::Mirror, vec![])];
    let issues = validate_map(&entries, false);
    assert!(!issues.is_empty());
    assert!(issues.iter().any(|i| i.contains("Nested")));
}

#[test]
fn test_validate_map_nested_allowed() {
    let entries = vec![make_entry("a", MapTarget::Mirror, vec![]), make_entry("a/b", MapTarget::Mirror, vec![])];
    let issues = validate_map(&entries, true);
    assert!(issues.iter().all(|i| !i.contains("Nested")));
}

#[test]
fn test_validate_map_colon_in_source() {
    let entries = vec![make_entry("src:bad", MapTarget::Mirror, vec![])];
    let issues = validate_map(&entries, false);
    assert!(!issues.is_empty());
    assert!(issues.iter().any(|i| i.contains("colon")));
}

#[test]
fn test_validate_map_colon_in_destination() {
    let entries = vec![make_entry("src", MapTarget::Move("dst:bad".to_string()), vec![])];
    let issues = validate_map(&entries, false);
    assert!(!issues.is_empty());
    assert!(issues.iter().any(|i| i.contains("colon")));
}

#[test]
fn test_validate_map_mirror_no_duplicate() {
    let entries = vec![make_entry("a", MapTarget::Mirror, vec![]), make_entry("b", MapTarget::Mirror, vec![])];
    let issues = validate_map(&entries, false);
    assert!(issues.iter().all(|i| !i.contains("Duplicate")));
}

#[test]
fn test_validate_map_remove_no_duplicate_check() {
    let entries = vec![make_entry("a", MapTarget::Remove, vec![]), make_entry("b", MapTarget::Remove, vec![])];
    let issues = validate_map(&entries, false);
    assert!(issues.iter().all(|i| !i.contains("Duplicate")));
}

#[test]
fn test_list_sources() {
    let entries =
        vec![make_entry("a", MapTarget::Move("x".to_string()), vec![]), make_entry("b", MapTarget::Mirror, vec![])];
    let sources = list_sources(&entries);
    assert_eq!(sources, vec!["a", "b"]);
}

#[test]
fn test_list_destinations() {
    let entries = vec![
        make_entry("a", MapTarget::Move("x".to_string()), vec![]),
        make_entry("b", MapTarget::Mirror, vec![]),
        make_entry("c", MapTarget::Remove, vec![]),
        make_entry("d", MapTarget::Root, vec![]),
    ];
    let dsts = list_destinations(&entries);
    assert_eq!(dsts, vec!["x", "b", "."]);
}

#[test]
fn test_add_mapping_new_mirror() {
    let content = add_mapping_text("", "srcfile", false).unwrap();
    assert!(content.contains("[forward.from \"srcfile\"]"));
    assert!(content.contains("to = (Mirror)"));
}

#[test]
fn test_add_mapping_new_src_dst() {
    let content = add_mapping_text("", "src:dest", false).unwrap();
    assert!(content.contains("[forward.from \"src\"]"));
    assert!(content.contains("to = dest"));
}

#[test]
fn test_add_mapping_remove() {
    let content = add_mapping_text("", "src:(Remove)", false).unwrap();
    assert!(content.contains("to = (Remove)"));
}

#[test]
fn test_add_mapping_duplicate_error() {
    let result = add_mapping_text("[forward.from \"src\"]\n    to = (Mirror)\n", "src", false);
    assert!(result.is_err());
    assert!(result.unwrap_err().message().contains("already exists"));
}

#[test]
fn test_add_mapping_duplicate_with_force() {
    add_mapping_text("[forward.from \"src\"]\n    to = (Mirror)\n", "src", true).unwrap();
}

#[test]
fn test_add_mapping_update_dest_allowed() {
    let content = add_mapping_text("[forward.from \"src\"]\n    to = old\n", "src:new", false).unwrap();
    assert!(content.contains("to = new"));
}

#[test]
fn map_modify_test_remove_mapping() {
    let content = remove_mapping_text(
        "[forward.from \"src\"]\n    to = dest\n\n[forward.from \"other\"]\n    to = other_dest\n",
        "src",
    )
    .unwrap();
    assert!(!content.contains("[forward.from \"src\"]"));
    assert!(content.contains("[forward.from \"other\"]"));
}

#[test]
fn test_remove_mapping_not_found() {
    let result = remove_mapping_text("[forward.from \"src\"]\n    to = dest\n", "nonexistent");
    assert!(result.is_err());
    assert!(result.unwrap_err().message().contains("not found"));
}

#[test]
fn add_then_remove_mapping_restores_other_sections() {
    let original = "[forward.from \"keep\"]\n    to = kept\n";
    let added = add_mapping_text(original, "lib:vendor/lib", false).unwrap();
    assert!(added.contains("[forward.from \"lib\"]"));
    let removed = remove_mapping_text(&added, "lib").unwrap();
    assert!(!removed.contains("[forward.from \"lib\"]"));
    assert!(removed.contains("[forward.from \"keep\"]"));
    assert!(removed.contains("to = kept"));
}

#[test]
fn add_mapping_false_writes_a_removal() {
    let content = add_mapping_text("", "src:false", false).unwrap();
    assert_eq!(content, "[forward.from \"src\"]\n    to = (Remove)\n");
}

#[test]
fn map_issues_block_a_pluck_unless_forced() {
    assert!(git_pluck::map::check_map_issues(&Vec::new(), false).is_ok());
    let issues = vec!["Trailing slash in source: a/".to_string(), "Erroneous colon in source: b:c".to_string()];
    assert!(git_pluck::map::check_map_issues(&issues, true).is_ok());
    let err = git_pluck::map::check_map_issues(&issues, false).unwrap_err();
    assert_eq!(err.message(), "Map validation failed:\nTrailing slash in source: a/\nErroneous colon in source: b:c");
}

#[test]
fn nesting_issues_come_after_the_others() {
    let entries = vec![
        make_entry("a", MapTarget::Mirror, vec![]),
        make_entry("a/b", MapTarget::Move("x:".to_string()), vec![]),
    ];
    let allowed = validate_map(&entries, true);
    let strict = validate_map(&entries, false);
    assert!(allowed.iter().all(|i| !i.contains("Nested")));
    assert_eq!(&strict[..allowed.len()], &allowed[..]);
    assert_eq!(strict.len(), allowed.len() + 1);
    assert!(strict[allowed.len()].contains("Nested"));
}
