use git_pluck::collections::StrMap;
use git_pluck::config::PluckConfig;
use git_pluck::map::{MapEntry, MapTarget};
use git_pluck::tree::{
    build_pluck_tree, find_mapping, get_base_prefix, has_dot_mirror, is_overridden, parse_ls_tree_line,
    parse_tree_dump, resolve_emplace_path, resolve_move_path, unpack_queries, TreeEntry,
};
use git_pluck::tree_objects::{mktree_batch, mktree_output_oid, tree_dirs_to_create};

fn entry(src: &str, primary: MapTarget, copies: &[&str]) -> MapEntry {
    MapEntry { src_path: src.to_string(), primary, copies: copies.iter().map(|c| c.to_string()).collect() }
}

fn item(mode: &str, kind: &str, sha: &str, path: &str) -> TreeEntry {
    TreeEntry { mode: mode.to_string(), obj_type: kind.to_string(), sha: sha.to_string(), path: path.to_string() }
}

fn paths(v: &[TreeEntry]) -> Vec<String> {
    v.iter().map(|e| e.path.clone()).collect()
}

#[test]
fn test_parse_ls_tree_blob() {
    let line = "100644 blob aaaa1111bbbb2222cccc3333dddd4444eeee5555\tsrc/file.txt";
    let entry = parse_ls_tree_line(line).unwrap();
    assert_eq!(entry.mode, "100644");
    assert_eq!(entry.obj_type, "blob");
    assert_eq!(entry.sha, "aaaa1111bbbb2222cccc3333dddd4444eeee5555");
    assert_eq!(entry.path, "src/file.txt");
}

#[test]
fn test_parse_ls_tree_tree() {
    let line = "40000 tree bbbb1111bbbb2222cccc3333dddd4444eeee5555\tsrc";
    let entry = parse_ls_tree_line(line).unwrap();
    assert_eq!(entry.mode, "40000");
    assert_eq!(entry.obj_type, "tree");
    assert_eq!(entry.path, "src");
}

#[test]
fn test_parse_ls_tree_executable() {
    let line = "100755 blob aaaa1111bbbb2222cccc3333dddd4444eeee5555\tbuild.sh";
    let entry = parse_ls_tree_line(line).unwrap();
    assert_eq!(entry.mode, "100755");
    assert_eq!(entry.path, "build.sh");
}

#[test]
fn test_parse_ls_tree_symlink() {
    let line = "120000 symlink aaaa1111bbbb2222cccc3333dddd4444eeee5555\tlink";
    let entry = parse_ls_tree_line(line).unwrap();
    assert_eq!(entry.mode, "120000");
    assert_eq!(entry.obj_type, "symlink");
}

#[test]
fn test_parse_ls_tree_no_tab_returns_none() {
    assert!(parse_ls_tree_line("no tab here").is_none());
}

#[test]
fn test_parse_ls_tree_empty_line_returns_none() {
    assert!(parse_ls_tree_line("").is_none());
}

#[test]
fn test_parse_ls_tree_too_few_parts() {
    assert!(parse_ls_tree_line("only_one\tpath").is_none());
}

#[test]
fn test_parse_ls_tree_path_with_spaces() {
    let line = "100644 blob aaaa1111bbbb2222cccc3333dddd4444eeee5555\tsrc/my file.txt";
    let entry = parse_ls_tree_line(line).unwrap();
    assert_eq!(entry.path, "src/my file.txt");
}

#[test]
fn test_get_base_prefix_none() {
    let entries = vec![entry("src", MapTarget::Move("dest".to_string()), &[])];
    assert!(get_base_prefix(&entries).is_none());
}

#[test]
fn test_get_base_prefix_move() {
    let entries = vec![entry(".", MapTarget::Move("backend".to_string()), &[])];
    assert_eq!(get_base_prefix(&entries), Some("backend".to_string()));
}

#[test]
fn test_get_base_prefix_dot_mirror() {
    let entries = vec![entry(".", MapTarget::Root, &[])];
    assert!(get_base_prefix(&entries).is_none());
}

#[test]
fn test_resolve_move_path_exact_match() {
    let path = resolve_move_path("src", "src", "dest", None, &[]);
    assert_eq!(path, "dest");
}

#[test]
fn test_resolve_move_path_nested() {
    let path = resolve_move_path("src/file.txt", "src", "dest", None, &[]);
    assert_eq!(path, "dest/file.txt");
}

#[test]
fn test_resolve_move_path_deep_nested() {
    let path = resolve_move_path("src/a/b/c.txt", "src", "dest", None, &[]);
    assert_eq!(path, "dest/a/b/c.txt");
}

#[test]
fn test_resolve_move_path_with_base_prefix() {
    let path = resolve_move_path("src/file.txt", "src", "dest", Some(&"backend".to_string()), &[]);
    assert_eq!(path, "backend/dest/file.txt");
}

#[test]
fn test_resolve_move_path_already_has_prefix() {
    let path = resolve_move_path("backend/file.txt", "backend", "backend", Some(&"backend".to_string()), &[]);
    assert_eq!(path, "backend/file.txt");
}

#[test]
fn test_find_mapping_exact() {
    let entries = vec![entry("src", MapTarget::Move("dest".to_string()), &[])];
    let mapped = find_mapping("src", &entries).unwrap();
    assert_eq!(mapped.source_key, "src");
    assert!(matches!(mapped.target, MapTarget::Move(_)));
}

#[test]
fn test_find_mapping_descendant() {
    let entries = vec![entry("src", MapTarget::Move("dest".to_string()), &[])];
    let mapped = find_mapping("src/file.txt", &entries).unwrap();
    assert_eq!(mapped.source_key, "src");
}

#[test]
fn test_find_mapping_no_match() {
    let entries = vec![entry("src", MapTarget::Move("dest".to_string()), &[])];
    assert!(find_mapping("other/file.txt", &entries).is_none());
}

#[test]
fn test_find_mapping_prefix_not_partial() {
    let entries = vec![entry("src", MapTarget::Move("dest".to_string()), &[])];
    assert!(find_mapping("srcdir/file.txt", &entries).is_none());
}

#[test]
fn test_is_overridden_exact() {
    let entries = vec![entry("docs", MapTarget::Remove, &[])];
    assert!(is_overridden("docs", &entries));
}

#[test]
fn test_is_overridden_descendant() {
    let entries = vec![entry("docs", MapTarget::Remove, &[])];
    assert!(is_overridden("docs/readme.txt", &entries));
}

#[test]
fn test_is_overridden_false() {
    let entries = vec![entry("docs", MapTarget::Remove, &[])];
    assert!(!is_overridden("src/file.txt", &entries));
}

// -- the whole tree --

fn sample_tree() -> Vec<TreeEntry> {
    let out = "040000 tree t1\tsrc\n100644 blob b1\tsrc/a.txt\n040000 tree t2\tsrc/lib\n\
100644 blob b2\tsrc/lib/x.rs\n100644 blob b3\tREADME\n040000 tree t3\tdocs\n100644 blob b4\tdocs/guide.md\n";
    parse_tree_dump(out)
}

#[test]
fn parse_tree_dump_sorts_by_path() {
    let tree = sample_tree();
    assert_eq!(
        paths(&tree),
        vec!["README", "docs", "docs/guide.md", "src", "src/a.txt", "src/lib", "src/lib/x.rs"]
    );
}

#[test]
fn pluck_tree_mirror_and_move_and_copy() {
    let tree = sample_tree();
    let map = vec![
        entry("src", MapTarget::Move("code".to_string()), &["backup"]),
        entry("README", MapTarget::Mirror, &[]),
    ];
    let built = build_pluck_tree("abc", &map, &PluckConfig::default(), &tree, &StrMap::new()).unwrap();
    assert_eq!(
        paths(&built.entries),
        vec![
            "README",
            "backup",
            "backup/a.txt",
            "backup/lib",
            "backup/lib/x.rs",
            "code",
            "code/a.txt",
            "code/lib",
            "code/lib/x.rs"
        ]
    );
    assert!(built.missing_sources.is_empty());
}

#[test]
fn pluck_tree_missing_source_errors_unless_allowed() {
    let tree = sample_tree();
    let map = vec![entry("nope", MapTarget::Mirror, &[])];
    let err = match build_pluck_tree("abc", &map, &PluckConfig::default(), &tree, &StrMap::new()) {
        Err(e) => e,
        Ok(_) => panic!("missing source must fail"),
    };
    assert_eq!(err.message(), "Mapped source 'nope' not found in commit abc");
    let config = PluckConfig { allow_missing_path: true, ..Default::default() };
    let built = build_pluck_tree("abc", &map, &config, &tree, &StrMap::new()).unwrap();
    assert!(built.entries.is_empty());
    assert_eq!(built.missing_sources, vec!["nope".to_string()]);
}

#[test]
fn pluck_tree_root_base_prefix() {
    let tree = sample_tree();
    let map = vec![entry(".", MapTarget::Move("backend".to_string()), &[])];
    assert!(has_dot_mirror(&vec![entry(".", MapTarget::Mirror, &[])]));
    let built = build_pluck_tree("abc", &map, &PluckConfig::default(), &tree, &StrMap::new()).unwrap();
    assert_eq!(
        paths(&built.entries),
        vec![
            "backend/README",
            "backend/docs",
            "backend/docs/guide.md",
            "backend/src",
            "backend/src/a.txt",
            "backend/src/lib",
            "backend/src/lib/x.rs"
        ]
    );
}

#[test]
fn pluck_tree_remove_drops_the_path_and_keeps_siblings() {
    let tree = sample_tree();
    let map = vec![entry(".", MapTarget::Mirror, &[]), entry("src/lib", MapTarget::Remove, &[])];
    let built = build_pluck_tree("abc", &map, &PluckConfig::default(), &tree, &StrMap::new()).unwrap();
    assert_eq!(paths(&built.entries), vec!["README", "docs", "docs/guide.md", "src/a.txt"]);
}

#[test]
fn pluck_tree_unpack_uses_listing() {
    let tree = sample_tree();
    let map = vec![entry("src/lib", MapTarget::Root, &[])];
    assert_eq!(unpack_queries(&tree, &map), vec!["t2".to_string(), "b2".to_string()]);
    let mut listings = StrMap::new();
    listings.insert("t2".to_string(), "100644 blob b2\tx.rs\n".to_string());
    let built = build_pluck_tree("abc", &map, &PluckConfig::default(), &tree, &listings).unwrap();
    assert_eq!(paths(&built.entries), vec!["x.rs"]);
}

#[test]
fn pluck_tree_ignores_listings_it_did_not_ask_for() {
    let tree = sample_tree();
    let map = vec![entry("src/lib", MapTarget::Root, &[])];
    let mut asked = StrMap::new();
    asked.insert("t2".to_string(), "100644 blob b2\tx.rs\n".to_string());
    let mut more = StrMap::new();
    more.insert("t3".to_string(), "100644 blob b4\tguide.md\n".to_string());
    more.insert("t2".to_string(), "100644 blob b2\tx.rs\n".to_string());
    let a = build_pluck_tree("abc", &map, &PluckConfig::default(), &tree, &asked).unwrap();
    let b = build_pluck_tree("abc", &map, &PluckConfig::default(), &tree, &more).unwrap();
    assert_eq!(paths(&a.entries), paths(&b.entries));
}

// -- tree objects --

#[test]
fn tree_dirs_deepest_first() {
    let entries = vec![item("100644", "blob", "b1", "a/b/c.txt"), item("100644", "blob", "b2", "top.txt")];
    assert_eq!(tree_dirs_to_create(&entries), vec!["a/b", "a", ""]);
}

#[test]
fn mktree_batch_lines() {
    let entries = vec![
        item("100644", "blob", "b1", "a/b/c.txt"),
        item("040000", "tree", "t0", "a/b"),
        item("100755", "blob", "b2", "top.sh"),
    ];
    let dirs = tree_dirs_to_create(&entries);
    let mut created = StrMap::new();
    assert_eq!(mktree_batch(&entries, "a/b", &dirs, &created), Some("100644 blob b1\tc.txt\n".to_string()));
    assert_eq!(mktree_batch(&entries, "a", &dirs, &created), None);
    created.insert("a/b".to_string(), "oid_ab".to_string());
    assert_eq!(mktree_batch(&entries, "a", &dirs, &created), Some("40000 tree oid_ab\tb\n".to_string()));
    created.insert("a".to_string(), "oid_a".to_string());
    assert_eq!(
        mktree_batch(&entries, "", &dirs, &created),
        Some("100755 blob b2\ttop.sh\n40000 tree oid_a\ta\n".to_string())
    );
}

#[test]
fn mktree_output_first_line() {
    assert_eq!(mktree_output_oid("  abc123 \nextra\n"), Some("abc123".to_string()));
    assert_eq!(mktree_output_oid(""), None);
}

#[test]
fn parse_tree_dump_keeps_the_order_of_equal_paths() {
    let out = "100644 blob bbbb\tz\n100644 blob 2222\ta\n100644 blob 1111\ta\n";
    let v = parse_tree_dump(out);
    let shas: Vec<String> = v.iter().map(|e| e.sha.clone()).collect();
    assert_eq!(shas, vec!["2222".to_string(), "1111".to_string(), "bbbb".to_string()]);
}

#[test]
fn pluck_tree_reuses_source_objects() {
    let tree = sample_tree();
    let map = vec![
        entry("src", MapTarget::Move("code".to_string()), &["backup"]),
        entry("docs", MapTarget::Mirror, &[]),
    ];
    let built = build_pluck_tree("abc", &map, &PluckConfig::default(), &tree, &StrMap::new()).unwrap();
    for e in &built.entries {
        assert!(tree.iter().any(|s| s.mode == e.mode && s.obj_type == e.obj_type && s.sha == e.sha));
    }
    let mut seen: Vec<&String> = built.entries.iter().map(|e| &e.path).collect();
    seen.dedup();
    assert_eq!(seen.len(), built.entries.len());
}

#[test]
fn mirroring_the_root_reproduces_the_tree() {
    let tree = sample_tree();
    let map = vec![entry(".", MapTarget::Mirror, &[])];
    let built = build_pluck_tree("abc", &map, &PluckConfig::default(), &tree, &StrMap::new()).unwrap();
    assert_eq!(paths(&built.entries), paths(&tree));
}

#[test]
fn removed_file_under_a_root_mirror_is_absent() {
    let tree = parse_tree_dump("040000 tree t\tdir\n100644 blob a\tdir/a.txt\n100644 blob b\tdir/b.txt\n");
    let map = vec![entry(".", MapTarget::Mirror, &[]), entry("dir/b.txt", MapTarget::Remove, &[])];
    let built = build_pluck_tree("abc", &map, &PluckConfig::default(), &tree, &StrMap::new()).unwrap();
    assert_eq!(paths(&built.entries), vec!["dir/a.txt"]);
}

#[test]
fn emplace_path_strips_the_prefix_at_a_slash_only() {
    let p = "backend".to_string();
    assert_eq!(resolve_emplace_path("backend", Some(&p)), "backend");
    assert_eq!(resolve_emplace_path("backendfoo", Some(&p)), "backendfoo");
    assert_eq!(resolve_emplace_path("backend/lib", Some(&p)), "lib");
    assert_eq!(resolve_emplace_path("lib", None), "lib");
}
