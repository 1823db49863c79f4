use git_pluck::cache::PluckCache;
use git_pluck::config::PluckConfig;
use git_pluck::parent::{
    build_revision_list, parse_rev_list, resolve_parents, rev_list_options, single_commit_revision,
    GitAnswers, ParentStep, RevisionQuery, SourceHistory,
};

fn strings(v: &[&str]) -> Vec<String> {
    v.iter().map(|s| s.to_string()).collect()
}

/// Resolves the parents, answering Git's questions from the given facts
/// (a commit missing from `git_parents` is unknown to Git; ancestry is
/// looked up in `reachable`, pairs of (child, ancestor)).
fn resolve_with(
    parents: &[String],
    cache: &PluckCache,
    history: &SourceHistory,
    config: &PluckConfig,
    git_parents: &[(&str, &[&str])],
    reachable: &[(&str, &str)],
) -> Vec<String> {
    let mut answers = GitAnswers::new();
    for _ in 0..100 {
        match resolve_parents(parents, cache, history, &answers, config) {
            ParentStep::Resolved(v) => return v,
            ParentStep::NeedParents(sha) => {
                let known = git_parents.iter().find(|(c, _)| *c == sha.as_str()).map(|(_, ps)| strings(ps));
                answers.record_parents(sha, known);
            }
            ParentStep::NeedAncestry(child, ancestor) => {
                let yes = child == ancestor
                    || reachable.iter().any(|(c, a)| *c == child.as_str() && *a == ancestor.as_str());
                answers.record_ancestry(child, ancestor, yes);
            }
            ParentStep::Exhausted(sha) => panic!("walk exhausted at {sha}"),
        }
    }
    panic!("too many questions");
}

#[test]
fn test_source_history_new_empty() {
    let history = SourceHistory::new();
    assert!(history.get_parents("anything").is_none());
}

#[test]
fn test_source_history_prepend_and_get() {
    let mut history = SourceHistory::new();
    history.prepend("commit1".to_string(), vec!["parent1".to_string(), "parent2".to_string()]);
    let parents = history.get_parents("commit1").unwrap();
    assert_eq!(parents.len(), 2);
    assert_eq!(parents[0], "parent1");
    assert_eq!(parents[1], "parent2");
}

#[test]
fn test_source_history_root_commit() {
    let mut history = SourceHistory::new();
    history.prepend("root_commit".to_string(), vec![]);
    let parents = history.get_parents("root_commit").unwrap();
    assert!(parents.is_empty());
}

#[test]
fn test_source_history_multiple_commits() {
    let mut history = SourceHistory::new();
    history.prepend("c1".to_string(), vec!["p1".to_string()]);
    history.prepend("c2".to_string(), vec!["p2".to_string(), "p3".to_string()]);
    history.prepend("c3".to_string(), vec![]);

    assert_eq!(history.get_parents("c1").unwrap().len(), 1);
    assert_eq!(history.get_parents("c2").unwrap().len(), 2);
    assert_eq!(history.get_parents("c3").unwrap().len(), 0);
    assert!(history.get_parents("nonexistent").is_none());
}

#[test]
fn test_build_single_commit_list_requires_git() {
    // Running git needs a repository; the parsing of its output is tested below.
}

#[test]
fn test_build_recursive_list_requires_git() {
    // Running git needs a repository; the query and its parsing are tested below.
}

#[test]
fn test_resolve_parents_empty() {
    let config = PluckConfig::default();
    let cache = PluckCache::new();
    let history = SourceHistory::new();
    let result = resolve_with(&[], &cache, &history, &config, &[], &[]);
    assert!(result.is_empty());
}

#[test]
fn test_resolve_parents_fast_path() {
    let config = PluckConfig { skip_dedup_ancestry: true, ..Default::default() };
    let mut cache = PluckCache::new();
    cache.preload.insert("parent1".to_string(), "pluck1".to_string());
    cache.preload.insert("parent2".to_string(), "pluck2".to_string());
    let history = SourceHistory::new();
    let parents = vec!["parent1".to_string(), "parent2".to_string()];
    let result = resolve_with(&parents, &cache, &history, &config, &[], &[]);
    assert_eq!(result, vec!["pluck1", "pluck2"]);
}

#[test]
fn test_resolve_parents_allow_incomplete_ancestry() {
    let config = PluckConfig { allow_incomplete_ancestry: true, ..Default::default() };
    let cache = PluckCache::new();
    let history = SourceHistory::new();
    let parents = vec!["unknown".to_string()];
    let result = resolve_with(&parents, &cache, &history, &config, &[], &[]);
    assert!(result.is_empty());
}

#[test]
fn test_resolve_parents_missing_parent_becomes_root() {
    let config = PluckConfig::default();
    let cache = PluckCache::new();
    let history = SourceHistory::new();
    let parents = vec!["unknown".to_string()];
    let result = resolve_with(&parents, &cache, &history, &config, &[], &[]);
    assert!(result.is_empty());
}

// -- the questions asked and the walk --

#[test]
fn resolve_parents_asks_git_for_unknown_commits() {
    let config = PluckConfig::default();
    let cache = PluckCache::new();
    let history = SourceHistory::new();
    let answers = GitAnswers::new();
    match resolve_parents(&["x".to_string()], &cache, &history, &answers, &config) {
        ParentStep::NeedParents(sha) => assert_eq!(sha, "x"),
        _ => panic!("expected a question about x"),
    }
}

#[test]
fn resolve_parents_walks_first_parents_to_a_cached_ancestor() {
    let config = PluckConfig::default();
    let mut cache = PluckCache::new();
    cache.add_new("a".to_string(), "pa".to_string());
    let mut history = SourceHistory::new();
    history.prepend("c".to_string(), vec!["b".to_string(), "z".to_string()]);
    let result = resolve_with(&["c".to_string()], &cache, &history, &config, &[("b", &["a"])], &[]);
    assert_eq!(result, vec!["pa"]);
}

#[test]
fn resolve_parents_merge_keeps_reachable_parents() {
    let config = PluckConfig::default();
    let mut cache = PluckCache::new();
    cache.add_new("a".to_string(), "pa".to_string());
    cache.add_new("b".to_string(), "pb".to_string());
    let history = SourceHistory::new();
    let result = resolve_with(&["a".to_string()], &cache, &history, &config, &[], &[]);
    assert_eq!(result, vec!["pa"]);
    // A merge keeps both parents even when one is reachable from the other.
    let merge = resolve_with(
        &["a".to_string(), "b".to_string()],
        &cache,
        &history,
        &config,
        &[],
        &[("pb", "pa")],
    );
    assert_eq!(merge, vec!["pa", "pb"]);
}

#[test]
fn resolve_parents_merge_removes_exact_duplicates() {
    let config = PluckConfig::default();
    let mut cache = PluckCache::new();
    cache.add_new("a".to_string(), "same".to_string());
    cache.add_new("b".to_string(), "same".to_string());
    let history = SourceHistory::new();
    let result = resolve_with(&["a".to_string(), "b".to_string()], &cache, &history, &config, &[], &[]);
    assert_eq!(result, vec!["same"]);
}

#[test]
fn resolve_parents_walk_on_a_cycle_is_exhausted() {
    let config = PluckConfig::default();
    let cache = PluckCache::new();
    let mut history = SourceHistory::new();
    history.prepend("a".to_string(), vec!["b".to_string()]);
    history.prepend("b".to_string(), vec!["a".to_string()]);
    let answers = GitAnswers::new();
    assert!(matches!(
        resolve_parents(&["a".to_string()], &cache, &history, &answers, &config),
        ParentStep::Exhausted(_)
    ));
}

#[test]
fn single_commit_revision_from_git_output() {
    let revs = single_commit_revision("abc\n", "p1 p2\n");
    assert_eq!(revs, vec![("abc".to_string(), strings(&["p1", "p2"]))]);
    let root = single_commit_revision("abc\n", "\n");
    assert_eq!(root, vec![("abc".to_string(), Vec::<String>::new())]);
}

#[test]
fn revision_list_query_by_mode() {
    let config = PluckConfig { start_ref: "main".to_string(), ..Default::default() };
    assert!(matches!(build_revision_list(&config, Some("old")), RevisionQuery::Single(s) if s == "main"));

    let config = PluckConfig {
        start_ref: "main".to_string(),
        recursive: true,
        recursive_opts: Some("true first-parent max-count:2".to_string()),
        ..Default::default()
    };
    match build_revision_list(&config, Some("old")) {
        RevisionQuery::Recursive(range, o) => {
            assert_eq!(range, "old..main");
            assert_eq!(o.git_args, vec!["first-parent"]);
            assert_eq!(o.max_count, Some(2));
        }
        RevisionQuery::Single(_) => panic!("recursive mode expected"),
    }

    let config = PluckConfig {
        start_ref: "main".to_string(),
        recursive: true,
        ignorant_pluck: Some("refs/heads/other".to_string()),
        ..Default::default()
    };
    match build_revision_list(&config, None) {
        RevisionQuery::Recursive(range, o) => {
            assert_eq!(range, "refs/heads/other..main");
            assert!(o.git_args.is_empty());
            assert_eq!(o.max_count, None);
        }
        RevisionQuery::Single(_) => panic!("recursive mode expected"),
    }
}

#[test]
fn rev_list_options_conversion() {
    let o = rev_list_options("TRUE author:me --since:2020 --no-merges --max-count=x max-count:7");
    assert_eq!(o.git_args, vec!["--author=me", "--since=2020", "--no-merges"]);
    assert_eq!(o.max_count, Some(7));
}

#[test]
fn parse_rev_list_output() {
    let out = "c1\nc2 c1\n\nc3 c2 c1\n";
    let revs = parse_rev_list(out, None);
    assert_eq!(
        revs,
        vec![
            ("c1".to_string(), Vec::<String>::new()),
            ("c2".to_string(), strings(&["c1"])),
            ("c3".to_string(), strings(&["c2", "c1"])),
        ]
    );
    let last_two = parse_rev_list(out, Some(2));
    assert_eq!(last_two.len(), 2);
    assert_eq!(last_two[0].0, "c2");
    assert_eq!(last_two[1].0, "c3");
    assert_eq!(parse_rev_list(out, Some(0)).len(), 0);
    assert_eq!(parse_rev_list(out, Some(9)).len(), 3);
}

#[test]
fn a_first_parent_cycle_exhausts_the_walk() {
    let mut history = SourceHistory::new();
    history.prepend("a".to_string(), vec!["b".to_string()]);
    history.prepend("b".to_string(), vec!["a".to_string()]);
    let cache = PluckCache::new();
    let answers = GitAnswers::new();
    let config = PluckConfig::default();
    match resolve_parents(&["a".to_string()], &cache, &history, &answers, &config) {
        ParentStep::Exhausted(sha) => assert_eq!(sha, "a"),
        _ => panic!("a cycle cannot resolve"),
    }
}

#[test]
fn a_merge_of_one_pluck_commit_gets_it_once() {
    let mut cache = PluckCache::new();
    cache.add_new("s1".to_string(), "p".to_string());
    cache.add_new("s2".to_string(), "p".to_string());
    let parents = strings(&["s1", "s2"]);
    let r = resolve_with(&parents, &cache, &SourceHistory::new(), &PluckConfig::default(), &[], &[]);
    assert_eq!(r, strings(&["p"]));
    assert!(r.len() <= parents.len());
}

#[test]
fn the_walk_stops_at_the_first_cached_ancestor() {
    let mut history = SourceHistory::new();
    history.prepend("a".to_string(), strings(&["b"]));
    history.prepend("b".to_string(), strings(&["c"]));
    history.prepend("c".to_string(), Vec::new());
    let mut cache = PluckCache::new();
    cache.add_new("c".to_string(), "pc".to_string());
    let config = PluckConfig::default();
    assert_eq!(resolve_with(&strings(&["a"]), &cache, &history, &config, &[], &[]), strings(&["pc"]));
    cache.add_new("b".to_string(), "pb".to_string());
    assert_eq!(resolve_with(&strings(&["a"]), &cache, &history, &config, &[], &[]), strings(&["pb"]));
}
