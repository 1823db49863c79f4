//! The decisions of a pluck run: sanity checks on the settings, the
//! author, committer and message of each pluck commit, which parent a
//! single-commit pluck gets, when an unchanged tree is skipped, and which
//! refs are updated at the end.
use vstd::prelude::*;
use crate::cache::PluckCache;
use crate::config::PluckConfig;
use crate::error::{ErrorView, PluckError};
use crate::parent::SourceHistory;
use crate::text::{cat, find_char, join, lines, owned, str_find_char, str_join, str_lines, substring};

verus! {

// ---------------------------------------------------------------------
// Regular expressions
// ---------------------------------------------------------------------

#[verifier::external_type_specification]
#[verifier::external_body]
pub struct ExRegex(regex::Regex);

/// Whether `regex::Regex::new` accepts a pattern: it is valid syntax and
/// within the default size limit.
pub uninterp spec fn regex_compiles(pattern: Seq<char>) -> bool;

/// Whether the regex compiled from `pattern` matches somewhere in `haystack`.
pub uninterp spec fn regex_matches(pattern: Seq<char>, haystack: Seq<char>) -> bool;

/// A compiled regular expression together with its pattern.
pub struct Pattern {
    source: String,
    re: regex::Regex,
}

impl Pattern {
    /// The pattern the regex was compiled from.
    pub closed spec fn pattern(&self) -> Seq<char> {
        self.source@
    }

    /// The pattern the regex was compiled from.
    pub fn source(&self) -> (r: &str)
        ensures
            r@ == self.pattern(),
    {
        self.source.as_str()
    }
}

/// Compiles a pattern with `regex::Regex::new`; `None` where it is
/// refused. The contract claims that the outcome depends on the pattern
/// alone, and keeps the pattern beside the compiled regex.
#[verifier::external_body]
fn compile_regex(pattern: &str) -> (r: Option<Pattern>)
    ensures
        r is Some <==> regex_compiles(pattern@),
        r matches Some(p) ==> p.source@ == pattern@,
{
    match regex::Regex::new(pattern) {
        Ok(re) => Some(Pattern { source: pattern.to_string(), re }),
        Err(_) => None,
    }
}

/// `regex::Regex::is_match`: whether the regex matches anywhere in the
/// haystack. The contract claims the answer depends on the pattern the
/// regex was compiled from and the haystack alone.
#[verifier::external_body]
fn regex_is_match(p: &Pattern, haystack: &str) -> (b: bool)
    ensures
        b == regex_matches(p.source@, haystack@),
{
    p.re.is_match(haystack)
}

// ---------------------------------------------------------------------
// Sanity checks
// ---------------------------------------------------------------------

/// The first setting conflict, if any.
pub open spec fn sanity_error(c: crate::config::ConfigView) -> Option<ErrorView> {
    if c.allow_unchanged_tree && c.recursive {
        Some(ErrorView::UnchangedTreeWithRecursive)
    } else if !c.log_branch && !c.log_message {
        Some(ErrorView::NoLogMechanism)
    } else if c.rep_author_regex is Some && (c.rep_author_name is None
        || c.rep_author_email is None) {
        Some(ErrorView::AuthorRegexIncomplete)
    } else if c.rep_committer_regex is Some && (c.rep_committer_name is None
        || c.rep_committer_email is None) {
        Some(ErrorView::CommitterRegexIncomplete)
    } else {
        None
    }
}

/// Runs the pre-flight sanity checks on the settings.
pub fn validate_sanity_checks(config: &PluckConfig) -> (r: Result<(), PluckError>)
    ensures
        match sanity_error(config@) {
            None => r is Ok,
            Some(e) => (r matches Err(x) && x@ == e),
        },
{
    if config.allow_unchanged_tree && config.recursive {
        return Err(PluckError::UnchangedTreeWithRecursive);
    }
    if !config.log_branch && !config.log_message {
        return Err(PluckError::NoLogMechanism);
    }
    if config.rep_author_regex.is_some() && (config.rep_author_name.is_none()
        || config.rep_author_email.is_none()) {
        return Err(PluckError::AuthorRegexIncomplete);
    }
    if config.rep_committer_regex.is_some() && (config.rep_committer_name.is_none()
        || config.rep_committer_email.is_none()) {
        return Err(PluckError::CommitterRegexIncomplete);
    }
    Ok(())
}

// ---------------------------------------------------------------------
// Author and committer
// ---------------------------------------------------------------------

/// `s` split at its first `c`: the part before, and the rest after it if
/// there is a `c` (as `str::splitn(2, c)`).
pub open spec fn split_first(s: Seq<char>, c: char) -> (Seq<char>, Option<Seq<char>>) {
    match find_char(s, c) {
        Some(i) => (s.subrange(0, i), Some(s.subrange(i + 1, s.len() as int))),
        None => (s, None),
    }
}

/// Whether an email is replaced under `allow[:deny]`: it matches the deny
/// pattern (default `^$`; an empty one is not used), or it does not match
/// the allow pattern. A pattern that does not compile is not used.
pub open spec fn replaces_email(regex_str: Seq<char>, email: Seq<char>) -> bool {
    let (allow, deny_part) = split_first(regex_str, ':');
    let deny = match deny_part {
        Some(d) => d,
        None => "^$"@,
    };
    let deny_hit = deny.len() > 0 && regex_compiles(deny) && regex_matches(deny, email);
    let allow_miss = regex_compiles(allow) && !regex_matches(allow, email);
    deny_hit || allow_miss
}

/// Decides whether an email is replaced under an `allow[:deny]` pattern pair.
pub fn should_replace_email(regex_str: &str, email: &str) -> (b: bool)
    ensures
        b == replaces_email(regex_str@, email@),
{
    let n = regex_str.unicode_len();
    let (allow, deny) = match str_find_char(regex_str, ':') {
        Some(i) => {
            proof {
                crate::text::lemma_next_idx_bounds(regex_str@, 0, ':');
            }
            (substring(regex_str, 0, i), substring(regex_str, i + 1, n))
        },
        None => (owned(regex_str), owned("^$")),
    };
    let deny_re = if deny.unicode_len() == 0 {
        None
    } else {
        compile_regex(deny.as_str())
    };
    match &deny_re {
        Some(d) => {
            if regex_is_match(d, email) {
                return true;
            }
        },
        None => {},
    }
    match &compile_regex(allow.as_str()) {
        Some(a) => !regex_is_match(a, email),
        None => false,
    }
}

/// The `allow:deny` rule: with a deny pattern that compiles, an email that
/// it matches is replaced whatever the allow pattern says; an email that
/// the allow pattern matches and the deny pattern does not is kept. Without
/// a pattern, a set replacement name and email apply to every commit.
pub proof fn lemma_deny_overrides_allow(
    allow: Seq<char>,
    deny: Seq<char>,
    email: Seq<char>,
    rep_name: Seq<char>,
    rep_email: Seq<char>,
    name: Seq<char>,
)
    requires
        !crate::text::has_char(allow, ':'),
        deny.len() > 0,
        regex_compiles(deny),
    ensures
        regex_matches(deny, email) ==> replaces_email(allow + ":"@ + deny, email),
        regex_compiles(allow) && regex_matches(allow, email) && !regex_matches(deny, email)
            ==> !replaces_email(allow + ":"@ + deny, email),
        rep_name.len() > 0 && rep_email.len() > 0 ==> identity(
            None,
            Some(rep_name),
            Some(rep_email),
            name,
            email,
        ) == (rep_name, rep_email),
{
    reveal_strlit(":");
    let s = allow + ":"@ + deny;
    assert(s.len() == allow.len() + 1 + deny.len());
    assert(s[allow.len() as int] == ':');
    assert forall|k: int| 0 <= k < allow.len() implies s[k] != ':' by {
        assert(s[k] == allow[k]);
    }
    crate::text::lemma_next_idx_at(s, 0, allow.len() as int, ':');
    assert(s.subrange(0, allow.len() as int) =~= allow);
    assert(s.subrange(allow.len() + 1 as int, s.len() as int) =~= deny);
}

/// A replacement that is set and not empty.
pub open spec fn replacement(r: Option<Seq<char>>, cur: Seq<char>) -> Seq<char> {
    match r {
        Some(v) => if v.len() > 0 {
            v
        } else {
            cur
        },
        None => cur,
    }
}

/// The name and email a pluck commit gets: the replacements (where set
/// and not empty) apply unconditionally without a pattern, and with one
/// only when the email is to be replaced.
pub open spec fn identity(
    regex: Option<Seq<char>>,
    rep_name: Option<Seq<char>>,
    rep_email: Option<Seq<char>>,
    name: Seq<char>,
    email: Seq<char>,
) -> (Seq<char>, Seq<char>) {
    let applies = match regex {
        Some(r) => replaces_email(r, email),
        None => true,
    };
    if applies {
        (replacement(rep_name, name), replacement(rep_email, email))
    } else {
        (name, email)
    }
}

fn replaced(r: &Option<String>, cur: String) -> (s: String)
    ensures
        s@ == replacement(r.deep_view(), cur@),
{
    match r {
        Some(v) => if v.unicode_len() > 0 {
            v.clone()
        } else {
            cur
        },
        None => cur,
    }
}

fn resolve_identity(
    regex: &Option<String>,
    rep_name: &Option<String>,
    rep_email: &Option<String>,
    name: &str,
    email: &str,
) -> (r: (String, String))
    ensures
        (r.0@, r.1@) == identity(
            regex.deep_view(),
            rep_name.deep_view(),
            rep_email.deep_view(),
            name@,
            email@,
        ),
{
    let applies = match regex {
        Some(re) => should_replace_email(re.as_str(), email),
        None => true,
    };
    if applies {
        (replaced(rep_name, owned(name)), replaced(rep_email, owned(email)))
    } else {
        (owned(name), owned(email))
    }
}

/// The author name and email of a pluck commit, from the source commit's.
pub fn resolve_author(config: &PluckConfig, name: &str, email: &str) -> (r: (String, String))
    ensures
        (r.0@, r.1@) == identity(
            config@.rep_author_regex,
            config@.rep_author_name,
            config@.rep_author_email,
            name@,
            email@,
        ),
{
    resolve_identity(
        &config.rep_author_regex,
        &config.rep_author_name,
        &config.rep_author_email,
        name,
        email,
    )
}

/// The committer name and email of a pluck commit, from the source commit's.
pub fn resolve_committer(config: &PluckConfig, name: &str, email: &str) -> (r: (String, String))
    ensures
        (r.0@, r.1@) == identity(
            config@.rep_committer_regex,
            config@.rep_committer_name,
            config@.rep_committer_email,
            name@,
            email@,
        ),
{
    resolve_identity(
        &config.rep_committer_regex,
        &config.rep_committer_name,
        &config.rep_committer_email,
        name,
        email,
    )
}

// ---------------------------------------------------------------------
// The message
// ---------------------------------------------------------------------

/// The lines from position `i` that the filter pattern does not match.
pub open spec fn unmatched_lines(ls: Seq<Seq<char>>, i: int, pattern: Seq<char>) -> Seq<Seq<char>>
    decreases ls.len() - i,
{
    if i < 0 || i >= ls.len() {
        Seq::empty()
    } else if regex_matches(pattern, ls[i]) {
        unmatched_lines(ls, i + 1, pattern)
    } else {
        seq![ls[i]] + unmatched_lines(ls, i + 1, pattern)
    }
}

/// The message of a pluck commit: the replacement message if set, else the
/// source message without the lines the filter matches (joined with
/// newlines) if a filter is set, else the source message.
pub open spec fn message_for(c: crate::config::ConfigView, original: Seq<char>) -> Result<
    Seq<char>,
    ErrorView,
> {
    match c.rep_message {
        Some(m) => Ok(m),
        None => match c.rep_message_filter {
            Some(f) => if regex_compiles(f) {
                Ok(join(unmatched_lines(lines(original), 0, f), "\n"@))
            } else {
                Err(ErrorView::InvalidMessageFilter(f))
            },
            None => Ok(original),
        },
    }
}

/// Resolves the message of a pluck commit; fails where the filter pattern
/// does not compile.
pub fn resolve_message(config: &PluckConfig, original: &str) -> (r: Result<String, PluckError>)
    ensures
        match message_for(config@, original@) {
            Ok(m) => (r matches Ok(x) && x@ == m),
            Err(e) => (r matches Err(x) && x@ == e),
        },
{
    if let Some(m) = &config.rep_message {
        return Ok(m.clone());
    }
    if let Some(f) = &config.rep_message_filter {
        let re = match compile_regex(f.as_str()) {
            Some(re) => re,
            None => {
                return Err(PluckError::InvalidMessageFilter(f.clone()));
            },
        };
        let ls = str_lines(original);
        let ghost lv = ls.deep_view();
        let mut kept: Vec<String> = Vec::new();
        let mut i: usize = 0;
        assert(kept.deep_view() =~= Seq::<Seq<char>>::empty());
        while i < ls.len()
            invariant
                lv == ls.deep_view(),
                re.source@ == f@,
                0 <= i <= ls.len(),
                kept.deep_view() + unmatched_lines(lv, i as int, f@) == unmatched_lines(lv, 0, f@),
            decreases ls.len() - i,
        {
            assert(lv[i as int] == ls[i as int]@);
            if !regex_is_match(&re, ls[i].as_str()) {
                let ghost before = kept.deep_view();
                kept.push(ls[i].clone());
                assert(kept.deep_view() =~= before.push(lv[i as int]));
                assert(before + unmatched_lines(lv, i as int, f@) =~= kept.deep_view()
                    + unmatched_lines(lv, i + 1, f@));
            }
            i = i + 1;
        }
        assert(kept.deep_view() + Seq::<Seq<char>>::empty() =~= kept.deep_view());
        return Ok(str_join(&kept, "\n"));
    }
    Ok(owned(original))
}

// ---------------------------------------------------------------------
// Refs and the run's outcome
// ---------------------------------------------------------------------

/// The pluck branch of a pluck name.
pub open spec fn pluck_ref(name: Seq<char>) -> Seq<char> {
    "refs/heads/pluck/"@ + name
}

/// The log branch of a pluck name.
pub open spec fn log_ref(name: Seq<char>) -> Seq<char> {
    "refs/heads/pluck/log/"@ + name
}

/// The progress ref of a pluck name (kept for crash recovery during a run).
pub open spec fn progress_ref(name: Seq<char>) -> Seq<char> {
    "refs/heads/pluck/recovery/"@ + name
}

pub fn pluck_ref_name(name: &str) -> (r: String)
    ensures
        r@ == pluck_ref(name@),
{
    cat("refs/heads/pluck/", name)
}

pub fn log_ref_name(name: &str) -> (r: String)
    ensures
        r@ == log_ref(name@),
{
    cat("refs/heads/pluck/log/", name)
}

pub fn progress_ref_name(name: &str) -> (r: String)
    ensures
        r@ == progress_ref(name@),
{
    cat("refs/heads/pluck/recovery/", name)
}

/// The ref whose tip becomes the parent of a single-commit pluck: the
/// `--ignorant-pluck` ref when it is set and not empty, else (an empty one
/// counts as unset, as `--no-ignorant-pluck` leaves it) the pluck branch.
pub fn single_commit_parent_ref(config: &PluckConfig, pluckname: &str) -> (r: Option<String>)
    ensures
        r.deep_view() == (match config@.ignorant_pluck {
            Some(i) if i.len() > 0 => Some(i),
            _ => Some(pluck_ref(pluckname@)),
        }),
{
    match &config.ignorant_pluck {
        Some(i) => if i.unicode_len() > 0 {
            Some(i.clone())
        } else {
            Some(pluck_ref_name(pluckname))
        },
        None => Some(pluck_ref_name(pluckname)),
    }
}

/// Whether a pluck commit is skipped because its tree equals the tree of
/// its first parent (`first_parent_tree`, where that commit was found):
/// never without parents or with `allow_unchanged_tree`.
pub fn tree_unchanged(
    pluck_parents: &Vec<String>,
    allow_unchanged_tree: bool,
    first_parent_tree: Option<&str>,
    tree: &str,
) -> (b: bool)
    ensures
        b == (pluck_parents.len() > 0 && !allow_unchanged_tree && match first_parent_tree {
            Some(t) => t@ == tree@,
            None => false,
        }),
{
    if pluck_parents.len() == 0 || allow_unchanged_tree {
        return false;
    }
    match first_parent_tree {
        Some(t) => crate::text::str_eq(t, tree),
        None => false,
    }
}

/// The error of a run over `count` revisions, if it has nothing to pluck.
pub open spec fn check_outcome(count: nat, c: crate::config::ConfigView) -> Option<ErrorView> {
    if count == 0 && !c.force && !c.allow_unchanged_tree {
        Some(ErrorView::NoRevisions)
    } else {
        None
    }
}

/// Fails a run that has nothing to pluck, unless forced or unchanged
/// trees are allowed.
pub fn check_revisions(count: usize, config: &PluckConfig) -> (r: Result<(), PluckError>)
    ensures
        match check_outcome(count as nat, config@) {
            None => r is Ok,
            Some(e) => (r matches Err(x) && x@ == e),
        },
{
    if count == 0 && !config.force && !config.allow_unchanged_tree {
        Err(PluckError::NoRevisions)
    } else {
        Ok(())
    }
}

/// Fails a run that created no pluck commit, unless forced or missing
/// paths are allowed.
pub fn check_created(created: usize, config: &PluckConfig) -> (r: Result<(), PluckError>)
    ensures
        r is Ok <==> !(created == 0 && !config.force && !config.allow_missing_path),
        r matches Err(e) ==> e@ == ErrorView::NoCommitsCreated,
{
    if created == 0 && !config.force && !config.allow_missing_path {
        Err(PluckError::NoCommitsCreated)
    } else {
        Ok(())
    }
}

/// The ref updates at the end of a run.
pub struct RefPlan {
    /// The ref to point at the last pluck commit.
    pub pluck_ref: Option<String>,
    /// The log branch to extend with a log commit.
    pub log_ref: Option<String>,
    /// Whether the progress ref is deleted.
    pub delete_progress: bool,
    /// Whether the summary line is printed.
    pub summary: bool,
}

/// The final ref updates of a run, as `(pluck_ref, log_ref,
/// delete_progress, summary)`.
pub open spec fn ref_plan(
    c: crate::config::ConfigView,
    pluckname: Seq<char>,
    created_commits: nat,
    has_last_pluck: bool,
) -> (Option<Seq<char>>, Option<Seq<char>>, bool, bool) {
    if created_commits == 0 && !c.force {
        (None, None, false, false)
    } else if !has_last_pluck {
        (None, None, true, false)
    } else {
        match c.ignorant_pluck {
            Some(i) if i.len() > 0 => (Some(i), None, true, !c.quiet),
            _ => (Some(pluck_ref(pluckname)), if c.log_branch {
                Some(log_ref(pluckname))
            } else {
                None
            }, true, !c.quiet),
        }
    }
}

/// Plans the final ref updates: nothing when no commit was created and
/// `force` is off; only the progress ref's deletion without a last pluck
/// commit; else the `--ignorant-pluck` ref when it is set and not empty,
/// or (an empty one counts as unset, as `--no-ignorant-pluck` leaves it)
/// the pluck branch and, with the log branch on, the log branch.
pub fn final_ref_plan(
    config: &PluckConfig,
    pluckname: &str,
    created_commits: usize,
    has_last_pluck: bool,
) -> (p: RefPlan)
    ensures
        (p.pluck_ref.deep_view(), p.log_ref.deep_view(), p.delete_progress, p.summary) == ref_plan(
            config@,
            pluckname@,
            created_commits as nat,
            has_last_pluck,
        ),
{
    if created_commits == 0 && !config.force {
        return RefPlan { pluck_ref: None, log_ref: None, delete_progress: false, summary: false };
    }
    if !has_last_pluck {
        return RefPlan { pluck_ref: None, log_ref: None, delete_progress: true, summary: false };
    }
    let ignorant: Option<String> = match &config.ignorant_pluck {
        Some(i) => if i.unicode_len() > 0 {
            Some(i.clone())
        } else {
            None
        },
        None => None,
    };
    let (pluck_ref, log_ref) = match ignorant {
        Some(i) => (Some(i), None),
        None => (
            Some(pluck_ref_name(pluckname)),
            if config.log_branch {
                Some(log_ref_name(pluckname))
            } else {
                None
            },
        ),
    };
    RefPlan { pluck_ref, log_ref, delete_progress: true, summary: !config.quiet }
}


/// Running again with no new source commits plucks nothing: a run over no
/// revisions stops with `NoRevisions` unless it is forced or unchanged
/// trees are allowed, and a run that created no pluck commit moves neither
/// the pluck branch (nor the `--ignorant-pluck` ref) nor the log branch.
pub proof fn lemma_nothing_new_moves_no_branch(
    c: crate::config::ConfigView,
    pluckname: Seq<char>,
)
    ensures
        !c.force && !c.allow_unchanged_tree ==> check_outcome(0, c) == Some(ErrorView::NoRevisions),
        ref_plan(c, pluckname, 0, false).0 is None,
        ref_plan(c, pluckname, 0, false).1 is None,
{
}

/// The refs deleted after a failed run: the progress ref, and the log
/// branch too while the pluck branch does not exist yet (a partial first run).
pub fn cleanup_refs(pluckname: &str, pluck_branch_exists: bool) -> (r: Vec<String>)
    ensures
        r.deep_view() == (if pluck_branch_exists {
            seq![progress_ref(pluckname@)]
        } else {
            seq![progress_ref(pluckname@), log_ref(pluckname@)]
        }),
{
    let mut r: Vec<String> = Vec::new();
    r.push(progress_ref_name(pluckname));
    if !pluck_branch_exists {
        r.push(log_ref_name(pluckname));
    }
    assert(r.deep_view() =~= (if pluck_branch_exists {
        seq![progress_ref(pluckname@)]
    } else {
        seq![progress_ref(pluckname@), log_ref(pluckname@)]
    }));
    r
}


// ---------------------------------------------------------------------
// The run over the revisions
// ---------------------------------------------------------------------

/// Where a revision goes once its pluck tree is built.
pub enum TreeStep {
    /// The tree is empty: no pluck commit.
    Skip,
    /// Recursive mode: resolve the source parents to pluck parents.
    ResolveParents,
    /// Single-commit mode: the parent is the tip of `single_commit_parent_ref`.
    BranchTip,
}

/// Decides the next step of a revision whose pluck tree is built.
pub fn after_tree(tree_is_empty: bool, config: &PluckConfig) -> (t: TreeStep)
    ensures
        tree_is_empty ==> t is Skip,
        !tree_is_empty && config.recursive ==> t is ResolveParents,
        !tree_is_empty && !config.recursive ==> t is BranchTip,
{
    if tree_is_empty {
        TreeStep::Skip
    } else if config.recursive {
        TreeStep::ResolveParents
    } else {
        TreeStep::BranchTip
    }
}

/// The state of a pluck run across its revisions: the cache of pairs, the
/// source history, how many revisions were processed and pluck commits
/// created, and the last pluck commit.
pub struct PluckRun {
    pub cache: PluckCache,
    pub history: SourceHistory,
    pub processed: usize,
    pub created: usize,
    pub last_pluck: Option<String>,
}

impl PluckRun {
    /// A run that starts from the preloaded cache.
    pub fn new(cache: PluckCache) -> (r: Self)
        ensures
            r.cache == cache,
            r.history@ == Map::<Seq<char>, Seq<Seq<char>>>::empty(),
            r.processed == 0,
            r.created == 0,
            r.last_pluck is None,
    {
        PluckRun { cache, history: SourceHistory::new(), processed: 0, created: 0, last_pluck: None }
    }

    /// Starts a revision: records it and its parents in the source history.
    pub fn begin(&mut self, commit: String, parents: Vec<String>)
        requires
            old(self).processed < usize::MAX,
        ensures
            final(self).history@ == old(self).history@.insert(commit@, parents.deep_view()),
            final(self).processed == old(self).processed + 1,
            final(self).created == old(self).created,
            final(self).cache == old(self).cache,
            final(self).last_pluck == old(self).last_pluck,
    {
        self.history.prepend(commit, parents);
        self.processed = self.processed + 1;
    }

    /// Records the pluck commit created for a source commit.
    pub fn record(&mut self, source: String, pluck: String)
        requires
            old(self).created < usize::MAX,
        ensures
            final(self).cache.preload@ == old(self).cache.preload@.insert(source@, pluck@),
            final(self).cache.new_entries.deep_view() == seq![(source@, pluck@)] + old(
                self,
            ).cache.new_entries.deep_view(),
            final(self).created == old(self).created + 1,
            final(self).last_pluck.deep_view() == Some(pluck@),
            final(self).processed == old(self).processed,
            final(self).history@ == old(self).history@,
    {
        self.cache.add_new(source, pluck.clone());
        self.created = self.created + 1;
        self.last_pluck = Some(pluck);
    }
}

} // verus!
