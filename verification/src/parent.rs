//! Source history and parent resolution: the revisions to pluck (from
//! `git rev-list` output), and the mapping of each source parent to its
//! pluck equivalent, walking the source history where the cache has no
//! entry, then dropping duplicate and (for linear commits) ancestor parents.
//!
//! Where this work needs an answer from Git, the functions here take the
//! answers gathered so far and name the next question.
use vstd::prelude::*;
use crate::cache::PluckCache;
use crate::collections::{assoc_map, assoc_put, key_index, lemma_assoc_put, lemma_key_index};
use crate::config::PluckConfig;
use crate::text::{
    cat, cat3, clone_strings, has_char, has_prefix, lines, lowercase, owned, parse_decimal, parse_usize,
    starts_with, str_contains_char, str_eq, str_lines, str_to_lowercase, str_trim, str_words,
    substring, trim, words,
};

verus! {

// ---------------------------------------------------------------------
// Source history
// ---------------------------------------------------------------------

/// Maps source commit shas to their parent shas.
pub struct SourceHistory {
    entries: Vec<(String, Vec<String>)>,
}

impl View for SourceHistory {
    type V = Map<Seq<char>, Seq<Seq<char>>>;

    open spec fn view(&self) -> Map<Seq<char>, Seq<Seq<char>>> {
        assoc_map(self.pairs())
    }
}

impl SourceHistory {
    pub closed spec fn pairs(&self) -> Seq<(Seq<char>, Seq<Seq<char>>)> {
        self.entries.deep_view()
    }

    /// The number of commits recorded.
    pub closed spec fn size(&self) -> nat {
        self.entries@.len()
    }

    fn count(&self) -> (n: usize)
        ensures
            n == self.size(),
    {
        self.entries.len()
    }

    /// An empty history.
    pub fn new() -> (h: Self)
        ensures
            h@ == Map::<Seq<char>, Seq<Seq<char>>>::empty(),
            h.size() == 0,
    {
        let h = SourceHistory { entries: Vec::new() };
        assert(h@ =~= Map::<Seq<char>, Seq<Seq<char>>>::empty());
        h
    }

    fn find(&self, k: &str) -> (r: Option<usize>)
        ensures
            r matches Some(i) ==> key_index(self.pairs(), k@) == i && i < self.entries.len(),
            r is None ==> key_index(self.pairs(), k@) == -1,
    {
        proof {
            lemma_key_index(self.pairs(), k@);
        }
        let mut i: usize = 0;
        while i < self.entries.len()
            invariant
                0 <= i <= self.entries.len(),
                self.pairs() == self.entries.deep_view(),
                forall|j: int| 0 <= j < i ==> self.pairs()[j].0 != k@,
            decreases self.entries.len() - i,
        {
            assert(self.pairs()[i as int].0 == self.entries[i as int].0@);
            if str_eq(self.entries[i].0.as_str(), k) {
                proof {
                    lemma_key_index(self.pairs(), k@);
                }
                return Some(i);
            }
            i = i + 1;
        }
        None
    }

    /// Records a commit and its parents (replacing what was recorded for it).
    pub fn prepend(&mut self, commit_sha: String, parents: Vec<String>)
        ensures
            final(self)@ == old(self)@.insert(commit_sha@, parents.deep_view()),
            final(self).size() <= old(self).size() + 1,
    {
        let ghost old_pairs = self.pairs();
        let ghost kv = commit_sha@;
        let ghost pv = parents.deep_view();
        proof {
            lemma_assoc_put(old_pairs, kv, pv);
            lemma_key_index(old_pairs, kv);
        }
        match self.find(commit_sha.as_str()) {
            Some(i) => {
                self.entries.set(i, (commit_sha, parents));
                assert(self.pairs() =~= old_pairs.update(i as int, (kv, pv)));
            },
            None => {
                self.entries.push((commit_sha, parents));
                assert(self.pairs() =~= old_pairs.push((kv, pv)));
            },
        }
        assert(self.pairs() == assoc_put(old_pairs, kv, pv));
    }

    /// The parents recorded for a commit.
    pub fn get_parents(&self, commit_sha: &str) -> (r: Option<&Vec<String>>)
        ensures
            r is Some <==> self@.dom().contains(commit_sha@),
            r matches Some(ps) ==> ps.deep_view() == self@[commit_sha@],
    {
        proof {
            lemma_key_index(self.pairs(), commit_sha@);
        }
        match self.find(commit_sha) {
            Some(i) => {
                assert(self.pairs()[i as int] == (
                    self.entries[i as int].0@,
                    self.entries[i as int].1.deep_view(),
                ));
                Some(&self.entries[i].1)
            },
            None => None,
        }
    }
}

// ---------------------------------------------------------------------
// The revisions to pluck
// ---------------------------------------------------------------------

/// A commit and its parents.
pub type Revision = (String, Vec<String>);

/// The revision of single-commit mode: the sha that `git rev-parse
/// --verify` printed (trimmed) and the parents that `git log -1
/// --format=%P` printed (split at whitespace).
pub fn single_commit_revision(rev_parse_out: &str, parents_out: &str) -> (r: Vec<Revision>)
    ensures
        r.len() == 1,
        r[0].0@ == trim(rev_parse_out@),
        r[0].1.deep_view() == words(trim(parents_out@)),
{
    let sha = str_trim(rev_parse_out);
    let t = str_trim(parents_out);
    let parents = str_words(t.as_str());
    vec![(sha, parents)]
}

/// The `git rev-list` range of recursive mode: from the last plucked
/// source (or the `--ignorant-pluck` ref when one is set) to the start
/// ref, or the whole history of the start ref.
pub open spec fn revision_range(
    ignorant: Option<Seq<char>>,
    start: Seq<char>,
    last: Option<Seq<char>>,
) -> Seq<char> {
    match ignorant {
        Some(i) => if i.len() > 0 {
            i + ".."@ + start
        } else {
            match last {
                Some(l) => l + ".."@ + start,
                None => start,
            }
        },
        None => match last {
            Some(l) => l + ".."@ + start,
            None => start,
        },
    }
}

pub fn rev_list_range(config: &PluckConfig, last_plucked_source: Option<&str>) -> (r: String)
    ensures
        r@ == revision_range(
            config.ignorant_pluck.deep_view(),
            config.start_ref@,
            match last_plucked_source {
                Some(l) => Some(l@),
                None => None,
            },
        ),
{
    match &config.ignorant_pluck {
        Some(i) => {
            if i.unicode_len() > 0 {
                return cat3(i.as_str(), "..", config.start_ref.as_str());
            }
        },
        None => {},
    }
    match last_plucked_source {
        Some(l) => cat3(l, "..", config.start_ref.as_str()),
        None => owned(config.start_ref.as_str()),
    }
}

/// `s` with every `a` replaced by `b`.
pub open spec fn replace_char(s: Seq<char>, a: char, b: char) -> Seq<char> {
    Seq::new(s.len(), |i: int| if s[i] == a { b } else { s[i] })
}

fn replace_char_in(s: &str, a: char, b: &str) -> (r: String)
    requires
        b@.len() == 1,
    ensures
        r@ == replace_char(s@, a, b@[0]),
{
    let v = crate::text::chars_of(s);
    let mut r = String::new();
    let mut i: usize = 0;
    while i < v.len()
        invariant
            v@ == s@,
            b@.len() == 1,
            0 <= i <= v.len(),
            r@ == replace_char(s@, a, b@[0]).take(i as int),
        decreases v.len() - i,
    {
        if v[i] == a {
            r = cat(r.as_str(), b);
        } else {
            let one = substring(s, i, i + 1);
            r = cat(r.as_str(), one.as_str());
        }
        assert(r@ =~= replace_char(s@, a, b@[0]).take(i + 1));
        i = i + 1;
    }
    assert(replace_char(s@, a, b@[0]).take(v.len() as int) =~= replace_char(s@, a, b@[0]));
    r
}

/// A `--recursive` option word as a git option: `name:value` becomes
/// `--name=value`, `--name:value` becomes `--name=value`, others stay.
pub open spec fn git_option(part: Seq<char>) -> Seq<char> {
    if has_char(part, ':') && !has_prefix(part, "-"@) {
        "--"@ + replace_char(part, ':', '=')
    } else if has_char(part, ':') {
        replace_char(part, ':', '=')
    } else {
        part
    }
}

/// How `--recursive` options reach `git rev-list`: the options passed
/// on, and a `--max-count` applied after the list is reversed.
pub struct RevListOptions {
    pub git_args: Vec<String>,
    pub max_count: Option<usize>,
}

/// What one `--recursive` option word does, given its lower-cased form:
/// `true`/`false` (any case) are skipped; a word that converts to
/// `--max-count=N` gives the count (none where `N` does not parse as a
/// `usize`, and the word is dropped); any other is passed on converted.
pub enum WordView {
    Skip,
    Count(Option<nat>),
    Arg(Seq<char>),
}

pub open spec fn option_word(part: Seq<char>, lower: Seq<char>) -> WordView {
    if lower == "true"@ || lower == "false"@ {
        WordView::Skip
    } else {
        let conv = git_option(part);
        let mc = "--max-count="@;
        if has_prefix(conv, mc) {
            WordView::Count(
                match parse_decimal(conv.subrange(mc.len() as int, conv.len() as int)) {
                    Some(k) => if k <= usize::MAX {
                        Some(k)
                    } else {
                        None
                    },
                    None => None,
                },
            )
        } else {
            WordView::Arg(conv)
        }
    }
}

/// What one `--recursive` option word does (see `WordView`).
pub enum OptionWord {
    Skip,
    Count(Option<usize>),
    Arg(String),
}

impl View for OptionWord {
    type V = WordView;

    open spec fn view(&self) -> WordView {
        match self {
            OptionWord::Skip => WordView::Skip,
            OptionWord::Count(n) => WordView::Count(
                match n {
                    Some(k) => Some(*k as nat),
                    None => None,
                },
            ),
            OptionWord::Arg(a) => WordView::Arg(a@),
        }
    }
}

/// Classifies one `--recursive` option word, given it and its lower-cased form.
pub fn rev_list_option_word(part: &str, lower: &str) -> (w: OptionWord)
    ensures
        w@ == option_word(part@, lower@),
{
    if str_eq(lower, "true") || str_eq(lower, "false") {
        return OptionWord::Skip;
    }
    proof {
        reveal_strlit("=");
    }
    let converted = if str_contains_char(part, ':') && !starts_with(part, "-") {
        let rep = replace_char_in(part, ':', "=");
        cat("--", rep.as_str())
    } else if str_contains_char(part, ':') {
        replace_char_in(part, ':', "=")
    } else {
        owned(part)
    };
    let mc = "--max-count=";
    if starts_with(converted.as_str(), mc) {
        let k = mc.unicode_len();
        let n = converted.unicode_len();
        let count = substring(converted.as_str(), k, n);
        OptionWord::Count(parse_usize(count.as_str()))
    } else {
        OptionWord::Arg(converted)
    }
}

/// The options and max count from the option words from position `i`:
/// a count sets the max count (the last one wins), an argument is passed on.
pub open spec fn options_from(
    parts: Seq<Seq<char>>,
    i: int,
    args: Seq<Seq<char>>,
    max: Option<nat>,
) -> (Seq<Seq<char>>, Option<nat>)
    decreases parts.len() - i,
{
    if i < 0 || i >= parts.len() {
        (args, max)
    } else {
        match option_word(parts[i], lowercase(parts[i])) {
            WordView::Skip => options_from(parts, i + 1, args, max),
            WordView::Count(Some(k)) => options_from(parts, i + 1, args, Some(k)),
            WordView::Count(None) => options_from(parts, i + 1, args, max),
            WordView::Arg(a) => options_from(parts, i + 1, args.push(a), max),
        }
    }
}

/// Converts the `--recursive` options (`recursiveOpts`) for `git rev-list`.
pub fn rev_list_options(opts: &str) -> (r: RevListOptions)
    ensures
        ({
            let o = options_from(words(opts@), 0, Seq::empty(), None);
            &&& r.git_args.deep_view() == o.0
            &&& match r.max_count {
                Some(n) => o.1 == Some(n as nat),
                None => o.1 is None,
            }
        }),
{
    let parts = str_words(opts);
    let ghost pv = parts.deep_view();
    let mut git_args: Vec<String> = Vec::new();
    let mut max_count: Option<usize> = None;
    let ghost target = options_from(pv, 0, Seq::empty(), None);
    assert(git_args.deep_view() =~= Seq::<Seq<char>>::empty());
    let mut i: usize = 0;
    while i < parts.len()
        invariant
            pv == parts.deep_view(),
            0 <= i <= parts.len(),
            options_from(
                pv,
                i as int,
                git_args.deep_view(),
                match max_count {
                    Some(n) => Some(n as nat),
                    None => None,
                },
            ) == target,
        decreases parts.len() - i,
    {
        let part = &parts[i];
        assert(pv[i as int] == part@);
        let lower = str_to_lowercase(part.as_str());
        match rev_list_option_word(part.as_str(), lower.as_str()) {
            OptionWord::Skip => {},
            OptionWord::Count(Some(c)) => {
                max_count = Some(c);
            },
            OptionWord::Count(None) => {},
            OptionWord::Arg(a) => {
                let ghost before = git_args.deep_view();
                let ghost av = a@;
                git_args.push(a);
                assert(git_args.deep_view() =~= before.push(av));
            },
        }
        i = i + 1;
    }
    RevListOptions { git_args, max_count }
}

/// The Git query that lists the revisions to pluck.
pub enum RevisionQuery {
    /// Single-commit mode: the start ref, to resolve with `git rev-parse
    /// --verify` and read the parents of (`single_commit_revision`).
    Single(String),
    /// Recursive mode: `git rev-list --reverse --topo-order --parents
    /// <range> <git args>`, then the first `max_count` revisions (`parse_rev_list`).
    Recursive(String, RevListOptions),
}

/// Plans the listing of the revisions to pluck: the start ref alone, or
/// in recursive mode the range since the last plucked source with the
/// `--recursive` options.
pub fn build_revision_list(config: &PluckConfig, last_plucked_source: Option<&str>) -> (q:
    RevisionQuery)
    ensures
        !config.recursive ==> (q matches RevisionQuery::Single(s) && s@ == config.start_ref@),
        config.recursive ==> (q matches RevisionQuery::Recursive(range, o) && range@
            == revision_range(
            config.ignorant_pluck.deep_view(),
            config.start_ref@,
            match last_plucked_source {
                Some(l) => Some(l@),
                None => None,
            },
        ) && ({
            let opts = match config.recursive_opts.deep_view() {
                Some(text) => options_from(words(text), 0, Seq::empty(), None),
                None => (Seq::<Seq<char>>::empty(), None::<nat>),
            };
            &&& o.git_args.deep_view() == opts.0
            &&& match o.max_count {
                Some(n) => opts.1 == Some(n as nat),
                None => opts.1 is None,
            }
        })),
{
    if !config.recursive {
        return RevisionQuery::Single(config.start_ref.clone());
    }
    let range = rev_list_range(config, last_plucked_source);
    let options = match &config.recursive_opts {
        Some(text) => rev_list_options(text.as_str()),
        None => {
            let o = RevListOptions { git_args: Vec::new(), max_count: None };
            assert(o.git_args.deep_view() =~= Seq::<Seq<char>>::empty());
            o
        },
    };
    RevisionQuery::Recursive(range, options)
}

/// The revisions that `git rev-list --parents` lines from position `i`
/// describe: the first word is the commit, the rest its parents; blank
/// lines are skipped.
pub open spec fn revisions_from(ls: Seq<Seq<char>>, i: int) -> Seq<(Seq<char>, Seq<Seq<char>>)>
    decreases ls.len() - i,
{
    if i < 0 || i >= ls.len() {
        Seq::empty()
    } else {
        let ws = words(ls[i]);
        if ws.len() == 0 {
            revisions_from(ls, i + 1)
        } else {
            seq![(ws[0], ws.drop_first())] + revisions_from(ls, i + 1)
        }
    }
}

/// The last `n` items of `s`, or all of them.
pub open spec fn truncated<T>(s: Seq<T>, n: Option<nat>) -> Seq<T> {
    match n {
        Some(k) => if k < s.len() {
            s.skip(s.len() - k)
        } else {
            s
        },
        None => s,
    }
}

/// Parses `git rev-list --reverse --topo-order --parents` output (oldest
/// first), keeping the last `max_count` revisions, the newest ones, when a
/// count is given.
pub fn parse_rev_list(out: &str, max_count: Option<usize>) -> (r: Vec<Revision>)
    ensures
        r.deep_view() == truncated(
            revisions_from(lines(out@), 0),
            match max_count {
                Some(n) => Some(n as nat),
                None => None,
            },
        ),
{
    let ls = str_lines(out);
    let ghost lv = ls.deep_view();
    let mut r: Vec<Revision> = Vec::new();
    let mut i: usize = 0;
    assert(r.deep_view() =~= Seq::<(Seq<char>, Seq<Seq<char>>)>::empty());
    while i < ls.len()
        invariant
            lv == ls.deep_view(),
            lv == lines(out@),
            0 <= i <= ls.len(),
            r.deep_view() + revisions_from(lv, i as int) == revisions_from(lv, 0),
        decreases ls.len() - i,
    {
        assert(lv[i as int] == ls[i as int]@);
        let ws = str_words(ls[i].as_str());
        let ghost wv = ws.deep_view();
        if ws.len() > 0 {
            let mut parents: Vec<String> = Vec::new();
            let mut k: usize = 1;
            assert(parents.deep_view() =~= wv.drop_first().take(0));
            while k < ws.len()
                invariant
                    wv == ws.deep_view(),
                    1 <= k <= ws.len(),
                    parents.deep_view() == wv.drop_first().take(k - 1),
                decreases ws.len() - k,
            {
                assert(wv[k as int] == ws[k as int]@);
                let ghost before = parents.deep_view();
                parents.push(ws[k].clone());
                assert(parents.deep_view() =~= before.push(wv[k as int]));
                assert(wv.drop_first()[k - 1] == wv[k as int]);
                assert(parents.deep_view() =~= wv.drop_first().take(k as int));
                k = k + 1;
            }
            assert(wv.drop_first().take(ws.len() - 1) =~= wv.drop_first());
            assert(wv[0] == ws[0]@);
            let ghost before = r.deep_view();
            r.push((ws[0].clone(), parents));
            assert(r.deep_view() =~= before.push((wv[0], wv.drop_first())));
            assert(before + revisions_from(lv, i as int) =~= r.deep_view() + revisions_from(
                lv,
                i + 1,
            ));
        }
        i = i + 1;
    }
    assert(r.deep_view() + Seq::<(Seq<char>, Seq<Seq<char>>)>::empty() =~= r.deep_view());
    match max_count {
        Some(n) => {
            if n < r.len() {
                let ghost all = r.deep_view();
                let at = r.len() - n;
                let last = r.split_off(at);
                assert(last.deep_view() =~= all.skip(at as int));
                return last;
            }
        },
        None => {},
    }
    r
}


// ---------------------------------------------------------------------
// Answers gathered from Git
// ---------------------------------------------------------------------

/// What Git answered so far: the parents of commits outside the recorded
/// history (`None` where Git does not know the commit), and whether one
/// commit is an ancestor of another.
pub struct GitAnswers {
    parents: Vec<(String, Option<Vec<String>>)>,
    ancestry: Vec<(String, String, bool)>,
}

/// The first recorded answer to "is `ancestor` reachable from `child`",
/// from position `i`.
pub open spec fn ancestry_answer_from(
    s: Seq<(Seq<char>, Seq<char>, bool)>,
    child: Seq<char>,
    ancestor: Seq<char>,
    i: int,
) -> Option<bool>
    decreases s.len() - i,
{
    if i < 0 || i >= s.len() {
        None
    } else if s[i].0 == child && s[i].1 == ancestor {
        Some(s[i].2)
    } else {
        ancestry_answer_from(s, child, ancestor, i + 1)
    }
}

pub open spec fn ancestry_answer(
    s: Seq<(Seq<char>, Seq<char>, bool)>,
    child: Seq<char>,
    ancestor: Seq<char>,
) -> Option<bool> {
    ancestry_answer_from(s, child, ancestor, 0)
}

impl GitAnswers {
    /// The parents answers, by commit.
    pub closed spec fn parents_view(&self) -> Map<Seq<char>, Option<Seq<Seq<char>>>> {
        assoc_map(self.parents.deep_view())
    }

    /// The number of parents answers recorded.
    pub closed spec fn parents_count(&self) -> nat {
        self.parents@.len()
    }

    /// The ancestry answers, in the order recorded.
    pub closed spec fn ancestry_view(&self) -> Seq<(Seq<char>, Seq<char>, bool)> {
        self.ancestry.deep_view()
    }

    pub fn new() -> (a: Self)
        ensures
            a.parents_view() == Map::<Seq<char>, Option<Seq<Seq<char>>>>::empty(),
            a.parents_count() == 0,
            a.ancestry_view() == Seq::<(Seq<char>, Seq<char>, bool)>::empty(),
    {
        let a = GitAnswers { parents: Vec::new(), ancestry: Vec::new() };
        assert(a.parents_view() =~= Map::<Seq<char>, Option<Seq<Seq<char>>>>::empty());
        assert(a.ancestry_view() =~= Seq::<(Seq<char>, Seq<char>, bool)>::empty());
        a
    }

    /// Records what `git log -1 --format=%P <sha>` gave: the parents, or
    /// `None` where Git does not know the commit.
    pub fn record_parents(&mut self, sha: String, parents: Option<Vec<String>>)
        ensures
            final(self).parents_view() == old(self).parents_view().insert(sha@, parents.deep_view()),
            final(self).parents_count() <= old(self).parents_count() + 1,
            final(self).ancestry_view() == old(self).ancestry_view(),
    {
        let ghost old_pairs = self.parents.deep_view();
        let ghost kv = sha@;
        let ghost pv = parents.deep_view();
        proof {
            lemma_assoc_put(old_pairs, kv, pv);
            lemma_key_index(old_pairs, kv);
        }
        let mut i: usize = 0;
        while i < self.parents.len()
            invariant
                0 <= i <= self.parents.len(),
                old_pairs == self.parents.deep_view(),
                old_pairs == old(self).parents.deep_view(),
                kv == sha@,
                pv == parents.deep_view(),
                self.ancestry == old(self).ancestry,
                forall|j: int| 0 <= j < i ==> old_pairs[j].0 != kv,
            decreases self.parents.len() - i,
        {
            assert(old_pairs[i as int].0 == self.parents[i as int].0@);
            if str_eq(self.parents[i].0.as_str(), sha.as_str()) {
                proof {
                    lemma_key_index(old_pairs, kv);
                    lemma_assoc_put(old_pairs, kv, pv);
                }
                self.parents.set(i, (sha, parents));
                assert(self.parents.deep_view() =~= old_pairs.update(i as int, (kv, pv)));
                assert(self.parents.deep_view() == assoc_put(old_pairs, kv, pv));
                return;
            }
            i = i + 1;
        }
        self.parents.push((sha, parents));
        assert(self.parents.deep_view() =~= old_pairs.push((kv, pv)));
    }

    /// Records whether `ancestor` is reachable from `child`.
    pub fn record_ancestry(&mut self, child: String, ancestor: String, answer: bool)
        ensures
            final(self).ancestry_view() == old(self).ancestry_view().push((child@, ancestor@, answer)),
            final(self).parents_view() == old(self).parents_view(),
            final(self).parents_count() == old(self).parents_count(),
    {
        let ghost old_s = self.ancestry.deep_view();
        let ghost item = (child@, ancestor@, answer);
        self.ancestry.push((child, ancestor, answer));
        assert(self.ancestry.deep_view() =~= old_s.push(item));
    }

    fn parents_len(&self) -> (n: usize)
        ensures
            n == self.parents_count(),
    {
        self.parents.len()
    }

    fn parents_of(&self, sha: &str) -> (r: Option<&Option<Vec<String>>>)
        ensures
            r is Some <==> self.parents_view().dom().contains(sha@),
            r matches Some(a) ==> a.deep_view() == self.parents_view()[sha@],
    {
        let ghost pairs = self.parents.deep_view();
        proof {
            lemma_key_index(pairs, sha@);
        }
        let mut i: usize = 0;
        while i < self.parents.len()
            invariant
                0 <= i <= self.parents.len(),
                pairs == self.parents.deep_view(),
                forall|j: int| 0 <= j < i ==> pairs[j].0 != sha@,
            decreases self.parents.len() - i,
        {
            assert(pairs[i as int] == (
                self.parents[i as int].0@,
                self.parents[i as int].1.deep_view(),
            ));
            if str_eq(self.parents[i].0.as_str(), sha) {
                proof {
                    lemma_key_index(pairs, sha@);
                }
                return Some(&self.parents[i].1);
            }
            i = i + 1;
        }
        proof {
            lemma_key_index(pairs, sha@);
        }
        None
    }

    fn ancestry_of(&self, child: &str, ancestor: &str) -> (r: Option<bool>)
        ensures
            r == ancestry_answer(self.ancestry_view(), child@, ancestor@),
    {
        let ghost s = self.ancestry.deep_view();
        let mut i: usize = 0;
        while i < self.ancestry.len()
            invariant
                0 <= i <= self.ancestry.len(),
                s == self.ancestry.deep_view(),
                ancestry_answer_from(s, child@, ancestor@, i as int) == ancestry_answer(
                    s,
                    child@,
                    ancestor@,
                ),
            decreases self.ancestry.len() - i,
        {
            assert(s[i as int] == (
                self.ancestry[i as int].0@,
                self.ancestry[i as int].1@,
                self.ancestry[i as int].2,
            ));
            if str_eq(self.ancestry[i].0.as_str(), child) && str_eq(
                self.ancestry[i].1.as_str(),
                ancestor,
            ) {
                return Some(self.ancestry[i].2);
            }
            i = i + 1;
        }
        None
    }
}


// ---------------------------------------------------------------------
// Resolving parents
// ---------------------------------------------------------------------

/// How an ancestry walk from a source parent ends.
pub enum WalkView {
    /// At a commit the cache maps to this pluck sha.
    Found(Seq<char>),
    /// At a root, or a commit Git does not know: no pluck parent.
    Root,
    /// At a commit whose parents are neither recorded nor answered yet.
    Ask(Seq<char>),
    /// Still going after as many steps as there are recorded commits.
    Exhausted(Seq<char>),
}

/// The walk from `cur`: stop at the first commit the cache maps, else go
/// to the first parent (from the history, else from Git's answers).
pub open spec fn walk(
    cur: Seq<char>,
    cache: Map<Seq<char>, Seq<char>>,
    hist: Map<Seq<char>, Seq<Seq<char>>>,
    git: Map<Seq<char>, Option<Seq<Seq<char>>>>,
    fuel: nat,
) -> WalkView
    decreases fuel,
{
    if cache.dom().contains(cur) {
        WalkView::Found(cache[cur])
    } else {
        let known: Option<Option<Seq<Seq<char>>>> = if hist.dom().contains(cur) {
            Some(Some(hist[cur]))
        } else if git.dom().contains(cur) {
            Some(git[cur])
        } else {
            None
        };
        match known {
            None => WalkView::Ask(cur),
            Some(None) => WalkView::Root,
            Some(Some(ps)) => if ps.len() == 0 {
                WalkView::Root
            } else if fuel == 0 {
                WalkView::Exhausted(cur)
            } else {
                walk(ps[0], cache, hist, git, (fuel - 1) as nat)
            },
        }
    }
}

/// The first parent of `c` as the walk takes it: from the history, else
/// from Git's answers.
pub open spec fn first_parent(
    c: Seq<char>,
    hist: Map<Seq<char>, Seq<Seq<char>>>,
    git: Map<Seq<char>, Option<Seq<Seq<char>>>>,
) -> Seq<char> {
    if hist.dom().contains(c) {
        hist[c][0]
    } else {
        match git[c] {
            Some(ps) => ps[0],
            None => c,
        }
    }
}

/// The commit `n` first-parent steps up from `c`.
pub open spec fn chain(
    c: Seq<char>,
    hist: Map<Seq<char>, Seq<Seq<char>>>,
    git: Map<Seq<char>, Option<Seq<Seq<char>>>>,
    n: nat,
) -> Seq<char>
    decreases n,
{
    if n == 0 {
        c
    } else {
        chain(first_parent(c, hist, git), hist, git, (n - 1) as nat)
    }
}

proof fn lemma_exhausted_chain_known(
    c: Seq<char>,
    cache: Map<Seq<char>, Seq<char>>,
    hist: Map<Seq<char>, Seq<Seq<char>>>,
    git: Map<Seq<char>, Option<Seq<Seq<char>>>>,
    fuel: nat,
)
    requires
        walk(c, cache, hist, git, fuel) is Exhausted,
    ensures
        forall|k: nat|
            k <= fuel ==> hist.dom().contains(#[trigger] chain(c, hist, git, k)) || git.dom().contains(
                chain(c, hist, git, k),
            ),
    decreases fuel,
{
    if fuel > 0 {
        let next = first_parent(c, hist, git);
        lemma_exhausted_chain_known(next, cache, hist, git, (fuel - 1) as nat);
        assert forall|k: nat| k <= fuel implies hist.dom().contains(#[trigger] chain(c, hist, git, k))
            || git.dom().contains(chain(c, hist, git, k)) by {
            if k > 0 {
                assert(chain(c, hist, git, k) == chain(next, hist, git, (k - 1) as nat));
            }
        }
    }
}

proof fn lemma_assoc_keys<V>(s: Seq<(Seq<char>, V)>)
    ensures
        assoc_map(s).dom().subset_of(s.map_values(|p: (Seq<char>, V)| p.0).to_set()),
        s.map_values(|p: (Seq<char>, V)| p.0).to_set().finite(),
        s.map_values(|p: (Seq<char>, V)| p.0).to_set().len() <= s.len(),
{
    let keys = s.map_values(|p: (Seq<char>, V)| p.0);
    assert forall|k: Seq<char>| assoc_map(s).dom().contains(k) implies keys.to_set().contains(k) by {
        lemma_key_index(s, k);
        assert(keys[key_index(s, k)] == k);
    }
    keys.lemma_cardinality_of_set();
    vstd::seq_lib::seq_to_set_is_finite(keys);
}

/// The walk finds the first cached commit up the first-parent chain: where
/// it finds pluck commit `p`, some commit `n` steps up is cached with `p`,
/// and none of the commits before it is cached.
pub proof fn lemma_walk_finds_first_cached_ancestor(
    c: Seq<char>,
    cache: Map<Seq<char>, Seq<char>>,
    hist: Map<Seq<char>, Seq<Seq<char>>>,
    git: Map<Seq<char>, Option<Seq<Seq<char>>>>,
    fuel: nat,
)
    ensures
        walk(c, cache, hist, git, fuel) matches WalkView::Found(p) ==> exists|n: nat|
            #![trigger chain(c, hist, git, n)]
            n <= fuel && cache.dom().contains(chain(c, hist, git, n)) && cache[chain(c, hist, git, n)]
                == p && forall|m: nat| m < n ==> !cache.dom().contains(#[trigger] chain(c, hist, git, m)),
    decreases fuel,
{
    if let WalkView::Found(p) = walk(c, cache, hist, git, fuel) {
        if cache.dom().contains(c) {
            assert(chain(c, hist, git, 0) == c);
        } else {
            let next = first_parent(c, hist, git);
            lemma_walk_finds_first_cached_ancestor(next, cache, hist, git, (fuel - 1) as nat);
            let n = choose|n: nat|
                #![trigger chain(next, hist, git, n)]
                n <= fuel - 1 && cache.dom().contains(chain(next, hist, git, n)) && cache[chain(
                    next,
                    hist,
                    git,
                    n,
                )] == p && forall|m: nat|
                    m < n ==> !cache.dom().contains(#[trigger] chain(next, hist, git, m));
            assert(chain(c, hist, git, n + 1) == chain(next, hist, git, n));
            assert forall|m: nat| m < n + 1 implies !cache.dom().contains(
                #[trigger] chain(c, hist, git, m),
            ) by {
                if m > 0 {
                    assert(chain(c, hist, git, m) == chain(next, hist, git, (m - 1) as nat));
                }
            }
        }
    }
}

/// The walk from a source parent gives up only on a first-parent chain
/// that comes back to a commit: with as many steps as there are recorded
/// commits (`hist` and `git` as the pairs they were recorded from), an
/// exhausted walk has met one commit twice. A Git history has no such
/// chain, so there the walk always ends.
pub proof fn lemma_exhausted_walk_repeats(
    c: Seq<char>,
    cache: Map<Seq<char>, Seq<char>>,
    hist: Seq<(Seq<char>, Seq<Seq<char>>)>,
    git: Seq<(Seq<char>, Option<Seq<Seq<char>>>)>,
)
    requires
        walk(c, cache, assoc_map(hist), assoc_map(git), (hist.len() + git.len()) as nat) is Exhausted,
    ensures
        exists|a: nat, b: nat|
            a < b <= hist.len() + git.len() && chain(c, assoc_map(hist), assoc_map(git), a) == chain(
                c,
                assoc_map(hist),
                assoc_map(git),
                b,
            ),
{
    let h = assoc_map(hist);
    let g = assoc_map(git);
    let fuel = (hist.len() + git.len()) as nat;
    lemma_exhausted_chain_known(c, cache, h, g, fuel);
    lemma_assoc_keys(hist);
    lemma_assoc_keys(git);
    let hk = hist.map_values(|p: (Seq<char>, Seq<Seq<char>>)| p.0).to_set();
    let gk = git.map_values(|p: (Seq<char>, Option<Seq<Seq<char>>>)| p.0).to_set();
    let known = hk.union(gk);
    vstd::set_lib::lemma_len_union(hk, gk);
    let steps = Seq::new(fuel + 1, |k: int| chain(c, h, g, k as nat));
    assert forall|x: Seq<char>| steps.to_set().contains(x) implies known.contains(x) by {
        let k = choose|k: int| 0 <= k < steps.len() && steps[k] == x;
        assert(steps[k] == chain(c, h, g, k as nat));
    }
    vstd::set_lib::lemma_len_subset(steps.to_set(), known);
    if steps.no_duplicates() {
        steps.unique_seq_to_set();
        assert(false);
    }
    let (a, b) = choose|a: int, b: int|
        0 <= a < steps.len() && 0 <= b < steps.len() && a != b && steps[a] == steps[b];
    if a < b {
        assert(chain(c, h, g, a as nat) == chain(c, h, g, b as nat));
    } else {
        assert(chain(c, h, g, b as nat) == chain(c, h, g, a as nat));
    }
}

/// The outcome of resolving the parents of a source commit.
pub enum StepView {
    Resolved(Seq<Seq<char>>),
    NeedParents(Seq<char>),
    NeedAncestry(Seq<char>, Seq<char>),
    Exhausted(Seq<char>),
}

/// The outcome of resolving the parents of a source commit: the pluck
/// parents, or the Git question to answer first (the parents of a commit,
/// or whether the second commit is reachable from the first), or the commit
/// where an ancestry walk went on longer than the recorded history.
pub enum ParentStep {
    Resolved(Vec<String>),
    NeedParents(String),
    NeedAncestry(String, String),
    Exhausted(String),
}

impl View for ParentStep {
    type V = StepView;

    open spec fn view(&self) -> StepView {
        match self {
            ParentStep::Resolved(v) => StepView::Resolved(v.deep_view()),
            ParentStep::NeedParents(s) => StepView::NeedParents(s@),
            ParentStep::NeedAncestry(c, a) => StepView::NeedAncestry(c@, a@),
            ParentStep::Exhausted(s) => StepView::Exhausted(s@),
        }
    }
}

/// The pluck parents of the source parents from position `i`, in order;
/// those whose walk ends at a root are dropped.
pub open spec fn resolve_from(
    ps: Seq<Seq<char>>,
    i: int,
    acc: Seq<Seq<char>>,
    cache: Map<Seq<char>, Seq<char>>,
    hist: Map<Seq<char>, Seq<Seq<char>>>,
    git: Map<Seq<char>, Option<Seq<Seq<char>>>>,
    fuel: nat,
) -> StepView
    decreases ps.len() - i,
{
    if i < 0 || i >= ps.len() {
        StepView::Resolved(acc)
    } else {
        match walk(ps[i], cache, hist, git, fuel) {
            WalkView::Found(p) => resolve_from(ps, i + 1, acc.push(p), cache, hist, git, fuel),
            WalkView::Root => resolve_from(ps, i + 1, acc, cache, hist, git, fuel),
            WalkView::Ask(s) => StepView::NeedParents(s),
            WalkView::Exhausted(s) => StepView::Exhausted(s),
        }
    }
}

/// The items from position `i` not seen before, in order of first occurrence.
pub open spec fn first_occurrences(ps: Seq<Seq<char>>, i: int, acc: Seq<Seq<char>>) -> Seq<Seq<char>>
    decreases ps.len() - i,
{
    if i < 0 || i >= ps.len() {
        acc
    } else if acc.contains(ps[i]) {
        first_occurrences(ps, i + 1, acc)
    } else {
        first_occurrences(ps, i + 1, acc.push(ps[i]))
    }
}

/// Whether `a` is reachable from some kept parent from position `j`
/// (asked in order, stopping at the first yes); `Err` names the first
/// question not answered yet.
pub open spec fn covered_by(
    ds: Seq<Seq<char>>,
    j: int,
    a: Seq<char>,
    anc: Seq<(Seq<char>, Seq<char>, bool)>,
) -> Result<bool, (Seq<char>, Seq<char>)>
    decreases ds.len() - j,
{
    if j < 0 || j >= ds.len() {
        Ok(false)
    } else {
        match ancestry_answer(anc, ds[j], a) {
            None => Err((ds[j], a)),
            Some(true) => Ok(true),
            Some(false) => covered_by(ds, j + 1, a, anc),
        }
    }
}

/// The kept parents from position `j` that are not reachable from `a`.
pub open spec fn not_below(
    ds: Seq<Seq<char>>,
    j: int,
    a: Seq<char>,
    anc: Seq<(Seq<char>, Seq<char>, bool)>,
) -> Result<Seq<Seq<char>>, (Seq<char>, Seq<char>)>
    decreases ds.len() - j,
{
    if j < 0 || j >= ds.len() {
        Ok(Seq::empty())
    } else {
        match ancestry_answer(anc, a, ds[j]) {
            None => Err((a, ds[j])),
            Some(x) => match not_below(ds, j + 1, a, anc) {
                Ok(rest) => Ok(
                    if x {
                        rest
                    } else {
                        seq![ds[j]] + rest
                    },
                ),
                Err(q) => Err(q),
            },
        }
    }
}

/// Linear-commit deduplication from position `i`: a parent reachable from
/// one already kept is dropped; otherwise the kept ones reachable from it
/// are dropped and it is kept.
pub open spec fn drop_ancestors_from(
    rs: Seq<Seq<char>>,
    i: int,
    ds: Seq<Seq<char>>,
    anc: Seq<(Seq<char>, Seq<char>, bool)>,
) -> Result<Seq<Seq<char>>, (Seq<char>, Seq<char>)>
    decreases rs.len() - i,
{
    if i < 0 || i >= rs.len() {
        Ok(ds)
    } else {
        match covered_by(ds, 0, rs[i], anc) {
            Err(q) => Err(q),
            Ok(true) => drop_ancestors_from(rs, i + 1, ds, anc),
            Ok(false) => match not_below(ds, 0, rs[i], anc) {
                Err(q) => Err(q),
                Ok(k) => drop_ancestors_from(rs, i + 1, k.push(rs[i]), anc),
            },
        }
    }
}

/// Deduplication of resolved parents: unless skipped, exact duplicates go;
/// for a linear commit (at most one source parent) ancestors go too.
pub open spec fn deduped(
    rs: Seq<Seq<char>>,
    source_count: nat,
    skip: bool,
    anc: Seq<(Seq<char>, Seq<char>, bool)>,
) -> StepView {
    if skip {
        StepView::Resolved(rs)
    } else {
        let u = first_occurrences(rs, 0, Seq::empty());
        if source_count > 1 {
            StepView::Resolved(u)
        } else {
            match drop_ancestors_from(u, 0, Seq::empty(), anc) {
                Ok(d) => StepView::Resolved(d),
                Err((c, a)) => StepView::NeedAncestry(c, a),
            }
        }
    }
}

/// The outcome of resolving source parents with the answers known so far.
pub open spec fn parent_step(
    ps: Seq<Seq<char>>,
    cache: Map<Seq<char>, Seq<char>>,
    hist: Map<Seq<char>, Seq<Seq<char>>>,
    git: Map<Seq<char>, Option<Seq<Seq<char>>>>,
    anc: Seq<(Seq<char>, Seq<char>, bool)>,
    fuel: nat,
    skip: bool,
) -> StepView {
    match resolve_from(ps, 0, Seq::empty(), cache, hist, git, fuel) {
        StepView::Resolved(rs) => deduped(rs, ps.len(), skip, anc),
        other => other,
    }
}


proof fn lemma_resolve_from_len(
    ps: Seq<Seq<char>>,
    i: int,
    acc: Seq<Seq<char>>,
    cache: Map<Seq<char>, Seq<char>>,
    hist: Map<Seq<char>, Seq<Seq<char>>>,
    git: Map<Seq<char>, Option<Seq<Seq<char>>>>,
    fuel: nat,
)
    requires
        0 <= i <= ps.len(),
    ensures
        resolve_from(ps, i, acc, cache, hist, git, fuel) matches StepView::Resolved(rs) ==> rs.len()
            <= acc.len() + ps.len() - i,
    decreases ps.len() - i,
{
    if i < ps.len() {
        match walk(ps[i], cache, hist, git, fuel) {
            WalkView::Found(p) => lemma_resolve_from_len(ps, i + 1, acc.push(p), cache, hist, git, fuel),
            WalkView::Root => lemma_resolve_from_len(ps, i + 1, acc, cache, hist, git, fuel),
            _ => {},
        }
    }
}

proof fn lemma_first_occurrences_len(ps: Seq<Seq<char>>, i: int, acc: Seq<Seq<char>>)
    requires
        0 <= i <= ps.len(),
    ensures
        first_occurrences(ps, i, acc).len() <= acc.len() + ps.len() - i,
    decreases ps.len() - i,
{
    if i < ps.len() {
        if acc.contains(ps[i]) {
            lemma_first_occurrences_len(ps, i + 1, acc);
        } else {
            lemma_first_occurrences_len(ps, i + 1, acc.push(ps[i]));
        }
    }
}

proof fn lemma_not_below_len(
    ds: Seq<Seq<char>>,
    j: int,
    a: Seq<char>,
    anc: Seq<(Seq<char>, Seq<char>, bool)>,
)
    requires
        0 <= j <= ds.len(),
    ensures
        not_below(ds, j, a, anc) matches Ok(k) ==> k.len() <= ds.len() - j,
    decreases ds.len() - j,
{
    if j < ds.len() {
        lemma_not_below_len(ds, j + 1, a, anc);
    }
}

proof fn lemma_drop_ancestors_len(
    rs: Seq<Seq<char>>,
    i: int,
    ds: Seq<Seq<char>>,
    anc: Seq<(Seq<char>, Seq<char>, bool)>,
)
    requires
        0 <= i <= rs.len(),
    ensures
        drop_ancestors_from(rs, i, ds, anc) matches Ok(d) ==> d.len() <= ds.len() + rs.len() - i,
    decreases rs.len() - i,
{
    if i < rs.len() {
        match covered_by(ds, 0, rs[i], anc) {
            Ok(true) => lemma_drop_ancestors_len(rs, i + 1, ds, anc),
            Ok(false) => {
                lemma_not_below_len(ds, 0, rs[i], anc);
                match not_below(ds, 0, rs[i], anc) {
                    Ok(k) => lemma_drop_ancestors_len(rs, i + 1, k.push(rs[i]), anc),
                    Err(_) => {},
                }
            },
            Err(_) => {},
        }
    }
}

/// A commit gets no more pluck parents than it has source parents: each
/// source parent resolves to at most one pluck commit, and deduplication
/// only drops parents.
pub proof fn lemma_no_more_parents_than_sources(
    ps: Seq<Seq<char>>,
    cache: Map<Seq<char>, Seq<char>>,
    hist: Map<Seq<char>, Seq<Seq<char>>>,
    git: Map<Seq<char>, Option<Seq<Seq<char>>>>,
    anc: Seq<(Seq<char>, Seq<char>, bool)>,
    fuel: nat,
    skip: bool,
)
    ensures
        parent_step(ps, cache, hist, git, anc, fuel, skip) matches StepView::Resolved(r) ==> r.len()
            <= ps.len(),
{
    lemma_resolve_from_len(ps, 0, Seq::empty(), cache, hist, git, fuel);
    if let StepView::Resolved(rs) = resolve_from(ps, 0, Seq::empty(), cache, hist, git, fuel) {
        lemma_first_occurrences_len(rs, 0, Seq::empty());
        let u = first_occurrences(rs, 0, Seq::empty());
        lemma_drop_ancestors_len(u, 0, Seq::empty(), anc);
    }
}

/// The walk ended at a cached commit.
pub open spec fn is_found(w: WalkView) -> bool {
    w is Found
}

/// The pluck commit a walk found (empty for other outcomes).
pub open spec fn found_value(w: WalkView) -> Seq<char> {
    match w {
        WalkView::Found(p) => p,
        _ => Seq::empty(),
    }
}

/// The walk of each source parent, in order.
pub open spec fn walks(
    ps: Seq<Seq<char>>,
    cache: Map<Seq<char>, Seq<char>>,
    hist: Map<Seq<char>, Seq<Seq<char>>>,
    git: Map<Seq<char>, Option<Seq<Seq<char>>>>,
    fuel: nat,
) -> Seq<WalkView> {
    ps.map_values(|p: Seq<char>| walk(p, cache, hist, git, fuel))
}

/// The pluck commits that the walks found, in order, leaving out the
/// walks that ended at a root.
pub open spec fn found_parents(ws: Seq<WalkView>) -> Seq<Seq<char>> {
    ws.filter(|w: WalkView| is_found(w)).map_values(|w: WalkView| found_value(w))
}

proof fn lemma_found_parents_prepend(w: WalkView, ws: Seq<WalkView>)
    ensures
        found_parents(seq![w] + ws) == (if is_found(w) {
            seq![found_value(w)]
        } else {
            Seq::<Seq<char>>::empty()
        }) + found_parents(ws),
{
    let pred = |x: WalkView| is_found(x);
    ws.lemma_filter_prepend(w, pred);
    let f = |x: WalkView| found_value(x);
    let head = if is_found(w) {
        seq![w]
    } else {
        Seq::<WalkView>::empty()
    };
    assert((head + ws.filter(pred)).map_values(f) =~= head.map_values(f) + ws.filter(pred).map_values(f));
    if is_found(w) {
        assert(head.map_values(f) =~= seq![found_value(w)]);
    } else {
        assert(head.map_values(f) =~= Seq::<Seq<char>>::empty());
    }
}

proof fn lemma_resolve_from_found(
    ps: Seq<Seq<char>>,
    i: int,
    acc: Seq<Seq<char>>,
    cache: Map<Seq<char>, Seq<char>>,
    hist: Map<Seq<char>, Seq<Seq<char>>>,
    git: Map<Seq<char>, Option<Seq<Seq<char>>>>,
    fuel: nat,
)
    requires
        0 <= i <= ps.len(),
    ensures
        resolve_from(ps, i, acc, cache, hist, git, fuel) matches StepView::Resolved(rs) ==> rs == acc
            + found_parents(walks(ps.subrange(i, ps.len() as int), cache, hist, git, fuel)),
    decreases ps.len() - i,
{
    let sub = ps.subrange(i, ps.len() as int);
    let ws = walks(sub, cache, hist, git, fuel);
    if i == ps.len() {
        ws.filter(|w: WalkView| is_found(w)).lemma_filter_len(|w: WalkView| is_found(w));
        assert(ws =~= Seq::<WalkView>::empty());
        ws.lemma_filter_len(|w: WalkView| is_found(w));
        assert(found_parents(ws) =~= Seq::<Seq<char>>::empty());
        assert(acc + Seq::<Seq<char>>::empty() =~= acc);
    } else {
        let w = walk(ps[i], cache, hist, git, fuel);
        let rest = walks(ps.subrange(i + 1, ps.len() as int), cache, hist, git, fuel);
        assert(ws =~= seq![w] + rest);
        lemma_found_parents_prepend(w, rest);
        match w {
            WalkView::Found(p) => {
                lemma_resolve_from_found(ps, i + 1, acc.push(p), cache, hist, git, fuel);
                assert(acc.push(p) + found_parents(rest) =~= acc + (seq![p] + found_parents(rest)));
            },
            WalkView::Root => {
                lemma_resolve_from_found(ps, i + 1, acc, cache, hist, git, fuel);
                assert(Seq::<Seq<char>>::empty() + found_parents(rest) =~= found_parents(rest));
            },
            _ => {},
        }
    }
}

proof fn lemma_first_occurrences_members(ps: Seq<Seq<char>>, i: int, acc: Seq<Seq<char>>)
    requires
        0 <= i <= ps.len(),
    ensures
        forall|x: Seq<char>|
            #[trigger] first_occurrences(ps, i, acc).contains(x) <==> (acc.contains(x) || exists|k: int|
                i <= k < ps.len() && ps[k] == x),
        acc.no_duplicates() ==> first_occurrences(ps, i, acc).no_duplicates(),
    decreases ps.len() - i,
{
    if i < ps.len() {
        let next_acc = if acc.contains(ps[i]) {
            acc
        } else {
            acc.push(ps[i])
        };
        assert(first_occurrences(ps, i, acc) == first_occurrences(ps, i + 1, next_acc));
        lemma_first_occurrences_members(ps, i + 1, next_acc);
        assert forall|x: Seq<char>| next_acc.contains(x) <==> (acc.contains(x) || x == ps[i]) by {
            if !acc.contains(ps[i]) {
                if next_acc.contains(x) && x != ps[i] {
                    let j = choose|j: int| 0 <= j < next_acc.len() && next_acc[j] == x;
                    assert(acc[j] == x);
                }
                if acc.contains(x) {
                    let j = choose|j: int| 0 <= j < acc.len() && acc[j] == x;
                    assert(next_acc[j] == x);
                }
                if x == ps[i] {
                    assert(next_acc[acc.len() as int] == x);
                }
            }
        }
        if acc.no_duplicates() && !acc.contains(ps[i]) {
            assert forall|a: int, b: int| 0 <= a < next_acc.len() && 0 <= b < next_acc.len() && a != b
                implies next_acc[a] != next_acc[b] by {
                if a == acc.len() {
                    assert(next_acc[b] == acc[b]);
                } else if b == acc.len() {
                    assert(next_acc[a] == acc[a]);
                }
            }
        }
        assert forall|x: Seq<char>| #[trigger] first_occurrences(ps, i, acc).contains(x) <==> (acc.contains(x)
            || exists|k: int| i <= k < ps.len() && ps[k] == x) by {
            let later = exists|k2: int| i + 1 <= k2 < ps.len() && ps[k2] == x;
            let here = exists|k: int| i <= k < ps.len() && ps[k] == x;
            assert(first_occurrences(ps, i + 1, next_acc).contains(x) <==> (next_acc.contains(x)
                || later));
            assert(next_acc.contains(x) <==> (acc.contains(x) || x == ps[i]));
            if here {
                let k = choose|k: int| i <= k < ps.len() && ps[k] == x;
                if k > i {
                    assert(later);
                }
            }
            if later {
                let k2 = choose|k2: int| i + 1 <= k2 < ps.len() && ps[k2] == x;
                assert(here);
            }
            if x == ps[i] {
                assert(here);
            }
        }
    }
}

/// Each source parent is resolved on its own: before deduplication the
/// pluck parents are exactly the pluck commits that the walks of the
/// source parents found, in order, and a parent whose walk ends at a root
/// drops only itself. With deduplication, a merge keeps each found pluck
/// commit once, and a commit with at most one source parent keeps what
/// was found.
pub proof fn lemma_parents_are_what_the_walks_found(
    ps: Seq<Seq<char>>,
    cache: Map<Seq<char>, Seq<char>>,
    hist: Map<Seq<char>, Seq<Seq<char>>>,
    git: Map<Seq<char>, Option<Seq<Seq<char>>>>,
    anc: Seq<(Seq<char>, Seq<char>, bool)>,
    fuel: nat,
    skip: bool,
)
    ensures
        parent_step(ps, cache, hist, git, anc, fuel, skip) matches StepView::Resolved(r) ==> ({
            let found = found_parents(walks(ps, cache, hist, git, fuel));
            &&& skip ==> r == found
            &&& !skip && ps.len() > 1 ==> r.no_duplicates() && forall|x: Seq<char>|
                #[trigger] r.contains(x) <==> found.contains(x)
            &&& !skip && ps.len() <= 1 ==> r == found
        }),
{
    lemma_resolve_from_found(ps, 0, Seq::empty(), cache, hist, git, fuel);
    lemma_resolve_from_len(ps, 0, Seq::empty(), cache, hist, git, fuel);
    assert(ps.subrange(0, ps.len() as int) =~= ps);
    if let StepView::Resolved(rs) = resolve_from(ps, 0, Seq::empty(), cache, hist, git, fuel) {
        let found = found_parents(walks(ps, cache, hist, git, fuel));
        assert(Seq::<Seq<char>>::empty() + found =~= found);
        assert(rs == found);
        if !skip {
            let e = Seq::<Seq<char>>::empty();
            lemma_first_occurrences_members(rs, 0, e);
            let u = first_occurrences(rs, 0, e);
            assert forall|x: Seq<char>| #[trigger] u.contains(x) <==> rs.contains(x) by {
                if rs.contains(x) {
                    let k = choose|k: int| 0 <= k < rs.len() && rs[k] == x;
                    assert(exists|k2: int| 0 <= k2 < rs.len() && rs[k2] == x);
                }
            }
            if ps.len() <= 1 {
                if rs.len() == 0 {
                    assert(u == e);
                    assert(u =~= rs);
                } else {
                    assert(rs.len() == 1);
                    assert(!e.contains(rs[0]));
                    assert(u == first_occurrences(rs, 1, e.push(rs[0])));
                    assert(u =~= rs);
                    let x = rs[0];
                    assert(covered_by(e, 0, x, anc) == Ok::<bool, (Seq<char>, Seq<char>)>(false));
                    assert(not_below(e, 0, x, anc) == Ok::<Seq<Seq<char>>, (Seq<char>, Seq<char>)>(e));
                    assert(drop_ancestors_from(u, 1, e.push(x), anc) == Ok::<
                        Seq<Seq<char>>,
                        (Seq<char>, Seq<char>),
                    >(e.push(x)));
                    assert(e.push(x) =~= rs);
                }
            }
        }
    }
}

/// How an ancestry walk ended (see `WalkView`).
pub enum WalkOutcome {
    Found(String),
    Root,
    Ask(String),
    Exhausted(String),
}

impl View for WalkOutcome {
    type V = WalkView;

    open spec fn view(&self) -> WalkView {
        match self {
            WalkOutcome::Found(p) => WalkView::Found(p@),
            WalkOutcome::Root => WalkView::Root,
            WalkOutcome::Ask(s) => WalkView::Ask(s@),
            WalkOutcome::Exhausted(s) => WalkView::Exhausted(s@),
        }
    }
}

/// Resolves one source parent to its pluck equivalent: the cache entry of
/// the parent, else of its first ancestor that has one.
fn resolve_single_parent(
    source_sha: &str,
    cache: &PluckCache,
    history: &SourceHistory,
    answers: &GitAnswers,
    fuel: u128,
) -> (r: WalkOutcome)
    ensures
        r@ == walk(source_sha@, cache.preload@, history@, answers.parents_view(), fuel as nat),
{
    let ghost target = walk(source_sha@, cache.preload@, history@, answers.parents_view(), fuel as nat);
    let mut current = owned(source_sha);
    let mut steps = fuel;
    loop
        invariant
            target == walk(source_sha@, cache.preload@, history@, answers.parents_view(), fuel as nat),
            walk(current@, cache.preload@, history@, answers.parents_view(), steps as nat) == target,
        decreases steps,
    {
        match cache.lookup_pluck_sha(current.as_str()) {
            Some(p) => {
                return WalkOutcome::Found(p.clone());
            },
            None => {},
        }
        let ps: Vec<String> = match history.get_parents(current.as_str()) {
            Some(ps) => clone_strings(ps),
            None => match answers.parents_of(current.as_str()) {
                None => {
                    return WalkOutcome::Ask(current);
                },
                Some(known) => match known {
                    None => {
                        return WalkOutcome::Root;
                    },
                    Some(ps) => clone_strings(ps),
                },
            },
        };
        if ps.len() == 0 {
            return WalkOutcome::Root;
        }
        if steps == 0 {
            return WalkOutcome::Exhausted(current);
        }
        assert(ps.deep_view()[0] == ps[0]@);
        steps = steps - 1;
        current = ps[0].clone();
    }
}

fn vec_contains(v: &Vec<String>, x: &str) -> (b: bool)
    ensures
        b == v.deep_view().contains(x@),
{
    let ghost s = v.deep_view();
    let mut i: usize = 0;
    while i < v.len()
        invariant
            s == v.deep_view(),
            0 <= i <= v.len(),
            forall|k: int| 0 <= k < i ==> s[k] != x@,
        decreases v.len() - i,
    {
        assert(s[i as int] == v[i as int]@);
        if str_eq(v[i].as_str(), x) {
            return true;
        }
        i = i + 1;
    }
    false
}

fn unique_parents(ps: &Vec<String>) -> (r: Vec<String>)
    ensures
        r.deep_view() == first_occurrences(ps.deep_view(), 0, Seq::empty()),
{
    let ghost pv = ps.deep_view();
    let mut r: Vec<String> = Vec::new();
    assert(r.deep_view() =~= Seq::<Seq<char>>::empty());
    let mut i: usize = 0;
    while i < ps.len()
        invariant
            pv == ps.deep_view(),
            0 <= i <= ps.len(),
            first_occurrences(pv, i as int, r.deep_view()) == first_occurrences(
                pv,
                0,
                Seq::empty(),
            ),
        decreases ps.len() - i,
    {
        assert(pv[i as int] == ps[i as int]@);
        if !vec_contains(&r, ps[i].as_str()) {
            let ghost before = r.deep_view();
            r.push(ps[i].clone());
            assert(r.deep_view() =~= before.push(pv[i as int]));
        }
        i = i + 1;
    }
    r
}

/// Linear-commit deduplication: drops parents reachable from others.
fn drop_ancestors(rs: &Vec<String>, answers: &GitAnswers) -> (r: Result<
    Vec<String>,
    (String, String),
>)
    ensures
        match drop_ancestors_from(rs.deep_view(), 0, Seq::empty(), answers.ancestry_view()) {
            Ok(d) => (r matches Ok(v) && v.deep_view() == d),
            Err((c, a)) => (r matches Err((x, y)) && x@ == c && y@ == a),
        },
{
    let ghost rv = rs.deep_view();
    let ghost anc = answers.ancestry_view();
    let ghost target = drop_ancestors_from(rv, 0, Seq::empty(), anc);
    let mut ds: Vec<String> = Vec::new();
    assert(ds.deep_view() =~= Seq::<Seq<char>>::empty());
    let mut i: usize = 0;
    while i < rs.len()
        invariant
            rv == rs.deep_view(),
            anc == answers.ancestry_view(),
            target == drop_ancestors_from(rv, 0, Seq::empty(), anc),
            0 <= i <= rs.len(),
            drop_ancestors_from(rv, i as int, ds.deep_view(), anc) == target,
        decreases rs.len() - i,
    {
        let a = &rs[i];
        assert(rv[i as int] == a@);
        let ghost dv = ds.deep_view();
        let mut covered = false;
        let mut j: usize = 0;
        while j < ds.len()
            invariant_except_break
                !covered,
            invariant
                dv == ds.deep_view(),
                rv == rs.deep_view(),
                anc == answers.ancestry_view(),
                target == drop_ancestors_from(rv, 0, Seq::empty(), anc),
                drop_ancestors_from(rv, i as int, dv, anc) == target,
                0 <= i < rs.len(),
                rv[i as int] == a@,
                0 <= j <= ds.len(),
                covered_by(dv, j as int, a@, anc) == covered_by(dv, 0, a@, anc),
            ensures
                covered ==> covered_by(dv, 0, a@, anc) == Ok::<bool, (Seq<char>, Seq<char>)>(true),
                !covered ==> covered_by(dv, 0, a@, anc) == Ok::<bool, (Seq<char>, Seq<char>)>(
                    false,
                ),
            decreases ds.len() - j,
        {
            assert(dv[j as int] == ds[j as int]@);
            match answers.ancestry_of(ds[j].as_str(), a.as_str()) {
                None => {
                    return Err((ds[j].clone(), a.clone()));
                },
                Some(true) => {
                    covered = true;
                    break;
                },
                Some(false) => {},
            }
            j = j + 1;
        }
        if !covered {
            let mut kept: Vec<String> = Vec::new();
            assert(kept.deep_view() =~= Seq::<Seq<char>>::empty());
            let mut k: usize = 0;
            while k < ds.len()
                invariant
                    dv == ds.deep_view(),
                    rv == rs.deep_view(),
                    anc == answers.ancestry_view(),
                    target == drop_ancestors_from(rv, 0, Seq::empty(), anc),
                    drop_ancestors_from(rv, i as int, dv, anc) == target,
                    covered_by(dv, 0, a@, anc) == Ok::<bool, (Seq<char>, Seq<char>)>(false),
                    0 <= i < rs.len(),
                    rv[i as int] == a@,
                    0 <= k <= ds.len(),
                    match not_below(dv, k as int, a@, anc) {
                        Ok(rest) => not_below(dv, 0, a@, anc) == Ok::<
                            Seq<Seq<char>>,
                            (Seq<char>, Seq<char>),
                        >(kept.deep_view() + rest),
                        Err(q) => not_below(dv, 0, a@, anc) == Err::<
                            Seq<Seq<char>>,
                            (Seq<char>, Seq<char>),
                        >(q),
                    },
                decreases ds.len() - k,
            {
                assert(dv[k as int] == ds[k as int]@);
                match answers.ancestry_of(a.as_str(), ds[k].as_str()) {
                    None => {
                        return Err((a.clone(), ds[k].clone()));
                    },
                    Some(x) => {
                        if !x {
                            let ghost before = kept.deep_view();
                            kept.push(ds[k].clone());
                            assert(kept.deep_view() =~= before.push(dv[k as int]));
                            proof {
                                match not_below(dv, k + 1, a@, anc) {
                                    Ok(rest) => {
                                        assert(before + (seq![dv[k as int]] + rest)
                                            =~= kept.deep_view() + rest);
                                    },
                                    Err(q) => {},
                                }
                            }
                        }
                    },
                }
                k = k + 1;
            }
            assert(kept.deep_view() + Seq::<Seq<char>>::empty() =~= kept.deep_view());
            let ghost kv = kept.deep_view();
            kept.push(a.clone());
            assert(kept.deep_view() =~= kv.push(a@));
            ds = kept;
        }
        i = i + 1;
    }
    Ok(ds)
}

/// Resolves the parents of a source commit to their pluck equivalents,
/// with the Git answers gathered so far.
///
/// Each source parent maps, in order, to the cache entry of itself or of
/// its nearest first-parent ancestor that has one (walking the recorded
/// history, else Git's answers); a walk ending at a root gives none. Then,
/// unless `skip_dedup_ancestry`, duplicates are dropped and, for a linear
/// commit, parents reachable from another parent. Where an answer is
/// missing, the first question is returned instead.
pub fn resolve_parents(
    source_parents: &[String],
    cache: &PluckCache,
    source_history: &SourceHistory,
    answers: &GitAnswers,
    config: &PluckConfig,
) -> (r: ParentStep)
    ensures
        r@ == parent_step(
            source_parents.deep_view(),
            cache.preload@,
            source_history@,
            answers.parents_view(),
            answers.ancestry_view(),
            source_history.size() + answers.parents_count(),
            config.skip_dedup_ancestry,
        ),
{
    let ghost pv = source_parents.deep_view();
    let fuel: u128 = source_history.count() as u128 + answers.parents_len() as u128;
    let ghost f = fuel as nat;
    assert(f == source_history.size() + answers.parents_count());
    let ghost cm = cache.preload@;
    let ghost hm = source_history@;
    let ghost gm = answers.parents_view();
    let mut resolved: Vec<String> = Vec::new();
    assert(resolved.deep_view() =~= Seq::<Seq<char>>::empty());
    let mut i: usize = 0;
    while i < source_parents.len()
        invariant
            pv == source_parents.deep_view(),
            cm == cache.preload@,
            hm == source_history@,
            gm == answers.parents_view(),
            f == fuel as nat,
            f == source_history.size() + answers.parents_count(),
            0 <= i <= source_parents.len(),
            resolve_from(pv, i as int, resolved.deep_view(), cm, hm, gm, f) == resolve_from(
                pv,
                0,
                Seq::empty(),
                cm,
                hm,
                gm,
                f,
            ),
        decreases source_parents.len() - i,
    {
        assert(pv[i as int] == source_parents[i as int]@);
        match resolve_single_parent(
            source_parents[i].as_str(),
            cache,
            source_history,
            answers,
            fuel,
        ) {
            WalkOutcome::Found(p) => {
                let ghost before = resolved.deep_view();
                let ghost p_v = p@;
                resolved.push(p);
                assert(resolved.deep_view() =~= before.push(p_v));
            },
            WalkOutcome::Root => {},
            WalkOutcome::Ask(s) => {
                return ParentStep::NeedParents(s);
            },
            WalkOutcome::Exhausted(s) => {
                return ParentStep::Exhausted(s);
            },
        }
        i = i + 1;
    }
    match dedup_parents(&resolved, source_parents.len(), config.skip_dedup_ancestry, answers) {
        Ok(d) => ParentStep::Resolved(d),
        Err((c, a)) => ParentStep::NeedAncestry(c, a),
    }
}

/// Deduplicates resolved parents unless `skip_dedup` is set: exact
/// duplicates go (first occurrences stay, in order); for a linear commit
/// (at most one source parent) a parent reachable from another goes too.
/// `Err` names the first ancestry question not answered yet.
fn dedup_parents(
    parents: &Vec<String>,
    source_parent_count: usize,
    skip_dedup: bool,
    answers: &GitAnswers,
) -> (r: Result<Vec<String>, (String, String)>)
    ensures
        match deduped(parents.deep_view(), source_parent_count as nat, skip_dedup, answers.ancestry_view()) {
            StepView::Resolved(d) => (r matches Ok(v) && v.deep_view() == d),
            StepView::NeedAncestry(c, a) => (r matches Err((x, y)) && x@ == c && y@ == a),
            _ => false,
        },
{
    if skip_dedup {
        return Ok(clone_strings(parents));
    }
    let unique = unique_parents(parents);
    if source_parent_count > 1 {
        return Ok(unique);
    }
    drop_ancestors(&unique, answers)
}


// ---------------------------------------------------------------------
// What resolved parents are
// ---------------------------------------------------------------------

/// `p` is a pluck commit the cache records for some source commit.
pub open spec fn cached_pluck(cache: Map<Seq<char>, Seq<char>>, p: Seq<char>) -> bool {
    exists|src: Seq<char>| cache.dom().contains(src) && #[trigger] cache[src] == p
}

/// No item occurs twice.
pub open spec fn no_duplicates(s: Seq<Seq<char>>) -> bool {
    forall|i: int, j: int| 0 <= i < j < s.len() ==> #[trigger] s[i] != #[trigger] s[j]
}

proof fn lemma_walk_found(
    cur: Seq<char>,
    cache: Map<Seq<char>, Seq<char>>,
    hist: Map<Seq<char>, Seq<Seq<char>>>,
    git: Map<Seq<char>, Option<Seq<Seq<char>>>>,
    fuel: nat,
)
    ensures
        walk(cur, cache, hist, git, fuel) matches WalkView::Found(p) ==> cached_pluck(cache, p),
    decreases fuel,
{
    if cache.dom().contains(cur) {
        assert(cache[cur] == cache[cur]);
    } else if fuel > 0 {
        let known: Option<Option<Seq<Seq<char>>>> = if hist.dom().contains(cur) {
            Some(Some(hist[cur]))
        } else if git.dom().contains(cur) {
            Some(git[cur])
        } else {
            None
        };
        match known {
            Some(Some(ps)) => if ps.len() > 0 {
                lemma_walk_found(ps[0], cache, hist, git, (fuel - 1) as nat);
            },
            _ => {},
        }
    }
}

proof fn lemma_resolve_from(
    ps: Seq<Seq<char>>,
    i: int,
    acc: Seq<Seq<char>>,
    cache: Map<Seq<char>, Seq<char>>,
    hist: Map<Seq<char>, Seq<Seq<char>>>,
    git: Map<Seq<char>, Option<Seq<Seq<char>>>>,
    fuel: nat,
)
    requires
        0 <= i <= ps.len(),
        forall|k: int| 0 <= k < acc.len() ==> cached_pluck(cache, #[trigger] acc[k]),
    ensures
        resolve_from(ps, i, acc, cache, hist, git, fuel) matches StepView::Resolved(r) ==> (
        forall|k: int| 0 <= k < r.len() ==> cached_pluck(cache, #[trigger] r[k])) && r.len()
            <= acc.len() + ps.len() - i,
    decreases ps.len() - i,
{
    if i < ps.len() {
        lemma_walk_found(ps[i], cache, hist, git, fuel);
        match walk(ps[i], cache, hist, git, fuel) {
            WalkView::Found(p) => {
                let acc2 = acc.push(p);
                assert forall|k: int| 0 <= k < acc2.len() implies cached_pluck(
                    cache,
                    #[trigger] acc2[k],
                ) by {
                    if k < acc.len() {
                        assert(acc2[k] == acc[k]);
                    }
                }
                lemma_resolve_from(ps, i + 1, acc2, cache, hist, git, fuel);
            },
            WalkView::Root => {
                lemma_resolve_from(ps, i + 1, acc, cache, hist, git, fuel);
            },
            _ => {},
        }
    }
}

proof fn lemma_first_occurrences(ps: Seq<Seq<char>>, i: int, acc: Seq<Seq<char>>)
    requires
        0 <= i <= ps.len(),
        no_duplicates(acc),
    ensures
        no_duplicates(first_occurrences(ps, i, acc)),
        forall|k: int|
            0 <= k < first_occurrences(ps, i, acc).len() ==> acc.contains(
                #[trigger] first_occurrences(ps, i, acc)[k],
            ) || ps.contains(first_occurrences(ps, i, acc)[k]),
        first_occurrences(ps, i, acc).len() <= acc.len() + ps.len() - i,
        ps.len() - i <= 1 && acc.len() == 0 ==> first_occurrences(ps, i, acc) == ps.subrange(
            i,
            ps.len() as int,
        ),
    decreases ps.len() - i,
{
    if i < ps.len() {
        if acc.contains(ps[i]) {
            lemma_first_occurrences(ps, i + 1, acc);
        } else {
            let acc2 = acc.push(ps[i]);
            assert forall|a: int, b: int| 0 <= a < b < acc2.len() implies #[trigger] acc2[a]
                != #[trigger] acc2[b] by {
                if b == acc.len() {
                    assert(acc2[a] == acc[a]);
                    if acc[a] == ps[i] {
                        assert(acc.contains(ps[i]));
                    }
                } else {
                    assert(acc2[a] == acc[a] && acc2[b] == acc[b]);
                }
            }
            lemma_first_occurrences(ps, i + 1, acc2);
            let r = first_occurrences(ps, i, acc);
            assert forall|k: int| 0 <= k < r.len() implies acc.contains(#[trigger] r[k])
                || ps.contains(r[k]) by {
                if acc2.contains(r[k]) {
                    let j = choose|j: int| 0 <= j < acc2.len() && acc2[j] == r[k];
                    if j < acc.len() {
                        assert(acc[j] == r[k]);
                    } else {
                        assert(ps[i] == r[k]);
                    }
                }
            }
            if ps.len() - i <= 1 && acc.len() == 0 {
                assert(first_occurrences(ps, i + 1, acc2) == acc2);
                assert(acc2 =~= ps.subrange(i, ps.len() as int));
            }
        }
    } else {
        assert(ps.subrange(i, ps.len() as int) =~= Seq::<Seq<char>>::empty());
    }
}

/// Resolved pluck parents are pluck commits that the cache records; and
/// unless deduplication is skipped, none occurs twice.
pub proof fn lemma_resolved_parents(
    ps: Seq<Seq<char>>,
    cache: Map<Seq<char>, Seq<char>>,
    hist: Map<Seq<char>, Seq<Seq<char>>>,
    git: Map<Seq<char>, Option<Seq<Seq<char>>>>,
    anc: Seq<(Seq<char>, Seq<char>, bool)>,
    fuel: nat,
    skip: bool,
)
    ensures
        parent_step(ps, cache, hist, git, anc, fuel, skip) matches StepView::Resolved(d) ==> (
        forall|k: int| 0 <= k < d.len() ==> cached_pluck(cache, #[trigger] d[k])) && (!skip
            ==> no_duplicates(d)),
{
    lemma_resolve_from(ps, 0, Seq::empty(), cache, hist, git, fuel);
    match resolve_from(ps, 0, Seq::empty(), cache, hist, git, fuel) {
        StepView::Resolved(rs) => {
            if !skip {
                lemma_first_occurrences(rs, 0, Seq::empty());
                let u = first_occurrences(rs, 0, Seq::empty());
                assert forall|k: int| 0 <= k < u.len() implies cached_pluck(cache, #[trigger] u[k]) by {
                    assert(rs.contains(u[k]));
                    let j = choose|j: int| 0 <= j < rs.len() && rs[j] == u[k];
                    assert(cached_pluck(cache, rs[j]));
                }
                if ps.len() <= 1 {
                    assert(rs.len() <= 1);
                    assert(u =~= rs.subrange(0, rs.len() as int));
                    if u.len() == 1 {
                        assert(covered_by(Seq::empty(), 0, u[0], anc) == Ok::<
                            bool,
                            (Seq<char>, Seq<char>),
                        >(false));
                        assert(not_below(Seq::empty(), 0, u[0], anc) == Ok::<
                            Seq<Seq<char>>,
                            (Seq<char>, Seq<char>),
                        >(Seq::empty()));
                        assert(Seq::<Seq<char>>::empty().push(u[0]) =~= u);
                        assert(drop_ancestors_from(u, 1, u, anc) == Ok::<
                            Seq<Seq<char>>,
                            (Seq<char>, Seq<char>),
                        >(u));
                    } else {
                        assert(drop_ancestors_from(u, 0, Seq::empty(), anc) == Ok::<
                            Seq<Seq<char>>,
                            (Seq<char>, Seq<char>),
                        >(Seq::empty()));
                        assert(u =~= Seq::<Seq<char>>::empty());
                    }
                }
            }
        },
        _ => {},
    }
}

/// With every source parent in the cache, each maps to its own pluck
/// commit, in order: the parents of a merge keep their positions.
pub proof fn lemma_cached_parents_in_order(
    ps: Seq<Seq<char>>,
    cache: Map<Seq<char>, Seq<char>>,
    hist: Map<Seq<char>, Seq<Seq<char>>>,
    git: Map<Seq<char>, Option<Seq<Seq<char>>>>,
    anc: Seq<(Seq<char>, Seq<char>, bool)>,
    fuel: nat,
)
    requires
        forall|i: int| 0 <= i < ps.len() ==> cache.dom().contains(#[trigger] ps[i]),
    ensures
        parent_step(ps, cache, hist, git, anc, fuel, true) == StepView::Resolved(
            Seq::new(ps.len(), |i: int| cache[ps[i]]),
        ),
{
    lemma_cached_resolve(ps, 0, cache, hist, git, fuel);
    assert(Seq::new(0, |i: int| cache[ps[i]]) =~= Seq::<Seq<char>>::empty());
}

proof fn lemma_cached_resolve(
    ps: Seq<Seq<char>>,
    i: int,
    cache: Map<Seq<char>, Seq<char>>,
    hist: Map<Seq<char>, Seq<Seq<char>>>,
    git: Map<Seq<char>, Option<Seq<Seq<char>>>>,
    fuel: nat,
)
    requires
        0 <= i <= ps.len(),
        forall|k: int| 0 <= k < ps.len() ==> cache.dom().contains(#[trigger] ps[k]),
    ensures
        resolve_from(
            ps,
            i,
            Seq::new(i as nat, |k: int| cache[ps[k]]),
            cache,
            hist,
            git,
            fuel,
        ) == StepView::Resolved(Seq::new(ps.len(), |k: int| cache[ps[k]])),
    decreases ps.len() - i,
{
    if i < ps.len() {
        assert(cache.dom().contains(ps[i]));
        assert(Seq::new(i as nat, |k: int| cache[ps[k]]).push(cache[ps[i]]) =~= Seq::new(
            (i + 1) as nat,
            |k: int| cache[ps[k]],
        ));
        lemma_cached_resolve(ps, i + 1, cache, hist, git, fuel);
    } else {
        assert(Seq::new(i as nat, |k: int| cache[ps[k]]) =~= Seq::new(
            ps.len(),
            |k: int| cache[ps[k]],
        ));
    }
}

} // verus!
