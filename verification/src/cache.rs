//! The cache of source-sha to pluck-sha pairs: read back from the log
//! branch or from the `Plucked from:` trailers of pluck commits, and grown
//! with the pairs created during a run.
use vstd::prelude::*;
use crate::collections::StrMap;
use crate::config::PluckConfig;
use crate::error::{ErrorView, PluckError};
use crate::text::{
    all_hex, fields, has_prefix, lines, starts_with, str_all_hex, str_lines, str_split_char,
    str_trim, substring, trim,
};

verus! {

/// A full hexadecimal object id: 40 hex digits.
pub open spec fn is_sha(s: Seq<char>) -> bool {
    s.len() == 40 && all_hex(s)
}

/// `line` is `<source-sha>:<pluck-sha>`.
pub open spec fn sha_pair(line: Seq<char>) -> bool {
    let parts = fields(line, ':');
    parts.len() == 2 && is_sha(parts[0]) && is_sha(parts[1])
}

/// Checks whether a line is a valid `source-sha:pluck-sha` pair (two
/// 40-digit hex strings). All hex digits are ASCII, so counting characters
/// is counting bytes here.
pub fn is_sha_pair(line: &str) -> (b: bool)
    ensures
        b == sha_pair(line@),
{
    let parts = str_split_char(line, ':');
    if parts.len() != 2 {
        return false;
    }
    assert(parts.deep_view()[0] == parts[0]@ && parts.deep_view()[1] == parts[1]@);
    parts[0].unicode_len() == 40 && parts[1].unicode_len() == 40 && str_all_hex(parts[0].as_str())
        && str_all_hex(parts[1].as_str())
}

/// The sha of a `Plucked from: <sha>` trailer line (after trimming), if valid.
pub open spec fn trailer_sha(line: Seq<char>) -> Option<Seq<char>> {
    let t = trim(line);
    let pre = "Plucked from: "@;
    if has_prefix(t, pre) {
        let sha = trim(t.subrange(pre.len() as int, t.len() as int));
        if is_sha(sha) {
            Some(sha)
        } else {
            None
        }
    } else {
        None
    }
}

/// The sha of the last valid trailer among the first `n` lines.
pub open spec fn last_trailer_sha(ls: Seq<Seq<char>>, n: int) -> Option<Seq<char>>
    decreases n,
{
    if n <= 0 || n > ls.len() {
        None
    } else {
        match trailer_sha(ls[n - 1]) {
            Some(s) => Some(s),
            None => last_trailer_sha(ls, n - 1),
        }
    }
}

/// The source sha a pluck commit message records: its last valid
/// `Plucked from:` trailer.
pub open spec fn pluck_source_sha(message: Seq<char>) -> Option<Seq<char>> {
    last_trailer_sha(lines(message), lines(message).len() as int)
}

fn line_trailer_sha(line: &str) -> (r: Option<String>)
    ensures
        r.deep_view() == trailer_sha(line@),
{
    let t = str_trim(line);
    let pre = "Plucked from: ";
    if !starts_with(t.as_str(), pre) {
        return None;
    }
    let k = pre.unicode_len();
    let n = t.unicode_len();
    let rest = substring(t.as_str(), k, n);
    let sha = str_trim(rest.as_str());
    if sha.unicode_len() == 40 && str_all_hex(sha.as_str()) {
        Some(sha)
    } else {
        None
    }
}

/// Extracts the source sha from a pluck commit message: the last line,
/// trimmed, of the form `Plucked from: <40 hex digits>`.
pub fn extract_pluck_source_sha(message: &str) -> (r: Option<String>)
    ensures
        r.deep_view() == pluck_source_sha(message@),
{
    let ls = str_lines(message);
    let ghost lv = ls.deep_view();
    let mut n: usize = ls.len();
    while n > 0
        invariant
            lv == ls.deep_view(),
            lv == lines(message@),
            0 <= n <= ls.len(),
            last_trailer_sha(lv, n as int) == pluck_source_sha(message@),
        decreases n,
    {
        assert(lv[n - 1] == ls[n - 1]@);
        match line_trailer_sha(ls[n - 1].as_str()) {
            Some(s) => {
                return Some(s);
            },
            None => {},
        }
        n = n - 1;
    }
    None
}

// ---------------------------------------------------------------------
// The cache
// ---------------------------------------------------------------------

/// The pairs of the sha-pair lines from position `i`, inserted in order
/// into `m` (a later pair for the same source replaces an earlier one).
pub open spec fn pairs_from_lines(m: Map<Seq<char>, Seq<char>>, ls: Seq<Seq<char>>, i: int) -> Map<
    Seq<char>,
    Seq<char>,
>
    decreases ls.len() - i,
{
    if i < 0 || i >= ls.len() {
        m
    } else {
        let t = trim(ls[i]);
        let m1 = if sha_pair(t) {
            m.insert(fields(t, ':')[0], fields(t, ':')[1])
        } else {
            m
        };
        pairs_from_lines(m1, ls, i + 1)
    }
}

/// `m` after reading the log-branch commit messages from position `i`.
pub open spec fn branch_pairs(m: Map<Seq<char>, Seq<char>>, msgs: Seq<Seq<char>>, i: int) -> Map<
    Seq<char>,
    Seq<char>,
>
    decreases msgs.len() - i,
{
    if i < 0 || i >= msgs.len() {
        m
    } else {
        branch_pairs(pairs_from_lines(m, lines(msgs[i]), 0), msgs, i + 1)
    }
}

/// `m` after reading the pluck commits `(id, message)` from position `i`:
/// each message's source sha maps to the commit's id. Reading stops at
/// the first commit without a trailer unless `force` is set; the second
/// component is that commit's id.
pub open spec fn trailer_pairs(
    m: Map<Seq<char>, Seq<char>>,
    log: Seq<(Seq<char>, Seq<char>)>,
    i: int,
    force: bool,
) -> (Map<Seq<char>, Seq<char>>, Option<Seq<char>>)
    decreases log.len() - i,
{
    if i < 0 || i >= log.len() {
        (m, None)
    } else {
        match pluck_source_sha(log[i].1) {
            Some(s) => trailer_pairs(m.insert(s, log[i].0), log, i + 1, force),
            None => if force {
                trailer_pairs(m, log, i + 1, force)
            } else {
                (m, Some(log[i].0))
            },
        }
    }
}

/// Cache of source-sha to pluck-sha pairs.
///
/// `preload` holds the pairs read from the log and those added since;
/// `new_entries` holds the pairs created during the current run, newest first.
pub struct PluckCache {
    pub preload: StrMap,
    pub new_entries: Vec<(String, String)>,
}

impl PluckCache {
    /// An empty cache.
    pub fn new() -> (c: Self)
        ensures
            c.preload@ == Map::<Seq<char>, Seq<char>>::empty(),
            c.new_entries.deep_view() == Seq::<(Seq<char>, Seq<char>)>::empty(),
    {
        let c = PluckCache { preload: StrMap::new(), new_entries: Vec::new() };
        assert(c.new_entries.deep_view() =~= Seq::<(Seq<char>, Seq<char>)>::empty());
        c
    }

    /// Reads the pairs of the log-branch commit messages, in walk order.
    pub fn load_from_log_branch(&mut self, messages: &Vec<String>)
        ensures
            final(self).preload@ == branch_pairs(old(self).preload@, messages.deep_view(), 0),
            final(self).new_entries == old(self).new_entries,
    {
        let ghost mv = messages.deep_view();
        let mut i: usize = 0;
        while i < messages.len()
            invariant
                mv == messages.deep_view(),
                0 <= i <= messages.len(),
                branch_pairs(self.preload@, mv, i as int) == branch_pairs(
                    old(self).preload@,
                    mv,
                    0,
                ),
                self.new_entries == old(self).new_entries,
            decreases messages.len() - i,
        {
            assert(mv[i as int] == messages[i as int]@);
            let ls = str_lines(messages[i].as_str());
            let ghost lv = ls.deep_view();
            let ghost m0 = self.preload@;
            let mut j: usize = 0;
            while j < ls.len()
                invariant
                    lv == ls.deep_view(),
                    0 <= j <= ls.len(),
                    pairs_from_lines(self.preload@, lv, j as int) == pairs_from_lines(m0, lv, 0),
                    self.new_entries == old(self).new_entries,
                decreases ls.len() - j,
            {
                assert(lv[j as int] == ls[j as int]@);
                let t = str_trim(ls[j].as_str());
                if is_sha_pair(t.as_str()) {
                    let parts = str_split_char(t.as_str(), ':');
                    assert(parts.deep_view()[0] == parts[0]@ && parts.deep_view()[1] == parts[1]@);
                    self.preload.insert(parts[0].clone(), parts[1].clone());
                }
                j = j + 1;
            }
            i = i + 1;
        }
    }

    /// Reads the `(commit id, message)` pairs of the pluck commits, in walk
    /// order: each message's `Plucked from:` sha maps to the commit's id.
    /// A commit without one is an error unless `force` is set.
    pub fn load_from_log_message(&mut self, log: &Vec<(String, String)>, force: bool) -> (r: Result<
        (),
        PluckError,
    >)
        ensures
            final(self).preload@ == trailer_pairs(old(self).preload@, log.deep_view(), 0, force).0,
            final(self).new_entries == old(self).new_entries,
            match trailer_pairs(old(self).preload@, log.deep_view(), 0, force).1 {
                None => r is Ok,
                Some(id) => (r matches Err(e) && e@ == ErrorView::MissingPluckSource(id)),
            },
    {
        let ghost lv = log.deep_view();
        let ghost target = trailer_pairs(self.preload@, lv, 0, force);
        let mut i: usize = 0;
        while i < log.len()
            invariant
                lv == log.deep_view(),
                target == trailer_pairs(old(self).preload@, lv, 0, force),
                0 <= i <= log.len(),
                trailer_pairs(self.preload@, lv, i as int, force) == target,
                self.new_entries == old(self).new_entries,
            decreases log.len() - i,
        {
            assert(lv[i as int] == (log[i as int].0@, log[i as int].1@));
            match extract_pluck_source_sha(log[i].1.as_str()) {
                Some(s) => {
                    self.preload.insert(s, log[i].0.clone());
                },
                None => {
                    if !force {
                        return Err(PluckError::MissingPluckSource(log[i].0.clone()));
                    }
                },
            }
            i = i + 1;
        }
        Ok(())
    }

    /// Preloads the cache from the log: the log-branch messages when the
    /// log branch is on, then the pluck commits when the log message is on.
    pub fn preload_from_log(
        &mut self,
        config: &PluckConfig,
        branch_messages: &Vec<String>,
        pluck_log: &Vec<(String, String)>,
    ) -> (r: Result<(), PluckError>)
        ensures
            ({
                let m1 = if config.log_branch {
                    branch_pairs(old(self).preload@, branch_messages.deep_view(), 0)
                } else {
                    old(self).preload@
                };
                let t = trailer_pairs(m1, pluck_log.deep_view(), 0, config.force);
                if config.log_message {
                    final(self).preload@ == t.0 && match t.1 {
                        None => r is Ok,
                        Some(id) => (r matches Err(e) && e@ == ErrorView::MissingPluckSource(id)),
                    }
                } else {
                    final(self).preload@ == m1 && r is Ok
                }
            }),
            final(self).new_entries == old(self).new_entries,
    {
        if config.log_branch {
            self.load_from_log_branch(branch_messages);
        }
        if config.log_message {
            return self.load_from_log_message(pluck_log, config.force);
        }
        Ok(())
    }

    /// The pluck sha recorded for a source sha.
    pub fn lookup_pluck_sha(&self, source_sha: &str) -> (r: Option<&String>)
        ensures
            r is Some <==> self.preload@.dom().contains(source_sha@),
            r matches Some(p) ==> p@ == self.preload@[source_sha@],
    {
        self.preload.get(source_sha)
    }

    /// A source sha recorded for a pluck sha (reverse lookup); any one of
    /// them where several sources map to it.
    pub fn lookup_source_sha(&self, pluck_sha: &str) -> (r: Option<&String>)
        ensures
            r matches Some(s) ==> self.preload@.dom().contains(s@) && self.preload@[s@]
                == pluck_sha@,
            r is None ==> forall|s: Seq<char>| #[trigger]
                self.preload@.dom().contains(s) ==> self.preload@[s] != pluck_sha@,
    {
        self.preload.find_key_with_value(pluck_sha)
    }

    /// Adds a new source-pluck pair, prepending it to `new_entries` (newest first).
    pub fn add_new(&mut self, source_sha: String, pluck_sha: String)
        ensures
            final(self).preload@ == old(self).preload@.insert(source_sha@, pluck_sha@),
            final(self).new_entries.deep_view() == seq![(source_sha@, pluck_sha@)] + old(
                self,
            ).new_entries.deep_view(),
    {
        let ghost old_entries = self.new_entries.deep_view();
        let ghost pair = (source_sha@, pluck_sha@);
        self.preload.insert(source_sha.clone(), pluck_sha.clone());
        self.new_entries.insert(0, (source_sha, pluck_sha));
        assert(self.new_entries.deep_view() =~= seq![pair] + old_entries);
    }
}


/// After `add_new(source, pluck)` the pair is found both ways:
/// `lookup_pluck_sha(source)` gives `pluck`, and `lookup_source_sha(pluck)`
/// gives a source recorded for `pluck` (that very source unless another
/// one maps to `pluck` too); other sources keep their pluck commits.
pub proof fn lemma_added_pair_found(
    m: Map<Seq<char>, Seq<char>>,
    source: Seq<char>,
    pluck: Seq<char>,
    other: Seq<char>,
)
    ensures
        m.insert(source, pluck).dom().contains(source),
        m.insert(source, pluck)[source] == pluck,
        exists|s: Seq<char>| #[trigger]
            m.insert(source, pluck).dom().contains(s) && m.insert(source, pluck)[s] == pluck,
        other != source ==> (m.insert(source, pluck).dom().contains(other) == m.dom().contains(
            other,
        ) && m.insert(source, pluck)[other] == m[other]),
{
    assert(m.insert(source, pluck).dom().contains(source));
}

} // verus!
