//! The log of plucked commits: the log-branch commit message, which parent
//! of the log tip records the last source, the parents of a new log
//! commit, the consistency of the log and pluck branches, and the
//! `Plucked from:` trailer of pluck commit messages.
use vstd::prelude::*;
use crate::cache::{
    branch_pairs, is_sha, pairs_from_lines, pluck_source_sha, sha_pair, trailer_sha, PluckCache,
};
use crate::error::{ErrorView, PluckError};
use crate::parent::revision_range;
use crate::text::{
    cat, cat3, fields, has_char, has_prefix, is_hex, lemma_fields_first, lemma_fields_two,
    lemma_hex_not_ws, lemma_lead_end, lemma_lines_append, lemma_lines_cons, lemma_lines_last,
    lemma_trail_end_past, lemma_trim_unchanged, lines, owned, str_eq, strip_cr, trim,
};

verus! {

/// The line of one pair: `<source>:<pluck>` and a newline.
pub open spec fn pair_line(p: (Seq<char>, Seq<char>)) -> Seq<char> {
    p.0 + ":"@ + p.1 + "\n"@
}

/// The lines of the pairs, in order.
pub open spec fn pair_lines(es: Seq<(Seq<char>, Seq<char>)>) -> Seq<char>
    decreases es.len(),
{
    if es.len() == 0 {
        Seq::empty()
    } else {
        pair_lines(es.drop_last()) + pair_line(es.last())
    }
}

/// The log-branch commit message: `[SOURCE:PLUCK] <pluckname>`, a blank
/// line, then one `source:pluck` line per pair.
pub open spec fn log_branch_message(name: Seq<char>, es: Seq<(Seq<char>, Seq<char>)>) -> Seq<char> {
    "[SOURCE:PLUCK] "@ + name + "\n\n"@ + pair_lines(es)
}

/// Builds the log-branch commit message from the pairs created in this
/// run (newest first).
pub fn build_log_branch_message(pluckname: &str, cache: &PluckCache) -> (m: String)
    ensures
        m@ == log_branch_message(pluckname@, cache.new_entries.deep_view()),
{
    let ghost es = cache.new_entries.deep_view();
    let head = cat3("[SOURCE:PLUCK] ", pluckname, "\n\n");
    let mut msg = head;
    let mut i: usize = 0;
    assert(es.take(0) =~= Seq::<(Seq<char>, Seq<char>)>::empty());
    assert(msg@ =~= "[SOURCE:PLUCK] "@ + pluckname@ + "\n\n"@ + pair_lines(es.take(0)));
    while i < cache.new_entries.len()
        invariant
            es == cache.new_entries.deep_view(),
            0 <= i <= cache.new_entries.len(),
            msg@ == "[SOURCE:PLUCK] "@ + pluckname@ + "\n\n"@ + pair_lines(es.take(i as int)),
        decreases cache.new_entries.len() - i,
    {
        let (source, pluck) = &cache.new_entries[i];
        assert(es[i as int] == (source@, pluck@));
        assert(es.take(i + 1).drop_last() =~= es.take(i as int));
        let a = cat3(msg.as_str(), source.as_str(), ":");
        let b = cat3(a.as_str(), pluck.as_str(), "\n");
        msg = b;
        assert(msg@ =~= "[SOURCE:PLUCK] "@ + pluckname@ + "\n\n"@ + pair_lines(es.take(i + 1)));
        i = i + 1;
    }
    assert(es.take(es.len() as int) =~= es);
    msg
}

/// Which parent of a log commit with `parent_count` parents records the
/// last plucked source.
pub open spec fn source_parent(parent_count: int) -> Option<int> {
    if parent_count >= 3 {
        Some(1)
    } else if parent_count >= 1 {
        Some(0)
    } else {
        None
    }
}

/// Which parent of the log-branch tip is the last plucked source: the
/// second when the tip has three or more parents, else the first; none
/// for a tip without parents.
pub fn log_source_parent_index(parent_count: usize) -> (r: Option<usize>)
    ensures
        match r {
            Some(i) => source_parent(parent_count as int) == Some(i as int),
            None => source_parent(parent_count as int) is None,
        },
{
    if parent_count >= 3 {
        Some(1)
    } else if parent_count >= 1 {
        Some(0)
    } else {
        None
    }
}

/// The parents of a new log commit: the current log tip (or the source
/// commit on the first run), the source commit, and the pluck tip.
pub open spec fn log_parents(
    current_log: Option<Seq<char>>,
    start: Seq<char>,
    pluck_tip: Seq<char>,
) -> Seq<Seq<char>> {
    match current_log {
        Some(c) => seq![c, start, pluck_tip],
        None => seq![start, start, pluck_tip],
    }
}

/// Builds the parents of a new log commit (see `log_parents`).
pub fn log_commit_parents(current_log: Option<String>, start: String, pluck_tip: String) -> (r: Vec<
    String,
>)
    ensures
        r.deep_view() == log_parents(current_log.deep_view(), start@, pluck_tip@),
{
    let ghost cl = current_log;
    let ghost sv = start@;
    let ghost pv = pluck_tip@;
    let first = match current_log {
        Some(c) => c,
        None => start.clone(),
    };
    let r = vec![first, start, pluck_tip];
    assert(r.deep_view() =~= (match cl {
        Some(c) => seq![c@, sv, pv],
        None => seq![sv, sv, pv],
    }));
    r
}

/// Checks that the pluck tip is an immediate parent of the log-branch tip
/// (nothing to check while either branch is missing).
pub fn validate_log_pluck_consistency(
    pluck_tip: Option<&str>,
    log_tip: Option<&str>,
    log_parents: &Vec<String>,
) -> (r: Result<(), PluckError>)
    ensures
        match (pluck_tip, log_tip) {
            (Some(p), Some(l)) => if log_parents.deep_view().contains(p@) {
                r is Ok
            } else {
                r matches Err(e) && e@ == ErrorView::LogInconsistency(p@, l@)
            },
            _ => r is Ok,
        },
{
    let (p, l) = match (pluck_tip, log_tip) {
        (Some(p), Some(l)) => (p, l),
        _ => {
            return Ok(());
        },
    };
    let ghost pv = log_parents.deep_view();
    let mut i: usize = 0;
    while i < log_parents.len()
        invariant
            pv == log_parents.deep_view(),
            pluck_tip == Some(p),
            log_tip == Some(l),
            0 <= i <= log_parents.len(),
            forall|k: int| 0 <= k < i ==> pv[k] != p@,
        decreases log_parents.len() - i,
    {
        assert(pv[i as int] == log_parents[i as int]@);
        if str_eq(log_parents[i].as_str(), p) {
            assert(pv[i as int] == p@);
            assert(pv.contains(p@));
            return Ok(());
        }
        i = i + 1;
    }
    Err(PluckError::LogInconsistency(owned(p), owned(l)))
}

// ---------------------------------------------------------------------
// The `Plucked from:` trailer
// ---------------------------------------------------------------------

/// The trailer that records a source commit in a pluck commit message.
pub open spec fn source_trailer(sha: Seq<char>) -> Seq<char> {
    "Plucked from: "@ + sha
}

pub fn trailer_for(sha: &str) -> (t: String)
    ensures
        t@ == source_trailer(sha@),
{
    cat("Plucked from: ", sha)
}

/// The message with the trailer appended after a blank line (what is used
/// when `git interpret-trailers` fails).
pub open spec fn with_trailer(message: Seq<char>, sha: Seq<char>) -> Seq<char> {
    message + "\n\n"@ + source_trailer(sha)
}

pub fn append_trailer(message: &str, sha: &str) -> (m: String)
    ensures
        m@ == with_trailer(message@, sha@),
{
    let t = trailer_for(sha);
    cat3(message, "\n\n", t.as_str())
}


// ---------------------------------------------------------------------
// Reading back what was written
// ---------------------------------------------------------------------

/// `m` with the pairs from position `i` inserted in order.
pub open spec fn insert_pairs(
    m: Map<Seq<char>, Seq<char>>,
    es: Seq<(Seq<char>, Seq<char>)>,
    i: int,
) -> Map<Seq<char>, Seq<char>>
    decreases es.len() - i,
{
    if i < 0 || i >= es.len() {
        m
    } else {
        insert_pairs(m.insert(es[i].0, es[i].1), es, i + 1)
    }
}

/// Every pair is two full object ids.
pub open spec fn all_sha_pairs(es: Seq<(Seq<char>, Seq<char>)>) -> bool {
    forall|k: int| 0 <= k < es.len() ==> is_sha(#[trigger] es[k].0) && is_sha(es[k].1)
}

/// The text of one pair line.
pub open spec fn pair_text(p: (Seq<char>, Seq<char>)) -> Seq<char> {
    p.0 + ":"@ + p.1
}

proof fn lemma_sha_no_char(s: Seq<char>, c: char)
    requires
        is_sha(s),
        !is_hex(c),
    ensures
        !has_char(s, c),
{
    if has_char(s, c) {
        let k = choose|k: int| 0 <= k < s.len() && s[k] == c;
        assert(is_hex(s[k]));
    }
}

/// A pair line of two ids: no newline, no whitespace at its ends, and it
/// splits at `:` into the two ids.
proof fn lemma_pair_text(p: (Seq<char>, Seq<char>))
    requires
        is_sha(p.0),
        is_sha(p.1),
    ensures
        !has_char(pair_text(p), '\n'),
        strip_cr(pair_text(p)) == pair_text(p),
        trim(pair_text(p)) == pair_text(p),
        sha_pair(pair_text(p)),
        fields(pair_text(p), ':') == seq![p.0, p.1],
{
    reveal_strlit(":");
    let t = pair_text(p);
    assert(t =~= p.0 + seq![':'] + p.1);
    lemma_sha_no_char(p.0, '\n');
    lemma_sha_no_char(p.1, '\n');
    lemma_sha_no_char(p.0, ':');
    lemma_sha_no_char(p.1, ':');
    if has_char(t, '\n') {
        let k = choose|k: int| 0 <= k < t.len() && t[k] == '\n';
        if k < 40 {
            assert(t[k] == p.0[k]);
            assert(has_char(p.0, '\n'));
        } else if k > 40 {
            assert(t[k] == p.1[k - 41]);
            assert(has_char(p.1, '\n'));
        }
    }
    assert(t[0] == p.0[0]);
    assert(is_hex(p.0[0]));
    lemma_hex_not_ws(t[0]);
    assert(t.last() == p.1[39]);
    assert(is_hex(p.1[39]));
    lemma_hex_not_ws(t.last());
    lemma_trim_unchanged(t);
    lemma_fields_two(p.0, p.1, ':');
}

/// The lines of the pair lines are the pair texts.
proof fn lemma_pair_lines(es: Seq<(Seq<char>, Seq<char>)>)
    requires
        all_sha_pairs(es),
    ensures
        lines(pair_lines(es)) == Seq::new(es.len(), |k: int| pair_text(es[k])),
        pair_lines(es).len() == 0 || pair_lines(es).last() == '\n',
    decreases es.len(),
{
    reveal_strlit(":");
    reveal_strlit("\n");
    if es.len() == 0 {
        assert(lines(Seq::<char>::empty()) =~= Seq::<Seq<char>>::empty());
        assert(Seq::new(0, |k: int| pair_text(es[k])) =~= Seq::<Seq<char>>::empty());
    } else {
        let rest = es.drop_last();
        assert forall|k: int| 0 <= k < rest.len() implies is_sha(#[trigger] rest[k].0) && is_sha(
            rest[k].1,
        ) by {
            assert(rest[k] == es[k]);
        }
        lemma_pair_lines(rest);
        let x = pair_lines(rest);
        let l = pair_text(es.last());
        assert(is_sha(es[es.len() - 1].0) && is_sha(es[es.len() - 1].1));
        lemma_pair_text(es.last());
        assert(pair_line(es.last()) =~= l + seq!['\n']);
        assert(l + seq!['\n'] =~= l + seq!['\n'] + Seq::<char>::empty());
        lemma_lines_cons(l, Seq::<char>::empty());
        assert(lines(Seq::<char>::empty()) =~= Seq::<Seq<char>>::empty());
        assert(lines(l + seq!['\n']) =~= seq![l]);
        lemma_lines_append(x, l + seq!['\n'], 0);
        assert(pair_lines(es) =~= x + (l + seq!['\n']));
        assert(lines(pair_lines(es)) =~= Seq::new(es.len(), |k: int| pair_text(es[k]))) by {
            assert(Seq::new(rest.len(), |k: int| pair_text(rest[k])) =~= Seq::new(
                (es.len() - 1) as nat,
                |k: int| pair_text(es[k]),
            ));
        }
    }
}

/// Reading the pair lines after `pre` inserts the pairs in order.
proof fn lemma_read_pairs(
    m: Map<Seq<char>, Seq<char>>,
    pre: Seq<Seq<char>>,
    es: Seq<(Seq<char>, Seq<char>)>,
    k: int,
)
    requires
        0 <= k <= es.len(),
        all_sha_pairs(es),
    ensures
        pairs_from_lines(m, pre + Seq::new(es.len(), |j: int| pair_text(es[j])), pre.len() + k)
            == insert_pairs(m, es, k),
    decreases es.len() - k,
{
    let ls = pre + Seq::new(es.len(), |j: int| pair_text(es[j]));
    if k < es.len() {
        assert(is_sha(es[k].0) && is_sha(es[k].1));
        lemma_pair_text(es[k]);
        assert(ls[pre.len() + k] == pair_text(es[k]));
        lemma_read_pairs(m.insert(es[k].0, es[k].1), pre, es, k + 1);
    }
}

/// The header line of a log-branch message is no sha pair.
proof fn lemma_header_not_pair(name: Seq<char>)
    ensures
        !sha_pair(trim(strip_cr("[SOURCE:PLUCK] "@ + name))),
{
    reveal_strlit("[SOURCE:PLUCK] ");
    let h = "[SOURCE:PLUCK] "@ + name;
    let hp = strip_cr(h);
    assert(hp.len() >= 14);
    assert forall|k: int| 0 <= k < 14 implies hp[k] == h[k] by {}
    assert(hp[0] == '[' && hp[7] == ':' && hp[13] == ']');
    lemma_lead_end(hp, 0);
    assert(crate::text::lead_end(hp, 0) == 0);
    lemma_trail_end_past(hp, hp.len() as int, 13);
    let t = trim(hp);
    assert(t == hp.subrange(0, crate::text::trail_end(hp, hp.len() as int)));
    assert(t[7] == ':');
    assert forall|k: int| 0 <= k < 7 implies t[k] != ':' by {
        assert(t[k] == h[k]);
    }
    lemma_fields_first(t, 7, ':');
    assert(fields(t, ':')[0].len() == 7);
}

/// The log-branch message, read back, inserts the pairs it was written
/// with, in order: what the log branch records is what the cache loads.
/// (A pluck name with a newline could add lines of its own, so it has none.)
pub proof fn lemma_log_branch_round_trip(
    m: Map<Seq<char>, Seq<char>>,
    name: Seq<char>,
    es: Seq<(Seq<char>, Seq<char>)>,
)
    requires
        !has_char(name, '\n'),
        all_sha_pairs(es),
    ensures
        branch_pairs(m, seq![log_branch_message(name, es)], 0) == insert_pairs(m, es, 0),
{
    reveal_strlit("[SOURCE:PLUCK] ");
    reveal_strlit("\n\n");
    let h = "[SOURCE:PLUCK] "@ + name;
    let p = pair_lines(es);
    let msg = log_branch_message(name, es);
    assert(!has_char(h, '\n')) by {
        if has_char(h, '\n') {
            let k = choose|k: int| 0 <= k < h.len() && h[k] == '\n';
            if k >= 15 {
                assert(h[k] == name[k - 15]);
                assert(has_char(name, '\n'));
            }
        }
    }
    assert(msg =~= h + seq!['\n'] + (seq!['\n'] + p));
    lemma_lines_cons(h, seq!['\n'] + p);
    assert(seq!['\n'] + p =~= Seq::<char>::empty() + seq!['\n'] + p);
    lemma_lines_cons(Seq::<char>::empty(), p);
    lemma_pair_lines(es);
    let ls = seq![strip_cr(h), Seq::<char>::empty()] + Seq::new(es.len(), |j: int| pair_text(es[j]));
    assert(lines(msg) =~= ls);
    lemma_header_not_pair(name);
    assert(trim(Seq::<char>::empty()) =~= Seq::<char>::empty()) by {
        assert(crate::text::lead_end(Seq::<char>::empty(), 0) == 0);
    }
    assert(Seq::<char>::empty().subrange(0, 0) =~= Seq::<char>::empty());
    assert(fields(Seq::<char>::empty(), ':') =~= seq![Seq::<char>::empty()]);
    assert(!sha_pair(Seq::<char>::empty()));
    lemma_read_pairs(m, seq![strip_cr(h), Seq::<char>::empty()], es, 0);
    assert(ls[0] == strip_cr(h));
    assert(ls[1] == Seq::<char>::empty());
    assert(pairs_from_lines(m, ls, 1) == pairs_from_lines(m, ls, 2));
    assert(pairs_from_lines(m, ls, 0) == pairs_from_lines(m, ls, 1));
    assert(pairs_from_lines(m, ls, 2) == insert_pairs(m, es, 0));
    let msgs = seq![msg];
    assert(msgs[0] == msg);
    let m1 = pairs_from_lines(m, lines(msg), 0);
    assert(branch_pairs(m1, msgs, 1) == m1);
    assert(branch_pairs(m, msgs, 0) == branch_pairs(m1, msgs, 1));
}

/// A message with the trailer appended records that sha: the trailer is
/// its last line.
pub proof fn lemma_trailer_round_trip(message: Seq<char>, sha: Seq<char>)
    requires
        is_sha(sha),
    ensures
        pluck_source_sha(with_trailer(message, sha)) == Some(sha),
{
    reveal_strlit("Plucked from: ");
    reveal_strlit("\n\n");
    let t = source_trailer(sha);
    lemma_sha_no_char(sha, '\n');
    assert(!has_char(t, '\n')) by {
        if has_char(t, '\n') {
            let k = choose|k: int| 0 <= k < t.len() && t[k] == '\n';
            if k >= 14 {
                assert(t[k] == sha[k - 14]);
                assert(has_char(sha, '\n'));
            }
        }
    }
    let a = message + seq!['\n'];
    assert(with_trailer(message, sha) =~= a + seq!['\n'] + t);
    lemma_lines_last(a, t, 0);
    let ls = lines(with_trailer(message, sha));
    assert(ls[ls.len() - 1] == t);
    assert(t[0] == 'P');
    assert(t.last() == sha[39]);
    assert(is_hex(sha[39]));
    lemma_hex_not_ws(t.last());
    lemma_trim_unchanged(t);
    assert(has_prefix(t, "Plucked from: "@)) by {
        assert(t.subrange(0, 14) =~= "Plucked from: "@);
    }
    assert(t.subrange(14, t.len() as int) =~= sha);
    assert(is_hex(sha[0]));
    lemma_hex_not_ws(sha[0]);
    lemma_hex_not_ws(sha.last());
    lemma_trim_unchanged(sha);
    assert(trailer_sha(t) == Some(sha));
}

/// Incremental plucking: the log commit of a run records its source commit
/// at the parent that the next run reads as the last plucked source, so a
/// recursive run after it asks only for the commits after that source.
pub proof fn lemma_next_run_starts_after_source(
    current_log: Option<Seq<char>>,
    start: Seq<char>,
    pluck_tip: Seq<char>,
    next_start: Seq<char>,
)
    ensures
        source_parent(log_parents(current_log, start, pluck_tip).len() as int) == Some(1int),
        log_parents(current_log, start, pluck_tip)[1] == start,
        revision_range(None, next_start, Some(start)) == start + ".."@ + next_start,
{
}

/// A run leaves the branches consistent: the pluck tip it moves the pluck
/// branch to is a parent of the log commit it adds, which is what the
/// consistency check of the next run asks.
pub proof fn lemma_log_commit_keeps_branches_consistent(
    current_log: Option<Seq<char>>,
    start: Seq<char>,
    pluck_tip: Seq<char>,
)
    ensures
        log_parents(current_log, start, pluck_tip).contains(pluck_tip),
{
    assert(log_parents(current_log, start, pluck_tip)[2] == pluck_tip);
}

} // verus!
