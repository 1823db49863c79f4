//! Building the pluck tree of a source commit: every entry of the source
//! tree is placed according to the pluck map (mirrored, moved, copied,
//! unpacked or removed), then the directories that Git must create for the
//! result are planned.
use vstd::prelude::*;
use crate::collections::{StrMap, StrSet};
use crate::config::PluckConfig;
use crate::error::{ErrorView, PluckError};
use crate::map::{EntryView, MapEntry, MapTarget, TargetView};
use crate::text::{
    char_at_byte, find_char, has_prefix, join_slash, lines, owned, rfind_from, starts_with,
    str_byte_len, str_char_at_byte, str_eq, str_find_char, str_lines, str_rfind_char, str_words,
    substring, utf8_bytes, with_slash, words, lemma_rfind_bounds, lemma_next_idx_bounds,
};

verus! {

/// A single entry of `git ls-tree` output.
#[derive(Debug, Clone)]
pub struct TreeEntry {
    pub mode: String,
    pub obj_type: String,
    pub sha: String,
    pub path: String,
}

pub struct TreeItem {
    pub mode: Seq<char>,
    pub obj_type: Seq<char>,
    pub sha: Seq<char>,
    pub path: Seq<char>,
}

impl DeepView for TreeEntry {
    type V = TreeItem;

    open spec fn deep_view(&self) -> TreeItem {
        TreeItem { mode: self.mode@, obj_type: self.obj_type@, sha: self.sha@, path: self.path@ }
    }
}

impl TreeEntry {
    pub fn duplicate(&self) -> (r: TreeEntry)
        ensures
            r.deep_view() == self.deep_view(),
    {
        TreeEntry {
            mode: self.mode.clone(),
            obj_type: self.obj_type.clone(),
            sha: self.sha.clone(),
            path: self.path.clone(),
        }
    }

    /// This entry placed at another path.
    pub fn at_path(&self, path: String) -> (r: TreeEntry)
        ensures
            r.deep_view() == at(self.deep_view(), path@),
    {
        TreeEntry {
            mode: self.mode.clone(),
            obj_type: self.obj_type.clone(),
            sha: self.sha.clone(),
            path,
        }
    }
}

pub open spec fn at(e: TreeItem, p: Seq<char>) -> TreeItem {
    TreeItem { path: p, ..e }
}

// ---------------------------------------------------------------------
// Reading `git ls-tree` output
// ---------------------------------------------------------------------

/// The entry a `git ls-tree` line describes: `<mode> <type> <sha>\t<path>`.
pub open spec fn parse_line(line: Seq<char>) -> Option<TreeItem> {
    match find_char(line, '\t') {
        None => None,
        Some(t) => {
            let parts = words(line.subrange(0, t));
            if parts.len() < 3 {
                None
            } else {
                Some(
                    TreeItem {
                        mode: parts[0],
                        obj_type: parts[1],
                        sha: parts[2],
                        path: line.subrange(t + 1, line.len() as int),
                    },
                )
            }
        },
    }
}

/// Parses a single `git ls-tree` line into a `TreeEntry`.
pub fn parse_ls_tree_line(line: &str) -> (r: Option<TreeEntry>)
    ensures
        r matches Some(e) ==> parse_line(line@) == Some(e.deep_view()),
        r is None ==> parse_line(line@) is None,
{
    let t = match str_find_char(line, '\t') {
        Some(t) => t,
        None => {
            return None;
        },
    };
    proof {
        lemma_next_idx_bounds(line@, 0, '\t');
    }
    let n = line.unicode_len();
    let meta = substring(line, 0, t);
    let path = substring(line, t + 1, n);
    let parts = str_words(meta.as_str());
    if parts.len() < 3 {
        return None;
    }
    assert(parts.deep_view()[0] == parts[0]@ && parts.deep_view()[1] == parts[1]@
        && parts.deep_view()[2] == parts[2]@);
    Some(
        TreeEntry {
            mode: parts[0].clone(),
            obj_type: parts[1].clone(),
            sha: parts[2].clone(),
            path,
        },
    )
}

/// The entries described by the lines from position `i` that parse.
pub open spec fn listing_from(ls: Seq<Seq<char>>, i: int) -> Seq<TreeItem>
    decreases ls.len() - i,
{
    if i < 0 || i >= ls.len() {
        Seq::empty()
    } else {
        match parse_line(ls[i]) {
            Some(e) => seq![e] + listing_from(ls, i + 1),
            None => listing_from(ls, i + 1),
        }
    }
}

/// The entries of `git ls-tree` output, in output order; unparsable lines are skipped.
pub open spec fn listing(out: Seq<char>) -> Seq<TreeItem> {
    listing_from(lines(out), 0)
}

pub fn parse_ls_tree_output(out: &str) -> (r: Vec<TreeEntry>)
    ensures
        r.deep_view() == listing(out@),
{
    let ls = str_lines(out);
    let ghost lv = ls.deep_view();
    let mut r: Vec<TreeEntry> = Vec::new();
    let mut i: usize = 0;
    assert(r.deep_view() =~= Seq::<TreeItem>::empty());
    while i < ls.len()
        invariant
            lv == ls.deep_view(),
            lv == lines(out@),
            0 <= i <= ls.len(),
            r.deep_view() + listing_from(lv, i as int) == listing_from(lv, 0),
        decreases ls.len() - i,
    {
        assert(lv[i as int] == ls[i as int]@);
        let ghost before = r.deep_view();
        match parse_ls_tree_line(ls[i].as_str()) {
            Some(e) => {
                r.push(e);
                assert(r.deep_view() =~= before.push(e.deep_view()));
                assert(before + listing_from(lv, i as int) =~= r.deep_view() + listing_from(
                    lv,
                    i + 1,
                ));
            },
            None => {},
        }
        i = i + 1;
    }
    assert(r.deep_view() + Seq::<TreeItem>::empty() =~= r.deep_view());
    r
}

// ---------------------------------------------------------------------
// Ordering by path
// ---------------------------------------------------------------------

/// Lexicographic order of character sequences from position `i` (the
/// order of `String`, since UTF-8 keeps code point order).
pub open spec fn lt_from(a: Seq<char>, b: Seq<char>, i: int) -> bool
    decreases a.len() - i,
{
    if i < 0 {
        false
    } else if i >= a.len() {
        i < b.len()
    } else if i >= b.len() {
        false
    } else if a[i] != b[i] {
        (a[i] as u32) < (b[i] as u32)
    } else {
        lt_from(a, b, i + 1)
    }
}

pub open spec fn path_lt(a: Seq<char>, b: Seq<char>) -> bool {
    lt_from(a, b, 0)
}

pub proof fn lemma_lt_trans(a: Seq<char>, b: Seq<char>, c: Seq<char>, i: int)
    requires
        0 <= i,
        lt_from(a, b, i),
        lt_from(b, c, i),
        forall|k: int| 0 <= k < i ==> a[k] == b[k] && b[k] == c[k],
        i <= a.len() && i <= b.len() && i <= c.len(),
    ensures
        lt_from(a, c, i),
    decreases a.len() - i,
{
    if i < a.len() && i < b.len() && i < c.len() && a[i] == b[i] && b[i] == c[i] {
        lemma_lt_trans(a, b, c, i + 1);
    }
}

pub proof fn lemma_lt_irreflexive(a: Seq<char>, i: int)
    requires
        0 <= i,
    ensures
        !lt_from(a, a, i),
    decreases a.len() - i,
{
    if i < a.len() {
        lemma_lt_irreflexive(a, i + 1);
    }
}

pub proof fn lemma_lt_total(a: Seq<char>, b: Seq<char>, i: int)
    requires
        0 <= i <= a.len(),
        i <= b.len(),
        forall|k: int| 0 <= k < i ==> a[k] == b[k],
    ensures
        lt_from(a, b, i) || lt_from(b, a, i) || a == b,
    decreases a.len() - i,
{
    if i < a.len() && i < b.len() && a[i] == b[i] {
        lemma_lt_total(a, b, i + 1);
    } else if i >= a.len() && i >= b.len() {
        assert(a =~= b);
    } else if i < a.len() && i < b.len() {
        let x = a[i];
        let y = b[i];
        assert(x != y);
        vstd::utf8::char_u32_cast(x, x as u32);
        vstd::utf8::char_u32_cast(y, y as u32);
        assert((x as u32) != (y as u32));
    }
}

pub fn path_less(a: &str, b: &str) -> (r: bool)
    ensures
        r == path_lt(a@, b@),
{
    let va = crate::text::chars_of(a);
    let vb = crate::text::chars_of(b);
    let mut i: usize = 0;
    while i < va.len() && i < vb.len() && va[i] == vb[i]
        invariant
            va@ == a@,
            vb@ == b@,
            0 <= i <= va.len(),
            i <= vb.len(),
            lt_from(a@, b@, i as int) == path_lt(a@, b@),
        decreases va.len() - i,
    {
        i = i + 1;
    }
    if i >= va.len() {
        i < vb.len()
    } else if i >= vb.len() {
        false
    } else {
        (va[i] as u32) < (vb[i] as u32)
    }
}

/// Entries are in non-decreasing order of path.
pub open spec fn sorted_by_path(s: Seq<TreeItem>) -> bool {
    forall|i: int, j: int| 0 <= i < j < s.len() ==> !path_lt(#[trigger] s[j].path, #[trigger] s[i].path)
}

/// The entries at path `p`.
pub open spec fn path_is(p: Seq<char>) -> spec_fn(TreeItem) -> bool {
    |e: TreeItem| e.path == p
}

/// Inserting `x` into a sorted table before the first entry that it
/// precedes puts it after every entry with its path, and changes no other
/// path's entries.
proof fn lemma_insert_keeps_path_order(s: Seq<TreeItem>, p: int, x: TreeItem, q: Seq<char>)
    requires
        0 <= p <= s.len(),
        sorted_by_path(s),
        p < s.len() ==> path_lt(x.path, s[p].path),
    ensures
        s.insert(p, x).filter(path_is(q)) == (if x.path == q {
            s.filter(path_is(q)).push(x)
        } else {
            s.filter(path_is(q))
        }),
{
    let pred = path_is(q);
    let a = s.take(p);
    let b = s.skip(p);
    assert(s.insert(p, x) =~= a.push(x) + b);
    assert(s =~= a + b);
    Seq::filter_distributes_over_add(a.push(x), b, pred);
    Seq::filter_distributes_over_add(a, b, pred);
    a.lemma_filter_push(x, pred);
    if x.path == q {
        assert forall|k: int| 0 <= k < b.len() implies !pred(#[trigger] b[k]) by {
            assert(b[k] == s[p + k]);
            if s[p + k].path == q {
                if k == 0 {
                    lemma_lt_irreflexive(x.path, 0);
                } else {
                    assert(!path_lt(s[p + k].path, s[p].path));
                }
            }
        }
        b.lemma_all_neg_filter_empty(pred);
        assert(b.filter(pred) =~= Seq::<TreeItem>::empty());
        assert(a.filter(pred).push(x) + b.filter(pred) =~= a.filter(pred).push(x));
        assert(a.filter(pred) + b.filter(pred) =~= a.filter(pred));
    }
}

/// Sorts entries by path, stably: entries with one path keep their order.
pub fn sort_by_path(v: Vec<TreeEntry>) -> (r: Vec<TreeEntry>)
    ensures
        sorted_by_path(r.deep_view()),
        r.deep_view().to_multiset() == v.deep_view().to_multiset(),
        forall|q: Seq<char>|
            #[trigger] r.deep_view().filter(path_is(q)) == v.deep_view().filter(path_is(q)),
{
    broadcast use vstd::seq_lib::group_to_multiset_ensures;

    let mut r: Vec<TreeEntry> = Vec::new();
    let mut i: usize = 0;
    assert(r.deep_view() =~= v.deep_view().take(0));
    while i < v.len()
        invariant
            0 <= i <= v.len(),
            sorted_by_path(r.deep_view()),
            r.deep_view().to_multiset() == v.deep_view().take(i as int).to_multiset(),
            forall|q: Seq<char>|
                #[trigger] r.deep_view().filter(path_is(q)) == v.deep_view().take(i as int).filter(
                    path_is(q),
                ),
        decreases v.len() - i,
    {
        let x = v[i].duplicate();
        let mut p: usize = 0;
        while p < r.len() && !path_less(x.path.as_str(), r[p].path.as_str())
            invariant
                0 <= p <= r.len(),
                forall|k: int| 0 <= k < p ==> !path_lt(x.path@, #[trigger] r.deep_view()[k].path),
            decreases r.len() - p,
        {
            assert(r.deep_view()[p as int] == r[p as int].deep_view());
            p = p + 1;
        }
        let ghost old_r = r.deep_view();
        let ghost xv = x.deep_view();
        proof {
            if p < r.len() {
                assert(old_r[p as int] == r[p as int].deep_view());
                assert(path_lt(xv.path, old_r[p as int].path));
            }
        }
        r.insert(p, x);
        assert(r.deep_view() =~= old_r.insert(p as int, xv));
        proof {
            let nr = r.deep_view();
            assert forall|a: int, b: int| 0 <= a < b < nr.len() implies !path_lt(
                #[trigger] nr[b].path,
                #[trigger] nr[a].path,
            ) by {
                if b < p {
                    assert(nr[a] == old_r[a] && nr[b] == old_r[b]);
                } else if a < p && b == p {
                    assert(nr[a] == old_r[a] && nr[b] == xv);
                } else if a < p && b > p {
                    assert(nr[a] == old_r[a] && nr[b] == old_r[b - 1]);
                } else if a == p {
                    assert(nr[a] == xv && nr[b] == old_r[b - 1]);
                    assert(p < old_r.len());
                    if path_lt(old_r[b - 1].path, xv.path) {
                        lemma_lt_trans(old_r[b - 1].path, xv.path, old_r[p as int].path, 0);
                        if b - 1 == p {
                            lemma_lt_irreflexive(old_r[p as int].path, 0);
                        }
                    }
                } else {
                    assert(nr[a] == old_r[a - 1] && nr[b] == old_r[b - 1]);
                }
            }
            assert(v.deep_view()[i as int] == v[i as int].deep_view());
            assert(v.deep_view().take(i + 1) =~= v.deep_view().take(i as int).push(xv));
            vstd::seq_lib::to_multiset_insert(old_r, p as int, xv);
            vstd::seq_lib::to_multiset_build(v.deep_view().take(i as int), xv);
            assert forall|q: Seq<char>|
                #[trigger] nr.filter(path_is(q)) == v.deep_view().take(i + 1).filter(path_is(q)) by {
                lemma_insert_keeps_path_order(old_r, p as int, xv, q);
                v.deep_view().take(i as int).lemma_filter_push(xv, path_is(q));
            }
        }
        i = i + 1;
    }
    assert(v.deep_view().take(v.len() as int) =~= v.deep_view());
    r
}

/// The entries of a full tree listing, sorted by path (what `dump_tree`
/// returns for `git ls-tree -r -t --full-tree` output).
pub fn parse_tree_dump(out: &str) -> (r: Vec<TreeEntry>)
    ensures
        sorted_by_path(r.deep_view()),
        r.deep_view().to_multiset() == listing(out@).to_multiset(),
        forall|q: Seq<char>| #[trigger] r.deep_view().filter(path_is(q)) == listing(out@).filter(path_is(q)),
{
    let v = parse_ls_tree_output(out);
    sort_by_path(v)
}


// ---------------------------------------------------------------------
// Matching paths against the map
// ---------------------------------------------------------------------

/// `path` is the source path `src` or lies under it.
pub open spec fn covers(path: Seq<char>, src: Seq<char>) -> bool {
    path == src || has_prefix(path, src.push('/'))
}

pub fn path_covered_by(path: &str, src: &str) -> (b: bool)
    ensures
        b == covers(path@, src@),
{
    if str_eq(path, src) {
        return true;
    }
    let with = with_slash(src);
    starts_with(path, with.as_str())
}

/// Index of the first entry from position `i` whose source covers `path`, or -1.
pub open spec fn mapping_index_from(path: Seq<char>, es: Seq<EntryView>, i: int) -> int
    decreases es.len() - i,
{
    if i < 0 || i >= es.len() {
        -1
    } else if covers(path, es[i].src) {
        i
    } else {
        mapping_index_from(path, es, i + 1)
    }
}

pub open spec fn mapping_index(path: Seq<char>, es: Seq<EntryView>) -> int {
    mapping_index_from(path, es, 0)
}

proof fn lemma_mapping_index_from(path: Seq<char>, es: Seq<EntryView>, i: int)
    requires
        0 <= i,
    ensures
        -1 <= mapping_index_from(path, es, i) < es.len(),
        mapping_index_from(path, es, i) >= 0 ==> i <= mapping_index_from(path, es, i) && covers(
            path,
            es[mapping_index_from(path, es, i)].src,
        ),
    decreases es.len() - i,
{
    if i < es.len() && !covers(path, es[i].src) {
        lemma_mapping_index_from(path, es, i + 1);
    }
}

fn find_mapping_index(path: &str, map_entries: &[MapEntry]) -> (r: Option<usize>)
    ensures
        r matches Some(i) ==> mapping_index(path@, map_entries.deep_view()) == i && i
            < map_entries.len(),
        r is None ==> mapping_index(path@, map_entries.deep_view()) == -1,
{
    let ghost es = map_entries.deep_view();
    let mut i: usize = 0;
    while i < map_entries.len()
        invariant
            es == map_entries.deep_view(),
            0 <= i <= map_entries.len(),
            mapping_index_from(path@, es, i as int) == mapping_index(path@, es),
        decreases map_entries.len() - i,
    {
        assert(es[i as int] == map_entries[i as int].deep_view());
        if path_covered_by(path, map_entries[i].src_path.as_str()) {
            return Some(i);
        }
        i = i + 1;
    }
    None
}

/// The map entry that a tree path matched.
pub struct MappedSource {
    pub source_key: String,
    pub target: MapTarget,
    pub copies: Vec<String>,
}

/// Finds the first map entry whose source is the path or one of its ancestors.
pub fn find_mapping(path: &str, map_entries: &[MapEntry]) -> (r: Option<MappedSource>)
    ensures
        r is None <==> mapping_index(path@, map_entries.deep_view()) == -1,
        r matches Some(m) ==> ({
            let e = map_entries.deep_view()[mapping_index(path@, map_entries.deep_view())];
            m.source_key@ == e.src && m.target@ == e.primary && m.copies.deep_view() == e.copies
        }),
{
    match find_mapping_index(path, map_entries) {
        Some(i) => {
            let e = map_entries[i].duplicate();
            assert(map_entries.deep_view()[i as int] == map_entries[i as int].deep_view());
            Some(MappedSource { source_key: e.src_path, target: e.primary, copies: e.copies })
        },
        None => None,
    }
}

/// A path has an explicit mapping other than the root (`.`) catch-all.
pub open spec fn overridden(path: Seq<char>, es: Seq<EntryView>) -> bool {
    exists|i: int| 0 <= i < es.len() && es[i].src != "."@ && covers(path, #[trigger] es[i].src)
}

/// Checks whether a path has an explicit mapping override (the root `.`
/// source is the catch-all, not an override).
pub fn is_overridden(path: &str, map_entries: &[MapEntry]) -> (b: bool)
    ensures
        b == overridden(path@, map_entries.deep_view()),
{
    let ghost es = map_entries.deep_view();
    let mut i: usize = 0;
    while i < map_entries.len()
        invariant
            es == map_entries.deep_view(),
            0 <= i <= map_entries.len(),
            forall|k: int| 0 <= k < i ==> !(es[k].src != "."@ && covers(path@, #[trigger] es[k].src)),
        decreases map_entries.len() - i,
    {
        assert(es[i as int] == map_entries[i as int].deep_view());
        let src = map_entries[i].src_path.as_str();
        if !str_eq(src, ".") && path_covered_by(path, src) {
            assert(es[i as int].src != "."@ && covers(path@, es[i as int].src));
            return true;
        }
        i = i + 1;
    }
    false
}

/// The destination of the first `[forward.from "."]` entry that moves the
/// root somewhere other than `.`: the prefix for all unmapped paths.
pub open spec fn base_prefix_from(es: Seq<EntryView>, i: int) -> Option<Seq<char>>
    decreases es.len() - i,
{
    if i < 0 || i >= es.len() {
        None
    } else {
        match es[i].primary {
            TargetView::Move(d) => if es[i].src == "."@ && d != "."@ {
                Some(d)
            } else {
                base_prefix_from(es, i + 1)
            },
            _ => base_prefix_from(es, i + 1),
        }
    }
}

pub open spec fn base_prefix(es: Seq<EntryView>) -> Option<Seq<char>> {
    base_prefix_from(es, 0)
}

/// Gets the root base prefix if the map holds `[forward.from "."] to = <dest>`.
pub fn get_base_prefix(map_entries: &[MapEntry]) -> (r: Option<String>)
    ensures
        r.deep_view() == base_prefix(map_entries.deep_view()),
{
    let ghost es = map_entries.deep_view();
    let mut i: usize = 0;
    while i < map_entries.len()
        invariant
            es == map_entries.deep_view(),
            0 <= i <= map_entries.len(),
            base_prefix_from(es, i as int) == base_prefix(es),
        decreases map_entries.len() - i,
    {
        assert(es[i as int] == map_entries[i as int].deep_view());
        match &map_entries[i].primary {
            MapTarget::Move(d) => {
                if str_eq(map_entries[i].src_path.as_str(), ".") && !str_eq(d.as_str(), ".") {
                    return Some(d.clone());
                }
            },
            _ => {},
        }
        i = i + 1;
    }
    None
}

/// The map holds `[forward.from "."] to = (Mirror)`.
pub open spec fn dot_mirror(es: Seq<EntryView>) -> bool {
    exists|i: int|
        0 <= i < es.len() && es[i].src == "."@ && (#[trigger] es[i]).primary is Mirror
}

/// Checks whether the map mirrors the root.
pub fn has_dot_mirror(map_entries: &[MapEntry]) -> (b: bool)
    ensures
        b == dot_mirror(map_entries.deep_view()),
{
    let ghost es = map_entries.deep_view();
    let mut i: usize = 0;
    while i < map_entries.len()
        invariant
            es == map_entries.deep_view(),
            0 <= i <= map_entries.len(),
            forall|k: int|
                0 <= k < i ==> !(es[k].src == "."@ && (#[trigger] es[k]).primary is Mirror),
        decreases map_entries.len() - i,
    {
        assert(es[i as int] == map_entries[i as int].deep_view());
        let is_mirror = match &map_entries[i].primary {
            MapTarget::Mirror => true,
            _ => false,
        };
        if is_mirror && str_eq(map_entries[i].src_path.as_str(), ".") {
            return true;
        }
        i = i + 1;
    }
    false
}

pub open spec fn opt_view(o: Option<&String>) -> Option<Seq<char>> {
    match o {
        Some(s) => Some(s@),
        None => None,
    }
}

/// Some entry other than the root has exactly `key` as its source.
pub open spec fn explicit_source(key: Seq<char>, es: Seq<EntryView>) -> bool {
    exists|i: int| 0 <= i < es.len() && (#[trigger] es[i]).src == key && es[i].src != "."@
}

/// The destination of a move or copy: the part of `orig` below `key`
/// placed under `dst`, prefixed with the root base prefix unless it
/// already starts with it or the source is mapped explicitly.
pub open spec fn move_path(
    orig: Seq<char>,
    key: Seq<char>,
    dst: Seq<char>,
    bp: Option<Seq<char>>,
    es: Seq<EntryView>,
) -> Seq<char> {
    let suffix = if orig == key {
        Seq::empty()
    } else {
        orig.subrange(key.len() as int + 1, orig.len() as int)
    };
    let path = if suffix.len() == 0 {
        dst
    } else {
        dst + seq!['/'] + suffix
    };
    match bp {
        Some(p) => if !has_prefix(path, p) && !explicit_source(key, es) {
            p + seq!['/'] + path
        } else {
            path
        },
        None => path,
    }
}

/// A source mapped explicitly (not the root) lands exactly under its own
/// destination, with no root base prefix in front: the source itself at
/// `dst`, and a path below it at `dst/<rest>`, whatever the base prefix.
pub proof fn lemma_explicit_move_ignores_base_prefix(
    key: Seq<char>,
    rest: Seq<char>,
    dst: Seq<char>,
    bp: Option<Seq<char>>,
    es: Seq<EntryView>,
    m: int,
)
    requires
        0 <= m < es.len(),
        es[m].src == key,
        key != "."@,
    ensures
        move_path(key, key, dst, bp, es) == dst,
        rest.len() > 0 ==> move_path(key + seq!['/'] + rest, key, dst, bp, es) == dst + seq!['/']
            + rest,
{
    assert(explicit_source(key, es));
    let orig = key + seq!['/'] + rest;
    assert(orig.subrange(key.len() as int + 1, orig.len() as int) =~= rest);
    if rest.len() > 0 {
        assert(orig != key);
    }
}

/// Resolves the destination path for a move or copy.
pub fn resolve_move_path(
    original_path: &str,
    source_key: &str,
    dst: &str,
    base_prefix: Option<&String>,
    map_entries: &[MapEntry],
) -> (r: String)
    requires
        covers(original_path@, source_key@),
    ensures
        r@ == move_path(original_path@, source_key@, dst@, opt_view(base_prefix), map_entries.deep_view()),
{
    let ghost es = map_entries.deep_view();
    let suffix = if str_eq(original_path, source_key) {
        String::new()
    } else {
        let n = original_path.unicode_len();
        let k = source_key.unicode_len();
        substring(original_path, k + 1, n)
    };
    let path = if suffix.unicode_len() == 0 {
        owned(dst)
    } else {
        join_slash(dst, suffix.as_str())
    };
    match base_prefix {
        Some(prefix) => {
            if !starts_with(path.as_str(), prefix.as_str()) {
                let mut is_override = false;
                let mut i: usize = 0;
                while i < map_entries.len()
                    invariant
                        es == map_entries.deep_view(),
                        0 <= i <= map_entries.len(),
                        is_override == (exists|k: int|
                            0 <= k < i && (#[trigger] es[k]).src == source_key@ && es[k].src
                                != "."@),
                    decreases map_entries.len() - i,
                {
                    assert(es[i as int] == map_entries[i as int].deep_view());
                    let src = map_entries[i].src_path.as_str();
                    if str_eq(src, source_key) && !str_eq(src, ".") {
                        is_override = true;
                    }
                    i = i + 1;
                }
                if !is_override {
                    return join_slash(prefix.as_str(), path.as_str());
                }
            }
            path
        },
        None => path,
    }
}

/// The directory an ancestor path stands for in the source tree: with a
/// root base prefix `p`, a path under `p/` loses `p/` (unless that leaves
/// nothing); any other path stands for itself.
pub open spec fn emplace_resolved(path: Seq<char>, bp: Option<Seq<char>>) -> Seq<char> {
    match bp {
        Some(p) => if has_prefix(path, p.push('/')) && path.len() > p.len() + 1 {
            path.subrange(p.len() + 1int, path.len() as int)
        } else {
            path
        },
        None => path,
    }
}

/// Resolves an emplace path by stripping the root base prefix, where
/// active, at a `/` boundary; other paths are kept as they are.
pub fn resolve_emplace_path(path: &str, base_prefix: Option<&String>) -> (r: String)
    ensures
        r@ == emplace_resolved(path@, opt_view(base_prefix)),
{
    match base_prefix {
        Some(prefix) => {
            let pre = with_slash(prefix.as_str());
            let n = path.unicode_len();
            let k = pre.unicode_len();
            if starts_with(path, pre.as_str()) && n > k {
                substring(path, k, n)
            } else {
                owned(path)
            }
        },
        None => owned(path),
    }
}


// ---------------------------------------------------------------------
// The table of pluck entries, keyed by path
// ---------------------------------------------------------------------

/// Index of the first entry with path `p` from position `i`, or -1.
pub open spec fn path_index_from(s: Seq<TreeItem>, p: Seq<char>, i: int) -> int
    decreases s.len() - i,
{
    if i < 0 || i >= s.len() {
        -1
    } else if s[i].path == p {
        i
    } else {
        path_index_from(s, p, i + 1)
    }
}

pub open spec fn path_index(s: Seq<TreeItem>, p: Seq<char>) -> int {
    path_index_from(s, p, 0)
}

proof fn lemma_path_index_from(s: Seq<TreeItem>, p: Seq<char>, i: int)
    requires
        0 <= i,
    ensures
        -1 <= path_index_from(s, p, i) < s.len(),
        path_index_from(s, p, i) >= 0 ==> s[path_index_from(s, p, i)].path == p,
    decreases s.len() - i,
{
    if i < s.len() && s[i].path != p {
        lemma_path_index_from(s, p, i + 1);
    }
}

/// `e` stored under its path: replacing the entry with that path, else appended.
pub open spec fn put(s: Seq<TreeItem>, e: TreeItem) -> Seq<TreeItem> {
    if path_index(s, e.path) >= 0 {
        s.update(path_index(s, e.path), e)
    } else {
        s.push(e)
    }
}

/// `e` stored under its path only if no entry has that path yet.
pub open spec fn put_absent(s: Seq<TreeItem>, e: TreeItem) -> Seq<TreeItem> {
    if path_index(s, e.path) >= 0 {
        s
    } else {
        s.push(e)
    }
}

fn find_path(v: &Vec<TreeEntry>, p: &str) -> (r: Option<usize>)
    ensures
        r matches Some(i) ==> path_index(v.deep_view(), p@) == i && i < v.len(),
        r is None ==> path_index(v.deep_view(), p@) == -1,
{
    let ghost s = v.deep_view();
    let mut i: usize = 0;
    while i < v.len()
        invariant
            s == v.deep_view(),
            0 <= i <= v.len(),
            path_index_from(s, p@, i as int) == path_index(s, p@),
        decreases v.len() - i,
    {
        assert(s[i as int] == v[i as int].deep_view());
        if str_eq(v[i].path.as_str(), p) {
            return Some(i);
        }
        i = i + 1;
    }
    None
}

fn table_put(v: &mut Vec<TreeEntry>, e: TreeEntry)
    ensures
        final(v).deep_view() == put(old(v).deep_view(), e.deep_view()),
{
    let ghost s = v.deep_view();
    let ghost ev = e.deep_view();
    match find_path(v, e.path.as_str()) {
        Some(i) => {
            v.set(i, e);
            assert(v.deep_view() =~= s.update(i as int, ev));
        },
        None => {
            v.push(e);
            assert(v.deep_view() =~= s.push(ev));
        },
    }
}

fn table_put_absent(v: &mut Vec<TreeEntry>, e: TreeEntry)
    ensures
        final(v).deep_view() == put_absent(old(v).deep_view(), e.deep_view()),
{
    let ghost s = v.deep_view();
    let ghost ev = e.deep_view();
    match find_path(v, e.path.as_str()) {
        Some(_) => {},
        None => {
            v.push(e);
            assert(v.deep_view() =~= s.push(ev));
        },
    }
}

/// The entries from position `i` whose paths are not in `gone`.
pub open spec fn without_from(s: Seq<TreeItem>, gone: Set<Seq<char>>, i: int) -> Seq<TreeItem>
    decreases s.len() - i,
{
    if i < 0 || i >= s.len() {
        Seq::empty()
    } else if gone.contains(s[i].path) {
        without_from(s, gone, i + 1)
    } else {
        seq![s[i]] + without_from(s, gone, i + 1)
    }
}

fn table_without(v: &Vec<TreeEntry>, gone: &StrSet) -> (r: Vec<TreeEntry>)
    ensures
        r.deep_view() == without_from(v.deep_view(), gone@, 0),
{
    let ghost s = v.deep_view();
    let mut r: Vec<TreeEntry> = Vec::new();
    let mut i: usize = 0;
    assert(r.deep_view() =~= Seq::<TreeItem>::empty());
    while i < v.len()
        invariant
            s == v.deep_view(),
            0 <= i <= v.len(),
            r.deep_view() + without_from(s, gone@, i as int) == without_from(s, gone@, 0),
        decreases v.len() - i,
    {
        assert(s[i as int] == v[i as int].deep_view());
        if !gone.contains(v[i].path.as_str()) {
            let ghost before = r.deep_view();
            r.push(v[i].duplicate());
            assert(r.deep_view() =~= before.push(s[i as int]));
            assert(before + without_from(s, gone@, i as int) =~= r.deep_view() + without_from(
                s,
                gone@,
                i + 1,
            ));
        }
        i = i + 1;
    }
    assert(r.deep_view() + Seq::<TreeItem>::empty() =~= r.deep_view());
    r
}

// ---------------------------------------------------------------------
// Unpacking and emplacing
// ---------------------------------------------------------------------

/// `p` under `prefix`, or `p` itself when the prefix is empty.
pub open spec fn prefixed(prefix: Seq<char>, p: Seq<char>) -> Seq<char> {
    if prefix.len() == 0 {
        p
    } else {
        prefix + seq!['/'] + p
    }
}

pub open spec fn prefix_text(bp: Option<Seq<char>>) -> Seq<char> {
    match bp {
        Some(p) => p,
        None => Seq::empty(),
    }
}

/// The table after storing each listed child from position `i` under the prefix.
pub open spec fn unpack_from(children: Seq<TreeItem>, i: int, s: Seq<TreeItem>, prefix: Seq<char>) -> Seq<
    TreeItem,
>
    decreases children.len() - i,
{
    if i < 0 || i >= children.len() {
        s
    } else {
        unpack_from(
            children,
            i + 1,
            put(s, at(children[i], prefixed(prefix, children[i].path))),
            prefix,
        )
    }
}

/// The listing of a subtree, from the `git ls-tree` outputs gathered by sha;
/// `None` where none was gathered (the command failed).
pub open spec fn listing_of(listings: Map<Seq<char>, Seq<char>>, sha: Seq<char>) -> Option<
    Seq<TreeItem>,
> {
    if listings.dom().contains(sha) {
        Some(listing(listings[sha]))
    } else {
        None
    }
}

/// The table after unpacking entry `e`: each entry of its subtree listing
/// stored at its own path below the root (or below the base prefix).
pub open spec fn unpacked(
    e: TreeItem,
    listings: Map<Seq<char>, Seq<char>>,
    s: Seq<TreeItem>,
    bp: Option<Seq<char>>,
) -> Seq<TreeItem> {
    match listing_of(listings, e.sha) {
        Some(children) => unpack_from(children, 0, s, prefix_text(bp)),
        None => s,
    }
}

/// Unpacks a tree entry: each entry of its subtree listing is added
/// directly at the pluck root, or under the base prefix if active.
pub fn unpack_tree(
    entry: &TreeEntry,
    listings: &StrMap,
    pluck_entries: &mut Vec<TreeEntry>,
    base_prefix: Option<&String>,
)
    ensures
        final(pluck_entries).deep_view() == unpacked(
            entry.deep_view(),
            listings@,
            old(pluck_entries).deep_view(),
            opt_view(base_prefix),
        ),
{
    let out = match listings.get(entry.sha.as_str()) {
        Some(o) => o,
        None => {
            return;
        },
    };
    let children = parse_ls_tree_output(out.as_str());
    let ghost cv = children.deep_view();
    let prefix = match base_prefix {
        Some(p) => owned(p.as_str()),
        None => String::new(),
    };
    let plen = prefix.unicode_len();
    let mut i: usize = 0;
    while i < children.len()
        invariant
            cv == children.deep_view(),
            prefix@ == prefix_text(opt_view(base_prefix)),
            plen == prefix@.len(),
            0 <= i <= children.len(),
            unpack_from(cv, i as int, pluck_entries.deep_view(), prefix@) == unpacked(
                entry.deep_view(),
                listings@,
                old(pluck_entries).deep_view(),
                opt_view(base_prefix),
            ),
        decreases children.len() - i,
    {
        let child = &children[i];
        assert(cv[i as int] == child.deep_view());
        let new_path = if plen == 0 {
            child.path.clone()
        } else {
            join_slash(prefix.as_str(), child.path.as_str())
        };
        table_put(pluck_entries, child.at_path(new_path));
        i = i + 1;
    }
}

/// The directory part of a path: everything before its last `/`.
pub open spec fn parent_dir(p: Seq<char>) -> Seq<char> {
    let r = rfind_from(p, p.len() as int, '/');
    if r < 0 {
        Seq::empty()
    } else {
        p.subrange(0, r)
    }
}

pub fn parent_dir_of(p: &str) -> (r: String)
    ensures
        r@ == parent_dir(p@),
{
    proof {
        lemma_rfind_bounds(p@, p@.len() as int, '/');
    }
    match str_rfind_char(p, '/') {
        Some(i) => substring(p, 0, i),
        None => String::new(),
    }
}

/// Where a source-tree child of an emplaced directory lands: under
/// `parent`, with the part of its path after byte offset
/// `len(resolved) + 1` (a byte offset); `None` where that offset is not a
/// character boundary of the path.
pub open spec fn emplaced_path(p: Seq<char>, parent: Seq<char>, resolved: Seq<char>) -> Option<
    Seq<char>,
> {
    if resolved == parent {
        Some(p)
    } else {
        match char_at_byte(p, (utf8_bytes(resolved) + 1) as int) {
            Some(k) => Some(parent + seq!['/'] + p.subrange(k, p.len() as int)),
            None => None,
        }
    }
}

/// The map removes this source path: its own mapping is `(Remove)`.
pub open spec fn removed_by_map(path: Seq<char>, es: Seq<EntryView>) -> bool {
    let k = mapping_index(path, es);
    0 <= k < es.len() && es[k].primary is Remove
}

/// The children of the emplaced directory from position `i` of the source
/// tree: entries whose directory is `resolved` or `parent`, moved under
/// `parent`; an entry that the map removes is not put back.
pub open spec fn children_from(
    full: Seq<TreeItem>,
    i: int,
    parent: Seq<char>,
    resolved: Seq<char>,
    es: Seq<EntryView>,
    acc: Seq<TreeItem>,
) -> Option<Seq<TreeItem>>
    decreases full.len() - i,
{
    if i < 0 || i >= full.len() {
        Some(acc)
    } else {
        let d = parent_dir(full[i].path);
        if (d == resolved || d == parent) && !removed_by_map(full[i].path, es) {
            match emplaced_path(full[i].path, parent, resolved) {
                Some(np) => children_from(full, i + 1, parent, resolved, es, acc.push(at(full[i], np))),
                None => None,
            }
        } else {
            children_from(full, i + 1, parent, resolved, es, acc)
        }
    }
}

/// The table after storing each child from position `i` where its path is free.
pub open spec fn put_all_absent(children: Seq<TreeItem>, i: int, s: Seq<TreeItem>) -> Seq<TreeItem>
    decreases children.len() - i,
{
    if i < 0 || i >= children.len() {
        s
    } else {
        put_all_absent(children, i + 1, put_absent(s, children[i]))
    }
}

/// The table and emplaced set after emplacing the ancestors of `current`,
/// from the nearest up, stopping at the top or at one already emplaced;
/// `None` where a path would be cut at a byte offset that is not a
/// character boundary.
pub open spec fn emplace(
    current: Seq<char>,
    s: Seq<TreeItem>,
    em: Set<Seq<char>>,
    full: Seq<TreeItem>,
    bp: Option<Seq<char>>,
    es: Seq<EntryView>,
) -> Option<(Seq<TreeItem>, Set<Seq<char>>)>
    decreases current.len(),
{
    let pos = rfind_from(current, current.len() as int, '/');
    if pos < 0 || pos >= current.len() {
        Some((s, em))
    } else {
        let parent = current.subrange(0, pos);
        if parent.len() == 0 || em.contains(parent) {
            Some((s, em))
        } else {
            let resolved = emplace_resolved(parent, bp);
            match children_from(full, 0, parent, resolved, es, Seq::empty()) {
                None => None,
                Some(ch) => emplace(
                    parent,
                    put_all_absent(ch, 0, s),
                    em.insert(resolved).insert(parent),
                    full,
                    bp,
                    es,
                ),
            }
        }
    }
}

fn removed_by(path: &str, map_entries: &[MapEntry]) -> (b: bool)
    ensures
        b == removed_by_map(path@, map_entries.deep_view()),
{
    match find_mapping_index(path, map_entries) {
        Some(k) => {
            assert(map_entries.deep_view()[k as int] == map_entries[k as int].deep_view());
            match map_entries[k].primary {
                MapTarget::Remove => true,
                _ => false,
            }
        },
        None => false,
    }
}

fn collect_children(
    full: &Vec<TreeEntry>,
    parent: &str,
    resolved: &str,
    map_entries: &[MapEntry],
) -> (r: Result<Vec<TreeEntry>, PluckError>)
    ensures
        match children_from(full.deep_view(), 0, parent@, resolved@, map_entries.deep_view(), Seq::empty()) {
            Some(ch) => (r matches Ok(v) && v.deep_view() == ch),
            None => (r matches Err(e) && e@ is PathSlice),
        },
{
    let ghost fv = full.deep_view();
    let same = str_eq(parent, resolved);
    let off = str_byte_len(resolved) + 1;
    let mut acc: Vec<TreeEntry> = Vec::new();
    let mut i: usize = 0;
    assert(acc.deep_view() =~= Seq::<TreeItem>::empty());
    while i < full.len()
        invariant
            fv == full.deep_view(),
            same == (parent@ == resolved@),
            off == utf8_bytes(resolved@) + 1,
            off < u128::MAX - 8,
            0 <= i <= full.len(),
            children_from(fv, i as int, parent@, resolved@, map_entries.deep_view(), acc.deep_view())
                == children_from(fv, 0, parent@, resolved@, map_entries.deep_view(), Seq::empty()),
        decreases full.len() - i,
    {
        let e = &full[i];
        assert(fv[i as int] == e.deep_view());
        let d = parent_dir_of(e.path.as_str());
        if (str_eq(d.as_str(), resolved) || str_eq(d.as_str(), parent)) && !removed_by(
            e.path.as_str(),
            map_entries,
        ) {
            let np = if same {
                e.path.clone()
            } else {
                match str_char_at_byte(e.path.as_str(), off) {
                    Some(k) => {
                        let n = e.path.unicode_len();
                        let rest = substring(e.path.as_str(), k, n);
                        join_slash(parent, rest.as_str())
                    },
                    None => {
                        return Err(PluckError::PathSlice(e.path.clone()));
                    },
                }
            };
            let ghost before = acc.deep_view();
            acc.push(e.at_path(np));
            assert(acc.deep_view() =~= before.push(at(fv[i as int], np@)));
        }
        i = i + 1;
    }
    Ok(acc)
}

/// Emplaces ancestor directories when an entry is removed: walks up from
/// the path one component at a time; for each ancestor not yet emplaced,
/// adds its children from the source tree under the pluck-space path, and
/// marks both the resolved and the pluck-space path as emplaced.
pub fn emplace_parent_trees(
    path: &str,
    pluck_entries: &mut Vec<TreeEntry>,
    emplaced: &mut StrSet,
    full_tree: &Vec<TreeEntry>,
    base_prefix: Option<&String>,
    map_entries: &[MapEntry],
) -> (r: Result<(), PluckError>)
    ensures
        match emplace(
            path@,
            old(pluck_entries).deep_view(),
            old(emplaced)@,
            full_tree.deep_view(),
            opt_view(base_prefix),
            map_entries.deep_view(),
        ) {
            Some((s, em)) => r is Ok && final(pluck_entries).deep_view() == s && final(emplaced)@
                == em,
            None => (r matches Err(e) && e@ is PathSlice),
        },
{
    let ghost target = emplace(
        path@,
        pluck_entries.deep_view(),
        emplaced@,
        full_tree.deep_view(),
        opt_view(base_prefix),
        map_entries.deep_view(),
    );
    let mut current = owned(path);
    loop
        invariant
            target == emplace(
                path@,
                old(pluck_entries).deep_view(),
                old(emplaced)@,
                full_tree.deep_view(),
                opt_view(base_prefix),
                map_entries.deep_view(),
            ),
            emplace(
                current@,
                pluck_entries.deep_view(),
                emplaced@,
                full_tree.deep_view(),
                opt_view(base_prefix),
                map_entries.deep_view(),
            ) == target,
        decreases current@.len(),
    {
        proof {
            lemma_rfind_bounds(current@, current@.len() as int, '/');
        }
        let pos = match str_rfind_char(current.as_str(), '/') {
            Some(p) => p,
            None => {
                return Ok(());
            },
        };
        let parent = substring(current.as_str(), 0, pos);
        if parent.unicode_len() == 0 || emplaced.contains(parent.as_str()) {
            return Ok(());
        }
        let resolved = resolve_emplace_path(parent.as_str(), base_prefix);
        let children = match collect_children(full_tree, parent.as_str(), resolved.as_str(), map_entries) {
            Ok(c) => c,
            Err(e) => {
                return Err(e);
            },
        };
        let ghost chv = children.deep_view();
        let ghost s0 = pluck_entries.deep_view();
        let mut i: usize = 0;
        while i < children.len()
            invariant
                chv == children.deep_view(),
                0 <= i <= children.len(),
                put_all_absent(chv, i as int, pluck_entries.deep_view()) == put_all_absent(
                    chv,
                    0,
                    s0,
                ),
            decreases children.len() - i,
        {
            assert(chv[i as int] == children[i as int].deep_view());
            table_put_absent(pluck_entries, children[i].duplicate());
            i = i + 1;
        }
        emplaced.insert(resolved);
        emplaced.insert(parent.clone());
        current = parent;
    }
}


// ---------------------------------------------------------------------
// Placing one entry
// ---------------------------------------------------------------------

impl DeepView for MappedSource {
    type V = EntryView;

    open spec fn deep_view(&self) -> EntryView {
        EntryView { src: self.source_key@, primary: self.target@, copies: self.copies.deep_view() }
    }
}

/// The table after storing `e` at each copy destination from position `i`.
pub open spec fn copied_from(
    e: TreeItem,
    key: Seq<char>,
    copies: Seq<Seq<char>>,
    i: int,
    s: Seq<TreeItem>,
    bp: Option<Seq<char>>,
    es: Seq<EntryView>,
) -> Seq<TreeItem>
    decreases copies.len() - i,
{
    if i < 0 || i >= copies.len() {
        s
    } else {
        copied_from(e, key, copies, i + 1, put(s, at(e, move_path(e.path, key, copies[i], bp, es))), bp, es)
    }
}

/// The table and emplaced set after placing entry `e`, which matched map
/// entry `m`: mirrored at its path, its ancestors emplaced (remove), its
/// subtree unpacked (root) or moved; then stored at each copy destination.
/// `None` where a path would be cut at a byte offset that is not a
/// character boundary.
pub open spec fn processed(
    e: TreeItem,
    m: EntryView,
    bp: Option<Seq<char>>,
    s: Seq<TreeItem>,
    em: Set<Seq<char>>,
    full: Seq<TreeItem>,
    es: Seq<EntryView>,
    listings: Map<Seq<char>, Seq<char>>,
) -> Option<(Seq<TreeItem>, Set<Seq<char>>)> {
    let primary = match m.primary {
        TargetView::Mirror => Some((put(s, e), em)),
        TargetView::Remove => emplace(e.path, s, em, full, bp, es),
        TargetView::Root => Some((unpacked(e, listings, s, bp), em)),
        TargetView::Move(dst) => Some((put(s, at(e, move_path(e.path, m.src, dst, bp, es))), em)),
    };
    match primary {
        Some((s1, em1)) => Some((copied_from(e, m.src, m.copies, 0, s1, bp, es), em1)),
        None => None,
    }
}

/// Processes a single tree entry according to its mapped target, then its copies.
pub fn process_entry(
    entry: &TreeEntry,
    mapped: &MappedSource,
    base_prefix: Option<&String>,
    pluck_entries: &mut Vec<TreeEntry>,
    emplaced: &mut StrSet,
    full_tree: &Vec<TreeEntry>,
    listings: &StrMap,
    map_entries: &[MapEntry],
) -> (r: Result<(), PluckError>)
    requires
        covers(entry.path@, mapped.source_key@),
    ensures
        match processed(
            entry.deep_view(),
            mapped.deep_view(),
            opt_view(base_prefix),
            old(pluck_entries).deep_view(),
            old(emplaced)@,
            full_tree.deep_view(),
            map_entries.deep_view(),
            listings@,
        ) {
            Some((s, em)) => r is Ok && final(pluck_entries).deep_view() == s && final(emplaced)@
                == em,
            None => (r matches Err(e) && e@ is PathSlice),
        },
{
    match &mapped.target {
        MapTarget::Mirror => {
            table_put(pluck_entries, entry.duplicate());
        },
        MapTarget::Remove => {
            match emplace_parent_trees(
                entry.path.as_str(),
                pluck_entries,
                emplaced,
                full_tree,
                base_prefix,
                map_entries,
            ) {
                Ok(()) => {},
                Err(e) => {
                    return Err(e);
                },
            }
        },
        MapTarget::Root => {
            unpack_tree(entry, listings, pluck_entries, base_prefix);
        },
        MapTarget::Move(dst) => {
            let new_path = resolve_move_path(
                entry.path.as_str(),
                mapped.source_key.as_str(),
                dst.as_str(),
                base_prefix,
                map_entries,
            );
            table_put(pluck_entries, entry.at_path(new_path));
        },
    }
    let ghost s1 = pluck_entries.deep_view();
    let ghost cv = mapped.copies.deep_view();
    let mut i: usize = 0;
    while i < mapped.copies.len()
        invariant
            cv == mapped.copies.deep_view(),
            covers(entry.path@, mapped.source_key@),
            0 <= i <= mapped.copies.len(),
            copied_from(
                entry.deep_view(),
                mapped.source_key@,
                cv,
                i as int,
                pluck_entries.deep_view(),
                opt_view(base_prefix),
                map_entries.deep_view(),
            ) == copied_from(
                entry.deep_view(),
                mapped.source_key@,
                cv,
                0,
                s1,
                opt_view(base_prefix),
                map_entries.deep_view(),
            ),
        decreases mapped.copies.len() - i,
    {
        assert(cv[i as int] == mapped.copies[i as int]@);
        let copy_path = resolve_move_path(
            entry.path.as_str(),
            mapped.source_key.as_str(),
            mapped.copies[i].as_str(),
            base_prefix,
            map_entries,
        );
        table_put(pluck_entries, entry.at_path(copy_path));
        i = i + 1;
    }
    Ok(())
}


// ---------------------------------------------------------------------
// The whole tree
// ---------------------------------------------------------------------

/// The state after placing the source entries from position `i`: the
/// table, the emplaced paths and the map sources seen. An entry that
/// matches a map entry is processed; an unmatched one goes under the root
/// base prefix unless an explicit mapping overrides it, or stays in place
/// when the root is mirrored, and is dropped otherwise.
pub open spec fn fold_tree(
    full: Seq<TreeItem>,
    i: int,
    es: Seq<EntryView>,
    bp: Option<Seq<char>>,
    dm: bool,
    listings: Map<Seq<char>, Seq<char>>,
    s: Seq<TreeItem>,
    em: Set<Seq<char>>,
    seen: Set<Seq<char>>,
) -> Option<(Seq<TreeItem>, Set<Seq<char>>, Set<Seq<char>>)>
    decreases full.len() - i,
{
    if i < 0 || i >= full.len() {
        Some((s, em, seen))
    } else {
        let e = full[i];
        let k = mapping_index(e.path, es);
        if 0 <= k < es.len() {
            match processed(e, es[k], bp, s, em, full, es, listings) {
                Some((s1, em1)) => fold_tree(
                    full,
                    i + 1,
                    es,
                    bp,
                    dm,
                    listings,
                    s1,
                    em1,
                    seen.insert(es[k].src),
                ),
                None => None,
            }
        } else {
            let s1 = match bp {
                Some(p) => if !overridden(e.path, es) {
                    put(s, at(e, p + seq!['/'] + e.path))
                } else {
                    s
                },
                None => if dm {
                    put(s, e)
                } else {
                    s
                },
            };
            fold_tree(full, i + 1, es, bp, dm, listings, s1, em, seen)
        }
    }
}

/// The sources seen, with the root counted as seen when the map has a root
/// base prefix or mirrors the root.
pub open spec fn seen_final(seen: Set<Seq<char>>, es: Seq<EntryView>) -> Set<Seq<char>> {
    if base_prefix(es) is Some || dot_mirror(es) {
        seen.insert("."@)
    } else {
        seen
    }
}

/// The map sources from position `i` that were not seen, in map order.
pub open spec fn missing_from(es: Seq<EntryView>, seen: Set<Seq<char>>, i: int) -> Seq<Seq<char>>
    decreases es.len() - i,
{
    if i < 0 || i >= es.len() {
        Seq::empty()
    } else if seen.contains(es[i].src) {
        missing_from(es, seen, i + 1)
    } else {
        seq![es[i].src] + missing_from(es, seen, i + 1)
    }
}

/// The placement of a whole source tree.
pub open spec fn placement(
    full: Seq<TreeItem>,
    es: Seq<EntryView>,
    listings: Map<Seq<char>, Seq<char>>,
) -> Option<(Seq<TreeItem>, Set<Seq<char>>, Set<Seq<char>>)> {
    fold_tree(
        full,
        0,
        es,
        base_prefix(es),
        dot_mirror(es),
        listings,
        Seq::empty(),
        Set::empty(),
        Set::empty(),
    )
}

/// A built pluck tree: its entries sorted by path, and the mapped sources
/// that the source commit lacks (each warrants a warning).
pub struct PluckTree {
    pub entries: Vec<TreeEntry>,
    pub missing_sources: Vec<String>,
}

/// Builds the pluck tree of a source commit from its full tree listing
/// (`full_tree`, as `parse_tree_dump` gives it) and the `git ls-tree`
/// outputs of the subtrees that the map unpacks (`listings`, by sha).
///
/// Fails with `PathSlice` where a path would be cut at a byte offset that
/// is not a character boundary (the program stops there), and
/// with `MappedSourceNotFound` (the first source missing) when a mapped
/// source is absent and neither `allow_missing_path` nor `force` is set.
pub fn build_pluck_tree(
    source_sha: &str,
    map_entries: &[MapEntry],
    config: &PluckConfig,
    full_tree: &Vec<TreeEntry>,
    listings: &StrMap,
) -> (r: Result<PluckTree, PluckError>)
    ensures
        match placement(full_tree.deep_view(), map_entries.deep_view(), listings@) {
            None => (r matches Err(e) && e@ is PathSlice),
            Some((s, em, seen)) => {
                let missing = missing_from(
                    map_entries.deep_view(),
                    seen_final(seen, map_entries.deep_view()),
                    0,
                );
                if missing.len() > 0 && !config.allow_missing_path && !config.force {
                    r matches Err(e) && e@ == ErrorView::MappedSourceNotFound(missing[0], source_sha@)
                } else {
                    r matches Ok(t) && t.missing_sources.deep_view() == missing && sorted_by_path(
                        t.entries.deep_view(),
                    ) && t.entries.deep_view().to_multiset() == without_from(s, em, 0).to_multiset()
                }
            },
        },
{
    let ghost es = map_entries.deep_view();
    let ghost full = full_tree.deep_view();
    let base_prefix = get_base_prefix(map_entries);
    let dot_mirror = has_dot_mirror(map_entries);
    let mut seen_sources = StrSet::new();
    let mut emplaced = StrSet::new();
    let mut pluck_entries: Vec<TreeEntry> = Vec::new();
    let ghost target = placement(full, es, listings@);
    assert(pluck_entries.deep_view() =~= Seq::<TreeItem>::empty());
    let mut i: usize = 0;
    while i < full_tree.len()
        invariant
            es == map_entries.deep_view(),
            full == full_tree.deep_view(),
            base_prefix.deep_view() == crate::tree::base_prefix(es),
            dot_mirror == crate::tree::dot_mirror(es),
            target == placement(full, es, listings@),
            0 <= i <= full_tree.len(),
            fold_tree(
                full,
                i as int,
                es,
                crate::tree::base_prefix(es),
                dot_mirror,
                listings@,
                pluck_entries.deep_view(),
                emplaced@,
                seen_sources@,
            ) == target,
        decreases full_tree.len() - i,
    {
        let entry = &full_tree[i];
        assert(full[i as int] == entry.deep_view());
        proof {
            lemma_mapping_index_from(entry.path@, es, 0);
        }
        let bp = match &base_prefix {
            Some(p) => Some(p),
            None => None,
        };
        assert(opt_view(bp) == crate::tree::base_prefix(es));
        match find_mapping_index(entry.path.as_str(), map_entries) {
            Some(k) => {
                assert(es[k as int] == map_entries[k as int].deep_view());
                let me = map_entries[k].duplicate();
                let mapped = MappedSource {
                    source_key: me.src_path,
                    target: me.primary,
                    copies: me.copies,
                };
                seen_sources.insert(mapped.source_key.clone());
                match process_entry(
                    entry,
                    &mapped,
                    bp,
                    &mut pluck_entries,
                    &mut emplaced,
                    full_tree,
                    listings,
                    map_entries,
                ) {
                    Ok(()) => {},
                    Err(e) => {
                        return Err(e);
                    },
                }
            },
            None => {
                match &base_prefix {
                    Some(prefix) => {
                        if !is_overridden(entry.path.as_str(), map_entries) {
                            let new_path = join_slash(prefix.as_str(), entry.path.as_str());
                            table_put(&mut pluck_entries, entry.at_path(new_path));
                        }
                    },
                    None => {
                        if dot_mirror {
                            table_put(&mut pluck_entries, entry.duplicate());
                        }
                    },
                }
            },
        }
        i = i + 1;
    }
    if base_prefix.is_some() || dot_mirror {
        seen_sources.insert(owned("."));
    }
    let ghost seen = seen_sources@;
    let mut missing: Vec<String> = Vec::new();
    let mut j: usize = 0;
    assert(missing.deep_view() =~= Seq::<Seq<char>>::empty());
    while j < map_entries.len()
        invariant
            es == map_entries.deep_view(),
            seen == seen_sources@,
            0 <= j <= map_entries.len(),
            missing.deep_view() + missing_from(es, seen, j as int) == missing_from(es, seen, 0),
        decreases map_entries.len() - j,
    {
        assert(es[j as int] == map_entries[j as int].deep_view());
        if !seen_sources.contains(map_entries[j].src_path.as_str()) {
            let ghost before = missing.deep_view();
            missing.push(map_entries[j].src_path.clone());
            assert(missing.deep_view() =~= before.push(es[j as int].src));
            assert(before + missing_from(es, seen, j as int) =~= missing.deep_view() + missing_from(
                es,
                seen,
                j + 1,
            ));
        }
        j = j + 1;
    }
    assert(missing.deep_view() + Seq::<Seq<char>>::empty() =~= missing.deep_view());
    if missing.len() > 0 && !config.allow_missing_path && !config.force {
        assert(missing.deep_view()[0] == missing[0]@);
        return Err(PluckError::MappedSourceNotFound(missing[0].clone(), owned(source_sha)));
    }
    let kept = table_without(&pluck_entries, &emplaced);
    let entries = sort_by_path(kept);
    Ok(PluckTree { entries, missing_sources: missing })
}


/// The shas of the entries from position `i` whose mapping unpacks them
/// (`to = .`): the subtrees whose `git ls-tree` listing the build needs.
pub open spec fn unpack_shas_from(full: Seq<TreeItem>, es: Seq<EntryView>, i: int) -> Seq<Seq<char>>
    decreases full.len() - i,
{
    if i < 0 || i >= full.len() {
        Seq::empty()
    } else {
        let k = mapping_index(full[i].path, es);
        if 0 <= k < es.len() && es[k].primary is Root {
            seq![full[i].sha] + unpack_shas_from(full, es, i + 1)
        } else {
            unpack_shas_from(full, es, i + 1)
        }
    }
}

/// The subtrees (by sha) that `build_pluck_tree` unpacks, in tree order.
pub fn unpack_queries(full_tree: &Vec<TreeEntry>, map_entries: &[MapEntry]) -> (r: Vec<String>)
    ensures
        r.deep_view() == unpack_shas_from(full_tree.deep_view(), map_entries.deep_view(), 0),
{
    let ghost full = full_tree.deep_view();
    let ghost es = map_entries.deep_view();
    let mut r: Vec<String> = Vec::new();
    let mut i: usize = 0;
    assert(r.deep_view() =~= Seq::<Seq<char>>::empty());
    while i < full_tree.len()
        invariant
            full == full_tree.deep_view(),
            es == map_entries.deep_view(),
            0 <= i <= full_tree.len(),
            r.deep_view() + unpack_shas_from(full, es, i as int) == unpack_shas_from(full, es, 0),
        decreases full_tree.len() - i,
    {
        let e = &full_tree[i];
        assert(full[i as int] == e.deep_view());
        match find_mapping_index(e.path.as_str(), map_entries) {
            Some(k) => {
                assert(es[k as int] == map_entries[k as int].deep_view());
                let is_root = match &map_entries[k].primary {
                    MapTarget::Root => true,
                    _ => false,
                };
                if is_root {
                    let ghost before = r.deep_view();
                    r.push(e.sha.clone());
                    assert(r.deep_view() =~= before.push(full[i as int].sha));
                    assert(before + unpack_shas_from(full, es, i as int) =~= r.deep_view()
                        + unpack_shas_from(full, es, i + 1));
                }
            },
            None => {},
        }
        i = i + 1;
    }
    assert(r.deep_view() + Seq::<Seq<char>>::empty() =~= r.deep_view());
    r
}

} // verus!
