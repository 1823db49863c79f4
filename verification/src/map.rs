//! The pluck map: resolving the config's `[forward.from]` sections into
//! map entries, validating them, listing them, and editing the sections
//! in a config file's text.
use vstd::prelude::*;
use crate::collections::{assoc_put, key_index, lemma_key_index, StrMap};
use crate::config::{ConfigView, PathMappingEntry, PluckConfig, lemma_mappings_view};
use crate::error::{ErrorView, PluckError};
use crate::text::{
    cat, cat3, clone_strings, has_char, has_prefix, join, lines, owned, str_contains_char,
    str_ends_with_char, str_eq, str_find_char, str_join, str_lines, str_trim, starts_with,
    substring, trim, find_char, lemma_lines_no_newline, lemma_lines_of_joined,
    lemma_next_idx_bounds, lemma_trim_strip_cr, lemma_trim_unchanged, strip_cr,
};

verus! {

/// The destination type for a map entry.
#[derive(Debug, Clone)]
pub enum MapTarget {
    Mirror,
    Remove,
    Root,
    Move(String),
}

pub enum TargetView {
    Mirror,
    Remove,
    Root,
    Move(Seq<char>),
}

impl View for MapTarget {
    type V = TargetView;

    open spec fn view(&self) -> TargetView {
        match self {
            MapTarget::Mirror => TargetView::Mirror,
            MapTarget::Remove => TargetView::Remove,
            MapTarget::Root => TargetView::Root,
            MapTarget::Move(d) => TargetView::Move(d@),
        }
    }
}

impl MapTarget {
    pub fn duplicate(&self) -> (r: MapTarget)
        ensures
            r@ == self@,
    {
        match self {
            MapTarget::Mirror => MapTarget::Mirror,
            MapTarget::Remove => MapTarget::Remove,
            MapTarget::Root => MapTarget::Root,
            MapTarget::Move(d) => MapTarget::Move(d.clone()),
        }
    }
}

/// A single resolved entry in the pluck map.
#[derive(Debug, Clone)]
pub struct MapEntry {
    pub src_path: String,
    pub primary: MapTarget,
    pub copies: Vec<String>,
}

pub struct EntryView {
    pub src: Seq<char>,
    pub primary: TargetView,
    pub copies: Seq<Seq<char>>,
}

impl DeepView for MapEntry {
    type V = EntryView;

    open spec fn deep_view(&self) -> EntryView {
        EntryView { src: self.src_path@, primary: self.primary@, copies: self.copies.deep_view() }
    }
}

impl MapEntry {
    pub fn duplicate(&self) -> (r: MapEntry)
        ensures
            r.deep_view() == self.deep_view(),
    {
        MapEntry {
            src_path: self.src_path.clone(),
            primary: self.primary.duplicate(),
            copies: clone_strings(&self.copies),
        }
    }
}

// ---------------------------------------------------------------------
// Building the map
// ---------------------------------------------------------------------

/// What a raw `to = <value>` names.
pub open spec fn target_of(v: Seq<char>) -> TargetView {
    if v == "(Mirror)"@ {
        TargetView::Mirror
    } else if v == "(Remove)"@ {
        TargetView::Remove
    } else if v == "."@ {
        TargetView::Root
    } else {
        TargetView::Move(v)
    }
}

/// Parses a raw `to = <value>` string into a `MapTarget`.
pub fn parse_map_target(value: &str) -> (t: MapTarget)
    ensures
        t@ == target_of(value@),
{
    if str_eq(value, "(Mirror)") {
        MapTarget::Mirror
    } else if str_eq(value, "(Remove)") {
        MapTarget::Remove
    } else if str_eq(value, ".") {
        MapTarget::Root
    } else {
        MapTarget::Move(owned(value))
    }
}

pub open spec fn is_copy(v: Seq<char>) -> bool {
    has_prefix(v, "(Copy)"@)
}

pub open spec fn copy_dest(v: Seq<char>) -> Seq<char> {
    v.subrange("(Copy)"@.len() as int, v.len() as int)
}

/// The `(Copy)` destinations among `to` values, in order, from position `i`.
pub open spec fn copies_from(d: Seq<Seq<char>>, i: int) -> Seq<Seq<char>>
    decreases d.len() - i,
{
    if i < 0 || i >= d.len() {
        Seq::empty()
    } else if is_copy(d[i]) {
        seq![copy_dest(d[i])] + copies_from(d, i + 1)
    } else {
        copies_from(d, i + 1)
    }
}

/// The first `to` value that is not a `(Copy)`, from position `i`.
pub open spec fn primary_from(d: Seq<Seq<char>>, i: int) -> Option<TargetView>
    decreases d.len() - i,
{
    if i < 0 || i >= d.len() {
        None
    } else if !is_copy(d[i]) {
        Some(target_of(d[i]))
    } else {
        primary_from(d, i + 1)
    }
}

/// The entry for one `[forward.from]` section: the first non-copy value is
/// the primary target (Mirror when there is none), `(Copy)` values are copies.
pub open spec fn entry_of(m: (Seq<char>, Seq<Seq<char>>)) -> EntryView {
    EntryView {
        src: m.0,
        primary: match primary_from(m.1, 0) {
            Some(t) => t,
            None => TargetView::Mirror,
        },
        copies: copies_from(m.1, 0),
    }
}

/// An entry with source and destination swapped when its target is a move.
pub open spec fn reversed(e: EntryView) -> EntryView {
    match e.primary {
        TargetView::Move(d) => EntryView { src: d, primary: TargetView::Move(e.src), copies: e.copies },
        _ => e,
    }
}

pub open spec fn mirror_entry(m: (Seq<char>, Seq<Seq<char>>)) -> EntryView {
    EntryView { src: m.0, primary: TargetView::Mirror, copies: Seq::empty() }
}

/// The resolved map of a config: with `mirror_map` every section becomes a
/// mirror without copies; otherwise each section's entry, reversed when
/// `auto_reverse_map` is set.
pub open spec fn pluck_map(c: ConfigView) -> Seq<EntryView> {
    if c.mirror_map {
        c.path_mappings.map_values(|m: (Seq<char>, Seq<Seq<char>>)| mirror_entry(m))
    } else if c.auto_reverse_map {
        c.path_mappings.map_values(|m: (Seq<char>, Seq<Seq<char>>)| reversed(entry_of(m)))
    } else {
        c.path_mappings.map_values(|m: (Seq<char>, Seq<Seq<char>>)| entry_of(m))
    }
}

fn entry_from_mapping(m: &PathMappingEntry) -> (e: MapEntry)
    ensures
        e.deep_view() == entry_of(m.deep_view()),
{
    let d = &m.dst_paths;
    let ghost dv = d.deep_view();
    let mut primary: Option<MapTarget> = None;
    let mut copies: Vec<String> = Vec::new();
    let mut i: usize = 0;
    assert(copies.deep_view() =~= Seq::<Seq<char>>::empty());
    while i < d.len()
        invariant
            dv == d.deep_view(),
            0 <= i <= d.len(),
            copies.deep_view() + copies_from(dv, i as int) == copies_from(dv, 0),
            match primary {
                Some(t) => primary_from(dv, 0) == Some(t@),
                None => primary_from(dv, 0) == primary_from(dv, i as int),
            },
        decreases d.len() - i,
    {
        let v = d[i].as_str();
        assert(dv[i as int] == v@);
        if starts_with(v, "(Copy)") {
            let n = v.unicode_len();
            let pre = "(Copy)".unicode_len();
            let c = substring(v, pre, n);
            let ghost old_c = copies.deep_view();
            copies.push(c);
            assert(copies.deep_view() =~= old_c.push(c@));
            assert(old_c + copies_from(dv, i as int) =~= copies.deep_view() + copies_from(
                dv,
                i + 1,
            ));
        } else {
            if primary.is_none() {
                primary = Some(parse_map_target(v));
            }
        }
        i = i + 1;
    }
    assert(copies.deep_view() + Seq::<Seq<char>>::empty() =~= copies.deep_view());
    let p = match primary {
        Some(t) => t,
        None => MapTarget::Mirror,
    };
    MapEntry { src_path: m.src_path.clone(), primary: p, copies }
}

/// Swaps source and destination for all entries whose target is a move.
fn auto_reverse_map(entries: &mut Vec<MapEntry>)
    ensures
        final(entries).deep_view() == old(entries).deep_view().map_values(
            |e: EntryView| reversed(e),
        ),
{
    let ghost orig = entries.deep_view();
    let mut i: usize = 0;
    while i < entries.len()
        invariant
            0 <= i <= entries.len(),
            entries.len() == orig.len(),
            forall|k: int| 0 <= k < i ==> entries.deep_view()[k] == reversed(#[trigger] orig[k]),
            forall|k: int| i <= k < entries.len() ==> entries.deep_view()[k] == orig[k],
        decreases entries.len() - i,
    {
        let e = entries[i].duplicate();
        let new_e = match &e.primary {
            MapTarget::Move(dst) => MapEntry {
                src_path: dst.clone(),
                primary: MapTarget::Move(e.src_path.clone()),
                copies: clone_strings(&e.copies),
            },
            _ => e,
        };
        let ghost before = entries.deep_view();
        entries.set(i, new_e);
        assert(entries.deep_view() =~= before.update(i as int, new_e.deep_view()));
        i = i + 1;
    }
    assert(entries.deep_view() =~= orig.map_values(|e: EntryView| reversed(e)));
}

/// Builds the resolved pluck map from the config's mappings.
pub fn build_pluck_map(config: &PluckConfig) -> (r: Result<Vec<MapEntry>, PluckError>)
    ensures
        r matches Ok(es) && es.deep_view() == pluck_map(config@),
{
    proof {
        lemma_mappings_view(&config.path_mappings);
    }
    let maps = &config.path_mappings;
    let ghost mv = maps.deep_view();
    let mut entries: Vec<MapEntry> = Vec::new();
    let mut i: usize = 0;
    while i < maps.len()
        invariant
            mv == maps.deep_view(),
            0 <= i <= maps.len(),
            entries.len() == i,
            forall|k: int|
                0 <= k < i ==> entries.deep_view()[k] == (if config.mirror_map {
                    mirror_entry(#[trigger] mv[k])
                } else {
                    entry_of(mv[k])
                }),
        decreases maps.len() - i,
    {
        let e = if config.mirror_map {
            MapEntry {
                src_path: maps[i].src_path.clone(),
                primary: MapTarget::Mirror,
                copies: Vec::new(),
            }
        } else {
            entry_from_mapping(&maps[i])
        };
        assert(e.copies.deep_view() =~= Seq::<Seq<char>>::empty() || !config.mirror_map);
        let ghost before = entries.deep_view();
        entries.push(e);
        assert(entries.deep_view() =~= before.push(e.deep_view()));
        i = i + 1;
    }
    if !config.mirror_map && config.auto_reverse_map {
        let ghost pre = entries.deep_view();
        auto_reverse_map(&mut entries);
        assert(entries.deep_view() =~= pluck_map(config@));
    } else {
        assert(entries.deep_view() =~= pluck_map(config@));
    }
    Ok(entries)
}

// ---------------------------------------------------------------------
// Listing
// ---------------------------------------------------------------------

/// The destination an entry's primary target places its source at; empty for removals.
pub open spec fn dst_of(e: EntryView) -> Seq<char> {
    match e.primary {
        TargetView::Mirror => e.src,
        TargetView::Remove => Seq::empty(),
        TargetView::Root => "."@,
        TargetView::Move(d) => d,
    }
}

/// Returns all source paths from the resolved map.
pub fn list_sources(entries: &Vec<MapEntry>) -> (r: Vec<String>)
    ensures
        r.deep_view() == entries.deep_view().map_values(|e: EntryView| e.src),
{
    let mut r: Vec<String> = Vec::new();
    let mut i: usize = 0;
    while i < entries.len()
        invariant
            0 <= i <= entries.len(),
            r.len() == i,
            forall|k: int| 0 <= k < i ==> r[k]@ == entries[k].src_path@,
        decreases entries.len() - i,
    {
        r.push(entries[i].src_path.clone());
        i = i + 1;
    }
    assert(r.deep_view() =~= entries.deep_view().map_values(|e: EntryView| e.src));
    r
}

/// The destinations of the entries from position `i` that are not removals.
pub open spec fn destinations_from(es: Seq<EntryView>, i: int) -> Seq<Seq<char>>
    decreases es.len() - i,
{
    if i < 0 || i >= es.len() {
        Seq::empty()
    } else if es[i].primary is Remove {
        destinations_from(es, i + 1)
    } else {
        seq![dst_of(es[i])] + destinations_from(es, i + 1)
    }
}

/// Returns all non-removed destination paths from the resolved map.
pub fn list_destinations(entries: &Vec<MapEntry>) -> (r: Vec<String>)
    ensures
        r.deep_view() == destinations_from(entries.deep_view(), 0),
{
    let ghost ev = entries.deep_view();
    let mut r: Vec<String> = Vec::new();
    let mut i: usize = 0;
    assert(r.deep_view() =~= Seq::<Seq<char>>::empty());
    while i < entries.len()
        invariant
            ev == entries.deep_view(),
            0 <= i <= entries.len(),
            r.deep_view() + destinations_from(ev, i as int) == destinations_from(ev, 0),
        decreases entries.len() - i,
    {
        let ghost old_r = r.deep_view();
        assert(ev[i as int] == entries[i as int].deep_view());
        match &entries[i].primary {
            MapTarget::Mirror => {
                r.push(entries[i].src_path.clone());
            },
            MapTarget::Remove => {},
            MapTarget::Root => {
                r.push(owned("."));
            },
            MapTarget::Move(d) => {
                r.push(d.clone());
            },
        }
        proof {
            if !(ev[i as int].primary is Remove) {
                assert(r.deep_view() =~= old_r.push(dst_of(ev[i as int])));
                assert(old_r + destinations_from(ev, i as int) =~= r.deep_view()
                    + destinations_from(ev, i + 1));
            } else {
                assert(r.deep_view() =~= old_r);
            }
        }
        i = i + 1;
    }
    assert(r.deep_view() + Seq::<Seq<char>>::empty() =~= r.deep_view());
    r
}

// ---------------------------------------------------------------------
// Validation
// ---------------------------------------------------------------------

pub open spec fn dup_message(dst: Seq<char>, first: Seq<char>, second: Seq<char>) -> Seq<char> {
    "Duplicate destination '"@ + dst + "': mapped from '"@ + first + "' and '"@ + second + "'"@
}

/// The issues one entry adds, given the destinations seen so far (each
/// with the source it came from); and the destinations seen after it.
pub open spec fn validate_step(
    issues: Seq<Seq<char>>,
    seen: Seq<(Seq<char>, Seq<char>)>,
    e: EntryView,
) -> (Seq<Seq<char>>, Seq<(Seq<char>, Seq<char>)>) {
    let src = e.src;
    let i1 = if src.len() > 0 && src.last() == '/' {
        issues.push("Trailing slash in source: "@ + src)
    } else {
        issues
    };
    let i2 = if has_char(src, ':') {
        i1.push("Erroneous colon in source: "@ + src)
    } else {
        i1
    };
    let dst = dst_of(e);
    let i3 = if dst.len() > 0 && dst.last() == '/' {
        i2.push("Trailing slash in destination: "@ + dst)
    } else {
        i2
    };
    let i4 = if dst.len() > 0 && has_char(dst, ':') {
        i3.push("Erroneous colon in destination: "@ + dst)
    } else {
        i3
    };
    if dst.len() > 0 && !(e.primary is Remove) {
        let i5 = if key_index(seen, dst) >= 0 {
            i4.push(dup_message(dst, seen[key_index(seen, dst)].1, src))
        } else {
            i4
        };
        (i5, assoc_put(seen, dst, src))
    } else {
        (i4, seen)
    }
}

/// The per-entry issues of the entries from position `i` on.
pub open spec fn validate_from(
    es: Seq<EntryView>,
    i: int,
    issues: Seq<Seq<char>>,
    seen: Seq<(Seq<char>, Seq<char>)>,
) -> Seq<Seq<char>>
    decreases es.len() - i,
{
    if i < 0 || i >= es.len() {
        issues
    } else {
        let (i2, s2) = validate_step(issues, seen, es[i]);
        validate_from(es, i + 1, i2, s2)
    }
}

/// One of two source paths lies under the other.
pub open spec fn nested(a: Seq<char>, b: Seq<char>) -> bool {
    has_prefix(a, b + "/"@) || has_prefix(b, a + "/"@)
}

/// The message for two nested sources: the shorter is the inner one. (When
/// they nest, one is a prefix of the other, so comparing lengths in
/// characters and in bytes agrees.)
pub open spec fn nested_message(a: Seq<char>, b: Seq<char>) -> Seq<char> {
    let (inner, outer) = if a.len() < b.len() {
        (a, b)
    } else {
        (b, a)
    };
    "Nested tree mapping: '"@ + inner + "' is a subpath of '"@ + outer + "'"@
}

/// Nesting issues for the pairs `(i, j')` with `j <= j' < n`, then for all later `i`.
pub open spec fn nested_from(srcs: Seq<Seq<char>>, i: int, j: int, issues: Seq<Seq<char>>) -> Seq<
    Seq<char>,
>
    decreases srcs.len() - i, srcs.len() - j,
{
    if i < 0 || i >= srcs.len() || j < 0 {
        issues
    } else if j >= srcs.len() {
        nested_from(srcs, i + 1, i + 2, issues)
    } else {
        let iss = if nested(srcs[i], srcs[j]) {
            issues.push(nested_message(srcs[i], srcs[j]))
        } else {
            issues
        };
        nested_from(srcs, i, j + 1, iss)
    }
}

/// All issues of a map: per entry in order, then (unless nesting is
/// allowed) one for each pair of nested sources.
pub open spec fn map_issues(es: Seq<EntryView>, allow_nested: bool) -> Seq<Seq<char>> {
    let per_entry = validate_from(es, 0, Seq::empty(), Seq::empty());
    if allow_nested {
        per_entry
    } else {
        nested_from(es.map_values(|e: EntryView| e.src), 0, 1, per_entry)
    }
}

fn dst_string(e: &MapEntry) -> (d: String)
    ensures
        d@ == dst_of(e.deep_view()),
{
    match &e.primary {
        MapTarget::Mirror => e.src_path.clone(),
        MapTarget::Remove => String::new(),
        MapTarget::Root => owned("."),
        MapTarget::Move(d) => d.clone(),
    }
}

/// Validates the map for trailing slashes, colons, duplicate destinations
/// and (unless allowed) nested sources. Returns the issues; none means valid.
pub fn validate_map(entries: &Vec<MapEntry>, allow_nested: bool) -> (issues: Vec<String>)
    ensures
        issues.deep_view() == map_issues(entries.deep_view(), allow_nested),
{
    let ghost ev = entries.deep_view();
    let mut issues: Vec<String> = Vec::new();
    let mut seen = StrMap::new();
    let mut i: usize = 0;
    assert(issues.deep_view() =~= Seq::<Seq<char>>::empty());
    while i < entries.len()
        invariant
            ev == entries.deep_view(),
            0 <= i <= entries.len(),
            validate_from(ev, i as int, issues.deep_view(), seen.pairs()) == validate_from(
                ev,
                0,
                Seq::empty(),
                Seq::empty(),
            ),
        decreases entries.len() - i,
    {
        let e = &entries[i];
        assert(ev[i as int] == e.deep_view());
        let src = e.src_path.as_str();
        let ghost iv = issues.deep_view();
        let ghost sv = seen.pairs();
        if str_ends_with_char(src, '/') {
            issues.push(cat("Trailing slash in source: ", src));
        }
        if str_contains_char(src, ':') {
            issues.push(cat("Erroneous colon in source: ", src));
        }
        let dst = dst_string(e);
        let dl = dst.unicode_len();
        if dl > 0 && str_ends_with_char(dst.as_str(), '/') {
            issues.push(cat("Trailing slash in destination: ", dst.as_str()));
        }
        if dl > 0 && str_contains_char(dst.as_str(), ':') {
            issues.push(cat("Erroneous colon in destination: ", dst.as_str()));
        }
        let is_remove = match &e.primary {
            MapTarget::Remove => true,
            _ => false,
        };
        if dl > 0 && !is_remove {
            proof {
                lemma_key_index(seen.pairs(), dst@);
            }
            match seen.get(dst.as_str()) {
                Some(existing) => {
                    let a = cat3("Duplicate destination '", dst.as_str(), "': mapped from '");
                    let b = cat3(a.as_str(), existing.as_str(), "' and '");
                    let m = cat3(b.as_str(), src, "'");
                    issues.push(m);
                },
                None => {},
            }
            seen.insert(dst, e.src_path.clone());
        }
        proof {
            let (i2, s2) = validate_step(iv, sv, ev[i as int]);
            assert(issues.deep_view() =~= i2);
            assert(seen.pairs() == s2);
        }
        i = i + 1;
    }
    if !allow_nested {
        check_nested(entries, &mut issues);
    }
    issues
}

/// Appends an issue for each pair of nested source paths (e.g. `a/b` and `a/b/c`).
fn check_nested(entries: &Vec<MapEntry>, issues: &mut Vec<String>)
    ensures
        final(issues).deep_view() == nested_from(
            entries.deep_view().map_values(|e: EntryView| e.src),
            0,
            1,
            old(issues).deep_view(),
        ),
{
    let ghost srcs = entries.deep_view().map_values(|e: EntryView| e.src);
    let ghost target = nested_from(srcs, 0, 1, old(issues).deep_view());
    let n = entries.len();
    let mut i: usize = 0;
    while i < n
        invariant
            n == entries.len(),
            srcs == entries.deep_view().map_values(|e: EntryView| e.src),
            0 <= i <= n,
            nested_from(srcs, i as int, i + 1, issues.deep_view()) == target,
        decreases n - i,
    {
        let mut j: usize = i + 1;
        while j < n
            invariant
                n == entries.len(),
                srcs == entries.deep_view().map_values(|e: EntryView| e.src),
                0 <= i < n,
                i + 1 <= j <= n,
                nested_from(srcs, i as int, j as int, issues.deep_view()) == target,
            decreases n - j,
        {
            let a = entries[i].src_path.as_str();
            let b = entries[j].src_path.as_str();
            assert(srcs[i as int] == a@ && srcs[j as int] == b@);
            let bs = cat(b, "/");
            let as_ = cat(a, "/");
            let ghost before = issues.deep_view();
            if starts_with(a, bs.as_str()) || starts_with(b, as_.as_str()) {
                let al = a.unicode_len();
                let bl = b.unicode_len();
                let (inner, outer) = if al < bl {
                    (a, b)
                } else {
                    (b, a)
                };
                let m1 = cat3("Nested tree mapping: '", inner, "' is a subpath of '");
                let m = cat3(m1.as_str(), outer, "'");
                issues.push(m);
                assert(issues.deep_view() =~= before.push(nested_message(a@, b@)));
            }
            j = j + 1;
        }
        i = i + 1;
    }
}

// ---------------------------------------------------------------------
// Editing the config text
// ---------------------------------------------------------------------

/// The two header spellings of the section for `src`.
pub open spec fn quoted_header(src: Seq<char>) -> Seq<char> {
    "[forward.from \""@ + src + "\"]"@
}

pub open spec fn bare_header(src: Seq<char>) -> Seq<char> {
    "[forward.from "@ + src + "]"@
}

pub open spec fn is_header_for(line: Seq<char>, src: Seq<char>) -> bool {
    trim(line) == quoted_header(src) || trim(line) == bare_header(src)
}

/// Some line is a header of the section for `src`.
pub open spec fn has_header(ls: Seq<Seq<char>>, src: Seq<char>) -> bool {
    exists|i: int| 0 <= i < ls.len() && is_header_for(#[trigger] ls[i], src)
}

/// Where a new `to` line goes: before the first line starting with `[`
/// that follows a header of the section (the end when there is none).
pub open spec fn section_end_from(ls: Seq<Seq<char>>, src: Seq<char>, i: int, in_section: bool) -> int
    decreases ls.len() - i,
{
    if i < 0 || i >= ls.len() {
        ls.len() as int
    } else if is_header_for(ls[i], src) {
        section_end_from(ls, src, i + 1, true)
    } else if in_section && has_prefix(trim(ls[i]), "["@) {
        i
    } else {
        section_end_from(ls, src, i + 1, in_section)
    }
}

/// `src_dst` split at its first `:` into source and optional destination.
pub open spec fn split_src_dst(a: Seq<char>) -> (Seq<char>, Option<Seq<char>>) {
    match find_char(a, ':') {
        Some(p) => (a.subrange(0, p), Some(a.subrange(p + 1, a.len() as int))),
        None => (a, None),
    }
}

/// The `to` line for a destination: `(Mirror)` without one, `(Remove)`
/// for the destination `false`, else the destination itself.
pub open spec fn to_line(dst: Option<Seq<char>>) -> Seq<char> {
    match dst {
        Some(d) => if d == "false"@ {
            "    to = (Remove)"@
        } else {
            "    to = "@ + d
        },
        None => "    to = (Mirror)"@,
    }
}

/// The config text after adding the mapping `src_dst` (`SRC:DST`, or
/// `SRC` for a mirror): a `to` line at the end of an existing section for
/// the source, or a new section at the end of the text.
pub open spec fn added_mapping(content: Seq<char>, src_dst: Seq<char>, force: bool) -> Result<
    Seq<char>,
    ErrorView,
> {
    let (src, dst) = split_src_dst(src_dst);
    let ls = lines(content);
    if has_header(ls, src) {
        if dst is None && !force {
            Err(ErrorView::SourceExists(src))
        } else {
            let at = section_end_from(ls, src, 0, false);
            Ok(join(ls.insert(at, to_line(dst)), "\n"@) + "\n"@)
        }
    } else {
        let ls1 = if ls.len() > 0 && ls.last().len() > 0 {
            ls.push(Seq::empty())
        } else {
            ls
        };
        Ok(join(ls1.push(quoted_header(src)).push(to_line(dst)), "\n"@) + "\n"@)
    }
}

fn header_line_for(line: &str, h1: &str, h2: &str) -> (b: bool)
    ensures
        b == (trim(line@) == h1@ || trim(line@) == h2@),
{
    let t = str_trim(line);
    str_eq(t.as_str(), h1) || str_eq(t.as_str(), h2)
}

/// Adds a `src:dst` mapping to a config file's text and returns the new text.
///
/// Without a colon the mapping is a mirror (`to = (Mirror)`); a destination
/// of `false` writes a removal (`to = (Remove)`). A bare source that
/// already has a section is refused unless `force` is set.
pub fn add_mapping_text(content: &str, src_dst: &str, force: bool) -> (r: Result<
    String,
    PluckError,
>)
    ensures
        r matches Ok(t) ==> added_mapping(content@, src_dst@, force) == Ok::<Seq<char>, ErrorView>(
            t@,
        ),
        r matches Err(e) ==> added_mapping(content@, src_dst@, force) == Err::<
            Seq<char>,
            ErrorView,
        >(e@),
{
    let (src, dst): (String, Option<String>) = match str_find_char(src_dst, ':') {
        Some(p) => {
            let n = src_dst.unicode_len();
            (substring(src_dst, 0, p), Some(substring(src_dst, p + 1, n)))
        },
        None => (owned(src_dst), None),
    };
    assert(split_src_dst(src_dst@) == (src@, dst.deep_view()));
    let h1 = cat3("[forward.from \"", src.as_str(), "\"]");
    let h2 = cat3("[forward.from ", src.as_str(), "]");
    let mut ls = str_lines(content);
    let ghost lv = ls.deep_view();
    let mut has_section = false;
    let mut i: usize = 0;
    while i < ls.len()
        invariant
            lv == ls.deep_view(),
            h1@ == quoted_header(src@),
            h2@ == bare_header(src@),
            0 <= i <= ls.len(),
            has_section == (exists|k: int| 0 <= k < i && is_header_for(#[trigger] lv[k], src@)),
        decreases ls.len() - i,
    {
        assert(lv[i as int] == ls[i as int]@);
        if header_line_for(ls[i].as_str(), h1.as_str(), h2.as_str()) {
            has_section = true;
        }
        i = i + 1;
    }
    if has_section && dst.is_none() && !force {
        return Err(PluckError::SourceExists(src));
    }
    let new_line = match &dst {
        Some(d) => if str_eq(d.as_str(), "false") {
            owned("    to = (Remove)")
        } else {
            cat("    to = ", d.as_str())
        },
        None => owned("    to = (Mirror)"),
    };
    assert(new_line@ == to_line(dst.deep_view()));
    if has_section {
        let mut in_section = false;
        let mut section_end = ls.len();
        let mut i: usize = 0;
        while i < ls.len()
            invariant_except_break
                section_end == ls.len(),
            invariant
                lv == ls.deep_view(),
                h1@ == quoted_header(src@),
                h2@ == bare_header(src@),
                0 <= i <= ls.len(),
                section_end_from(lv, src@, i as int, in_section) == section_end_from(
                    lv,
                    src@,
                    0,
                    false,
                ),
            ensures
                section_end == section_end_from(lv, src@, 0, false),
                section_end <= ls.len(),
            decreases ls.len() - i,
        {
            assert(lv[i as int] == ls[i as int]@);
            if header_line_for(ls[i].as_str(), h1.as_str(), h2.as_str()) {
                in_section = true;
            } else if in_section {
                let t = str_trim(ls[i].as_str());
                if starts_with(t.as_str(), "[") {
                    section_end = i;
                    break;
                }
            }
            i = i + 1;
        }
        ls.insert(section_end, new_line);
    } else {
        let n = ls.len();
        if n > 0 && ls[n - 1].unicode_len() > 0 {
            ls.push(String::new());
        }
        ls.push(h1);
        ls.push(new_line);
    }
    let joined = str_join(&ls, "\n");
    let out = cat(joined.as_str(), "\n");
    proof {
        let ghost expect = added_mapping(content@, src_dst@, force);
        assert(ls.deep_view() =~= (if has_section {
            lv.insert(section_end_from(lv, src@, 0, false), to_line(dst.deep_view()))
        } else {
            let ls1 = if lv.len() > 0 && lv.last().len() > 0 {
                lv.push(Seq::empty())
            } else {
                lv
            };
            ls1.push(quoted_header(src@)).push(to_line(dst.deep_view()))
        }));
    }
    Ok(out)
}

/// Lines kept by removing the section for `src`, from position `i`: a
/// header line of it starts skipping, the next line starting with `[`
/// ends the skip and is kept.
pub open spec fn kept_from(ls: Seq<Seq<char>>, src: Seq<char>, i: int, skip: bool) -> Seq<
    Seq<char>,
>
    decreases ls.len() - i,
{
    if i < 0 || i >= ls.len() {
        Seq::empty()
    } else if is_header_for(ls[i], src) {
        kept_from(ls, src, i + 1, true)
    } else if skip && !has_prefix(trim(ls[i]), "["@) {
        kept_from(ls, src, i + 1, true)
    } else {
        seq![ls[i]] + kept_from(ls, src, i + 1, false)
    }
}

/// The config text after removing the section for `src`.
pub open spec fn removed_mapping(content: Seq<char>, src: Seq<char>) -> Result<
    Seq<char>,
    ErrorView,
> {
    let ls = lines(content);
    if has_header(ls, src) {
        Ok(join(kept_from(ls, src, 0, false), "\n"@) + "\n"@)
    } else {
        Err(ErrorView::SourceNotInConfig(src))
    }
}

/// Removes the `[forward.from "<src>"]` section from a config file's text
/// and returns the new text; an error when there is no such section.
pub fn remove_mapping_text(content: &str, src: &str) -> (r: Result<String, PluckError>)
    ensures
        r matches Ok(t) ==> removed_mapping(content@, src@) == Ok::<Seq<char>, ErrorView>(t@),
        r matches Err(e) ==> removed_mapping(content@, src@) == Err::<Seq<char>, ErrorView>(e@),
{
    let h1 = cat3("[forward.from \"", src, "\"]");
    let h2 = cat3("[forward.from ", src, "]");
    let ls = str_lines(content);
    let ghost lv = ls.deep_view();
    let mut result: Vec<String> = Vec::new();
    let mut skip = false;
    let mut found = false;
    let mut i: usize = 0;
    assert(result.deep_view() =~= Seq::<Seq<char>>::empty());
    while i < ls.len()
        invariant
            lv == ls.deep_view(),
            h1@ == quoted_header(src@),
            h2@ == bare_header(src@),
            0 <= i <= ls.len(),
            result.deep_view() + kept_from(lv, src@, i as int, skip) == kept_from(
                lv,
                src@,
                0,
                false,
            ),
            found == (exists|k: int| 0 <= k < i && is_header_for(#[trigger] lv[k], src@)),
        decreases ls.len() - i,
    {
        let line = ls[i].as_str();
        assert(lv[i as int] == line@);
        let ghost before = result.deep_view();
        if header_line_for(line, h1.as_str(), h2.as_str()) {
            skip = true;
            found = true;
        } else {
            let t = str_trim(line);
            let bracket = starts_with(t.as_str(), "[");
            if skip && !bracket {
            } else {
                skip = false;
                result.push(ls[i].clone());
                assert(result.deep_view() =~= before.push(line@));
                assert(before + kept_from(lv, src@, i as int, skip) =~= result.deep_view()
                    + kept_from(lv, src@, i + 1, false)) by {
                    assert(kept_from(lv, src@, i as int, true) == seq![line@] + kept_from(
                        lv,
                        src@,
                        i + 1,
                        false,
                    ) || kept_from(lv, src@, i as int, false) == seq![line@] + kept_from(
                        lv,
                        src@,
                        i + 1,
                        false,
                    ));
                }
            }
        }
        i = i + 1;
    }
    if !found {
        return Err(PluckError::SourceNotInConfig(owned(src)));
    }
    assert(result.deep_view() + Seq::<Seq<char>>::empty() =~= result.deep_view());
    let joined = str_join(&result, "\n");
    Ok(cat(joined.as_str(), "\n"))
}


/// The map check before a pluck: it passes when the map has no issues or
/// `force` is set; else it fails with the issues, one per line.
pub fn check_map_issues(issues: &Vec<String>, force: bool) -> (r: Result<(), PluckError>)
    ensures
        r is Ok <==> (issues.len() == 0 || force),
        r matches Err(e) ==> e@ == ErrorView::MapInvalid(join(issues.deep_view(), "\n"@)),
{
    if issues.len() == 0 || force {
        Ok(())
    } else {
        Err(PluckError::MapInvalid(str_join(issues, "\n")))
    }
}

/// The entry's destination takes part in the duplicate check.
pub open spec fn counted(e: EntryView) -> bool {
    dst_of(e).len() > 0 && !(e.primary is Remove)
}

/// No trailing slash and no colon in the entry's source or destination.
pub open spec fn clean_entry(e: EntryView) -> bool {
    &&& !(e.src.len() > 0 && e.src.last() == '/')
    &&& !has_char(e.src, ':')
    &&& !(dst_of(e).len() > 0 && dst_of(e).last() == '/')
    &&& !(dst_of(e).len() > 0 && has_char(dst_of(e), ':'))
}

/// A valid map: clean entries, no two sources mapped to one destination,
/// and (unless nesting is allowed) no source under another.
pub open spec fn map_valid(es: Seq<EntryView>, allow_nested: bool) -> bool {
    &&& forall|k: int| 0 <= k < es.len() ==> clean_entry(#[trigger] es[k])
    &&& forall|a: int, b: int|
        0 <= a < b < es.len() && counted(#[trigger] es[a]) && counted(#[trigger] es[b]) ==> dst_of(
            es[a],
        ) != dst_of(es[b])
    &&& !allow_nested ==> forall|a: int, b: int|
        0 <= a < b < es.len() ==> !nested(#[trigger] es[a].src, #[trigger] es[b].src)
}

proof fn lemma_validate_step(
    issues: Seq<Seq<char>>,
    seen: Seq<(Seq<char>, Seq<char>)>,
    e: EntryView,
)
    ensures
        validate_step(issues, seen, e).0.len() >= issues.len(),
        validate_step(issues, seen, e).0.len() == issues.len() <==> clean_entry(e) && (counted(e)
            ==> key_index(seen, dst_of(e)) < 0),
        forall|d: Seq<char>|
            #![trigger key_index(validate_step(issues, seen, e).1, d)]
            key_index(validate_step(issues, seen, e).1, d) >= 0 <==> (key_index(seen, d) >= 0 || (
            counted(e) && d == dst_of(e))),
{
    let dst = dst_of(e);
    if counted(e) {
        crate::collections::lemma_assoc_put(seen, dst, e.src);
        let t = assoc_put(seen, dst, e.src);
        assert forall|d: Seq<char>| key_index(t, d) >= 0 <==> (key_index(seen, d) >= 0 || d == dst) by {
            assert(crate::collections::assoc_map(t).dom().contains(d) == (key_index(t, d) >= 0));
            assert(crate::collections::assoc_map(seen).dom().contains(d) == (key_index(seen, d) >= 0));
        }
    }
}

proof fn lemma_validate_from(
    es: Seq<EntryView>,
    i: int,
    issues: Seq<Seq<char>>,
    seen: Seq<(Seq<char>, Seq<char>)>,
)
    requires
        0 <= i <= es.len(),
    ensures
        validate_from(es, i, issues, seen).len() >= issues.len(),
        validate_from(es, i, issues, seen).len() == issues.len() <==> {
            &&& forall|k: int| i <= k < es.len() ==> clean_entry(#[trigger] es[k])
            &&& forall|k: int|
                i <= k < es.len() && counted(#[trigger] es[k]) ==> key_index(seen, dst_of(es[k])) < 0
            &&& forall|a: int, b: int|
                i <= a < b < es.len() && counted(#[trigger] es[a]) && counted(#[trigger] es[b])
                    ==> dst_of(es[a]) != dst_of(es[b])
        },
    decreases es.len() - i,
{
    if i < es.len() {
        let (i2, s2) = validate_step(issues, seen, es[i]);
        lemma_validate_step(issues, seen, es[i]);
        lemma_validate_from(es, i + 1, i2, s2);
        let r = validate_from(es, i, issues, seen);
        assert(r == validate_from(es, i + 1, i2, s2));
        let all_clean = forall|k: int| i <= k < es.len() ==> clean_entry(#[trigger] es[k]);
        let fresh = forall|k: int|
            i <= k < es.len() && counted(#[trigger] es[k]) ==> key_index(seen, dst_of(es[k])) < 0;
        let distinct = forall|a: int, b: int|
            i <= a < b < es.len() && counted(#[trigger] es[a]) && counted(#[trigger] es[b])
                ==> dst_of(es[a]) != dst_of(es[b]);
        let all_clean2 = forall|k: int| i + 1 <= k < es.len() ==> clean_entry(#[trigger] es[k]);
        let fresh2 = forall|k: int|
            i + 1 <= k < es.len() && counted(#[trigger] es[k]) ==> key_index(s2, dst_of(es[k])) < 0;
        let distinct2 = forall|a: int, b: int|
            i + 1 <= a < b < es.len() && counted(#[trigger] es[a]) && counted(#[trigger] es[b])
                ==> dst_of(es[a]) != dst_of(es[b]);
        let head = clean_entry(es[i]) && (counted(es[i]) ==> key_index(seen, dst_of(es[i])) < 0);
        if all_clean && fresh && distinct {
            assert(head);
            assert forall|k: int|
                i + 1 <= k < es.len() && counted(#[trigger] es[k]) implies key_index(
                s2,
                dst_of(es[k]),
            ) < 0 by {
                if counted(es[i]) {
                    assert(dst_of(es[i]) != dst_of(es[k]));
                }
            }
            assert(all_clean2 && fresh2 && distinct2);
        }
        if head && all_clean2 && fresh2 && distinct2 {
            assert forall|k: int| i <= k < es.len() implies clean_entry(#[trigger] es[k]) by {}
            assert forall|k: int|
                i <= k < es.len() && counted(#[trigger] es[k]) implies key_index(
                seen,
                dst_of(es[k]),
            ) < 0 by {
                if k > i {
                    assert(key_index(s2, dst_of(es[k])) < 0);
                }
            }
            assert forall|a: int, b: int|
                i <= a < b < es.len() && counted(#[trigger] es[a]) && counted(
                    #[trigger] es[b],
                ) implies dst_of(es[a]) != dst_of(es[b]) by {
                if a == i {
                    assert(key_index(s2, dst_of(es[b])) < 0);
                }
            }
        }
    }
}

proof fn lemma_nested_from(srcs: Seq<Seq<char>>, i: int, j: int, issues: Seq<Seq<char>>)
    requires
        0 <= i,
        i < j,
    ensures
        nested_from(srcs, i, j, issues).len() >= issues.len(),
        nested_from(srcs, i, j, issues).len() == issues.len() <==> {
            &&& forall|b: int| j <= b < srcs.len() && i < srcs.len() ==> !nested(srcs[i], #[trigger] srcs[b])
            &&& forall|a: int, b: int|
                i < a < b < srcs.len() ==> !nested(#[trigger] srcs[a], #[trigger] srcs[b])
        },
    decreases srcs.len() - i, srcs.len() - j,
{
    if i >= srcs.len() {
    } else if j >= srcs.len() {
        lemma_nested_from(srcs, i + 1, i + 2, issues);
        let rest = forall|a: int, b: int|
            i < a < b < srcs.len() ==> !nested(#[trigger] srcs[a], #[trigger] srcs[b]);
        let first2 = forall|b: int|
            i + 2 <= b < srcs.len() && i + 1 < srcs.len() ==> !nested(srcs[i + 1], #[trigger] srcs[b]);
        let rest2 = forall|a: int, b: int|
            i + 1 < a < b < srcs.len() ==> !nested(#[trigger] srcs[a], #[trigger] srcs[b]);
        if first2 && rest2 {
            assert forall|a: int, b: int| i < a < b < srcs.len() implies !nested(
                #[trigger] srcs[a],
                #[trigger] srcs[b],
            ) by {
                if a == i + 1 {
                    assert(!nested(srcs[i + 1], srcs[b]));
                }
            }
        }
        if rest {
            assert forall|b: int| i + 2 <= b < srcs.len() && i + 1 < srcs.len() implies !nested(
                srcs[i + 1],
                #[trigger] srcs[b],
            ) by {
                assert(!nested(srcs[i + 1], srcs[b]));
            }
        }
    } else {
        let iss = if nested(srcs[i], srcs[j]) {
            issues.push(nested_message(srcs[i], srcs[j]))
        } else {
            issues
        };
        lemma_nested_from(srcs, i, j + 1, iss);
        let first = forall|b: int| j <= b < srcs.len() && i < srcs.len() ==> !nested(srcs[i], #[trigger] srcs[b]);
        let first2 = forall|b: int|
            j + 1 <= b < srcs.len() && i < srcs.len() ==> !nested(srcs[i], #[trigger] srcs[b]);
        if first2 && !nested(srcs[i], srcs[j]) {
            assert forall|b: int| j <= b < srcs.len() && i < srcs.len() implies !nested(
                srcs[i],
                #[trigger] srcs[b],
            ) by {
                if b == j {
                } else {
                    assert(!nested(srcs[i], srcs[b]));
                }
            }
        }
        if first {
            assert(!nested(srcs[i], srcs[j]));
        }
    }
}

/// No issues means a valid map, and a valid map has no issues: what
/// `validate_map` (and `--check-config`) reports is empty exactly when
/// no entry has a trailing slash or a colon, no two sources share a
/// destination, and (unless nesting is allowed) no source lies under another.
pub proof fn lemma_no_issues_iff_valid(es: Seq<EntryView>, allow_nested: bool)
    ensures
        map_issues(es, allow_nested).len() == 0 <==> map_valid(es, allow_nested),
{
    let empty_seen = Seq::<(Seq<char>, Seq<char>)>::empty();
    lemma_validate_from(es, 0, Seq::empty(), empty_seen);
    assert forall|d: Seq<char>| key_index(empty_seen, d) < 0 by {}
    let per_entry = validate_from(es, 0, Seq::empty(), empty_seen);
    if !allow_nested {
        let srcs = es.map_values(|e: EntryView| e.src);
        lemma_nested_from(srcs, 0, 1, per_entry);
        assert forall|k: int| 0 <= k < es.len() implies #[trigger] srcs[k] == es[k].src by {}
        let no_nest = forall|a: int, b: int|
            0 <= a < b < es.len() ==> !nested(#[trigger] es[a].src, #[trigger] es[b].src);
        if no_nest {
            assert forall|b: int| 1 <= b < srcs.len() && 0 < srcs.len() implies !nested(
                srcs[0],
                #[trigger] srcs[b],
            ) by {
                assert(!nested(es[0].src, es[b].src));
            }
            assert forall|a: int, b: int| 0 < a < b < srcs.len() implies !nested(
                #[trigger] srcs[a],
                #[trigger] srcs[b],
            ) by {
                assert(!nested(es[a].src, es[b].src));
            }
        }
        let r = nested_from(srcs, 0, 1, per_entry);
        if r.len() == per_entry.len() {
            assert forall|a: int, b: int| 0 <= a < b < es.len() implies !nested(
                #[trigger] es[a].src,
                #[trigger] es[b].src,
            ) by {
                if a == 0 {
                    assert(!nested(srcs[0], srcs[b]));
                } else {
                    assert(!nested(srcs[a], srcs[b]));
                }
            }
        }
    }
}

proof fn lemma_nested_from_appends(srcs: Seq<Seq<char>>, i: int, j: int, issues: Seq<Seq<char>>)
    ensures
        nested_from(srcs, i, j, issues) == issues + nested_from(srcs, i, j, Seq::empty()),
    decreases srcs.len() - i, srcs.len() - j,
{
    if i < 0 || i >= srcs.len() || j < 0 {
        assert(issues + Seq::<Seq<char>>::empty() =~= issues);
    } else if j >= srcs.len() {
        lemma_nested_from_appends(srcs, i + 1, i + 2, issues);
        lemma_nested_from_appends(srcs, i + 1, i + 2, Seq::empty());
    } else if nested(srcs[i], srcs[j]) {
        let m = nested_message(srcs[i], srcs[j]);
        lemma_nested_from_appends(srcs, i, j + 1, issues.push(m));
        lemma_nested_from_appends(srcs, i, j + 1, seq![m]);
        assert(Seq::<Seq<char>>::empty().push(m) =~= seq![m]);
        assert(issues.push(m) + nested_from(srcs, i, j + 1, Seq::empty()) =~= issues + (seq![m]
            + nested_from(srcs, i, j + 1, Seq::empty())));
    } else {
        lemma_nested_from_appends(srcs, i, j + 1, issues);
        lemma_nested_from_appends(srcs, i, j + 1, Seq::empty());
    }
}

/// Forbidding nesting only adds issues: the issues without
/// `allowNestedMap` are those with it, followed by one nesting issue for
/// each pair of sources where one lies under the other, in map order.
pub proof fn lemma_nesting_issues_follow(es: Seq<EntryView>)
    ensures
        map_issues(es, false) == map_issues(es, true) + nested_from(
            es.map_values(|e: EntryView| e.src),
            0,
            1,
            Seq::empty(),
        ),
{
    lemma_nested_from_appends(
        es.map_values(|e: EntryView| e.src),
        0,
        1,
        validate_from(es, 0, Seq::empty(), Seq::empty()),
    );
}

/// Reversing twice gives the entry back, and only moves are changed:
/// `--auto-reverse-map` swaps the source and destination of each move.
pub proof fn lemma_reverse_involution(e: EntryView)
    ensures
        reversed(reversed(e)) == e,
        !(e.primary is Move) ==> reversed(e) == e,
        e.primary matches TargetView::Move(d) ==> reversed(e).src == d && reversed(e).primary
            == TargetView::Move(e.src) && reversed(e).copies == e.copies,
{
}

/// With `--mirror-map` every section mirrors its own source and copies
/// nothing, whatever its `to` values and `--auto-reverse-map` say.
pub proof fn lemma_mirror_map_mirrors(c: ConfigView)
    requires
        c.mirror_map,
    ensures
        pluck_map(c).len() == c.path_mappings.len(),
        forall|k: int|
            0 <= k < c.path_mappings.len() ==> (#[trigger] pluck_map(c)[k]).src
                == c.path_mappings[k].0 && pluck_map(c)[k].primary is Mirror && pluck_map(
                c,
            )[k].copies.len() == 0,
{
}


proof fn lemma_no_newline_sub(a: Seq<char>, lo: int, hi: int)
    requires
        !has_char(a, '\n'),
        0 <= lo <= hi <= a.len(),
    ensures
        !has_char(a.subrange(lo, hi), '\n'),
{
    if has_char(a.subrange(lo, hi), '\n') {
        let k = choose|k: int| 0 <= k < hi - lo && a.subrange(lo, hi)[k] == '\n';
        assert(a[lo + k] == '\n');
    }
}

proof fn lemma_no_newline_cat(a: Seq<char>, b: Seq<char>)
    requires
        !has_char(a, '\n'),
        !has_char(b, '\n'),
    ensures
        !has_char(a + b, '\n'),
{
    if has_char(a + b, '\n') {
        let k = choose|k: int| 0 <= k < (a + b).len() && (a + b)[k] == '\n';
        if k < a.len() {
            assert(a[k] == '\n');
        } else {
            assert(b[k - a.len()] == '\n');
        }
    }
}

/// A section header, as written, is found as a header of its source.
proof fn lemma_quoted_header_found(src: Seq<char>)
    ensures
        is_header_for(strip_cr(quoted_header(src)), src),
{
    reveal_strlit("[forward.from \"");
    reveal_strlit("\"]");
    let h = quoted_header(src);
    assert(h[0] == '[');
    assert(h.last() == ']');
    assert(strip_cr(h) == h);
    lemma_trim_unchanged(h);
}

proof fn lemma_section_end_in_section(
    ls: Seq<Seq<char>>,
    src: Seq<char>,
    i: int,
    ins: bool,
    h0: int,
)
    requires
        0 <= i <= ls.len(),
        ins ==> 0 <= h0 < i && is_header_for(ls[h0], src) && forall|m: int|
            h0 < m < i ==> !has_prefix(trim(#[trigger] ls[m]), "["@),
        !ins ==> exists|k: int| i <= k < ls.len() && is_header_for(#[trigger] ls[k], src),
    ensures
        ({
            let r = section_end_from(ls, src, i, ins);
            &&& exists|h: int|
                0 <= h < r && is_header_for(#[trigger] ls[h], src) && forall|m: int|
                    h < m < r ==> !has_prefix(trim(#[trigger] ls[m]), "["@)
            &&& (r == ls.len() || has_prefix(trim(ls[r]), "["@))
        }),
    decreases ls.len() - i,
{
    if i < ls.len() {
        if is_header_for(ls[i], src) {
            lemma_section_end_in_section(ls, src, i + 1, true, i);
        } else if ins && has_prefix(trim(ls[i]), "["@) {
            assert(section_end_from(ls, src, i, ins) == i);
        } else {
            if !ins {
                let k = choose|k: int| i <= k < ls.len() && is_header_for(#[trigger] ls[k], src);
                assert(k > i);
            }
            lemma_section_end_in_section(ls, src, i + 1, ins, h0);
        }
    }
}

/// Adding `SRC:DST` for a source that already has a section puts the new
/// `to` line inside that section: the text comes back as the old lines
/// with the line inserted at a position after a header of SRC's section,
/// with no other section header in between, and before the next section
/// header (or at the end).
pub proof fn lemma_added_line_lands_in_its_section(content: Seq<char>, src_dst: Seq<char>, force: bool)
    ensures
        ({
            let src = split_src_dst(src_dst).0;
            let ls = lines(content);
            has_header(ls, src) ==> (added_mapping(content, src_dst, force) matches Ok(t) ==> exists|at: int|
                #![trigger ls.insert(at, to_line(split_src_dst(src_dst).1))]
                0 <= at <= ls.len() && t == join(ls.insert(at, to_line(split_src_dst(src_dst).1)), "\n"@)
                    + "\n"@ && (at == ls.len() || has_prefix(trim(ls[at]), "["@)) && exists|h: int|
                    0 <= h < at && is_header_for(#[trigger] ls[h], src) && forall|m: int|
                        h < m < at ==> !has_prefix(trim(#[trigger] ls[m]), "["@))
        }),
{
    let src = split_src_dst(src_dst).0;
    let ls = lines(content);
    if has_header(ls, src) {
        lemma_section_end_in_section(ls, src, 0, false, 0);
        lemma_section_end(ls, src, 0, false);
        let at = section_end_from(ls, src, 0, false);
        if let Ok(t) = added_mapping(content, src_dst, force) {
            assert(t == join(ls.insert(at, to_line(split_src_dst(src_dst).1)), "\n"@) + "\n"@);
        }
    }
}

/// After a mapping is added for a source, the text has a section for that
/// source, so removing the source's mapping then succeeds. (A newline in
/// the `SRC:DST` argument would break the header apart, so it has none.)
pub proof fn lemma_added_mapping_removable(content: Seq<char>, src_dst: Seq<char>, force: bool)
    requires
        !has_char(src_dst, '\n'),
    ensures
        match added_mapping(content, src_dst, force) {
            Ok(t) => has_header(lines(t), split_src_dst(src_dst).0) && removed_mapping(
                t,
                split_src_dst(src_dst).0,
            ) is Ok,
            Err(_) => true,
        },
{
    reveal_strlit("    to = ");
    reveal_strlit("    to = (Mirror)");
    reveal_strlit("[forward.from \"");
    reveal_strlit("\"]");
    let (src, dst) = split_src_dst(src_dst);
    lemma_next_idx_bounds(src_dst, 0, ':');
    match find_char(src_dst, ':') {
        Some(p) => {
            lemma_no_newline_sub(src_dst, 0, p);
            lemma_no_newline_sub(src_dst, p + 1, src_dst.len() as int);
        },
        None => {},
    }
    assert(!has_char(src, '\n'));
    let tl = to_line(dst);
    assert(!has_char(tl, '\n')) by {
        match dst {
            Some(d) => if d == "false"@ {
                reveal_strlit("    to = (Remove)");
                if has_char("    to = (Remove)"@, '\n') {
                    let k = choose|k: int| 0 <= k < 17 && "    to = (Remove)"@[k] == '\n';
                }
            } else {
                assert(!has_char(d, '\n'));
                assert(!has_char("    to = "@, '\n')) by {
                    if has_char("    to = "@, '\n') {
                        let k = choose|k: int| 0 <= k < 9 && "    to = "@[k] == '\n';
                    }
                }
                lemma_no_newline_cat("    to = "@, d);
            },
            None => {
                if has_char("    to = (Mirror)"@, '\n') {
                    let k = choose|k: int| 0 <= k < 17 && "    to = (Mirror)"@[k] == '\n';
                }
            },
        }
    }
    let qh = quoted_header(src);
    assert(!has_char(qh, '\n')) by {
        assert(!has_char("[forward.from \""@, '\n')) by {
            if has_char("[forward.from \""@, '\n') {
                let k = choose|k: int| 0 <= k < 15 && "[forward.from \""@[k] == '\n';
            }
        }
        assert(!has_char("\"]"@, '\n')) by {
            if has_char("\"]"@, '\n') {
                let k = choose|k: int| 0 <= k < 2 && "\"]"@[k] == '\n';
            }
        }
        lemma_no_newline_cat("[forward.from \""@, src);
        lemma_no_newline_cat("[forward.from \""@ + src, "\"]"@);
    }
    let ls = lines(content);
    lemma_lines_no_newline(content, 0);
    if has_header(ls, src) {
        if !(dst is None && !force) {
            let at = section_end_from(ls, src, 0, false);
            lemma_section_end(ls, src, 0, false);
            let l2 = ls.insert(at, tl);
            assert forall|k: int| 0 <= k < l2.len() implies !has_char(#[trigger] l2[k], '\n') by {
                if k < at {
                    assert(l2[k] == ls[k]);
                } else if k > at {
                    assert(l2[k] == ls[k - 1]);
                }
            }
            lemma_lines_of_joined(l2);
            let h = choose|h: int| 0 <= h < ls.len() && is_header_for(#[trigger] ls[h], src);
            let h2 = if h < at {
                h
            } else {
                h + 1
            };
            assert(l2[h2] == ls[h]);
            lemma_trim_strip_cr(ls[h]);
            let lt = lines(join(l2, "\n"@) + "\n"@);
            assert(lt[h2] == strip_cr(l2[h2]));
            assert(is_header_for(lt[h2], src));
        }
    } else {
        let ls1 = if ls.len() > 0 && ls.last().len() > 0 {
            ls.push(Seq::empty())
        } else {
            ls
        };
        let l2 = ls1.push(qh).push(tl);
        assert forall|k: int| 0 <= k < l2.len() implies !has_char(#[trigger] l2[k], '\n') by {
            if k < ls.len() {
                assert(l2[k] == ls[k]);
            } else if k < ls1.len() {
                assert(l2[k] == Seq::<char>::empty());
            }
        }
        lemma_lines_of_joined(l2);
        let lt = lines(join(l2, "\n"@) + "\n"@);
        let h2 = ls1.len() as int;
        assert(l2[h2] == qh);
        assert(lt[h2] == strip_cr(qh));
        lemma_quoted_header_found(src);
        assert(is_header_for(lt[h2], src));
    }
}

proof fn lemma_section_end(ls: Seq<Seq<char>>, src: Seq<char>, i: int, in_section: bool)
    requires
        0 <= i <= ls.len(),
    ensures
        0 <= section_end_from(ls, src, i, in_section) <= ls.len(),
    decreases ls.len() - i,
{
    if i < ls.len() {
        if is_header_for(ls[i], src) {
            lemma_section_end(ls, src, i + 1, true);
        } else if !(in_section && has_prefix(trim(ls[i]), "["@)) {
            lemma_section_end(ls, src, i + 1, in_section);
        }
    }
}


proof fn lemma_kept_no_header(ls: Seq<Seq<char>>, src: Seq<char>, i: int, skip: bool)
    requires
        0 <= i,
    ensures
        forall|k: int|
            0 <= k < kept_from(ls, src, i, skip).len() ==> !is_header_for(
                #[trigger] kept_from(ls, src, i, skip)[k],
                src,
            ),
        forall|k: int|
            0 <= k < kept_from(ls, src, i, skip).len() ==> exists|j: int|
                i <= j < ls.len() && #[trigger] kept_from(ls, src, i, skip)[k] == ls[j],
    decreases ls.len() - i,
{
    if i < ls.len() {
        if is_header_for(ls[i], src) || (skip && !has_prefix(trim(ls[i]), "["@)) {
            lemma_kept_no_header(ls, src, i + 1, true);
            let r = kept_from(ls, src, i, skip);
            let rest = kept_from(ls, src, i + 1, true);
            assert(r == rest);
            assert forall|k: int| 0 <= k < r.len() implies !is_header_for(#[trigger] r[k], src) by {
                assert(r[k] == rest[k]);
            }
            assert forall|k: int| 0 <= k < r.len() implies exists|j: int|
                i <= j < ls.len() && #[trigger] r[k] == ls[j] by {
                assert(r[k] == rest[k]);
                let j = choose|j: int| i + 1 <= j < ls.len() && rest[k] == ls[j];
                assert(i <= j < ls.len() && r[k] == ls[j]);
            }
        } else {
            lemma_kept_no_header(ls, src, i + 1, false);
            let r = kept_from(ls, src, i, skip);
            let rest = kept_from(ls, src, i + 1, false);
            assert forall|k: int| 0 <= k < r.len() implies !is_header_for(#[trigger] r[k], src) by {
                if k > 0 {
                    assert(r[k] == rest[k - 1]);
                }
            }
            assert forall|k: int| 0 <= k < r.len() implies exists|j: int|
                i <= j < ls.len() && #[trigger] r[k] == ls[j] by {
                if k > 0 {
                    assert(r[k] == rest[k - 1]);
                    let j = choose|j: int| i + 1 <= j < ls.len() && rest[k - 1] == ls[j];
                    assert(i <= j < ls.len() && r[k] == ls[j]);
                } else {
                    assert(r[k] == ls[i]);
                }
            }
        }
    }
}

/// After a source's mapping is removed, the text has no section for it.
pub proof fn lemma_removed_mapping_gone(content: Seq<char>, src: Seq<char>)
    ensures
        removed_mapping(content, src) matches Ok(t) ==> !has_header(lines(t), src),
{
    reveal_strlit("\n");
    let ls = lines(content);
    if has_header(ls, src) {
        let kept = kept_from(ls, src, 0, false);
        lemma_kept_no_header(ls, src, 0, false);
        lemma_lines_no_newline(content, 0);
        let t = join(kept, "\n"@) + "\n"@;
        if kept.len() > 0 {
            assert forall|k: int| 0 <= k < kept.len() implies !has_char(#[trigger] kept[k], '\n') by {
                let j = choose|j: int| 0 <= j < ls.len() && kept[k] == ls[j];
                assert(!has_char(ls[j], '\n'));
            }
            lemma_lines_of_joined(kept);
            assert forall|k: int| 0 <= k < lines(t).len() implies !is_header_for(
                #[trigger] lines(t)[k],
                src,
            ) by {
                assert(lines(t)[k] == strip_cr(kept[k]));
                lemma_trim_strip_cr(kept[k]);
                assert(!is_header_for(kept[k], src));
            }
        } else {
            assert(t =~= Seq::<char>::empty() + seq!['\n'] + Seq::<char>::empty());
            crate::text::lemma_lines_cons(Seq::<char>::empty(), Seq::<char>::empty());
            assert(lines(Seq::<char>::empty()) =~= Seq::<Seq<char>>::empty());
            assert(lines(t) =~= seq![Seq::<char>::empty()]);
            reveal_strlit("[forward.from \"");
            reveal_strlit("[forward.from ");
            assert(trim(Seq::<char>::empty()) =~= Seq::<char>::empty()) by {
                assert(crate::text::lead_end(Seq::<char>::empty(), 0) == 0);
            }
            assert(quoted_header(src).len() > 0);
            assert(bare_header(src).len() > 0);
            assert(!is_header_for(lines(t)[0], src));
        }
    }
}

} // verus!
