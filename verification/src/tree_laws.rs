//! What holds of every pluck tree: it names only objects of the source
//! tree and of the unpacked subtrees (no blob is new), and no two of its
//! entries share a path. Mirroring the root reproduces the source tree,
//! and the build reads only the subtree listings that `unpack_queries` names.
use vstd::prelude::*;
use crate::map::{EntryView, TargetView};
use crate::tree::{
    at, children_from, copied_from, covers, dot_mirror, emplace, emplace_resolved, fold_tree,
    listing, listing_of, mapping_index, mapping_index_from, missing_from, path_index,
    path_index_from, placement, processed, put, put_absent, put_all_absent, seen_final,
    unpack_from, unpack_shas_from, unpacked, without_from, base_prefix, TreeItem,
};
use crate::text::rfind_from;

verus! {

/// Two entries name the same object: mode, type and id agree.
pub open spec fn same_object(a: TreeItem, b: TreeItem) -> bool {
    a.mode == b.mode && a.obj_type == b.obj_type && a.sha == b.sha
}

/// An entry names an object of the source tree or of an unpacked listing.
pub open spec fn from_source(
    e: TreeItem,
    full: Seq<TreeItem>,
    listings: Map<Seq<char>, Seq<char>>,
) -> bool {
    ||| exists|i: int| 0 <= i < full.len() && same_object(e, #[trigger] full[i])
    ||| exists|s: Seq<char>, j: int|
        #![trigger listing(listings[s])[j]]
        listings.dom().contains(s) && 0 <= j < listing(listings[s]).len() && same_object(
            e,
            listing(listings[s])[j],
        )
}

/// No two entries share a path.
pub open spec fn distinct_paths(s: Seq<TreeItem>) -> bool {
    forall|i: int, j: int| 0 <= i < j < s.len() ==> #[trigger] s[i].path != #[trigger] s[j].path
}

/// Distinct paths, and every entry names a source object.
pub open spec fn table_ok(
    s: Seq<TreeItem>,
    full: Seq<TreeItem>,
    listings: Map<Seq<char>, Seq<char>>,
) -> bool {
    &&& distinct_paths(s)
    &&& forall|k: int| 0 <= k < s.len() ==> from_source(#[trigger] s[k], full, listings)
}

proof fn lemma_path_index(s: Seq<TreeItem>, p: Seq<char>, i: int)
    requires
        0 <= i,
    ensures
        -1 <= path_index_from(s, p, i) < s.len(),
        path_index_from(s, p, i) >= 0 ==> s[path_index_from(s, p, i)].path == p,
        path_index_from(s, p, i) == -1 ==> forall|k: int| i <= k < s.len() ==> s[k].path != p,
    decreases s.len() - i,
{
    if i < s.len() && s[i].path != p {
        lemma_path_index(s, p, i + 1);
    }
}

proof fn lemma_at_from_source(
    e: TreeItem,
    p: Seq<char>,
    full: Seq<TreeItem>,
    listings: Map<Seq<char>, Seq<char>>,
)
    requires
        from_source(e, full, listings),
    ensures
        from_source(at(e, p), full, listings),
{
    if exists|i: int| 0 <= i < full.len() && same_object(e, #[trigger] full[i]) {
        let i = choose|i: int| 0 <= i < full.len() && same_object(e, #[trigger] full[i]);
        assert(same_object(at(e, p), full[i]));
    } else {
        let (s, j) = choose|s: Seq<char>, j: int|
            #![trigger listing(listings[s])[j]]
            listings.dom().contains(s) && 0 <= j < listing(listings[s]).len() && same_object(
                e,
                listing(listings[s])[j],
            );
        assert(same_object(at(e, p), listing(listings[s])[j]));
    }
}

proof fn lemma_put_ok(
    s: Seq<TreeItem>,
    e: TreeItem,
    full: Seq<TreeItem>,
    listings: Map<Seq<char>, Seq<char>>,
)
    requires
        table_ok(s, full, listings),
        from_source(e, full, listings),
    ensures
        table_ok(put(s, e), full, listings),
        table_ok(put_absent(s, e), full, listings),
{
    lemma_path_index(s, e.path, 0);
    let k = path_index(s, e.path);
    let t = put(s, e);
    if k >= 0 {
        assert forall|i: int, j: int| 0 <= i < j < t.len() implies #[trigger] t[i].path
            != #[trigger] t[j].path by {
            assert(s[i].path != s[j].path);
        }
        assert forall|m: int| 0 <= m < t.len() implies from_source(#[trigger] t[m], full, listings) by {
            if m != k {
                assert(t[m] == s[m]);
            }
        }
    } else {
        assert forall|i: int, j: int| 0 <= i < j < t.len() implies #[trigger] t[i].path
            != #[trigger] t[j].path by {
            if j < s.len() {
                assert(s[i].path != s[j].path);
            }
        }
        assert forall|m: int| 0 <= m < t.len() implies from_source(#[trigger] t[m], full, listings) by {
            if m < s.len() {
                assert(t[m] == s[m]);
            }
        }
    }
}

proof fn lemma_unpack_ok(
    children: Seq<TreeItem>,
    i: int,
    s: Seq<TreeItem>,
    prefix: Seq<char>,
    full: Seq<TreeItem>,
    listings: Map<Seq<char>, Seq<char>>,
    sha: Seq<char>,
)
    requires
        listings.dom().contains(sha),
        children == listing(listings[sha]),
        table_ok(s, full, listings),
        0 <= i,
    ensures
        table_ok(unpack_from(children, i, s, prefix), full, listings),
    decreases children.len() - i,
{
    if i < children.len() {
        let c = children[i];
        assert(same_object(c, listing(listings[sha])[i]));
        assert(from_source(c, full, listings));
        let p = crate::tree::prefixed(prefix, c.path);
        lemma_at_from_source(c, p, full, listings);
        lemma_put_ok(s, at(c, p), full, listings);
        lemma_unpack_ok(children, i + 1, put(s, at(c, p)), prefix, full, listings, sha);
    }
}

proof fn lemma_copied_ok(
    e: TreeItem,
    key: Seq<char>,
    copies: Seq<Seq<char>>,
    i: int,
    s: Seq<TreeItem>,
    bp: Option<Seq<char>>,
    es: Seq<EntryView>,
    full: Seq<TreeItem>,
    listings: Map<Seq<char>, Seq<char>>,
)
    requires
        table_ok(s, full, listings),
        from_source(e, full, listings),
        0 <= i,
    ensures
        table_ok(copied_from(e, key, copies, i, s, bp, es), full, listings),
    decreases copies.len() - i,
{
    if i < copies.len() {
        let p = crate::tree::move_path(e.path, key, copies[i], bp, es);
        lemma_at_from_source(e, p, full, listings);
        lemma_put_ok(s, at(e, p), full, listings);
        lemma_copied_ok(e, key, copies, i + 1, put(s, at(e, p)), bp, es, full, listings);
    }
}

proof fn lemma_children_ok(
    full: Seq<TreeItem>,
    i: int,
    parent: Seq<char>,
    resolved: Seq<char>,
    es: Seq<EntryView>,
    acc: Seq<TreeItem>,
    listings: Map<Seq<char>, Seq<char>>,
)
    requires
        0 <= i,
        forall|k: int| 0 <= k < acc.len() ==> from_source(#[trigger] acc[k], full, listings),
    ensures
        children_from(full, i, parent, resolved, es, acc) matches Some(ch) ==> forall|k: int|
            0 <= k < ch.len() ==> from_source(#[trigger] ch[k], full, listings),
    decreases full.len() - i,
{
    if i < full.len() {
        let d = crate::tree::parent_dir(full[i].path);
        if (d == resolved || d == parent) && !crate::tree::removed_by_map(full[i].path, es) {
            match crate::tree::emplaced_path(full[i].path, parent, resolved) {
                Some(np) => {
                    assert(same_object(full[i], full[i]));
                    assert(from_source(full[i], full, listings));
                    lemma_at_from_source(full[i], np, full, listings);
                    let acc2 = acc.push(at(full[i], np));
                    assert forall|k: int| 0 <= k < acc2.len() implies from_source(
                        #[trigger] acc2[k],
                        full,
                        listings,
                    ) by {
                        if k < acc.len() {
                            assert(acc2[k] == acc[k]);
                        }
                    }
                    lemma_children_ok(full, i + 1, parent, resolved, es, acc2, listings);
                },
                None => {},
            }
        } else {
            lemma_children_ok(full, i + 1, parent, resolved, es, acc, listings);
        }
    }
}

proof fn lemma_put_all_absent_ok(
    children: Seq<TreeItem>,
    i: int,
    s: Seq<TreeItem>,
    full: Seq<TreeItem>,
    listings: Map<Seq<char>, Seq<char>>,
)
    requires
        0 <= i,
        table_ok(s, full, listings),
        forall|k: int| 0 <= k < children.len() ==> from_source(#[trigger] children[k], full, listings),
    ensures
        table_ok(put_all_absent(children, i, s), full, listings),
    decreases children.len() - i,
{
    if i < children.len() {
        lemma_put_ok(s, children[i], full, listings);
        lemma_put_all_absent_ok(children, i + 1, put_absent(s, children[i]), full, listings);
    }
}

proof fn lemma_emplace_ok(
    current: Seq<char>,
    s: Seq<TreeItem>,
    em: Set<Seq<char>>,
    full: Seq<TreeItem>,
    bp: Option<Seq<char>>,
    es: Seq<EntryView>,
    listings: Map<Seq<char>, Seq<char>>,
)
    requires
        table_ok(s, full, listings),
    ensures
        emplace(current, s, em, full, bp, es) matches Some((s2, em2)) ==> table_ok(s2, full, listings),
    decreases current.len(),
{
    let pos = rfind_from(current, current.len() as int, '/');
    if 0 <= pos < current.len() {
        let parent = current.subrange(0, pos);
        if parent.len() > 0 && !em.contains(parent) {
            let resolved = emplace_resolved(parent, bp);
            lemma_children_ok(full, 0, parent, resolved, es, Seq::empty(), listings);
            match children_from(full, 0, parent, resolved, es, Seq::empty()) {
                Some(ch) => {
                    lemma_put_all_absent_ok(ch, 0, s, full, listings);
                    lemma_emplace_ok(
                        parent,
                        put_all_absent(ch, 0, s),
                        em.insert(resolved).insert(parent),
                        full,
                        bp,
                        es,
                        listings,
                    );
                },
                None => {},
            }
        }
    }
}

proof fn lemma_processed_ok(
    e: TreeItem,
    m: EntryView,
    bp: Option<Seq<char>>,
    s: Seq<TreeItem>,
    em: Set<Seq<char>>,
    full: Seq<TreeItem>,
    es: Seq<EntryView>,
    listings: Map<Seq<char>, Seq<char>>,
)
    requires
        table_ok(s, full, listings),
        from_source(e, full, listings),
    ensures
        processed(e, m, bp, s, em, full, es, listings) matches Some((s2, em2)) ==> table_ok(
            s2,
            full,
            listings,
        ),
{
    let primary = match m.primary {
        TargetView::Mirror => Some((put(s, e), em)),
        TargetView::Remove => emplace(e.path, s, em, full, bp, es),
        TargetView::Root => Some((unpacked(e, listings, s, bp), em)),
        TargetView::Move(dst) => Some(
            (put(s, at(e, crate::tree::move_path(e.path, m.src, dst, bp, es))), em),
        ),
    };
    match m.primary {
        TargetView::Mirror => {
            lemma_put_ok(s, e, full, listings);
        },
        TargetView::Remove => {
            lemma_emplace_ok(e.path, s, em, full, bp, es, listings);
        },
        TargetView::Root => {
            match listing_of(listings, e.sha) {
                Some(children) => {
                    lemma_unpack_ok(
                        children,
                        0,
                        s,
                        crate::tree::prefix_text(bp),
                        full,
                        listings,
                        e.sha,
                    );
                },
                None => {},
            }
        },
        TargetView::Move(dst) => {
            let p = crate::tree::move_path(e.path, m.src, dst, bp, es);
            lemma_at_from_source(e, p, full, listings);
            lemma_put_ok(s, at(e, p), full, listings);
        },
    }
    match primary {
        Some((s1, em1)) => {
            lemma_copied_ok(e, m.src, m.copies, 0, s1, bp, es, full, listings);
        },
        None => {},
    }
}

proof fn lemma_fold_ok(
    full: Seq<TreeItem>,
    i: int,
    es: Seq<EntryView>,
    bp: Option<Seq<char>>,
    dm: bool,
    listings: Map<Seq<char>, Seq<char>>,
    s: Seq<TreeItem>,
    em: Set<Seq<char>>,
    seen: Set<Seq<char>>,
)
    requires
        0 <= i,
        table_ok(s, full, listings),
    ensures
        fold_tree(full, i, es, bp, dm, listings, s, em, seen) matches Some((s2, em2, seen2))
            ==> table_ok(s2, full, listings),
    decreases full.len() - i,
{
    if i < full.len() {
        let e = full[i];
        assert(same_object(e, full[i]));
        assert(from_source(e, full, listings));
        let k = mapping_index(e.path, es);
        if 0 <= k < es.len() {
            lemma_processed_ok(e, es[k], bp, s, em, full, es, listings);
            match processed(e, es[k], bp, s, em, full, es, listings) {
                Some((s1, em1)) => {
                    lemma_fold_ok(full, i + 1, es, bp, dm, listings, s1, em1, seen.insert(es[k].src));
                },
                None => {},
            }
        } else {
            let s1 = match bp {
                Some(p) => if !crate::tree::overridden(e.path, es) {
                    put(s, at(e, p + seq!['/'] + e.path))
                } else {
                    s
                },
                None => if dm {
                    put(s, e)
                } else {
                    s
                },
            };
            match bp {
                Some(p) => {
                    lemma_at_from_source(e, p + seq!['/'] + e.path, full, listings);
                    lemma_put_ok(s, at(e, p + seq!['/'] + e.path), full, listings);
                },
                None => {
                    lemma_put_ok(s, e, full, listings);
                },
            }
            lemma_fold_ok(full, i + 1, es, bp, dm, listings, s1, em, seen);
        }
    }
}

proof fn lemma_without_ok(
    s: Seq<TreeItem>,
    gone: Set<Seq<char>>,
    i: int,
    full: Seq<TreeItem>,
    listings: Map<Seq<char>, Seq<char>>,
)
    requires
        0 <= i,
        table_ok(s, full, listings),
    ensures
        table_ok(without_from(s, gone, i), full, listings),
        forall|k: int|
            0 <= k < without_from(s, gone, i).len() ==> exists|j: int|
                i <= j < s.len() && #[trigger] without_from(s, gone, i)[k] == s[j],
    decreases s.len() - i,
{
    if i < s.len() {
        lemma_without_ok(s, gone, i + 1, full, listings);
        let rest = without_from(s, gone, i + 1);
        if !gone.contains(s[i].path) {
            let w = seq![s[i]] + rest;
            assert forall|a: int, b: int| 0 <= a < b < w.len() implies #[trigger] w[a].path
                != #[trigger] w[b].path by {
                if a == 0 {
                    assert(w[b] == rest[b - 1]);
                    let j = choose|j: int| i + 1 <= j < s.len() && rest[b - 1] == s[j];
                    assert(s[i].path != s[j].path);
                } else {
                    assert(w[a] == rest[a - 1] && w[b] == rest[b - 1]);
                }
            }
            assert forall|k: int| 0 <= k < w.len() implies from_source(#[trigger] w[k], full, listings) by {
                if k == 0 {
                    assert(w[k] == s[i]);
                } else {
                    assert(w[k] == rest[k - 1]);
                }
            }
            assert forall|k: int| 0 <= k < w.len() implies exists|j: int|
                i <= j < s.len() && #[trigger] w[k] == s[j] by {
                if k == 0 {
                    assert(w[k] == s[i]);
                } else {
                    assert(w[k] == rest[k - 1]);
                }
            }
        }
    }
}

/// Every entry of a pluck tree's table names an object of the source tree
/// or of an unpacked subtree listing, and no two entries share a path: the
/// pluck reuses the source's blobs; only trees and commits are new.
pub proof fn lemma_pluck_tree_reuses_objects(
    full: Seq<TreeItem>,
    es: Seq<EntryView>,
    listings: Map<Seq<char>, Seq<char>>,
)
    ensures
        placement(full, es, listings) matches Some((s, em, seen)) ==> table_ok(
            without_from(s, em, 0),
            full,
            listings,
        ),
{
    lemma_fold_ok(
        full,
        0,
        es,
        base_prefix(es),
        dot_mirror(es),
        listings,
        Seq::empty(),
        Set::empty(),
        Set::empty(),
    );
    match placement(full, es, listings) {
        Some((s, em, seen)) => {
            lemma_without_ok(s, em, 0, full, listings);
        },
        None => {},
    }
}

/// The entries of a built pluck tree (a reordering of its table) each name
/// a source object.
pub proof fn lemma_built_entries_from_source(
    r: Seq<TreeItem>,
    table: Seq<TreeItem>,
    full: Seq<TreeItem>,
    listings: Map<Seq<char>, Seq<char>>,
)
    requires
        r.to_multiset() == table.to_multiset(),
        table_ok(table, full, listings),
    ensures
        forall|k: int| 0 <= k < r.len() ==> from_source(#[trigger] r[k], full, listings),
{
    broadcast use vstd::seq_lib::group_to_multiset_ensures;

    assert forall|k: int| 0 <= k < r.len() implies from_source(#[trigger] r[k], full, listings) by {
        assert(r.contains(r[k]));
        assert(r.to_multiset().count(r[k]) > 0);
        assert(table.to_multiset().count(r[k]) > 0);
        assert(table.contains(r[k]));
        let j = choose|j: int| 0 <= j < table.len() && table[j] == r[k];
        assert(from_source(table[j], full, listings));
    }
}


/// The map that mirrors the root and nothing else.
pub open spec fn root_mirror_map() -> Seq<EntryView> {
    seq![EntryView { src: "."@, primary: TargetView::Mirror, copies: Seq::empty() }]
}

/// Mirroring the root (`[forward.from "."] to = (Mirror)`) places every
/// source entry at its own path: the pluck tree is the source tree, and
/// no mapped source is missing. (Source paths are distinct, as in a Git
/// tree, and none is `.` or under `./`.)
pub proof fn lemma_root_mirror_reproduces_tree(
    full: Seq<TreeItem>,
    listings: Map<Seq<char>, Seq<char>>,
)
    requires
        distinct_paths(full),
        forall|k: int| 0 <= k < full.len() ==> !covers(#[trigger] full[k].path, "."@),
    ensures
        placement(full, root_mirror_map(), listings) == Some(
            (full, Set::<Seq<char>>::empty(), Set::<Seq<char>>::empty()),
        ),
        without_from(full, Set::empty(), 0) == full,
        missing_from(root_mirror_map(), seen_final(Set::empty(), root_mirror_map()), 0)
            == Seq::<Seq<char>>::empty(),
{
    let es = root_mirror_map();
    assert(es[0].primary is Mirror && es[0].src == "."@);
    assert(dot_mirror(es));
    assert(base_prefix(es) is None) by {
        assert(crate::tree::base_prefix_from(es, 1) is None);
    }
    lemma_fold_mirror(full, 0, listings);
    assert(full.take(0) =~= Seq::<TreeItem>::empty());
    lemma_without_none(full, 0);
    assert(full.subrange(0, full.len() as int) =~= full);
    let seen = seen_final(Set::empty(), es);
    assert(seen.contains("."@));
    assert(missing_from(es, seen, 1) =~= Seq::<Seq<char>>::empty());
}

proof fn lemma_fold_mirror(full: Seq<TreeItem>, i: int, listings: Map<Seq<char>, Seq<char>>)
    requires
        0 <= i <= full.len(),
        distinct_paths(full),
        forall|k: int| 0 <= k < full.len() ==> !covers(#[trigger] full[k].path, "."@),
    ensures
        fold_tree(
            full,
            i,
            root_mirror_map(),
            None,
            true,
            listings,
            full.take(i),
            Set::empty(),
            Set::empty(),
        ) == Some((full, Set::<Seq<char>>::empty(), Set::<Seq<char>>::empty())),
    decreases full.len() - i,
{
    let es = root_mirror_map();
    if i == full.len() {
        assert(full.take(i) =~= full);
    } else {
        let e = full[i];
        assert(!covers(e.path, "."@));
        assert(mapping_index_from(e.path, es, 1) == -1);
        assert(mapping_index(e.path, es) == -1);
        let t = full.take(i);
        lemma_path_index(t, e.path, 0);
        if path_index(t, e.path) >= 0 {
            let j = path_index(t, e.path);
            assert(t[j] == full[j]);
            assert(full[j].path != full[i].path);
        }
        assert(put(t, e) =~= full.take(i + 1));
        lemma_fold_mirror(full, i + 1, listings);
    }
}

proof fn lemma_without_none(s: Seq<TreeItem>, i: int)
    requires
        0 <= i <= s.len(),
    ensures
        without_from(s, Set::empty(), i) == s.subrange(i, s.len() as int),
    decreases s.len() - i,
{
    if i < s.len() {
        lemma_without_none(s, i + 1);
        assert(seq![s[i]] + s.subrange(i + 1, s.len() as int) =~= s.subrange(i, s.len() as int));
    } else {
        assert(s.subrange(i, s.len() as int) =~= Seq::<TreeItem>::empty());
    }
}

proof fn lemma_fold_reads_queried_listings(
    full: Seq<TreeItem>,
    i: int,
    es: Seq<EntryView>,
    bp: Option<Seq<char>>,
    dm: bool,
    l1: Map<Seq<char>, Seq<char>>,
    l2: Map<Seq<char>, Seq<char>>,
    s: Seq<TreeItem>,
    em: Set<Seq<char>>,
    seen: Set<Seq<char>>,
)
    requires
        0 <= i,
        forall|j: int|
            0 <= j < unpack_shas_from(full, es, i).len() ==> listing_of(
                l1,
                #[trigger] unpack_shas_from(full, es, i)[j],
            ) == listing_of(l2, unpack_shas_from(full, es, i)[j]),
    ensures
        fold_tree(full, i, es, bp, dm, l1, s, em, seen) == fold_tree(full, i, es, bp, dm, l2, s, em, seen),
    decreases full.len() - i,
{
    if i < full.len() {
        let e = full[i];
        let k = mapping_index(e.path, es);
        let rest = unpack_shas_from(full, es, i + 1);
        let here = unpack_shas_from(full, es, i);
        if 0 <= k < es.len() && es[k].primary is Root {
            assert(here == seq![e.sha] + rest);
            assert(here[0] == e.sha);
            assert forall|j: int| 0 <= j < rest.len() implies listing_of(l1, #[trigger] rest[j])
                == listing_of(l2, rest[j]) by {
                assert(here[j + 1] == rest[j]);
            }
        } else {
            assert(here == rest);
        }
        if 0 <= k < es.len() {
            assert(processed(e, es[k], bp, s, em, full, es, l1) == processed(e, es[k], bp, s, em, full, es, l2));
            match processed(e, es[k], bp, s, em, full, es, l1) {
                Some((s1, em1)) => {
                    lemma_fold_reads_queried_listings(full, i + 1, es, bp, dm, l1, l2, s1, em1, seen.insert(es[k].src));
                },
                None => {},
            }
        } else {
            let s1 = match bp {
                Some(p) => if !crate::tree::overridden(e.path, es) {
                    put(s, at(e, p + seq!['/'] + e.path))
                } else {
                    s
                },
                None => if dm {
                    put(s, e)
                } else {
                    s
                },
            };
            lemma_fold_reads_queried_listings(full, i + 1, es, bp, dm, l1, l2, s1, em, seen);
        }
    }
}

/// The build reads the subtree listings of `unpack_queries` only: two
/// gatherings of listings that agree on those subtrees give the same
/// placement, so gathering just those is enough.
pub proof fn lemma_only_queried_listings_matter(
    full: Seq<TreeItem>,
    es: Seq<EntryView>,
    l1: Map<Seq<char>, Seq<char>>,
    l2: Map<Seq<char>, Seq<char>>,
)
    requires
        forall|j: int|
            0 <= j < unpack_shas_from(full, es, 0).len() ==> listing_of(
                l1,
                #[trigger] unpack_shas_from(full, es, 0)[j],
            ) == listing_of(l2, unpack_shas_from(full, es, 0)[j]),
    ensures
        placement(full, es, l1) == placement(full, es, l2),
{
    lemma_fold_reads_queried_listings(
        full,
        0,
        es,
        base_prefix(es),
        dot_mirror(es),
        l1,
        l2,
        Seq::empty(),
        Set::empty(),
        Set::empty(),
    );
}

} // verus!
