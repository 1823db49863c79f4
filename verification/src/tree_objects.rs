//! Planning the Git tree objects for a flat list of entries: which
//! directories need a tree, the order in which to create them (deepest
//! first), and the `git mktree --batch` input of each directory.
use vstd::prelude::*;
use crate::collections::StrMap;
use crate::text::{
    cat, cat3, has_char, has_prefix, join, lemma_rfind_bounds, lines, owned, rfind_from,
    starts_with, str_contains_char, str_eq, str_join, str_lines, str_rfind_char, str_trim,
    substring, trim, with_slash,
};
use crate::tree::{
    lemma_lt_total, lemma_lt_trans, parent_dir, parent_dir_of, path_less, path_lt, TreeEntry,
    TreeItem,
};

verus! {

/// The ancestors of a directory: the part before each of its `/`, and the
/// root `""` above a non-empty top-level directory.
pub open spec fn ancestors(d: Seq<char>) -> Set<Seq<char>>
    decreases d.len(),
{
    let pos = rfind_from(d, d.len() as int, '/');
    if 0 <= pos < d.len() {
        ancestors(d.subrange(0, pos)).insert(d.subrange(0, pos))
    } else if d.len() > 0 {
        set![Seq::<char>::empty()]
    } else {
        Set::empty()
    }
}

/// The directories that need a tree for the first `n` entries: the
/// directory of each entry and all its ancestors.
pub open spec fn dirs_upto(s: Seq<TreeItem>, n: int) -> Set<Seq<char>>
    decreases n,
{
    if n <= 0 || n > s.len() {
        Set::empty()
    } else {
        let d = parent_dir(s[n - 1].path);
        dirs_upto(s, n - 1).union(ancestors(d).insert(d))
    }
}

pub open spec fn tree_dirs(s: Seq<TreeItem>) -> Set<Seq<char>> {
    dirs_upto(s, s.len() as int)
}

/// Strictly descending by path: no duplicates, deepest directories before their parents.
pub open spec fn strictly_desc(s: Seq<Seq<char>>) -> bool {
    forall|i: int, j: int| 0 <= i < j < s.len() ==> path_lt(#[trigger] s[j], #[trigger] s[i])
}

proof fn lemma_prefix_lt(a: Seq<char>, d: Seq<char>, i: int)
    requires
        0 <= i <= a.len() < d.len(),
        a == d.subrange(0, a.len() as int),
    ensures
        crate::tree::lt_from(a, d, i),
    decreases a.len() - i,
{
    if i < a.len() {
        assert(a[i] == d[i]);
        lemma_prefix_lt(a, d, i + 1);
    }
}

proof fn lemma_ancestor_is_prefix(d: Seq<char>, a: Seq<char>)
    requires
        ancestors(d).contains(a),
    ensures
        a.len() < d.len(),
        a == d.subrange(0, a.len() as int),
    decreases d.len(),
{
    lemma_rfind_bounds(d, d.len() as int, '/');
    let pos = rfind_from(d, d.len() as int, '/');
    if 0 <= pos < d.len() {
        let up = d.subrange(0, pos);
        if a != up {
            lemma_ancestor_is_prefix(up, a);
            assert(up.subrange(0, a.len() as int) =~= d.subrange(0, a.len() as int));
        }
    } else if d.len() > 0 {
        assert(a =~= d.subrange(0, 0));
    }
}

/// In a strictly descending list of directories, as `tree_dirs_to_create`
/// gives them, every directory comes after each directory below it: the
/// trees of its subdirectories exist before its own tree is made.
pub proof fn lemma_subtrees_first(ds: Seq<Seq<char>>, i: int, j: int)
    requires
        strictly_desc(ds),
        0 <= i < ds.len(),
        0 <= j < ds.len(),
        ancestors(ds[i]).contains(ds[j]),
    ensures
        i < j,
{
    lemma_ancestor_is_prefix(ds[i], ds[j]);
    lemma_prefix_lt(ds[j], ds[i], 0);
    if j == i {
        crate::tree::lemma_lt_irreflexive(ds[i], 0);
    } else if j < i {
        assert(path_lt(ds[i], ds[j]));
        lemma_lt_trans(ds[j], ds[i], ds[j], 0);
        crate::tree::lemma_lt_irreflexive(ds[j], 0);
    }
}

proof fn lemma_dirs_upto_grows(s: Seq<TreeItem>, k: int, n: int)
    requires
        0 <= k <= n <= s.len(),
    ensures
        dirs_upto(s, k).subset_of(dirs_upto(s, n)),
    decreases n - k,
{
    if k < n {
        lemma_dirs_upto_grows(s, k, n - 1);
    }
}

/// Every entry's directory, and every directory above it up to the root,
/// is among the directories that get a tree object.
pub proof fn lemma_every_entry_has_its_directory(s: Seq<TreeItem>, k: int)
    requires
        0 <= k < s.len(),
    ensures
        tree_dirs(s).contains(parent_dir(s[k].path)),
        forall|a: Seq<char>|
            #[trigger] ancestors(parent_dir(s[k].path)).contains(a) ==> tree_dirs(s).contains(a),
{
    lemma_dirs_upto_grows(s, k + 1, s.len() as int);
}

/// Inserts `x` into a strictly descending list unless it is there already.
fn insert_desc(v: &mut Vec<String>, x: String)
    requires
        strictly_desc(old(v).deep_view()),
    ensures
        strictly_desc(final(v).deep_view()),
        forall|y: Seq<char>|
            #![trigger final(v).deep_view().contains(y)]
            final(v).deep_view().contains(y) <==> (old(v).deep_view().contains(y) || y == x@),
{
    let ghost ov = v.deep_view();
    let ghost xv = x@;
    let mut p: usize = 0;
    while p < v.len() && path_less(x.as_str(), v[p].as_str())
        invariant
            ov == v.deep_view(),
            xv == x@,
            0 <= p <= v.len(),
            forall|k: int| 0 <= k < p ==> path_lt(xv, #[trigger] ov[k]),
        decreases v.len() - p,
    {
        assert(ov[p as int] == v[p as int]@);
        p = p + 1;
    }
    if p < v.len() && str_eq(v[p].as_str(), x.as_str()) {
        assert(ov[p as int] == v[p as int]@);
        assert forall|y: Seq<char>| #![trigger ov.contains(y)] ov.contains(y) <==> (ov.contains(y)
            || y == xv) by {
            if y == xv {
                assert(ov[p as int] == y);
            }
        }
        return;
    }
    proof {
        if p < v.len() {
            assert(ov[p as int] == v[p as int]@);
            lemma_lt_total(xv, ov[p as int], 0);
        }
    }
    v.insert(p, x);
    let ghost nv = v.deep_view();
    assert(nv =~= ov.insert(p as int, xv));
    proof {
        assert forall|a: int, b: int| 0 <= a < b < nv.len() implies path_lt(
            #[trigger] nv[b],
            #[trigger] nv[a],
        ) by {
            if b < p {
                assert(nv[a] == ov[a] && nv[b] == ov[b]);
            } else if a < p && b == p {
                assert(nv[a] == ov[a] && nv[b] == xv);
            } else if a < p && b > p {
                assert(nv[a] == ov[a] && nv[b] == ov[b - 1]);
            } else if a == p {
                assert(nv[a] == xv && nv[b] == ov[b - 1]);
                if b - 1 > p {
                    lemma_lt_trans(ov[b - 1], ov[p as int], xv, 0);
                }
            } else {
                assert(nv[a] == ov[a - 1] && nv[b] == ov[b - 1]);
            }
        }
        assert forall|y: Seq<char>| #![trigger nv.contains(y)] nv.contains(y) <==> (ov.contains(y)
            || y == xv) by {
            if nv.contains(y) {
                let i = choose|i: int| 0 <= i < nv.len() && nv[i] == y;
                if i < p {
                    assert(ov[i] == y);
                } else if i > p {
                    assert(ov[i - 1] == y);
                }
            }
            if ov.contains(y) {
                let i = choose|i: int| 0 <= i < ov.len() && ov[i] == y;
                if i < p {
                    assert(nv[i] == y);
                } else {
                    assert(nv[i + 1] == y);
                }
            }
            if y == xv {
                assert(nv[p as int] == y);
            }
        }
    }
}

/// The directories that need a tree object for `entries`, deepest first
/// (descending path order: every directory after the ones below it).
pub fn tree_dirs_to_create(entries: &Vec<TreeEntry>) -> (ds: Vec<String>)
    ensures
        strictly_desc(ds.deep_view()),
        forall|d: Seq<char>|
            #![trigger ds.deep_view().contains(d)]
            ds.deep_view().contains(d) <==> tree_dirs(entries.deep_view()).contains(d),
{
    let ghost s = entries.deep_view();
    let mut ds: Vec<String> = Vec::new();
    let mut i: usize = 0;
    while i < entries.len()
        invariant
            s == entries.deep_view(),
            0 <= i <= entries.len(),
            strictly_desc(ds.deep_view()),
            forall|d: Seq<char>|
                #![trigger ds.deep_view().contains(d)]
                ds.deep_view().contains(d) <==> dirs_upto(s, i as int).contains(d),
        decreases entries.len() - i,
    {
        assert(s[i as int] == entries[i as int].deep_view());
        let dir = parent_dir_of(entries[i].path.as_str());
        let ghost dv = dir@;
        assert(dirs_upto(s, i + 1) == dirs_upto(s, i as int).union(ancestors(dv).insert(dv)));
        insert_desc(&mut ds, dir.clone());
        let mut cur = dir;
        loop
            invariant
                s == entries.deep_view(),
                0 <= i < entries.len(),
                strictly_desc(ds.deep_view()),
                forall|d: Seq<char>|
                    #![trigger ds.deep_view().contains(d)]
                    #![trigger ancestors(cur@).contains(d)]
                    (ds.deep_view().contains(d) || ancestors(cur@).contains(d)) <==> dirs_upto(
                        s,
                        i + 1,
                    ).contains(d),
            ensures
                strictly_desc(ds.deep_view()),
                forall|d: Seq<char>|
                    #![trigger ds.deep_view().contains(d)]
                    ds.deep_view().contains(d) <==> dirs_upto(s, i + 1).contains(d),
            decreases cur@.len(),
        {
            proof {
                lemma_rfind_bounds(cur@, cur@.len() as int, '/');
            }
            match str_rfind_char(cur.as_str(), '/') {
                Some(pos) => {
                    let up = substring(cur.as_str(), 0, pos);
                    assert(ancestors(cur@) == ancestors(up@).insert(up@));
                    insert_desc(&mut ds, up.clone());
                    cur = up;
                },
                None => {
                    if cur.unicode_len() > 0 {
                        assert(ancestors(cur@) == set![Seq::<char>::empty()]);
                        let root = String::new();
                        assert(root@ =~= Seq::<char>::empty());
                        insert_desc(&mut ds, root);
                    } else {
                        assert(ancestors(cur@) =~= Set::<Seq<char>>::empty());
                    }
                    break;
                },
            }
        }
        i = i + 1;
    }
    ds
}

// ---------------------------------------------------------------------
// The `git mktree --batch` input of one directory
// ---------------------------------------------------------------------

/// The name of `p` inside directory `dir`: what follows `dir` and its `/`.
pub open spec fn name_in(p: Seq<char>, dir: Seq<char>) -> Seq<char> {
    if dir.len() == 0 {
        p
    } else {
        p.subrange(dir.len() as int + 1, p.len() as int)
    }
}

/// The mktree line of a non-tree entry: `<mode> <type> <sha>\t<name>`.
pub open spec fn blob_line(e: TreeItem, dir: Seq<char>) -> Seq<char> {
    e.mode + " "@ + e.obj_type + " "@ + e.sha + "\t"@ + name_in(e.path, dir)
}

/// The lines of the entries from position `i` that sit directly in `dir`
/// and are not trees (those are rebuilt from the child directories).
pub open spec fn blob_lines_from(s: Seq<TreeItem>, dir: Seq<char>, i: int) -> Seq<Seq<char>>
    decreases s.len() - i,
{
    if i < 0 || i >= s.len() {
        Seq::empty()
    } else if parent_dir(s[i].path) == dir && s[i].obj_type != "tree"@ {
        seq![blob_line(s[i], dir)] + blob_lines_from(s, dir, i + 1)
    } else {
        blob_lines_from(s, dir, i + 1)
    }
}

/// `d` is a directory directly inside `dir`.
pub open spec fn is_child_dir(d: Seq<char>, dir: Seq<char>) -> bool {
    if dir.len() == 0 {
        d.len() > 0 && !has_char(d, '/')
    } else {
        has_prefix(d, dir.push('/')) && d.len() > dir.len() + 1 && !has_char(
            d.subrange(dir.len() as int + 1, d.len() as int),
            '/',
        )
    }
}

/// The mktree line of a child tree already created with object id `oid`.
pub open spec fn subdir_line(oid: Seq<char>, name: Seq<char>) -> Seq<char> {
    "40000 tree "@ + oid + "\t"@ + name
}

/// The lines of the child directories of `dir` among the first `n`
/// directories of the descending list `ds`, in ascending order, for
/// those whose tree was created.
pub open spec fn subdir_lines_upto(
    ds: Seq<Seq<char>>,
    n: int,
    dir: Seq<char>,
    created: Map<Seq<char>, Seq<char>>,
) -> Seq<Seq<char>>
    decreases n,
{
    if n <= 0 || n > ds.len() {
        Seq::empty()
    } else {
        let d = ds[n - 1];
        let line = if is_child_dir(d, dir) && created.dom().contains(d) {
            seq![subdir_line(created[d], name_in(d, dir))]
        } else {
            Seq::empty()
        };
        line + subdir_lines_upto(ds, n - 1, dir, created)
    }
}

pub open spec fn mktree_lines(
    s: Seq<TreeItem>,
    dir: Seq<char>,
    ds: Seq<Seq<char>>,
    created: Map<Seq<char>, Seq<char>>,
) -> Seq<Seq<char>> {
    blob_lines_from(s, dir, 0) + subdir_lines_upto(ds, ds.len() as int, dir, created)
}

/// The batch input for some lines: each followed by a newline; `None`
/// for no lines (the directory gets the empty tree).
pub open spec fn mktree_input(ls: Seq<Seq<char>>) -> Option<Seq<char>> {
    if ls.len() == 0 {
        None
    } else {
        Some(join(ls, "\n"@) + "\n"@)
    }
}

fn child_dir_check(d: &str, dir: &str) -> (b: bool)
    ensures
        b == is_child_dir(d@, dir@),
{
    if dir.unicode_len() == 0 {
        return d.unicode_len() > 0 && !str_contains_char(d, '/');
    }
    let w = with_slash(dir);
    if !starts_with(d, w.as_str()) {
        return false;
    }
    let n = d.unicode_len();
    let k = dir.unicode_len();
    if n <= k + 1 {
        return false;
    }
    let rest = substring(d, k + 1, n);
    !str_contains_char(rest.as_str(), '/')
}

fn name_of(p: &str, dir: &str) -> (r: String)
    requires
        dir@.len() > 0 ==> dir@.len() + 1 <= p@.len(),
    ensures
        r@ == name_in(p@, dir@),
{
    let k = dir.unicode_len();
    let n = p.unicode_len();
    if k == 0 {
        owned(p)
    } else {
        substring(p, k + 1, n)
    }
}

/// The `git mktree --batch` input for directory `dir`: its non-tree
/// entries, then its child directories whose trees were created (ids in
/// `created`), taking the child directories from the descending list
/// `dirs`; `None` where the directory has nothing (it gets the empty tree).
pub fn mktree_batch(entries: &Vec<TreeEntry>, dir: &str, dirs: &Vec<String>, created: &StrMap) -> (r:
    Option<String>)
    ensures
        r.deep_view() == mktree_input(mktree_lines(entries.deep_view(), dir@, dirs.deep_view(), created@)),
{
    let ghost s = entries.deep_view();
    let ghost ds = dirs.deep_view();
    let mut out: Vec<String> = Vec::new();
    let mut i: usize = 0;
    assert(out.deep_view() =~= Seq::<Seq<char>>::empty());
    while i < entries.len()
        invariant
            s == entries.deep_view(),
            0 <= i <= entries.len(),
            out.deep_view() + blob_lines_from(s, dir@, i as int) == blob_lines_from(s, dir@, 0),
        decreases entries.len() - i,
    {
        let e = &entries[i];
        assert(s[i as int] == e.deep_view());
        let pd = parent_dir_of(e.path.as_str());
        if str_eq(pd.as_str(), dir) && !str_eq(e.obj_type.as_str(), "tree") {
            proof {
                lemma_rfind_bounds(e.path@, e.path@.len() as int, '/');
            }
            let name = name_of(e.path.as_str(), dir);
            let a = cat3(e.mode.as_str(), " ", e.obj_type.as_str());
            let b = cat3(a.as_str(), " ", e.sha.as_str());
            let c = cat3(b.as_str(), "\t", name.as_str());
            let ghost before = out.deep_view();
            out.push(c);
            assert(out.deep_view() =~= before.push(blob_line(s[i as int], dir@)));
            assert(before + blob_lines_from(s, dir@, i as int) =~= out.deep_view()
                + blob_lines_from(s, dir@, i + 1));
        }
        i = i + 1;
    }
    assert(out.deep_view() + Seq::<Seq<char>>::empty() =~= out.deep_view());
    let ghost blobs = out.deep_view();
    let mut k: usize = dirs.len();
    while k > 0
        invariant
            ds == dirs.deep_view(),
            0 <= k <= dirs.len(),
            out.deep_view() + subdir_lines_upto(ds, k as int, dir@, created@) == blobs
                + subdir_lines_upto(ds, ds.len() as int, dir@, created@),
        decreases k,
    {
        let d = &dirs[k - 1];
        assert(ds[k - 1] == d@);
        if child_dir_check(d.as_str(), dir) {
            match created.get(d.as_str()) {
                Some(oid) => {
                    let name = name_of(d.as_str(), dir);
                    let a = cat3("40000 tree ", oid.as_str(), "\t");
                    let line = cat(a.as_str(), name.as_str());
                    let ghost before = out.deep_view();
                    out.push(line);
                    assert(out.deep_view() =~= before.push(
                        subdir_line(created@[d@], name_in(d@, dir@)),
                    ));
                    assert(before + subdir_lines_upto(ds, k as int, dir@, created@)
                        =~= out.deep_view() + subdir_lines_upto(ds, k - 1, dir@, created@));
                },
                None => {
                    assert(subdir_lines_upto(ds, k as int, dir@, created@) =~= subdir_lines_upto(
                        ds,
                        k - 1,
                        dir@,
                        created@,
                    ));
                },
            }
        } else {
            assert(subdir_lines_upto(ds, k as int, dir@, created@) =~= subdir_lines_upto(
                ds,
                k - 1,
                dir@,
                created@,
            ));
        }
        k = k - 1;
    }
    assert(out.deep_view() + Seq::<Seq<char>>::empty() =~= out.deep_view());
    if out.len() == 0 {
        None
    } else {
        let j = str_join(&out, "\n");
        Some(cat(j.as_str(), "\n"))
    }
}

/// The object id that `git mktree` printed: its first output line, trimmed.
pub open spec fn mktree_oid(out: Seq<char>) -> Option<Seq<char>> {
    if lines(out).len() > 0 {
        Some(trim(lines(out)[0]))
    } else {
        None
    }
}

pub fn mktree_output_oid(out: &str) -> (r: Option<String>)
    ensures
        r.deep_view() == mktree_oid(out@),
{
    let ls = str_lines(out);
    if ls.len() == 0 {
        None
    } else {
        assert(ls.deep_view()[0] == ls[0]@);
        Some(str_trim(ls[0].as_str()))
    }
}

} // verus!
