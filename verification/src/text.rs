//! Character-level text handling: whitespace, trimming, line and word
//! splitting, searching and decimal parsing, each specified over the
//! `Seq<char>` view of a string.
use vstd::prelude::*;

verus! {

// ---------------------------------------------------------------------
// Character classes
// ---------------------------------------------------------------------

/// Unicode `White_Space`, the property that `char::is_whitespace` tests.
pub open spec fn is_ws(c: char) -> bool {
    let u = c as u32;
    (9 <= u && u <= 13) || u == 32 || u == 0x85 || u == 0xA0 || u == 0x1680 || (0x2000 <= u
        && u <= 0x200A) || u == 0x2028 || u == 0x2029 || u == 0x202F || u == 0x205F || u == 0x3000
}

pub fn char_is_ws(c: char) -> (b: bool)
    ensures
        b == is_ws(c),
{
    let u = c as u32;
    (9 <= u && u <= 13) || u == 32 || u == 0x85 || u == 0xA0 || u == 0x1680 || (0x2000 <= u
        && u <= 0x200A) || u == 0x2028 || u == 0x2029 || u == 0x202F || u == 0x205F || u == 0x3000
}

/// An ASCII hexadecimal digit.
pub open spec fn is_hex(c: char) -> bool {
    ('0' <= c && c <= '9') || ('a' <= c && c <= 'f') || ('A' <= c && c <= 'F')
}

pub fn char_is_hex(c: char) -> (b: bool)
    ensures
        b == is_hex(c),
{
    ('0' <= c && c <= '9') || ('a' <= c && c <= 'f') || ('A' <= c && c <= 'F')
}

pub proof fn lemma_hex_not_ws(c: char)
    requires
        is_hex(c),
    ensures
        !is_ws(c),
{
}

pub open spec fn is_digit(c: char) -> bool {
    '0' <= c && c <= '9'
}

/// Every character of `s` is a hexadecimal digit.
pub open spec fn all_hex(s: Seq<char>) -> bool {
    forall|i: int| 0 <= i < s.len() ==> is_hex(#[trigger] s[i])
}

pub fn str_all_hex(s: &str) -> (b: bool)
    ensures
        b == all_hex(s@),
{
    let v = chars_of(s);
    let mut i: usize = 0;
    while i < v.len()
        invariant
            v@ == s@,
            0 <= i <= v.len(),
            forall|k: int| 0 <= k < i ==> is_hex(#[trigger] s@[k]),
        decreases v.len() - i,
    {
        if !char_is_hex(v[i]) {
            return false;
        }
        i = i + 1;
    }
    true
}

// ---------------------------------------------------------------------
// Conversions
// ---------------------------------------------------------------------

/// The characters of `s`, in order.
pub fn chars_of(s: &str) -> (v: Vec<char>)
    ensures
        v@ == s@,
{
    let mut v: Vec<char> = Vec::new();
    for c in it: s.chars()
        invariant
            v@ == it.seq().take(it.index() as int),
    {
        v.push(c);
    }
    v
}

/// An owned copy of the characters `lo..hi` of `s`.
pub fn substring(s: &str, lo: usize, hi: usize) -> (r: String)
    requires
        lo <= hi <= s@.len(),
    ensures
        r@ == s@.subrange(lo as int, hi as int),
{
    String::from_str(s.substring_char(lo, hi))
}

/// An owned copy of `s`.
pub fn owned(s: &str) -> (r: String)
    ensures
        r@ == s@,
{
    String::from_str(s)
}

/// The concatenation of `a` and `b`.
pub fn cat(a: &str, b: &str) -> (r: String)
    ensures
        r@ == a@ + b@,
{
    String::from_str(a).concat(b)
}

/// The concatenation of `a`, `b` and `c`.
pub fn cat3(a: &str, b: &str, c: &str) -> (r: String)
    ensures
        r@ == a@ + b@ + c@,
{
    String::from_str(a).concat(b).concat(c)
}

pub fn clone_strings(v: &Vec<String>) -> (r: Vec<String>)
    ensures
        r.deep_view() == v.deep_view(),
{
    let mut r: Vec<String> = Vec::new();
    let mut i: usize = 0;
    while i < v.len()
        invariant
            0 <= i <= v.len(),
            r.len() == i,
            forall|k: int| 0 <= k < i ==> r[k]@ == v[k]@,
        decreases v.len() - i,
    {
        r.push(v[i].clone());
        i = i + 1;
    }
    assert(r.deep_view() =~= v.deep_view());
    r
}

pub fn clone_opt_string(o: &Option<String>) -> (r: Option<String>)
    ensures
        r.deep_view() == o.deep_view(),
{
    match o {
        Some(s) => Some(s.clone()),
        None => None,
    }
}

// ---------------------------------------------------------------------
// Comparison and search
// ---------------------------------------------------------------------

pub fn str_eq(a: &str, b: &str) -> (r: bool)
    ensures
        r == (a@ == b@),
{
    let va = chars_of(a);
    let vb = chars_of(b);
    if va.len() != vb.len() {
        return false;
    }
    let mut i: usize = 0;
    while i < va.len()
        invariant
            va@ == a@,
            vb@ == b@,
            va.len() == vb.len(),
            0 <= i <= va.len(),
            forall|k: int| 0 <= k < i ==> a@[k] == b@[k],
        decreases va.len() - i,
    {
        if va[i] != vb[i] {
            return false;
        }
        i = i + 1;
    }
    assert(a@ =~= b@);
    true
}

/// `p` is a prefix of `s`.
pub open spec fn has_prefix(s: Seq<char>, p: Seq<char>) -> bool {
    p.len() <= s.len() && s.subrange(0, p.len() as int) == p
}

pub fn starts_with(s: &str, p: &str) -> (r: bool)
    ensures
        r == has_prefix(s@, p@),
{
    let vs = chars_of(s);
    let vp = chars_of(p);
    if vp.len() > vs.len() {
        return false;
    }
    let mut i: usize = 0;
    while i < vp.len()
        invariant
            vs@ == s@,
            vp@ == p@,
            vp.len() <= vs.len(),
            0 <= i <= vp.len(),
            forall|k: int| 0 <= k < i ==> s@[k] == p@[k],
        decreases vp.len() - i,
    {
        if vs[i] != vp[i] {
            assert(s@.subrange(0, p@.len() as int)[i as int] != p@[i as int]);
            return false;
        }
        i = i + 1;
    }
    assert(s@.subrange(0, p@.len() as int) =~= p@);
    true
}

/// Index of the first `c` in `s` at or after `i`, or `s.len()`.
pub open spec fn next_idx(s: Seq<char>, i: int, c: char) -> int
    decreases s.len() - i,
{
    if i < 0 || i >= s.len() {
        s.len() as int
    } else if s[i] == c {
        i
    } else {
        next_idx(s, i + 1, c)
    }
}

pub proof fn lemma_next_idx_bounds(s: Seq<char>, i: int, c: char)
    requires
        0 <= i,
    ensures
        next_idx(s, i, c) <= s.len(),
        i <= s.len() ==> i <= next_idx(s, i, c),
        next_idx(s, i, c) < s.len() ==> s[next_idx(s, i, c)] == c,
        forall|k: int| i <= k < next_idx(s, i, c) ==> s[k] != c,
    decreases s.len() - i,
{
    if i < s.len() && s[i] != c {
        lemma_next_idx_bounds(s, i + 1, c);
    }
}

/// Scans `v` from `i` for `c`; the index found, or `v.len()`.
pub fn scan_for(v: &Vec<char>, i: usize, c: char) -> (j: usize)
    requires
        i <= v.len(),
    ensures
        j == next_idx(v@, i as int, c),
        i <= j <= v.len(),
{
    proof {
        lemma_next_idx_bounds(v@, i as int, c);
    }
    let mut j = i;
    while j < v.len() && v[j] != c
        invariant
            i <= j <= v.len(),
            next_idx(v@, i as int, c) == next_idx(v@, j as int, c),
        decreases v.len() - j,
    {
        j = j + 1;
    }
    j
}

/// `s` contains the character `c`.
pub open spec fn has_char(s: Seq<char>, c: char) -> bool {
    exists|i: int| 0 <= i < s.len() && s[i] == c
}

/// Position of the first `c` in `s`, as `str::find` with a char pattern.
pub open spec fn find_char(s: Seq<char>, c: char) -> Option<int> {
    if next_idx(s, 0, c) < s.len() {
        Some(next_idx(s, 0, c))
    } else {
        None
    }
}

pub fn str_find_char(s: &str, c: char) -> (r: Option<usize>)
    ensures
        r matches Some(i) ==> find_char(s@, c) == Some(i as int),
        r is None ==> find_char(s@, c) is None,
        r is Some <==> has_char(s@, c),
{
    let v = chars_of(s);
    let j = scan_for(&v, 0, c);
    proof {
        lemma_next_idx_bounds(s@, 0, c);
    }
    if j < v.len() {
        Some(j)
    } else {
        assert(!has_char(s@, c));
        None
    }
}

pub fn str_contains_char(s: &str, c: char) -> (r: bool)
    ensures
        r == has_char(s@, c),
{
    str_find_char(s, c).is_some()
}

pub fn str_ends_with_char(s: &str, c: char) -> (r: bool)
    ensures
        r == (s@.len() > 0 && s@.last() == c),
{
    let v = chars_of(s);
    v.len() > 0 && v[v.len() - 1] == c
}

/// Position of the last `c` among the first `j` characters, or -1.
pub open spec fn rfind_from(s: Seq<char>, j: int, c: char) -> int
    decreases j,
{
    if j <= 0 || j > s.len() {
        -1
    } else if s[j - 1] == c {
        j - 1
    } else {
        rfind_from(s, j - 1, c)
    }
}

pub proof fn lemma_rfind_bounds(s: Seq<char>, j: int, c: char)
    requires
        0 <= j <= s.len(),
    ensures
        -1 <= rfind_from(s, j, c) < j,
        rfind_from(s, j, c) >= 0 ==> s[rfind_from(s, j, c)] == c,
        forall|k: int| rfind_from(s, j, c) < k < j ==> s[k] != c,
    decreases j,
{
    if j > 0 && s[j - 1] != c {
        lemma_rfind_bounds(s, j - 1, c);
    }
}

/// Position of the last `c` in `s`, as `str::rfind` with a char pattern.
pub fn str_rfind_char(s: &str, c: char) -> (r: Option<usize>)
    ensures
        r matches Some(i) ==> rfind_from(s@, s@.len() as int, c) == i,
        r is None ==> rfind_from(s@, s@.len() as int, c) == -1,
{
    let v = chars_of(s);
    let mut j = v.len();
    while j > 0 && v[j - 1] != c
        invariant
            v@ == s@,
            0 <= j <= v.len(),
            rfind_from(s@, s@.len() as int, c) == rfind_from(s@, j as int, c),
        decreases j,
    {
        j = j - 1;
    }
    if j == 0 {
        None
    } else {
        Some(j - 1)
    }
}

// ---------------------------------------------------------------------
// Trimming
// ---------------------------------------------------------------------

/// Index of the first non-whitespace character at or after `i`, or `s.len()`.
pub open spec fn lead_end(s: Seq<char>, i: int) -> int
    decreases s.len() - i,
{
    if i < 0 || i >= s.len() {
        s.len() as int
    } else if is_ws(s[i]) {
        lead_end(s, i + 1)
    } else {
        i
    }
}

/// End of the prefix of the first `j` characters with trailing whitespace removed.
pub open spec fn trail_end(s: Seq<char>, j: int) -> int
    decreases j,
{
    if j <= 0 || j > s.len() {
        0
    } else if is_ws(s[j - 1]) {
        trail_end(s, j - 1)
    } else {
        j
    }
}

pub proof fn lemma_lead_end(s: Seq<char>, i: int)
    requires
        0 <= i <= s.len(),
    ensures
        i <= lead_end(s, i) <= s.len(),
    decreases s.len() - i,
{
    if i < s.len() && is_ws(s[i]) {
        lemma_lead_end(s, i + 1);
    }
}

pub proof fn lemma_trail_end(s: Seq<char>, j: int)
    requires
        0 <= j <= s.len(),
    ensures
        0 <= trail_end(s, j) <= j,
    decreases j,
{
    if j > 0 && is_ws(s[j - 1]) {
        lemma_trail_end(s, j - 1);
    }
}

/// `s` with leading and trailing whitespace removed, as `str::trim`.
pub open spec fn trim(s: Seq<char>) -> Seq<char> {
    let a = lead_end(s, 0);
    let b = trail_end(s, s.len() as int);
    if a < b {
        s.subrange(a, b)
    } else {
        Seq::empty()
    }
}

/// Trimming leaves a string alone whose ends are not whitespace.
pub proof fn lemma_trim_unchanged(s: Seq<char>)
    requires
        s.len() > 0,
        !is_ws(s[0]),
        !is_ws(s.last()),
    ensures
        trim(s) == s,
{
    assert(lead_end(s, 0) == 0);
    assert(trail_end(s, s.len() as int) == s.len());
    assert(s.subrange(0, s.len() as int) =~= s);
}

/// Trailing whitespace trimming stops after a non-whitespace character.
pub proof fn lemma_trail_end_past(s: Seq<char>, j: int, k: int)
    requires
        0 <= k < j <= s.len(),
        !is_ws(s[k]),
    ensures
        k < trail_end(s, j) <= j,
    decreases j,
{
    if is_ws(s[j - 1]) {
        lemma_trail_end_past(s, j - 1, k);
    }
}

proof fn lemma_lead_end_ws_last(x: Seq<char>, i: int)
    requires
        x.len() > 0,
        is_ws(x.last()),
        0 <= i <= x.len() - 1,
    ensures
        lead_end(x, i) == (if lead_end(x.drop_last(), i) < x.len() - 1 {
            lead_end(x.drop_last(), i)
        } else {
            x.len() as int
        }),
    decreases x.len() - i,
{
    let y = x.drop_last();
    if i < y.len() {
        assert(x[i] == y[i]);
        if is_ws(x[i]) {
            lemma_lead_end_ws_last(x, i + 1);
        }
    } else {
        assert(x[i] == x.last());
        assert(lead_end(x, i + 1) == x.len());
        assert(lead_end(y, i) == y.len());
    }
}

proof fn lemma_trail_end_prefix(x: Seq<char>, j: int)
    requires
        x.len() > 0,
        0 <= j <= x.len() - 1,
    ensures
        trail_end(x, j) == trail_end(x.drop_last(), j),
    decreases j,
{
    if j > 0 {
        assert(x[j - 1] == x.drop_last()[j - 1]);
        lemma_trail_end_prefix(x, j - 1);
    }
}

proof fn lemma_trail_end_all_ws(x: Seq<char>, j: int)
    requires
        0 <= j <= x.len(),
        lead_end(x, 0) >= j,
    ensures
        trail_end(x, j) == 0,
    decreases j,
{
    if j > 0 {
        lemma_lead_end_skips(x, 0, j - 1);
        lemma_trail_end_all_ws(x, j - 1);
    }
}

proof fn lemma_lead_end_skips(x: Seq<char>, i: int, k: int)
    requires
        0 <= i <= k < x.len(),
        lead_end(x, i) > k,
    ensures
        is_ws(x[k]),
    decreases k - i,
{
    if i < k {
        if is_ws(x[i]) {
            lemma_lead_end_skips(x, i + 1, k);
        }
    }
}

/// Dropping a trailing `\r` does not change what trimming gives.
pub proof fn lemma_trim_strip_cr(x: Seq<char>)
    ensures
        trim(strip_cr(x)) == trim(x),
{
    if x.len() > 0 && x.last() == '\r' {
        let y = x.drop_last();
        assert(is_ws(x.last()));
        lemma_lead_end_ws_last(x, 0);
        lemma_trail_end_prefix(x, y.len() as int);
        assert(trail_end(x, x.len() as int) == trail_end(x, y.len() as int));
        lemma_lead_end(y, 0);
        lemma_trail_end(y, y.len() as int);
        if lead_end(y, 0) < y.len() {
            let a = lead_end(y, 0);
            let b = trail_end(y, y.len() as int);
            if a < b {
                assert(x.subrange(a, b) =~= y.subrange(a, b));
            }
        } else {
            lemma_trail_end_all_ws(y, y.len() as int);
            lemma_lead_end(x, 0);
        }
    }
}

pub fn str_trim(s: &str) -> (r: String)
    ensures
        r@ == trim(s@),
{
    let v = chars_of(s);
    let mut a: usize = 0;
    while a < v.len() && char_is_ws(v[a])
        invariant
            v@ == s@,
            0 <= a <= v.len(),
            lead_end(s@, 0) == lead_end(s@, a as int),
        decreases v.len() - a,
    {
        a = a + 1;
    }
    let mut b: usize = v.len();
    while b > 0 && char_is_ws(v[b - 1])
        invariant
            v@ == s@,
            0 <= b <= v.len(),
            trail_end(s@, s@.len() as int) == trail_end(s@, b as int),
        decreases b,
    {
        b = b - 1;
    }
    if a < b {
        substring(s, a, b)
    } else {
        String::new()
    }
}

// ---------------------------------------------------------------------
// Lines, words and fields
// ---------------------------------------------------------------------

/// The lines of `s` from position `i`, as `str::lines`: split after each
/// `\n`, drop the `\n` and a `\r` right before it, no line after a final `\n`.
pub open spec fn lines_from(s: Seq<char>, i: int) -> Seq<Seq<char>>
    decreases s.len() + 1 - i,
{
    if i < 0 || i >= s.len() {
        Seq::empty()
    } else {
        let j = next_idx(s, i, '\n');
        let e = if j < s.len() && j > i && s[j - 1] == '\r' {
            j - 1
        } else {
            j
        };
        if j + 1 > i && j <= s.len() {
            seq![s.subrange(i, e)] + lines_from(s, j + 1)
        } else {
            Seq::empty()
        }
    }
}

pub open spec fn lines(s: Seq<char>) -> Seq<Seq<char>> {
    lines_from(s, 0)
}

/// A line as `str::lines` yields it: without a trailing `\r`.
pub open spec fn strip_cr(a: Seq<char>) -> Seq<char> {
    if a.len() > 0 && a.last() == '\r' {
        a.drop_last()
    } else {
        a
    }
}

pub proof fn lemma_next_idx_shift(p: Seq<char>, q: Seq<char>, i: int, c: char)
    requires
        0 <= i,
    ensures
        next_idx(p + q, p.len() + i, c) == p.len() + next_idx(q, i, c),
    decreases q.len() - i,
{
    if i < q.len() {
        assert((p + q)[p.len() + i] == q[i]);
        if q[i] != c {
            lemma_next_idx_shift(p, q, i + 1, c);
        }
    }
}

/// The first `c` at or after `i` is at `n`.
pub proof fn lemma_next_idx_at(s: Seq<char>, i: int, n: int, c: char)
    requires
        0 <= i <= n < s.len(),
        s[n] == c,
        forall|k: int| i <= k < n ==> s[k] != c,
    ensures
        next_idx(s, i, c) == n,
    decreases n - i,
{
    if i < n {
        lemma_next_idx_at(s, i + 1, n, c);
    }
}

/// There is no `c` at or after `i`.
pub proof fn lemma_next_idx_none(s: Seq<char>, i: int, c: char)
    requires
        0 <= i,
        forall|k: int| i <= k < s.len() ==> s[k] != c,
    ensures
        next_idx(s, i, c) == s.len(),
    decreases s.len() - i,
{
    if i < s.len() {
        lemma_next_idx_none(s, i + 1, c);
    }
}

/// The lines after a prefix do not depend on the prefix.
pub proof fn lemma_lines_shift(p: Seq<char>, q: Seq<char>, i: int)
    requires
        0 <= i,
    ensures
        lines_from(p + q, p.len() + i) == lines_from(q, i),
    decreases q.len() + 1 - i,
{
    let s = p + q;
    if i < q.len() {
        lemma_next_idx_shift(p, q, i, '\n');
        lemma_next_idx_bounds(q, i, '\n');
        let jq = next_idx(q, i, '\n');
        let js = next_idx(s, p.len() + i, '\n');
        assert(js == p.len() + jq);
        if jq > i {
            assert(s[js - 1] == q[jq - 1]);
        }
        let eq = if jq < q.len() && jq > i && q[jq - 1] == '\r' {
            jq - 1
        } else {
            jq
        };
        assert(s.subrange(p.len() + i, p.len() + eq) =~= q.subrange(i, eq));
        lemma_lines_shift(p, q, jq + 1);
        assert(s.subrange(p.len() + i, p.len() + eq) == q.subrange(i, eq));
    }
}

/// Lines of a first line `a`, a newline, and the rest `b`.
pub proof fn lemma_lines_cons(a: Seq<char>, b: Seq<char>)
    requires
        !has_char(a, '\n'),
    ensures
        lines(a + seq!['\n'] + b) == seq![strip_cr(a)] + lines(b),
{
    let s = a + seq!['\n'] + b;
    assert(s[a.len() as int] == '\n');
    assert forall|k: int| 0 <= k < a.len() implies s[k] != '\n' by {
        assert(s[k] == a[k]);
        if a[k] == '\n' {
            assert(has_char(a, '\n'));
        }
    }
    lemma_next_idx_at(s, 0, a.len() as int, '\n');
    let p = a + seq!['\n'];
    assert(s =~= p + b);
    lemma_lines_shift(p, b, 0);
    assert(lines_from(s, a.len() as int + 1) == lines(b));
    if a.len() > 0 {
        assert(s[a.len() - 1] == a.last());
    }
    let e = if a.len() > 0 && a.last() == '\r' {
        a.len() - 1
    } else {
        a.len() as int
    };
    assert(s.subrange(0, e) =~= strip_cr(a));
}

/// Lines of `x` then `y`, where `x` ends a line (or is empty).
pub proof fn lemma_lines_append(x: Seq<char>, y: Seq<char>, i: int)
    requires
        0 <= i <= x.len(),
        x.len() == 0 || x.last() == '\n',
    ensures
        lines_from(x + y, i) == lines_from(x, i) + lines(y),
    decreases x.len() - i,
{
    let s = x + y;
    if i == x.len() {
        lemma_lines_shift(x, y, 0);
        assert(lines_from(x, i) =~= Seq::<Seq<char>>::empty());
        assert(lines_from(x, i) + lines(y) =~= lines(y));
    } else {
        lemma_next_idx_bounds(x, i, '\n');
        let jx = next_idx(x, i, '\n');
        assert(x[x.len() - 1] == '\n');
        assert(jx < x.len());
        assert forall|k: int| i <= k < jx implies s[k] != '\n' by {
            assert(s[k] == x[k]);
        }
        assert(s[jx] == x[jx]);
        lemma_next_idx_at(s, i, jx, '\n');
        if jx > i {
            assert(s[jx - 1] == x[jx - 1]);
        }
        let e = if jx > i && x[jx - 1] == '\r' {
            jx - 1
        } else {
            jx
        };
        assert(s.subrange(i, e) =~= x.subrange(i, e));
        lemma_lines_append(x, y, jx + 1);
        assert(lines_from(s, i) =~= lines_from(x, i) + lines(y));
    }
}

/// The last line of `a`, a newline, and a final line `b` without newline is `b`.
pub proof fn lemma_lines_last(a: Seq<char>, b: Seq<char>, i: int)
    requires
        0 <= i <= a.len(),
        !has_char(b, '\n'),
        b.len() > 0,
    ensures
        lines_from(a + seq!['\n'] + b, i).len() > 0,
        lines_from(a + seq!['\n'] + b, i).last() == b,
    decreases a.len() - i,
{
    let s = a + seq!['\n'] + b;
    let p = a + seq!['\n'];
    assert(s =~= p + b);
    assert(s[a.len() as int] == '\n');
    lemma_next_idx_bounds(s, i, '\n');
    let j = next_idx(s, i, '\n');
    assert(j <= a.len());
    if j == a.len() {
        lemma_lines_shift(p, b, 0);
        assert forall|k: int| 0 <= k < b.len() implies b[k] != '\n' by {
            if b[k] == '\n' {
                assert(has_char(b, '\n'));
            }
        }
        lemma_next_idx_none(b, 0, '\n');
        assert(b.subrange(0, b.len() as int) =~= b);
        assert(lines_from(b, b.len() as int + 1) =~= Seq::<Seq<char>>::empty());
        assert(lines(b) =~= seq![b]);
    } else {
        lemma_lines_last(a, b, j + 1);
    }
}

/// No line holds a newline.
pub proof fn lemma_lines_no_newline(s: Seq<char>, i: int)
    requires
        0 <= i,
    ensures
        forall|k: int| 0 <= k < lines_from(s, i).len() ==> !has_char(#[trigger] lines_from(s, i)[k], '\n'),
    decreases s.len() + 1 - i,
{
    if i < s.len() {
        lemma_next_idx_bounds(s, i, '\n');
        let j = next_idx(s, i, '\n');
        let e = if j < s.len() && j > i && s[j - 1] == '\r' {
            j - 1
        } else {
            j
        };
        let line = s.subrange(i, e);
        assert(!has_char(line, '\n')) by {
            if has_char(line, '\n') {
                let k = choose|k: int| 0 <= k < line.len() && line[k] == '\n';
                assert(s[i + k] == '\n');
            }
        }
        lemma_lines_no_newline(s, j + 1);
        let r = lines_from(s, i);
        assert forall|k: int| 0 <= k < r.len() implies !has_char(#[trigger] r[k], '\n') by {
            if k > 0 {
                assert(r[k] == lines_from(s, j + 1)[k - 1]);
            }
        }
    }
}

/// Joining lines without newlines with `\n` and ending with `\n` gives the
/// lines back (less a trailing `\r` each).
pub proof fn lemma_lines_of_joined(ls: Seq<Seq<char>>)
    requires
        ls.len() > 0,
        forall|k: int| 0 <= k < ls.len() ==> !has_char(#[trigger] ls[k], '\n'),
    ensures
        lines(join(ls, "\n"@) + "\n"@) == ls.map_values(|x: Seq<char>| strip_cr(x)),
    decreases ls.len(),
{
    reveal_strlit("\n");
    let last = ls.last();
    assert(!has_char(last, '\n'));
    lemma_lines_cons(last, Seq::<char>::empty());
    assert(last + seq!['\n'] =~= last + seq!['\n'] + Seq::<char>::empty());
    assert(lines(Seq::<char>::empty()) =~= Seq::<Seq<char>>::empty());
    assert(lines(last + seq!['\n']) =~= seq![strip_cr(last)]);
    if ls.len() == 1 {
        assert(join(ls, "\n"@) + "\n"@ =~= last + seq!['\n']);
        assert(ls.map_values(|x: Seq<char>| strip_cr(x)) =~= seq![strip_cr(last)]);
    } else {
        let front = ls.drop_last();
        assert forall|k: int| 0 <= k < front.len() implies !has_char(#[trigger] front[k], '\n') by {
            assert(front[k] == ls[k]);
        }
        lemma_lines_of_joined(front);
        let x = join(front, "\n"@) + "\n"@;
        assert(x.last() == '\n');
        lemma_lines_append(x, last + seq!['\n'], 0);
        assert(join(ls, "\n"@) + "\n"@ =~= x + (last + seq!['\n']));
        assert(ls.map_values(|x: Seq<char>| strip_cr(x)) =~= front.map_values(
            |x: Seq<char>| strip_cr(x),
        ) + seq![strip_cr(last)]);
    }
}

pub fn str_lines(s: &str) -> (r: Vec<String>)
    ensures
        r.deep_view() == lines(s@),
{
    let v = chars_of(s);
    let mut r: Vec<String> = Vec::new();
    let mut i: usize = 0;
    assert(r.deep_view() =~= Seq::<Seq<char>>::empty());
    while i < v.len()
        invariant
            v@ == s@,
            0 <= i <= v.len(),
            r.deep_view() + lines_from(s@, i as int) == lines(s@),
        decreases v.len() - i,
    {
        let j = scan_for(&v, i, '\n');
        let e = if j < v.len() && j > i && v[j - 1] == '\r' {
            j - 1
        } else {
            j
        };
        let line = substring(s, i, e);
        let ghost old_r = r.deep_view();
        r.push(line);
        assert(r.deep_view() =~= old_r.push(line@));
        assert(lines_from(s@, i as int) == seq![s@.subrange(i as int, e as int)] + lines_from(
            s@,
            j + 1,
        ));
        assert(old_r + lines_from(s@, i as int) =~= r.deep_view() + lines_from(s@, j + 1));
        if j >= v.len() {
            assert(lines_from(s@, j + 1) =~= Seq::<Seq<char>>::empty());
            assert(r.deep_view() + Seq::<Seq<char>>::empty() =~= r.deep_view());
            return r;
        }
        i = j + 1;
    }
    assert(lines_from(s@, i as int) =~= Seq::<Seq<char>>::empty());
    assert(r.deep_view() + Seq::<Seq<char>>::empty() =~= r.deep_view());
    r
}

/// Index of the first whitespace character at or after `i`, or `s.len()`.
pub open spec fn word_end(s: Seq<char>, i: int) -> int
    decreases s.len() - i,
{
    if i < 0 || i >= s.len() {
        s.len() as int
    } else if is_ws(s[i]) {
        i
    } else {
        word_end(s, i + 1)
    }
}

proof fn lemma_word_end(s: Seq<char>, i: int)
    requires
        0 <= i <= s.len(),
    ensures
        i <= word_end(s, i) <= s.len(),
    decreases s.len() - i,
{
    if i < s.len() && !is_ws(s[i]) {
        lemma_word_end(s, i + 1);
    }
}

/// The maximal runs of non-whitespace characters of `s` from position `i`,
/// as `str::split_whitespace`.
pub open spec fn words_from(s: Seq<char>, i: int) -> Seq<Seq<char>>
    decreases s.len() - i,
{
    if i < 0 || i >= s.len() {
        Seq::empty()
    } else if is_ws(s[i]) {
        words_from(s, i + 1)
    } else {
        let j = word_end(s, i);
        if j > i && j <= s.len() {
            seq![s.subrange(i, j)] + words_from(s, j)
        } else {
            Seq::empty()
        }
    }
}

pub open spec fn words(s: Seq<char>) -> Seq<Seq<char>> {
    words_from(s, 0)
}

pub fn str_words(s: &str) -> (r: Vec<String>)
    ensures
        r.deep_view() == words(s@),
{
    let v = chars_of(s);
    let mut r: Vec<String> = Vec::new();
    let mut i: usize = 0;
    assert(r.deep_view() =~= Seq::<Seq<char>>::empty());
    while i < v.len()
        invariant
            v@ == s@,
            0 <= i <= v.len(),
            r.deep_view() + words_from(s@, i as int) == words(s@),
        decreases v.len() - i,
    {
        if char_is_ws(v[i]) {
            i = i + 1;
        } else {
            let mut j = i;
            while j < v.len() && !char_is_ws(v[j])
                invariant
                    v@ == s@,
                    i <= j <= v.len(),
                    word_end(s@, i as int) == word_end(s@, j as int),
                decreases v.len() - j,
            {
                j = j + 1;
            }
            let w = substring(s, i, j);
            let ghost old_r = r.deep_view();
            r.push(w);
            assert(r.deep_view() =~= old_r.push(w@));
            assert(old_r + words_from(s@, i as int) =~= r.deep_view() + words_from(s@, j as int));
            i = j;
        }
    }
    assert(r.deep_view() + Seq::<Seq<char>>::empty() =~= r.deep_view());
    r
}

/// The fields of `s` from position `i` separated by `c`, as `str::split`
/// with a char pattern (always at least one field).
pub open spec fn fields_from(s: Seq<char>, i: int, c: char) -> Seq<Seq<char>>
    decreases s.len() + 1 - i,
{
    if i < 0 || i > s.len() {
        Seq::empty()
    } else {
        let j = next_idx(s, i, c);
        if j >= s.len() {
            seq![s.subrange(i, s.len() as int)]
        } else if j >= i {
            seq![s.subrange(i, j)] + fields_from(s, j + 1, c)
        } else {
            Seq::empty()
        }
    }
}

pub open spec fn fields(s: Seq<char>, c: char) -> Seq<Seq<char>> {
    fields_from(s, 0, c)
}

/// Splitting `a`, `c`, `b` at `c` gives `a` and `b` when neither holds `c`.
pub proof fn lemma_fields_two(a: Seq<char>, b: Seq<char>, c: char)
    requires
        !has_char(a, c),
        !has_char(b, c),
    ensures
        fields(a + seq![c] + b, c) == seq![a, b],
{
    let s = a + seq![c] + b;
    assert forall|k: int| 0 <= k < a.len() implies s[k] != c by {
        assert(s[k] == a[k]);
        if a[k] == c {
            assert(has_char(a, c));
        }
    }
    assert(s[a.len() as int] == c);
    lemma_next_idx_at(s, 0, a.len() as int, c);
    assert forall|k: int| a.len() + 1 <= k < s.len() implies s[k] != c by {
        assert(s[k] == b[k - a.len() - 1]);
        if b[k - a.len() - 1] == c {
            assert(has_char(b, c));
        }
    }
    lemma_next_idx_none(s, a.len() as int + 1, c);
    assert(s.subrange(0, a.len() as int) =~= a);
    assert(s.subrange(a.len() as int + 1, s.len() as int) =~= b);
    assert(fields_from(s, a.len() as int + 1, c) =~= seq![b]);
    assert(fields(s, c) =~= seq![a, b]);
}

/// The first field of `s` ends at its first `c`, at `n`.
pub proof fn lemma_fields_first(s: Seq<char>, n: int, c: char)
    requires
        0 <= n < s.len(),
        s[n] == c,
        forall|k: int| 0 <= k < n ==> s[k] != c,
    ensures
        fields(s, c).len() > 0,
        fields(s, c)[0] == s.subrange(0, n),
{
    lemma_next_idx_at(s, 0, n, c);
}

pub fn str_split_char(s: &str, c: char) -> (r: Vec<String>)
    ensures
        r.deep_view() == fields(s@, c),
        r.len() >= 1,
{
    let v = chars_of(s);
    let mut r: Vec<String> = Vec::new();
    let mut i: usize = 0;
    assert(r.deep_view() =~= Seq::<Seq<char>>::empty());
    loop
        invariant
            v@ == s@,
            0 <= i <= v.len(),
            r.deep_view() + fields_from(s@, i as int, c) == fields(s@, c),
        decreases v.len() - i,
    {
        let j = scan_for(&v, i, c);
        let ghost old_r = r.deep_view();
        if j >= v.len() {
            let w = substring(s, i, v.len());
            r.push(w);
            assert(r.deep_view() =~= old_r.push(w@));
            assert(old_r + fields_from(s@, i as int, c) =~= r.deep_view());
            return r;
        }
        let w = substring(s, i, j);
        r.push(w);
        assert(r.deep_view() =~= old_r.push(w@));
        assert(old_r + fields_from(s@, i as int, c) =~= r.deep_view() + fields_from(
            s@,
            j + 1,
            c,
        ));
        i = j + 1;
    }
}

/// `parts` joined with `sep` between consecutive parts, as `[String]::join`.
pub open spec fn join(parts: Seq<Seq<char>>, sep: Seq<char>) -> Seq<char>
    decreases parts.len(),
{
    if parts.len() == 0 {
        Seq::empty()
    } else if parts.len() == 1 {
        parts[0]
    } else {
        join(parts.drop_last(), sep) + sep + parts.last()
    }
}

pub fn str_join(parts: &Vec<String>, sep: &str) -> (r: String)
    ensures
        r@ == join(parts.deep_view(), sep@),
{
    let mut r = String::new();
    let mut i: usize = 0;
    assert(parts.deep_view().take(0) =~= Seq::<Seq<char>>::empty());
    while i < parts.len()
        invariant
            0 <= i <= parts.len(),
            r@ == join(parts.deep_view().take(i as int), sep@),
        decreases parts.len() - i,
    {
        let ghost pre = parts.deep_view().take(i as int);
        let ghost nxt = parts.deep_view().take(i + 1);
        assert(nxt.drop_last() =~= pre);
        assert(nxt.last() == parts[i as int]@);
        if i == 0 {
            r = owned(parts[i].as_str());
            assert(nxt =~= seq![parts[0]@]);
        } else {
            r = cat3(r.as_str(), sep, parts[i].as_str());
        }
        i = i + 1;
    }
    assert(parts.deep_view().take(parts.len() as int) =~= parts.deep_view());
    r
}

// ---------------------------------------------------------------------
// Decimal numbers
// ---------------------------------------------------------------------

pub open spec fn digit_value(c: char) -> nat {
    ((c as u32) - ('0' as u32)) as nat
}

/// The value of a string of decimal digits.
pub open spec fn digits_value(s: Seq<char>) -> nat
    decreases s.len(),
{
    if s.len() == 0 {
        0
    } else {
        digits_value(s.drop_last()) * 10 + digit_value(s.last())
    }
}

/// The number that the integer `FromStr` impls read from `s`: an optional
/// `+`, then one or more decimal digits; `None` for anything else.
pub open spec fn decimal_body(s: Seq<char>) -> Seq<char> {
    if s.len() > 0 && s[0] == '+' {
        s.drop_first()
    } else {
        s
    }
}

pub open spec fn parse_decimal(s: Seq<char>) -> Option<nat> {
    let body = decimal_body(s);
    if body.len() > 0 && (forall|i: int| 0 <= i < body.len() ==> is_digit(#[trigger] body[i])) {
        Some(digits_value(body))
    } else {
        None
    }
}

proof fn lemma_digits_prefix_le(s: Seq<char>, k: int)
    requires
        0 <= k <= s.len(),
    ensures
        digits_value(s.take(k)) <= digits_value(s),
    decreases s.len() - k,
{
    if k < s.len() {
        lemma_digits_prefix_le(s, k + 1);
        assert(s.take(k + 1).drop_last() =~= s.take(k));
    } else {
        assert(s.take(k) =~= s);
    }
}

/// Parses `s` as `str::parse::<u64>` does.
pub fn parse_u64(s: &str) -> (r: Option<u64>)
    ensures
        r matches Some(n) ==> parse_decimal(s@) == Some(n as nat),
        r is None ==> (parse_decimal(s@) is None || parse_decimal(s@).unwrap() > u64::MAX),
{
    let v = chars_of(s);
    let start: usize = if v.len() > 0 && v[0] == '+' {
        1
    } else {
        0
    };
    let ghost body = decimal_body(s@);
    assert(body =~= s@.subrange(start as int, s@.len() as int));
    if start >= v.len() {
        return None;
    }
    let mut acc: u64 = 0;
    let mut i: usize = start;
    assert(body.take(0) =~= Seq::<char>::empty());
    while i < v.len()
        invariant
            v@ == s@,
            start <= i <= v.len(),
            body == s@.subrange(start as int, s@.len() as int),
            body == decimal_body(s@),
            acc == digits_value(body.take(i - start)),
            forall|k: int| 0 <= k < i - start ==> is_digit(#[trigger] body[k]),
        decreases v.len() - i,
    {
        let c = v[i];
        if !('0' <= c && c <= '9') {
            assert(!is_digit(body[i - start]));
            assert(!(forall|j: int| 0 <= j < body.len() ==> is_digit(#[trigger] body[j])));
            assert(parse_decimal(s@) is None);
            return None;
        }
        let d = (c as u32 - '0' as u32) as u64;
        let ghost k = i - start;
        assert(body.take(k + 1).drop_last() =~= body.take(k));
        assert(body.take(k + 1).last() == c);
        let m = acc.checked_mul(10);
        if m.is_none() {
            proof {
                lemma_digits_prefix_le(body, k + 1);
                assert(digits_value(body.take(k + 1)) == acc * 10 + d);
                assert(acc * 10 + d > u64::MAX);
                if parse_decimal(s@) is Some {
                    assert(parse_decimal(s@).unwrap() == digits_value(body));
                }
            }
            return None;
        }
        let t = m.unwrap().checked_add(d);
        if t.is_none() {
            proof {
                lemma_digits_prefix_le(body, k + 1);
                assert(digits_value(body.take(k + 1)) == acc * 10 + d);
                assert(acc * 10 + d > u64::MAX);
                if parse_decimal(s@) is Some {
                    assert(parse_decimal(s@).unwrap() == digits_value(body));
                }
            }
            return None;
        }
        acc = t.unwrap();
        i = i + 1;
    }
    assert(body.take(body.len() as int) =~= body);
    Some(acc)
}

/// Parses `s` as `str::parse::<u8>` does.
pub fn parse_u8(s: &str) -> (r: Option<u8>)
    ensures
        r matches Some(n) ==> parse_decimal(s@) == Some(n as nat),
        r is None ==> (parse_decimal(s@) is None || parse_decimal(s@).unwrap() > u8::MAX),
{
    match parse_u64(s) {
        Some(n) => if n <= 255 {
            Some(n as u8)
        } else {
            None
        },
        None => None,
    }
}

/// Parses `s` as `str::parse::<usize>` does.
pub fn parse_usize(s: &str) -> (r: Option<usize>)
    ensures
        r matches Some(n) ==> parse_decimal(s@) == Some(n as nat),
        r is None ==> (parse_decimal(s@) is None || parse_decimal(s@).unwrap() > usize::MAX),
{
    match parse_u64(s) {
        Some(n) => if n as u128 <= usize::MAX as u128 {
            Some(n as usize)
        } else {
            None
        },
        None => None,
    }
}


/// `t` occurs in `s` as a contiguous run.
pub open spec fn has_substring(s: Seq<char>, t: Seq<char>) -> bool {
    exists|i: int| 0 <= i && i + t.len() <= s.len() && #[trigger] s.subrange(i, i + t.len()) == t
}

pub fn str_contains(s: &str, t: &str) -> (r: bool)
    ensures
        r == has_substring(s@, t@),
{
    let vs = chars_of(s);
    let vt = chars_of(t);
    if vt.len() > vs.len() {
        return false;
    }
    let mut i: usize = 0;
    while i <= vs.len() - vt.len()
        invariant
            vs@ == s@,
            vt@ == t@,
            vt.len() <= vs.len(),
            0 <= i <= vs.len() - vt.len() + 1,
            forall|k: int| 0 <= k < i ==> #[trigger] s@.subrange(k, k + t@.len()) != t@,
        decreases vs.len() - i,
    {
        let mut j: usize = 0;
        while j < vt.len() && vs[i + j] == vt[j]
            invariant
                vs@ == s@,
                vt@ == t@,
                i + vt.len() <= vs.len(),
                0 <= j <= vt.len(),
                forall|k: int| 0 <= k < j ==> s@[i + k] == t@[k],
            decreases vt.len() - j,
        {
            j = j + 1;
        }
        if j == vt.len() {
            assert(s@.subrange(i as int, i + t@.len()) =~= t@);
            return true;
        }
        assert(s@.subrange(i as int, i + t@.len())[j as int] != t@[j as int]);
        i = i + 1;
    }
    false
}

/// Unicode lower-case mapping of a whole string, as `str::to_lowercase`.
pub uninterp spec fn lowercase(s: Seq<char>) -> Seq<char>;

/// Calls `str::to_lowercase`; the result is named `lowercase` of the input.
#[verifier::external_body]
pub(crate) fn str_to_lowercase(s: &str) -> (r: String)
    ensures
        r@ == lowercase(s@),
{
    s.to_lowercase()
}


/// `a`, a `/`, then `b`.
pub fn join_slash(a: &str, b: &str) -> (r: String)
    ensures
        r@ == a@ + seq!['/'] + b@,
{
    proof {
        reveal_strlit("/");
        assert("/"@ =~= seq!['/']);
    }
    cat3(a, "/", b)
}

/// `a` followed by a `/`.
pub fn with_slash(a: &str) -> (r: String)
    ensures
        r@ == a@.push('/'),
{
    proof {
        reveal_strlit("/");
        assert(a@ + "/"@ =~= a@.push('/'));
    }
    cat(a, "/")
}

/// The number of bytes of `c` in UTF-8.
pub open spec fn utf8_len(c: char) -> nat {
    let u = c as u32;
    if u < 0x80 {
        1
    } else if u < 0x800 {
        2
    } else if u < 0x10000 {
        3
    } else {
        4
    }
}

pub fn char_utf8_len(c: char) -> (n: usize)
    ensures
        n == utf8_len(c),
{
    let u = c as u32;
    if u < 0x80 {
        1
    } else if u < 0x800 {
        2
    } else if u < 0x10000 {
        3
    } else {
        4
    }
}

/// The number of bytes of `s` in UTF-8, as `str::len`.
pub open spec fn utf8_bytes(s: Seq<char>) -> nat
    decreases s.len(),
{
    if s.len() == 0 {
        0
    } else {
        utf8_bytes(s.drop_last()) + utf8_len(s.last())
    }
}

pub fn str_byte_len(s: &str) -> (n: u128)
    ensures
        n == utf8_bytes(s@),
        n <= 4 * s@.len(),
        s@.len() <= usize::MAX,
{
    let v = chars_of(s);
    let mut n: u128 = 0;
    let mut i: usize = 0;
    assert(s@.take(0) =~= Seq::<char>::empty());
    while i < v.len()
        invariant
            v@ == s@,
            0 <= i <= v.len(),
            n == utf8_bytes(s@.take(i as int)),
            n <= 4 * i,
        decreases v.len() - i,
    {
        assert(s@.take(i + 1).drop_last() =~= s@.take(i as int));
        n = n + char_utf8_len(v[i]) as u128;
        i = i + 1;
    }
    assert(s@.take(v.len() as int) =~= s@);
    n
}

/// The character position at which byte offset `b` of `s` falls, walking
/// from position `k` whose byte offset is `acc`: `None` when `b` lies
/// inside a character or past the end (where slicing a `str` at `b` panics).
pub open spec fn char_at_byte_from(s: Seq<char>, b: int, k: int, acc: int) -> Option<int>
    decreases s.len() - k,
{
    if acc == b {
        Some(k)
    } else if acc > b || k < 0 || k >= s.len() {
        None
    } else {
        char_at_byte_from(s, b, k + 1, acc + utf8_len(s[k]))
    }
}

pub open spec fn char_at_byte(s: Seq<char>, b: int) -> Option<int> {
    char_at_byte_from(s, b, 0, 0)
}

pub proof fn lemma_char_at_byte_from(s: Seq<char>, b: int, k: int, acc: int)
    requires
        0 <= k <= s.len(),
    ensures
        char_at_byte_from(s, b, k, acc) matches Some(j) ==> k <= j <= s.len(),
    decreases s.len() - k,
{
    if acc != b && !(acc > b) && k < s.len() {
        lemma_char_at_byte_from(s, b, k + 1, acc + utf8_len(s[k]));
    }
}

/// The character position of byte offset `b` in `s`, if it is a character boundary.
pub fn str_char_at_byte(s: &str, b: u128) -> (r: Option<usize>)
    requires
        b < u128::MAX - 8,
    ensures
        r matches Some(k) ==> char_at_byte(s@, b as int) == Some(k as int) && k <= s@.len(),
        r is None ==> char_at_byte(s@, b as int) is None,
{
    proof {
        lemma_char_at_byte_from(s@, b as int, 0, 0);
    }
    let v = chars_of(s);
    let mut k: usize = 0;
    let mut acc: u128 = 0;
    while acc < b && k < v.len()
        invariant
            v@ == s@,
            0 <= k <= v.len(),
            acc <= b + 4,
            b < u128::MAX - 8,
            char_at_byte_from(s@, b as int, k as int, acc as int) == char_at_byte(s@, b as int),
        decreases v.len() - k,
    {
        acc = acc + char_utf8_len(v[k]) as u128;
        k = k + 1;
    }
    proof {
        lemma_char_at_byte_from(s@, b as int, k as int, acc as int);
    }
    if acc == b {
        Some(k)
    } else {
        None
    }
}

} // verus!
