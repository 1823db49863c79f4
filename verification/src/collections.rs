//! Small keyed collections over strings: a map from string to string kept
//! as an association list, and a set of strings.
use vstd::prelude::*;
use crate::text::str_eq;

verus! {

/// Index of the first pair whose key is `k`, or -1.
pub open spec fn key_index<V>(s: Seq<(Seq<char>, V)>, k: Seq<char>) -> int
    decreases s.len(),
{
    if s.len() == 0 {
        -1
    } else {
        let j = key_index(s.drop_last(), k);
        if j >= 0 {
            j
        } else if s.last().0 == k {
            s.len() - 1
        } else {
            -1
        }
    }
}

pub proof fn lemma_key_index<V>(s: Seq<(Seq<char>, V)>, k: Seq<char>)
    ensures
        -1 <= key_index(s, k) < s.len(),
        key_index(s, k) >= 0 ==> s[key_index(s, k)].0 == k,
        forall|i: int| 0 <= i < s.len() && s[i].0 == k ==> key_index(s, k) <= i,
        key_index(s, k) == -1 <==> forall|i: int| 0 <= i < s.len() ==> s[i].0 != k,
    decreases s.len(),
{
    if s.len() > 0 {
        lemma_key_index(s.drop_last(), k);
        assert forall|i: int| 0 <= i < s.len() - 1 implies s.drop_last()[i] == s[i] by {}
    }
}

/// Two pair sequences with the same keys at every position find every key
/// at the same index.
pub proof fn lemma_key_index_same_keys<V>(
    s: Seq<(Seq<char>, V)>,
    t: Seq<(Seq<char>, V)>,
    k: Seq<char>,
)
    requires
        s.len() == t.len(),
        forall|i: int| 0 <= i < s.len() ==> s[i].0 == t[i].0,
    ensures
        key_index(s, k) == key_index(t, k),
    decreases s.len(),
{
    if s.len() > 0 {
        lemma_key_index_same_keys(s.drop_last(), t.drop_last(), k);
    }
}

pub proof fn lemma_key_index_push<V>(
    s: Seq<(Seq<char>, V)>,
    p: (Seq<char>, V),
    k: Seq<char>,
)
    ensures
        key_index(s.push(p), k) == (if key_index(s, k) >= 0 {
            key_index(s, k)
        } else if p.0 == k {
            s.len() as int
        } else {
            -1
        }),
{
    assert(s.push(p).drop_last() =~= s);
}

/// The map that an association list stands for: each key to the value of
/// its first pair.
pub open spec fn assoc_map<V>(s: Seq<(Seq<char>, V)>) -> Map<Seq<char>, V> {
    Map::new(|k: Seq<char>| key_index(s, k) >= 0, |k: Seq<char>| s[key_index(s, k)].1)
}

/// `s` with the value of key `k` set to `v`: the first pair for `k` is
/// replaced, or a pair is appended.
pub open spec fn assoc_put<V>(s: Seq<(Seq<char>, V)>, k: Seq<char>, v: V) -> Seq<
    (Seq<char>, V),
> {
    if key_index(s, k) >= 0 {
        s.update(key_index(s, k), (k, v))
    } else {
        s.push((k, v))
    }
}

pub proof fn lemma_assoc_put<V>(s: Seq<(Seq<char>, V)>, k: Seq<char>, v: V)
    ensures
        assoc_map(assoc_put(s, k, v)) == assoc_map(s).insert(k, v),
{
    lemma_key_index(s, k);
    let t = assoc_put(s, k, v);
    if key_index(s, k) >= 0 {
        assert forall|q: Seq<char>| key_index(t, q) == key_index(s, q) by {
            lemma_key_index_same_keys(s, t, q);
        }
    } else {
        assert forall|q: Seq<char>|
            key_index(t, q) == (if key_index(s, q) >= 0 {
                key_index(s, q)
            } else if k == q {
                s.len() as int
            } else {
                -1
            }) by {
            lemma_key_index_push(s, (k, v), q);
        }
    }
    assert forall|q: Seq<char>| #[trigger] assoc_map(t).dom().contains(q) == assoc_map(
        s,
    ).insert(k, v).dom().contains(q) by {
        lemma_key_index(s, q);
        lemma_key_index(t, q);
    }
    assert forall|q: Seq<char>| #[trigger] assoc_map(t).dom().contains(q) implies assoc_map(t)[q]
        == assoc_map(s).insert(k, v)[q] by {
        lemma_key_index(s, q);
        lemma_key_index(t, q);
        if key_index(s, k) >= 0 {
            lemma_key_index_same_keys(s, t, q);
        } else {
            lemma_key_index_push(s, (k, v), q);
        }
    }
    assert(assoc_map(t) =~= assoc_map(s).insert(k, v));
}

/// A map from strings to strings.
#[derive(Debug, Clone)]
pub struct StrMap {
    entries: Vec<(String, String)>,
}

impl View for StrMap {
    type V = Map<Seq<char>, Seq<char>>;

    open spec fn view(&self) -> Map<Seq<char>, Seq<char>> {
        assoc_map(self.pairs())
    }
}

impl StrMap {
    /// The pairs in insertion order (a key's first pair is the one that counts).
    pub closed spec fn pairs(&self) -> Seq<(Seq<char>, Seq<char>)> {
        self.entries.deep_view()
    }

    pub fn new() -> (m: Self)
        ensures
            m@ == Map::<Seq<char>, Seq<char>>::empty(),
            m.pairs() == Seq::<(Seq<char>, Seq<char>)>::empty(),
    {
        let m = StrMap { entries: Vec::new() };
        assert(m.pairs() =~= Seq::<(Seq<char>, Seq<char>)>::empty());
        assert(m@ =~= Map::<Seq<char>, Seq<char>>::empty());
        m
    }

    /// Whether the map holds no pair.
    pub fn is_empty(&self) -> (b: bool)
        ensures
            b == (self@ == Map::<Seq<char>, Seq<char>>::empty()),
    {
        proof {
            if self.pairs().len() > 0 {
                lemma_key_index(self.pairs(), self.pairs()[0].0);
                assert(self@.dom().contains(self.pairs()[0].0));
            } else {
                assert(self@ =~= Map::<Seq<char>, Seq<char>>::empty());
            }
        }
        self.entries.len() == 0
    }

    /// Position of the pair for key `k`.
    fn find(&self, k: &str) -> (r: Option<usize>)
        ensures
            r matches Some(i) ==> key_index(self.pairs(), k@) == i,
            r is None ==> key_index(self.pairs(), k@) == -1,
    {
        proof {
            lemma_key_index(self.pairs(), k@);
        }
        let mut i: usize = 0;
        while i < self.entries.len()
            invariant
                0 <= i <= self.entries.len(),
                self.pairs() == self.entries.deep_view(),
                forall|j: int| 0 <= j < i ==> self.pairs()[j].0 != k@,
            decreases self.entries.len() - i,
        {
            assert(self.pairs()[i as int].0 == self.entries[i as int].0@);
            if str_eq(self.entries[i].0.as_str(), k) {
                proof {
                    lemma_key_index(self.pairs(), k@);
                }
                return Some(i);
            }
            i = i + 1;
        }
        None
    }

    /// The value for key `k`.
    pub fn get(&self, k: &str) -> (r: Option<&String>)
        ensures
            r is Some <==> self@.dom().contains(k@),
            r matches Some(v) ==> v@ == self@[k@],
    {
        proof {
            lemma_key_index(self.pairs(), k@);
        }
        match self.find(k) {
            Some(i) => {
                assert(self.pairs()[i as int].1 == self.entries[i as int].1@);
                Some(&self.entries[i].1)
            },
            None => None,
        }
    }

    /// Sets the value for key `k`.
    pub fn insert(&mut self, k: String, v: String)
        ensures
            final(self)@ == old(self)@.insert(k@, v@),
            final(self).pairs() == assoc_put(old(self).pairs(), k@, v@),
    {
        proof {
            lemma_assoc_put(self.pairs(), k@, v@);
            lemma_key_index(self.pairs(), k@);
        }
        let ghost old_pairs = self.pairs();
        match self.find(k.as_str()) {
            Some(i) => {
                let ghost kv = k@;
                let ghost vv = v@;
                self.entries.set(i, (k, v));
                assert(self.pairs() =~= old_pairs.update(i as int, (kv, vv)));
            },
            None => {
                let ghost kv = k@;
                let ghost vv = v@;
                self.entries.push((k, v));
                assert(self.pairs() =~= old_pairs.push((kv, vv)));
            },
        }
    }

    /// A key whose value is `v`: the first such pair in insertion order.
    pub fn find_key_with_value(&self, v: &str) -> (r: Option<&String>)
        ensures
            r matches Some(k) ==> self@.dom().contains(k@) && self@[k@] == v@,
            r is None ==> forall|k: Seq<char>| #[trigger]
                self@.dom().contains(k) ==> self@[k] != v@,
    {
        let mut i: usize = 0;
        while i < self.entries.len()
            invariant
                0 <= i <= self.entries.len(),
                self.pairs() == self.entries.deep_view(),
                forall|j: int|
                    0 <= j < i && key_index(self.pairs(), self.pairs()[j].0) == j ==> self.pairs()[j].1
                        != v@,
            decreases self.entries.len() - i,
        {
            assert(self.pairs()[i as int] == (self.entries[i as int].0@, self.entries[i as int].1@));
            if str_eq(self.entries[i].1.as_str(), v) {
                let found = self.find(self.entries[i].0.as_str());
                if found == Some(i) {
                    return Some(&self.entries[i].0);
                }
            }
            i = i + 1;
        }
        proof {
            assert forall|k: Seq<char>| #[trigger] self@.dom().contains(k) implies self@[k]
                != v@ by {
                lemma_key_index(self.pairs(), k);
            }
        }
        None
    }
}

/// A set of strings.
#[derive(Debug, Clone)]
pub struct StrSet {
    items: Vec<String>,
}

impl View for StrSet {
    type V = Set<Seq<char>>;

    open spec fn view(&self) -> Set<Seq<char>> {
        self.members().to_set()
    }
}

impl StrSet {
    pub closed spec fn members(&self) -> Seq<Seq<char>> {
        self.items.deep_view()
    }

    pub fn new() -> (s: Self)
        ensures
            s@ == Set::<Seq<char>>::empty(),
    {
        let s = StrSet { items: Vec::new() };
        assert(s@ =~= Set::<Seq<char>>::empty());
        s
    }

    pub fn contains(&self, x: &str) -> (b: bool)
        ensures
            b == self@.contains(x@),
    {
        let mut i: usize = 0;
        while i < self.items.len()
            invariant
                0 <= i <= self.items.len(),
                self.members() == self.items.deep_view(),
                forall|j: int| 0 <= j < i ==> self.members()[j] != x@,
            decreases self.items.len() - i,
        {
            assert(self.members()[i as int] == self.items[i as int]@);
            if str_eq(self.items[i].as_str(), x) {
                assert(self.members().contains(x@));
                return true;
            }
            i = i + 1;
        }
        false
    }

    pub fn insert(&mut self, x: String)
        ensures
            final(self)@ == old(self)@.insert(x@),
    {
        let ghost old_m = self.members();
        let ghost xv = x@;
        self.items.push(x);
        assert(self.members() =~= old_m.push(xv));
        proof {
            old_m.lemma_push_to_set_commute(xv);
        }
    }
}

} // verus!
