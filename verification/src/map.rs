//! String-keyed association lists, which stand for the hash maps and hash
//! sets of the server's state. They keep their keys in insertion order.

use vstd::prelude::*;

verus! {

/// The position of the first pair in `l` whose key is `k`.
pub open spec fn assoc_find<V>(l: Seq<(Seq<char>, V)>, k: Seq<char>) -> Option<int> {
    if exists|i: int| 0 <= i < l.len() && l[i].0 == k {
        Some(
            choose|i: int|
                0 <= i < l.len() && l[i].0 == k && forall|j: int| 0 <= j < i ==> l[j].0 != k,
        )
    } else {
        None
    }
}

/// The value that `l` holds for `k`.
pub open spec fn assoc_get<V>(l: Seq<(Seq<char>, V)>, k: Seq<char>) -> Option<V> {
    match assoc_find(l, k) {
        Some(i) => Some(l[i].1),
        None => None,
    }
}

/// Whether `l` holds a value for `k`.
pub open spec fn assoc_contains<V>(l: Seq<(Seq<char>, V)>, k: Seq<char>) -> bool {
    assoc_find(l, k) is Some
}

/// `l` with the value for `k` set to `v`: in place where `k` is present,
/// at the end where it is not.
pub open spec fn assoc_insert<V>(l: Seq<(Seq<char>, V)>, k: Seq<char>, v: V) -> Seq<(Seq<char>, V)> {
    match assoc_find(l, k) {
        Some(i) => l.update(i, (k, v)),
        None => l.push((k, v)),
    }
}

/// `l` without the pair for `k`; the other pairs keep their order.
pub open spec fn assoc_remove<V>(l: Seq<(Seq<char>, V)>, k: Seq<char>) -> Seq<(Seq<char>, V)> {
    match assoc_find(l, k) {
        Some(i) => l.remove(i),
        None => l,
    }
}

/// The keys of `l`, in order.
pub open spec fn assoc_keys<V>(l: Seq<(Seq<char>, V)>) -> Seq<Seq<char>> {
    l.map_values(|p: (Seq<char>, V)| p.0)
}

/// No key occurs twice in `l`.
pub open spec fn keys_distinct<V>(l: Seq<(Seq<char>, V)>) -> bool {
    forall|i: int, j: int| 0 <= i < l.len() && 0 <= j < l.len() && i != j ==> l[i].0 != l[j].0
}

/// The map that `l` stands for.
pub open spec fn assoc_map<V>(l: Seq<(Seq<char>, V)>) -> Map<Seq<char>, V> {
    Map::new(|k: Seq<char>| assoc_contains(l, k), |k: Seq<char>| assoc_get(l, k).unwrap())
}

/// Where `k` is at position `i` and at no earlier one, `assoc_find` gives `i`.
pub proof fn lemma_find_first<V>(l: Seq<(Seq<char>, V)>, k: Seq<char>, i: int)
    requires
        0 <= i < l.len(),
        l[i].0 == k,
        forall|j: int| 0 <= j < i ==> l[j].0 != k,
    ensures
        assoc_find(l, k) == Some(i),
{
    let c = choose|c: int|
        0 <= c < l.len() && l[c].0 == k && forall|j: int| 0 <= j < c ==> l[j].0 != k;
    assert(0 <= c < l.len() && l[c].0 == k && forall|j: int| 0 <= j < c ==> l[j].0 != k);
    if c < i {
        assert(l[c].0 != k);
    }
    if i < c {
        assert(l[i].0 != k);
    }
}

/// Where no pair has key `k`, `assoc_find` gives nothing.
pub proof fn lemma_find_none<V>(l: Seq<(Seq<char>, V)>, k: Seq<char>)
    requires
        forall|j: int| 0 <= j < l.len() ==> l[j].0 != k,
    ensures
        assoc_find(l, k) is None,
{
}

/// `assoc_find` gives a position whose key is `k`, before which `k` does not occur.
pub proof fn lemma_find_some<V>(l: Seq<(Seq<char>, V)>, k: Seq<char>)
    ensures
        assoc_find(l, k) matches Some(i) ==> 0 <= i < l.len() && l[i].0 == k && forall|j: int|
            0 <= j < i ==> l[j].0 != k,
        assoc_find(l, k) is None ==> forall|j: int| 0 <= j < l.len() ==> l[j].0 != k,
{
    if exists|i: int| 0 <= i < l.len() && l[i].0 == k {
        let w = choose|i: int| 0 <= i < l.len() && l[i].0 == k;
        lemma_first_exists(l, k, w);
    }
}

/// Where `k` occurs in `l`, it has a first position.
proof fn lemma_first_exists<V>(l: Seq<(Seq<char>, V)>, k: Seq<char>, w: int)
    requires
        0 <= w < l.len(),
        l[w].0 == k,
    ensures
        exists|i: int| 0 <= i < l.len() && l[i].0 == k && forall|j: int| 0 <= j < i ==> l[j].0 != k,
    decreases w,
{
    if exists|j: int| 0 <= j < w && l[j].0 == k {
        let j = choose|j: int| 0 <= j < w && l[j].0 == k;
        lemma_first_exists(l, k, j);
    } else {
        assert(0 <= w < l.len() && l[w].0 == k && forall|j: int| 0 <= j < w ==> l[j].0 != k);
    }
}

/// Reading a key back after setting it gives the value set.
pub proof fn lemma_get_insert_same<V>(l: Seq<(Seq<char>, V)>, k: Seq<char>, v: V)
    ensures
        assoc_get(assoc_insert(l, k, v), k) == Some(v),
{
    lemma_find_some(l, k);
    let l2 = assoc_insert(l, k, v);
    match assoc_find(l, k) {
        Some(i) => {
            lemma_find_first(l2, k, i);
        },
        None => {
            lemma_find_first(l2, k, l.len() as int);
        },
    }
}

/// Setting one key leaves the values of the other keys as they were.
pub proof fn lemma_get_insert_other<V>(l: Seq<(Seq<char>, V)>, k: Seq<char>, v: V, k2: Seq<char>)
    requires
        k2 != k,
    ensures
        assoc_get(assoc_insert(l, k, v), k2) == assoc_get(l, k2),
{
    lemma_find_some(l, k);
    lemma_find_some(l, k2);
    let l2 = assoc_insert(l, k, v);
    match assoc_find(l, k2) {
        Some(i) => {
            lemma_find_first(l2, k2, i);
        },
        None => {
            lemma_find_none(l2, k2);
        },
    }
}

/// Looking up a key other than the last one's ignores the last pair; where
/// keys are distinct, looking up the last key gives the last value.
pub proof fn lemma_get_drop_last<V>(l: Seq<(Seq<char>, V)>, k: Seq<char>)
    requires
        l.len() > 0,
    ensures
        l.last().0 != k ==> assoc_get(l, k) == assoc_get(l.drop_last(), k),
        l.last().0 == k && keys_distinct(l) ==> assoc_get(l, k) == Some(l.last().1),
{
    lemma_find_some(l, k);
    lemma_find_some(l.drop_last(), k);
    if l.last().0 != k {
        let d = l.drop_last();
        match assoc_find(d, k) {
            Some(i) => {
                assert forall|j: int| 0 <= j < i implies l[j].0 != k by {
                    assert(l[j] == d[j]);
                }
                assert(l[i] == d[i]);
                lemma_find_first(l, k, i);
            },
            None => {
                assert forall|j: int| 0 <= j < l.len() implies l[j].0 != k by {
                    if j < d.len() {
                        assert(l[j] == d[j]);
                    }
                }
                lemma_find_none(l, k);
            },
        }
    } else if keys_distinct(l) {
        lemma_find_first(l, k, l.len() - 1);
    }
}

/// Removing a key leaves no value for it, where keys are distinct, and
/// leaves the values of the other keys as they were.
pub proof fn lemma_get_remove<V>(l: Seq<(Seq<char>, V)>, k: Seq<char>, k2: Seq<char>)
    requires
        keys_distinct(l),
    ensures
        assoc_get(assoc_remove(l, k), k) is None,
        k2 != k ==> assoc_get(assoc_remove(l, k), k2) == assoc_get(l, k2),
{
    lemma_find_some(l, k);
    lemma_find_some(l, k2);
    let l2 = assoc_remove(l, k);
    match assoc_find(l, k) {
        Some(i) => {
            assert forall|j: int| 0 <= j < l2.len() implies l2[j].0 != k by {
                if j < i {
                    assert(l2[j] == l[j]);
                } else {
                    assert(l2[j] == l[j + 1]);
                }
            }
            lemma_find_none(l2, k);
            if k2 != k {
                match assoc_find(l, k2) {
                    Some(p) => {
                        if p < i {
                            lemma_find_first(l2, k2, p);
                        } else {
                            assert(p != i);
                            assert forall|j: int| 0 <= j < p - 1 implies l2[j].0 != k2 by {
                                if j < i {
                                    assert(l2[j] == l[j]);
                                } else {
                                    assert(l2[j] == l[j + 1]);
                                }
                            }
                            lemma_find_first(l2, k2, p - 1);
                        }
                    },
                    None => {
                        assert forall|j: int| 0 <= j < l2.len() implies l2[j].0 != k2 by {
                            if j < i {
                                assert(l2[j] == l[j]);
                            } else {
                                assert(l2[j] == l[j + 1]);
                            }
                        }
                        lemma_find_none(l2, k2);
                    },
                }
            }
        },
        None => {},
    }
}

/// Setting a key keeps the keys distinct.
pub proof fn lemma_insert_distinct<V>(l: Seq<(Seq<char>, V)>, k: Seq<char>, v: V)
    requires
        keys_distinct(l),
    ensures
        keys_distinct(assoc_insert(l, k, v)),
{
    lemma_find_some(l, k);
}

/// Setting a key that is absent puts it last.
pub proof fn lemma_insert_last<V>(l: Seq<(Seq<char>, V)>, k: Seq<char>, v: V)
    requires
        !assoc_contains(l, k),
    ensures
        assoc_insert(l, k, v) == l.push((k, v)),
        assoc_insert(l, k, v).last() == (k, v),
{
}

/// A map from strings to values, kept as an association list with distinct
/// keys in insertion order.
#[derive(Debug)]
pub struct StrMap<V: DeepView> {
    entries: Vec<(String, V)>,
}

/// The pairs of `e` seen through their views.
pub open spec fn pairs_view<V: DeepView>(e: Seq<(String, V)>) -> Seq<(Seq<char>, V::V)> {
    e.map_values(|p: (String, V)| (p.0@, p.1.deep_view()))
}

impl<V: DeepView> DeepView for StrMap<V> {
    type V = Seq<(Seq<char>, V::V)>;

    closed spec fn deep_view(&self) -> Seq<(Seq<char>, V::V)> {
        pairs_view(self.entries@)
    }
}

impl<V: DeepView> StrMap<V> {
    #[verifier::type_invariant]
    closed spec fn distinct(&self) -> bool {
        keys_distinct(self.deep_view())
    }

    /// An empty map.
    pub fn new() -> (m: Self)
        ensures
            m.deep_view() == Seq::<(Seq<char>, V::V)>::empty(),
            keys_distinct(m.deep_view()),
    {
        let m = StrMap::<V> { entries: Vec::new() };
        assert(m.deep_view() =~= Seq::<(Seq<char>, V::V)>::empty());
        m
    }

    /// The number of keys.
    pub fn len(&self) -> (n: usize)
        ensures
            n == self.deep_view().len(),
            keys_distinct(self.deep_view()),
    {
        proof {
            use_type_invariant(self);
        }
        self.entries.len()
    }

    /// The key at position `i`.
    pub fn key_at(&self, i: usize) -> (k: &String)
        requires
            i < self.deep_view().len(),
        ensures
            k@ == self.deep_view()[i as int].0,
    {
        &self.entries[i].0
    }

    /// The value at position `i`.
    pub fn value_at(&self, i: usize) -> (v: &V)
        requires
            i < self.deep_view().len(),
        ensures
            v.deep_view() == self.deep_view()[i as int].1,
    {
        &self.entries[i].1
    }

    /// The position of `k`.
    pub fn find(&self, k: &str) -> (r: Option<usize>)
        ensures
            r matches Some(i) ==> i < self.deep_view().len() && assoc_find(self.deep_view(), k@)
                == Some(i as int),
            r is None ==> assoc_find(self.deep_view(), k@) is None,
    {
        let n = self.entries.len();
        let mut i: usize = 0;
        while i < n
            invariant
                n == self.entries@.len(),
                i <= n,
                forall|j: int| 0 <= j < i ==> self.deep_view()[j].0 != k@,
            decreases n - i,
        {
            if crate::text::str_eq(self.entries[i].0.as_str(), k) {
                proof {
                    lemma_find_first(self.deep_view(), k@, i as int);
                }
                return Some(i);
            }
            i = i + 1;
        }
        proof {
            lemma_find_none(self.deep_view(), k@);
        }
        None
    }

    /// The value for `k`.
    pub fn get(&self, k: &str) -> (r: Option<&V>)
        ensures
            r matches Some(v) ==> assoc_get(self.deep_view(), k@) == Some(v.deep_view()),
            r is None ==> assoc_get(self.deep_view(), k@) is None,
    {
        match self.find(k) {
            Some(i) => Some(&self.entries[i].1),
            None => None,
        }
    }

    /// Whether `k` has a value.
    pub fn contains_key(&self, k: &str) -> (r: bool)
        ensures
            r == assoc_contains(self.deep_view(), k@),
    {
        self.find(k).is_some()
    }

    /// Sets the value for `k` to `v`, in place where `k` is present and at
    /// the end where it is not.
    pub fn insert(&mut self, k: String, v: V)
        ensures
            final(self).deep_view() == assoc_insert(old(self).deep_view(), k@, v.deep_view()),
            keys_distinct(final(self).deep_view()),
    {
        proof {
            use_type_invariant(&*self);
        }
        let ghost l = self.deep_view();
        match self.find(k.as_str()) {
            Some(i) => {
                let mut e: Vec<(String, V)> = Vec::new();
                std::mem::swap(&mut e, &mut self.entries);
                let _ = e.remove(i);
                e.insert(i, (k, v));
                assert(pairs_view(e@) =~= l.update(i as int, (k@, v.deep_view())));
                proof {
                    lemma_find_some(l, k@);
                }
                self.entries = e;
            },
            None => {
                let mut e: Vec<(String, V)> = Vec::new();
                std::mem::swap(&mut e, &mut self.entries);
                e.push((k, v));
                proof {
                    lemma_find_some(l, k@);
                }
                assert(pairs_view(e@) =~= l.push((k@, v.deep_view())));
                self.entries = e;
            },
        }
    }

    /// Replaces the value at position `i` with `v` and gives the old value;
    /// the key stays.
    pub fn replace_at(&mut self, i: usize, v: V) -> (r: V)
        requires
            i < old(self).deep_view().len(),
        ensures
            final(self).deep_view() == old(self).deep_view().update(
                i as int,
                (old(self).deep_view()[i as int].0, v.deep_view()),
            ),
            r.deep_view() == old(self).deep_view()[i as int].1,
            keys_distinct(final(self).deep_view()),
    {
        proof {
            use_type_invariant(&*self);
        }
        let ghost l = self.deep_view();
        let mut e: Vec<(String, V)> = Vec::new();
        std::mem::swap(&mut e, &mut self.entries);
        let (k, old_v) = e.remove(i);
        e.insert(i, (k, v));
        assert(pairs_view(e@) =~= l.update(i as int, (l[i as int].0, v.deep_view())));
        self.entries = e;
        old_v
    }

    /// Removes `k` and gives its value; the other keys keep their order.
    pub fn remove(&mut self, k: &str) -> (r: Option<V>)
        ensures
            final(self).deep_view() == assoc_remove(old(self).deep_view(), k@),
            keys_distinct(final(self).deep_view()),
            r matches Some(v) ==> assoc_get(old(self).deep_view(), k@) == Some(v.deep_view()),
            r is None ==> assoc_get(old(self).deep_view(), k@) is None,
    {
        proof {
            use_type_invariant(&*self);
        }
        let ghost l = self.deep_view();
        match self.find(k) {
            Some(i) => {
                let mut e: Vec<(String, V)> = Vec::new();
                std::mem::swap(&mut e, &mut self.entries);
                let (_, v) = e.remove(i);
                assert(pairs_view(e@) =~= l.remove(i as int));
                self.entries = e;
                Some(v)
            },
            None => None,
        }
    }

    /// Takes the map apart into its pairs, in order.
    pub fn into_pairs(self) -> (r: Vec<(String, V)>)
        ensures
            r@.map_values(|e: (String, V)| (e.0@, e.1.deep_view())) == self.deep_view(),
    {
        self.entries
    }
}

} // verus!
