//! An ordered map from string keys to values: the key-sorted association
//! list behind every name-indexed table of a topology. Iteration follows
//! key order, as for a `BTreeMap<String, V>`.
use vstd::prelude::*;
use crate::text::{lex_lt, strictly_sorted, lemma_lex_order, str_lt, str_eq};

verus! {

#[derive(Debug, Clone)]
pub struct StrMap<V> {
    entries: Vec<(String, V)>,
}

impl<V> StrMap<V> {
    /// The keys, in increasing order.
    pub closed spec fn keys(&self) -> Seq<Seq<char>> {
        self.entries@.map_values(|e: (String, V)| e.0@)
    }

    /// The values, in key order.
    pub closed spec fn vals(&self) -> Seq<V> {
        self.entries@.map_values(|e: (String, V)| e.1)
    }

    /// Keys are strictly increasing (so each occurs once).
    pub closed spec fn wf(&self) -> bool {
        strictly_sorted(self.keys())
    }

    /// The map from keys to values.
    pub closed spec fn view(&self) -> Map<Seq<char>, V> {
        assoc_view(self.keys(), self.vals())
    }

    /// How keys, values and the map view relate.
    pub proof fn lemma_view(&self)
        requires
            self.wf(),
        ensures
            self.keys().len() == self.vals().len(),
            strictly_sorted(self.keys()),
            self.view().dom() == self.keys().to_set(),
            forall|i: int| #![trigger self.keys()[i]]
                0 <= i < self.keys().len() ==> self.view().contains_key(self.keys()[i])
                    && self.view()[self.keys()[i]] == self.vals()[i],
            forall|k: Seq<char>| #[trigger] self.view().contains_key(k)
                ==> exists|i: int| 0 <= i < self.keys().len() && self.keys()[i] == k,
    {
        lemma_assoc_view(self.keys(), self.vals());
    }

    /// There is one value for each key.
    pub proof fn lemma_lens(&self)
        ensures
            self.keys().len() == self.vals().len(),
    {
    }

    /// An empty map.
    pub fn new() -> (m: Self)
        ensures
            m.wf(),
            m.keys() == Seq::<Seq<char>>::empty(),
            m.view() == Map::<Seq<char>, V>::empty(),
    {
        let m = StrMap { entries: Vec::new() };
        assert(m.keys() =~= Seq::<Seq<char>>::empty());
        assert(m.view() =~= Map::<Seq<char>, V>::empty());
        m
    }

    /// Number of entries.
    pub fn len(&self) -> (n: usize)
        ensures
            n == self.keys().len(),
    {
        self.entries.len()
    }

    /// Whether the map has no entry.
    pub fn is_empty(&self) -> (b: bool)
        ensures
            b == (self.keys().len() == 0),
    {
        self.entries.len() == 0
    }

    /// The key at position `i` in key order.
    pub fn key_at(&self, i: usize) -> (k: &String)
        requires
            i < self.keys().len(),
        ensures
            k@ == self.keys()[i as int],
    {
        &self.entries[i].0
    }

    /// The value at position `i` in key order.
    pub fn value_at(&self, i: usize) -> (v: &V)
        requires
            i < self.keys().len(),
        ensures
            *v == self.vals()[i as int],
    {
        &self.entries[i].1
    }

    /// Position of `k`, if present.
    pub fn find(&self, k: &str) -> (r: Option<usize>)
        ensures
            match r {
                Some(i) => i < self.keys().len() && self.keys()[i as int] == k@,
                None => !self.keys().contains(k@),
            },
    {
        let mut i: usize = 0;
        while i < self.entries.len()
            invariant
                i <= self.entries.len(),
                forall|j: int| 0 <= j < i ==> self.keys()[j] != k@,
            decreases self.entries.len() - i,
        {
            if str_eq(self.entries[i].0.as_str(), k) {
                return Some(i);
            }
            i = i + 1;
        }
        None
    }

    /// The value stored under `k`.
    pub fn get(&self, k: &str) -> (r: Option<&V>)
        requires
            self.wf(),
        ensures
            match r {
                Some(v) => self.view().contains_key(k@) && *v == self.view()[k@],
                None => !self.view().contains_key(k@),
            },
    {
        proof { self.lemma_view(); }
        match self.find(k) {
            Some(i) => Some(&self.entries[i].1),
            None => None,
        }
    }

    /// Whether `k` has an entry.
    pub fn contains_key(&self, k: &str) -> (b: bool)
        requires
            self.wf(),
        ensures
            b == self.view().contains_key(k@),
    {
        proof { self.lemma_view(); }
        self.find(k).is_some()
    }

    /// Sets the value of `k` to `v`, replacing any previous value.
    pub fn insert(&mut self, k: String, v: V)
        requires
            old(self).wf(),
        ensures
            final(self).wf(),
            final(self).view() == old(self).view().insert(k@, v),
            final(self).keys().to_set() == old(self).keys().to_set().insert(k@),
    {
        proof {
            self.lemma_view();
            lemma_lex_order();
        }
        let ghost old_keys = self.keys();
        let ghost old_vals = self.vals();
        let ghost old_view = self.view();
        let mut i: usize = 0;
        while i < self.entries.len() && str_lt(self.entries[i].0.as_str(), k.as_str())
            invariant
                i <= self.entries.len(),
                self.keys() == old_keys,
                forall|j: int| 0 <= j < i ==> lex_lt(#[trigger] old_keys[j], k@),
            decreases self.entries.len() - i,
        {
            i = i + 1;
        }
        if i < self.entries.len() && str_eq(self.entries[i].0.as_str(), k.as_str()) {
            let ghost kv = k@;
            self.entries.set(i, (k, v));
            proof {
                assert(self.keys() =~= old_keys);
                assert(self.vals() =~= old_vals.update(i as int, v));
                lemma_assoc_replace(old_keys, old_vals, i as int, v);
                self.lemma_view();
                assert(self.view().dom() =~= old_view.dom().insert(kv));
            }
        } else {
            let ghost kv = k@;
            self.entries.insert(i, (k, v));
            proof {
                assert(self.keys() =~= old_keys.insert(i as int, kv));
                assert(self.vals() =~= old_vals.insert(i as int, v));
                lemma_assoc_insert(old_keys, old_vals, i as int, kv, v);
                self.lemma_view();
                assert(self.view().dom() =~= old_view.dom().insert(kv));
            }
        }
    }
}

impl<T> StrMap<Vec<T>> {
    /// Appends `x` to the list under `k`, starting a list where there is none.
    pub fn push_at(&mut self, k: String, x: T)
        requires
            old(self).wf(),
        ensures
            final(self).wf(),
            final(self).view().dom() == old(self).view().dom().insert(k@),
            final(self).view()[k@]@ == (if old(self).view().contains_key(k@) {
                old(self).view()[k@]@
            } else {
                Seq::empty()
            }).push(x),
            forall|j: Seq<char>| j != k@ && #[trigger] old(self).view().contains_key(j)
                ==> final(self).view()[j] == old(self).view()[j],
    {
        proof { self.lemma_view(); }
        match self.find(k.as_str()) {
            Some(i) => {
                let ghost old_keys = self.keys();
                let ghost old_vals = self.vals();
                let (key, mut list) = self.entries.remove(i);
                list.push(x);
                let ghost nv = list;
                self.entries.insert(i, (key, list));
                proof {
                    assert(self.keys() =~= old_keys);
                    assert(self.vals() =~= old_vals.update(i as int, nv));
                    lemma_assoc_replace(old_keys, old_vals, i as int, nv);
                    self.lemma_view();
                }
            },
            None => {
                let mut list: Vec<T> = Vec::new();
                list.push(x);
                self.insert(k, list);
            },
        }
    }
}

impl StrMap<String> {
    /// An identical copy.
    pub fn copy(&self) -> (r: Self)
        ensures
            r.keys() == self.keys(),
            r.vals() == self.vals(),
            r.view() == self.view(),
            r.wf() == self.wf(),
    {
        let mut entries: Vec<(String, String)> = Vec::new();
        let mut i: usize = 0;
        while i < self.entries.len()
            invariant
                i <= self.entries@.len(),
                entries@ == self.entries@.take(i as int),
            decreases self.entries@.len() - i,
        {
            let k = self.entries[i].0.clone();
            let v = self.entries[i].1.clone();
            entries.push((k, v));
            i = i + 1;
            assert(entries@ =~= self.entries@.take(i as int));
        }
        assert(entries@ =~= self.entries@);
        let r = StrMap { entries };
        assert(r.keys() =~= self.keys());
        assert(r.vals() =~= self.vals());
        r
    }
}

impl StrMap<crate::types::RouteConfig> {
    /// An identical copy.
    pub fn copy(&self) -> (r: Self)
        ensures
            r.keys() == self.keys(),
            r.vals() == self.vals(),
            r.view() == self.view(),
            r.wf() == self.wf(),
    {
        let mut entries: Vec<(String, crate::types::RouteConfig)> = Vec::new();
        let mut i: usize = 0;
        while i < self.entries.len()
            invariant
                i <= self.entries@.len(),
                entries@ == self.entries@.take(i as int),
            decreases self.entries@.len() - i,
        {
            let k = self.entries[i].0.clone();
            let v = self.entries[i].1.copy();
            entries.push((k, v));
            i = i + 1;
            assert(entries@ =~= self.entries@.take(i as int));
        }
        assert(entries@ =~= self.entries@);
        let r = StrMap { entries };
        assert(r.keys() =~= self.keys());
        assert(r.vals() =~= self.vals());
        r
    }
}

/// The map denoted by parallel key and value sequences without duplicate keys.
pub closed spec fn assoc_view<V>(ks: Seq<Seq<char>>, vs: Seq<V>) -> Map<Seq<char>, V> {
    Map::new(|k: Seq<char>| ks.contains(k), |k: Seq<char>| vs[ks.index_of(k)])
}

proof fn lemma_assoc_view<V>(ks: Seq<Seq<char>>, vs: Seq<V>)
    requires
        strictly_sorted(ks),
        ks.len() == vs.len(),
    ensures
        assoc_view(ks, vs).dom() == ks.to_set(),
        forall|i: int| #![trigger ks[i]]
            0 <= i < ks.len() ==> assoc_view(ks, vs).contains_key(ks[i])
                && assoc_view(ks, vs)[ks[i]] == vs[i],
        forall|k: Seq<char>| #[trigger] assoc_view(ks, vs).contains_key(k)
            ==> exists|i: int| 0 <= i < ks.len() && ks[i] == k,
{
    lemma_lex_order();
    assert(assoc_view(ks, vs).dom() =~= ks.to_set());
    assert forall|i: int| #![trigger ks[i]] 0 <= i < ks.len() implies
        assoc_view(ks, vs).contains_key(ks[i]) && assoc_view(ks, vs)[ks[i]] == vs[i] by {
        assert(ks.contains(ks[i]));
        let j = ks.index_of(ks[i]);
        assert(0 <= j < ks.len() && ks[j] == ks[i]);
        if j < i {
            assert(lex_lt(ks[j], ks[i]));
        } else if i < j {
            assert(lex_lt(ks[i], ks[j]));
        }
    }
}

proof fn lemma_assoc_replace<V>(ks: Seq<Seq<char>>, vs: Seq<V>, i: int, v: V)
    requires
        strictly_sorted(ks),
        ks.len() == vs.len(),
        0 <= i < ks.len(),
    ensures
        assoc_view(ks, vs.update(i, v)) == assoc_view(ks, vs).insert(ks[i], v),
{
    lemma_assoc_view(ks, vs);
    lemma_assoc_view(ks, vs.update(i, v));
    let m1 = assoc_view(ks, vs.update(i, v));
    let m2 = assoc_view(ks, vs).insert(ks[i], v);
    assert forall|k: Seq<char>| #[trigger] m1.contains_key(k) implies m1[k] == m2[k] by {
        let j = choose|j: int| 0 <= j < ks.len() && ks[j] == k;
        assert(m1[ks[j]] == vs.update(i, v)[j]);
    }
    assert(m1.dom() =~= m2.dom());
    assert(m1 =~= m2);
}

proof fn lemma_assoc_insert<V>(ks: Seq<Seq<char>>, vs: Seq<V>, i: int, k: Seq<char>, v: V)
    requires
        strictly_sorted(ks),
        ks.len() == vs.len(),
        0 <= i <= ks.len(),
        forall|j: int| 0 <= j < i ==> lex_lt(#[trigger] ks[j], k),
        i < ks.len() ==> !lex_lt(ks[i], k) && ks[i] != k,
    ensures
        strictly_sorted(ks.insert(i, k)),
        assoc_view(ks.insert(i, k), vs.insert(i, v)) == assoc_view(ks, vs).insert(k, v),
{
    lemma_lex_order();
    let nk = ks.insert(i, k);
    let nv = vs.insert(i, v);
    if i < ks.len() {
        assert(lex_lt(k, ks[i]));
    }
    assert forall|a: int, b: int| #![trigger nk[a], nk[b]] 0 <= a < b < nk.len() implies
        lex_lt(nk[a], nk[b]) by {
        if b == i {
            assert(lex_lt(ks[a], k));
        } else if a == i {
            if b - 1 > i {
                assert(lex_lt(ks[i], ks[b - 1]));
            }
        } else if a < i && b > i {
            assert(lex_lt(ks[a], ks[b - 1]));
        } else if a > i {
            assert(lex_lt(ks[a - 1], ks[b - 1]));
        } else {
            assert(lex_lt(ks[a], ks[b]));
        }
    }
    lemma_assoc_view(ks, vs);
    lemma_assoc_view(nk, nv);
    let m1 = assoc_view(nk, nv);
    let m2 = assoc_view(ks, vs).insert(k, v);
    assert forall|kk: Seq<char>| m1.contains_key(kk) == #[trigger] m2.contains_key(kk) by {
        if m1.contains_key(kk) {
            let j = choose|j: int| 0 <= j < nk.len() && nk[j] == kk;
            if j < i { assert(ks[j] == kk); }
            else if j > i { assert(ks[j - 1] == kk); }
        }
        if assoc_view(ks, vs).contains_key(kk) {
            let j = choose|j: int| 0 <= j < ks.len() && ks[j] == kk;
            if j < i { assert(nk[j] == kk); }
            else { assert(nk[j + 1] == kk); }
        }
        assert(nk[i] == k);
    }
    assert forall|kk: Seq<char>| #[trigger] m1.contains_key(kk) implies m1[kk] == m2[kk] by {
        let j = choose|j: int| 0 <= j < nk.len() && nk[j] == kk;
        assert(m1[nk[j]] == nv[j]);
        if j < i {
            assert(ks[j] == kk);
            assert(assoc_view(ks, vs)[ks[j]] == vs[j]);
        } else if j > i {
            assert(ks[j - 1] == kk);
            assert(assoc_view(ks, vs)[ks[j - 1]] == vs[j - 1]);
        }
    }
    assert(m1.dom() =~= m2.dom());
    assert(m1 =~= m2);
}

} // verus!

verus! {

/// The sorted union of two strictly sorted key sequences.
pub open spec fn merge(a: Seq<Seq<char>>, b: Seq<Seq<char>>) -> Seq<Seq<char>>
    decreases a.len() + b.len(),
{
    if a.len() == 0 {
        b
    } else if b.len() == 0 {
        a
    } else if a[0] == b[0] {
        seq![a[0]] + merge(a.drop_first(), b.drop_first())
    } else if lex_lt(a[0], b[0]) {
        seq![a[0]] + merge(a.drop_first(), b)
    } else {
        seq![b[0]] + merge(a, b.drop_first())
    }
}

/// Position of a key of a walk over the union of two maps' keys: the key,
/// and its position in each map when it has one.
pub struct UnionStep {
    pub key: String,
    pub left: Option<usize>,
    pub right: Option<usize>,
}

/// The keys of both maps, in increasing order, each once, with where each
/// key sits in either map.
pub fn union_walk<A, B>(a: &StrMap<A>, b: &StrMap<B>) -> (r: Vec<UnionStep>)
    requires
        a.wf(),
        b.wf(),
    ensures
        r@.len() == merge(a.keys(), b.keys()).len(),
        forall|t: int| #![trigger r@[t]] 0 <= t < r@.len() ==> {
            &&& r@[t].key@ == merge(a.keys(), b.keys())[t]
            &&& match r@[t].left {
                Some(i) => i < a.keys().len() && a.keys()[i as int] == r@[t].key@,
                None => !a.view().contains_key(r@[t].key@),
            }
            &&& match r@[t].right {
                Some(j) => j < b.keys().len() && b.keys()[j as int] == r@[t].key@,
                None => !b.view().contains_key(r@[t].key@),
            }
        },
{
    proof {
        a.lemma_view();
        b.lemma_view();
        lemma_lex_order();
    }
    let ghost ak = a.keys();
    let ghost bk = b.keys();
    let mut r: Vec<UnionStep> = Vec::new();
    let ghost mut emitted: Seq<Seq<char>> = Seq::empty();
    let mut i: usize = 0;
    let mut j: usize = 0;
    assert(ak.skip(0) =~= ak);
    assert(bk.skip(0) =~= bk);
    while i < a.len() || j < b.len()
        invariant
            ak == a.keys(),
            bk == b.keys(),
            a.wf(),
            b.wf(),
            strictly_sorted(ak),
            strictly_sorted(bk),
            a.view().dom() == ak.to_set(),
            b.view().dom() == bk.to_set(),
            i <= ak.len(),
            j <= bk.len(),
            merge(ak, bk) == emitted + merge(ak.skip(i as int), bk.skip(j as int)),
            r@.len() == emitted.len(),
            forall|x: int, y: int| 0 <= x < i && j <= y < bk.len() ==> lex_lt(ak[x], bk[y]),
            forall|x: int, y: int| 0 <= x < j && i <= y < ak.len() ==> lex_lt(bk[x], ak[y]),
            forall|t: int| #![trigger r@[t]] 0 <= t < r@.len() ==> {
                &&& r@[t].key@ == emitted[t]
                &&& match r@[t].left {
                    Some(x) => x < ak.len() && ak[x as int] == r@[t].key@,
                    None => !a.view().contains_key(r@[t].key@),
                }
                &&& match r@[t].right {
                    Some(y) => y < bk.len() && bk[y as int] == r@[t].key@,
                    None => !b.view().contains_key(r@[t].key@),
                }
            },
        decreases ak.len() + bk.len() - i - j,
    {
        proof { lemma_lex_order(); }
        let ghost sa = ak.skip(i as int);
        let ghost sb = bk.skip(j as int);
        if i < a.len() && j < b.len() && crate::text::str_eq(a.key_at(i).as_str(), b.key_at(j).as_str()) {
            let k = a.key_at(i).clone();
            proof {
                assert(sa[0] == ak[i as int] && sb[0] == bk[j as int]);
                assert(sa.drop_first() =~= ak.skip(i + 1));
                assert(sb.drop_first() =~= bk.skip(j + 1));
                assert(merge(sa, sb) == seq![sa[0]] + merge(ak.skip(i + 1), bk.skip(j + 1)));
            }
            r.push(UnionStep { key: k, left: Some(i), right: Some(j) });
            proof {
                emitted = emitted.push(ak[i as int]);
                assert forall|x: int, y: int| 0 <= x < i + 1 && j + 1 <= y < bk.len() implies lex_lt(ak[x], bk[y]) by {
                    if x == i {
                        assert(lex_lt(bk[j as int], bk[y]));
                    }
                }
                assert forall|x: int, y: int| 0 <= x < j + 1 && i + 1 <= y < ak.len() implies lex_lt(bk[x], ak[y]) by {
                    if x == j {
                        assert(lex_lt(ak[i as int], ak[y]));
                    }
                }
            }
            i = i + 1;
            j = j + 1;
        } else if j >= b.len() || (i < a.len() && crate::text::str_lt(a.key_at(i).as_str(), b.key_at(j).as_str())) {
            let k = a.key_at(i).clone();
            proof {
                assert(sa[0] == ak[i as int]);
                assert(sa.drop_first() =~= ak.skip(i + 1));
                if j < bk.len() {
                    assert(sb[0] == bk[j as int]);
                    assert(merge(sa, sb) == seq![sa[0]] + merge(ak.skip(i + 1), sb));
                } else {
                    assert(sb.len() == 0);
                    assert(merge(sa, sb) == sa);
                    assert(sa =~= seq![sa[0]] + ak.skip(i + 1));
                    assert(merge(ak.skip(i + 1), sb) == ak.skip(i + 1));
                }
                // the key is not among b's keys
                assert forall|y: int| 0 <= y < bk.len() implies bk[y] != ak[i as int] by {
                    if y < j {
                        assert(lex_lt(bk[y], ak[i as int]));
                    } else {
                        assert(lex_lt(ak[i as int], bk[j as int]));
                        if y > j {
                            assert(lex_lt(bk[j as int], bk[y]));
                        }
                    }
                }
                assert(!bk.to_set().contains(ak[i as int]));
            }
            r.push(UnionStep { key: k, left: Some(i), right: None });
            proof {
                emitted = emitted.push(ak[i as int]);
                assert forall|x: int, y: int| 0 <= x < j && i + 1 <= y < ak.len() implies lex_lt(bk[x], ak[y]) by {
                    assert(lex_lt(ak[i as int], ak[y]));
                }
            }
            i = i + 1;
        } else {
            let k = b.key_at(j).clone();
            proof {
                assert(sb[0] == bk[j as int]);
                assert(sb.drop_first() =~= bk.skip(j + 1));
                if i < ak.len() {
                    assert(sa[0] == ak[i as int]);
                    assert(ak[i as int] != bk[j as int]);
                    assert(!lex_lt(ak[i as int], bk[j as int]));
                    assert(lex_lt(bk[j as int], ak[i as int]));
                    assert(merge(sa, sb) == seq![sb[0]] + merge(sa, bk.skip(j + 1)));
                } else {
                    assert(sa.len() == 0);
                    assert(sb =~= seq![sb[0]] + bk.skip(j + 1));
                }
                assert forall|x: int| 0 <= x < ak.len() implies ak[x] != bk[j as int] by {
                    if x < i {
                        assert(lex_lt(ak[x], bk[j as int]));
                    } else {
                        assert(lex_lt(bk[j as int], ak[i as int]));
                        if x > i {
                            assert(lex_lt(ak[i as int], ak[x]));
                        }
                    }
                }
                assert(!ak.to_set().contains(bk[j as int]));
            }
            r.push(UnionStep { key: k, left: None, right: Some(j) });
            proof {
                emitted = emitted.push(bk[j as int]);
                assert forall|x: int, y: int| 0 <= x < i && j + 1 <= y < bk.len() implies lex_lt(ak[x], bk[y]) by {
                    assert(lex_lt(bk[j as int], bk[y]));
                }
            }
            j = j + 1;
        }
    }
    proof {
        assert(ak.skip(i as int).len() == 0);
        assert(bk.skip(j as int).len() == 0);
        assert(emitted =~= merge(ak, bk));
    }
    r
}

} // verus!

verus! {

/// The keys of a finite set in increasing order.
pub open spec fn sorted_of(s: Set<Seq<char>>) -> Seq<Seq<char>> {
    choose|q: Seq<Seq<char>>| strictly_sorted(q) && q.to_set() == s
}

/// Two strictly sorted sequences with the same elements are equal.
pub proof fn lemma_sorted_unique(s1: Seq<Seq<char>>, s2: Seq<Seq<char>>)
    requires
        strictly_sorted(s1),
        strictly_sorted(s2),
        s1.to_set() == s2.to_set(),
    ensures
        s1 == s2,
    decreases s1.len(),
{
    lemma_lex_order();
    if s1.len() == 0 {
        if s2.len() > 0 {
            assert(s2.to_set().contains(s2[0]));
            assert(s1.to_set().contains(s2[0]));
        }
        assert(s1 =~= s2);
    } else {
        assert(s1.to_set().contains(s1[0]));
        assert(s2.to_set().contains(s1[0]));
        if s2.len() == 0 {
            assert(false);
        }
        let k = choose|k: int| 0 <= k < s2.len() && s2[k] == s1[0];
        assert(s1.to_set().contains(s2[0]));
        let m = choose|m: int| 0 <= m < s1.len() && s1[m] == s2[0];
        if s1[0] != s2[0] {
            assert(k > 0 && m > 0);
            assert(lex_lt(s2[0], s2[k]));
            assert(lex_lt(s1[0], s1[m]));
            assert(false);
        }
        let t1 = s1.drop_first();
        let t2 = s2.drop_first();
        assert forall|x: Seq<char>| t1.to_set().contains(x) == #[trigger] t2.to_set().contains(x) by {
            if t1.to_set().contains(x) {
                let a = choose|a: int| 0 <= a < t1.len() && t1[a] == x;
                assert(s1[a + 1] == x);
                assert(lex_lt(s1[0], s1[a + 1]));
                assert(s2.to_set().contains(x));
                let b = choose|b: int| 0 <= b < s2.len() && s2[b] == x;
                if b == 0 { assert(false); }
                assert(t2[b - 1] == x);
            }
            if t2.to_set().contains(x) {
                let a = choose|a: int| 0 <= a < t2.len() && t2[a] == x;
                assert(s2[a + 1] == x);
                assert(lex_lt(s2[0], s2[a + 1]));
                assert(s1.to_set().contains(x));
                let b = choose|b: int| 0 <= b < s1.len() && s1[b] == x;
                if b == 0 { assert(false); }
                assert(t1[b - 1] == x);
            }
        }
        assert(t1.to_set() =~= t2.to_set());
        assert forall|i: int, j: int| #![trigger t1[i], t1[j]] 0 <= i < j < t1.len() implies lex_lt(t1[i], t1[j]) by {
            assert(lex_lt(s1[i + 1], s1[j + 1]));
        }
        assert forall|i: int, j: int| #![trigger t2[i], t2[j]] 0 <= i < j < t2.len() implies lex_lt(t2[i], t2[j]) by {
            assert(lex_lt(s2[i + 1], s2[j + 1]));
        }
        lemma_sorted_unique(t1, t2);
        assert(s1 =~= seq![s1[0]] + t1);
        assert(s2 =~= seq![s2[0]] + t2);
    }
}

impl<V> StrMap<V> {
    /// A well-formed map's keys are the sorted keys of its domain.
    pub proof fn lemma_keys_sorted_of(&self)
        requires
            self.wf(),
        ensures
            self.keys() == sorted_of(self.view().dom()),
    {
        self.lemma_view();
        let s = self.view().dom();
        assert(strictly_sorted(self.keys()) && self.keys().to_set() == s);
        let q = sorted_of(s);
        assert(strictly_sorted(q) && q.to_set() == s);
        lemma_sorted_unique(self.keys(), q);
    }
}

} // verus!

verus! {

/// Every key of the merge comes from one of the two sequences.
pub proof fn lemma_merge_members(a: Seq<Seq<char>>, b: Seq<Seq<char>>, t: int)
    requires
        0 <= t < merge(a, b).len(),
    ensures
        a.contains(merge(a, b)[t]) || b.contains(merge(a, b)[t]),
    decreases a.len() + b.len(),
{
    if a.len() == 0 {
        assert(b[t] == merge(a, b)[t]);
    } else if b.len() == 0 {
        assert(a[t] == merge(a, b)[t]);
    } else if a[0] == b[0] {
        if t > 0 {
            lemma_merge_members(a.drop_first(), b.drop_first(), t - 1);
            let x = merge(a.drop_first(), b.drop_first())[t - 1];
            if a.drop_first().contains(x) {
                let i = choose|i: int| 0 <= i < a.drop_first().len() && a.drop_first()[i] == x;
                assert(a[i + 1] == x);
            } else {
                let i = choose|i: int| 0 <= i < b.drop_first().len() && b.drop_first()[i] == x;
                assert(b[i + 1] == x);
            }
        } else {
            assert(a[0] == merge(a, b)[t]);
        }
    } else if lex_lt(a[0], b[0]) {
        if t > 0 {
            lemma_merge_members(a.drop_first(), b, t - 1);
            let x = merge(a.drop_first(), b)[t - 1];
            if a.drop_first().contains(x) {
                let i = choose|i: int| 0 <= i < a.drop_first().len() && a.drop_first()[i] == x;
                assert(a[i + 1] == x);
            }
        } else {
            assert(a[0] == merge(a, b)[t]);
        }
    } else {
        if t > 0 {
            lemma_merge_members(a, b.drop_first(), t - 1);
            let x = merge(a, b.drop_first())[t - 1];
            if b.drop_first().contains(x) {
                let i = choose|i: int| 0 <= i < b.drop_first().len() && b.drop_first()[i] == x;
                assert(b[i + 1] == x);
            }
        } else {
            assert(b[0] == merge(a, b)[t]);
        }
    }
}

} // verus!

verus! {

/// `q` with `x` added at its place in key order (unchanged if present).
pub open spec fn sorted_insert(q: Seq<Seq<char>>, x: Seq<char>) -> Seq<Seq<char>>
    decreases q.len(),
{
    if q.len() == 0 {
        seq![x]
    } else if x == q[0] {
        q
    } else if lex_lt(x, q[0]) {
        seq![x] + q
    } else {
        seq![q[0]] + sorted_insert(q.drop_first(), x)
    }
}

proof fn lemma_sorted_insert(q: Seq<Seq<char>>, x: Seq<char>)
    requires
        strictly_sorted(q),
    ensures
        strictly_sorted(sorted_insert(q, x)),
        sorted_insert(q, x).to_set() == q.to_set().insert(x),
        forall|i: int| 0 <= i < sorted_insert(q, x).len() ==>
            (#[trigger] sorted_insert(q, x)[i] == x || q.contains(sorted_insert(q, x)[i])),
    decreases q.len(),
{
    lemma_lex_order();
    let r = sorted_insert(q, x);
    if q.len() == 0 {
        assert(r == seq![x]);
        assert forall|y: Seq<char>| r.to_set().contains(y) == #[trigger] q.to_set().insert(x).contains(y) by {
            if r.to_set().contains(y) {
                let i = choose|i: int| 0 <= i < r.len() && r[i] == y;
                assert(i == 0);
            }
            if y == x {
                assert(r[0] == x);
            }
        }
        assert(r.to_set() =~= q.to_set().insert(x));
    } else if x == q[0] {
        assert(q.to_set().contains(x));
        assert(r.to_set() =~= q.to_set().insert(x));
    } else if lex_lt(x, q[0]) {
        assert forall|i: int, j: int| #![trigger r[i], r[j]] 0 <= i < j < r.len() implies lex_lt(r[i], r[j]) by {
            if i == 0 {
                if j > 1 {
                    assert(lex_lt(q[0], q[j - 1]));
                }
            } else {
                assert(lex_lt(q[i - 1], q[j - 1]));
            }
        }
        assert forall|y: Seq<char>| r.to_set().contains(y) == #[trigger] q.to_set().insert(x).contains(y) by {
            if r.to_set().contains(y) {
                let i = choose|i: int| 0 <= i < r.len() && r[i] == y;
                if i > 0 { assert(q[i - 1] == y); }
            }
            if q.to_set().contains(y) {
                let i = choose|i: int| 0 <= i < q.len() && q[i] == y;
                assert(r[i + 1] == y);
            }
            assert(r[0] == x);
        }
        assert(r.to_set() =~= q.to_set().insert(x));
        assert forall|i: int| 0 <= i < r.len() implies (#[trigger] r[i] == x || q.contains(r[i])) by {
            if i > 0 { assert(q[i - 1] == r[i]); }
        }
    } else {
        let t = q.drop_first();
        assert forall|i: int, j: int| #![trigger t[i], t[j]] 0 <= i < j < t.len() implies lex_lt(t[i], t[j]) by {
            assert(lex_lt(q[i + 1], q[j + 1]));
        }
        lemma_sorted_insert(t, x);
        let rt = sorted_insert(t, x);
        assert(lex_lt(q[0], x));
        assert forall|i: int, j: int| #![trigger r[i], r[j]] 0 <= i < j < r.len() implies lex_lt(r[i], r[j]) by {
            if i == 0 {
                let y = rt[j - 1];
                if y == x {
                } else {
                    assert(t.contains(y));
                    let k = choose|k: int| 0 <= k < t.len() && t[k] == y;
                    assert(lex_lt(q[0], q[k + 1]));
                }
            } else {
                assert(lex_lt(rt[i - 1], rt[j - 1]));
            }
        }
        assert forall|y: Seq<char>| r.to_set().contains(y) == #[trigger] q.to_set().insert(x).contains(y) by {
            if r.to_set().contains(y) {
                let i = choose|i: int| 0 <= i < r.len() && r[i] == y;
                if i > 0 {
                    assert(rt.to_set().contains(y));
                    if y != x {
                        assert(t.to_set().contains(y));
                        let k = choose|k: int| 0 <= k < t.len() && t[k] == y;
                        assert(q[k + 1] == y);
                    }
                }
            }
            if q.to_set().contains(y) {
                let i = choose|i: int| 0 <= i < q.len() && q[i] == y;
                if i == 0 {
                    assert(r[0] == y);
                } else {
                    assert(t[i - 1] == y);
                    assert(t.to_set().contains(y));
                    assert(rt.to_set().contains(y));
                    let k = choose|k: int| 0 <= k < rt.len() && rt[k] == y;
                    assert(r[k + 1] == y);
                }
            }
            if y == x {
                assert(rt.to_set().contains(x));
                let k = choose|k: int| 0 <= k < rt.len() && rt[k] == x;
                assert(r[k + 1] == x);
            }
        }
        assert(r.to_set() =~= q.to_set().insert(x));
        assert forall|i: int| 0 <= i < r.len() implies (#[trigger] r[i] == x || q.contains(r[i])) by {
            if i > 0 {
                let y = rt[i - 1];
                if y != x {
                    assert(t.contains(y));
                    let k = choose|k: int| 0 <= k < t.len() && t[k] == y;
                    assert(q[k + 1] == y);
                }
            } else {
                assert(r[0] == q[0]);
            }
        }
    }
}

/// Every finite sequence of keys has a strictly sorted arrangement of its
/// distinct elements.
pub proof fn lemma_sorted_exists(s: Seq<Seq<char>>)
    ensures
        exists|q: Seq<Seq<char>>| strictly_sorted(q) && q.to_set() == s.to_set(),
    decreases s.len(),
{
    if s.len() == 0 {
        let q = Seq::<Seq<char>>::empty();
        assert(q.to_set() =~= s.to_set());
        assert(strictly_sorted(q));
    } else {
        lemma_sorted_exists(s.drop_last());
        let q0 = choose|q: Seq<Seq<char>>| strictly_sorted(q) && q.to_set() == s.drop_last().to_set();
        lemma_sorted_insert(q0, s.last());
        let q = sorted_insert(q0, s.last());
        assert(s =~= s.drop_last().push(s.last()));
        assert(s.to_set() =~= s.drop_last().to_set().insert(s.last())) by {
            assert forall|y: Seq<char>| s.to_set().contains(y) == #[trigger] s.drop_last().to_set().insert(s.last()).contains(y) by {
                if s.to_set().contains(y) {
                    let i = choose|i: int| 0 <= i < s.len() && s[i] == y;
                    if i < s.len() - 1 {
                        assert(s.drop_last()[i] == y);
                    }
                }
                if s.drop_last().to_set().contains(y) {
                    let i = choose|i: int| 0 <= i < s.drop_last().len() && s.drop_last()[i] == y;
                    assert(s[i] == y);
                }
            }
        }
        assert(strictly_sorted(q) && q.to_set() == s.to_set());
    }
}

} // verus!
