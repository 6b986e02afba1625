//! An ordered map from strings to strings, kept as a vector sorted by key.
//!
//! Keys are ordered by code point, which is the order of `String` itself,
//! so iteration visits keys in the same order as a `BTreeMap<String, String>`.
use vstd::prelude::*;

use crate::text::{
    str_eq, lemma_seq_lt_asymmetric, lemma_seq_lt_irreflexive, lemma_seq_lt_total,
    lemma_seq_lt_transitive, seq_lt, str_lt,
};

verus! {

/// The views of a vector of string pairs.
pub open spec fn pairs_view(v: Seq<(String, String)>) -> Seq<(Seq<char>, Seq<char>)> {
    v.map_values(|p: (String, String)| (p.0@, p.1@))
}

/// The views of a vector of strings.
pub open spec fn strings_view(v: Seq<String>) -> Seq<Seq<char>> {
    v.map_values(|s: String| s@)
}

/// Keys strictly increasing.
pub open spec fn sorted_keys(ps: Seq<(Seq<char>, Seq<char>)>) -> bool {
    forall|i: int, j: int| 0 <= i < j < ps.len() ==> seq_lt(#[trigger] ps[i].0, #[trigger] ps[j].0)
}

/// Whether some pair has key `k`.
pub open spec fn has_key(ps: Seq<(Seq<char>, Seq<char>)>, k: Seq<char>) -> bool {
    exists|i: int| 0 <= i < ps.len() && #[trigger] ps[i].0 == k
}

/// A position holding key `k` (meaningful when there is one).
pub open spec fn index_of_key(ps: Seq<(Seq<char>, Seq<char>)>, k: Seq<char>) -> int {
    choose|i: int| 0 <= i < ps.len() && #[trigger] ps[i].0 == k
}

/// Whether one of the first `n` pairs carries key `k`.
pub open spec fn key_in_prefix(ps: Seq<(Seq<char>, Seq<char>)>, n: int, k: Seq<char>) -> bool {
    exists|b: int| 0 <= b < n && #[trigger] ps[b].0 == k
}

/// Growing a prefix by one pair adds exactly that pair's key.
pub proof fn lemma_prefix_step(ps: Seq<(Seq<char>, Seq<char>)>, i: int, k: Seq<char>)
    requires
        0 <= i < ps.len(),
    ensures
        key_in_prefix(ps, i + 1, k) <==> (key_in_prefix(ps, i, k) || ps[i].0 == k),
{
    if key_in_prefix(ps, i + 1, k) {
        let b = choose|b: int| 0 <= b < i + 1 && #[trigger] ps[b].0 == k;
        if b < i {
            assert(key_in_prefix(ps, i, k));
        }
    }
    if key_in_prefix(ps, i, k) {
        let b = choose|b: int| 0 <= b < i && #[trigger] ps[b].0 == k;
        assert(0 <= b < i + 1 && ps[b].0 == k);
    }
    if ps[i].0 == k {
        assert(0 <= i < i + 1 && ps[i].0 == k);
    }
}

/// The whole sequence as a prefix.
pub proof fn lemma_prefix_full(ps: Seq<(Seq<char>, Seq<char>)>, k: Seq<char>)
    ensures
        key_in_prefix(ps, ps.len() as int, k) == has_key(ps, k),
{
    if has_key(ps, k) {
        let b = choose|b: int| 0 <= b < ps.len() && #[trigger] ps[b].0 == k;
        assert(key_in_prefix(ps, ps.len() as int, k));
    }
    if key_in_prefix(ps, ps.len() as int, k) {
        let b = choose|b: int| 0 <= b < ps.len() && #[trigger] ps[b].0 == k;
        assert(has_key(ps, k));
    }
}

/// The map that a sequence of pairs with distinct keys denotes.
pub open spec fn pairs_map(ps: Seq<(Seq<char>, Seq<char>)>) -> Map<Seq<char>, Seq<char>> {
    Map::new(|k: Seq<char>| has_key(ps, k), |k: Seq<char>| ps[index_of_key(ps, k)].1)
}

/// Sorted keys are distinct.
pub proof fn lemma_sorted_distinct(ps: Seq<(Seq<char>, Seq<char>)>, i: int, j: int)
    requires
        sorted_keys(ps),
        0 <= i < ps.len(),
        0 <= j < ps.len(),
        i != j,
    ensures
        ps[i].0 != ps[j].0,
{
    if i < j {
        assert(seq_lt(ps[i].0, ps[j].0));
        lemma_seq_lt_irreflexive(ps[i].0);
    } else {
        assert(seq_lt(ps[j].0, ps[i].0));
        lemma_seq_lt_irreflexive(ps[i].0);
    }
}

/// In sorted pairs, the map gives each key the value stored beside it.
pub proof fn lemma_pairs_map_at(ps: Seq<(Seq<char>, Seq<char>)>, i: int)
    requires
        sorted_keys(ps),
        0 <= i < ps.len(),
    ensures
        pairs_map(ps).contains_key(ps[i].0),
        pairs_map(ps)[ps[i].0] == ps[i].1,
{
    let k = ps[i].0;
    assert(has_key(ps, k));
    let j = index_of_key(ps, k);
    assert(0 <= j < ps.len() && ps[j].0 == k);
    if j != i {
        lemma_sorted_distinct(ps, i, j);
    }
    assert(pairs_map(ps)[k] == ps[j].1);
}

/// The domain of the map is the set of keys.
pub proof fn lemma_pairs_map_dom(ps: Seq<(Seq<char>, Seq<char>)>)
    ensures
        pairs_map(ps).dom() == ps.map_values(|p: (Seq<char>, Seq<char>)| p.0).to_set(),
{
    let ks = ps.map_values(|p: (Seq<char>, Seq<char>)| p.0);
    assert forall|k: Seq<char>| pairs_map(ps).dom().contains(k) <==> ks.to_set().contains(k) by {
        if has_key(ps, k) {
            let i = choose|i: int| 0 <= i < ps.len() && #[trigger] ps[i].0 == k;
            assert(ks[i] == k);
        }
        if ks.to_set().contains(k) {
            let i = choose|i: int| 0 <= i < ks.len() && ks[i] == k;
            assert(ps[i].0 == k);
        }
    }
    assert(pairs_map(ps).dom() =~= ks.to_set());
}

/// An ordered map from strings to strings.
#[derive(Debug)]
pub struct StrMap {
    entries: Vec<(String, String)>,
}

impl StrMap {
    /// The entries in key order.
    pub closed spec fn pairs(&self) -> Seq<(Seq<char>, Seq<char>)> {
        pairs_view(self.entries@)
    }

    /// Keys are kept strictly increasing.
    pub open spec fn wf(&self) -> bool {
        sorted_keys(self.pairs())
    }

    #[verifier::type_invariant]
    spec fn keys_sorted(self) -> bool {
        sorted_keys(pairs_view(self.entries@))
    }

    /// The keys in order.
    pub open spec fn key_seq(&self) -> Seq<Seq<char>> {
        self.pairs().map_values(|p: (Seq<char>, Seq<char>)| p.0)
    }

    /// The values in key order.
    pub open spec fn value_seq(&self) -> Seq<Seq<char>> {
        self.pairs().map_values(|p: (Seq<char>, Seq<char>)| p.1)
    }

    /// An empty map.
    pub fn new() -> (m: Self)
        ensures
            m.wf(),
            m.pairs() == Seq::<(Seq<char>, Seq<char>)>::empty(),
            m@ == Map::<Seq<char>, Seq<char>>::empty(),
    {
        let m = StrMap { entries: Vec::new() };
        assert(m.pairs() =~= Seq::<(Seq<char>, Seq<char>)>::empty());
        assert(m@ =~= Map::<Seq<char>, Seq<char>>::empty());
        m
    }

    /// A map with the same entries.
    pub fn duplicate(&self) -> (m: Self)
        ensures
            m.pairs() == self.pairs(),
            m.wf(),
    {
        proof {
            use_type_invariant(self);
        }
        StrMap { entries: self.to_pairs() }
    }

    /// Remove every entry.
    pub fn clear(&mut self)
        ensures
            final(self).pairs() == Seq::<(Seq<char>, Seq<char>)>::empty(),
            final(self)@ == Map::<Seq<char>, Seq<char>>::empty(),
    {
        *self = StrMap::new();
    }

    /// Number of entries.
    pub fn len(&self) -> (n: usize)
        ensures
            n == self.pairs().len(),
            self.wf(),
    {
        proof {
            use_type_invariant(self);
        }
        self.entries.len()
    }

    /// Whether there are no entries.
    pub fn is_empty(&self) -> (b: bool)
        ensures
            b == (self.pairs().len() == 0),
            b == (self@.dom().len() == 0),
            self.wf(),
    {
        proof {
            use_type_invariant(self);
            self.lemma_len();
        }
        self.entries.len() == 0
    }

    /// The number of keys equals the number of entries.
    pub proof fn lemma_len(&self)
        requires
            self.wf(),
        ensures
            self@.dom().finite(),
            self@.dom().len() == self.pairs().len(),
    {
        let ps = self.pairs();
        let ks = self.key_seq();
        lemma_pairs_map_dom(ps);
        assert forall|i: int, j: int| 0 <= i < ks.len() && 0 <= j < ks.len() && i != j implies ks[i]
            != ks[j] by {
            lemma_sorted_distinct(ps, i, j);
        }
        assert(ks.no_duplicates());
        ks.unique_seq_to_set();
    }

    /// The entry at position `i` in key order.
    pub fn entry_at(&self, i: usize) -> (r: (&String, &String))
        requires
            i < self.pairs().len(),
        ensures
            r.0@ == self.pairs()[i as int].0,
            r.1@ == self.pairs()[i as int].1,
    {
        let e = &self.entries[i];
        (&e.0, &e.1)
    }

    /// Position of key `k`, if present.
    pub fn find(&self, k: &str) -> (r: Option<usize>)
        ensures
            match r {
                Some(i) => i < self.pairs().len() && self.pairs()[i as int].0 == k@,
                None => !self@.contains_key(k@),
            },
    {
        proof {
            use_type_invariant(self);
        }
        let mut i: usize = 0;
        while i < self.entries.len()
            invariant
                i <= self.pairs().len(),
                forall|j: int| 0 <= j < i ==> self.pairs()[j].0 != k@,
            decreases self.pairs().len() - i,
        {
            assert(self.pairs()[i as int].0 == self.entries@[i as int].0@);
            if str_eq(self.entries[i].0.as_str(), k) {
                return Some(i);
            }
            i = i + 1;
        }
        None
    }

    /// The value for key `k`, if present.
    pub fn get(&self, k: &str) -> (r: Option<&String>)
        ensures
            match r {
                Some(v) => self@.contains_key(k@) && v@ == self@[k@],
                None => !self@.contains_key(k@),
            },
    {
        proof {
            use_type_invariant(self);
        }
        match self.find(k) {
            Some(i) => {
                proof {
                    lemma_pairs_map_at(self.pairs(), i as int);
                }
                Some(&self.entries[i].1)
            },
            None => None,
        }
    }

    /// Whether key `k` is present.
    pub fn contains_key(&self, k: &str) -> (b: bool)
        ensures
            b == self@.contains_key(k@),
    {
        proof {
            use_type_invariant(self);
        }
        match self.find(k) {
            Some(i) => {
                proof {
                    lemma_pairs_map_at(self.pairs(), i as int);
                }
                true
            },
            None => false,
        }
    }

    /// Insert or replace the value for `k`, returning the previous value.
    pub fn insert(&mut self, k: String, v: String) -> (r: Option<String>)
        ensures
            final(self).wf(),
            final(self)@ == old(self)@.insert(k@, v@),
            match r {
                Some(o) => old(self)@.contains_key(k@) && o@ == old(self)@[k@],
                None => !old(self)@.contains_key(k@),
            },
    {
        proof {
            use_type_invariant(&*self);
        }
        let mut entries: Vec<(String, String)> = Vec::new();
        std::mem::swap(&mut entries, &mut self.entries);
        let r = insert_sorted(&mut entries, k, v);
        self.entries = entries;
        r
    }

    /// Remove key `k`, returning its value if it was present.
    pub fn remove(&mut self, k: &str) -> (r: Option<String>)
        ensures
            final(self).wf(),
            final(self)@ == old(self)@.remove(k@),
            match r {
                Some(o) => old(self)@.contains_key(k@) && o@ == old(self)@[k@],
                None => !old(self)@.contains_key(k@) && final(self).pairs() == old(self).pairs(),
            },
    {
        proof {
            use_type_invariant(&*self);
        }
        let mut entries: Vec<(String, String)> = Vec::new();
        std::mem::swap(&mut entries, &mut self.entries);
        let r = remove_sorted(&mut entries, k);
        self.entries = entries;
        r
    }

    /// The keys in order.
    pub fn keys(&self) -> (r: Vec<String>)
        ensures
            strings_view(r@) == self.key_seq(),
    {
        let mut r: Vec<String> = Vec::new();
        let mut i: usize = 0;
        while i < self.entries.len()
            invariant
                i <= self.pairs().len(),
                strings_view(r@) == self.key_seq().take(i as int),
            decreases self.pairs().len() - i,
        {
            assert(self.pairs()[i as int].0 == self.entries@[i as int].0@);
            let ghost old_r = r@;
            r.push(self.entries[i].0.clone());
            assert(strings_view(r@) =~= strings_view(old_r).push(self.pairs()[i as int].0));
            assert(strings_view(r@) =~= self.key_seq().take(i + 1));
            i = i + 1;
        }
        assert(self.key_seq().take(i as int) =~= self.key_seq());
        r
    }

    /// The values in key order.
    pub fn values(&self) -> (r: Vec<String>)
        ensures
            strings_view(r@) == self.value_seq(),
    {
        let mut r: Vec<String> = Vec::new();
        let mut i: usize = 0;
        while i < self.entries.len()
            invariant
                i <= self.pairs().len(),
                strings_view(r@) == self.value_seq().take(i as int),
            decreases self.pairs().len() - i,
        {
            assert(self.pairs()[i as int].1 == self.entries@[i as int].1@);
            let ghost old_r = r@;
            r.push(self.entries[i].1.clone());
            assert(strings_view(r@) =~= strings_view(old_r).push(self.pairs()[i as int].1));
            assert(strings_view(r@) =~= self.value_seq().take(i + 1));
            i = i + 1;
        }
        assert(self.value_seq().take(i as int) =~= self.value_seq());
        r
    }

    /// All entries in key order.
    pub fn to_pairs(&self) -> (r: Vec<(String, String)>)
        ensures
            pairs_view(r@) == self.pairs(),
    {
        let mut r: Vec<(String, String)> = Vec::new();
        let mut i: usize = 0;
        while i < self.entries.len()
            invariant
                i <= self.pairs().len(),
                pairs_view(r@) == self.pairs().take(i as int),
            decreases self.pairs().len() - i,
        {
            assert(self.pairs()[i as int] == (self.entries@[i as int].0@, self.entries@[i as int].1@));
            let ghost old_r = r@;
            r.push((self.entries[i].0.clone(), self.entries[i].1.clone()));
            assert(pairs_view(r@) =~= pairs_view(old_r).push(self.pairs()[i as int]));
            assert(pairs_view(r@) =~= self.pairs().take(i + 1));
            i = i + 1;
        }
        assert(self.pairs().take(i as int) =~= self.pairs());
        r
    }
}

/// Insert or replace `k` in entries sorted by key, keeping them sorted.
fn insert_sorted(entries: &mut Vec<(String, String)>, k: String, v: String) -> (r: Option<String>)
    requires
        sorted_keys(pairs_view(old(entries)@)),
    ensures
        sorted_keys(pairs_view(final(entries)@)),
        pairs_map(pairs_view(final(entries)@)) == pairs_map(pairs_view(old(entries)@)).insert(k@, v@),
        match r {
            Some(o) => pairs_map(pairs_view(old(entries)@)).contains_key(k@) && o@ == pairs_map(
                pairs_view(old(entries)@),
            )[k@],
            None => !pairs_map(pairs_view(old(entries)@)).contains_key(k@),
        },
{
        let ghost ps = pairs_view(entries@);
        let mut p: usize = 0;
        while p < entries.len() && str_lt(entries[p].0.as_str(), k.as_str())
            invariant
                p <= ps.len(),
                ps == pairs_view(entries@),
                sorted_keys(ps),
                forall|j: int| 0 <= j < p ==> seq_lt(ps[j].0, k@),
            decreases ps.len() - p,
        {
            p = p + 1;
        }
        // every key at or after p is at least k
        proof {
            assert forall|j: int| p <= j < ps.len() implies !seq_lt(ps[j].0, k@) by {
                if j > p {
                    assert(seq_lt(ps[p as int].0, ps[j].0));
                    if seq_lt(ps[j].0, k@) {
                        lemma_seq_lt_transitive(ps[p as int].0, ps[j].0, k@);
                    }
                }
            }
        }
        if p < entries.len() && str_eq(entries[p].0.as_str(), k.as_str()) {
            let (_, old_v) = entries.remove(p);
            entries.insert(p, (k, v));
            let ghost nps = pairs_view(entries@);
            proof {
                assert(nps =~= ps.update(p as int, (k@, v@)));
                lemma_pairs_map_at(ps, p as int);
                assert forall|i: int, j: int| 0 <= i < j < nps.len() implies seq_lt(
                #[trigger] nps[i].0,
                #[trigger] nps[j].0,
            ) by {
                assert(nps[i].0 == ps[i].0);
                assert(nps[j].0 == ps[j].0);
            }
                assert forall|q: Seq<char>| #[trigger] pairs_map(nps).contains_key(q) == pairs_map(
                    ps,
                ).insert(k@, v@).contains_key(q) by {
                    if has_key(nps, q) {
                        let j = choose|j: int| 0 <= j < nps.len() && #[trigger] nps[j].0 == q;
                        assert(ps[j].0 == q);
                    }
                    if has_key(ps, q) {
                        let j = choose|j: int| 0 <= j < ps.len() && #[trigger] ps[j].0 == q;
                        assert(nps[j].0 == q);
                    }
                    if q == k@ {
                        assert(nps[p as int].0 == q);
                    }
                }
                assert forall|q: Seq<char>| #[trigger] pairs_map(nps).contains_key(q) implies
                    pairs_map(nps)[q] == pairs_map(ps).insert(k@, v@)[q] by {
                    let j = choose|j: int| 0 <= j < nps.len() && #[trigger] nps[j].0 == q;
                    lemma_pairs_map_at(nps, j);
                    if j != p {
                        lemma_pairs_map_at(ps, j);
                    }
                }
                assert(pairs_map(nps) =~= pairs_map(ps).insert(k@, v@));
            }
            Some(old_v)
        } else {
            proof {
                if p < ps.len() {
                    assert(ps[p as int].0 == entries@[p as int].0@);
                    assert(ps[p as int].0 != k@);
                    lemma_seq_lt_total(ps[p as int].0, k@);
                }
                assert forall|j: int| p <= j < ps.len() implies seq_lt(k@, ps[j].0) by {
                    lemma_seq_lt_total(ps[p as int].0, k@);
                    if j > p {
                        assert(seq_lt(ps[p as int].0, ps[j].0));
                        lemma_seq_lt_transitive(k@, ps[p as int].0, ps[j].0);
                    }
                }
                assert(!has_key(ps, k@)) by {
                    if has_key(ps, k@) {
                        let j = choose|j: int| 0 <= j < ps.len() && #[trigger] ps[j].0 == k@;
                        if j < p {
                            lemma_seq_lt_irreflexive(k@);
                        } else {
                            lemma_seq_lt_irreflexive(k@);
                        }
                    }
                }
            }
            entries.insert(p, (k, v));
            let ghost nps = pairs_view(entries@);
            proof {
                assert(nps =~= ps.insert(p as int, (k@, v@)));
                assert forall|i: int, j: int| 0 <= i < j < nps.len() implies seq_lt(
                    #[trigger] nps[i].0,
                    #[trigger] nps[j].0,
                ) by {
                    if j < p {
                    } else if j == p {
                    } else if i < p {
                        assert(seq_lt(ps[i].0, k@));
                        assert(seq_lt(k@, ps[j - 1].0));
                        lemma_seq_lt_transitive(ps[i].0, k@, ps[j - 1].0);
                    } else if i == p {
                    } else {
                    }
                }
                assert forall|q: Seq<char>| #[trigger] pairs_map(nps).contains_key(q) == pairs_map(
                    ps,
                ).insert(k@, v@).contains_key(q) by {
                    if has_key(nps, q) {
                        let j = choose|j: int| 0 <= j < nps.len() && #[trigger] nps[j].0 == q;
                        if j < p {
                            assert(ps[j].0 == q);
                        } else if j > p {
                            assert(ps[j - 1].0 == q);
                        }
                    }
                    if has_key(ps, q) {
                        let j = choose|j: int| 0 <= j < ps.len() && #[trigger] ps[j].0 == q;
                        if j < p {
                            assert(nps[j].0 == q);
                        } else {
                            assert(nps[j + 1].0 == q);
                        }
                    }
                    if q == k@ {
                        assert(nps[p as int].0 == q);
                    }
                }
                assert forall|q: Seq<char>| #[trigger] pairs_map(nps).contains_key(q) implies
                    pairs_map(nps)[q] == pairs_map(ps).insert(k@, v@)[q] by {
                    let j = choose|j: int| 0 <= j < nps.len() && #[trigger] nps[j].0 == q;
                    lemma_pairs_map_at(nps, j);
                    if j < p {
                        lemma_pairs_map_at(ps, j);
                    } else if j > p {
                        lemma_pairs_map_at(ps, j - 1);
                    }
                }
                assert(pairs_map(nps) =~= pairs_map(ps).insert(k@, v@));
            }
            None
        }
}

/// Remove `k` from entries sorted by key, keeping them sorted.
fn remove_sorted(entries: &mut Vec<(String, String)>, k: &str) -> (r: Option<String>)
    requires
        sorted_keys(pairs_view(old(entries)@)),
    ensures
        sorted_keys(pairs_view(final(entries)@)),
        pairs_map(pairs_view(final(entries)@)) == pairs_map(pairs_view(old(entries)@)).remove(k@),
        match r {
            Some(o) => pairs_map(pairs_view(old(entries)@)).contains_key(k@) && o@ == pairs_map(
                pairs_view(old(entries)@),
            )[k@],
            None => !pairs_map(pairs_view(old(entries)@)).contains_key(k@) && pairs_view(
                final(entries)@,
            ) == pairs_view(old(entries)@),
        },
{
        let ghost ps = pairs_view(entries@);
        match find_sorted(entries, k) {
            None => {
                proof {
                    assert(pairs_map(ps).remove(k@) =~= pairs_map(ps));
                }
                None
            },
            Some(p) => {
                proof {
                    lemma_pairs_map_at(ps, p as int);
                }
                let (_, v) = entries.remove(p);
                let ghost nps = pairs_view(entries@);
                proof {
                    assert(nps =~= ps.remove(p as int));
                    assert forall|i: int, j: int| 0 <= i < j < nps.len() implies seq_lt(
                        #[trigger] nps[i].0,
                        #[trigger] nps[j].0,
                    ) by {
                        let i2 = if i < p { i } else { i + 1 };
                        let j2 = if j < p { j } else { j + 1 };
                        assert(seq_lt(ps[i2].0, ps[j2].0));
                    }
                    assert forall|q: Seq<char>| #[trigger] pairs_map(nps).contains_key(q)
                        == pairs_map(ps).remove(k@).contains_key(q) by {
                        if has_key(nps, q) {
                            let j = choose|j: int| 0 <= j < nps.len() && #[trigger] nps[j].0 == q;
                            let j2 = if j < p { j } else { j + 1 };
                            assert(ps[j2].0 == q);
                            lemma_sorted_distinct(ps, j2, p as int);
                        }
                        if has_key(ps, q) && q != k@ {
                            let j = choose|j: int| 0 <= j < ps.len() && #[trigger] ps[j].0 == q;
                            if j < p {
                                assert(nps[j].0 == q);
                            } else {
                                assert(nps[j - 1].0 == q);
                            }
                        }
                    }
                    assert forall|q: Seq<char>| #[trigger] pairs_map(nps).contains_key(q) implies
                        pairs_map(nps)[q] == pairs_map(ps).remove(k@)[q] by {
                        let j = choose|j: int| 0 <= j < nps.len() && #[trigger] nps[j].0 == q;
                        lemma_pairs_map_at(nps, j);
                        let j2 = if j < p { j } else { j + 1 };
                        lemma_pairs_map_at(ps, j2);
                    }
                    assert(pairs_map(nps) =~= pairs_map(ps).remove(k@));
                }
                Some(v)
            },
        }
}

/// Position of key `k` in entries sorted by key, if present.
fn find_sorted(entries: &Vec<(String, String)>, k: &str) -> (r: Option<usize>)
    requires
        sorted_keys(pairs_view(entries@)),
    ensures
        match r {
            Some(i) => i < entries@.len() && pairs_view(entries@)[i as int].0 == k@,
            None => !pairs_map(pairs_view(entries@)).contains_key(k@),
        },
{
    let mut i: usize = 0;
    while i < entries.len()
        invariant
            i <= entries@.len(),
            forall|j: int| 0 <= j < i ==> pairs_view(entries@)[j].0 != k@,
        decreases entries@.len() - i,
    {
        assert(pairs_view(entries@)[i as int].0 == entries@[i as int].0@);
        if str_eq(entries[i].0.as_str(), k) {
            return Some(i);
        }
        i = i + 1;
    }
    None
}

impl View for StrMap {
    type V = Map<Seq<char>, Seq<char>>;

    open spec fn view(&self) -> Map<Seq<char>, Seq<char>> {
        pairs_map(self.pairs())
    }
}

} // verus!

verus! {

/// The map that collecting pairs into a map gives: a later pair overrides
/// an earlier pair with the same key.
pub open spec fn collect_map(ps: Seq<(Seq<char>, Seq<char>)>) -> Map<Seq<char>, Seq<char>>
    decreases ps.len(),
{
    if ps.len() == 0 {
        Map::empty()
    } else {
        collect_map(ps.drop_last()).insert(ps.last().0, ps.last().1)
    }
}

impl StrMap {
    /// A map holding the given pairs; a later pair overrides an earlier one
    /// with the same key.
    pub fn from_pairs(v: &[(String, String)]) -> (m: Self)
        ensures
            m.wf(),
            m@ == collect_map(pairs_view(v@)),
    {
        let ghost pv = pairs_view(v@);
        let mut m = StrMap::new();
        let mut i: usize = 0;
        assert(pv.take(0) =~= Seq::<(Seq<char>, Seq<char>)>::empty());
        while i < v.len()
            invariant
                i <= v@.len(),
                pv == pairs_view(v@),
                m.wf(),
                m@ == collect_map(pv.take(i as int)),
            decreases v@.len() - i,
        {
            let (k, val) = &v[i];
            m.insert(k.clone(), val.clone());
            proof {
                assert(pv.take(i + 1).drop_last() =~= pv.take(i as int));
                assert(pv.take(i + 1).last() == pv[i as int]);
            }
            i = i + 1;
        }
        assert(pv.take(i as int) =~= pv);
        m
    }
}

} // verus!
