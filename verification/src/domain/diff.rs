//! Comparison between vault secrets and a local `.env` file.
use vstd::prelude::*;

use crate::strmap::{
    collect_map, has_key, key_in_prefix, lemma_pairs_map_at, lemma_prefix_full, lemma_prefix_step,
    pairs_map, pairs_view, sorted_keys, StrMap,
};
use crate::text::{
    lemma_seq_lt_irreflexive, lemma_seq_lt_total, lemma_seq_lt_transitive, seq_lt, str_eq, str_lt,
};

verus! {

/// The sync state of a single secret.
#[derive(Debug, Clone, PartialEq, Eq, Structural)]
pub enum EntryStatus {
    /// In both, with matching values.
    Synced,
    /// In both, with different values.
    Modified,
    /// In the vault only.
    VaultOnly,
    /// In the `.env` file only.
    EnvOnly,
}

/// The status of key `k` given the vault's and the file's maps.
pub open spec fn status_of(
    vm: Map<Seq<char>, Seq<char>>,
    em: Map<Seq<char>, Seq<char>>,
    k: Seq<char>,
) -> EntryStatus {
    if vm.contains_key(k) && em.contains_key(k) {
        if vm[k] == em[k] {
            EntryStatus::Synced
        } else {
            EntryStatus::Modified
        }
    } else if vm.contains_key(k) {
        EntryStatus::VaultOnly
    } else {
        EntryStatus::EnvOnly
    }
}

/// A single entry in a diff.
#[derive(Debug, Clone)]
pub struct DiffEntry {
    key: String,
    status: EntryStatus,
}

impl View for DiffEntry {
    type V = (Seq<char>, EntryStatus);

    closed spec fn view(&self) -> (Seq<char>, EntryStatus) {
        (self.key@, self.status)
    }
}

/// The views of a sequence of diff entries.
pub open spec fn entries_view(v: Seq<DiffEntry>) -> Seq<(Seq<char>, EntryStatus)> {
    v.map_values(|e: DiffEntry| e@)
}

/// The views of a sequence of references to diff entries.
pub open spec fn entry_refs_view(v: Seq<&DiffEntry>) -> Seq<(Seq<char>, EntryStatus)> {
    v.map_values(|e: &DiffEntry| e@)
}

impl DiffEntry {
    /// Create a diff entry.
    pub fn new(key: String, status: EntryStatus) -> (e: Self)
        ensures
            e@ == (key@, status),
    {
        DiffEntry { key, status }
    }

    /// The secret key name.
    pub fn key(&self) -> (k: &str)
        ensures
            k@ == self@.0,
    {
        self.key.as_str()
    }

    /// The sync status.
    pub fn status(&self) -> (s: &EntryStatus)
        ensures
            *s == self@.1,
    {
        &self.status
    }

    /// Whether this entry is synced.
    pub fn is_synced(&self) -> (b: bool)
        ensures
            b == (self@.1 == EntryStatus::Synced),
    {
        self.status == EntryStatus::Synced
    }
}

/// Keys strictly increasing.
pub open spec fn sorted_entries(es: Seq<(Seq<char>, EntryStatus)>) -> bool {
    forall|i: int, j: int| 0 <= i < j < es.len() ==> seq_lt(#[trigger] es[i].0, #[trigger] es[j].0)
}

/// Whether some entry carries key `k`.
pub open spec fn has_entry_key(es: Seq<(Seq<char>, EntryStatus)>, k: Seq<char>) -> bool {
    exists|i: int| 0 <= i < es.len() && #[trigger] es[i].0 == k
}

/// What a diff of the two maps is: one entry per key of either map, in
/// increasing key order, each with its status.
pub open spec fn is_diff_of(
    es: Seq<(Seq<char>, EntryStatus)>,
    vm: Map<Seq<char>, Seq<char>>,
    em: Map<Seq<char>, Seq<char>>,
) -> bool {
    &&& sorted_entries(es)
    &&& forall|k: Seq<char>|
        #[trigger] has_entry_key(es, k) <==> (vm.contains_key(k) || em.contains_key(k))
    &&& forall|i: int| 0 <= i < es.len() ==> #[trigger] es[i].1 == status_of(vm, em, es[i].0)
}

/// The full diff between vault secrets and a `.env` file.
#[derive(Debug)]
pub struct Diff {
    entries: Vec<DiffEntry>,
}

impl View for Diff {
    type V = Seq<(Seq<char>, EntryStatus)>;

    closed spec fn view(&self) -> Seq<(Seq<char>, EntryStatus)> {
        entries_view(self.entries@)
    }
}

/// A key that precedes the head of sorted pairs and is not among the first
/// `i` pairs is not among them at all.
proof fn lemma_absent_beyond(ps: Seq<(Seq<char>, Seq<char>)>, i: int, k: Seq<char>)
    requires
        sorted_keys(ps),
        0 <= i <= ps.len(),
        i < ps.len() ==> seq_lt(k, ps[i].0),
        !key_in_prefix(ps, i, k),
    ensures
        !has_key(ps, k),
{
    if has_key(ps, k) {
        let b = choose|b: int| 0 <= b < ps.len() && #[trigger] ps[b].0 == k;
        if b < i {
            assert(key_in_prefix(ps, i, k));
        } else if b == i {
            lemma_seq_lt_irreflexive(k);
        } else {
            lemma_seq_lt_transitive(k, ps[i].0, ps[b].0);
            lemma_seq_lt_irreflexive(k);
        }
    }
}

/// Appending an entry adds exactly its key.
proof fn lemma_entry_key_push(
    es: Seq<(Seq<char>, EntryStatus)>,
    e: (Seq<char>, EntryStatus),
    q: Seq<char>,
)
    ensures
        has_entry_key(es.push(e), q) <==> (has_entry_key(es, q) || e.0 == q),
{
    let ns = es.push(e);
    if has_entry_key(ns, q) {
        let a = choose|a: int| 0 <= a < ns.len() && #[trigger] ns[a].0 == q;
        if a < es.len() {
            assert(es[a] == ns[a]);
            assert(has_entry_key(es, q));
        }
    }
    if has_entry_key(es, q) {
        let a = choose|a: int| 0 <= a < es.len() && #[trigger] es[a].0 == q;
        assert(ns[a] == es[a]);
        assert(has_entry_key(ns, q));
    }
    if e.0 == q {
        assert(ns[es.len() as int] == e);
        assert(has_entry_key(ns, q));
    }
}

impl Diff {
    /// Compute the diff between vault secrets and `.env` entries.
    ///
    /// When a list holds a key twice, its later value counts. The entries
    /// are sorted by key.
    pub fn compute(vault_secrets: &[(String, String)], env_secrets: &[(String, String)]) -> (d: Self)
        ensures
            is_diff_of(
                d@,
                collect_map(pairs_view(vault_secrets@)),
                collect_map(pairs_view(env_secrets@)),
            ),
    {
        let vm = StrMap::from_pairs(vault_secrets);
        let em = StrMap::from_pairs(env_secrets);
        let ghost vp = vm.pairs();
        let ghost ep = em.pairs();
        let vn = vm.len();
        let en = em.len();
        let mut out: Vec<DiffEntry> = Vec::new();
        let mut i: usize = 0;
        let mut j: usize = 0;
        while i < vn || j < en
            invariant
                vm.wf(),
                em.wf(),
                vp == vm.pairs(),
                ep == em.pairs(),
                vn == vp.len(),
                en == ep.len(),
                i <= vn,
                j <= en,
                sorted_entries(entries_view(out@)),
                // everything emitted precedes both heads
                forall|a: int|
                    0 <= a < out@.len() ==> (i < vn ==> seq_lt(
                        #[trigger] entries_view(out@)[a].0,
                        vp[i as int].0,
                    )) && (j < en ==> seq_lt(entries_view(out@)[a].0, ep[j as int].0)),
                // emitted keys are exactly the keys consumed so far
                forall|k: Seq<char>|
                    #[trigger] has_entry_key(entries_view(out@), k) <==> (key_in_prefix(
                        vp,
                        i as int,
                        k,
                    ) || key_in_prefix(ep, j as int, k)),
                forall|a: int|
                    0 <= a < out@.len() ==> #[trigger] entries_view(out@)[a].1 == status_of(
                        vm@,
                        em@,
                        entries_view(out@)[a].0,
                    ),
            decreases vn + en - i - j,
        {
            let ghost old_out = entries_view(out@);
            let ghost oi = i as int;
            let ghost oj = j as int;
            let take_v: bool;
            let take_e: bool;
            if i < vn && j < en {
                let (vk, _) = vm.entry_at(i);
                let (ek, _) = em.entry_at(j);
                if str_eq(vk.as_str(), ek.as_str()) {
                    take_v = true;
                    take_e = true;
                } else if str_lt(vk.as_str(), ek.as_str()) {
                    take_v = true;
                    take_e = false;
                } else {
                    take_v = false;
                    take_e = true;
                    proof {
                        lemma_seq_lt_total(vk@, ek@);
                    }
                }
            } else if i < vn {
                take_v = true;
                take_e = false;
            } else {
                take_v = false;
                take_e = true;
            }
            // the key about to be emitted
            let ghost k: Seq<char> = if take_v { vp[oi].0 } else { ep[oj].0 };
            proof {
                assert(take_v ==> oi < vn);
                assert(take_e ==> oj < en);
                assert(take_v && take_e ==> vp[oi].0 == ep[oj].0);
                assert(take_v && !take_e && oj < en ==> seq_lt(k, ep[oj].0));
                assert(!take_v && oi < vn ==> seq_lt(k, vp[oi].0));
                // everything emitted so far is below k
                assert forall|a: int| 0 <= a < old_out.len() implies seq_lt(
                    #[trigger] old_out[a].0,
                    k,
                ) by {}
                // k was not emitted before
                if has_entry_key(old_out, k) {
                    let a = choose|a: int| 0 <= a < old_out.len() && #[trigger] old_out[a].0 == k;
                    lemma_seq_lt_irreflexive(k);
                }
                // k is in each map exactly when taken from it
                if take_v {
                    lemma_pairs_map_at(vp, oi);
                } else {
                    lemma_absent_beyond(vp, oi, k);
                }
                if take_e {
                    lemma_pairs_map_at(ep, oj);
                } else {
                    lemma_absent_beyond(ep, oj, k);
                }
            }
            if take_v && take_e {
                let (vk, vv) = vm.entry_at(i);
                let (_, ev) = em.entry_at(j);
                let status = if str_eq(vv.as_str(), ev.as_str()) {
                    EntryStatus::Synced
                } else {
                    EntryStatus::Modified
                };
                out.push(DiffEntry::new(vk.clone(), status));
                i = i + 1;
                j = j + 1;
            } else if take_v {
                let (vk, _) = vm.entry_at(i);
                out.push(DiffEntry::new(vk.clone(), EntryStatus::VaultOnly));
                i = i + 1;
            } else {
                let (ek, _) = em.entry_at(j);
                out.push(DiffEntry::new(ek.clone(), EntryStatus::EnvOnly));
                j = j + 1;
            }
            proof {
                let nv = entries_view(out@);
                let e = nv[nv.len() - 1];
                assert(nv =~= old_out.push(e));
                assert(e.0 == k);
                assert(e.1 == status_of(vm@, em@, k));
                // the new heads lie above every emitted key
                if take_v && i < vn {
                    assert(seq_lt(vp[oi].0, vp[i as int].0));
                }
                if take_e && j < en {
                    assert(seq_lt(ep[oj].0, ep[j as int].0));
                }
                assert(i < vn ==> seq_lt(k, vp[i as int].0));
                assert(j < en ==> seq_lt(k, ep[j as int].0));
                assert forall|a: int| 0 <= a < nv.len() implies (i < vn ==> seq_lt(
                    #[trigger] nv[a].0,
                    vp[i as int].0,
                )) && (j < en ==> seq_lt(nv[a].0, ep[j as int].0)) by {
                    if a < old_out.len() {
                        assert(nv[a] == old_out[a]);
                        if i < vn {
                            lemma_seq_lt_transitive(nv[a].0, k, vp[i as int].0);
                        }
                        if j < en {
                            lemma_seq_lt_transitive(nv[a].0, k, ep[j as int].0);
                        }
                    }
                }
                assert forall|a: int, b: int| 0 <= a < b < nv.len() implies seq_lt(
                    #[trigger] nv[a].0,
                    #[trigger] nv[b].0,
                ) by {
                    assert(nv[a] == old_out[a]);
                    if b < nv.len() - 1 {
                        assert(nv[b] == old_out[b]);
                    }
                }
                assert forall|q: Seq<char>|
                    #[trigger] has_entry_key(nv, q) <==> (key_in_prefix(vp, i as int, q)
                        || key_in_prefix(ep, j as int, q)) by {
                    lemma_entry_key_push(old_out, e, q);
                    assert(has_entry_key(old_out, q) <==> (key_in_prefix(vp, oi, q)
                        || key_in_prefix(ep, oj, q)));
                    if take_v {
                        lemma_prefix_step(vp, oi, q);
                    }
                    if take_e {
                        lemma_prefix_step(ep, oj, q);
                    }
                }
                assert forall|a: int| 0 <= a < nv.len() implies #[trigger] nv[a].1 == status_of(
                    vm@,
                    em@,
                    nv[a].0,
                ) by {
                    if a < old_out.len() {
                        assert(nv[a] == old_out[a]);
                    }
                }
            }
        }
        let d = Diff { entries: out };
        proof {
            let nv = entries_view(d.entries@);
            assert forall|q: Seq<char>|
                #[trigger] has_entry_key(nv, q) <==> (vm@.contains_key(q) || em@.contains_key(q)) by {
                lemma_prefix_full(vp, q);
                lemma_prefix_full(ep, q);
            }
        }
        d
    }
}

/// The entries of `es` that have status `st`, in order.
pub open spec fn with_status(
    es: Seq<(Seq<char>, EntryStatus)>,
    st: EntryStatus,
) -> Seq<(Seq<char>, EntryStatus)> {
    es.filter(has_status(st))
}

/// The test for status `st`.
pub open spec fn has_status(st: EntryStatus) -> spec_fn((Seq<char>, EntryStatus)) -> bool {
    |e: (Seq<char>, EntryStatus)| e.1 == st
}

impl Diff {
    /// All entries.
    pub fn entries(&self) -> (r: &[DiffEntry])
        ensures
            entries_view(r@) == self@,
    {
        self.entries.as_slice()
    }

    /// The entries with status `st`, in order.
    fn select(&self, st: &EntryStatus) -> (r: Vec<&DiffEntry>)
        ensures
            entry_refs_view(r@) == with_status(self@, *st),
    {
        let ghost all = entries_view(self.entries@);
        let mut r: Vec<&DiffEntry> = Vec::new();
        let mut i: usize = 0;
        while i < self.entries.len()
            invariant
                i <= self.entries@.len(),
                all == entries_view(self.entries@),
                entry_refs_view(r@) == with_status(all.take(i as int), *st),
            decreases self.entries@.len() - i,
        {
            let e = &self.entries[i];
            proof {
                assert(all.take(i + 1) =~= all.take(i as int).push(e@));
                all.take(i as int).lemma_filter_push(e@, has_status(*st));
            }
            if e.status == *st {
                let ghost before = r@;
                r.push(e);
                proof {
                    assert(entry_refs_view(r@) =~= entry_refs_view(before).push(e@));
                }
            }
            i = i + 1;
        }
        proof {
            assert(all.take(i as int) =~= all);
        }
        r
    }

    /// Only synced entries.
    pub fn synced(&self) -> (r: Vec<&DiffEntry>)
        ensures
            entry_refs_view(r@) == with_status(self@, EntryStatus::Synced),
    {
        self.select(&EntryStatus::Synced)
    }

    /// Only modified entries.
    pub fn modified(&self) -> (r: Vec<&DiffEntry>)
        ensures
            entry_refs_view(r@) == with_status(self@, EntryStatus::Modified),
    {
        self.select(&EntryStatus::Modified)
    }

    /// Only vault-only entries.
    pub fn vault_only(&self) -> (r: Vec<&DiffEntry>)
        ensures
            entry_refs_view(r@) == with_status(self@, EntryStatus::VaultOnly),
    {
        self.select(&EntryStatus::VaultOnly)
    }

    /// Only env-only entries.
    pub fn env_only(&self) -> (r: Vec<&DiffEntry>)
        ensures
            entry_refs_view(r@) == with_status(self@, EntryStatus::EnvOnly),
    {
        self.select(&EntryStatus::EnvOnly)
    }

    /// Whether everything is in sync.
    pub fn is_synced(&self) -> (b: bool)
        ensures
            b == (forall|i: int| 0 <= i < self@.len() ==> #[trigger] self@[i].1 == EntryStatus::Synced),
    {
        let mut i: usize = 0;
        while i < self.entries.len()
            invariant
                i <= self.entries@.len(),
                forall|a: int| 0 <= a < i ==> #[trigger] self@[a].1 == EntryStatus::Synced,
            decreases self.entries@.len() - i,
        {
            if !self.entries[i].is_synced() {
                assert(self@[i as int] == self.entries@[i as int]@);
                return false;
            }
            assert(self@[i as int] == self.entries@[i as int]@);
            i = i + 1;
        }
        true
    }

    /// Total number of entries.
    pub fn len(&self) -> (n: usize)
        ensures
            n == self@.len(),
    {
        self.entries.len()
    }

    /// Whether there are no entries.
    pub fn is_empty(&self) -> (b: bool)
        ensures
            b == (self@.len() == 0),
    {
        self.entries.is_empty()
    }
}

/// A diff is in sync exactly when it lists no modified, vault-only or
/// env-only entry.
pub proof fn lemma_synced_iff_no_differences(es: Seq<(Seq<char>, EntryStatus)>)
    ensures
        (forall|i: int| 0 <= i < es.len() ==> #[trigger] es[i].1 == EntryStatus::Synced) <==> (
        with_status(es, EntryStatus::Modified).len() == 0 && with_status(es, EntryStatus::VaultOnly).len()
            == 0 && with_status(es, EntryStatus::EnvOnly).len() == 0),
{
    let all_synced = forall|i: int| 0 <= i < es.len() ==> #[trigger] es[i].1 == EntryStatus::Synced;
    if all_synced {
        assert forall|st: EntryStatus| st != EntryStatus::Synced implies #[trigger] with_status(es, st).len()
            == 0 by {
            let f = with_status(es, st);
            if f.len() > 0 {
                es.lemma_filter_pred(has_status(st), 0);
                es.lemma_filter_contains_rev(has_status(st), f[0]);
                assert(f.contains(f[0]));
                let j = choose|j: int| 0 <= j < es.len() && es[j] == f[0];
                assert(es[j].1 == EntryStatus::Synced);
            }
        }
        assert(with_status(es, EntryStatus::Modified).len() == 0);
        assert(with_status(es, EntryStatus::VaultOnly).len() == 0);
        assert(with_status(es, EntryStatus::EnvOnly).len() == 0);
    }
    if with_status(es, EntryStatus::Modified).len() == 0 && with_status(es, EntryStatus::VaultOnly).len()
        == 0 && with_status(es, EntryStatus::EnvOnly).len() == 0 {
        assert forall|i: int| 0 <= i < es.len() implies #[trigger] es[i].1 == EntryStatus::Synced by {
            let st = es[i].1;
            if st != EntryStatus::Synced {
                es.lemma_filter_contains(has_status(st), i);
                assert(with_status(es, st).contains(es[i]));
            }
        }
    }
}

/// Comparing a map with itself finds every key in sync.
pub proof fn lemma_diff_of_same_is_synced(es: Seq<(Seq<char>, EntryStatus)>, m: Map<Seq<char>, Seq<char>>)
    requires
        is_diff_of(es, m, m),
    ensures
        forall|i: int| 0 <= i < es.len() ==> #[trigger] es[i].1 == EntryStatus::Synced,
{
    assert forall|i: int| 0 <= i < es.len() implies #[trigger] es[i].1 == EntryStatus::Synced by {
        let k = es[i].0;
        assert(has_entry_key(es, k));
        assert(m.contains_key(k));
    }
}

} // verus!
