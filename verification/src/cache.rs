//! LRU cache index for mobile snapshot storage.
//!
//! Tracks byte accounting, access timestamps and pinning of cached
//! snapshots, and decides which snapshots to evict. Deleting the evicted
//! `storage/{id}` directories and persisting the index to
//! `cache-index.json` happen outside this crate; the database metadata of a
//! resource outlives its evicted snapshot.
//!
//! Entries are kept ordered by resource id (as a `BTreeMap` would), which
//! fixes the order of `clear_all` and the persisted entry list and breaks
//! ties between equal access times.

use vstd::prelude::*;
use crate::text::{
    lemma_seq_lt_asymmetric, lemma_seq_lt_irreflexive, lemma_seq_lt_total,
    lemma_seq_lt_transitive, seq_lt, str_eq, str_lt,
};

verus! {

/// 1 GiB.
pub const DEFAULT_LIMIT_BYTES: u64 = 1073741824;
pub const SCHEMA_VERSION: u32 = 1;

#[derive(Debug)]
pub struct CacheEntry {
    pub resource_id: String,
    pub bytes: u64,
    pub last_access_ms: i64,
    pub pinned: bool,
}

/// A cache entry as a mathematical value.
pub struct EntryView {
    pub id: Seq<char>,
    pub bytes: u64,
    pub last_access_ms: i64,
    pub pinned: bool,
}

impl View for CacheEntry {
    type V = EntryView;

    open spec fn view(&self) -> EntryView {
        EntryView {
            id: self.resource_id@,
            bytes: self.bytes,
            last_access_ms: self.last_access_ms,
            pinned: self.pinned,
        }
    }
}

impl Clone for CacheEntry {
    fn clone(&self) -> (c: Self)
        ensures
            c@ == self@,
    {
        CacheEntry {
            resource_id: self.resource_id.clone(),
            bytes: self.bytes,
            last_access_ms: self.last_access_ms,
            pinned: self.pinned,
        }
    }
}

#[derive(Debug, Clone, Copy, PartialEq, Eq)]
pub struct CacheStats {
    pub total_bytes: u64,
    pub limit_bytes: u64,
    pub entry_count: u64,
}

#[derive(Debug)]
pub struct CacheIndex {
    entries: Vec<CacheEntry>,
    total_bytes: u64,
    limit_bytes: u64,
}

/// Entry ids strictly increase along the sequence.
pub open spec fn ids_sorted(v: Seq<EntryView>) -> bool {
    forall|i: int, j: int| 0 <= i < j < v.len() ==> seq_lt(v[i].id, v[j].id)
}

pub open spec fn has_id(v: Seq<EntryView>, id: Seq<char>) -> bool {
    exists|i: int| 0 <= i < v.len() && v[i].id == id
}

/// `p` is where `id` belongs among the sorted ids of `v`.
pub open spec fn insert_pos(v: Seq<EntryView>, id: Seq<char>, p: int) -> bool {
    &&& 0 <= p <= v.len()
    &&& forall|k: int| 0 <= k < p ==> seq_lt(v[k].id, id)
    &&& forall|k: int| p <= k < v.len() ==> seq_lt(id, v[k].id)
}

/// Sum of the entries' byte counts.
pub open spec fn sum_bytes(v: Seq<EntryView>) -> nat
    decreases v.len(),
{
    if v.len() == 0 {
        0
    } else {
        (v[0].bytes + sum_bytes(v.drop_first())) as nat
    }
}

pub open spec fn sat_add(a: u64, b: u64) -> u64 {
    if a + b > u64::MAX { u64::MAX } else { (a + b) as u64 }
}

pub open spec fn sat_sub(a: u64, b: u64) -> u64 {
    if a < b { 0 } else { (a - b) as u64 }
}

/// The index's total agrees with its entries.
pub open spec fn total_consistent(total: u64, v: Seq<EntryView>) -> bool {
    total == sum_bytes(v)
}

pub proof fn lemma_sum_insert(v: Seq<EntryView>, p: int, e: EntryView)
    requires
        0 <= p <= v.len(),
    ensures
        sum_bytes(v.insert(p, e)) == sum_bytes(v) + e.bytes,
    decreases v.len(),
{
    if p == 0 {
        assert(v.insert(p, e).drop_first() =~= v);
    } else {
        assert(v.insert(p, e).drop_first() =~= v.drop_first().insert(p - 1, e));
        lemma_sum_insert(v.drop_first(), p - 1, e);
    }
}

pub proof fn lemma_sum_remove(v: Seq<EntryView>, p: int)
    requires
        0 <= p < v.len(),
    ensures
        sum_bytes(v.remove(p)) + v[p].bytes == sum_bytes(v),
    decreases v.len(),
{
    if p == 0 {
        assert(v.remove(p) =~= v.drop_first());
    } else {
        assert(v.remove(p).drop_first() =~= v.drop_first().remove(p - 1));
        lemma_sum_remove(v.drop_first(), p - 1);
    }
}

pub proof fn lemma_sum_update(v: Seq<EntryView>, p: int, e: EntryView)
    requires
        0 <= p < v.len(),
    ensures
        sum_bytes(v.update(p, e)) + v[p].bytes == sum_bytes(v) + e.bytes,
{
    lemma_sum_remove(v, p);
    lemma_sum_remove(v.update(p, e), p);
    assert(v.update(p, e).remove(p) =~= v.remove(p));
}

/// `a` was accessed more recently than `b`, ties going to the smaller id.
pub open spec fn newer(a: EntryView, b: EntryView) -> bool {
    a.last_access_ms > b.last_access_ms || (a.last_access_ms == b.last_access_ms && seq_lt(a.id, b.id))
}

/// `a` was accessed less recently than `b`, ties going to the smaller id.
pub open spec fn older(a: EntryView, b: EntryView) -> bool {
    a.last_access_ms < b.last_access_ms || (a.last_access_ms == b.last_access_ms && seq_lt(a.id, b.id))
}

pub open spec fn is_newest(v: Seq<EntryView>, i: int) -> bool {
    &&& 0 <= i < v.len()
    &&& forall|j: int| 0 <= j < v.len() && j != i ==> newer(v[i], v[j])
}

pub open spec fn is_oldest_unpinned(v: Seq<EntryView>, i: int) -> bool {
    &&& 0 <= i < v.len()
    &&& !v[i].pinned
    &&& forall|j: int| 0 <= j < v.len() && j != i && !v[j].pinned ==> older(v[i], v[j])
}

pub open spec fn has_unpinned(v: Seq<EntryView>) -> bool {
    exists|i: int| 0 <= i < v.len() && !v[i].pinned
}

/// Entries from most to least recently accessed (ties by id).
pub open spec fn newest_first(v: Seq<EntryView>) -> Seq<EntryView>
    decreases v.len(),
{
    if v.len() == 0 {
        seq![]
    } else {
        let i = choose|i: int| is_newest(v, i);
        if 0 <= i < v.len() {
            seq![v[i]] + newest_first(v.remove(i))
        } else {
            seq![]
        }
    }
}

/// Evicting least-recently-used unpinned entries until the running total
/// is at most `target`: the evicted ids in order, the entries left, and
/// the final total.
pub open spec fn evict_spec(v: Seq<EntryView>, total: u64, target: u64) -> (Seq<Seq<char>>, Seq<EntryView>, u64)
    decreases v.len(),
{
    if total <= target || !has_unpinned(v) {
        (seq![], v, total)
    } else {
        let i = choose|i: int| is_oldest_unpinned(v, i);
        if 0 <= i < v.len() {
            let r = evict_spec(v.remove(i), sat_sub(total, v[i].bytes), target);
            (seq![v[i].id] + r.0, r.1, r.2)
        } else {
            (seq![], v, total)
        }
    }
}

/// `v` with entry `e` stored under its id (replacing a same-id entry).
pub open spec fn upsert_view(v: Seq<EntryView>, e: EntryView) -> Seq<EntryView> {
    if has_id(v, e.id) {
        v.update(choose|i: int| 0 <= i < v.len() && v[i].id == e.id, e)
    } else {
        v.insert(choose|p: int| insert_pos(v, e.id, p), e)
    }
}

/// The index built by storing `es` in order.
pub open spec fn build_view(es: Seq<EntryView>) -> Seq<EntryView>
    decreases es.len(),
{
    if es.len() == 0 {
        seq![]
    } else {
        upsert_view(build_view(es.drop_last()), es.last())
    }
}

/// Saturating sum of the byte counts of `es`, in order.
pub open spec fn sat_sum(es: Seq<EntryView>) -> u64
    decreases es.len(),
{
    if es.len() == 0 {
        0
    } else {
        sat_add(sat_sum(es.drop_last()), es.last().bytes)
    }
}

/// The ids of `ids` that are tracked in `v`, in their original order.
pub open spec fn keep_tracked(v: Seq<EntryView>, ids: Seq<Seq<char>>) -> Seq<Seq<char>>
    decreases ids.len(),
{
    if ids.len() == 0 {
        seq![]
    } else if has_id(v, ids.last()) {
        keep_tracked(v, ids.drop_last()).push(ids.last())
    } else {
        keep_tracked(v, ids.drop_last())
    }
}

pub proof fn lemma_sorted_remove(v: Seq<EntryView>, i: int)
    requires
        ids_sorted(v),
        0 <= i < v.len(),
    ensures
        ids_sorted(v.remove(i)),
{
    let w = v.remove(i);
    assert forall|a: int, b: int| 0 <= a < b < w.len() implies seq_lt(w[a].id, w[b].id) by {
        let a2 = if a < i { a } else { a + 1 };
        let b2 = if b < i { b } else { b + 1 };
        assert(w[a] == v[a2]);
        assert(w[b] == v[b2]);
    }
}

pub proof fn lemma_newest_unique(v: Seq<EntryView>, i: int, k: int)
    requires
        is_newest(v, i),
        is_newest(v, k),
    ensures
        i == k,
{
    if i != k {
        lemma_seq_lt_asymmetric(v[i].id, v[k].id);
    }
}

pub proof fn lemma_oldest_unique(v: Seq<EntryView>, i: int, k: int)
    requires
        is_oldest_unpinned(v, i),
        is_oldest_unpinned(v, k),
    ensures
        i == k,
{
    if i != k {
        lemma_seq_lt_asymmetric(v[i].id, v[k].id);
    }
}

pub proof fn lemma_distinct_ids(v: Seq<EntryView>, a: int, b: int)
    requires
        ids_sorted(v),
        0 <= a < v.len(),
        0 <= b < v.len(),
        a != b,
    ensures
        v[a].id != v[b].id,
{
    if a < b {
        lemma_seq_lt_irreflexive(v[a].id);
    } else {
        lemma_seq_lt_irreflexive(v[b].id);
    }
}

/// Law: eviction never removes a pinned entry, removes only tracked
/// unpinned entries, and stops only once the total is within the target or
/// nothing unpinned is left.
pub proof fn lemma_evict_properties(v: Seq<EntryView>, total: u64, target: u64)
    requires
        ids_sorted(v),
    ensures
        ({
            let (ev, rest, t) = evict_spec(v, total, target);
            &&& forall|j: int| 0 <= j < v.len() && v[j].pinned ==> rest.contains(v[j])
            &&& forall|k: int| #![trigger ev[k]] 0 <= k < ev.len() ==> exists|j: int| #![trigger v[j]]
                0 <= j < v.len() && v[j].id == ev[k] && !v[j].pinned
            &&& t <= target || !has_unpinned(rest)
            &&& forall|k: int| 0 <= k < rest.len() ==> v.contains(rest[k])
        }),
    decreases v.len(),
{
    if total <= target || !has_unpinned(v) {
        assert forall|j: int| 0 <= j < v.len() && v[j].pinned implies v.contains(v[j]) by {}
        assert forall|k: int| 0 <= k < v.len() implies v.contains(v[k]) by {}
    } else {
        let i = choose|i: int| is_oldest_unpinned(v, i);
        lemma_oldest_exists(v);
        let w = v.remove(i);
        lemma_sorted_remove(v, i);
        lemma_evict_properties(w, sat_sub(total, v[i].bytes), target);
        let r = evict_spec(w, sat_sub(total, v[i].bytes), target);
        let ev = seq![v[i].id] + r.0;
        assert forall|j: int| 0 <= j < v.len() && v[j].pinned implies r.1.contains(v[j]) by {
            let j2 = if j < i { j } else { j - 1 };
            assert(j != i);
            assert(w[j2] == v[j]);
        }
        assert forall|k: int| #![trigger ev[k]] 0 <= k < ev.len() implies exists|j: int| #![trigger v[j]]
            0 <= j < v.len() && v[j].id == ev[k] && !v[j].pinned by {
            if k == 0 {
                assert(v[i].id == ev[0]);
            } else {
                assert(ev[k] == r.0[k - 1]);
                let j2 = choose|j2: int| 0 <= j2 < w.len() && w[j2].id == r.0[k - 1] && !w[j2].pinned;
                let j = if j2 < i { j2 } else { j2 + 1 };
                assert(w[j2] == v[j]);
            }
        }
        assert forall|k: int| 0 <= k < r.1.len() implies v.contains(r.1[k]) by {
            assert(w.contains(r.1[k]));
            let j2 = choose|j2: int| 0 <= j2 < w.len() && w[j2] == r.1[k];
            let j = if j2 < i { j2 } else { j2 + 1 };
            assert(w[j2] == v[j]);
        }
    }
}

/// Among entries with distinct ids, if any is unpinned then exactly one
/// is the least recently used unpinned one.
pub proof fn lemma_oldest_exists(v: Seq<EntryView>)
    requires
        ids_sorted(v),
        has_unpinned(v),
    ensures
        exists|i: int| is_oldest_unpinned(v, i),
    decreases v.len(),
{
    let j0 = choose|j: int| 0 <= j < v.len() && !v[j].pinned;
    let w = v.remove(j0);
    lemma_sorted_remove(v, j0);
    if has_unpinned(w) {
        lemma_oldest_exists(w);
        let k = choose|k: int| is_oldest_unpinned(w, k);
        let kk = if k < j0 { k } else { k + 1 };
        assert(w[k] == v[kk]);
        lemma_distinct_ids(v, kk, j0);
        lemma_seq_lt_total(v[kk].id, v[j0].id);
        if older(v[kk], v[j0]) {
            assert forall|j: int| 0 <= j < v.len() && j != kk && !v[j].pinned implies older(v[kk], v[j]) by {
                if j != j0 {
                    let j2 = if j < j0 { j } else { j - 1 };
                    assert(w[j2] == v[j]);
                }
            }
            assert(is_oldest_unpinned(v, kk));
        } else {
            assert forall|j: int| 0 <= j < v.len() && j != j0 && !v[j].pinned implies older(v[j0], v[j]) by {
                if j != kk {
                    let j2 = if j < j0 { j } else { j - 1 };
                    assert(w[j2] == v[j]);
                    assert(older(v[kk], v[j]));
                    if v[j0].last_access_ms == v[kk].last_access_ms && v[kk].last_access_ms == v[j].last_access_ms {
                        lemma_seq_lt_transitive(v[j0].id, v[kk].id, v[j].id);
                    }
                }
            }
            assert(is_oldest_unpinned(v, j0));
        }
    } else {
        assert forall|j: int| 0 <= j < v.len() && j != j0 && !v[j].pinned implies older(v[j0], v[j]) by {
            let j2 = if j < j0 { j } else { j - 1 };
            assert(w[j2] == v[j]);
        }
        assert(is_oldest_unpinned(v, j0));
    }
}

pub open spec fn view_of(v: Seq<CacheEntry>) -> Seq<EntryView> {
    v.map_values(|e: CacheEntry| e@)
}

pub open spec fn ids_of(v: Seq<String>) -> Seq<Seq<char>> {
    v.map_values(|s: String| s@)
}

pub proof fn lemma_insert_pos_unique(v: Seq<EntryView>, id: Seq<char>, p: int, q: int)
    requires
        insert_pos(v, id, p),
        insert_pos(v, id, q),
    ensures
        p == q,
{
    if p < q {
        lemma_seq_lt_asymmetric(v[p].id, id);
    } else if q < p {
        lemma_seq_lt_asymmetric(v[q].id, id);
    }
}

pub proof fn lemma_upsert_sorted(v: Seq<EntryView>, e: EntryView)
    requires
        ids_sorted(v),
    ensures
        ids_sorted(upsert_view(v, e)),
{
    if has_id(v, e.id) {
        let i = choose|i: int| 0 <= i < v.len() && v[i].id == e.id;
        let w = v.update(i, e);
        assert forall|a: int, b: int| 0 <= a < b < w.len() implies seq_lt(w[a].id, w[b].id) by {
            assert(w[a].id == v[a].id);
            assert(w[b].id == v[b].id);
        }
    } else {
        let p = choose|p: int| insert_pos(v, e.id, p);
        lemma_insert_pos_exists(v, e.id);
        let w = v.insert(p, e);
        assert forall|a: int, b: int| 0 <= a < b < w.len() implies seq_lt(w[a].id, w[b].id) by {
            if b < p {
            } else if a < p && b == p {
            } else if a < p && b > p {
                assert(w[b] == v[b - 1]);
            } else if a == p {
                assert(w[b] == v[b - 1]);
            } else {
                assert(w[a] == v[a - 1]);
                assert(w[b] == v[b - 1]);
            }
        }
    }
}

pub proof fn lemma_insert_pos_exists(v: Seq<EntryView>, id: Seq<char>)
    requires
        ids_sorted(v),
        !has_id(v, id),
    ensures
        exists|p: int| insert_pos(v, id, p),
    decreases v.len(),
{
    if v.len() == 0 {
        assert(insert_pos(v, id, 0));
    } else {
        let w = v.drop_first();
        assert(ids_sorted(w)) by {
            assert forall|a: int, b: int| 0 <= a < b < w.len() implies seq_lt(w[a].id, w[b].id) by {
                assert(w[a] == v[a + 1]);
                assert(w[b] == v[b + 1]);
            }
        }
        assert(!has_id(w, id)) by {
            if has_id(w, id) {
                let k = choose|k: int| 0 <= k < w.len() && w[k].id == id;
                assert(v[k + 1].id == id);
            }
        }
        lemma_seq_lt_total(v[0].id, id);
        if seq_lt(id, v[0].id) {
            assert forall|k: int| 0 <= k < v.len() implies seq_lt(id, v[k].id) by {
                if k > 0 {
                    lemma_seq_lt_transitive(id, v[0].id, v[k].id);
                }
            }
            assert(insert_pos(v, id, 0));
        } else {
            lemma_insert_pos_exists(w, id);
            let q = choose|q: int| insert_pos(w, id, q);
            assert forall|k: int| 0 <= k < q + 1 implies seq_lt(v[k].id, id) by {
                if k > 0 {
                    assert(v[k] == w[k - 1]);
                }
            }
            assert forall|k: int| q + 1 <= k < v.len() implies seq_lt(id, v[k].id) by {
                assert(v[k] == w[k - 1]);
            }
            assert(insert_pos(v, id, q + 1));
        }
    }
}

fn newer_exec(a: &CacheEntry, b: &CacheEntry) -> (r: bool)
    ensures
        r == newer(a@, b@),
{
    a.last_access_ms > b.last_access_ms || (a.last_access_ms == b.last_access_ms && str_lt(
        a.resource_id.as_str(),
        b.resource_id.as_str(),
    ))
}

fn older_exec(a: &CacheEntry, b: &CacheEntry) -> (r: bool)
    ensures
        r == older(a@, b@),
{
    a.last_access_ms < b.last_access_ms || (a.last_access_ms == b.last_access_ms && str_lt(
        a.resource_id.as_str(),
        b.resource_id.as_str(),
    ))
}

/// Index of the most recently accessed entry.
fn newest_index(v: &Vec<CacheEntry>) -> (i: usize)
    requires
        v@.len() > 0,
        ids_sorted(view_of(v@)),
    ensures
        is_newest(view_of(v@), i as int),
{
    let ghost w = view_of(v@);
    let mut best: usize = 0;
    let mut j: usize = 1;
    while j < v.len()
        invariant
            1 <= j <= v.len(),
            0 <= best < j,
            w == view_of(v@),
            ids_sorted(w),
            forall|k: int| 0 <= k < j && k != best ==> newer(w[best as int], w[k]),
        decreases v.len() - j,
    {
        let ghost ob = best;
        if newer_exec(&v[j], &v[best]) {
            proof {
                assert forall|k: int| 0 <= k < j + 1 && k != j implies newer(w[j as int], w[k]) by {
                    if k != ob {
                        assert(newer(w[ob as int], w[k]));
                        if w[j as int].last_access_ms == w[ob as int].last_access_ms
                            && w[ob as int].last_access_ms == w[k].last_access_ms {
                            lemma_seq_lt_transitive(w[j as int].id, w[ob as int].id, w[k].id);
                        }
                    }
                }
            }
            best = j;
        } else {
            proof {
                lemma_distinct_ids(w, j as int, ob as int);
                lemma_seq_lt_total(w[j as int].id, w[ob as int].id);
            }
        }
        j = j + 1;
    }
    best
}

/// Index of the least recently accessed unpinned entry, if any.
fn oldest_unpinned_index(v: &Vec<CacheEntry>) -> (r: Option<usize>)
    requires
        ids_sorted(view_of(v@)),
    ensures
        r matches Some(i) ==> is_oldest_unpinned(view_of(v@), i as int),
        r is None ==> !has_unpinned(view_of(v@)),
{
    let ghost w = view_of(v@);
    let mut best: Option<usize> = None;
    let mut j: usize = 0;
    while j < v.len()
        invariant
            0 <= j <= v.len(),
            w == view_of(v@),
            ids_sorted(w),
            best matches Some(b) ==> b < j && !w[b as int].pinned && forall|k: int|
                0 <= k < j && k != b && !w[k].pinned ==> older(w[b as int], w[k]),
            best is None ==> forall|k: int| 0 <= k < j ==> w[k].pinned,
        decreases v.len() - j,
    {
        if !v[j].pinned {
            match best {
                None => {
                    best = Some(j);
                },
                Some(b) => {
                    if older_exec(&v[j], &v[b]) {
                        proof {
                            assert forall|k: int| 0 <= k < j + 1 && k != j && !w[k].pinned implies older(
                                w[j as int],
                                w[k],
                            ) by {
                                if k != b {
                                    assert(older(w[b as int], w[k]));
                                    if w[j as int].last_access_ms == w[b as int].last_access_ms
                                        && w[b as int].last_access_ms == w[k].last_access_ms {
                                        lemma_seq_lt_transitive(w[j as int].id, w[b as int].id, w[k].id);
                                    }
                                }
                            }
                        }
                        best = Some(j);
                    } else {
                        proof {
                            lemma_distinct_ids(w, j as int, b as int);
                            lemma_seq_lt_total(w[j as int].id, w[b as int].id);
                        }
                    }
                },
            }
        }
        j = j + 1;
    }
    best
}

/// A copy of every entry, in order.
fn clone_entries(v: &Vec<CacheEntry>) -> (r: Vec<CacheEntry>)
    ensures
        view_of(r@) == view_of(v@),
{
    let mut out: Vec<CacheEntry> = Vec::new();
    let mut i: usize = 0;
    while i < v.len()
        invariant
            0 <= i <= v.len(),
            out@.len() == i,
            view_of(out@) == view_of(v@).take(i as int),
        decreases v.len() - i,
    {
        let c = v[i].clone();
        let ghost prev = out@;
        out.push(c);
        proof {
            assert(out@ == prev.push(c));
            assert forall|k: int| 0 <= k < i + 1 implies view_of(out@)[k] == view_of(v@)[k] by {
                if k < i {
                    assert(view_of(out@)[k] == out@[k]@);
                    assert(out@[k] == prev[k]);
                    assert(view_of(prev)[k] == view_of(v@).take(i as int)[k]);
                } else {
                    assert(out@[k] == c);
                }
            }
        }
        i = i + 1;
        proof {
            assert(view_of(out@) =~= view_of(v@).take(i as int));
        }
    }
    assert(view_of(v@).take(i as int) =~= view_of(v@));
    out
}

impl Default for CacheIndex {
    /// An empty index with the default 1 GiB limit.
    fn default() -> (c: Self)
        ensures
            c.wf(),
            c.view().len() == 0,
            c.total() == 0,
            c.limit() == DEFAULT_LIMIT_BYTES,
    {
        let c = CacheIndex { entries: Vec::new(), total_bytes: 0, limit_bytes: DEFAULT_LIMIT_BYTES };
        assert(c.view() =~= Seq::<EntryView>::empty());
        c
    }
}

impl CacheIndex {
    pub closed spec fn view(&self) -> Seq<EntryView> {
        self.entries@.map_values(|e: CacheEntry| e@)
    }

    pub closed spec fn total(&self) -> u64 {
        self.total_bytes
    }

    pub closed spec fn limit(&self) -> u64 {
        self.limit_bytes
    }

    /// Ids sorted (hence unique) and a positive limit.
    pub closed spec fn wf(&self) -> bool {
        ids_sorted(self.view()) && self.limit_bytes >= 1
    }

    pub fn stats(&self) -> (s: CacheStats)
        ensures
            s.total_bytes == self.total(),
            s.limit_bytes == self.limit(),
            s.entry_count == self.view().len(),
    {
        CacheStats {
            total_bytes: self.total_bytes,
            limit_bytes: self.limit_bytes,
            entry_count: self.entries.len() as u64,
        }
    }

    pub fn limit_bytes(&self) -> (l: u64)
        ensures
            l == self.limit(),
    {
        self.limit_bytes
    }

    /// Sets the size ceiling; values below 1 become 1.
    pub fn set_limit(&mut self, bytes: u64)
        requires
            old(self).wf(),
        ensures
            final(self).wf(),
            final(self).limit() == if bytes < 1 { 1 } else { bytes },
            final(self).view() == old(self).view(),
            final(self).total() == old(self).total(),
    {
        self.limit_bytes = if bytes < 1 { 1 } else { bytes };
    }

    /// Position of `id`, if tracked.
    fn find(&self, id: &str) -> (r: Option<usize>)
        requires
            self.wf(),
        ensures
            r matches Some(i) ==> i < self.view().len() && self.view()[i as int].id == id@,
            r is None ==> !has_id(self.view(), id@),
    {
        let mut i: usize = 0;
        while i < self.entries.len()
            invariant
                0 <= i <= self.entries.len(),
                self.wf(),
                forall|k: int| 0 <= k < i ==> self.view()[k].id != id@,
            decreases self.entries.len() - i,
        {
            if str_eq(self.entries[i].resource_id.as_str(), id) {
                return Some(i);
            }
            i = i + 1;
        }
        None
    }

    /// The entry tracked under `id`, if any.
    pub fn entry(&self, id: &str) -> (r: Option<CacheEntry>)
        requires
            self.wf(),
        ensures
            r is None <==> !has_id(self.view(), id@),
            r matches Some(e) ==> exists|i: int|
                0 <= i < self.view().len() && self.view()[i] == e@ && e@.id == id@,
    {
        match self.find(id) {
            Some(i) => Some(self.entries[i].clone()),
            None => None,
        }
    }

    pub fn contains(&self, id: &str) -> (b: bool)
        requires
            self.wf(),
        ensures
            b == has_id(self.view(), id@),
    {
        self.find(id).is_some()
    }

    /// Record that a snapshot of `bytes` bytes was written for `id` at time
    /// `now_ms`. An existing entry gets the new byte count and access time
    /// (keeping its pin); a new entry starts unpinned.
    pub fn put_at(&mut self, id: &str, bytes: u64, now_ms: i64)
        requires
            old(self).wf(),
        ensures
            final(self).wf(),
            final(self).limit() == old(self).limit(),
            has_id(old(self).view(), id@) ==> exists|i: int|
                0 <= i < old(self).view().len() && old(self).view()[i].id == id@ && final(self).view()
                    == old(self).view().update(
                    i,
                    EntryView { id: id@, bytes, last_access_ms: now_ms, pinned: old(self).view()[i].pinned },
                ) && final(self).total() == sat_add(sat_sub(old(self).total(), old(self).view()[i].bytes), bytes),
            !has_id(old(self).view(), id@) ==> exists|p: int|
                insert_pos(old(self).view(), id@, p) && final(self).view() == old(self).view().insert(
                    p,
                    EntryView { id: id@, bytes, last_access_ms: now_ms, pinned: false },
                ) && final(self).total() == sat_add(old(self).total(), bytes),
            // Law: a consistent total stays consistent unless it saturates.
            total_consistent(old(self).total(), old(self).view()) && sum_bytes(final(self).view())
                <= u64::MAX ==> total_consistent(final(self).total(), final(self).view()),
    {
        let ghost v = self.view();
        let mut i: usize = 0;
        while i < self.entries.len() && str_lt(self.entries[i].resource_id.as_str(), id)
            invariant
                0 <= i <= self.entries.len(),
                self.view() == v,
                self.wf(),
                forall|k: int| 0 <= k < i ==> seq_lt(v[k].id, id@),
            decreases self.entries.len() - i,
        {
            i = i + 1;
        }
        if i < self.entries.len() && str_eq(self.entries[i].resource_id.as_str(), id) {
            let old_bytes = self.entries[i].bytes;
            let pinned = self.entries[i].pinned;
            let t1 = self.total_bytes.saturating_sub(old_bytes);
            self.total_bytes = t1.saturating_add(bytes);
            let e = CacheEntry { resource_id: id.to_owned(), bytes, last_access_ms: now_ms, pinned };
            self.entries.set(i, e);
            proof {
                let ne = EntryView { id: id@, bytes, last_access_ms: now_ms, pinned };
                assert(self.view() =~= v.update(i as int, ne));
                lemma_sum_update(v, i as int, ne);
                lemma_sum_remove(v, i as int);
                assert(v[i as int].id == id@);
                assert(has_id(v, id@));
                let w = self.view();
                assert forall|a: int, b: int| 0 <= a < b < w.len() implies seq_lt(w[a].id, w[b].id) by {
                    assert(w[a].id == v[a].id);
                    assert(w[b].id == v[b].id);
                }
            }
        } else {
            proof {
                if i < v.len() {
                    lemma_seq_lt_total(v[i as int].id, id@);
                    assert forall|k: int| i <= k < v.len() implies seq_lt(id@, v[k].id) by {
                        if k > i {
                            lemma_seq_lt_transitive(id@, v[i as int].id, v[k].id);
                        }
                    }
                }
                assert forall|k: int| 0 <= k < v.len() implies v[k].id != id@ by {
                    if k < i {
                        lemma_seq_lt_irreflexive(id@);
                    } else {
                        lemma_seq_lt_irreflexive(id@);
                    }
                }
            }
            self.total_bytes = self.total_bytes.saturating_add(bytes);
            let e = CacheEntry { resource_id: id.to_owned(), bytes, last_access_ms: now_ms, pinned: false };
            self.entries.insert(i, e);
            proof {
                let ne = EntryView { id: id@, bytes, last_access_ms: now_ms, pinned: false };
                assert(self.view() =~= v.insert(i as int, ne));
                lemma_sum_insert(v, i as int, ne);
                assert(insert_pos(v, id@, i as int));
                let w = self.view();
                assert forall|a: int, b: int| 0 <= a < b < w.len() implies seq_lt(w[a].id, w[b].id) by {
                    if b < i {
                    } else if a < i && b == i {
                    } else if a < i && b > i {
                        assert(w[b] == v[b - 1]);
                    } else if a == i {
                        assert(w[b] == v[b - 1]);
                    } else {
                        assert(w[a] == v[a - 1]);
                        assert(w[b] == v[b - 1]);
                    }
                }
            }
        }
    }

    /// Bump the access time of `id` to `now_ms` if it is tracked; no-op
    /// otherwise.
    pub fn touch_at(&mut self, id: &str, now_ms: i64)
        requires
            old(self).wf(),
        ensures
            final(self).wf(),
            final(self).total() == old(self).total(),
            final(self).limit() == old(self).limit(),
            !has_id(old(self).view(), id@) ==> final(self).view() == old(self).view(),
            has_id(old(self).view(), id@) ==> exists|i: int|
                0 <= i < old(self).view().len() && old(self).view()[i].id == id@ && final(self).view()
                    == old(self).view().update(
                    i,
                    EntryView { last_access_ms: now_ms, ..old(self).view()[i] },
                ),
            sum_bytes(final(self).view()) == sum_bytes(old(self).view()),
    {
        let ghost v = self.view();
        match self.find(id) {
            None => {},
            Some(i) => {
                let mut e = self.entries[i].clone();
                e.last_access_ms = now_ms;
                self.entries.set(i, e);
                proof {
                    assert(self.view() =~= v.update(i as int, EntryView { last_access_ms: now_ms, ..v[i as int] }));
                    lemma_sum_update(v, i as int, EntryView { last_access_ms: now_ms, ..v[i as int] });
                    let w = self.view();
                    assert forall|a: int, b: int| 0 <= a < b < w.len() implies seq_lt(w[a].id, w[b].id) by {
                        assert(w[a].id == v[a].id);
                        assert(w[b].id == v[b].id);
                    }
                }
            },
        }
    }

    /// Bump the access time of `id`, if tracked, to the system time.
    pub fn touch(&mut self, id: &str)
        requires
            old(self).wf(),
        ensures
            final(self).wf(),
            final(self).total() == old(self).total(),
            final(self).limit() == old(self).limit(),
            !has_id(old(self).view(), id@) ==> final(self).view() == old(self).view(),
            has_id(old(self).view(), id@) ==> exists|i: int|
                0 <= i < old(self).view().len() && old(self).view()[i].id == id@ && final(self).view()
                    == old(self).view().update(
                    i,
                    EntryView { last_access_ms: final(self).view()[i].last_access_ms, ..old(self).view()[i] },
                ),
            sum_bytes(final(self).view()) == sum_bytes(old(self).view()),
    {
        let now = crate::ext::system_now_ms();
        self.touch_at(id, now);
    }

    /// Pin or unpin `id` if it is tracked; pinned entries are never evicted.
    pub fn set_pinned(&mut self, id: &str, pinned: bool)
        requires
            old(self).wf(),
        ensures
            final(self).wf(),
            final(self).total() == old(self).total(),
            final(self).limit() == old(self).limit(),
            !has_id(old(self).view(), id@) ==> final(self).view() == old(self).view(),
            has_id(old(self).view(), id@) ==> exists|i: int|
                0 <= i < old(self).view().len() && old(self).view()[i].id == id@ && final(self).view()
                    == old(self).view().update(i, EntryView { pinned, ..old(self).view()[i] }),
            sum_bytes(final(self).view()) == sum_bytes(old(self).view()),
    {
        let ghost v = self.view();
        match self.find(id) {
            None => {},
            Some(i) => {
                let mut e = self.entries[i].clone();
                e.pinned = pinned;
                self.entries.set(i, e);
                proof {
                    assert(self.view() =~= v.update(i as int, EntryView { pinned, ..v[i as int] }));
                    lemma_sum_update(v, i as int, EntryView { pinned, ..v[i as int] });
                    let w = self.view();
                    assert forall|a: int, b: int| 0 <= a < b < w.len() implies seq_lt(w[a].id, w[b].id) by {
                        assert(w[a].id == v[a].id);
                        assert(w[b].id == v[b].id);
                    }
                }
            },
        }
    }

    /// Forget `id`. Returns whether it was tracked. (Its snapshot directory
    /// is deleted by the caller.)
    pub fn remove(&mut self, id: &str) -> (b: bool)
        requires
            old(self).wf(),
        ensures
            final(self).wf(),
            final(self).limit() == old(self).limit(),
            b == has_id(old(self).view(), id@),
            !has_id(final(self).view(), id@),
            !b ==> final(self).view() == old(self).view() && final(self).total() == old(self).total(),
            b ==> exists|i: int|
                0 <= i < old(self).view().len() && old(self).view()[i].id == id@ && final(self).view()
                    == old(self).view().remove(i) && final(self).total() == sat_sub(
                    old(self).total(),
                    old(self).view()[i].bytes,
                ),
            total_consistent(old(self).total(), old(self).view()) ==> total_consistent(
                final(self).total(),
                final(self).view(),
            ),
    {
        let ghost v = self.view();
        match self.find(id) {
            None => false,
            Some(i) => {
                let e = self.entries.remove(i);
                self.total_bytes = self.total_bytes.saturating_sub(e.bytes);
                proof {
                    assert(self.view() =~= v.remove(i as int));
                    lemma_sorted_remove(v, i as int);
                    lemma_sum_remove(v, i as int);
                    let w = v.remove(i as int);
                    assert forall|k: int| 0 <= k < w.len() implies w[k].id != id@ by {
                        let kk = if k < i { k } else { k + 1 };
                        assert(w[k] == v[kk]);
                        lemma_distinct_ids(v, kk, i as int);
                    }
                }
                true
            },
        }
    }

    /// Forget every entry; returns their ids in id order. (The snapshot
    /// directories are deleted by the caller.)
    pub fn clear_all(&mut self) -> (ids: Vec<String>)
        requires
            old(self).wf(),
        ensures
            final(self).wf(),
            final(self).view().len() == 0,
            final(self).total() == 0,
            final(self).limit() == old(self).limit(),
            ids_of(ids@) == old(self).view().map_values(|e: EntryView| e.id),
    {
        let ghost v = self.view();
        let mut ids: Vec<String> = Vec::new();
        let mut i: usize = 0;
        while i < self.entries.len()
            invariant
                0 <= i <= self.entries.len(),
                self.view() == v,
                ids@.len() == i,
                forall|k: int| 0 <= k < i ==> #[trigger] ids@[k]@ == v[k].id,
            decreases self.entries.len() - i,
        {
            ids.push(self.entries[i].resource_id.clone());
            i = i + 1;
        }
        self.entries = Vec::new();
        self.total_bytes = 0;
        proof {
            assert(ids_of(ids@) =~= v.map_values(|e: EntryView| e.id));
            assert(self.view() =~= Seq::<EntryView>::empty());
        }
        ids
    }

    /// Every entry, most recently accessed first (ties by id).
    pub fn list(&self) -> (out: Vec<CacheEntry>)
        requires
            self.wf(),
        ensures
            view_of(out@) == newest_first(self.view()),
    {
        let mut work = clone_entries(&self.entries);
        let mut out: Vec<CacheEntry> = Vec::new();
        let ghost v = self.view();
        assert(view_of(out@) + newest_first(view_of(work@)) =~= newest_first(v));
        while work.len() > 0
            invariant
                ids_sorted(view_of(work@)),
                view_of(out@) + newest_first(view_of(work@)) == newest_first(v),
            decreases work.len(),
        {
            let ghost w = view_of(work@);
            let ghost o = view_of(out@);
            let i = newest_index(&work);
            let e = work.remove(i);
            proof {
                let c = choose|c: int| is_newest(w, c);
                lemma_newest_unique(w, c, i as int);
                assert(view_of(work@) =~= w.remove(i as int));
                lemma_sorted_remove(w, i as int);
                assert(newest_first(w) == seq![w[i as int]] + newest_first(w.remove(i as int)));
            }
            out.push(e);
            proof {
                assert(view_of(out@) =~= o.push(e@));
                assert(e@ == w[i as int]);
                assert(view_of(out@) + newest_first(view_of(work@)) =~= o + (seq![w[i as int]]
                    + newest_first(w.remove(i as int))));
            }
        }
        proof {
            assert(view_of(work@) =~= Seq::<EntryView>::empty());
            assert(newest_first(view_of(work@)) =~= Seq::<EntryView>::empty());
            assert(view_of(out@) + Seq::<EntryView>::empty() =~= view_of(out@));
        }
        out
    }

    /// The given ids that are tracked, in their given order.
    pub fn cached_ids(&self, ids: Vec<String>) -> (out: Vec<String>)
        requires
            self.wf(),
        ensures
            ids_of(out@) == keep_tracked(self.view(), ids_of(ids@)),
    {
        let mut out: Vec<String> = Vec::new();
        let mut k: usize = 0;
        while k < ids.len()
            invariant
                0 <= k <= ids.len(),
                self.wf(),
                ids_of(out@) == keep_tracked(self.view(), ids_of(ids@).take(k as int)),
            decreases ids.len() - k,
        {
            let ghost before = out@;
            let ghost t = ids_of(ids@).take(k + 1);
            assert(t.drop_last() =~= ids_of(ids@).take(k as int));
            assert(t.last() == ids@[k as int]@);
            if self.contains(ids[k].as_str()) {
                out.push(ids[k].clone());
                proof {
                    assert(ids_of(out@) =~= ids_of(before).push(ids@[k as int]@));
                }
            }
            k = k + 1;
        }
        assert(ids_of(ids@).take(k as int) =~= ids_of(ids@));
        out
    }

    /// Evict least-recently-used unpinned entries until the total is at most
    /// `target`. Returns the evicted ids in eviction order. (Their snapshot
    /// directories are deleted by the caller.)
    pub fn evict_until(&mut self, target: u64) -> (evicted: Vec<String>)
        requires
            old(self).wf(),
        ensures
            final(self).wf(),
            final(self).limit() == old(self).limit(),
            ids_of(evicted@) == evict_spec(old(self).view(), old(self).total(), target).0,
            final(self).view() == evict_spec(old(self).view(), old(self).total(), target).1,
            final(self).total() == evict_spec(old(self).view(), old(self).total(), target).2,
            final(self).total() <= target || !has_unpinned(final(self).view()),
            total_consistent(old(self).total(), old(self).view()) ==> total_consistent(
                final(self).total(),
                final(self).view(),
            ),
    {
        proof {
            lemma_evict_properties(self.view(), self.total_bytes, target);
        }
        let ghost v0 = self.view();
        let ghost t0 = self.total_bytes;
        let ghost consistent = total_consistent(t0, v0);
        let mut evicted: Vec<String> = Vec::new();
        loop
            invariant
                self.wf(),
                self.limit() == old(self).limit(),
                v0 == old(self).view(),
                t0 == old(self).total(),
                evict_spec(v0, t0, target) == (
                    ids_of(evicted@) + evict_spec(self.view(), self.total_bytes, target).0,
                    evict_spec(self.view(), self.total_bytes, target).1,
                    evict_spec(self.view(), self.total_bytes, target).2,
                ),
                consistent ==> total_consistent(self.total_bytes, self.view()),
            ensures
                self.wf(),
                self.limit() == old(self).limit(),
                evict_spec(v0, t0, target) == (ids_of(evicted@), self.view(), self.total_bytes),
                consistent ==> total_consistent(self.total_bytes, self.view()),
            decreases self.entries.len(),
        {
            let ghost v = self.view();
            let ghost t = self.total_bytes;
            if self.total_bytes <= target {
                proof {
                    assert(ids_of(evicted@) + Seq::<Seq<char>>::empty() =~= ids_of(evicted@));
                    assert(evict_spec(v, t, target) == (Seq::<Seq<char>>::empty(), v, t));
                }
                break;
            }
            match oldest_unpinned_index(&self.entries) {
                None => {
                    proof {
                        assert(ids_of(evicted@) + Seq::<Seq<char>>::empty() =~= ids_of(evicted@));
                        assert(evict_spec(v, t, target) == (Seq::<Seq<char>>::empty(), v, t));
                    }
                    break;
                },
                Some(i) => {
                    let e = self.entries.remove(i);
                    self.total_bytes = self.total_bytes.saturating_sub(e.bytes);
                    let ghost before = evicted@;
                    evicted.push(e.resource_id);
                    proof {
                        let c = choose|c: int| is_oldest_unpinned(v, c);
                        lemma_oldest_unique(v, c, i as int);
                        assert(self.view() =~= v.remove(i as int));
                        lemma_sorted_remove(v, i as int);
                        lemma_sum_remove(v, i as int);
                        assert(ids_of(evicted@) =~= ids_of(before).push(v[i as int].id));
                        let r = evict_spec(self.view(), self.total_bytes, target);
                        assert(evict_spec(v, t, target) == (seq![v[i as int].id] + r.0, r.1, r.2));
                        assert(ids_of(before) + (seq![v[i as int].id] + r.0) =~= ids_of(evicted@) + r.0);
                    }
                },
            }
        }
        evicted
    }

    /// Evict until the total fits under the current limit.
    pub fn evict_if_over_limit(&mut self) -> (evicted: Vec<String>)
        requires
            old(self).wf(),
        ensures
            final(self).wf(),
            final(self).limit() == old(self).limit(),
            ids_of(evicted@) == evict_spec(old(self).view(), old(self).total(), old(self).limit()).0,
            final(self).view() == evict_spec(old(self).view(), old(self).total(), old(self).limit()).1,
            final(self).total() == evict_spec(old(self).view(), old(self).total(), old(self).limit()).2,
            final(self).total() <= final(self).limit() || !has_unpinned(final(self).view()),
            total_consistent(old(self).total(), old(self).view()) ==> total_consistent(
                final(self).total(),
                final(self).view(),
            ),
    {
        let limit = self.limit_bytes;
        self.evict_until(limit)
    }

    /// The entries in id order, as persisted to `cache-index.json`.
    pub fn persisted_entries(&self) -> (out: Vec<CacheEntry>)
        ensures
            view_of(out@) == self.view(),
    {
        clone_entries(&self.entries)
    }

    /// Store `e` under its id, replacing a same-id entry; the total is not
    /// touched.
    fn upsert_entry(&mut self, e: CacheEntry)
        requires
            old(self).wf(),
        ensures
            final(self).wf(),
            final(self).view() == upsert_view(old(self).view(), e@),
            final(self).total() == old(self).total(),
            final(self).limit() == old(self).limit(),
    {
        let ghost v = self.view();
        let ghost ev = e@;
        let mut i: usize = 0;
        while i < self.entries.len() && str_lt(self.entries[i].resource_id.as_str(), e.resource_id.as_str())
            invariant
                0 <= i <= self.entries.len(),
                self.view() == v,
                self.wf(),
                e@ == ev,
                forall|k: int| 0 <= k < i ==> seq_lt(v[k].id, ev.id),
            decreases self.entries.len() - i,
        {
            i = i + 1;
        }
        proof {
            lemma_upsert_sorted(v, ev);
        }
        if i < self.entries.len() && str_eq(self.entries[i].resource_id.as_str(), e.resource_id.as_str()) {
            self.entries.set(i, e);
            proof {
                assert(v[i as int].id == ev.id);
                assert(has_id(v, ev.id));
                let c = choose|c: int| 0 <= c < v.len() && v[c].id == ev.id;
                if c != i {
                    lemma_distinct_ids(v, c, i as int);
                }
                assert(self.view() =~= v.update(i as int, ev));
            }
        } else {
            proof {
                if i < v.len() {
                    lemma_seq_lt_total(v[i as int].id, ev.id);
                    assert forall|k: int| i <= k < v.len() implies seq_lt(ev.id, v[k].id) by {
                        if k > i {
                            lemma_seq_lt_transitive(ev.id, v[i as int].id, v[k].id);
                        }
                    }
                }
                assert forall|k: int| 0 <= k < v.len() implies v[k].id != ev.id by {
                    lemma_seq_lt_irreflexive(ev.id);
                }
                assert(insert_pos(v, ev.id, i as int));
                let c = choose|c: int| insert_pos(v, ev.id, c);
                lemma_insert_pos_unique(v, ev.id, c, i as int);
            }
            self.entries.insert(i, e);
            proof {
                assert(self.view() =~= v.insert(i as int, ev));
            }
        }
    }

    /// The index described by a persisted document: an empty default index
    /// unless `version` is the current schema version; otherwise the
    /// entries stored in order (a later entry replaces an earlier one with
    /// the same id), the saturating sum of all their byte counts, and the
    /// limit raised to at least 1.
    pub fn from_persisted(version: u32, limit_bytes: u64, entries: Vec<CacheEntry>) -> (c: Self)
        ensures
            c.wf(),
            version != SCHEMA_VERSION ==> c.view().len() == 0 && c.total() == 0 && c.limit()
                == DEFAULT_LIMIT_BYTES,
            version == SCHEMA_VERSION ==> c.view() == build_view(view_of(entries@)) && c.total()
                == sat_sum(view_of(entries@)) && c.limit() == if limit_bytes < 1 { 1 } else { limit_bytes },
    {
        if version != SCHEMA_VERSION {
            return CacheIndex::default();
        }
        let mut idx = CacheIndex {
            entries: Vec::new(),
            total_bytes: 0,
            limit_bytes: if limit_bytes < 1 { 1 } else { limit_bytes },
        };
        let ghost es = view_of(entries@);
        proof {
            assert(idx.view() =~= Seq::<EntryView>::empty());
            assert(es.take(0) =~= Seq::<EntryView>::empty());
        }
        let mut k: usize = 0;
        let rest = entries;
        let ghost all = rest@;
        while k < rest.len()
            invariant
                0 <= k <= all.len(),
                es == view_of(all),
                rest@ == all,
                idx.wf(),
                idx.limit() == if limit_bytes < 1 { 1 } else { limit_bytes },
                idx.view() == build_view(es.take(k as int)),
                idx.total() == sat_sum(es.take(k as int)),
            decreases rest.len() - k,
        {
            let e = rest[k].clone();
            let b = e.bytes;
            let ghost t = es.take(k + 1);
            proof {
                assert(t.drop_last() =~= es.take(k as int));
                assert(t.last() == e@);
            }
            idx.total_bytes = idx.total_bytes.saturating_add(b);
            idx.upsert_entry(e);
            k = k + 1;
        }
        proof {
            assert(es.take(k as int) =~= es);
        }
        idx
    }

    /// Record a write of `bytes` bytes for `id`, stamped with the system time.
    pub fn put(&mut self, id: &str, bytes: u64)
        requires
            old(self).wf(),
        ensures
            final(self).wf(),
            final(self).limit() == old(self).limit(),
            has_id(old(self).view(), id@) ==> exists|i: int, now: i64|
                0 <= i < old(self).view().len() && old(self).view()[i].id == id@ && final(self).view()
                    == old(self).view().update(
                    i,
                    EntryView { id: id@, bytes, last_access_ms: now, pinned: old(self).view()[i].pinned },
                ) && final(self).total() == sat_add(sat_sub(old(self).total(), old(self).view()[i].bytes), bytes),
            !has_id(old(self).view(), id@) ==> exists|p: int, now: i64|
                insert_pos(old(self).view(), id@, p) && final(self).view() == old(self).view().insert(
                    p,
                    EntryView { id: id@, bytes, last_access_ms: now, pinned: false },
                ) && final(self).total() == sat_add(old(self).total(), bytes),
            total_consistent(old(self).total(), old(self).view()) && sum_bytes(final(self).view())
                <= u64::MAX ==> total_consistent(final(self).total(), final(self).view()),
    {
        let now = crate::ext::system_now_ms();
        self.put_at(id, bytes, now);
    }
}

/// Storing already sorted entries one by one rebuilds them as they are.
pub proof fn lemma_build_sorted(v: Seq<EntryView>)
    requires
        ids_sorted(v),
    ensures
        build_view(v) == v,
    decreases v.len(),
{
    if v.len() > 0 {
        let w = v.drop_last();
        let e = v.last();
        assert(ids_sorted(w)) by {
            assert forall|a: int, b: int| 0 <= a < b < w.len() implies seq_lt(w[a].id, w[b].id) by {
                assert(w[a] == v[a] && w[b] == v[b]);
            }
        }
        lemma_build_sorted(w);
        assert forall|k: int| 0 <= k < w.len() implies seq_lt(w[k].id, e.id) by {
            assert(w[k] == v[k]);
        }
        assert(!has_id(w, e.id)) by {
            if has_id(w, e.id) {
                let k = choose|k: int| 0 <= k < w.len() && w[k].id == e.id;
                lemma_seq_lt_irreflexive(e.id);
            }
        }
        assert(insert_pos(w, e.id, w.len() as int));
        let p = choose|p: int| insert_pos(w, e.id, p);
        lemma_insert_pos_unique(w, e.id, p, w.len() as int);
        assert(w.insert(w.len() as int, e) =~= v);
    }
}

proof fn lemma_sum_last(v: Seq<EntryView>)
    requires
        v.len() > 0,
    ensures
        sum_bytes(v) == sum_bytes(v.drop_last()) + v.last().bytes,
{
    lemma_sum_remove(v, v.len() - 1);
    assert(v.remove(v.len() - 1) =~= v.drop_last());
}

/// Summing without overflow, the saturating sum is the sum.
pub proof fn lemma_sat_sum_exact(v: Seq<EntryView>)
    requires
        sum_bytes(v) <= u64::MAX,
    ensures
        sat_sum(v) == sum_bytes(v),
    decreases v.len(),
{
    if v.len() > 0 {
        lemma_sum_last(v);
        lemma_sat_sum_exact(v.drop_last());
    }
}

/// Law: a well-formed index (every index the public operations produce)
/// has a limit of at least one byte and ids in strictly increasing order,
/// so no id is tracked twice.
pub proof fn lemma_limit_positive(idx: &CacheIndex)
    requires
        idx.wf(),
    ensures
        idx.limit() >= 1,
        ids_sorted(idx.view()),
        forall|a: int, b: int| 0 <= a < b < idx.view().len() ==> idx.view()[a].id != idx.view()[b].id,
{
    assert forall|a: int, b: int| 0 <= a < b < idx.view().len() implies idx.view()[a].id != idx.view()[b].id by {
        lemma_distinct_ids(idx.view(), a, b);
    }
}

/// Listing most recent first keeps every entry once, so it holds as many
/// entries and as many bytes as the index.
pub proof fn lemma_list_sum(v: Seq<EntryView>)
    requires
        ids_sorted(v),
    ensures
        newest_first(v).len() == v.len(),
        sum_bytes(newest_first(v)) == sum_bytes(v),
    decreases v.len(),
{
    if v.len() > 0 {
        lemma_newest_exists(v);
        let i = choose|i: int| is_newest(v, i);
        let w = v.remove(i);
        lemma_sorted_remove(v, i);
        lemma_list_sum(w);
        lemma_sum_remove(v, i);
        let t = newest_first(w);
        assert((seq![v[i]] + t).drop_first() =~= t);
    }
}

/// Law: for an index whose total agrees with its entries (a fresh one, and
/// every one the public operations make from it without the total
/// saturating), the statistics count exactly what `list` returns: as many
/// entries, and a total equal to the sum of their bytes.
pub proof fn lemma_stats_match_list(idx: &CacheIndex)
    requires
        idx.wf(),
        total_consistent(idx.total(), idx.view()),
    ensures
        idx.total() == sum_bytes(newest_first(idx.view())),
        newest_first(idx.view()).len() == idx.view().len(),
{
    lemma_list_sum(idx.view());
}

/// Law: what `persisted_entries` writes, read back by `from_persisted` at
/// the current schema version with the same limit, is the same index:
/// the same entries, and (for a total that agrees with its entries) the
/// same total.
pub proof fn lemma_persist_round_trip(idx: &CacheIndex, persisted: Seq<EntryView>)
    requires
        idx.wf(),
        persisted == idx.view(),
    ensures
        build_view(persisted) == idx.view(),
        total_consistent(idx.total(), idx.view()) ==> sat_sum(persisted) == idx.total(),
{
    lemma_build_sorted(idx.view());
    if total_consistent(idx.total(), idx.view()) {
        lemma_sat_sum_exact(idx.view());
    }
}

/// Law: a fresh index's total agrees with its (no) entries; `put_at`,
/// `remove`, `evict_until` and `clear_all` keep that agreement (their
/// contracts), and `touch_at`, `set_pinned` and `set_limit` change no byte
/// count.
pub proof fn lemma_default_consistent(idx: &CacheIndex)
    requires
        idx.view().len() == 0,
        idx.total() == 0,
    ensures
        total_consistent(idx.total(), idx.view()),
{
}

proof fn lemma_newest_exists(v: Seq<EntryView>)
    requires
        ids_sorted(v),
        v.len() > 0,
    ensures
        exists|i: int| is_newest(v, i),
    decreases v.len(),
{
    let w = v.remove(0);
    lemma_sorted_remove(v, 0);
    if w.len() > 0 {
        lemma_newest_exists(w);
        let k = choose|k: int| is_newest(w, k);
        let kk = k + 1;
        assert(w[k] == v[kk]);
        lemma_distinct_ids(v, kk, 0);
        lemma_seq_lt_total(v[kk].id, v[0].id);
        if newer(v[kk], v[0]) {
            assert forall|j: int| 0 <= j < v.len() && j != kk implies newer(v[kk], v[j]) by {
                if j != 0 {
                    assert(w[j - 1] == v[j]);
                }
            }
            assert(is_newest(v, kk));
        } else {
            assert forall|j: int| 0 <= j < v.len() && j != 0 implies newer(v[0], v[j]) by {
                if j != kk {
                    assert(w[j - 1] == v[j]);
                    assert(newer(v[kk], v[j]));
                    if v[0].last_access_ms == v[kk].last_access_ms && v[kk].last_access_ms == v[j].last_access_ms {
                        lemma_seq_lt_transitive(v[0].id, v[kk].id, v[j].id);
                    }
                }
            }
            assert(is_newest(v, 0));
        }
    } else {
        assert(is_newest(v, 0));
    }
}

/// Law: `list` holds exactly the tracked entries: an entry is listed if
/// and only if it is in the index, so `contains(id)` holds exactly when
/// some listed entry has that id.
pub proof fn lemma_list_same_entries(v: Seq<EntryView>)
    requires
        ids_sorted(v),
    ensures
        forall|x: EntryView| #[trigger] newest_first(v).contains(x) <==> v.contains(x),
        forall|id: Seq<char>| has_id(v, id) <==> exists|k: int|
            0 <= k < newest_first(v).len() && (#[trigger] newest_first(v)[k]).id == id,
    decreases v.len(),
{
    if v.len() == 0 {
        assert(newest_first(v) =~= Seq::<EntryView>::empty());
    } else {
        lemma_newest_exists(v);
        let i = choose|i: int| is_newest(v, i);
        let w = v.remove(i);
        lemma_sorted_remove(v, i);
        lemma_list_same_entries(w);
        let nf = newest_first(v);
        let t = newest_first(w);
        assert(nf == seq![v[i]] + t);
        assert(nf.len() == t.len() + 1);
        assert(nf[0] == v[i]);
        assert forall|k: int| 0 <= k < t.len() implies #[trigger] nf[k + 1] == t[k] by {}
        assert forall|x: EntryView| #[trigger] nf.contains(x) <==> v.contains(x) by {
            if nf.contains(x) {
                let k = choose|k: int| 0 <= k < nf.len() && nf[k] == x;
                if k > 0 {
                    assert(nf[(k - 1) + 1] == t[k - 1]);
                    assert(t[k - 1] == x);
                    assert(t.contains(x));
                    let j = choose|j: int| 0 <= j < w.len() && w[j] == x;
                    let jj = if j < i { j } else { j + 1 };
                    assert(v[jj] == x);
                } else {
                    assert(v[i] == x);
                }
            }
            if v.contains(x) {
                let j = choose|j: int| 0 <= j < v.len() && v[j] == x;
                if j == i {
                    assert(nf[0] == x);
                } else {
                    let j2 = if j < i { j } else { j - 1 };
                    assert(w[j2] == x);
                    assert(w.contains(x));
                    assert(t.contains(x));
                    let k = choose|k: int| 0 <= k < t.len() && t[k] == x;
                    assert(nf[k + 1] == t[k]);
                    assert(nf[k + 1] == x);
                }
            }
        }
        assert forall|id: Seq<char>| has_id(v, id) <==> exists|k: int|
            0 <= k < nf.len() && (#[trigger] nf[k]).id == id by {
            if has_id(v, id) {
                let j = choose|j: int| 0 <= j < v.len() && v[j].id == id;
                assert(v.contains(v[j]));
                assert(nf.contains(v[j]));
            }
            if exists|k: int| 0 <= k < nf.len() && (#[trigger] nf[k]).id == id {
                let k = choose|k: int| 0 <= k < nf.len() && (#[trigger] nf[k]).id == id;
                assert(nf.contains(nf[k]));
                assert(v.contains(nf[k]));
            }
        }
    }
}

} // verus!
