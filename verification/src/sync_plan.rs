//! The decisions of a sync pass: the order remote changes are applied in,
//! which of them win over local state (last writer wins by HLC), which
//! remote devices and JSONL files to read, when a device has a gap that
//! only a snapshot import can fill, and when compaction is due.

use vstd::prelude::*;
use vstd::string::StringExecFns;
use crate::hlc::{find_char, lemma_find_char};
use crate::search::{names_of, trim, trim_spec};
use crate::ext::{utf8_lossy, utf8_lossy_text};
use crate::text::{chars_of, lemma_seq_lt_irreflexive, lemma_seq_lt_total, lemma_seq_lt_transitive, lemma_seq_lt_asymmetric, seq_lt, str_eq, str_lt, string_from_chars};

verus! {

broadcast use crate::text::group_concat;

/// One row of the change log, as uploaded in JSONL.
#[derive(Debug)]
pub struct SyncLogEntry {
    pub id: i64,
    pub entity_type: String,
    pub entity_id: String,
    pub operation: String,
    pub payload: String,
    pub hlc: String,
    pub device_id: String,
}

impl Clone for SyncLogEntry {
    fn clone(&self) -> (r: Self)
        ensures
            r == *self,
    {
        SyncLogEntry {
            id: self.id,
            entity_type: self.entity_type.clone(),
            entity_id: self.entity_id.clone(),
            operation: self.operation.clone(),
            payload: self.payload.clone(),
            hlc: self.hlc.clone(),
            device_id: self.device_id.clone(),
        }
    }
}

/// Outcome of a sync pass.
#[derive(Debug, Clone, Copy, PartialEq, Eq, Structural)]
pub enum SyncResult {
    Success { uploaded: usize, downloaded: usize, applied: usize },
    Skipped,
}

/// The outcome of a completed pass: entries applied from JSONL and
/// entities imported from snapshots both count as applied.
pub fn sync_result(uploaded: usize, downloaded: usize, applied: usize, snapshot_imported: usize) -> (r: SyncResult)
    requires
        applied + snapshot_imported <= usize::MAX,
    ensures
        r == (SyncResult::Success {
            uploaded,
            downloaded,
            applied: (applied + snapshot_imported) as usize,
        }),
{
    SyncResult::Success { uploaded, downloaded, applied: applied + snapshot_imported }
}

/// Per-engine tuning: whether to skip the eager download of every pending
/// snapshot, and what to call after each snapshot written to disk.
pub struct SyncOptions<F> {
    pub skip_proactive_snapshot_download: bool,
    pub on_snapshot_saved: Option<F>,
}

impl<F> Default for SyncOptions<F> {
    fn default() -> (o: Self)
        ensures
            !o.skip_proactive_snapshot_download,
            o.on_snapshot_saved is None,
    {
        SyncOptions { skip_proactive_snapshot_download: false, on_snapshot_saved: None }
    }
}

// ───────────────────────── apply order ─────────────────────────

/// Rank of an entry in the apply order. Inserts and updates go parents
/// first: folder 0, tag 1, resource 2, highlight 3, comment 4, an unknown
/// entity type 5. Deletes go children first: comment 5, highlight 6,
/// resource 7, tag 8, folder 9, an unknown entity type 11. Purges (which
/// need the row soft-deleted) come after: comment 12, highlight 13,
/// resource 14, tag 15, folder 16, an unknown entity type 17. An unknown
/// operation ranks last (18).
pub open spec fn topo_rank(operation: Seq<char>, entity_type: Seq<char>) -> u8 {
    let kind: u8 = if entity_type == "folder"@ {
        0
    } else if entity_type == "tag"@ {
        1
    } else if entity_type == "resource"@ {
        2
    } else if entity_type == "highlight"@ {
        3
    } else if entity_type == "comment"@ {
        4
    } else {
        5
    };
    if operation == "INSERT"@ || operation == "UPDATE"@ {
        kind
    } else if operation == "DELETE"@ {
        if kind == 5 {
            11
        } else {
            (9 - kind) as u8
        }
    } else if operation == "PURGE"@ {
        if kind == 5 {
            17
        } else {
            (16 - kind) as u8
        }
    } else {
        18
    }
}

pub fn topo_order(operation: &str, entity_type: &str) -> (r: u8)
    ensures
        r == topo_rank(operation@, entity_type@),
{
    let kind: u8 = if str_eq(entity_type, "folder") {
        0
    } else if str_eq(entity_type, "tag") {
        1
    } else if str_eq(entity_type, "resource") {
        2
    } else if str_eq(entity_type, "highlight") {
        3
    } else if str_eq(entity_type, "comment") {
        4
    } else {
        5
    };
    if str_eq(operation, "INSERT") || str_eq(operation, "UPDATE") {
        kind
    } else if str_eq(operation, "DELETE") {
        if kind == 5 {
            11
        } else {
            9 - kind
        }
    } else if str_eq(operation, "PURGE") {
        if kind == 5 {
            17
        } else {
            16 - kind
        }
    } else {
        18
    }
}

/// One of the five entity types that sync knows.
pub open spec fn known_entity(t: Seq<char>) -> bool {
    t == "folder"@ || t == "tag"@ || t == "resource"@ || t == "highlight"@ || t == "comment"@
}

/// Law: inserts and updates apply parents first (folder, tag, resource,
/// highlight, comment, then an unknown entity type), and an update ranks as
/// an insert; deletes apply children first (comment, highlight, resource,
/// tag, folder, then an unknown type); every purge comes after every delete,
/// in the same children-first order; an unknown operation comes last.
pub proof fn lemma_topo_rank_order(a: Seq<char>, b: Seq<char>, op: Seq<char>)
    requires
        op != "INSERT"@ && op != "UPDATE"@ && op != "DELETE"@ && op != "PURGE"@,
    ensures
        topo_rank("INSERT"@, "folder"@) < topo_rank("INSERT"@, "tag"@),
        topo_rank("INSERT"@, "tag"@) < topo_rank("INSERT"@, "resource"@),
        topo_rank("INSERT"@, "resource"@) < topo_rank("INSERT"@, "highlight"@),
        topo_rank("INSERT"@, "highlight"@) < topo_rank("INSERT"@, "comment"@),
        !known_entity(a) ==> topo_rank("INSERT"@, "comment"@) < topo_rank("INSERT"@, a),
        topo_rank("UPDATE"@, a) == topo_rank("INSERT"@, a),
        topo_rank("DELETE"@, "comment"@) < topo_rank("DELETE"@, "highlight"@),
        topo_rank("DELETE"@, "highlight"@) < topo_rank("DELETE"@, "resource"@),
        topo_rank("DELETE"@, "resource"@) < topo_rank("DELETE"@, "tag"@),
        topo_rank("DELETE"@, "tag"@) < topo_rank("DELETE"@, "folder"@),
        !known_entity(a) ==> topo_rank("DELETE"@, "folder"@) < topo_rank("DELETE"@, a),
        !known_entity(a) ==> topo_rank("PURGE"@, "folder"@) < topo_rank("PURGE"@, a),
        topo_rank("PURGE"@, "comment"@) < topo_rank("PURGE"@, "highlight"@),
        topo_rank("PURGE"@, "highlight"@) < topo_rank("PURGE"@, "resource"@),
        topo_rank("PURGE"@, "resource"@) < topo_rank("PURGE"@, "tag"@),
        topo_rank("PURGE"@, "tag"@) < topo_rank("PURGE"@, "folder"@),
        topo_rank("INSERT"@, a) <= topo_rank("DELETE"@, b),
        topo_rank("DELETE"@, a) < topo_rank("PURGE"@, b),
        topo_rank("PURGE"@, a) < topo_rank(op, b),
{
    reveal_strlit("INSERT");
    reveal_strlit("UPDATE");
    reveal_strlit("DELETE");
    reveal_strlit("PURGE");
    reveal_strlit("folder");
    reveal_strlit("tag");
    reveal_strlit("resource");
    reveal_strlit("highlight");
    reveal_strlit("comment");
    assert("INSERT"@[0] != "UPDATE"@[0] && "INSERT"@[0] != "DELETE"@[0] && "INSERT"@[0] != "PURGE"@[0]);
    assert("UPDATE"@[0] != "DELETE"@[0] && "UPDATE"@[0] != "PURGE"@[0] && "DELETE"@[0] != "PURGE"@[0]);
    assert("folder"@[0] == 'f' && "tag"@[0] == 't' && "resource"@[0] == 'r' && "highlight"@[0] == 'h'
        && "comment"@[0] == 'c');
}

/// The sort key of an entry: its rank, with an insert or update placed
/// before anything else of the same rank (an insert of an unknown entity
/// type shares rank 5 with a comment's delete and goes first).
pub open spec fn entry_rank(e: SyncLogEntry) -> u8 {
    let t = topo_rank(e.operation@, e.entity_type@);
    if e.operation@ == "INSERT"@ || e.operation@ == "UPDATE"@ {
        (2 * t) as u8
    } else {
        (2 * t + 1) as u8
    }
}

/// The entries of rank `k`, in their original order.
pub open spec fn with_rank(entries: Seq<SyncLogEntry>, k: u8) -> Seq<SyncLogEntry> {
    entries.filter(|e: SyncLogEntry| entry_rank(e) == k)
}

/// The entries of rank `k` and above, rank by rank.
pub open spec fn ranks_from(entries: Seq<SyncLogEntry>, k: nat) -> Seq<SyncLogEntry>
    decreases 38 - k,
{
    if k >= 38 {
        Seq::<SyncLogEntry>::empty()
    } else {
        with_rank(entries, k as u8) + ranks_from(entries, k + 1)
    }
}

/// The apply order: a stable sort by the key of `entry_rank`.
pub open spec fn apply_order(entries: Seq<SyncLogEntry>) -> Seq<SyncLogEntry> {
    ranks_from(entries, 0)
}

/// Sort entries into the apply order, keeping the upload order among
/// entries of the same rank.
pub fn sort_for_apply(entries: &Vec<SyncLogEntry>) -> (r: Vec<SyncLogEntry>)
    ensures
        r@ == apply_order(entries@),
{
    let mut ranks: Vec<u8> = Vec::new();
    let mut i: usize = 0;
    while i < entries.len()
        invariant
            0 <= i <= entries.len(),
            ranks.len() == i,
            forall|j: int| 0 <= j < i ==> ranks@[j] == entry_rank(#[trigger] entries@[j]),
        decreases entries.len() - i,
    {
        let t = topo_order(entries[i].operation.as_str(), entries[i].entity_type.as_str());
        let op = entries[i].operation.as_str();
        let key: u8 = if str_eq(op, "INSERT") || str_eq(op, "UPDATE") { 2 * t } else { 2 * t + 1 };
        ranks.push(key);
        i = i + 1;
    }
    let mut out: Vec<SyncLogEntry> = Vec::new();
    let mut k: u8 = 0;
    while k < 38
        invariant
            0 <= k <= 38,
            ranks.len() == entries.len(),
            forall|j: int| 0 <= j < entries.len() ==> ranks@[j] == entry_rank(#[trigger] entries@[j]),
            out@ + ranks_from(entries@, k as nat) == apply_order(entries@),
        decreases 38 - k,
    {
        let ghost before = out@;
        let mut j: usize = 0;
        while j < entries.len()
            invariant
                0 <= j <= entries.len(),
                k < 38,
                ranks.len() == entries.len(),
                forall|m: int| 0 <= m < entries.len() ==> ranks@[m] == entry_rank(#[trigger] entries@[m]),
                out@ == before + with_rank(entries@.take(j as int), k),
            decreases entries.len() - j,
        {
            proof {
                let t = entries@.take(j + 1);
                assert(t.drop_last() =~= entries@.take(j as int));
                assert(t.last() == entries@[j as int]);
                vstd::seq_lib::lemma_seq_take_len(entries@, j + 1);
            }
            if ranks[j] == k {
                out.push(entries[j].clone());
                proof {
                    let t = entries@.take(j + 1);
                    reveal(Seq::filter);
                    assert(with_rank(t, k) == with_rank(t.drop_last(), k).push(t.last()));
                }
            } else {
                proof {
                    let t = entries@.take(j + 1);
                    reveal(Seq::filter);
                    assert(with_rank(t, k) == with_rank(t.drop_last(), k));
                }
            }
            j = j + 1;
        }
        assert(entries@.take(j as int) =~= entries@);
        assert(out@ + ranks_from(entries@, (k + 1) as nat) == before + (with_rank(entries@, k)
            + ranks_from(entries@, (k + 1) as nat)));
        k = k + 1;
    }
    assert(out@ + ranks_from(entries@, 38) =~= out@);
    out
}

// ───────────────────────── last writer wins ─────────────────────────

/// A remote entry is applied unless it came from this device or the local
/// copy carries an HLC at least as new (HLC strings order like the clocks).
pub open spec fn wins(entry: SyncLogEntry, own_device: Seq<char>, local_hlc: Option<Seq<char>>) -> bool {
    &&& entry.device_id@ != own_device
    &&& match local_hlc {
        Some(l) => seq_lt(l, entry.hlc@),
        None => true,
    }
}

pub fn should_apply(entry: &SyncLogEntry, own_device: &str, local_hlc: Option<&str>) -> (r: bool)
    ensures
        r == wins(
            *entry,
            own_device@,
            match local_hlc {
                Some(l) => Some(l@),
                None => None,
            },
        ),
{
    if str_eq(entry.device_id.as_str(), own_device) {
        return false;
    }
    match local_hlc {
        Some(l) => str_lt(l, entry.hlc.as_str()),
        None => true,
    }
}

/// Law: of two entries for the same entity from other devices, applying
/// the one with the greater HLC first makes the other lose; the order in
/// which they arrive cannot make an older write win.
pub proof fn lemma_lww_newer_stays(older: SyncLogEntry, newer: SyncLogEntry, own_device: Seq<char>)
    requires
        seq_lt(older.hlc@, newer.hlc@),
    ensures
        !wins(older, own_device, Some(newer.hlc@)),
{
    crate::text::lemma_seq_lt_asymmetric(older.hlc@, newer.hlc@);
}

// ───────────────────────── snapshots and compaction ─────────────────────────

pub open spec fn snapshot_ext(resource_type: Seq<char>) -> Seq<char> {
    if resource_type == "pdf"@ {
        "pdf"@
    } else {
        "html"@
    }
}

/// `snapshots/<id>/snapshot.<pdf|html>.gz`.
pub fn snapshot_s3_key(resource_id: &str, resource_type: &str) -> (k: String)
    ensures
        k@ == "snapshots/"@ + resource_id@ + "/snapshot."@ + snapshot_ext(resource_type@) + ".gz"@,
        resource_type@ == "pdf"@ ==> k@ == "snapshots/"@ + resource_id@ + "/snapshot."@ + "pdf"@ + ".gz"@,
        resource_type@ != "pdf"@ ==> k@ == "snapshots/"@ + resource_id@ + "/snapshot."@ + "html"@ + ".gz"@,
{
    let mut k = "snapshots/".to_owned();
    k.append(resource_id);
    k.append("/snapshot.");
    if str_eq(resource_type, "pdf") {
        k.append("pdf");
    } else {
        k.append("html");
    }
    k.append(".gz");
    k
}

/// Local file name of a snapshot.
pub fn snapshot_filename(resource_type: &str) -> (f: &'static str)
    ensures
        f@ == (if resource_type@ == "pdf"@ {
            "snapshot.pdf"@
        } else {
            "snapshot.html"@
        }),
{
    if str_eq(resource_type, "pdf") {
        "snapshot.pdf"
    } else {
        "snapshot.html"
    }
}

pub open spec fn sum_sizes(sizes: Seq<u64>) -> int
    decreases sizes.len(),
{
    if sizes.len() == 0 {
        0
    } else {
        sum_sizes(sizes.drop_last()) + sizes.last()
    }
}

pub const COMPACT_MIN_FILES: usize = 100;
pub const COMPACT_MIN_BYTES: u64 = 10485760;

/// Compaction is due once this device has 100 JSONL files or 10 MiB of them.
pub fn needs_compaction(sizes: &[u64]) -> (r: bool)
    ensures
        r == (sizes@.len() >= COMPACT_MIN_FILES || sum_sizes(sizes@) >= COMPACT_MIN_BYTES),
{
    if sizes.len() >= COMPACT_MIN_FILES {
        return true;
    }
    let mut total: u64 = 0;
    let mut i: usize = 0;
    while i < sizes.len()
        invariant
            0 <= i <= sizes.len(),
            total == sum_sizes(sizes@.take(i as int)),
            total < COMPACT_MIN_BYTES,
        decreases sizes.len() - i,
    {
        proof {
            assert(sizes@.take(i + 1).drop_last() =~= sizes@.take(i as int));
        }
        if sizes[i] >= COMPACT_MIN_BYTES - total {
            proof {
                lemma_sum_prefix_mono(sizes@, i + 1);
            }
            return true;
        }
        total = total + sizes[i];
        i = i + 1;
    }
    assert(sizes@.take(i as int) =~= sizes@);
    false
}

proof fn lemma_sum_prefix_mono(s: Seq<u64>, k: int)
    requires
        0 <= k <= s.len(),
    ensures
        sum_sizes(s.take(k)) <= sum_sizes(s),
    decreases s.len(),
{
    if k < s.len() {
        assert(s.drop_last().take(k) =~= s.take(k));
        lemma_sum_prefix_mono(s.drop_last(), k);
    } else {
        assert(s.take(k) =~= s);
    }
}


// ───────────────────────── keys ─────────────────────────

/// The characters `v[a..b]` as a `String`.
pub(crate) fn string_of_range(v: &Vec<char>, a: usize, b: usize) -> (s: String)
    requires
        a <= b <= v.len(),
    ensures
        s@ == v@.subrange(a as int, b as int),
{
    let mut out: Vec<char> = Vec::new();
    let mut i: usize = a;
    while i < b
        invariant
            a <= i <= b,
            b <= v.len(),
            out@ == v@.subrange(a as int, i as int),
        decreases b - i,
    {
        out.push(v[i]);
        i = i + 1;
        assert(out@ =~= v@.subrange(a as int, i as int));
    }
    string_from_chars(&out)
}

/// First position at or after `from` holding `c`.
pub(crate) fn index_of_char(v: &Vec<char>, from: usize, c: char) -> (r: Option<usize>)
    requires
        from <= v.len(),
    ensures
        match find_char(v@.skip(from as int), c) {
            Some(i) => r == Some((from + i) as usize),
            None => r is None,
        },
{
    proof {
        lemma_find_char(v@.skip(from as int), c);
    }
    let mut i: usize = from;
    while i < v.len()
        invariant
            from <= i <= v.len(),
            forall|k: int| from <= k < i ==> v@[k] != c,
        decreases v.len() - i,
    {
        if v[i] == c {
            proof {
                lemma_find_char(v@.skip(from as int), c);
                assert(v@.skip(from as int)[i - from] == c);
                match find_char(v@.skip(from as int), c) {
                    Some(j) => {
                        assert(v@.skip(from as int)[j] == v@[from + j]);
                        if j < i - from {
                        } else if j > i - from {
                        }
                    },
                    None => {},
                }
            }
            return Some(i);
        }
        i = i + 1;
    }
    proof {
        match find_char(v@.skip(from as int), c) {
            Some(j) => {
                assert(v@.skip(from as int)[j] == v@[from + j]);
            },
            None => {},
        }
    }
    None
}

/// The device directory of a `sync/<device>/<file>` key: the text between
/// the first and second `/` (the key needs at least three parts).
pub open spec fn sync_key_device(key: Seq<char>) -> Option<Seq<char>> {
    match find_char(key, '/') {
        None => None,
        Some(i) => match find_char(key.skip(i + 1), '/') {
            None => None,
            Some(j) => Some(key.skip(i + 1).take(j)),
        },
    }
}

#[verifier::rlimit(30)]
pub fn device_of_sync_key(key: &str) -> (r: Option<String>)
    ensures
        match sync_key_device(key@) {
            Some(d) => r matches Some(s) && s@ == d,
            None => r is None,
        },
{
    let cs = chars_of(key);
    proof {
        lemma_find_char(key@, '/');
    }
    let i = match index_of_char(&cs, 0, '/') {
        Some(i) => i,
        None => {
            assert(cs@.skip(0) =~= cs@);
            return None;
        },
    };
    assert(cs@.skip(0) =~= cs@);
    proof {
        lemma_find_char(cs@.skip(0), '/');
    }
    assert(i < cs.len());
    let j = match index_of_char(&cs, i + 1, '/') {
        Some(j) => j,
        None => return None,
    };
    proof {
        lemma_find_char(key@.skip(i + 1), '/');
    }
    let d = string_of_range(&cs, i + 1, j);
    assert(d@ =~= key@.skip(i + 1).take(j - (i + 1)));
    Some(d)
}

/// The device of a `remote:<device>:last_seq` cursor key.
pub open spec fn cursor_key_device(key: Seq<char>) -> Option<Seq<char>> {
    let p = "remote:"@;
    let s = ":last_seq"@;
    if p.is_prefix_of(key) && s.is_suffix_of(key.skip(p.len() as int)) {
        Some(key.subrange(p.len() as int, key.len() - s.len()))
    } else {
        None
    }
}

pub fn device_of_cursor_key(key: &str) -> (r: Option<String>)
    ensures
        match cursor_key_device(key@) {
            Some(d) => r matches Some(s) && s@ == d,
            None => r is None,
        },
{
    let cs = chars_of(key);
    let p = chars_of("remote:");
    let s = chars_of(":last_seq");
    if !chars_at(&cs, &p, 0) {
        assert(!"remote:"@.is_prefix_of(key@));
        return None;
    }
    assert("remote:"@.is_prefix_of(key@));
    let rest_len = cs.len() - p.len();
    if rest_len < s.len() {
        assert(!":last_seq"@.is_suffix_of(key@.skip(p.len() as int)));
        return None;
    }
    let off = cs.len() - s.len();
    let ok = chars_at(&cs, &s, off);
    proof {
        let r = key@.skip(p.len() as int);
        assert(r.subrange(r.len() - s.len(), r.len() as int) =~= key@.subrange(off as int, off + s.len()));
    }
    if !ok {
        return None;
    }
    Some(string_of_range(&cs, p.len(), off))
}

/// Whether `p` occurs in `v` at position `at`.
pub(crate) fn chars_at(v: &Vec<char>, p: &Vec<char>, at: usize) -> (r: bool)
    ensures
        r == (at + p.len() <= v.len() && v@.subrange(at as int, at + p.len()) == p@),
{
    if at > v.len() || v.len() - at < p.len() {
        return false;
    }
    let mut i: usize = 0;
    while i < p.len()
        invariant
            0 <= i <= p.len(),
            at + p.len() <= v.len(),
            forall|k: int| 0 <= k < i ==> v@[at + k] == p@[k],
        decreases p.len() - i,
    {
        if v[at + i] != p[i] {
            assert(v@.subrange(at as int, at + p.len())[i as int] != p@[i as int]);
            return false;
        }
        i = i + 1;
    }
    assert(v@.subrange(at as int, at + p.len()) =~= p@);
    true
}

/// Some string of `v` reads `t`.
pub open spec fn has_name(v: Seq<String>, t: Seq<char>) -> bool {
    exists|i: int| 0 <= i < v.len() && #[trigger] v[i]@ == t
}

/// Some `sync/` key of `keys` names device `t`.
pub open spec fn sync_keys_name(keys: Seq<String>, t: Seq<char>) -> bool {
    exists|j: int| 0 <= j < keys.len() && sync_key_device(#[trigger] keys[j]@) == Some(t)
}

/// Some cursor key of `keys` names device `t`.
pub open spec fn cursor_keys_name(keys: Seq<String>, t: Seq<char>) -> bool {
    exists|j: int| 0 <= j < keys.len() && cursor_key_device(#[trigger] keys[j]@) == Some(t)
}

/// Device ids named by the keys under `sync/` and by the stored cursors, in
/// that order (duplicates kept).
pub fn devices_in_keys(sync_keys: &Vec<String>, cursor_keys: &Vec<String>) -> (r: Vec<String>)
    ensures
        forall|t: Seq<char>|
            #[trigger] has_name(r@, t) <==> (sync_keys_name(sync_keys@, t) || cursor_keys_name(
                cursor_keys@,
                t,
            )),
{
    let mut r: Vec<String> = Vec::new();
    let mut i: usize = 0;
    while i < sync_keys.len()
        invariant
            0 <= i <= sync_keys.len(),
            forall|t: Seq<char>| #[trigger] has_name(r@, t) <==> sync_keys_name(sync_keys@.take(i as int), t),
        decreases sync_keys.len() - i,
    {
        let ghost before = r@;
        let ghost old_keys = sync_keys@.take(i as int);
        let ghost new_keys = sync_keys@.take(i + 1);
        assert(new_keys.drop_last() =~= old_keys);
        assert(new_keys.len() == i + 1 && old_keys.len() == i);
        assert(new_keys[i as int] == sync_keys@[i as int]);
        match device_of_sync_key(sync_keys[i].as_str()) {
            Some(d) => {
                r.push(d);
                proof {
                    assert forall|t: Seq<char>| #[trigger] has_name(r@, t) <==> sync_keys_name(new_keys, t) by {
                        if has_name(r@, t) {
                            let k = choose|k: int| 0 <= k < r.len() && #[trigger] r@[k]@ == t;
                            if k < before.len() {
                                assert(before[k] == r@[k]);
                                assert(has_name(before, t));
                                let j = choose|j: int| 0 <= j < old_keys.len() && sync_key_device(#[trigger] old_keys[j]@) == Some(t);
                                assert(new_keys[j] == old_keys[j]);
                            } else {
                                assert(new_keys[i as int] == sync_keys@[i as int]);
                            }
                        }
                        if sync_keys_name(new_keys, t) {
                            let j = choose|j: int| 0 <= j < new_keys.len() && sync_key_device(#[trigger] new_keys[j]@) == Some(t);
                            if j < i {
                                assert(old_keys[j] == new_keys[j]);
                                assert(sync_keys_name(old_keys, t));
                                assert(has_name(before, t));
                                let k = choose|k: int| 0 <= k < before.len() && #[trigger] before[k]@ == t;
                                assert(r@[k] == before[k]);
                            } else {
                                assert(r@[r.len() - 1]@ == t);
                            }
                        }
                    }
                }
            },
            None => {
                proof {
                    assert forall|t: Seq<char>| #[trigger] has_name(r@, t) <==> sync_keys_name(new_keys, t) by {
                        if has_name(r@, t) {
                            let j = choose|j: int| 0 <= j < old_keys.len() && sync_key_device(#[trigger] old_keys[j]@) == Some(t);
                            assert(new_keys[j] == old_keys[j]);
                        }
                        if sync_keys_name(new_keys, t) {
                            let j = choose|j: int| 0 <= j < new_keys.len() && sync_key_device(#[trigger] new_keys[j]@) == Some(t);
                            assert(j < i);
                            assert(old_keys[j] == new_keys[j]);
                            assert(sync_keys_name(old_keys, t));
                        }
                    }
                }
            },
        }
        i = i + 1;
    }
    assert(sync_keys@.take(i as int) =~= sync_keys@);
    let ghost mid = r@;
    let mut c: usize = 0;
    while c < cursor_keys.len()
        invariant
            0 <= c <= cursor_keys.len(),
            forall|t: Seq<char>| #[trigger] has_name(r@, t) <==> (has_name(mid, t) || cursor_keys_name(
                cursor_keys@.take(c as int),
                t,
            )),
        decreases cursor_keys.len() - c,
    {
        let ghost before = r@;
        let ghost old_keys = cursor_keys@.take(c as int);
        let ghost new_keys = cursor_keys@.take(c + 1);
        assert(new_keys.drop_last() =~= old_keys);
        assert(new_keys.len() == c + 1 && old_keys.len() == c);
        assert(new_keys[c as int] == cursor_keys@[c as int]);
        match device_of_cursor_key(cursor_keys[c].as_str()) {
            Some(d) => {
                r.push(d);
                proof {
                    assert forall|t: Seq<char>| #[trigger] has_name(r@, t) <==> (has_name(mid, t)
                        || cursor_keys_name(new_keys, t)) by {
                        if has_name(r@, t) {
                            let k = choose|k: int| 0 <= k < r.len() && #[trigger] r@[k]@ == t;
                            if k < before.len() {
                                assert(before[k] == r@[k]);
                                assert(has_name(before, t));
                                if cursor_keys_name(old_keys, t) {
                                    let j = choose|j: int| 0 <= j < old_keys.len() && cursor_key_device(#[trigger] old_keys[j]@) == Some(t);
                                    assert(new_keys[j] == old_keys[j]);
                                }
                            } else {
                                assert(new_keys[c as int] == cursor_keys@[c as int]);
                            }
                        }
                        if has_name(mid, t) {
                            assert(has_name(before, t));
                            let k = choose|k: int| 0 <= k < before.len() && #[trigger] before[k]@ == t;
                            assert(r@[k] == before[k]);
                        }
                        if cursor_keys_name(new_keys, t) {
                            let j = choose|j: int| 0 <= j < new_keys.len() && cursor_key_device(#[trigger] new_keys[j]@) == Some(t);
                            if j < c {
                                assert(old_keys[j] == new_keys[j]);
                                assert(cursor_keys_name(old_keys, t));
                                assert(has_name(before, t));
                                let k = choose|k: int| 0 <= k < before.len() && #[trigger] before[k]@ == t;
                                assert(r@[k] == before[k]);
                            } else {
                                assert(r@[r.len() - 1]@ == t);
                            }
                        }
                    }
                }
            },
            None => {
                proof {
                    assert forall|t: Seq<char>| #[trigger] has_name(r@, t) <==> (has_name(mid, t)
                        || cursor_keys_name(new_keys, t)) by {
                        if cursor_keys_name(old_keys, t) {
                            let j = choose|j: int| 0 <= j < old_keys.len() && cursor_key_device(#[trigger] old_keys[j]@) == Some(t);
                            assert(new_keys[j] == old_keys[j]);
                        }
                        if cursor_keys_name(new_keys, t) {
                            let j = choose|j: int| 0 <= j < new_keys.len() && cursor_key_device(#[trigger] new_keys[j]@) == Some(t);
                            assert(j < c);
                            assert(old_keys[j] == new_keys[j]);
                        }
                    }
                }
            },
        }
        c = c + 1;
    }
    assert(cursor_keys@.take(c as int) =~= cursor_keys@);
    r
}

/// Strictly increasing, so each name occurs once.
pub open spec fn strictly_sorted(s: Seq<Seq<char>>) -> bool {
    forall|i: int, j: int| 0 <= i < j < s.len() ==> seq_lt(#[trigger] s[i], #[trigger] s[j])
}

/// The devices to pull from: the candidates without this device, sorted,
/// each once.
pub fn remote_devices(candidates: &Vec<String>, own_device: &str) -> (r: Vec<String>)
    ensures
        strictly_sorted(names_of(r@)),
        forall|t: Seq<char>|
            #[trigger] has_name(r@, t) <==> (t != own_device@ && has_name(candidates@, t)),
{
    let mut r: Vec<String> = Vec::new();
    let mut c: usize = 0;
    while c < candidates.len()
        invariant
            0 <= c <= candidates.len(),
            strictly_sorted(names_of(r@)),
            forall|t: Seq<char>|
                #[trigger] has_name(r@, t) <==> (t != own_device@ && has_name(candidates@.take(c as int), t)),
        decreases candidates.len() - c,
    {
        let x = &candidates[c];
        let ghost before = r@;
        let ghost old_c = candidates@.take(c as int);
        let ghost new_c = candidates@.take(c + 1);
        assert(new_c.drop_last() =~= old_c);
        assert(new_c.len() == c + 1 && old_c.len() == c);
        assert(new_c[c as int] == *x);
        if !str_eq(x.as_str(), own_device) {
            let mut i: usize = 0;
            while i < r.len() && str_lt(r[i].as_str(), x.as_str())
                invariant
                    0 <= i <= r.len(),
                    r@ == before,
                    forall|k: int| 0 <= k < i ==> seq_lt(#[trigger] r@[k]@, x@),
                decreases r.len() - i,
            {
                i = i + 1;
            }
            if i < r.len() && str_eq(r[i].as_str(), x.as_str()) {
                proof {
                    assert forall|t: Seq<char>| #[trigger] has_name(r@, t) <==> (t != own_device@
                        && has_name(new_c, t)) by {
                        if has_name(old_c, t) {
                            let j = choose|j: int| 0 <= j < old_c.len() && #[trigger] old_c[j]@ == t;
                            assert(new_c[j] == old_c[j]);
                        }
                        if has_name(new_c, t) {
                            let j = choose|j: int| 0 <= j < new_c.len() && #[trigger] new_c[j]@ == t;
                            if j == c {
                                assert(r@[i as int]@ == t);
                            } else {
                                assert(old_c[j] == new_c[j]);
                                assert(has_name(old_c, t));
                            }
                        }
                    }
                }
            } else {
                proof {
                    if i < r.len() {
                        lemma_seq_lt_total(r@[i as int]@, x@);
                    }
                }
                r.insert(i, x.clone());
                proof {
                    let n = names_of(r@);
                    let nb = names_of(before);
                    assert(n =~= nb.insert(i as int, x@));
                    assert forall|a: int, b: int| 0 <= a < b < n.len() implies seq_lt(#[trigger] n[a], #[trigger] n[b]) by {
                        if a < i && b == i {
                            assert(n[a] == before[a]@);
                        } else if a == i && b > i {
                            assert(n[b] == before[b - 1]@);
                            if b > i + 1 {
                                assert(seq_lt(nb[i as int], nb[b - 1]));
                                lemma_seq_lt_transitive(x@, before[i as int]@, before[b - 1]@);
                            }
                        } else if a < i && b > i {
                            assert(seq_lt(nb[a], nb[b - 1]));
                        } else if a > i {
                            assert(seq_lt(nb[a - 1], nb[b - 1]));
                        } else {
                            assert(seq_lt(nb[a], nb[b]));
                        }
                    }
                    assert forall|t: Seq<char>| #[trigger] has_name(r@, t) <==> (t != own_device@
                        && has_name(new_c, t)) by {
                        if has_name(r@, t) {
                            let k = choose|k: int| 0 <= k < r.len() && #[trigger] r@[k]@ == t;
                            if k < i {
                                assert(before[k]@ == t);
                                assert(has_name(before, t));
                                let j = choose|j: int| 0 <= j < old_c.len() && #[trigger] old_c[j]@ == t;
                                assert(new_c[j] == old_c[j]);
                            } else if k > i {
                                assert(before[k - 1]@ == t);
                                assert(has_name(before, t));
                                let j = choose|j: int| 0 <= j < old_c.len() && #[trigger] old_c[j]@ == t;
                                assert(new_c[j] == old_c[j]);
                            } else {
                                assert(new_c[c as int]@ == t);
                            }
                        }
                        if t != own_device@ && has_name(new_c, t) {
                            let j = choose|j: int| 0 <= j < new_c.len() && #[trigger] new_c[j]@ == t;
                            if j < c {
                                assert(old_c[j] == new_c[j]);
                                assert(has_name(old_c, t));
                                assert(has_name(before, t));
                                let k = choose|k: int| 0 <= k < before.len() && #[trigger] before[k]@ == t;
                                if k < i {
                                    assert(r@[k] == before[k]);
                                } else {
                                    assert(r@[k + 1] == before[k]);
                                }
                            } else {
                                assert(r@[i as int]@ == t);
                            }
                        }
                    }
                }
            }
        } else {
            proof {
                assert forall|t: Seq<char>| #[trigger] has_name(r@, t) <==> (t != own_device@
                    && has_name(new_c, t)) by {
                    if has_name(old_c, t) {
                        let j = choose|j: int| 0 <= j < old_c.len() && #[trigger] old_c[j]@ == t;
                        assert(new_c[j] == old_c[j]);
                    }
                    if t != own_device@ && has_name(new_c, t) {
                        let j = choose|j: int| 0 <= j < new_c.len() && #[trigger] new_c[j]@ == t;
                        assert(j < c);
                        assert(old_c[j] == new_c[j]);
                    }
                }
            }
        }
        c = c + 1;
    }
    assert(candidates@.take(c as int) =~= candidates@);
    r
}


// ───────────────────────── JSONL files of a device ─────────────────────────

pub open spec fn is_jsonl(key: Seq<char>) -> bool {
    ".jsonl"@.is_suffix_of(key)
}

/// Position of the last `c` in `s`.
pub open spec fn last_index_of(s: Seq<char>, c: char) -> Option<int>
    decreases s.len(),
{
    if s.len() == 0 {
        None
    } else if s.last() == c {
        Some(s.len() - 1)
    } else {
        last_index_of(s.drop_last(), c)
    }
}

/// The file name of a key: what follows its last `/`.
pub open spec fn file_name(key: Seq<char>) -> Seq<char> {
    match last_index_of(key, '/') {
        Some(i) => key.skip(i + 1),
        None => key,
    }
}

proof fn lemma_last_index_of(s: Seq<char>, c: char)
    ensures
        match last_index_of(s, c) {
            Some(i) => 0 <= i < s.len() && s[i] == c && forall|k: int| i < k < s.len() ==> s[k] != c,
            None => forall|k: int| 0 <= k < s.len() ==> s[k] != c,
        },
    decreases s.len(),
{
    if s.len() > 0 {
        lemma_last_index_of(s.drop_last(), c);
        assert forall|k: int| 0 <= k < s.len() - 1 implies s[k] == s.drop_last()[k] by {}
    }
}

pub fn jsonl_name(key: &str) -> (r: String)
    ensures
        r@ == file_name(key@),
{
    let cs = chars_of(key);
    proof {
        lemma_last_index_of(key@, '/');
    }
    let mut i: usize = cs.len();
    while i > 0 && cs[i - 1] != '/'
        invariant
            0 <= i <= cs.len(),
            cs@ == key@,
            forall|k: int| i <= k < cs.len() ==> cs@[k] != '/',
        decreases i,
    {
        i = i - 1;
    }
    if i == 0 {
        proof {
            match last_index_of(key@, '/') {
                Some(j) => {
                    assert(key@[j] == '/');
                    assert(cs@[j] != '/');
                },
                None => {},
            }
            assert(cs@.subrange(0, cs.len() as int) =~= key@);
        }
        return string_of_range(&cs, 0, cs.len());
    }
    proof {
        assert(cs@[i - 1] == '/');
        match last_index_of(key@, '/') {
            Some(j) => {
                if j < i - 1 {
                    assert(key@[i - 1] == '/');
                } else if j > i - 1 {
                    assert(cs@[j] != '/');
                }
                assert(j == i - 1);
            },
            None => {
                assert(key@[i - 1] != '/');
            },
        }
    }
    let r = string_of_range(&cs, i, cs.len());
    assert(r@ =~= file_name(key@));
    r
}

/// Position where `x` goes among ascending `s`: after every name not
/// greater than it.
pub open spec fn insert_pos(s: Seq<Seq<char>>, x: Seq<char>) -> int
    decreases s.len(),
{
    if s.len() == 0 || seq_lt(x, s[0]) {
        0
    } else {
        1 + insert_pos(s.drop_first(), x)
    }
}

/// Names in ascending order (an insertion sort, so equal names keep their
/// order).
pub open spec fn sort_names(s: Seq<Seq<char>>) -> Seq<Seq<char>>
    decreases s.len(),
{
    if s.len() == 0 {
        Seq::<Seq<char>>::empty()
    } else {
        let r = sort_names(s.drop_last());
        r.insert(insert_pos(r, s.last()), s.last())
    }
}

proof fn lemma_insert_pos(s: Seq<Seq<char>>, x: Seq<char>)
    ensures
        0 <= insert_pos(s, x) <= s.len(),
        forall|k: int| 0 <= k < insert_pos(s, x) ==> !seq_lt(x, #[trigger] s[k]),
        insert_pos(s, x) < s.len() ==> seq_lt(x, s[insert_pos(s, x)]),
    decreases s.len(),
{
    if s.len() > 0 && !seq_lt(x, s[0]) {
        lemma_insert_pos(s.drop_first(), x);
        assert forall|k: int| 0 <= k < insert_pos(s, x) implies !seq_lt(x, #[trigger] s[k]) by {
            if k > 0 {
                assert(s[k] == s.drop_first()[k - 1]);
            }
        }
    }
}

/// Ascending: no name is greater than a later one.
pub open spec fn ascending(s: Seq<Seq<char>>) -> bool {
    forall|i: int, j: int| 0 <= i < j < s.len() ==> !seq_lt(#[trigger] s[j], #[trigger] s[i])
}

/// Law: the sort yields the same names, in ascending order.
pub proof fn lemma_sort_names(s: Seq<Seq<char>>)
    ensures
        ascending(sort_names(s)),
        sort_names(s).to_multiset() == s.to_multiset(),
    decreases s.len(),
{
    broadcast use vstd::seq_lib::group_to_multiset_ensures;

    if s.len() > 0 {
        let r = sort_names(s.drop_last());
        let x = s.last();
        lemma_sort_names(s.drop_last());
        lemma_insert_pos(r, x);
        let p = insert_pos(r, x);
        let q = r.insert(p, x);
        assert forall|i: int, j: int| 0 <= i < j < q.len() implies !seq_lt(#[trigger] q[j], #[trigger] q[i]) by {
            if i < p && j == p {
                if seq_lt(x, r[i]) {
                }
            } else if i == p && j > p {
                assert(q[j] == r[j - 1]);
                if j - 1 > p {
                    assert(!seq_lt(r[j - 1], r[p]));
                    if seq_lt(r[j - 1], x) {
                        lemma_seq_lt_transitive(r[j - 1], x, r[p]);
                    }
                } else {
                    lemma_seq_lt_asymmetric(x, r[p]);
                }
            } else if i < p && j > p {
                assert(!seq_lt(r[j - 1], r[i]));
            } else if i > p {
                assert(!seq_lt(r[j - 1], r[i - 1]));
            } else {
                assert(!seq_lt(r[j], r[i]));
            }
        }
        vstd::seq_lib::to_multiset_insert(r, p, x);
        assert(s =~= s.drop_last().push(x));
        vstd::seq_lib::to_multiset_build(s.drop_last(), x);
    }
}

/// What to do with a device's stored JSONL cursor.
pub enum CursorUpdate {
    Keep,
    MoveTo(String),
    Delete,
}

/// How to pull one remote device.
pub struct DevicePlan {
    /// JSONL keys to download, oldest first.
    pub files: Vec<String>,
    /// The cursor points before the oldest file still on the remote.
    pub gap: bool,
    /// Import the device's latest snapshot first.
    pub import_snapshot: bool,
    pub cursor: CursorUpdate,
}

/// The device's JSONL keys, ascending.
pub open spec fn jsonl_sorted(keys: Seq<Seq<char>>) -> Seq<Seq<char>> {
    sort_names(keys.filter(|k: Seq<char>| is_jsonl(k)))
}

pub open spec fn plan_gap(keys: Seq<Seq<char>>, last_seq: Option<Seq<char>>) -> bool {
    let s = jsonl_sorted(keys);
    match last_seq {
        Some(q) => s.len() == 0 || seq_lt(q, file_name(s[0])),
        None => false,
    }
}

pub open spec fn plan_files(keys: Seq<Seq<char>>, last_seq: Option<Seq<char>>) -> Seq<Seq<char>> {
    let s = jsonl_sorted(keys);
    match last_seq {
        Some(q) => s.filter(|k: Seq<char>| seq_lt(q, file_name(k))),
        None => s,
    }
}

fn jsonl_suffix(key: &str) -> (r: bool)
    ensures
        r == is_jsonl(key@),
{
    let cs = chars_of(key);
    let suf = chars_of(".jsonl");
    if cs.len() < suf.len() {
        return false;
    }
    let ok = chars_at(&cs, &suf, cs.len() - suf.len());
    proof {
        assert(key@.subrange(key@.len() - suf@.len(), key@.len() as int) =~= cs@.subrange(
            (cs.len() - suf.len()) as int,
            cs.len() - suf.len() + suf.len(),
        ));
    }
    ok
}

/// Plan the pull of one device from the keys listed under its directory
/// and its stored cursor (the name of the last JSONL file applied).
/// A cursor older than the oldest file still present (or any cursor when
/// none is left) means compaction removed files in between: the device's
/// snapshot is imported and the cursor moves to the newest file, or is
/// dropped when there is none. A device seen for the first time with no
/// JSONL at all is also read from its snapshot. Either way only files newer
/// than the stored cursor are pulled.
pub fn plan_device(keys: &Vec<String>, last_seq: Option<&str>) -> (p: DevicePlan)
    ensures
        ({
            let ks = names_of(keys@);
            let q = match last_seq {
                Some(s) => Some(s@),
                None => None,
            };
            let s = jsonl_sorted(ks);
            &&& names_of(p.files@) == plan_files(ks, q)
            &&& p.gap == plan_gap(ks, q)
            &&& p.import_snapshot == (plan_gap(ks, q) || (last_seq is None && s.len() == 0))
            &&& match p.cursor {
                CursorUpdate::Keep => !plan_gap(ks, q),
                CursorUpdate::MoveTo(n) => plan_gap(ks, q) && s.len() > 0 && n@ == file_name(s.last()),
                CursorUpdate::Delete => plan_gap(ks, q) && s.len() == 0,
            }
        }),
{
    let ghost ks = names_of(keys@);
    // JSONL keys, ascending.
    let mut sorted: Vec<String> = Vec::new();
    let mut i: usize = 0;
    while i < keys.len()
        invariant
            0 <= i <= keys.len(),
            ks == names_of(keys@),
            names_of(sorted@) == sort_names(ks.take(i as int).filter(|k: Seq<char>| is_jsonl(k))),
        decreases keys.len() - i,
    {
        let ghost before = names_of(sorted@);
        proof {
            reveal(Seq::filter);
            assert(ks.take(i + 1).drop_last() =~= ks.take(i as int));
            assert(ks.take(i + 1).last() == keys@[i as int]@);
        }
        if jsonl_suffix(keys[i].as_str()) {
            let x = &keys[i];
            let mut j: usize = 0;
            assert(before.skip(0) =~= before);
            while j < sorted.len() && !str_lt(x.as_str(), sorted[j].as_str())
                invariant
                    0 <= j <= sorted.len(),
                    names_of(sorted@) == before,
                    insert_pos(before, x@) == j + insert_pos(before.skip(j as int), x@),
                decreases sorted.len() - j,
            {
                proof {
                    assert(before.skip(j as int).drop_first() =~= before.skip(j + 1));
                    assert(before.skip(j as int)[0] == before[j as int]);
                    assert(before[j as int] == sorted@[j as int]@);
                }
                j = j + 1;
            }
            proof {
                if j < sorted.len() {
                    assert(before.skip(j as int)[0] == before[j as int]);
                    assert(before[j as int] == sorted@[j as int]@);
                } else {
                    assert(before.skip(j as int).len() == 0);
                }
                assert(j == insert_pos(before, x@));
            }
            let ghost prev = names_of(sorted@);
            sorted.insert(j, x.clone());
            proof {
                let f = ks.take(i + 1).filter(|k: Seq<char>| is_jsonl(k));
                let g = ks.take(i as int).filter(|k: Seq<char>| is_jsonl(k));
                assert(is_jsonl(x@));
                assert(f =~= g.push(x@));
                assert(f.drop_last() =~= g);
                assert(f.last() == x@);
                assert(sort_names(f) == before.insert(insert_pos(before, x@), x@));
                assert(names_of(sorted@) =~= before.insert(j as int, x@));
            }
        } else {
            proof {
                let f = ks.take(i + 1).filter(|k: Seq<char>| is_jsonl(k));
                assert(f =~= ks.take(i as int).filter(|k: Seq<char>| is_jsonl(k)));
            }
        }
        i = i + 1;
    }
    assert(ks.take(i as int) =~= ks);
    let ghost s = names_of(sorted@);
    let ghost q = match last_seq {
        Some(t) => Some(t@),
        None => None,
    };
    // Gap detection and the cursor.
    let mut gap = false;
    let mut cursor = CursorUpdate::Keep;
    match last_seq {
        Some(seq) => {
            if sorted.len() == 0 {
                gap = true;
                cursor = CursorUpdate::Delete;
            } else {
                let oldest = jsonl_name(sorted[0].as_str());
                if str_lt(seq, oldest.as_str()) {
                    gap = true;
                    let latest = jsonl_name(sorted[sorted.len() - 1].as_str());
                    assert(s.last() == sorted@[sorted.len() - 1]@);
                    cursor = CursorUpdate::MoveTo(latest);
                }
            }
        },
        None => {},
    }
    // Files newer than the cursor.
    let mut files: Vec<String> = Vec::new();
    match last_seq {
        Some(seq) => {
            let mut k: usize = 0;
            proof {
                reveal(Seq::filter);
                assert(s.take(0) =~= Seq::<Seq<char>>::empty());
                assert(names_of(files@) =~= Seq::<Seq<char>>::empty());
                assert(s.take(0).filter(|n: Seq<char>| seq_lt(seq@, file_name(n))) =~= Seq::<Seq<char>>::empty());
            }
            while k < sorted.len()
                invariant
                    0 <= k <= sorted.len(),
                    s == names_of(sorted@),
                    names_of(files@) == s.take(k as int).filter(|n: Seq<char>| seq_lt(seq@, file_name(n))),
                decreases sorted.len() - k,
            {
                let name = jsonl_name(sorted[k].as_str());
                proof {
                    reveal(Seq::filter);
                    assert(s.take(k + 1).drop_last() =~= s.take(k as int));
                    assert(s.take(k + 1).last() == sorted@[k as int]@);
                }
                if str_lt(seq, name.as_str()) {
                    let ghost b = files@;
                    files.push(sorted[k].clone());
                    assert(names_of(files@) =~= names_of(b).push(sorted@[k as int]@));
                }
                k = k + 1;
            }
            assert(s.take(k as int) =~= s);
        },
        None => {
            files = sorted;
        },
    }
    let import_snapshot = gap || (last_seq.is_none() && files.len() == 0);
    proof {
        if last_seq is None {
            assert(names_of(files@) == s);
        }
    }
    DevicePlan { files, gap, import_snapshot, cursor }
}

// ───────────────────────── JSONL text ─────────────────────────

/// Reading `s` line by line: the trimmed non-blank lines completed by a
/// `\n` so far, and the line still open.
pub open spec fn lines_state(s: Seq<char>) -> (Seq<Seq<char>>, Seq<char>)
    decreases s.len(),
{
    if s.len() == 0 {
        (Seq::<Seq<char>>::empty(), Seq::<char>::empty())
    } else {
        let (done, cur) = lines_state(s.drop_last());
        if s.last() == '\n' {
            (
                if trim_spec(cur).len() > 0 {
                    done.push(trim_spec(cur))
                } else {
                    done
                },
                Seq::<char>::empty(),
            )
        } else {
            (done, cur.push(s.last()))
        }
    }
}

/// The non-blank lines of a JSONL file, trimmed (`lines()` then `trim()`,
/// skipping empty ones; a `\r` before `\n` goes with the trimming).
pub open spec fn jsonl_lines_spec(s: Seq<char>) -> Seq<Seq<char>> {
    let (done, cur) = lines_state(s);
    if trim_spec(cur).len() > 0 {
        done.push(trim_spec(cur))
    } else {
        done
    }
}

pub fn jsonl_lines(content: &str) -> (r: Vec<String>)
    ensures
        names_of(r@) == jsonl_lines_spec(content@),
{
    let cs = chars_of(content);
    let mut out: Vec<String> = Vec::new();
    let mut cur: Vec<char> = Vec::new();
    let mut i: usize = 0;
    assert(content@.take(0) =~= Seq::<char>::empty());
    assert(names_of(out@) =~= Seq::<Seq<char>>::empty());
    while i < cs.len()
        invariant
            0 <= i <= cs.len(),
            cs@ == content@,
            (names_of(out@), cur@) == lines_state(content@.take(i as int)),
        decreases cs.len() - i,
    {
        let c = cs[i];
        proof {
            let t1 = content@.take(i + 1);
            assert(t1.drop_last() =~= content@.take(i as int));
            assert(t1.last() == c);
        }
        if c == '\n' {
            let line = string_from_chars(&cur);
            let tl = trim(line.as_str());
            let ghost b = out@;
            if !tl.as_str().is_empty() {
                out.push(tl);
                assert(names_of(out@) =~= names_of(b).push(trim_spec(cur@)));
            }
            cur = Vec::new();
        } else {
            cur.push(c);
        }
        i = i + 1;
    }
    assert(content@.take(i as int) =~= content@);
    let line = string_from_chars(&cur);
    let tl = trim(line.as_str());
    let ghost b = out@;
    if !tl.as_str().is_empty() {
        out.push(tl);
        assert(names_of(out@) =~= names_of(b).push(trim_spec(cur@)));
    }
    out
}

// ───────────────────────── one device's pull ─────────────────────────

/// The cursor a device is left with after its pull: the name of the last
/// JSONL file pulled when any was, else what the plan decided (a gap moves
/// it to the newest file or drops it; otherwise it stays).
pub fn cursor_after_pull(plan: &DevicePlan, pulled: &Vec<String>) -> (c: CursorUpdate)
    ensures
        pulled@.len() > 0 ==> (c matches CursorUpdate::MoveTo(n) && n@ == file_name(pulled@.last()@)),
        pulled@.len() == 0 ==> match plan.cursor {
            CursorUpdate::Keep => c is Keep,
            CursorUpdate::MoveTo(m) => c matches CursorUpdate::MoveTo(n) && n@ == m@,
            CursorUpdate::Delete => c is Delete,
        },
{
    if pulled.len() > 0 {
        CursorUpdate::MoveTo(jsonl_name(pulled[pulled.len() - 1].as_str()))
    } else {
        match &plan.cursor {
            CursorUpdate::Keep => CursorUpdate::Keep,
            CursorUpdate::MoveTo(m) => CursorUpdate::MoveTo(m.clone()),
            CursorUpdate::Delete => CursorUpdate::Delete,
        }
    }
}

/// The non-blank lines of a downloaded JSONL file, its bytes read as UTF-8
/// with invalid sequences replaced.
pub fn downloaded_lines(data: &[u8]) -> (r: Vec<String>)
    ensures
        names_of(r@) == jsonl_lines_spec(utf8_lossy_text(data@)),
{
    let text = utf8_lossy(data);
    jsonl_lines(text.as_str())
}

/// What the apply step does with one remote entry.
#[derive(Debug, Clone, Copy, PartialEq, Eq, Structural)]
pub enum ApplyStep {
    /// From this device, or not newer than the local row: left alone.
    Skip,
    /// It wins but its payload is not JSON: the apply step fails.
    MalformedPayload,
    /// It wins with a JSON payload: write, soft-delete, purge, or (an
    /// unknown operation) nothing.
    Write,
}

pub open spec fn apply_step_of(entry: SyncLogEntry, own_device: Seq<char>, local_hlc: Option<Seq<char>>, payload_is_json: bool) -> ApplyStep {
    if !wins(entry, own_device, local_hlc) {
        ApplyStep::Skip
    } else if !payload_is_json {
        ApplyStep::MalformedPayload
    } else {
        ApplyStep::Write
    }
}

/// Decide one remote entry: last writer wins on the HLC, and a winning
/// entry whose payload does not parse stops the apply step.
pub fn apply_step(entry: &SyncLogEntry, own_device: &str, local_hlc: Option<&str>, payload_is_json: bool) -> (a: ApplyStep)
    ensures
        a == apply_step_of(
            *entry,
            own_device@,
            match local_hlc {
                Some(l) => Some(l@),
                None => None,
            },
            payload_is_json,
        ),
{
    if !should_apply(entry, own_device, local_hlc) {
        ApplyStep::Skip
    } else if !payload_is_json {
        ApplyStep::MalformedPayload
    } else {
        ApplyStep::Write
    }
}

} // verus!
