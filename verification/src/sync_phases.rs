//! The decisions inside the phases of a sync pass that surround applying
//! remote changes: the JSONL cursor a snapshot import leaves behind, which
//! snapshot of each device to import, which local changes to upload and
//! under which key, what compaction deletes, and which snapshot files on the
//! remote no resource owns any more.

use vstd::prelude::*;
use crate::decimal::{push_zero_padded, zero_padded};
use crate::ext::{gunzip_bytes, gzip_bytes, gzip_compress, gzip_decompress, parse_rfc3339_utc, rfc3339_utc_fields};
use crate::sync_plan::{snapshot_ext, snapshot_filename, snapshot_s3_key};
use crate::hlc::{find_char, lemma_find_char};
use crate::sync_plan::{chars_at, index_of_char, string_of_range, SyncLogEntry};
use crate::text::{chars_of, concat, str_eq, string_from_chars};

verus! {

broadcast use crate::text::group_concat;

// ─────────────────────── the cursor after a snapshot ───────────────────────

/// A year as chrono's `%Y` prints it: four digits, zero-padded, with a sign
/// outside 0..=9999.
pub open spec fn year_text(y: int) -> Seq<char> {
    if 0 <= y < 10000 {
        zero_padded(y as nat, 4)
    } else if y < 0 {
        seq!['-'] + zero_padded((-y) as nat, 4)
    } else {
        seq!['+'] + zero_padded(y as nat, 4)
    }
}

/// The JSONL file name (`%Y%m%dT%H%M%S%3fZ.jsonl`) of a UTC instant given by
/// its calendar fields; a leap second prints as second 60.
pub open spec fn jsonl_cursor_text(f: (i32, u32, u32, u32, u32, u32, u32)) -> Seq<char> {
    date_text(f.0, f.1, f.2) + time_text(f.3, f.4, (f.5 + f.6 / 1_000_000_000) as nat, ((f.6 / 1_000_000) % 1000) as nat)
}

fn push_year(out: &mut Vec<char>, y: i32)
    ensures
        final(out)@ == old(out)@ + year_text(y as int),
{
    if 0 <= y && y < 10000 {
        push_zero_padded(out, y as u64, 4);
    } else if y < 0 {
        let ghost start = out@;
        out.push('-');
        let m: i64 = 0i64 - (y as i64);
        push_zero_padded(out, m as u64, 4);
        assert(out@ =~= start + (seq!['-'] + zero_padded((-y) as nat, 4)));
    } else {
        let ghost start = out@;
        out.push('+');
        push_zero_padded(out, y as u64, 4);
        assert(out@ =~= start + (seq!['+'] + zero_padded(y as nat, 4)));
    }
}

/// `%Y%m%dT`.
pub open spec fn date_text(y: i32, m: u32, d: u32) -> Seq<char> {
    year_text(y as int) + zero_padded(m as nat, 2) + zero_padded(d as nat, 2) + seq!['T']
}

/// `%H%M%S%3fZ.jsonl`, given the whole seconds and the milliseconds.
pub open spec fn time_text(h: u32, mi: u32, whole: nat, ms: nat) -> Seq<char> {
    zero_padded(h as nat, 2) + zero_padded(mi as nat, 2) + zero_padded(whole, 2) + zero_padded(ms, 3)
        + seq!['Z', '.', 'j', 's', 'o', 'n', 'l']
}

fn push_date(out: &mut Vec<char>, y: i32, m: u32, d: u32)
    ensures
        final(out)@ == old(out)@ + date_text(y, m, d),
{
    let ghost start = out@;
    push_year(out, y);
    push_zero_padded(out, m as u64, 2);
    push_zero_padded(out, d as u64, 2);
    out.push('T');
    assert(out@ =~= start + date_text(y, m, d));
}

fn push_hms(out: &mut Vec<char>, h: u32, mi: u32, whole: u64)
    ensures
        final(out)@ == old(out)@ + (zero_padded(h as nat, 2) + zero_padded(mi as nat, 2) + zero_padded(whole as nat, 2)),
{
    let ghost start = out@;
    push_zero_padded(out, h as u64, 2);
    push_zero_padded(out, mi as u64, 2);
    push_zero_padded(out, whole, 2);
    assert(out@ =~= start + (zero_padded(h as nat, 2) + zero_padded(mi as nat, 2) + zero_padded(whole as nat, 2)));
}

fn push_tail(out: &mut Vec<char>, ms: u64)
    ensures
        final(out)@ == old(out)@ + (zero_padded(ms as nat, 3) + seq!['Z', '.', 'j', 's', 'o', 'n', 'l']),
{
    let ghost start = out@;
    push_zero_padded(out, ms, 3);
    let ghost mid = out@;
    out.push('Z');
    out.push('.');
    out.push('j');
    out.push('s');
    out.push('o');
    out.push('n');
    out.push('l');
    assert(out@ =~= mid + seq!['Z', '.', 'j', 's', 'o', 'n', 'l']);
    assert(out@ =~= start + (zero_padded(ms as nat, 3) + seq!['Z', '.', 'j', 's', 'o', 'n', 'l']));
}

fn push_time(out: &mut Vec<char>, h: u32, mi: u32, whole: u64, ms: u64)
    ensures
        final(out)@ == old(out)@ + time_text(h, mi, whole as nat, ms as nat),
{
    let ghost start = out@;
    push_hms(out, h, mi, whole);
    push_tail(out, ms);
    assert(out@ =~= start + time_text(h, mi, whole as nat, ms as nat));
}

/// The JSONL file name of a UTC instant.
pub fn format_jsonl_cursor(f: (i32, u32, u32, u32, u32, u32, u32)) -> (s: String)
    ensures
        s@ == jsonl_cursor_text(f),
{
    let (year, month, day, hour, minute, second, nano) = f;
    let mut out: Vec<char> = Vec::new();
    push_date(&mut out, year, month, day);
    let whole: u64 = second as u64 + (nano / 1_000_000_000) as u64;
    let ms: u64 = ((nano / 1_000_000) % 1000) as u64;
    push_time(&mut out, hour, minute, whole, ms);
    let s = string_from_chars(&out);
    assert(s@ =~= date_text(year, month, day) + time_text(hour, minute, whole as nat, ms as nat));
    s
}

/// The JSONL cursor that matches a snapshot's RFC 3339 timestamp: the name
/// a JSONL file written at that instant gets, so that only later files are
/// read. A timestamp that does not parse gives the empty cursor, which
/// filters nothing out.
pub fn jsonl_cursor_from_snapshot_timestamp(rfc3339: &str) -> (s: String)
    ensures
        s@ == match rfc3339_utc_fields(rfc3339@) {
            Some(f) => jsonl_cursor_text(f),
            None => Seq::<char>::empty(),
        },
{
    match parse_rfc3339_utc(rfc3339) {
        Some(f) => format_jsonl_cursor(f),
        None => String::new(),
    }
}

/// The sync-state key under which a remote device's JSONL cursor is kept.
pub open spec fn last_seq_key_text(device: Seq<char>) -> Seq<char> {
    "remote:"@ + device + ":last_seq"@
}

pub fn last_seq_key(device: &str) -> (k: String)
    ensures
        k@ == last_seq_key_text(device@),
{
    let mut k = concat("remote:", device);
    k.append(":last_seq");
    k
}

// ─────────────────────── which snapshots to import ───────────────────────

/// Index of the last entry naming `d`.
pub open spec fn last_index_of_dev(ds: Seq<Seq<char>>, d: Seq<char>) -> Option<int>
    decreases ds.len(),
{
    if ds.len() == 0 {
        None
    } else if ds.last() == d {
        Some(ds.len() - 1)
    } else {
        last_index_of_dev(ds.drop_last(), d)
    }
}

/// The devices other than `own`, each once, in order of first appearance.
pub open spec fn foreign_devices(ds: Seq<Seq<char>>, own: Seq<char>) -> Seq<Seq<char>>
    decreases ds.len(),
{
    if ds.len() == 0 {
        Seq::<Seq<char>>::empty()
    } else {
        let r = foreign_devices(ds.drop_last(), own);
        if ds.last() == own || ds.drop_last().contains(ds.last()) {
            r
        } else {
            r.push(ds.last())
        }
    }
}

pub open spec fn names(v: Seq<String>) -> Seq<Seq<char>> {
    v.map_values(|s: String| s@)
}

/// The newest snapshot of `device`, given the devices of the snapshots in
/// ascending key order (oldest first).
pub fn newest_snapshot_of(devices: &Vec<String>, device: &str) -> (r: Option<usize>)
    ensures
        r matches Some(x) ==> last_index_of_dev(names(devices@), device@) == Some(x as int),
        r is None ==> last_index_of_dev(names(devices@), device@) is None,
{
    let ghost ds = names(devices@);
    let mut i: usize = devices.len();
    assert(ds.take(i as int) =~= ds);
    while i > 0
        invariant
            0 <= i <= devices.len(),
            ds == names(devices@),
            last_index_of_dev(ds, device@) == last_index_of_dev(ds.take(i as int), device@),
        decreases i,
    {
        let ghost t = ds.take(i as int);
        assert(t.drop_last() =~= ds.take(i - 1));
        assert(t.last() == devices@[i - 1]@);
        if str_eq(devices[i - 1].as_str(), device) {
            return Some(i - 1);
        }
        i = i - 1;
    }
    assert(ds.take(0) =~= Seq::<Seq<char>>::empty());
    None
}

/// For a fresh device: each other device once (in order of first
/// appearance) with the index of its newest snapshot, given the devices of
/// the snapshots in ascending key order. Own snapshots are skipped: this
/// device already has its data.
pub fn latest_foreign_snapshots(devices: &Vec<String>, own: &str) -> (r: Vec<(String, usize)>)
    ensures
        r@.len() == foreign_devices(names(devices@), own@).len(),
        forall|k: int|
            0 <= k < r@.len() ==> {
                let d = foreign_devices(names(devices@), own@)[k];
                &&& (#[trigger] r@[k]).0@ == d
                &&& last_index_of_dev(names(devices@), d) == Some(r@[k].1 as int)
            },
{
    let ghost ds = names(devices@);
    let mut found: Vec<String> = Vec::new();
    let mut i: usize = 0;
    proof {
        assert(ds.take(0) =~= Seq::<Seq<char>>::empty());
        assert(names(found@) =~= Seq::<Seq<char>>::empty());
    }
    while i < devices.len()
        invariant
            0 <= i <= devices.len(),
            ds == names(devices@),
            names(found@) == foreign_devices(ds.take(i as int), own@),
        decreases devices.len() - i,
    {
        let d = &devices[i];
        let ghost t = ds.take(i + 1);
        assert(t.drop_last() =~= ds.take(i as int));
        assert(t.last() == d@);
        let mut seen = false;
        let mut k: usize = 0;
        while k < i
            invariant
                0 <= k <= i < devices.len(),
                ds == names(devices@),
                d@ == ds[i as int],
                seen == exists|m: int| 0 <= m < k && ds[m] == ds[i as int],
            decreases i - k,
        {
            assert(ds[k as int] == devices@[k as int]@);
            if str_eq(devices[k].as_str(), d.as_str()) {
                seen = true;
            }
            proof {
                if !seen {
                    assert forall|m: int| 0 <= m < k + 1 implies ds[m] != ds[i as int] by {
                        if m < k {
                            assert(!(0 <= m < k && ds[m] == ds[i as int]));
                        }
                    }
                }
            }
            k = k + 1;
        }
        proof {
            let pre = ds.take(i as int);
            if pre.contains(ds[i as int]) {
                let m = choose|m: int| 0 <= m < pre.len() && pre[m] == ds[i as int];
                assert(ds[m] == pre[m]);
            }
            if seen {
                let m = choose|m: int| 0 <= m < k && ds[m] == ds[i as int];
                assert(pre[m] == ds[m]);
            }
        }
        if !seen && !str_eq(d.as_str(), own) {
            let ghost before = found@;
            found.push(d.clone());
            assert(names(found@) =~= names(before).push(d@));
        }
        i = i + 1;
    }
    assert(ds.take(i as int) =~= ds);
    let mut r: Vec<(String, usize)> = Vec::new();
    let mut j: usize = 0;
    while j < found.len()
        invariant
            0 <= j <= found.len(),
            ds == names(devices@),
            names(found@) == foreign_devices(ds, own@),
            r@.len() == j,
            forall|k: int|
                0 <= k < j ==> {
                    let d = foreign_devices(ds, own@)[k];
                    &&& (#[trigger] r@[k]).0@ == d
                    &&& last_index_of_dev(ds, d) == Some(r@[k].1 as int)
                },
        decreases found.len() - j,
    {
        let d = &found[j];
        assert(d@ == foreign_devices(ds, own@)[j as int]);
        proof {
            lemma_foreign_device_present(ds, own@, j as int);
        }
        let idx = match newest_snapshot_of(devices, d.as_str()) {
            Some(x) => {
                assert(last_index_of_dev(ds, d@) == Some(x as int));
                x
            },
            None => {
                proof {
                    lemma_last_index_exists(ds, d@);
                }
                0
            },
        };
        let ghost before = r@;
        r.push((d.clone(), idx));
        assert(r@[j as int].0@ == d@);
        assert(last_index_of_dev(ds, foreign_devices(ds, own@)[j as int]) == Some(r@[j as int].1 as int));
        assert forall|k: int| 0 <= k < j implies r@[k] == before[k] by {}
        j = j + 1;
    }
    r
}

proof fn lemma_last_index_exists(ds: Seq<Seq<char>>, d: Seq<char>)
    requires
        ds.contains(d),
    ensures
        last_index_of_dev(ds, d) is Some,
    decreases ds.len(),
{
    if ds.last() != d {
        let m = choose|m: int| 0 <= m < ds.len() && ds[m] == d;
        assert(m != ds.len() - 1);
        assert(ds.drop_last()[m] == ds[m]);
        lemma_last_index_exists(ds.drop_last(), d);
    }
}

proof fn lemma_foreign_device_present(ds: Seq<Seq<char>>, own: Seq<char>, j: int)
    requires
        0 <= j < foreign_devices(ds, own).len(),
    ensures
        ds.contains(foreign_devices(ds, own)[j]),
    decreases ds.len(),
{
    if ds.len() > 0 {
        let r = foreign_devices(ds.drop_last(), own);
        if j < r.len() {
            lemma_foreign_device_present(ds.drop_last(), own, j);
            let m = choose|m: int| 0 <= m < ds.drop_last().len() && ds.drop_last()[m] == r[j];
            assert(ds[m] == ds.drop_last()[m]);
        } else {
            assert(ds[ds.len() - 1] == ds.last());
        }
    }
}

/// A device found only through a state snapshot (its JSONL directory is
/// empty): kept when it is named and not this device.
pub fn foreign_snapshot_device(device_id: Option<&str>, own: &str) -> (r: Option<String>)
    ensures
        match device_id {
            Some(d) => if d@.len() > 0 && d@ != own@ {
                r matches Some(s) && s@ == d@
            } else {
                r is None
            },
            None => r is None,
        },
{
    match device_id {
        Some(d) => {
            if !d.is_empty() && !str_eq(d, own) {
                Some(d.to_owned())
            } else {
                None
            }
        },
        None => None,
    }
}


// ─────────────────────── applying one remote entry ───────────────────────

/// What applying a remote entry does to the local row.
#[derive(Debug, Clone, Copy, PartialEq, Eq, Structural)]
pub enum ApplyAction {
    /// INSERT and UPDATE: write the payload.
    Upsert,
    /// DELETE: soft-delete.
    SoftDelete,
    /// PURGE: hard-delete a row that is already soft-deleted.
    Purge,
    /// An unknown operation is skipped.
    Skip,
}

pub open spec fn apply_action_of(op: Seq<char>) -> ApplyAction {
    if op == "INSERT"@ || op == "UPDATE"@ {
        ApplyAction::Upsert
    } else if op == "DELETE"@ {
        ApplyAction::SoftDelete
    } else if op == "PURGE"@ {
        ApplyAction::Purge
    } else {
        ApplyAction::Skip
    }
}

pub fn apply_action(operation: &str) -> (a: ApplyAction)
    ensures
        a == apply_action_of(operation@),
{
    if str_eq(operation, "INSERT") || str_eq(operation, "UPDATE") {
        ApplyAction::Upsert
    } else if str_eq(operation, "DELETE") {
        ApplyAction::SoftDelete
    } else if str_eq(operation, "PURGE") {
        ApplyAction::Purge
    } else {
        ApplyAction::Skip
    }
}

/// The resource whose search index an applied entry invalidates: the
/// resource itself, or for a highlight or comment the resource its payload
/// names; a purge only counts for resources.
pub open spec fn affected_resource_of(
    entity_type: Seq<char>,
    entity_id: Seq<char>,
    op: Seq<char>,
    payload_resource_id: Option<Seq<char>>,
) -> Option<Seq<char>> {
    match apply_action_of(op) {
        ApplyAction::Upsert | ApplyAction::SoftDelete => if entity_type == "resource"@ {
            Some(entity_id)
        } else if entity_type == "highlight"@ || entity_type == "comment"@ {
            payload_resource_id
        } else {
            None
        },
        ApplyAction::Purge => if entity_type == "resource"@ {
            Some(entity_id)
        } else {
            None
        },
        ApplyAction::Skip => None,
    }
}

pub fn affected_resource(
    entity_type: &str,
    entity_id: &str,
    operation: &str,
    payload_resource_id: Option<&str>,
) -> (r: Option<String>)
    ensures
        match affected_resource_of(
            entity_type@,
            entity_id@,
            operation@,
            match payload_resource_id {
                Some(p) => Some(p@),
                None => None,
            },
        ) {
            Some(x) => r matches Some(s) && s@ == x,
            None => r is None,
        },
{
    match apply_action(operation) {
        ApplyAction::Upsert | ApplyAction::SoftDelete => {
            if str_eq(entity_type, "resource") {
                Some(entity_id.to_owned())
            } else if str_eq(entity_type, "highlight") || str_eq(entity_type, "comment") {
                match payload_resource_id {
                    Some(p) => Some(p.to_owned()),
                    None => None,
                }
            } else {
                None
            }
        },
        ApplyAction::Purge => {
            if str_eq(entity_type, "resource") {
                Some(entity_id.to_owned())
            } else {
                None
            }
        },
        ApplyAction::Skip => None,
    }
}

/// The deletion time a remote DELETE stores: the payload's, else now.
pub fn deletion_time(payload_deleted_at: Option<&str>, now: &str) -> (t: String)
    ensures
        t@ == match payload_deleted_at {
            Some(d) => d@,
            None => now@,
        },
{
    match payload_deleted_at {
        Some(d) => d.to_owned(),
        None => now.to_owned(),
    }
}

// ─────────────────────── uploading local changes ───────────────────────

/// The resource ids of the stored snapshot-upload retry markers
/// (`snapshot_upload:<id>`), in order; other keys and empty ids are
/// skipped.
pub open spec fn retry_ids_spec(keys: Seq<Seq<char>>) -> Seq<Seq<char>>
    decreases keys.len(),
{
    if keys.len() == 0 {
        Seq::<Seq<char>>::empty()
    } else {
        let r = retry_ids_spec(keys.drop_last());
        let k = keys.last();
        let p = "snapshot_upload:"@;
        if p.is_prefix_of(k) && k.len() > p.len() {
            r.push(k.skip(p.len() as int))
        } else {
            r
        }
    }
}

pub fn retry_resource_ids(keys: &Vec<String>) -> (r: Vec<String>)
    ensures
        names(r@) == retry_ids_spec(names(keys@)),
{
    let ghost ks = names(keys@);
    let p = chars_of("snapshot_upload:");
    let mut r: Vec<String> = Vec::new();
    let mut i: usize = 0;
    proof {
        assert(ks.take(0) =~= Seq::<Seq<char>>::empty());
        assert(names(r@) =~= Seq::<Seq<char>>::empty());
    }
    while i < keys.len()
        invariant
            0 <= i <= keys.len(),
            ks == names(keys@),
            p@ == "snapshot_upload:"@,
            names(r@) == retry_ids_spec(ks.take(i as int)),
        decreases keys.len() - i,
    {
        assert(ks.take(i + 1).drop_last() =~= ks.take(i as int));
        assert(ks.take(i + 1).last() == keys@[i as int]@);
        let cs = chars_of(keys[i].as_str());
        if chars_at(&cs, &p, 0) && cs.len() > p.len() {
            assert(cs@.subrange(0, p.len() as int) =~= cs@.take(p.len() as int));
            let id = string_of_range(&cs, p.len(), cs.len());
            assert(id@ =~= keys@[i as int]@.skip(p.len() as int));
            let ghost before = r@;
            r.push(id);
            assert(names(r@) =~= names(before).push(id@));
        } else {
            proof {
                if "snapshot_upload:"@.is_prefix_of(cs@) {
                    assert(cs@.subrange(0, p.len() as int) =~= p@);
                }
            }
        }
        i = i + 1;
    }
    assert(ks.take(i as int) =~= ks);
    r
}

/// Resources created by these pending changes, whose snapshots go up with
/// them.
pub open spec fn new_resources_spec(entries: Seq<SyncLogEntry>) -> Seq<Seq<char>>
    decreases entries.len(),
{
    if entries.len() == 0 {
        Seq::<Seq<char>>::empty()
    } else {
        let r = new_resources_spec(entries.drop_last());
        let e = entries.last();
        if e.entity_type@ == "resource"@ && e.operation@ == "INSERT"@ {
            r.push(e.entity_id@)
        } else {
            r
        }
    }
}

pub fn new_resource_ids(entries: &Vec<SyncLogEntry>) -> (r: Vec<String>)
    ensures
        names(r@) == new_resources_spec(entries@),
{
    let mut r: Vec<String> = Vec::new();
    let mut i: usize = 0;
    proof {
        assert(entries@.take(0) =~= Seq::<SyncLogEntry>::empty());
        assert(names(r@) =~= Seq::<Seq<char>>::empty());
    }
    while i < entries.len()
        invariant
            0 <= i <= entries.len(),
            names(r@) == new_resources_spec(entries@.take(i as int)),
        decreases entries.len() - i,
    {
        assert(entries@.take(i + 1).drop_last() =~= entries@.take(i as int));
        let e = &entries[i];
        if str_eq(e.entity_type.as_str(), "resource") && str_eq(e.operation.as_str(), "INSERT") {
            let ghost before = r@;
            r.push(e.entity_id.clone());
            assert(names(r@) =~= names(before).push(e.entity_id@));
        }
        i = i + 1;
    }
    assert(entries@.take(i as int) =~= entries@);
    r
}

/// The JSONL document of serialized entries: each line followed by a
/// newline.
pub open spec fn jsonl_text(lines: Seq<Seq<char>>) -> Seq<char>
    decreases lines.len(),
{
    if lines.len() == 0 {
        Seq::<char>::empty()
    } else {
        jsonl_text(lines.drop_last()) + lines.last() + seq!['\n']
    }
}

pub fn jsonl_body(lines: &Vec<String>) -> (s: String)
    ensures
        s@ == jsonl_text(names(lines@)),
{
    let ghost ls = names(lines@);
    let mut s = String::new();
    let mut i: usize = 0;
    proof {
        assert(ls.take(0) =~= Seq::<Seq<char>>::empty());
    }
    while i < lines.len()
        invariant
            0 <= i <= lines.len(),
            ls == names(lines@),
            s@ == jsonl_text(ls.take(i as int)),
        decreases lines.len() - i,
    {
        assert(ls.take(i + 1).drop_last() =~= ls.take(i as int));
        assert(ls.take(i + 1).last() == lines@[i as int]@);
        s.append(lines[i].as_str());
        s.append("\n");
        proof {
            reveal_strlit("\n");
        }
        assert(s@ =~= jsonl_text(ls.take(i + 1)));
        i = i + 1;
    }
    assert(ls.take(i as int) =~= ls);
    s
}

/// Where a device's batch of changes is uploaded:
/// `sync/<device>/<timestamp>.jsonl`.
pub open spec fn jsonl_key_text(device: Seq<char>, timestamp: Seq<char>) -> Seq<char> {
    "sync/"@ + device + "/"@ + timestamp + ".jsonl"@
}

pub fn jsonl_upload_key(device: &str, timestamp: &str) -> (k: String)
    ensures
        k@ == jsonl_key_text(device@, timestamp@),
{
    let mut k = concat("sync/", device);
    k.append("/");
    k.append(timestamp);
    k.append(".jsonl");
    k
}

/// The id up to which the uploaded entries are marked: the last one's,
/// 0 when there are none.
pub fn last_uploaded_id(entries: &Vec<SyncLogEntry>) -> (id: i64)
    ensures
        id == if entries@.len() == 0 { 0 } else { entries@.last().id },
{
    if entries.len() == 0 {
        0
    } else {
        entries[entries.len() - 1].id
    }
}

/// The retry marker of a resource whose snapshot upload failed.
pub fn snapshot_upload_marker(resource_id: &str) -> (k: String)
    ensures
        k@ == "snapshot_upload:"@ + resource_id@,
{
    concat("snapshot_upload:", resource_id)
}

// ─────────────────────────── compaction ───────────────────────────

/// The two-phase list of files that the next compaction deletes.
pub const COMPACTION_PENDING_KEY: &'static str = "state/compaction-pending.json";

/// `s` with every `:` replaced by `-`.
pub open spec fn colons_to_dashes(s: Seq<char>) -> Seq<char> {
    Seq::new(s.len(), |i: int| if s[i] == ':' { '-' } else { s[i] })
}

/// Key of a full-state snapshot uploaded at `now` (RFC 3339, with the
/// colons that object stores dislike replaced).
pub fn state_snapshot_key(now: &str) -> (k: String)
    ensures
        k@ == "state/snapshot-"@ + colons_to_dashes(now@) + ".json"@,
{
    let cs = chars_of(now);
    let mut out: Vec<char> = Vec::new();
    let mut i: usize = 0;
    while i < cs.len()
        invariant
            0 <= i <= cs.len(),
            cs@ == now@,
            out@ == colons_to_dashes(now@).take(i as int),
        decreases cs.len() - i,
    {
        out.push(if cs[i] == ':' { '-' } else { cs[i] });
        assert(out@ =~= colons_to_dashes(now@).take(i + 1));
        i = i + 1;
    }
    assert(colons_to_dashes(now@).take(i as int) =~= colons_to_dashes(now@));
    let mid = string_from_chars(&out);
    let mut k = concat("state/snapshot-", mid.as_str());
    k.append(".json");
    k
}

/// This device's older state snapshots, which compaction removes once a
/// new one is up; each snapshot is given with the device that wrote it.
pub open spec fn stale_own_spec(snaps: Seq<(Seq<char>, Seq<char>)>, new_key: Seq<char>, own: Seq<char>) -> Seq<Seq<char>>
    decreases snaps.len(),
{
    if snaps.len() == 0 {
        Seq::<Seq<char>>::empty()
    } else {
        let r = stale_own_spec(snaps.drop_last(), new_key, own);
        let (k, d) = snaps.last();
        if k != new_key && d == own {
            r.push(k)
        } else {
            r
        }
    }
}

pub open spec fn pairs_view(v: Seq<(String, String)>) -> Seq<(Seq<char>, Seq<char>)> {
    v.map_values(|p: (String, String)| (p.0@, p.1@))
}

pub fn stale_own_snapshots(snaps: &Vec<(String, String)>, new_key: &str, own: &str) -> (r: Vec<String>)
    ensures
        names(r@) == stale_own_spec(pairs_view(snaps@), new_key@, own@),
{
    let ghost sv = pairs_view(snaps@);
    let mut r: Vec<String> = Vec::new();
    let mut i: usize = 0;
    proof {
        assert(sv.take(0) =~= Seq::<(Seq<char>, Seq<char>)>::empty());
        assert(names(r@) =~= Seq::<Seq<char>>::empty());
    }
    while i < snaps.len()
        invariant
            0 <= i <= snaps.len(),
            sv == pairs_view(snaps@),
            names(r@) == stale_own_spec(sv.take(i as int), new_key@, own@),
        decreases snaps.len() - i,
    {
        assert(sv.take(i + 1).drop_last() =~= sv.take(i as int));
        assert(sv.take(i + 1).last() == (snaps@[i as int].0@, snaps@[i as int].1@));
        let (k, d) = (&snaps[i].0, &snaps[i].1);
        if !str_eq(k.as_str(), new_key) && str_eq(d.as_str(), own) {
            let ghost before = r@;
            r.push(k.clone());
            assert(names(r@) =~= names(before).push(k@));
        }
        i = i + 1;
    }
    assert(sv.take(i as int) =~= sv);
    r
}

/// The marker that says a resource's snapshot is synced or pending.
pub fn snapshot_marker(resource_id: &str) -> (k: String)
    ensures
        k@ == "snapshot:"@ + resource_id@,
{
    concat("snapshot:", resource_id)
}

// ─────────────────────── orphan snapshot files ───────────────────────

/// The resource id in a `snapshots/<id>/...` key: the second `/`-separated
/// part, when there is one and it is not empty.
pub open spec fn snapshot_id_of(key: Seq<char>) -> Option<Seq<char>> {
    match find_char(key, '/') {
        None => None,
        Some(i) => {
            let rest = key.skip(i + 1);
            let id = match find_char(rest, '/') {
                Some(j) => rest.take(j),
                None => rest,
            };
            if id.len() > 0 {
                Some(id)
            } else {
                None
            }
        },
    }
}

pub fn snapshot_id(key: &str) -> (r: Option<String>)
    ensures
        match snapshot_id_of(key@) {
            Some(id) => r matches Some(s) && s@ == id,
            None => r is None,
        },
{
    let cs = chars_of(key);
    proof {
        lemma_find_char(key@, '/');
    }
    assert(cs@.skip(0) =~= cs@);
    let i = match index_of_char(&cs, 0, '/') {
        Some(i) => i,
        None => {
            return None;
        },
    };
    proof {
        lemma_find_char(key@.skip(i + 1), '/');
    }
    let end = match index_of_char(&cs, i + 1, '/') {
        Some(j) => j,
        None => cs.len(),
    };
    if end == i + 1 {
        proof {
            let rest = key@.skip(i + 1);
            match find_char(rest, '/') {
                Some(j) => assert(rest.take(j).len() == 0),
                None => assert(rest.len() == 0),
            }
        }
        return None;
    }
    let id = string_of_range(&cs, i + 1, end);
    proof {
        let rest = key@.skip(i + 1);
        match find_char(rest, '/') {
            Some(j) => assert(id@ =~= rest.take(j)),
            None => assert(id@ =~= rest),
        }
    }
    Some(id)
}

/// Position of `id` among accumulated ids (searched from the back).
pub open spec fn pos_of(acc: Seq<(Seq<char>, int)>, id: Seq<char>) -> Option<int>
    decreases acc.len(),
{
    if acc.len() == 0 {
        None
    } else if acc.last().0 == id {
        Some(acc.len() - 1)
    } else {
        pos_of(acc.drop_last(), id)
    }
}

/// The resources named by snapshot objects, in order of first appearance,
/// each with the total size of its objects.
pub open spec fn id_sizes(objs: Seq<(Seq<char>, u64)>) -> Seq<(Seq<char>, int)>
    decreases objs.len(),
{
    if objs.len() == 0 {
        Seq::<(Seq<char>, int)>::empty()
    } else {
        let acc = id_sizes(objs.drop_last());
        let (key, size) = objs.last();
        match snapshot_id_of(key) {
            None => acc,
            Some(id) => match pos_of(acc, id) {
                Some(p) => acc.update(p, (id, acc[p].1 + size)),
                None => acc.push((id, size as int)),
            },
        }
    }
}

/// Those of them that no resource row (deleted or not) knows.
pub open spec fn orphans_spec(acc: Seq<(Seq<char>, int)>, db: Seq<Seq<char>>) -> Seq<(Seq<char>, int)>
    decreases acc.len(),
{
    if acc.len() == 0 {
        Seq::<(Seq<char>, int)>::empty()
    } else {
        let r = orphans_spec(acc.drop_last(), db);
        if db.contains(acc.last().0) {
            r
        } else {
            r.push(acc.last())
        }
    }
}

pub open spec fn total_size(objs: Seq<(Seq<char>, u64)>) -> int
    decreases objs.len(),
{
    if objs.len() == 0 {
        0
    } else {
        total_size(objs.drop_last()) + objs.last().1
    }
}

pub open spec fn objects_view(v: Seq<(String, u64)>) -> Seq<(Seq<char>, u64)> {
    v.map_values(|p: (String, u64)| (p.0@, p.1))
}

pub open spec fn sized_view(v: Seq<(String, u64)>) -> Seq<(Seq<char>, int)> {
    v.map_values(|p: (String, u64)| (p.0@, p.1 as int))
}

proof fn lemma_total_size_prefix(objs: Seq<(Seq<char>, u64)>, i: int)
    requires
        0 <= i <= objs.len(),
    ensures
        total_size(objs.take(i)) <= total_size(objs),
    decreases objs.len() - i,
{
    if i < objs.len() {
        lemma_total_size_prefix(objs, i + 1);
        assert(objs.take(i + 1).drop_last() =~= objs.take(i));
    } else {
        assert(objs.take(i) =~= objs);
    }
}

proof fn lemma_id_sizes_bounded(objs: Seq<(Seq<char>, u64)>)
    ensures
        total_size(objs) >= 0,
        forall|p: int| 0 <= p < id_sizes(objs).len() ==> 0 <= #[trigger] id_sizes(objs)[p].1 <= total_size(objs),
    decreases objs.len(),
{
    if objs.len() > 0 {
        lemma_id_sizes_bounded(objs.drop_last());
        let acc = id_sizes(objs.drop_last());
        let (key, size) = objs.last();
        let t = total_size(objs);
        assert(t == total_size(objs.drop_last()) + size);
        match snapshot_id_of(key) {
            None => {},
            Some(id) => {
                lemma_pos_of(acc, id);
                match pos_of(acc, id) {
                    Some(q) => {
                        let nacc = acc.update(q, (id, acc[q].1 + size));
                        assert(id_sizes(objs) == nacc);
                        assert forall|p: int| 0 <= p < nacc.len() implies 0 <= #[trigger] nacc[p].1 <= t by {
                            assert(0 <= acc[p].1 <= total_size(objs.drop_last()));
                            assert(0 <= acc[q].1 <= total_size(objs.drop_last()));
                            if p == q {
                                assert(nacc[p].1 == acc[q].1 + size);
                            } else {
                                assert(nacc[p] == acc[p]);
                            }
                        }
                    },
                    None => {
                        let nacc = acc.push((id, size as int));
                        assert(id_sizes(objs) == nacc);
                        assert forall|p: int| 0 <= p < nacc.len() implies 0 <= #[trigger] nacc[p].1 <= t by {
                            if p < acc.len() {
                                assert(0 <= acc[p].1 <= total_size(objs.drop_last()));
                            }
                        }
                    },
                }
            },
        }
    }
}

proof fn lemma_pos_of(acc: Seq<(Seq<char>, int)>, id: Seq<char>)
    ensures
        pos_of(acc, id) matches Some(p) ==> 0 <= p < acc.len() && acc[p].0 == id,
        pos_of(acc, id) is None ==> forall|k: int| 0 <= k < acc.len() ==> acc[k].0 != id,
    decreases acc.len(),
{
    if acc.len() > 0 {
        lemma_pos_of(acc.drop_last(), id);
        if acc.last().0 != id {
            assert forall|k: int| 0 <= k < acc.len() - 1 implies acc[k] == acc.drop_last()[k] by {}
        }
    }
}

/// Snapshot objects on the remote that belong to no resource in the local
/// database, each resource once with the total size of its objects.
pub fn orphan_snapshots(objects: &Vec<(String, u64)>, db_ids: &Vec<String>) -> (r: Vec<(String, u64)>)
    requires
        total_size(objects_view(objects@)) <= u64::MAX,
    ensures
        sized_view(r@) == orphans_spec(id_sizes(objects_view(objects@)), names(db_ids@)),
{
    let ghost ov = objects_view(objects@);
    let mut acc: Vec<(String, u64)> = Vec::new();
    let mut i: usize = 0;
    proof {
        assert(ov.take(0) =~= Seq::<(Seq<char>, u64)>::empty());
        assert(sized_view(acc@) =~= Seq::<(Seq<char>, int)>::empty());
    }
    while i < objects.len()
        invariant
            0 <= i <= objects.len(),
            ov == objects_view(objects@),
            total_size(ov) <= u64::MAX,
            sized_view(acc@) == id_sizes(ov.take(i as int)),
        decreases objects.len() - i,
    {
        let ghost pre = ov.take(i as int);
        assert(ov.take(i + 1).drop_last() =~= pre);
        assert(ov.take(i + 1).last() == (objects@[i as int].0@, objects@[i as int].1));
        proof {
            lemma_id_sizes_bounded(pre);
            lemma_total_size_prefix(ov, i + 1);
            assert(total_size(ov.take(i + 1)) == total_size(pre) + objects@[i as int].1);
        }
        match snapshot_id(objects[i].0.as_str()) {
            None => {},
            Some(id) => {
                let size = objects[i].1;
                let mut j: usize = acc.len();
                let ghost av = sized_view(acc@);
                proof {
                    assert(av.take(j as int) =~= av);
                }
                let mut found: Option<usize> = None;
                while j > 0
                    invariant_except_break
                        found is None,
                    invariant
                        0 <= j <= acc.len(),
                        av == sized_view(acc@),
                        pos_of(av, id@) == pos_of(av.take(j as int), id@),
                    ensures
                        found matches Some(p) ==> pos_of(av, id@) == Some(p as int),
                        found is None ==> pos_of(av, id@) is None,
                    decreases j,
                {
                    assert(av.take(j as int).drop_last() =~= av.take(j - 1));
                    if str_eq(acc[j - 1].0.as_str(), id.as_str()) {
                        found = Some(j - 1);
                        break;
                    }
                    j = j - 1;
                }
                proof {
                    if found is None && j == 0 {
                        assert(av.take(0) =~= Seq::<(Seq<char>, int)>::empty());
                    }
                }
                proof {
                    lemma_pos_of(av, id@);
                }
                match found {
                    Some(p) => {
                        let cur = acc[p].1;
                        proof {
                            assert(av[p as int].1 == cur);
                            assert(cur <= total_size(pre));
                        }
                        let name = acc[p].0.clone();
                        acc.set(p, (name, cur + size));
                        assert(sized_view(acc@) =~= av.update(p as int, (id@, av[p as int].1 + size)));
                    },
                    None => {
                        acc.push((id, size));
                        assert(sized_view(acc@) =~= av.push((id@, size as int)));
                    },
                }
            },
        }
        i = i + 1;
    }
    assert(ov.take(i as int) =~= ov);
    let ghost all = sized_view(acc@);
    let ghost db = names(db_ids@);
    let mut r: Vec<(String, u64)> = Vec::new();
    let mut k: usize = 0;
    proof {
        assert(all.take(0) =~= Seq::<(Seq<char>, int)>::empty());
        assert(sized_view(r@) =~= Seq::<(Seq<char>, int)>::empty());
    }
    while k < acc.len()
        invariant
            0 <= k <= acc.len(),
            all == sized_view(acc@),
            db == names(db_ids@),
            sized_view(r@) == orphans_spec(all.take(k as int), db),
        decreases acc.len() - k,
    {
        assert(all.take(k + 1).drop_last() =~= all.take(k as int));
        assert(all.take(k + 1).last() == all[k as int]);
        let mut known = false;
        let mut m: usize = 0;
        while m < db_ids.len()
            invariant
                0 <= m <= db_ids.len(),
                db == names(db_ids@),
                all == sized_view(acc@),
                k < acc.len(),
                known == exists|x: int| 0 <= x < m && db[x] == all[k as int].0,
            decreases db_ids.len() - m,
        {
            assert(db[m as int] == db_ids@[m as int]@);
            if str_eq(db_ids[m].as_str(), acc[k].0.as_str()) {
                known = true;
            }
            proof {
                if !known {
                    assert forall|x: int| 0 <= x < m + 1 implies db[x] != all[k as int].0 by {
                        if x < m {
                            assert(!(0 <= x < m && db[x] == all[k as int].0));
                        }
                    }
                }
            }
            m = m + 1;
        }
        proof {
            if db.contains(all[k as int].0) {
                let x = choose|x: int| 0 <= x < db.len() && db[x] == all[k as int].0;
            }
        }
        if !known {
            let ghost before = r@;
            r.push((acc[k].0.clone(), acc[k].1));
            assert(sized_view(r@) =~= sized_view(before).push(all[k as int]));
        }
        k = k + 1;
    }
    assert(all.take(k as int) =~= all);
    r
}

/// Every key an orphan's snapshot may have been stored under.
pub fn orphan_snapshot_keys(resource_id: &str) -> (keys: Vec<String>)
    ensures
        keys@.len() == 3,
        keys@[0]@ == "snapshots/"@ + resource_id@ + "/snapshot.html.gz"@,
        keys@[1]@ == "snapshots/"@ + resource_id@ + "/snapshot.html"@,
        keys@[2]@ == "snapshots/"@ + resource_id@ + "/snapshot.pdf.gz"@,
{
    let mut a = concat("snapshots/", resource_id);
    a.append("/snapshot.html.gz");
    let mut b = concat("snapshots/", resource_id);
    b.append("/snapshot.html");
    let mut c = concat("snapshots/", resource_id);
    c.append("/snapshot.pdf.gz");
    vec![a, b, c]
}

// ─────────────────────── snapshot files on the remote ───────────────────────

/// What uploading a resource's snapshot sends: its key and the gzip of the
/// file's bytes.
pub fn prepare_snapshot_upload(resource_id: &str, resource_type: &str, data: &[u8]) -> (r: Result<(String, Vec<u8>), String>)
    ensures
        r is Ok,
        r matches Ok((k, body)) ==> k@ == "snapshots/"@ + resource_id@ + "/snapshot."@ + snapshot_ext(resource_type@)
            + ".gz"@ && body@ == gzip_bytes(data@) && gunzip_bytes(body@) == Some(data@),
{
    let body = gzip_compress(data)?;
    Ok((snapshot_s3_key(resource_id, resource_type), body))
}

/// The body an uncompressed stored snapshot is moved to: its gzip.
pub fn migrated_snapshot_body(data: &[u8]) -> (r: Result<Vec<u8>, String>)
    ensures
        r is Ok,
        r matches Ok(v) ==> v@ == gzip_bytes(data@) && gunzip_bytes(v@) == Some(data@),
{
    gzip_compress(data)
}

/// What a downloaded snapshot becomes on disk: the local file name and the
/// decompressed bytes.
pub fn restore_snapshot(resource_type: &str, compressed: &[u8]) -> (r: Result<(&'static str, Vec<u8>), String>)
    ensures
        gunzip_bytes(compressed@) is None <==> r is Err,
        r matches Ok((name, data)) ==> name@ == (if resource_type@ == "pdf"@ {
            "snapshot.pdf"@
        } else {
            "snapshot.html"@
        }) && gunzip_bytes(compressed@) == Some(data@),
{
    let data = gzip_decompress(compressed)?;
    Ok((snapshot_filename(resource_type), data))
}

/// The one-time gzip migration is due until its flag reads `done`.
pub fn gzip_migration_due(flag: Option<&str>) -> (r: bool)
    ensures
        r == !(flag matches Some(f) && f@ == "done"@),
{
    match flag {
        Some(f) => !str_eq(f, "done"),
        None => true,
    }
}

/// Uncompressed HTML snapshots left by older versions (keys ending in
/// `/snapshot.html`), each with the key its gzip goes to.
pub open spec fn gzip_moves_spec(keys: Seq<Seq<char>>) -> Seq<(Seq<char>, Seq<char>)>
    decreases keys.len(),
{
    if keys.len() == 0 {
        Seq::<(Seq<char>, Seq<char>)>::empty()
    } else {
        let r = gzip_moves_spec(keys.drop_last());
        let k = keys.last();
        if "/snapshot.html"@.is_suffix_of(k) {
            r.push((k, k + ".gz"@))
        } else {
            r
        }
    }
}

pub fn gzip_moves(keys: &Vec<String>) -> (r: Vec<(String, String)>)
    ensures
        pairs_view(r@) == gzip_moves_spec(names(keys@)),
{
    let ghost ks = names(keys@);
    let suf = chars_of("/snapshot.html");
    let mut r: Vec<(String, String)> = Vec::new();
    let mut i: usize = 0;
    proof {
        assert(ks.take(0) =~= Seq::<Seq<char>>::empty());
        assert(pairs_view(r@) =~= Seq::<(Seq<char>, Seq<char>)>::empty());
    }
    while i < keys.len()
        invariant
            0 <= i <= keys.len(),
            ks == names(keys@),
            suf@ == "/snapshot.html"@,
            pairs_view(r@) == gzip_moves_spec(ks.take(i as int)),
        decreases keys.len() - i,
    {
        assert(ks.take(i + 1).drop_last() =~= ks.take(i as int));
        assert(ks.take(i + 1).last() == keys@[i as int]@);
        let cs = chars_of(keys[i].as_str());
        let hit = cs.len() >= suf.len() && chars_at(&cs, &suf, cs.len() - suf.len());
        proof {
            if cs.len() >= suf.len() {
                assert(cs@.subrange(cs.len() - suf.len(), cs.len() as int) =~= cs@.subrange(
                    (cs.len() - suf.len()) as int,
                    cs.len() - suf.len() + suf.len(),
                ));
            }
        }
        if hit {
            let mut new_key = keys[i].clone();
            new_key.append(".gz");
            let ghost before = r@;
            r.push((keys[i].clone(), new_key));
            assert(pairs_view(r@) =~= pairs_view(before).push((keys@[i as int]@, keys@[i as int]@ + ".gz"@)));
        }
        i = i + 1;
    }
    assert(ks.take(i as int) =~= ks);
    r
}

// ─────────────────────── writing a remote row ───────────────────────

/// The table of a synced entity type; `None` for a type this device does
/// not know (its entries are then skipped).
pub open spec fn entity_table_of(entity_type: Seq<char>) -> Option<Seq<char>> {
    if entity_type == "folder"@ {
        Some("folders"@)
    } else if entity_type == "resource"@ {
        Some("resources"@)
    } else if entity_type == "tag"@ {
        Some("tags"@)
    } else if entity_type == "highlight"@ {
        Some("highlights"@)
    } else if entity_type == "comment"@ {
        Some("comments"@)
    } else {
        None
    }
}

/// Law: the known entity types are exactly folder, resource, tag,
/// highlight and comment, and each is kept in the table named by its
/// plural, so two different types never share a table.
pub proof fn lemma_entity_table_plural(a: Seq<char>, b: Seq<char>)
    ensures
        entity_table_of(a) is Some <==> (a == "folder"@ || a == "resource"@ || a == "tag"@ || a
            == "highlight"@ || a == "comment"@),
        entity_table_of(a) matches Some(t) ==> t == a + "s"@,
        entity_table_of(a) is Some && a != b ==> entity_table_of(a) != entity_table_of(b),
{
    reveal_strlit("s");
    reveal_strlit("folder");
    reveal_strlit("folders");
    reveal_strlit("resource");
    reveal_strlit("resources");
    reveal_strlit("tag");
    reveal_strlit("tags");
    reveal_strlit("highlight");
    reveal_strlit("highlights");
    reveal_strlit("comment");
    reveal_strlit("comments");
    assert("folders"@ =~= "folder"@ + "s"@);
    assert("resources"@ =~= "resource"@ + "s"@);
    assert("tags"@ =~= "tag"@ + "s"@);
    assert("highlights"@ =~= "highlight"@ + "s"@);
    assert("comments"@ =~= "comment"@ + "s"@);
    if entity_table_of(a) is Some && a != b && entity_table_of(a) == entity_table_of(b) {
        let t = a + "s"@;
        assert(entity_table_of(b) matches Some(u) && u == b + "s"@);
        assert(a =~= t.take(t.len() - 1));
        assert(b =~= (b + "s"@).take(t.len() - 1));
    }
}

pub fn entity_table(entity_type: &str) -> (r: Option<&'static str>)
    ensures
        match entity_table_of(entity_type@) {
            Some(t) => r matches Some(x) && x@ == t,
            None => r is None,
        },
        r matches Some(x) ==> x@ == entity_type@ + "s"@,
        r is Some <==> (entity_type@ == "folder"@ || entity_type@ == "resource"@ || entity_type@
            == "tag"@ || entity_type@ == "highlight"@ || entity_type@ == "comment"@),
{
    proof {
        lemma_entity_table_plural(entity_type@, entity_type@);
    }
    if str_eq(entity_type, "folder") {
        Some("folders")
    } else if str_eq(entity_type, "resource") {
        Some("resources")
    } else if str_eq(entity_type, "tag") {
        Some("tags")
    } else if str_eq(entity_type, "highlight") {
        Some("highlights")
    } else if str_eq(entity_type, "comment") {
        Some("comments")
    } else {
        None
    }
}

/// A text field of a remote payload, or its default when the payload
/// lacks it or holds something other than a string.
pub fn field_or(value: Option<&str>, default: &str) -> (r: String)
    ensures
        r@ == match value {
            Some(v) => v@,
            None => default@,
        },
{
    match value {
        Some(v) => v.to_owned(),
        None => default.to_owned(),
    }
}

/// The folder columns a remote payload gives: a missing name is empty, a
/// missing parent is the root folder, a missing sort order is 0, missing
/// timestamps are empty.
pub struct FolderRow {
    pub name: String,
    pub parent_id: String,
    pub sort_order: i64,
    pub created_at: String,
    pub updated_at: String,
}

pub fn folder_row(
    name: Option<&str>,
    parent_id: Option<&str>,
    sort_order: Option<i64>,
    created_at: Option<&str>,
    updated_at: Option<&str>,
) -> (r: FolderRow)
    ensures
        r.name@ == (match name { Some(v) => v@, None => ""@ }),
        r.parent_id@ == (match parent_id { Some(v) => v@, None => "__root__"@ }),
        r.sort_order == (match sort_order { Some(v) => v, None => 0 }),
        r.created_at@ == (match created_at { Some(v) => v@, None => ""@ }),
        r.updated_at@ == (match updated_at { Some(v) => v@, None => ""@ }),
{
    FolderRow {
        name: field_or(name, ""),
        parent_id: field_or(parent_id, "__root__"),
        sort_order: match sort_order {
            Some(v) => v,
            None => 0,
        },
        created_at: field_or(created_at, ""),
        updated_at: field_or(updated_at, ""),
    }
}

/// The tag columns a remote payload gives: a missing name is empty and a
/// missing colour is grey `#808080`.
pub struct TagRow {
    pub name: String,
    pub color: String,
}

pub fn tag_row(name: Option<&str>, color: Option<&str>) -> (r: TagRow)
    ensures
        r.name@ == (match name { Some(v) => v@, None => ""@ }),
        r.color@ == (match color { Some(v) => v@, None => "#808080"@ }),
{
    TagRow { name: field_or(name, ""), color: field_or(color, "#808080") }
}

} // verus!
