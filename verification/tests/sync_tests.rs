use shibei::sync_phases::{gzip_migration_due, gzip_moves, migrated_snapshot_body, prepare_snapshot_upload, restore_snapshot};
use shibei::sync_phases::{
    affected_resource, apply_action, deletion_time, foreign_snapshot_device, format_jsonl_cursor,
    jsonl_body, jsonl_cursor_from_snapshot_timestamp, jsonl_upload_key, last_seq_key, last_uploaded_id,
    latest_foreign_snapshots, new_resource_ids, newest_snapshot_of, orphan_snapshot_keys, orphan_snapshots,
    retry_resource_ids, snapshot_id, snapshot_marker, snapshot_upload_marker, stale_own_snapshots,
    state_snapshot_key, ApplyAction, COMPACTION_PENDING_KEY,
};
use shibei::sync_plan::{
    device_of_cursor_key, device_of_sync_key, devices_in_keys, jsonl_lines, jsonl_name, needs_compaction,
    plan_device, remote_devices, should_apply, snapshot_filename, snapshot_s3_key, sort_for_apply, sync_result,
    topo_order, CursorUpdate, SyncLogEntry, SyncResult, apply_step, cursor_after_pull, downloaded_lines, ApplyStep,
};

fn s(x: &str) -> String {
    x.to_string()
}

fn entry(id: i64, op: &str, ty: &str, hlc: &str, dev: &str) -> SyncLogEntry {
    SyncLogEntry {
        id,
        entity_type: s(ty),
        entity_id: format!("e{id}"),
        operation: s(op),
        payload: s("{}"),
        hlc: s(hlc),
        device_id: s(dev),
    }
}

#[test]
fn test_topo_order() {
    assert!(topo_order("INSERT", "folder") < topo_order("INSERT", "tag"));
    assert!(topo_order("INSERT", "tag") < topo_order("INSERT", "resource"));
    assert!(topo_order("INSERT", "resource") < topo_order("INSERT", "highlight"));
    assert!(topo_order("INSERT", "highlight") < topo_order("INSERT", "comment"));

    assert!(topo_order("DELETE", "comment") < topo_order("DELETE", "highlight"));
    assert!(topo_order("DELETE", "highlight") < topo_order("DELETE", "resource"));
    assert!(topo_order("DELETE", "resource") < topo_order("DELETE", "tag"));
    assert!(topo_order("DELETE", "tag") < topo_order("DELETE", "folder"));

    assert!(topo_order("INSERT", "comment") < topo_order("DELETE", "comment"));
}

#[test]
fn topo_order_ranks_as_documented() {
    let ins: Vec<u8> = ["folder", "tag", "resource", "highlight", "comment"].iter().map(|t| topo_order("INSERT", t)).collect();
    assert_eq!(ins, vec![0, 1, 2, 3, 4]);
    assert_eq!(topo_order("UPDATE", "tag"), 1);
    let del: Vec<u8> = ["comment", "highlight", "resource", "tag", "folder"].iter().map(|t| topo_order("DELETE", t)).collect();
    assert_eq!(del, vec![5, 6, 7, 8, 9]);
    let purge: Vec<u8> = ["comment", "highlight", "resource", "tag", "folder"].iter().map(|t| topo_order("PURGE", t)).collect();
    assert_eq!(purge, vec![12, 13, 14, 15, 16]);
    assert_eq!(topo_order("INSERT", "widget"), 5);
    assert_eq!(topo_order("DELETE", "widget"), 11);
    assert_eq!(topo_order("PURGE", "widget"), 17);
    assert_eq!(topo_order("MOVE", "folder"), 18);
}

#[test]
fn jsonl_cursor_from_snapshot_timestamp_matches_jsonl_format() {
    let got = jsonl_cursor_from_snapshot_timestamp("2026-04-22T11:55:10.462+00:00");
    assert_eq!(got, "20260422T115510462Z.jsonl");
    let got = jsonl_cursor_from_snapshot_timestamp("2026-04-22T19:55:10.462+08:00");
    assert_eq!(got, "20260422T115510462Z.jsonl");
    assert_eq!(jsonl_cursor_from_snapshot_timestamp("not-a-date"), "");
}

#[test]
fn cursor_format_pads_and_signs_years() {
    assert_eq!(format_jsonl_cursor((987, 1, 2, 3, 4, 5, 6_000_000)), "09870102T030405006Z.jsonl");
    assert_eq!(format_jsonl_cursor((-5, 12, 31, 23, 59, 59, 999_999_999)), "-00051231T235959999Z.jsonl");
    assert_eq!(format_jsonl_cursor((12345, 1, 1, 0, 0, 59, 1_500_000_000)), "+123450101T000060500Z.jsonl");
}

#[test]
fn apply_order_keeps_parents_first_and_is_stable() {
    let entries = vec![
        entry(1, "DELETE", "folder", "h1", "d"),
        entry(2, "INSERT", "comment", "h2", "d"),
        entry(3, "INSERT", "folder", "h3", "d"),
        entry(4, "DELETE", "comment", "h4", "d"),
        entry(5, "INSERT", "folder", "h5", "d"),
    ];
    let ids: Vec<i64> = sort_for_apply(&entries).iter().map(|e| e.id).collect();
    assert_eq!(ids, vec![3, 5, 2, 4, 1]);
}

#[test]
fn last_writer_wins_by_hlc() {
    let e = entry(1, "UPDATE", "tag", "0000000000002-0000-b", "other");
    assert!(should_apply(&e, "me", None));
    assert!(should_apply(&e, "me", Some("0000000000001-0000-a")));
    assert!(!should_apply(&e, "me", Some("0000000000002-0000-b")));
    assert!(!should_apply(&e, "me", Some("0000000000003-0000-a")));
    assert!(!should_apply(&e, "other", None));
}

#[test]
fn snapshot_names() {
    assert_eq!(snapshot_s3_key("r1", "pdf"), "snapshots/r1/snapshot.pdf.gz");
    assert_eq!(snapshot_s3_key("r1", "webpage"), "snapshots/r1/snapshot.html.gz");
    assert_eq!(snapshot_filename("pdf"), "snapshot.pdf");
    assert_eq!(snapshot_filename("html"), "snapshot.html");
}

#[test]
fn compaction_thresholds() {
    assert!(!needs_compaction(&[1, 2, 3]));
    assert!(needs_compaction(&vec![1u64; 100]));
    assert!(needs_compaction(&[10 * 1024 * 1024]));
    assert!(!needs_compaction(&[10 * 1024 * 1024 - 1]));
}

#[test]
fn devices_from_keys_and_cursors() {
    assert_eq!(device_of_sync_key("sync/devA/x.jsonl"), Some(s("devA")));
    assert_eq!(device_of_sync_key("sync/devA"), None);
    assert_eq!(device_of_cursor_key("remote:devB:last_seq"), Some(s("devB")));
    assert_eq!(device_of_cursor_key("remote:devB"), None);
    let found = devices_in_keys(&vec![s("sync/b/1.jsonl"), s("sync/a/2.jsonl")], &vec![s("remote:c:last_seq")]);
    assert_eq!(found, vec![s("b"), s("a"), s("c")]);
    let remote = remote_devices(&vec![s("b"), s("me"), s("a"), s("b")], "me");
    assert_eq!(remote, vec![s("a"), s("b")]);
}

#[test]
fn device_plan_detects_gaps() {
    let keys = vec![s("sync/d/20260102.jsonl"), s("sync/d/20260101.jsonl"), s("sync/d/notes.txt")];
    let p = plan_device(&keys, Some("20260101.jsonl"));
    assert!(!p.gap);
    assert_eq!(p.files, vec![s("sync/d/20260102.jsonl")]);
    assert!(matches!(p.cursor, CursorUpdate::Keep));

    let p = plan_device(&keys, Some("20251231.jsonl"));
    assert!(p.gap && p.import_snapshot);
    assert!(matches!(p.cursor, CursorUpdate::MoveTo(ref n) if n == "20260102.jsonl"));
    assert_eq!(p.files.len(), 2);

    let p = plan_device(&vec![], Some("x.jsonl"));
    assert!(p.gap);
    assert!(matches!(p.cursor, CursorUpdate::Delete));

    let p = plan_device(&vec![], None);
    assert!(!p.gap && p.import_snapshot);
}

#[test]
fn jsonl_text_helpers() {
    assert_eq!(jsonl_lines("  a \r\n\n b\n"), vec![s("a"), s("b")]);
    assert_eq!(jsonl_name("sync/d/f.jsonl"), "f.jsonl");
    assert_eq!(jsonl_body(&vec![s("{\"a\":1}"), s("{}")]), "{\"a\":1}\n{}\n");
    assert_eq!(jsonl_upload_key("dev", "20260101T000000000Z"), "sync/dev/20260101T000000000Z.jsonl");
    assert!(matches!(sync_result(1, 2, 3, 4), SyncResult::Success { uploaded: 1, downloaded: 2, applied: 7 }));
}

#[test]
fn snapshot_import_choices() {
    let devs = vec![s("a"), s("me"), s("b"), s("a")];
    assert_eq!(newest_snapshot_of(&devs, "a"), Some(3));
    assert_eq!(newest_snapshot_of(&devs, "zz"), None);
    let latest = latest_foreign_snapshots(&devs, "me");
    assert_eq!(latest, vec![(s("a"), 3), (s("b"), 2)]);
    assert_eq!(last_seq_key("a"), "remote:a:last_seq");
    assert_eq!(foreign_snapshot_device(Some("x"), "me"), Some(s("x")));
    assert_eq!(foreign_snapshot_device(Some(""), "me"), None);
    assert_eq!(foreign_snapshot_device(Some("me"), "me"), None);
    assert_eq!(foreign_snapshot_device(None, "me"), None);
}

#[test]
fn applying_entries() {
    assert_eq!(apply_action("INSERT"), ApplyAction::Upsert);
    assert_eq!(apply_action("UPDATE"), ApplyAction::Upsert);
    assert_eq!(apply_action("DELETE"), ApplyAction::SoftDelete);
    assert_eq!(apply_action("PURGE"), ApplyAction::Purge);
    assert_eq!(apply_action("MOVE"), ApplyAction::Skip);
    assert_eq!(affected_resource("resource", "r1", "INSERT", None), Some(s("r1")));
    assert_eq!(affected_resource("highlight", "h1", "DELETE", Some("r2")), Some(s("r2")));
    assert_eq!(affected_resource("highlight", "h1", "PURGE", Some("r2")), None);
    assert_eq!(affected_resource("resource", "r1", "PURGE", None), Some(s("r1")));
    assert_eq!(affected_resource("tag", "t1", "INSERT", None), None);
    assert_eq!(deletion_time(Some("t0"), "now"), "t0");
    assert_eq!(deletion_time(None, "now"), "now");
}

#[test]
fn upload_helpers() {
    let keys = vec![s("snapshot_upload:r1"), s("snapshot_upload:"), s("other:r2"), s("snapshot_upload:r3")];
    assert_eq!(retry_resource_ids(&keys), vec![s("r1"), s("r3")]);
    let entries = vec![
        entry(1, "INSERT", "resource", "h", "d"),
        entry(2, "UPDATE", "resource", "h", "d"),
        entry(3, "INSERT", "tag", "h", "d"),
        entry(4, "INSERT", "resource", "h", "d"),
    ];
    assert_eq!(new_resource_ids(&entries), vec![s("e1"), s("e4")]);
    assert_eq!(last_uploaded_id(&entries), 4);
    assert_eq!(last_uploaded_id(&vec![]), 0);
    assert_eq!(snapshot_upload_marker("r1"), "snapshot_upload:r1");
}

#[test]
fn compaction_helpers() {
    assert_eq!(state_snapshot_key("2026-01-02T03:04:05+00:00"), "state/snapshot-2026-01-02T03-04-05+00-00.json");
    let snaps = vec![(s("k1"), s("me")), (s("k2"), s("other")), (s("k3"), s("me"))];
    assert_eq!(stale_own_snapshots(&snaps, "k3", "me"), vec![s("k1")]);
    assert_eq!(snapshot_marker("r9"), "snapshot:r9");
    assert_eq!(COMPACTION_PENDING_KEY, "state/compaction-pending.json");
}

#[test]
fn orphan_snapshot_files() {
    assert_eq!(snapshot_id("snapshots/abc/snapshot.html.gz"), Some(s("abc")));
    assert_eq!(snapshot_id("snapshots//x"), None);
    assert_eq!(snapshot_id("snapshots"), None);
    let objects = vec![
        (s("snapshots/a/snapshot.html.gz"), 10),
        (s("snapshots/b/snapshot.pdf.gz"), 5),
        (s("snapshots/a/snapshot.html"), 7),
        (s("snapshots/c/snapshot.html.gz"), 1),
    ];
    let orphans = orphan_snapshots(&objects, &vec![s("b")]);
    assert_eq!(orphans, vec![(s("a"), 17), (s("c"), 1)]);
    assert_eq!(
        orphan_snapshot_keys("a"),
        vec![s("snapshots/a/snapshot.html.gz"), s("snapshots/a/snapshot.html"), s("snapshots/a/snapshot.pdf.gz")]
    );
}

#[test]
fn snapshot_gzip_round_trip() {
    let (key, body) = prepare_snapshot_upload("r1", "pdf", b"%PDF-1.7 data").unwrap();
    assert_eq!(key, "snapshots/r1/snapshot.pdf.gz");
    assert_eq!(&body[..2], &[0x1f, 0x8b]);
    let (name, data) = restore_snapshot("pdf", &body).unwrap();
    assert_eq!(name, "snapshot.pdf");
    assert_eq!(data, b"%PDF-1.7 data".to_vec());
    assert!(restore_snapshot("html", b"not gzip").is_err());
    assert!(gzip_migration_due(None));
    assert!(gzip_migration_due(Some("pending")));
    assert!(!gzip_migration_due(Some("done")));
    let moves = gzip_moves(&vec![s("snapshots/a/snapshot.html"), s("snapshots/a/snapshot.html.gz"), s("x/snapshot.html")]);
    assert_eq!(
        moves,
        vec![
            (s("snapshots/a/snapshot.html"), s("snapshots/a/snapshot.html.gz")),
            (s("x/snapshot.html"), s("x/snapshot.html.gz"))
        ]
    );
}


#[test]
fn cursor_moves_past_pulled_files() {
    let keys = vec![s("sync/d/a.jsonl"), s("sync/d/b.jsonl")];
    let p = plan_device(&keys, Some("a.jsonl"));
    let c = cursor_after_pull(&p, &vec![s("sync/d/b.jsonl")]);
    assert!(matches!(c, CursorUpdate::MoveTo(ref n) if n == "b.jsonl"));
    let c = cursor_after_pull(&p, &vec![]);
    assert!(matches!(c, CursorUpdate::Keep));
    let gap = plan_device(&vec![s("sync/d/c.jsonl")], Some("a.jsonl"));
    assert!(gap.import_snapshot);
    let c = cursor_after_pull(&gap, &vec![]);
    assert!(matches!(c, CursorUpdate::MoveTo(ref n) if n == "c.jsonl"));
}

#[test]
fn downloaded_lines_replace_invalid_utf8() {
    let data = b"{\"a\":1}\n\n  \n\xff\n";
    assert_eq!(downloaded_lines(data), vec![s("{\"a\":1}"), s("\u{fffd}")]);
}

#[test]
fn apply_step_decides_lww_then_payload() {
    let e = entry(1, "UPDATE", "tag", "0000000000002-0000-x", "remote");
    assert_eq!(apply_step(&e, "me", Some("0000000000001-0000-x"), true), ApplyStep::Write);
    assert_eq!(apply_step(&e, "me", Some("0000000000001-0000-x"), false), ApplyStep::MalformedPayload);
    assert_eq!(apply_step(&e, "me", Some("0000000000003-0000-x"), false), ApplyStep::Skip);
    assert_eq!(apply_step(&e, "remote", None, true), ApplyStep::Skip);
}

#[test]
fn migrated_body_is_gzip() {
    let body = migrated_snapshot_body(b"<html></html>").unwrap();
    assert_eq!(&body[..2], &[0x1f, 0x8b]);
    let (_, data) = restore_snapshot("html", &body).unwrap();
    assert_eq!(data, b"<html></html>".to_vec());
}

#[test]
fn unknown_insert_applies_before_deletes() {
    let es = vec![
        entry(1, "DELETE", "comment", "h", "r"),
        entry(2, "INSERT", "widget", "h", "r"),
        entry(3, "PURGE", "comment", "h", "r"),
        entry(4, "DELETE", "widget", "h", "r"),
        entry(5, "INSERT", "folder", "h", "r"),
    ];
    let ids: Vec<i64> = sort_for_apply(&es).iter().map(|e| e.id).collect();
    assert_eq!(ids, vec![5, 2, 1, 4, 3]);
}
