use shibei::hlc::HlcClock;
use shibei::questions::{
    validate_target_type, ChangePayload, DbError, QuestionStore, SyncContext, STATUS_ACTIVE, STATUS_ARCHIVED,
    TARGET_COMMENT, TARGET_HIGHLIGHT, TARGET_RESOURCE,
};

const NOW: &str = "2026-01-01T00:00:00Z";

fn now() -> String {
    NOW.to_string()
}

#[test]
fn test_create_and_list_question() {
    let mut store = QuestionStore::new();
    let mut ctx: Option<SyncContext> = None;
    let q = store.create_question("q1".to_string(), now(), "可观测性", Some("微服务体系下"), &mut ctx).unwrap();
    assert_eq!(q.title, "可观测性");
    assert_eq!(q.status, STATUS_ACTIVE);
    assert!(q.archived_at.is_none());

    let all = store.list_questions(None);
    assert_eq!(all.len(), 1);
    let active = store.list_questions(Some(STATUS_ACTIVE));
    assert_eq!(active.len(), 1);
    let archived = store.list_questions(Some(STATUS_ARCHIVED));
    assert!(archived.is_empty());
}

#[test]
fn test_update_question() {
    let mut store = QuestionStore::new();
    let mut ctx: Option<SyncContext> = None;
    let q = store.create_question("q1".to_string(), now(), "old title", None, &mut ctx).unwrap();
    store.update_question(&q.id, "new title", Some("new desc"), now(), &mut ctx).unwrap();
    let fetched = store.get_question(&q.id).unwrap();
    assert_eq!(fetched.title, "new title");
    assert_eq!(fetched.description.as_deref(), Some("new desc"));
}

#[test]
fn test_archive_unarchive() {
    let mut store = QuestionStore::new();
    let mut ctx: Option<SyncContext> = None;
    let q = store.create_question("q1".to_string(), now(), "Q", None, &mut ctx).unwrap();

    store.archive_question(&q.id, now(), &mut ctx).unwrap();
    let fetched = store.get_question(&q.id).unwrap();
    assert_eq!(fetched.status, STATUS_ARCHIVED);
    assert!(fetched.archived_at.is_some());

    let err = store.archive_question(&q.id, now(), &mut ctx).unwrap_err();
    assert!(matches!(err, DbError::InvalidOperation(_)));

    store.unarchive_question(&q.id, now(), &mut ctx).unwrap();
    let fetched = store.get_question(&q.id).unwrap();
    assert_eq!(fetched.status, STATUS_ACTIVE);
    assert!(fetched.archived_at.is_none());
}

#[test]
fn test_archive_does_not_cascade_links() {
    let mut store = QuestionStore::new();
    let mut ctx: Option<SyncContext> = None;
    let q = store.create_question("q1".to_string(), now(), "Q", None, &mut ctx).unwrap();
    store.link("l1".to_string(), now(), &q.id, TARGET_RESOURCE, "r1", None, &mut ctx).unwrap();

    store.archive_question(&q.id, now(), &mut ctx).unwrap();

    let links = store.list_links_for_question(&q.id);
    assert_eq!(links.len(), 1);
    let qs = store.list_questions_for_target(TARGET_RESOURCE, "r1").unwrap();
    assert_eq!(qs.len(), 1, "archived question should still appear in reverse lookup");
}

#[test]
fn test_link_and_unlink() {
    let mut store = QuestionStore::new();
    let mut ctx: Option<SyncContext> = None;
    let q = store.create_question("q1".to_string(), now(), "Q", None, &mut ctx).unwrap();

    let lnk = store.link("l1".to_string(), now(), &q.id, TARGET_RESOURCE, "r1", Some("初步线索"), &mut ctx).unwrap();
    assert_eq!(lnk.reason.as_deref(), Some("初步线索"));

    let links = store.list_links_for_question(&q.id);
    assert_eq!(links.len(), 1);

    store.unlink(&lnk.id, now(), &mut ctx).unwrap();
    assert!(store.list_links_for_question(&q.id).is_empty());
}

#[test]
fn test_link_idempotent_for_alive_pair() {
    let mut store = QuestionStore::new();
    let mut ctx: Option<SyncContext> = None;
    let q = store.create_question("q1".to_string(), now(), "Q", None, &mut ctx).unwrap();

    let a = store.link("l1".to_string(), now(), &q.id, TARGET_RESOURCE, "r1", None, &mut ctx).unwrap();
    let b = store.link("l2".to_string(), now(), &q.id, TARGET_RESOURCE, "r1", Some("ignored"), &mut ctx).unwrap();
    assert_eq!(a.id, b.id, "second link should return the existing alive link");
    assert!(b.reason.is_none());
}

#[test]
fn test_relink_after_unlink_creates_new_row() {
    let mut store = QuestionStore::new();
    let mut ctx: Option<SyncContext> = None;
    let q = store.create_question("q1".to_string(), now(), "Q", None, &mut ctx).unwrap();

    let first = store.link("l1".to_string(), now(), &q.id, TARGET_RESOURCE, "r1", None, &mut ctx).unwrap();
    store.unlink(&first.id, now(), &mut ctx).unwrap();
    let second = store.link("l2".to_string(), now(), &q.id, TARGET_RESOURCE, "r1", None, &mut ctx).unwrap();
    assert_ne!(first.id, second.id);
}

#[test]
fn test_update_link_reason() {
    let mut store = QuestionStore::new();
    let mut ctx: Option<SyncContext> = None;
    let q = store.create_question("q1".to_string(), now(), "Q", None, &mut ctx).unwrap();
    let lnk = store.link("l1".to_string(), now(), &q.id, TARGET_RESOURCE, "r1", None, &mut ctx).unwrap();

    store.update_link_reason(&lnk.id, Some("新的理由"), now(), &mut ctx).unwrap();
    let fetched = store.get_link(&lnk.id).unwrap();
    assert_eq!(fetched.reason.as_deref(), Some("新的理由"));

    store.update_link_reason(&lnk.id, None, now(), &mut ctx).unwrap();
    let cleared = store.get_link(&lnk.id).unwrap();
    assert!(cleared.reason.is_none());
}

#[test]
fn test_invalid_target_type_rejected() {
    let mut store = QuestionStore::new();
    let mut ctx: Option<SyncContext> = None;
    let q = store.create_question("q1".to_string(), now(), "Q", None, &mut ctx).unwrap();
    let err = store.link("l1".to_string(), now(), &q.id, "bogus", "x", None, &mut ctx).unwrap_err();
    assert!(matches!(err, DbError::InvalidOperation(_)));
}

#[test]
fn test_link_to_missing_question_rejected() {
    let mut store = QuestionStore::new();
    let mut ctx: Option<SyncContext> = None;
    let err = store.link("l1".to_string(), now(), "no-such-q", TARGET_RESOURCE, "r1", None, &mut ctx).unwrap_err();
    assert!(matches!(err, DbError::NotFound(_)));
}

#[test]
fn test_delete_question_cascades_links() {
    let mut store = QuestionStore::new();
    let mut ctx: Option<SyncContext> = None;
    let q = store.create_question("q1".to_string(), now(), "Q", None, &mut ctx).unwrap();
    store.link("l1".to_string(), now(), &q.id, TARGET_RESOURCE, "r1", None, &mut ctx).unwrap();

    store.delete_question(&q.id, now(), &mut ctx).unwrap();
    assert!(store.list_links_for_question(&q.id).is_empty());
    assert!(store.list_questions_for_target(TARGET_RESOURCE, "r1").unwrap().is_empty());
}

#[test]
fn test_cascade_from_target_soft_delete() {
    let mut store = QuestionStore::new();
    let mut ctx: Option<SyncContext> = None;
    let q = store.create_question("q1".to_string(), now(), "Q", None, &mut ctx).unwrap();
    store.link("l1".to_string(), now(), &q.id, TARGET_HIGHLIGHT, "h1", None, &mut ctx).unwrap();
    store.link("l2".to_string(), now(), &q.id, TARGET_RESOURCE, "r1", None, &mut ctx).unwrap();

    let n = store.cascade_soft_delete_for_target(TARGET_HIGHLIGHT, "h1", now(), &mut ctx).unwrap();
    assert_eq!(n, 1);
    let remaining = store.list_links_for_question(&q.id);
    assert_eq!(remaining.len(), 1);
    assert_eq!(remaining[0].target_type, TARGET_RESOURCE);
}

#[test]
fn test_reverse_lookup_multi() {
    let mut store = QuestionStore::new();
    let mut ctx: Option<SyncContext> = None;
    let q1 = store.create_question("q1".to_string(), now(), "Q1", None, &mut ctx).unwrap();
    let q2 = store.create_question("q2".to_string(), now(), "Q2", None, &mut ctx).unwrap();
    store.link("l1".to_string(), now(), &q1.id, TARGET_RESOURCE, "r1", None, &mut ctx).unwrap();
    store.link("l2".to_string(), now(), &q2.id, TARGET_RESOURCE, "r1", None, &mut ctx).unwrap();
    store.link("l3".to_string(), now(), &q2.id, TARGET_RESOURCE, "r2", None, &mut ctx).unwrap();

    let map = store.list_questions_for_resources(&["r1".to_string(), "r2".to_string()]);
    let count = |rid: &str| map.iter().find(|(k, _)| k == rid).map(|(_, v)| v.len()).unwrap_or(0);
    assert_eq!(count("r1"), 2);
    assert_eq!(count("r2"), 1);
}

#[test]
fn test_sync_log_emissions_basic() {
    let mut store = QuestionStore::new();
    let mut clock = HlcClock::new("dev-A".to_string());
    let mut ctx = Some(SyncContext { clock: &mut clock, device_id: "dev-A" });

    let q = store.create_question("q1".to_string(), now(), "Q", Some("d"), &mut ctx).unwrap();
    let lnk = store.link("l1".to_string(), now(), &q.id, TARGET_RESOURCE, "r1", Some("why"), &mut ctx).unwrap();
    store.update_link_reason(&lnk.id, Some("revised"), now(), &mut ctx).unwrap();
    store.unlink(&lnk.id, now(), &mut ctx).unwrap();
    store.archive_question(&q.id, now(), &mut ctx).unwrap();
    store.unarchive_question(&q.id, now(), &mut ctx).unwrap();

    let pending = store.change_log();
    let kinds: Vec<(String, String)> = pending.iter().map(|e| (e.entity_type.clone(), e.operation.clone())).collect();
    assert!(kinds.contains(&("question".to_string(), "INSERT".to_string())));
    assert!(kinds.contains(&("question_link".to_string(), "INSERT".to_string())));
    assert!(kinds.contains(&("question_link".to_string(), "UPDATE".to_string())));
    assert!(kinds.contains(&("question_link".to_string(), "DELETE".to_string())));
    let question_updates = kinds.iter().filter(|(t, op)| t == "question" && op == "UPDATE").count();
    assert!(question_updates >= 2);
}

#[test]
fn test_delete_question_emits_link_delete_logs() {
    let mut store = QuestionStore::new();
    let mut clock = HlcClock::new("dev-A".to_string());
    let mut ctx = Some(SyncContext { clock: &mut clock, device_id: "dev-A" });

    let q = store.create_question("q1".to_string(), now(), "Q", None, &mut ctx).unwrap();
    store.link("l1".to_string(), now(), &q.id, TARGET_RESOURCE, "r1", None, &mut ctx).unwrap();
    store.link("l2".to_string(), now(), &q.id, TARGET_HIGHLIGHT, "h1", None, &mut ctx).unwrap();

    store.delete_question(&q.id, now(), &mut ctx).unwrap();

    let pending = store.change_log();
    let link_deletes = pending.iter().filter(|e| e.entity_type == "question_link" && e.operation == "DELETE").count();
    assert_eq!(link_deletes, 2, "one DELETE log per cascaded link");
    let q_deletes = pending.iter().filter(|e| e.entity_type == "question" && e.operation == "DELETE").count();
    assert_eq!(q_deletes, 1);
}

#[test]
fn test_cascade_from_comment_soft_delete() {
    let mut store = QuestionStore::new();
    let mut ctx: Option<SyncContext> = None;
    let q = store.create_question("q1".to_string(), now(), "Q", None, &mut ctx).unwrap();
    store.link("l1".to_string(), now(), &q.id, TARGET_COMMENT, "c1", None, &mut ctx).unwrap();

    store.cascade_soft_delete_for_target(TARGET_COMMENT, "c1", now(), &mut ctx).unwrap();
    assert!(store.list_links_for_question(&q.id).is_empty());
}

#[test]
fn test_hlc_monotonic_within_sync_ctx() {
    let mut store = QuestionStore::new();
    let mut clock = HlcClock::new("dev-A".to_string());
    let mut ctx = Some(SyncContext { clock: &mut clock, device_id: "dev-A" });

    let q = store.create_question("q1".to_string(), now(), "Q", None, &mut ctx).unwrap();
    store.update_question(&q.id, "Q2", None, now(), &mut ctx).unwrap();
    store.archive_question(&q.id, now(), &mut ctx).unwrap();

    let pending = store.change_log();
    let hlcs: Vec<&str> = pending.iter().map(|e| e.hlc.as_str()).collect();
    assert_eq!(hlcs.len(), 3);
    for w in hlcs.windows(2) {
        assert!(w[0] < w[1], "HLC must be strictly increasing: {:?}", w);
    }
}

#[test]
fn delete_question_logs_links_before_the_question_with_their_payloads() {
    let mut store = QuestionStore::new();
    let mut clock = HlcClock::new("dev-A".to_string());
    let mut ctx = Some(SyncContext { clock: &mut clock, device_id: "dev-A" });
    let q = store.create_question("q1".to_string(), now(), "Q", None, &mut ctx).unwrap();
    store.link("l1".to_string(), now(), &q.id, TARGET_RESOURCE, "r1", None, &mut ctx).unwrap();
    store.delete_question(&q.id, "2026-02-02T00:00:00Z".to_string(), &mut ctx).unwrap();
    let log = store.change_log();
    assert_eq!(log.len(), 4);
    assert_eq!(log[2].entity_type, "question_link");
    assert_eq!(log[2].entity_id, "l1");
    assert!(matches!(&log[2].payload, ChangePayload::Link(l) if l.id == "l1"));
    assert_eq!(log[3].entity_type, "question");
    assert_eq!(log[3].operation, "DELETE");
    assert!(matches!(&log[3].payload, ChangePayload::Question(x) if x.status == STATUS_ACTIVE));
    assert_eq!(log[3].device_id, "dev-A");
    assert!(store.get_question("q1").is_err());
}

#[test]
fn duplicate_ids_are_rejected_as_constraint_errors() {
    let mut store = QuestionStore::new();
    let mut ctx: Option<SyncContext> = None;
    store.create_question("q1".to_string(), now(), "Q", None, &mut ctx).unwrap();
    match store.create_question("q1".to_string(), now(), "again", None, &mut ctx) {
        Err(DbError::Sqlite(m)) => assert_eq!(m, "UNIQUE constraint failed: questions.id"),
        _ => panic!("expected a constraint error"),
    }
    store.link("l1".to_string(), now(), "q1", TARGET_RESOURCE, "r1", None, &mut ctx).unwrap();
    match store.link("l1".to_string(), now(), "q1", TARGET_RESOURCE, "r2", None, &mut ctx) {
        Err(DbError::Sqlite(m)) => assert_eq!(m, "UNIQUE constraint failed: question_links.id"),
        _ => panic!("expected a constraint error"),
    }
}

#[test]
fn list_orders_active_first_then_by_recency() {
    let mut store = QuestionStore::new();
    let mut ctx: Option<SyncContext> = None;
    store.create_question("a".to_string(), "2026-01-01".to_string(), "A", None, &mut ctx).unwrap();
    store.create_question("b".to_string(), "2026-01-03".to_string(), "B", None, &mut ctx).unwrap();
    store.create_question("c".to_string(), "2026-01-02".to_string(), "C", None, &mut ctx).unwrap();
    store.archive_question("a", "2026-01-05".to_string(), &mut ctx).unwrap();
    let all: Vec<String> = store.list_questions(None).into_iter().map(|q| q.id).collect();
    assert_eq!(all, vec!["b".to_string(), "c".to_string(), "a".to_string()]);
    let active: Vec<String> = store.list_questions(Some(STATUS_ACTIVE)).into_iter().map(|q| q.id).collect();
    assert_eq!(active, vec!["b".to_string(), "c".to_string()]);
}

#[test]
fn messages_and_target_validation() {
    assert!(validate_target_type(TARGET_RESOURCE).is_ok());
    match validate_target_type("bogus") {
        Err(e) => assert_eq!(e.message(), "invalid operation: invalid target_type: bogus"),
        Ok(()) => panic!("expected an error"),
    }
    assert_eq!(DbError::NotFound("question x".to_string()).message(), "not found: question x");
}
