use shibei::backend::{s3_config, BackendError};
use shibei::commands::{
    delete_comment, delete_highlight, error_json, get_resource, init_app, list_folders, list_resources, list_tags,
    parse_sort, parse_tag_ids, reset_device, reset_sync_cursors, s3_creds_answer, s3_creds_clear_legacy, s3_creds_read, s3_creds_write,
    search_resources, update_comment, SortBy, SortOrder,
};
use shibei::html::{strip_script_tags, strip_scripts_and_inject};
use shibei::reset::{cursor_key, cursor_keys, reset_session, tables_to_wipe};
use shibei::keystore::{deletion_result, master_key_from_secret, KeyringFault, KeystoreError};
use shibei::s3_smoke::{progress_json, smoke_get_failed, smoke_key, smoke_payload, smoke_put_failed, smoke_setup_failed, smoke_succeeded};
use shibei::secure_store::{InMemoryStore, SecureStore};
use shibei::transcript::plain_text;
use shibei::state::{clear_s3_creds, has_saved_config, is_unlocked, lock_vault, set_s3_creds_runtime, Session};

fn s(x: &str) -> String {
    x.to_string()
}

#[test]
fn strip_removes_script_elements_only() {
    assert_eq!(strip_script_tags("<p>a</p><script>x()</script><p>b</p>"), "<p>a</p><p>b</p>");
    assert_eq!(strip_script_tags("<SCRIPT type=\"t\">x</ScRiPt ><i>k</i>"), "<i>k</i>");
    assert_eq!(strip_script_tags("<scripty>keep</scripty>"), "<scripty>keep</scripty>");
    assert_eq!(strip_script_tags("a<script>never closed"), "a");
    assert_eq!(strip_script_tags("plain"), "plain");
    assert_eq!(strip_script_tags("<scr<script></script>ipt>x</script>"), "");
    assert_eq!(strip_script_tags("a<scr<script>1</script>ipt>2</script>b"), "ab");
}

#[test]
fn inject_goes_before_head_end_or_body() {
    let css = "<style>*{-webkit-user-select:text!important;user-select:text!important;}</style>";
    let tag = format!("{css}<script>JS</script>");
    assert_eq!(
        strip_scripts_and_inject("<html><head><script>x</script></head><body></body></html>", "JS"),
        format!("<html><head>{tag}</head><body></body></html>")
    );
    assert_eq!(strip_scripts_and_inject("<body>b</body>", "JS"), format!("{tag}<body>b</body>"));
    assert_eq!(strip_scripts_and_inject("text", "JS"), format!("{tag}text"));
}

#[test]
fn command_answers() {
    assert_eq!(init_app(Ok(())), "ok");
    assert_eq!(init_app(Err(s("error.dataDir"))), "error.dataDir");
    assert_eq!(reset_device(Err(s("error.txBegin: x"))), "error.txBegin: x");
    assert_eq!(s3_creds_clear_legacy(Ok(())), "ok");
    assert_eq!(delete_highlight(Ok(())), "ok");
    assert_eq!(update_comment(Err(s("db: gone"))), "error.db: gone");
    assert_eq!(delete_comment(Err(s("x"))), "error.x");
    assert_eq!(list_folders(Ok(s("[]"))), "[]");
    assert_eq!(list_tags(Err(s("error.db: boom"))), "{\"error\":\"error.db: boom\"}");
    assert_eq!(error_json("e"), "{\"error\":\"e\"}");
    assert_eq!(get_resource(Ok(Some(s("{\"id\":\"r\"}")))), "{\"resource\":{\"id\":\"r\"}}");
    assert_eq!(get_resource(Ok(None)), "{\"resource\":null}");
    assert_eq!(get_resource(Err(s("x"))), "{\"error\":\"x\"}");
}

#[test]
fn listing_and_search_input() {
    assert!(parse_tag_ids("").is_empty());
    assert!(parse_tag_ids("null").is_empty());
    assert!(parse_tag_ids("not json").is_empty());
    assert_eq!(parse_tag_ids("[\"t1\",\"t2\"]"), vec![s("t1"), s("t2")]);
    assert_eq!(parse_sort(Some("annotated_at"), Some("ASC")), (SortBy::AnnotatedAt, SortOrder::Asc));
    assert_eq!(parse_sort(Some("title"), Some("up")), (SortBy::CreatedAt, SortOrder::Desc));
    assert_eq!(parse_sort(None, None), (SortBy::CreatedAt, SortOrder::Desc));
    let l = list_resources("__all__", "[\"t\"]", None, Some("asc"));
    assert!(l.all_folders);
    assert_eq!(l.tag_ids, vec![s("t")]);
    assert_eq!(l.sort_order, SortOrder::Asc);
    assert!(!list_resources("f1", "", None, None).all_folders);
    assert!(search_resources("   ", "").is_none());
    let p = search_resources("rust", "[\"t1\"]").unwrap();
    assert_eq!(p.params, vec![s("\"rust\""), s("t1")]);
    assert!(p.sql.ends_with(" ORDER BY r.created_at DESC"));
    assert!(p.sql.contains("rt.tag_id IN (?2)"));
}

#[test]
fn s3_credentials_blob_round_trip() {
    let mut store = InMemoryStore::new();
    assert_eq!(s3_creds_read(&store), "");
    assert_eq!(s3_creds_write(&mut store, "AQID"), "ok");
    assert_eq!(store.read("s3_creds").unwrap(), Some(vec![1u8, 2, 3]));
    assert_eq!(s3_creds_read(&store), "AQID");
    assert!(s3_creds_write(&mut store, "@@@").starts_with("error.badS3Blob: "));
    assert_eq!(store.read("s3_creds").unwrap(), Some(vec![1u8, 2, 3]));
}

#[test]
fn session_state_transitions() {
    let mut st = Session::new();
    assert!(!is_unlocked(&st));
    st.set_key([7u8; 32]);
    assert!(is_unlocked(&st));
    assert_eq!(st.get_key(), Some([7u8; 32]));
    assert_eq!(st.s3_credentials(), Err(s("error.credentialsNotPrimed")));
    assert_eq!(set_s3_creds_runtime(&mut st, s("ak"), s("sk")), "ok");
    assert_eq!(st.s3_credentials(), Ok((s("ak"), s("sk"))));
    lock_vault(&mut st);
    assert!(!is_unlocked(&st));
    assert_eq!(st.s3_credentials(), Ok((s("ak"), s("sk"))));
    clear_s3_creds(&mut st);
    assert!(st.s3_credentials().is_err());
    assert!(has_saved_config(Ok(Some(s("bucket")))));
    assert!(!has_saved_config(Ok(None)));
    assert!(!has_saved_config(Err(s("db"))));
}

#[test]
fn keychain_outcomes() {
    assert_eq!(master_key_from_secret(Ok(vec![9u8; 32])).unwrap(), Some([9u8; 32]));
    match master_key_from_secret(Ok(vec![1u8; 5])) {
        Err(KeystoreError::InvalidFormat(m)) => assert_eq!(m, "expected 32 bytes, got 5"),
        _ => panic!("expected invalid format"),
    }
    assert_eq!(master_key_from_secret(Err(KeyringFault::NoEntry(s("none")))).unwrap(), None);
    match master_key_from_secret(Err(KeyringFault::Other(s("locked")))) {
        Err(e) => assert_eq!(e.message(), "keychain platform error: locked"),
        _ => panic!("expected platform error"),
    }
    assert!(deletion_result(Err(KeyringFault::NoEntry(s("none")))).is_ok());
    assert!(deletion_result(Err(KeyringFault::Other(s("x")))).is_err());
}

#[test]
fn backend_settings() {
    let c = s3_config(s(""), s("us-east-1"), s("b"), s("ak"), s("sk"));
    assert!(c.endpoint.is_none());
    let c = s3_config(s("https://s3.example.com"), s("r"), s("b"), s("ak"), s("sk"));
    assert_eq!(c.endpoint.as_deref(), Some("https://s3.example.com"));
    assert_eq!(BackendError::NotFound(s("k")).message(), "not found: k");
}

#[test]
fn smoke_reports() {
    assert_eq!(smoke_key(42), "shibei-phase0/smoke-42.txt");
    assert_eq!(smoke_payload(42), "hello shibei phase 0 at t=42");
    assert_eq!(smoke_setup_failed("creds: bad"), "{\"ok\":false,\"error\":\"creds: bad\"}");
    assert_eq!(smoke_put_failed("403"), "{\"ok\":false,\"stage\":\"put\",\"error\":\"403\"}");
    assert_eq!(
        smoke_get_failed("timeout", 200),
        "{\"ok\":false,\"stage\":\"get\",\"error\":\"timeout\",\"put_status\":200}"
    );
    let body = b"hello \"x\"";
    assert_eq!(
        smoke_succeeded(200, 200, body, body, "k/1.txt"),
        "{\"ok\":true,\"put_status\":200,\"get_status\":200,\"bytes\":9,\"roundtrip_ok\":true,\"preview\":\"hello \\\"x\\\"\",\"key\":\"k/1.txt\"}"
    );
    let long = vec![b'a'; 100];
    let r = smoke_succeeded(200, 404, &long, b"other", "k");
    assert!(r.contains("\"bytes\":100,\"roundtrip_ok\":false"));
    assert!(r.contains(&format!("\"preview\":\"{}\"", "a".repeat(80))));
    assert_eq!(progress_json("uploading", 1, 3), "{\"phase\":\"uploading\",\"current\":1,\"total\":3}");
}

#[test]
fn transcript_plain_text_skips_blank_segments() {
    let texts = vec!["  Hello  ".to_string(), "world".to_string(), "   ".to_string()];
    assert_eq!(plain_text(&texts), "Hello\nworld");
    assert_eq!(plain_text(&Vec::new()), "");
    assert_eq!(plain_text(&vec!["".to_string(), " a ".to_string()]), "a");
}

#[test]
fn s3_creds_answer_per_read_outcome() {
    assert_eq!(s3_creds_answer(Ok(Some(vec![1u8, 2, 3]))), "AQID");
    assert_eq!(s3_creds_answer(Ok(None)), "");
    assert_eq!(s3_creds_answer(Err("io".to_string())), "");
}

#[test]
fn reset_picks_cursor_keys_and_user_tables() {
    let keys: Vec<String> = ["remote:dev-a:last_seq", "remote:dev-b:last_seq", "last_sync_at", "config:s3_bucket", "snapshot:res-1"]
        .iter()
        .map(|k| k.to_string())
        .collect();
    let gone = cursor_keys(&keys);
    assert_eq!(gone, vec!["remote:dev-a:last_seq", "remote:dev-b:last_seq", "last_sync_at"]);
    assert_eq!(reset_sync_cursors(Ok(gone.len())), 3);
    assert!(cursor_key("remote::last_seq"));
    assert!(!cursor_key("remote:last_seq"));
    assert!(cursor_key("REMOTE:x:LAST-SEQ"));
    let tables: Vec<String> = ["folders", "search_index", "search_index_content", "sqlite_sequence", "sync_state", "search_index_docsize", "search_index_idx"]
        .iter()
        .map(|k| k.to_string())
        .collect();
    assert_eq!(tables_to_wipe(&tables), vec!["folders", "search_index", "sync_state"]);
    let mut s = Session::new();
    s.set_key([1u8; 32]);
    set_s3_creds_runtime(&mut s, "a".to_string(), "b".to_string());
    reset_session(&mut s);
    assert!(!is_unlocked(&s));
    assert!(s.s3_credentials().is_err());
}

#[test]
fn json_literal_matches_serde_json() {
    for t in ["plain", "a\"b\\c", "line\nbreak\ttab\r\u{8}\u{c}", "\u{1}\u{1f}\u{7f}", "é中文/", ""] {
        assert_eq!(shibei::json_text::json_string_literal(t), serde_json::to_string(t).unwrap());
    }
    assert_eq!(shibei::json_text::json_string_literal("\u{1b}"), "\"\\u001b\"");
}
