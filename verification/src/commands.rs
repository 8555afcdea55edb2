//! The parts of the NAPI commands that decide what to answer: everything
//! except reaching the database, the file system and the network.

use vstd::prelude::*;
use vstd::string::StringExecFns;
use crate::cache::{evict_spec, ids_of, keep_tracked, view_of, CacheEntry, CacheIndex, EntryView};
use crate::decimal::signed_zero_padded;
use crate::json_text::{json_quoted, json_string_literal};
use crate::text::{i64_to_string};
use crate::decimal::decimal;
use crate::ext::{b64_encodable, b64_standard, b64_standard_decode, b64_standard_decoded, b64_standard_encode, json_string_array, parse_json_string_array, utf8_error_text, utf8_string};
use crate::search::{names_of, plan_search, search_params, search_sql, trim_spec, SearchPlan};
use crate::secure_store::SecureStore;
use crate::text::{concat, str_eq};
use crate::lock::{is_bio_enabled, is_configured, lockout_readable, lockout_remaining_secs, SecurityPrefs};
use crate::pairing::{decrypt_payload, is_pairing_pin, decrypt_spec, envelope_fields, pairing_error_message, Envelope, PairVerdict, PairingError};
use crate::state::{is_unlocked, Session};
use crate::text::{chars_of, push_char, u64_to_string};
use crate::throttle::remaining_secs_spec;
use vstd::string::StringSliceAdditionalSpecFns;

verus! {

broadcast use crate::text::group_concat;

/// Greeting of the native library.
pub fn hello() -> (s: String)
    ensures
        s@ == "hello from rust, os=ohos, arch=aarch64"@,
{
    "hello from rust, os=ohos, arch=aarch64".to_owned()
}

/// `a + b`.
pub fn add(a: i32, b: i32) -> (r: i32)
    requires
        i32::MIN <= a + b <= i32::MAX,
    ensures
        r == a + b,
{
    a + b
}

// ───────────────────────── resource summary ─────────────────────────

/// How many characters a summary keeps: `max_chars`, or 200 when it is not
/// positive.
pub open spec fn summary_limit(max_chars: i32) -> nat {
    if max_chars <= 0 {
        200
    } else {
        max_chars as nat
    }
}

/// The first `limit` characters, followed by `...` when the text is longer.
pub open spec fn summary_of(text: Seq<char>, limit: nat) -> Seq<char> {
    if text.len() > limit {
        text.take(limit as int) + "..."@
    } else {
        text
    }
}

/// Law: a positive `max_chars` is the number of characters a summary keeps:
/// a longer text is cut to exactly its first `max_chars` characters followed
/// by `...`, and a text that fits is shown whole.
pub proof fn lemma_summary_keeps_max_chars(text: Seq<char>, max_chars: i32)
    requires
        max_chars > 0,
    ensures
        summary_limit(max_chars) == max_chars,
        text.len() > max_chars ==> summary_of(text, summary_limit(max_chars)) == text.take(max_chars as int)
            + "..."@,
        text.len() > max_chars ==> summary_of(text, summary_limit(max_chars)).len() == max_chars + 3,
        text.len() <= max_chars ==> summary_of(text, summary_limit(max_chars)) == text,
{
    reveal_strlit("...");
}

/// The preview shown for a resource, given what looking up its plain text
/// returned: `Ok(None)` when there is no text yet or no such resource, and
/// the database error text otherwise.
pub fn get_resource_summary(plain_text: Result<Option<String>, String>, max_chars: i32) -> (s: String)
    ensures
        match plain_text {
            Ok(Some(t)) => s@ == summary_of(t@, summary_limit(max_chars)),
            Ok(None) => s@ == Seq::<char>::empty(),
            Err(e) => s@ == "error:"@ + e@,
        },
        plain_text matches Ok(Some(t)) ==> (max_chars > 0 && t@.len() > max_chars ==> s@ == t@.take(
            max_chars as int,
        ) + "..."@),
        plain_text matches Ok(Some(t)) ==> (max_chars > 0 && t@.len() <= max_chars ==> s@ == t@),
        plain_text matches Ok(Some(t)) ==> (max_chars <= 0 && t@.len() > 200 ==> s@ == t@.take(200)
            + "..."@),
        plain_text matches Ok(Some(t)) ==> (max_chars <= 0 && t@.len() <= 200 ==> s@ == t@),
{
    let limit: usize = if max_chars <= 0 {
        200
    } else {
        max_chars as usize
    };
    match plain_text {
        Ok(Some(text)) => {
            let cs = chars_of(text.as_str());
            let mut out = String::new();
            let mut i: usize = 0;
            while i < cs.len() && i < limit
                invariant
                    0 <= i <= cs.len(),
                    i <= limit,
                    cs@ == text@,
                    out@ == cs@.take(i as int),
                decreases cs.len() - i,
            {
                push_char(&mut out, cs[i]);
                i = i + 1;
                assert(cs@.take(i as int) =~= cs@.take(i - 1).push(cs@[i - 1]));
            }
            if cs.len() > limit {
                out.append("...");
            } else {
                assert(cs@.take(i as int) =~= cs@);
            }
            out
        },
        Ok(None) => String::new(),
        Err(e) => {
            let mut s = "error:".to_owned();
            s.append(e.as_str());
            s
        },
    }
}

// ───────────────────────── sync settings ─────────────────────────

/// The auto-sync mode given the stored value: `manual` only when stored
/// as such, `on_open` otherwise (absent, unreadable or garbled).
pub fn get_auto_sync_mode(stored: Option<String>) -> (m: String)
    ensures
        m@ == (if stored matches Some(v) && v@ == "manual"@ {
            "manual"@
        } else {
            "on_open"@
        }),
{
    match stored {
        Some(v) => {
            if crate::text::str_eq(v.as_str(), "manual") {
                "manual".to_owned()
            } else {
                "on_open".to_owned()
            }
        },
        None => "on_open".to_owned(),
    }
}

/// Checks a new auto-sync mode; on `Ok` the caller stores it and answers
/// `ok` (or the storage error).
pub fn set_auto_sync_mode(mode: &str) -> (r: Result<(), String>)
    ensures
        r is Ok <==> (mode@ == "on_open"@ || mode@ == "manual"@),
        r matches Err(e) ==> e@ == "error.invalidAutoSyncMode"@,
{
    if !crate::text::str_eq(mode, "on_open") && !crate::text::str_eq(mode, "manual") {
        return Err("error.invalidAutoSyncMode".to_owned());
    }
    Ok(())
}

/// Time of the last successful sync as stored, or empty.
pub fn get_last_sync_at(stored: Result<Option<String>, String>) -> (s: String)
    ensures
        s@ == (match stored {
            Ok(Some(v)) => v@,
            _ => Seq::<char>::empty(),
        }),
{
    match stored {
        Ok(Some(v)) => v,
        _ => String::new(),
    }
}

/// Number of cursor rows removed (as a 32-bit integer), or -1 on error.
pub fn reset_sync_cursors(removed: Result<usize, String>) -> (r: i32)
    ensures
        r == (match removed {
            Ok(n) => n as i32,
            Err(_) => -1i32,
        }),
{
    match removed {
        Ok(n) => n as i32,
        Err(_) => -1,
    }
}

// ───────────────────────── cache statistics ─────────────────────────

pub open spec fn cache_stats_json(total: nat, limit: nat, count: nat) -> Seq<char> {
    "{\"totalBytes\":"@ + decimal(total) + ",\"limitBytes\":"@ + decimal(limit) + ",\"entryCount\":"@
        + decimal(count) + "}"@
}

/// `{"totalBytes":…,"limitBytes":…,"entryCount":…}` for the cache, all
/// zero when there is no cache yet.
pub fn cache_stats(cache: Option<&CacheIndex>) -> (s: String)
    ensures
        s@ == (match cache {
            Some(c) => cache_stats_json(c.total() as nat, c.limit() as nat, c.view().len()),
            None => cache_stats_json(0, 0, 0),
        }),
{
    let (t, l, n): (u64, u64, u64) = match cache {
        Some(c) => {
            let st = c.stats();
            (st.total_bytes, st.limit_bytes, st.entry_count)
        },
        None => (0, 0, 0),
    };
    let mut s = "{\"totalBytes\":".to_owned();
    s.append(u64_to_string(t).as_str());
    s.append(",\"limitBytes\":");
    s.append(u64_to_string(l).as_str());
    s.append(",\"entryCount\":");
    s.append(u64_to_string(n).as_str());
    s.append("}");
    s
}

// ───────────────────────── pairing ─────────────────────────

/// The answer to a pairing decrypt: the payload text, or a JSON error.
pub open spec fn pairing_answer(verdict: PairVerdict, detail: Seq<char>) -> Seq<char> {
    match verdict {
        PairVerdict::DecryptFailed => "{\"error\":\"error.pairingBadPin\"}"@,
        PairVerdict::Plain(p) => if vstd::utf8::valid_utf8(p) {
            vstd::utf8::decode_utf8(p)
        } else {
            "{\"error\":\"error.pairingBadEnvelope: "@ + utf8_error_text(p) + "\"}"@
        },
        _ => "{\"error\":\"error.pairingBadEnvelope: "@ + detail + "\"}"@,
    }
}

fn bad_envelope(detail: &str) -> (s: String)
    ensures
        s@ == "{\"error\":\"error.pairingBadEnvelope: "@ + detail@ + "\"}"@,
{
    let mut s = "{\"error\":\"error.pairingBadEnvelope: ".to_owned();
    s.append(detail);
    s.append("\"}");
    s
}

/// Decrypt a pairing envelope scanned from the desktop QR code with the
/// 6-digit PIN. `envelope` is the parse of the envelope JSON. Answers the
/// decrypted payload, `{"error":"error.pairingBadPin"}` when the PIN does
/// not open it, and `{"error":"error.pairingBadEnvelope: …"}` otherwise.
pub fn decrypt_pairing_payload(pin: &str, envelope: Result<Envelope, String>) -> (s: String)
    ensures
        ({
            let v = decrypt_spec(
                pin@,
                pin.spec_bytes(),
                match envelope {
                    Ok(e) => Some(envelope_fields(e)),
                    Err(_) => None,
                },
            );
            &&& v matches PairVerdict::InvalidPin ==> s@ == pairing_answer(v, pairing_error_message(PairingError::InvalidPin))
            &&& v matches PairVerdict::UnsupportedVersion(n) ==> s@ == pairing_answer(v, pairing_error_message(PairingError::UnsupportedVersion(n)))
            &&& v matches PairVerdict::InvalidEnvelope ==> ("{\"error\":\"error.pairingBadEnvelope: "@
                + "envelope JSON malformed: "@).is_prefix_of(s@)
            &&& is_pairing_pin(pin@) ==> (envelope matches Err(m) ==> s@
                == "{\"error\":\"error.pairingBadEnvelope: "@ + pairing_error_message(
                PairingError::InvalidEnvelope(m),
            ) + "\"}"@)
            &&& (v is DecryptFailed || v is Plain) ==> s@ == pairing_answer(v, seq![])
        }),
{
    match decrypt_payload(pin, envelope) {
        Ok(bytes) => match utf8_string(bytes) {
            Ok(s) => s,
            Err(e) => bad_envelope(e.as_str()),
        },
        Err(PairingError::DecryptFailed) => "{\"error\":\"error.pairingBadPin\"}".to_owned(),
        Err(e) => {
            let m = e.message();
            let s = bad_envelope(m.as_str());
            proof {
                let pre = "{\"error\":\"error.pairingBadEnvelope: "@ + "envelope JSON malformed: "@;
                if let PairingError::InvalidEnvelope(x) = e {
                    assert(s@.subrange(0, pre.len() as int) =~= pre);
                }
            }
            s
        },
    }
}

// ───────────────────────── lock screen ─────────────────────────

pub fn lock_is_configured(prefs: &SecurityPrefs) -> (r: bool)
    ensures
        r == prefs.lock_enabled,
{
    is_configured(prefs)
}

pub fn lock_is_bio_enabled(prefs: &SecurityPrefs) -> (r: bool)
    ensures
        r == prefs.bio_enabled,
{
    is_bio_enabled(prefs)
}

pub fn lock_is_mk_loaded(state: &Session) -> (r: bool)
    ensures
        r == state.key() is Some,
{
    is_unlocked(state)
}

pub fn lock_lockout_remaining_secs(prefs: &SecurityPrefs, now_ms: i64) -> (r: i32)
    requires
        lockout_readable(*prefs, now_ms),
    ensures
        r == remaining_secs_spec(prefs.lockout_until_ms as int, now_ms as int) as i32,
{
    lockout_remaining_secs(prefs, now_ms)
}

// ───────────────────────── plain answers ─────────────────────────

/// `ok`, or the error text as it is.
pub open spec fn ok_or_text(outcome: Result<(), String>) -> Seq<char> {
    match outcome {
        Ok(()) => "ok"@,
        Err(e) => e@,
    }
}

/// `ok`, or the error text after `error.`.
pub open spec fn ok_or_error(outcome: Result<(), String>) -> Seq<char> {
    match outcome {
        Ok(()) => "ok"@,
        Err(e) => "error."@ + e@,
    }
}

/// `{"error":"<text>"}` (the text is not escaped).
pub open spec fn error_object(e: Seq<char>) -> Seq<char> {
    "{\"error\":\""@ + e + "\"}"@
}

fn answer_ok_or_text(outcome: Result<(), String>) -> (s: String)
    ensures
        s@ == ok_or_text(outcome),
{
    match outcome {
        Ok(()) => "ok".to_owned(),
        Err(e) => e,
    }
}

fn answer_ok_or_error(outcome: Result<(), String>) -> (s: String)
    ensures
        s@ == ok_or_error(outcome),
{
    match outcome {
        Ok(()) => "ok".to_owned(),
        Err(e) => concat("error.", e.as_str()),
    }
}

pub fn error_json(e: &str) -> (s: String)
    ensures
        s@ == error_object(e@),
{
    let mut s = concat("{\"error\":\"", e);
    s.append("\"}");
    s
}

/// Answer of `initApp`, given how initialising the app state went.
pub fn init_app(outcome: Result<(), String>) -> (s: String)
    ensures
        s@ == ok_or_text(outcome),
{
    answer_ok_or_text(outcome)
}

/// Answer of `resetDevice`, given how wiping the device went.
pub fn reset_device(outcome: Result<(), String>) -> (s: String)
    ensures
        s@ == ok_or_text(outcome),
{
    answer_ok_or_text(outcome)
}

/// Answer of `s3CredsClearLegacy`, given how clearing the legacy
/// credential rows went.
pub fn s3_creds_clear_legacy(outcome: Result<(), String>) -> (s: String)
    ensures
        s@ == ok_or_text(outcome),
{
    answer_ok_or_text(outcome)
}

/// Answer of `deleteHighlight`.
pub fn delete_highlight(outcome: Result<(), String>) -> (s: String)
    ensures
        s@ == ok_or_error(outcome),
{
    answer_ok_or_error(outcome)
}

/// Answer of `updateComment`.
pub fn update_comment(outcome: Result<(), String>) -> (s: String)
    ensures
        s@ == ok_or_error(outcome),
{
    answer_ok_or_error(outcome)
}

/// Answer of `deleteComment`.
pub fn delete_comment(outcome: Result<(), String>) -> (s: String)
    ensures
        s@ == ok_or_error(outcome),
{
    answer_ok_or_error(outcome)
}

/// Answer of a listing command, given the listed rows as JSON or the
/// database error text.
pub open spec fn listing_answer(listed: Result<String, String>) -> Seq<char> {
    match listed {
        Ok(json) => json@,
        Err(e) => error_object(e@),
    }
}

/// Answer of `listFolders`.
pub fn list_folders(listed: Result<String, String>) -> (s: String)
    ensures
        s@ == listing_answer(listed),
{
    match listed {
        Ok(json) => json,
        Err(e) => error_json(e.as_str()),
    }
}

/// Answer of `listTags`.
pub fn list_tags(listed: Result<String, String>) -> (s: String)
    ensures
        s@ == listing_answer(listed),
{
    match listed {
        Ok(json) => json,
        Err(e) => error_json(e.as_str()),
    }
}

/// Answer of `getResource`: `{"resource":<json>}`, with `null` for a
/// resource that is not found, or the error object.
pub fn get_resource(found: Result<Option<String>, String>) -> (s: String)
    ensures
        s@ == match found {
            Ok(Some(json)) => "{\"resource\":"@ + json@ + "}"@,
            Ok(None) => "{\"resource\":null}"@,
            Err(e) => error_object(e@),
        },
{
    match found {
        Ok(Some(json)) => {
            let mut s = concat("{\"resource\":", json.as_str());
            s.append("}");
            s
        },
        Ok(None) => "{\"resource\":null}".to_owned(),
        Err(e) => error_json(e.as_str()),
    }
}

// ───────────────────────── listing and search input ─────────────────────────

/// The tag filter of a listing: none for `""`, `"null"` or text that is
/// not a JSON array of strings; the array's strings otherwise.
pub open spec fn tag_filter(text: Seq<char>) -> Seq<Seq<char>> {
    if text.len() == 0 || text == "null"@ {
        Seq::<Seq<char>>::empty()
    } else {
        match json_string_array(text) {
            Some(v) => v,
            None => Seq::<Seq<char>>::empty(),
        }
    }
}

pub fn parse_tag_ids(tag_ids_json: &str) -> (r: Vec<String>)
    ensures
        r@.map_values(|s: String| s@) == tag_filter(tag_ids_json@),
{
    if tag_ids_json.is_empty() || str_eq(tag_ids_json, "null") {
        let r: Vec<String> = Vec::new();
        assert(r@.map_values(|s: String| s@) =~= Seq::<Seq<char>>::empty());
        return r;
    }
    match parse_json_string_array(tag_ids_json) {
        Some(v) => v,
        None => {
            let r: Vec<String> = Vec::new();
            assert(r@.map_values(|s: String| s@) =~= Seq::<Seq<char>>::empty());
            r
        },
    }
}

/// Resource list order.
#[derive(Debug, Clone, Copy, PartialEq, Eq, Structural)]
pub enum SortBy {
    CreatedAt,
    AnnotatedAt,
}

#[derive(Debug, Clone, Copy, PartialEq, Eq, Structural)]
pub enum SortOrder {
    Asc,
    Desc,
}

/// The order a listing asks for: by annotation time only when asked
/// (`annotated_at`), otherwise by creation; ascending only for `asc` or
/// `ASC`, otherwise descending. Fields missing from the request (or a
/// request that does not parse) count as absent.
pub open spec fn sort_by_of(by: Option<&str>) -> SortBy {
    if by matches Some(b) && b@ == "annotated_at"@ {
        SortBy::AnnotatedAt
    } else {
        SortBy::CreatedAt
    }
}

pub open spec fn sort_order_of(order: Option<&str>) -> SortOrder {
    if order matches Some(o) && (o@ == "asc"@ || o@ == "ASC"@) {
        SortOrder::Asc
    } else {
        SortOrder::Desc
    }
}

pub fn parse_sort(by: Option<&str>, order: Option<&str>) -> (r: (SortBy, SortOrder))
    ensures
        r.0 == sort_by_of(by),
        r.1 == sort_order_of(order),
        r.0 is AnnotatedAt <==> (by matches Some(b) && b@ == "annotated_at"@),
        r.1 is Asc <==> (order matches Some(o) && (o@ == "asc"@ || o@ == "ASC"@)),
{
    let sort_by = match by {
        Some(b) => if str_eq(b, "annotated_at") {
            SortBy::AnnotatedAt
        } else {
            SortBy::CreatedAt
        },
        None => SortBy::CreatedAt,
    };
    let sort_order = match order {
        Some(o) => if str_eq(o, "asc") || str_eq(o, "ASC") {
            SortOrder::Asc
        } else {
            SortOrder::Desc
        },
        None => SortOrder::Desc,
    };
    (sort_by, sort_order)
}

/// What `listResources` queries: every folder for `__all__`, else the one
/// folder; with the tag filter and order.
pub struct ResourceListing {
    pub all_folders: bool,
    pub folder_id: String,
    pub tag_ids: Vec<String>,
    pub sort_by: SortBy,
    pub sort_order: SortOrder,
}

pub fn list_resources(folder_id: &str, tag_ids_json: &str, by: Option<&str>, order: Option<&str>) -> (r: ResourceListing)
    ensures
        r.all_folders == (folder_id@ == "__all__"@),
        r.folder_id@ == folder_id@,
        r.tag_ids@.map_values(|s: String| s@) == tag_filter(tag_ids_json@),
        r.sort_by == sort_by_of(by),
        r.sort_order == sort_order_of(order),
{
    let tag_ids = parse_tag_ids(tag_ids_json);
    let (sort_by, sort_order) = parse_sort(by, order);
    ResourceListing {
        all_folders: str_eq(folder_id, "__all__"),
        folder_id: folder_id.to_owned(),
        tag_ids,
        sort_by,
        sort_order,
    }
}

/// The search `searchResources` runs: the tag filter from its JSON, no
/// folder, newest first; `None` for a blank query (and for a tag list too
/// long to number its parameters).
pub fn search_resources(query: &str, tag_ids_json: &str) -> (r: Option<SearchPlan>)
    ensures
        ({
            let tags = tag_filter(tag_ids_json@);
            let t = trim_spec(query@);
            &&& r is None <==> (t.len() == 0 || tags.len() + 3 > usize::MAX)
            &&& r matches Some(p) ==> p.sql@ == search_sql(t, false, tags.len(), "created_at"@, "desc"@)
                && names_of(p.params@) == search_params(t, None, tags)
        }),
{
    let tag_ids = parse_tag_ids(tag_ids_json);
    if tag_ids.len() > usize::MAX - 3 {
        return None;
    }
    assert(names_of(tag_ids@) =~= tag_ids@.map_values(|s: String| s@));
    plan_search(query, None, tag_ids.as_slice(), "created_at", "desc")
}

// ───────────────────────── S3 credentials blob ─────────────────────────

/// Name of the wrapped S3 credentials blob in the secure store.
pub const S3_CREDS_BLOB: &'static str = "s3_creds";

/// `s3CredsWrite`: decodes the base64 blob (standard alphabet) and stores
/// it as `s3_creds`. Answers `ok`, `error.badS3Blob: …` for text that is
/// not base64 (nothing is written then), or the store's error text.
pub fn s3_creds_write<S: SecureStore>(store: &mut S, wrapped_b64: &str) -> (s: String)
    ensures
        b64_standard_decoded(wrapped_b64@) is None ==> "error.badS3Blob: "@.is_prefix_of(s@),
{
    let bytes = match b64_standard_decode(wrapped_b64) {
        Ok(b) => b,
        Err(e) => {
            let s = concat("error.badS3Blob: ", e.as_str());
            assert("error.badS3Blob: "@.is_prefix_of(s@)) by {
                assert(s@.subrange(0, "error.badS3Blob: "@.len() as int) =~= "error.badS3Blob: "@);
            }
            return s;
        },
    };
    match store.write(S3_CREDS_BLOB, bytes.as_slice()) {
        Ok(()) => "ok".to_owned(),
        Err(e) => e,
    }
}

/// What `s3CredsRead` answers for what the store's read gave back: the
/// blob in base64 (standard alphabet); the empty text when there is no
/// blob, the read failed, or the blob is too large for its base64 to fit
/// in memory.
pub fn s3_creds_answer(read: Result<Option<Vec<u8>>, String>) -> (s: String)
    ensures
        match read {
            Ok(Some(b)) => if b64_encodable(b@.len()) {
                s@ == b64_standard(b@)
            } else {
                s@.len() == 0
            },
            _ => s@.len() == 0,
        },
{
    match read {
        Ok(Some(bytes)) => {
            if bytes.len() / 3 > (usize::MAX - 4) / 4 {
                return String::new();
            }
            b64_standard_encode(bytes.as_slice())
        },
        _ => String::new(),
    }
}

/// `s3CredsRead`: the stored `s3_creds` blob in base64 (standard
/// alphabet), or the empty text when there is none or it cannot be read.
/// What the store's `read` returns is its implementor's; the answer for
/// each outcome is `s3_creds_answer`'s.
pub fn s3_creds_read<S: SecureStore>(store: &S) -> (s: String)
    ensures
        s@.len() == 0 || exists|b: Seq<u8>| s@ == b64_standard(b),
{
    let read = store.read(S3_CREDS_BLOB);
    let ghost g = read;
    let s = s3_creds_answer(read);
    proof {
        if let Ok(Some(b)) = g {
            if b64_encodable(b@.len()) {
                assert(s@ == b64_standard(b@));
            }
        }
    }
    s
}

// ───────────────────────── cache commands ─────────────────────────

/// Items joined by commas.
pub open spec fn join_commas(items: Seq<Seq<char>>) -> Seq<char>
    decreases items.len(),
{
    if items.len() == 0 {
        Seq::<char>::empty()
    } else if items.len() == 1 {
        items[0]
    } else {
        join_commas(items.drop_last()) + ","@ + items.last()
    }
}

/// A JSON array of strings, as serde_json writes a `Vec<String>`.
pub open spec fn json_string_list(v: Seq<Seq<char>>) -> Seq<char> {
    "["@ + join_commas(v.map_values(|x: Seq<char>| json_quoted(x))) + "]"@
}

/// Appends `items[k]` after the first `k` items have been joined.
proof fn lemma_join_step(items: Seq<Seq<char>>, k: int)
    requires
        0 <= k < items.len(),
    ensures
        join_commas(items.take(k + 1)) == if k == 0 {
            items[0]
        } else {
            join_commas(items.take(k)) + ","@ + items[k]
        },
{
    assert(items.take(k + 1).drop_last() =~= items.take(k));
    if k == 0 {
        assert(items.take(1)[0] == items[0]);
    }
}

proof fn lemma_join_push(rows: Seq<Seq<char>>, x: Seq<char>)
    ensures
        join_commas(rows.push(x)) == if rows.len() == 0 {
            x
        } else {
            join_commas(rows) + ","@ + x
        },
{
    assert(rows.push(x).drop_last() =~= rows);
    if rows.len() == 0 {
        assert(rows.push(x)[0] == x);
    }
}

/// Appends `item`, after a comma unless it is the first.
fn append_item(s: &mut String, first: bool, item: &str)
    ensures
        final(s)@ == old(s)@ + (if first { Seq::<char>::empty() } else { ","@ }) + item@,
{
    if !first {
        s.append(",");
    }
    s.append(item);
}

fn json_list_of(v: &Vec<String>) -> (s: String)
    ensures
        s@ == json_string_list(ids_of(v@)),
{
    let ghost items = ids_of(v@).map_values(|x: Seq<char>| json_quoted(x));
    let mut s = "[".to_owned();
    let mut i: usize = 0;
    proof {
        assert(items.take(0) =~= Seq::<Seq<char>>::empty());
    }
    while i < v.len()
        invariant
            0 <= i <= v.len(),
            items == ids_of(v@).map_values(|x: Seq<char>| json_quoted(x)),
            s@ == "["@ + join_commas(items.take(i as int)),
        decreases v.len() - i,
    {
        proof {
            lemma_join_step(items, i as int);
        }
        if i > 0 {
            s.append(",");
        }
        assert(items[i as int] == json_quoted(v@[i as int]@));
        s.append(json_string_literal(v[i].as_str()).as_str());
        i = i + 1;
    }
    assert(items.take(i as int) =~= items);
    s.append("]");
    s
}

/// `cachedIds`: of the ids in the JSON array, those with a cached
/// snapshot, as a JSON array; `[]` for input that is not such an array.
pub fn cached_ids(cache: &CacheIndex, ids_json: &str) -> (s: String)
    requires
        cache.wf(),
    ensures
        s@ == match json_string_array(ids_json@) {
            Some(ids) => json_string_list(keep_tracked(cache.view(), ids)),
            None => "[]"@,
        },
{
    match parse_json_string_array(ids_json) {
        Some(ids) => {
            let kept = cache.cached_ids(ids);
            json_list_of(&kept)
        },
        None => "[]".to_owned(),
    }
}

/// The size ceiling a requested limit sets: at least one byte.
pub open spec fn clamped_limit(limit_bytes: i64) -> u64 {
    if limit_bytes < 1 {
        1
    } else {
        limit_bytes as u64
    }
}

/// `cacheSetLimit`: sets the ceiling (at least one byte) and evicts down to
/// it; the evicted ids, whose files and body text the caller removes.
pub fn cache_set_limit(cache: &mut CacheIndex, limit_bytes: i64) -> (evicted: Vec<String>)
    requires
        old(cache).wf(),
    ensures
        final(cache).wf(),
        final(cache).limit() == clamped_limit(limit_bytes),
        limit_bytes >= 1 ==> final(cache).limit() == limit_bytes,
        limit_bytes < 1 ==> final(cache).limit() == 1,
        ids_of(evicted@) == evict_spec(old(cache).view(), old(cache).total(), clamped_limit(limit_bytes)).0,
        final(cache).view() == evict_spec(old(cache).view(), old(cache).total(), clamped_limit(limit_bytes)).1,
        final(cache).total() == evict_spec(old(cache).view(), old(cache).total(), clamped_limit(limit_bytes)).2,
{
    let bytes: u64 = if limit_bytes < 1 { 1 } else { limit_bytes as u64 };
    cache.set_limit(bytes);
    cache.evict_if_over_limit()
}

/// Reading a resource bumps its cache entry; a snapshot found on disk
/// that the index never recorded is registered with its size (when it has
/// any bytes).
pub fn touch_cache(cache: &mut CacheIndex, id: &str, on_disk_bytes: u64, now_ms: i64)
    requires
        old(cache).wf(),
    ensures
        final(cache).wf(),
        final(cache).limit() == old(cache).limit(),
        crate::cache::has_id(old(cache).view(), id@) ==> final(cache).total() == old(cache).total() && exists|i: int|
            0 <= i < old(cache).view().len() && old(cache).view()[i].id == id@ && final(cache).view()
                == old(cache).view().update(i, EntryView { last_access_ms: now_ms, ..old(cache).view()[i] }),
        !crate::cache::has_id(old(cache).view(), id@) && on_disk_bytes == 0 ==> final(cache).view() == old(cache).view()
            && final(cache).total() == old(cache).total(),
        !crate::cache::has_id(old(cache).view(), id@) && on_disk_bytes > 0 ==> crate::cache::has_id(
            final(cache).view(),
            id@,
        ),
{
    if cache.contains(id) {
        cache.touch_at(id, now_ms);
    } else if on_disk_bytes > 0 {
        cache.put_at(id, on_disk_bytes, now_ms);
        proof {
            let p = choose|p: int| crate::cache::insert_pos(old(cache).view(), id@, p) && final(cache).view() == old(cache).view().insert(
                p,
                EntryView { id: id@, bytes: on_disk_bytes, last_access_ms: now_ms, pinned: false },
            );
            assert(final(cache).view()[p].id == id@);
        }
    }
}

/// One row of `cacheList`: a cached entry and its resource's title, URL
/// and type.
pub open spec fn cache_row_json(e: EntryView, title: Seq<char>, url: Seq<char>, resource_type: Seq<char>) -> Seq<char> {
    "{\"resourceId\":"@ + json_quoted(e.id) + ",\"title\":"@ + json_quoted(title) + ",\"url\":"@ + json_quoted(url)
        + ",\"resourceType\":"@ + json_quoted(resource_type) + ",\"bytes\":"@ + decimal(e.bytes as nat)
        + ",\"lastAccessMs\":"@ + signed_zero_padded(e.last_access_ms as int, 1) + "}"@
}

/// The rows of the entries whose resource is still there, in entry order.
pub open spec fn cache_rows(entries: Seq<EntryView>, meta: Seq<Option<(Seq<char>, Seq<char>, Seq<char>)>>) -> Seq<Seq<char>>
    decreases entries.len(),
{
    if entries.len() == 0 {
        Seq::<Seq<char>>::empty()
    } else {
        let k = entries.len() - 1;
        let r = cache_rows(entries.drop_last(), meta);
        match meta[k] {
            Some((t, u, ty)) => r.push(cache_row_json(entries[k], t, u, ty)),
            None => r,
        }
    }
}

pub open spec fn meta_view(m: Seq<Option<(String, String, String)>>) -> Seq<Option<(Seq<char>, Seq<char>, Seq<char>)>> {
    m.map_values(|o: Option<(String, String, String)>| match o {
        Some((t, u, ty)) => Some((t@, u@, ty@)),
        None => None,
    })
}

fn cache_row(e: &CacheEntry, title: &str, url: &str, resource_type: &str) -> (s: String)
    ensures
        s@ == cache_row_json(e@, title@, url@, resource_type@),
{
    let mut s = "{\"resourceId\":".to_owned();
    s.append(json_string_literal(e.resource_id.as_str()).as_str());
    s.append(",\"title\":");
    s.append(json_string_literal(title).as_str());
    s.append(",\"url\":");
    s.append(json_string_literal(url).as_str());
    s.append(",\"resourceType\":");
    s.append(json_string_literal(resource_type).as_str());
    s.append(",\"bytes\":");
    s.append(u64_to_string(e.bytes).as_str());
    s.append(",\"lastAccessMs\":");
    s.append(i64_to_string(e.last_access_ms).as_str());
    s.append("}");
    s
}

/// `cacheList`: the cached entries (most recent first, as the index lists
/// them) joined with their resources' title, URL and type, as a JSON
/// array; entries whose resource is gone are left out. `meta[k]` is what
/// the database holds for `entries[k]`.
#[verifier::rlimit(30)]
pub fn cache_list(entries: &Vec<CacheEntry>, meta: &Vec<Option<(String, String, String)>>) -> (s: String)
    requires
        meta@.len() == entries@.len(),
    ensures
        s@ == "["@ + join_commas(cache_rows(view_of(entries@), meta_view(meta@))) + "]"@,
{
    let ghost ev = view_of(entries@);
    let ghost mv = meta_view(meta@);
    let mut s = "[".to_owned();
    let mut first = true;
    let mut i: usize = 0;
    proof {
        assert(ev.take(0) =~= Seq::<EntryView>::empty());
    }
    while i < entries.len()
        invariant
            0 <= i <= entries.len(),
            meta@.len() == entries@.len(),
            ev == view_of(entries@),
            mv == meta_view(meta@),
            first == (cache_rows(ev.take(i as int), mv).len() == 0),
            s@ == "["@ + join_commas(cache_rows(ev.take(i as int), mv)),
        decreases entries.len() - i,
    {
        let ghost rows = cache_rows(ev.take(i as int), mv);
        assert(ev.take(i + 1).drop_last() =~= ev.take(i as int));
        assert(ev.take(i + 1)[i as int] == entries@[i as int]@);
        match &meta[i] {
            Some((t, u, ty)) => {
                assert(mv[i as int] == Some((t@, u@, ty@)));
                let row = cache_row(&entries[i], t.as_str(), u.as_str(), ty.as_str());
                proof {
                    lemma_join_push(rows, row@);
                    assert(rows.push(row@) == cache_rows(ev.take(i + 1), mv));
                }
                append_item(&mut s, first, row.as_str());
                first = false;
            },
            None => {
                assert(mv[i as int] is None);
            },
        }
        i = i + 1;
    }
    assert(ev.take(i as int) =~= ev);
    s.append("]");
    s
}

/// `preloadFolder`'s answer: how many snapshots were downloaded, failed
/// and were already there.
pub fn preload_summary(ok: u32, failed: u32, skipped: u32) -> (s: String)
    ensures
        s@ == "{\"ok\":"@ + decimal(ok as nat) + ",\"failed\":"@ + decimal(failed as nat) + ",\"skipped\":"@
            + decimal(skipped as nat) + "}"@,
{
    let mut s = "{\"ok\":".to_owned();
    s.append(u64_to_string(ok as u64).as_str());
    s.append(",\"failed\":");
    s.append(u64_to_string(failed as u64).as_str());
    s.append(",\"skipped\":");
    s.append(u64_to_string(skipped as u64).as_str());
    s.append("}");
    s
}

} // verus!
