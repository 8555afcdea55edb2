//! The storage smoke test's object and report: a timestamped object is put
//! and read back; the report says how each step went and whether the bytes
//! survived the round trip.

use vstd::prelude::*;
use crate::decimal::decimal;
use crate::ext::{debug_quoted, debug_string, utf8_lossy, utf8_lossy_text};
use crate::text::{concat, u64_to_string};

verus! {

broadcast use crate::text::group_concat;

/// Key of the smoke-test object written at `ts_ms`.
pub fn smoke_key(ts_ms: u64) -> (k: String)
    ensures
        k@ == "shibei-phase0/smoke-"@ + decimal(ts_ms as nat) + ".txt"@,
{
    let mut k = concat("shibei-phase0/smoke-", u64_to_string(ts_ms).as_str());
    k.append(".txt");
    k
}

/// Contents of the smoke-test object written at `ts_ms`.
pub fn smoke_payload(ts_ms: u64) -> (p: String)
    ensures
        p@ == "hello shibei phase 0 at t="@ + decimal(ts_ms as nat),
{
    concat("hello shibei phase 0 at t=", u64_to_string(ts_ms).as_str())
}

/// Report of a failure before any request (`rt_build: …`, `creds: …`,
/// `bucket_new: …`); the error text is not escaped.
pub fn smoke_setup_failed(error: &str) -> (s: String)
    ensures
        s@ == "{\"ok\":false,\"error\":\""@ + error@ + "\"}"@,
{
    let mut s = concat("{\"ok\":false,\"error\":\"", error);
    s.append("\"}");
    s
}

/// Report of a failed put.
pub fn smoke_put_failed(error: &str) -> (s: String)
    ensures
        s@ == "{\"ok\":false,\"stage\":\"put\",\"error\":\""@ + error@ + "\"}"@,
{
    let mut s = concat("{\"ok\":false,\"stage\":\"put\",\"error\":\"", error);
    s.append("\"}");
    s
}

/// Report of a failed get after a put that answered `put_status`.
pub fn smoke_get_failed(error: &str, put_status: u16) -> (s: String)
    ensures
        s@ == "{\"ok\":false,\"stage\":\"get\",\"error\":\""@ + error@ + "\",\"put_status\":"@ + decimal(
            put_status as nat,
        ) + "}"@,
{
    let mut s = concat("{\"ok\":false,\"stage\":\"get\",\"error\":\"", error);
    s.append("\",\"put_status\":");
    s.append(u64_to_string(put_status as u64).as_str());
    s.append("}");
    s
}

pub open spec fn bool_text(b: bool) -> Seq<char> {
    if b {
        "true"@
    } else {
        "false"@
    }
}

fn same_bytes(a: &[u8], b: &[u8]) -> (r: bool)
    ensures
        r == (a@ == b@),
{
    if a.len() != b.len() {
        return false;
    }
    let mut i: usize = 0;
    while i < a.len()
        invariant
            0 <= i <= a.len(),
            a.len() == b.len(),
            forall|k: int| 0 <= k < i ==> a@[k] == b@[k],
        decreases a.len() - i,
    {
        if a[i] != b[i] {
            return false;
        }
        i = i + 1;
    }
    assert(a@ =~= b@);
    true
}

fn prefix_bytes(b: &[u8], n: usize) -> (r: Vec<u8>)
    ensures
        r@ == b@.take(if b@.len() < n { b@.len() as int } else { n as int }),
{
    let m = if b.len() < n { b.len() } else { n };
    let mut r: Vec<u8> = Vec::new();
    let mut i: usize = 0;
    while i < m
        invariant
            0 <= i <= m,
            m <= b.len(),
            r@ == b@.take(i as int),
        decreases m - i,
    {
        r.push(b[i]);
        i = i + 1;
        assert(r@ =~= b@.take(i as int));
    }
    r
}

/// Report of a completed round trip: both statuses, the size of what came
/// back, whether it equals what was put, its first 80 bytes as (lossy)
/// text and the key, both quoted as `{:?}` prints them.
pub open spec fn smoke_report(put_status: u16, get_status: u16, body: Seq<u8>, payload: Seq<u8>, key: Seq<char>) -> Seq<char> {
    "{\"ok\":true,\"put_status\":"@ + decimal(put_status as nat) + ",\"get_status\":"@ + decimal(
        get_status as nat,
    ) + ",\"bytes\":"@ + decimal(body.len()) + ",\"roundtrip_ok\":"@ + bool_text(body == payload)
        + ",\"preview\":"@ + debug_quoted(
        utf8_lossy_text(body.take(if body.len() < 80 { body.len() as int } else { 80 })),
    ) + ",\"key\":"@ + debug_quoted(key) + "}"@
}

pub fn smoke_succeeded(put_status: u16, get_status: u16, body: &[u8], payload: &[u8], key: &str) -> (s: String)
    requires
        body@.len() <= u64::MAX,
    ensures
        s@ == smoke_report(put_status, get_status, body@, payload@, key@),
{
    let roundtrip_ok = same_bytes(body, payload);
    let head = prefix_bytes(body, 80);
    let preview = utf8_lossy(head.as_slice());
    let mut s = "{\"ok\":true,\"put_status\":".to_owned();
    s.append(u64_to_string(put_status as u64).as_str());
    s.append(",\"get_status\":");
    s.append(u64_to_string(get_status as u64).as_str());
    s.append(",\"bytes\":");
    s.append(u64_to_string(body.len() as u64).as_str());
    s.append(",\"roundtrip_ok\":");
    s.append(if roundtrip_ok { "true" } else { "false" });
    s.append(",\"preview\":");
    s.append(debug_string(preview.as_str()).as_str());
    s.append(",\"key\":");
    s.append(debug_string(key).as_str());
    s.append("}");
    s
}

/// A sync progress tick as sent to the subscriber:
/// `{"phase":"<phase>","current":<n>,"total":<m>}` (the phase is not
/// escaped).
pub fn progress_json(phase: &str, current: u64, total: u64) -> (s: String)
    ensures
        s@ == "{\"phase\":\""@ + phase@ + "\",\"current\":"@ + decimal(current as nat) + ",\"total\":"@
            + decimal(total as nat) + "}"@,
{
    let mut s = concat("{\"phase\":\"", phase);
    s.append("\",\"current\":");
    s.append(u64_to_string(current).as_str());
    s.append(",\"total\":");
    s.append(u64_to_string(total).as_str());
    s.append("}");
    s
}

} // verus!
