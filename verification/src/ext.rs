//! Calls into outside crates (argon2, hkdf/sha2, chacha20poly1305, base64,
//! rand, chrono, serde_json, flate2) and into the parts of std that vstd leaves unspecified. Each item
//! here is trusted: Verus believes its contract without reading its body.

use base64::Engine;
use chrono::{Datelike, Timelike};
use chacha20poly1305::aead::{Aead, KeyInit, Payload};
use rand::RngCore;
use vstd::prelude::*;
use vstd::string::StringSliceAdditionalSpecFns;

verus! {

// ───────────────────────────── Argon2id ─────────────────────────────

/// Argon2id (version 0x13) output of `pwd` under `salt` with memory cost
/// `m_cost` KiB, `t_cost` passes, `p_cost` lanes and `out_len` bytes.
pub uninterp spec fn argon2id_output(pwd: Seq<char>, salt: Seq<u8>, m_cost: u32, t_cost: u32, p_cost: u32, out_len: nat) -> Seq<u8>;

/// The parameter ranges `argon2::Params::new` accepts: at least 8 KiB and
/// 8 KiB per lane, at least one pass, 1 to 0xFFFFFF lanes, and an output
/// of 4 to `u32::MAX` bytes.
pub open spec fn argon2_params_ok(m_cost: u32, t_cost: u32, p_cost: u32, out_len: nat) -> bool {
    &&& m_cost >= 8
    &&& m_cost >= 8 * p_cost
    &&& t_cost >= 1
    &&& 1 <= p_cost <= 0xFFFFFF
    &&& 4 <= out_len <= u32::MAX
}

/// `argon2::Params::new(m_cost, t_cost, p_cost, Some(out_len))`, then
/// `Argon2::new(Argon2id, V0x13, params).hash_password_into` into an
/// `out_len`-byte buffer. Claims (argon2 0.5.3 source, `Params::new` and
/// `verify_inputs`): it succeeds exactly when the parameters are in range,
/// the password has at most `u32::MAX` bytes and the salt 8 to `u32::MAX`
/// bytes; on success the output is the named Argon2id result, `out_len`
/// bytes long. The lane count is bounded by `requires` because
/// `Params::new` multiplies it by 8 before checking its range. The error
/// text is the crate's `Display`, prefixed with `argon2: `.
#[verifier::external_body]
pub(crate) fn argon2id_hash(pwd: &str, salt: &[u8], m_cost: u32, t_cost: u32, p_cost: u32, out_len: usize) -> (r: Result<Vec<u8>, String>)
    requires
        p_cost <= 0xFFFFFF,
    ensures
        argon2_params_ok(m_cost, t_cost, p_cost, out_len as nat) && 8 <= salt@.len() <= u32::MAX
            && pwd.spec_bytes().len() <= u32::MAX ==> r is Ok,
        r matches Ok(v) ==> v@ == argon2id_output(pwd@, salt@, m_cost, t_cost, p_cost, out_len as nat)
            && v@.len() == out_len,
{
    let params = argon2::Params::new(m_cost, t_cost, p_cost, Some(out_len)).map_err(|e| format!("argon2: {e}"))?;
    let a = argon2::Argon2::new(argon2::Algorithm::Argon2id, argon2::Version::V0x13, params);
    let mut out = vec![0u8; out_len];
    a.hash_password_into(pwd.as_bytes(), salt, &mut out).map_err(|e| format!("argon2: {e}"))?;
    Ok(out)
}

// ───────────────────────────── HKDF-SHA256 ─────────────────────────────

/// HKDF-SHA256 (RFC 5869) output keying material.
pub uninterp spec fn hkdf_sha256(salt: Seq<u8>, ikm: Seq<u8>, info: Seq<u8>, len: nat) -> Seq<u8>;

/// `hkdf::Hkdf::<sha2::Sha256>::new(Some(salt), ikm)` followed by
/// `expand(info, okm)` into a 32-byte buffer. Claims: the output is the
/// named HKDF result of salt, input keying material and info, 32 bytes
/// long. `expand` only fails above 255 * 32 bytes, so 32 always succeeds.
#[verifier::external_body]
pub(crate) fn hkdf_sha256_32(salt: &[u8], ikm: &[u8], info: &[u8]) -> (okm: [u8; 32])
    ensures
        okm@ == hkdf_sha256(salt@, ikm@, info@, 32),
{
    let hk = hkdf::Hkdf::<sha2::Sha256>::new(Some(salt), ikm);
    let mut okm = [0u8; 32];
    hk.expand(info, &mut okm).expect("32 bytes is within HKDF-SHA256 output limits");
    okm
}

// ───────────────────────── XChaCha20-Poly1305 ─────────────────────────

/// XChaCha20-Poly1305 ciphertext (body followed by the 16-byte tag).
pub uninterp spec fn xchacha_seal(key: Seq<u8>, nonce: Seq<u8>, msg: Seq<u8>, aad: Seq<u8>) -> Seq<u8>;

/// XChaCha20-Poly1305 decryption result (`None` when authentication fails).
pub uninterp spec fn xchacha_open(key: Seq<u8>, nonce: Seq<u8>, ct: Seq<u8>, aad: Seq<u8>) -> Option<
    Seq<u8>,
>;

/// Largest message the cipher accepts: fewer than `u32::MAX` 64-byte blocks.
pub open spec fn aead_msg_ok(len: nat) -> bool {
    len / 64 < u32::MAX
}

/// `XChaCha20Poly1305::new(key).encrypt(nonce, Payload { msg, aad })`.
/// Claims (chacha20poly1305 0.10 source): it fails exactly when the message
/// has `u32::MAX` or more 64-byte blocks; otherwise the ciphertext is the
/// named seal of key, nonce, message and AAD, 16 bytes longer than the
/// message, and (AEAD correctness, as the crate documents) it decrypts under
/// the same key, nonce and AAD to the message.
#[verifier::external_body]
pub(crate) fn xchacha_encrypt(key: &[u8; 32], nonce: &[u8; 24], msg: &[u8], aad: &[u8]) -> (r: Option<Vec<u8>>)
    ensures
        r is Some <==> aead_msg_ok(msg@.len()),
        r matches Some(c) ==> c@ == xchacha_seal(key@, nonce@, msg@, aad@) && c@.len() == msg@.len() + 16,
        r matches Some(c) ==> xchacha_open(key@, nonce@, c@, aad@) == Some(msg@),
{
    let cipher = chacha20poly1305::XChaCha20Poly1305::new(key.into());
    cipher.encrypt(chacha20poly1305::XNonce::from_slice(nonce), Payload { msg, aad }).ok()
}

/// `XChaCha20Poly1305::new(key).decrypt(nonce, Payload { msg: ct, aad })`.
/// Claims: the result is the named decryption of key, nonce, ciphertext and
/// AAD.
#[verifier::external_body]
pub(crate) fn xchacha_decrypt(key: &[u8; 32], nonce: &[u8; 24], ct: &[u8], aad: &[u8]) -> (r: Option<Vec<u8>>)
    ensures
        r matches Some(v) ==> xchacha_open(key@, nonce@, ct@, aad@) == Some(v@),
        r is None <==> xchacha_open(key@, nonce@, ct@, aad@) is None,
{
    let cipher = chacha20poly1305::XChaCha20Poly1305::new(key.into());
    cipher.decrypt(chacha20poly1305::XNonce::from_slice(nonce), Payload { msg: ct, aad }).ok()
}

// ───────────────────────────── base64 ─────────────────────────────

/// Standard-alphabet, padded base64 text of `bytes`.
pub uninterp spec fn b64_standard(bytes: Seq<u8>) -> Seq<char>;

/// Standard-alphabet, padded base64 decoding (`None` on malformed input).
pub uninterp spec fn b64_standard_decoded(text: Seq<char>) -> Option<Seq<u8>>;

/// URL-safe, unpadded base64 text of `bytes`.
pub uninterp spec fn b64_url(bytes: Seq<u8>) -> Seq<char>;

/// URL-safe, unpadded base64 decoding (`None` on malformed input).
pub uninterp spec fn b64_url_decoded(text: Seq<char>) -> Option<Seq<u8>>;

/// Inputs short enough for base64's output length to fit in `usize`.
pub open spec fn b64_encodable(len: nat) -> bool {
    len / 3 * 4 + 4 <= usize::MAX
}

/// `base64::engine::general_purpose::STANDARD.encode(bytes)`. Claims: the
/// text is the named standard encoding of the bytes, and the standard
/// decoder maps it back to the bytes. The crate panics only
/// when the output length overflows `usize`, which `requires` rules out.
#[verifier::external_body]
pub(crate) fn b64_standard_encode(bytes: &[u8]) -> (s: String)
    requires
        b64_encodable(bytes@.len()),
    ensures
        s@ == b64_standard(bytes@),
        b64_standard_decoded(s@) == Some(bytes@),
{
    base64::engine::general_purpose::STANDARD.encode(bytes)
}

/// `base64::engine::general_purpose::STANDARD.decode(text)`. Claims: the
/// result is the named standard decoding of the text. The error text is the
/// crate's `Display` of its `DecodeError`.
#[verifier::external_body]
pub(crate) fn b64_standard_decode(text: &str) -> (r: Result<Vec<u8>, String>)
    ensures
        r matches Ok(v) ==> b64_standard_decoded(text@) == Some(v@),
        r is Err <==> b64_standard_decoded(text@) is None,
{
    base64::engine::general_purpose::STANDARD.decode(text).map_err(|e| e.to_string())
}

/// `base64::engine::general_purpose::URL_SAFE_NO_PAD.encode(bytes)`. Claims:
/// the text is the named URL-safe unpadded encoding of the bytes, and the
/// matching decoder maps it back to the bytes.
#[verifier::external_body]
pub(crate) fn b64_url_encode(bytes: &[u8]) -> (s: String)
    requires
        b64_encodable(bytes@.len()),
    ensures
        s@ == b64_url(bytes@),
        b64_url_decoded(s@) == Some(bytes@),
{
    base64::engine::general_purpose::URL_SAFE_NO_PAD.encode(bytes)
}

/// `base64::engine::general_purpose::URL_SAFE_NO_PAD.decode(text)`. Claims:
/// the result is the named URL-safe unpadded decoding.
#[verifier::external_body]
pub(crate) fn b64_url_decode(text: &str) -> (r: Result<Vec<u8>, String>)
    ensures
        r matches Ok(v) ==> b64_url_decoded(text@) == Some(v@),
        r is Err <==> b64_url_decoded(text@) is None,
{
    base64::engine::general_purpose::URL_SAFE_NO_PAD.decode(text.as_bytes()).map_err(|e| e.to_string())
}

// ───────────────────────────── JSON ─────────────────────────────

/// The strings of a JSON array of strings, when the text is one.
pub uninterp spec fn json_string_array(text: Seq<char>) -> Option<Seq<Seq<char>>>;

/// `serde_json::from_str::<Vec<String>>`. Claims: the result is the named
/// decoding of the text (its strings in order), a function of the text
/// alone; `None` where serde_json reports an error.
#[verifier::external_body]
pub(crate) fn parse_json_string_array(text: &str) -> (r: Option<Vec<String>>)
    ensures
        match json_string_array(text@) {
            Some(v) => r matches Some(w) && w@.map_values(|s: String| s@) == v,
            None => r is None,
        },
{
    serde_json::from_str::<Vec<String>>(text).ok()
}

// ───────────────────────────── gzip ─────────────────────────────

/// The gzip stream flate2 writes for `bytes` at the default level.
pub uninterp spec fn gzip_bytes(bytes: Seq<u8>) -> Seq<u8>;

/// What `flate2::read::GzDecoder` read to the end yields for `bytes`:
/// the decoded data, or `None` where it reports an error (not gzip,
/// corrupt, truncated).
pub uninterp spec fn gunzip_bytes(bytes: Seq<u8>) -> Option<Seq<u8>>;

/// `flate2::write::GzEncoder` over a `Vec` at `Compression::default()`:
/// all of `data` written, then `finish`. Claims: it succeeds (writing into
/// a `Vec` cannot fail, and the in-memory deflate stream reports no error
/// for well-formed calls), the output is the named stream of the input, a
/// function of the input alone, and decoding it gives the input back (what
/// the decoder is for).
#[verifier::external_body]
pub(crate) fn gzip_compress(data: &[u8]) -> (r: Result<Vec<u8>, String>)
    ensures
        r is Ok,
        r matches Ok(v) ==> v@ == gzip_bytes(data@) && gunzip_bytes(v@) == Some(data@),
{
    let mut encoder = flate2::write::GzEncoder::new(Vec::new(), flate2::Compression::default());
    std::io::Write::write_all(&mut encoder, data).map_err(|e| e.to_string())?;
    encoder.finish().map_err(|e| e.to_string())
}

/// `flate2::read::GzDecoder` over `data`, read to the end. Claims: the
/// outcome is the named decoding of the input, a function of the input
/// alone (the decoder reads a slice, which never fails on its own): it
/// succeeds exactly when the name has a value, with that output. The
/// error text is the `io::Error`'s and is not claimed.
#[verifier::external_body]
pub(crate) fn gzip_decompress(data: &[u8]) -> (r: Result<Vec<u8>, String>)
    ensures
        match gunzip_bytes(data@) {
            Some(v) => r matches Ok(w) && w@ == v,
            None => r is Err,
        },
{
    let mut decoder = flate2::read::GzDecoder::new(data);
    let mut out = Vec::new();
    std::io::Read::read_to_end(&mut decoder, &mut out).map_err(|e| e.to_string())?;
    Ok(out)
}

// ───────────────────────────── UTF-8 ─────────────────────────────

/// Text of the `FromUtf8Error` std reports for invalid UTF-8 `bytes`.
pub uninterp spec fn utf8_error_text(bytes: Seq<u8>) -> Seq<char>;

/// `String::from_utf8`. Claims (std documentation): it succeeds exactly
/// when the bytes are valid UTF-8, and the string is then their decoding;
/// on failure the error's `Display` text is the named text of the bytes.
#[verifier::external_body]
pub(crate) fn utf8_string(bytes: Vec<u8>) -> (r: Result<String, String>)
    ensures
        r is Ok <==> vstd::utf8::valid_utf8(bytes@),
        r matches Ok(s) ==> s@ == vstd::utf8::decode_utf8(bytes@),
        r matches Err(e) ==> e@ == utf8_error_text(bytes@),
{
    String::from_utf8(bytes).map_err(|e| e.to_string())
}

/// The text of `bytes` with each invalid UTF-8 sequence replaced by U+FFFD.
pub uninterp spec fn utf8_lossy_text(bytes: Seq<u8>) -> Seq<char>;

/// `String::from_utf8_lossy(bytes).into_owned()`. Claims (std
/// documentation): the result is the named replacement decoding, a
/// function of the bytes alone; for valid UTF-8 it is the decoding itself.
#[verifier::external_body]
pub(crate) fn utf8_lossy(bytes: &[u8]) -> (r: String)
    ensures
        r@ == utf8_lossy_text(bytes@),
        vstd::utf8::valid_utf8(bytes@) ==> r@ == vstd::utf8::decode_utf8(bytes@),
{
    String::from_utf8_lossy(bytes).into_owned()
}

/// A text as `{:?}` prints it: quoted, with quotes, backslashes and
/// control characters escaped.
pub uninterp spec fn debug_quoted(text: Seq<char>) -> Seq<char>;

/// `format!("{:?}", text)` on a `str` (its `Debug`). Claims: the result
/// is the named quoted form, a function of the text alone.
#[verifier::external_body]
pub(crate) fn debug_string(text: &str) -> (r: String)
    ensures
        r@ == debug_quoted(text@),
{
    format!("{:?}", text)
}

// ───────────────────────────── case mapping ─────────────────────────────

/// Unicode lowercase mapping of a string (`str::to_lowercase`).
pub uninterp spec fn lowercase(s: Seq<char>) -> Seq<char>;

/// `s.to_lowercase()`. Claims: the result is the named lowercase mapping of
/// `s`, which depends on the characters of `s` alone.
#[verifier::external_body]
pub(crate) fn to_lowercase_string(s: &str) -> (r: String)
    ensures
        r@ == lowercase(s@),
{
    s.to_lowercase()
}

// ───────────────────────────── randomness ─────────────────────────────

/// `rand::thread_rng().fill_bytes` on a 16-byte buffer. Random: nothing is
/// promised about the bytes.
#[verifier::external_body]
pub(crate) fn random_16() -> (b: [u8; 16]) {
    let mut b = [0u8; 16];
    rand::thread_rng().fill_bytes(&mut b);
    b
}

/// `rand::thread_rng().fill_bytes` on a 24-byte buffer. Random: nothing is
/// promised about the bytes.
#[verifier::external_body]
pub(crate) fn random_24() -> (b: [u8; 24]) {
    let mut b = [0u8; 24];
    rand::thread_rng().fill_bytes(&mut b);
    b
}

/// `rand::rngs::OsRng.fill_bytes` on a 24-byte buffer (the operating
/// system's generator). Random: nothing is promised about the bytes.
#[verifier::external_body]
pub(crate) fn os_random_24() -> (b: [u8; 24]) {
    let mut b = [0u8; 24];
    rand::rngs::OsRng.fill_bytes(&mut b);
    b
}

// ───────────────────────────── time ─────────────────────────────

/// The UTC calendar fields (year, month, day, hour, minute, second,
/// nanosecond) of an RFC 3339 timestamp, when it parses.
pub uninterp spec fn rfc3339_utc_fields(text: Seq<char>) -> Option<(i32, u32, u32, u32, u32, u32, u32)>;

/// `chrono::DateTime::parse_from_rfc3339`, moved to UTC with
/// `with_timezone(&Utc)` and read through `Datelike` and `Timelike`.
/// Claims: the result is the named fields of the text, a function of the
/// text alone; when present the month is in 1..=12, the day in 1..=31, the
/// hour below 24, minute and second below 60 and the nanosecond below two
/// billion (a leap second), the ranges chrono documents.
#[verifier::external_body]
pub(crate) fn parse_rfc3339_utc(text: &str) -> (r: Option<(i32, u32, u32, u32, u32, u32, u32)>)
    ensures
        r == rfc3339_utc_fields(text@),
        r matches Some(f) ==> 1 <= f.1 <= 12 && 1 <= f.2 <= 31 && f.3 < 24 && f.4 < 60 && f.5 < 60 && f.6
            < 2_000_000_000,
{
    let dt = chrono::DateTime::parse_from_rfc3339(text).ok()?.with_timezone(&chrono::Utc);
    Some((dt.year(), dt.month(), dt.day(), dt.hour(), dt.minute(), dt.second(), dt.nanosecond()))
}


/// Milliseconds since the Unix epoch by `std::time::SystemTime` (0 if the
/// clock is before the epoch). Nothing is promised about the value.
#[verifier::external_body]
pub(crate) fn system_now_ms() -> (t: i64) {
    std::time::SystemTime::now()
        .duration_since(std::time::UNIX_EPOCH)
        .map(|d| d.as_millis() as i64)
        .unwrap_or(0)
}

} // verus!
