//! End-to-end encryption of sync payloads with XChaCha20-Poly1305.
//!
//! Format: `[1B version][24B nonce][ciphertext + 16B tag]`. The AAD (the
//! object path) is authenticated but not encrypted, so a ciphertext cannot
//! be moved to another path.

use vstd::prelude::*;
use crate::ext::{aead_msg_ok, os_random_24, xchacha_decrypt, xchacha_encrypt, xchacha_open, xchacha_seal};
use crate::decimal::decimal;
use crate::text::{concat, string_from_chars, u64_to_string};
use crate::wrap::array24;

verus! {

pub const VERSION: u8 = 1;
pub const NONCE_LEN: usize = 24;
/// Version byte, nonce and tag: the shortest well-formed ciphertext.
pub const MIN_LEN: usize = 41;

#[derive(Debug)]
pub enum CryptoError {
    EncryptFailed,
    DecryptFailed,
    InvalidFormat(String),
}

pub open spec fn crypto_error_message(e: CryptoError) -> Seq<char> {
    match e {
        CryptoError::EncryptFailed => "encryption failed"@,
        CryptoError::DecryptFailed => "decryption failed"@,
        CryptoError::InvalidFormat(m) => "invalid encrypted data: "@ + m@,
    }
}

impl CryptoError {
    /// The error's text (its `Display`).
    pub fn message(&self) -> (s: String)
        ensures
            s@ == crypto_error_message(*self),
    {
        match self {
            CryptoError::EncryptFailed => "encryption failed".to_owned(),
            CryptoError::DecryptFailed => "decryption failed".to_owned(),
            CryptoError::InvalidFormat(m) => concat("invalid encrypted data: ", m.as_str()),
        }
    }
}

/// Lowercase hexadecimal digit of `d` (below 16).
pub open spec fn hex_digit(d: int) -> char {
    if d < 10 {
        (d + 48) as char
    } else {
        (d + 87) as char
    }
}

/// A byte as two lowercase hexadecimal digits (`{:02x}`).
pub open spec fn hex2(b: u8) -> Seq<char> {
    seq![hex_digit((b / 16) as int), hex_digit((b % 16) as int)]
}

fn hex_digit_exec(d: u8) -> (c: char)
    requires
        d < 16,
    ensures
        c == hex_digit(d as int),
{
    if d < 10 {
        (d + 48) as char
    } else {
        (d + 87) as char
    }
}

fn hex_byte(b: u8) -> (s: String)
    ensures
        s@ == hex2(b),
{
    let v: Vec<char> = vec![hex_digit_exec(b / 16), hex_digit_exec(b % 16)];
    assert(v@ =~= hex2(b));
    string_from_chars(&v)
}

/// What decrypting `data` under `key` and `aad` concludes.
pub enum DecryptVerdict {
    InvalidFormat,
    DecryptFailed,
    Plain(Seq<u8>),
}

pub open spec fn decrypt_spec(data: Seq<u8>, key: Seq<u8>, aad: Seq<u8>) -> DecryptVerdict {
    if data.len() < MIN_LEN || data[0] != VERSION {
        DecryptVerdict::InvalidFormat
    } else {
        match xchacha_open(key, data.subrange(1, 25), data.skip(25), aad) {
            Some(p) => DecryptVerdict::Plain(p),
            None => DecryptVerdict::DecryptFailed,
        }
    }
}

/// Encrypt `plaintext` under `key`, binding `aad`, with a fresh nonce.
pub fn encrypt(plaintext: &[u8], key: &[u8; 32], aad: &[u8]) -> (r: Result<Vec<u8>, CryptoError>)
    ensures
        !aead_msg_ok(plaintext@.len()) ==> r matches Err(CryptoError::EncryptFailed),
        aead_msg_ok(plaintext@.len()) ==> (r matches Ok(out) && out@.len() == plaintext@.len() + MIN_LEN
            && out@[0] == VERSION
            && out@.skip(25) == xchacha_seal(key@, out@.subrange(1, 25), plaintext@, aad@)
            // Law: decrypting with the same key and AAD gives the plaintext back.
            && decrypt_spec(out@, key@, aad@) == DecryptVerdict::Plain(plaintext@)),
{
    let nonce = os_random_24();
    let ciphertext = match xchacha_encrypt(key, &nonce, plaintext, aad) {
        Some(c) => c,
        None => return Err(CryptoError::EncryptFailed),
    };
    let mut output: Vec<u8> = Vec::new();
    output.push(VERSION);
    let mut i: usize = 0;
    while i < NONCE_LEN
        invariant
            0 <= i <= NONCE_LEN,
            output@ == seq![VERSION] + nonce@.take(i as int),
        decreases NONCE_LEN - i,
    {
        output.push(nonce[i]);
        i = i + 1;
        proof {
            assert(nonce@.take(i as int) =~= nonce@.take(i - 1).push(nonce@[i - 1]));
        }
    }
    let mut j: usize = 0;
    while j < ciphertext.len()
        invariant
            0 <= j <= ciphertext.len(),
            output@ == seq![VERSION] + nonce@ + ciphertext@.take(j as int),
        decreases ciphertext.len() - j,
    {
        output.push(ciphertext[j]);
        j = j + 1;
        proof {
            assert(ciphertext@.take(j as int) =~= ciphertext@.take(j - 1).push(ciphertext@[j - 1]));
        }
    }
    proof {
        assert(nonce@.take(24) =~= nonce@);
        assert(ciphertext@.take(j as int) =~= ciphertext@);
        assert(output@.subrange(1, 25) =~= nonce@);
        assert(output@.skip(25) =~= ciphertext@);
    }
    Ok(output)
}

/// Decrypt data produced by `encrypt`.
pub fn decrypt(data: &[u8], key: &[u8; 32], aad: &[u8]) -> (r: Result<Vec<u8>, CryptoError>)
    ensures
        match decrypt_spec(data@, key@, aad@) {
            DecryptVerdict::InvalidFormat => r matches Err(CryptoError::InvalidFormat(m)) && m@ == (if data@.len() < MIN_LEN {
                "data too short: "@ + decimal(data@.len()) + " bytes, need at least 41"@
            } else {
                "unsupported version: 0x"@ + hex2(data@[0])
            }),
            DecryptVerdict::DecryptFailed => r matches Err(CryptoError::DecryptFailed),
            DecryptVerdict::Plain(p) => r matches Ok(v) && v@ == p,
        },
{
    if data.len() < MIN_LEN {
        let n = u64_to_string(data.len() as u64);
        let a = concat("data too short: ", n.as_str());
        return Err(CryptoError::InvalidFormat(concat(a.as_str(), " bytes, need at least 41")));
    }
    if data[0] != VERSION {
        let h = hex_byte(data[0]);
        return Err(CryptoError::InvalidFormat(concat("unsupported version: 0x", h.as_str())));
    }
    let nonce_slice = vstd::slice::slice_subrange(data, 1, 25);
    let nonce = array24(nonce_slice);
    let ciphertext = vstd::slice::slice_subrange(data, 25, data.len());
    assert(ciphertext@ =~= data@.skip(25));
    match xchacha_decrypt(key, &nonce, ciphertext, aad) {
        Some(p) => Ok(p),
        None => Err(CryptoError::DecryptFailed),
    }
}

} // verus!
