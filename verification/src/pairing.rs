//! PIN-encrypted payload envelope for pairing a mobile device with the
//! desktop app.
//!
//! A 6-digit PIN has about 20 bits of entropy, so no KDF resists offline
//! brute force; the envelope is shown briefly and the PIN is displayed
//! beside (never inside) the QR code. HKDF-SHA256 derives the key and
//! XChaCha20-Poly1305 seals the payload, bound to the AAD `shibei-pair-v1`.
//!
//! Wire format (JSON, produced outside this crate from [`Envelope`]):
//! `{ "v": 1, "salt": b64url(16B), "nonce": b64url(24B), "ct": b64url }`,
//! base64 URL-safe without padding.

use vstd::prelude::*;
use crate::decimal::{all_digits, is_digit};
use crate::ext::{
    b64_url, b64_url_decode, b64_url_decoded, b64_url_encode, hkdf_sha256, hkdf_sha256_32,
    random_16, random_24, xchacha_decrypt, xchacha_encrypt, xchacha_open, xchacha_seal,
};
use crate::decimal::decimal;
use crate::text::{chars_of, concat, u64_to_string};
use crate::wrap::{array24};
use vstd::string::StringSliceAdditionalSpecFns;

verus! {

/// Maximum raw (unencrypted) payload size, in bytes, so the QR code stays
/// easily scannable.
pub const MAX_PAYLOAD_BYTES: usize = 512;

pub const ENVELOPE_VERSION: u8 = 1;
pub const SALT_LEN: usize = 16;
pub const NONCE_LEN: usize = 24;

#[derive(Debug)]
pub enum PairingError {
    InvalidPin,
    PayloadTooLarge { size: usize, limit: usize },
    InvalidEnvelope(String),
    UnsupportedVersion(u8),
    DecryptFailed,
    Crypto(String),
}

/// The error's text (its `Display`).
pub open spec fn pairing_error_message(e: PairingError) -> Seq<char> {
    match e {
        PairingError::InvalidPin => "PIN must be exactly 6 digits"@,
        PairingError::PayloadTooLarge { size, limit } => "payload exceeds "@ + decimal(limit as nat)
            + " bytes (got "@ + decimal(size as nat) + ")"@,
        PairingError::InvalidEnvelope(m) => "envelope JSON malformed: "@ + m@,
        PairingError::UnsupportedVersion(v) => "unsupported envelope version: "@ + decimal(v as nat),
        PairingError::DecryptFailed => "decryption failed (wrong PIN or tampered payload)"@,
        PairingError::Crypto(m) => "internal crypto error: "@ + m@,
    }
}

impl PairingError {
    pub fn message(&self) -> (s: String)
        ensures
            s@ == pairing_error_message(*self),
    {
        match self {
            PairingError::InvalidPin => "PIN must be exactly 6 digits".to_owned(),
            PairingError::PayloadTooLarge { size, limit } => {
                let l = u64_to_string(*limit as u64);
                let z = u64_to_string(*size as u64);
                let a = concat("payload exceeds ", l.as_str());
                let b = concat(a.as_str(), " bytes (got ");
                let c = concat(b.as_str(), z.as_str());
                concat(c.as_str(), ")")
            },
            PairingError::InvalidEnvelope(m) => concat("envelope JSON malformed: ", m.as_str()),
            PairingError::UnsupportedVersion(v) => {
                let d = u64_to_string(*v as u64);
                concat("unsupported envelope version: ", d.as_str())
            },
            PairingError::DecryptFailed => "decryption failed (wrong PIN or tampered payload)".to_owned(),
            PairingError::Crypto(m) => concat("internal crypto error: ", m.as_str()),
        }
    }
}

/// The envelope's fields, before JSON encoding.
#[derive(Debug)]
pub struct Envelope {
    pub v: u8,
    pub salt: String,
    pub nonce: String,
    pub ct: String,
}

/// A pairing PIN is exactly six ASCII digits.
pub open spec fn is_pairing_pin(pin: Seq<char>) -> bool {
    pin.len() == 6 && all_digits(pin)
}

/// Law: a pairing PIN is exactly six ASCII digits.
pub proof fn lemma_pairing_pin_format(pin: Seq<char>)
    ensures
        is_pairing_pin(pin) <==> (pin.len() == 6 && forall|i: int| 0 <= i < pin.len() ==> '0' <= #[trigger] pin[i] <= '9'),
{
}

pub open spec fn pair_info() -> Seq<u8> {
    "shibei-pair-v1".spec_bytes()
}

pub open spec fn pair_aad() -> Seq<u8> {
    "shibei-pair-v1".spec_bytes()
}

/// The envelope key of `pin` under `salt`.
pub open spec fn pair_key(pin_bytes: Seq<u8>, salt: Seq<u8>) -> Seq<u8> {
    hkdf_sha256(salt, pin_bytes, pair_info(), 32)
}

/// What decrypting an envelope concludes.
pub enum PairVerdict {
    InvalidPin,
    InvalidEnvelope,
    UnsupportedVersion(u8),
    DecryptFailed,
    Plain(Seq<u8>),
}

/// Decrypting the envelope fields `(v, salt, nonce, ct)` with `pin`.
pub open spec fn decrypt_spec(pin: Seq<char>, pin_bytes: Seq<u8>, env: Option<(u8, Seq<char>, Seq<char>, Seq<char>)>) -> PairVerdict {
    if !is_pairing_pin(pin) {
        PairVerdict::InvalidPin
    } else {
        match env {
            None => PairVerdict::InvalidEnvelope,
            Some((v, salt_text, nonce_text, ct_text)) => if v != ENVELOPE_VERSION {
                PairVerdict::UnsupportedVersion(v)
            } else {
                match (b64_url_decoded(salt_text), b64_url_decoded(nonce_text), b64_url_decoded(ct_text)) {
                    (Some(salt), Some(nonce), Some(ct)) => if salt.len() != SALT_LEN || nonce.len() != NONCE_LEN {
                        PairVerdict::InvalidEnvelope
                    } else {
                        match xchacha_open(pair_key(pin_bytes, salt), nonce, ct, pair_aad()) {
                            Some(p) => PairVerdict::Plain(p),
                            None => PairVerdict::DecryptFailed,
                        }
                    },
                    _ => PairVerdict::InvalidEnvelope,
                }
            },
        }
    }
}

pub open spec fn envelope_fields(e: Envelope) -> (u8, Seq<char>, Seq<char>, Seq<char>) {
    (e.v, e.salt@, e.nonce@, e.ct@)
}

fn validate_pin(pin: &str) -> (r: Result<(), PairingError>)
    ensures
        r is Ok <==> is_pairing_pin(pin@),
        r is Ok <==> (pin@.len() == 6 && forall|i: int| 0 <= i < pin@.len() ==> '0' <= #[trigger] pin@[i] <= '9'),
        r is Err ==> r matches Err(PairingError::InvalidPin),
{
    let cs = chars_of(pin);
    if cs.len() != 6 {
        return Err(PairingError::InvalidPin);
    }
    let mut i: usize = 0;
    while i < cs.len()
        invariant
            0 <= i <= cs.len(),
            cs@ == pin@,
            forall|j: int| 0 <= j < i ==> is_digit(#[trigger] cs@[j]),
        decreases cs.len() - i,
    {
        let c = cs[i];
        if !('0' <= c && c <= '9') {
            return Err(PairingError::InvalidPin);
        }
        i = i + 1;
    }
    Ok(())
}

fn derive_key(pin: &str, salt: &[u8]) -> (k: [u8; 32])
    ensures
        k@ == pair_key(pin.spec_bytes(), salt@),
{
    hkdf_sha256_32(salt, pin.as_bytes(), "shibei-pair-v1".as_bytes())
}

/// Encrypt `plain` under `pin` with a fresh random salt and nonce.
pub fn encrypt_payload(pin: &str, plain: &[u8]) -> (r: Result<Envelope, PairingError>)
    ensures
        !is_pairing_pin(pin@) ==> r matches Err(PairingError::InvalidPin),
        is_pairing_pin(pin@) && plain@.len() > MAX_PAYLOAD_BYTES ==> (r matches Err(
            PairingError::PayloadTooLarge { size, limit },
        ) && size == plain@.len() && limit == MAX_PAYLOAD_BYTES),
        is_pairing_pin(pin@) && plain@.len() <= MAX_PAYLOAD_BYTES ==> (r matches Ok(env)
            && env.v == ENVELOPE_VERSION
            && (exists|salt: Seq<u8>, nonce: Seq<u8>|
                salt.len() == SALT_LEN && nonce.len() == NONCE_LEN && env.salt@ == b64_url(salt)
                    && env.nonce@ == b64_url(nonce) && env.ct@ == b64_url(
                    xchacha_seal(pair_key(pin.spec_bytes(), salt), nonce, plain@, pair_aad()),
                ))
            // Law: the envelope decrypts with the same PIN to the payload.
            && decrypt_spec(pin@, pin.spec_bytes(), Some(envelope_fields(env))) == PairVerdict::Plain(plain@)),
{
    validate_pin(pin)?;
    if plain.len() > MAX_PAYLOAD_BYTES {
        return Err(PairingError::PayloadTooLarge { size: plain.len(), limit: MAX_PAYLOAD_BYTES });
    }
    let salt = random_16();
    let nonce = random_24();
    let key = derive_key(pin, &salt);
    let ct = match xchacha_encrypt(&key, &nonce, plain, "shibei-pair-v1".as_bytes()) {
        Some(c) => c,
        None => return Err(PairingError::Crypto("aead::Error".to_owned())),
    };
    let env = Envelope {
        v: ENVELOPE_VERSION,
        salt: b64_url_encode(&salt),
        nonce: b64_url_encode(&nonce),
        ct: b64_url_encode(ct.as_slice()),
    };
    Ok(env)
}

/// Decrypt an envelope produced by `encrypt_payload`. `envelope` is the
/// result of parsing the envelope JSON (its error text on failure); the PIN
/// is checked before the parse result is looked at.
pub fn decrypt_payload(pin: &str, envelope: Result<Envelope, String>) -> (r: Result<Vec<u8>, PairingError>)
    ensures
        match decrypt_spec(
            pin@,
            pin.spec_bytes(),
            match envelope {
                Ok(e) => Some(envelope_fields(e)),
                Err(_) => None,
            },
        ) {
            PairVerdict::InvalidPin => r matches Err(PairingError::InvalidPin),
            PairVerdict::InvalidEnvelope => r matches Err(PairingError::InvalidEnvelope(_)),
            PairVerdict::UnsupportedVersion(v) => r matches Err(PairingError::UnsupportedVersion(w)) && w == v,
            PairVerdict::DecryptFailed => r matches Err(PairingError::DecryptFailed),
            PairVerdict::Plain(p) => r matches Ok(v) && v@ == p,
        },
        is_pairing_pin(pin@) ==> (envelope matches Err(m) ==> (r matches Err(
            PairingError::InvalidEnvelope(x),
        ) && x@ == m@)),
{
    validate_pin(pin)?;
    let env = match envelope {
        Ok(e) => e,
        Err(msg) => return Err(PairingError::InvalidEnvelope(msg)),
    };
    if env.v != ENVELOPE_VERSION {
        return Err(PairingError::UnsupportedVersion(env.v));
    }
    let salt = match b64_url_decode(env.salt.as_str()) {
        Ok(b) => b,
        Err(e) => return Err(PairingError::InvalidEnvelope(concat("salt: ", e.as_str()))),
    };
    let nonce_bytes = match b64_url_decode(env.nonce.as_str()) {
        Ok(b) => b,
        Err(e) => return Err(PairingError::InvalidEnvelope(concat("nonce: ", e.as_str()))),
    };
    let ct = match b64_url_decode(env.ct.as_str()) {
        Ok(b) => b,
        Err(e) => return Err(PairingError::InvalidEnvelope(concat("ct: ", e.as_str()))),
    };
    if salt.len() != SALT_LEN {
        let n = u64_to_string(salt.len() as u64);
        return Err(PairingError::InvalidEnvelope(concat("salt length: expected 16, got ", n.as_str())));
    }
    if nonce_bytes.len() != NONCE_LEN {
        let n = u64_to_string(nonce_bytes.len() as u64);
        return Err(PairingError::InvalidEnvelope(concat("nonce length: expected 24, got ", n.as_str())));
    }
    let key = derive_key(pin, salt.as_slice());
    let nonce = array24(nonce_bytes.as_slice());
    match xchacha_decrypt(&key, &nonce, ct.as_slice(), "shibei-pair-v1".as_bytes()) {
        Some(p) => Ok(p),
        None => Err(PairingError::DecryptFailed),
    }
}

} // verus!
