//! PIN key-encryption key (Argon2id then HKDF-SHA256) and XChaCha20-Poly1305
//! wrapping of the 32-byte master key.
//!
//! Blob shape: `{ "version": 1, "nonce": base64(24B), "ct": base64(32B + 16B tag) }`.
//! The AAD is the fixed constant `shibei-mk-v1`.

use vstd::prelude::*;
use crate::ext::{
    aead_msg_ok, b64_standard, b64_standard_decode,
    b64_standard_decoded, b64_standard_encode, hkdf_sha256, hkdf_sha256_32, random_24,
    xchacha_decrypt, xchacha_encrypt, xchacha_open, xchacha_seal,
};
use crate::mobile_lock::LockError;
use crate::pin::{argon2_pin, argon2_pin_hash};
use crate::text::{concat, u64_to_string};
use vstd::string::StringSliceAdditionalSpecFns;

verus! {

pub const MK_LEN: usize = 32;
pub const KEK_LEN: usize = 32;
pub const NONCE_LEN: usize = 24;

#[derive(Debug)]
pub struct WrappedMkBlob {
    pub version: u32,
    pub nonce: String,
    pub ct: String,
}

/// The AAD every wrapped master key is bound to.
pub open spec fn mk_aad() -> Seq<u8> {
    "shibei-mk-v1".spec_bytes()
}

/// The HKDF info string separating the KEK from the stored PIN hash.
pub open spec fn kek_info() -> Seq<u8> {
    "shibei-mobile-lock-v1".spec_bytes()
}

/// The key-encryption key of `pin` under `salt`.
pub open spec fn kek_spec(pin: Seq<char>, salt: Seq<u8>) -> Seq<u8> {
    hkdf_sha256(salt, argon2_pin(pin, salt), kek_info(), 32)
}

/// What unwrapping a blob with the given fields under `kek` concludes.
pub enum UnwrapVerdict {
    Corrupted,
    WrongKey,
    Unwrapped(Seq<u8>),
}

pub open spec fn unwrap_spec(kek: Seq<u8>, version: u32, nonce_text: Seq<char>, ct_text: Seq<char>) -> UnwrapVerdict {
    if version != 1 {
        UnwrapVerdict::Corrupted
    } else {
        match b64_standard_decoded(nonce_text) {
            None => UnwrapVerdict::Corrupted,
            Some(nonce) => if nonce.len() != NONCE_LEN {
                UnwrapVerdict::Corrupted
            } else {
                match b64_standard_decoded(ct_text) {
                    None => UnwrapVerdict::Corrupted,
                    Some(ct) => match xchacha_open(kek, nonce, ct, mk_aad()) {
                        None => UnwrapVerdict::WrongKey,
                        Some(pt) => if pt.len() != MK_LEN {
                            UnwrapVerdict::Corrupted
                        } else {
                            UnwrapVerdict::Unwrapped(pt)
                        },
                    },
                }
            },
        }
    }
}

/// Derive the PIN-KEK from a raw PIN and the salt recovered from the PIN
/// hash blob: Argon2id once, then HKDF-SHA256 so the KEK never leaks
/// through the stored hash.
pub fn derive_kek(pin: &str, salt: &[u8; 16]) -> (r: Result<[u8; 32], LockError>)
    ensures
        pin.spec_bytes().len() <= u32::MAX ==> (r matches Ok(k) && k@ == kek_spec(pin@, salt@)),
        r is Err ==> r matches Err(LockError::Corrupted(_)),
{
    let ikm = match argon2_pin_hash(pin, salt) {
        Ok(v) => v,
        Err(e) => return Err(LockError::Corrupted(e)),
    };
    let info = "shibei-mobile-lock-v1".as_bytes();
    let kek = hkdf_sha256_32(salt, ikm.as_slice(), info);
    Ok(kek)
}

/// Law: the key-encryption key depends on the PIN and salt alone.
pub proof fn lemma_kek_deterministic(pin1: Seq<char>, salt1: Seq<u8>, pin2: Seq<char>, salt2: Seq<u8>)
    requires
        pin1 == pin2,
        salt1 == salt2,
    ensures
        kek_spec(pin1, salt1) == kek_spec(pin2, salt2),
{
}

/// Wrap the master key under `kek` with a fresh random nonce.
pub fn wrap_mk(kek: &[u8; 32], mk: &[u8; 32]) -> (r: Result<WrappedMkBlob, LockError>)
    ensures
        r matches Ok(blob) && blob.version == 1 && (exists|nonce: Seq<u8>|
            nonce.len() == NONCE_LEN && blob.nonce@ == b64_standard(nonce) && blob.ct@
                == b64_standard(xchacha_seal(kek@, nonce, mk@, mk_aad())))
            // Law: the blob unwraps under the same key to the same master key.
            && unwrap_spec(kek@, blob.version, blob.nonce@, blob.ct@) == UnwrapVerdict::Unwrapped(mk@),
{
    let nonce = random_24();
    let aad = "shibei-mk-v1".as_bytes();
    let ct = match xchacha_encrypt(kek, &nonce, mk, aad) {
        Some(c) => c,
        None => return Err(LockError::Corrupted("seal: aead::Error".to_owned())),
    };
    let nonce_text = b64_standard_encode(&nonce);
    let ct_text = b64_standard_encode(ct.as_slice());
    Ok(WrappedMkBlob { version: 1, nonce: nonce_text, ct: ct_text })
}

/// Unwrap the master key from a blob written by `wrap_mk`. A failed
/// authentication is reported as a wrong PIN.
pub fn unwrap_mk(kek: &[u8; 32], blob: &WrappedMkBlob) -> (r: Result<[u8; 32], LockError>)
    ensures
        match unwrap_spec(kek@, blob.version, blob.nonce@, blob.ct@) {
            UnwrapVerdict::Corrupted => r matches Err(LockError::Corrupted(_)),
            UnwrapVerdict::WrongKey => r matches Err(LockError::WrongPin),
            UnwrapVerdict::Unwrapped(mk) => r matches Ok(k) && k@ == mk,
        },
{
    if blob.version != 1 {
        return Err(LockError::Corrupted(concat("mk blob version ", u64_to_string(blob.version as u64).as_str())));
    }
    let nonce_bytes = match b64_standard_decode(blob.nonce.as_str()) {
        Ok(b) => b,
        Err(e) => return Err(LockError::Corrupted(concat("nonce b64: ", e.as_str()))),
    };
    if nonce_bytes.len() != NONCE_LEN {
        return Err(LockError::Corrupted(concat("nonce len ", u64_to_string(nonce_bytes.len() as u64).as_str())));
    }
    let ct = match b64_standard_decode(blob.ct.as_str()) {
        Ok(b) => b,
        Err(e) => return Err(LockError::Corrupted(concat("ct b64: ", e.as_str()))),
    };
    let nonce = array24(nonce_bytes.as_slice());
    let aad = "shibei-mk-v1".as_bytes();
    let pt = match xchacha_decrypt(kek, &nonce, ct.as_slice(), aad) {
        Some(p) => p,
        None => return Err(LockError::WrongPin),
    };
    if pt.len() != MK_LEN {
        return Err(LockError::Corrupted(concat("pt len ", u64_to_string(pt.len() as u64).as_str())));
    }
    Ok(array32(pt.as_slice()))
}

/// Copies a 24-byte slice into an array.
pub fn array24(s: &[u8]) -> (a: [u8; 24])
    requires
        s@.len() == 24,
    ensures
        a@ == s@,
{
    let mut a = [0u8; 24];
    let mut i: usize = 0;
    while i < 24
        invariant
            0 <= i <= 24,
            s@.len() == 24,
            forall|j: int| 0 <= j < i ==> a@[j] == s@[j],
        decreases 24 - i,
    {
        a[i] = s[i];
        i = i + 1;
    }
    assert(a@ =~= s@);
    a
}

/// Copies a 32-byte slice into an array.
pub fn array32(s: &[u8]) -> (a: [u8; 32])
    requires
        s@.len() == 32,
    ensures
        a@ == s@,
{
    let mut a = [0u8; 32];
    let mut i: usize = 0;
    while i < 32
        invariant
            0 <= i <= 32,
            s@.len() == 32,
            forall|j: int| 0 <= j < i ==> a@[j] == s@[j],
        decreases 32 - i,
    {
        a[i] = s[i];
        i = i + 1;
    }
    assert(a@ =~= s@);
    a
}

} // verus!
