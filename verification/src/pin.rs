//! PIN Argon2id hashing and verification.
//!
//! The hash blob has shape `{ "version": 1, "salt": base64(16B),
//! "hash": base64(32B) }`. Salt and raw hash are stored (not a PHC string)
//! because the key-wrapping path needs the salt back verbatim.

use vstd::prelude::*;
use crate::decimal::{all_digits, is_digit};
use crate::ext::{argon2_params_ok, argon2id_hash, argon2id_output, b64_standard, b64_standard_decode, b64_standard_decoded, b64_standard_encode, random_16};
use crate::mobile_lock::LockError;
use crate::text::{chars_of, concat, u64_to_string};
use vstd::string::StringSliceAdditionalSpecFns;

verus! {

pub const SALT_LEN: usize = 16;
pub const HASH_LEN: usize = 32;

/// Argon2id cost of PIN hashing and key derivation: 19 MiB of memory,
/// two passes, one lane.
pub const ARGON2_M_COST_KIB: u32 = 19456;
pub const ARGON2_T_COST: u32 = 2;
pub const ARGON2_P_COST: u32 = 1;

/// The 32-byte Argon2id output of `pwd` under `salt` at the PIN costs.
pub open spec fn argon2_pin(pwd: Seq<char>, salt: Seq<u8>) -> Seq<u8> {
    argon2id_output(pwd, salt, ARGON2_M_COST_KIB, ARGON2_T_COST, ARGON2_P_COST, 32)
}

/// Argon2id at the PIN costs into 32 bytes: it succeeds whenever the salt
/// has 8 to `u32::MAX` bytes and the password at most `u32::MAX` bytes.
pub(crate) fn argon2_pin_hash(pwd: &str, salt: &[u8]) -> (r: Result<Vec<u8>, String>)
    ensures
        8 <= salt@.len() <= u32::MAX && pwd.spec_bytes().len() <= u32::MAX ==> r is Ok,
        r matches Ok(v) ==> v@ == argon2_pin(pwd@, salt@) && v@.len() == 32,
{
    assert(argon2_params_ok(ARGON2_M_COST_KIB, ARGON2_T_COST, ARGON2_P_COST, 32));
    argon2id_hash(pwd, salt, ARGON2_M_COST_KIB, ARGON2_T_COST, ARGON2_P_COST, HASH_LEN)
}

#[derive(Debug)]
pub struct PinHashBlob {
    pub version: u32,
    pub salt: String,
    pub hash: String,
}

/// A lock-screen PIN is exactly four ASCII digits.
pub open spec fn is_valid_pin(pin: Seq<char>) -> bool {
    pin.len() == 4 && all_digits(pin)
}

/// Law: a lock-screen PIN is exactly four ASCII digits.
pub proof fn lemma_lock_pin_format(pin: Seq<char>)
    ensures
        is_valid_pin(pin) <==> (pin.len() == 4 && forall|i: int| 0 <= i < pin.len() ==> '0' <= #[trigger] pin[i] <= '9'),
{
}

/// What checking a PIN against a stored hash blob concludes.
pub enum PinVerdict {
    BadFormat,
    Corrupted,
    Wrong,
    /// The PIN matches; carries the stored salt.
    Verified(Seq<u8>),
}

/// Checking `pin` against a blob with the given version, salt text and
/// hash text.
pub open spec fn verify_pin_spec(pin: Seq<char>, version: u32, salt_text: Seq<char>, hash_text: Seq<char>) -> PinVerdict {
    if !is_valid_pin(pin) {
        PinVerdict::BadFormat
    } else if version != 1 {
        PinVerdict::Corrupted
    } else {
        match (b64_standard_decoded(salt_text), b64_standard_decoded(hash_text)) {
            (Some(salt), Some(hash)) => if salt.len() != SALT_LEN || hash.len() != HASH_LEN {
                PinVerdict::Corrupted
            } else if argon2_pin(pin, salt) == hash {
                PinVerdict::Verified(salt)
            } else {
                PinVerdict::Wrong
            },
            _ => PinVerdict::Corrupted,
        }
    }
}

pub fn validate_pin(pin: &str) -> (r: Result<(), LockError>)
    ensures
        r is Ok <==> is_valid_pin(pin@),
        r is Ok <==> (pin@.len() == 4 && forall|i: int| 0 <= i < pin@.len() ==> '0' <= #[trigger] pin@[i] <= '9'),
        r is Err ==> r matches Err(LockError::PinFormat),
{
    let cs = chars_of(pin);
    if cs.len() != 4 {
        return Err(LockError::PinFormat);
    }
    let mut i: usize = 0;
    while i < cs.len()
        invariant
            0 <= i <= cs.len(),
            cs@ == pin@,
            forall|j: int| 0 <= j < i ==> is_digit(#[trigger] cs@[j]),
        decreases cs.len() - i,
    {
        let c = cs[i];
        if !('0' <= c && c <= '9') {
            return Err(LockError::PinFormat);
        }
        i = i + 1;
    }
    Ok(())
}

/// Byte-wise equality that inspects every byte once lengths agree.
pub fn constant_time_eq(a: &[u8], b: &[u8]) -> (r: bool)
    ensures
        r == (a@ == b@),
{
    if a.len() != b.len() {
        return false;
    }
    let mut acc: u8 = 0;
    let mut i: usize = 0;
    while i < a.len()
        invariant
            0 <= i <= a.len(),
            a.len() == b.len(),
            acc == 0 <==> forall|j: int| 0 <= j < i ==> a@[j] == b@[j],
        decreases a.len() - i,
    {
        let x = a[i];
        let y = b[i];
        let old_acc = acc;
        acc = acc | (x ^ y);
        assert((old_acc | (x ^ y)) == 0 <==> (old_acc == 0 && x == y)) by (bit_vector);
        i = i + 1;
    }
    proof {
        if acc == 0 {
            assert(a@ =~= b@);
        }
    }
    acc == 0
}

pub proof fn lemma_pin_bytes(pin: &str)
    requires
        is_valid_pin(pin@),
    ensures
        pin.spec_bytes().len() == 4,
{
    assert(vstd::utf8::is_ascii_chars(pin@)) by {
        assert forall|i: int| 0 <= i < pin@.len() implies '\0' <= #[trigger] pin@[i] <= '\u{7f}' by {
            assert(is_digit(pin@[i]));
        }
    }
    vstd::utf8::is_ascii_chars_encode_utf8(pin@);
}

/// Hash a PIN with a freshly sampled salt. Returns the hash blob and the
/// salt (so the caller can derive the key-encryption key without a second
/// Argon2 pass).
pub fn hash_pin(pin: &str) -> (r: Result<(PinHashBlob, [u8; 16]), LockError>)
    ensures
        !is_valid_pin(pin@) ==> r matches Err(LockError::PinFormat),
        is_valid_pin(pin@) ==> (r matches Ok((blob, salt)) && blob.version == 1
            && blob.salt@ == b64_standard(salt@)
            && blob.hash@ == b64_standard(argon2_pin(pin@, salt@))
            // Law: the blob verifies against the PIN it was made from.
            && verify_pin_spec(pin@, blob.version, blob.salt@, blob.hash@) == PinVerdict::Verified(salt@)),
{
    validate_pin(pin)?;
    proof {
        lemma_pin_bytes(pin);
    }
    let salt = random_16();
    let hash = match argon2_pin_hash(pin, &salt) {
        Ok(h) => h,
        Err(e) => return Err(LockError::Corrupted(e)),
    };
    let salt_text = b64_standard_encode(&salt);
    let hash_text = b64_standard_encode(hash.as_slice());
    let blob = PinHashBlob { version: 1, salt: salt_text, hash: hash_text };
    Ok((blob, salt))
}

/// Verify a candidate PIN against a hash blob written by `hash_pin`.
/// Returns the salt on success.
pub fn verify_pin(pin: &str, blob: &PinHashBlob) -> (r: Result<[u8; 16], LockError>)
    ensures
        match verify_pin_spec(pin@, blob.version, blob.salt@, blob.hash@) {
            PinVerdict::BadFormat => r matches Err(LockError::PinFormat),
            PinVerdict::Corrupted => r matches Err(LockError::Corrupted(_)),
            PinVerdict::Wrong => r matches Err(LockError::WrongPin),
            PinVerdict::Verified(salt) => r matches Ok(s) && s@ == salt,
        },
{
    validate_pin(pin)?;
    proof {
        lemma_pin_bytes(pin);
    }
    if blob.version != 1 {
        return Err(LockError::Corrupted(concat("unsupported pin_hash version ", u64_to_string(blob.version as u64).as_str())));
    }
    let salt_bytes = match b64_standard_decode(blob.salt.as_str()) {
        Ok(b) => b,
        Err(e) => return Err(LockError::Corrupted(concat("salt b64: ", e.as_str()))),
    };
    if salt_bytes.len() != SALT_LEN {
        return Err(LockError::Corrupted(concat("salt len ", u64_to_string(salt_bytes.len() as u64).as_str())));
    }
    let expected = match b64_standard_decode(blob.hash.as_str()) {
        Ok(b) => b,
        Err(e) => return Err(LockError::Corrupted(concat("hash b64: ", e.as_str()))),
    };
    if expected.len() != HASH_LEN {
        return Err(LockError::Corrupted(concat("hash len ", u64_to_string(expected.len() as u64).as_str())));
    }
    let computed = match argon2_pin_hash(pin, salt_bytes.as_slice()) {
        Ok(h) => h,
        Err(e) => return Err(LockError::Corrupted(e)),
    };
    if !constant_time_eq(computed.as_slice(), expected.as_slice()) {
        return Err(LockError::WrongPin);
    }
    let mut salt = [0u8; 16];
    let mut i: usize = 0;
    while i < 16
        invariant
            0 <= i <= 16,
            salt_bytes@.len() == 16,
            forall|j: int| 0 <= j < i ==> salt@[j] == salt_bytes@[j],
        decreases 16 - i,
    {
        salt[i] = salt_bytes[i];
        i = i + 1;
    }
    assert(salt@ =~= salt_bytes@);
    Ok(salt)
}

} // verus!
