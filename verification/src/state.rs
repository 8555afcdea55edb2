//! The in-memory part of the application state shared by the NAPI
//! commands: the unlocked master key and the S3 credentials, which are
//! kept in memory only and never written to the database.

use vstd::prelude::*;

verus! {

pub struct Session {
    master_key: Option<[u8; 32]>,
    s3_creds: Option<(String, String)>,
}

impl Session {
    /// The unlocked master key, if any.
    pub closed spec fn key(&self) -> Option<Seq<u8>> {
        match self.master_key {
            Some(k) => Some(k@),
            None => None,
        }
    }

    /// The S3 access and secret keys, if primed.
    pub closed spec fn creds(&self) -> Option<(Seq<char>, Seq<char>)> {
        match self.s3_creds {
            Some((a, s)) => Some((a@, s@)),
            None => None,
        }
    }

    /// A fresh session: locked, no credentials.
    pub fn new() -> (s: Self)
        ensures
            s.key() is None,
            s.creds() is None,
    {
        Session { master_key: None, s3_creds: None }
    }

    /// Cache the master key (after a password or PIN unlock).
    pub fn set_key(&mut self, mk: [u8; 32])
        ensures
            final(self).key() == Some(mk@),
            final(self).creds() == old(self).creds(),
    {
        self.master_key = Some(mk);
    }

    /// A copy of the master key, if unlocked.
    pub fn get_key(&self) -> (r: Option<[u8; 32]>)
        ensures
            match r {
                Some(k) => self.key() == Some(k@),
                None => self.key() is None,
            },
    {
        self.master_key
    }

    /// The S3 credentials, or the error a sync reports before they are primed.
    pub fn s3_credentials(&self) -> (r: Result<(String, String), String>)
        ensures
            match r {
                Ok((a, s)) => self.creds() == Some((a@, s@)),
                Err(e) => self.creds() is None && e@ == "error.credentialsNotPrimed"@,
            },
    {
        match &self.s3_creds {
            Some((a, s)) => Ok((a.clone(), s.clone())),
            None => Err("error.credentialsNotPrimed".to_owned()),
        }
    }
}

/// Whether the master key is in memory.
pub fn is_unlocked(state: &Session) -> (r: bool)
    ensures
        r == state.key() is Some,
{
    state.master_key.is_some()
}

/// Forget the master key; the credentials stay.
pub fn lock_vault(state: &mut Session)
    ensures
        final(state).key() is None,
        final(state).creds() == old(state).creds(),
{
    state.master_key = None;
}

/// Drop the in-memory S3 credentials; the key stays.
pub fn clear_s3_creds(state: &mut Session)
    ensures
        final(state).creds() is None,
        final(state).key() == old(state).key(),
{
    state.s3_creds = None;
}

/// Populate the in-memory S3 credentials. Answers `ok`.
pub fn set_s3_creds_runtime(state: &mut Session, access_key: String, secret_key: String) -> (r: String)
    ensures
        final(state).creds() == Some((access_key@, secret_key@)),
        final(state).key() == old(state).key(),
        r@ == "ok"@,
{
    state.s3_creds = Some((access_key, secret_key));
    "ok".to_owned()
}

/// Whether the onboarding flow has saved the S3 settings, given what
/// reading `config:s3_bucket` returned.
pub fn has_saved_config(bucket: Result<Option<String>, String>) -> (r: bool)
    ensures
        r == (bucket matches Ok(Some(_))),
{
    match bucket {
        Ok(Some(_)) => true,
        _ => false,
    }
}

/// Law: a session unlocked with `set_key` reads as unlocked; after
/// `lock_vault` it reads as locked, with the credentials untouched by
/// either step. `s1` is what `set_key(mk)` leaves of `s0`, `s2` what
/// `lock_vault` leaves of `s1`, as their contracts state.
pub proof fn lemma_lock_cycle(s0: Session, s1: Session, s2: Session, mk: Seq<u8>)
    requires
        s1.key() == Some(mk),
        s1.creds() == s0.creds(),
        s2.key() is None,
        s2.creds() == s1.creds(),
    ensures
        s1.key() is Some,
        !(s2.key() is Some),
        s2.creds() == s0.creds(),
{
}

} // verus!
