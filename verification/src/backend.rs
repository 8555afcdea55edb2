//! Values exchanged with the S3 sync backend.

use vstd::prelude::*;
use crate::text::concat;

verus! {

#[derive(Debug)]
pub enum BackendError {
    S3(String),
    NotFound(String),
}

pub open spec fn backend_error_message(e: BackendError) -> Seq<char> {
    match e {
        BackendError::S3(m) => "S3 error: "@ + m@,
        BackendError::NotFound(m) => "not found: "@ + m@,
    }
}

impl BackendError {
    /// The error's text (its `Display`).
    pub fn message(&self) -> (s: String)
        ensures
            s@ == backend_error_message(*self),
    {
        match self {
            BackendError::S3(m) => concat("S3 error: ", m.as_str()),
            BackendError::NotFound(m) => concat("not found: ", m.as_str()),
        }
    }
}

/// A listed object.
#[derive(Debug)]
pub struct ObjectInfo {
    pub key: String,
    pub size: u64,
}

/// Metadata of an object (`HEAD`).
#[derive(Debug)]
pub struct ObjectMeta {
    pub etag: String,
    pub size: u64,
}

/// Where and as whom to reach the bucket. No endpoint means AWS, with the
/// region given by name.
#[derive(Debug)]
pub struct S3Config {
    pub endpoint: Option<String>,
    pub region: String,
    pub bucket: String,
    pub access_key: String,
    pub secret_key: String,
}

/// The backend configuration from the stored settings: an empty endpoint
/// means AWS.
pub fn s3_config(endpoint: String, region: String, bucket: String, access_key: String, secret_key: String) -> (c: S3Config)
    ensures
        c.endpoint == (if endpoint@.len() == 0 {
            None::<String>
        } else {
            Some(endpoint)
        }),
        c.region == region,
        c.bucket == bucket,
        c.access_key == access_key,
        c.secret_key == secret_key,
{
    let ep = if endpoint.as_str().is_empty() {
        None
    } else {
        Some(endpoint)
    };
    S3Config { endpoint: ep, region, bucket, access_key, secret_key }
}

} // verus!
