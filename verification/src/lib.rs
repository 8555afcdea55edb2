//! Shibei core logic: hybrid logical clocks, lock-screen throttling and
//! PIN handling, pairing envelopes, sync payload framing, the snapshot LRU
//! cache index and the NAPI code generator.

pub mod mobile_lock;
pub mod pairing;
pub mod pin;
pub mod throttle;
pub mod wrap;
pub mod cache;
pub mod decimal;
pub mod ext;
pub mod hlc;
pub mod sync_crypto;
pub mod text;
pub mod codegen;
pub mod render_bindings;
pub mod render_dts;
pub mod render_shim;
pub mod lock;
pub mod secure_store;
pub mod commands;
pub mod runtime;
pub mod state;
pub mod search;
pub mod sync_plan;
pub mod backend;
pub mod keystore;
pub mod questions;
pub mod html;
pub mod sync_phases;
pub mod s3_smoke;
pub mod sync_pairing;
pub mod napi_parse;
pub mod transcript;
pub mod reset;
pub mod json_text;
