//! A versioned, append-only store of rate-limit configurations in which a
//! rule keeps its identifier for as long as its content is resubmitted.
//!
//! - `api`: a submission as a caller hands it in.
//! - `validate`: checks a submission and reads it.
//! - `types`, `ident`, `json`: validated rules, identifiers, and when two
//!   payloads say the same.
//! - `storage`, `state`: the records, the store that keeps them, and a store
//!   in memory.
//! - `diff`: which rules of a submission are known, new or dropped.
//! - `commit`: writing the next version.
//! - `add_config`: the operation itself, with its contract.
//! - `laws`: what holds of every call, proved from the contracts.

pub mod add_config;
pub mod api;
pub mod commit;
pub mod diff;
pub mod ident;
pub mod json;
pub mod laws;
pub mod state;
pub mod storage;
pub mod types;
pub mod validate;
