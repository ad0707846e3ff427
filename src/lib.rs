//! Authorization rule sets: a compact binary encoding of rule trees, a revisioned
//! storage layout for rule sets, and an evaluation engine that decides whether an
//! operation is permitted.

pub mod bytes;
pub mod error;
pub mod types;
pub mod rule;
pub mod encode;
pub mod rule_set;
pub mod account;
pub mod eval;
pub mod validate;
pub mod laws;
pub mod codec_laws;
pub mod revision_laws;
