//! A key-value store of sale records whose schema changes over its lifetime,
//! with lazy per-key upgrades and a one-shot bulk reinterpretation of the
//! top-level layout.
pub mod codec;
pub mod discount;
pub mod error;
pub mod flagged;
pub mod flagged_discount;
pub mod json;
pub mod sale;
pub mod store;
