//! Audits exported directory-service policy reports against a
//! human-authored rule set. The plain-text rendering of each report is
//! parsed into a structured record by a single-pass, multi-section
//! state machine; a small query language with per-field match operators
//! — exact, prefix, suffix, negation, numeric comparison — is evaluated
//! against those records; and a classifier partitions tagged rules into
//! desirable, undesirable, warning and missing report buckets.

pub mod analysis;
pub mod convert;
pub mod gpo;
pub mod laws;
pub mod matcher;
pub mod query;
pub mod render;
pub mod text;
