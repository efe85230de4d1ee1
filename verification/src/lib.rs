//! Column-decoding engine for a two-tier columnar storage format.
//!
//! A column's values live in two tiers: a compressed block (codec-encoded,
//! older compacted data) and an uncompressed-but-structurally-encoded append
//! buffer (newer writes). Decoding reconstructs, for one column, a single
//! ordered pair of (atoms, repetition levels): compressed-tier values first,
//! then uncompressed-tier values. A separate path reconstructs a per-row
//! deletion bitmap from its compressed encoding.

pub mod atoms;
pub mod codec;
pub mod column;
pub mod errors;
pub mod structural;
