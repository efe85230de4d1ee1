//! Trusted boundary to the compression codecs.
//!
//! The compressed column tier and the deletion blocks are produced by
//! pluggable compressors (q_compress for the numeric kinds, zstd for byte
//! runs) whose internals this library does not restate. Each call below goes
//! through an unverified wrapper; what the wrapper returns is named by an
//! uninterpreted function of the input bytes, since every one of these
//! decompressors is deterministic in its input. Every other contract in the
//! crate speaks of those names.

use vstd::prelude::*;

use crate::errors::DecodeError;

use pancake_db_core::compression::Codec;
use pancake_db_core::compression::ValueCodec;
use pancake_db_core::compression::Q_COMPRESS;
use pancake_db_core::compression::q_codec::BoolQCodec;
use pancake_db_core::compression::q_codec::I64QCodec;
use pancake_db_core::compression::q_codec::TimestampMicrosQCodec;
use pancake_db_core::compression::zstd_codec::ZstdCodec;
use pancake_db_core::deletion::decompress_deletions;
use pancake_db_core::primitives::Primitive;

verus! {

/// What splitting a compressed block into its repetition-level prefix and
/// its remaining atom bytes yields, if the prefix decompresses.
pub uninterp spec fn rep_levels_split(bytes: Seq<u8>) -> Option<(Seq<u8>, Seq<u8>)>;

/// What a q_compress integer stream decompresses to, if well formed.
pub uninterp spec fn i64_atoms_of(bytes: Seq<u8>) -> Option<Seq<i64>>;

/// What a q_compress boolean stream decompresses to, if well formed.
pub uninterp spec fn bool_atoms_of(bytes: Seq<u8>) -> Option<Seq<bool>>;

/// What a q_compress timestamp stream decompresses to, projected to total
/// microseconds, if well formed.
pub uninterp spec fn timestamp_micros_atoms_of(bytes: Seq<u8>) -> Option<Seq<i64>>;

/// What a zstd stream decompresses to, if well formed.
pub uninterp spec fn zstd_atoms_of(bytes: Seq<u8>) -> Option<Seq<u8>>;

/// What a compressed deletion block decodes to, if well formed.
pub uninterp spec fn deletions_of(bytes: Seq<u8>) -> Option<Seq<bool>>;

/// Relies on pancake_db_core's `ValueCodec::decompress_rep_levels`: it
/// decompresses the q_compress repetition-level prefix of a block and
/// returns those levels with the remaining aligned bytes. Its body does not
/// depend on which codec carries it, so the one resolved here serves every
/// kind.
#[verifier::external_body]
pub(crate) fn rep_levels_prefix(bytes: &Vec<u8>) -> (r: Result<(Vec<u8>, Vec<u8>), DecodeError>)
    ensures
        match r {
            Ok((levels, rest)) => rep_levels_split(bytes@) == Some((levels@, rest@)),
            Err(e) => e == DecodeError::CorruptData && rep_levels_split(bytes@) is None,
        },
{
    let codec = match <i64 as Primitive>::new_value_codec(Q_COMPRESS) {
        Some(c) => c,
        None => return Err(DecodeError::CorruptData),
    };
    match codec.decompress_rep_levels(bytes) {
        Ok(out) => Ok((out.levels, out.remaining_bytes)),
        Err(_) => Err(DecodeError::CorruptData),
    }
}

/// Relies on pancake_db_core's `I64QCodec::decompress_atoms` (q_compress).
#[verifier::external_body]
pub(crate) fn q_decompress_i64s(bytes: &Vec<u8>) -> (r: Result<Vec<i64>, DecodeError>)
    ensures
        match r {
            Ok(v) => i64_atoms_of(bytes@) == Some(v@),
            Err(e) => e == DecodeError::CorruptData && i64_atoms_of(bytes@) is None,
        },
{
    match Codec::decompress_atoms(&I64QCodec {}, bytes) {
        Ok(v) => Ok(v),
        Err(_) => Err(DecodeError::CorruptData),
    }
}

/// Relies on pancake_db_core's `BoolQCodec::decompress_atoms` (q_compress).
#[verifier::external_body]
pub(crate) fn q_decompress_bools(bytes: &Vec<u8>) -> (r: Result<Vec<bool>, DecodeError>)
    ensures
        match r {
            Ok(v) => bool_atoms_of(bytes@) == Some(v@),
            Err(e) => e == DecodeError::CorruptData && bool_atoms_of(bytes@) is None,
        },
{
    match Codec::decompress_atoms(&BoolQCodec {}, bytes) {
        Ok(v) => Ok(v),
        Err(_) => Err(DecodeError::CorruptData),
    }
}

/// Relies on pancake_db_core's `TimestampMicrosQCodec::decompress_atoms`
/// (q_compress) and q_compress's `TimestampMicros::to_total_parts`, which
/// returns the timestamp's total microseconds; they are truncated to a
/// signed 64-bit count.
#[verifier::external_body]
pub(crate) fn q_decompress_timestamps(bytes: &Vec<u8>) -> (r: Result<Vec<i64>, DecodeError>)
    ensures
        match r {
            Ok(v) => timestamp_micros_atoms_of(bytes@) == Some(v@),
            Err(e) => e == DecodeError::CorruptData && timestamp_micros_atoms_of(bytes@) is None,
        },
{
    match Codec::decompress_atoms(&TimestampMicrosQCodec {}, bytes) {
        Ok(v) => Ok(v.iter().map(|t| t.to_total_parts() as i64).collect()),
        Err(_) => Err(DecodeError::CorruptData),
    }
}

/// Relies on pancake_db_core's `ZstdCodec::decompress_atoms` (zstd), the
/// codec both byte-run kinds (strings and raw bytes) resolve to.
#[verifier::external_body]
pub(crate) fn zstd_decompress(bytes: &Vec<u8>) -> (r: Result<Vec<u8>, DecodeError>)
    ensures
        match r {
            Ok(v) => zstd_atoms_of(bytes@) == Some(v@),
            Err(e) => e == DecodeError::CorruptData && zstd_atoms_of(bytes@) is None,
        },
{
    match Codec::decompress_atoms(&ZstdCodec::<Vec<u8>>::default(), bytes) {
        Ok(v) => Ok(v),
        Err(_) => Err(DecodeError::CorruptData),
    }
}

/// Relies on pancake_db_core's `decompress_deletions` (q_compress booleans);
/// its source returns an empty bitmap for an empty block.
#[verifier::external_body]
pub(crate) fn decompress_deletions_raw(bytes: &Vec<u8>) -> (r: Result<Vec<bool>, DecodeError>)
    ensures
        match r {
            Ok(v) => deletions_of(bytes@) == Some(v@)
                && (bytes@.len() == 0 ==> v@ == Seq::<bool>::empty()),
            Err(e) => e == DecodeError::CorruptData && deletions_of(bytes@) is None,
        },
{
    match decompress_deletions(bytes) {
        Ok(v) => Ok(v),
        Err(_) => Err(DecodeError::CorruptData),
    }
}

/// The codec name every numeric kind resolves.
pub open spec fn q_compress_name() -> Seq<char> {
    "q_compress"@
}

/// The codec name the byte-run kinds resolve.
pub open spec fn zstd_name() -> Seq<char> {
    "zstd"@
}

/// Whether two codec names are the same string.
pub fn codec_name_is(name: &str, expected: &str) -> (r: bool)
    ensures
        r == (name@ == expected@),
{
    let a = name.to_owned();
    let b = expected.to_owned();
    a == b
}

} // verus!
