//! The column decode pipeline.
//!
//! A column's values arrive in two tiers: a compressed block (older,
//! compacted data) and an uncompressed structurally-encoded buffer (newer
//! writes). Decoding runs the compressed tier through its codec, runs the
//! structural decoder over the uncompressed buffer, and concatenates the
//! results, compressed tier first. Any failure in either tier fails the
//! whole call; no partial column is ever returned.
//!
//! One entry point per primitive kind dispatches to the shared pipeline
//! with that kind's codec name, atom size and atom conversion. Float kinds
//! are decoded in two steps (`split_q_compressed`, then `assemble_*`)
//! because their compressed-tier atoms must be turned into bit patterns by
//! the caller, which owns the float representation.

use vstd::prelude::*;

use crate::atoms::bools_of_bytes;
use crate::atoms::group_bools;
use crate::atoms::group_i64s;
use crate::atoms::group_ts_micros;
use crate::atoms::group_u32s;
use crate::atoms::group_u64s;
use crate::atoms::i64s_of_bytes;
use crate::atoms::ts_micros_of_bytes;
use crate::atoms::u32s_of_bytes;
use crate::atoms::u64s_of_bytes;
use crate::codec::bool_atoms_of;
use crate::codec::codec_name_is;
use crate::codec::deletions_of;
use crate::codec::decompress_deletions_raw;
use crate::codec::i64_atoms_of;
use crate::codec::q_compress_name;
use crate::codec::q_decompress_bools;
use crate::codec::q_decompress_i64s;
use crate::codec::q_decompress_timestamps;
use crate::codec::rep_levels_prefix;
use crate::codec::rep_levels_split;
use crate::codec::timestamp_micros_atoms_of;
use crate::codec::zstd_atoms_of;
use crate::codec::zstd_decompress;
use crate::codec::zstd_name;
use crate::errors::DecodeError;
use crate::structural::Chunk;
use crate::structural::Layout;
use crate::structural::atom_marker;
use crate::structural::chunks_view;
use crate::structural::count_eq;
use crate::structural::lemma_structural_length_correspondence;
use crate::structural::flat_atom_bytes;
use crate::structural::flat_levels;
use crate::structural::structural_decode;
use crate::structural::structural_decode_spec;

verus! {

/// One decoded column: its atoms and, slot for slot in the same order, its
/// repetition levels.
#[derive(Debug)]
pub struct Column<A> {
    pub rep_levels: Vec<u8>,
    pub atoms: Vec<A>,
}

/// Concatenates the two tier results, compressed tier first; the first
/// failing tier fails the whole decode.
pub open spec fn merge_tiers<A>(
    t1: Result<(Seq<u8>, Seq<A>), DecodeError>,
    t2: Result<(Seq<u8>, Seq<A>), DecodeError>,
) -> Result<(Seq<u8>, Seq<A>), DecodeError> {
    match t1 {
        Err(e) => Err(e),
        Ok((l1, a1)) => match t2 {
            Err(e) => Err(e),
            Ok((l2, a2)) => Ok((l1 + l2, a1 + a2)),
        },
    }
}

/// The compressed tier up to atom decompression: an empty block contributes
/// nothing (and its codec name goes unexamined); a wrong codec name is
/// unsupported; otherwise the repetition-level prefix is split off.
pub open spec fn compressed_prefix_spec(
    bytes: Seq<u8>,
    codec: Seq<char>,
    expected: Seq<char>,
) -> Result<Option<(Seq<u8>, Seq<u8>)>, DecodeError> {
    if bytes.len() == 0 {
        Ok(None)
    } else if codec != expected {
        Err(DecodeError::UnsupportedCodec)
    } else {
        match rep_levels_split(bytes) {
            None => Err(DecodeError::CorruptData),
            Some((lv, rest)) => Ok(Some((lv, rest))),
        }
    }
}

/// The whole compressed tier: the split prefix's remaining bytes run
/// through the kind's atom decompressor.
pub open spec fn compressed_tier<A>(
    bytes: Seq<u8>,
    codec: Seq<char>,
    expected: Seq<char>,
    atoms_of: spec_fn(Seq<u8>) -> Option<Seq<A>>,
) -> Result<(Seq<u8>, Seq<A>), DecodeError> {
    match compressed_prefix_spec(bytes, codec, expected) {
        Err(e) => Err(e),
        Ok(None) => Ok((Seq::empty(), Seq::empty())),
        Ok(Some((lv, rest))) => match atoms_of(rest) {
            None => Err(DecodeError::CorruptData),
            Some(ats) => Ok((lv, ats)),
        },
    }
}

/// The structural tier as flat bytes: an empty buffer contributes nothing;
/// otherwise the buffer's chunks are decoded and flattened in order.
pub open spec fn structural_tier_bytes(bytes: Seq<u8>, cfg: Layout) -> Result<(Seq<u8>, Seq<u8>), DecodeError> {
    if bytes.len() == 0 {
        Ok((Seq::empty(), Seq::empty()))
    } else {
        match structural_decode_spec(bytes, cfg) {
            None => Err(DecodeError::CorruptData),
            Some(cs) => Ok((flat_levels(cs), flat_atom_bytes(cs))),
        }
    }
}

/// The structural layout of each primitive kind.
pub open spec fn int64_layout(nd: u8) -> Layout {
    Layout { nesting_depth: nd, atom_size: 8, is_atomic: true }
}

pub open spec fn bool_layout(nd: u8) -> Layout {
    Layout { nesting_depth: nd, atom_size: 1, is_atomic: true }
}

pub open spec fn float32_layout(nd: u8) -> Layout {
    Layout { nesting_depth: nd, atom_size: 4, is_atomic: true }
}

pub open spec fn float64_layout(nd: u8) -> Layout {
    Layout { nesting_depth: nd, atom_size: 8, is_atomic: true }
}

pub open spec fn timestamp_layout(nd: u8) -> Layout {
    Layout { nesting_depth: nd, atom_size: 12, is_atomic: true }
}

pub open spec fn byte_run_layout(nd: u8) -> Layout {
    Layout { nesting_depth: nd, atom_size: 1, is_atomic: false }
}

/// Per-kind structural tiers, typed.
pub open spec fn i64_structural_tier(bytes: Seq<u8>, nd: u8) -> Result<(Seq<u8>, Seq<i64>), DecodeError> {
    match structural_tier_bytes(bytes, int64_layout(nd)) {
        Err(e) => Err(e),
        Ok((lv, ab)) => Ok((lv, i64s_of_bytes(ab))),
    }
}

pub open spec fn bool_structural_tier(bytes: Seq<u8>, nd: u8) -> Result<(Seq<u8>, Seq<bool>), DecodeError> {
    match structural_tier_bytes(bytes, bool_layout(nd)) {
        Err(e) => Err(e),
        Ok((lv, ab)) => match bools_of_bytes(ab) {
            None => Err(DecodeError::CorruptData),
            Some(ats) => Ok((lv, ats)),
        },
    }
}

pub open spec fn u32_structural_tier(bytes: Seq<u8>, nd: u8) -> Result<(Seq<u8>, Seq<u32>), DecodeError> {
    match structural_tier_bytes(bytes, float32_layout(nd)) {
        Err(e) => Err(e),
        Ok((lv, ab)) => Ok((lv, u32s_of_bytes(ab))),
    }
}

pub open spec fn u64_structural_tier(bytes: Seq<u8>, nd: u8) -> Result<(Seq<u8>, Seq<u64>), DecodeError> {
    match structural_tier_bytes(bytes, float64_layout(nd)) {
        Err(e) => Err(e),
        Ok((lv, ab)) => Ok((lv, u64s_of_bytes(ab))),
    }
}

pub open spec fn ts_structural_tier(bytes: Seq<u8>, nd: u8) -> Result<(Seq<u8>, Seq<i64>), DecodeError> {
    match structural_tier_bytes(bytes, timestamp_layout(nd)) {
        Err(e) => Err(e),
        Ok((lv, ab)) => match ts_micros_of_bytes(ab) {
            None => Err(DecodeError::CorruptData),
            Some(ats) => Ok((lv, ats)),
        },
    }
}

pub open spec fn byte_structural_tier(bytes: Seq<u8>, nd: u8) -> Result<(Seq<u8>, Seq<u8>), DecodeError> {
    structural_tier_bytes(bytes, byte_run_layout(nd))
}

/// What each public decode returns, for every input.
pub open spec fn int64_column_spec(nd: u8, comp: Seq<u8>, unc: Seq<u8>, codec: Seq<char>) -> Result<(Seq<u8>, Seq<i64>), DecodeError> {
    merge_tiers(
        compressed_tier(comp, codec, q_compress_name(), |b: Seq<u8>| i64_atoms_of(b)),
        i64_structural_tier(unc, nd),
    )
}

pub open spec fn bool_column_spec(nd: u8, comp: Seq<u8>, unc: Seq<u8>, codec: Seq<char>) -> Result<(Seq<u8>, Seq<bool>), DecodeError> {
    merge_tiers(
        compressed_tier(comp, codec, q_compress_name(), |b: Seq<u8>| bool_atoms_of(b)),
        bool_structural_tier(unc, nd),
    )
}

pub open spec fn timestamp_column_spec(nd: u8, comp: Seq<u8>, unc: Seq<u8>, codec: Seq<char>) -> Result<(Seq<u8>, Seq<i64>), DecodeError> {
    merge_tiers(
        compressed_tier(comp, codec, q_compress_name(), |b: Seq<u8>| timestamp_micros_atoms_of(b)),
        ts_structural_tier(unc, nd),
    )
}

pub open spec fn byte_column_spec(nd: u8, comp: Seq<u8>, unc: Seq<u8>, codec: Seq<char>) -> Result<(Seq<u8>, Seq<u8>), DecodeError> {
    merge_tiers(
        compressed_tier(comp, codec, zstd_name(), |b: Seq<u8>| zstd_atoms_of(b)),
        byte_structural_tier(unc, nd),
    )
}

pub open spec fn float32_assembled_spec(nd: u8, l1: Seq<u8>, a1: Seq<u32>, unc: Seq<u8>) -> Result<(Seq<u8>, Seq<u32>), DecodeError> {
    merge_tiers(Ok((l1, a1)), u32_structural_tier(unc, nd))
}

pub open spec fn float64_assembled_spec(nd: u8, l1: Seq<u8>, a1: Seq<u64>, unc: Seq<u8>) -> Result<(Seq<u8>, Seq<u64>), DecodeError> {
    merge_tiers(Ok((l1, a1)), u64_structural_tier(unc, nd))
}

/// Flattens decoded chunks into one level sequence and one atom payload.
fn flatten_chunks(chunks: Vec<Chunk>) -> (r: (Vec<u8>, Vec<u8>))
    ensures
        r.0@ == flat_levels(chunks_view(chunks@)),
        r.1@ == flat_atom_bytes(chunks_view(chunks@)),
{
    let mut lv: Vec<u8> = Vec::new();
    let mut ab: Vec<u8> = Vec::new();
    let mut k: usize = 0;
    proof {
        assert(chunks_view(chunks@).take(0) =~= Seq::empty());
    }
    while k < chunks.len()
        invariant
            k <= chunks@.len(),
            lv@ == flat_levels(chunks_view(chunks@).take(k as int)),
            ab@ == flat_atom_bytes(chunks_view(chunks@).take(k as int)),
        decreases chunks@.len() - k,
    {
        let c = &chunks[k];
        let mut cl = c.levels.clone();
        let mut ca = c.atom_bytes.clone();
        lv.append(&mut cl);
        ab.append(&mut ca);
        proof {
            let cv = chunks_view(chunks@);
            assert(cv.take(k as int + 1).drop_last() =~= cv.take(k as int));
            assert(cv.take(k as int + 1).last() == cv[k as int]);
        }
        k = k + 1;
    }
    proof {
        assert(chunks_view(chunks@).take(chunks@.len() as int) =~= chunks_view(chunks@));
    }
    (lv, ab)
}

/// Splits a compressed block: nothing for an empty block, an unsupported
/// codec error for a wrong name, else the repetition levels and the
/// remaining atom bytes.
fn split_compressed(compressed: &Vec<u8>, codec: &str, expected: &str) -> (r: Result<Option<(Vec<u8>, Vec<u8>)>, DecodeError>)
    ensures
        match r {
            Ok(None) => compressed_prefix_spec(compressed@, codec@, expected@)
                == Ok::<Option<(Seq<u8>, Seq<u8>)>, DecodeError>(None),
            Ok(Some((lv, rest))) => compressed_prefix_spec(compressed@, codec@, expected@)
                == Ok::<Option<(Seq<u8>, Seq<u8>)>, DecodeError>(Some((lv@, rest@))),
            Err(e) => compressed_prefix_spec(compressed@, codec@, expected@)
                == Err::<Option<(Seq<u8>, Seq<u8>)>, DecodeError>(e),
        },
{
    if compressed.len() == 0 {
        return Ok(None);
    }
    if !codec_name_is(codec, expected) {
        return Err(DecodeError::UnsupportedCodec);
    }
    match rep_levels_prefix(compressed) {
        Err(e) => Err(e),
        Ok((lv, rest)) => Ok(Some((lv, rest))),
    }
}

/// Splits a q_compress-coded block for a caller that decompresses the atom
/// payload itself (the float kinds): nothing for an empty block, else the
/// repetition levels and the bytes still to decompress.
pub fn split_q_compressed(compressed: &Vec<u8>, codec: &str) -> (r: Result<Option<(Vec<u8>, Vec<u8>)>, DecodeError>)
    ensures
        match r {
            Ok(None) => compressed_prefix_spec(compressed@, codec@, q_compress_name())
                == Ok::<Option<(Seq<u8>, Seq<u8>)>, DecodeError>(None),
            Ok(Some((lv, rest))) => compressed_prefix_spec(compressed@, codec@, q_compress_name())
                == Ok::<Option<(Seq<u8>, Seq<u8>)>, DecodeError>(Some((lv@, rest@))),
            Err(e) => compressed_prefix_spec(compressed@, codec@, q_compress_name())
                == Err::<Option<(Seq<u8>, Seq<u8>)>, DecodeError>(e),
        },
{
    split_compressed(compressed, codec, "q_compress")
}

/// The structural tier, flattened but untyped.
fn structural_tier_raw(uncompressed: &Vec<u8>, cfg: Layout) -> (r: Result<(Vec<u8>, Vec<u8>), DecodeError>)
    requires
        cfg.wf(),
    ensures
        match r {
            Ok((lv, ab)) => structural_tier_bytes(uncompressed@, cfg)
                == Ok::<(Seq<u8>, Seq<u8>), DecodeError>((lv@, ab@)),
            Err(e) => structural_tier_bytes(uncompressed@, cfg)
                == Err::<(Seq<u8>, Seq<u8>), DecodeError>(e),
        },
{
    if uncompressed.len() == 0 {
        return Ok((Vec::new(), Vec::new()));
    }
    match structural_decode(uncompressed, cfg) {
        Err(e) => Err(e),
        Ok(chunks) => Ok(flatten_chunks(chunks)),
    }
}

/// Decodes a 64-bit integer column from its two tiers.
pub fn decode_int64s(nesting_depth: u8, compressed: &Vec<u8>, uncompressed: &Vec<u8>, codec: &str) -> (r: Result<Column<i64>, DecodeError>)
    requires
        nesting_depth <= 253,
    ensures
        match r {
            Ok(c) => int64_column_spec(nesting_depth, compressed@, uncompressed@, codec@)
                == Ok::<(Seq<u8>, Seq<i64>), DecodeError>((c.rep_levels@, c.atoms@)),
            Err(e) => int64_column_spec(nesting_depth, compressed@, uncompressed@, codec@)
                == Err::<(Seq<u8>, Seq<i64>), DecodeError>(e),
        },
{
    let mut levels: Vec<u8>;
    let mut ats: Vec<i64>;
    match split_compressed(compressed, codec, "q_compress") {
        Err(e) => {
            return Err(e);
        },
        Ok(None) => {
            levels = Vec::new();
            ats = Vec::new();
        },
        Ok(Some((lv, rest))) => {
            match q_decompress_i64s(&rest) {
                Err(e) => {
                    return Err(e);
                },
                Ok(a1) => {
                    levels = lv;
                    ats = a1;
                },
            }
        },
    }
    let cfg = Layout { nesting_depth, atom_size: 8, is_atomic: true };
    match structural_tier_raw(uncompressed, cfg) {
        Err(e) => Err(e),
        Ok((mut lv2, ab2)) => {
            let mut typed = group_i64s(&ab2);
            levels.append(&mut lv2);
            ats.append(&mut typed);
            Ok(Column { rep_levels: levels, atoms: ats })
        },
    }
}

/// Decodes a boolean column from its two tiers.
pub fn decode_bools(nesting_depth: u8, compressed: &Vec<u8>, uncompressed: &Vec<u8>, codec: &str) -> (r: Result<Column<bool>, DecodeError>)
    requires
        nesting_depth <= 253,
    ensures
        match r {
            Ok(c) => bool_column_spec(nesting_depth, compressed@, uncompressed@, codec@)
                == Ok::<(Seq<u8>, Seq<bool>), DecodeError>((c.rep_levels@, c.atoms@)),
            Err(e) => bool_column_spec(nesting_depth, compressed@, uncompressed@, codec@)
                == Err::<(Seq<u8>, Seq<bool>), DecodeError>(e),
        },
{
    let mut levels: Vec<u8>;
    let mut ats: Vec<bool>;
    match split_compressed(compressed, codec, "q_compress") {
        Err(e) => {
            return Err(e);
        },
        Ok(None) => {
            levels = Vec::new();
            ats = Vec::new();
        },
        Ok(Some((lv, rest))) => {
            match q_decompress_bools(&rest) {
                Err(e) => {
                    return Err(e);
                },
                Ok(a1) => {
                    levels = lv;
                    ats = a1;
                },
            }
        },
    }
    let cfg = Layout { nesting_depth, atom_size: 1, is_atomic: true };
    match structural_tier_raw(uncompressed, cfg) {
        Err(e) => Err(e),
        Ok((mut lv2, ab2)) => {
            match group_bools(&ab2) {
                Err(e) => Err(e),
                Ok(mut typed) => {
                    levels.append(&mut lv2);
                    ats.append(&mut typed);
                    Ok(Column { rep_levels: levels, atoms: ats })
                },
            }
        },
    }
}

/// Decodes a timestamp column from its two tiers, with each atom projected
/// to total microseconds.
pub fn decode_timestamps(nesting_depth: u8, compressed: &Vec<u8>, uncompressed: &Vec<u8>, codec: &str) -> (r: Result<Column<i64>, DecodeError>)
    requires
        nesting_depth <= 253,
    ensures
        match r {
            Ok(c) => timestamp_column_spec(nesting_depth, compressed@, uncompressed@, codec@)
                == Ok::<(Seq<u8>, Seq<i64>), DecodeError>((c.rep_levels@, c.atoms@)),
            Err(e) => timestamp_column_spec(nesting_depth, compressed@, uncompressed@, codec@)
                == Err::<(Seq<u8>, Seq<i64>), DecodeError>(e),
        },
{
    let mut levels: Vec<u8>;
    let mut ats: Vec<i64>;
    match split_compressed(compressed, codec, "q_compress") {
        Err(e) => {
            return Err(e);
        },
        Ok(None) => {
            levels = Vec::new();
            ats = Vec::new();
        },
        Ok(Some((lv, rest))) => {
            match q_decompress_timestamps(&rest) {
                Err(e) => {
                    return Err(e);
                },
                Ok(a1) => {
                    levels = lv;
                    ats = a1;
                },
            }
        },
    }
    let cfg = Layout { nesting_depth, atom_size: 12, is_atomic: true };
    match structural_tier_raw(uncompressed, cfg) {
        Err(e) => Err(e),
        Ok((mut lv2, ab2)) => {
            match group_ts_micros(&ab2) {
                Err(e) => Err(e),
                Ok(mut typed) => {
                    levels.append(&mut lv2);
                    ats.append(&mut typed);
                    Ok(Column { rep_levels: levels, atoms: ats })
                },
            }
        },
    }
}

/// Decodes a string or raw-bytes column from its two tiers. Both kinds
/// share the byte-run atom shape; which one the caller meant only matters
/// to how it interprets the returned bytes.
pub fn decode_string_or_bytes(nesting_depth: u8, compressed: &Vec<u8>, uncompressed: &Vec<u8>, codec: &str) -> (r: Result<Column<u8>, DecodeError>)
    requires
        nesting_depth <= 253,
    ensures
        match r {
            Ok(c) => byte_column_spec(nesting_depth, compressed@, uncompressed@, codec@)
                == Ok::<(Seq<u8>, Seq<u8>), DecodeError>((c.rep_levels@, c.atoms@)),
            Err(e) => byte_column_spec(nesting_depth, compressed@, uncompressed@, codec@)
                == Err::<(Seq<u8>, Seq<u8>), DecodeError>(e),
        },
{
    let mut levels: Vec<u8>;
    let mut ats: Vec<u8>;
    match split_compressed(compressed, codec, "zstd") {
        Err(e) => {
            return Err(e);
        },
        Ok(None) => {
            levels = Vec::new();
            ats = Vec::new();
        },
        Ok(Some((lv, rest))) => {
            match zstd_decompress(&rest) {
                Err(e) => {
                    return Err(e);
                },
                Ok(a1) => {
                    levels = lv;
                    ats = a1;
                },
            }
        },
    }
    let cfg = Layout { nesting_depth, atom_size: 1, is_atomic: false };
    match structural_tier_raw(uncompressed, cfg) {
        Err(e) => Err(e),
        Ok((mut lv2, mut ab2)) => {
            levels.append(&mut lv2);
            ats.append(&mut ab2);
            Ok(Column { rep_levels: levels, atoms: ats })
        },
    }
}

/// Joins an already-decompressed 32-bit float compressed tier (levels and
/// atom bit patterns) with the structural tier of the uncompressed buffer.
pub fn assemble_float32s(nesting_depth: u8, comp_levels: Vec<u8>, comp_atom_bits: Vec<u32>, uncompressed: &Vec<u8>) -> (r: Result<Column<u32>, DecodeError>)
    requires
        nesting_depth <= 253,
    ensures
        match r {
            Ok(c) => float32_assembled_spec(nesting_depth, comp_levels@, comp_atom_bits@, uncompressed@)
                == Ok::<(Seq<u8>, Seq<u32>), DecodeError>((c.rep_levels@, c.atoms@)),
            Err(e) => float32_assembled_spec(nesting_depth, comp_levels@, comp_atom_bits@, uncompressed@)
                == Err::<(Seq<u8>, Seq<u32>), DecodeError>(e),
        },
{
    let mut levels = comp_levels;
    let mut ats = comp_atom_bits;
    let cfg = Layout { nesting_depth, atom_size: 4, is_atomic: true };
    match structural_tier_raw(uncompressed, cfg) {
        Err(e) => Err(e),
        Ok((mut lv2, ab2)) => {
            let mut typed = group_u32s(&ab2);
            levels.append(&mut lv2);
            ats.append(&mut typed);
            Ok(Column { rep_levels: levels, atoms: ats })
        },
    }
}

/// Joins an already-decompressed 64-bit float compressed tier (levels and
/// atom bit patterns) with the structural tier of the uncompressed buffer.
pub fn assemble_float64s(nesting_depth: u8, comp_levels: Vec<u8>, comp_atom_bits: Vec<u64>, uncompressed: &Vec<u8>) -> (r: Result<Column<u64>, DecodeError>)
    requires
        nesting_depth <= 253,
    ensures
        match r {
            Ok(c) => float64_assembled_spec(nesting_depth, comp_levels@, comp_atom_bits@, uncompressed@)
                == Ok::<(Seq<u8>, Seq<u64>), DecodeError>((c.rep_levels@, c.atoms@)),
            Err(e) => float64_assembled_spec(nesting_depth, comp_levels@, comp_atom_bits@, uncompressed@)
                == Err::<(Seq<u8>, Seq<u64>), DecodeError>(e),
        },
{
    let mut levels = comp_levels;
    let mut ats = comp_atom_bits;
    let cfg = Layout { nesting_depth, atom_size: 8, is_atomic: true };
    match structural_tier_raw(uncompressed, cfg) {
        Err(e) => Err(e),
        Ok((mut lv2, ab2)) => {
            let mut typed = group_u64s(&ab2);
            levels.append(&mut lv2);
            ats.append(&mut typed);
            Ok(Column { rep_levels: levels, atoms: ats })
        },
    }
}

/// Decodes a per-row deletion bitmap from its compressed block. The bitmap
/// is a pure function of the block: decoding the same bytes twice yields
/// the same booleans.
pub fn decode_deletions(data: &Vec<u8>) -> (r: Result<Vec<bool>, DecodeError>)
    ensures
        match r {
            Ok(v) => deletions_of(data@) == Some(v@)
                && (data@.len() == 0 ==> v@ == Seq::<bool>::empty()),
            Err(e) => e == DecodeError::CorruptData && deletions_of(data@) is None,
        },
{
    decompress_deletions_raw(data)
}

/// Law: when both tiers decode, the column holds the compressed tier's
/// levels and atoms strictly before the uncompressed tier's, each tier in
/// its own order.
pub proof fn lemma_tier_order<A>(l1: Seq<u8>, a1: Seq<A>, l2: Seq<u8>, a2: Seq<A>)
    ensures
        merge_tiers(Ok::<(Seq<u8>, Seq<A>), DecodeError>((l1, a1)), Ok::<(Seq<u8>, Seq<A>), DecodeError>((l2, a2)))
            == Ok::<(Seq<u8>, Seq<A>), DecodeError>((l1 + l2, a1 + a2)),
{
}

/// Law: a tier that contributes nothing leaves the other tier's result
/// unchanged.
pub proof fn lemma_merge_empty_left<A>(t2: Result<(Seq<u8>, Seq<A>), DecodeError>)
    ensures
        merge_tiers(Ok::<(Seq<u8>, Seq<A>), DecodeError>((Seq::empty(), Seq::empty())), t2) == t2,
{
    match t2 {
        Ok((l2, a2)) => {
            assert(Seq::<u8>::empty() + l2 =~= l2);
            assert(Seq::<A>::empty() + a2 =~= a2);
        },
        Err(_) => {},
    }
}

pub proof fn lemma_merge_empty_right<A>(t1: Result<(Seq<u8>, Seq<A>), DecodeError>)
    ensures
        merge_tiers(t1, Ok::<(Seq<u8>, Seq<A>), DecodeError>((Seq::empty(), Seq::empty()))) == t1,
{
    match t1 {
        Ok((l1, a1)) => {
            assert(l1 + Seq::<u8>::empty() =~= l1);
            assert(a1 + Seq::<A>::empty() =~= a1);
        },
        Err(_) => {},
    }
}

/// Law: with a non-empty compressed block and a codec name other than the
/// kind's, decoding fails with `UnsupportedCodec` whatever the block or the
/// other tier holds — it never silently returns values.
pub proof fn lemma_codec_mismatch<A>(
    bytes: Seq<u8>,
    codec: Seq<char>,
    expected: Seq<char>,
    atoms_of: spec_fn(Seq<u8>) -> Option<Seq<A>>,
    t2: Result<(Seq<u8>, Seq<A>), DecodeError>,
)
    requires
        bytes.len() > 0,
        codec != expected,
    ensures
        merge_tiers(compressed_tier(bytes, codec, expected, atoms_of), t2)
            == Err::<(Seq<u8>, Seq<A>), DecodeError>(DecodeError::UnsupportedCodec),
{
}

/// Law: in a successful integer structural-tier decode there are exactly as
/// many atoms as repetition levels equal to `nesting_depth + 1` (the value
/// marker); null levels and list-closing levels carry no atom. With a flat,
/// non-null column — every level the marker — the atom and level sequences
/// have equal length.
pub proof fn lemma_int64_structural_length(bytes: Seq<u8>, nd: u8)
    requires
        nd <= 253,
    ensures
        match i64_structural_tier(bytes, nd) {
            Ok((lv, ats)) => ats.len() == count_eq(lv, (nd + 1) as u8) && ((forall|q: int|
                0 <= q < lv.len() ==> lv[q] == (nd + 1) as u8) ==> ats.len() == lv.len()),
            Err(_) => true,
        },
{
    let cfg = int64_layout(nd);
    assert(atom_marker(cfg) == (nd + 1) as u8);
    lemma_structural_length_correspondence(bytes, cfg);
    match i64_structural_tier(bytes, nd) {
        Ok((lv, ats)) => {
            assert(count_eq(Seq::<u8>::empty(), (nd + 1) as u8) == 0);
            vstd::arithmetic::div_mod::lemma_div_multiples_vanish(
                count_eq(lv, (nd + 1) as u8) as int,
                8,
            );
            vstd::arithmetic::div_mod::lemma_div_multiples_vanish(lv.len() as int, 8);
        },
        Err(_) => {},
    }
}

/// Law: with an empty compressed tier, an integer decode is the structural
/// decoder's result alone, whatever the codec name.
pub proof fn lemma_int64_empty_compressed(nd: u8, unc: Seq<u8>, codec: Seq<char>)
    ensures
        int64_column_spec(nd, Seq::empty(), unc, codec) == i64_structural_tier(unc, nd),
{
    lemma_merge_empty_left(i64_structural_tier(unc, nd));
}

/// Law: with an empty uncompressed tier, an integer decode is the
/// compressed tier's result alone.
pub proof fn lemma_int64_empty_uncompressed(nd: u8, comp: Seq<u8>, codec: Seq<char>)
    ensures
        int64_column_spec(nd, comp, Seq::empty(), codec)
            == compressed_tier(comp, codec, q_compress_name(), |b: Seq<u8>| i64_atoms_of(b)),
{
    assert(i64s_of_bytes(Seq::empty()) =~= Seq::<i64>::empty());
    lemma_merge_empty_right(compressed_tier(comp, codec, q_compress_name(), |b: Seq<u8>| i64_atoms_of(b)));
}

/// Law: the empty-tier rules for boolean decodes.
pub proof fn lemma_bool_empty_compressed(nd: u8, unc: Seq<u8>, codec: Seq<char>)
    ensures
        bool_column_spec(nd, Seq::empty(), unc, codec) == bool_structural_tier(unc, nd),
{
    lemma_merge_empty_left(bool_structural_tier(unc, nd));
}

pub proof fn lemma_bool_empty_uncompressed(nd: u8, comp: Seq<u8>, codec: Seq<char>)
    ensures
        bool_column_spec(nd, comp, Seq::empty(), codec)
            == compressed_tier(comp, codec, q_compress_name(), |b: Seq<u8>| bool_atoms_of(b)),
{
    assert(bools_of_bytes(Seq::empty()) == Some(Seq::<bool>::empty())) by {
        assert(Seq::<u8>::empty().map_values(|b: u8| b == 1) =~= Seq::<bool>::empty());
    }
    lemma_merge_empty_right(compressed_tier(comp, codec, q_compress_name(), |b: Seq<u8>| bool_atoms_of(b)));
}

/// Law: the empty-tier rules for timestamp decodes.
pub proof fn lemma_timestamp_empty_compressed(nd: u8, unc: Seq<u8>, codec: Seq<char>)
    ensures
        timestamp_column_spec(nd, Seq::empty(), unc, codec) == ts_structural_tier(unc, nd),
{
    lemma_merge_empty_left(ts_structural_tier(unc, nd));
}

pub proof fn lemma_timestamp_empty_uncompressed(nd: u8, comp: Seq<u8>, codec: Seq<char>)
    ensures
        timestamp_column_spec(nd, comp, Seq::empty(), codec)
            == compressed_tier(comp, codec, q_compress_name(), |b: Seq<u8>| timestamp_micros_atoms_of(b)),
{
    assert(ts_micros_of_bytes(Seq::empty()) == Some(Seq::<i64>::empty())) by {
        assert(Seq::new((Seq::<u8>::empty().len() / 12) as nat, |k: int| crate::atoms::wrap_i64_of(
            crate::atoms::be_value(Seq::<u8>::empty().subrange(12 * k, 12 * k + 12)),
        )) =~= Seq::<i64>::empty());
    }
    lemma_merge_empty_right(compressed_tier(comp, codec, q_compress_name(), |b: Seq<u8>| timestamp_micros_atoms_of(b)));
}

/// Law: the empty-tier rules for string and raw-bytes decodes.
pub proof fn lemma_byte_empty_compressed(nd: u8, unc: Seq<u8>, codec: Seq<char>)
    ensures
        byte_column_spec(nd, Seq::empty(), unc, codec) == byte_structural_tier(unc, nd),
{
    lemma_merge_empty_left(byte_structural_tier(unc, nd));
}

pub proof fn lemma_byte_empty_uncompressed(nd: u8, comp: Seq<u8>, codec: Seq<char>)
    ensures
        byte_column_spec(nd, comp, Seq::empty(), codec)
            == compressed_tier(comp, codec, zstd_name(), |b: Seq<u8>| zstd_atoms_of(b)),
{
    lemma_merge_empty_right(compressed_tier(comp, codec, zstd_name(), |b: Seq<u8>| zstd_atoms_of(b)));
}

/// Law: the empty-tier rules for the float kinds, over the assembled form.
pub proof fn lemma_float32_empty_compressed(nd: u8, unc: Seq<u8>)
    ensures
        float32_assembled_spec(nd, Seq::empty(), Seq::empty(), unc) == u32_structural_tier(unc, nd),
{
    lemma_merge_empty_left(u32_structural_tier(unc, nd));
}

pub proof fn lemma_float32_empty_uncompressed(nd: u8, l1: Seq<u8>, a1: Seq<u32>)
    ensures
        float32_assembled_spec(nd, l1, a1, Seq::empty())
            == Ok::<(Seq<u8>, Seq<u32>), DecodeError>((l1, a1)),
{
    assert(u32s_of_bytes(Seq::empty()) =~= Seq::<u32>::empty());
    lemma_merge_empty_right(Ok::<(Seq<u8>, Seq<u32>), DecodeError>((l1, a1)));
}

pub proof fn lemma_float64_empty_compressed(nd: u8, unc: Seq<u8>)
    ensures
        float64_assembled_spec(nd, Seq::empty(), Seq::empty(), unc) == u64_structural_tier(unc, nd),
{
    lemma_merge_empty_left(u64_structural_tier(unc, nd));
}

pub proof fn lemma_float64_empty_uncompressed(nd: u8, l1: Seq<u8>, a1: Seq<u64>)
    ensures
        float64_assembled_spec(nd, l1, a1, Seq::empty())
            == Ok::<(Seq<u8>, Seq<u64>), DecodeError>((l1, a1)),
{
    assert(u64s_of_bytes(Seq::empty()) =~= Seq::<u64>::empty());
    lemma_merge_empty_right(Ok::<(Seq<u8>, Seq<u64>), DecodeError>((l1, a1)));
}

} // verus!
