use pancake_column_decode::column::assemble_float32s;
use pancake_column_decode::column::assemble_float64s;
use pancake_column_decode::column::decode_bools;
use pancake_column_decode::column::decode_deletions;
use pancake_column_decode::column::decode_int64s;
use pancake_column_decode::column::decode_string_or_bytes;
use pancake_column_decode::column::decode_timestamps;
use pancake_column_decode::column::split_q_compressed;
use pancake_column_decode::errors::DecodeError;
use pancake_column_decode::structural::Chunk;
use pancake_column_decode::structural::Layout;
use pancake_column_decode::structural::structural_decode;

use pancake_db_core::compression::Codec;
use pancake_db_core::compression::q_codec::F32QCodec;
use pancake_db_core::compression::q_codec::F64QCodec;
use pancake_db_core::compression::q_codec::I64QCodec;
use pancake_db_core::compression::q_codec::TimestampMicrosQCodec;
use pancake_db_core::deletion::compress_deletions;
use pancake_db_core::encoding::Encoder;
use pancake_db_core::encoding::EncoderImpl;
use pancake_db_core::primitives::Primitive;
use pancake_db_idl::dml::FieldValue;
use pancake_db_idl::dml::RepeatedFieldValue;
use pancake_db_idl::dml::field_value::Value;
use q_compress::Compressor;
use q_compress::data_types::NumberLike;
use q_compress::data_types::TimestampMicros;

fn int_fvs(vals: &[i64]) -> Vec<FieldValue> {
    vals.iter()
        .map(|v| FieldValue { value: Some(Value::Int64Val(*v)) })
        .collect()
}

fn compress_levels(levels: &[u32]) -> Vec<u8> {
    Compressor::<u32>::default().simple_compress(levels)
}

fn escape(bytes: &[u8]) -> Vec<u8> {
    let mut out = Vec::new();
    for &b in bytes {
        if b >= 253 {
            out.push(255);
            out.push(!b);
        } else {
            out.push(b);
        }
    }
    out
}

#[test]
fn both_tiers_empty_is_empty_column() {
    let col = decode_int64s(0, &vec![], &vec![], "q_compress").unwrap();
    assert_eq!(col.atoms, Vec::<i64>::new());
    assert_eq!(col.rep_levels, Vec::<u8>::new());
    let col = decode_string_or_bytes(0, &vec![], &vec![], "zstd").unwrap();
    assert_eq!(col.atoms, Vec::<u8>::new());
    assert_eq!(col.rep_levels, Vec::<u8>::new());
}

#[test]
fn compressed_tier_precedes_uncompressed_tier() {
    // Compressed tier carrying atoms [10, 20] under rep levels [0, 1].
    let mut compressed = compress_levels(&[0, 1]);
    compressed.extend(I64QCodec {}.compress_atoms(&[10, 20]).unwrap());
    // Uncompressed tier carrying one chunk with atom [30].
    let uncompressed = EncoderImpl::<i64>::new(0).encode(&int_fvs(&[30])).unwrap();
    let col = decode_int64s(0, &compressed, &uncompressed, "q_compress").unwrap();
    assert_eq!(col.atoms, vec![10, 20, 30]);
    assert_eq!(col.rep_levels, vec![0, 1, 1]);
}

#[test]
fn empty_compressed_equals_structural_alone() {
    let uncompressed = EncoderImpl::<i64>::new(0).encode(&int_fvs(&[7, -8, 9])).unwrap();
    let col = decode_int64s(0, &vec![], &uncompressed, "nonsense-codec").unwrap();

    let cfg = Layout { nesting_depth: 0, atom_size: 8, is_atomic: true };
    let chunks: Vec<Chunk> = structural_decode(&uncompressed, cfg).unwrap();
    let mut levels = Vec::new();
    let mut flat = Vec::new();
    for c in &chunks {
        levels.extend(&c.levels);
        flat.extend(&c.atom_bytes);
    }
    let atoms: Vec<i64> = flat
        .chunks(8)
        .map(|g| i64::from_be_bytes(g.try_into().unwrap()))
        .collect();
    assert_eq!(col.rep_levels, levels);
    assert_eq!(col.atoms, atoms);
}

#[test]
fn roundtrip_int64_compressed() {
    let vals = vec![1i64, -5, 1_000_000, i64::MAX, i64::MIN];
    let codec = <i64 as Primitive>::new_value_codec("q_compress").unwrap();
    let compressed = codec.compress(&int_fvs(&vals), 0).unwrap();
    let col = decode_int64s(0, &compressed, &vec![], "q_compress").unwrap();
    assert_eq!(col.atoms, vals);
    assert_eq!(col.rep_levels, vec![1, 1, 1, 1, 1]);
    assert_eq!(col.atoms.len(), col.rep_levels.len());
}

#[test]
fn roundtrip_int64_structural() {
    let vals = vec![42i64, -1, 0, 255, -256];
    let uncompressed = EncoderImpl::<i64>::new(0).encode(&int_fvs(&vals)).unwrap();
    let col = decode_int64s(0, &vec![], &uncompressed, "q_compress").unwrap();
    assert_eq!(col.atoms, vals);
    assert_eq!(col.rep_levels, vec![1, 1, 1, 1, 1]);
    assert_eq!(col.atoms.len(), col.rep_levels.len());
}

#[test]
fn roundtrip_int64_nested_list() {
    let inner = RepeatedFieldValue { vals: int_fvs(&[3, 4]) };
    let fvs = vec![FieldValue { value: Some(Value::ListVal(inner)) }];
    let uncompressed = EncoderImpl::<i64>::new(1).encode(&fvs).unwrap();
    let col = decode_int64s(1, &vec![], &uncompressed, "q_compress").unwrap();
    assert_eq!(col.atoms, vec![3, 4]);
    assert_eq!(col.rep_levels, vec![2, 2, 1]);
}

#[test]
fn roundtrip_bools_both_tiers() {
    let fvs: Vec<FieldValue> = [true, false, true]
        .iter()
        .map(|b| FieldValue { value: Some(Value::BoolVal(*b)) })
        .collect();
    let codec = <bool as Primitive>::new_value_codec("q_compress").unwrap();
    let compressed = codec.compress(&fvs, 0).unwrap();
    let uncompressed = EncoderImpl::<bool>::new(0).encode(&fvs).unwrap();
    let col = decode_bools(0, &compressed, &uncompressed, "q_compress").unwrap();
    assert_eq!(col.atoms, vec![true, false, true, true, false, true]);
    assert_eq!(col.rep_levels, vec![1, 1, 1, 1, 1, 1]);
}

#[test]
fn roundtrip_float32() {
    let vals = vec![1.5f32, -0.25, 3.0e10];
    let fvs: Vec<FieldValue> = vals
        .iter()
        .map(|v| FieldValue { value: Some(Value::Float32Val(*v)) })
        .collect();
    let codec = <f32 as Primitive>::new_value_codec("q_compress").unwrap();
    let compressed = codec.compress(&fvs, 0).unwrap();
    let (levels, rest) = split_q_compressed(&compressed, "q_compress").unwrap().unwrap();
    let bits: Vec<u32> = F32QCodec {}
        .decompress_atoms(&rest)
        .unwrap()
        .iter()
        .map(|f| f.to_bits())
        .collect();
    let uncompressed = EncoderImpl::<f32>::new(0).encode(&fvs).unwrap();
    let col = assemble_float32s(0, levels, bits, &uncompressed).unwrap();
    let expected: Vec<u32> = vals.iter().map(|f| f.to_bits()).collect();
    let both: Vec<u32> = expected.iter().chain(expected.iter()).cloned().collect();
    assert_eq!(col.atoms, both);
    assert_eq!(col.rep_levels, vec![1, 1, 1, 1, 1, 1]);
}

#[test]
fn roundtrip_float64() {
    let vals = vec![2.5f64, -1.0e-3];
    let fvs: Vec<FieldValue> = vals
        .iter()
        .map(|v| FieldValue { value: Some(Value::Float64Val(*v)) })
        .collect();
    let codec = <f64 as Primitive>::new_value_codec("q_compress").unwrap();
    let compressed = codec.compress(&fvs, 0).unwrap();
    let (levels, rest) = split_q_compressed(&compressed, "q_compress").unwrap().unwrap();
    let bits: Vec<u64> = F64QCodec {}
        .decompress_atoms(&rest)
        .unwrap()
        .iter()
        .map(|f| f.to_bits())
        .collect();
    let uncompressed = EncoderImpl::<f64>::new(0).encode(&fvs).unwrap();
    let col = assemble_float64s(0, levels, bits, &uncompressed).unwrap();
    let expected: Vec<u64> = vals.iter().map(|f| f.to_bits()).collect();
    let both: Vec<u64> = expected.iter().chain(expected.iter()).cloned().collect();
    assert_eq!(col.atoms, both);
    assert_eq!(col.rep_levels, vec![1, 1, 1, 1]);
}

#[test]
fn roundtrip_timestamps_compressed() {
    let ts1 = TimestampMicros::from_secs_and_nanos(5, 123_456_000);
    let ts2 = TimestampMicros::from_secs_and_nanos(-2, 500_000_000);
    let mut compressed = compress_levels(&[1, 1]);
    compressed.extend(TimestampMicrosQCodec {}.compress_atoms(&[ts1, ts2]).unwrap());
    let col = decode_timestamps(0, &compressed, &vec![], "q_compress").unwrap();
    assert_eq!(col.atoms, vec![5_123_456i64, -1_500_000]);
    assert_eq!(col.rep_levels, vec![1, 1]);
}

#[test]
fn roundtrip_timestamps_structural() {
    let ts = TimestampMicros::from_secs_and_nanos(1_600_000_000, 250_000_000);
    let uncompressed = escape(&NumberLike::to_bytes(ts));
    let col = decode_timestamps(0, &vec![], &uncompressed, "q_compress").unwrap();
    assert_eq!(col.atoms, vec![1_600_000_000_250_000i64]);
    assert_eq!(col.rep_levels, vec![1]);
}

#[test]
fn roundtrip_strings_both_tiers() {
    let strs = ["orange", "fig"];
    let fvs: Vec<FieldValue> = strs
        .iter()
        .map(|s| FieldValue { value: Some(Value::StringVal(s.to_string())) })
        .collect();
    let codec = <String as Primitive>::new_value_codec("zstd").unwrap();
    let compressed = codec.compress(&fvs, 0).unwrap();
    let uncompressed = EncoderImpl::<String>::new(0).encode(&fvs).unwrap();
    let col = decode_string_or_bytes(0, &compressed, &uncompressed, "zstd").unwrap();
    let one_tier: Vec<u8> = b"orangefig".to_vec();
    let mut both = one_tier.clone();
    both.extend(&one_tier);
    assert_eq!(col.atoms, both);
    let one_levels = vec![2, 2, 2, 2, 2, 2, 1, 2, 2, 2, 1];
    let mut levels = one_levels.clone();
    levels.extend(&one_levels);
    assert_eq!(col.rep_levels, levels);
}

#[test]
fn roundtrip_raw_bytes_structural() {
    let fvs = vec![FieldValue { value: Some(Value::BytesVal(vec![0, 254, 255, 7])) }];
    let uncompressed = EncoderImpl::<Vec<u8>>::new(0).encode(&fvs).unwrap();
    let col = decode_string_or_bytes(0, &vec![], &uncompressed, "zstd").unwrap();
    assert_eq!(col.atoms, vec![0, 254, 255, 7]);
    assert_eq!(col.rep_levels, vec![2, 2, 2, 2, 1]);
}

#[test]
fn null_values_decode_to_level_zero() {
    let fvs = vec![
        FieldValue { value: None },
        FieldValue { value: Some(Value::Int64Val(42)) },
    ];
    let uncompressed = EncoderImpl::<i64>::new(0).encode(&fvs).unwrap();
    let col = decode_int64s(0, &vec![], &uncompressed, "q_compress").unwrap();
    assert_eq!(col.atoms, vec![42]);
    assert_eq!(col.rep_levels, vec![0, 1]);
}

#[test]
fn count_marker_on_empty_prefix_yields_nulls() {
    let uncompressed = vec![254, 0, 0, 0, 2];
    let col = decode_int64s(0, &vec![], &uncompressed, "q_compress").unwrap();
    assert_eq!(col.atoms, Vec::<i64>::new());
    assert_eq!(col.rep_levels, vec![0, 0]);
}

#[test]
fn count_marker_mismatch_is_corrupt() {
    let mut uncompressed = EncoderImpl::<i64>::new(0).encode(&int_fvs(&[9])).unwrap();
    uncompressed.extend(vec![254, 0, 0, 0, 5]);
    let r = decode_int64s(0, &vec![], &uncompressed, "q_compress");
    assert_eq!(r.unwrap_err(), DecodeError::CorruptData);
}

#[test]
fn wrong_codec_name_is_unsupported() {
    let codec = <i64 as Primitive>::new_value_codec("q_compress").unwrap();
    let compressed = codec.compress(&int_fvs(&[1]), 0).unwrap();
    let r = decode_int64s(0, &compressed, &vec![], "zstd");
    assert_eq!(r.unwrap_err(), DecodeError::UnsupportedCodec);
    let r = decode_string_or_bytes(0, &compressed, &vec![], "q_compress");
    assert_eq!(r.unwrap_err(), DecodeError::UnsupportedCodec);
}

#[test]
fn mismatched_codec_data_never_returns_values() {
    let fvs = vec![FieldValue { value: Some(Value::StringVal("pear".to_string())) }];
    let codec = <String as Primitive>::new_value_codec("zstd").unwrap();
    let zstd_block = codec.compress(&fvs, 0).unwrap();
    let r = decode_int64s(0, &zstd_block, &vec![], "q_compress");
    assert!(matches!(
        r.unwrap_err(),
        DecodeError::CorruptData | DecodeError::UnsupportedCodec
    ));
}

#[test]
fn truncated_compressed_block_is_corrupt() {
    let r = decode_int64s(0, &vec![1, 2, 3], &vec![], "q_compress");
    assert_eq!(r.unwrap_err(), DecodeError::CorruptData);
}

#[test]
fn dangling_escape_is_corrupt() {
    let r = decode_int64s(0, &vec![], &vec![255], "q_compress");
    assert_eq!(r.unwrap_err(), DecodeError::CorruptData);
}

#[test]
fn bad_bool_byte_is_corrupt() {
    let r = decode_bools(0, &vec![], &vec![2], "q_compress");
    assert_eq!(r.unwrap_err(), DecodeError::CorruptData);
}

#[test]
fn deletion_bits_roundtrip() {
    let bits = vec![true, false, false, true];
    let block = compress_deletions(&bits).unwrap();
    let decoded = decode_deletions(&block).unwrap();
    assert_eq!(decoded, bits);
    assert_eq!(decoded.len(), bits.len());
    // Decoding the same block twice yields the same sequence.
    let again = decode_deletions(&block).unwrap();
    assert_eq!(decoded, again);
}

#[test]
fn empty_deletion_block_is_empty_bitmap() {
    let decoded = decode_deletions(&vec![]).unwrap();
    assert_eq!(decoded, Vec::<bool>::new());
}

#[test]
fn corrupt_deletion_block_fails() {
    let r = decode_deletions(&vec![9, 9, 9]);
    assert_eq!(r.unwrap_err(), DecodeError::CorruptData);
}
