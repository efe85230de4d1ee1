//! Typed views of atom payload bytes.
//!
//! The structural tier stores every atom as a fixed-width big-endian byte
//! group: 8 bytes for a 64-bit integer, 4 or 8 for float bit patterns, 1 for
//! a boolean, 12 for a timestamp, 1 for a byte-run element. These functions
//! turn the flat payload of a decoded tier into typed atom vectors.
//!
//! Float atoms are handed out as their raw bit patterns (`u32` / `u64`); the
//! caller reinterprets them. Timestamp atoms are stored as a 96-bit offset
//! from the lowest representable instant, which is a whole multiple of
//! 2^64 microseconds below the epoch; the atoms are exposed as signed 64-bit
//! total-microsecond counts, so the projection below reduces the offset
//! modulo 2^64 and reinterprets it as a two's-complement count.

use vstd::prelude::*;

use crate::errors::DecodeError;

verus! {

/// One more than the largest valid 96-bit timestamp offset: the span of
/// microsecond timestamps whose seconds fit in a signed 64-bit integer.
pub const TS_SPAN: u128 = 18_446_744_073_709_551_616 * 1_000_000;

/// 256 to the power `k`.
pub open spec fn pow256(k: nat) -> nat
    decreases k,
{
    if k == 0 {
        1
    } else {
        256 * pow256((k - 1) as nat)
    }
}

proof fn lemma_pow256_pos(k: nat)
    ensures
        pow256(k) >= 1,
    decreases k,
{
    if k > 0 {
        lemma_pow256_pos((k - 1) as nat);
    }
}

proof fn lemma_pow256_monotone(a: nat, b: nat)
    requires
        a <= b,
    ensures
        pow256(a) <= pow256(b),
    decreases b,
{
    if a < b {
        lemma_pow256_monotone(a, (b - 1) as nat);
        lemma_pow256_pos((b - 1) as nat);
    }
}

proof fn lemma_pow256_values()
    ensures
        pow256(14) == 0x10000000000000000000000000000,
        pow256(15) == 0x1000000000000000000000000000000,
{
    assert(pow256(0) == 1);
    assert(pow256(1) == 0x100);
    assert(pow256(2) == 0x10000);
    assert(pow256(3) == 0x1000000);
    assert(pow256(4) == 0x100000000);
    assert(pow256(5) == 0x10000000000);
    assert(pow256(6) == 0x1000000000000);
    assert(pow256(7) == 0x100000000000000);
    assert(pow256(8) == 0x10000000000000000);
    assert(pow256(9) == 0x1000000000000000000);
    assert(pow256(10) == 0x100000000000000000000);
    assert(pow256(11) == 0x10000000000000000000000);
    assert(pow256(12) == 0x1000000000000000000000000);
    assert(pow256(13) == 0x100000000000000000000000000);
    assert(pow256(14) == 0x10000000000000000000000000000);
    assert(pow256(15) == 0x1000000000000000000000000000000);
}

/// The big-endian value of a byte sequence.
pub open spec fn be_value(bs: Seq<u8>) -> nat
    decreases bs.len(),
{
    if bs.len() == 0 {
        0
    } else {
        (be_value(bs.drop_last()) * 256 + bs.last()) as nat
    }
}

proof fn lemma_be_value_bound(bs: Seq<u8>)
    ensures
        be_value(bs) < pow256(bs.len()),
    decreases bs.len(),
{
    if bs.len() > 0 {
        lemma_be_value_bound(bs.drop_last());
    }
}

/// Reads the big-endian value of `n` bytes starting at `start`.
fn read_be(bytes: &Vec<u8>, start: usize, n: usize) -> (r: u128)
    requires
        start + n <= bytes@.len(),
        n <= 15,
    ensures
        r as nat == be_value(bytes@.subrange(start as int, start as int + n as int)),
{
    let blen = bytes.len();
    let mut acc: u128 = 0;
    let mut k: usize = 0;
    while k < n
        invariant
            k <= n,
            n <= 15,
            blen == bytes@.len(),
            start + n <= blen,
            acc as nat == be_value(bytes@.subrange(start as int, start as int + k as int)),
        decreases n - k,
    {
        proof {
            lemma_be_value_bound(bytes@.subrange(start as int, start as int + k as int));
            lemma_pow256_monotone(k as nat, 14);
            lemma_pow256_values();
        }
        acc = acc * 256 + bytes[start + k] as u128;
        proof {
            assert(bytes@.subrange(start as int, start as int + (k + 1) as int).drop_last()
                =~= bytes@.subrange(start as int, start as int + k as int));
        }
        k = k + 1;
    }
    acc
}

/// A 64-bit value reinterpreted as a two's-complement signed count.
pub open spec fn wrap_i64_of(v: nat) -> i64 {
    let m = v % 0x10000000000000000;
    if m >= 0x8000000000000000 {
        (m - 0x10000000000000000) as i64
    } else {
        m as i64
    }
}

fn wrap_i64(v: u128) -> (r: i64)
    ensures
        r == wrap_i64_of(v as nat),
{
    let m: u128 = v % 0x10000000000000000;
    if m >= 0x8000000000000000 {
        ((m as i128) - 0x10000000000000000i128) as i64
    } else {
        m as i64
    }
}

/// The signed 64-bit integer stored as 8 big-endian bytes.
pub open spec fn i64_of_be(bs: Seq<u8>) -> i64 {
    wrap_i64_of(be_value(bs))
}

/// The 32-bit pattern stored as 4 big-endian bytes.
pub open spec fn u32_of_be(bs: Seq<u8>) -> u32 {
    (be_value(bs) % 0x100000000) as u32
}

/// The 64-bit pattern stored as 8 big-endian bytes.
pub open spec fn u64_of_be(bs: Seq<u8>) -> u64 {
    (be_value(bs) % 0x10000000000000000) as u64
}

/// The flat payload of an integer column, in 8-byte groups.
pub open spec fn i64s_of_bytes(ab: Seq<u8>) -> Seq<i64> {
    Seq::new((ab.len() / 8) as nat, |k: int| i64_of_be(ab.subrange(8 * k, 8 * k + 8)))
}

/// The flat payload of a 32-bit float column, as bit patterns.
pub open spec fn u32s_of_bytes(ab: Seq<u8>) -> Seq<u32> {
    Seq::new((ab.len() / 4) as nat, |k: int| u32_of_be(ab.subrange(4 * k, 4 * k + 4)))
}

/// The flat payload of a 64-bit float column, as bit patterns.
pub open spec fn u64s_of_bytes(ab: Seq<u8>) -> Seq<u64> {
    Seq::new((ab.len() / 8) as nat, |k: int| u64_of_be(ab.subrange(8 * k, 8 * k + 8)))
}

/// The flat payload of a timestamp column, in 12-byte groups: each group is
/// a 96-bit offset that must lie inside the representable span, projected to
/// total microseconds. A group outside the span is corrupt.
pub open spec fn ts_micros_of_bytes(ab: Seq<u8>) -> Option<Seq<i64>> {
    if forall|k: int|
        0 <= k < ab.len() / 12 ==> be_value(#[trigger] ab.subrange(12 * k, 12 * k + 12))
            < TS_SPAN {
        Some(
            Seq::new(
                (ab.len() / 12) as nat,
                |k: int| wrap_i64_of(be_value(ab.subrange(12 * k, 12 * k + 12))),
            ),
        )
    } else {
        None
    }
}

/// The flat payload of a boolean column: one byte per value, 0 or 1; any
/// other byte is corrupt.
pub open spec fn bools_of_bytes(ab: Seq<u8>) -> Option<Seq<bool>> {
    if forall|q: int| 0 <= q < ab.len() ==> ab[q] <= 1 {
        Some(ab.map_values(|b: u8| b == 1))
    } else {
        None
    }
}

/// Groups a flat integer payload into its atoms.
pub fn group_i64s(flat: &Vec<u8>) -> (r: Vec<i64>)
    ensures
        r@ == i64s_of_bytes(flat@),
{
    let blen = flat.len();
    let n = blen / 8;
    proof {
        vstd::arithmetic::div_mod::lemma_fundamental_div_mod(flat@.len() as int, 8);
    }
    let mut out: Vec<i64> = Vec::new();
    let mut k: usize = 0;
    while k < n
        invariant
            k <= n,
            n == flat@.len() / 8,
            blen == flat@.len(),
            8 * n <= blen,
            out@.len() == k,
            forall|q: int| 0 <= q < k ==> out@[q] == i64_of_be(flat@.subrange(8 * q, 8 * q + 8)),
        decreases n - k,
    {
        let v = read_be(flat, 8 * k, 8);
        out.push(wrap_i64(v));
        k = k + 1;
    }
    proof {
        assert(out@ =~= i64s_of_bytes(flat@));
    }
    out
}

/// Groups a flat 32-bit float payload into its atom bit patterns.
pub fn group_u32s(flat: &Vec<u8>) -> (r: Vec<u32>)
    ensures
        r@ == u32s_of_bytes(flat@),
{
    let blen = flat.len();
    let n = blen / 4;
    proof {
        vstd::arithmetic::div_mod::lemma_fundamental_div_mod(flat@.len() as int, 4);
    }
    let mut out: Vec<u32> = Vec::new();
    let mut k: usize = 0;
    while k < n
        invariant
            k <= n,
            n == flat@.len() / 4,
            blen == flat@.len(),
            4 * n <= blen,
            out@.len() == k,
            forall|q: int| 0 <= q < k ==> out@[q] == u32_of_be(flat@.subrange(4 * q, 4 * q + 4)),
        decreases n - k,
    {
        let v = read_be(flat, 4 * k, 4);
        proof {
            lemma_be_value_bound(flat@.subrange(4 * k as int, 4 * k as int + 4));
            lemma_pow256_values();
            lemma_pow256_monotone(4, 14);
        }
        out.push((v % 0x100000000) as u32);
        k = k + 1;
    }
    proof {
        assert(out@ =~= u32s_of_bytes(flat@));
    }
    out
}

/// Groups a flat 64-bit float payload into its atom bit patterns.
pub fn group_u64s(flat: &Vec<u8>) -> (r: Vec<u64>)
    ensures
        r@ == u64s_of_bytes(flat@),
{
    let blen = flat.len();
    let n = blen / 8;
    proof {
        vstd::arithmetic::div_mod::lemma_fundamental_div_mod(flat@.len() as int, 8);
    }
    let mut out: Vec<u64> = Vec::new();
    let mut k: usize = 0;
    while k < n
        invariant
            k <= n,
            n == flat@.len() / 8,
            blen == flat@.len(),
            8 * n <= blen,
            out@.len() == k,
            forall|q: int| 0 <= q < k ==> out@[q] == u64_of_be(flat@.subrange(8 * q, 8 * q + 8)),
        decreases n - k,
    {
        let v = read_be(flat, 8 * k, 8);
        out.push((v % 0x10000000000000000) as u64);
        k = k + 1;
    }
    proof {
        assert(out@ =~= u64s_of_bytes(flat@));
    }
    out
}

/// Groups a flat timestamp payload into total-microsecond atoms, failing on
/// any group outside the representable span.
pub fn group_ts_micros(flat: &Vec<u8>) -> (r: Result<Vec<i64>, DecodeError>)
    ensures
        match r {
            Ok(v) => ts_micros_of_bytes(flat@) == Some(v@),
            Err(e) => e == DecodeError::CorruptData && ts_micros_of_bytes(flat@) is None,
        },
{
    let blen = flat.len();
    let n = blen / 12;
    proof {
        vstd::arithmetic::div_mod::lemma_fundamental_div_mod(flat@.len() as int, 12);
    }
    let mut out: Vec<i64> = Vec::new();
    let mut k: usize = 0;
    while k < n
        invariant
            k <= n,
            n == flat@.len() / 12,
            blen == flat@.len(),
            12 * n <= blen,
            out@.len() == k,
            forall|q: int|
                0 <= q < k ==> be_value(#[trigger] flat@.subrange(12 * q, 12 * q + 12)) < TS_SPAN,
            forall|q: int|
                0 <= q < k ==> out@[q] == wrap_i64_of(
                    be_value(flat@.subrange(12 * q, 12 * q + 12)),
                ),
        decreases n - k,
    {
        let v = read_be(flat, 12 * k, 12);
        if v >= TS_SPAN {
            proof {
                assert(be_value(flat@.subrange(12 * k as int, 12 * k as int + 12)) >= TS_SPAN);
            }
            return Err(DecodeError::CorruptData);
        }
        out.push(wrap_i64(v));
        k = k + 1;
    }
    proof {
        assert(ts_micros_of_bytes(flat@) == Some(out@)) by {
            assert(out@ =~= Seq::new(
                (flat@.len() / 12) as nat,
                |q: int| wrap_i64_of(be_value(flat@.subrange(12 * q, 12 * q + 12))),
            ));
        }
    }
    Ok(out)
}

/// Turns a flat boolean payload into its atoms, failing on any byte other
/// than 0 or 1.
pub fn group_bools(flat: &Vec<u8>) -> (r: Result<Vec<bool>, DecodeError>)
    ensures
        match r {
            Ok(v) => bools_of_bytes(flat@) == Some(v@),
            Err(e) => e == DecodeError::CorruptData && bools_of_bytes(flat@) is None,
        },
{
    let mut out: Vec<bool> = Vec::new();
    let mut k: usize = 0;
    while k < flat.len()
        invariant
            k <= flat@.len(),
            out@.len() == k,
            forall|q: int| 0 <= q < k ==> flat@[q] <= 1,
            forall|q: int| 0 <= q < k ==> out@[q] == (flat@[q] == 1),
        decreases flat@.len() - k,
    {
        let b = flat[k];
        if b > 1 {
            return Err(DecodeError::CorruptData);
        }
        out.push(b == 1);
        k = k + 1;
    }
    proof {
        assert(bools_of_bytes(flat@) == Some(out@)) by {
            assert(out@ =~= flat@.map_values(|b: u8| b == 1));
        }
    }
    Ok(out)
}

} // verus!
