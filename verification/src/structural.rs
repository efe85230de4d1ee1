//! Decoder for the uncompressed-but-structurally-encoded column tier.
//!
//! The byte format interleaves repetition structure with raw atom payloads.
//! Three byte values are reserved: 253 marks a null top-level value, 254
//! introduces a big-endian u32 count of the top-level values decoded so far,
//! and 255 escapes a following byte (stored complemented) so that payload
//! bytes greater than or equal to 253 can occur inside lengths and atoms.
//!
//! A buffer decodes into zero or more chunks, one per top-level value. Each
//! chunk carries its repetition levels and its atom payload bytes. At nesting
//! depth `d` below the configured depth a value is a list: a two-byte
//! big-endian length followed by that many child values, closed by the level
//! `d + 1`. At the configured depth the value is the atom payload itself:
//! either a single atom (atomic kinds, level `depth + 1`) or a two-byte atom
//! count followed by the atoms (variable-size kinds, one level `depth + 2`
//! per atom and a closing `depth + 1`).

use vstd::prelude::*;

use crate::errors::DecodeError;

verus! {

/// Marks a null top-level value.
pub const NULL_MARKER: u8 = 253;
/// Introduces an escaped count of decoded top-level values.
pub const COUNT_MARKER: u8 = 254;
/// Escapes the following (complemented) byte.
pub const ESCAPE_MARKER: u8 = 255;

/// How one primitive kind lays its atoms out in the structural encoding.
#[derive(Clone, Copy, Debug)]
pub struct Layout {
    /// How many nested list layers the buffer encodes below the top level.
    pub nesting_depth: u8,
    /// Size in bytes of one atom on the wire.
    pub atom_size: usize,
    /// Whether a value at full depth is a single atom (as opposed to a
    /// length-delimited run of atoms).
    pub is_atomic: bool,
}

impl Layout {
    /// Atom sizes are small (at most 12 today) and levels must fit in a byte.
    pub open spec fn wf(self) -> bool {
        1 <= self.atom_size <= 16 && self.nesting_depth <= 253
    }
}

/// The decoded form of one top-level value: its repetition levels and its
/// atom payload bytes, in order.
#[derive(Debug)]
pub struct Chunk {
    pub levels: Vec<u8>,
    pub atom_bytes: Vec<u8>,
}

impl View for Chunk {
    type V = (Seq<u8>, Seq<u8>);

    open spec fn view(&self) -> (Seq<u8>, Seq<u8>) {
        (self.levels@, self.atom_bytes@)
    }
}

/// The chunk a null top-level value decodes to: one level 0, no atoms.
pub open spec fn null_chunk() -> (Seq<u8>, Seq<u8>) {
    (seq![0u8], Seq::<u8>::empty())
}

/// The stored complement of an escaped byte.
pub open spec fn complement(b: u8) -> u8 {
    (255 - b) as u8
}

/// Reads one payload byte at `i`: either a plain byte below 253 or an
/// escape marker followed by the complemented byte. Returns the byte and the
/// next position, or `None` on a truncated or malformed read.
pub open spec fn unescape_one_spec(bytes: Seq<u8>, i: int) -> Option<(u8, int)> {
    if i < 0 || i >= bytes.len() {
        None
    } else {
        let b = bytes[i];
        if b == ESCAPE_MARKER {
            if i + 1 >= bytes.len() {
                None
            } else {
                Some((complement(bytes[i + 1]), i + 2))
            }
        } else if b >= NULL_MARKER {
            None
        } else {
            Some((b, i + 1))
        }
    }
}

/// Reads `n` payload bytes starting at `i`, appended to `acc`.
pub open spec fn unescape_n_spec(bytes: Seq<u8>, i: int, n: nat, acc: Seq<u8>) -> Option<(Seq<u8>, int)>
    decreases n,
{
    if n == 0 {
        Some((acc, i))
    } else {
        match unescape_one_spec(bytes, i) {
            None => None,
            Some((b, j)) => unescape_n_spec(bytes, j, (n - 1) as nat, acc.push(b)),
        }
    }
}

/// Reads a big-endian two-byte payload length.
pub open spec fn read_u16_spec(bytes: Seq<u8>, i: int) -> Option<(int, int)> {
    match unescape_one_spec(bytes, i) {
        None => None,
        Some((b0, j)) => match unescape_one_spec(bytes, j) {
            None => None,
            Some((b1, k)) => Some((b0 * 256 + b1, k)),
        },
    }
}

/// The big-endian value of four count bytes.
pub open spec fn be32(s: Seq<u8>) -> int {
    s[0] * 16777216 + s[1] * 65536 + s[2] * 256 + s[3]
}

/// Decodes one value at nesting depth `depth`, returning its levels, its
/// atom payload bytes and the next position.
pub open spec fn decode_value_spec(bytes: Seq<u8>, i: int, depth: int, cfg: Layout) -> Option<((Seq<u8>, Seq<u8>), int)>
    decreases cfg.nesting_depth - depth, 1int, 0int
        when 0 <= depth <= cfg.nesting_depth
{
    if depth == cfg.nesting_depth {
        if cfg.is_atomic {
            match unescape_n_spec(bytes, i, cfg.atom_size as nat, Seq::empty()) {
                None => None,
                Some((ab, j)) => Some(((seq![(depth + 1) as u8], ab), j)),
            }
        } else {
            match read_u16_spec(bytes, i) {
                None => None,
                Some((n, j)) => match unescape_n_spec(bytes, j, (n * cfg.atom_size) as nat, Seq::empty()) {
                    None => None,
                    Some((ab, k)) => Some(((
                        Seq::new(n as nat, |q: int| (depth + 2) as u8).push((depth + 1) as u8),
                        ab,
                    ), k)),
                },
            }
        }
    } else {
        match read_u16_spec(bytes, i) {
            None => None,
            Some((n, j)) => match decode_children_spec(bytes, j, depth, cfg, n as nat, Seq::empty(), Seq::empty()) {
                None => None,
                Some(((lv, ab), k)) => Some(((lv.push((depth + 1) as u8), ab), k)),
            },
        }
    }
}

/// Decodes `count` child values at depth `depth + 1`, concatenating their
/// levels and atom bytes onto the accumulators.
pub open spec fn decode_children_spec(
    bytes: Seq<u8>,
    i: int,
    depth: int,
    cfg: Layout,
    count: nat,
    acc_levels: Seq<u8>,
    acc_atoms: Seq<u8>,
) -> Option<((Seq<u8>, Seq<u8>), int)>
    decreases cfg.nesting_depth - depth, 0int, count
        when 0 <= depth < cfg.nesting_depth
{
    if count == 0 {
        Some(((acc_levels, acc_atoms), i))
    } else {
        match decode_value_spec(bytes, i, depth + 1, cfg) {
            None => None,
            Some(((lv, ab), j)) => decode_children_spec(
                bytes, j, depth, cfg, (count - 1) as nat, acc_levels + lv, acc_atoms + ab,
            ),
        }
    }
}

/// Decodes top-level values from position `i` to the end of the buffer,
/// appended to `acc`. A null marker yields a null chunk. A count marker
/// carries the number of values decoded so far: on an empty prefix it stands
/// for that many nulls, otherwise a mismatch is corrupt. Anything else
/// starts one encoded value.
pub open spec fn decode_items_spec(
    bytes: Seq<u8>,
    i: int,
    acc: Seq<(Seq<u8>, Seq<u8>)>,
    cfg: Layout,
) -> Option<Seq<(Seq<u8>, Seq<u8>)>>
    decreases bytes.len() - i
        when 0 <= i
{
    if i >= bytes.len() {
        Some(acc)
    } else {
        let b0 = bytes[i];
        if b0 == NULL_MARKER {
            decode_items_spec(bytes, i + 1, acc.push(null_chunk()), cfg)
        } else if b0 == COUNT_MARKER {
            match unescape_n_spec(bytes, i + 1, 4, Seq::empty()) {
                None => None,
                Some((cb, j)) => {
                    let count = be32(cb);
                    if j <= i || j > bytes.len() {
                        None
                    } else if acc.len() == 0 {
                        decode_items_spec(bytes, j, Seq::new(count as nat, |q: int| null_chunk()), cfg)
                    } else if acc.len() != count {
                        None
                    } else {
                        decode_items_spec(bytes, j, acc, cfg)
                    }
                },
            }
        } else {
            match decode_value_spec(bytes, i, 0, cfg) {
                None => None,
                Some((c, j)) => if j <= i || j > bytes.len() {
                    None
                } else {
                    decode_items_spec(bytes, j, acc.push(c), cfg)
                },
            }
        }
    }
}

/// What a whole buffer decodes to.
pub open spec fn structural_decode_spec(bytes: Seq<u8>, cfg: Layout) -> Option<Seq<(Seq<u8>, Seq<u8>)>> {
    decode_items_spec(bytes, 0, Seq::empty(), cfg)
}

/// The chunk views of a decoded vector, in order.
pub open spec fn chunks_view(cs: Seq<Chunk>) -> Seq<(Seq<u8>, Seq<u8>)> {
    cs.map_values(|c: Chunk| c@)
}

proof fn lemma_chunks_view_push(cs: Seq<Chunk>, c: Chunk)
    ensures
        chunks_view(cs.push(c)) =~= chunks_view(cs).push(c@),
{
    assert forall|q: int| 0 <= q < cs.len() + 1 implies chunks_view(cs.push(c))[q]
        == chunks_view(cs).push(c@)[q] by {
        if q < cs.len() {
            assert(cs.push(c)[q] == cs[q]);
        } else {
            assert(cs.push(c)[q] == c);
        }
    }
}

/// All chunk repetition levels, concatenated in chunk order.
pub open spec fn flat_levels(cs: Seq<(Seq<u8>, Seq<u8>)>) -> Seq<u8>
    decreases cs.len(),
{
    if cs.len() == 0 {
        Seq::empty()
    } else {
        flat_levels(cs.drop_last()) + cs.last().0
    }
}

/// All chunk atom payload bytes, concatenated in chunk order.
pub open spec fn flat_atom_bytes(cs: Seq<(Seq<u8>, Seq<u8>)>) -> Seq<u8>
    decreases cs.len(),
{
    if cs.len() == 0 {
        Seq::empty()
    } else {
        flat_atom_bytes(cs.drop_last()) + cs.last().1
    }
}

/// How many entries of `s` equal `m`.
pub open spec fn count_eq(s: Seq<u8>, m: u8) -> nat
    decreases s.len(),
{
    if s.len() == 0 {
        0
    } else {
        (count_eq(s.drop_last(), m) + if s.last() == m {
            1nat
        } else {
            0nat
        }) as nat
    }
}

/// The repetition level that marks one atom of this layout: the value level
/// for atomic kinds, the run-element level for variable-size kinds. Null
/// levels (0) and list-closing levels are always below it.
pub open spec fn atom_marker(cfg: Layout) -> u8 {
    if cfg.is_atomic {
        (cfg.nesting_depth + 1) as u8
    } else {
        (cfg.nesting_depth + 2) as u8
    }
}

/// The length correspondence one chunk obeys: its atom payload holds
/// exactly `atom_size` bytes per marker level.
pub open spec fn chunk_counts_ok(c: (Seq<u8>, Seq<u8>), cfg: Layout) -> bool {
    c.1.len() == cfg.atom_size * count_eq(c.0, atom_marker(cfg))
}

proof fn lemma_count_eq_concat(a: Seq<u8>, b: Seq<u8>, m: u8)
    ensures
        count_eq(a + b, m) == count_eq(a, m) + count_eq(b, m),
    decreases b.len(),
{
    if b.len() == 0 {
        assert(a + b =~= a);
    } else {
        assert((a + b).drop_last() =~= a + b.drop_last());
        lemma_count_eq_concat(a, b.drop_last(), m);
    }
}

proof fn lemma_count_eq_const(n: nat, m: u8)
    ensures
        count_eq(Seq::new(n, |q: int| m), m) == n,
    decreases n,
{
    if n > 0 {
        assert(Seq::new(n, |q: int| m).drop_last() =~= Seq::new((n - 1) as nat, |q: int| m));
        lemma_count_eq_const((n - 1) as nat, m);
    }
}

proof fn lemma_count_eq_all(s: Seq<u8>, m: u8)
    requires
        forall|q: int| 0 <= q < s.len() ==> s[q] == m,
    ensures
        count_eq(s, m) == s.len(),
    decreases s.len(),
{
    if s.len() > 0 {
        lemma_count_eq_all(s.drop_last(), m);
    }
}

proof fn lemma_unescape_n_len(bytes: Seq<u8>, i: int, n: nat, acc: Seq<u8>)
    ensures
        match unescape_n_spec(bytes, i, n, acc) {
            Some((s, j)) => s.len() == acc.len() + n,
            None => true,
        },
    decreases n,
{
    if n > 0 {
        match unescape_one_spec(bytes, i) {
            Some((b, j)) => lemma_unescape_n_len(bytes, j, (n - 1) as nat, acc.push(b)),
            None => {},
        }
    }
}

proof fn lemma_value_counts(bytes: Seq<u8>, i: int, depth: int, cfg: Layout)
    requires
        cfg.wf(),
        0 <= depth <= cfg.nesting_depth,
    ensures
        match decode_value_spec(bytes, i, depth, cfg) {
            Some((c, j)) => chunk_counts_ok(c, cfg),
            None => true,
        },
    decreases cfg.nesting_depth - depth, 1int, 0int,
{
    let m = atom_marker(cfg);
    if depth == cfg.nesting_depth {
        if cfg.is_atomic {
            match unescape_n_spec(bytes, i, cfg.atom_size as nat, Seq::empty()) {
                Some((ab, j)) => {
                    lemma_unescape_n_len(bytes, i, cfg.atom_size as nat, Seq::empty());
                    let lv = seq![(depth + 1) as u8];
                    assert(count_eq(Seq::<u8>::empty(), m) == 0);
                    assert(lv.len() == 1);
                    assert(lv.last() == m);
                    assert(lv.drop_last() =~= Seq::<u8>::empty());
                    assert(count_eq(lv, m) == 1);
                    assert(ab.len() == cfg.atom_size * count_eq(lv, m)) by (nonlinear_arith)
                        requires
                            ab.len() == cfg.atom_size,
                            count_eq(lv, m) == 1,
                    ;
                },
                None => {},
            }
        } else {
            match read_u16_spec(bytes, i) {
                Some((n, j)) => {
                    match unescape_n_spec(bytes, j, (n * cfg.atom_size) as nat, Seq::empty()) {
                        Some((ab, k)) => {
                            lemma_unescape_n_len(bytes, j, (n * cfg.atom_size) as nat, Seq::empty());
                            let base = Seq::new(n as nat, |q: int| (depth + 2) as u8);
                            lemma_count_eq_const(n as nat, m);
                            assert(base =~= Seq::new(n as nat, |q: int| m));
                            let lv = base.push((depth + 1) as u8);
                            assert(lv.drop_last() =~= base);
                            assert(lv.last() == (depth + 1) as u8);
                            assert((depth + 1) as u8 != m);
                            assert(count_eq(lv, m) == n);
                            assert(ab.len() == cfg.atom_size * count_eq(lv, m)) by (nonlinear_arith)
                                requires
                                    ab.len() == n * cfg.atom_size,
                                    count_eq(lv, m) == n,
                            ;
                        },
                        None => {},
                    }
                },
                None => {},
            }
        }
    } else {
        match read_u16_spec(bytes, i) {
            Some((n, j)) => {
                assert(chunk_counts_ok((Seq::<u8>::empty(), Seq::<u8>::empty()), cfg));
                lemma_children_counts(bytes, j, depth, cfg, n as nat, Seq::empty(), Seq::empty());
                match decode_children_spec(bytes, j, depth, cfg, n as nat, Seq::empty(), Seq::empty()) {
                    Some(((lv, ab), k)) => {
                        assert(lv.push((depth + 1) as u8).drop_last() =~= lv);
                        assert(lv.push((depth + 1) as u8).last() == (depth + 1) as u8);
                        assert((depth + 1) as u8 != m);
                        assert(count_eq(lv.push((depth + 1) as u8), m) == count_eq(lv, m));
                    },
                    None => {},
                }
            },
            None => {},
        }
    }
}

proof fn lemma_children_counts(
    bytes: Seq<u8>,
    i: int,
    depth: int,
    cfg: Layout,
    count: nat,
    acc_lv: Seq<u8>,
    acc_ab: Seq<u8>,
)
    requires
        cfg.wf(),
        0 <= depth < cfg.nesting_depth,
        chunk_counts_ok((acc_lv, acc_ab), cfg),
    ensures
        match decode_children_spec(bytes, i, depth, cfg, count, acc_lv, acc_ab) {
            Some((c, j)) => chunk_counts_ok(c, cfg),
            None => true,
        },
    decreases cfg.nesting_depth - depth, 0int, count,
{
    let m = atom_marker(cfg);
    if count > 0 {
        match decode_value_spec(bytes, i, depth + 1, cfg) {
            Some(((lv, ab), j)) => {
                lemma_value_counts(bytes, i, depth + 1, cfg);
                lemma_count_eq_concat(acc_lv, lv, m);
                assert(cfg.atom_size * (count_eq(acc_lv, m) + count_eq(lv, m)) == cfg.atom_size
                    * count_eq(acc_lv, m) + cfg.atom_size * count_eq(lv, m)) by (nonlinear_arith);
                lemma_children_counts(
                    bytes, j, depth, cfg, (count - 1) as nat, acc_lv + lv, acc_ab + ab,
                );
            },
            None => {},
        }
    }
}

proof fn lemma_null_chunk_counts(cfg: Layout)
    requires
        cfg.wf(),
    ensures
        chunk_counts_ok(null_chunk(), cfg),
{
    let m = atom_marker(cfg);
    assert(m != 0);
    assert(count_eq(Seq::<u8>::empty(), m) == 0);
    assert(seq![0u8].len() == 1);
    assert(seq![0u8].last() == 0u8);
    assert(seq![0u8].drop_last() =~= Seq::<u8>::empty());
    assert(count_eq(seq![0u8], m) == 0);
    assert(null_chunk().0 == seq![0u8]);
    assert(cfg.atom_size * count_eq(null_chunk().0, m) == 0) by (nonlinear_arith)
        requires
            count_eq(null_chunk().0, m) == 0,
    ;
}

proof fn lemma_items_counts(bytes: Seq<u8>, i: int, acc: Seq<(Seq<u8>, Seq<u8>)>, cfg: Layout)
    requires
        cfg.wf(),
        0 <= i,
        forall|q: int| 0 <= q < acc.len() ==> chunk_counts_ok(#[trigger] acc[q], cfg),
    ensures
        match decode_items_spec(bytes, i, acc, cfg) {
            Some(cs) => forall|q: int| 0 <= q < cs.len() ==> chunk_counts_ok(#[trigger] cs[q], cfg),
            None => true,
        },
    decreases bytes.len() - i,
{
    if i >= bytes.len() {
    } else {
        let b0 = bytes[i];
        if b0 == NULL_MARKER {
            lemma_null_chunk_counts(cfg);
            lemma_items_counts(bytes, i + 1, acc.push(null_chunk()), cfg);
        } else if b0 == COUNT_MARKER {
            match unescape_n_spec(bytes, i + 1, 4, Seq::empty()) {
                None => {},
                Some((cb, j)) => {
                    let count = be32(cb);
                    if j <= i || j > bytes.len() {
                    } else if acc.len() == 0 {
                        lemma_null_chunk_counts(cfg);
                        lemma_items_counts(bytes, j, Seq::new(count as nat, |q: int| null_chunk()), cfg);
                    } else if acc.len() != count {
                    } else {
                        lemma_items_counts(bytes, j, acc, cfg);
                    }
                },
            }
        } else {
            match decode_value_spec(bytes, i, 0, cfg) {
                None => {},
                Some((c, j)) => {
                    if j <= i || j > bytes.len() {
                    } else {
                        lemma_value_counts(bytes, i, 0, cfg);
                        lemma_items_counts(bytes, j, acc.push(c), cfg);
                    }
                },
            }
        }
    }
}

proof fn lemma_flat_counts(cs: Seq<(Seq<u8>, Seq<u8>)>, cfg: Layout)
    requires
        forall|q: int| 0 <= q < cs.len() ==> chunk_counts_ok(#[trigger] cs[q], cfg),
    ensures
        flat_atom_bytes(cs).len() == cfg.atom_size * count_eq(flat_levels(cs), atom_marker(cfg)),
    decreases cs.len(),
{
    let m = atom_marker(cfg);
    if cs.len() == 0 {
        assert(count_eq(Seq::<u8>::empty(), m) == 0);
        assert(flat_levels(cs) == Seq::<u8>::empty());
        assert(cfg.atom_size * count_eq(flat_levels(cs), m) == 0) by (nonlinear_arith)
            requires
                count_eq(flat_levels(cs), m) == 0,
        ;
    } else {
        assert forall|q: int| 0 <= q < cs.drop_last().len() implies chunk_counts_ok(
            #[trigger] cs.drop_last()[q],
            cfg,
        ) by {
            assert(cs.drop_last()[q] == cs[q]);
        }
        lemma_flat_counts(cs.drop_last(), cfg);
        assert(cs.last() == cs[cs.len() - 1]);
        assert(chunk_counts_ok(cs[cs.len() - 1], cfg));
        lemma_count_eq_concat(flat_levels(cs.drop_last()), cs.last().0, m);
        assert(flat_levels(cs) == flat_levels(cs.drop_last()) + cs.last().0);
        assert(flat_atom_bytes(cs) == flat_atom_bytes(cs.drop_last()) + cs.last().1);
        assert(flat_atom_bytes(cs).len() == flat_atom_bytes(cs.drop_last()).len()
            + cs.last().1.len());
        assert(count_eq(flat_levels(cs), m) == count_eq(flat_levels(cs.drop_last()), m)
            + count_eq(cs.last().0, m));
        assert(cfg.atom_size * (count_eq(flat_levels(cs.drop_last()), m) + count_eq(cs.last().0, m))
            == cfg.atom_size * count_eq(flat_levels(cs.drop_last()), m) + cfg.atom_size * count_eq(
            cs.last().0,
            m,
        )) by (nonlinear_arith);
    }
}

/// Law: a decoded buffer's flat atom payload holds exactly `atom_size`
/// bytes per repetition level that equals the layout's atom marker
/// (`nesting_depth + 1` for atomic kinds, `nesting_depth + 2` for
/// variable-size kinds); null levels and list-closing levels carry no atom
/// bytes. In particular, when every level is the marker, there are as many
/// atoms as levels.
pub proof fn lemma_structural_length_correspondence(bytes: Seq<u8>, cfg: Layout)
    requires
        cfg.wf(),
    ensures
        match structural_decode_spec(bytes, cfg) {
            Some(cs) => flat_atom_bytes(cs).len() == cfg.atom_size * count_eq(
                flat_levels(cs),
                atom_marker(cfg),
            ) && ((forall|q: int|
                0 <= q < flat_levels(cs).len() ==> flat_levels(cs)[q] == atom_marker(cfg))
                ==> flat_atom_bytes(cs).len() == cfg.atom_size * flat_levels(cs).len()),
            None => true,
        },
{
    lemma_items_counts(bytes, 0, Seq::empty(), cfg);
    match structural_decode_spec(bytes, cfg) {
        Some(cs) => {
            lemma_flat_counts(cs, cfg);
            if forall|q: int|
                0 <= q < flat_levels(cs).len() ==> flat_levels(cs)[q] == atom_marker(cfg) {
                lemma_count_eq_all(flat_levels(cs), atom_marker(cfg));
            }
        },
        None => {},
    }
}


/// The escaped form of one payload byte: how the structural encoder writes
/// it.
pub open spec fn escape_one(b: u8) -> Seq<u8> {
    if b >= NULL_MARKER {
        seq![ESCAPE_MARKER, (255 - b) as u8]
    } else {
        seq![b]
    }
}

/// The escaped form of a payload byte sequence.
pub open spec fn escape_seq(s: Seq<u8>) -> Seq<u8>
    decreases s.len(),
{
    if s.len() == 0 {
        Seq::empty()
    } else {
        escape_one(s.first()) + escape_seq(s.drop_first())
    }
}

proof fn lemma_unescape_shift(prefix: Seq<u8>, v: Seq<u8>, i: int, n: nat, acc: Seq<u8>)
    requires
        0 <= i,
    ensures
        match unescape_n_spec(v, i, n, acc) {
            Some((s, j)) => unescape_n_spec(prefix + v, prefix.len() + i, n, acc)
                == Some((s, prefix.len() + j)),
            None => unescape_n_spec(prefix + v, prefix.len() + i, n, acc) is None,
        },
    decreases n,
{
    if n > 0 {
        assert((prefix + v).len() == prefix.len() + v.len());
        if i < v.len() {
            assert((prefix + v)[prefix.len() + i] == v[i]);
            if i + 1 < v.len() {
                assert((prefix + v)[prefix.len() + i + 1] == v[i + 1]);
            }
        }
        match unescape_one_spec(v, i) {
            Some((b, j)) => {
                assert(unescape_one_spec(prefix + v, prefix.len() + i)
                    == Some((b, prefix.len() + j)));
                lemma_unescape_shift(prefix, v, j, (n - 1) as nat, acc.push(b));
            },
            None => {
                assert(unescape_one_spec(prefix + v, prefix.len() + i) is None);
            },
        }
    }
}

proof fn lemma_escape_roundtrip(s: Seq<u8>, tail: Seq<u8>, acc: Seq<u8>)
    ensures
        unescape_n_spec(escape_seq(s) + tail, 0, s.len(), acc)
            == Some((acc + s, escape_seq(s).len() as int)),
    decreases s.len(),
{
    if s.len() == 0 {
        assert(escape_seq(s) + tail =~= tail);
        assert(acc + s =~= acc);
    } else {
        let b = s.first();
        let e1 = escape_one(b);
        let rest = escape_seq(s.drop_first());
        let bytes = escape_seq(s) + tail;
        assert(escape_seq(s) == e1 + rest);
        assert(bytes =~= e1 + (rest + tail));
        lemma_escape_roundtrip(s.drop_first(), tail, acc.push(b));
        lemma_unescape_shift(e1, rest + tail, 0, (s.len() - 1) as nat, acc.push(b));
        if b >= NULL_MARKER {
            assert(bytes[0] == ESCAPE_MARKER);
            assert(bytes[1] == (255 - b) as u8);
            assert(complement((255 - b) as u8) == b);
            assert(unescape_one_spec(bytes, 0) == Some((b, 2int)));
        } else {
            assert(bytes[0] == b);
            assert(unescape_one_spec(bytes, 0) == Some((b, 1int)));
        }
        assert(acc.push(b) + s.drop_first() =~= acc + s);
    }
}

/// The structural encoding of a flat column: each value's atom payload in
/// order, escaped.
pub open spec fn encode_flat(vals: Seq<Seq<u8>>) -> Seq<u8>
    decreases vals.len(),
{
    if vals.len() == 0 {
        Seq::empty()
    } else {
        escape_seq(vals.first()) + encode_flat(vals.drop_first())
    }
}

proof fn lemma_items_shift(prefix: Seq<u8>, v: Seq<u8>, i: int, acc: Seq<(Seq<u8>, Seq<u8>)>, cfg: Layout)
    requires
        cfg.wf(),
        cfg.is_atomic,
        cfg.nesting_depth == 0,
        0 <= i,
    ensures
        decode_items_spec(prefix + v, prefix.len() + i, acc, cfg)
            == decode_items_spec(v, i, acc, cfg),
    decreases v.len() - i,
{
    let all = prefix + v;
    assert(all.len() == prefix.len() + v.len());
    if i >= v.len() {
    } else {
        assert(all[prefix.len() + i] == v[i]);
        let b0 = v[i];
        if b0 == NULL_MARKER {
            lemma_items_shift(prefix, v, i + 1, acc.push(null_chunk()), cfg);
        } else if b0 == COUNT_MARKER {
            lemma_unescape_shift(prefix, v, i + 1, 4, Seq::empty());
            match unescape_n_spec(v, i + 1, 4, Seq::empty()) {
                None => {},
                Some((cb, j)) => {
                    let count = be32(cb);
                    if j <= i || j > v.len() {
                    } else if acc.len() == 0 {
                        lemma_items_shift(
                            prefix, v, j, Seq::new(count as nat, |q: int| null_chunk()), cfg,
                        );
                    } else if acc.len() != count {
                    } else {
                        lemma_items_shift(prefix, v, j, acc, cfg);
                    }
                },
            }
        } else {
            lemma_unescape_shift(prefix, v, i, cfg.atom_size as nat, Seq::empty());
            match unescape_n_spec(v, i, cfg.atom_size as nat, Seq::empty()) {
                None => {
                    assert(decode_value_spec(v, i, 0, cfg) is None);
                    assert(decode_value_spec(all, prefix.len() + i, 0, cfg) is None);
                },
                Some((ab, j)) => {
                    let c = (seq![1u8], ab);
                    assert(decode_value_spec(v, i, 0, cfg) == Some((c, j)));
                    assert(decode_value_spec(all, prefix.len() + i, 0, cfg)
                        == Some((c, prefix.len() + j)));
                    if j <= i || j > v.len() {
                    } else {
                        lemma_items_shift(prefix, v, j, acc.push(c), cfg);
                    }
                },
            }
        }
    }
}

proof fn lemma_flat_items_roundtrip(vals: Seq<Seq<u8>>, acc: Seq<(Seq<u8>, Seq<u8>)>, cfg: Layout)
    requires
        cfg.wf(),
        cfg.is_atomic,
        cfg.nesting_depth == 0,
        forall|k: int| 0 <= k < vals.len() ==> (#[trigger] vals[k]).len() == cfg.atom_size,
    ensures
        decode_items_spec(encode_flat(vals), 0, acc, cfg)
            == Some(acc + Seq::new(vals.len(), |k: int| (seq![1u8], vals[k]))),
    decreases vals.len(),
{
    if vals.len() == 0 {
        assert(acc + Seq::new(0, |k: int| (seq![1u8], vals[k])) =~= acc);
    } else {
        let v0 = vals.first();
        let e0 = escape_seq(v0);
        let rest = encode_flat(vals.drop_first());
        let bytes = encode_flat(vals);
        assert(bytes == e0 + rest);
        assert(v0.len() > 0);
        assert(escape_one(v0.first()).len() >= 1);
        assert(e0 == escape_one(v0.first()) + escape_seq(v0.drop_first()));
        assert(e0.len() >= 1);
        assert(bytes[0] == escape_one(v0.first())[0]);
        assert(bytes[0] != NULL_MARKER && bytes[0] != COUNT_MARKER);
        lemma_escape_roundtrip(v0, rest, Seq::empty());
        assert(Seq::<u8>::empty() + v0 =~= v0);
        assert(unescape_n_spec(bytes, 0, cfg.atom_size as nat, Seq::empty())
            == Some((v0, e0.len() as int)));
        let c0 = (seq![1u8], v0);
        assert(decode_value_spec(bytes, 0, 0, cfg) == Some((c0, e0.len() as int)));
        lemma_items_shift(e0, rest, 0, acc.push(c0), cfg);
        assert(forall|k: int|
            0 <= k < vals.drop_first().len() ==> (#[trigger] vals.drop_first()[k]).len()
                == cfg.atom_size);
        lemma_flat_items_roundtrip(vals.drop_first(), acc.push(c0), cfg);
        assert(acc.push(c0) + Seq::new(vals.drop_first().len(), |k: int| (seq![1u8], vals.drop_first()[k]))
            =~= acc + Seq::new(vals.len(), |k: int| (seq![1u8], vals[k])));
    }
}

/// Law (round trip, flat column): a flat atomic column structurally encoded
/// at nesting depth 0 — each value's atom payload escaped, in order —
/// decodes back to exactly those payloads, one chunk per value, each under
/// the value level 1. Together with the typed groupings this returns the
/// original atom sequence unchanged.
pub proof fn lemma_flat_column_roundtrip(vals: Seq<Seq<u8>>, cfg: Layout)
    requires
        cfg.wf(),
        cfg.is_atomic,
        cfg.nesting_depth == 0,
        forall|k: int| 0 <= k < vals.len() ==> (#[trigger] vals[k]).len() == cfg.atom_size,
    ensures
        structural_decode_spec(encode_flat(vals), cfg)
            == Some(Seq::new(vals.len(), |k: int| (seq![1u8], vals[k]))),
{
    lemma_flat_items_roundtrip(vals, Seq::empty(), cfg);
    assert(Seq::<(Seq<u8>, Seq<u8>)>::empty() + Seq::new(vals.len(), |k: int| (seq![1u8], vals[k]))
        =~= Seq::new(vals.len(), |k: int| (seq![1u8], vals[k])));
}

fn unescape_one(bytes: &Vec<u8>, i: usize) -> (r: Result<(u8, usize), DecodeError>)
    ensures
        match r {
            Ok((b, j)) => unescape_one_spec(bytes@, i as int) == Some((b, j as int))
                && i < j <= bytes@.len(),
            Err(e) => e == DecodeError::CorruptData && unescape_one_spec(bytes@, i as int) is None,
        },
{
    if i >= bytes.len() {
        return Err(DecodeError::CorruptData);
    }
    let b = bytes[i];
    if b == ESCAPE_MARKER {
        if i + 1 >= bytes.len() {
            Err(DecodeError::CorruptData)
        } else {
            Ok((255 - bytes[i + 1], i + 2))
        }
    } else if b >= NULL_MARKER {
        Err(DecodeError::CorruptData)
    } else {
        Ok((b, i + 1))
    }
}

fn unescape_n(bytes: &Vec<u8>, start: usize, n: usize) -> (r: Result<(Vec<u8>, usize), DecodeError>)
    ensures
        match r {
            Ok((out, j)) => unescape_n_spec(bytes@, start as int, n as nat, Seq::empty())
                    == Some((out@, j as int))
                && out@.len() == n
                && start + n <= j
                && (n > 0 ==> j <= bytes@.len()),
            Err(e) => e == DecodeError::CorruptData
                && unescape_n_spec(bytes@, start as int, n as nat, Seq::empty()) is None,
        },
{
    let mut out: Vec<u8> = Vec::new();
    let mut cur = start;
    let mut k: usize = 0;
    while k < n
        invariant
            k <= n,
            out@.len() == k,
            start + k <= cur,
            k > 0 ==> cur <= bytes@.len(),
            unescape_n_spec(bytes@, start as int, n as nat, Seq::empty())
                == unescape_n_spec(bytes@, cur as int, (n - k) as nat, out@),
        decreases n - k,
    {
        match unescape_one(bytes, cur) {
            Ok((b, j)) => {
                out.push(b);
                cur = j;
                k = k + 1;
            },
            Err(e) => {
                return Err(e);
            },
        }
    }
    Ok((out, cur))
}

fn read_u16(bytes: &Vec<u8>, start: usize) -> (r: Result<(u16, usize), DecodeError>)
    ensures
        match r {
            Ok((n, j)) => read_u16_spec(bytes@, start as int) == Some((n as int, j as int))
                && start + 2 <= j <= bytes@.len(),
            Err(e) => e == DecodeError::CorruptData && read_u16_spec(bytes@, start as int) is None,
        },
{
    match unescape_one(bytes, start) {
        Err(e) => Err(e),
        Ok((b0, j)) => match unescape_one(bytes, j) {
            Err(e) => Err(e),
            Ok((b1, k)) => Ok((b0 as u16 * 256 + b1 as u16, k)),
        },
    }
}

/// Decodes one value at `depth`, as `decode_value_spec` says.
fn decode_value(bytes: &Vec<u8>, start: usize, depth: u8, cfg: Layout) -> (r: Result<(Chunk, usize), DecodeError>)
    requires
        cfg.wf(),
        depth <= cfg.nesting_depth,
    ensures
        match r {
            Ok((c, j)) => decode_value_spec(bytes@, start as int, depth as int, cfg)
                    == Some((c@, j as int))
                && start < j <= bytes@.len(),
            Err(e) => e == DecodeError::CorruptData
                && decode_value_spec(bytes@, start as int, depth as int, cfg) is None,
        },
    decreases cfg.nesting_depth - depth,
{
    if depth == cfg.nesting_depth {
        if cfg.is_atomic {
            match unescape_n(bytes, start, cfg.atom_size) {
                Err(e) => Err(e),
                Ok((ab, j)) => {
                    let mut levels: Vec<u8> = Vec::new();
                    levels.push(depth + 1);
                    let c = Chunk { levels, atom_bytes: ab };
                    proof {
                        assert(c@.0 =~= seq![(depth as int + 1) as u8]);
                    }
                    Ok((c, j))
                },
            }
        } else {
            match read_u16(bytes, start) {
                Err(e) => Err(e),
                Ok((n, j)) => {
                    proof {
                        assert(n as int * cfg.atom_size as int <= 65535 * 16) by (nonlinear_arith)
                            requires
                                n <= 65535,
                                0 <= cfg.atom_size <= 16,
                        ;
                    }
                    let total: usize = n as usize * cfg.atom_size;
                    match unescape_n(bytes, j, total) {
                        Err(e) => Err(e),
                        Ok((ab, k)) => {
                            let n_usize = n as usize;
                            let mut levels: Vec<u8> = Vec::new();
                            for q in 0..n_usize
                                invariant
                                    depth == cfg.nesting_depth,
                                    cfg.wf(),
                                    levels@ =~= Seq::new(q as nat, |w: int| (depth as int + 2) as u8),
                            {
                                levels.push(depth + 2);
                                proof {
                                    assert(levels@ =~= Seq::new(
                                        (q + 1) as nat,
                                        |w: int| (depth as int + 2) as u8,
                                    ));
                                }
                            }
                            levels.push(depth + 1);
                            let c = Chunk { levels, atom_bytes: ab };
                            proof {
                                assert(c@.0 =~= Seq::new(n as nat, |w: int| (depth as int + 2) as u8)
                                    .push((depth as int + 1) as u8));
                            }
                            Ok((c, k))
                        },
                    }
                },
            }
        }
    } else {
        match read_u16(bytes, start) {
            Err(e) => Err(e),
            Ok((n, j)) => {
                let mut acc_levels: Vec<u8> = Vec::new();
                let mut acc_atoms: Vec<u8> = Vec::new();
                let mut cur = j;
                let n_usize = n as usize;
                let mut failed = false;
                for q in 0..n_usize
                    invariant
                        cfg.wf(),
                        depth < cfg.nesting_depth,
                        j <= cur,
                        cur <= bytes@.len(),
                        !failed ==> decode_children_spec(
                            bytes@, j as int, depth as int, cfg, n_usize as nat,
                            Seq::empty(), Seq::empty(),
                        ) == decode_children_spec(
                            bytes@, cur as int, depth as int, cfg, (n_usize - q) as nat,
                            acc_levels@, acc_atoms@,
                        ),
                        failed ==> decode_children_spec(
                            bytes@, j as int, depth as int, cfg, n_usize as nat,
                            Seq::empty(), Seq::empty(),
                        ) is None,
                {
                    if !failed {
                        match decode_value(bytes, cur, depth + 1, cfg) {
                            Err(_) => {
                                failed = true;
                            },
                            Ok((c, nxt)) => {
                                let Chunk { levels: mut clv, atom_bytes: mut cab } = c;
                                acc_levels.append(&mut clv);
                                acc_atoms.append(&mut cab);
                                cur = nxt;
                            },
                        }
                    }
                }
                if failed {
                    return Err(DecodeError::CorruptData);
                }
                acc_levels.push(depth + 1);
                let c = Chunk { levels: acc_levels, atom_bytes: acc_atoms };
                Ok((c, cur))
            },
        }
    }
}

/// Decodes a whole buffer of the structural tier into its chunks, one per
/// top-level value, exactly as `structural_decode_spec` says. Corrupt input
/// (a truncated read, a reserved byte where a payload byte is owed, a count
/// that contradicts the values decoded so far) fails the whole call.
pub fn structural_decode(bytes: &Vec<u8>, cfg: Layout) -> (r: Result<Vec<Chunk>, DecodeError>)
    requires
        cfg.wf(),
    ensures
        match r {
            Ok(cs) => structural_decode_spec(bytes@, cfg) == Some(chunks_view(cs@)),
            Err(e) => e == DecodeError::CorruptData && structural_decode_spec(bytes@, cfg) is None,
        },
{
    let mut res: Vec<Chunk> = Vec::new();
    let mut i: usize = 0;
    proof {
        assert(chunks_view(res@) =~= Seq::empty());
    }
    while i < bytes.len()
        invariant
            cfg.wf(),
            i <= bytes@.len(),
            decode_items_spec(bytes@, 0, Seq::empty(), cfg)
                == decode_items_spec(bytes@, i as int, chunks_view(res@), cfg),
        decreases bytes@.len() - i,
    {
        let ghost prev_res = res@;
        let b0 = bytes[i];
        if b0 == NULL_MARKER {
            let c = Chunk { levels: vec![0u8], atom_bytes: Vec::new() };
            proof {
                assert(c@ =~~= null_chunk());
            }
            res.push(c);
            proof {
                lemma_chunks_view_push(prev_res, c);
            }
            i = i + 1;
        } else if b0 == COUNT_MARKER {
            match unescape_n(bytes, i + 1, 4) {
                Err(e) => {
                    return Err(e);
                },
                Ok((cb, j)) => {
                    let count: usize = cb[0] as usize * 16777216 + cb[1] as usize * 65536
                        + cb[2] as usize * 256 + cb[3] as usize;
                    proof {
                        assert(count as int == be32(cb@));
                    }
                    if res.len() == 0 {
                        proof {
                            assert(chunks_view(res@) =~= Seq::empty());
                        }
                        let mut w: usize = 0;
                        while w < count
                            invariant
                                w <= count,
                                res@.len() == w,
                                chunks_view(res@) =~= Seq::new(w as nat, |q: int| null_chunk()),
                            decreases count - w,
                        {
                            let ghost prev_nulls = res@;
                            let c = Chunk { levels: vec![0u8], atom_bytes: Vec::new() };
                            proof {
                                assert(c@ =~~= null_chunk());
                            }
                            res.push(c);
                            proof {
                                lemma_chunks_view_push(prev_nulls, c);
                                assert(chunks_view(res@)
                                    =~= Seq::new((w + 1) as nat, |q: int| null_chunk()));
                            }
                            w = w + 1;
                        }
                        i = j;
                    } else if res.len() != count {
                        return Err(DecodeError::CorruptData);
                    } else {
                        i = j;
                    }
                },
            }
        } else {
            match decode_value(bytes, i, 0, cfg) {
                Err(e) => {
                    return Err(e);
                },
                Ok((c, j)) => {
                    proof {
                        lemma_chunks_view_push(prev_res, c);
                    }
                    res.push(c);
                    i = j;
                },
            }
        }
    }
    Ok(res)
}

} // verus!
