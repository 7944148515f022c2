//! Expanded multiplication tables — ISA-L's `ec_init_tables` layout,
//! bit-identical: 32 bytes per coefficient `c`, being the two PSHUFB nibble
//! tables `{c*0, c*1, ..., c*15}` then `{c*0x00, c*0x10, ..., c*0xf0}`.
//!
//! Any product then decomposes as `c*x = tbl[x & 0xf] ^ tbl[16 + (x >> 4)]`
//! ([`lemma_table_mul`]).

use vstd::prelude::*;

use crate::gf::{field_mul, lemma_mul_distributes_right, lemma_mul_units};

verus! {

/// Bytes per expanded coefficient (ISA-L's contract).
pub const TABLE_BYTES: usize = 32;

/// `tbl` is the 32-byte nibble table of the coefficient `c`.
pub open spec fn is_mul_table(tbl: Seq<u8>, c: u8) -> bool {
    &&& tbl.len() == 32
    &&& forall|j: int| 0 <= j < 16 ==> #[trigger] tbl[j] == field_mul(c, j as u8)
    &&& forall|j: int| 0 <= j < 16 ==> #[trigger] tbl[16 + j] == field_mul(c, ((j as u8) << 4u8) as u8)
}

/// The product a 32-byte nibble table gives for `x`.
pub open spec fn table_mul_spec(tbl: Seq<u8>, x: u8) -> u8 {
    tbl[(x & 0x0fu8) as int] ^ tbl[16 + (x >> 4u8) as int]
}

/// The 32-byte block `idx` of an expanded table buffer.
pub open spec fn nibble_block(g: Seq<u8>, idx: int) -> Seq<u8> {
    g.subrange(32 * idx, 32 * idx + 32)
}

/// `g` holds the nibble tables of `coeffs`, in order.
pub open spec fn is_nibble_tables(g: Seq<u8>, coeffs: Seq<u8>) -> bool {
    &&& g.len() == 32 * coeffs.len()
    &&& forall|i: int| 0 <= i < coeffs.len() ==> is_mul_table(#[trigger] nibble_block(g, i), coeffs[i])
}

proof fn lemma_nibbles()
    by (bit_vector)
    ensures
        forall|x: u8| #[trigger] (x & 0x0fu8) < 16,
        forall|x: u8| #[trigger] (x >> 4u8) < 16,
        forall|x: u8| x == #[trigger] ((x & 0x0fu8) ^ (((x >> 4u8) << 4u8) as u8)),
{
}

/// A nibble table multiplies by its coefficient.
pub proof fn lemma_table_mul(tbl: Seq<u8>, c: u8, x: u8)
    requires
        is_mul_table(tbl, c),
    ensures
        table_mul_spec(tbl, x) == field_mul(c, x),
{
    lemma_nibbles();
    lemma_mul_distributes_right();
    let lo = x & 0x0fu8;
    let hi = x >> 4u8;
    assert(tbl[lo as int] == field_mul(c, lo));
    assert(tbl[16 + hi as int] == field_mul(c, (hi << 4u8) as u8));
    assert(x == lo ^ ((hi << 4u8) as u8));
}

/// Expand one coefficient into its 32-byte nibble table.
pub fn mul_table32(c: u8, out: &mut [u8; 32])
    ensures
        is_mul_table(final(out)@, c),
{
    let mut j: u8 = 0;
    while j < 16
        invariant
            0 <= j <= 16,
            out@.len() == 32,
            forall|q: int| 0 <= q < j ==> #[trigger] out@[q] == field_mul(c, q as u8),
            forall|q: int| 0 <= q < j ==> #[trigger] out@[16 + q] == field_mul(c, ((q as u8) << 4u8) as u8),
        decreases 16 - j,
    {
        out[j as usize] = crate::gf::mul(c, j);
        out[16 + j as usize] = crate::gf::mul(c, j << 4);
        j += 1;
    }
}

/// Expand a row-major coefficient block (ISA-L's `ec_init_tables`: iterate
/// rows, then columns) into `coeffs.len() * 32` bytes. For encoding, pass the
/// parity block (`Matrix::parity_bytes`), matching ISA-L's convention of
/// calling `ec_init_tables(k, rows, &a[k*k], gftbls)`.
pub fn init_tables(coeffs: &[u8]) -> (out: Vec<u8>)
    requires
        coeffs@.len() * 32 <= usize::MAX,
    ensures
        is_nibble_tables(out@, coeffs@),
{
    let n = coeffs.len();
    let mut out: Vec<u8> = Vec::with_capacity(n * TABLE_BYTES);
    let mut tbl = [0u8; 32];
    let mut i: usize = 0;
    while i < n
        invariant
            n == coeffs@.len(),
            n * 32 <= usize::MAX,
            0 <= i <= n,
            out@.len() == 32 * i,
            forall|q: int| 0 <= q < i ==> is_mul_table(#[trigger] nibble_block(out@, q), coeffs@[q]),
        decreases n - i,
    {
        mul_table32(coeffs[i], &mut tbl);
        let ghost before = out@;
        out.extend_from_slice(vstd::array::array_as_slice(&tbl));
        proof {
            assert forall|q: int| 0 <= q < i + 1 implies is_mul_table(#[trigger] nibble_block(out@, q), coeffs@[q]) by {
                if q < i {
                    assert(nibble_block(out@, q) =~= nibble_block(before, q));
                } else {
                    assert forall|t: int| 0 <= t < 32 implies #[trigger] nibble_block(out@, q)[t] == tbl@[t] by {
                        assert(cloned(tbl@[t], out@[32 * i + t]));
                    }
                    assert(nibble_block(out@, q) =~= tbl@);
                }
            }
        }
        i += 1;
    }
    out
}

/// Multiply via an expanded table: `c*x` from `c`'s 32-byte table. The scalar
/// mirror of what the SIMD kernels do per lane ([`lemma_table_mul`]).
pub fn table_mul(tbl: &[u8; 32], x: u8) -> (r: u8)
    ensures
        r == table_mul_spec(tbl@, x),
{
    proof {
        lemma_nibbles();
    }
    tbl[(x & 0x0f) as usize] ^ tbl[16 + (x >> 4) as usize]
}

/// [`table_mul`] on the table at `start` inside a buffer of tables.
pub(crate) fn table_mul_at(g: &[u8], start: usize, x: u8) -> (r: u8)
    requires
        start + 32 <= g.len(),
    ensures
        r == table_mul_spec(g@.subrange(start as int, start + 32), x),
{
    let lo: u8 = x & 0x0f;
    let hi: u8 = x >> 4;
    proof {
        lemma_nibbles();
        assert(lo < 16 && hi < 16);
    }
    g[start + lo as usize] ^ g[start + 16 + hi as usize]
}

// ---------------------------------------------------------------------------
// GFNI affine tables.
// ---------------------------------------------------------------------------

/// Bytes per expanded GFNI coefficient: one `GF2P8AFFINEQB` 8x8 bit matrix.
pub const GFNI_TABLE_BYTES: usize = 8;

/// Bit `j` of `x`, as 0 or 1.
pub open spec fn bit_at(x: u8, j: u8) -> u8 {
    (x >> j) & 1u8
}

/// `b` shifted left by `i` within a byte.
pub open spec fn place(b: u8, i: u8) -> u8 {
    (b << i) as u8
}

/// Byte `r` placed at bit offset `s` of a qword.
pub open spec fn place64(r: u8, s: u8) -> u64 {
    ((r as u64) << s) as u64
}

/// Bit `s` of `m`, as 0 or 1.
pub open spec fn bit64(m: u64, s: u8) -> u8 {
    ((m >> s) & 1u64) as u8
}

/// Row `j` of the affine matrix of `c`, from its first `i` columns: bit `t`
/// (for `t < i`) is bit `j` of `c * 2^t`.
pub open spec fn affine_row_upto(c: u8, j: u8, i: u8) -> u8
    decreases i,
{
    if i == 0 {
        0u8
    } else {
        affine_row_upto(c, j, (i - 1) as u8) | place(
            bit_at(field_mul(c, place(1u8, (i - 1) as u8)), j),
            (i - 1) as u8,
        )
    }
}

/// Row `j` of the affine matrix computing multiply-by-`c`.
pub open spec fn affine_row(c: u8, j: u8) -> u8 {
    affine_row_upto(c, j, 8)
}

/// The affine matrix of `c` with its first `j` rows placed: row `t` is qword
/// byte `7 - t`.
pub open spec fn affine_matrix_upto(c: u8, j: u8) -> u64
    decreases j,
{
    if j == 0 {
        0u64
    } else {
        affine_matrix_upto(c, (j - 1) as u8) | place64(
            affine_row(c, (j - 1) as u8),
            (8 * (7 - (j - 1))) as u8,
        )
    }
}

/// The `GF2P8AFFINEQB` matrix computing multiply-by-`c`: column `i` is
/// `c * 2^i`; output bit `j` comes from qword byte `7 - j`.
pub open spec fn affine_matrix(c: u8) -> u64 {
    affine_matrix_upto(c, 8)
}

/// The coefficient read back from the first `j` rows of an affine matrix:
/// bit `t` is bit 0 of qword byte `7 - t`.
pub open spec fn affine_coeff_upto(m: u64, j: u8) -> u8
    decreases j,
{
    if j == 0 {
        0u8
    } else {
        affine_coeff_upto(m, (j - 1) as u8) | place(
            bit64(m, (8 * (7 - (j - 1))) as u8),
            (j - 1) as u8,
        )
    }
}

/// The coefficient an affine matrix multiplies by (column 0 is `c * 1`).
pub open spec fn affine_coeff(m: u64) -> u8 {
    affine_coeff_upto(m, 8)
}

/// The little-endian 64-bit word at byte offset `s` of `g`.
pub open spec fn le_word(g: Seq<u8>, s: int) -> u64 {
    (g[s] as u64) | ((g[s + 1] as u64) << 8u64) | ((g[s + 2] as u64) << 16u64) | ((g[s + 3] as u64)
        << 24u64) | ((g[s + 4] as u64) << 32u64) | ((g[s + 5] as u64) << 40u64) | ((g[s + 6] as u64)
        << 48u64) | ((g[s + 7] as u64) << 56u64)
}

/// `g` holds, 8 little-endian bytes each, the affine matrices of `coeffs`.
pub open spec fn is_affine_tables(g: Seq<u8>, coeffs: Seq<u8>) -> bool {
    &&& g.len() == 8 * coeffs.len()
    &&& forall|i: int| 0 <= i < coeffs.len() ==> #[trigger] le_word(g, 8 * i) == affine_matrix(coeffs[i])
}

proof fn lemma_row_low_bit(x0: u8, x1: u8, x2: u8, x3: u8, x4: u8, x5: u8, x6: u8, x7: u8, j: u8)
    by (bit_vector)
    requires
        j < 8,
    ensures
        bit_at(((((((((0u8 | place(bit_at(x0, j), 0u8)) | place(bit_at(x1, j), 1u8)) | place(bit_at(x2, j), 2u8)) | place(bit_at(x3, j), 3u8)) | place(bit_at(x4, j), 4u8)) | place(bit_at(x5, j), 5u8)) | place(bit_at(x6, j), 6u8)) | place(bit_at(x7, j), 7u8)), 0u8) == bit_at(x0, j),
{
}

proof fn lemma_matrix_low_bits(r0: u8, r1: u8, r2: u8, r3: u8, r4: u8, r5: u8, r6: u8, r7: u8, c: u8)
    by (bit_vector)
    requires
        bit_at(r0, 0u8) == bit_at(c, 0u8),
        bit_at(r1, 0u8) == bit_at(c, 1u8),
        bit_at(r2, 0u8) == bit_at(c, 2u8),
        bit_at(r3, 0u8) == bit_at(c, 3u8),
        bit_at(r4, 0u8) == bit_at(c, 4u8),
        bit_at(r5, 0u8) == bit_at(c, 5u8),
        bit_at(r6, 0u8) == bit_at(c, 6u8),
        bit_at(r7, 0u8) == bit_at(c, 7u8),
    ensures
        ({
            let m: u64 = ((((((((0u64 | place64(r0, 56u8)) | place64(r1, 48u8)) | place64(r2, 40u8)) | place64(r3, 32u8)) | place64(r4, 24u8)) | place64(r5, 16u8)) | place64(r6, 8u8)) | place64(r7, 0u8));
            ((((((((0u8 | place(bit64(m, 56u8), 0u8)) | place(bit64(m, 48u8), 1u8)) | place(bit64(m, 40u8), 2u8)) | place(bit64(m, 32u8), 3u8)) | place(bit64(m, 24u8), 4u8)) | place(bit64(m, 16u8), 5u8)) | place(bit64(m, 8u8), 6u8)) | place(bit64(m, 0u8), 7u8)) == c
        }),
{
}

proof fn lemma_powers_of_two()
    by (bit_vector)
    ensures
        place(1u8, 0u8) == 1u8,
        place(1u8, 1u8) == 2u8,
        place(1u8, 2u8) == 4u8,
        place(1u8, 3u8) == 8u8,
        place(1u8, 4u8) == 16u8,
        place(1u8, 5u8) == 32u8,
        place(1u8, 6u8) == 64u8,
        place(1u8, 7u8) == 128u8,
{
}

/// Reading the coefficient back from its affine matrix gives the coefficient.
pub proof fn lemma_affine_coeff(c: u8)
    ensures
        affine_coeff(affine_matrix(c)) == c,
{
    lemma_mul_units();
    lemma_powers_of_two();
    assert forall|j: u8| j < 8 implies #[trigger] bit_at(affine_row(c, j), 0u8) == bit_at(c, j) by {
        reveal_with_fuel(affine_row_upto, 9);
        lemma_row_low_bit(
            field_mul(c, 1u8),
            field_mul(c, 2u8),
            field_mul(c, 4u8),
            field_mul(c, 8u8),
            field_mul(c, 16u8),
            field_mul(c, 32u8),
            field_mul(c, 64u8),
            field_mul(c, 128u8),
            j,
        );
    }
    reveal_with_fuel(affine_matrix_upto, 9);
    reveal_with_fuel(affine_coeff_upto, 9);
    lemma_matrix_low_bits(
        affine_row(c, 0),
        affine_row(c, 1),
        affine_row(c, 2),
        affine_row(c, 3),
        affine_row(c, 4),
        affine_row(c, 5),
        affine_row(c, 6),
        affine_row(c, 7),
        c,
    );
}

/// Row `j` of an affine matrix: qword byte `7 - j`.
pub open spec fn affine_row_of(m: u64, j: u8) -> u8 {
    ((m >> ((8 * (7 - j)) as u64)) & 0xffu64) as u8
}

/// The parity (XOR of the bits) of `b`, as 0 or 1.
pub open spec fn parity8(b: u8) -> u8 {
    ((((((((b ^ (b >> 1u8)) ^ (b >> 2u8)) ^ (b >> 3u8)) ^ (b >> 4u8)) ^ (b >> 5u8)) ^ (b >> 6u8)) ^ (b >> 7u8))
        & 1u8)
}

/// What `GF2P8AFFINEQB` with a zero constant does to one byte `x`: bit `j`
/// of the result is the parity of row `j` of `m` AND `x`.
pub open spec fn affine_apply(m: u64, x: u8) -> u8 {
    place(parity8(affine_row_of(m, 0u8) & x), 0u8) | place(parity8(affine_row_of(m, 1u8) & x), 1u8) | place(
        parity8(affine_row_of(m, 2u8) & x),
        2u8,
    ) | place(parity8(affine_row_of(m, 3u8) & x), 3u8) | place(parity8(affine_row_of(m, 4u8) & x), 4u8) | place(
        parity8(affine_row_of(m, 5u8) & x),
        5u8,
    ) | place(parity8(affine_row_of(m, 6u8) & x), 6u8) | place(parity8(affine_row_of(m, 7u8) & x), 7u8)
}

/// Apply the affine matrix `m` to the byte `x`, as `GF2P8AFFINEQB` does.
pub fn affine_apply_byte(m: u64, x: u8) -> (r: u8)
    ensures
        r == affine_apply(m, x),
{
    let mut r: u8 = 0;
    let mut j: u8 = 0;
    assert(forall|t: u8| #[trigger] bit_at(0u8, t) == 0u8) by (bit_vector);
    while j < 8
        invariant
            j <= 8,
            forall|t: u8| t < j ==> #[trigger] bit_at(r, t) == parity8(affine_row_of(m, t) & x),
            forall|t: u8| j <= t < 8 ==> #[trigger] bit_at(r, t) == 0,
        decreases 8 - j,
    {
        let shift: u8 = 8 * (7 - j);
        let row: u8 = ((m >> shift) & 0xff) as u8;
        assert(row == affine_row_of(m, j));
        let b = row & x;
        let par: u8 = (b ^ (b >> 1) ^ (b >> 2) ^ (b >> 3) ^ (b >> 4) ^ (b >> 5) ^ (b >> 6) ^ (b >> 7)) & 1;
        assert(par == parity8(b));
        assert(par <= 1) by (bit_vector)
            requires
                par == parity8(b),
        ;
        let ghost old_r = r;
        r = r | (par << j);
        assert(forall|t: u8| t < 8 && t != j ==> #[trigger] bit_at(r, t) == bit_at(old_r, t)) by (bit_vector)
            requires
                r == old_r | (par << j),
                par <= 1,
                j < 8,
        ;
        assert(bit_at(r, j) == par) by (bit_vector)
            requires
                r == old_r | (par << j),
                par <= 1,
                j < 8,
                bit_at(old_r, j) == 0,
        ;
        j += 1;
    }
    proof {
        lemma_bits_assemble(r, m, x);
    }
    r
}

proof fn lemma_bits_assemble(r: u8, m: u64, x: u8)
    requires
        forall|t: u8| t < 8 ==> #[trigger] bit_at(r, t) == parity8(affine_row_of(m, t) & x),
    ensures
        r == affine_apply(m, x),
{
    let p0 = parity8(affine_row_of(m, 0u8) & x);
    let p1 = parity8(affine_row_of(m, 1u8) & x);
    let p2 = parity8(affine_row_of(m, 2u8) & x);
    let p3 = parity8(affine_row_of(m, 3u8) & x);
    let p4 = parity8(affine_row_of(m, 4u8) & x);
    let p5 = parity8(affine_row_of(m, 5u8) & x);
    let p6 = parity8(affine_row_of(m, 6u8) & x);
    let p7 = parity8(affine_row_of(m, 7u8) & x);
    assert(bit_at(r, 0u8) == p0 && bit_at(r, 1u8) == p1 && bit_at(r, 2u8) == p2 && bit_at(r, 3u8) == p3);
    assert(bit_at(r, 4u8) == p4 && bit_at(r, 5u8) == p5 && bit_at(r, 6u8) == p6 && bit_at(r, 7u8) == p7);
    assert(r == place(p0, 0u8) | place(p1, 1u8) | place(p2, 2u8) | place(p3, 3u8) | place(p4, 4u8) | place(p5, 5u8)
        | place(p6, 6u8) | place(p7, 7u8)) by (bit_vector)
        requires
            bit_at(r, 0u8) == p0,
            bit_at(r, 1u8) == p1,
            bit_at(r, 2u8) == p2,
            bit_at(r, 3u8) == p3,
            bit_at(r, 4u8) == p4,
            bit_at(r, 5u8) == p5,
            bit_at(r, 6u8) == p6,
            bit_at(r, 7u8) == p7,
    ;
}

/// The rows placed into a qword come back out as its rows.
proof fn lemma_matrix_rows(r0: u8, r1: u8, r2: u8, r3: u8, r4: u8, r5: u8, r6: u8, r7: u8)
    by (bit_vector)
    ensures
        ({
            let m: u64 = ((((((((0u64 | place64(r0, 56u8)) | place64(r1, 48u8)) | place64(r2, 40u8)) | place64(r3, 32u8)) | place64(r4, 24u8)) | place64(r5, 16u8)) | place64(r6, 8u8)) | place64(r7, 0u8));
            &&& affine_row_of(m, 0u8) == r0
            &&& affine_row_of(m, 1u8) == r1
            &&& affine_row_of(m, 2u8) == r2
            &&& affine_row_of(m, 3u8) == r3
            &&& affine_row_of(m, 4u8) == r4
            &&& affine_row_of(m, 5u8) == r5
            &&& affine_row_of(m, 6u8) == r6
            &&& affine_row_of(m, 7u8) == r7
        }),
{
}

/// `y` where bit `i` of `x` is set, 0 otherwise.
pub open spec fn pick_bit(x: u8, i: u8, y: u8) -> u8 {
    if bit_at(x, i) == 1u8 {
        y
    } else {
        0u8
    }
}

/// `XOR_i x_i * y_i` over the bits `x_i` of `x`.
pub open spec fn bit_combination(x: u8, y0: u8, y1: u8, y2: u8, y3: u8, y4: u8, y5: u8, y6: u8, y7: u8) -> u8 {
    pick_bit(x, 0u8, y0) ^ pick_bit(x, 1u8, y1) ^ pick_bit(x, 2u8, y2) ^ pick_bit(x, 3u8, y3) ^ pick_bit(x, 4u8, y4)
        ^ pick_bit(x, 5u8, y5) ^ pick_bit(x, 6u8, y6) ^ pick_bit(x, 7u8, y7)
}

/// The byte whose bit `i` is bit `j` of `y_i`.
pub open spec fn row_from(y0: u8, y1: u8, y2: u8, y3: u8, y4: u8, y5: u8, y6: u8, y7: u8, j: u8) -> u8 {
    0u8 | place(bit_at(y0, j), 0u8) | place(bit_at(y1, j), 1u8) | place(bit_at(y2, j), 2u8) | place(bit_at(y3, j), 3u8)
        | place(bit_at(y4, j), 4u8) | place(bit_at(y5, j), 5u8) | place(bit_at(y6, j), 6u8) | place(bit_at(y7, j), 7u8)
}

/// A product by `x` is the XOR of the products by the bits of `x`.
proof fn lemma_mul_by_bits(c: u8, x: u8)
    ensures
        field_mul(c, x) == bit_combination(
            x,
            field_mul(c, 1u8),
            field_mul(c, 2u8),
            field_mul(c, 4u8),
            field_mul(c, 8u8),
            field_mul(c, 16u8),
            field_mul(c, 32u8),
            field_mul(c, 64u8),
            field_mul(c, 128u8),
        ),
{
    let x0 = x & 1u8;
    let x1 = x & 2u8;
    let x2 = x & 4u8;
    let x3 = x & 8u8;
    let x4 = x & 16u8;
    let x5 = x & 32u8;
    let x6 = x & 64u8;
    let x7 = x & 128u8;
    assert(x == x0 ^ x1 ^ x2 ^ x3 ^ x4 ^ x5 ^ x6 ^ x7) by (bit_vector)
        requires
            x0 == x & 1u8,
            x1 == x & 2u8,
            x2 == x & 4u8,
            x3 == x & 8u8,
            x4 == x & 16u8,
            x5 == x & 32u8,
            x6 == x & 64u8,
            x7 == x & 128u8,
    ;
    lemma_mul_units();
    lemma_mul_distributes_right();
    lemma_powers_of_two();
    lemma_pick_factor(c, x, 0u8, 1u8, x0);
    lemma_pick_factor(c, x, 1u8, 2u8, x1);
    lemma_pick_factor(c, x, 2u8, 4u8, x2);
    lemma_pick_factor(c, x, 3u8, 8u8, x3);
    lemma_pick_factor(c, x, 4u8, 16u8, x4);
    lemma_pick_factor(c, x, 5u8, 32u8, x5);
    lemma_pick_factor(c, x, 6u8, 64u8, x6);
    lemma_pick_factor(c, x, 7u8, 128u8, x7);
    let a01 = x0 ^ x1;
    let a02 = a01 ^ x2;
    let a03 = a02 ^ x3;
    let a04 = a03 ^ x4;
    let a05 = a04 ^ x5;
    let a06 = a05 ^ x6;
    assert(field_mul(c, a01) == field_mul(c, x0) ^ field_mul(c, x1));
    assert(field_mul(c, a02) == field_mul(c, a01) ^ field_mul(c, x2));
    assert(field_mul(c, a03) == field_mul(c, a02) ^ field_mul(c, x3));
    assert(field_mul(c, a04) == field_mul(c, a03) ^ field_mul(c, x4));
    assert(field_mul(c, a05) == field_mul(c, a04) ^ field_mul(c, x5));
    assert(field_mul(c, a06) == field_mul(c, a05) ^ field_mul(c, x6));
    assert(field_mul(c, a06 ^ x7) == field_mul(c, a06) ^ field_mul(c, x7));
}

/// `c * (x AND 2^i)` is the product by `2^i` picked by bit `i` of `x`.
proof fn lemma_pick_factor(c: u8, x: u8, i: u8, w: u8, xi: u8)
    requires
        i < 8,
        w == place(1u8, i),
        xi == x & w,
    ensures
        field_mul(c, xi) == pick_bit(x, i, field_mul(c, w)),
{
    assert((xi == 0u8 || xi == w) && (bit_at(x, i) == 1u8 <==> xi == w) && w != 0u8) by (bit_vector)
        requires
            i < 8,
            w == place(1u8, i),
            xi == x & w,
    ;
    lemma_mul_units();
}

/// Bit `j` of `XOR_i x_i * y_i` is the parity of (the byte of bits `j` of
/// the `y_i`) AND `x`.
proof fn lemma_parity_rows(y0: u8, y1: u8, y2: u8, y3: u8, y4: u8, y5: u8, y6: u8, y7: u8, x: u8, j: u8)
    by (bit_vector)
    requires
        j < 8,
    ensures
        parity8(row_from(y0, y1, y2, y3, y4, y5, y6, y7, j) & x) == bit_at(
            bit_combination(x, y0, y1, y2, y3, y4, y5, y6, y7),
            j,
        ),
{
}

/// An affine matrix built for `c`, applied as `GF2P8AFFINEQB` applies it,
/// multiplies by `c`.
pub proof fn lemma_affine_apply(c: u8, x: u8)
    ensures
        affine_apply(affine_matrix(c), x) == field_mul(c, x),
{
    lemma_mul_units();
    lemma_powers_of_two();
    reveal_with_fuel(affine_matrix_upto, 9);
    lemma_matrix_rows(
        affine_row(c, 0),
        affine_row(c, 1),
        affine_row(c, 2),
        affine_row(c, 3),
        affine_row(c, 4),
        affine_row(c, 5),
        affine_row(c, 6),
        affine_row(c, 7),
    );
    let m = affine_matrix(c);
    let z = field_mul(c, x);
    lemma_mul_by_bits(c, x);
    assert forall|j: u8| j < 8 implies #[trigger] parity8(affine_row_of(m, j) & x) == bit_at(z, j) by {
        reveal_with_fuel(affine_row_upto, 9);
        assert(affine_row_of(m, j) == affine_row(c, j));
        assert(affine_row(c, j) == row_from(
            field_mul(c, 1u8),
            field_mul(c, 2u8),
            field_mul(c, 4u8),
            field_mul(c, 8u8),
            field_mul(c, 16u8),
            field_mul(c, 32u8),
            field_mul(c, 64u8),
            field_mul(c, 128u8),
            j,
        ));
        lemma_parity_rows(
            field_mul(c, 1u8),
            field_mul(c, 2u8),
            field_mul(c, 4u8),
            field_mul(c, 8u8),
            field_mul(c, 16u8),
            field_mul(c, 32u8),
            field_mul(c, 64u8),
            field_mul(c, 128u8),
            x,
            j,
        );
    }
    lemma_bits_assemble(z, m, x);
}

/// Build the `GF2P8AFFINEQB` matrix computing multiply-by-`c`.
///
/// Multiplication by a constant is GF(2)-linear, so it is exactly an 8x8 bit
/// matrix: column `i` is `c * 2^i`. Instruction layout (Intel SDM): output
/// bit `j` of a byte = parity(matrix byte `7 - j` AND input byte), so qword
/// byte `7 - j` holds row `j`, whose bit `i` is bit `j` of `c * 2^i`.
pub fn build_affine(c: u8) -> (m: u64)
    ensures
        m == affine_matrix(c),
{
    let mut m: u64 = 0;
    let mut j: u8 = 0;
    while j < 8
        invariant
            j <= 8,
            m == affine_matrix_upto(c, j),
        decreases 8 - j,
    {
        let mut row: u8 = 0;
        let mut i: u8 = 0;
        while i < 8
            invariant
                i <= 8,
                j < 8,
                row == affine_row_upto(c, j, i),
            decreases 8 - i,
        {
            let col = crate::gf::mul(c, 1u8 << i);
            row = row | (((col >> j) & 1) << i);
            i += 1;
        }
        let shift: u8 = 8 * (7 - j);
        m = m | ((row as u64) << shift);
        j += 1;
    }
    m
}

/// The coefficient an affine matrix multiplies by: `c = c * 1` is column 0,
/// so bit `j` of `c` is bit 0 of row `j`, bit 0 of qword byte `7 - j`.
pub fn coeff_from_affine(m: u64) -> (c: u8)
    ensures
        c == affine_coeff(m),
{
    let mut c: u8 = 0;
    let mut j: u8 = 0;
    while j < 8
        invariant
            j <= 8,
            c == affine_coeff_upto(m, j),
        decreases 8 - j,
    {
        let shift: u8 = 8 * (7 - j);
        let bit: u8 = ((m >> shift) & 1) as u8;
        c = c | (bit << j);
        j += 1;
    }
    c
}

/// The little-endian 64-bit word at byte offset `s` of `g`.
pub(crate) fn load_le_u64(g: &[u8], s: usize) -> (m: u64)
    requires
        s + 8 <= g.len(),
    ensures
        m == le_word(g@, s as int),
{
    (g[s] as u64) | ((g[s + 1] as u64) << 8) | ((g[s + 2] as u64) << 16) | ((g[s + 3] as u64) << 24)
        | ((g[s + 4] as u64) << 32) | ((g[s + 5] as u64) << 40) | ((g[s + 6] as u64) << 48) | ((g[s
        + 7] as u64) << 56)
}

/// The affine matrix stored at position `index` of a GFNI table buffer
/// (8 little-endian bytes).
pub fn affine_at(gftbls: &[u8], index: usize) -> (m: u64)
    requires
        8 * index + 8 <= gftbls.len(),
    ensures
        m == le_word(gftbls@, 8 * index),
{
    load_le_u64(gftbls, index * 8)
}

proof fn lemma_le_bytes(m: u64)
    by (bit_vector)
    ensures
        m == ((m as u8) as u64) | ((((m >> 8u64) as u8) as u64) << 8u64) | ((((m >> 16u64) as u8) as u64)
            << 16u64) | ((((m >> 24u64) as u8) as u64) << 24u64) | ((((m >> 32u64) as u8) as u64)
            << 32u64) | ((((m >> 40u64) as u8) as u64) << 40u64) | ((((m >> 48u64) as u8) as u64)
            << 48u64) | ((((m >> 56u64) as u8) as u64) << 56u64),
{
}

/// Expand a row-major coefficient block into GFNI affine tables: 8
/// little-endian bytes per coefficient, the layout ISA-L's GFNI kernels use.
pub fn init_tables_gfni(coeffs: &[u8]) -> (out: Vec<u8>)
    requires
        coeffs@.len() * 8 <= usize::MAX,
    ensures
        is_affine_tables(out@, coeffs@),
{
    let n = coeffs.len();
    let mut out: Vec<u8> = Vec::with_capacity(n * GFNI_TABLE_BYTES);
    let mut i: usize = 0;
    while i < n
        invariant
            n == coeffs@.len(),
            0 <= i <= n,
            out@.len() == 8 * i,
            forall|q: int| 0 <= q < i ==> #[trigger] le_word(out@, 8 * q) == affine_matrix(coeffs@[q]),
        decreases n - i,
    {
        let m = build_affine(coeffs[i]);
        let ghost before = out@;
        out.push(m as u8);
        out.push((m >> 8) as u8);
        out.push((m >> 16) as u8);
        out.push((m >> 24) as u8);
        out.push((m >> 32) as u8);
        out.push((m >> 40) as u8);
        out.push((m >> 48) as u8);
        out.push((m >> 56) as u8);
        proof {
            lemma_le_bytes(m);
            assert forall|q: int| 0 <= q < i + 1 implies #[trigger] le_word(out@, 8 * q) == affine_matrix(coeffs@[q]) by {
                if q < i {
                    assert(le_word(out@, 8 * q) == le_word(before, 8 * q));
                }
            }
        }
        i += 1;
    }
    out
}

} // verus!
