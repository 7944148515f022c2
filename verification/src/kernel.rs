//! Erasure-coding kernels: the GF(2^8) dot products behind encode, update and
//! recovery, over expanded coefficient tables.
//!
//! Two table formats exist: ISA-L's 32-byte nibble tables (per byte,
//! `c*x = tbl[x & 0xf] ^ tbl[16 + (x >> 4)]`) and 8-byte `GF2P8AFFINEQB`
//! affine matrices. A [`Kernels`] set names the format it consumes; every
//! set computes the same field products (see [`lemma_block_apply`] and
//! [`lemma_formats_agree`]). Length
//! agreement is validated — a mismatch is a typed error, never a silent
//! truncation and never a panic.

use vstd::prelude::*;

use crate::algebra::{lemma_xsum_ext, xsum};
use crate::error::CodeError;
use crate::gf::field_mul;
use crate::tables::{
    affine_apply, is_affine_tables, is_nibble_tables, is_mul_table, le_word, nibble_block,
    table_mul_spec, lemma_affine_apply, lemma_table_mul, TABLE_BYTES,
};

verus! {

/// The layout of an expanded coefficient table.
#[derive(Debug, Clone, Copy, PartialEq, Eq, Structural)]
pub enum TableFormat {
    /// ISA-L's 32-byte nibble tables (`ec_init_tables` layout).
    Nibble,
    /// 8-byte `GF2P8AFFINEQB` bit matrices, little-endian.
    Affine,
}

/// Bytes per expanded coefficient in a table format.
pub open spec fn format_width(f: TableFormat) -> int {
    match f {
        TableFormat::Nibble => 32,
        TableFormat::Affine => 8,
    }
}

/// The product that table `idx` of the buffer `g` gives for the byte `x`.
pub open spec fn block_apply(f: TableFormat, g: Seq<u8>, idx: int, x: u8) -> u8 {
    match f {
        TableFormat::Nibble => table_mul_spec(nibble_block(g, idx), x),
        TableFormat::Affine => affine_apply(le_word(g, 8 * idx), x),
    }
}

/// `g` holds the expanded tables of `coeffs`, in order, in format `f`.
pub open spec fn tables_for(f: TableFormat, g: Seq<u8>, coeffs: Seq<u8>) -> bool {
    match f {
        TableFormat::Nibble => is_nibble_tables(g, coeffs),
        TableFormat::Affine => is_affine_tables(g, coeffs),
    }
}

/// Expanded tables multiply by their coefficients.
pub proof fn lemma_block_apply(f: TableFormat, g: Seq<u8>, coeffs: Seq<u8>, idx: int, x: u8)
    requires
        tables_for(f, g, coeffs),
        0 <= idx < coeffs.len(),
    ensures
        block_apply(f, g, idx, x) == field_mul(coeffs[idx], x),
{
    match f {
        TableFormat::Nibble => {
            assert(is_mul_table(nibble_block(g, idx), coeffs[idx]));
            lemma_table_mul(nibble_block(g, idx), coeffs[idx], x);
        },
        TableFormat::Affine => {
            lemma_affine_apply(coeffs[idx], x);
        },
    }
}

/// Term `j` of the dot product for byte `i`: table `base + j` applied to
/// byte `i` of source `j`.
pub open spec fn dot_terms(f: TableFormat, g: Seq<u8>, data: Seq<&[u8]>, base: int, i: int) -> spec_fn(int) -> u8 {
    |j: int| block_apply(f, g, base + j, data[j]@[i])
}

/// Byte `i` of the dot product of the sources with tables `base ..`.
pub open spec fn dot_byte(f: TableFormat, g: Seq<u8>, data: Seq<&[u8]>, base: int, i: int) -> u8 {
    xsum(data.len() as int, dot_terms(f, g, data, base, i))
}

/// A dot product over expanded tables is the coefficients' dot product:
/// byte `i` is `XOR_j coeffs[base + j] * data[j][i]`, whatever the format.
pub proof fn lemma_dot_coeffs(f: TableFormat, g: Seq<u8>, coeffs: Seq<u8>, data: Seq<&[u8]>, base: int, i: int)
    requires
        tables_for(f, g, coeffs),
        0 <= base,
        base + data.len() <= coeffs.len(),
    ensures
        dot_byte(f, g, data, base, i) == xsum(data.len() as int, |j: int| field_mul(coeffs[base + j], data[j]@[i])),
{
    let h = |j: int| field_mul(coeffs[base + j], data[j]@[i]);
    assert forall|j: int| 0 <= j < data.len() implies #[trigger] dot_terms(f, g, data, base, i)(j) == h(j) by {
        lemma_block_apply(f, g, coeffs, base + j, data[j]@[i]);
    }
    lemma_xsum_ext(data.len() as int, dot_terms(f, g, data, base, i), h);
}

/// Every kernel set computes the same products: tables expanded from the
/// same coefficients, in any two formats, give the same dot product byte for
/// byte, and each single table the same product.
pub proof fn lemma_formats_agree(
    f1: TableFormat,
    g1: Seq<u8>,
    f2: TableFormat,
    g2: Seq<u8>,
    coeffs: Seq<u8>,
    data: Seq<&[u8]>,
    base: int,
    i: int,
)
    requires
        tables_for(f1, g1, coeffs),
        tables_for(f2, g2, coeffs),
        0 <= base,
        base + data.len() <= coeffs.len(),
    ensures
        dot_byte(f1, g1, data, base, i) == dot_byte(f2, g2, data, base, i),
        forall|idx: int, x: u8|
            0 <= idx < coeffs.len() ==> #[trigger] block_apply(f1, g1, idx, x) == block_apply(f2, g2, idx, x),
{
    lemma_dot_coeffs(f1, g1, coeffs, data, base, i);
    lemma_dot_coeffs(f2, g2, coeffs, data, base, i);
    assert forall|idx: int, x: u8| 0 <= idx < coeffs.len() implies #[trigger] block_apply(f1, g1, idx, x)
        == block_apply(f2, g2, idx, x) by {
        lemma_block_apply(f1, g1, coeffs, idx, x);
        lemma_block_apply(f2, g2, coeffs, idx, x);
    }
}

/// Every buffer in `s` is `len` bytes long.
pub open spec fn all_len(s: Seq<&[u8]>, len: int) -> bool {
    forall|j: int| 0 <= j < s.len() ==> (#[trigger] s[j]@).len() == len
}

/// Buffer `t` of `s` is the first one whose length is not `len`.
pub open spec fn first_bad_len(s: Seq<&[u8]>, len: int, t: int) -> bool {
    &&& 0 <= t < s.len()
    &&& s[t]@.len() != len
    &&& forall|q: int| 0 <= q < t ==> (#[trigger] s[q]@).len() == len
}

/// Every output buffer in `s` is `len` bytes long.
pub open spec fn all_len_mut(s: Seq<&mut [u8]>, len: int) -> bool {
    forall|j: int| 0 <= j < s.len() ==> (#[trigger] s[j]@).len() == len
}

/// Output buffer `t` of `s` is the first one whose length is not `len`.
pub open spec fn first_bad_len_mut(s: Seq<&mut [u8]>, len: int, t: int) -> bool {
    &&& 0 <= t < s.len()
    &&& s[t]@.len() != len
    &&& forall|q: int| 0 <= q < t ==> (#[trigger] s[q]@).len() == len
}

/// The length of the first output buffer (0 when there is none).
pub open spec fn first_len(s: Seq<&mut [u8]>) -> int {
    if s.len() == 0 {
        0
    } else {
        s[0]@.len() as int
    }
}

/// Every table a kernel reads lies inside the tables it was handed: for
/// `r < rows` and `j < k`, table `r * k + j` — `w` bytes from
/// `(r * k + j) * w` — ends within the `rows * k * w` bytes of a block of
/// `rows x k` tables, in either format (`w` of 32 or 8).
pub proof fn lemma_table_offsets_in_bounds(rows: int, k: int, w: int, r: int, j: int)
    by (nonlinear_arith)
    requires
        0 <= r < rows,
        0 <= j < k,
        0 < w,
    ensures
        0 <= (r * k + j) * w,
        (r * k + j) * w + w <= rows * k * w,
{
}

/// Table `idx` of `g` applied to `x`.
fn apply_block(format: TableFormat, g: &[u8], idx: usize, x: u8) -> (r: u8)
    requires
        format_width(format) * idx + format_width(format) <= g.len(),
    ensures
        r == block_apply(format, g@, idx as int, x),
{
    match format {
        TableFormat::Nibble => {
            let r = crate::tables::table_mul_at(g, idx * TABLE_BYTES, x);
            assert(g@.subrange(32 * idx, 32 * idx + 32) =~= nibble_block(g@, idx as int));
            r
        },
        TableFormat::Affine => {
            let m = crate::tables::affine_at(g, idx);
            crate::tables::affine_apply_byte(m, x)
        },
    }
}

/// Byte `i` of the dot product of the sources with the tables `base ..`.
pub(crate) fn dot_at(format: TableFormat, gftbls: &[u8], data: &[&[u8]], base: usize, i: usize) -> (r: u8)
    requires
        format_width(format) * (base + data@.len()) <= gftbls@.len(),
        forall|j: int| 0 <= j < data@.len() ==> i < (#[trigger] data@[j]@).len(),
    ensures
        r == dot_byte(format, gftbls@, data@, base as int, i as int),
{
    let k = data.len();
    let glen = gftbls.len();
    let ghost w = format_width(format);
    let mut acc: u8 = 0;
    let mut j: usize = 0;
    while j < k
        invariant
            k == data@.len(),
            w == format_width(format),
            w * (base + k) <= glen,
            glen == gftbls@.len(),
            forall|q: int| 0 <= q < data@.len() ==> i < (#[trigger] data@[q]@).len(),
            0 <= j <= k,
            acc == xsum(j as int, dot_terms(format, gftbls@, data@, base as int, i as int)),
        decreases k - j,
    {
        proof {
            assert(w * (base + j) + w <= w * (base + k)) by (nonlinear_arith)
                requires
                    j < k,
                    0 < w,
            ;
        }
        let src = data[j];
        assert(i < src@.len());
        let v = apply_block(format, gftbls, base + j, src[i]);
        acc = acc ^ v;
        j += 1;
    }
    acc
}

/// Finish bytes `[start..len)` of every output row: row `r` is the dot
/// product of the sources with tables `r * k ..`. Bytes before `start` are
/// left as they are (a SIMD body has already written them).
pub(crate) fn encode_tail(
    format: TableFormat,
    gftbls: &[u8],
    data: &[&[u8]],
    out: &mut [&mut [u8]],
    start: usize,
)
    requires
        old(out)@.len() * data@.len() * format_width(format) <= gftbls@.len(),
        all_len(data@, first_len(old(out)@)),
        all_len_mut(old(out)@, first_len(old(out)@)),
        start <= first_len(old(out)@),
    ensures
        final(out)@.len() == old(out)@.len(),
        forall|r: int| 0 <= r < old(out)@.len() ==> (#[trigger] final(out)@[r]@).len() == old(out)@[r]@.len(),
        forall|r: int, i: int|
            0 <= r < old(out)@.len() && 0 <= i < start ==> #[trigger] final(out)@[r]@[i] == old(out)@[r]@[i],
        forall|r: int, i: int|
            0 <= r < old(out)@.len() && start <= i < old(out)@[r]@.len() ==> #[trigger] final(out)@[r]@[i]
                == dot_byte(format, gftbls@, data@, r * data@.len(), i),
{
    let k = data.len();
    let rows = out.len();
    let glen = gftbls.len();
    let ghost w = format_width(format);
    let ghost len = first_len(old(out)@);
    let mut r: usize = 0;
    while r < rows
        invariant
            rows == old(out)@.len(),
            out@.len() == rows,
            k == data@.len(),
            w == format_width(format),
            len == first_len(old(out)@),
            rows * k * w <= glen,
            glen == gftbls@.len(),
            all_len(data@, len),
            all_len_mut(old(out)@, len),
            start <= len,
            0 <= r <= rows,
            forall|q: int| 0 <= q < rows ==> (#[trigger] out@[q]@).len() == len,
            forall|q: int, i: int| 0 <= q < rows && 0 <= i < start ==> #[trigger] out@[q]@[i] == old(out)@[q]@[i],
            forall|q: int, i: int| r <= q < rows && 0 <= i < len ==> #[trigger] out@[q]@[i] == old(out)@[q]@[i],
            forall|q: int, i: int|
                0 <= q < r && start <= i < len ==> #[trigger] out@[q]@[i] == dot_byte(format, gftbls@, data@, q * k, i),
        decreases rows - r,
    {
        let dlen = out[r].len();
        let mut i: usize = start;
        while i < dlen
            invariant
                rows == old(out)@.len(),
                out@.len() == rows,
                k == data@.len(),
                w == format_width(format),
                len == first_len(old(out)@),
                dlen == len,
                rows * k * w <= glen,
                glen == gftbls@.len(),
                all_len(data@, len),
                start <= i <= len,
                0 <= r < rows,
                forall|q: int| 0 <= q < rows ==> (#[trigger] out@[q]@).len() == len,
                forall|q: int, t: int| 0 <= q < rows && 0 <= t < start ==> #[trigger] out@[q]@[t] == old(out)@[q]@[t],
                forall|q: int, t: int| r < q < rows && 0 <= t < len ==> #[trigger] out@[q]@[t] == old(out)@[q]@[t],
                forall|t: int| i <= t < len ==> #[trigger] out@[r as int]@[t] == old(out)@[r as int]@[t],
                forall|q: int, t: int|
                    0 <= q < r && start <= t < len ==> #[trigger] out@[q]@[t] == dot_byte(format, gftbls@, data@, q * k, t),
                forall|t: int|
                    start <= t < i ==> #[trigger] out@[r as int]@[t] == dot_byte(format, gftbls@, data@, r * k, t),
            decreases len - i,
        {
            proof {
                assert(w * (r * k + k) <= rows * k * w) by (nonlinear_arith)
                    requires
                        r < rows,
                        0 < w,
                ;
            }
            let acc = dot_at(format, gftbls, data, r * k, i);
            out[r][i] = acc;
            i += 1;
        }
        r += 1;
    }
}

/// Fold one source into every output row: row `r` gains table
/// `r * k + vec_i` applied to `src`.
fn update_rows(format: TableFormat, gftbls: &[u8], k: usize, vec_i: usize, src: &[u8], outs: &mut [&mut [u8]])
    requires
        vec_i < k,
        old(outs)@.len() > 0 ==> ((old(outs)@.len() - 1) * k + vec_i + 1) * format_width(format)
            <= gftbls@.len(),
        all_len_mut(old(outs)@, src@.len() as int),
    ensures
        final(outs)@.len() == old(outs)@.len(),
        forall|r: int| 0 <= r < old(outs)@.len() ==> (#[trigger] final(outs)@[r]@).len() == src@.len(),
        forall|r: int, i: int|
            0 <= r < old(outs)@.len() && 0 <= i < src@.len() ==> #[trigger] final(outs)@[r]@[i]
                == old(outs)@[r]@[i] ^ block_apply(format, gftbls@, r * k + vec_i, src@[i]),
{
    let rows = outs.len();
    let len = src.len();
    let glen = gftbls.len();
    let ghost w = format_width(format);
    let mut r: usize = 0;
    while r < rows
        invariant
            rows == old(outs)@.len(),
            outs@.len() == rows,
            len == src@.len(),
            w == format_width(format),
            vec_i < k,
            rows > 0 ==> ((rows - 1) * k + vec_i + 1) * w <= glen,
            glen == gftbls@.len(),
            0 <= r <= rows,
            forall|q: int| 0 <= q < rows ==> (#[trigger] outs@[q]@).len() == len,
            forall|q: int, i: int| r <= q < rows && 0 <= i < len ==> #[trigger] outs@[q]@[i] == old(outs)@[q]@[i],
            forall|q: int, i: int|
                0 <= q < r && 0 <= i < len ==> #[trigger] outs@[q]@[i] == old(outs)@[q]@[i] ^ block_apply(
                    format,
                    gftbls@,
                    q * k + vec_i,
                    src@[i],
                ),
        decreases rows - r,
    {
        proof {
            assert(w * (r * k + vec_i) + w <= ((rows - 1) * k + vec_i + 1) * w) by (nonlinear_arith)
                requires
                    r < rows,
                    vec_i < k,
                    0 < w,
            ;
        }
        let idx = r * k + vec_i;
        let mut i: usize = 0;
        while i < len
            invariant
                rows == old(outs)@.len(),
                outs@.len() == rows,
                len == src@.len(),
                w == format_width(format),
                idx == r * k + vec_i,
                w * idx + w <= glen,
                glen == gftbls@.len(),
                0 <= r < rows,
                0 <= i <= len,
                forall|q: int| 0 <= q < rows ==> (#[trigger] outs@[q]@).len() == len,
                forall|q: int, t: int| r < q < rows && 0 <= t < len ==> #[trigger] outs@[q]@[t] == old(outs)@[q]@[t],
                forall|t: int| i <= t < len ==> #[trigger] outs@[r as int]@[t] == old(outs)@[r as int]@[t],
                forall|q: int, t: int|
                    0 <= q < r && 0 <= t < len ==> #[trigger] outs@[q]@[t] == old(outs)@[q]@[t] ^ block_apply(
                        format,
                        gftbls@,
                        q * k + vec_i,
                        src@[t],
                    ),
                forall|t: int|
                    0 <= t < i ==> #[trigger] outs@[r as int]@[t] == old(outs)@[r as int]@[t] ^ block_apply(
                        format,
                        gftbls@,
                        idx as int,
                        src@[t],
                    ),
            decreases len - i,
        {
            let v = apply_block(format, gftbls, idx, src[i]);
            let d = outs[r][i];
            outs[r][i] = d ^ v;
            i += 1;
        }
        r += 1;
    }
}

/// `dest ^= table(src)` for the first table of `tbl`.
fn mad_bytes(format: TableFormat, tbl: &[u8], src: &[u8], dest: &mut [u8])
    requires
        format_width(format) <= tbl@.len(),
        src@.len() == old(dest)@.len(),
    ensures
        final(dest)@.len() == old(dest)@.len(),
        forall|i: int| 0 <= i < src@.len() ==> #[trigger] final(dest)@[i] == old(dest)@[i] ^ block_apply(format, tbl@, 0, src@[i]),
{
    let len = src.len();
    let tlen = tbl.len();
    let mut i: usize = 0;
    while i < len
        invariant
            len == src@.len(),
            dest@.len() == len,
            format_width(format) <= tlen,
            tlen == tbl@.len(),
            0 <= i <= len,
            forall|t: int| i <= t < len ==> #[trigger] dest@[t] == old(dest)@[t],
            forall|t: int| 0 <= t < i ==> #[trigger] dest@[t] == old(dest)@[t] ^ block_apply(format, tbl@, 0, src@[t]),
        decreases len - i,
    {
        let v = apply_block(format, tbl, 0, src[i]);
        dest[i] = dest[i] ^ v;
        i += 1;
    }
}

/// The 32-byte nibble table at position `index` of a table buffer.
fn tbl32(gftbls: &[u8], index: usize) -> (r: Result<&[u8], CodeError>)
    requires
        (index + 1) * 32 <= usize::MAX,
    ensures
        32 * index + 32 <= gftbls@.len() ==> (r matches Ok(t) && t@ == nibble_block(gftbls@, index as int)),
        32 * index + 32 > gftbls@.len() ==> r == Err::<&[u8], CodeError>(
            CodeError::ShardCount { expected: (index + 1) as usize, got: (gftbls@.len() / 32) as usize },
        ),
{
    let start = index * TABLE_BYTES;
    if start + TABLE_BYTES > gftbls.len() {
        return Err(CodeError::ShardCount { expected: index + 1, got: gftbls.len() / TABLE_BYTES });
    }
    Ok(vstd::slice::slice_subrange(gftbls, start, start + TABLE_BYTES))
}

/// `dest = c * src` where `tbl` is `c`'s expanded 32-byte table (ISA-L's
/// `gf_vect_mul`, without its len-multiple-of-32 restriction).
pub fn vect_mul(dest: &mut [u8], tbl: &[u8; 32], src: &[u8]) -> (r: Result<(), CodeError>)
    ensures
        r is Ok <==> old(dest)@.len() == src@.len(),
        r is Err ==> r == Err::<(), CodeError>(
            CodeError::ShardLength { index: 0, expected: old(dest)@.len() as usize, got: src@.len() as usize },
        ) && final(dest)@ == old(dest)@,
        r is Ok ==> final(dest)@.len() == src@.len() && forall|i: int|
            0 <= i < src@.len() ==> #[trigger] final(dest)@[i] == table_mul_spec(tbl@, src@[i]),
{
    if dest.len() != src.len() {
        return Err(CodeError::ShardLength { index: 0, expected: dest.len(), got: src.len() });
    }
    let len = src.len();
    let mut i: usize = 0;
    while i < len
        invariant
            len == src@.len(),
            dest@.len() == len,
            0 <= i <= len,
            forall|t: int| 0 <= t < i ==> #[trigger] dest@[t] == table_mul_spec(tbl@, src@[t]),
        decreases len - i,
    {
        dest[i] = crate::tables::table_mul(tbl, src[i]);
        i += 1;
    }
    Ok(())
}

/// `dest ^= c * src` — multiply-and-add, the incremental-update primitive
/// (ISA-L's `gf_vect_mad`).
pub fn vect_mad(dest: &mut [u8], tbl: &[u8; 32], src: &[u8]) -> (r: Result<(), CodeError>)
    ensures
        r is Ok <==> old(dest)@.len() == src@.len(),
        r is Err ==> r == Err::<(), CodeError>(
            CodeError::ShardLength { index: 0, expected: old(dest)@.len() as usize, got: src@.len() as usize },
        ) && final(dest)@ == old(dest)@,
        r is Ok ==> final(dest)@.len() == src@.len() && forall|i: int|
            0 <= i < src@.len() ==> #[trigger] final(dest)@[i] == old(dest)@[i] ^ table_mul_spec(tbl@, src@[i]),
{
    if dest.len() != src.len() {
        return Err(CodeError::ShardLength { index: 0, expected: dest.len(), got: src.len() });
    }
    let len = src.len();
    let mut i: usize = 0;
    while i < len
        invariant
            len == src@.len(),
            dest@.len() == len,
            0 <= i <= len,
            forall|t: int| i <= t < len ==> #[trigger] dest@[t] == old(dest)@[t],
            forall|t: int| 0 <= t < i ==> #[trigger] dest@[t] == old(dest)@[t] ^ table_mul_spec(tbl@, src@[t]),
        decreases len - i,
    {
        dest[i] = dest[i] ^ crate::tables::table_mul(tbl, src[i]);
        i += 1;
    }
    Ok(())
}

/// `dest[i] = XOR_j (c_j * srcs[j][i])` — the GF(2^8) dot product at the
/// heart of encode (ISA-L's `gf_vect_dot_prod`). `gftbls` holds one 32-byte
/// table per source, in source order.
pub fn vect_dot_prod(dest: &mut [u8], gftbls: &[u8], srcs: &[&[u8]]) -> (r: Result<(), CodeError>)
    ensures
        gftbls@.len() != srcs@.len() * 32 ==> r == Err::<(), CodeError>(
            CodeError::ShardCount { expected: srcs@.len() as usize, got: (gftbls@.len() / 32) as usize },
        ),
        r is Ok <==> gftbls@.len() == srcs@.len() * 32 && all_len(srcs@, old(dest)@.len() as int),
        r matches Err(CodeError::ShardLength { index, expected, got }) ==> first_bad_len(
            srcs@,
            old(dest)@.len() as int,
            index as int,
        ) && expected == old(dest)@.len() && got == srcs@[index as int]@.len(),
        r matches Err(CodeError::ShardCount { .. }) ==> gftbls@.len() != srcs@.len() * 32,
        r is Err ==> (r matches Err(CodeError::ShardCount { .. }) || r matches Err(CodeError::ShardLength { .. })),
        r is Err ==> final(dest)@ == old(dest)@,
        r is Ok ==> final(dest)@.len() == old(dest)@.len() && forall|i: int|
            0 <= i < old(dest)@.len() ==> #[trigger] final(dest)@[i] == dot_byte(
                TableFormat::Nibble,
                gftbls@,
                srcs@,
                0,
                i,
            ),
{
    let n = srcs.len();
    let tables_ok = match n.checked_mul(TABLE_BYTES) {
        Some(need) => gftbls.len() == need,
        None => false,
    };
    if !tables_ok {
        return Err(CodeError::ShardCount { expected: n, got: gftbls.len() / TABLE_BYTES });
    }
    let len = dest.len();
    let glen = gftbls.len();
    let mut index: usize = 0;
    while index < n
        invariant
            n == srcs@.len(),
            gftbls@.len() == n * 32,
            len == dest@.len(),
            dest@ == old(dest)@,
            0 <= index <= n,
            forall|q: int| 0 <= q < index ==> (#[trigger] srcs@[q]@).len() == len,
        decreases n - index,
    {
        if srcs[index].len() != len {
            return Err(CodeError::ShardLength { index, expected: len, got: srcs[index].len() });
        }
        index += 1;
    }
    let mut i: usize = 0;
    while i < len
        invariant
            n == srcs@.len(),
            gftbls@.len() == n * 32,
            glen == gftbls@.len(),
            len == dest@.len(),
            all_len(srcs@, len as int),
            0 <= i <= len,
            forall|t: int|
                0 <= t < i ==> #[trigger] dest@[t] == dot_byte(TableFormat::Nibble, gftbls@, srcs@, 0, t),
        decreases len - i,
    {
        let mut acc: u8 = 0;
        let mut j: usize = 0;
        while j < n
            invariant
                n == srcs@.len(),
                gftbls@.len() == n * 32,
                glen == gftbls@.len(),
                all_len(srcs@, len as int),
                i < len,
                0 <= j <= n,
                acc == xsum(j as int, dot_terms(TableFormat::Nibble, gftbls@, srcs@, 0, i as int)),
            decreases n - j,
        {
            let tbl = match tbl32(gftbls, j) {
                Ok(t) => t,
                Err(e) => {
                    return Err(e);
                },
            };
            let src = srcs[j];
            assert(src@.len() == len);
            let v = crate::tables::table_mul_at(tbl, 0, src[i]);
            assert(tbl@.subrange(0, 32) =~= tbl@);
            acc = acc ^ v;
            j += 1;
        }
        dest[i] = acc;
        i += 1;
    }
    Ok(())
}

/// A kernel set: the table format its tables use and a name for reporting.
/// Every set computes the same field products; [`Kernels::scalar`] is the
/// always-available one.
#[derive(Debug, Clone, Copy)]
pub struct Kernels {
    format: TableFormat,
    name: &'static str,
}

impl Kernels {
    /// The table format this set consumes.
    pub closed spec fn format_of(self) -> TableFormat {
        self.format
    }

    /// The name this set reports.
    pub closed spec fn name_of(self) -> Seq<char> {
        self.name@
    }

    /// The scalar kernel set: nibble tables, one byte at a time.
    pub fn scalar() -> (r: Kernels)
        ensures
            r.format_of() == TableFormat::Nibble,
            r.name_of() == "scalar"@,
    {
        Kernels { format: TableFormat::Nibble, name: "scalar" }
    }

    /// A kernel set consuming `format` tables, reported as `name`.
    pub(crate) fn with_format(format: TableFormat, name: &'static str) -> (r: Kernels)
        ensures
            r.format_of() == format,
            r.name_of() == name@,
    {
        Kernels { format, name }
    }

    /// The table format this set consumes.
    pub fn format(&self) -> (r: TableFormat)
        ensures
            r == self.format_of(),
    {
        self.format
    }

    /// The name this set reports (`"scalar"`, `"x86_64/avx2"`, ...).
    pub fn name(&self) -> (r: &'static str)
        ensures
            r@ == self.name_of(),
    {
        self.name
    }

    /// Bytes per expanded coefficient in this set's table format.
    pub fn table_bytes(&self) -> (r: usize)
        ensures
            r == format_width(self.format_of()),
    {
        match self.format {
            TableFormat::Nibble => TABLE_BYTES,
            TableFormat::Affine => crate::tables::GFNI_TABLE_BYTES,
        }
    }

    /// Expand a row-major coefficient block into this set's table format.
    pub fn init(&self, coeffs: &[u8]) -> (r: Vec<u8>)
        requires
            coeffs@.len() * 32 <= usize::MAX,
        ensures
            tables_for(self.format_of(), r@, coeffs@),
    {
        match self.format {
            TableFormat::Nibble => crate::tables::init_tables(coeffs),
            TableFormat::Affine => crate::tables::init_tables_gfni(coeffs),
        }
    }

    /// Encode: output row `r` becomes the dot product of the sources with the
    /// tables for `(row r, source j)` at position `r * k + j`.
    pub fn encode(&self, gftbls: &[u8], data: &[&[u8]], out: &mut [&mut [u8]])
        requires
            old(out)@.len() * data@.len() * format_width(self.format_of()) <= gftbls@.len(),
            all_len(data@, first_len(old(out)@)),
            all_len_mut(old(out)@, first_len(old(out)@)),
        ensures
            final(out)@.len() == old(out)@.len(),
            forall|r: int| 0 <= r < old(out)@.len() ==> (#[trigger] final(out)@[r]@).len() == old(out)@[r]@.len(),
            forall|r: int, i: int|
                0 <= r < old(out)@.len() && 0 <= i < old(out)@[r]@.len() ==> #[trigger] final(out)@[r]@[i]
                    == dot_byte(self.format_of(), gftbls@, data@, r * data@.len(), i),
    {
        encode_tail(self.format, gftbls, data, out, 0);
    }

    /// Incremental encode of ONE source (`vec_i` of `k`): output row `r`
    /// gains table `r * k + vec_i` applied to `src`.
    pub fn update(&self, gftbls: &[u8], k: usize, vec_i: usize, src: &[u8], outs: &mut [&mut [u8]])
        requires
            vec_i < k,
            old(outs)@.len() > 0 ==> ((old(outs)@.len() - 1) * k + vec_i + 1) * format_width(
                self.format_of(),
            ) <= gftbls@.len(),
            all_len_mut(old(outs)@, src@.len() as int),
        ensures
            final(outs)@.len() == old(outs)@.len(),
            forall|r: int| 0 <= r < old(outs)@.len() ==> (#[trigger] final(outs)@[r]@).len() == src@.len(),
            forall|r: int, i: int|
                0 <= r < old(outs)@.len() && 0 <= i < src@.len() ==> #[trigger] final(outs)@[r]@[i]
                    == old(outs)@[r]@[i] ^ block_apply(self.format_of(), gftbls@, r * k + vec_i, src@[i]),
    {
        update_rows(self.format, gftbls, k, vec_i, src, outs);
    }

    /// Multiply-and-add: `dest ^= c * src`, `c` being the coefficient of the
    /// first table in `tbl`.
    pub fn mad(&self, tbl: &[u8], src: &[u8], dest: &mut [u8])
        requires
            format_width(self.format_of()) <= tbl@.len(),
            src@.len() == old(dest)@.len(),
        ensures
            final(dest)@.len() == old(dest)@.len(),
            forall|i: int|
                0 <= i < src@.len() ==> #[trigger] final(dest)@[i] == old(dest)@[i] ^ block_apply(
                    self.format_of(),
                    tbl@,
                    0,
                    src@[i],
                ),
    {
        mad_bytes(self.format, tbl, src, dest);
    }
}

} // verus!
