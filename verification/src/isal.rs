//! The ISA-L compat layer: functions named and shaped like Intel ISA-L's
//! erasure-code API, so C callers and programs written against ISA-L carry over directly.
//!
//! Semantics follow ISA-L (including behaviours the typed API deliberately
//! tightens): `gf_gen_rs_matrix` fills for ANY `(m, k)` without the
//! safe-region refusal, `gf_invert_matrix` destroys its input, and
//! `gf_vect_mul` keeps ISA-L's len-multiple-of-32 contract. What does NOT
//! carry over is undefined behaviour: every function here validates its
//! slices and returns a typed error where ISA-L's documentation says
//! "callers are responsible".
//!
//! Buffers may be longer than `len`; exactly `len` bytes are processed.

use vstd::prelude::*;

use crate::algebra::{identity, invertible, is_inverse, is_permutation, lemma_xsum_ext, lemma_xsum_perm, singular, xsum};
use crate::error::{CodeError, MatrixError};
use crate::gf::{field_inv, field_mul, field_pow, field_pow2, lemma_mul_units};
use crate::kernel::{dot_byte, Kernels, TableFormat};
use crate::gauss::invert_gauss_jordan;
use crate::matrix::{cauchy_entry, grid_of, lemma_flat_index, rs_entry};
use crate::tables::is_nibble_tables;
use crate::tables::{is_mul_table, nibble_block, table_mul_spec, TABLE_BYTES};

pub use crate::gauss::invert_gauss_jordan as gf_invert_matrix_raw;

verus! {

/// The kernel set the compat layer drives: it consumes ISA-L nibble tables
/// by contract (never affine ones).
fn nibble_kernels() -> (r: Kernels)
    ensures
        r.format_of() == TableFormat::Nibble,
{
    Kernels::scalar()
}

/// GF(2^8) multiply — ISA-L `gf_mul`.
pub fn gf_mul(a: u8, b: u8) -> (r: u8)
    ensures
        r == field_mul(a, b),
{
    crate::gf::mul(a, b)
}

/// GF(2^8) inverse — ISA-L `gf_inv` (returns 0 for 0).
pub fn gf_inv(a: u8) -> (r: u8)
    ensures
        r == field_inv(a),
        a != 0 ==> field_mul(a, r) == 1,
{
    crate::gf::inv(a)
}

/// A `m x k` matrix (`m >= k >= 1`) fits in `a`.
pub open spec fn matrix_buf_ok(len: int, m: int, k: int) -> bool {
    k != 0 && m >= k && k * m <= usize::MAX && len >= k * m
}

fn check_matrix_buf(a: &[u8], m: usize, k: usize) -> (r: Result<(), MatrixError>)
    ensures
        r is Ok <==> matrix_buf_ok(a@.len() as int, m as int, k as int),
        r is Err ==> r == Err::<(), MatrixError>(
            MatrixError::Dimensions { k, p: if m >= k { (m - k) as usize } else { 0 } },
        ),
{
    let fits = match k.checked_mul(m) {
        Some(need) => a.len() >= need,
        None => false,
    };
    if k == 0 || m < k || !fits {
        return Err(MatrixError::Dimensions { k, p: m.saturating_sub(k) });
    }
    Ok(())
}

/// Zero the first `m * k` bytes of `a` and put ones on the diagonal of the
/// top `k x k` block.
fn identity_prefix(a: &mut [u8], m: usize, k: usize)
    requires
        1 <= k <= m <= 255,
        m * k <= old(a)@.len(),
    ensures
        final(a)@.len() == old(a)@.len(),
        forall|x: int, y: int|
            0 <= x < m && 0 <= y < k ==> #[trigger] final(a)@[k * x + y] == if x < k && x == y {
                1u8
            } else {
                0u8
            },
        forall|t: int| m * k <= t < old(a)@.len() ==> #[trigger] final(a)@[t] == old(a)@[t],
{
    assert(m * k <= 65025) by (nonlinear_arith)
        requires
            m <= 255,
            k <= 255,
    ;
    let mk = m * k;
    let mut t: usize = 0;
    while t < mk
        invariant
            mk == m * k,
            mk <= a@.len(),
            a@.len() == old(a)@.len(),
            0 <= t <= mk,
            forall|u: int| 0 <= u < t ==> #[trigger] a@[u] == 0u8,
            forall|u: int| mk <= u < old(a)@.len() ==> #[trigger] a@[u] == old(a)@[u],
        decreases mk - t,
    {
        a[t] = 0;
        t += 1;
    }
    assert forall|x: int, y: int| 0 <= x < m && 0 <= y < k implies #[trigger] a@[k * x + y] == 0u8 by {
        lemma_flat_index(m as int, k as int, x, y, x, y);
    }
    let mut i: usize = 0;
    while i < k
        invariant
            1 <= k <= m <= 255,
            mk == m * k,
            mk <= 65025,
            mk <= a@.len(),
            a@.len() == old(a)@.len(),
            0 <= i <= k,
            forall|x: int, y: int|
                0 <= x < m && 0 <= y < k ==> #[trigger] a@[k * x + y] == if x < i && x == y {
                    1u8
                } else {
                    0u8
                },
            forall|u: int| mk <= u < old(a)@.len() ==> #[trigger] a@[u] == old(a)@[u],
        decreases k - i,
    {
        proof {
            lemma_flat_index(m as int, k as int, i as int, i as int, i as int, i as int);
        }
        let ghost before = a@;
        a[k * i + i] = 1;
        proof {
            assert forall|x: int, y: int| 0 <= x < m && 0 <= y < k implies #[trigger] a@[k * x + y] == if x == i
                && y == i {
                1u8
            } else {
                before[k * x + y]
            } by {
                lemma_flat_index(m as int, k as int, x, y, i as int, i as int);
            }
        }
        i += 1;
    }
    proof {
        assert forall|x: int, y: int| 0 <= x < m && 0 <= y < k implies #[trigger] a@[k * x + y] == if x < k && x == y {
            1u8
        } else {
            0u8
        } by {
            lemma_flat_index(m as int, k as int, x, y, x, y);
        }
    }
}

/// Vandermonde-style encode matrix — ISA-L `gf_gen_rs_matrix`: identity in
/// the top `k x k`, powers below, no safe-region refusal (use
/// [`crate::matrix::Matrix::reed_solomon`] for the enforced version). `a`
/// needs at least `m * k` bytes.
pub fn gf_gen_rs_matrix(a: &mut [u8], m: usize, k: usize) -> (r: Result<(), MatrixError>)
    ensures
        r is Ok <==> matrix_buf_ok(old(a)@.len() as int, m as int, k as int) && m <= 255,
        r is Err ==> r == Err::<(), MatrixError>(
            MatrixError::Dimensions { k, p: if m >= k { (m - k) as usize } else { 0 } },
        ) && final(a)@ == old(a)@,
        final(a)@.len() == old(a)@.len(),
        r is Ok ==> forall|x: int, y: int|
            0 <= x < m && 0 <= y < k ==> #[trigger] final(a)@[k * x + y] == rs_entry(k as int, x, y),
        r is Ok ==> forall|t: int| m * k <= t < old(a)@.len() ==> #[trigger] final(a)@[t] == old(a)@[t],
{
    match check_matrix_buf(a, m, k) {
        Ok(()) => {},
        Err(e) => {
            return Err(e);
        },
    }
    if m > 255 {
        return Err(MatrixError::Dimensions { k, p: m - k });
    }
    assert(m * k <= 65025) by (nonlinear_arith)
        requires
            m <= 255,
            k <= 255,
    ;
    identity_prefix(a, m, k);
    let ghost mk = m * k;
    let mut row_gen: u8 = 1;
    let mut i = k;
    while i < m
        invariant
            1 <= k <= m <= 255,
            mk == m * k,
            mk <= 65025,
            mk <= a@.len(),
            a@.len() == old(a)@.len(),
            k <= i <= m,
            row_gen == field_pow2((i - k) as nat),
            forall|x: int, y: int|
                0 <= x < m && 0 <= y < k ==> #[trigger] a@[k * x + y] == if x < i { rs_entry(k as int, x, y) } else { 0u8 },
            forall|u: int| mk <= u < old(a)@.len() ==> #[trigger] a@[u] == old(a)@[u],
        decreases m - i,
    {
        let mut coeff: u8 = 1;
        let mut j: usize = 0;
        while j < k
            invariant
                1 <= k <= m <= 255,
                mk == m * k,
                mk <= 65025,
                mk <= a@.len(),
                a@.len() == old(a)@.len(),
                k <= i < m,
                0 <= j <= k,
                row_gen == field_pow2((i - k) as nat),
                coeff == field_pow(row_gen, j as nat),
                forall|x: int, y: int|
                    0 <= x < m && 0 <= y < k ==> #[trigger] a@[k * x + y] == if x < i || (x == i && y < j) {
                        rs_entry(k as int, x, y)
                    } else {
                        0u8
                    },
                forall|u: int| mk <= u < old(a)@.len() ==> #[trigger] a@[u] == old(a)@[u],
            decreases k - j,
        {
            proof {
                lemma_flat_index(m as int, k as int, i as int, j as int, i as int, j as int);
            }
            let ghost before = a@;
            a[k * i + j] = coeff;
            proof {
                assert forall|x: int, y: int| 0 <= x < m && 0 <= y < k implies #[trigger] a@[k * x + y] == if x == i
                    && y == j {
                    coeff
                } else {
                    before[k * x + y]
                } by {
                    lemma_flat_index(m as int, k as int, x, y, i as int, j as int);
                }
            }
            coeff = crate::gf::mul(coeff, row_gen);
            j += 1;
        }
        proof {
            lemma_mul_units();
        }
        row_gen = crate::gf::mul(row_gen, 2);
        i += 1;
    }
    Ok(())
}

/// Cauchy encode matrix — ISA-L `gf_gen_cauchy1_matrix`.
pub fn gf_gen_cauchy1_matrix(a: &mut [u8], m: usize, k: usize) -> (r: Result<(), MatrixError>)
    ensures
        r is Ok <==> matrix_buf_ok(old(a)@.len() as int, m as int, k as int) && m <= 255,
        r is Err ==> r == Err::<(), MatrixError>(
            MatrixError::Dimensions { k, p: if m >= k { (m - k) as usize } else { 0 } },
        ) && final(a)@ == old(a)@,
        final(a)@.len() == old(a)@.len(),
        r is Ok ==> forall|x: int, y: int|
            0 <= x < m && 0 <= y < k ==> #[trigger] final(a)@[k * x + y] == cauchy_entry(k as int, x, y),
        r is Ok ==> forall|t: int| m * k <= t < old(a)@.len() ==> #[trigger] final(a)@[t] == old(a)@[t],
{
    match check_matrix_buf(a, m, k) {
        Ok(()) => {},
        Err(e) => {
            return Err(e);
        },
    }
    if m > 255 {
        return Err(MatrixError::Dimensions { k, p: m - k });
    }
    assert(m * k <= 65025) by (nonlinear_arith)
        requires
            m <= 255,
            k <= 255,
    ;
    identity_prefix(a, m, k);
    let ghost mk = m * k;
    let mut i = k;
    while i < m
        invariant
            1 <= k <= m <= 255,
            mk == m * k,
            mk <= 65025,
            mk <= a@.len(),
            a@.len() == old(a)@.len(),
            k <= i <= m,
            forall|x: int, y: int|
                0 <= x < m && 0 <= y < k ==> #[trigger] a@[k * x + y] == if x < i { cauchy_entry(k as int, x, y) } else { 0u8 },
            forall|u: int| mk <= u < old(a)@.len() ==> #[trigger] a@[u] == old(a)@[u],
        decreases m - i,
    {
        let mut j: usize = 0;
        while j < k
            invariant
                1 <= k <= m <= 255,
                mk == m * k,
                mk <= 65025,
                mk <= a@.len(),
                a@.len() == old(a)@.len(),
                k <= i < m,
                0 <= j <= k,
                forall|x: int, y: int|
                    0 <= x < m && 0 <= y < k ==> #[trigger] a@[k * x + y] == if x < i || (x == i && y < j) {
                        cauchy_entry(k as int, x, y)
                    } else {
                        0u8
                    },
                forall|u: int| mk <= u < old(a)@.len() ==> #[trigger] a@[u] == old(a)@[u],
            decreases k - j,
        {
            let x: u8 = (i ^ j) as u8;
            assert(x == (i as u8) ^ (j as u8)) by (bit_vector)
                requires
                    x == ((i ^ j) as u8),
                    i < 256,
                    j < 256,
            ;
            let c = crate::gf::inv(x);
            proof {
                lemma_flat_index(m as int, k as int, i as int, j as int, i as int, j as int);
            }
            let ghost before = a@;
            a[k * i + j] = c;
            proof {
                assert forall|x: int, y: int| 0 <= x < m && 0 <= y < k implies #[trigger] a@[k * x + y] == if x == i
                    && y == j {
                    c
                } else {
                    before[k * x + y]
                } by {
                    lemma_flat_index(m as int, k as int, x, y, i as int, j as int);
                }
            }
            j += 1;
        }
        i += 1;
    }
    Ok(())
}

/// Invert an `n x n` matrix — ISA-L `gf_invert_matrix` semantics: the first
/// `n * n` bytes of `in_mat` are DESTROYED (reduced to the identity on
/// success), the first `n * n` bytes of `out_mat` receive the inverse, and
/// singular input is a typed error (where C returns -1).
pub fn gf_invert_matrix(in_mat: &mut [u8], out_mat: &mut [u8], n: usize) -> (r: Result<(), MatrixError>)
    ensures
        final(in_mat)@.len() == old(in_mat)@.len(),
        final(out_mat)@.len() == old(out_mat)@.len(),
        ({
            let dims_bad = n == 0 || n * n > usize::MAX || old(in_mat)@.len() < n * n || old(out_mat)@.len() < n * n;
            let a0 = grid_of(old(in_mat)@, n as int, n as int);
            &&& dims_bad ==> r == Err::<(), MatrixError>(MatrixError::Dimensions { k: n, p: 0 })
                && final(in_mat)@ == old(in_mat)@ && final(out_mat)@ == old(out_mat)@
            &&& !dims_bad ==> (r is Ok <==> invertible(a0, n as int))
            &&& !dims_bad && r is Err ==> r == Err::<(), MatrixError>(MatrixError::Singular) && singular(a0, n as int)
            &&& r is Ok ==> is_inverse(a0, grid_of(final(out_mat)@, n as int, n as int), n as int)
                && grid_of(final(in_mat)@, n as int, n as int) == identity(n as int)
            &&& forall|t: int| n * n <= t < old(in_mat)@.len() ==> #[trigger] final(in_mat)@[t] == old(in_mat)@[t]
            &&& forall|t: int| n * n <= t < old(out_mat)@.len() ==> #[trigger] final(out_mat)@[t] == old(out_mat)@[t]
        }),
{
    let nn = match n.checked_mul(n) {
        Some(nn) => nn,
        None => {
            return Err(MatrixError::Dimensions { k: n, p: 0 });
        },
    };
    if in_mat.len() < nn || out_mat.len() < nn {
        return Err(MatrixError::Dimensions { k: n, p: 0 });
    }
    let mut a = copy_prefix(in_mat, nn);
    let mut o = copy_prefix(out_mat, nn);
    proof {
        assert(grid_of(a@, n as int, n as int) =~~= grid_of(old(in_mat)@, n as int, n as int)) by {
            assert forall|x: int, y: int| 0 <= x < n && 0 <= y < n implies grid_of(a@, n as int, n as int)[x][y]
                == grid_of(old(in_mat)@, n as int, n as int)[x][y] by {
                lemma_flat_index(n as int, n as int, x, y, x, y);
            }
        }
    }
    let r = invert_gauss_jordan(a.as_mut_slice(), o.as_mut_slice(), n);
    write_prefix(in_mat, a.as_slice());
    write_prefix(out_mat, o.as_slice());
    proof {
        if n > 0 {
            assert(grid_of(in_mat@, n as int, n as int) =~~= grid_of(a@, n as int, n as int)) by {
                assert forall|x: int, y: int| 0 <= x < n && 0 <= y < n implies grid_of(in_mat@, n as int, n as int)[x][y]
                    == grid_of(a@, n as int, n as int)[x][y] by {
                    lemma_flat_index(n as int, n as int, x, y, x, y);
                }
            }
            assert(grid_of(out_mat@, n as int, n as int) =~~= grid_of(o@, n as int, n as int)) by {
                assert forall|x: int, y: int| 0 <= x < n && 0 <= y < n implies grid_of(out_mat@, n as int, n as int)[x][y]
                    == grid_of(o@, n as int, n as int)[x][y] by {
                    lemma_flat_index(n as int, n as int, x, y, x, y);
                }
            }
        } else {
            assert(in_mat@ =~= old(in_mat)@);
            assert(out_mat@ =~= old(out_mat)@);
        }
    }
    r
}

/// The first `len` bytes of `s`, copied.
fn copy_prefix(s: &[u8], len: usize) -> (r: Vec<u8>)
    requires
        len <= s@.len(),
    ensures
        r@ == s@.subrange(0, len as int),
{
    let mut r: Vec<u8> = Vec::with_capacity(len);
    let mut t: usize = 0;
    while t < len
        invariant
            len <= s@.len(),
            0 <= t <= len,
            r@ == s@.subrange(0, t as int),
        decreases len - t,
    {
        r.push(s[t]);
        t += 1;
    }
    r
}

/// Overwrite the first `src.len()` bytes of `dst` with `src`.
fn write_prefix(dst: &mut [u8], src: &[u8])
    requires
        src@.len() <= old(dst)@.len(),
    ensures
        final(dst)@.len() == old(dst)@.len(),
        forall|t: int| 0 <= t < src@.len() ==> #[trigger] final(dst)@[t] == src@[t],
        forall|t: int| src@.len() <= t < old(dst)@.len() ==> #[trigger] final(dst)@[t] == old(dst)@[t],
{
    let len = src.len();
    let mut t: usize = 0;
    while t < len
        invariant
            len == src@.len(),
            len <= dst@.len(),
            dst@.len() == old(dst)@.len(),
            0 <= t <= len,
            forall|u: int| 0 <= u < t ==> #[trigger] dst@[u] == src@[u],
            forall|u: int| t <= u < old(dst)@.len() ==> #[trigger] dst@[u] == old(dst)@[u],
        decreases len - t,
    {
        dst[t] = src[t];
        t += 1;
    }
}

/// Expand `rows * k` coefficients into `rows * k * 32` table bytes — ISA-L
/// `ec_init_tables`. Pass the parity block (`&a[k*k..]`), per ISA-L's
/// calling convention.
pub fn ec_init_tables(k: usize, rows: usize, a: &[u8], gftbls: &mut [u8]) -> (r: Result<(), CodeError>)
    requires
        k * rows <= a@.len() ==> k * rows * 32 <= usize::MAX,
    ensures
        final(gftbls)@.len() == old(gftbls)@.len(),
        k * rows > usize::MAX ==> r == Err::<(), CodeError>(CodeError::ShardCount { expected: rows, got: 0 }),
        k * rows <= usize::MAX && a@.len() < k * rows ==> r == Err::<(), CodeError>(
            CodeError::ShardCount { expected: (k * rows) as usize, got: a@.len() as usize },
        ),
        k * rows <= a@.len() && old(gftbls)@.len() < k * rows * 32 ==> r == Err::<(), CodeError>(
            CodeError::ShardLength { index: 0, expected: (k * rows * 32) as usize, got: old(gftbls)@.len() as usize },
        ),
        r is Ok <==> k * rows <= a@.len() && k * rows * 32 <= old(gftbls)@.len(),
        r is Err ==> final(gftbls)@ == old(gftbls)@,
        r is Ok ==> is_nibble_tables(final(gftbls)@.subrange(0, k * rows * 32), a@.subrange(0, k * rows)),
        r is Ok ==> forall|t: int| k * rows * 32 <= t < old(gftbls)@.len() ==> #[trigger] final(gftbls)@[t] == old(gftbls)@[t],
{
    let coeffs = match k.checked_mul(rows) {
        Some(c) => c,
        None => {
            return Err(CodeError::ShardCount { expected: rows, got: 0 });
        },
    };
    if a.len() < coeffs {
        return Err(CodeError::ShardCount { expected: coeffs, got: a.len() });
    }
    let need = coeffs * TABLE_BYTES;
    if gftbls.len() < need {
        return Err(CodeError::ShardLength { index: 0, expected: need, got: gftbls.len() });
    }
    let mut tbl = [0u8; 32];
    let mut i: usize = 0;
    while i < coeffs
        invariant
            coeffs <= a@.len(),
            need == coeffs * 32,
            need <= gftbls@.len(),
            gftbls@.len() == old(gftbls)@.len(),
            0 <= i <= coeffs,
            forall|q: int| 0 <= q < i ==> is_mul_table(#[trigger] nibble_block(gftbls@, q), a@[q]),
            forall|t: int| 32 * i <= t < old(gftbls)@.len() ==> #[trigger] gftbls@[t] == old(gftbls)@[t],
        decreases coeffs - i,
    {
        crate::tables::mul_table32(a[i], &mut tbl);
        let ghost before = gftbls@;
        let mut t: usize = 0;
        while t < 32
            invariant
                i < coeffs,
                need == coeffs * 32,
                need <= gftbls@.len(),
                gftbls@.len() == before.len(),
                tbl@.len() == 32,
                0 <= t <= 32,
                forall|u: int| 0 <= u < 32 * i ==> #[trigger] gftbls@[u] == before[u],
                forall|u: int| 0 <= u < t ==> #[trigger] gftbls@[32 * i + u] == tbl@[u],
                forall|u: int| 32 * i + t <= u < before.len() ==> #[trigger] gftbls@[u] == before[u],
            decreases 32 - t,
        {
            gftbls[32 * i + t] = tbl[t];
            t += 1;
        }
        proof {
            assert forall|q: int| 0 <= q < i + 1 implies is_mul_table(#[trigger] nibble_block(gftbls@, q), a@[q]) by {
                if q < i {
                    assert(nibble_block(gftbls@, q) =~= nibble_block(before, q));
                } else {
                    assert forall|u: int| 0 <= u < 32 implies #[trigger] nibble_block(gftbls@, q)[u] == tbl@[u] by {
                        assert(gftbls@[32 * i + u] == tbl@[u]);
                    }
                    assert(nibble_block(gftbls@, q) =~= tbl@);
                }
            }
        }
        i += 1;
    }
    proof {
        let g = gftbls@.subrange(0, need as int);
        let c = a@.subrange(0, coeffs as int);
        assert forall|q: int| 0 <= q < c.len() implies is_mul_table(#[trigger] nibble_block(g, q), c[q]) by {
            assert(nibble_block(g, q) =~= nibble_block(gftbls@, q));
        }
    }
    Ok(())
}

/// The nibble table at position `index` of a table buffer.
fn tbl_at(gftbls: &[u8], index: usize) -> (r: Result<&[u8], CodeError>)
    requires
        (index + 1) * 32 <= usize::MAX,
    ensures
        32 * index + 32 <= gftbls@.len() ==> (r matches Ok(t) && t@ == nibble_block(gftbls@, index as int)),
        32 * index + 32 > gftbls@.len() ==> r == Err::<&[u8], CodeError>(
            CodeError::ShardCount { expected: (index + 1) as usize, got: (gftbls@.len() / 32) as usize },
        ),
{
    let start = index * TABLE_BYTES;
    if start + TABLE_BYTES > gftbls.len() {
        return Err(CodeError::ShardCount { expected: index + 1, got: gftbls.len() / TABLE_BYTES });
    }
    Ok(vstd::slice::slice_subrange(gftbls, start, start + TABLE_BYTES))
}

/// Every buffer in `s` holds at least `len` bytes.
pub open spec fn all_at_least(s: Seq<&[u8]>, len: int) -> bool {
    forall|j: int| 0 <= j < s.len() ==> (#[trigger] s[j]@).len() >= len
}

/// Buffer `t` of `s` is the first one shorter than `len`.
pub open spec fn first_short(s: Seq<&[u8]>, len: int, t: int) -> bool {
    &&& 0 <= t < s.len()
    &&& s[t]@.len() < len
    &&& forall|q: int| 0 <= q < t ==> (#[trigger] s[q]@).len() >= len
}

/// Every output buffer in `s` holds at least `len` bytes.
pub open spec fn all_at_least_mut(s: Seq<&mut [u8]>, len: int) -> bool {
    forall|j: int| 0 <= j < s.len() ==> (#[trigger] s[j]@).len() >= len
}

/// Output buffer `t` of `s` is the first one shorter than `len`.
pub open spec fn first_short_mut(s: Seq<&mut [u8]>, len: int, t: int) -> bool {
    &&& 0 <= t < s.len()
    &&& s[t]@.len() < len
    &&& forall|q: int| 0 <= q < t ==> (#[trigger] s[q]@).len() >= len
}

/// `count` buffers, each at least `len` bytes.
fn check_vects(len: usize, count: usize, bufs: &[&[u8]]) -> (r: Result<(), CodeError>)
    ensures
        r is Ok <==> bufs@.len() == count && all_at_least(bufs@, len as int),
        bufs@.len() != count ==> r matches Err(CodeError::ShardCount { .. }),
        r matches Err(CodeError::ShardCount { expected, got }) ==> bufs@.len() != count && expected == count
            && got == bufs@.len(),
        r matches Err(CodeError::ShardLength { index, expected, got }) ==> bufs@.len() == count && first_short(
            bufs@,
            len as int,
            index as int,
        ) && expected == len && got == bufs@[index as int]@.len(),
        r is Err ==> (r matches Err(CodeError::ShardCount { .. }) || r matches Err(CodeError::ShardLength { .. })),
{
    if bufs.len() != count {
        return Err(CodeError::ShardCount { expected: count, got: bufs.len() });
    }
    let mut index: usize = 0;
    while index < count
        invariant
            count == bufs@.len(),
            0 <= index <= count,
            forall|q: int| 0 <= q < index ==> (#[trigger] bufs@[q]@).len() >= len,
        decreases count - index,
    {
        if bufs[index].len() < len {
            return Err(CodeError::ShardLength { index, expected: len, got: bufs[index].len() });
        }
        index += 1;
    }
    Ok(())
}

/// The first `len` bytes of every output row `l` become the dot product of
/// the sources with the tables `l * k ..`.
fn encode_prefix(len: usize, k: usize, gftbls: &[u8], data: &[&[u8]], coding: &mut [&mut [u8]])
    requires
        data@.len() == k,
        all_at_least(data@, len as int),
        all_at_least_mut(old(coding)@, len as int),
        old(coding)@.len() * k * 32 <= gftbls@.len(),
    ensures
        final(coding)@.len() == old(coding)@.len(),
        forall|l: int| 0 <= l < old(coding)@.len() ==> (#[trigger] final(coding)@[l]@).len() == old(coding)@[l]@.len(),
        forall|l: int, i: int|
            0 <= l < old(coding)@.len() && 0 <= i < len ==> #[trigger] final(coding)@[l]@[i] == dot_byte(
                TableFormat::Nibble,
                gftbls@,
                data@,
                l * k,
                i,
            ),
        forall|l: int, i: int|
            0 <= l < old(coding)@.len() && len <= i < old(coding)@[l]@.len() ==> #[trigger] final(coding)@[l]@[i]
                == old(coding)@[l]@[i],
{
    let rows = coding.len();
    let glen = gftbls.len();
    let mut l: usize = 0;
    while l < rows
        invariant
            rows == old(coding)@.len(),
            coding@.len() == rows,
            data@.len() == k,
            all_at_least(data@, len as int),
            rows * k * 32 <= gftbls@.len(),
            glen == gftbls@.len(),
            0 <= l <= rows,
            forall|q: int| 0 <= q < rows ==> (#[trigger] coding@[q]@).len() == old(coding)@[q]@.len(),
            all_at_least_mut(old(coding)@, len as int),
            forall|q: int, i: int|
                0 <= q < l && 0 <= i < len ==> #[trigger] coding@[q]@[i] == dot_byte(TableFormat::Nibble, gftbls@, data@, q * k, i),
            forall|q: int, i: int|
                (l <= q < rows && 0 <= i < old(coding)@[q]@.len()) || (0 <= q < l && len <= i < old(coding)@[q]@.len())
                    ==> #[trigger] coding@[q]@[i] == old(coding)@[q]@[i],
        decreases rows - l,
    {
        proof {
            assert(32 * (l * k + k) <= rows * k * 32) by (nonlinear_arith)
                requires
                    l < rows,
            ;
        }
        let mut i: usize = 0;
        while i < len
            invariant
                rows == old(coding)@.len(),
                coding@.len() == rows,
                data@.len() == k,
                all_at_least(data@, len as int),
                32 * (l * k + k) <= gftbls@.len(),
                glen == gftbls@.len(),
                0 <= l < rows,
                0 <= i <= len,
                forall|q: int| 0 <= q < rows ==> (#[trigger] coding@[q]@).len() == old(coding)@[q]@.len(),
                all_at_least_mut(old(coding)@, len as int),
                forall|q: int, t: int|
                    0 <= q < l && 0 <= t < len ==> #[trigger] coding@[q]@[t] == dot_byte(TableFormat::Nibble, gftbls@, data@, q * k, t),
                forall|t: int| 0 <= t < i ==> #[trigger] coding@[l as int]@[t] == dot_byte(TableFormat::Nibble, gftbls@, data@, l * k, t),
                forall|q: int, t: int|
                    (l < q < rows && 0 <= t < old(coding)@[q]@.len()) || (0 <= q < l && len <= t < old(coding)@[q]@.len())
                        || (q == l && i <= t < old(coding)@[q]@.len()) ==> #[trigger] coding@[q]@[t] == old(coding)@[q]@[t],
            decreases len - i,
        {
            let v = crate::kernel::dot_at(TableFormat::Nibble, gftbls, data, l * k, i);
            coding[l][i] = v;
            i += 1;
        }
        l += 1;
    }
}

/// Encode `rows` parity vectors from `k` sources — ISA-L `ec_encode_data`.
/// `gftbls` is `rows * k * 32` bytes from [`ec_init_tables`].
pub fn ec_encode_data(
    len: usize,
    k: usize,
    rows: usize,
    gftbls: &[u8],
    data: &[&[u8]],
    coding: &mut [&mut [u8]],
) -> (r: Result<(), CodeError>)
    requires
        rows * k * 32 <= usize::MAX,
        k + rows <= usize::MAX,
    ensures
        ({
            let data_ok = data@.len() == k && all_at_least(data@, len as int);
            let coding_ok = data_ok && old(coding)@.len() == rows && all_at_least_mut(old(coding)@, len as int);
            &&& r is Ok <==> coding_ok && rows * k * 32 <= gftbls@.len()
            &&& r matches Err(CodeError::ShardCount { expected, got }) ==> (data@.len() != k && expected == k && got
                == data@.len()) || (data_ok && old(coding)@.len() != rows && expected == rows && got
                == old(coding)@.len())
            &&& r matches Err(CodeError::ShardLength { index, expected, got }) ==> (data@.len() == k && first_short(
                data@,
                len as int,
                index as int,
            ) && expected == len && got == data@[index as int]@.len()) || (data_ok && old(coding)@.len() == rows
                && index >= k && first_short_mut(old(coding)@, len as int, index - k) && expected == len && got
                == old(coding)@[index - k]@.len()) || (coding_ok && index == 0 && expected == rows * k * 32 && got
                == gftbls@.len() && gftbls@.len() < rows * k * 32)
            &&& r is Err ==> (r matches Err(CodeError::ShardCount { .. }) || r matches Err(CodeError::ShardLength { .. }))
        }),
        final(coding)@.len() == old(coding)@.len(),
        forall|l: int| 0 <= l < old(coding)@.len() ==> (#[trigger] final(coding)@[l]@).len() == old(coding)@[l]@.len(),
        r is Err ==> forall|l: int| 0 <= l < old(coding)@.len() ==> #[trigger] final(coding)@[l]@ == old(coding)@[l]@,
        r is Ok ==> forall|l: int, i: int|
            0 <= l < rows && 0 <= i < len ==> #[trigger] final(coding)@[l]@[i] == dot_byte(
                TableFormat::Nibble,
                gftbls@,
                data@,
                l * k,
                i,
            ),
        r is Ok ==> forall|l: int, i: int|
            0 <= l < rows && len <= i < old(coding)@[l]@.len() ==> #[trigger] final(coding)@[l]@[i] == old(coding)@[l]@[i],
{
    match check_vects(len, k, data) {
        Ok(()) => {},
        Err(e) => {
            return Err(e);
        },
    }
    if coding.len() != rows {
        return Err(CodeError::ShardCount { expected: rows, got: coding.len() });
    }
    let mut index: usize = 0;
    while index < rows
        invariant
            rows == old(coding)@.len(),
            coding@ == old(coding)@,
            data@.len() == k,
            all_at_least(data@, len as int),
            rows * k * 32 <= usize::MAX,
            k + rows <= usize::MAX,
            0 <= index <= rows,
            forall|q: int| 0 <= q < index ==> (#[trigger] coding@[q]@).len() >= len,
        decreases rows - index,
    {
        if coding[index].len() < len {
            assert(first_short_mut(old(coding)@, len as int, index as int));
            return Err(CodeError::ShardLength { index: k + index, expected: len, got: coding[index].len() });
        }
        index += 1;
    }
    let need = rows * k * TABLE_BYTES;
    if gftbls.len() < need {
        return Err(CodeError::ShardLength { index: 0, expected: need, got: gftbls.len() });
    }
    encode_prefix(len, k, gftbls, data, coding);
    Ok(())
}

/// The table for (row `l`, source `vec_i`) of a `k`-source layout fits in
/// `glen` table bytes.
pub open spec fn row_fits(glen: int, k: int, vec_i: int, l: int) -> bool {
    (l * k + vec_i + 1) * 32 <= glen
}

/// Every output buffer in `s` is exactly `len` bytes long.
fn all_exact(coding: &[&mut [u8]], len: usize) -> (r: bool)
    ensures
        r <==> forall|q: int| 0 <= q < coding@.len() ==> (#[trigger] coding@[q]@).len() == len,
{
    let mut q: usize = 0;
    while q < coding.len()
        invariant
            0 <= q <= coding@.len(),
            forall|z: int| 0 <= z < q ==> (#[trigger] coding@[z]@).len() == len,
        decreases coding@.len() - q,
    {
        if coding[q].len() != len {
            return false;
        }
        q += 1;
    }
    true
}

/// Fold one source (index `vec_i`) into `rows` parity vectors — ISA-L
/// `ec_encode_data_update`. Rows are folded in order; a row whose table
/// lies beyond `gftbls` stops the fold with an error, the rows before it
/// already updated.
pub fn ec_encode_data_update(
    len: usize,
    k: usize,
    rows: usize,
    vec_i: usize,
    gftbls: &[u8],
    data: &[u8],
    coding: &mut [&mut [u8]],
) -> (r: Result<(), CodeError>)
    requires
        (rows + 1) * k * 32 <= usize::MAX,
        k + rows <= usize::MAX,
    ensures
        ({
            let glen = gftbls@.len() as int;
            let valid = vec_i < k && data@.len() >= len && old(coding)@.len() == rows && all_at_least_mut(
                old(coding)@,
                len as int,
            );
            &&& vec_i >= k ==> r == Err::<(), CodeError>(CodeError::ShardIndex { index: vec_i, k })
            &&& r is Ok <==> valid && (rows == 0 || row_fits(glen, k as int, vec_i as int, rows - 1))
            &&& r matches Err(CodeError::ShardLength { index, expected, got }) ==> vec_i < k && expected == len
                && ((data@.len() < len && index == vec_i && got == data@.len()) || (data@.len() >= len
                && old(coding)@.len() == rows && index >= k && first_short_mut(old(coding)@, len as int, index - k)
                && got == old(coding)@[index - k]@.len()))
            &&& r matches Err(CodeError::ShardCount { expected, got }) ==> vec_i < k && data@.len() >= len && ((
            old(coding)@.len() != rows && expected == rows && got == old(coding)@.len()) || (valid && exists|l0: int|
                0 <= l0 < rows && !row_fits(glen, k as int, vec_i as int, l0) && (forall|l: int|
                0 <= l < l0 ==> #[trigger] row_fits(glen, k as int, vec_i as int, l)) && expected == l0 * k + vec_i
                + 1 && got == glen / 32))
            &&& r matches Err(CodeError::ShardIndex { index, k: kk }) ==> vec_i >= k && index == vec_i && kk == k
            &&& !valid ==> forall|l: int| 0 <= l < old(coding)@.len() ==> #[trigger] final(coding)@[l]@ == old(coding)@[l]@
            &&& valid ==> forall|l: int, i: int|
                0 <= l < rows && 0 <= i < old(coding)@[l]@.len() ==> #[trigger] final(coding)@[l]@[i] == if row_fits(
                    glen,
                    k as int,
                    vec_i as int,
                    l,
                ) && i < len {
                    old(coding)@[l]@[i] ^ crate::kernel::block_apply(TableFormat::Nibble, gftbls@, l * k + vec_i, data@[i])
                } else {
                    old(coding)@[l]@[i]
                }
        }),
        final(coding)@.len() == old(coding)@.len(),
        forall|l: int| 0 <= l < old(coding)@.len() ==> (#[trigger] final(coding)@[l]@).len() == old(coding)@[l]@.len(),
{
    if vec_i >= k {
        return Err(CodeError::ShardIndex { index: vec_i, k });
    }
    if data.len() < len {
        return Err(CodeError::ShardLength { index: vec_i, expected: len, got: data.len() });
    }
    if coding.len() != rows {
        return Err(CodeError::ShardCount { expected: rows, got: coding.len() });
    }
    let mut index: usize = 0;
    while index < rows
        invariant
            rows == old(coding)@.len(),
            coding@ == old(coding)@,
            k + rows <= usize::MAX,
            vec_i < k,
            data@.len() >= len,
            0 <= index <= rows,
            forall|q: int| 0 <= q < index ==> (#[trigger] coding@[q]@).len() >= len,
        decreases rows - index,
    {
        if coding[index].len() < len {
            assert(first_short_mut(old(coding)@, len as int, index as int));
            return Err(CodeError::ShardLength { index: k + index, expected: len, got: coding[index].len() });
        }
        index += 1;
    }
    let ghost glen = gftbls@.len() as int;
    proof {
        assert forall|l: int| 0 <= l < rows implies row_fits(glen, k as int, vec_i as int, l) == ((l * k + vec_i + 1) * 32 <= glen) by {}
        assert forall|l: int, m: int| 0 <= l <= m < rows && #[trigger] row_fits(glen, k as int, vec_i as int, m) implies #[trigger] row_fits(
            glen,
            k as int,
            vec_i as int,
            l,
        ) by {
            assert((l * k + vec_i + 1) * 32 <= (m * k + vec_i + 1) * 32) by (nonlinear_arith)
                requires
                    0 <= l <= m,
                    k >= 0,
            ;
        }
    }
    if data.len() == len && all_exact(coding, len) {
        assert((rows * k + vec_i + 1) * 32 <= (rows + 1) * k * 32) by (nonlinear_arith)
            requires
                vec_i < k,
        ;
        assert(rows > 0 ==> (rows - 1) * k <= rows * k) by (nonlinear_arith);
        let need = (rows.saturating_sub(1) * k + vec_i + 1) * TABLE_BYTES;
        if gftbls.len() >= need {
            nibble_kernels().update(gftbls, k, vec_i, data, coding);
            proof {
                if rows > 0 {
                    assert(row_fits(glen, k as int, vec_i as int, rows - 1));
                }
                assert forall|l: int, i: int| 0 <= l < rows && 0 <= i < old(coding)@[l]@.len() implies #[trigger] coding@[l]@[i]
                    == if row_fits(glen, k as int, vec_i as int, l) && i < len {
                    old(coding)@[l]@[i] ^ crate::kernel::block_apply(TableFormat::Nibble, gftbls@, l * k + vec_i, data@[i])
                } else {
                    old(coding)@[l]@[i]
                } by {
                    assert(row_fits(glen, k as int, vec_i as int, rows - 1));
                    assert(row_fits(glen, k as int, vec_i as int, l));
                }
            }
            return Ok(());
        }
    }
    let mut l: usize = 0;
    while l < rows
        invariant
            rows == old(coding)@.len(),
            coding@.len() == rows,
            vec_i < k,
            (rows + 1) * k * 32 <= usize::MAX,
            data@.len() >= len,
            glen == gftbls@.len(),
            all_at_least_mut(old(coding)@, len as int),
            0 <= l <= rows,
            forall|z: int| 0 <= z < l ==> #[trigger] row_fits(glen, k as int, vec_i as int, z),
            forall|q: int| 0 <= q < rows ==> (#[trigger] coding@[q]@).len() == old(coding)@[q]@.len(),
            forall|q: int, i: int|
                0 <= q < rows && 0 <= i < old(coding)@[q]@.len() ==> #[trigger] coding@[q]@[i] == if q < l && i < len {
                    old(coding)@[q]@[i] ^ crate::kernel::block_apply(TableFormat::Nibble, gftbls@, q * k + vec_i, data@[i])
                } else {
                    old(coding)@[q]@[i]
                },
        decreases rows - l,
    {
        proof {
            assert((l * k + vec_i + 1) * 32 <= (rows + 1) * k * 32) by (nonlinear_arith)
                requires
                    l < rows,
                    vec_i < k,
            ;
        }
        let tbl = match tbl_at(gftbls, l * k + vec_i) {
            Ok(t) => t,
            Err(e) => {
                assert(!row_fits(glen, k as int, vec_i as int, l as int));
                assert forall|q: int| l <= q < rows implies !#[trigger] row_fits(glen, k as int, vec_i as int, q) by {
                    assert((l * k + vec_i + 1) * 32 <= (q * k + vec_i + 1) * 32) by (nonlinear_arith)
                        requires
                            l <= q,
                            k >= 0,
                    ;
                }
                return Err(e);
            },
        };
        let mut i: usize = 0;
        while i < len
            invariant
                rows == old(coding)@.len(),
                coding@.len() == rows,
                data@.len() >= len,
                0 <= l < rows,
                tbl@ == nibble_block(gftbls@, l * k + vec_i),
                tbl@.len() == 32,
                all_at_least_mut(old(coding)@, len as int),
                0 <= i <= len,
                forall|q: int| 0 <= q < rows ==> (#[trigger] coding@[q]@).len() == old(coding)@[q]@.len(),
                forall|q: int, t: int|
                    0 <= q < rows && 0 <= t < old(coding)@[q]@.len() ==> #[trigger] coding@[q]@[t] == if (q < l && t
                        < len) || (q == l && t < i) {
                        old(coding)@[q]@[t] ^ crate::kernel::block_apply(TableFormat::Nibble, gftbls@, q * k + vec_i, data@[t])
                    } else {
                        old(coding)@[q]@[t]
                    },
            decreases len - i,
        {
            let v = crate::tables::table_mul_at(tbl, 0, data[i]);
            assert(tbl@.subrange(0, 32) =~= tbl@);
            let d = coding[l][i];
            coding[l][i] = d ^ v;
            i += 1;
        }
        l += 1;
    }
    Ok(())
}

/// GF(2^8) dot product across `vlen` sources — ISA-L `gf_vect_dot_prod`.
pub fn gf_vect_dot_prod(len: usize, vlen: usize, gftbls: &[u8], src: &[&[u8]], dest: &mut [u8]) -> (r: Result<(), CodeError>)
    requires
        vlen * 32 <= usize::MAX,
    ensures
        ({
            let src_ok = src@.len() == vlen && all_at_least(src@, len as int);
            &&& r is Ok <==> src_ok && old(dest)@.len() >= len && vlen * 32 <= gftbls@.len()
            &&& r matches Err(CodeError::ShardCount { expected, got }) ==> (src@.len() != vlen && expected == vlen
                && got == src@.len()) || (src_ok && old(dest)@.len() >= len && gftbls@.len() < vlen * 32 && expected
                == vlen && got == gftbls@.len() / 32)
            &&& r matches Err(CodeError::ShardLength { index, expected, got }) ==> expected == len && ((src@.len() == vlen
                && first_short(src@, len as int, index as int) && got == src@[index as int]@.len()) || (src_ok
                && index == 0 && old(dest)@.len() < len && got == old(dest)@.len()))
            &&& r is Err ==> (r matches Err(CodeError::ShardCount { .. }) || r matches Err(CodeError::ShardLength { .. }))
        }),
        final(dest)@.len() == old(dest)@.len(),
        r is Err ==> final(dest)@ == old(dest)@,
        r is Ok ==> forall|i: int| 0 <= i < len ==> #[trigger] final(dest)@[i] == dot_byte(TableFormat::Nibble, gftbls@, src@, 0, i),
        r is Ok ==> forall|i: int| len <= i < old(dest)@.len() ==> #[trigger] final(dest)@[i] == old(dest)@[i],
{
    match check_vects(len, vlen, src) {
        Ok(()) => {},
        Err(e) => {
            return Err(e);
        },
    }
    if dest.len() < len {
        return Err(CodeError::ShardLength { index: 0, expected: len, got: dest.len() });
    }
    if gftbls.len() < vlen * TABLE_BYTES {
        return Err(CodeError::ShardCount { expected: vlen, got: gftbls.len() / TABLE_BYTES });
    }
    let mut i: usize = 0;
    while i < len
        invariant
            src@.len() == vlen,
            all_at_least(src@, len as int),
            vlen * 32 <= gftbls@.len(),
            dest@.len() == old(dest)@.len(),
            len <= dest@.len(),
            0 <= i <= len,
            forall|t: int| 0 <= t < i ==> #[trigger] dest@[t] == dot_byte(TableFormat::Nibble, gftbls@, src@, 0, t),
            forall|t: int| i <= t < dest@.len() ==> #[trigger] dest@[t] == old(dest)@[t],
        decreases len - i,
    {
        let v = crate::kernel::dot_at(TableFormat::Nibble, gftbls, src, 0, i);
        dest[i] = v;
        i += 1;
    }
    Ok(())
}

/// Multiply-accumulate one source into `dest` — ISA-L `gf_vect_mad`.
/// `gftbls` holds `vec` tables; the one at `vec_i` is used.
pub fn gf_vect_mad(len: usize, vec: usize, vec_i: usize, gftbls: &[u8], src: &[u8], dest: &mut [u8]) -> (r: Result<(), CodeError>)
    requires
        (vec + 1) * 32 <= usize::MAX,
    ensures
        ({
            let lens_ok = src@.len() >= len && old(dest)@.len() >= len;
            &&& vec_i >= vec ==> r == Err::<(), CodeError>(CodeError::ShardIndex { index: vec_i, k: vec })
            &&& vec_i < vec && !lens_ok ==> r == Err::<(), CodeError>(
                CodeError::ShardLength {
                    index: vec_i,
                    expected: len,
                    got: if src@.len() < old(dest)@.len() { src@.len() as usize } else { old(dest)@.len() as usize },
                },
            )
            &&& vec_i < vec && lens_ok && 32 * vec_i + 32 > gftbls@.len() ==> r == Err::<(), CodeError>(
                CodeError::ShardCount { expected: (vec_i + 1) as usize, got: (gftbls@.len() / 32) as usize },
            )
            &&& r is Ok <==> vec_i < vec && lens_ok && 32 * vec_i + 32 <= gftbls@.len()
        }),
        final(dest)@.len() == old(dest)@.len(),
        r is Err ==> final(dest)@ == old(dest)@,
        r is Ok ==> forall|i: int|
            0 <= i < len ==> #[trigger] final(dest)@[i] == old(dest)@[i] ^ table_mul_spec(nibble_block(gftbls@, vec_i as int), src@[i]),
        r is Ok ==> forall|i: int| len <= i < old(dest)@.len() ==> #[trigger] final(dest)@[i] == old(dest)@[i],
{
    if vec_i >= vec {
        return Err(CodeError::ShardIndex { index: vec_i, k: vec });
    }
    if src.len() < len || dest.len() < len {
        let got = if src.len() < dest.len() { src.len() } else { dest.len() };
        return Err(CodeError::ShardLength { index: vec_i, expected: len, got });
    }
    let tbl = match tbl_at(gftbls, vec_i) {
        Ok(t) => t,
        Err(e) => {
            return Err(e);
        },
    };
    // Exact-length buffers take the dispatched mad kernel (nibble tables by
    // this API's contract).
    if src.len() == len && dest.len() == len {
        nibble_kernels().mad(tbl, src, dest);
        proof {
            assert forall|i: int| 0 <= i < len implies #[trigger] dest@[i] == old(dest)@[i] ^ table_mul_spec(
                nibble_block(gftbls@, vec_i as int),
                src@[i],
            ) by {
                assert(nibble_block(tbl@, 0) =~= tbl@);
            }
        }
        return Ok(());
    }
    let mut i: usize = 0;
    while i < len
        invariant
            src@.len() >= len,
            dest@.len() == old(dest)@.len(),
            len <= dest@.len(),
            tbl@ == nibble_block(gftbls@, vec_i as int),
            tbl@.len() == 32,
            0 <= i <= len,
            forall|t: int| 0 <= t < i ==> #[trigger] dest@[t] == old(dest)@[t] ^ table_mul_spec(tbl@, src@[t]),
            forall|t: int| i <= t < dest@.len() ==> #[trigger] dest@[t] == old(dest)@[t],
        decreases len - i,
    {
        let v = crate::tables::table_mul_at(tbl, 0, src[i]);
        assert(tbl@.subrange(0, 32) =~= tbl@);
        dest[i] = dest[i] ^ v;
        i += 1;
    }
    Ok(())
}

/// Constant multiply of a vector — ISA-L `gf_vect_mul`, including its
/// documented contract that `len` must be a multiple of 32 (an error
/// otherwise, as ISA-L returns nonzero). [`crate::kernel::vect_mul`] has no
/// such restriction.
pub fn gf_vect_mul(len: usize, gftbl: &[u8], src: &[u8], dest: &mut [u8]) -> (r: Result<(), CodeError>)
    ensures
        ({
            let lens_ok = src@.len() >= len && old(dest)@.len() >= len;
            &&& len % 32 != 0 ==> r == Err::<(), CodeError>(
                CodeError::ShardLength { index: 0, expected: (len - len % 32) as usize, got: len },
            )
            &&& len % 32 == 0 && !lens_ok ==> r == Err::<(), CodeError>(
                CodeError::ShardLength {
                    index: 0,
                    expected: len,
                    got: if src@.len() < old(dest)@.len() { src@.len() as usize } else { old(dest)@.len() as usize },
                },
            )
            &&& len % 32 == 0 && lens_ok && gftbl@.len() < 32 ==> r == Err::<(), CodeError>(
                CodeError::ShardCount { expected: 1, got: (gftbl@.len() / 32) as usize },
            )
            &&& r is Ok <==> len % 32 == 0 && lens_ok && 32 <= gftbl@.len()
        }),
        final(dest)@.len() == old(dest)@.len(),
        r is Err ==> final(dest)@ == old(dest)@,
        r is Ok ==> forall|i: int| 0 <= i < len ==> #[trigger] final(dest)@[i] == table_mul_spec(nibble_block(gftbl@, 0), src@[i]),
        r is Ok ==> forall|i: int| len <= i < old(dest)@.len() ==> #[trigger] final(dest)@[i] == old(dest)@[i],
{
    if len % 32 != 0 {
        return Err(CodeError::ShardLength { index: 0, expected: len - (len % 32), got: len });
    }
    if src.len() < len || dest.len() < len {
        let got = if src.len() < dest.len() { src.len() } else { dest.len() };
        return Err(CodeError::ShardLength { index: 0, expected: len, got });
    }
    let tbl = match tbl_at(gftbl, 0) {
        Ok(t) => t,
        Err(e) => {
            return Err(e);
        },
    };
    let mut i: usize = 0;
    while i < len
        invariant
            src@.len() >= len,
            dest@.len() == old(dest)@.len(),
            len <= dest@.len(),
            tbl@ == nibble_block(gftbl@, 0),
            tbl@.len() == 32,
            0 <= i <= len,
            forall|t: int| 0 <= t < i ==> #[trigger] dest@[t] == table_mul_spec(tbl@, src@[t]),
            forall|t: int| i <= t < dest@.len() ==> #[trigger] dest@[t] == old(dest)@[t],
        decreases len - i,
    {
        let v = crate::tables::table_mul_at(tbl, 0, src[i]);
        assert(tbl@.subrange(0, 32) =~= tbl@);
        dest[i] = v;
        i += 1;
    }
    Ok(())
}

/// Byte `i` of coding row `l` after folding, into zeroed coding, one
/// [`ec_encode_data_update`] per source listed in `order` (each step adds
/// table `l * k + j` applied to byte `i` of source `j`, as that function does
/// to a row whose table lies within the tables).
pub open spec fn isal_update_fold(g: Seq<u8>, k: int, data: Seq<&[u8]>, order: Seq<int>, l: int, i: int) -> u8
    decreases order.len(),
{
    if order.len() == 0 {
        0u8
    } else {
        isal_update_fold(g, k, data, order.drop_last(), l, i) ^ crate::kernel::block_apply(
            TableFormat::Nibble,
            g,
            l * k + order.last(),
            data[order.last()]@[i],
        )
    }
}

proof fn lemma_isal_update_fold_sum(g: Seq<u8>, k: int, data: Seq<&[u8]>, order: Seq<int>, l: int, i: int)
    ensures
        isal_update_fold(g, k, data, order, l, i) == xsum(
            order.len() as int,
            |t: int| crate::kernel::block_apply(TableFormat::Nibble, g, l * k + order[t], data[order[t]]@[i]),
        ),
    decreases order.len(),
{
    if order.len() > 0 {
        let prev = order.drop_last();
        lemma_isal_update_fold_sum(g, k, data, prev, l, i);
        lemma_xsum_ext(
            prev.len() as int,
            |t: int| crate::kernel::block_apply(TableFormat::Nibble, g, l * k + prev[t], data[prev[t]]@[i]),
            |t: int| crate::kernel::block_apply(TableFormat::Nibble, g, l * k + order[t], data[order[t]]@[i]),
        );
    }
}

/// Updating zeroed coding once per source with [`ec_encode_data_update`],
/// in any order, gives exactly what [`ec_encode_data`] writes.
pub proof fn lemma_isal_updates_equal_encode(g: Seq<u8>, k: int, data: Seq<&[u8]>, order: Seq<int>, l: int, i: int)
    requires
        data.len() == k,
        is_permutation(order, k),
    ensures
        isal_update_fold(g, k, data, order, l, i) == dot_byte(TableFormat::Nibble, g, data, l * k, i),
{
    lemma_isal_update_fold_sum(g, k, data, order, l, i);
    let f = crate::kernel::dot_terms(TableFormat::Nibble, g, data, l * k, i);
    lemma_xsum_perm(k, f, order);
    lemma_xsum_ext(
        k,
        |t: int| crate::kernel::block_apply(TableFormat::Nibble, g, l * k + order[t], data[order[t]]@[i]),
        |t: int| f(order[t]),
    );
}

/// The coding after the first `t` of a chain of updates is the fold of
/// those updates.
proof fn lemma_isal_update_chain_prefix(
    g: Seq<u8>,
    k: int,
    rows: int,
    len: int,
    data: Seq<&[u8]>,
    order: Seq<int>,
    states: Seq<Seq<Seq<u8>>>,
    t: int,
)
    requires
        order.len() == k,
        states.len() == k + 1,
        0 <= t <= k,
        forall|l: int, i: int| 0 <= l < rows && 0 <= i < len ==> #[trigger] states[0][l][i] == 0,
        forall|s: int, l: int, i: int|
            1 <= s <= k && 0 <= l < rows && 0 <= i < len ==> #[trigger] states[s][l][i] == states[s - 1][l][i]
                ^ crate::kernel::block_apply(TableFormat::Nibble, g, l * k + order[s - 1], data[order[s - 1]]@[i]),
    ensures
        forall|l: int, i: int|
            0 <= l < rows && 0 <= i < len ==> #[trigger] states[t][l][i] == isal_update_fold(
                g,
                k,
                data,
                order.take(t),
                l,
                i,
            ),
    decreases t,
{
    if t > 0 {
        lemma_isal_update_chain_prefix(g, k, rows, len, data, order, states, t - 1);
        assert(order.take(t).drop_last() =~= order.take(t - 1));
        assert forall|l: int, i: int| 0 <= l < rows && 0 <= i < len implies #[trigger] states[t][l][i]
            == isal_update_fold(g, k, data, order.take(t), l, i) by {
            assert(states[t - 1][l][i] == isal_update_fold(g, k, data, order.take(t - 1), l, i));
            assert(order.take(t).last() == order[t - 1]);
        }
    }
}

/// A chain of [`ec_encode_data_update`] calls, one per source in any order,
/// from zeroed coding ends in the coding that [`ec_encode_data`] writes.
/// `states[t]` is the coding before the `t`-th call (for source
/// `order[t]`), and each step is what that call guarantees for a row whose
/// table lies within the tables.
pub proof fn lemma_isal_update_chain(
    g: Seq<u8>,
    k: int,
    rows: int,
    len: int,
    data: Seq<&[u8]>,
    order: Seq<int>,
    states: Seq<Seq<Seq<u8>>>,
)
    requires
        data.len() == k,
        is_permutation(order, k),
        states.len() == k + 1,
        forall|l: int, i: int| 0 <= l < rows && 0 <= i < len ==> #[trigger] states[0][l][i] == 0,
        forall|s: int, l: int, i: int|
            1 <= s <= k && 0 <= l < rows && 0 <= i < len ==> #[trigger] states[s][l][i] == states[s - 1][l][i]
                ^ crate::kernel::block_apply(TableFormat::Nibble, g, l * k + order[s - 1], data[order[s - 1]]@[i]),
    ensures
        forall|l: int, i: int|
            0 <= l < rows && 0 <= i < len ==> #[trigger] states[k][l][i] == dot_byte(TableFormat::Nibble, g, data, l * k, i),
{
    lemma_isal_update_chain_prefix(g, k, rows, len, data, order, states, k);
    assert(order.take(k) =~= order);
    assert forall|l: int, i: int| 0 <= l < rows && 0 <= i < len implies #[trigger] states[k][l][i] == dot_byte(
        TableFormat::Nibble,
        g,
        data,
        l * k,
        i,
    ) by {
        lemma_isal_updates_equal_encode(g, k, data, order, l, i);
    }
}

} // verus!
