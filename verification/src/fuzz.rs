//! Fuzz harness bodies: each takes an arbitrary byte string, derives a
//! configuration from it, drives the library, and checks what the library
//! promises about the result.
//!
//! Every body is total: it may return early on shapes it cannot use, but it
//! never panics on any byte string. Here that is not a hope but a theorem:
//! the bodies are verified, so every call they make meets its contract, and
//! every property a harness would assert at run time (an inverse is
//! an inverse, a dispatched kernel equals the scalar one, recovery gives back
//! the lost bytes, a checker accepts what its generator produced and rejects
//! a flipped bit) is proved for every input.

use vstd::prelude::*;
use vstd::string::StringSliceAdditionalSpecFns;

use crate::accel::{raid_kernels, CpuFeatures};
use crate::algebra::{is_grid, is_inverse, lemma_xsum_ext, mat_mul, xsum};
use crate::decode::{
    count_present, lemma_count_complement, lemma_count_none, lemma_count_set_present, lemma_take_present, stripe_byte,
    take_present, top_identity,
};
use crate::encode::{
    all_in_range, lemma_recover_restores_stripe, parity_byte, presence, present_len, shard_byte, shard_views, Coder,
};
use crate::demo::mix_out;
use crate::gf::field_mul;
use crate::isal;
use crate::kernel::{all_len, all_len_mut, first_len, format_width, lemma_dot_coeffs, lemma_formats_agree, Kernels};
use crate::matrix::{cauchy_entry, grid_from, Matrix};
use crate::mds::{cauchy_grid, lemma_cauchy_survivors_nonsingular};
use crate::raid::{self, pq_ok, q_byte, xor_byte};

verus! {

/// Bytes `start..end` of `s`, copied.
pub(crate) fn copy_range(s: &[u8], start: usize, end: usize) -> (r: Vec<u8>)
    requires
        start <= end <= s@.len(),
    ensures
        r@ == s@.subrange(start as int, end as int),
{
    let mut v: Vec<u8> = Vec::with_capacity(end - start);
    let mut t = start;
    while t < end
        invariant
            start <= t <= end <= s@.len(),
            v@ == s@.subrange(start as int, t as int),
        decreases end - t,
    {
        v.push(s[t]);
        t += 1;
    }
    v
}

/// `rows` consecutive `len`-byte windows of `flat`, each a mutable slice.
pub(crate) fn rows_of<'a>(flat: &'a mut [u8], rows: usize, len: usize) -> (r: Vec<&'a mut [u8]>)
    requires
        old(flat)@.len() == rows * len,
    ensures
        r@.len() == rows,
        forall|q: int| 0 <= q < rows ==> (#[trigger] r@[q]@) == old(flat)@.subrange(q * len, q * len + len),
{
    let ghost whole = flat@;
    let mut out: Vec<&'a mut [u8]> = Vec::new();
    let mut rest: &'a mut [u8] = flat;
    let mut q: usize = 0;
    while q < rows
        invariant
            whole.len() == rows * len,
            0 <= q <= rows,
            out@.len() == q,
            rest@ == whole.subrange(q * len, rows * len),
            forall|t: int| 0 <= t < q ==> (#[trigger] out@[t]@) == whole.subrange(t * len, t * len + len),
        decreases rows - q,
    {
        assert(q * len + len <= rows * len) by (nonlinear_arith)
            requires
                q < rows,
        ;
        assert((q + 1) * len == q * len + len) by (nonlinear_arith);
        let tmp = rest;
        let (head, tail) = tmp.split_at_mut(len);
        assert(head@ =~= whole.subrange(q * len, q * len + len));
        assert(tail@ =~= whole.subrange((q + 1) * len, rows * len));
        out.push(head);
        rest = tail;
        q += 1;
    }
    out
}

/// `rows` zeroed buffers of `len` bytes, cut from `flat`.
pub(crate) fn zero_rows<'a>(flat: &'a mut [u8], rows: usize, len: usize) -> (r: Vec<&'a mut [u8]>)
    requires
        old(flat)@.len() == rows * len,
        forall|i: int| 0 <= i < old(flat)@.len() ==> old(flat)@[i] == 0u8,
    ensures
        r@.len() == rows,
        forall|q: int| 0 <= q < rows ==> (#[trigger] r@[q]@) == Seq::new(len as nat, |i: int| 0u8),
{
    let ghost whole = flat@;
    let r = rows_of(flat, rows, len);
    assert forall|q: int| 0 <= q < rows implies (#[trigger] r@[q]@) == Seq::new(len as nat, |i: int| 0u8) by {
        assert(q * len + len <= rows * len) by (nonlinear_arith)
            requires
                0 <= q < rows,
        ;
        assert(r@[q]@ =~= Seq::new(len as nat, |i: int| 0u8));
    }
    r
}

/// The little-endian `u32` of four bytes.
fn le_u32(b0: u8, b1: u8, b2: u8, b3: u8) -> (r: u32)
    ensures
        r == b0 + 256 * b1 + 65536 * b2 + 16777216 * b3,
{
    (b0 as u32) + 256 * (b1 as u32) + 65536 * (b2 as u32) + 16777216 * (b3 as u32)
}

/// Matrix generation never panics, for ANY `(k, p)`: the first eight bytes
/// are read as two little-endian `u32` dimensions and handed to both
/// constructors, whose errors are typed.
pub fn matrix_gen(data: &[u8]) {
    if data.len() < 8 {
        return;
    }
    let k = le_u32(data[0], data[1], data[2], data[3]) as usize;
    let p = le_u32(data[4], data[5], data[6], data[7]) as usize;
    let _ = Matrix::reed_solomon(k, p);
    let _ = Matrix::cauchy(k, p);
}

/// Inversion of arbitrary matrices never panics, and when it succeeds the
/// result is the inverse: the product with the original is the identity.
/// The first byte picks the dimension `n` in `1..=32`; the next `n * n`
/// bytes are the matrix.
pub fn matrix_invert(data: &[u8]) {
    if data.len() == 0 {
        return;
    }
    let n = (data[0] % 32) as usize + 1;
    assert(n * n <= 32 * 32) by (nonlinear_arith)
        requires
            1 <= n <= 32,
    ;
    if data.len() - 1 < n * n {
        return;
    }
    let bytes = copy_range(data, 1, 1 + n * n);
    let m = match Matrix::from_bytes(n, n, bytes) {
        Ok(m) => m,
        Err(_) => {
            return;
        },
    };
    if let Ok(inv) = m.invert() {
        let prod = m.multiply(&inv);
        assert(prod is Ok);
        if let Ok(pm) = prod {
            let id = pm.is_identity();
            assert(pm.grid() == mat_mul(m.grid(), inv.grid(), n as int, n as int));
            assert(is_inverse(m.grid(), inv.grid(), n as int));
            assert(id);
        }
    }
    let sel: [usize; 2] = [0, n - 1];
    let _ = m.select_rows(&sel);
}

/// The compat layer never panics: every `isal` entry point, fed arbitrary
/// parameters and buffers the input sizes (possibly too small), returns a
/// typed error or succeeds.
pub fn compat(input: &[u8]) {
    if input.len() < 8 {
        return;
    }
    let k = input[0] as usize;
    let m = input[1] as usize;
    let rows = input[2] as usize % 16;
    let len = input[3] as usize;
    let vec_i = input[4] as usize;
    let n = input[5] as usize % 24;
    let payload = vstd::slice::slice_subrange(input, 8, input.len());
    let plen = payload.len();

    // Matrix generation into a buffer the input sizes (possibly too small).
    let alen = if plen < 4096 { plen } else { 4096 };
    let mut a: Vec<u8> = vec![0u8; alen];
    let _ = isal::gf_gen_rs_matrix(a.as_mut_slice(), m, k);
    let _ = isal::gf_gen_cauchy1_matrix(a.as_mut_slice(), m, k);

    // Inversion of arbitrary bytes at an arbitrary claimed dimension.
    let mut inv: Vec<u8> = vec![0u8; a.len()];
    let mut scratch = copy_range(a.as_slice(), 0, a.len());
    let _ = isal::gf_invert_matrix(scratch.as_mut_slice(), inv.as_mut_slice(), n);

    // Table expansion with whatever coefficients and (k, rows) claim.
    let glen = if plen < 8192 { plen } else { 8192 };
    let mut gftbls: Vec<u8> = vec![0u8; glen];
    assert(k * rows <= 255 * 15) by (nonlinear_arith)
        requires
            k <= 255,
            rows < 16,
    ;
    let _ = isal::ec_init_tables(k, rows, payload, gftbls.as_mut_slice());

    // Encode / update / kernels over input-shaped buffers.
    let shard = if plen < 64 { plen } else { 64 };
    let nsrc = if k % 8 == 0 { 1 } else { k % 8 };
    let mut srcs: Vec<Vec<u8>> = Vec::new();
    let mut i: usize = 0;
    while i < nsrc
        invariant
            1 <= nsrc <= 7,
            shard <= 64,
            plen == payload@.len(),
            0 <= i <= nsrc,
            srcs@.len() == i,
        decreases nsrc - i,
    {
        assert(i * shard <= (i + 1) * shard <= 7 * 64) by (nonlinear_arith)
            requires
                i < nsrc <= 7,
                shard <= 64,
        ;
        let s0 = i * shard;
        let e0 = (i + 1) * shard;
        let start = if s0 < plen { s0 } else { plen };
        let end = if e0 < plen { e0 } else { plen };
        srcs.push(copy_range(payload, start, end));
        i += 1;
    }
    let mut src_refs: Vec<&[u8]> = Vec::new();
    let mut i: usize = 0;
    while i < nsrc
        invariant
            nsrc == srcs@.len(),
            0 <= i <= nsrc,
            src_refs@.len() == i,
        decreases nsrc - i,
    {
        src_refs.push(srcs[i].as_slice());
        i += 1;
    }
    let crows = if rows == 0 { 1 } else { rows };
    assert(crows * shard <= 15 * 64) by (nonlinear_arith)
        requires
            crows <= 15,
            shard <= 64,
    ;
    let mut flat: Vec<u8> = vec![0u8; crows * shard];
    let mut coding = zero_rows(flat.as_mut_slice(), crows, shard);

    assert(rows * nsrc * 32 <= 15 * 7 * 32) by (nonlinear_arith)
        requires
            rows < 16,
            nsrc <= 7,
    ;
    assert((rows + 1) * nsrc * 32 <= 16 * 7 * 32) by (nonlinear_arith)
        requires
            rows < 16,
            nsrc <= 7,
    ;
    let _ = isal::ec_encode_data(len, nsrc, rows, gftbls.as_slice(), src_refs.as_slice(), coding.as_mut_slice());
    let _ = isal::ec_encode_data_update(
        len,
        nsrc,
        rows,
        vec_i,
        gftbls.as_slice(),
        payload,
        coding.as_mut_slice(),
    );

    let mut dest: Vec<u8> = vec![0u8; shard];
    let _ = isal::gf_vect_dot_prod(len, nsrc, gftbls.as_slice(), src_refs.as_slice(), dest.as_mut_slice());
    let _ = isal::gf_vect_mad(len, nsrc, vec_i, gftbls.as_slice(), payload, dest.as_mut_slice());
    let _ = isal::gf_vect_mul(len, gftbls.as_slice(), payload, dest.as_mut_slice());
}

/// `nsrc` sources of `len` bytes tiled from `payload`: byte `j` of source
/// `i` is `payload[(i * len + j) % payload.len()]`.
fn tiled_sources(payload: &[u8], nsrc: usize, len: usize) -> (r: Vec<Vec<u8>>)
    requires
        payload@.len() > 0,
        nsrc * len <= 17 * 510,
    ensures
        r@.len() == nsrc,
        forall|i: int| 0 <= i < nsrc ==> (#[trigger] r@[i]@).len() == len,
{
    let plen = payload.len();
    let mut out: Vec<Vec<u8>> = Vec::new();
    let mut i: usize = 0;
    while i < nsrc
        invariant
            plen == payload@.len() > 0,
            nsrc * len <= 17 * 510,
            0 <= i <= nsrc,
            out@.len() == i,
            forall|t: int| 0 <= t < i ==> (#[trigger] out@[t]@).len() == len,
        decreases nsrc - i,
    {
        let mut v: Vec<u8> = Vec::with_capacity(len);
        let mut j: usize = 0;
        while j < len
            invariant
                plen == payload@.len() > 0,
                nsrc * len <= 17 * 510,
                i < nsrc,
                0 <= j <= len,
                v@.len() == j,
            decreases len - j,
        {
            assert(i * len + j < nsrc * len) by (nonlinear_arith)
                requires
                    i < nsrc,
                    j < len,
            ;
            v.push(payload[(i * len + j) % plen]);
            j += 1;
        }
        out.push(v);
        i += 1;
    }
    out
}

/// Borrow each buffer of `v` as a slice.
pub(crate) fn slices_of(v: &Vec<Vec<u8>>) -> (r: Vec<&[u8]>)
    ensures
        r@.len() == v@.len(),
        forall|i: int| 0 <= i < v@.len() ==> (#[trigger] r@[i]@) == v@[i]@,
{
    let mut out: Vec<&[u8]> = Vec::new();
    let mut i: usize = 0;
    while i < v.len()
        invariant
            0 <= i <= v@.len(),
            out@.len() == i,
            forall|t: int| 0 <= t < i ==> (#[trigger] out@[t]@) == v@[t]@,
        decreases v@.len() - i,
    {
        out.push(v[i].as_slice());
        i += 1;
    }
    out
}

/// XOR parity through the RAID pair this machine uses, or the core path
/// where none applies.
fn dispatched_xor_gen(cpu: &CpuFeatures, sources: &[&[u8]], parity: &mut [u8])
    requires
        sources@.len() >= 2,
        all_len(sources@, old(parity)@.len() as int),
    ensures
        final(parity)@.len() == old(parity)@.len(),
        forall|i: int| 0 <= i < old(parity)@.len() ==> #[trigger] final(parity)@[i] == xor_byte(sources@, i),
{
    match raid_kernels(cpu) {
        Some(rk) => rk.xor_gen(sources, parity),
        None => {
            let r = raid::xor_gen(sources, parity);
            assert(r is Ok);
        },
    }
}

/// P and Q through the RAID pair this machine uses, or the core path where
/// none applies.
fn dispatched_pq_gen(cpu: &CpuFeatures, sources: &[&[u8]], p: &mut [u8], q: &mut [u8])
    requires
        sources@.len() >= 2,
        old(q)@.len() == old(p)@.len(),
        all_len(sources@, old(p)@.len() as int),
    ensures
        final(p)@.len() == old(p)@.len(),
        final(q)@.len() == old(q)@.len(),
        forall|i: int| 0 <= i < old(p)@.len() ==> #[trigger] final(p)@[i] == xor_byte(sources@, i),
        forall|i: int| 0 <= i < old(p)@.len() ==> #[trigger] final(q)@[i] == q_byte(sources@, i),
{
    match raid_kernels(cpu) {
        Some(rk) => rk.pq_gen(sources, p, q),
        None => {
            let r = raid::pq_gen(sources, p, q);
            assert(r is Ok);
        },
    }
}

/// RAID parity, differentially: the parity the machine's RAID pair writes is
/// byte-identical to the core path's for every shape, the checkers accept
/// what the generators produced, and `pq_check` rejects a single flipped
/// bit of Q. The first byte picks `2..=17` sources, the second a length
/// `0..=510`; the rest is tiled into the sources.
pub fn raid(input: &[u8], cpu: &CpuFeatures) {
    if input.len() < 3 {
        return;
    }
    let nsrc = (input[0] % 16) as usize + 2;
    let len = input[1] as usize * 2;
    let payload = vstd::slice::slice_subrange(input, 2, input.len());
    if payload.len() == 0 || len == 0 {
        return;
    }
    assert(nsrc * len <= 17 * 510) by (nonlinear_arith)
        requires
            nsrc <= 17,
            len <= 510,
    ;
    let sources = tiled_sources(payload, nsrc, len);
    let refs = slices_of(&sources);
    assert(all_len(refs@, len as int));

    // xor: the machine's pair against the core path.
    let mut want_x: Vec<u8> = vec![0u8; len];
    let r = raid::xor_gen(refs.as_slice(), want_x.as_mut_slice());
    assert(r is Ok);
    let mut got_x: Vec<u8> = vec![0xAAu8; len];
    dispatched_xor_gen(cpu, refs.as_slice(), got_x.as_mut_slice());
    assert(want_x@ =~= got_x@);

    // pq: the machine's pair against the core path.
    let mut want_p: Vec<u8> = vec![0u8; len];
    let mut want_q: Vec<u8> = vec![0u8; len];
    let r = raid::pq_gen(refs.as_slice(), want_p.as_mut_slice(), want_q.as_mut_slice());
    assert(r is Ok);
    let mut got_p: Vec<u8> = vec![0xAAu8; len];
    let mut got_q: Vec<u8> = vec![0x55u8; len];
    dispatched_pq_gen(cpu, refs.as_slice(), got_p.as_mut_slice(), got_q.as_mut_slice());
    assert(want_p@ =~= got_p@);
    assert(want_q@ =~= got_q@);

    // The checkers accept what the generators produced.
    let mut vects = slices_of(&sources);
    vects.push(got_x.as_slice());
    proof {
        assert forall|i: int| 0 <= i < len implies #[trigger] xor_byte(vects@, i) == 0 by {
            let f = |j: int| vects@[j]@[i];
            let g = |j: int| refs@[j]@[i];
            lemma_xsum_ext(nsrc as int, f, g);
            let x = xor_byte(refs@, i);
            assert(f(nsrc as int) == x);
            crate::gf::lemma_xor_units();
            assert(x ^ x == 0u8);
        }
    }
    let ok = raid::xor_check(vects.as_slice());
    assert(ok == Ok::<bool, crate::error::CodeError>(true));
    let clean = raid::pq_check(refs.as_slice(), got_p.as_slice(), got_q.as_slice());
    assert(clean == Ok::<Option<raid::PqMismatch>, crate::error::CodeError>(None));

    // And rejects a single flipped bit of Q.
    let flip = (input[0] as usize) % len;
    let mut bad_q = copy_range(got_q.as_slice(), 0, len);
    let b = bad_q[flip];
    bad_q.set(flip, b ^ 0x80);
    assert(b ^ 0x80u8 != b) by (bit_vector);
    assert(!pq_ok(refs@, got_p@, bad_q@, flip as int));
    let dirty = raid::pq_check(refs.as_slice(), got_p.as_slice(), bad_q.as_slice());
    assert(dirty matches Ok(Some(_)));
}

/// The bytes of each output buffer, copied.
pub(crate) fn owned_rows(rows: &[&mut [u8]]) -> (r: Vec<Vec<u8>>)
    ensures
        r@.len() == rows@.len(),
        forall|q: int| 0 <= q < rows@.len() ==> (#[trigger] r@[q]@) == rows@[q]@,
{
    let mut out: Vec<Vec<u8>> = Vec::new();
    let mut q: usize = 0;
    while q < rows.len()
        invariant
            0 <= q <= rows@.len(),
            out@.len() == q,
            forall|t: int| 0 <= t < q ==> (#[trigger] out@[t]@) == rows@[t]@,
        decreases rows@.len() - q,
    {
        let mut v: Vec<u8> = Vec::new();
        let mut i: usize = 0;
        while i < rows[q].len()
            invariant
                q < rows@.len(),
                0 <= i <= rows@[q as int]@.len(),
                v@ == rows@[q as int]@.subrange(0, i as int),
            decreases rows@[q as int]@.len() - i,
        {
            v.push(rows[q][i]);
            i += 1;
        }
        assert(v@ =~= rows@[q as int]@);
        out.push(v);
        q += 1;
    }
    out
}

/// `rows` buffers of `len` bytes, laid end to end.
fn flatten_rows(v: &Vec<Vec<u8>>, rows: usize, len: usize) -> (r: Vec<u8>)
    requires
        v@.len() == rows,
        rows * len <= 8 * 510,
        forall|q: int| 0 <= q < rows ==> (#[trigger] v@[q]@).len() == len,
    ensures
        r@.len() == rows * len,
        forall|q: int, i: int| 0 <= q < rows && 0 <= i < len ==> r@[q * len + i] == (#[trigger] v@[q]@[i]),
{
    let mut out: Vec<u8> = Vec::new();
    let mut q: usize = 0;
    while q < rows
        invariant
            v@.len() == rows,
            rows * len <= 8 * 510,
            forall|t: int| 0 <= t < rows ==> (#[trigger] v@[t]@).len() == len,
            0 <= q <= rows,
            out@.len() == q * len,
            forall|t: int, i: int| 0 <= t < q && 0 <= i < len ==> out@[t * len + i] == (#[trigger] v@[t]@[i]),
        decreases rows - q,
    {
        let ghost before = out@;
        let mut i: usize = 0;
        while i < len
            invariant
                v@.len() == rows,
                q < rows,
                (v@[q as int]@).len() == len,
                0 <= i <= len,
                out@.len() == q * len + i,
                forall|u: int| 0 <= u < q * len ==> out@[u] == before[u],
                forall|u: int| 0 <= u < i ==> out@[q * len + u] == v@[q as int]@[u],
            decreases len - i,
        {
            assert(q * len + i < rows * len) by (nonlinear_arith)
                requires
                    q < rows,
                    i < len,
            ;
            out.push(v[q][i]);
            i += 1;
        }
        proof {
            assert forall|t: int, i: int| 0 <= t < q + 1 && 0 <= i < len implies out@[t * len + i] == (
            #[trigger] v@[t]@[i]) by {
                if t < q {
                    assert(t * len + i < q * len) by (nonlinear_arith)
                        requires
                            t < q,
                            i < len,
                    ;
                }
            }
            assert((q + 1) * len == q * len + len) by (nonlinear_arith);
        }
        q += 1;
    }
    out
}

/// Byte `i` of output row `r`: the coefficients of row `r` applied to byte
/// `i` of the `k` sources.
pub open spec fn coded_byte(coeffs: Seq<u8>, data: Seq<&[u8]>, k: int, r: int, i: int) -> u8 {
    xsum(k, |j: int| field_mul(coeffs[r * k + j], data[j]@[i]))
}

/// One kernel set against the scalar set: encode, multiply-and-add, and the
/// fused update agree byte for byte.
fn check_kernel_set(
    set: &Kernels,
    coeffs: &Vec<u8>,
    data_refs: &Vec<&[u8]>,
    want: &Vec<Vec<u8>>,
    base: &Vec<u8>,
    k: usize,
    rows: usize,
    len: usize,
)
    requires
        1 <= k <= 12,
        1 <= rows <= 8,
        len <= 510,
        coeffs@.len() == rows * k,
        data_refs@.len() == k,
        all_len(data_refs@, len as int),
        base@.len() == len,
        want@.len() == rows,
        forall|r: int| 0 <= r < rows ==> (#[trigger] want@[r]@).len() == len,
        forall|r: int, i: int|
            0 <= r < rows && 0 <= i < len ==> #[trigger] want@[r]@[i] == coded_byte(coeffs@, data_refs@, k as int, r, i),
{
    let scalar = Kernels::scalar();
    assert(1 <= rows * k <= 96) by (nonlinear_arith)
        requires
            1 <= k <= 12,
            1 <= rows <= 8,
    ;
    assert(rows * len <= 8 * 510) by (nonlinear_arith)
        requires
            rows <= 8,
            len <= 510,
    ;
    let g = set.init(coeffs.as_slice());

    // encode
    let mut got_flat: Vec<u8> = vec![0xAAu8; rows * len];
    let mut got = rows_of(got_flat.as_mut_slice(), rows, len);
    proof {
        assert forall|r: int| 0 <= r < rows implies (#[trigger] got@[r]@).len() == len by {
            assert(r * len + len <= rows * len) by (nonlinear_arith)
                requires
                    r < rows,
            ;
        }
        assert(rows * k * format_width(set.format_of()) <= g@.len()) by (nonlinear_arith)
            requires
                g@.len() == format_width(set.format_of()) * (rows * k),
        ;
    }
    set.encode(g.as_slice(), data_refs.as_slice(), got.as_mut_slice());
    proof {
        assert forall|r: int, i: int| 0 <= r < rows && 0 <= i < len implies #[trigger] got@[r]@[i]
            == want@[r]@[i] by {
            assert(r * k + k <= rows * k) by (nonlinear_arith)
                requires
                    r < rows,
            ;
            lemma_dot_coeffs(set.format_of(), g@, coeffs@, data_refs@, r * k, i);
        }
    }

    // multiply-and-add with the first coefficient, from an arbitrary start
    let first = vstd::slice::slice_subrange(coeffs.as_slice(), 0, 1);
    let sg = scalar.init(first);
    let vg = set.init(first);
    let mut ma = copy_range(base.as_slice(), 0, len);
    let mut mb = copy_range(base.as_slice(), 0, len);
    scalar.mad(sg.as_slice(), data_refs[0], ma.as_mut_slice());
    set.mad(vg.as_slice(), data_refs[0], mb.as_mut_slice());
    proof {
        lemma_formats_agree(scalar.format_of(), sg@, set.format_of(), vg@, first@, data_refs@.subrange(0, 0), 0, 0);
        assert(ma@ =~= mb@);
    }

    // fused update: fold source 0 into every row, from the encoded state
    let sgf = scalar.init(coeffs.as_slice());
    let mut ua_flat = flatten_rows(want, rows, len);
    let mut ub_flat = flatten_rows(want, rows, len);
    let ghost fa = ua_flat@;
    let ghost fb = ub_flat@;
    let mut ua = rows_of(ua_flat.as_mut_slice(), rows, len);
    let mut ub = rows_of(ub_flat.as_mut_slice(), rows, len);
    proof {
        assert forall|r: int| 0 <= r < rows implies (#[trigger] ua@[r]@).len() == len by {
            assert(r * len + len <= rows * len) by (nonlinear_arith)
                requires
                    r < rows,
            ;
        }
        assert forall|r: int| 0 <= r < rows implies (#[trigger] ub@[r]@).len() == len by {
            assert(r * len + len <= rows * len) by (nonlinear_arith)
                requires
                    r < rows,
            ;
        }
        assert(((rows - 1) * k + 0 + 1) <= rows * k) by (nonlinear_arith)
            requires
                rows >= 1,
                k >= 1,
        ;
        assert(((rows - 1) * k + 0 + 1) * 32 <= sgf@.len()) by (nonlinear_arith)
            requires
                ((rows - 1) * k + 0 + 1) <= rows * k,
                sgf@.len() == 32 * (rows * k),
        ;
        let w = format_width(set.format_of());
        assert(((rows - 1) * k + 0 + 1) * w <= g@.len()) by (nonlinear_arith)
            requires
                ((rows - 1) * k + 0 + 1) <= rows * k,
                g@.len() == w * (rows * k),
                w >= 0,
        ;
    }
    let ghost ua0 = ua@;
    let ghost ub0 = ub@;
    scalar.update(sgf.as_slice(), k, 0, data_refs[0], ua.as_mut_slice());
    set.update(g.as_slice(), k, 0, data_refs[0], ub.as_mut_slice());
    proof {
        lemma_formats_agree(scalar.format_of(), sgf@, set.format_of(), g@, coeffs@, data_refs@.subrange(0, 0), 0, 0);
        assert forall|r: int, i: int| 0 <= r < rows && 0 <= i < len implies #[trigger] ua@[r]@[i] == ub@[r]@[i] by {
            assert(r * k < rows * k) by (nonlinear_arith)
                requires
                    r < rows,
                    k >= 1,
            ;
            assert(r * len + len <= rows * len) by (nonlinear_arith)
                requires
                    r < rows,
            ;
            assert(ua0[r]@ == fa.subrange(r * len, r * len + len));
            assert(ub0[r]@ == fb.subrange(r * len, r * len + len));
            assert(fa[r * len + i] == want@[r]@[i]);
            assert(fb[r * len + i] == want@[r]@[i]);
            assert(ua0[r]@[i] == ub0[r]@[i]);
        }
    }
}

/// Every kernel set the machine offers, differentially against the scalar
/// set: encode, multiply-and-add, and the fused update, over dimensions and
/// lengths the input picks (`k` in `1..=12`, `1..=8` rows, length
/// `0..=510`). The remaining bytes are tiled into coefficients and sources.
pub fn kernels(input: &[u8], cpu: &CpuFeatures) {
    if input.len() < 4 {
        return;
    }
    let k = (input[0] % 12) as usize + 1;
    let rows = (input[1] % 8) as usize + 1;
    let len = input[2] as usize * 2;
    let payload = vstd::slice::slice_subrange(input, 3, input.len());
    let plen = payload.len();
    if plen == 0 {
        return;
    }
    assert(rows * k <= 96) by (nonlinear_arith)
        requires
            k <= 12,
            rows <= 8,
    ;
    assert(rows * len <= 8 * 510) by (nonlinear_arith)
        requires
            rows <= 8,
            len <= 510,
    ;
    let mut coeffs: Vec<u8> = Vec::new();
    let mut i: usize = 0;
    while i < rows * k
        invariant
            plen == payload@.len() > 0,
            rows * k <= 96,
            0 <= i <= rows * k,
            coeffs@.len() == i,
        decreases rows * k - i,
    {
        coeffs.push(payload[i % plen]);
        i += 1;
    }
    let mut data: Vec<Vec<u8>> = Vec::new();
    let mut i: usize = 0;
    while i < k
        invariant
            plen == payload@.len() > 0,
            1 <= k <= 12,
            len <= 510,
            0 <= i <= k,
            data@.len() == i,
            forall|t: int| 0 <= t < i ==> (#[trigger] data@[t]@).len() == len,
        decreases k - i,
    {
        let mut v: Vec<u8> = Vec::new();
        let mut j: usize = 0;
        while j < len
            invariant
                plen == payload@.len() > 0,
                i < k <= 12,
                len <= 510,
                0 <= j <= len,
                v@.len() == j,
            decreases len - j,
        {
            assert(i * len + j + 1 <= 12 * 510) by (nonlinear_arith)
                requires
                    i < 12,
                    j < len <= 510,
            ;
            v.push(payload[(i * len + j + 1) % plen]);
            j += 1;
        }
        data.push(v);
        i += 1;
    }
    let data_refs = slices_of(&data);
    assert(all_len(data_refs@, len as int));

    let scalar = Kernels::scalar();
    let sg = scalar.init(coeffs.as_slice());
    let mut want_flat: Vec<u8> = vec![0u8; rows * len];
    let mut want_rows = zero_rows(want_flat.as_mut_slice(), rows, len);
    proof {
        assert(rows * k * 32 <= sg@.len()) by (nonlinear_arith)
            requires
                sg@.len() == 32 * (rows * k),
        ;
    }
    scalar.encode(sg.as_slice(), data_refs.as_slice(), want_rows.as_mut_slice());
    let want = owned_rows(want_rows.as_slice());
    proof {
        assert forall|r: int, i: int| 0 <= r < rows && 0 <= i < len implies #[trigger] want@[r]@[i]
            == coded_byte(coeffs@, data_refs@, k as int, r, i) by {
            assert(r * k + k <= rows * k) by (nonlinear_arith)
                requires
                    r < rows,
            ;
            lemma_dot_coeffs(scalar.format_of(), sg@, coeffs@, data_refs@, r * k, i);
        }
    }
    let mut base: Vec<u8> = Vec::new();
    let mut j: usize = 0;
    while j < len
        invariant
            plen == payload@.len() > 0,
            len <= 510,
            0 <= j <= len,
            base@.len() == j,
        decreases len - j,
    {
        base.push(payload[(j + 7) % plen]);
        j += 1;
    }

    let names: [&str; 6] = ["auto", "ssse3", "avx2", "gfni", "neon", "simd128"];
    let mut w: usize = 0;
    while w < 6
        invariant
            0 <= w <= 6,
            1 <= k <= 12,
            1 <= rows <= 8,
            len <= 510,
            coeffs@.len() == rows * k,
            data_refs@.len() == k,
            all_len(data_refs@, len as int),
            base@.len() == len,
            want@.len() == rows,
            forall|r: int| 0 <= r < rows ==> (#[trigger] want@[r]@).len() == len,
            forall|r: int, i: int|
                0 <= r < rows && 0 <= i < len ==> #[trigger] want@[r]@[i] == coded_byte(coeffs@, data_refs@, k as int, r, i),
        decreases 6 - w,
    {
        if let Some(set) = crate::kernels_named(names[w], cpu) {
            check_kernel_set(&set, &coeffs, &data_refs, &want, &base, k, rows, len);
        }
        w += 1;
    }
}

/// A small deterministic generator for harness choices (never for data).
struct Rng {
    state: u64,
}

impl Rng {
    fn next(&mut self) -> (r: u64)
        ensures
            final(self).state == old(self).state.wrapping_add(0x9E37_79B9_7F4A_7C15u64),
            r == mix_out(final(self).state),
    {
        self.state = self.state.wrapping_add(0x9E37_79B9_7F4A_7C15);
        let mut z = self.state;
        z = (z ^ (z >> 30u64)).wrapping_mul(0xBF58_476D_1CE4_E5B9);
        z = (z ^ (z >> 27u64)).wrapping_mul(0x94D0_49BB_1331_11EB);
        z ^ (z >> 31u64)
    }
}

/// Which of the `n` shards of a stripe are lost: `1..=p` of them, chosen by
/// a partial Fisher-Yates shuffle of `0..n` seeded with `seed` — bounded by
/// construction, so the selection always terminates.
fn choose_losses(seed: u8, n: usize, p: usize) -> (lost: Vec<bool>)
    requires
        1 <= p < n <= 24,
    ensures
        lost@.len() == n,
        count_present(lost@, n as int) <= p,
{
    let mut rng = Rng { state: seed as u64 };
    let nloss = 1 + (rng.next() % (p as u64)) as usize;
    let mut all: Vec<usize> = Vec::new();
    let mut i: usize = 0;
    while i < n
        invariant
            n <= 24,
            0 <= i <= n,
            all@.len() == i,
            forall|t: int| 0 <= t < i ==> (#[trigger] all@[t]) < n,
        decreases n - i,
    {
        all.push(i);
        i += 1;
    }
    let mut i: usize = 0;
    while i < nloss
        invariant
            1 <= nloss <= p < n <= 24,
            0 <= i <= nloss,
            all@.len() == n,
            forall|t: int| 0 <= t < n ==> (#[trigger] all@[t]) < n,
        decreases nloss - i,
    {
        let j = i + (rng.next() % ((n - i) as u64)) as usize;
        let a = all[i];
        let b = all[j];
        all.set(i, b);
        all.set(j, a);
        i += 1;
    }
    let mut lost: Vec<bool> = vec![false; n];
    proof {
        lemma_count_none(lost@, n as int);
    }
    let mut i: usize = 0;
    while i < nloss
        invariant
            nloss <= p < n,
            0 <= i <= nloss,
            all@.len() == n,
            lost@.len() == n,
            count_present(lost@, n as int) <= i,
            forall|t: int| 0 <= t < n ==> (#[trigger] all@[t]) < n,
        decreases nloss - i,
    {
        proof {
            lemma_count_set_present(lost@, all@[i as int] as int, n as int);
        }
        lost.set(all[i], true);
        i += 1;
    }
    lost
}

/// End to end: encode arbitrary data through the machine's kernel set,
/// check it against the scalar set, lose `1..=p` shards, recover them, and
/// check the rebuilt bytes against the originals. The first bytes pick
/// `k` in `1..=16`, `p` in `1..=8`, the shard length `0..=255` and the loss
/// seed; the rest holds the sources.
///
/// Every check is proved here for every input: the machine's parity equals
/// the scalar parity, the recovery of at most `p` lost shards succeeds (any
/// `k` rows of the Cauchy matrix invert), and it gives back exactly the lost
/// shards.
pub fn roundtrip(input: &[u8], cpu: &CpuFeatures) {
    if input.len() < 4 {
        return;
    }
    let k = (input[0] % 16) as usize + 1;
    let p = (input[1] % 8) as usize + 1;
    let len = input[2] as usize;
    let seed = input[3];
    let payload = vstd::slice::slice_subrange(input, 4, input.len());
    assert(k * len <= 16 * 255) by (nonlinear_arith)
        requires
            k <= 16,
            len <= 255,
    ;
    if payload.len() < k * len {
        return;
    }
    let n = k + p;
    let ghost g = grid_from(n as int, k as int, |i: int, j: int| cauchy_entry(k as int, i, j));

    let matrix = match Matrix::cauchy(k, p) {
        Ok(m) => m,
        Err(_) => {
            return;
        },
    };
    let coder = match crate::coder(matrix, cpu) {
        Ok(c) => c,
        Err(_) => {
            return;
        },
    };
    assert(coder.grid_of() == g);
    assert(coder.k_of() == k && coder.n_of() == n);

    // The sources: k consecutive windows of the payload.
    let mut data: Vec<&[u8]> = Vec::new();
    let mut j: usize = 0;
    while j < k
        invariant
            1 <= k <= 16,
            len <= 255,
            k * len <= payload@.len(),
            k * len <= 16 * 255,
            0 <= j <= k,
            data@.len() == j,
            forall|t: int| 0 <= t < j ==> (#[trigger] data@[t]@).len() == len,
        decreases k - j,
    {
        assert((j + 1) * len <= k * len && (j + 1) * len == j * len + len) by (nonlinear_arith)
            requires
                j < k,
        ;
        data.push(vstd::slice::slice_subrange(payload, j * len, (j + 1) * len));
        j += 1;
    }
    let ghost views = shard_views(data@);
    assert(all_len(data@, len as int));

    // Encode through the machine's kernel set.
    assert(p * len <= 8 * 255) by (nonlinear_arith)
        requires
            p <= 8,
            len <= 255,
    ;
    let mut parity_flat: Vec<u8> = vec![0u8; p * len];
    let mut parity_rows = zero_rows(parity_flat.as_mut_slice(), p, len);
    assert(first_len(parity_rows@) == len);
    let r = coder.encode(data.as_slice(), parity_rows.as_mut_slice());
    assert(r is Ok);
    let parity = owned_rows(parity_rows.as_slice());

    // The scalar set computes the same parity, byte for byte.
    let scalar = match Matrix::cauchy(k, p) {
        Ok(m) => match Coder::new(m) {
            Ok(c) => c,
            Err(_) => {
                return;
            },
        },
        Err(_) => {
            return;
        },
    };
    assert(scalar.grid_of() == g);
    let mut want_flat: Vec<u8> = vec![0u8; p * len];
    let mut want_rows = zero_rows(want_flat.as_mut_slice(), p, len);
    assert(first_len(want_rows@) == len);
    let r = scalar.encode(data.as_slice(), want_rows.as_mut_slice());
    assert(r is Ok);
    assert forall|l: int| 0 <= l < p implies (#[trigger] want_rows@[l]@) == parity@[l]@ by {
        assert(want_rows@[l]@ =~= parity@[l]@);
    }

    // Lose 1..=p shards.
    let lost = choose_losses(seed, n, p);
    let mut missing: Vec<usize> = Vec::new();
    let mut shards: Vec<Option<&[u8]>> = Vec::new();
    let mut x: usize = 0;
    while x < n
        invariant
            n == k + p,
            1 <= k <= 16,
            1 <= p <= 8,
            lost@.len() == n,
            data@.len() == k,
            views == shard_views(data@),
            parity@.len() == p,
            forall|l: int| 0 <= l < p ==> (#[trigger] parity@[l]@).len() == len,
            forall|l: int, i: int| 0 <= l < p && 0 <= i < len ==> #[trigger] parity@[l]@[i] == parity_byte(
                g,
                k as int,
                views,
                l,
                i,
            ),
            forall|t: int| 0 <= t < k ==> (#[trigger] data@[t]@).len() == len,
            0 <= x <= n,
            shards@.len() == x,
            missing@.len() <= x,
            forall|q: int| 0 <= q < missing@.len() ==> (#[trigger] missing@[q]) < n,
            forall|y: int| 0 <= y < x ==> ((#[trigger] shards@[y]) is Some <==> !lost@[y]),
            forall|y: int| 0 <= y < x && (#[trigger] shards@[y]) is Some ==> shards@[y]->0@.len() == len,
            forall|y: int, i: int|
                0 <= y < x && shards@[y] is Some && 0 <= i < len ==> #[trigger] shard_byte(shards@, y, i)
                    == stripe_byte(g, k as int, views, y, i),
        decreases n - x,
    {
        let ghost before = shards@;
        if lost[x] {
            missing.push(x);
            shards.push(None);
        } else if x < k {
            shards.push(Some(data[x]));
        } else {
            shards.push(Some(parity[x - k].as_slice()));
        }
        proof {
            assert forall|y: int, i: int|
                0 <= y < x + 1 && shards@[y] is Some && 0 <= i < len implies #[trigger] shard_byte(shards@, y, i)
                    == stripe_byte(g, k as int, views, y, i) by {
                if y < x {
                    assert(shards@[y] == before[y]);
                    assert(shard_byte(before, y, i) == stripe_byte(g, k as int, views, y, i));
                } else if x >= k {
                    assert(parity@[y - k]@[i] == parity_byte(g, k as int, views, y - k, i));
                } else {
                    assert(views[y] == data@[y]@);
                }
            }
        }
        x += 1;
    }

    // Recover every lost shard.
    let nmiss = missing.len();
    assert(nmiss * len <= 24 * 255) by (nonlinear_arith)
        requires
            nmiss <= 24,
            len <= 255,
    ;
    let mut out_flat: Vec<u8> = vec![0u8; nmiss * len];
    let mut out = zero_rows(out_flat.as_mut_slice(), nmiss, len);
    // At most p shards are lost, so the survivors' rows are k distinct rows
    // of the Cauchy matrix: the recovery succeeds.
    proof {
        let pres = presence(shards@);
        assert forall|y: int| 0 <= y < n implies #[trigger] pres[y] == !lost@[y] by {
        }
        lemma_count_complement(pres, lost@, n as int);
        lemma_take_present(pres, n as int, k as int);
        let s = take_present(pres, n as int, k as int);
        lemma_cauchy_survivors_nonsingular(k as int, p as int, pres);
        assert(cauchy_grid(k as int, p as int) == g);
        assert(present_len(shards@, len as int));
        let s0 = s[0] as int;
        assert(shards@[s0] is Some);
        assert(shards@[s0]->0@.len() == len);
        assert(all_len_mut(out@, len as int));
        assert(all_in_range(missing@, n as int));
    }
    assert(nmiss * k * 32 <= 24 * 255 * 32) by (nonlinear_arith)
        requires
            nmiss <= 24,
            k <= 255,
    ;
    let r = coder.recover(shards.as_slice(), missing.as_slice(), out.as_mut_slice());
    assert(r is Ok);
    proof {
        let pres = presence(shards@);
        let s = take_present(pres, n as int, k as int);
        lemma_take_present(pres, n as int, k as int);
        assert(is_grid(g, n as int, k as int));
        assert(top_identity(g, k as int));
        assert forall|q: int, i: int| 0 <= q < nmiss && 0 <= i < len implies #[trigger] out@[q]@[i]
            == stripe_byte(g, k as int, views, missing@[q] as int, i) by {
            assert forall|t: int| 0 <= t < k implies #[trigger] shard_byte(shards@, s[t] as int, i) == stripe_byte(
                g,
                k as int,
                views,
                s[t] as int,
                i,
            ) by {
                assert(pres[s[t] as int]);
                assert(shards@[s[t] as int] is Some);
            }
            lemma_recover_restores_stripe(g, k as int, n as int, views, shards@, s, missing@[q] as int, i);
        }
    }
}

/// The bytes of the harness names [`run_case`] dispatches on, in order:
/// `matrix_gen`, `matrix_invert`, `roundtrip`, `compat`, `raid`, `kernels`.
pub open spec fn target_bytes(w: int) -> Seq<u8> {
    if w == 0 {
        seq![109u8, 97, 116, 114, 105, 120, 95, 103, 101, 110]
    } else if w == 1 {
        seq![109u8, 97, 116, 114, 105, 120, 95, 105, 110, 118, 101, 114, 116]
    } else if w == 2 {
        seq![114u8, 111, 117, 110, 100, 116, 114, 105, 112]
    } else if w == 3 {
        seq![99u8, 111, 109, 112, 97, 116]
    } else if w == 4 {
        seq![114u8, 97, 105, 100]
    } else {
        seq![107u8, 101, 114, 110, 101, 108, 115]
    }
}

/// `name` is one of the harness names.
pub open spec fn is_target(name: Seq<u8>) -> bool {
    exists|w: int| 0 <= w < 6 && name == #[trigger] target_bytes(w)
}

/// Dispatch one case to the harness body named `target`. A name that is
/// not a harness is a caller error (a corpus directory without a body).
pub fn run_case(target: &str, input: &[u8], cpu: &CpuFeatures)
    requires
        is_target(target.spec_bytes()),
{
    let matrix_gen_name: [u8; 10] = [109, 97, 116, 114, 105, 120, 95, 103, 101, 110];
    let matrix_invert_name: [u8; 13] = [109, 97, 116, 114, 105, 120, 95, 105, 110, 118, 101, 114, 116];
    let roundtrip_name: [u8; 9] = [114, 111, 117, 110, 100, 116, 114, 105, 112];
    let compat_name: [u8; 6] = [99, 111, 109, 112, 97, 116];
    let raid_name: [u8; 4] = [114, 97, 105, 100];
    assert(matrix_gen_name@ =~= target_bytes(0));
    assert(matrix_invert_name@ =~= target_bytes(1));
    assert(roundtrip_name@ =~= target_bytes(2));
    assert(compat_name@ =~= target_bytes(3));
    assert(raid_name@ =~= target_bytes(4));
    if crate::is_named(target, &matrix_gen_name) {
        matrix_gen(input)
    } else if crate::is_named(target, &matrix_invert_name) {
        matrix_invert(input)
    } else if crate::is_named(target, &roundtrip_name) {
        roundtrip(input, cpu)
    } else if crate::is_named(target, &compat_name) {
        compat(input)
    } else if crate::is_named(target, &raid_name) {
        raid(input, cpu)
    } else {
        kernels(input, cpu)
    }
}

} // verus!
