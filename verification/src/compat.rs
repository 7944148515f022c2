//! Compatibility constructions for migrating from other erasure engines —
//! the payoff of a matrix-flexible API: adopt the incumbent's exact matrix
//! and its shards stay valid in both directions, no format break.

use vstd::prelude::*;

use crate::algebra::{dot, inverse_of, invertible, is_kernel_witness, lemma_xsum_ext, mat_mul, singular, xsum, zeros};
use crate::error::MatrixError;
use crate::gf::{
    lemma_xor_units, field_inv, field_mul, field_pow, lemma_inverse_inverts, lemma_mul_associative, lemma_mul_commutative,
    lemma_mul_distributes_left, lemma_mul_distributes_right, lemma_mul_units,
};
use crate::matrix::{grid_from, lemma_flat_index, Matrix};

verus! {

/// The `n x k` Vandermonde matrix `V[r][c] = r^c` (with `0^0 == 1`).
pub open spec fn vandermonde(n: int, k: int) -> Seq<Seq<u8>> {
    grid_from(n, k, |r: int, c: int| field_pow(r as u8, c as nat))
}

// ---------------------------------------------------------------------------
// Vandermonde matrices on distinct nodes are invertible.
// ---------------------------------------------------------------------------

/// The polynomial with coefficients `w` (constant term first) at `z`, by
/// Horner's rule.
pub open spec fn poly_eval(w: Seq<u8>, z: u8) -> u8
    decreases w.len(),
{
    if w.len() == 0 {
        0u8
    } else {
        w[0] ^ field_mul(z, poly_eval(w.drop_first(), z))
    }
}

/// The quotient of the polynomial `w` by `z + x0` (the remainder being its
/// value at `x0`).
pub open spec fn poly_quotient(w: Seq<u8>, x0: u8) -> Seq<u8>
    decreases w.len(),
{
    if w.len() <= 1 {
        Seq::empty()
    } else {
        seq![poly_eval(w.drop_first(), x0)] + poly_quotient(w.drop_first(), x0)
    }
}

/// Division by `z + x0`: `w(z) == (z + x0) * q(z) + w(x0)`, `q` having one
/// coefficient fewer.
pub(crate) proof fn lemma_poly_division(w: Seq<u8>, x0: u8, z: u8)
    ensures
        poly_eval(w, z) == field_mul(z ^ x0, poly_eval(poly_quotient(w, x0), z)) ^ poly_eval(w, x0),
        w.len() >= 1 ==> poly_quotient(w, x0).len() == w.len() - 1,
    decreases w.len(),
{
    lemma_mul_units();
    if w.len() == 0 {
        lemma_xor_units();
        assert(poly_quotient(w, x0).len() == 0);
        assert(poly_eval(poly_quotient(w, x0), z) == 0);
        assert(poly_eval(w, z) == 0);
        assert(poly_eval(w, x0) == 0);
    } else if w.len() == 1 {
        let w0 = w[0];
        assert(w.drop_first().len() == 0);
        assert(poly_eval(w.drop_first(), z) == 0);
        assert(poly_eval(w.drop_first(), x0) == 0);
        assert(poly_quotient(w, x0).len() == 0);
        assert(poly_eval(poly_quotient(w, x0), z) == 0);
        lemma_xor_units();
        assert(poly_eval(w, z) == w0);
        assert(poly_eval(w, x0) == w0);
    } else {
        let r = w.drop_first();
        lemma_poly_division(r, x0, z);
        let q = poly_quotient(w, x0);
        let qr = poly_quotient(r, x0);
        assert(q.drop_first() =~= qr);
        let a = poly_eval(r, x0);
        let b = poly_eval(qr, z);
        let sx = z ^ x0;
        let w0 = w[0];
        lemma_mul_commutative();
        lemma_mul_distributes_right();
        lemma_mul_distributes_left(sx, x0, a);
        // poly_eval(q, z) == a ^ z * b.
        assert(poly_eval(q, z) == a ^ field_mul(z, b));
        // z * (sx * b ^ a) == sx * (z * b) ^ z * a
        lemma_mul_associative(z, sx, b);
        lemma_mul_associative(sx, z, b);
        let zsb = field_mul(sx, field_mul(z, b));
        let za = field_mul(z, a);
        let sa = field_mul(sx, a);
        let xa = field_mul(x0, a);
        assert(sx ^ x0 == z) by (bit_vector)
            requires
                sx == z ^ x0,
        ;
        assert(sa ^ xa == za);
        assert(field_mul(z, field_mul(sx, b) ^ a) == zsb ^ za);
        assert(field_mul(sx, a ^ field_mul(z, b)) == sa ^ zsb);
        assert(w0 ^ (zsb ^ za) == (sa ^ zsb) ^ (w0 ^ xa)) by (bit_vector)
            requires
                sa ^ xa == za,
        ;
        assert(poly_eval(r, z) == field_mul(sx, b) ^ a);
        assert(poly_eval(w, z) == w0 ^ field_mul(z, poly_eval(r, z)));
        assert(poly_eval(w, x0) == w0 ^ xa);
        assert(q.len() == w.len() - 1);
    }
}

/// The all-zero polynomial vanishes everywhere.
proof fn lemma_poly_zero(w: Seq<u8>, z: u8)
    requires
        forall|c: int| 0 <= c < w.len() ==> #[trigger] w[c] == 0,
    ensures
        poly_eval(w, z) == 0,
    decreases w.len(),
{
    if w.len() > 0 {
        lemma_poly_zero(w.drop_first(), z);
        lemma_mul_units();
        lemma_xor_units();
    }
}

/// A zero quotient by `z + x0` leaves only the constant term: every other
/// coefficient is zero.
proof fn lemma_quotient_zero(w: Seq<u8>, x0: u8)
    requires
        forall|i: int| 0 <= i < poly_quotient(w, x0).len() ==> #[trigger] poly_quotient(w, x0)[i] == 0,
    ensures
        forall|c: int| 1 <= c < w.len() ==> #[trigger] w[c] == 0,
    decreases w.len(),
{
    if w.len() >= 2 {
        let r = w.drop_first();
        let q = poly_quotient(w, x0);
        assert(q.drop_first() =~= poly_quotient(r, x0));
        assert forall|i: int| 0 <= i < poly_quotient(r, x0).len() implies #[trigger] poly_quotient(r, x0)[i] == 0 by {
            assert(q[i + 1] == poly_quotient(r, x0)[i]);
        }
        lemma_quotient_zero(r, x0);
        // r(x0) == r[0] once the rest of r is zero.
        lemma_poly_zero(r.drop_first(), x0);
        lemma_mul_units();
        let r0 = r[0];
        lemma_xor_units();
        assert(q[0] == poly_eval(r, x0));
        assert forall|c: int| 1 <= c < w.len() implies #[trigger] w[c] == 0 by {
            assert(w[c] == r[c - 1]);
        }
    }
}

/// A polynomial with more distinct roots than coefficients is zero.
pub proof fn lemma_poly_roots(w: Seq<u8>, xs: Seq<u8>)
    requires
        xs.len() >= w.len(),
        forall|a: int, b: int| #![trigger xs[a], xs[b]] 0 <= a < xs.len() && 0 <= b < xs.len() && a != b ==> xs[a] != xs[b],
        forall|l: int| 0 <= l < xs.len() ==> #[trigger] poly_eval(w, xs[l]) == 0,
    ensures
        forall|c: int| 0 <= c < w.len() ==> #[trigger] w[c] == 0,
    decreases w.len(),
{
    if w.len() > 0 {
        let last = xs.len() - 1;
        let x0 = xs[last];
        let q = poly_quotient(w, x0);
        let xs2 = xs.drop_last();
        lemma_poly_division(w, x0, x0);
        assert forall|l: int| 0 <= l < xs2.len() implies #[trigger] poly_eval(q, xs2[l]) == 0 by {
            let x = xs[l];
            assert(xs[l] != xs[last]);
            lemma_poly_division(w, x0, x);
            assert(poly_eval(w, x) == 0);
            assert(poly_eval(w, x0) == 0);
            let d = x ^ x0;
            let e = field_mul(d, poly_eval(q, x));
            lemma_xor_units();
            assert(e ^ 0u8 == e);
            assert(d != 0);
            lemma_inverse_inverts(d);
            lemma_mul_units();
            lemma_mul_associative(field_inv(d), d, poly_eval(q, x));
            lemma_mul_commutative();
        }
        assert forall|a: int, b: int| 0 <= a < xs2.len() && 0 <= b < xs2.len() && a != b implies #[trigger] xs2[a]
            != #[trigger] xs2[b] by {
            assert(xs[a] != xs[b]);
        }
        lemma_poly_roots(q, xs2);
        lemma_quotient_zero(w, x0);
        // Then w(x0) == w[0].
        lemma_poly_zero(w.drop_first(), x0);
        lemma_mul_units();
        let w0 = w[0];
        lemma_xor_units();
        assert(poly_eval(w, xs[last]) == 0);
    }
}

/// Adding a top coefficient adds its monomial.
pub(crate) proof fn lemma_poly_push(w: Seq<u8>, a: u8, z: u8)
    ensures
        poly_eval(w.push(a), z) == poly_eval(w, z) ^ field_mul(field_pow(z, w.len()), a),
    decreases w.len(),
{
    lemma_mul_units();
    if w.len() == 0 {
        assert(w.push(a).drop_first().len() == 0);
        assert(poly_eval(w.push(a).drop_first(), z) == 0);
        assert(w.push(a)[0] == a);
        assert(field_pow(z, 0) == 1);
        lemma_xor_units();
        assert(poly_eval(w.push(a), z) == a);
        assert(poly_eval(w, z) == 0);
    } else {
        let r = w.drop_first();
        assert(w.push(a).drop_first() =~= r.push(a));
        lemma_poly_push(r, a, z);
        let er = poly_eval(r, z);
        let pr = field_mul(field_pow(z, r.len()), a);
        lemma_mul_distributes_right();
        lemma_mul_commutative();
        lemma_mul_associative(z, field_pow(z, r.len()), a);
        assert(field_pow(z, w.len()) == field_mul(field_pow(z, r.len()), z));
        let w0 = w[0];
        let zr = field_mul(z, er);
        let zp = field_mul(z, pr);
        assert(w0 ^ (zr ^ zp) == (w0 ^ zr) ^ zp) by {
            crate::gf::lemma_xor_laws();
        }
        assert(w.push(a)[0] == w0);
        assert(poly_eval(w.push(a), z) == w0 ^ field_mul(z, poly_eval(r.push(a), z)));
        assert(field_mul(z, er ^ pr) == zr ^ zp);
        assert(zp == field_mul(field_pow(z, w.len()), a));
    }
}

/// Horner's rule computes the power sum `XOR_c w[c] * z^c`.
pub(crate) proof fn lemma_poly_power_sum(w: Seq<u8>, z: u8)
    ensures
        poly_eval(w, z) == xsum(w.len() as int, |c: int| field_mul(field_pow(z, c as nat), w[c])),
    decreases w.len(),
{
    if w.len() == 0 {
    } else {
        let w2 = w.drop_last();
        lemma_poly_power_sum(w2, z);
        assert(w2.push(w.last()) =~= w);
        lemma_poly_push(w2, w.last(), z);
        lemma_xsum_ext(
            w2.len() as int,
            |c: int| field_mul(field_pow(z, c as nat), w2[c]),
            |c: int| field_mul(field_pow(z, c as nat), w[c]),
        );
    }
}

/// A square Vandermonde matrix on the distinct nodes `0, 1, .., k - 1` is
/// non-singular: no non-zero vector is sent to zero.
pub proof fn lemma_vandermonde_nonsingular(k: int)
    requires
        1 <= k <= 255,
    ensures
        !singular(vandermonde(k, k), k),
{
    let v = vandermonde(k, k);
    if singular(v, k) {
        let x = choose|x: Seq<Seq<u8>>| is_kernel_witness(v, x, k);
        let w = Seq::new(k as nat, |c: int| x[c][0]);
        let xs = Seq::new(k as nat, |r: int| r as u8);
        assert forall|l: int| 0 <= l < xs.len() implies #[trigger] poly_eval(w, xs[l]) == 0 by {
            assert(mat_mul(v, x, k, 1)[l][0] == zeros(k, 1)[l][0]);
            assert(dot(v, x, k, l, 0) == 0);
            lemma_poly_power_sum(w, xs[l]);
            lemma_mul_commutative();
            lemma_xsum_ext(
                k,
                |c: int| field_mul(v[l][c], x[c][0]),
                |c: int| field_mul(field_pow(xs[l], c as nat), w[c]),
            );
        }
        assert forall|a: int, b: int| 0 <= a < xs.len() && 0 <= b < xs.len() && a != b implies #[trigger] xs[a]
            != #[trigger] xs[b] by {
        }
        lemma_poly_roots(w, xs);
        assert forall|c: int| 0 <= c < k implies #[trigger] x[c][0] == 0 by {
            assert(w[c] == 0);
        }
        assert(false);
    }
}

/// The systematic encode matrix the `reed-solomon-erasure` crate
/// (`galois_8`, klauspost construction) uses: `V(n, k) * V_top^-1` where
/// `V[r][c] = r^c` over GF(2^8)/0x11d — the same field as ISA-L and this
/// crate. A [`crate::Coder`] built on this matrix is byte-compatible with
/// that crate's encode and reconstruct.
///
/// `k + p` may be up to 256 (that crate's limit): the nodes `0..k + p` are
/// then every element of the field.
pub fn reed_solomon_erasure_matrix(k: usize, p: usize) -> (r: Result<Matrix, MatrixError>)
    ensures
        k == 0 || p == 0 || k + p > 256 ==> r == Err::<Matrix, MatrixError>(MatrixError::Dimensions { k, p }),
        r is Ok <==> 1 <= k && 1 <= p && k + p <= 256,
        r matches Ok(m) ==> m.nrows() == k + p && m.ncols() == k && m.grid() == mat_mul(
            vandermonde((k + p) as int, k as int),
            inverse_of(vandermonde(k as int, k as int), k as int),
            k as int,
            k as int,
        ),
{
    let n = match k.checked_add(p) {
        Some(n) => n,
        None => {
            return Err(MatrixError::Dimensions { k, p });
        },
    };
    // The nodes 0..n are distinct field elements.
    if k == 0 || p == 0 || n > 256 {
        return Err(MatrixError::Dimensions { k, p });
    }
    assert(n * k <= 65280) by (nonlinear_arith)
        requires
            n <= 256,
            k <= 255,
    ;
    let mut v = vec![0u8; n * k];
    let mut r: usize = 0;
    while r < n
        invariant
            1 <= k < n <= 256,
            n * k <= 65280,
            v@.len() == n * k,
            0 <= r <= n,
            forall|x: int, y: int|
                0 <= x < r && 0 <= y < k ==> #[trigger] v@[k * x + y] == field_pow(x as u8, y as nat),
        decreases n - r,
    {
        let mut acc: u8 = 1;
        let mut c: usize = 0;
        while c < k
            invariant
                1 <= k < n <= 256,
                n * k <= 65280,
                v@.len() == n * k,
                0 <= r < n,
                0 <= c <= k,
                acc == field_pow(r as u8, c as nat),
                forall|x: int, y: int|
                    (0 <= x < r && 0 <= y < k) || (x == r && 0 <= y < c) ==> #[trigger] v@[k * x + y] == field_pow(
                        x as u8,
                        y as nat,
                    ),
            decreases k - c,
        {
            proof {
                lemma_flat_index(n as int, k as int, r as int, c as int, r as int, c as int);
            }
            let ghost before = v@;
            v.set(r * k + c, acc);
            proof {
                assert(r * k + c == k * r + c) by (nonlinear_arith);
                assert forall|x: int, y: int|
                    (0 <= x < r && 0 <= y < k) || (x == r && 0 <= y < c + 1) implies #[trigger] v@[k * x + y]
                        == field_pow(x as u8, y as nat) by {
                    lemma_flat_index(n as int, k as int, x, y, r as int, c as int);
                    if !(x == r && y == c) {
                        assert(v@[k * x + y] == before[k * x + y]);
                    }
                }
            }
            acc = crate::gf::mul(acc, r as u8);
            c += 1;
        }
        r += 1;
    }
    let vand = Matrix::from_node_bytes(n, k, v);
    proof {
        assert forall|x: int, y: int| 0 <= x < n && 0 <= y < k implies vand.grid()[x][y] == vandermonde(n as int, k as int)[x][y] by {
            lemma_flat_index(n as int, k as int, x, y, x, y);
        }
        assert(vand.grid() =~~= vandermonde(n as int, k as int));
    }
    let mut top_rows: Vec<usize> = Vec::with_capacity(k);
    let mut t: usize = 0;
    while t < k
        invariant
            1 <= k < n <= 256,
            0 <= t <= k,
            top_rows@.len() == t,
            forall|q: int| 0 <= q < t ==> #[trigger] top_rows@[q] == q,
        decreases k - t,
    {
        top_rows.push(t);
        t += 1;
    }
    let top = match vand.select_rows(top_rows.as_slice()) {
        Ok(m) => m,
        Err(e) => {
            return Err(e);
        },
    };
    proof {
        assert(top.grid() =~~= vandermonde(k as int, k as int));
        lemma_vandermonde_nonsingular(k as int);
    }
    let inv = match top.invert() {
        Ok(m) => m,
        Err(e) => {
            return Err(e);
        },
    };
    proof {
        crate::algebra::lemma_inverse_unique_matrix(top.grid(), inv.grid(), inverse_of(top.grid(), k as int), k as int);
    }
    vand.multiply(&inv)
}

} // verus!
