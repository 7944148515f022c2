//! Recovery from the Vandermonde-style (Reed-Solomon) encode matrix: below
//! the identity, row `k + i` holds `2^(i * j)` in column `j`.
//!
//! A recovery that has lost the sources `j_1 < .. < j_m` and kept the parity
//! rows `i_1 < .. < i_m` must solve the square system with entries
//! `2^(i_l * j_q)`. When the exponents on one side are spaced evenly, that
//! system is a Vandermonde system in disguise and has only the zero
//! solution:
//!
//! - evenly spaced parity rows give a transposed Vandermonde system, solved
//!   by eliminating one unknown at a time
//!   ([`lemma_power_system_trivial`]);
//! - evenly spaced missing columns give a polynomial with more distinct
//!   roots than coefficients ([`crate::compat::lemma_poly_roots`]).
//!
//! With at most three parity rows, or at most three sources, every such
//! selection is evenly spaced, so every recovery succeeds there. With four
//! parity rows the kept rows `0, 1, 3` and `0, 2, 3` of the parity block are
//! not; for at most 21 sources the field's small powers still force the
//! solution to zero ([`lemma_power_system_gap`]). With four sources the
//! missing columns `0, 1, 3` and `0, 2, 3` are not evenly spaced either: a
//! cubic without a square term (read directly, or reversed) cannot have
//! three roots whose sum is not zero ([`lemma_poly_gap`]). Five sources with
//! five parity rows leave finitely many other systems, each settled by a
//! certified inverse ([`crate::rs_five`]). Together these cover ISA-L's
//! whole safe region ([`vandermonde_safe_spec`]).

use vstd::prelude::*;

use crate::algebra::{lemma_xsum_ext, lemma_xsum_scale, lemma_xsum_single, lemma_xsum_xor, singular, xsum};
use crate::compat::{lemma_poly_division, lemma_poly_power_sum, lemma_poly_push, lemma_poly_roots, poly_eval, poly_quotient};
use crate::decode::{count_present, lemma_take_present, select_grid, take_present};
use crate::gf::{
    field_mul, field_pow, field_pow2, lemma_mul_associative, lemma_mul_commutative, lemma_mul_distributes_left,
    lemma_mul_units, lemma_pow2_add, lemma_pow2_injective, lemma_pow2_mod, lemma_pow2_nonzero, lemma_xor_units,
};
use crate::matrix::{grid_from, rs_entry, vandermonde_safe_spec};
use crate::mds::{
    block_dot, distinct_rows, increasing, lemma_no_zero_divisors, lemma_same_rows_nonsingular, lemma_selection_nonsingular,
    lemma_sorted_listing, membership, parity_blocks_trivial, parity_system, top_identity,
};

verus! {

/// `XOR_q zs[q]^e * w[q]`: row `e` of the transposed Vandermonde system on
/// the nodes `zs`.
pub open spec fn power_dot(e: nat, zs: Seq<u8>, w: Seq<u8>) -> u8 {
    xsum(zs.len() as int, |q: int| field_mul(field_pow(zs[q], e), w[q]))
}

/// The entries of `zs` are pairwise distinct.
pub open spec fn nodes_distinct(zs: Seq<u8>) -> bool {
    forall|a: int, b: int| #![trigger zs[a], zs[b]] 0 <= a < zs.len() && 0 <= b < zs.len() && a != b ==> zs[a] != zs[b]
}

/// The unknowns of one system, each scaled by its node's distance to the
/// last node (the last unknown dropped).
pub open spec fn eliminated(zs: Seq<u8>, w: Seq<u8>) -> Seq<u8> {
    Seq::new((zs.len() - 1) as nat, |q: int| field_mul(zs[q] ^ zs.last(), w[q]))
}

/// `(a * b) * c == b * (a * c)`.
proof fn lemma_mul_swap(a: u8, b: u8, c: u8)
    ensures
        field_mul(a, field_mul(b, c)) == field_mul(b, field_mul(a, c)),
{
    lemma_mul_commutative();
    lemma_mul_associative(a, b, c);
    lemma_mul_associative(b, a, c);
}

/// `x^e * ((x + z) * w) == x^(e + 1) * w + z * (x^e * w)`.
proof fn lemma_power_term(x: u8, z: u8, e: nat, w: u8)
    ensures
        field_mul(field_pow(x, e), field_mul(x ^ z, w)) == field_mul(field_pow(x, e + 1), w) ^ field_mul(
            z,
            field_mul(field_pow(x, e), w),
        ),
{
    let pe = field_pow(x, e);
    assert(field_pow(x, e + 1) == field_mul(pe, x));
    lemma_mul_distributes_left(x, z, w);
    let xw = field_mul(x, w);
    let zw = field_mul(z, w);
    assert(field_mul(pe, xw ^ zw) == field_mul(pe, xw) ^ field_mul(pe, zw)) by {
        crate::gf::lemma_mul_distributes_right();
    }
    lemma_mul_associative(pe, x, w);
    lemma_mul_swap(z, pe, w);
}

/// Row `e + 1` plus the last node times row `e` is row `e` of the
/// eliminated system.
#[verifier::rlimit(50)]
proof fn lemma_power_elimination(e: nat, zs: Seq<u8>, w: Seq<u8>)
    requires
        zs.len() == w.len(),
        zs.len() >= 1,
    ensures
        power_dot(e + 1, zs, w) ^ field_mul(zs.last(), power_dot(e, zs, w)) == power_dot(
            e,
            zs.drop_last(),
            eliminated(zs, w),
        ),
{
    let n = zs.len() as int;
    let z = zs.last();
    let f1 = |q: int| field_mul(field_pow(zs[q], e + 1), w[q]);
    let f0 = |q: int| field_mul(field_pow(zs[q], e), w[q]);
    let f2 = |q: int| field_mul(z, f0(q));
    let h = |q: int| field_mul(field_pow(zs[q], e), field_mul(zs[q] ^ z, w[q]));
    assert forall|q: int| 0 <= q < n implies #[trigger] h(q) == f1(q) ^ f2(q) by {
        lemma_power_term(zs[q], z, e, w[q]);
    }
    lemma_xsum_xor(n, f1, f2, h);
    lemma_xsum_scale(n, z, f0, f2);
    assert(h(n - 1) == 0) by {
        lemma_xor_units();
        lemma_mul_units();
        assert(zs[n - 1] ^ z == 0);
    }
    lemma_xor_units();
    assert(xsum(n, h) == xsum(n - 1, h));
    let zs2 = zs.drop_last();
    let w2 = eliminated(zs, w);
    lemma_xsum_ext(n - 1, h, |q: int| field_mul(field_pow(zs2[q], e), w2[q]));
    assert(power_dot(e + 1, zs, w) == xsum(n, f1));
    assert(power_dot(e, zs, w) == xsum(n, f0));
}

/// A transposed Vandermonde system on distinct nodes, with as many rows
/// `0, 1, .., m - 1` as unknowns, has only the zero solution.
#[verifier::rlimit(50)]
pub proof fn lemma_power_system_trivial(zs: Seq<u8>, w: Seq<u8>)
    requires
        zs.len() == w.len(),
        nodes_distinct(zs),
        forall|e: nat| e < zs.len() ==> #[trigger] power_dot(e, zs, w) == 0,
    ensures
        forall|q: int| 0 <= q < w.len() ==> #[trigger] w[q] == 0,
    decreases zs.len(),
{
    let n = zs.len() as int;
    if n > 0 {
        let z = zs.last();
        let zs2 = zs.drop_last();
        let w2 = eliminated(zs, w);
        assert forall|e: nat| e < zs2.len() implies #[trigger] power_dot(e, zs2, w2) == 0 by {
            lemma_power_elimination(e, zs, w);
            assert(power_dot(e + 1, zs, w) == 0);
            assert(power_dot(e, zs, w) == 0);
            lemma_mul_units();
            lemma_xor_units();
        }
        assert(nodes_distinct(zs2)) by {
            assert forall|a: int, b: int| 0 <= a < zs2.len() && 0 <= b < zs2.len() && a != b implies #[trigger] zs2[a]
                != #[trigger] zs2[b] by {
                assert(zs[a] != zs[b]);
            }
        }
        lemma_power_system_trivial(zs2, w2);
        assert forall|q: int| 0 <= q < n - 1 implies #[trigger] w[q] == 0 by {
            assert(w2[q] == 0);
            assert(zs[q] != zs[n - 1]);
            lemma_xor_units();
            lemma_no_zero_divisors(zs[q] ^ z, w[q]);
        }
        // Row 0 is now the last unknown alone.
        let f0 = |q: int| field_mul(field_pow(zs[q], 0), w[q]);
        lemma_mul_units();
        lemma_xsum_single(n, f0, n - 1);
        assert(power_dot(0, zs, w) == xsum(n, f0));
        assert(power_dot(0, zs, w) == 0);
    }
}

/// Raising a power of the generator multiplies its exponent.
pub proof fn lemma_pow_of_pow2(a: nat, b: nat)
    ensures
        field_pow(field_pow2(a), b) == field_pow2(a * b),
    decreases b,
{
    lemma_mul_units();
    if b > 0 {
        lemma_pow_of_pow2(a, (b - 1) as nat);
        lemma_pow2_add(a * (b - 1) as nat, a);
        assert(a * (b - 1) as nat + a == a * b) by (nonlinear_arith)
            requires
                b > 0,
        ;
    }
}

/// `2^((a + l * d) * j) == 2^(a * j) * (2^(d * j))^l`.
proof fn lemma_pow2_split(a: nat, l: nat, d: nat, j: nat)
    ensures
        field_pow2((a + l * d) * j) == field_mul(field_pow2(a * j), field_pow(field_pow2(d * j), l)),
{
    assert((a + l * d) * j == a * j + (d * j) * l) by (nonlinear_arith);
    lemma_pow2_add(a * j, (d * j) * l);
    lemma_pow_of_pow2(d * j, l);
}

/// Distinct exponents below 255, kept, doubled, or (below 85) tripled,
/// give distinct powers of the generator.
#[verifier::rlimit(50)]
proof fn lemma_pow2_spread(d: nat, u: nat, v: nat)
    requires
        1 <= d <= 3,
        u < 255,
        v < 255,
        d == 3 ==> u < 85 && v < 85,
        u != v,
    ensures
        field_pow2(d * u) != field_pow2(d * v),
{
    if d == 1 {
        assert(d * u == u && d * v == v);
        if field_pow2(u) == field_pow2(v) {
            lemma_pow2_injective(u, v);
        }
    } else if d == 3 {
        assert(d * u == 3 * u && d * v == 3 * v);
        if field_pow2(3 * u) == field_pow2(3 * v) {
            lemma_pow2_injective(3 * u, 3 * v);
        }
    } else {
        assert(d * u == 2 * u && d * v == 2 * v);
        lemma_pow2_mod(2 * u);
        lemma_pow2_mod(2 * v);
        let eu: nat = ((2 * u) % 255) as nat;
        let ev: nat = ((2 * v) % 255) as nat;
        assert(eu != ev);
        if field_pow2(2 * u) == field_pow2(2 * v) {
            lemma_pow2_injective(eu, ev);
        }
    }
}

/// The `(k + p) x k` Vandermonde-style encode matrix as rows.
pub open spec fn rs_grid(k: int, p: int) -> Seq<Seq<u8>> {
    grid_from(k + p, k, |i: int, j: int| rs_entry(k, i, j))
}

/// Parity row `k + i` holds `2^(i * j)` in column `j`.
pub(crate) proof fn lemma_rs_parity_entry(k: int, p: int, x: int, y: int)
    requires
        1 <= k,
        k <= x < k + p,
        0 <= y < k,
    ensures
        rs_grid(k, p)[x][y] == field_pow2(((x - k) * y) as nat),
{
    lemma_pow_of_pow2((x - k) as nat, y as nat);
}

/// Evenly spaced kept parity rows `k + a + l * d`: a square system on them
/// is a transposed Vandermonde system on the nodes `2^(d * j)` of the
/// missing columns `j`.
#[verifier::rlimit(50)]
pub(crate) proof fn lemma_rs_rows_spaced(k: int, p: int, xs: Seq<int>, ys: Seq<u8>, ws: Seq<u8>, a: nat, d: nat)
    requires
        1 <= k,
        1 <= p,
        k + p <= 255,
        1 <= d <= 3,
        d == 3 ==> k <= 85,
        parity_system(rs_grid(k, p), k, p, xs, ys, ws),
        forall|l: int| 0 <= l < xs.len() ==> #[trigger] xs[l] - k == a + l * d,
    ensures
        forall|q: int| 0 <= q < ws.len() ==> #[trigger] ws[q] == 0,
{
    let g = rs_grid(k, p);
    let m = xs.len() as int;
    if m > 0 {
        let zs = Seq::new(m as nat, |q: int| field_pow2(d * (ys[q] as nat)));
        let w2 = Seq::new(m as nat, |q: int| field_mul(field_pow2(a * (ys[q] as nat)), ws[q]));
        assert forall|e: nat| e < zs.len() implies #[trigger] power_dot(e, zs, w2) == 0 by {
            let x = xs[e as int];
            assert(block_dot(g, x, ys, ws) == 0);
            assert(x - k == a + e * d);
            assert forall|q: int| 0 <= q < m implies #[trigger] field_mul(g[x][ys[q] as int], ws[q]) == field_mul(
                field_pow(zs[q], e),
                w2[q],
            ) by {
                let j: nat = ys[q] as nat;
                lemma_rs_parity_entry(k, p, x, j as int);
                assert(((x - k) * j) as nat == (a + e * d) * j);
                lemma_pow2_split(a, e, d, j);
                lemma_mul_swap(field_pow2(a * j), field_pow(zs[q], e), ws[q]);
                lemma_mul_associative(field_pow2(a * j), field_pow(zs[q], e), ws[q]);
            }
            lemma_xsum_ext(
                m,
                |q: int| field_mul(g[x][ys[q] as int], ws[q]),
                |q: int| field_mul(field_pow(zs[q], e), w2[q]),
            );
        }
        assert(nodes_distinct(zs)) by {
            assert forall|u: int, v: int| 0 <= u < zs.len() && 0 <= v < zs.len() && u != v implies #[trigger] zs[u]
                != #[trigger] zs[v] by {
                if u < v {
                    assert(ys[u] < ys[v]);
                } else {
                    assert(ys[v] < ys[u]);
                }
                assert(ys[u] < k && ys[v] < k);
                lemma_pow2_spread(d, ys[u] as nat, ys[v] as nat);
            }
        }
        lemma_power_system_trivial(zs, w2);
        assert forall|q: int| 0 <= q < ws.len() implies #[trigger] ws[q] == 0 by {
            assert(w2[q] == 0);
            lemma_pow2_nonzero(a * (ys[q] as nat));
            lemma_no_zero_divisors(field_pow2(a * (ys[q] as nat)), ws[q]);
        }
    }
}

/// With at most three parity rows, the kept parity rows are evenly spaced.
#[verifier::rlimit(50)]
proof fn lemma_rs_blocks_few_parity(k: int, p: int, xs: Seq<int>, ys: Seq<u8>, ws: Seq<u8>)
    requires
        1 <= k,
        1 <= p <= 3,
        k + p <= 255,
        parity_system(rs_grid(k, p), k, p, xs, ys, ws),
    ensures
        forall|q: int| 0 <= q < ws.len() ==> #[trigger] ws[q] == 0,
{
    let m = xs.len() as int;
    if m > 0 {
        if m >= 4 {
            assert(xs[0] < xs[1] && xs[1] < xs[2] && xs[2] < xs[3]);
            assert(false);
        }
        let a: nat = (xs[0] - k) as nat;
        let d: nat = if m >= 2 { (xs[1] - xs[0]) as nat } else { 1 };
        assert(1 <= d <= 2) by {
            if m >= 2 {
                assert(xs[0] < xs[1]);
                if m == 3 {
                    assert(xs[1] < xs[2]);
                }
            }
        }
        assert forall|l: int| 0 <= l < m implies #[trigger] xs[l] - k == a + l * d by {
            if l == 1 {
                assert(1 * d == d);
            } else if l == 2 {
                assert(xs[0] < xs[1] && xs[1] < xs[2]);
                assert(2 * d == 2);
            }
        }
        lemma_rs_rows_spaced(k, p, xs, ys, ws, a, d);
    }
}

/// The one-node system left after two eliminations: row `e` is `z^e * u`.
proof fn lemma_power_dot_single(e: nat, zs: Seq<u8>, w: Seq<u8>)
    requires
        zs.len() == 1,
        w.len() == 1,
    ensures
        power_dot(e, zs, w) == field_mul(field_pow(zs[0], e), w[0]),
{
    lemma_xor_units();
    let f = |q: int| field_mul(field_pow(zs[q], e), w[q]);
    assert(xsum(1, f) == xsum(0, f) ^ f(0));
}

/// A transposed Vandermonde system on three distinct nodes that keeps rows
/// 0 and 3 and one of rows 1 and 2 (`skip` is the other) has only the zero
/// solution, provided the nodes' sum (row 2 skipped) or the sum of their
/// pairwise products (row 1 skipped) is not zero. Two eliminations leave a
/// single unknown that the missing row must carry, and the proviso forces
/// it, and with it the missing row, to zero.
#[verifier::rlimit(50)]
proof fn lemma_power_system_gap(zs: Seq<u8>, w: Seq<u8>, skip: nat)
    requires
        zs.len() == 3,
        w.len() == 3,
        nodes_distinct(zs),
        skip == 1 || skip == 2,
        forall|e: nat| e < 4 && e != skip ==> #[trigger] power_dot(e, zs, w) == 0,
        skip == 2 ==> zs[0] ^ zs[1] ^ zs[2] != 0,
        skip == 1 ==> field_mul(zs[0], zs[1]) ^ field_mul(zs[0], zs[2]) ^ field_mul(zs[1], zs[2]) != 0,
    ensures
        forall|q: int| 0 <= q < w.len() ==> #[trigger] w[q] == 0,
{
    let (z0, z1, z2) = (zs[0], zs[1], zs[2]);
    let zs2 = zs.drop_last();
    let w2 = eliminated(zs, w);
    let zs3 = zs2.drop_last();
    let w3 = eliminated(zs2, w2);
    let r = power_dot(skip, zs, w);
    let u = w3[0];
    lemma_mul_units();
    lemma_xor_units();
    // First elimination: E_e == R_(e+1) + z2 R_e.
    lemma_power_elimination(0, zs, w);
    lemma_power_elimination(1, zs, w);
    lemma_power_elimination(2, zs, w);
    // Second elimination: F_e == E_(e+1) + z1 E_e, and F_e == z0^e u.
    lemma_power_elimination(0, zs2, w2);
    lemma_power_elimination(1, zs2, w2);
    lemma_power_dot_single(0, zs3, w3);
    lemma_power_dot_single(1, zs3, w3);
    assert(zs2.last() == z1);
    assert(zs3[0] == z0);
    assert(field_pow(z0, 1) == z0);
    let e0 = power_dot(0, zs2, w2);
    let e1 = power_dot(1, zs2, w2);
    let e2 = power_dot(2, zs2, w2);
    lemma_mul_distributes_left(z1, z2, r);
    if skip == 2 {
        assert(power_dot(0, zs, w) == 0 && power_dot(1, zs, w) == 0 && power_dot(3, zs, w) == 0);
        assert(e0 == 0);
        assert(e1 == r);
        assert(e2 == field_mul(z2, r));
        assert(u == r);
        assert(field_mul(z0, r) == field_mul(z1 ^ z2, r));
        lemma_mul_distributes_left(z0, z1 ^ z2, r);
        assert((z0 ^ (z1 ^ z2)) == (z0 ^ z1 ^ z2)) by {
            crate::gf::lemma_xor_laws();
        }
        assert(field_mul(z0 ^ z1 ^ z2, r) == 0);
    } else {
        assert(power_dot(0, zs, w) == 0 && power_dot(2, zs, w) == 0 && power_dot(3, zs, w) == 0);
        assert(e0 == r);
        assert(e1 == field_mul(z2, r));
        assert(e2 == 0);
        assert(u == field_mul(z1 ^ z2, r));
        lemma_mul_associative(z1, z2, r);
        assert(field_mul(z0, u) == field_mul(field_mul(z1, z2), r));
        lemma_mul_associative(z0, z1 ^ z2, r);
        crate::gf::lemma_mul_distributes_right();
        assert(field_mul(z0, z1 ^ z2) == field_mul(z0, z1) ^ field_mul(z0, z2));
        let s01 = field_mul(z0, z1);
        let s02 = field_mul(z0, z2);
        let s12 = field_mul(z1, z2);
        lemma_mul_distributes_left(s01 ^ s02, s12, r);
        assert(field_mul(s01 ^ s02 ^ s12, r) == 0);
    }
    if r != 0 {
        let c = if skip == 2 { z0 ^ z1 ^ z2 } else { field_mul(z0, z1) ^ field_mul(z0, z2) ^ field_mul(z1, z2) };
        lemma_no_zero_divisors(c, r);
    }
    assert forall|e: nat| e < zs.len() implies #[trigger] power_dot(e, zs, w) == 0 by {
    }
    lemma_power_system_trivial(zs, w);
}

/// Parity row `k + e` on the missing columns `ys` is row `e` of the
/// transposed Vandermonde system on the nodes `2^j`.
#[verifier::rlimit(50)]
proof fn lemma_rs_row_as_power(k: int, p: int, x: int, ys: Seq<u8>, ws: Seq<u8>)
    requires
        1 <= k,
        k <= x < k + p,
        ws.len() == ys.len(),
        forall|q: int| 0 <= q < ys.len() ==> #[trigger] ys[q] < k,
    ensures
        block_dot(rs_grid(k, p), x, ys, ws) == power_dot(
            (x - k) as nat,
            Seq::new(ys.len(), |q: int| field_pow2(ys[q] as nat)),
            ws,
        ),
{
    let g = rs_grid(k, p);
    let e: nat = (x - k) as nat;
    let zs = Seq::new(ys.len(), |q: int| field_pow2(ys[q] as nat));
    assert forall|q: int| 0 <= q < ys.len() implies #[trigger] field_mul(g[x][ys[q] as int], ws[q]) == field_mul(
        field_pow(zs[q], e),
        ws[q],
    ) by {
        let j = ys[q] as int;
        lemma_rs_parity_entry(k, p, x, j);
        lemma_pow_of_pow2(j as nat, e);
        assert(((x - k) * j) as nat == (j as nat) * e) by (nonlinear_arith)
            requires
                x - k == e,
                j >= 0,
        ;
    }
    lemma_xsum_ext(
        ys.len() as int,
        |q: int| field_mul(g[x][ys[q] as int], ws[q]),
        |q: int| field_mul(field_pow(zs[q], e), ws[q]),
    );
}

/// At most 21 sources, kept parity rows `0, 1, 3` or `0, 2, 3` of the
/// parity block: the field's small powers keep the system solvable.
#[verifier::rlimit(50)]
pub(crate) proof fn lemma_rs_gap_rows(k: int, p: int, xs: Seq<int>, ys: Seq<u8>, ws: Seq<u8>, d: nat)
    requires
        1 <= k <= 21,
        4 <= p <= 5,
        parity_system(rs_grid(k, p), k, p, xs, ys, ws),
        xs.len() == 3,
        xs[0] == k,
        xs[2] == k + 3,
        d == xs[1] - xs[0],
        xs[2] - xs[1] != d,
    ensures
        forall|q: int| 0 <= q < ws.len() ==> #[trigger] ws[q] == 0,
{
    let g = rs_grid(k, p);
    assert(xs[0] < xs[1] && xs[1] < xs[2]);
    let skip: nat = if d == 1 { 2 } else { 1 };
    assert(xs[0] == k);
    assert(xs[2] == k + 3);
    let zs = Seq::new(3, |q: int| field_pow2(ys[q] as nat));
    assert forall|e: nat| e < 4 && e != skip implies #[trigger] power_dot(e, zs, ws) == 0 by {
        let l: int = if e == 0 { 0 } else if e == 3 { 2 } else { 1 };
        let x = xs[l];
        assert(x == k + e);
        assert(block_dot(g, x, ys, ws) == 0);
        lemma_rs_row_as_power(k, p, x, ys, ws);
    }
    let (j0, j1, j2) = (ys[0] as nat, ys[1] as nat, ys[2] as nat);
    assert(j0 < j1 && j1 < j2 && j2 < 21) by {
        assert(ys[0] < ys[1] && ys[1] < ys[2]);
        assert(ys[2] < k);
    }
    assert(nodes_distinct(zs)) by {
        assert forall|u: int, v: int| 0 <= u < 3 && 0 <= v < 3 && u != v implies #[trigger] zs[u]
            != #[trigger] zs[v] by {
            if zs[u] == zs[v] {
                lemma_pow2_injective(ys[u] as nat, ys[v] as nat);
            }
        }
    }
    if skip == 2 {
        crate::gf::lemma_three_powers(j0, (j1 - j0) as nat, (j2 - j0) as nat);
    } else {
        lemma_pow2_add(j0, j1);
        lemma_pow2_add(j0, j2);
        lemma_pow2_add(j1, j2);
        crate::gf::lemma_three_powers(j0 + j1, (j2 - j1) as nat, (j2 - j0) as nat);
    }
    lemma_power_system_gap(zs, ws, skip);
}

/// Evenly spaced kept parity rows out of four: `xs[l] == xs[0] + l * d`.
proof fn lemma_four_rows_spaced(xs: Seq<int>, k: int, d: nat, l: int)
    requires
        1 <= xs.len() <= 4,
        0 <= l < xs.len(),
        forall|t: int| 0 <= t < xs.len() ==> k <= #[trigger] xs[t] < k + 4,
        forall|a: int, b: int| #![trigger xs[a], xs[b]] 0 <= a < b < xs.len() ==> xs[a] < xs[b],
        d == if xs.len() >= 2 { (xs[1] - xs[0]) as nat } else { 1 },
        xs.len() == 3 ==> xs[2] - xs[1] == d,
    ensures
        xs[l] == xs[0] + l * d,
{
    if l == 1 {
        assert(1 * d == d);
    } else if l == 2 {
        assert(xs[0] < xs[1] && xs[1] < xs[2]);
        if xs.len() == 4 {
            assert(xs[2] < xs[3] && xs[3] < k + 4);
        }
        assert(2 * d == d + d);
    } else if l == 3 {
        assert(xs[0] < xs[1] && xs[1] < xs[2] && xs[2] < xs[3] && xs[3] < k + 4);
        assert(3 * d == d + d + d);
    }
}

/// With four parity rows and at most 21 sources, the kept parity rows are
/// evenly spaced, or they are rows `0, 1, 3` or `0, 2, 3` of the parity
/// block ([`lemma_rs_gap_rows`]).
#[verifier::rlimit(50)]
proof fn lemma_rs_blocks_four_parity(k: int, p: int, xs: Seq<int>, ys: Seq<u8>, ws: Seq<u8>)
    requires
        1 <= k <= 21,
        p == 4,
        parity_system(rs_grid(k, p), k, p, xs, ys, ws),
    ensures
        forall|q: int| 0 <= q < ws.len() ==> #[trigger] ws[q] == 0,
{
    let m = xs.len() as int;
    if m > 0 {
        if m >= 5 {
            assert(xs[0] < xs[1] && xs[1] < xs[2] && xs[2] < xs[3] && xs[3] < xs[4]);
            assert(false);
        }
        let a: nat = (xs[0] - k) as nat;
        let d: nat = if m >= 2 { (xs[1] - xs[0]) as nat } else { 1 };
        if m == 3 && xs[2] - xs[1] != d {
            assert(xs[0] < xs[1] && xs[1] < xs[2]);
            assert(k <= xs[0] && xs[2] < k + 4);
            assert(xs[0] == k && xs[2] == k + 3);
            lemma_rs_gap_rows(k, p, xs, ys, ws, d);
        } else {
            assert(1 <= d <= 3) by {
                if m >= 2 {
                    assert(xs[0] < xs[1]);
                    assert(k <= xs[0] && xs[1] < k + 4);
                }
            }
            assert forall|l: int| 0 <= l < m implies #[trigger] xs[l] - k == a + l * d by {
                lemma_four_rows_spaced(xs, k, d, l);
            }
            lemma_rs_rows_spaced(k, p, xs, ys, ws, a, d);
        }
    }
}

/// `(a + b) + c == (c + b) + a`.
proof fn lemma_xor_rotate(a: u8, b: u8, c: u8)
    ensures
        (a ^ b) ^ c == (c ^ b) ^ a,
{
    crate::gf::lemma_xor_laws();
    assert((a ^ b) ^ c == a ^ (b ^ c));
    assert((c ^ b) ^ a == a ^ (c ^ b));
}

/// A constant polynomial evaluates to its coefficient.
proof fn lemma_eval_constant(w: Seq<u8>, z: u8)
    requires
        w.len() == 1,
    ensures
        poly_eval(w, z) == w[0],
{
    assert(w.drop_first().len() == 0);
    assert(poly_eval(w.drop_first(), z) == 0);
    lemma_mul_units();
    lemma_xor_units();
}

/// A linear polynomial: `w0 + z w1`, and its quotient by `z + x0` is `w1`.
proof fn lemma_linear(w: Seq<u8>, x0: u8, z: u8)
    requires
        w.len() == 2,
    ensures
        poly_eval(w, z) == w[0] ^ field_mul(z, w[1]),
        poly_quotient(w, x0) == seq![w[1]],
{
    let r = w.drop_first();
    lemma_eval_constant(r, z);
    lemma_eval_constant(r, x0);
    assert(r.len() == 1);
    assert(poly_quotient(r, x0) =~= Seq::<u8>::empty());
    assert(poly_quotient(w, x0) =~= seq![w[1]]);
}

/// The quotient of a quadratic by `z + x0`: `(w1 + x0 w2) + w2 z`.
proof fn lemma_quadratic_quotient(w: Seq<u8>, x0: u8)
    requires
        w.len() == 3,
    ensures
        poly_quotient(w, x0) == seq![w[1] ^ field_mul(x0, w[2]), w[2]],
{
    let r = w.drop_first();
    lemma_linear(r, x0, x0);
    assert(poly_quotient(w, x0) =~= seq![w[1] ^ field_mul(x0, w[2]), w[2]]);
}

/// The quotient of a cubic by `z + x0` has `w2 + x0 w3` and `w3` on top.
proof fn lemma_cubic_quotient(w: Seq<u8>, x0: u8)
    requires
        w.len() == 4,
    ensures
        poly_quotient(w, x0).len() == 3,
        poly_quotient(w, x0)[1] == w[2] ^ field_mul(x0, w[3]),
        poly_quotient(w, x0)[2] == w[3],
{
    let r = w.drop_first();
    lemma_quadratic_quotient(r, x0);
    let q = poly_quotient(w, x0);
    assert(q == seq![poly_eval(r, x0)] + poly_quotient(r, x0));
}

/// A polynomial vanishing at `x0` and at `y != x0` has a quotient by
/// `z + x0` that vanishes at `y`.
proof fn lemma_root_passes(w: Seq<u8>, x0: u8, y: u8)
    requires
        poly_eval(w, x0) == 0,
        poly_eval(w, y) == 0,
        y != x0,
    ensures
        poly_eval(poly_quotient(w, x0), y) == 0,
{
    lemma_poly_division(w, x0, y);
    lemma_xor_units();
    lemma_no_zero_divisors(y ^ x0, poly_eval(poly_quotient(w, x0), y));
}

/// A cubic `a0 + a1 z + a2 z^2 + a3 z^3` that vanishes at three distinct
/// nodes has `a2 == (y2 + y1 + y0) a3`: dividing out two roots leaves the
/// linear factor whose root is the third.
#[verifier::rlimit(50)]
proof fn lemma_cubic_three_roots(w: Seq<u8>, ys: Seq<u8>)
    requires
        w.len() == 4,
        ys.len() == 3,
        nodes_distinct(ys),
        forall|l: int| 0 <= l < 3 ==> #[trigger] poly_eval(w, ys[l]) == 0,
    ensures
        w[2] ^ field_mul((ys[2] ^ ys[1]) ^ ys[0], w[3]) == 0,
{
    let (y0, y1, y2) = (ys[0], ys[1], ys[2]);
    assert(poly_eval(w, ys[0]) == 0 && poly_eval(w, ys[1]) == 0 && poly_eval(w, ys[2]) == 0);
    assert(y0 != y2 && y1 != y2 && y0 != y1);
    let q = poly_quotient(w, y2);
    lemma_root_passes(w, y2, y0);
    lemma_root_passes(w, y2, y1);
    let q2 = poly_quotient(q, y1);
    lemma_root_passes(q, y1, y0);
    lemma_cubic_quotient(w, y2);
    let c1 = w[2] ^ field_mul(y2, w[3]);
    lemma_quadratic_quotient(q, y1);
    assert(q2 == seq![c1 ^ field_mul(y1, w[3]), w[3]]);
    lemma_linear(q2, y0, y0);
    let t2 = field_mul(y2, w[3]);
    let t1 = field_mul(y1, w[3]);
    let t0 = field_mul(y0, w[3]);
    assert(((w[2] ^ t2) ^ t1) ^ t0 == 0);
    lemma_mul_distributes_left(y2 ^ y1, y0, w[3]);
    lemma_mul_distributes_left(y2, y1, w[3]);
    assert(((w[2] ^ t2) ^ t1) ^ t0 == w[2] ^ ((t2 ^ t1) ^ t0)) by {
        crate::gf::lemma_xor_laws();
    }
}

/// A polynomial `a0 + a1 z + a3 z^3` (no square term) with three distinct
/// roots whose sum is not zero is zero.
#[verifier::rlimit(50)]
proof fn lemma_poly_gap(w: Seq<u8>, ys: Seq<u8>)
    requires
        w.len() == 4,
        w[2] == 0,
        ys.len() == 3,
        nodes_distinct(ys),
        (ys[2] ^ ys[1]) ^ ys[0] != 0,
        forall|l: int| 0 <= l < 3 ==> #[trigger] poly_eval(w, ys[l]) == 0,
    ensures
        forall|c: int| 0 <= c < 4 ==> #[trigger] w[c] == 0,
{
    lemma_cubic_three_roots(w, ys);
    lemma_xor_units();
    lemma_no_zero_divisors((ys[2] ^ ys[1]) ^ ys[0], w[3]);
    assert(w[3] == 0);
    let low = seq![w[0], w[1]];
    assert(low.push(0u8).push(0u8) =~= w);
    assert forall|l: int| 0 <= l < 3 implies #[trigger] poly_eval(low, ys[l]) == 0 by {
        lemma_poly_push(low, 0u8, ys[l]);
        lemma_poly_push(low.push(0u8), 0u8, ys[l]);
        lemma_mul_units();
    }
    assert forall|a: int, b: int| #![trigger ys[a], ys[b]] 0 <= a < ys.len() && 0 <= b < ys.len() && a != b implies ys[a]
        != ys[b] by {
    }
    lemma_poly_roots(low, ys);
    assert(w[0] == low[0] && w[1] == low[1]);
}

/// A sum of three terms.
proof fn lemma_xsum_three(f: spec_fn(int) -> u8)
    ensures
        xsum(3, f) == (f(0) ^ f(1)) ^ f(2),
{
    lemma_xor_units();
    assert(xsum(1, f) == xsum(0, f) ^ f(0));
    assert(xsum(2, f) == xsum(1, f) ^ f(1));
    assert(xsum(3, f) == xsum(2, f) ^ f(2));
}

/// A cubic, term by term.
proof fn lemma_poly_four(w: Seq<u8>, y: u8)
    requires
        w.len() == 4,
    ensures
        poly_eval(w, y) == ((w[0] ^ field_mul(y, w[1])) ^ field_mul(field_pow(y, 2), w[2])) ^ field_mul(
            field_pow(y, 3),
            w[3],
        ),
{
    let f = |c: int| field_mul(field_pow(y, c as nat), w[c]);
    lemma_poly_power_sum(w, y);
    lemma_xsum_three(f);
    assert(xsum(4, f) == xsum(3, f) ^ f(3));
    lemma_mul_units();
    assert(field_pow(y, 0) == 1);
    assert(field_pow(y, 1) == field_mul(field_pow(y, 0), y));
}

/// Missing columns `0, 1, 3` of four or five sources: row `k + i` reads the
/// polynomial `w0 + w1 z + w2 z^3` at `2^i`.
#[verifier::rlimit(50)]
proof fn lemma_rs_row_cols_013(k: int, p: int, x: int, ys: Seq<u8>, ws: Seq<u8>)
    requires
        4 <= k <= 5,
        1 <= p,
        k <= x < k + p,
        ys == seq![0u8, 1u8, 3u8],
        ws.len() == 3,
    ensures
        block_dot(rs_grid(k, p), x, ys, ws) == poly_eval(
            seq![ws[0], ws[1], 0u8, ws[2]],
            field_pow2((x - k) as nat),
        ),
{
    let g = rs_grid(k, p);
    let i: nat = (x - k) as nat;
    let y = field_pow2(i);
    let w = seq![ws[0], ws[1], 0u8, ws[2]];
    lemma_rs_parity_entry(k, p, x, 0);
    lemma_rs_parity_entry(k, p, x, 1);
    lemma_rs_parity_entry(k, p, x, 3);
    lemma_pow_of_pow2(i, 3);
    assert(((x - k) * 0) as nat == 0);
    assert(((x - k) * 1) as nat == i);
    assert(((x - k) * 3) as nat == i * 3);
    lemma_xsum_three(|q: int| field_mul(g[x][ys[q] as int], ws[q]));
    lemma_poly_four(w, y);
    lemma_mul_units();
    lemma_xor_units();
}

/// `c (((t0 + t1) + t2) + t3) == ((c t0 + c t1) + c t2) + c t3`.
proof fn lemma_scale_four(c: u8, t0: u8, t1: u8, t2: u8, t3: u8)
    ensures
        field_mul(c, ((t0 ^ t1) ^ t2) ^ t3) == ((field_mul(c, t0) ^ field_mul(c, t1)) ^ field_mul(c, t2)) ^ field_mul(
            c,
            t3,
        ),
{
    crate::gf::lemma_mul_distributes_right();
}

/// `2^(3i) * 2^(255 - i) == 2^(2i)` and `2^(3i) * (2^(255 - i))^3 == 1`.
proof fn lemma_reversal_factors(i: nat)
    requires
        i < 85,
    ensures
        field_mul(field_pow2(3 * i), field_pow2((255 - i) as nat)) == field_pow2(2 * i),
        field_mul(field_pow2(3 * i), field_pow(field_pow2((255 - i) as nat), 3)) == 1,
{
    lemma_pow2_add(3 * i, (255 - i) as nat);
    lemma_pow2_mod(3 * i + (255 - i) as nat);
    assert((3 * i + (255 - i) as nat) % 255 == 2 * i);
    lemma_pow_of_pow2((255 - i) as nat, 3);
    lemma_pow2_add(3 * i, ((255 - i) as nat * 3) as nat);
    assert(3 * i + (255 - i) as nat * 3 == 765);
    lemma_pow2_add(255, 510);
    lemma_pow2_add(255, 255);
    crate::gf::lemma_pow2_255();
    lemma_mul_units();
}

/// Missing columns `0, 2, 3` of four or five sources: row `k + i` is `2^(3i)`
/// times the reversed polynomial `w2 + w1 z + w0 z^3` read at `2^(255 - i)`.
#[verifier::rlimit(50)]
proof fn lemma_rs_row_cols_023(k: int, p: int, x: int, ys: Seq<u8>, ws: Seq<u8>)
    requires
        4 <= k <= 5,
        1 <= p <= 21,
        k <= x < k + p,
        ys == seq![0u8, 2u8, 3u8],
        ws.len() == 3,
    ensures
        block_dot(rs_grid(k, p), x, ys, ws) == field_mul(
            field_pow2((3 * (x - k)) as nat),
            poly_eval(seq![ws[2], ws[1], 0u8, ws[0]], field_pow2((255 - (x - k)) as nat)),
        ),
{
    let g = rs_grid(k, p);
    let i: nat = (x - k) as nat;
    let c = field_pow2(3 * i);
    let y = field_pow2((255 - i) as nat);
    let w = seq![ws[2], ws[1], 0u8, ws[0]];
    let t0 = ws[2];
    let t1 = field_mul(y, ws[1]);
    let t2 = field_mul(field_pow(y, 2), 0u8);
    let t3 = field_mul(field_pow(y, 3), ws[0]);
    assert(block_dot(g, x, ys, ws) == (ws[0] ^ field_mul(field_pow2(2 * i), ws[1])) ^ field_mul(c, ws[2])) by {
        lemma_rs_parity_entry(k, p, x, 0);
        lemma_rs_parity_entry(k, p, x, 2);
        lemma_rs_parity_entry(k, p, x, 3);
        assert(((x - k) * 0) as nat == 0);
        assert(((x - k) * 2) as nat == 2 * i);
        assert(((x - k) * 3) as nat == 3 * i);
        lemma_xsum_three(|q: int| field_mul(g[x][ys[q] as int], ws[q]));
        lemma_mul_units();
        lemma_xor_units();
    }
    assert(poly_eval(w, y) == ((t0 ^ t1) ^ t2) ^ t3) by {
        lemma_poly_four(w, y);
    }
    lemma_scale_four(c, t0, t1, t2, t3);
    lemma_reversal_factors(i);
    assert(field_mul(c, t1) == field_mul(field_pow2(2 * i), ws[1])) by {
        lemma_mul_associative(c, y, ws[1]);
    }
    assert(field_mul(c, t3) == ws[0]) by {
        lemma_mul_associative(c, field_pow(y, 3), ws[0]);
        lemma_mul_units();
    }
    assert(field_mul(c, t2) == 0) by {
        lemma_mul_units();
    }
    lemma_xor_units();
    lemma_xor_rotate(field_mul(c, t0), field_mul(c, t1), ws[0]);
}

/// Missing columns `0, 1, 3` of four or five sources.
#[verifier::rlimit(50)]
pub(crate) proof fn lemma_rs_gap_cols_013(k: int, p: int, xs: Seq<int>, ys: Seq<u8>, ws: Seq<u8>)
    requires
        4 <= k <= 5,
        1 <= p <= 21,
        parity_system(rs_grid(k, p), k, p, xs, ys, ws),
        ys == seq![0u8, 1u8, 3u8],
    ensures
        forall|q: int| 0 <= q < ws.len() ==> #[trigger] ws[q] == 0,
{
    let g = rs_grid(k, p);
    assert(xs[0] < xs[1] && xs[1] < xs[2]);
    assert(k <= xs[0] && xs[2] < k + p);
    let i0: nat = (xs[0] - k) as nat;
    let i1: nat = (xs[1] - k) as nat;
    let i2: nat = (xs[2] - k) as nat;
    let w = seq![ws[0], ws[1], 0u8, ws[2]];
    let ns = seq![field_pow2(i2), field_pow2(i1), field_pow2(i0)];
    assert forall|l: int| 0 <= l < 3 implies #[trigger] poly_eval(w, ns[l]) == 0 by {
        let x = xs[2 - l];
        assert(block_dot(g, x, ys, ws) == 0);
        lemma_rs_row_cols_013(k, p, x, ys, ws);
    }
    assert(nodes_distinct(ns)) by {
        assert forall|u: int, v: int| 0 <= u < 3 && 0 <= v < 3 && u != v implies #[trigger] ns[u]
            != #[trigger] ns[v] by {
            if ns[u] == ns[v] {
                lemma_pow2_injective((xs[2 - u] - k) as nat, (xs[2 - v] - k) as nat);
            }
        }
    }
    crate::gf::lemma_three_powers(i0, (i1 - i0) as nat, (i2 - i0) as nat);
    lemma_poly_gap(w, ns);
    assert(ws[0] == w[0] && ws[1] == w[1] && ws[2] == w[3]);
}

/// `2^(255 - i)` for distinct `i0 < i1 < i2 < 255` are distinct.
#[verifier::rlimit(50)]
proof fn lemma_reversed_nodes_distinct(i0: nat, i1: nat, i2: nat)
    requires
        i0 < i1 < i2 < 255,
    ensures
        nodes_distinct(
            seq![field_pow2((255 - i0) as nat), field_pow2((255 - i1) as nat), field_pow2((255 - i2) as nat)],
        ),
{
    let is = seq![i0, i1, i2];
    let ns = seq![field_pow2((255 - i0) as nat), field_pow2((255 - i1) as nat), field_pow2((255 - i2) as nat)];
    assert forall|u: int, v: int| 0 <= u < 3 && 0 <= v < 3 && u != v implies #[trigger] ns[u] != #[trigger] ns[v] by {
        let eu: nat = (255 - is[u]) as nat;
        let ev: nat = (255 - is[v]) as nat;
        assert(ns[u] == field_pow2(eu) && ns[v] == field_pow2(ev));
        lemma_pow2_mod(eu);
        lemma_pow2_mod(ev);
        if ns[u] == ns[v] {
            lemma_pow2_injective((eu % 255) as nat, (ev % 255) as nat);
        }
    }
}

/// Missing columns `0, 2, 3` of four or five sources.
#[verifier::rlimit(50)]
pub(crate) proof fn lemma_rs_gap_cols_023(k: int, p: int, xs: Seq<int>, ys: Seq<u8>, ws: Seq<u8>)
    requires
        4 <= k <= 5,
        1 <= p <= 21,
        parity_system(rs_grid(k, p), k, p, xs, ys, ws),
        ys == seq![0u8, 2u8, 3u8],
    ensures
        forall|q: int| 0 <= q < ws.len() ==> #[trigger] ws[q] == 0,
{
    let g = rs_grid(k, p);
    assert(xs[0] < xs[1] && xs[1] < xs[2]);
    assert(k <= xs[0] && xs[2] < k + p);
    let i0: nat = (xs[0] - k) as nat;
    let i1: nat = (xs[1] - k) as nat;
    let i2: nat = (xs[2] - k) as nat;
    let w = seq![ws[2], ws[1], 0u8, ws[0]];
    let ns = seq![
        field_pow2((255 - i0) as nat),
        field_pow2((255 - i1) as nat),
        field_pow2((255 - i2) as nat),
    ];
    assert forall|l: int| 0 <= l < 3 implies #[trigger] poly_eval(w, ns[l]) == 0 by {
        let x = xs[l];
        assert(block_dot(g, x, ys, ws) == 0);
        lemma_rs_row_cols_023(k, p, x, ys, ws);
        lemma_pow2_nonzero((3 * (x - k)) as nat);
        lemma_no_zero_divisors(field_pow2((3 * (x - k)) as nat), poly_eval(w, ns[l]));
    }
    lemma_reversed_nodes_distinct(i0, i1, i2);
    crate::gf::lemma_three_powers((255 - i2) as nat, (i2 - i1) as nat, (i2 - i0) as nat);
    lemma_poly_gap(w, ns);
    assert(ws[0] == w[3] && ws[1] == w[1] && ws[2] == w[0]);
}

/// Evenly spaced columns of four sources: `ys[q] == ys[0] + q * d`.
proof fn lemma_four_cols_spaced(ys: Seq<u8>, k: int, d: nat, q: int)
    requires
        k == 4,
        1 <= ys.len() <= 4,
        0 <= q < ys.len(),
        forall|t: int| 0 <= t < ys.len() ==> #[trigger] ys[t] < k,
        forall|a: int, b: int| #![trigger ys[a], ys[b]] 0 <= a < b < ys.len() ==> ys[a] < ys[b],
        d == if ys.len() >= 2 { (ys[1] - ys[0]) as nat } else { 1 },
        ys.len() == 3 ==> ys[2] - ys[1] == d,
    ensures
        ys[q] == ys[0] + q * d,
{
    if q == 1 {
        assert(1 * d == d);
    } else if q == 2 {
        assert(ys[0] < ys[1] && ys[1] < ys[2]);
        if ys.len() == 4 {
            assert(ys[2] < ys[3] && ys[3] < k);
        }
        assert(2 * d == d + d);
    } else if q == 3 {
        assert(ys[0] < ys[1] && ys[1] < ys[2] && ys[2] < ys[3] && ys[3] < k);
        assert(3 * d == d + d + d);
    }
}

/// With four sources and at most 21 parity rows, the missing columns are
/// evenly spaced, or they are columns `0, 1, 3` or `0, 2, 3`: a polynomial
/// without a square term (directly, or reversed) with three roots whose
/// sum the field's small powers keep from zero.
#[verifier::rlimit(50)]
proof fn lemma_rs_blocks_four_sources(k: int, p: int, xs: Seq<int>, ys: Seq<u8>, ws: Seq<u8>)
    requires
        k == 4,
        1 <= p <= 21,
        parity_system(rs_grid(k, p), k, p, xs, ys, ws),
    ensures
        forall|q: int| 0 <= q < ws.len() ==> #[trigger] ws[q] == 0,
{
    let g = rs_grid(k, p);
    let m = ys.len() as int;
    if m > 0 {
        if m >= 5 {
            assert(ys[0] < ys[1] && ys[1] < ys[2] && ys[2] < ys[3] && ys[3] < ys[4]);
            assert(ys[4] < k);
            assert(false);
        }
        let b: nat = ys[0] as nat;
        let d: nat = if m >= 2 { (ys[1] - ys[0]) as nat } else { 1 };
        if m == 3 && ys[2] - ys[1] != d {
            assert(ys[0] < ys[1] && ys[1] < ys[2] && ys[2] < 4);
            assert(xs[0] < xs[1] && xs[1] < xs[2]);
            assert(k <= xs[0] && xs[2] < k + p);
            if d == 1 {
                assert(ys =~= seq![0u8, 1u8, 3u8]);
                lemma_rs_gap_cols_013(k, p, xs, ys, ws);
            } else {
                assert(ys =~= seq![0u8, 2u8, 3u8]);
                lemma_rs_gap_cols_023(k, p, xs, ys, ws);
            }
        } else {
            assert(1 <= d <= 3) by {
                if m >= 2 {
                    assert(ys[0] < ys[1] && ys[1] < k);
                }
            }
            assert forall|q: int| 0 <= q < m implies #[trigger] ys[q] == b + q * d by {
                lemma_four_cols_spaced(ys, k, d, q);
            }
            lemma_rs_cols_spaced(k, p, xs, ys, ws, b, d);
        }
    }
}

/// With at most three sources, the missing columns are evenly spaced.
#[verifier::rlimit(50)]
proof fn lemma_rs_blocks_few_sources(k: int, p: int, xs: Seq<int>, ys: Seq<u8>, ws: Seq<u8>)
    requires
        1 <= k <= 3,
        1 <= p,
        k + p <= 255,
        parity_system(rs_grid(k, p), k, p, xs, ys, ws),
    ensures
        forall|q: int| 0 <= q < ws.len() ==> #[trigger] ws[q] == 0,
{
    let m = ys.len() as int;
    if m > 0 {
        if m >= 4 {
            assert(ys[0] < ys[1] && ys[1] < ys[2] && ys[2] < ys[3]);
            assert(false);
        }
        let b: nat = ys[0] as nat;
        let d: nat = if m >= 2 { (ys[1] - ys[0]) as nat } else { 1 };
        assert(1 <= d <= 2) by {
            if m >= 2 {
                assert(ys[0] < ys[1]);
                if m == 3 {
                    assert(ys[1] < ys[2]);
                }
            }
        }
        assert forall|q: int| 0 <= q < m implies #[trigger] ys[q] == b + q * d by {
            if q == 1 {
                assert(ys[0] < ys[1]);
                assert(1 * d == d);
            } else if q == 2 {
                assert(ys[0] < ys[1] && ys[1] < ys[2]);
                assert(ys[2] < k);
                assert(2 * d == 2);
            }
        }
        lemma_rs_cols_spaced(k, p, xs, ys, ws, b, d);
    }
}

/// Evenly spaced missing columns `b + q * d`: a square system on them says
/// that a polynomial with the unknowns as coefficients vanishes at the
/// distinct nodes `2^(d * i)` of the kept parity rows `k + i`.
#[verifier::rlimit(50)]
pub(crate) proof fn lemma_rs_cols_spaced(k: int, p: int, xs: Seq<int>, ys: Seq<u8>, ws: Seq<u8>, b: nat, d: nat)
    requires
        1 <= k,
        1 <= p,
        k + p <= 255,
        1 <= d <= 3,
        d == 3 ==> p <= 85,
        parity_system(rs_grid(k, p), k, p, xs, ys, ws),
        forall|q: int| 0 <= q < ys.len() ==> #[trigger] ys[q] == b + q * d,
    ensures
        forall|q: int| 0 <= q < ws.len() ==> #[trigger] ws[q] == 0,
{
    let g = rs_grid(k, p);
    let m = ys.len() as int;
    if m > 0 {
        let nodes = Seq::new(m as nat, |l: int| field_pow2(d * ((xs[l] - k) as nat)));
        assert forall|l: int| 0 <= l < nodes.len() implies #[trigger] poly_eval(ws, nodes[l]) == 0 by {
            let x = xs[l];
            let i: nat = (x - k) as nat;
            let z = nodes[l];
            let c = field_pow2(b * i);
            assert(block_dot(g, x, ys, ws) == 0);
            assert forall|q: int| 0 <= q < m implies #[trigger] field_mul(g[x][ys[q] as int], ws[q]) == field_mul(
                c,
                field_mul(field_pow(z, q as nat), ws[q]),
            ) by {
                let j = ys[q] as int;
                lemma_rs_parity_entry(k, p, x, j);
                assert(((x - k) * j) as nat == (b + (q as nat) * d) * i) by (nonlinear_arith)
                    requires
                        j == b + q * d,
                        i == x - k,
                        0 <= q,
                        x >= k,
                ;
                lemma_pow2_split(b, q as nat, d, i);
                lemma_mul_associative(c, field_pow(z, q as nat), ws[q]);
            }
            let terms = |q: int| field_mul(field_pow(z, q as nat), ws[q]);
            lemma_xsum_scale(m, c, terms, |q: int| field_mul(g[x][ys[q] as int], ws[q]));
            lemma_poly_power_sum(ws, z);
            lemma_xsum_ext(m, terms, |q: int| field_mul(field_pow(z, q as nat), ws[q]));
            lemma_pow2_nonzero(b * i);
            lemma_no_zero_divisors(c, poly_eval(ws, z));
        }
        assert forall|u: int, v: int| #![trigger nodes[u], nodes[v]] 0 <= u < nodes.len() && 0 <= v < nodes.len() && u
            != v implies nodes[u] != nodes[v] by {
            if u < v {
                assert(xs[u] < xs[v]);
            } else {
                assert(xs[v] < xs[u]);
            }
            assert(k <= xs[u] < k + p && k <= xs[v] < k + p);
            lemma_pow2_spread(d, (xs[u] - k) as nat, (xs[v] - k) as nat);
        }
        lemma_poly_roots(ws, nodes);
    }
}

/// Inside ISA-L's safe region, every square parity system of the
/// Vandermonde-style encode matrix has only the zero solution.
pub proof fn lemma_rs_blocks_trivial(k: int, p: int)
    requires
        1 <= k,
        1 <= p,
        k + p <= 255,
        vandermonde_safe_spec(k, k + p),
    ensures
        parity_blocks_trivial(rs_grid(k, p), k, p),
{
    let g = rs_grid(k, p);
    assert forall|xs: Seq<int>, ys: Seq<u8>, ws: Seq<u8>| #[trigger] parity_system(g, k, p, xs, ys, ws) implies forall|
        q: int,
    | 0 <= q < ws.len() ==> #[trigger] ws[q] == 0 by {
        if p <= 3 {
            lemma_rs_blocks_few_parity(k, p, xs, ys, ws);
        } else if p == 4 && k <= 21 {
            lemma_rs_blocks_four_parity(k, p, xs, ys, ws);
        } else if k == 4 && p <= 21 {
            lemma_rs_blocks_four_sources(k, p, xs, ys, ws);
        } else if k == 5 && p == 5 {
            crate::rs_five::lemma_rs_blocks_five(xs, ys, ws);
        } else {
            lemma_rs_blocks_few_sources(k, p, xs, ys, ws);
        }
    }
}

/// Any `k` distinct rows of the `(k + p) x k` Vandermonde-style encode
/// matrix inside ISA-L's safe region form a non-singular matrix. The rows
/// are listed in increasing order (as a recovery selects its survivors).
pub proof fn lemma_rs_selection_nonsingular(k: int, p: int, s: Seq<usize>)
    requires
        1 <= k,
        1 <= p,
        k + p <= 255,
        vandermonde_safe_spec(k, k + p),
        s.len() == k,
        forall|t: int| 0 <= t < k ==> (#[trigger] s[t]) < k + p,
        increasing(s),
    ensures
        !singular(select_grid(rs_grid(k, p), s), k),
{
    lemma_rs_blocks_trivial(k, p);
    assert(top_identity(rs_grid(k, p), k));
    lemma_selection_nonsingular(rs_grid(k, p), k, p, s);
}

/// A Vandermonde-style stripe inside ISA-L's safe region that still has `k`
/// of its `k + p` shards can always be rebuilt: the rows of the first `k`
/// present shards — the survivors a recovery uses — form a non-singular
/// matrix.
pub proof fn lemma_rs_survivors_nonsingular(k: int, p: int, present: Seq<bool>)
    requires
        1 <= k,
        1 <= p,
        k + p <= 255,
        vandermonde_safe_spec(k, k + p),
        present.len() == k + p,
        count_present(present, k + p) >= k,
    ensures
        !singular(select_grid(rs_grid(k, p), take_present(present, k + p, k)), k),
{
    lemma_take_present(present, k + p, k);
    let s = take_present(present, k + p, k);
    assert(increasing(s)) by {
        assert forall|a: int, b: int| 0 <= a < b < s.len() implies #[trigger] s[a] < #[trigger] s[b] by {
        }
    }
    lemma_rs_selection_nonsingular(k, p, s);
}


/// Any `k` distinct rows of the `(k + p) x k` Vandermonde-style encode
/// matrix inside ISA-L's safe region, listed in any order, form a
/// non-singular matrix.
pub proof fn lemma_rs_listing_nonsingular(k: int, p: int, s: Seq<usize>)
    requires
        1 <= k,
        1 <= p,
        k + p <= 255,
        vandermonde_safe_spec(k, k + p),
        s.len() == k,
        distinct_rows(s),
        forall|t: int| 0 <= t < k ==> (#[trigger] s[t]) < k + p,
    ensures
        !singular(select_grid(rs_grid(k, p), s), k),
{
    lemma_sorted_listing(s, k, k + p);
    let t = take_present(membership(s, k + p), k + p, k);
    lemma_rs_selection_nonsingular(k, p, t);
    lemma_same_rows_nonsingular(rs_grid(k, p), k, s, t);
}

} // verus!
