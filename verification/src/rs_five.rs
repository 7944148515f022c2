//! Recovery from the Vandermonde-style encode matrix with five sources and
//! five parity rows: the one shape of ISA-L's safe region that the spacing
//! arguments of [`crate::rs_mds`] do not settle alone.
//!
//! A square system of kept parity rows `R` on missing columns `C` (both
//! subsets of `0..5`, entries `2^(i * j)`) is settled by those arguments
//! when `R` or `C` is evenly spaced with a step of at most three, or when
//! `R` is `0, 1, 3` or `0, 2, 3`, or `C` is. The pairs that remain are
//! finitely many: for each, this module carries the system's inverse as a
//! certificate, the bit-vector solver checks `inverse * system == identity`
//! on the constants ([`crate::cert::lemma_five_certificates`]), and
//! [`lemma_five_certified`] turns that into "only the zero solution".

use vstd::prelude::*;

use crate::algebra::{
    dot, identity, is_grid, lemma_identity_left, lemma_mat_mul_assoc, lemma_mul_zeros, lemma_xsum_ext, mat_mul, xsum,
    zeros,
};
use crate::cert::{cmul, lemma_cmul, lemma_five_certificates};
use crate::gf::{exp_table, field_mul, lemma_exp_table, lemma_xor_units};
use crate::mds::{block_dot, parity_system};
use crate::rs_mds::{
    lemma_rs_cols_spaced, lemma_rs_gap_cols_013, lemma_rs_gap_cols_023, lemma_rs_gap_rows, lemma_rs_parity_entry,
    lemma_rs_rows_spaced, rs_grid,
};

verus! {

/// Kept parity rows `xs` that are evenly spaced with a step of at most
/// three.
pub open spec fn five_rows_even(xs: Seq<int>) -> bool {
    &&& xs.len() < 2 || xs[1] - xs[0] <= 3
    &&& xs.len() < 3 || xs[2] - xs[1] == xs[1] - xs[0]
    &&& xs.len() < 4 || xs[3] - xs[2] == xs[1] - xs[0]
    &&& xs.len() < 5 || xs[4] - xs[3] == xs[1] - xs[0]
}

/// Missing columns `ys` that are evenly spaced with a step of at most
/// three.
pub open spec fn five_cols_even(ys: Seq<u8>) -> bool {
    &&& ys.len() < 2 || ys[1] - ys[0] <= 3
    &&& ys.len() < 3 || ys[2] - ys[1] == ys[1] - ys[0]
    &&& ys.len() < 4 || ys[3] - ys[2] == ys[1] - ys[0]
    &&& ys.len() < 5 || ys[4] - ys[3] == ys[1] - ys[0]
}

/// The square system of the kept parity rows `xs` on the missing columns
/// `ys`.
pub open spec fn five_block(xs: Seq<int>, ys: Seq<u8>) -> Seq<Seq<u8>> {
    Seq::new(xs.len(), |l: int| Seq::new(xs.len(), |q: int| rs_grid(5, 5)[xs[l]][ys[q] as int]))
}

/// Entry `(i, j)` of the product of two `m x m` matrices (`2 <= m <= 4`),
/// written out.
pub open spec fn small_dot(b: Seq<Seq<u8>>, a: Seq<Seq<u8>>, m: int, i: int, j: int) -> u8 {
    let f0 = cmul(b[i][0], a[0][j]);
    let f1 = cmul(b[i][1], a[1][j]);
    if m == 2 {
        f0 ^ f1
    } else if m == 3 {
        (f0 ^ f1) ^ cmul(b[i][2], a[2][j])
    } else {
        ((f0 ^ f1) ^ cmul(b[i][2], a[2][j])) ^ cmul(b[i][3], a[3][j])
    }
}

/// A product entry of small matrices is its written-out sum.
proof fn lemma_dot_small(b: Seq<Seq<u8>>, a: Seq<Seq<u8>>, m: int, i: int, j: int)
    requires
        2 <= m <= 4,
    ensures
        dot(b, a, m, i, j) == small_dot(b, a, m, i, j),
{
    let f = |t: int| field_mul(b[i][t], a[t][j]);
    lemma_cmul(b[i][0], a[0][j]);
    lemma_cmul(b[i][1], a[1][j]);
    lemma_cmul(b[i][2], a[2][j]);
    lemma_cmul(b[i][3], a[3][j]);
    lemma_xor_units();
    assert(xsum(1, f) == xsum(0, f) ^ f(0));
    assert(xsum(2, f) == xsum(1, f) ^ f(1));
    assert(xsum(3, f) == xsum(2, f) ^ f(2));
    assert(xsum(4, f) == xsum(3, f) ^ f(3));
}

/// Entry `(i, j)` of `b * a` is that of the identity, and row `i` of `b`
/// has `m` entries.
pub open spec fn certifies_at(b: Seq<Seq<u8>>, a: Seq<Seq<u8>>, m: int, i: int, j: int) -> bool {
    &&& b[i].len() == m
    &&& small_dot(b, a, m, i, j) == if i == j { 1u8 } else { 0u8 }
}

/// `b` is a left inverse of `a` (both `m x m`, `2 <= m <= 4`), checked pair
/// by pair.
proof fn lemma_certificate_cases(b: Seq<Seq<u8>>, a: Seq<Seq<u8>>, m: int)
    requires
        2 <= m <= 4,
        certifies_at(b, a, m, 0, 0) && certifies_at(b, a, m, 0, 1) && certifies_at(b, a, m, 1, 0) && certifies_at(
            b,
            a,
            m,
            1,
            1,
        ),
        m >= 3 ==> certifies_at(b, a, m, 0, 2) && certifies_at(b, a, m, 1, 2) && certifies_at(b, a, m, 2, 0)
            && certifies_at(b, a, m, 2, 1) && certifies_at(b, a, m, 2, 2),
        m >= 4 ==> certifies_at(b, a, m, 0, 3) && certifies_at(b, a, m, 1, 3) && certifies_at(b, a, m, 2, 3)
            && certifies_at(b, a, m, 3, 0) && certifies_at(b, a, m, 3, 1) && certifies_at(b, a, m, 3, 2)
            && certifies_at(b, a, m, 3, 3),
    ensures
        forall|i: int, j: int| 0 <= i < m && 0 <= j < m ==> #[trigger] certifies_at(b, a, m, i, j),
{
    assert forall|i: int, j: int| 0 <= i < m && 0 <= j < m implies #[trigger] certifies_at(b, a, m, i, j) by {
        if i == 0 {
            if j == 0 {} else if j == 1 {} else if j == 2 {} else {}
        } else if i == 1 {
            if j == 0 {} else if j == 1 {} else if j == 2 {} else {}
        } else if i == 2 {
            if j == 0 {} else if j == 1 {} else if j == 2 {} else {}
        } else {
            if j == 0 {} else if j == 1 {} else if j == 2 {} else {}
        }
    }
}

/// The entries of the five-by-five parity block are table powers of the
/// generator.
proof fn lemma_five_entries(xs: Seq<int>, ys: Seq<u8>)
    requires
        forall|l: int| 0 <= l < xs.len() ==> 5 <= #[trigger] xs[l] < 10,
        forall|q: int| 0 <= q < ys.len() ==> #[trigger] ys[q] < 5,
    ensures
        forall|l: int, q: int|
            0 <= l < xs.len() && 0 <= q < ys.len() ==> #[trigger] rs_grid(5, 5)[xs[l]][ys[q] as int] == exp_table(
                ((xs[l] - 5) * (ys[q] as int)) as u8,
            ),
{
    assert forall|l: int, q: int| 0 <= l < xs.len() && 0 <= q < ys.len() implies #[trigger] rs_grid(
        5,
        5,
    )[xs[l]][ys[q] as int] == exp_table(((xs[l] - 5) * (ys[q] as int)) as u8) by {
        let x = xs[l];
        let y = ys[q] as int;
        lemma_rs_parity_entry(5, 5, x, y);
        assert(0 <= (x - 5) * y < 25) by (nonlinear_arith)
            requires
                0 <= x - 5 < 5,
                0 <= y < 5,
        ;
        lemma_exp_table(((x - 5) * y) as u8);
    }
}

/// The kept parity rows and missing columns of a five-by-five system are
/// strictly increasing, rows in `5..10` and columns below 5.
proof fn lemma_five_bounds(xs: Seq<int>, ys: Seq<u8>)
    requires
        forall|l: int| 0 <= l < xs.len() ==> 5 <= #[trigger] xs[l] < 10,
        forall|a: int, b: int| #![trigger xs[a], xs[b]] 0 <= a < b < xs.len() ==> xs[a] < xs[b],
        forall|q: int| 0 <= q < ys.len() ==> #[trigger] ys[q] < 5,
        forall|a: int, b: int| #![trigger ys[a], ys[b]] 0 <= a < b < ys.len() ==> ys[a] < ys[b],
        2 <= xs.len() <= 4,
        ys.len() == xs.len(),
    ensures
        5 <= xs[0] < xs[1] < 10,
        ys[0] < ys[1] < 5,
        xs.len() >= 3 ==> xs[1] < xs[2] < 10 && ys[1] < ys[2] < 5,
        xs.len() >= 4 ==> xs[2] < xs[3] < 10 && ys[2] < ys[3] < 5,
{
    assert(xs[0] < xs[1] && ys[0] < ys[1]);
    assert(xs[1] < 10 && ys[1] < 5);
    if xs.len() >= 3 {
        assert(xs[1] < xs[2] && ys[1] < ys[2]);
        assert(xs[2] < 10 && ys[2] < 5);
    }
    if xs.len() >= 4 {
        assert(xs[2] < xs[3] && ys[2] < ys[3]);
        assert(xs[3] < 10 && ys[3] < 5);
    }
}

/// A five-by-five parity system with a left inverse `b` (checked entry by
/// entry) has only the zero solution: `ws == b * (a * ws) == b * 0`.
#[verifier::rlimit(100)]
#[verifier::spinoff_prover]
proof fn lemma_five_certified(xs: Seq<int>, ys: Seq<u8>, ws: Seq<u8>, b: Seq<Seq<u8>>)
    requires
        parity_system(rs_grid(5, 5), 5, 5, xs, ys, ws),
        2 <= xs.len() <= 4,
        b.len() == xs.len(),
        forall|i: int, j: int|
            0 <= i < xs.len() && 0 <= j < xs.len() ==> #[trigger] certifies_at(
                b,
                five_block(xs, ys),
                xs.len() as int,
                i,
                j,
            ),
    ensures
        forall|q: int| 0 <= q < ws.len() ==> #[trigger] ws[q] == 0,
{
    let g = rs_grid(5, 5);
    let m = xs.len() as int;
    let a = five_block(xs, ys);
    assert(is_grid(b, m, m)) by {
        assert forall|i: int| 0 <= i < m implies (#[trigger] b[i]).len() == m by {
            assert(certifies_at(b, a, m, i, 0));
        }
    }
    assert(is_grid(a, m, m));
    assert forall|i: int, j: int| 0 <= i < m && 0 <= j < m implies #[trigger] mat_mul(b, a, m, m)[i][j] == identity(
        m,
    )[i][j] by {
        lemma_dot_small(b, a, m, i, j);
        assert(certifies_at(b, a, m, i, j));
    }
    assert(mat_mul(b, a, m, m) =~~= identity(m));
    let v = Seq::new(m as nat, |q: int| seq![ws[q]]);
    assert(is_grid(v, m, 1));
    assert forall|l: int| 0 <= l < m implies #[trigger] mat_mul(a, v, m, 1)[l] == zeros(m, 1)[l] by {
        assert(block_dot(g, xs[l], ys, ws) == 0);
        lemma_xsum_ext(m, |t: int| field_mul(a[l][t], v[t][0]), |q: int| field_mul(g[xs[l]][ys[q] as int], ws[q]));
        assert(mat_mul(a, v, m, 1)[l] =~= zeros(m, 1)[l]);
    }
    assert(mat_mul(a, v, m, 1) =~= zeros(m, 1));
    lemma_mat_mul_assoc(b, a, v, m, m, m, 1);
    lemma_identity_left(v, m, 1);
    lemma_mul_zeros(b, m, 1);
    assert forall|q: int| 0 <= q < ws.len() implies #[trigger] ws[q] == 0 by {
        assert(v[q][0] == zeros(m, 1)[q][0]);
    }
}

/// Kept parity rows 0, 4 on missing columns 0, 4.
#[verifier::rlimit(100)]
#[verifier::spinoff_prover]
proof fn lemma_five_rows_04_cols_04(xs: Seq<int>, ys: Seq<u8>, ws: Seq<u8>)
    requires
        parity_system(rs_grid(5, 5), 5, 5, xs, ys, ws),
        xs.len() == 2,
        xs[0] == 5 && xs[1] == 9,
        ys[0] == 0 && ys[1] == 4,
    ensures
        forall|q: int| 0 <= q < ws.len() ==> #[trigger] ws[q] == 0,
{
    let b = seq![seq![102u8, 103u8], seq![103u8, 103u8]];
    lemma_five_entries(xs, ys);
    lemma_five_certificates();
    lemma_certificate_cases(b, five_block(xs, ys), 2);
    lemma_five_certified(xs, ys, ws, b);
}

/// Kept parity rows 0, 1, 4 on missing columns 0, 1, 4.
#[verifier::rlimit(100)]
#[verifier::spinoff_prover]
proof fn lemma_five_rows_014_cols_014(xs: Seq<int>, ys: Seq<u8>, ws: Seq<u8>)
    requires
        parity_system(rs_grid(5, 5), 5, 5, xs, ys, ws),
        xs.len() == 3,
        xs[0] == 5 && xs[1] == 6 && xs[2] == 9,
        ys[0] == 0 && ys[1] == 1 && ys[2] == 4,
    ensures
        forall|q: int| 0 <= q < ws.len() ==> #[trigger] ws[q] == 0,
{
    let b = seq![seq![41u8, 85u8, 125u8], seq![85u8, 198u8, 147u8], seq![125u8, 147u8, 238u8]];
    lemma_five_entries(xs, ys);
    lemma_five_certificates();
    lemma_certificate_cases(b, five_block(xs, ys), 3);
    lemma_five_certified(xs, ys, ws, b);
}

/// Kept parity rows 0, 1, 4 on missing columns 0, 3, 4.
#[verifier::rlimit(100)]
#[verifier::spinoff_prover]
proof fn lemma_five_rows_014_cols_034(xs: Seq<int>, ys: Seq<u8>, ws: Seq<u8>)
    requires
        parity_system(rs_grid(5, 5), 5, 5, xs, ys, ws),
        xs.len() == 3,
        xs[0] == 5 && xs[1] == 6 && xs[2] == 9,
        ys[0] == 0 && ys[1] == 3 && ys[2] == 4,
    ensures
        forall|q: int| 0 <= q < ws.len() ==> #[trigger] ws[q] == 0,
{
    let b = seq![seq![239u8, 254u8, 16u8], seq![104u8, 118u8, 30u8], seq![134u8, 136u8, 14u8]];
    lemma_five_entries(xs, ys);
    lemma_five_certificates();
    lemma_certificate_cases(b, five_block(xs, ys), 3);
    lemma_five_certified(xs, ys, ws, b);
}

/// Kept parity rows 0, 1, 4 on missing columns 1, 2, 4.
#[verifier::rlimit(100)]
#[verifier::spinoff_prover]
proof fn lemma_five_rows_014_cols_124(xs: Seq<int>, ys: Seq<u8>, ws: Seq<u8>)
    requires
        parity_system(rs_grid(5, 5), 5, 5, xs, ys, ws),
        xs.len() == 3,
        xs[0] == 5 && xs[1] == 6 && xs[2] == 9,
        ys[0] == 1 && ys[1] == 2 && ys[2] == 4,
    ensures
        forall|q: int| 0 <= q < ws.len() ==> #[trigger] ws[q] == 0,
{
    let b = seq![seq![223u8, 226u8, 50u8], seq![38u8, 45u8, 206u8], seq![248u8, 207u8, 252u8]];
    lemma_five_entries(xs, ys);
    lemma_five_certificates();
    lemma_certificate_cases(b, five_block(xs, ys), 3);
    lemma_five_certified(xs, ys, ws, b);
}

/// Kept parity rows 0, 1, 4 on missing columns 1, 3, 4.
#[verifier::rlimit(100)]
#[verifier::spinoff_prover]
proof fn lemma_five_rows_014_cols_134(xs: Seq<int>, ys: Seq<u8>, ws: Seq<u8>)
    requires
        parity_system(rs_grid(5, 5), 5, 5, xs, ys, ws),
        xs.len() == 3,
        xs[0] == 5 && xs[1] == 6 && xs[2] == 9,
        ys[0] == 1 && ys[1] == 3 && ys[2] == 4,
    ensures
        forall|q: int| 0 <= q < ws.len() ==> #[trigger] ws[q] == 0,
{
    let b = seq![seq![56u8, 137u8, 233u8], seq![223u8, 182u8, 110u8], seq![230u8, 63u8, 135u8]];
    lemma_five_entries(xs, ys);
    lemma_five_certificates();
    lemma_certificate_cases(b, five_block(xs, ys), 3);
    lemma_five_certified(xs, ys, ws, b);
}

/// Kept parity rows 0, 3, 4 on missing columns 0, 1, 4.
#[verifier::rlimit(100)]
#[verifier::spinoff_prover]
proof fn lemma_five_rows_034_cols_014(xs: Seq<int>, ys: Seq<u8>, ws: Seq<u8>)
    requires
        parity_system(rs_grid(5, 5), 5, 5, xs, ys, ws),
        xs.len() == 3,
        xs[0] == 5 && xs[1] == 8 && xs[2] == 9,
        ys[0] == 0 && ys[1] == 1 && ys[2] == 4,
    ensures
        forall|q: int| 0 <= q < ws.len() ==> #[trigger] ws[q] == 0,
{
    let b = seq![seq![239u8, 104u8, 134u8], seq![254u8, 118u8, 136u8], seq![16u8, 30u8, 14u8]];
    lemma_five_entries(xs, ys);
    lemma_five_certificates();
    lemma_certificate_cases(b, five_block(xs, ys), 3);
    lemma_five_certified(xs, ys, ws, b);
}

/// Kept parity rows 0, 3, 4 on missing columns 0, 3, 4.
#[verifier::rlimit(100)]
#[verifier::spinoff_prover]
proof fn lemma_five_rows_034_cols_034(xs: Seq<int>, ys: Seq<u8>, ws: Seq<u8>)
    requires
        parity_system(rs_grid(5, 5), 5, 5, xs, ys, ws),
        xs.len() == 3,
        xs[0] == 5 && xs[1] == 8 && xs[2] == 9,
        ys[0] == 0 && ys[1] == 3 && ys[2] == 4,
    ensures
        forall|q: int| 0 <= q < ws.len() ==> #[trigger] ws[q] == 0,
{
    let b = seq![seq![185u8, 197u8, 125u8], seq![197u8, 228u8, 33u8], seq![125u8, 33u8, 92u8]];
    lemma_five_entries(xs, ys);
    lemma_five_certificates();
    lemma_certificate_cases(b, five_block(xs, ys), 3);
    lemma_five_certified(xs, ys, ws, b);
}

/// Kept parity rows 0, 3, 4 on missing columns 1, 2, 4.
#[verifier::rlimit(100)]
#[verifier::spinoff_prover]
proof fn lemma_five_rows_034_cols_124(xs: Seq<int>, ys: Seq<u8>, ws: Seq<u8>)
    requires
        parity_system(rs_grid(5, 5), 5, 5, xs, ys, ws),
        xs.len() == 3,
        xs[0] == 5 && xs[1] == 8 && xs[2] == 9,
        ys[0] == 1 && ys[1] == 2 && ys[2] == 4,
    ensures
        forall|q: int| 0 <= q < ws.len() ==> #[trigger] ws[q] == 0,
{
    let b = seq![seq![48u8, 126u8, 228u8], seq![7u8, 223u8, 211u8], seq![54u8, 161u8, 55u8]];
    lemma_five_entries(xs, ys);
    lemma_five_certificates();
    lemma_certificate_cases(b, five_block(xs, ys), 3);
    lemma_five_certified(xs, ys, ws, b);
}

/// Kept parity rows 0, 3, 4 on missing columns 1, 3, 4.
#[verifier::rlimit(100)]
#[verifier::spinoff_prover]
proof fn lemma_five_rows_034_cols_134(xs: Seq<int>, ys: Seq<u8>, ws: Seq<u8>)
    requires
        parity_system(rs_grid(5, 5), 5, 5, xs, ys, ws),
        xs.len() == 3,
        xs[0] == 5 && xs[1] == 8 && xs[2] == 9,
        ys[0] == 1 && ys[1] == 3 && ys[2] == 4,
    ensures
        forall|q: int| 0 <= q < ws.len() ==> #[trigger] ws[q] == 0,
{
    let b = seq![seq![149u8, 131u8, 129u8], seq![147u8, 232u8, 8u8], seq![7u8, 107u8, 137u8]];
    lemma_five_entries(xs, ys);
    lemma_five_certificates();
    lemma_certificate_cases(b, five_block(xs, ys), 3);
    lemma_five_certified(xs, ys, ws, b);
}

/// Kept parity rows 1, 2, 4 on missing columns 0, 1, 4.
#[verifier::rlimit(100)]
#[verifier::spinoff_prover]
proof fn lemma_five_rows_124_cols_014(xs: Seq<int>, ys: Seq<u8>, ws: Seq<u8>)
    requires
        parity_system(rs_grid(5, 5), 5, 5, xs, ys, ws),
        xs.len() == 3,
        xs[0] == 6 && xs[1] == 7 && xs[2] == 9,
        ys[0] == 0 && ys[1] == 1 && ys[2] == 4,
    ensures
        forall|q: int| 0 <= q < ws.len() ==> #[trigger] ws[q] == 0,
{
    let b = seq![seq![223u8, 38u8, 248u8], seq![226u8, 45u8, 207u8], seq![50u8, 206u8, 252u8]];
    lemma_five_entries(xs, ys);
    lemma_five_certificates();
    lemma_certificate_cases(b, five_block(xs, ys), 3);
    lemma_five_certified(xs, ys, ws, b);
}

/// Kept parity rows 1, 2, 4 on missing columns 0, 3, 4.
#[verifier::rlimit(100)]
#[verifier::spinoff_prover]
proof fn lemma_five_rows_124_cols_034(xs: Seq<int>, ys: Seq<u8>, ws: Seq<u8>)
    requires
        parity_system(rs_grid(5, 5), 5, 5, xs, ys, ws),
        xs.len() == 3,
        xs[0] == 6 && xs[1] == 7 && xs[2] == 9,
        ys[0] == 0 && ys[1] == 3 && ys[2] == 4,
    ensures
        forall|q: int| 0 <= q < ws.len() ==> #[trigger] ws[q] == 0,
{
    let b = seq![seq![48u8, 7u8, 54u8], seq![126u8, 223u8, 161u8], seq![228u8, 211u8, 55u8]];
    lemma_five_entries(xs, ys);
    lemma_five_certificates();
    lemma_certificate_cases(b, five_block(xs, ys), 3);
    lemma_five_certified(xs, ys, ws, b);
}

/// Kept parity rows 1, 2, 4 on missing columns 1, 2, 4.
#[verifier::rlimit(100)]
#[verifier::spinoff_prover]
proof fn lemma_five_rows_124_cols_124(xs: Seq<int>, ys: Seq<u8>, ws: Seq<u8>)
    requires
        parity_system(rs_grid(5, 5), 5, 5, xs, ys, ws),
        xs.len() == 3,
        xs[0] == 6 && xs[1] == 7 && xs[2] == 9,
        ys[0] == 1 && ys[1] == 2 && ys[2] == 4,
    ensures
        forall|q: int| 0 <= q < ws.len() ==> #[trigger] ws[q] == 0,
{
    let b = seq![seq![120u8, 145u8, 180u8], seq![145u8, 223u8, 65u8], seq![180u8, 65u8, 207u8]];
    lemma_five_entries(xs, ys);
    lemma_five_certificates();
    lemma_certificate_cases(b, five_block(xs, ys), 3);
    lemma_five_certified(xs, ys, ws, b);
}

/// Kept parity rows 1, 2, 4 on missing columns 1, 3, 4.
#[verifier::rlimit(100)]
#[verifier::spinoff_prover]
proof fn lemma_five_rows_124_cols_134(xs: Seq<int>, ys: Seq<u8>, ws: Seq<u8>)
    requires
        parity_system(rs_grid(5, 5), 5, 5, xs, ys, ws),
        xs.len() == 3,
        xs[0] == 6 && xs[1] == 7 && xs[2] == 9,
        ys[0] == 1 && ys[1] == 3 && ys[2] == 4,
    ensures
        forall|q: int| 0 <= q < ws.len() ==> #[trigger] ws[q] == 0,
{
    let b = seq![seq![198u8, 120u8, 23u8], seq![181u8, 138u8, 153u8], seq![221u8, 74u8, 164u8]];
    lemma_five_entries(xs, ys);
    lemma_five_certificates();
    lemma_certificate_cases(b, five_block(xs, ys), 3);
    lemma_five_certified(xs, ys, ws, b);
}

/// Kept parity rows 1, 3, 4 on missing columns 0, 1, 4.
#[verifier::rlimit(100)]
#[verifier::spinoff_prover]
proof fn lemma_five_rows_134_cols_014(xs: Seq<int>, ys: Seq<u8>, ws: Seq<u8>)
    requires
        parity_system(rs_grid(5, 5), 5, 5, xs, ys, ws),
        xs.len() == 3,
        xs[0] == 6 && xs[1] == 8 && xs[2] == 9,
        ys[0] == 0 && ys[1] == 1 && ys[2] == 4,
    ensures
        forall|q: int| 0 <= q < ws.len() ==> #[trigger] ws[q] == 0,
{
    let b = seq![seq![56u8, 223u8, 230u8], seq![137u8, 182u8, 63u8], seq![233u8, 110u8, 135u8]];
    lemma_five_entries(xs, ys);
    lemma_five_certificates();
    lemma_certificate_cases(b, five_block(xs, ys), 3);
    lemma_five_certified(xs, ys, ws, b);
}

/// Kept parity rows 1, 3, 4 on missing columns 0, 3, 4.
#[verifier::rlimit(100)]
#[verifier::spinoff_prover]
proof fn lemma_five_rows_134_cols_034(xs: Seq<int>, ys: Seq<u8>, ws: Seq<u8>)
    requires
        parity_system(rs_grid(5, 5), 5, 5, xs, ys, ws),
        xs.len() == 3,
        xs[0] == 6 && xs[1] == 8 && xs[2] == 9,
        ys[0] == 0 && ys[1] == 3 && ys[2] == 4,
    ensures
        forall|q: int| 0 <= q < ws.len() ==> #[trigger] ws[q] == 0,
{
    let b = seq![seq![149u8, 147u8, 7u8], seq![131u8, 232u8, 107u8], seq![129u8, 8u8, 137u8]];
    lemma_five_entries(xs, ys);
    lemma_five_certificates();
    lemma_certificate_cases(b, five_block(xs, ys), 3);
    lemma_five_certified(xs, ys, ws, b);
}

/// Kept parity rows 1, 3, 4 on missing columns 1, 2, 4.
#[verifier::rlimit(100)]
#[verifier::spinoff_prover]
proof fn lemma_five_rows_134_cols_124(xs: Seq<int>, ys: Seq<u8>, ws: Seq<u8>)
    requires
        parity_system(rs_grid(5, 5), 5, 5, xs, ys, ws),
        xs.len() == 3,
        xs[0] == 6 && xs[1] == 8 && xs[2] == 9,
        ys[0] == 1 && ys[1] == 2 && ys[2] == 4,
    ensures
        forall|q: int| 0 <= q < ws.len() ==> #[trigger] ws[q] == 0,
{
    let b = seq![seq![198u8, 181u8, 221u8], seq![120u8, 138u8, 74u8], seq![23u8, 153u8, 164u8]];
    lemma_five_entries(xs, ys);
    lemma_five_certificates();
    lemma_certificate_cases(b, five_block(xs, ys), 3);
    lemma_five_certified(xs, ys, ws, b);
}

/// Kept parity rows 1, 3, 4 on missing columns 1, 3, 4.
#[verifier::rlimit(100)]
#[verifier::spinoff_prover]
proof fn lemma_five_rows_134_cols_134(xs: Seq<int>, ys: Seq<u8>, ws: Seq<u8>)
    requires
        parity_system(rs_grid(5, 5), 5, 5, xs, ys, ws),
        xs.len() == 3,
        xs[0] == 6 && xs[1] == 8 && xs[2] == 9,
        ys[0] == 1 && ys[1] == 3 && ys[2] == 4,
    ensures
        forall|q: int| 0 <= q < ws.len() ==> #[trigger] ws[q] == 0,
{
    let b = seq![seq![64u8, 200u8, 180u8], seq![200u8, 214u8, 114u8], seq![180u8, 114u8, 161u8]];
    lemma_five_entries(xs, ys);
    lemma_five_certificates();
    lemma_certificate_cases(b, five_block(xs, ys), 3);
    lemma_five_certified(xs, ys, ws, b);
}

/// Kept parity rows 0, 1, 2, 4 on missing columns 0, 1, 2, 4.
#[verifier::rlimit(100)]
#[verifier::spinoff_prover]
proof fn lemma_five_rows_0124_cols_0124(xs: Seq<int>, ys: Seq<u8>, ws: Seq<u8>)
    requires
        parity_system(rs_grid(5, 5), 5, 5, xs, ys, ws),
        xs.len() == 4,
        xs[0] == 5 && xs[1] == 6 && xs[2] == 7 && xs[3] == 9,
        ys[0] == 0 && ys[1] == 1 && ys[2] == 2 && ys[3] == 4,
    ensures
        forall|q: int| 0 <= q < ws.len() ==> #[trigger] ws[q] == 0,
{
    let b = seq![seq![141u8, 71u8, 152u8, 83u8], seq![71u8, 40u8, 91u8, 52u8], seq![152u8, 91u8, 132u8, 71u8], seq![83u8, 52u8, 71u8, 32u8]];
    lemma_five_entries(xs, ys);
    lemma_five_certificates();
    lemma_certificate_cases(b, five_block(xs, ys), 4);
    lemma_five_certified(xs, ys, ws, b);
}

/// Kept parity rows 0, 1, 2, 4 on missing columns 0, 1, 3, 4.
#[verifier::rlimit(100)]
#[verifier::spinoff_prover]
proof fn lemma_five_rows_0124_cols_0134(xs: Seq<int>, ys: Seq<u8>, ws: Seq<u8>)
    requires
        parity_system(rs_grid(5, 5), 5, 5, xs, ys, ws),
        xs.len() == 4,
        xs[0] == 5 && xs[1] == 6 && xs[2] == 7 && xs[3] == 9,
        ys[0] == 0 && ys[1] == 1 && ys[2] == 3 && ys[3] == 4,
    ensures
        forall|q: int| 0 <= q < ws.len() ==> #[trigger] ws[q] == 0,
{
    let b = seq![seq![12u8, 155u8, 115u8, 229u8], seq![191u8, 105u8, 77u8, 155u8], seq![251u8, 80u8, 68u8, 239u8], seq![73u8, 162u8, 122u8, 145u8]];
    lemma_five_entries(xs, ys);
    lemma_five_certificates();
    lemma_certificate_cases(b, five_block(xs, ys), 4);
    lemma_five_certified(xs, ys, ws, b);
}

/// Kept parity rows 0, 1, 2, 4 on missing columns 0, 2, 3, 4.
#[verifier::rlimit(100)]
#[verifier::spinoff_prover]
proof fn lemma_five_rows_0124_cols_0234(xs: Seq<int>, ys: Seq<u8>, ws: Seq<u8>)
    requires
        parity_system(rs_grid(5, 5), 5, 5, xs, ys, ws),
        xs.len() == 4,
        xs[0] == 5 && xs[1] == 6 && xs[2] == 7 && xs[3] == 9,
        ys[0] == 0 && ys[1] == 2 && ys[2] == 3 && ys[3] == 4,
    ensures
        forall|q: int| 0 <= q < ws.len() ==> #[trigger] ws[q] == 0,
{
    let b = seq![seq![187u8, 203u8, 102u8, 23u8], seq![161u8, 249u8, 159u8, 199u8], seq![248u8, 179u8, 89u8, 18u8], seq![227u8, 129u8, 160u8, 194u8]];
    lemma_five_entries(xs, ys);
    lemma_five_certificates();
    lemma_certificate_cases(b, five_block(xs, ys), 4);
    lemma_five_certified(xs, ys, ws, b);
}

/// Kept parity rows 0, 1, 3, 4 on missing columns 0, 1, 2, 4.
#[verifier::rlimit(100)]
#[verifier::spinoff_prover]
proof fn lemma_five_rows_0134_cols_0124(xs: Seq<int>, ys: Seq<u8>, ws: Seq<u8>)
    requires
        parity_system(rs_grid(5, 5), 5, 5, xs, ys, ws),
        xs.len() == 4,
        xs[0] == 5 && xs[1] == 6 && xs[2] == 8 && xs[3] == 9,
        ys[0] == 0 && ys[1] == 1 && ys[2] == 2 && ys[3] == 4,
    ensures
        forall|q: int| 0 <= q < ws.len() ==> #[trigger] ws[q] == 0,
{
    let b = seq![seq![12u8, 191u8, 251u8, 73u8], seq![155u8, 105u8, 80u8, 162u8], seq![115u8, 77u8, 68u8, 122u8], seq![229u8, 155u8, 239u8, 145u8]];
    lemma_five_entries(xs, ys);
    lemma_five_certificates();
    lemma_certificate_cases(b, five_block(xs, ys), 4);
    lemma_five_certified(xs, ys, ws, b);
}

/// Kept parity rows 0, 1, 3, 4 on missing columns 0, 1, 3, 4.
#[verifier::rlimit(100)]
#[verifier::spinoff_prover]
proof fn lemma_five_rows_0134_cols_0134(xs: Seq<int>, ys: Seq<u8>, ws: Seq<u8>)
    requires
        parity_system(rs_grid(5, 5), 5, 5, xs, ys, ws),
        xs.len() == 4,
        xs[0] == 5 && xs[1] == 6 && xs[2] == 8 && xs[3] == 9,
        ys[0] == 0 && ys[1] == 1 && ys[2] == 3 && ys[3] == 4,
    ensures
        forall|q: int| 0 <= q < ws.len() ==> #[trigger] ws[q] == 0,
{
    let b = seq![seq![64u8, 187u8, 2u8, 248u8], seq![187u8, 166u8, 176u8, 173u8], seq![2u8, 176u8, 14u8, 188u8], seq![248u8, 173u8, 188u8, 233u8]];
    lemma_five_entries(xs, ys);
    lemma_five_certificates();
    lemma_certificate_cases(b, five_block(xs, ys), 4);
    lemma_five_certified(xs, ys, ws, b);
}

/// Kept parity rows 0, 1, 3, 4 on missing columns 0, 2, 3, 4.
#[verifier::rlimit(100)]
#[verifier::spinoff_prover]
proof fn lemma_five_rows_0134_cols_0234(xs: Seq<int>, ys: Seq<u8>, ws: Seq<u8>)
    requires
        parity_system(rs_grid(5, 5), 5, 5, xs, ys, ws),
        xs.len() == 4,
        xs[0] == 5 && xs[1] == 6 && xs[2] == 8 && xs[3] == 9,
        ys[0] == 0 && ys[1] == 2 && ys[2] == 3 && ys[3] == 4,
    ensures
        forall|q: int| 0 <= q < ws.len() ==> #[trigger] ws[q] == 0,
{
    let b = seq![seq![49u8, 144u8, 69u8, 229u8], seq![139u8, 52u8, 21u8, 170u8], seq![242u8, 80u8, 5u8, 167u8], seq![73u8, 244u8, 85u8, 232u8]];
    lemma_five_entries(xs, ys);
    lemma_five_certificates();
    lemma_certificate_cases(b, five_block(xs, ys), 4);
    lemma_five_certified(xs, ys, ws, b);
}

/// Kept parity rows 0, 2, 3, 4 on missing columns 0, 1, 2, 4.
#[verifier::rlimit(100)]
#[verifier::spinoff_prover]
proof fn lemma_five_rows_0234_cols_0124(xs: Seq<int>, ys: Seq<u8>, ws: Seq<u8>)
    requires
        parity_system(rs_grid(5, 5), 5, 5, xs, ys, ws),
        xs.len() == 4,
        xs[0] == 5 && xs[1] == 7 && xs[2] == 8 && xs[3] == 9,
        ys[0] == 0 && ys[1] == 1 && ys[2] == 2 && ys[3] == 4,
    ensures
        forall|q: int| 0 <= q < ws.len() ==> #[trigger] ws[q] == 0,
{
    let b = seq![seq![187u8, 161u8, 248u8, 227u8], seq![203u8, 249u8, 179u8, 129u8], seq![102u8, 159u8, 89u8, 160u8], seq![23u8, 199u8, 18u8, 194u8]];
    lemma_five_entries(xs, ys);
    lemma_five_certificates();
    lemma_certificate_cases(b, five_block(xs, ys), 4);
    lemma_five_certified(xs, ys, ws, b);
}

/// Kept parity rows 0, 2, 3, 4 on missing columns 0, 1, 3, 4.
#[verifier::rlimit(100)]
#[verifier::spinoff_prover]
proof fn lemma_five_rows_0234_cols_0134(xs: Seq<int>, ys: Seq<u8>, ws: Seq<u8>)
    requires
        parity_system(rs_grid(5, 5), 5, 5, xs, ys, ws),
        xs.len() == 4,
        xs[0] == 5 && xs[1] == 7 && xs[2] == 8 && xs[3] == 9,
        ys[0] == 0 && ys[1] == 1 && ys[2] == 3 && ys[3] == 4,
    ensures
        forall|q: int| 0 <= q < ws.len() ==> #[trigger] ws[q] == 0,
{
    let b = seq![seq![49u8, 139u8, 242u8, 73u8], seq![144u8, 52u8, 80u8, 244u8], seq![69u8, 21u8, 5u8, 85u8], seq![229u8, 170u8, 167u8, 232u8]];
    lemma_five_entries(xs, ys);
    lemma_five_certificates();
    lemma_certificate_cases(b, five_block(xs, ys), 4);
    lemma_five_certified(xs, ys, ws, b);
}

/// Kept parity rows 0, 2, 3, 4 on missing columns 0, 2, 3, 4.
#[verifier::rlimit(100)]
#[verifier::spinoff_prover]
proof fn lemma_five_rows_0234_cols_0234(xs: Seq<int>, ys: Seq<u8>, ws: Seq<u8>)
    requires
        parity_system(rs_grid(5, 5), 5, 5, xs, ys, ws),
        xs.len() == 4,
        xs[0] == 5 && xs[1] == 7 && xs[2] == 8 && xs[3] == 9,
        ys[0] == 0 && ys[1] == 2 && ys[2] == 3 && ys[3] == 4,
    ensures
        forall|q: int| 0 <= q < ws.len() ==> #[trigger] ws[q] == 0,
{
    let b = seq![seq![117u8, 64u8, 103u8, 83u8], seq![64u8, 132u8, 254u8, 58u8], seq![103u8, 254u8, 193u8, 88u8], seq![83u8, 58u8, 88u8, 49u8]];
    lemma_five_entries(xs, ys);
    lemma_five_certificates();
    lemma_certificate_cases(b, five_block(xs, ys), 4);
    lemma_five_certified(xs, ys, ws, b);
}

/// Rows and columns both unevenly spaced (or spaced by four), outside the
/// patterns of [`crate::rs_mds::lemma_rs_gap_rows`] and the two column
/// patterns: one of the certified pairs.
#[verifier::rlimit(100)]
#[verifier::spinoff_prover]
proof fn lemma_five_certified_pairs(xs: Seq<int>, ys: Seq<u8>, ws: Seq<u8>)
    requires
        parity_system(rs_grid(5, 5), 5, 5, xs, ys, ws),
        2 <= xs.len() <= 4,
        !five_rows_even(xs),
        !five_cols_even(ys),
        !(xs.len() == 3 && xs[0] == 5 && xs[2] == 8),
        !(xs.len() == 3 && ys[0] == 0 && ys[2] == 3),
    ensures
        forall|q: int| 0 <= q < ws.len() ==> #[trigger] ws[q] == 0,
{
    let m = xs.len() as int;
    lemma_five_bounds(xs, ys);
    if m == 2 && xs[0] == 5 && xs[1] == 9 {
        if ys[0] == 0 && ys[1] == 4 {
            lemma_five_rows_04_cols_04(xs, ys, ws);
        }
    } else if m == 3 && xs[0] == 5 && xs[1] == 6 && xs[2] == 9 {
        if ys[0] == 0 && ys[1] == 1 && ys[2] == 4 {
            lemma_five_rows_014_cols_014(xs, ys, ws);
        } else if ys[0] == 0 && ys[1] == 3 && ys[2] == 4 {
            lemma_five_rows_014_cols_034(xs, ys, ws);
        } else if ys[0] == 1 && ys[1] == 2 && ys[2] == 4 {
            lemma_five_rows_014_cols_124(xs, ys, ws);
        } else if ys[0] == 1 && ys[1] == 3 && ys[2] == 4 {
            lemma_five_rows_014_cols_134(xs, ys, ws);
        }
    } else if m == 3 && xs[0] == 5 && xs[1] == 8 && xs[2] == 9 {
        if ys[0] == 0 && ys[1] == 1 && ys[2] == 4 {
            lemma_five_rows_034_cols_014(xs, ys, ws);
        } else if ys[0] == 0 && ys[1] == 3 && ys[2] == 4 {
            lemma_five_rows_034_cols_034(xs, ys, ws);
        } else if ys[0] == 1 && ys[1] == 2 && ys[2] == 4 {
            lemma_five_rows_034_cols_124(xs, ys, ws);
        } else if ys[0] == 1 && ys[1] == 3 && ys[2] == 4 {
            lemma_five_rows_034_cols_134(xs, ys, ws);
        }
    } else if m == 3 && xs[0] == 6 && xs[1] == 7 && xs[2] == 9 {
        if ys[0] == 0 && ys[1] == 1 && ys[2] == 4 {
            lemma_five_rows_124_cols_014(xs, ys, ws);
        } else if ys[0] == 0 && ys[1] == 3 && ys[2] == 4 {
            lemma_five_rows_124_cols_034(xs, ys, ws);
        } else if ys[0] == 1 && ys[1] == 2 && ys[2] == 4 {
            lemma_five_rows_124_cols_124(xs, ys, ws);
        } else if ys[0] == 1 && ys[1] == 3 && ys[2] == 4 {
            lemma_five_rows_124_cols_134(xs, ys, ws);
        }
    } else if m == 3 && xs[0] == 6 && xs[1] == 8 && xs[2] == 9 {
        if ys[0] == 0 && ys[1] == 1 && ys[2] == 4 {
            lemma_five_rows_134_cols_014(xs, ys, ws);
        } else if ys[0] == 0 && ys[1] == 3 && ys[2] == 4 {
            lemma_five_rows_134_cols_034(xs, ys, ws);
        } else if ys[0] == 1 && ys[1] == 2 && ys[2] == 4 {
            lemma_five_rows_134_cols_124(xs, ys, ws);
        } else if ys[0] == 1 && ys[1] == 3 && ys[2] == 4 {
            lemma_five_rows_134_cols_134(xs, ys, ws);
        }
    } else if m == 4 && xs[0] == 5 && xs[1] == 6 && xs[2] == 7 && xs[3] == 9 {
        if ys[0] == 0 && ys[1] == 1 && ys[2] == 2 && ys[3] == 4 {
            lemma_five_rows_0124_cols_0124(xs, ys, ws);
        } else if ys[0] == 0 && ys[1] == 1 && ys[2] == 3 && ys[3] == 4 {
            lemma_five_rows_0124_cols_0134(xs, ys, ws);
        } else if ys[0] == 0 && ys[1] == 2 && ys[2] == 3 && ys[3] == 4 {
            lemma_five_rows_0124_cols_0234(xs, ys, ws);
        }
    } else if m == 4 && xs[0] == 5 && xs[1] == 6 && xs[2] == 8 && xs[3] == 9 {
        if ys[0] == 0 && ys[1] == 1 && ys[2] == 2 && ys[3] == 4 {
            lemma_five_rows_0134_cols_0124(xs, ys, ws);
        } else if ys[0] == 0 && ys[1] == 1 && ys[2] == 3 && ys[3] == 4 {
            lemma_five_rows_0134_cols_0134(xs, ys, ws);
        } else if ys[0] == 0 && ys[1] == 2 && ys[2] == 3 && ys[3] == 4 {
            lemma_five_rows_0134_cols_0234(xs, ys, ws);
        }
    } else if m == 4 && xs[0] == 5 && xs[1] == 7 && xs[2] == 8 && xs[3] == 9 {
        if ys[0] == 0 && ys[1] == 1 && ys[2] == 2 && ys[3] == 4 {
            lemma_five_rows_0234_cols_0124(xs, ys, ws);
        } else if ys[0] == 0 && ys[1] == 1 && ys[2] == 3 && ys[3] == 4 {
            lemma_five_rows_0234_cols_0134(xs, ys, ws);
        } else if ys[0] == 0 && ys[1] == 2 && ys[2] == 3 && ys[3] == 4 {
            lemma_five_rows_0234_cols_0234(xs, ys, ws);
        }
    }
}

/// Evenly spaced kept parity rows: `xs[l] == xs[0] + l * (xs[1] - xs[0])`.
proof fn lemma_even_rows(xs: Seq<int>, l: int)
    requires
        2 <= xs.len() <= 5,
        0 <= l < xs.len(),
        five_rows_even(xs),
    ensures
        xs[l] == xs[0] + l * (xs[1] - xs[0]),
{
    let d = xs[1] - xs[0];
    if l == 0 {
        assert(0 * d == 0);
    } else if l == 1 {
        assert(1 * d == d);
    } else if l == 2 {
        assert(2 * d == d + d);
    } else if l == 3 {
        assert(3 * d == d + d + d);
    } else {
        assert(4 * d == d + d + d + d);
    }
}

/// Evenly spaced missing columns: `ys[q] == ys[0] + q * (ys[1] - ys[0])`.
proof fn lemma_even_cols(ys: Seq<u8>, q: int)
    requires
        2 <= ys.len() <= 5,
        0 <= q < ys.len(),
        five_cols_even(ys),
    ensures
        ys[q] == ys[0] + q * (ys[1] - ys[0]),
{
    let d = ys[1] - ys[0];
    if q == 0 {
        assert(0 * d == 0);
    } else if q == 1 {
        assert(1 * d == d);
    } else if q == 2 {
        assert(2 * d == d + d);
    } else if q == 3 {
        assert(3 * d == d + d + d);
    } else {
        assert(4 * d == d + d + d + d);
    }
}

/// Every square parity system of the Vandermonde-style encode matrix with
/// five sources and five parity rows has only the zero solution.
#[verifier::rlimit(100)]
#[verifier::spinoff_prover]
pub(crate) proof fn lemma_rs_blocks_five(xs: Seq<int>, ys: Seq<u8>, ws: Seq<u8>)
    requires
        parity_system(rs_grid(5, 5), 5, 5, xs, ys, ws),
    ensures
        forall|q: int| 0 <= q < ws.len() ==> #[trigger] ws[q] == 0,
{
    let m = xs.len() as int;
    if m >= 6 {
        assert(xs[0] < xs[1] && xs[1] < xs[2] && xs[2] < xs[3] && xs[3] < xs[4] && xs[4] < xs[5]);
        assert(5 <= xs[0] && xs[5] < 10);
    }
    if m == 5 {
        assert(xs[0] < xs[1] && xs[1] < xs[2] && xs[2] < xs[3] && xs[3] < xs[4]);
        assert(5 <= xs[0] && xs[4] < 10);
        assert(five_rows_even(xs));
    }
    if m == 0 {
    } else if five_rows_even(xs) {
        let a: nat = (xs[0] - 5) as nat;
        let d: nat = if m >= 2 { (xs[1] - xs[0]) as nat } else { 1 };
        assert(1 <= d <= 3) by {
            if m >= 2 {
                assert(xs[0] < xs[1]);
            }
        }
        assert forall|l: int| 0 <= l < m implies #[trigger] xs[l] - 5 == a + l * d by {
            if m >= 2 {
                lemma_even_rows(xs, l);
            } else {
                assert(l == 0);
            }
        }
        lemma_rs_rows_spaced(5, 5, xs, ys, ws, a, d);
    } else if five_cols_even(ys) {
        let b: nat = ys[0] as nat;
        let d: nat = if m >= 2 { (ys[1] - ys[0]) as nat } else { 1 };
        assert(1 <= d <= 3) by {
            if m >= 2 {
                assert(ys[0] < ys[1]);
            }
        }
        assert forall|q: int| 0 <= q < m implies #[trigger] ys[q] == b + q * d by {
            if m >= 2 {
                lemma_even_cols(ys, q);
            } else {
                assert(q == 0);
            }
        }
        lemma_rs_cols_spaced(5, 5, xs, ys, ws, b, d);
    } else if m == 3 && xs[0] == 5 && xs[2] == 8 {
        assert(xs[0] < xs[1] && xs[1] < xs[2]);
        lemma_rs_gap_rows(5, 5, xs, ys, ws, (xs[1] - xs[0]) as nat);
    } else if m == 3 && ys[0] == 0 && ys[2] == 3 {
        assert(ys[0] < ys[1] && ys[1] < ys[2]);
        if ys[1] == 1 {
            assert(ys =~= seq![0u8, 1u8, 3u8]);
            lemma_rs_gap_cols_013(5, 5, xs, ys, ws);
        } else {
            assert(ys =~= seq![0u8, 2u8, 3u8]);
            lemma_rs_gap_cols_023(5, 5, xs, ys, ws);
        }
    } else {
        lemma_five_certified_pairs(xs, ys, ws);
    }
}

} // verus!
