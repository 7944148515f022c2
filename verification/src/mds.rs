//! Every recovery from a Cauchy code succeeds: any `k` rows of the
//! `(k + p) x k` Cauchy encode matrix (identity on top, `1 / (i XOR j)`
//! below) form a non-singular matrix, so a stripe that lost at most `p`
//! shards can always be rebuilt.
//!
//! The core is the square Cauchy system: if `XOR_j w_j / (x_l + y_j) == 0`
//! for as many distinct `x_l` as there are distinct unknowns `y_j` (no `x`
//! equal to a `y`), every `w_j` is zero ([`lemma_cauchy_kernel_trivial`]).
//! It is proved by eliminating one unknown at a time: combining two rows
//! leaves a Cauchy system one smaller, in rescaled unknowns.

use vstd::prelude::*;

use crate::algebra::{
    dot, is_kernel_witness, lemma_xsum_ext, lemma_xsum_scale, lemma_xsum_single, lemma_xsum_xor, mat_mul, singular,
    xsum, zeros,
};
use crate::decode::{count_present, lemma_take_present, select_grid, take_present};
use crate::matrix::{cauchy_entry, grid_from};
use crate::gf::{
    field_inv, field_mul, lemma_inverse_inverts, lemma_mul_associative, lemma_mul_commutative,
    lemma_mul_distributes_left, lemma_mul_distributes_right, lemma_mul_units, lemma_xor_units,
};

verus! {

// ---------------------------------------------------------------------------
// Field facts.
// ---------------------------------------------------------------------------

/// The inverse of a non-zero element is non-zero.
proof fn lemma_inv_nonzero(a: u8)
    requires
        a != 0,
    ensures
        field_inv(a) != 0,
{
    lemma_inverse_inverts(a);
    lemma_mul_units();
}

/// A product is zero only when a factor is.
pub(crate) proof fn lemma_no_zero_divisors(a: u8, b: u8)
    requires
        field_mul(a, b) == 0,
    ensures
        a == 0 || b == 0,
{
    if a != 0 {
        lemma_inverse_inverts(a);
        lemma_mul_units();
        lemma_mul_associative(field_inv(a), a, b);
    }
}

/// `a * (b * c) == b * (a * c)`.
proof fn lemma_mul_rotate(a: u8, b: u8, c: u8)
    ensures
        field_mul(a, field_mul(b, c)) == field_mul(b, field_mul(a, c)),
{
    lemma_mul_commutative();
    lemma_mul_associative(a, b, c);
    lemma_mul_associative(b, a, c);
}

/// `a * (a^-1 * w) == w` for non-zero `a`.
proof fn lemma_cancel(a: u8, w: u8)
    requires
        a != 0,
    ensures
        field_mul(a, field_mul(field_inv(a), w)) == w,
{
    lemma_inverse_inverts(a);
    lemma_mul_units();
    lemma_mul_associative(a, field_inv(a), w);
}

/// `a^-1 + b^-1 == a^-1 b^-1 (a + b)` for non-zero `a`, `b`.
proof fn lemma_inv_sum(a: u8, b: u8)
    requires
        a != 0,
        b != 0,
    ensures
        field_inv(a) ^ field_inv(b) == field_mul(field_mul(field_inv(a), field_inv(b)), a ^ b),
{
    let ia = field_inv(a);
    let ib = field_inv(b);
    let pr = field_mul(ia, ib);
    lemma_inverse_inverts(a);
    lemma_inverse_inverts(b);
    lemma_mul_units();
    lemma_mul_commutative();
    lemma_mul_distributes_right();
    // pr * a == ib
    lemma_mul_associative(ia, ib, a);
    lemma_mul_rotate(ia, ib, a);
    lemma_mul_associative(ia, a, ib);
    assert(field_mul(pr, a) == ib);
    // pr * b == ia
    lemma_mul_associative(ia, ib, b);
    assert(field_mul(pr, b) == ia);
    assert(field_mul(pr, a ^ b) == ib ^ ia);
    lemma_xor_units();
    assert(ib ^ ia == ia ^ ib);
}

/// One term of the elimination step. With `a = A + S`, `b = B + S`, the
/// rescaled term `(A + S)^-1 * w * (S + T) * (B + S)^-1` is a combination of
/// the two original terms `(A + S)^-1 w` and `(B + S)^-1 w`, with
/// coefficients that do not depend on `S`.
proof fn lemma_elimination_term(big_a: u8, big_b: u8, s: u8, t: u8, w: u8)
    requires
        big_a != big_b,
        big_a != s,
        big_b != s,
    ensures
        field_mul(field_inv(big_a ^ s), field_mul(w, field_mul(s ^ t, field_inv(big_b ^ s)))) == field_mul(
            field_inv(big_a ^ big_b),
            field_mul(big_a ^ t, field_mul(field_inv(big_a ^ s), w)) ^ field_mul(
                big_b ^ t,
                field_mul(field_inv(big_b ^ s), w),
            ),
        ),
{
    let a = big_a ^ s;
    let b = big_b ^ s;
    let e = s ^ t;
    let d = big_a ^ big_b;
    assert(a != 0 && b != 0 && d != 0 && big_a ^ t == a ^ e && big_b ^ t == b ^ e && d == a ^ b) by (bit_vector)
        requires
            a == big_a ^ s,
            b == big_b ^ s,
            e == s ^ t,
            d == big_a ^ big_b,
            big_a != big_b,
            big_a != s,
            big_b != s,
    ;
    let ia = field_inv(a);
    let ib = field_inv(b);
    let id = field_inv(d);
    let pr = field_mul(ia, ib);
    lemma_mul_units();
    lemma_mul_commutative();
    lemma_mul_distributes_right();
    // Left side: ia * (w * (e * ib)) == e * (w * pr).
    lemma_mul_rotate(w, e, ib);
    lemma_mul_rotate(ia, e, field_mul(w, ib));
    lemma_mul_rotate(ia, w, ib);
    let lhs = field_mul(ia, field_mul(w, field_mul(e, ib)));
    assert(lhs == field_mul(e, field_mul(w, pr)));
    // Right side, inner: (a + e)(ia w) + (b + e)(ib w) == e ((ia + ib) w).
    let x = field_mul(ia, w);
    let y = field_mul(ib, w);
    lemma_mul_distributes_left(a, e, x);
    lemma_mul_distributes_left(b, e, y);
    lemma_cancel(a, w);
    lemma_cancel(b, w);
    let ex = field_mul(e, x);
    let ey = field_mul(e, y);
    assert((w ^ ex) ^ (w ^ ey) == ex ^ ey) by (bit_vector);
    lemma_mul_distributes_left(ia, ib, w);
    assert(ex ^ ey == field_mul(e, field_mul(ia ^ ib, w)));
    // ia + ib == pr * d.
    lemma_inv_sum(a, b);
    let inner = field_mul(a ^ e, x) ^ field_mul(b ^ e, y);
    assert(inner == field_mul(e, field_mul(field_mul(pr, d), w)));
    // id * (e * ((pr * d) * w)) == e * (pr * w).
    lemma_mul_associative(pr, d, w);
    lemma_mul_rotate(id, e, field_mul(pr, field_mul(d, w)));
    lemma_mul_rotate(id, pr, field_mul(d, w));
    lemma_inverse_inverts(d);
    lemma_mul_associative(id, d, w);
    assert(field_mul(id, field_mul(d, w)) == w);
    assert(field_mul(id, inner) == field_mul(e, field_mul(pr, w)));
}

// ---------------------------------------------------------------------------
// The square Cauchy system.
// ---------------------------------------------------------------------------

/// Row `x` of a Cauchy system applied to the unknowns `w`:
/// `XOR_j (x + ys[j])^-1 * w[j]`.
pub open spec fn cauchy_dot(x: u8, ys: Seq<u8>, w: Seq<u8>) -> u8 {
    xsum(ys.len() as int, |j: int| field_mul(field_inv(x ^ ys[j]), w[j]))
}

/// No two entries of `s` are equal.
pub open spec fn distinct(s: Seq<u8>) -> bool {
    forall|a: int, b: int| #![trigger s[a], s[b]] 0 <= a < s.len() && 0 <= b < s.len() && a != b ==> s[a] != s[b]
}

/// No entry of `xs` is an entry of `ys`.
pub open spec fn apart(xs: Seq<u8>, ys: Seq<u8>) -> bool {
    forall|l: int, j: int| #![trigger xs[l], ys[j]] 0 <= l < xs.len() && 0 <= j < ys.len() ==> xs[l] != ys[j]
}

/// The unknowns after eliminating the last one against the row `b`:
/// `w[j] * (ys[j] + t) * (b + ys[j])^-1` for the other unknowns, `t` being
/// the last `y`.
pub open spec fn rescaled(ys: Seq<u8>, w: Seq<u8>, b: u8) -> Seq<u8> {
    Seq::new(
        (ys.len() - 1) as nat,
        |j: int| field_mul(w[j], field_mul(ys[j] ^ ys[ys.len() - 1], field_inv(b ^ ys[j]))),
    )
}

/// Combining rows `a` and `b` of a Cauchy system: the rescaled terms of row
/// `a` sum to a combination of the two rows.
proof fn lemma_row_combination(big_a: u8, big_b: u8, ys: Seq<u8>, w: Seq<u8>)
    requires
        ys.len() >= 1,
        w.len() == ys.len(),
        big_a != big_b,
        forall|j: int| 0 <= j < ys.len() ==> big_a != #[trigger] ys[j] && big_b != ys[j],
    ensures
        ({
            let t = ys[ys.len() - 1];
            xsum(
                ys.len() as int,
                |j: int| field_mul(field_inv(big_a ^ ys[j]), field_mul(w[j], field_mul(ys[j] ^ t, field_inv(big_b ^ ys[j])))),
            ) == field_mul(
                field_inv(big_a ^ big_b),
                field_mul(big_a ^ t, cauchy_dot(big_a, ys, w)) ^ field_mul(big_b ^ t, cauchy_dot(big_b, ys, w)),
            )
        }),
{
    let m = ys.len() as int;
    let t = ys[m - 1];
    let h = |j: int| field_mul(field_inv(big_a ^ ys[j]), field_mul(w[j], field_mul(ys[j] ^ t, field_inv(big_b ^ ys[j]))));
    let ra = |j: int| field_mul(field_inv(big_a ^ ys[j]), w[j]);
    let rb = |j: int| field_mul(field_inv(big_b ^ ys[j]), w[j]);
    let f1 = |j: int| field_mul(big_a ^ t, ra(j));
    let f2 = |j: int| field_mul(big_b ^ t, rb(j));
    let g = |j: int| f1(j) ^ f2(j);
    let hs = |j: int| field_mul(field_inv(big_a ^ big_b), g(j));
    assert forall|j: int| 0 <= j < m implies #[trigger] h(j) == hs(j) by {
        lemma_elimination_term(big_a, big_b, ys[j], t, w[j]);
    }
    lemma_xsum_ext(m, h, hs);
    lemma_xsum_xor(m, f1, f2, g);
    lemma_xsum_scale(m, field_inv(big_a ^ big_b), g, hs);
    lemma_xsum_scale(m, big_a ^ t, ra, f1);
    lemma_xsum_scale(m, big_b ^ t, rb, f2);
    lemma_xsum_ext(m, ra, |j: int| field_mul(field_inv(big_a ^ ys[j]), w[j]));
    lemma_xsum_ext(m, rb, |j: int| field_mul(field_inv(big_b ^ ys[j]), w[j]));
}

/// Eliminating the last unknown: when rows `a` and `b` vanish on `w`, row
/// `a` of the smaller system vanishes on the rescaled unknowns.
proof fn lemma_elimination_row(big_a: u8, big_b: u8, ys: Seq<u8>, w: Seq<u8>)
    requires
        ys.len() >= 1,
        w.len() == ys.len(),
        big_a != big_b,
        forall|j: int| 0 <= j < ys.len() ==> big_a != #[trigger] ys[j] && big_b != ys[j],
        cauchy_dot(big_a, ys, w) == 0,
        cauchy_dot(big_b, ys, w) == 0,
    ensures
        cauchy_dot(big_a, ys.drop_last(), rescaled(ys, w, big_b)) == 0,
{
    let m = ys.len() as int;
    let t = ys[m - 1];
    let h = |j: int| field_mul(field_inv(big_a ^ ys[j]), field_mul(w[j], field_mul(ys[j] ^ t, field_inv(big_b ^ ys[j]))));
    lemma_row_combination(big_a, big_b, ys, w);
    lemma_mul_units();
    let ca = field_mul(big_a ^ t, cauchy_dot(big_a, ys, w));
    let cb = field_mul(big_b ^ t, cauchy_dot(big_b, ys, w));
    assert(ca == 0 && cb == 0);
    lemma_xor_units();
    assert(ca ^ cb == 0u8);
    assert(xsum(m, h) == 0);
    assert(t ^ t == 0u8);
    assert(h(m - 1) == 0);
    let prev = xsum(m - 1, h);
    assert(prev ^ 0u8 == prev);
    let w2 = rescaled(ys, w, big_b);
    let ys2 = ys.drop_last();
    lemma_xsum_ext(m - 1, h, |j: int| field_mul(field_inv(big_a ^ ys2[j]), w2[j]));
}

/// A rescaled unknown is zero only when the unknown is.
proof fn lemma_unscale(w: u8, y: u8, t: u8, b: u8)
    requires
        y != t,
        b != y,
        field_mul(w, field_mul(y ^ t, field_inv(b ^ y))) == 0,
    ensures
        w == 0,
{
    let e = y ^ t;
    let bs = b ^ y;
    lemma_xor_units();
    assert(e != 0 && bs != 0);
    lemma_inv_nonzero(bs);
    lemma_no_zero_divisors(w, field_mul(e, field_inv(bs)));
    if w != 0 {
        lemma_no_zero_divisors(e, field_inv(bs));
    }
}

/// Every row but the last, of the system reduced against the last row,
/// vanishes on the rescaled unknowns.
proof fn lemma_reduced_rows(xs: Seq<u8>, ys: Seq<u8>, w: Seq<u8>)
    requires
        xs.len() >= 1,
        ys.len() >= 1,
        w.len() == ys.len(),
        distinct(xs),
        apart(xs, ys),
        forall|l: int| 0 <= l < xs.len() ==> #[trigger] cauchy_dot(xs[l], ys, w) == 0,
    ensures
        forall|l: int| 0 <= l < xs.len() - 1 ==> #[trigger] cauchy_dot(
            xs.drop_last()[l],
            ys.drop_last(),
            rescaled(ys, w, xs[xs.len() - 1]),
        ) == 0,
{
    let last = xs.len() - 1;
    let big_b = xs[last];
    assert forall|l: int| 0 <= l < xs.len() - 1 implies #[trigger] cauchy_dot(
        xs.drop_last()[l],
        ys.drop_last(),
        rescaled(ys, w, big_b),
    ) == 0 by {
        let big_a = xs[l];
        assert(xs.drop_last()[l] == big_a);
        assert(big_a != big_b);
        assert(cauchy_dot(xs[l], ys, w) == 0);
        assert(cauchy_dot(xs[last], ys, w) == 0);
        assert forall|j: int| 0 <= j < ys.len() implies big_a != #[trigger] ys[j] && big_b != ys[j] by {
            assert(xs[l] != ys[j]);
            assert(xs[last] != ys[j]);
        }
        lemma_elimination_row(big_a, big_b, ys, w);
    }
}

/// When every unknown but the last is zero, a vanishing row forces the last
/// to zero too.
proof fn lemma_last_unknown(big_b: u8, ys: Seq<u8>, w: Seq<u8>)
    requires
        ys.len() >= 1,
        w.len() == ys.len(),
        big_b != ys[ys.len() - 1],
        forall|j: int| 0 <= j < ys.len() - 1 ==> #[trigger] w[j] == 0,
        cauchy_dot(big_b, ys, w) == 0,
    ensures
        w[ys.len() - 1] == 0,
{
    let m = ys.len() as int;
    let t = ys[m - 1];
    let hb = |j: int| field_mul(field_inv(big_b ^ ys[j]), w[j]);
    lemma_mul_units();
    assert forall|j: int| 0 <= j < m && j != m - 1 implies #[trigger] hb(j) == 0 by {
        assert(w[j] == 0);
    }
    lemma_xsum_single(m, hb, m - 1);
    let bt = big_b ^ t;
    lemma_xor_units();
    assert(bt != 0);
    lemma_inv_nonzero(bt);
    lemma_no_zero_divisors(field_inv(bt), w[m - 1]);
}

/// A Cauchy system with at least as many distinct rows `xs` as distinct
/// unknowns `ys`, no row equal to an unknown, has only the zero solution:
/// if every row vanishes on `w`, `w` is zero.
pub proof fn lemma_cauchy_kernel_trivial(xs: Seq<u8>, ys: Seq<u8>, w: Seq<u8>)
    requires
        xs.len() >= ys.len(),
        w.len() == ys.len(),
        distinct(xs),
        distinct(ys),
        apart(xs, ys),
        forall|l: int| 0 <= l < xs.len() ==> #[trigger] cauchy_dot(xs[l], ys, w) == 0,
    ensures
        forall|j: int| 0 <= j < w.len() ==> #[trigger] w[j] == 0,
    decreases ys.len(),
{
    let m = ys.len() as int;
    if m > 0 {
        let last = xs.len() - 1;
        let big_b = xs[last];
        let t = ys[m - 1];
        let xs2 = xs.drop_last();
        let ys2 = ys.drop_last();
        let w2 = rescaled(ys, w, big_b);
        lemma_reduced_rows(xs, ys, w);
        assert(distinct(xs2)) by {
            assert forall|a: int, b: int| 0 <= a < xs2.len() && 0 <= b < xs2.len() && a != b implies #[trigger] xs2[a]
                != #[trigger] xs2[b] by {
                assert(xs[a] != xs[b]);
            }
        }
        assert(distinct(ys2)) by {
            assert forall|a: int, b: int| 0 <= a < ys2.len() && 0 <= b < ys2.len() && a != b implies #[trigger] ys2[a]
                != #[trigger] ys2[b] by {
                assert(ys[a] != ys[b]);
            }
        }
        assert(apart(xs2, ys2)) by {
            assert forall|l: int, j: int| 0 <= l < xs2.len() && 0 <= j < ys2.len() implies #[trigger] xs2[l]
                != #[trigger] ys2[j] by {
                assert(xs[l] != ys[j]);
            }
        }
        lemma_cauchy_kernel_trivial(xs2, ys2, w2);
        assert forall|j: int| 0 <= j < m - 1 implies #[trigger] w[j] == 0 by {
            assert(w2[j] == 0);
            assert(ys[j] != ys[m - 1]);
            assert(xs[last] != ys[j]);
            lemma_unscale(w[j], ys[j], t, big_b);
        }
        assert(xs[last] != ys[m - 1]);
        assert(cauchy_dot(xs[last], ys, w) == 0);
        lemma_last_unknown(big_b, ys, w);
    }
}

// ---------------------------------------------------------------------------
// Selections of rows of the Cauchy encode matrix.
// ---------------------------------------------------------------------------

/// The `(k + p) x k` Cauchy encode matrix as rows.
pub open spec fn cauchy_grid(k: int, p: int) -> Seq<Seq<u8>> {
    grid_from(k + p, k, |i: int, j: int| cauchy_entry(k, i, j))
}

/// The entries of `s` increase strictly.
pub open spec fn increasing(s: Seq<usize>) -> bool {
    forall|a: int, b: int| #![trigger s[a], s[b]] 0 <= a < b < s.len() ==> s[a] < s[b]
}

/// How many of `0..m` occur in `s`.
pub open spec fn count_in(s: Seq<usize>, m: int) -> int
    decreases m,
{
    if m <= 0 {
        0
    } else {
        count_in(s, m - 1) + if s.contains((m - 1) as usize) {
            1int
        } else {
            0int
        }
    }
}

/// How many entries of `s` are below `k`.
pub open spec fn count_below(s: Seq<usize>, k: int) -> int
    decreases s.len(),
{
    if s.len() == 0 {
        0
    } else {
        count_below(s.drop_last(), k) + if s.last() < k {
            1int
        } else {
            0int
        }
    }
}

/// The columns `0..m` that do not occur in `s`, in increasing order.
pub open spec fn missing_cols(s: Seq<usize>, m: int) -> Seq<u8>
    decreases m,
{
    if m <= 0 {
        Seq::empty()
    } else if s.contains((m - 1) as usize) {
        missing_cols(s, m - 1)
    } else {
        missing_cols(s, m - 1).push((m - 1) as u8)
    }
}

/// `j` is an entry of `ys`.
pub open spec fn listed(ys: Seq<u8>, j: int) -> bool {
    exists|q: int| 0 <= q < ys.len() && ys[q] == j
}

/// The positions of `s` whose entry is at least `k`, in order.
pub open spec fn parity_positions(s: Seq<usize>, k: int) -> Seq<int>
    decreases s.len(),
{
    if s.len() == 0 {
        Seq::empty()
    } else if s.last() >= k {
        parity_positions(s.drop_last(), k).push(s.len() - 1)
    } else {
        parity_positions(s.drop_last(), k)
    }
}

/// Adding a new entry `a` to `s` adds one to the count of `0..m` exactly
/// when `a < m`.
proof fn lemma_count_in_push(s: Seq<usize>, a: usize, m: int)
    requires
        !s.contains(a),
        0 <= m <= 256,
    ensures
        count_in(s.push(a), m) == count_in(s, m) + if (a as int) < m {
            1int
        } else {
            0int
        },
    decreases m,
{
    if m > 0 {
        lemma_count_in_push(s, a, m - 1);
        let x = (m - 1) as usize;
        if s.push(a).contains(x) {
            let i = choose|i: int| 0 <= i < s.push(a).len() && s.push(a)[i] == x;
            if i < s.len() {
                assert(s.contains(x));
            }
        }
        if s.contains(x) {
            let i = choose|i: int| 0 <= i < s.len() && s[i] == x;
            assert(s.push(a)[i] == x);
        }
        if a == x {
            assert(s.push(a)[s.len() as int] == x);
        }
        assert(s.push(a).contains(x) <==> (s.contains(x) || a == x));
        assert((a as int) < m <==> ((a as int) < m - 1 || a == x));
    }
}

/// For increasing `s`, the entries below `k` are exactly the values of
/// `0..k` that occur in `s`.
proof fn lemma_counts_agree(s: Seq<usize>, k: int)
    requires
        increasing(s),
        0 <= k <= 256,
    ensures
        count_below(s, k) == count_in(s, k),
    decreases s.len(),
{
    if s.len() == 0 {
        lemma_count_in_empty(s, k);
    } else {
        let s2 = s.drop_last();
        let a = s.last();
        assert(increasing(s2)) by {
            assert forall|x: int, y: int| 0 <= x < y < s2.len() implies #[trigger] s2[x] < #[trigger] s2[y] by {
                assert(s[x] < s[y]);
            }
        }
        lemma_counts_agree(s2, k);
        assert(!s2.contains(a)) by {
            if s2.contains(a) {
                let i = choose|i: int| 0 <= i < s2.len() && s2[i] == a;
                assert(s[i] < s[s.len() - 1]);
            }
        }
        assert(s2.push(a) =~= s);
        lemma_count_in_push(s2, a, k);
    }
}

/// Nothing occurs in the empty sequence.
proof fn lemma_count_in_empty(s: Seq<usize>, m: int)
    requires
        s.len() == 0,
    ensures
        count_in(s, m) == 0,
    decreases m,
{
    if m > 0 {
        lemma_count_in_empty(s, m - 1);
    }
}

/// The missing columns: each below `m` and absent from `s`, increasing,
/// every absent column listed, `m - count_in(s, m)` of them; and a sum over
/// `0..m` whose terms vanish on the columns of `s` is the sum over the
/// missing columns.
proof fn lemma_missing_cols(s: Seq<usize>, m: int, f: spec_fn(int) -> u8)
    requires
        0 <= m <= 256,
        forall|j: int| 0 <= j < m && s.contains(j as usize) ==> #[trigger] f(j) == 0,
    ensures
        ({
            let ys = missing_cols(s, m);
            &&& ys.len() == m - count_in(s, m)
            &&& forall|q: int| 0 <= q < ys.len() ==> (#[trigger] ys[q]) < m && !s.contains(ys[q] as usize)
            &&& forall|a: int, b: int| #![trigger ys[a], ys[b]] 0 <= a < b < ys.len() ==> ys[a] < ys[b]
            &&& forall|j: int| 0 <= j < m && !s.contains(j as usize) ==> #[trigger] listed(ys, j)
            &&& xsum(m, f) == xsum(ys.len() as int, |q: int| f(ys[q] as int))
        }),
    decreases m,
{
    if m > 0 {
        lemma_missing_cols(s, m - 1, f);
        let prev = missing_cols(s, m - 1);
        let ys = missing_cols(s, m);
        let x = (m - 1) as usize;
        assert(f(m - 1) == 0 ==> xsum(m, f) == xsum(m - 1, f)) by {
            let a = xsum(m - 1, f);
            crate::gf::lemma_xor_units();
            assert(a ^ 0u8 == a);
        }
        if s.contains(x) {
            assert(ys == prev);
        } else {
            assert(ys == prev.push((m - 1) as u8));
            assert(ys[prev.len() as int] == m - 1);
            lemma_xsum_ext(prev.len() as int, |q: int| f(ys[q] as int), |q: int| f(prev[q] as int));
            assert forall|j: int| 0 <= j < m && !s.contains(j as usize) implies #[trigger] listed(ys, j) by {
                if j < m - 1 {
                    assert(listed(prev, j));
                    let q = choose|q: int| 0 <= q < prev.len() && prev[q] == j;
                    assert(ys[q] == j);
                } else {
                    assert(ys[prev.len() as int] == j);
                }
            }
        }
    }
}

/// The parity positions: each a position of `s` whose entry is at least
/// `k`, increasing, `s.len() - count_below(s, k)` of them.
proof fn lemma_parity_positions(s: Seq<usize>, k: int)
    ensures
        ({
            let ps = parity_positions(s, k);
            &&& ps.len() == s.len() - count_below(s, k)
            &&& forall|l: int| 0 <= l < ps.len() ==> 0 <= #[trigger] ps[l] < s.len() && s[ps[l]] >= k
            &&& forall|a: int, b: int| #![trigger ps[a], ps[b]] 0 <= a < b < ps.len() ==> ps[a] < ps[b]
        }),
    decreases s.len(),
{
    if s.len() > 0 {
        let s2 = s.drop_last();
        lemma_parity_positions(s2, k);
        let prev = parity_positions(s2, k);
        assert forall|l: int| 0 <= l < prev.len() implies s[prev[l]] == s2[prev[l]] by {
        }
    }
}

/// Row `x` of the grid `g`, restricted to the columns `ys`, applied to the
/// unknowns `ws`.
pub open spec fn block_dot(g: Seq<Seq<u8>>, x: int, ys: Seq<u8>, ws: Seq<u8>) -> u8 {
    xsum(ys.len() as int, |q: int| field_mul(g[x][ys[q] as int], ws[q]))
}

/// A square system that a recovery must solve: the parity rows `xs`
/// (increasing, in `k..k + p`) of `g` on the missing columns `ys`
/// (increasing, below `k`), every row vanishing on the unknowns `ws`.
pub open spec fn parity_system(g: Seq<Seq<u8>>, k: int, p: int, xs: Seq<int>, ys: Seq<u8>, ws: Seq<u8>) -> bool {
    &&& xs.len() == ys.len()
    &&& ws.len() == ys.len()
    &&& forall|l: int| 0 <= l < xs.len() ==> k <= #[trigger] xs[l] < k + p
    &&& forall|a: int, b: int| #![trigger xs[a], xs[b]] 0 <= a < b < xs.len() ==> xs[a] < xs[b]
    &&& forall|q: int| 0 <= q < ys.len() ==> #[trigger] ys[q] < k
    &&& forall|a: int, b: int| #![trigger ys[a], ys[b]] 0 <= a < b < ys.len() ==> ys[a] < ys[b]
    &&& forall|l: int| 0 <= l < xs.len() ==> #[trigger] block_dot(g, xs[l], ys, ws) == 0
}

/// Every square parity system of `g` has only the zero solution.
pub open spec fn parity_blocks_trivial(g: Seq<Seq<u8>>, k: int, p: int) -> bool {
    forall|xs: Seq<int>, ys: Seq<u8>, ws: Seq<u8>| #[trigger]
        parity_system(g, k, p, xs, ys, ws) ==> forall|q: int| 0 <= q < ws.len() ==> #[trigger] ws[q] == 0
}

/// The top `k` rows of `g` are the identity.
pub open spec fn top_identity(g: Seq<Seq<u8>>, k: int) -> bool {
    forall|i: int, j: int| 0 <= i < k && 0 <= j < k ==> #[trigger] g[i][j] == if i == j { 1u8 } else { 0u8 }
}

/// For a systematic encode matrix whose square parity systems have only the
/// zero solution, any `k` distinct rows (listed in increasing order, as a
/// recovery selects its survivors) form a non-singular matrix.
#[verifier::rlimit(50)]
pub proof fn lemma_selection_nonsingular(g: Seq<Seq<u8>>, k: int, p: int, s: Seq<usize>)
    requires
        1 <= k,
        1 <= p,
        k + p <= 255,
        top_identity(g, k),
        parity_blocks_trivial(g, k, p),
        s.len() == k,
        forall|t: int| 0 <= t < k ==> (#[trigger] s[t]) < k + p,
        increasing(s),
    ensures
        !singular(select_grid(g, s), k),
{
    let sel = select_grid(g, s);
    if singular(sel, k) {
        let v = choose|v: Seq<Seq<u8>>| is_kernel_witness(sel, v, k);
        let wall = |u: int| v[u][0];
        // Every selected row vanishes on the witness.
        assert forall|t: int| 0 <= t < k implies #[trigger] dot(sel, v, k, t, 0) == 0 by {
            assert(mat_mul(sel, v, k, 1)[t][0] == zeros(k, 1)[t][0]);
        }
        // A selected source row reads off its unknown.
        assert forall|t: int| 0 <= t < k && s[t] < k implies #[trigger] wall(s[t] as int) == 0 by {
            let row = |u: int| field_mul(sel[t][u], v[u][0]);
            crate::gf::lemma_mul_units();
            assert forall|u: int| 0 <= u < k && u != s[t] implies #[trigger] row(u) == 0 by {
                assert(sel[t][u] == g[s[t] as int][u]);
            }
            assert(sel[t][s[t] as int] == g[s[t] as int][s[t] as int]);
            lemma_xsum_single(k, row, s[t] as int);
            assert(dot(sel, v, k, t, 0) == 0);
        }
        assert forall|j: int| 0 <= j < k && s.contains(j as usize) implies #[trigger] wall(j) == 0 by {
            let t = choose|t: int| 0 <= t < s.len() && s[t] == j as usize;
            assert(wall(s[t] as int) == 0);
        }
        // The parity rows form a square system on the missing columns.
        let ps = parity_positions(s, k);
        lemma_parity_positions(s, k);
        let xs = Seq::new(ps.len(), |l: int| s[ps[l]] as int);
        let ys = missing_cols(s, k);
        lemma_missing_cols(s, k, wall);
        let ws = Seq::new(ys.len(), |q: int| wall(ys[q] as int));
        lemma_counts_agree(s, k);
        assert forall|l: int| 0 <= l < xs.len() implies #[trigger] block_dot(g, xs[l], ys, ws) == 0 by {
            let t = ps[l];
            let row = |u: int| field_mul(sel[t][u], v[u][0]);
            assert forall|u: int| 0 <= u < k && s.contains(u as usize) implies #[trigger] row(u) == 0 by {
                crate::gf::lemma_mul_units();
                assert(wall(u) == 0);
            }
            lemma_missing_cols(s, k, row);
            assert(dot(sel, v, k, t, 0) == 0);
            lemma_xsum_ext(
                ys.len() as int,
                |q: int| row(ys[q] as int),
                |q: int| field_mul(g[xs[l]][ys[q] as int], ws[q]),
            );
        }
        assert forall|a: int, b: int| 0 <= a < b < xs.len() implies #[trigger] xs[a] < #[trigger] xs[b] by {
            assert(s[ps[a]] < s[ps[b]]);
        }
        assert(parity_system(g, k, p, xs, ys, ws));
        // So every unknown is zero, against the witness.
        assert forall|j: int| 0 <= j < k implies #[trigger] v[j][0] == 0 by {
            if s.contains(j as usize) {
                assert(wall(j) == 0);
            } else {
                assert(listed(ys, j));
                let q = choose|q: int| 0 <= q < ys.len() && ys[q] == j;
                assert(ws[q] == 0);
            }
        }
        assert(false);
    }
}

/// Every square parity system of the Cauchy encode matrix has only the zero
/// solution.
#[verifier::rlimit(50)]
pub proof fn lemma_cauchy_blocks_trivial(k: int, p: int)
    requires
        1 <= k,
        1 <= p,
        k + p <= 255,
    ensures
        parity_blocks_trivial(cauchy_grid(k, p), k, p),
{
    let g = cauchy_grid(k, p);
    assert forall|xs: Seq<int>, ys: Seq<u8>, ws: Seq<u8>| #[trigger] parity_system(g, k, p, xs, ys, ws) implies forall|
        q: int,
    | 0 <= q < ws.len() ==> #[trigger] ws[q] == 0 by {
        let xb = Seq::new(xs.len(), |l: int| xs[l] as u8);
        assert forall|l: int| 0 <= l < xb.len() implies #[trigger] cauchy_dot(xb[l], ys, ws) == 0 by {
            assert(block_dot(g, xs[l], ys, ws) == 0);
            assert forall|q: int| 0 <= q < ys.len() implies field_mul(g[xs[l]][ys[q] as int], ws[q]) == field_mul(
                field_inv(xb[l] ^ ys[q]),
                ws[q],
            ) by {
                assert(g[xs[l]][ys[q] as int] == cauchy_entry(k, xs[l], ys[q] as int));
                assert(((xs[l] as u8) ^ ((ys[q] as int) as u8)) == xb[l] ^ ys[q]);
            }
            lemma_xsum_ext(
                ys.len() as int,
                |q: int| field_mul(g[xs[l]][ys[q] as int], ws[q]),
                |q: int| field_mul(field_inv(xb[l] ^ ys[q]), ws[q]),
            );
        }
        assert(distinct(xb)) by {
            assert forall|a: int, b: int| 0 <= a < xb.len() && 0 <= b < xb.len() && a != b implies #[trigger] xb[a]
                != #[trigger] xb[b] by {
                if a < b {
                    assert(xs[a] < xs[b]);
                } else {
                    assert(xs[b] < xs[a]);
                }
            }
        }
        assert(distinct(ys)) by {
            assert forall|a: int, b: int| 0 <= a < ys.len() && 0 <= b < ys.len() && a != b implies #[trigger] ys[a]
                != #[trigger] ys[b] by {
                if a < b {
                    assert(ys[a] < ys[b]);
                } else {
                    assert(ys[b] < ys[a]);
                }
            }
        }
        assert(apart(xb, ys)) by {
            assert forall|l: int, q: int| 0 <= l < xb.len() && 0 <= q < ys.len() implies #[trigger] xb[l]
                != #[trigger] ys[q] by {
                assert(xs[l] >= k);
                assert(ys[q] < k);
            }
        }
        lemma_cauchy_kernel_trivial(xb, ys, ws);
    }
}

/// Any `k` distinct rows of the `(k + p) x k` Cauchy encode matrix form a
/// non-singular matrix: no non-zero vector is sent to zero. The rows are
/// listed in increasing order (as a recovery selects its survivors).
pub proof fn lemma_cauchy_selection_nonsingular(k: int, p: int, s: Seq<usize>)
    requires
        1 <= k,
        1 <= p,
        k + p <= 255,
        s.len() == k,
        forall|t: int| 0 <= t < k ==> (#[trigger] s[t]) < k + p,
        increasing(s),
    ensures
        !singular(select_grid(cauchy_grid(k, p), s), k),
{
    lemma_cauchy_blocks_trivial(k, p);
    lemma_selection_nonsingular(cauchy_grid(k, p), k, p, s);
}

/// A Cauchy stripe that still has `k` of its `k + p` shards can always be
/// rebuilt: the rows of the first `k` present shards — the survivors a
/// recovery uses — form a non-singular matrix.
pub proof fn lemma_cauchy_survivors_nonsingular(k: int, p: int, present: Seq<bool>)
    requires
        1 <= k,
        1 <= p,
        k + p <= 255,
        present.len() == k + p,
        count_present(present, k + p) >= k,
    ensures
        !singular(select_grid(cauchy_grid(k, p), take_present(present, k + p, k)), k),
{
    lemma_take_present(present, k + p, k);
    let s = take_present(present, k + p, k);
    assert(increasing(s)) by {
        assert forall|a: int, b: int| 0 <= a < b < s.len() implies #[trigger] s[a] < #[trigger] s[b] by {
        }
    }
    lemma_cauchy_selection_nonsingular(k, p, s);
}


// ---------------------------------------------------------------------------
// Rows listed in any order.
// ---------------------------------------------------------------------------

/// No entry of `s` occurs twice.
pub open spec fn distinct_rows(s: Seq<usize>) -> bool {
    forall|a: int, b: int| #![trigger s[a], s[b]] 0 <= a < b < s.len() ==> s[a] != s[b]
}

/// Which of `0..n` occur in `s`.
pub open spec fn membership(s: Seq<usize>, n: int) -> Seq<bool> {
    Seq::new(n as nat, |i: int| s.contains(i as usize))
}

/// A list of distinct values below `m` holds `s.len()` of them.
#[verifier::rlimit(50)]
proof fn lemma_count_in_distinct(s: Seq<usize>, m: int)
    requires
        0 <= m <= 256,
        distinct_rows(s),
        forall|t: int| 0 <= t < s.len() ==> (#[trigger] s[t]) < m,
    ensures
        count_in(s, m) == s.len(),
    decreases s.len(),
{
    if s.len() == 0 {
        lemma_count_in_empty(s, m);
    } else {
        let s2 = s.drop_last();
        let a = s.last();
        assert(distinct_rows(s2)) by {
            assert forall|x: int, y: int| 0 <= x < y < s2.len() implies #[trigger] s2[x] != #[trigger] s2[y] by {
                assert(s[x] != s[y]);
            }
        }
        assert forall|t: int| 0 <= t < s2.len() implies (#[trigger] s2[t]) < m by {
            assert(s[t] < m);
        }
        lemma_count_in_distinct(s2, m);
        assert(!s2.contains(a)) by {
            if s2.contains(a) {
                let i = choose|i: int| 0 <= i < s2.len() && s2[i] == a;
                assert(s[i] != s[s.len() - 1]);
            }
        }
        assert(s2.push(a) =~= s);
        assert(s[s.len() - 1] < m);
        lemma_count_in_push(s2, a, m);
    }
}

/// Counting the members below `m` is counting the values of `0..m` in `s`.
proof fn lemma_count_membership(s: Seq<usize>, n: int, m: int)
    requires
        0 <= m <= n,
    ensures
        count_present(membership(s, n), m) == count_in(s, m),
    decreases m,
{
    if m > 0 {
        lemma_count_membership(s, n, m - 1);
    }
}

/// Two listings of `k` rows where every row of the second is a row of the
/// first: if the second is non-singular, so is the first (a vector the first
/// sends to zero meets every row of the second too).
#[verifier::rlimit(50)]
pub(crate) proof fn lemma_same_rows_nonsingular(g: Seq<Seq<u8>>, k: int, s: Seq<usize>, t: Seq<usize>)
    requires
        s.len() == k,
        t.len() == k,
        forall|u: int| #![trigger t[u]] 0 <= u < k ==> exists|w: int| 0 <= w < k && #[trigger] s[w] == t[u],
        !singular(select_grid(g, t), k),
    ensures
        !singular(select_grid(g, s), k),
{
    let ss = select_grid(g, s);
    let st = select_grid(g, t);
    if singular(ss, k) {
        let v = choose|v: Seq<Seq<u8>>| is_kernel_witness(ss, v, k);
        assert forall|u: int| 0 <= u < k implies #[trigger] mat_mul(st, v, k, 1)[u] == zeros(k, 1)[u] by {
            let w = choose|w: int| 0 <= w < k && #[trigger] s[w] == t[u];
            assert(st[u] == ss[w]);
            assert(mat_mul(ss, v, k, 1)[w] == zeros(k, 1)[w]);
            assert(mat_mul(st, v, k, 1)[u] =~= mat_mul(ss, v, k, 1)[w]);
        }
        assert(mat_mul(st, v, k, 1) =~= zeros(k, 1));
        assert(is_kernel_witness(st, v, k));
        assert(false);
    }
}

/// The increasing listing of the rows of `s` (distinct, below `n`): `k`
/// rows, each one a row of `s`.
#[verifier::rlimit(50)]
pub(crate) proof fn lemma_sorted_listing(s: Seq<usize>, k: int, n: int)
    requires
        1 <= k <= n <= 256,
        s.len() == k,
        distinct_rows(s),
        forall|t: int| 0 <= t < k ==> (#[trigger] s[t]) < n,
    ensures
        ({
            let t = take_present(membership(s, n), n, k);
            &&& t.len() == k
            &&& forall|u: int| 0 <= u < k ==> (#[trigger] t[u]) < n
            &&& increasing(t)
            &&& forall|u: int| #![trigger t[u]] 0 <= u < k ==> exists|w: int| 0 <= w < k && #[trigger] s[w] == t[u]
        }),
{
    let pres = membership(s, n);
    lemma_count_in_distinct(s, n);
    lemma_count_membership(s, n, n);
    assert(count_present(pres, n) == k);
    lemma_take_present(pres, n, k);
    let t = take_present(pres, n, k);
    assert(t.len() == k);
    assert forall|u: int| 0 <= u < k implies (#[trigger] t[u]) < n by {
    }
    assert forall|u: int| #![trigger t[u]] 0 <= u < k implies exists|w: int| 0 <= w < k && #[trigger] s[w] == t[u] by {
        assert(pres[t[u] as int]);
        assert(s.contains(t[u]));
        let w = choose|w: int| 0 <= w < s.len() && s[w] == t[u];
        assert(s[w] == t[u]);
    }
    assert(increasing(t)) by {
        assert forall|a: int, b: int| 0 <= a < b < t.len() implies #[trigger] t[a] < #[trigger] t[b] by {
        }
    }
}

/// Any `k` distinct rows of the `(k + p) x k` Cauchy encode matrix, listed
/// in any order, form a non-singular matrix.
pub proof fn lemma_cauchy_listing_nonsingular(k: int, p: int, s: Seq<usize>)
    requires
        1 <= k,
        1 <= p,
        k + p <= 255,
        s.len() == k,
        distinct_rows(s),
        forall|t: int| 0 <= t < k ==> (#[trigger] s[t]) < k + p,
    ensures
        !singular(select_grid(cauchy_grid(k, p), s), k),
{
    lemma_sorted_listing(s, k, k + p);
    let t = take_present(membership(s, k + p), k + p, k);
    lemma_cauchy_selection_nonsingular(k, p, t);
    lemma_same_rows_nonsingular(cauchy_grid(k, p), k, s, t);
}

} // verus!
