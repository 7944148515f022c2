//! Linear algebra over GF(2^8), as specifications: sums (XOR folds), matrix
//! products, identity matrices, and the laws the coding proofs rest on.
//!
//! A matrix is modelled as a `Seq<Seq<u8>>` of rows; [`is_grid`] says it is
//! `r x c`. Addition in the field is XOR, so a sum of field elements is an
//! XOR fold, [`xsum`].

use vstd::prelude::*;

use crate::gf::{
    field_mul, lemma_mul_associative, lemma_mul_commutative, lemma_mul_distributes_right,
    lemma_mul_distributes_left, lemma_mul_units, lemma_xor_laws,
};

verus! {

/// XOR of `f(0), f(1), ..., f(n - 1)` (0 for an empty range).
pub open spec fn xsum(n: int, f: spec_fn(int) -> u8) -> u8
    decreases n,
{
    if n <= 0 {
        0u8
    } else {
        xsum(n - 1, f) ^ f(n - 1)
    }
}

/// `a` is an `r x c` matrix.
pub open spec fn is_grid(a: Seq<Seq<u8>>, r: int, c: int) -> bool {
    &&& a.len() == r
    &&& forall|i: int| 0 <= i < r ==> (#[trigger] a[i]).len() == c
}

/// Entry `(i, j)` of the product of `a` (`_ x m`) and `b` (`m x _`).
pub open spec fn dot(a: Seq<Seq<u8>>, b: Seq<Seq<u8>>, m: int, i: int, j: int) -> u8 {
    xsum(m, |t: int| field_mul(a[i][t], b[t][j]))
}

/// The product of `a` (`a.len() x m`) and `b` (`m x p`).
pub open spec fn mat_mul(a: Seq<Seq<u8>>, b: Seq<Seq<u8>>, m: int, p: int) -> Seq<Seq<u8>> {
    Seq::new(a.len(), |i: int| Seq::new(p as nat, |j: int| dot(a, b, m, i, j)))
}

/// The `n x n` identity matrix.
pub open spec fn identity(n: int) -> Seq<Seq<u8>> {
    Seq::new(n as nat, |i: int| Seq::new(n as nat, |j: int| if i == j { 1u8 } else { 0u8 }))
}

/// The `n x c` zero matrix.
pub open spec fn zeros(n: int, c: int) -> Seq<Seq<u8>> {
    Seq::new(n as nat, |i: int| Seq::new(c as nat, |j: int| 0u8))
}

/// `b` is a two-sided inverse of the `n x n` matrix `a`.
pub open spec fn is_inverse(a: Seq<Seq<u8>>, b: Seq<Seq<u8>>, n: int) -> bool {
    &&& is_grid(b, n, n)
    &&& mat_mul(b, a, n, n) == identity(n)
    &&& mat_mul(a, b, n, n) == identity(n)
}

/// The `n x n` matrix `a` has an inverse.
pub open spec fn invertible(a: Seq<Seq<u8>>, n: int) -> bool {
    exists|b: Seq<Seq<u8>>| is_inverse(a, b, n)
}

/// The inverse of an invertible `n x n` matrix (unique, see
/// [`lemma_inverse_unique_matrix`]).
pub open spec fn inverse_of(a: Seq<Seq<u8>>, n: int) -> Seq<Seq<u8>> {
    choose|b: Seq<Seq<u8>>| is_inverse(a, b, n)
}

/// `v` (an `n x 1` column) is a non-zero vector that `a` (`n x n`) maps to 0:
/// a witness that `a` is singular.
pub open spec fn is_kernel_witness(a: Seq<Seq<u8>>, v: Seq<Seq<u8>>, n: int) -> bool {
    &&& is_grid(v, n, 1)
    &&& exists|i: int| 0 <= i < n && v[i][0] != 0
    &&& mat_mul(a, v, n, 1) == zeros(n, 1)
}

/// The `n x n` matrix `a` sends some non-zero vector to 0.
pub open spec fn singular(a: Seq<Seq<u8>>, n: int) -> bool {
    exists|v: Seq<Seq<u8>>| is_kernel_witness(a, v, n)
}

// ---------------------------------------------------------------------------
// Sums.
// ---------------------------------------------------------------------------

/// A sum depends only on the summands in range.
pub proof fn lemma_xsum_ext(n: int, f: spec_fn(int) -> u8, g: spec_fn(int) -> u8)
    requires
        forall|i: int| 0 <= i < n ==> #[trigger] f(i) == g(i),
    ensures
        xsum(n, f) == xsum(n, g),
    decreases n,
{
    if n > 0 {
        lemma_xsum_ext(n - 1, f, g);
    }
}

/// A sum of zeros is zero.
pub proof fn lemma_xsum_zero(n: int, f: spec_fn(int) -> u8)
    requires
        forall|i: int| 0 <= i < n ==> #[trigger] f(i) == 0,
    ensures
        xsum(n, f) == 0,
    decreases n,
{
    lemma_xor_laws();
    if n > 0 {
        lemma_xsum_zero(n - 1, f);
    }
}

proof fn lemma_xor_shuffle()
    by (bit_vector)
    ensures
        forall|a: u8, b: u8, c: u8, d: u8| #[trigger] ((a ^ b) ^ (c ^ d)) == ((a ^ c) ^ (b ^ d)),
{
}

/// The sum of pointwise sums is the sum of the sums.
pub proof fn lemma_xsum_xor(n: int, f: spec_fn(int) -> u8, g: spec_fn(int) -> u8, h: spec_fn(int) -> u8)
    requires
        forall|i: int| 0 <= i < n ==> #[trigger] h(i) == f(i) ^ g(i),
    ensures
        xsum(n, h) == xsum(n, f) ^ xsum(n, g),
    decreases n,
{
    lemma_xor_laws();
    if n > 0 {
        lemma_xsum_xor(n - 1, f, g, h);
        lemma_xor_shuffle();
        assert((xsum(n - 1, f) ^ xsum(n - 1, g)) ^ (f(n - 1) ^ g(n - 1)) == (xsum(n - 1, f) ^ f(n
            - 1)) ^ (xsum(n - 1, g) ^ g(n - 1)));
    }
}

/// A common factor comes out of a sum.
pub proof fn lemma_xsum_scale(n: int, c: u8, f: spec_fn(int) -> u8, g: spec_fn(int) -> u8)
    requires
        forall|i: int| 0 <= i < n ==> #[trigger] g(i) == field_mul(c, f(i)),
    ensures
        xsum(n, g) == field_mul(c, xsum(n, f)),
    decreases n,
{
    lemma_mul_units();
    lemma_mul_distributes_right();
    if n > 0 {
        lemma_xsum_scale(n - 1, c, f, g);
    }
}

/// A common right factor comes out of a sum.
pub proof fn lemma_xsum_scale_right(n: int, c: u8, f: spec_fn(int) -> u8, g: spec_fn(int) -> u8)
    requires
        forall|i: int| 0 <= i < n ==> #[trigger] g(i) == field_mul(f(i), c),
    ensures
        xsum(n, g) == field_mul(xsum(n, f), c),
{
    lemma_mul_commutative();
    lemma_xsum_scale(n, c, f, g);
}

/// A sum with one possibly non-zero summand is that summand.
pub proof fn lemma_xsum_single(n: int, f: spec_fn(int) -> u8, k: int)
    requires
        0 <= k < n,
        forall|i: int| 0 <= i < n && i != k ==> #[trigger] f(i) == 0,
    ensures
        xsum(n, f) == f(k),
    decreases n,
{
    lemma_xor_laws();
    if n - 1 == k {
        lemma_xsum_zero(n - 1, f);
    } else {
        lemma_xsum_single(n - 1, f, k);
    }
}

/// Changing one summand changes the sum by the difference.
pub proof fn lemma_xsum_update(n: int, f: spec_fn(int) -> u8, g: spec_fn(int) -> u8, k: int)
    requires
        0 <= k < n,
        forall|i: int| 0 <= i < n && i != k ==> #[trigger] f(i) == g(i),
    ensures
        xsum(n, g) == (xsum(n, f) ^ f(k)) ^ g(k),
{
    lemma_xor_laws();
    let d = |i: int| f(i) ^ g(i);
    assert forall|i: int| 0 <= i < n && i != k implies #[trigger] d(i) == 0 by {
        assert(f(i) ^ g(i) == f(i) ^ f(i));
    }
    lemma_xsum_single(n, d, k);
    assert forall|i: int| 0 <= i < n implies #[trigger] g(i) == f(i) ^ d(i) by {
        assert(f(i) ^ (f(i) ^ g(i)) == (f(i) ^ f(i)) ^ g(i));
    }
    lemma_xsum_xor(n, f, d, g);
    assert((xsum(n, f) ^ f(k)) ^ g(k) == xsum(n, f) ^ (f(k) ^ g(k)));
}

/// Exchanging two summands leaves the sum unchanged.
pub proof fn lemma_xsum_transpose(n: int, f: spec_fn(int) -> u8, g: spec_fn(int) -> u8, a: int, b: int)
    requires
        0 <= a < n,
        0 <= b < n,
        g(a) == f(b),
        g(b) == f(a),
        forall|i: int| 0 <= i < n && i != a && i != b ==> #[trigger] f(i) == g(i),
    ensures
        xsum(n, g) == xsum(n, f),
{
    lemma_xor_laws();
    if a != b {
        let h = |i: int| if i == a { g(a) } else { f(i) };
        lemma_xsum_update(n, f, h, a);
        lemma_xsum_update(n, h, g, b);
        assert(((((xsum(n, f) ^ f(a)) ^ f(b)) ^ f(b)) ^ f(a)) == xsum(n, f)) by {
            let s = xsum(n, f);
            assert((((s ^ f(a)) ^ f(b)) ^ f(b)) == (s ^ f(a)) ^ (f(b) ^ f(b)));
        }
    } else {
        lemma_xsum_ext(n, f, g);
    }
}

/// Taking one summand out of a sum: the rest, in order, XOR that summand.
pub proof fn lemma_xsum_remove(n: int, h: spec_fn(int) -> u8, t: int)
    requires
        0 <= t < n,
    ensures
        xsum(n, h) == xsum(n - 1, |u: int| if u < t { h(u) } else { h(u + 1) }) ^ h(t),
    decreases n,
{
    lemma_xor_laws();
    let skip = |u: int| if u < t { h(u) } else { h(u + 1) };
    if t == n - 1 {
        lemma_xsum_ext(n - 1, h, skip);
    } else {
        lemma_xsum_remove(n - 1, h, t);
        let skip1 = |u: int| if u < t { h(u) } else { h(u + 1) };
        lemma_xsum_ext(n - 2, skip1, skip);
        assert(xsum(n - 1, skip) == xsum(n - 2, skip) ^ skip(n - 2));
        assert(skip(n - 2) == h(n - 1));
        lemma_xor_shuffle();
        let a = xsum(n - 2, skip);
        assert((a ^ h(t)) ^ h(n - 1) == (a ^ h(n - 1)) ^ h(t)) by {
            assert(((a ^ h(t)) ^ (h(n - 1) ^ 0u8)) == ((a ^ h(n - 1)) ^ (h(t) ^ 0u8)));
        }
    }
}

/// `j` occurs in `order`.
pub open spec fn occurs(order: Seq<int>, j: int) -> bool {
    exists|t: int| 0 <= t < order.len() && #[trigger] order[t] == j
}

/// `order` lists each of `0..n` exactly once.
pub open spec fn is_permutation(order: Seq<int>, n: int) -> bool {
    &&& order.len() == n
    &&& forall|t: int| 0 <= t < n ==> 0 <= #[trigger] order[t] < n
    &&& forall|a: int, b: int| 0 <= a < b < n ==> order[a] != order[b]
    &&& forall|j: int| 0 <= j < n ==> #[trigger] occurs(order, j)
}

/// A sum does not depend on the order of its summands.
pub proof fn lemma_xsum_perm(n: int, f: spec_fn(int) -> u8, order: Seq<int>)
    requires
        is_permutation(order, n),
    ensures
        xsum(n, |t: int| f(order[t])) == xsum(n, f),
    decreases n,
{
    if n > 0 {
        assert(occurs(order, n - 1));
        let ts = choose|t: int| 0 <= t < n && order[t] == n - 1;
        let rest = order.remove(ts);
        assert forall|t: int| 0 <= t < n - 1 implies 0 <= #[trigger] rest[t] < n - 1 by {
            if t < ts {
                assert(rest[t] == order[t]);
            } else {
                assert(rest[t] == order[t + 1]);
            }
        }
        assert forall|a: int, b: int| 0 <= a < b < n - 1 implies rest[a] != rest[b] by {
            let oa = if a < ts { a } else { a + 1 };
            let ob = if b < ts { b } else { b + 1 };
            assert(rest[a] == order[oa] && rest[b] == order[ob]);
        }
        assert forall|j: int| 0 <= j < n - 1 implies #[trigger] occurs(rest, j) by {
            assert(occurs(order, j));
            let t0 = choose|t: int| 0 <= t < n && #[trigger] order[t] == j;
            if t0 < ts {
                assert(rest[t0] == j);
            } else {
                assert(t0 != ts);
                assert(rest[t0 - 1] == j);
            }
        }
        lemma_xsum_perm(n - 1, f, rest);
        let g = |t: int| f(order[t]);
        lemma_xsum_remove(n, g, ts);
        lemma_xsum_ext(
            n - 1,
            |u: int| if u < ts { g(u) } else { g(u + 1) },
            |t: int| f(rest[t]),
        );
    }
}

/// Double sums may be taken in either order.
pub proof fn lemma_xsum_swap(n: int, m: int, f: spec_fn(int, int) -> u8)
    requires
        m >= 0,
    ensures
        xsum(n, |i: int| xsum(m, |j: int| f(i, j))) == xsum(m, |j: int| xsum(n, |i: int| f(i, j))),
    decreases n,
{
    lemma_xor_laws();
    if n > 0 {
        lemma_xsum_swap(n - 1, m, f);
        let left = |j: int| xsum(n - 1, |i: int| f(i, j));
        let last = |j: int| f(n - 1, j);
        let whole = |j: int| xsum(n, |i: int| f(i, j));
        assert forall|j: int| 0 <= j < m implies #[trigger] whole(j) == left(j) ^ last(j) by {
            assert(xsum(n, |i: int| f(i, j)) == xsum(n - 1, |i: int| f(i, j)) ^ f(n - 1, j));
        }
        lemma_xsum_xor(m, left, last, whole);
        let outer = |i: int| xsum(m, |j: int| f(i, j));
        assert(xsum(n, outer) == xsum(n - 1, outer) ^ outer(n - 1));
        assert(outer(n - 1) == xsum(m, last)) by {
            lemma_xsum_ext(m, |j: int| f(n - 1, j), last);
        }
    } else {
        lemma_xsum_zero(m, |j: int| xsum(n, |i: int| f(i, j)));
    }
}

// ---------------------------------------------------------------------------
// Matrices.
// ---------------------------------------------------------------------------

/// Products have the expected shape.
pub proof fn lemma_mat_mul_grid(a: Seq<Seq<u8>>, b: Seq<Seq<u8>>, m: int, p: int)
    requires
        p >= 0,
    ensures
        is_grid(mat_mul(a, b, m, p), a.len() as int, p),
{
}

/// Row `i` of a product depends only on row `i` of the left factor.
pub proof fn lemma_mat_mul_row(a: Seq<Seq<u8>>, x: Seq<Seq<u8>>, b: Seq<Seq<u8>>, m: int, p: int, i: int, k: int)
    requires
        0 <= i < a.len(),
        0 <= k < x.len(),
        p >= 0,
        forall|t: int| 0 <= t < m ==> #[trigger] a[i][t] == x[k][t],
    ensures
        mat_mul(a, b, m, p)[i] == mat_mul(x, b, m, p)[k],
{
    assert forall|j: int| 0 <= j < p implies dot(a, b, m, i, j) == dot(x, b, m, k, j) by {
        lemma_xsum_ext(m, |t: int| field_mul(a[i][t], b[t][j]), |t: int| field_mul(x[k][t], b[t][j]));
    }
    assert(mat_mul(a, b, m, p)[i] =~= mat_mul(x, b, m, p)[k]);
}

/// The identity is a left unit.
pub proof fn lemma_identity_left(a: Seq<Seq<u8>>, n: int, p: int)
    requires
        n >= 0,
        p >= 0,
        is_grid(a, n, p),
    ensures
        mat_mul(identity(n), a, n, p) == a,
{
    lemma_mul_units();
    let e = identity(n);
    assert forall|i: int, j: int| 0 <= i < n && 0 <= j < p implies dot(e, a, n, i, j) == a[i][j] by {
        let f = |t: int| field_mul(e[i][t], a[t][j]);
        lemma_xsum_single(n, f, i);
    }
    assert(mat_mul(e, a, n, p) =~~= a);
}

/// The identity is a right unit.
pub proof fn lemma_identity_right(a: Seq<Seq<u8>>, r: int, n: int)
    requires
        n >= 0,
        r >= 0,
        is_grid(a, r, n),
    ensures
        mat_mul(a, identity(n), n, n) == a,
{
    lemma_mul_units();
    let e = identity(n);
    assert forall|i: int, j: int| 0 <= i < r && 0 <= j < n implies dot(a, e, n, i, j) == a[i][j] by {
        let f = |t: int| field_mul(a[i][t], e[t][j]);
        lemma_xsum_single(n, f, j);
    }
    assert(mat_mul(a, e, n, n) =~~= a);
}

/// Matrix multiplication is associative.
pub proof fn lemma_mat_mul_assoc(
    a: Seq<Seq<u8>>,
    b: Seq<Seq<u8>>,
    c: Seq<Seq<u8>>,
    r: int,
    m: int,
    p: int,
    q: int,
)
    requires
        r >= 0,
        m >= 0,
        p >= 0,
        q >= 0,
        is_grid(a, r, m),
        is_grid(b, m, p),
        is_grid(c, p, q),
    ensures
        mat_mul(mat_mul(a, b, m, p), c, p, q) == mat_mul(a, mat_mul(b, c, p, q), m, q),
{
    let ab = mat_mul(a, b, m, p);
    let bc = mat_mul(b, c, p, q);
    assert forall|i: int, j: int| 0 <= i < r && 0 <= j < q implies dot(ab, c, p, i, j) == dot(
        a,
        bc,
        m,
        i,
        j,
    ) by {
        let f = |s: int, t: int| field_mul(field_mul(a[i][t], b[t][s]), c[s][j]);
        // (AB)C: sum over s of (sum over t of a*b) * c
        assert forall|s: int| 0 <= s < p implies #[trigger] field_mul(ab[i][s], c[s][j]) == xsum(
            m,
            |t: int| f(s, t),
        ) by {
            lemma_xsum_scale_right(m, c[s][j], |t: int| field_mul(a[i][t], b[t][s]), |t: int| f(s, t));
        }
        lemma_xsum_ext(p, |s: int| field_mul(ab[i][s], c[s][j]), |s: int| xsum(m, |t: int| f(s, t)));
        lemma_xsum_swap(p, m, f);
        // A(BC): sum over t of a * (sum over s of b*c)
        assert forall|t: int| 0 <= t < m implies #[trigger] field_mul(a[i][t], bc[t][j]) == xsum(
            p,
            |s: int| f(s, t),
        ) by {
            assert forall|s: int| 0 <= s < p implies #[trigger] f(s, t) == field_mul(
                a[i][t],
                field_mul(b[t][s], c[s][j]),
            ) by {
                lemma_mul_associative(a[i][t], b[t][s], c[s][j]);
            }
            lemma_xsum_scale(p, a[i][t], |s: int| field_mul(b[t][s], c[s][j]), |s: int| f(s, t));
        }
        lemma_xsum_ext(m, |t: int| field_mul(a[i][t], bc[t][j]), |t: int| xsum(p, |s: int| f(s, t)));
    }
    assert(mat_mul(ab, c, p, q) =~~= mat_mul(a, bc, m, q));
}

/// Two-sided inverses are unique.
pub proof fn lemma_inverse_unique_matrix(a: Seq<Seq<u8>>, b: Seq<Seq<u8>>, c: Seq<Seq<u8>>, n: int)
    requires
        n >= 0,
        is_grid(a, n, n),
        is_inverse(a, b, n),
        is_inverse(a, c, n),
    ensures
        b == c,
{
    lemma_identity_right(b, n, n);
    lemma_identity_left(c, n, n);
    lemma_mat_mul_assoc(b, a, c, n, n, n, n);
}

/// A singular matrix has no left inverse.
pub proof fn lemma_singular_not_invertible(a: Seq<Seq<u8>>, v: Seq<Seq<u8>>, b: Seq<Seq<u8>>, n: int)
    requires
        n >= 0,
        is_grid(a, n, n),
        is_grid(b, n, n),
        is_kernel_witness(a, v, n),
    ensures
        mat_mul(b, a, n, n) != identity(n),
{
    if mat_mul(b, a, n, n) == identity(n) {
        lemma_mat_mul_assoc(b, a, v, n, n, n, 1);
        lemma_identity_left(v, n, 1);
        let i = choose|i: int| 0 <= i < n && v[i][0] != 0;
        lemma_mul_units();
        let z = zeros(n, 1);
        assert(dot(b, z, n, i, 0) == 0) by {
            lemma_xsum_zero(n, |t: int| field_mul(b[i][t], z[t][0]));
        }
        assert(mat_mul(b, z, n, 1)[i][0] == 0);
    }
}

// ---------------------------------------------------------------------------
// Elementary row operations and their column duals.
// ---------------------------------------------------------------------------

/// Rows `i` and `j` exchanged.
pub open spec fn rows_swapped(a: Seq<Seq<u8>>, i: int, j: int) -> Seq<Seq<u8>> {
    Seq::new(a.len(), |r: int| if r == i { a[j] } else if r == j { a[i] } else { a[r] })
}

/// Row `i` multiplied by `s`.
pub open spec fn row_scaled(a: Seq<Seq<u8>>, i: int, s: u8) -> Seq<Seq<u8>> {
    a.update(i, Seq::new(a[i].len(), |c: int| field_mul(a[i][c], s)))
}

/// `f` times row `i` added to row `j`.
pub open spec fn row_added(a: Seq<Seq<u8>>, j: int, i: int, f: u8) -> Seq<Seq<u8>> {
    a.update(j, Seq::new(a[j].len(), |c: int| a[j][c] ^ field_mul(f, a[i][c])))
}

/// Columns `i` and `j` exchanged.
pub open spec fn cols_swapped(g: Seq<Seq<u8>>, i: int, j: int) -> Seq<Seq<u8>> {
    Seq::new(g.len(), |r: int| g[r].update(i, g[r][j]).update(j, g[r][i]))
}

/// Column `i` multiplied by `s`.
pub open spec fn col_scaled(g: Seq<Seq<u8>>, i: int, s: u8) -> Seq<Seq<u8>> {
    Seq::new(g.len(), |r: int| g[r].update(i, field_mul(g[r][i], s)))
}

/// `f` times column `j` added to column `i`.
pub open spec fn col_added(g: Seq<Seq<u8>>, i: int, j: int, f: u8) -> Seq<Seq<u8>> {
    Seq::new(g.len(), |r: int| g[r].update(i, g[r][i] ^ field_mul(f, g[r][j])))
}

/// Exchanging rows of the left factor exchanges rows of the product.
pub proof fn lemma_rows_swapped_mul(o: Seq<Seq<u8>>, x: Seq<Seq<u8>>, n: int, p: int, i: int, j: int)
    requires
        0 <= i < o.len(),
        0 <= j < o.len(),
        p >= 0,
    ensures
        mat_mul(rows_swapped(o, i, j), x, n, p) == rows_swapped(mat_mul(o, x, n, p), i, j),
{
    let o2 = rows_swapped(o, i, j);
    assert forall|r: int| 0 <= r < o.len() implies #[trigger] mat_mul(o2, x, n, p)[r] == rows_swapped(
        mat_mul(o, x, n, p),
        i,
        j,
    )[r] by {
        let k = if r == i { j } else if r == j { i } else { r };
        lemma_mat_mul_row(o2, o, x, n, p, r, k);
    }
    assert(mat_mul(o2, x, n, p) =~= rows_swapped(mat_mul(o, x, n, p), i, j));
}

/// Scaling a row of the left factor scales that row of the product.
pub proof fn lemma_row_scaled_mul(o: Seq<Seq<u8>>, x: Seq<Seq<u8>>, n: int, p: int, i: int, s: u8)
    requires
        0 <= i < o.len(),
        o[i].len() == n,
        p >= 0,
    ensures
        mat_mul(row_scaled(o, i, s), x, n, p) == row_scaled(mat_mul(o, x, n, p), i, s),
{
    let o2 = row_scaled(o, i, s);
    let m1 = mat_mul(o, x, n, p);
    assert forall|r: int| 0 <= r < o.len() implies #[trigger] mat_mul(o2, x, n, p)[r] == row_scaled(m1, i, s)[r] by {
        if r == i {
            assert forall|c: int| 0 <= c < p implies dot(o2, x, n, i, c) == field_mul(m1[i][c], s) by {
                assert forall|t: int| 0 <= t < n implies #[trigger] field_mul(o2[i][t], x[t][c])
                    == field_mul(field_mul(o[i][t], x[t][c]), s) by {
                    lemma_mul_associative(o[i][t], s, x[t][c]);
                    lemma_mul_associative(o[i][t], x[t][c], s);
                    lemma_mul_commutative();
                }
                lemma_xsum_scale_right(
                    n,
                    s,
                    |t: int| field_mul(o[i][t], x[t][c]),
                    |t: int| field_mul(o2[i][t], x[t][c]),
                );
            }
            assert(mat_mul(o2, x, n, p)[r] =~= row_scaled(m1, i, s)[r]);
        } else {
            lemma_mat_mul_row(o2, o, x, n, p, r, r);
        }
    }
    assert(mat_mul(o2, x, n, p) =~= row_scaled(m1, i, s));
}

/// Adding a multiple of a row of the left factor adds the multiple of that
/// row of the product.
pub proof fn lemma_row_added_mul(o: Seq<Seq<u8>>, x: Seq<Seq<u8>>, n: int, p: int, j: int, i: int, f: u8)
    requires
        0 <= i < o.len(),
        0 <= j < o.len(),
        i != j,
        o[i].len() == n,
        o[j].len() == n,
        p >= 0,
    ensures
        mat_mul(row_added(o, j, i, f), x, n, p) == row_added(mat_mul(o, x, n, p), j, i, f),
{
    let o2 = row_added(o, j, i, f);
    let m1 = mat_mul(o, x, n, p);
    assert forall|r: int| 0 <= r < o.len() implies #[trigger] mat_mul(o2, x, n, p)[r] == row_added(
        m1,
        j,
        i,
        f,
    )[r] by {
        if r == j {
            assert forall|c: int| 0 <= c < p implies dot(o2, x, n, j, c) == m1[j][c] ^ field_mul(
                f,
                m1[i][c],
            ) by {
                let fj = |t: int| field_mul(o[j][t], x[t][c]);
                let fi = |t: int| field_mul(o[i][t], x[t][c]);
                let ffi = |t: int| field_mul(f, fi(t));
                let f2 = |t: int| field_mul(o2[j][t], x[t][c]);
                assert forall|t: int| 0 <= t < n implies #[trigger] f2(t) == fj(t) ^ ffi(t) by {
                    lemma_mul_distributes_left(o[j][t], field_mul(f, o[i][t]), x[t][c]);
                    lemma_mul_associative(f, o[i][t], x[t][c]);
                }
                lemma_xsum_xor(n, fj, ffi, f2);
                lemma_xsum_scale(n, f, fi, ffi);
            }
            assert(mat_mul(o2, x, n, p)[r] =~= row_added(m1, j, i, f)[r]);
        } else {
            lemma_mat_mul_row(o2, o, x, n, p, r, r);
        }
    }
    assert(mat_mul(o2, x, n, p) =~= row_added(m1, j, i, f));
}

/// Exchanging columns `i, j` of `g` and rows `i, j` of `o` keeps `g * o`.
pub proof fn lemma_swap_dual(g: Seq<Seq<u8>>, o: Seq<Seq<u8>>, n: int, i: int, j: int)
    requires
        n >= 0,
        0 <= i < n,
        0 <= j < n,
        is_grid(g, n, n),
        is_grid(o, n, n),
    ensures
        mat_mul(cols_swapped(g, i, j), rows_swapped(o, i, j), n, n) == mat_mul(g, o, n, n),
{
    let g2 = cols_swapped(g, i, j);
    let o2 = rows_swapped(o, i, j);
    assert forall|r: int, c: int| 0 <= r < n && 0 <= c < n implies dot(g2, o2, n, r, c) == dot(
        g,
        o,
        n,
        r,
        c,
    ) by {
        lemma_xsum_transpose(
            n,
            |t: int| field_mul(g[r][t], o[t][c]),
            |t: int| field_mul(g2[r][t], o2[t][c]),
            i,
            j,
        );
    }
    assert(mat_mul(g2, o2, n, n) =~~= mat_mul(g, o, n, n));
}

/// Scaling column `i` of `g` by `q` and row `i` of `o` by `s`, with
/// `q * s == 1`, keeps `g * o`.
pub proof fn lemma_scale_dual(g: Seq<Seq<u8>>, o: Seq<Seq<u8>>, n: int, i: int, q: u8, s: u8)
    requires
        n >= 0,
        0 <= i < n,
        is_grid(g, n, n),
        is_grid(o, n, n),
        field_mul(q, s) == 1,
    ensures
        mat_mul(col_scaled(g, i, q), row_scaled(o, i, s), n, n) == mat_mul(g, o, n, n),
{
    let g2 = col_scaled(g, i, q);
    let o2 = row_scaled(o, i, s);
    lemma_mul_units();
    assert forall|r: int, c: int| 0 <= r < n && 0 <= c < n implies dot(g2, o2, n, r, c) == dot(
        g,
        o,
        n,
        r,
        c,
    ) by {
        assert(field_mul(g2[r][i], o2[i][c]) == field_mul(g[r][i], o[i][c])) by {
            lemma_mul_associative(g[r][i], q, field_mul(o[i][c], s));
            lemma_mul_associative(q, o[i][c], s);
            lemma_mul_commutative();
            lemma_mul_associative(o[i][c], q, s);
        }
        lemma_xsum_ext(n, |t: int| field_mul(g[r][t], o[t][c]), |t: int| field_mul(g2[r][t], o2[t][c]));
    }
    assert(mat_mul(g2, o2, n, n) =~~= mat_mul(g, o, n, n));
}

proof fn lemma_xor_cancel_pair()
    by (bit_vector)
    ensures
        forall|s: u8, x: u8, y: u8, d: u8| #[trigger] ((((s ^ x) ^ (x ^ d)) ^ y) ^ (y ^ d)) == s,
{
}

proof fn lemma_add_dual_entry(g: Seq<Seq<u8>>, o: Seq<Seq<u8>>, n: int, i: int, j: int, f: u8, r: int, c: int)
    requires
        n >= 0,
        0 <= i < n,
        0 <= j < n,
        i != j,
        0 <= r < n,
        0 <= c < n,
        is_grid(g, n, n),
        is_grid(o, n, n),
    ensures
        dot(col_added(g, i, j, f), row_added(o, j, i, f), n, r, c) == dot(g, o, n, r, c),
{
    let g2 = col_added(g, i, j, f);
    let o2 = row_added(o, j, i, f);
    let h0 = |t: int| field_mul(g[r][t], o[t][c]);
    let h2 = |t: int| field_mul(g2[r][t], o2[t][c]);
    let h1 = |t: int| if t == i { h2(i) } else { h0(t) };
    let d = field_mul(field_mul(f, g[r][j]), o[i][c]);
    assert(h2(i) == h0(i) ^ d) by {
        lemma_mul_distributes_left(g[r][i], field_mul(f, g[r][j]), o[i][c]);
    }
    assert(h2(j) == h0(j) ^ d) by {
        lemma_mul_distributes_right();
        lemma_mul_associative(g[r][j], f, o[i][c]);
        lemma_mul_associative(f, g[r][j], o[i][c]);
        lemma_mul_commutative();
    }
    assert forall|t: int| 0 <= t < n && t != j implies #[trigger] h1(t) == h2(t) by {
        if t != i {
            assert(g2[r][t] == g[r][t]);
            assert(o2[t] == o[t]);
        }
    }
    lemma_xsum_update(n, h0, h1, i);
    lemma_xsum_update(n, h1, h2, j);
    lemma_xor_cancel_pair();
    assert(((((xsum(n, h0) ^ h0(i)) ^ (h0(i) ^ d)) ^ h0(j)) ^ (h0(j) ^ d)) == xsum(n, h0));
}

/// Adding `f` times column `j` of `g` to column `i`, and `f` times row `i`
/// of `o` to row `j`, keeps `g * o`.
pub proof fn lemma_add_dual(g: Seq<Seq<u8>>, o: Seq<Seq<u8>>, n: int, i: int, j: int, f: u8)
    requires
        n >= 0,
        0 <= i < n,
        0 <= j < n,
        i != j,
        is_grid(g, n, n),
        is_grid(o, n, n),
    ensures
        mat_mul(col_added(g, i, j, f), row_added(o, j, i, f), n, n) == mat_mul(g, o, n, n),
{
    let g2 = col_added(g, i, j, f);
    let o2 = row_added(o, j, i, f);
    assert forall|r: int, c: int| 0 <= r < n && 0 <= c < n implies dot(g2, o2, n, r, c) == dot(
        g,
        o,
        n,
        r,
        c,
    ) by {
        lemma_add_dual_entry(g, o, n, i, j, f, r, c);
    }
    assert(mat_mul(g2, o2, n, n) =~~= mat_mul(g, o, n, n));
}

/// Gauss-Jordan's end state: if row operations `o` reduce `a0` to the
/// identity, and `g` undoes them, then `o` is the inverse of `a0`.
pub proof fn lemma_reduced_inverse(a0: Seq<Seq<u8>>, o: Seq<Seq<u8>>, g: Seq<Seq<u8>>, n: int)
    requires
        n >= 0,
        is_grid(a0, n, n),
        is_grid(o, n, n),
        is_grid(g, n, n),
        mat_mul(o, a0, n, n) == identity(n),
        mat_mul(g, o, n, n) == identity(n),
    ensures
        is_inverse(a0, o, n),
{
    lemma_identity_right(g, n, n);
    lemma_mat_mul_assoc(g, o, a0, n, n, n, n);
    lemma_identity_left(a0, n, n);
}


/// Anything times a zero matrix is zero.
pub proof fn lemma_mul_zeros(x: Seq<Seq<u8>>, n: int, p: int)
    requires
        n >= 0,
        p >= 0,
    ensures
        mat_mul(x, zeros(n, p), n, p) == zeros(x.len() as int, p),
{
    lemma_mul_units();
    let z = zeros(n, p);
    assert forall|r: int, c: int| 0 <= r < x.len() && 0 <= c < p implies dot(x, z, n, r, c) == 0u8 by {
        lemma_xsum_zero(n, |t: int| field_mul(x[r][t], z[t][c]));
    }
    assert(mat_mul(x, z, n, p) =~~= zeros(x.len() as int, p));
}

/// The column vector that Gauss-Jordan's failed pivot search exposes.
pub open spec fn pivot_witness(a: Seq<Seq<u8>>, n: int, i: int) -> Seq<Seq<u8>> {
    Seq::new(
        n as nat,
        |t: int| seq![if t < i { a[t][i] } else if t == i { 1u8 } else { 0u8 }],
    )
}

proof fn lemma_pivot_witness_row(a: Seq<Seq<u8>>, n: int, i: int, r: int)
    requires
        0 <= i < n,
        0 <= r < n,
        is_grid(a, n, n),
        forall|rr: int, c: int| 0 <= rr < n && 0 <= c < i ==> #[trigger] a[rr][c] == (if rr == c { 1u8 } else { 0u8 }),
        forall|rr: int| i <= rr < n ==> #[trigger] a[rr][i] == 0,
    ensures
        dot(a, pivot_witness(a, n, i), n, r, 0) == 0,
{
    let v = pivot_witness(a, n, i);
    let f = |t: int| field_mul(a[r][t], v[t][0]);
    assert(dot(a, v, n, r, 0) == xsum(n, f));
    if r < i {
        lemma_pivot_witness_upper(a, n, i, r, f);
    } else {
        assert forall|t: int| 0 <= t < n implies #[trigger] f(t) == 0u8 by {
            lemma_mul_units();
            if t < i {
                assert(a[r][t] == 0u8);
            }
        }
        lemma_xsum_zero(n, f);
    }
}

proof fn lemma_pivot_witness_upper(a: Seq<Seq<u8>>, n: int, i: int, r: int, f: spec_fn(int) -> u8)
    requires
        0 <= r < i < n,
        is_grid(a, n, n),
        forall|rr: int, c: int| 0 <= rr < n && 0 <= c < i ==> #[trigger] a[rr][c] == (if rr == c { 1u8 } else { 0u8 }),
        forall|t: int| #[trigger] f(t) == field_mul(a[r][t], pivot_witness(a, n, i)[t][0]),
    ensures
        xsum(n, f) == 0,
{
    let v = pivot_witness(a, n, i);
    let z = |t: int| 0u8;
    let h = |t: int| if t == r { f(r) } else { 0u8 };
    lemma_mul_units();
    assert forall|t: int| 0 <= t < n && t != r implies #[trigger] z(t) == h(t) by {}
    assert forall|t: int| 0 <= t < n && t != i implies #[trigger] h(t) == f(t) by {
        if t != r && t < i {
            assert(a[r][t] == 0u8);
        }
    }
    lemma_xsum_zero(n, z);
    lemma_xsum_update(n, z, h, r);
    lemma_xsum_update(n, h, f, i);
    assert(f(r) == a[r][i]);
    assert(f(i) == a[r][i]);
    assert(h(i) == 0u8);
    let x = a[r][i];
    assert(((0u8 ^ 0u8) ^ x) ^ 0u8 ^ x == 0u8) by {
        crate::gf::lemma_xor_units();
    }
}

/// Gauss-Jordan's failure state: if row operations `o` (undone by `g`)
/// bring `a0` to a matrix whose columns before `i` are unit columns and
/// whose column `i` is zero from row `i` down, then `a0` is singular.
pub proof fn lemma_no_pivot_singular(a0: Seq<Seq<u8>>, o: Seq<Seq<u8>>, g: Seq<Seq<u8>>, n: int, i: int)
    requires
        0 <= i < n,
        is_grid(a0, n, n),
        is_grid(o, n, n),
        is_grid(g, n, n),
        mat_mul(g, o, n, n) == identity(n),
        forall|rr: int, c: int|
            0 <= rr < n && 0 <= c < i ==> #[trigger] mat_mul(o, a0, n, n)[rr][c] == (if rr == c { 1u8 } else { 0u8 }),
        forall|rr: int| i <= rr < n ==> #[trigger] mat_mul(o, a0, n, n)[rr][i] == 0,
    ensures
        is_kernel_witness(a0, pivot_witness(mat_mul(o, a0, n, n), n, i), n),
        singular(a0, n),
{
    let a = mat_mul(o, a0, n, n);
    let v = pivot_witness(a, n, i);
    assert forall|r: int| 0 <= r < n implies #[trigger] mat_mul(a, v, n, 1)[r] == zeros(n, 1)[r] by {
        lemma_pivot_witness_row(a, n, i, r);
        assert(mat_mul(a, v, n, 1)[r] =~= zeros(n, 1)[r]);
    }
    assert(mat_mul(a, v, n, 1) =~= zeros(n, 1));
    lemma_mat_mul_assoc(o, a0, v, n, n, n, 1);
    let w = mat_mul(a0, v, n, 1);
    lemma_mat_mul_grid(a0, v, n, 1);
    lemma_mat_mul_assoc(g, o, w, n, n, n, 1);
    lemma_identity_left(w, n, 1);
    lemma_mul_zeros(g, n, 1);
    assert(v[i][0] == 1u8);
    assert(is_kernel_witness(a0, v, n));
}

} // verus!
