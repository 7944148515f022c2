//! Gauss-Jordan elimination over GF(2^8), in place on row-major buffers,
//! with the proof that it finds the inverse exactly when one exists.

use vstd::prelude::*;

use crate::algebra::{
    col_added, col_scaled, cols_swapped, identity, invertible, is_grid, is_inverse,
    lemma_add_dual, lemma_identity_left, lemma_no_pivot_singular, lemma_reduced_inverse,
    lemma_row_added_mul, lemma_row_scaled_mul, lemma_rows_swapped_mul, lemma_scale_dual,
    lemma_singular_not_invertible, lemma_swap_dual, mat_mul, row_added, row_scaled, rows_swapped,
    singular, is_kernel_witness,
};
use crate::error::MatrixError;
use crate::gf::{field_mul, lemma_mul_units, lemma_xor_laws};
use crate::matrix::{grid_of, lemma_flat_index, lemma_grid_set};

verus! {

/// The preconditions of the in-place row operations on two `n x n` buffers.
pub open spec fn square_buffers(a: Seq<u8>, out: Seq<u8>, n: int) -> bool {
    &&& n > 0
    &&& n * n <= usize::MAX
    &&& a.len() == n * n
    &&& out.len() == n * n
}

/// Exchange rows `i` and `j` of both buffers.
fn swap_rows(a: &mut [u8], out: &mut [u8], n: usize, i: usize, j: usize)
    requires
        square_buffers(old(a)@, old(out)@, n as int),
        i < n,
        j < n,
        i != j,
    ensures
        square_buffers(final(a)@, final(out)@, n as int),
        grid_of(final(a)@, n as int, n as int) == rows_swapped(grid_of(old(a)@, n as int, n as int), i as int, j as int),
        grid_of(final(out)@, n as int, n as int) == rows_swapped(grid_of(old(out)@, n as int, n as int), i as int, j as int),
{
    let ghost a0 = grid_of(a@, n as int, n as int);
    let ghost o0 = grid_of(out@, n as int, n as int);
    let ghost na = n as int;
    let mut c: usize = 0;
    while c < n
        invariant
            square_buffers(a@, out@, n as int),
            na == n,
            a0 == grid_of(old(a)@, na, na),
            o0 == grid_of(old(out)@, na, na),
            old(a)@.len() == n * n,
            old(out)@.len() == n * n,
            i < n,
            j < n,
            i != j,
            0 <= c <= n,
            forall|x: int, y: int| 0 <= x < n && 0 <= y < n ==> #[trigger] grid_of(a@, na, na)[x][y] == if y < c {
                rows_swapped(a0, i as int, j as int)[x][y]
            } else {
                a0[x][y]
            },
            forall|x: int, y: int| 0 <= x < n && 0 <= y < n ==> #[trigger] grid_of(out@, na, na)[x][y] == if y < c {
                rows_swapped(o0, i as int, j as int)[x][y]
            } else {
                o0[x][y]
            },
        decreases n - c,
    {
        proof {
            lemma_flat_index(na, na, i as int, c as int, j as int, c as int);
            lemma_flat_index(na, na, j as int, c as int, i as int, c as int);
        }
        assert(grid_of(a@, na, na)[i as int][c as int] == a0[i as int][c as int]);
        assert(grid_of(a@, na, na)[j as int][c as int] == a0[j as int][c as int]);
        assert(grid_of(out@, na, na)[i as int][c as int] == o0[i as int][c as int]);
        assert(grid_of(out@, na, na)[j as int][c as int] == o0[j as int][c as int]);
        let ta = a[n * i + c];
        let va = a[n * j + c];
        proof {
            lemma_grid_set(a@, na, na, i as int, c as int, va);
            lemma_grid_set(a@.update(n * i + c, va), na, na, j as int, c as int, ta);
        }
        a[n * i + c] = va;
        a[n * j + c] = ta;
        let to = out[n * i + c];
        let vo = out[n * j + c];
        proof {
            lemma_grid_set(out@, na, na, i as int, c as int, vo);
            lemma_grid_set(out@.update(n * i + c, vo), na, na, j as int, c as int, to);
        }
        out[n * i + c] = vo;
        out[n * j + c] = to;
        c += 1;
    }
    assert(grid_of(a@, na, na) =~~= rows_swapped(a0, i as int, j as int));
    assert(grid_of(out@, na, na) =~~= rows_swapped(o0, i as int, j as int));
}

/// Multiply row `i` of both buffers by `s`.
fn scale_row(a: &mut [u8], out: &mut [u8], n: usize, i: usize, s: u8)
    requires
        square_buffers(old(a)@, old(out)@, n as int),
        i < n,
    ensures
        square_buffers(final(a)@, final(out)@, n as int),
        grid_of(final(a)@, n as int, n as int) == row_scaled(grid_of(old(a)@, n as int, n as int), i as int, s),
        grid_of(final(out)@, n as int, n as int) == row_scaled(grid_of(old(out)@, n as int, n as int), i as int, s),
{
    let ghost a0 = grid_of(a@, n as int, n as int);
    let ghost o0 = grid_of(out@, n as int, n as int);
    let ghost na = n as int;
    let mut c: usize = 0;
    while c < n
        invariant
            square_buffers(a@, out@, n as int),
            na == n,
            a0 == grid_of(old(a)@, na, na),
            o0 == grid_of(old(out)@, na, na),
            old(a)@.len() == n * n,
            old(out)@.len() == n * n,
            i < n,
            0 <= c <= n,
            forall|x: int, y: int| 0 <= x < n && 0 <= y < n ==> #[trigger] grid_of(a@, na, na)[x][y] == if y < c {
                row_scaled(a0, i as int, s)[x][y]
            } else {
                a0[x][y]
            },
            forall|x: int, y: int| 0 <= x < n && 0 <= y < n ==> #[trigger] grid_of(out@, na, na)[x][y] == if y < c {
                row_scaled(o0, i as int, s)[x][y]
            } else {
                o0[x][y]
            },
        decreases n - c,
    {
        proof {
            lemma_flat_index(na, na, i as int, c as int, i as int, c as int);
        }
        assert(grid_of(a@, na, na)[i as int][c as int] == a0[i as int][c as int]);
        assert(grid_of(out@, na, na)[i as int][c as int] == o0[i as int][c as int]);
        let va = crate::gf::mul(a[n * i + c], s);
        proof {
            lemma_grid_set(a@, na, na, i as int, c as int, va);
        }
        a[n * i + c] = va;
        let vo = crate::gf::mul(out[n * i + c], s);
        proof {
            lemma_grid_set(out@, na, na, i as int, c as int, vo);
        }
        out[n * i + c] = vo;
        c += 1;
    }
    assert(grid_of(a@, na, na) =~~= row_scaled(a0, i as int, s));
    assert(grid_of(out@, na, na) =~~= row_scaled(o0, i as int, s));
}

/// Add `f` times row `i` to row `j` of both buffers.
fn add_row(a: &mut [u8], out: &mut [u8], n: usize, j: usize, i: usize, f: u8)
    requires
        square_buffers(old(a)@, old(out)@, n as int),
        i < n,
        j < n,
        i != j,
    ensures
        square_buffers(final(a)@, final(out)@, n as int),
        grid_of(final(a)@, n as int, n as int) == row_added(grid_of(old(a)@, n as int, n as int), j as int, i as int, f),
        grid_of(final(out)@, n as int, n as int) == row_added(grid_of(old(out)@, n as int, n as int), j as int, i as int, f),
{
    let ghost a0 = grid_of(a@, n as int, n as int);
    let ghost o0 = grid_of(out@, n as int, n as int);
    let ghost na = n as int;
    let mut c: usize = 0;
    while c < n
        invariant
            square_buffers(a@, out@, n as int),
            na == n,
            a0 == grid_of(old(a)@, na, na),
            o0 == grid_of(old(out)@, na, na),
            old(a)@.len() == n * n,
            old(out)@.len() == n * n,
            i < n,
            j < n,
            i != j,
            0 <= c <= n,
            forall|x: int, y: int| 0 <= x < n && 0 <= y < n ==> #[trigger] grid_of(a@, na, na)[x][y] == if y < c {
                row_added(a0, j as int, i as int, f)[x][y]
            } else {
                a0[x][y]
            },
            forall|x: int, y: int| 0 <= x < n && 0 <= y < n ==> #[trigger] grid_of(out@, na, na)[x][y] == if y < c {
                row_added(o0, j as int, i as int, f)[x][y]
            } else {
                o0[x][y]
            },
        decreases n - c,
    {
        proof {
            lemma_flat_index(na, na, i as int, c as int, j as int, c as int);
            lemma_flat_index(na, na, j as int, c as int, i as int, c as int);
        }
        assert(grid_of(a@, na, na)[i as int][c as int] == a0[i as int][c as int]);
        assert(grid_of(a@, na, na)[j as int][c as int] == a0[j as int][c as int]);
        assert(grid_of(out@, na, na)[i as int][c as int] == o0[i as int][c as int]);
        assert(grid_of(out@, na, na)[j as int][c as int] == o0[j as int][c as int]);
        let vo = out[n * j + c] ^ crate::gf::mul(f, out[n * i + c]);
        proof {
            lemma_grid_set(out@, na, na, j as int, c as int, vo);
        }
        out[n * j + c] = vo;
        let va = a[n * j + c] ^ crate::gf::mul(f, a[n * i + c]);
        proof {
            lemma_grid_set(a@, na, na, j as int, c as int, va);
        }
        a[n * j + c] = va;
        c += 1;
    }
    assert(grid_of(a@, na, na) =~~= row_added(a0, j as int, i as int, f));
    assert(grid_of(out@, na, na) =~~= row_added(o0, j as int, i as int, f));
}

/// The loop invariant of the Gauss-Jordan elimination after `i` columns:
/// `out` records the row operations applied so far (`a == out * a0`), `g`
/// undoes them (`g * out == I`), and the first `i` columns of `a` are unit
/// columns.
pub open spec fn gauss_jordan_state(a: Seq<Seq<u8>>, out: Seq<Seq<u8>>, g: Seq<Seq<u8>>, a0: Seq<Seq<u8>>, n: int, i: int) -> bool {
    &&& n > 0
    &&& 0 <= i <= n
    &&& is_grid(a, n, n)
    &&& is_grid(out, n, n)
    &&& is_grid(g, n, n)
    &&& is_grid(a0, n, n)
    &&& a == mat_mul(out, a0, n, n)
    &&& mat_mul(g, out, n, n) == identity(n)
    &&& forall|r: int, c: int| 0 <= r < n && 0 <= c < i ==> #[trigger] a[r][c] == (if r == c { 1u8 } else { 0u8 })
}

/// A pivot swap keeps the elimination invariant.
proof fn lemma_gauss_jordan_swap(a: Seq<Seq<u8>>, out: Seq<Seq<u8>>, g: Seq<Seq<u8>>, a0: Seq<Seq<u8>>, n: int, i: int, j: int)
    requires
        gauss_jordan_state(a, out, g, a0, n, i),
        0 <= i < j < n,
    ensures
        gauss_jordan_state(rows_swapped(a, i, j), rows_swapped(out, i, j), cols_swapped(g, i, j), a0, n, i),
{
    lemma_rows_swapped_mul(out, a0, n, n, i, j);
    lemma_swap_dual(g, out, n, i, j);
    let a2 = rows_swapped(a, i, j);
    assert forall|r: int, c: int| 0 <= r < n && 0 <= c < i implies #[trigger] a2[r][c] == (if r == c { 1u8 } else { 0u8 }) by {
        assert(a[i][c] == 0u8);
        assert(a[j][c] == 0u8);
    }
}

/// Normalising the pivot row keeps the elimination invariant.
proof fn lemma_gauss_jordan_scale(a: Seq<Seq<u8>>, out: Seq<Seq<u8>>, g: Seq<Seq<u8>>, a0: Seq<Seq<u8>>, n: int, i: int, pivot: u8, scale: u8)
    requires
        gauss_jordan_state(a, out, g, a0, n, i),
        0 <= i < n,
        a[i][i] == pivot,
        field_mul(pivot, scale) == 1,
    ensures
        gauss_jordan_state(row_scaled(a, i, scale), row_scaled(out, i, scale), col_scaled(g, i, pivot), a0, n, i),
        row_scaled(a, i, scale)[i][i] == 1,
{
    lemma_row_scaled_mul(out, a0, n, n, i, scale);
    lemma_scale_dual(g, out, n, i, pivot, scale);
    lemma_mul_units();
    crate::gf::lemma_mul_commutative();
    let a2 = row_scaled(a, i, scale);
    assert forall|r: int, c: int| 0 <= r < n && 0 <= c < i implies #[trigger] a2[r][c] == (if r == c { 1u8 } else { 0u8 }) by {
        if r == i {
            assert(a[i][c] == 0u8);
        }
    }
}

proof fn lemma_clear_facts(x: u8, f: u8)
    ensures
        (x ^ field_mul(f, 0u8)) == x,
        (f ^ field_mul(f, 1u8)) == 0u8,
{
    lemma_mul_units();
    lemma_xor_laws();
}

proof fn lemma_eliminate_units(a: Seq<Seq<u8>>, n: int, i: int, j: int, f: u8)
    requires
        0 <= i < n,
        0 <= j < n,
        i != j,
        is_grid(a, n, n),
        a[i][i] == 1,
        a[j][i] == f,
        forall|r: int, c: int| 0 <= r < n && 0 <= c < i ==> #[trigger] a[r][c] == (if r == c { 1u8 } else { 0u8 }),
    ensures
        forall|r: int, c: int| 0 <= r < n && 0 <= c < i ==> #[trigger] row_added(a, j, i, f)[r][c] == (if r == c { 1u8 } else { 0u8 }),
        row_added(a, j, i, f)[j][i] == 0,
        forall|y: int| 0 <= y < n && y != j ==> #[trigger] row_added(a, j, i, f)[y] == a[y],
{
    let a2 = row_added(a, j, i, f);
    assert forall|r: int, c: int| 0 <= r < n && 0 <= c < i implies #[trigger] a2[r][c] == (if r == c { 1u8 } else { 0u8 }) by {
        if r == j {
            assert(a[i][c] == 0u8);
            lemma_clear_facts(a[j][c], f);
        }
    }
    lemma_clear_facts(0, f);
}

/// Clearing column `i` in row `j` keeps the elimination invariant.
proof fn lemma_gauss_jordan_eliminate(a: Seq<Seq<u8>>, out: Seq<Seq<u8>>, g: Seq<Seq<u8>>, a0: Seq<Seq<u8>>, n: int, i: int, j: int, f: u8)
    requires
        gauss_jordan_state(a, out, g, a0, n, i),
        0 <= i < n,
        0 <= j < n,
        i != j,
        a[i][i] == 1,
        a[j][i] == f,
    ensures
        gauss_jordan_state(row_added(a, j, i, f), row_added(out, j, i, f), col_added(g, i, j, f), a0, n, i),
        row_added(a, j, i, f)[j][i] == 0,
        forall|y: int| 0 <= y < n && y != j ==> #[trigger] row_added(a, j, i, f)[y] == a[y],
{
    lemma_row_added_mul(out, a0, n, n, j, i, f);
    lemma_add_dual(g, out, n, i, j, f);
    lemma_eliminate_units(a, n, i, j, f);
}

/// A singular matrix is not invertible.
pub proof fn lemma_singular_not_invertible_all(a: Seq<Seq<u8>>, n: int)
    requires
        n >= 0,
        is_grid(a, n, n),
        singular(a, n),
    ensures
        !invertible(a, n),
{
    let v = choose|v: Seq<Seq<u8>>| is_kernel_witness(a, v, n);
    assert forall|b: Seq<Seq<u8>>| !is_inverse(a, b, n) by {
        if is_grid(b, n, n) {
            lemma_singular_not_invertible(a, v, b, n);
        }
    }
}

/// The entry at (`r`, `c`) of an `n x n` row-major buffer.
fn cell(a: &[u8], n: usize, r: usize, c: usize) -> (v: u8)
    requires
        n * n <= usize::MAX,
        a@.len() == n * n,
        r < n,
        c < n,
    ensures
        v == grid_of(a@, n as int, n as int)[r as int][c as int],
{
    proof {
        lemma_flat_index(n as int, n as int, r as int, c as int, r as int, c as int);
    }
    a[n * r + c]
}

/// The raw Gauss-Jordan inversion under [`Matrix::invert`] and the compat
/// layer's `gf_invert_matrix` — ISA-L semantics: `a` (row-major `n x n`) is
/// DESTROYED (reduced to the identity on success), `out` receives the inverse,
/// and a singular input is a typed error. Slice lengths must be `n * n`.
pub fn invert_gauss_jordan(a: &mut [u8], out: &mut [u8], n: usize) -> (r: Result<(), MatrixError>)
    ensures
        final(a)@.len() == old(a)@.len(),
        final(out)@.len() == old(out)@.len(),
        ({
            let dims_bad = n == 0 || n * n > usize::MAX || old(a)@.len() != n * n || old(out)@.len() != n * n;
            let a0 = grid_of(old(a)@, n as int, n as int);
            &&& dims_bad ==> r == Err::<(), MatrixError>(MatrixError::Dimensions { k: n, p: 0 })
                && final(a)@ == old(a)@ && final(out)@ == old(out)@
            &&& !dims_bad ==> (r is Ok <==> invertible(a0, n as int))
            &&& !dims_bad && r is Err ==> r == Err::<(), MatrixError>(MatrixError::Singular) && singular(a0, n as int)
            &&& r is Ok ==> is_inverse(a0, grid_of(final(out)@, n as int, n as int), n as int)
                && grid_of(final(a)@, n as int, n as int) == identity(n as int)
        }),
{
    let nn = match n.checked_mul(n) {
        Some(nn) => nn,
        None => {
            return Err(MatrixError::Dimensions { k: n, p: 0 });
        },
    };
    if n == 0 || a.len() != nn || out.len() != nn {
        return Err(MatrixError::Dimensions { k: n, p: 0 });
    }
    let ghost na = n as int;
    let ghost a0 = grid_of(a@, na, na);
    // out := identity
    let mut x: usize = 0;
    while x < nn
        invariant
            nn == n * n,
            out@.len() == nn,
            0 <= x <= nn,
            forall|y: int| 0 <= y < x ==> #[trigger] out@[y] == 0u8,
        decreases nn - x,
    {
        out[x] = 0;
        x += 1;
    }
    assert forall|y: int, z: int| 0 <= y < n && 0 <= z < n implies #[trigger] grid_of(out@, na, na)[y][z] == 0u8 by {
        lemma_flat_index(na, na, y, z, y, z);
    }
    let mut i: usize = 0;
    while i < n
        invariant
            na == n,
            square_buffers(a@, out@, na),
            0 <= i <= n,
            forall|y: int, z: int| 0 <= y < n && 0 <= z < n ==> #[trigger] grid_of(out@, na, na)[y][z] == if y == z && y < i { 1u8 } else { 0u8 },
        decreases n - i,
    {
        proof {
            lemma_flat_index(na, na, i as int, i as int, i as int, i as int);
            lemma_grid_set(out@, na, na, i as int, i as int, 1u8);
        }
        out[n * i + i] = 1;
        i += 1;
    }
    let ghost mut g = identity(na);
    proof {
        assert(grid_of(out@, na, na) =~~= identity(na));
        lemma_identity_left(a0, na, na);
        lemma_identity_left(identity(na), na, na);
        assert(gauss_jordan_state(grid_of(a@, na, na), grid_of(out@, na, na), g, a0, na, 0));
    }
    let mut i: usize = 0;
    while i < n
        invariant
            na == n,
            square_buffers(a@, out@, na),
            0 <= i <= n,
            a0 == grid_of(old(a)@, na, na),
            old(a)@.len() == n * n,
            old(out)@.len() == n * n,
            gauss_jordan_state(grid_of(a@, na, na), grid_of(out@, na, na), g, a0, na, i as int),
        decreases n - i,
    {
        if cell(a, n, i, i) == 0 {
            // Find a lower row with a non-zero in this column and swap.
            let mut j = i + 1;
            while j < n && cell(a, n, j, i) == 0
                invariant
                    na == n,
                    square_buffers(a@, out@, na),
                    i < n,
                    i + 1 <= j <= n,
                    grid_of(a@, na, na)[i as int][i as int] == 0u8,
                    forall|y: int| i < y < j ==> #[trigger] grid_of(a@, na, na)[y][i as int] == 0u8,
                decreases n - j,
            {
                j += 1;
            }
            if j == n {
                proof {
                    assert forall|y: int| i <= y < n implies #[trigger] mat_mul(grid_of(out@, na, na), a0, na, na)[y][i as int] == 0u8 by {
                        assert(grid_of(a@, na, na)[y][i as int] == 0u8);
                    }
                    lemma_no_pivot_singular(a0, grid_of(out@, na, na), g, na, i as int);
                    lemma_singular_not_invertible_all(a0, na);
                }
                return Err(MatrixError::Singular);
            }
            let ghost (ga, go) = (grid_of(a@, na, na), grid_of(out@, na, na));
            swap_rows(a, out, n, i, j);
            proof {
                lemma_gauss_jordan_swap(ga, go, g, a0, na, i as int, j as int);
                g = cols_swapped(g, i as int, j as int);
            }
        }
        let pivot = cell(a, n, i, i);
        let scale = crate::gf::inv(pivot);
        let ghost (ga, go) = (grid_of(a@, na, na), grid_of(out@, na, na));
        scale_row(a, out, n, i, scale);
        proof {
            lemma_gauss_jordan_scale(ga, go, g, a0, na, i as int, pivot, scale);
            g = col_scaled(g, i as int, pivot);
        }
        let mut j: usize = 0;
        while j < n
            invariant
                na == n,
                square_buffers(a@, out@, na),
                0 <= i < n,
                0 <= j <= n,
                a0 == grid_of(old(a)@, na, na),
                old(a)@.len() == n * n,
                old(out)@.len() == n * n,
                gauss_jordan_state(grid_of(a@, na, na), grid_of(out@, na, na), g, a0, na, i as int),
                grid_of(a@, na, na)[i as int][i as int] == 1u8,
                forall|y: int| 0 <= y < j && y != i ==> #[trigger] grid_of(a@, na, na)[y][i as int] == 0u8,
            decreases n - j,
        {
            if j != i {
                let f = cell(a, n, j, i);
                if f != 0 {
                    let ghost (ga, go) = (grid_of(a@, na, na), grid_of(out@, na, na));
                    add_row(a, out, n, j, i, f);
                    proof {
                        lemma_gauss_jordan_eliminate(ga, go, g, a0, na, i as int, j as int, f);
                        g = col_added(g, i as int, j as int, f);
                    }
                }
            }
            j += 1;
        }
        proof {
            let a2 = grid_of(a@, na, na);
            assert forall|r: int, c: int| 0 <= r < n && 0 <= c < i + 1 implies #[trigger] a2[r][c] == (if r == c { 1u8 } else { 0u8 }) by {
            }
        }
        i += 1;
    }
    proof {
        let a2 = grid_of(a@, na, na);
        assert(a2 =~~= identity(na));
        lemma_reduced_inverse(a0, grid_of(out@, na, na), g, na);
        assert(is_inverse(a0, grid_of(out@, na, na), na));
    }
    Ok(())
}

} // verus!
