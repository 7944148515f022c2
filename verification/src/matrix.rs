//! Coding matrices: generation (Vandermonde / Cauchy), inversion, and row
//! selection for recovery.
//!
//! Constructions are behavior-identical to ISA-L's `gf_gen_rs_matrix`,
//! `gf_gen_cauchy1_matrix`, and `gf_invert_matrix` — with the contract ISA-L
//! leaves to the caller enforced here as `Result`s: dimension checks, the
//! documented Vandermonde safe region, and singularity as a typed error
//! instead of a `-1`.

use vstd::prelude::*;

use crate::algebra::{dot, identity, invertible, is_grid, is_inverse, mat_mul, singular, xsum};
use crate::error::MatrixError;
use crate::gauss::invert_gauss_jordan;
use crate::gf::{field_inv, field_mul, field_pow, field_pow2, inv, lemma_mul_units};

verus! {

// ---------------------------------------------------------------------------
// Row-major byte buffers as matrices.
// ---------------------------------------------------------------------------

/// The `r x c` matrix stored row-major in `s`.
pub open spec fn grid_of(s: Seq<u8>, r: int, c: int) -> Seq<Seq<u8>> {
    Seq::new(r as nat, |i: int| Seq::new(c as nat, |j: int| s[c * i + j]))
}

/// Row-major positions of distinct cells are distinct, and in range.
pub proof fn lemma_flat_index(r: int, c: int, i1: int, j1: int, i2: int, j2: int)
    requires
        c > 0,
        0 <= i1 < r,
        0 <= i2 < r,
        0 <= j1 < c,
        0 <= j2 < c,
    ensures
        0 <= c * i1 + j1 < r * c,
        (c * i1 + j1 == c * i2 + j2) <==> (i1 == i2 && j1 == j2),
{
    assert(0 <= c * i1 + j1 < r * c) by (nonlinear_arith)
        requires
            c > 0,
            0 <= i1 < r,
            0 <= j1 < c,
    ;
    if i1 < i2 {
        assert(c * i1 + j1 < c * i2 + j2) by (nonlinear_arith)
            requires
                i1 < i2,
                0 <= j1 < c,
                0 <= j2,
        ;
    } else if i2 < i1 {
        assert(c * i2 + j2 < c * i1 + j1) by (nonlinear_arith)
            requires
                i2 < i1,
                0 <= j2 < c,
                0 <= j1,
        ;
    }
}

/// Writing one cell of the buffer writes that cell of the matrix.
pub proof fn lemma_grid_set(s: Seq<u8>, r: int, c: int, i: int, j: int, v: u8)
    requires
        c > 0,
        0 <= i < r,
        0 <= j < c,
        s.len() == r * c,
    ensures
        grid_of(s.update(c * i + j, v), r, c) == grid_of(s, r, c).update(
            i,
            grid_of(s, r, c)[i].update(j, v),
        ),
{
    lemma_flat_index(r, c, i, j, i, j);
    let g1 = grid_of(s.update(c * i + j, v), r, c);
    let g2 = grid_of(s, r, c).update(i, grid_of(s, r, c)[i].update(j, v));
    assert forall|x: int, y: int| 0 <= x < r && 0 <= y < c implies g1[x][y] == g2[x][y] by {
        lemma_flat_index(r, c, x, y, i, j);
    }
    assert(g1 =~~= g2);
}

// ---------------------------------------------------------------------------
// Constructions.
// ---------------------------------------------------------------------------

/// `k` sources and `p` parity rows fit the field: both at least 1, and
/// `k + p <= 255`.
pub open spec fn dims_ok(k: int, p: int) -> bool {
    k >= 1 && p >= 1 && k + p <= 255
}

/// ISA-L's documented safe region for Vandermonde matrices (`k` sources,
/// `m` total rows): inside it every recovery submatrix is invertible.
pub open spec fn vandermonde_safe_spec(k: int, m: int) -> bool {
    k <= 3 || (k == 4 && m <= 25) || (k == 5 && m <= 10) || (k <= 21 && m - k == 4) || m - k <= 3
}

/// ISA-L's safe region, shape by shape for `k` sources and `p` parity rows:
/// any `p` with at most three sources or at most three parity rows; up to
/// 21 parity rows with four sources; up to five with five sources; and
/// four parity rows with up to 21 sources.
pub proof fn lemma_safe_region_shapes(k: int, p: int)
    requires
        1 <= k,
        1 <= p,
    ensures
        vandermonde_safe_spec(k, k + p) <==> (k <= 3 || p <= 3 || (k == 4 && p <= 21) || (k == 5 && p <= 5) || (
        p == 4 && k <= 21)),
        k <= 21 && p == 4 ==> vandermonde_safe_spec(k, k + p),
        k == 4 && p <= 21 ==> vandermonde_safe_spec(k, k + p),
        k == 5 && p <= 5 ==> vandermonde_safe_spec(k, k + p),
        p <= 3 || k <= 3 ==> vandermonde_safe_spec(k, k + p),
        k >= 6 && p >= 5 ==> !vandermonde_safe_spec(k, k + p),
        k >= 22 && p >= 4 ==> !vandermonde_safe_spec(k, k + p),
{
}

/// Entry `(i, j)` of the `(k + p) x k` Vandermonde-style encode matrix:
/// identity on top, then row `k + l` is the powers `(2^l)^j`.
pub open spec fn rs_entry(k: int, i: int, j: int) -> u8 {
    if i < k {
        if i == j {
            1u8
        } else {
            0u8
        }
    } else {
        field_pow(field_pow2((i - k) as nat), j as nat)
    }
}

/// Entry `(i, j)` of the `(k + p) x k` Cauchy encode matrix: identity on
/// top, then `1 / (i XOR j)`.
pub open spec fn cauchy_entry(k: int, i: int, j: int) -> u8 {
    if i < k {
        if i == j {
            1u8
        } else {
            0u8
        }
    } else {
        field_inv((i as u8) ^ (j as u8))
    }
}

/// The `m x k` matrix with entries `e(i, j)`.
pub open spec fn grid_from(m: int, k: int, e: spec_fn(int, int) -> u8) -> Seq<Seq<u8>> {
    Seq::new(m as nat, |i: int| Seq::new(k as nat, |j: int| e(i, j)))
}

/// ISA-L's documented safe region for Vandermonde matrices (`k` sources,
/// `m` total rows): inside it every recovery submatrix is invertible; outside
/// it singular decode matrices exist, so [`Matrix::reed_solomon`] refuses.
fn vandermonde_safe(k: usize, m: usize) -> (r: bool)
    requires
        k <= m,
    ensures
        r == vandermonde_safe_spec(k as int, m as int),
{
    k <= 3 || (k == 4 && m <= 25) || (k == 5 && m <= 10) || (k <= 21 && m - k == 4) || m - k <= 3
}

fn check_dims(k: usize, p: usize) -> (r: Result<(), MatrixError>)
    ensures
        r is Ok <==> dims_ok(k as int, p as int),
        r is Err ==> r == Err::<(), MatrixError>(MatrixError::Dimensions { k, p }),
{
    // checked_add: k + p must not overflow for adversarial dimensions.
    let sum_ok = match k.checked_add(p) {
        Some(m) => m <= 255,
        None => false,
    };
    if k == 0 || p == 0 || !sum_ok {
        return Err(MatrixError::Dimensions { k, p });
    }
    Ok(())
}

/// A row-major `rows x cols` matrix over GF(2^8): columns in `1..=255`,
/// rows in `1..=255` from the general constructors and up to 256 from the
/// Vandermonde construction of [`crate::compat`], which uses every field
/// element as a node.
///
/// For an encode matrix, `rows = k + p` (sources + parity, ISA-L's `m`) and
/// `cols = k`; the top `k x k` block is the identity, so source shards pass
/// through unchanged and the bottom `p` rows generate parity.
#[derive(Debug, PartialEq, Eq)]
pub struct Matrix {
    rows: usize,
    cols: usize,
    data: Vec<u8>,
}

impl Matrix {
    /// The shape invariant every `Matrix` keeps.
    #[verifier::type_invariant]
    pub closed spec fn well_formed(self) -> bool {
        &&& 1 <= self.rows <= 256
        &&& 1 <= self.cols <= 255
        &&& self.data@.len() == self.rows * self.cols
        &&& self.rows * self.cols <= 65280
    }

    /// Number of rows.
    pub closed spec fn nrows(self) -> int {
        self.rows as int
    }

    /// Number of columns.
    pub closed spec fn ncols(self) -> int {
        self.cols as int
    }

    /// The row-major coefficient bytes.
    pub closed spec fn bytes(self) -> Seq<u8> {
        self.data@
    }

    /// The matrix as rows of entries.
    pub open spec fn grid(self) -> Seq<Seq<u8>> {
        grid_of(self.bytes(), self.nrows(), self.ncols())
    }

    /// The facts the shape invariant gives about the specification view.
    pub open spec fn shape(self) -> bool {
        &&& 1 <= self.nrows() <= 256
        &&& 1 <= self.ncols() <= 255
        &&& self.bytes().len() == self.nrows() * self.ncols()
        &&& self.nrows() * self.ncols() <= 65280
        &&& is_grid(self.grid(), self.nrows(), self.ncols())
    }

    /// Vandermonde-style encode matrix for `k` sources and `p` parity rows —
    /// ISA-L's `gf_gen_rs_matrix`, refusing the configurations ISA-L's own
    /// documentation marks unsafe (where some decode submatrices are
    /// singular). Outside the safe region use [`Matrix::cauchy`]. Inside
    /// the safe region any `k` of its rows form an invertible matrix
    /// ([`crate::rs_mds::lemma_rs_listing_nonsingular`]).
    pub fn reed_solomon(k: usize, p: usize) -> (r: Result<Self, MatrixError>)
        ensures
            r is Ok <==> dims_ok(k as int, p as int) && vandermonde_safe_spec(
                k as int,
                (k + p) as int,
            ),
            !dims_ok(k as int, p as int) ==> r == Err::<Self, MatrixError>(
                MatrixError::Dimensions { k, p },
            ),
            dims_ok(k as int, p as int) && !vandermonde_safe_spec(k as int, (k + p) as int) ==> r
                == Err::<Self, MatrixError>(MatrixError::VandermondeUnsafe { k, p }),
            r matches Ok(m) ==> m.nrows() == k + p && m.ncols() == k && m.grid() == grid_from(
                (k + p) as int,
                k as int,
                |i: int, j: int| rs_entry(k as int, i, j),
            ),
            r is Ok <==> 1 <= k && 1 <= p && k + p <= 255 && (k <= 3 || (k == 4 && p <= 21) || (k == 5 && p <= 5) || (
            k <= 21 && p == 4) || p <= 3),
            1 <= k && 1 <= p && k + p <= 255 && !(k <= 3 || (k == 4 && p <= 21) || (k == 5 && p <= 5) || (k <= 21
                && p == 4) || p <= 3) ==> r == Err::<Self, MatrixError>(MatrixError::VandermondeUnsafe { k, p }),
    {
        check_dims(k, p)?;
        let m = k + p;
        if !vandermonde_safe(k, m) {
            return Err(MatrixError::VandermondeUnsafe { k, p });
        }
        let mut data = identity_top(m, k);
        let mut row_gen: u8 = 1;
        let mut i = k;
        while i < m
            invariant
                1 <= k < m <= 255,
                m * k <= 65025,
                k <= i <= m,
                data@.len() == m * k,
                row_gen == field_pow2((i - k) as nat),
                forall|x: int, y: int|
                    0 <= x < m && 0 <= y < k ==> #[trigger] grid_of(data@, m as int, k as int)[x][y]
                        == if x < i { rs_entry(k as int, x, y) } else { 0u8 },
            decreases m - i,
        {
            let mut coeff: u8 = 1;
            let mut j: usize = 0;
            while j < k
                invariant
                    1 <= k < m <= 255,
                    m * k <= 65025,
                m * k <= 65025,
                    k <= i < m,
                    0 <= j <= k,
                    data@.len() == m * k,
                    row_gen == field_pow2((i - k) as nat),
                    coeff == field_pow(row_gen, j as nat),
                    forall|x: int, y: int|
                        0 <= x < m && 0 <= y < k ==> #[trigger] grid_of(data@, m as int, k as int)[x][y]
                            == if x < i || (x == i && y < j) { rs_entry(k as int, x, y) } else { 0u8 },
                decreases k - j,
            {
                proof {
                    lemma_flat_index(m as int, k as int, i as int, j as int, i as int, j as int);
                    lemma_grid_set(data@, m as int, k as int, i as int, j as int, coeff);
                }
                data.set(k * i + j, coeff);
                coeff = crate::gf::mul(coeff, row_gen);
                j += 1;
            }
            proof {
                lemma_mul_units();
            }
            row_gen = crate::gf::mul(row_gen, 2);
            i += 1;
        }
        let r = Matrix { rows: m, cols: k, data };
        assert(r.grid() =~~= grid_from(m as int, k as int, |i: int, j: int| rs_entry(k as int, i, j)));
        Ok(r)
    }

    /// Cauchy encode matrix for `k` sources and `p` parity rows — ISA-L's
    /// `gf_gen_cauchy1_matrix`. Any `k` of its rows form an invertible
    /// matrix ([`crate::mds::lemma_cauchy_listing_nonsingular`]), so every
    /// loss of at most `p` shards is recoverable and any `(k, p)` within the
    /// field limit is a valid configuration; this is the recommended
    /// general-purpose construction.
    pub fn cauchy(k: usize, p: usize) -> (r: Result<Self, MatrixError>)
        ensures
            r is Ok <==> dims_ok(k as int, p as int),
            r is Err ==> r == Err::<Self, MatrixError>(MatrixError::Dimensions { k, p }),
            r matches Ok(m) ==> m.nrows() == k + p && m.ncols() == k && m.grid() == grid_from(
                (k + p) as int,
                k as int,
                |i: int, j: int| cauchy_entry(k as int, i, j),
            ),
    {
        check_dims(k, p)?;
        let m = k + p;
        let mut data = identity_top(m, k);
        let mut i = k;
        while i < m
            invariant
                1 <= k < m <= 255,
                m * k <= 65025,
                k <= i <= m,
                data@.len() == m * k,
                forall|x: int, y: int|
                    0 <= x < m && 0 <= y < k ==> #[trigger] grid_of(data@, m as int, k as int)[x][y]
                        == if x < i { cauchy_entry(k as int, x, y) } else { 0u8 },
            decreases m - i,
        {
            let mut j: usize = 0;
            while j < k
                invariant
                    1 <= k < m <= 255,
                    m * k <= 65025,
                m * k <= 65025,
                    k <= i < m,
                    0 <= j <= k,
                    data@.len() == m * k,
                    forall|x: int, y: int|
                        0 <= x < m && 0 <= y < k ==> #[trigger] grid_of(data@, m as int, k as int)[x][y]
                            == if x < i || (x == i && y < j) { cauchy_entry(k as int, x, y) } else { 0u8 },
                decreases k - j,
            {
                // i >= k > j, so i ^ j is never zero and inv() never sees 0.
                let x: u8 = (i ^ j) as u8;
                assert(x == (i as u8) ^ (j as u8)) by (bit_vector)
                    requires
                        x == ((i ^ j) as u8),
                        i < 256,
                        j < 256,
                ;
                let c = inv(x);
                proof {
                    lemma_flat_index(m as int, k as int, i as int, j as int, i as int, j as int);
                    lemma_grid_set(data@, m as int, k as int, i as int, j as int, c);
                }
                data.set(k * i + j, c);
                j += 1;
            }
            i += 1;
        }
        let r = Matrix { rows: m, cols: k, data };
        assert(r.grid() =~~= grid_from(m as int, k as int, |i: int, j: int| cauchy_entry(k as int, i, j)));
        Ok(r)
    }

    /// Build a matrix from raw row-major bytes. `data.len()` must equal
    /// `rows * cols`, and both dimensions must be in `1..=255`.
    pub fn from_bytes(rows: usize, cols: usize, data: Vec<u8>) -> (r: Result<Self, MatrixError>)
        ensures
            r is Ok <==> (1 <= rows <= 255 && 1 <= cols <= 255 && data@.len() == rows * cols),
            r is Err ==> r == Err::<Self, MatrixError>(
                MatrixError::Dimensions {
                    k: cols,
                    p: if rows >= cols { (rows - cols) as usize } else { 0 },
                },
            ),
            r matches Ok(m) ==> m.nrows() == rows && m.ncols() == cols && m.bytes() == data@,
    {
        if rows == 0 || cols == 0 || rows > 255 || cols > 255 {
            return Err(MatrixError::Dimensions { k: cols, p: rows.saturating_sub(cols) });
        }
        assert(rows * cols <= 65025) by (nonlinear_arith)
            requires
                rows <= 255,
                cols <= 255,
        ;
        if data.len() != rows * cols {
            return Err(MatrixError::Dimensions { k: cols, p: rows.saturating_sub(cols) });
        }
        Ok(Self { rows, cols, data })
    }

    /// A matrix over raw row-major bytes with up to 256 rows: the
    /// constructions that take every field element as a row node need all
    /// 256 of them.
    pub(crate) fn from_node_bytes(rows: usize, cols: usize, data: Vec<u8>) -> (r: Self)
        requires
            1 <= rows <= 256,
            1 <= cols <= 255,
            data@.len() == rows * cols,
        ensures
            r.nrows() == rows && r.ncols() == cols && r.bytes() == data@,
    {
        assert(rows * cols <= 65280) by (nonlinear_arith)
            requires
                rows <= 256,
                cols <= 255,
        ;
        Self { rows, cols, data }
    }

    /// Number of rows (`k + p` for an encode matrix — ISA-L's `m`).
    pub fn rows(&self) -> (r: usize)
        ensures
            r == self.nrows(),
            1 <= r <= 256,
            self.shape(),
    {
        proof {
            use_type_invariant(self);
        }
        self.rows
    }

    /// Number of columns (`k`, the source count, for an encode matrix).
    pub fn cols(&self) -> (r: usize)
        ensures
            r == self.ncols(),
            1 <= r <= 255,
            self.shape(),
    {
        proof {
            use_type_invariant(self);
        }
        self.cols
    }

    /// The coefficient at (`row`, `col`), or `None` out of bounds.
    pub fn get(&self, row: usize, col: usize) -> (r: Option<u8>)
        ensures
            r is Some <==> (row < self.nrows() && col < self.ncols()),
            r matches Some(v) ==> v == self.grid()[row as int][col as int],
    {
        proof {
            use_type_invariant(self);
        }
        if row < self.rows && col < self.cols {
            proof {
                lemma_flat_index(self.rows as int, self.cols as int, row as int, col as int, 0, 0);
            }
            Some(self.data[self.cols * row + col])
        } else {
            None
        }
    }

    /// The raw row-major coefficient bytes.
    pub fn as_bytes(&self) -> (r: &[u8])
        ensures
            r@ == self.bytes(),
    {
        self.data.as_slice()
    }

    /// The bottom `p` rows — the parity-generating block, in exactly the
    /// layout `tables::init_tables` expects. A matrix with fewer rows than
    /// columns has no rows below its top block: the block is empty.
    pub fn parity_bytes(&self) -> (r: &[u8])
        ensures
            r@ == if self.ncols() <= self.nrows() {
                self.bytes().subrange(self.ncols() * self.ncols(), self.bytes().len() as int)
            } else {
                Seq::<u8>::empty()
            },
    {
        proof {
            use_type_invariant(self);
        }
        if self.cols > self.rows {
            return vstd::slice::slice_subrange(self.data.as_slice(), 0, 0);
        }
        proof {
            assert(self.cols * self.cols <= self.rows * self.cols) by (nonlinear_arith)
                requires
                    self.cols <= self.rows,
            ;
        }
        vstd::slice::slice_subrange(self.data.as_slice(), self.cols * self.cols, self.data.len())
    }

    /// Select `indices.len()` rows (in order) into a new matrix — the step
    /// that builds a decode matrix from the surviving shards' rows. Indices
    /// must be in range; duplicates are allowed here and will simply produce
    /// a singular matrix at inversion.
    pub fn select_rows(&self, indices: &[usize]) -> (r: Result<Self, MatrixError>)
        ensures
            r is Ok <==> (1 <= indices@.len() <= 255 && forall|t: int|
                0 <= t < indices@.len() ==> #[trigger] indices@[t] < self.nrows()),
            r is Err ==> r == Err::<Self, MatrixError>(
                MatrixError::Dimensions { k: self.ncols() as usize, p: 0 },
            ),
            r matches Ok(m) ==> m.nrows() == indices@.len() && m.ncols() == self.ncols()
                && m.grid() == Seq::new(
                indices@.len(),
                |t: int| self.grid()[indices@[t] as int],
            ),
    {
        proof {
            use_type_invariant(self);
        }
        if indices.len() == 0 || indices.len() > 255 {
            return Err(MatrixError::Dimensions { k: self.cols, p: 0 });
        }
        let cols = self.cols;
        let nsel = indices.len();
        assert(nsel * cols <= 65025) by (nonlinear_arith)
            requires
                nsel <= 255,
                cols <= 255,
        ;
        let mut data: Vec<u8> = Vec::with_capacity(nsel * cols);
        let mut t: usize = 0;
        while t < nsel
            invariant
                nsel == indices@.len(),
                1 <= nsel <= 255,
                1 <= cols <= 255,
                nsel * cols <= 65025,
                cols == self.cols,
                self.well_formed(),
                0 <= t <= nsel,
                forall|q: int| 0 <= q < t ==> #[trigger] indices@[q] < self.rows,
                data@.len() == cols * t,
                forall|q: int, y: int|
                    0 <= q < t && 0 <= y < cols ==> #[trigger] data@[cols * q + y] == self.grid()[indices@[q] as int][y],
            decreases nsel - t,
        {
            let r = indices[t];
            if r >= self.rows {
                return Err(MatrixError::Dimensions { k: self.cols, p: 0 });
            }
            proof {
                lemma_flat_index(self.rows as int, cols as int, r as int, 0, r as int, 0);
                assert(cols * r + cols <= self.rows * cols) by (nonlinear_arith)
                    requires
                        r < self.rows,
                ;
            }
            let row = vstd::slice::slice_subrange(self.data.as_slice(), cols * r, cols * r + cols);
            let ghost before = data@;
            data.extend_from_slice(row);
            proof {
                assert forall|q: int, y: int|
                    0 <= q < t + 1 && 0 <= y < cols implies #[trigger] data@[cols * q + y] == self.grid()[indices@[q] as int][y] by {
                    lemma_flat_index(nsel as int, cols as int, q, y, t as int, 0);
                    if q == t {
                        assert(cols * q + y - cols * t == y);
                        assert(cloned(row@[y], data@[cols * q + y]));
                    } else {
                        assert(cols * q + y < cols * t) by (nonlinear_arith)
                            requires
                                q < t,
                                y < cols,
                        ;
                        assert(data@[cols * q + y] == before[cols * q + y]);
                    }
                }
                assert(data@.len() == cols * (t + 1)) by (nonlinear_arith)
                    requires
                        data@.len() == cols * t + cols,
                ;
            }
            t += 1;
        }
        assert(data@.len() == nsel * cols) by (nonlinear_arith)
            requires
                data@.len() == cols * nsel,
        ;
        let m = Self { rows: nsel, cols, data };
        assert forall|q: int, y: int| 0 <= q < nsel && 0 <= y < cols implies m.grid()[q][y] == self.grid()[indices@[q] as int][y] by {
        }
        assert(m.grid() =~~= Seq::new(nsel as nat, |q: int| self.grid()[indices@[q] as int]));
        Ok(m)
    }

    /// Invert a square matrix — ISA-L's `gf_invert_matrix` (Gauss-Jordan with
    /// row-swap pivoting), except non-destructive and with singularity as a
    /// typed error. Non-square input is a dimension error.
    pub fn invert(&self) -> (r: Result<Self, MatrixError>)
        ensures
            self.nrows() != self.ncols() ==> r == Err::<Self, MatrixError>(
                MatrixError::Dimensions {
                    k: self.ncols() as usize,
                    p: if self.nrows() >= self.ncols() { (self.nrows() - self.ncols()) as usize } else { 0 },
                },
            ),
            self.nrows() == self.ncols() ==> (r is Ok <==> invertible(self.grid(), self.nrows())),
            self.nrows() == self.ncols() && r is Err ==> r == Err::<Self, MatrixError>(MatrixError::Singular)
                && singular(self.grid(), self.nrows()),
            r matches Ok(m) ==> m.nrows() == self.nrows() && m.ncols() == self.nrows()
                && is_inverse(self.grid(), m.grid(), self.nrows()),
    {
        proof {
            use_type_invariant(self);
        }
        if self.rows != self.cols {
            return Err(MatrixError::Dimensions { k: self.cols, p: self.rows.saturating_sub(self.cols) });
        }
        let n = self.rows;
        let mut a = self.data.clone();
        assert(a@ == self.data@) by {
            assert forall|x: int| 0 <= x < a@.len() implies a@[x] == self.data@[x] by {
                assert(cloned(self.data@[x], a@[x]));
            }
            assert(a@ =~= self.data@);
        }
        let mut out = vec![0u8; n * n];
        invert_gauss_jordan(a.as_mut_slice(), out.as_mut_slice(), n)?;
        Ok(Self { rows: n, cols: n, data: out })
    }

    /// Matrix product `self * rhs` (used by tests and the recovery path).
    /// Dimension mismatch is an error, never a panic.
    pub fn multiply(&self, rhs: &Self) -> (r: Result<Self, MatrixError>)
        ensures
            r is Ok <==> self.ncols() == rhs.nrows(),
            r is Err ==> r == Err::<Self, MatrixError>(
                MatrixError::Dimensions { k: rhs.nrows() as usize, p: 0 },
            ),
            r matches Ok(m) ==> m.nrows() == self.nrows() && m.ncols() == rhs.ncols() && m.grid()
                == mat_mul(self.grid(), rhs.grid(), self.ncols(), rhs.ncols()),
    {
        proof {
            use_type_invariant(self);
            use_type_invariant(rhs);
        }
        if self.cols != rhs.rows {
            return Err(MatrixError::Dimensions { k: rhs.rows, p: 0 });
        }
        let rows = self.rows;
        let cols = rhs.cols;
        let inner = self.cols;
        assert(rows * cols <= 65280) by (nonlinear_arith)
            requires
                rows <= 256,
                cols <= 255,
        ;
        let mut data = vec![0u8; rows * cols];
        let ghost a = self.grid();
        let ghost b = rhs.grid();
        let mut i: usize = 0;
        while i < rows
            invariant
                self.well_formed(),
                rhs.well_formed(),
                a == self.grid(),
                b == rhs.grid(),
                rows == self.rows,
                cols == rhs.cols,
                inner == self.cols,
                inner == rhs.rows,
                rows * cols <= 65280,
                0 <= i <= rows,
                data@.len() == rows * cols,
                forall|x: int, y: int|
                    0 <= x < i && 0 <= y < cols ==> #[trigger] grid_of(data@, rows as int, cols as int)[x][y]
                        == dot(a, b, inner as int, x, y),
            decreases rows - i,
        {
            let mut j: usize = 0;
            while j < cols
                invariant
                    self.well_formed(),
                    rhs.well_formed(),
                    a == self.grid(),
                    b == rhs.grid(),
                    rows == self.rows,
                    cols == rhs.cols,
                    inner == self.cols,
                    inner == rhs.rows,
                    rows * cols <= 65280,
                    0 <= i < rows,
                    0 <= j <= cols,
                    data@.len() == rows * cols,
                    forall|x: int, y: int|
                        0 <= x < rows && 0 <= y < cols && (x < i || (x == i && y < j)) ==> #[trigger] grid_of(
                            data@,
                            rows as int,
                            cols as int,
                        )[x][y] == dot(a, b, inner as int, x, y),
                decreases cols - j,
            {
                let mut s: u8 = 0;
                let mut t: usize = 0;
                while t < inner
                    invariant
                        self.well_formed(),
                        rhs.well_formed(),
                        a == self.grid(),
                        b == rhs.grid(),
                        rows == self.rows,
                        cols == rhs.cols,
                        inner == self.cols,
                        inner == rhs.rows,
                        0 <= i < rows,
                        0 <= j < cols,
                        0 <= t <= inner,
                        s == xsum(t as int, |tt: int| field_mul(a[i as int][tt], b[tt][j as int])),
                    decreases inner - t,
                {
                    proof {
                        lemma_flat_index(rows as int, inner as int, i as int, t as int, i as int, t as int);
                        lemma_flat_index(inner as int, cols as int, t as int, j as int, t as int, j as int);
                    }
                    s ^= crate::gf::mul(self.data[self.cols * i + t], rhs.data[rhs.cols * t + j]);
                    t += 1;
                }
                proof {
                    lemma_flat_index(rows as int, cols as int, i as int, j as int, i as int, j as int);
                    lemma_grid_set(data@, rows as int, cols as int, i as int, j as int, s);
                }
                data.set(rhs.cols * i + j, s);
                j += 1;
            }
            i += 1;
        }
        let m = Self { rows, cols, data };
        assert(m.grid() =~~= mat_mul(a, b, inner as int, cols as int));
        Ok(m)
    }

    /// True if this is the identity matrix.
    pub fn is_identity(&self) -> (r: bool)
        ensures
            r == (self.nrows() == self.ncols() && self.grid() == identity(self.nrows())),
    {
        proof {
            use_type_invariant(self);
        }
        if self.rows != self.cols {
            return false;
        }
        let n = self.cols;
        let len = self.data.len();
        let mut idx: usize = 0;
        while idx < len
            invariant
                self.well_formed(),
                n == self.cols,
                n == self.rows,
                len == self.data@.len(),
                0 <= idx <= len,
                forall|x: int| 0 <= x < idx ==> #[trigger] self.data@[x] == (if x / (n as int) == x % (n as int) { 1u8 } else { 0u8 }),
            decreases len - idx,
        {
            let v = self.data[idx];
            let want: u8 = if idx / n == idx % n { 1 } else { 0 };
            if v != want {
                proof {
                    let x = idx as int;
                    let i = x / (n as int);
                    let j = x % (n as int);
                    vstd::arithmetic::div_mod::lemma_fundamental_div_mod(x, n as int);
                    vstd::arithmetic::div_mod::lemma_mod_pos_bound(x, n as int);
                    vstd::arithmetic::div_mod::lemma_div_pos_is_pos(x, n as int);
                    assert(i < n) by (nonlinear_arith)
                        requires
                            x == n * i + j,
                            0 <= j,
                            x < n * n,
                            n > 0,
                    ;
                    assert(self.grid()[i][j] != identity(n as int)[i][j]);
                }
                return false;
            }
            idx += 1;
        }
        proof {
            assert forall|i: int, j: int| 0 <= i < n && 0 <= j < n implies self.grid()[i][j] == identity(n as int)[i][j] by {
                lemma_flat_index(n as int, n as int, i, j, i, j);
                let x = n * i + j;
                assert(x == i * n + j) by (nonlinear_arith)
                    requires
                        x == n * i + j,
                ;
                vstd::arithmetic::div_mod::lemma_fundamental_div_mod_converse(x, n as int, i, j);
            }
            assert(self.grid() =~~= identity(n as int));
        }
        true
    }
}

impl Clone for Matrix {
    fn clone(&self) -> (r: Self)
        ensures
            r.nrows() == self.nrows(),
            r.ncols() == self.ncols(),
            r.bytes() == self.bytes(),
    {
        proof {
            use_type_invariant(self);
        }
        Matrix { rows: self.rows, cols: self.cols, data: self.data.clone() }
    }
}

/// A zeroed `m x k` buffer with the identity in its top `k x k` block.
fn identity_top(m: usize, k: usize) -> (data: Vec<u8>)
    requires
        1 <= k < m <= 255,
    ensures
        data@.len() == m * k,
        m * k <= 65025,
        forall|x: int, y: int|
            0 <= x < m && 0 <= y < k ==> #[trigger] grid_of(data@, m as int, k as int)[x][y] == if x
                < k && x == y {
                1u8
            } else {
                0u8
            },
{
    assert(m * k <= 65025) by (nonlinear_arith)
        requires
            m <= 255,
            k <= 255,
    ;
    let mut data = vec![0u8; m * k];
    assert forall|x: int, y: int| 0 <= x < m && 0 <= y < k implies #[trigger] grid_of(
        data@,
        m as int,
        k as int,
    )[x][y] == 0u8 by {
        lemma_flat_index(m as int, k as int, x, y, x, y);
        assert(cloned(0u8, data@[k * x + y]));
    }
    let mut i: usize = 0;
    while i < k
        invariant
            1 <= k < m <= 255,
            m * k <= 65025,
            0 <= i <= k,
            data@.len() == m * k,
            forall|x: int, y: int|
                0 <= x < m && 0 <= y < k ==> #[trigger] grid_of(data@, m as int, k as int)[x][y] == if x
                    < i && x == y {
                    1u8
                } else {
                    0u8
                },
        decreases k - i,
    {
        proof {
            lemma_flat_index(m as int, k as int, i as int, i as int, i as int, i as int);
            lemma_grid_set(data@, m as int, k as int, i as int, i as int, 1u8);
        }
        data.set(k * i + i, 1);
        i += 1;
    }
    data
}


} // verus!
