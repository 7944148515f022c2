//! The `Coder`: encode, incremental update, verify, and recover — ISA-L's
//! `ec_encode_data` / `ec_encode_data_update` semantics plus the recovery flow
//! ISA-L leaves as an exercise, all behind validated, panic-free APIs.
//!
//! A stripe is `k` source shards and `p` parity shards. Parity shard `l` is
//! row `k + l` of the encode matrix applied to the sources, byte by byte
//! ([`parity_byte`]); recovery inverts the rows of `k` surviving shards.

use vstd::prelude::*;

use crate::error::{CodeError, MatrixError, RecoverError};
use crate::gf::field_mul;
use crate::kernel::{
    all_len, all_len_mut, dot_byte, dot_terms, first_bad_len, first_bad_len_mut, first_len,
    format_width, lemma_block_apply, tables_for, Kernels, TableFormat,
};
use crate::algebra::{
    dot, invertible, is_grid, is_permutation, singular, lemma_inverse_unique_matrix, lemma_xsum_ext, lemma_xsum_perm,
    mat_mul, xsum,
};
use crate::decode::{
    count_present, decode_matrix, lemma_recovery_restores, lemma_take_present, rebuild_row,
    select_grid, stripe_byte, take_present, top_identity,
};
use crate::matrix::Matrix;

verus! {

/// The byte contents of a list of shard buffers.
pub open spec fn shard_views(s: Seq<&[u8]>) -> Seq<Seq<u8>> {
    Seq::new(s.len(), |j: int| s[j]@)
}

/// A coefficient row applied to byte `i` of the first `k` shards:
/// `XOR_j row[j] * shards[j][i]`.
pub open spec fn row_apply(row: Seq<u8>, k: int, shards: Seq<Seq<u8>>, i: int) -> u8 {
    xsum(k, |j: int| field_mul(row[j], shards[j][i]))
}

/// Byte `i` of parity shard `l` for the sources `data`, under the encode
/// matrix `g` with `k` sources.
pub open spec fn parity_byte(g: Seq<Seq<u8>>, k: int, data: Seq<Seq<u8>>, l: int, i: int) -> u8 {
    row_apply(g[k + l], k, data, i)
}

/// Every index in `s` is below `n`.
pub open spec fn all_in_range(s: Seq<usize>, n: int) -> bool {
    forall|q: int| 0 <= q < s.len() ==> #[trigger] s[q] < n
}

/// `x` is the first entry of `s` that is not below `n`.
pub open spec fn first_out_of_range(s: Seq<usize>, n: int, x: usize) -> bool {
    exists|q: int| 0 <= q < s.len() && #[trigger] s[q] == x && x >= n && forall|z: int| 0 <= z < q ==> #[trigger] s[z] < n
}

/// Survivor `t` (shard `s[t]`) is present and `len` bytes long.
pub open spec fn survivor_ok(shards: Seq<Option<&[u8]>>, s: Seq<usize>, len: int, t: int) -> bool {
    shards[s[t] as int] is Some && shards[s[t] as int]->0@.len() == len
}

/// Survivor `t` is the first one that is missing or of the wrong length.
pub open spec fn first_bad_survivor(shards: Seq<Option<&[u8]>>, s: Seq<usize>, len: int, t: int) -> bool {
    &&& 0 <= t < s.len()
    &&& !survivor_ok(shards, s, len, t)
    &&& forall|q: int| 0 <= q < t ==> #[trigger] survivor_ok(shards, s, len, q)
}

/// Byte `i` of the present shard `x`.
pub open spec fn shard_byte(shards: Seq<Option<&[u8]>>, x: int, i: int) -> u8 {
    shards[x]->0@[i]
}

/// Byte `i` rebuilt for target `q`: coefficient row `q` (of `k`) applied
/// to byte `i` of the survivors `s`.
pub open spec fn rebuilt_byte(coeffs: Seq<u8>, k: int, q: int, shards: Seq<Option<&[u8]>>, s: Seq<usize>, i: int) -> u8 {
    xsum(k, |t: int| field_mul(coeffs[q * k + t], shard_byte(shards, s[t] as int, i)))
}

/// Which positions of a stripe hold a shard.
pub open spec fn presence(shards: Seq<Option<&[u8]>>) -> Seq<bool> {
    Seq::new(shards.len(), |i: int| shards[i] is Some)
}

/// Every present shard is `len` bytes long.
pub open spec fn present_len(shards: Seq<Option<&[u8]>>, len: int) -> bool {
    forall|q: int| 0 <= q < shards.len() && (#[trigger] shards[q]) is Some ==> shards[q]->0@.len() == len
}

/// Shard `x` is the first present shard whose length is not `len`.
pub open spec fn first_bad_present(shards: Seq<Option<&[u8]>>, len: int, x: int) -> bool {
    &&& 0 <= x < shards.len()
    &&& shards[x] is Some
    &&& shards[x]->0@.len() != len
    &&& forall|q: int| 0 <= q < x && (#[trigger] shards[q]) is Some ==> shards[q]->0@.len() == len
}

/// The parity block of an encode matrix: its rows after the first `cols`.
pub open spec fn parity_coeffs(m: Matrix) -> Seq<u8> {
    m.bytes().subrange(m.ncols() * m.ncols(), m.bytes().len() as int)
}

/// A prepared decode: the survivor selection, the coefficient rows that
/// rebuild each target, and their expanded tables for ONE loss pattern —
/// reusable across every stripe sharing that pattern. Built by
/// [`Coder::decode_plan`], consumed by [`Coder::recover_with`].
#[derive(Debug)]
pub struct DecodePlan {
    gftbls: Vec<u8>,
    survivors: Vec<usize>,
    rebuild: Vec<usize>,
    n: usize,
    kernels: Kernels,
    coeffs: Vec<u8>,
}

impl DecodePlan {
    /// The invariant every plan keeps: survivors in range, one coefficient
    /// row per target, and the tables of those rows.
    #[verifier::type_invariant]
    closed spec fn plan_inv(self) -> bool {
        &&& 1 <= self.survivors@.len() <= 255
        &&& forall|t: int| 0 <= t < self.survivors@.len() ==> #[trigger] self.survivors@[t] < self.n
        &&& self.coeffs@.len() == self.rebuild@.len() * self.survivors@.len()
        &&& tables_for(self.kernels.format_of(), self.gftbls@, self.coeffs@)
    }

    /// The shards the plan reads, in order.
    pub closed spec fn survivors_of(self) -> Seq<usize> {
        self.survivors@
    }

    /// The shards the plan rebuilds, in order.
    pub closed spec fn rebuild_of(self) -> Seq<usize> {
        self.rebuild@
    }

    /// The stripe width the plan was made for.
    pub closed spec fn n_of(self) -> int {
        self.n as int
    }

    /// The coefficient rows, row-major: target `r`, survivor `t` at
    /// `r * k + t`.
    pub closed spec fn coeffs_of(self) -> Seq<u8> {
        self.coeffs@
    }

    /// The kernel set the plan's tables are made for.
    pub closed spec fn kernels_of(self) -> Kernels {
        self.kernels
    }
}

impl Clone for DecodePlan {
    fn clone(&self) -> (r: Self)
        ensures
            r.survivors_of() == self.survivors_of(),
            r.rebuild_of() == self.rebuild_of(),
            r.n_of() == self.n_of(),
            r.coeffs_of() == self.coeffs_of(),
            r.kernels_of() == self.kernels_of(),
    {
        proof {
            use_type_invariant(self);
        }
        DecodePlan {
            gftbls: self.gftbls.clone(),
            survivors: self.survivors.clone(),
            rebuild: self.rebuild.clone(),
            n: self.n,
            kernels: self.kernels,
            coeffs: self.coeffs.clone(),
        }
    }
}

/// An erasure coder for one encode matrix: `k` source shards in, `p` parity
/// shards out, recovery from any `k` survivors whose rows invert.
///
/// Construction expands the parity coefficients into tables once;
/// encode/update/recover then run on those tables.
#[derive(Debug)]
pub struct Coder {
    matrix: Matrix,
    /// Expanded tables for the parity rows: table for (parity row `l`,
    /// source `j`) at position `l * k + j`.
    gftbls: Vec<u8>,
    /// The kernel set chosen once at construction.
    kernels: Kernels,
}

impl Coder {
    /// The invariant every `Coder` keeps: a matrix with parity rows, and the
    /// tables of its parity block in the kernel set's format.
    #[verifier::type_invariant]
    closed spec fn coder_inv(self) -> bool {
        &&& self.matrix.shape()
        &&& self.matrix.nrows() > self.matrix.ncols()
        &&& tables_for(self.kernels.format_of(), self.gftbls@, parity_coeffs(self.matrix))
    }

    /// The encode matrix.
    pub closed spec fn matrix_of(self) -> Matrix {
        self.matrix
    }

    /// The kernel set.
    pub closed spec fn kernels_of(self) -> Kernels {
        self.kernels
    }

    /// The expanded parity tables.
    pub closed spec fn tables_of(self) -> Seq<u8> {
        self.gftbls@
    }

    /// Source-shard count.
    pub open spec fn k_of(self) -> int {
        self.matrix_of().ncols()
    }

    /// Total shard count.
    pub open spec fn n_of(self) -> int {
        self.matrix_of().nrows()
    }

    /// Parity-shard count.
    pub open spec fn p_of(self) -> int {
        self.n_of() - self.k_of()
    }

    /// The encode matrix as rows.
    pub open spec fn grid_of(self) -> Seq<Seq<u8>> {
        self.matrix_of().grid()
    }

    /// What the invariant gives about the specification view.
    pub open spec fn valid(self) -> bool {
        &&& self.matrix_of().shape()
        &&& 1 <= self.k_of() < self.n_of() <= 256
        &&& tables_for(self.kernels_of().format_of(), self.tables_of(), parity_coeffs(self.matrix_of()))
    }

    proof fn lemma_valid(&self)
        requires
            self.coder_inv(),
        ensures
            self.valid(),
            self.tables_of().len() == format_width(self.kernels_of().format_of()) * (self.p_of()
                * self.k_of()),
    {
        let k = self.k_of();
        let n = self.n_of();
        assert(n * k - k * k == (n - k) * k) by (nonlinear_arith);
    }

    /// The kernel tables multiply by the parity coefficients.
    proof fn lemma_tables(&self, l: int, j: int, x: u8)
        requires
            self.valid(),
            0 <= l < self.p_of(),
            0 <= j < self.k_of(),
        ensures
            crate::kernel::block_apply(self.kernels_of().format_of(), self.tables_of(), l * self.k_of() + j, x)
                == field_mul(self.grid_of()[self.k_of() + l][j], x),
    {
        let k = self.k_of();
        let n = self.n_of();
        let p = self.p_of();
        let m = self.matrix_of();
        assert(0 <= l * k + j < p * k && k * (k + l) + j == k * k + (l * k + j) && p * k == n * k - k * k)
            by (nonlinear_arith)
            requires
                0 <= l < p,
                0 <= j < k,
                p == n - k,
        ;
        lemma_block_apply(self.kernels_of().format_of(), self.tables_of(), parity_coeffs(m), l * k + j, x);
    }

    /// A kernel dot product over the coder's tables is a parity byte.
    proof fn lemma_dot_parity(&self, data: Seq<&[u8]>, l: int, i: int)
        requires
            self.valid(),
            0 <= l < self.p_of(),
            data.len() == self.k_of(),
        ensures
            dot_byte(self.kernels_of().format_of(), self.tables_of(), data, l * self.k_of(), i)
                == parity_byte(self.grid_of(), self.k_of(), shard_views(data), l, i),
    {
        let k = self.k_of();
        let f = dot_terms(self.kernels_of().format_of(), self.tables_of(), data, l * k, i);
        let g = |j: int| field_mul(self.grid_of()[k + l][j], shard_views(data)[j][i]);
        assert forall|j: int| 0 <= j < k implies #[trigger] f(j) == g(j) by {
            self.lemma_tables(l, j, data[j]@[i]);
        }
        lemma_xsum_ext(k, f, g);
    }

    /// Build a coder from an encode matrix (`rows = k + p`, `cols = k`, top
    /// block identity — what [`Matrix::reed_solomon`] / [`Matrix::cauchy`]
    /// produce). A matrix with no parity rows is a dimension error.
    ///
    /// This constructor uses the scalar kernel set; [`Coder::with_kernels`]
    /// takes any other.
    pub fn new(matrix: Matrix) -> (r: Result<Self, MatrixError>)
        ensures
            r is Ok <==> matrix.nrows() > matrix.ncols(),
            r is Err ==> r == Err::<Self, MatrixError>(
                MatrixError::Dimensions { k: matrix.ncols() as usize, p: 0 },
            ),
            r matches Ok(c) ==> c.matrix_of() == matrix && c.kernels_of().format_of() == TableFormat::Nibble,
    {
        Self::with_kernels(matrix, Kernels::scalar())
    }

    /// Build a coder driving an explicit kernel set (see [`Kernels`]).
    pub fn with_kernels(matrix: Matrix, kernels: Kernels) -> (r: Result<Self, MatrixError>)
        ensures
            r is Ok <==> matrix.nrows() > matrix.ncols(),
            r is Err ==> r == Err::<Self, MatrixError>(
                MatrixError::Dimensions { k: matrix.ncols() as usize, p: 0 },
            ),
            r matches Ok(c) ==> c.matrix_of() == matrix && c.kernels_of() == kernels,
    {
        let rows = matrix.rows();
        let cols = matrix.cols();
        if rows <= cols {
            return Err(MatrixError::Dimensions { k: cols, p: rows.saturating_sub(cols) });
        }
        proof {
            assert(rows * cols <= 65280);
        }
        assert(cols * cols <= rows * cols) by (nonlinear_arith)
            requires
                cols < rows,
        ;
        let coeffs = matrix.parity_bytes();
        assert(coeffs@.len() <= 65280);
        let gftbls = kernels.init(coeffs);
        Ok(Self { matrix, gftbls, kernels })
    }

    /// The kernel set this coder drives (its name is useful for reporting).
    pub fn kernels(&self) -> (r: &Kernels)
        ensures
            *r == self.kernels_of(),
    {
        &self.kernels
    }

    /// Source-shard count.
    pub fn k(&self) -> (r: usize)
        ensures
            r == self.k_of(),
            self.valid(),
    {
        proof {
            use_type_invariant(self);
            self.lemma_valid();
        }
        self.matrix.cols()
    }

    /// Parity-shard count.
    pub fn p(&self) -> (r: usize)
        ensures
            r == self.p_of(),
            self.valid(),
    {
        proof {
            use_type_invariant(self);
            self.lemma_valid();
        }
        self.matrix.rows() - self.matrix.cols()
    }

    /// The encode matrix this coder was built from.
    pub fn matrix(&self) -> (r: &Matrix)
        ensures
            *r == self.matrix_of(),
    {
        &self.matrix
    }

    /// The expanded parity tables, in this coder's kernel-set format
    /// (`kernels().table_bytes()` per coefficient).
    pub fn gftbls(&self) -> (r: &[u8])
        ensures
            r@ == self.tables_of(),
    {
        self.gftbls.as_slice()
    }

    /// `k` source buffers of `len` bytes each.
    fn check_data(&self, data: &[&[u8]], len: usize) -> (r: Result<(), CodeError>)
        ensures
            r is Ok <==> data@.len() == self.k_of() && all_len(data@, len as int),
            data@.len() != self.k_of() ==> r matches Err(CodeError::ShardCount { .. }),
            r matches Err(CodeError::ShardCount { expected, got }) ==> data@.len() != self.k_of()
                && expected == self.k_of() && got == data@.len(),
            r matches Err(CodeError::ShardLength { index, expected, got }) ==> data@.len() == self.k_of()
                && first_bad_len(data@, len as int, index as int) && expected == len && got
                == data@[index as int]@.len(),
            r is Err ==> (r matches Err(CodeError::ShardCount { .. }) || r matches Err(
                CodeError::ShardLength { .. },
            )),
    {
        let k = self.k();
        if data.len() != k {
            return Err(CodeError::ShardCount { expected: k, got: data.len() });
        }
        let mut index: usize = 0;
        while index < k
            invariant
                k == data@.len(),
                k == self.k_of(),
                0 <= index <= k,
                forall|q: int| 0 <= q < index ==> (#[trigger] data@[q]@).len() == len,
            decreases k - index,
        {
            if data[index].len() != len {
                return Err(CodeError::ShardLength { index, expected: len, got: data[index].len() });
            }
            index += 1;
        }
        Ok(())
    }

    /// Encode: `k` equal-length source shards in, `p` parity shards out
    /// (overwritten). Byte-identical to ISA-L `ec_encode_data`.
    pub fn encode(&self, data: &[&[u8]], parity: &mut [&mut [u8]]) -> (r: Result<(), CodeError>)
        ensures
            ({
                let len = first_len(old(parity)@);
                &&& r is Ok <==> old(parity)@.len() == self.p_of() && all_len_mut(old(parity)@, len)
                    && data@.len() == self.k_of() && all_len(data@, len)
                &&& old(parity)@.len() != self.p_of() ==> r == Err::<(), CodeError>(
                    CodeError::ShardCount { expected: self.p_of() as usize, got: old(parity)@.len() as usize },
                )
                &&& r matches Err(CodeError::ShardCount { expected, got }) ==> (old(parity)@.len()
                    != self.p_of() || (all_len_mut(old(parity)@, len) && data@.len() != self.k_of()
                    && expected == self.k_of() && got == data@.len()))
                &&& r matches Err(CodeError::ShardLength { index, expected, got }) ==> old(parity)@.len()
                    == self.p_of() && expected == len && ((index >= self.k_of() && first_bad_len_mut(
                    old(parity)@,
                    len,
                    index - self.k_of(),
                ) && got == old(parity)@[index - self.k_of()]@.len()) || (all_len_mut(old(parity)@, len)
                    && data@.len() == self.k_of() && first_bad_len(data@, len, index as int) && got
                    == data@[index as int]@.len()))
                &&& r is Err ==> (r matches Err(CodeError::ShardCount { .. }) || r matches Err(
                    CodeError::ShardLength { .. },
                ))
            }),
            final(parity)@.len() == old(parity)@.len(),
            forall|l: int| 0 <= l < old(parity)@.len() ==> (#[trigger] final(parity)@[l]@).len() == old(parity)@[l]@.len(),
            r is Err ==> forall|l: int| 0 <= l < old(parity)@.len() ==> #[trigger] final(parity)@[l]@ == old(parity)@[l]@,
            r is Ok ==> forall|l: int, i: int|
                0 <= l < self.p_of() && 0 <= i < old(parity)@[l]@.len() ==> #[trigger] final(parity)@[l]@[i]
                    == parity_byte(self.grid_of(), self.k_of(), shard_views(data@), l, i),
    {
        let k = self.k();
        let p = self.p();
        if parity.len() != p {
            return Err(CodeError::ShardCount { expected: p, got: parity.len() });
        }
        let len = parity[0].len();
        let mut index: usize = 0;
        while index < p
            invariant
                p == old(parity)@.len(),
                p == self.p_of(),
                k == self.k_of(),
                parity@ == old(parity)@,
                p >= 1,
                k + p <= 256,
                len == first_len(old(parity)@),
                0 <= index <= p,
                forall|q: int| 0 <= q < index ==> (#[trigger] parity@[q]@).len() == len,
            decreases p - index,
        {
            if parity[index].len() != len {
                return Err(CodeError::ShardLength { index: k + index, expected: len, got: parity[index].len() });
            }
            index += 1;
        }
        assert(all_len_mut(old(parity)@, len as int));
        match self.check_data(data, len) {
            Ok(()) => {},
            Err(e) => {
                return Err(e);
            },
        }
        proof {
            use_type_invariant(self);
            self.lemma_valid();
            let w = format_width(self.kernels.format_of());
            assert(p * k * w <= self.gftbls@.len()) by (nonlinear_arith)
                requires
                    self.gftbls@.len() == w * (p * k),
            ;
        }
        self.kernels.encode(self.gftbls.as_slice(), data, parity);
        proof {
            assert forall|l: int, i: int|
                0 <= l < p && 0 <= i < old(parity)@[l]@.len() implies #[trigger] parity@[l]@[i]
                    == parity_byte(self.grid_of(), self.k_of(), shard_views(data@), l, i) by {
                self.lemma_dot_parity(data@, l, i);
            }
        }
        Ok(())
    }

    /// Incremental encode: fold ONE source shard (index `shard_index`) into
    /// all parity shards. Starting from zeroed parity buffers and calling this
    /// once per source (any order) yields byte-identical output to
    /// [`Coder::encode`] — ISA-L `ec_encode_data_update` semantics.
    pub fn update(&self, shard_index: usize, data: &[u8], parity: &mut [&mut [u8]]) -> (r: Result<(), CodeError>)
        ensures
            shard_index >= self.k_of() ==> r == Err::<(), CodeError>(
                CodeError::ShardIndex { index: shard_index, k: self.k_of() as usize },
            ),
            r is Ok <==> shard_index < self.k_of() && old(parity)@.len() == self.p_of() && all_len_mut(
                old(parity)@,
                data@.len() as int,
            ),
            r matches Err(CodeError::ShardCount { expected, got }) ==> shard_index < self.k_of()
                && old(parity)@.len() != self.p_of() && expected == self.p_of() && got == old(parity)@.len(),
            r matches Err(CodeError::ShardLength { index, expected, got }) ==> shard_index < self.k_of()
                && old(parity)@.len() == self.p_of() && index >= self.k_of() && first_bad_len_mut(
                old(parity)@,
                data@.len() as int,
                index - self.k_of(),
            ) && expected == data@.len() && got == old(parity)@[index - self.k_of()]@.len(),
            final(parity)@.len() == old(parity)@.len(),
            forall|l: int| 0 <= l < old(parity)@.len() ==> (#[trigger] final(parity)@[l]@).len() == old(parity)@[l]@.len(),
            r is Err ==> forall|l: int| 0 <= l < old(parity)@.len() ==> #[trigger] final(parity)@[l]@ == old(parity)@[l]@,
            r is Ok ==> forall|l: int, i: int|
                0 <= l < self.p_of() && 0 <= i < data@.len() ==> #[trigger] final(parity)@[l]@[i]
                    == old(parity)@[l]@[i] ^ field_mul(self.grid_of()[self.k_of() + l][shard_index as int], data@[i]),
    {
        let k = self.k();
        let p = self.p();
        if shard_index >= k {
            return Err(CodeError::ShardIndex { index: shard_index, k });
        }
        if parity.len() != p {
            return Err(CodeError::ShardCount { expected: p, got: parity.len() });
        }
        let len = data.len();
        let mut index: usize = 0;
        while index < p
            invariant
                p == old(parity)@.len(),
                p == self.p_of(),
                k == self.k_of(),
                parity@ == old(parity)@,
                k + p <= 256,
                shard_index < k,
                len == data@.len(),
                0 <= index <= p,
                forall|q: int| 0 <= q < index ==> (#[trigger] parity@[q]@).len() == len,
            decreases p - index,
        {
            if parity[index].len() != len {
                return Err(CodeError::ShardLength { index: k + index, expected: len, got: parity[index].len() });
            }
            index += 1;
        }
        proof {
            use_type_invariant(self);
            self.lemma_valid();
            let w = format_width(self.kernels.format_of());
            assert(((p - 1) * k + shard_index + 1) * w <= self.gftbls@.len()) by (nonlinear_arith)
                requires
                    self.gftbls@.len() == w * (p * k),
                    shard_index < k,
                    p >= 1,
                    w > 0,
            ;
        }
        self.kernels.update(self.gftbls.as_slice(), k, shard_index, data, parity);
        proof {
            assert forall|l: int, i: int| 0 <= l < p && 0 <= i < len implies #[trigger] parity@[l]@[i]
                == old(parity)@[l]@[i] ^ field_mul(self.grid_of()[k + l][shard_index as int], data@[i]) by {
                self.lemma_tables(l, shard_index as int, data@[i]);
            }
        }
        Ok(())
    }

    /// Check that `parity` is consistent with `data`. `Ok(true)` means every
    /// parity shard matches a fresh encode.
    pub fn verify(&self, data: &[&[u8]], parity: &[&[u8]]) -> (r: Result<bool, CodeError>)
        ensures
            ({
                let len = if parity@.len() == 0 { 0 } else { parity@[0]@.len() as int };
                &&& r is Ok <==> parity@.len() == self.p_of() && all_len(parity@, len) && data@.len()
                    == self.k_of() && all_len(data@, len)
                &&& parity@.len() != self.p_of() ==> r == Err::<bool, CodeError>(
                    CodeError::ShardCount { expected: self.p_of() as usize, got: parity@.len() as usize },
                )
                &&& r matches Err(CodeError::ShardCount { expected, got }) ==> (parity@.len() != self.p_of()
                    || (all_len(parity@, len) && data@.len() != self.k_of() && expected == self.k_of() && got
                    == data@.len()))
                &&& r matches Err(CodeError::ShardLength { index, expected, got }) ==> parity@.len()
                    == self.p_of() && expected == len && ((index >= self.k_of() && first_bad_len(
                    parity@,
                    len,
                    index - self.k_of(),
                ) && got == parity@[index - self.k_of()]@.len()) || (all_len(parity@, len) && data@.len()
                    == self.k_of() && first_bad_len(data@, len, index as int) && got
                    == data@[index as int]@.len()))
                &&& r is Err ==> (r matches Err(CodeError::ShardCount { .. }) || r matches Err(
                    CodeError::ShardLength { .. },
                ))
                &&& r matches Ok(ok) ==> (ok <==> forall|l: int, i: int|
                    0 <= l < self.p_of() && 0 <= i < len ==> #[trigger] parity@[l]@[i] == parity_byte(
                        self.grid_of(),
                        self.k_of(),
                        shard_views(data@),
                        l,
                        i,
                    ))
            }),
    {
        let k = self.k();
        let p = self.p();
        if parity.len() != p {
            return Err(CodeError::ShardCount { expected: p, got: parity.len() });
        }
        let len = parity[0].len();
        let mut index: usize = 0;
        while index < p
            invariant
                p == parity@.len(),
                p == self.p_of(),
                k == self.k_of(),
                k + p <= 256,
                len == parity@[0]@.len(),
                0 <= index <= p,
                forall|q: int| 0 <= q < index ==> (#[trigger] parity@[q]@).len() == len,
            decreases p - index,
        {
            if parity[index].len() != len {
                return Err(CodeError::ShardLength { index: k + index, expected: len, got: parity[index].len() });
            }
            index += 1;
        }
        assert(all_len(parity@, len as int));
        match self.check_data(data, len) {
            Ok(()) => {},
            Err(e) => {
                return Err(e);
            },
        }
        proof {
            use_type_invariant(self);
            self.lemma_valid();
        }
        let ghost w = format_width(self.kernels.format_of());
        let mut l: usize = 0;
        while l < p
            invariant
                p == parity@.len(),
                p == self.p_of(),
                k == self.k_of(),
                k == data@.len(),
                self.valid(),
                k + p <= 256,
                self.gftbls@.len() == w * (p * k),
                w == format_width(self.kernels_of().format_of()),
                all_len(parity@, len as int),
                all_len(data@, len as int),
                len == parity@[0]@.len(),
                0 <= l <= p,
                forall|q: int, i: int|
                    0 <= q < l && 0 <= i < len ==> #[trigger] parity@[q]@[i] == parity_byte(
                        self.grid_of(),
                        self.k_of(),
                        shard_views(data@),
                        q,
                        i,
                    ),
            decreases p - l,
        {
            let row = parity[l];
            let mut i: usize = 0;
            while i < len
                invariant
                    p == parity@.len(),
                    p == self.p_of(),
                    k == self.k_of(),
                    k == data@.len(),
                    self.valid(),
                    k + p <= 256,
                    self.gftbls@.len() == w * (p * k),
                    w == format_width(self.kernels_of().format_of()),
                    all_len(data@, len as int),
                    all_len(parity@, len as int),
                    len == parity@[0]@.len(),
                    row@ == parity@[l as int]@,
                    row@.len() == len,
                    0 <= l < p,
                    0 <= i <= len,
                    forall|t: int| 0 <= t < i ==> #[trigger] row@[t] == parity_byte(
                        self.grid_of(),
                        self.k_of(),
                        shard_views(data@),
                        l as int,
                        t,
                    ),
                decreases len - i,
            {
                proof {
                    assert(w * (l * k + k) <= w * (p * k) && l * k <= 65025) by (nonlinear_arith)
                        requires
                            l < p,
                            w > 0,
                            k + p <= 256,
                    ;
                    self.lemma_dot_parity(data@, l as int, i as int);
                }
                let expect = crate::kernel::dot_at(self.kernels.format(), self.gftbls.as_slice(), data, l * k, i);
                if row[i] != expect {
                    assert(parity@[l as int]@[i as int] != parity_byte(
                        self.grid_of(),
                        self.k_of(),
                        shard_views(data@),
                        l as int,
                        i as int,
                    ));
                    return Ok(false);
                }
                i += 1;
            }
            l += 1;
        }
        Ok(true)
    }

    /// The coefficient rows that rebuild each shard in `rebuild` from the
    /// shards in `survivors`, row-major (`rebuild.len()` rows of `k`).
    fn decode_coeffs(&self, survivors: &Vec<usize>, rebuild: &[usize]) -> (r: Result<Vec<u8>, RecoverError>)
        requires
            self.valid(),
            survivors@.len() == self.k_of(),
            forall|t: int| 0 <= t < survivors@.len() ==> #[trigger] survivors@[t] < self.n_of(),
            forall|q: int| 0 <= q < rebuild@.len() ==> #[trigger] rebuild@[q] < self.n_of(),
            rebuild@.len() * self.k_of() * 32 <= usize::MAX,
        ensures
            r is Ok <==> invertible(select_grid(self.grid_of(), survivors@), self.k_of()),
            r is Err ==> r == Err::<Vec<u8>, RecoverError>(RecoverError::Matrix(MatrixError::Singular)),
            r is Err ==> singular(select_grid(self.grid_of(), survivors@), self.k_of()),
            r matches Ok(c) ==> c@.len() == rebuild@.len() * self.k_of() && forall|q: int, t: int|
                0 <= q < rebuild@.len() && 0 <= t < self.k_of() ==> #[trigger] c@[q * self.k_of() + t]
                    == rebuild_row(
                    self.grid_of(),
                    self.k_of(),
                    decode_matrix(self.grid_of(), self.k_of(), survivors@),
                    rebuild@[q] as int,
                )[t],
    {
        let k = self.matrix.cols();
        let n = self.matrix.rows();
        let b = match self.matrix.select_rows(survivors.as_slice()) {
            Ok(b) => b,
            Err(e) => {
                return Err(RecoverError::Matrix(e));
            },
        };
        assert(b.grid() == select_grid(self.grid_of(), survivors@));
        let bk = b.rows();
        let d = match b.invert() {
            Ok(d) => d,
            Err(e) => {
                return Err(RecoverError::Matrix(e));
            },
        };
        let ghost dg = decode_matrix(self.grid_of(), k as int, survivors@);
        let dk = d.rows();
        proof {
            lemma_inverse_unique_matrix(b.grid(), d.grid(), dg, k as int);
        }
        let m = rebuild.len();
        assert(m * k <= m * 255) by (nonlinear_arith)
            requires
                k <= 255,
        ;
        let mut coeffs = vec![0u8; m * k];
        let mut q: usize = 0;
        while q < m
            invariant
                self.valid(),
                k == self.k_of(),
                n == self.n_of(),
                d.grid() == dg,
                d.nrows() == k,
                d.ncols() == k,
                d.shape(),
                m == rebuild@.len(),
                m * k <= usize::MAX,
                coeffs@.len() == m * k,
                forall|z: int| 0 <= z < m ==> #[trigger] rebuild@[z] < n,
                0 <= q <= m,
                forall|z: int, t: int|
                    0 <= z < q && 0 <= t < k ==> #[trigger] coeffs@[z * k + t] == rebuild_row(
                        self.grid_of(),
                        k as int,
                        dg,
                        rebuild@[z] as int,
                    )[t],
            decreases m - q,
        {
            let x = rebuild[q];
            let mut t: usize = 0;
            while t < k
                invariant
                    self.valid(),
                    k == self.k_of(),
                    n == self.n_of(),
                    d.grid() == dg,
                    d.nrows() == k,
                    d.ncols() == k,
                    d.shape(),
                    m == rebuild@.len(),
                    m * k <= usize::MAX,
                    coeffs@.len() == m * k,
                    0 <= q < m,
                    x == rebuild@[q as int],
                    x < n,
                    0 <= t <= k,
                    forall|z: int, u: int|
                        0 <= z < q && 0 <= u < k ==> #[trigger] coeffs@[z * k + u] == rebuild_row(
                            self.grid_of(),
                            k as int,
                            dg,
                            rebuild@[z] as int,
                        )[u],
                    forall|u: int| 0 <= u < t ==> #[trigger] coeffs@[q * k + u] == rebuild_row(
                        self.grid_of(),
                        k as int,
                        dg,
                        x as int,
                    )[u],
                decreases k - t,
            {
                let v: u8 = if x < k {
                    d.get(x, t).expect("in range")
                } else {
                    let mut acc: u8 = 0;
                    let mut j: usize = 0;
                    while j < k
                        invariant
                            self.valid(),
                            k == self.k_of(),
                            n == self.n_of(),
                            d.grid() == dg,
                            d.nrows() == k,
                            d.ncols() == k,
                            k <= x < n,
                            t < k,
                            0 <= j <= k,
                            acc == xsum(j as int, |y: int| field_mul(self.grid_of()[x as int][y], dg[y][t as int])),
                        decreases k - j,
                    {
                        let a = self.matrix.get(x, j).expect("in range");
                        let c = d.get(j, t).expect("in range");
                        acc = acc ^ crate::gf::mul(a, c);
                        j += 1;
                    }
                    proof {
                        let gx = seq![self.grid_of()[x as int]];
                        lemma_xsum_ext(
                            k as int,
                            |y: int| field_mul(self.grid_of()[x as int][y], dg[y][t as int]),
                            |y: int| field_mul(gx[0][y], dg[y][t as int]),
                        );
                        assert(mat_mul(gx, dg, k as int, k as int)[0][t as int] == dot(gx, dg, k as int, 0, t as int));
                    }
                    acc
                };
                proof {
                    assert(q * k + t < m * k) by (nonlinear_arith)
                        requires
                            q < m,
                            t < k,
                    ;
                }
                let ghost before = coeffs@;
                coeffs.set(q * k + t, v);
                proof {
                    assert forall|z: int, u: int| 0 <= z < q && 0 <= u < k implies #[trigger] coeffs@[z * k + u]
                        == before[z * k + u] by {
                        assert(z * k + u < q * k) by (nonlinear_arith)
                            requires
                                z < q,
                                u < k,
                        ;
                    }
                }
                t += 1;
            }
            q += 1;
        }
        Ok(coeffs)
    }

    /// Prepare a reusable decode plan for one loss pattern: which shards are
    /// present (`present[i]`), and which indices to rebuild. The expensive,
    /// data-independent work — survivor selection, submatrix inversion,
    /// coefficient composition, table expansion — happens ONCE here;
    /// [`Coder::recover_with`] then rebuilds any number of stripes with that
    /// pattern at pure kernel cost.
    pub fn decode_plan(&self, present: &[bool], rebuild: &[usize]) -> (r: Result<DecodePlan, RecoverError>)
        requires
            rebuild@.len() * self.k_of() * 32 <= usize::MAX,
        ensures
            present@.len() != self.n_of() ==> r == Err::<DecodePlan, RecoverError>(
                RecoverError::Code(CodeError::ShardCount { expected: self.n_of() as usize, got: present@.len() as usize }),
            ),
            r matches Err(RecoverError::Code(CodeError::ShardCount { expected, got })) ==> present@.len()
                != self.n_of() && expected == self.n_of() && got == present@.len(),
            r matches Err(RecoverError::Code(CodeError::ShardIndex { index, k })) ==> present@.len() == self.n_of()
                && k == self.k_of() && first_out_of_range(rebuild@, self.n_of(), index),
            r matches Err(RecoverError::TooManyMissing { missing, p }) ==> present@.len() == self.n_of()
                && all_in_range(rebuild@, self.n_of()) && count_present(present@, self.n_of()) < self.k_of()
                && missing == self.n_of() - count_present(present@, self.n_of()) && p == self.p_of(),
            r matches Err(RecoverError::Matrix(e)) ==> present@.len() == self.n_of() && all_in_range(
                rebuild@,
                self.n_of(),
            ) && count_present(present@, self.n_of()) >= self.k_of() && e == MatrixError::Singular
                && !invertible(
                select_grid(self.grid_of(), take_present(present@, self.n_of(), self.k_of())),
                self.k_of(),
            ) && singular(
                select_grid(self.grid_of(), take_present(present@, self.n_of(), self.k_of())),
                self.k_of(),
            ),
            r matches Err(RecoverError::Code(e)) ==> (e matches CodeError::ShardCount { .. } || e matches CodeError::ShardIndex { .. }),
            r is Ok <==> present@.len() == self.n_of() && all_in_range(rebuild@, self.n_of()) && count_present(
                present@,
                self.n_of(),
            ) >= self.k_of() && invertible(
                select_grid(self.grid_of(), take_present(present@, self.n_of(), self.k_of())),
                self.k_of(),
            ),
            r matches Ok(plan) ==> plan.survivors_of() == take_present(present@, self.n_of(), self.k_of())
                && plan.rebuild_of() == rebuild@ && plan.n_of() == self.n_of() && plan.kernels_of()
                == self.kernels_of() && plan.coeffs_of().len() == rebuild@.len() * self.k_of() && forall|q: int, t: int|
                0 <= q < rebuild@.len() && 0 <= t < self.k_of() ==> #[trigger] plan.coeffs_of()[q * self.k_of() + t]
                    == rebuild_row(
                    self.grid_of(),
                    self.k_of(),
                    decode_matrix(self.grid_of(), self.k_of(), plan.survivors_of()),
                    rebuild@[q] as int,
                )[t],
    {
        let k = self.k();
        let n = self.matrix.rows();
        if present.len() != n {
            return Err(RecoverError::Code(CodeError::ShardCount { expected: n, got: present.len() }));
        }
        let mut q: usize = 0;
        while q < rebuild.len()
            invariant
                n == self.n_of(),
                n == present@.len(),
                0 <= q <= rebuild@.len(),
                forall|z: int| 0 <= z < q ==> #[trigger] rebuild@[z] < n,
            decreases rebuild@.len() - q,
        {
            let x = rebuild[q];
            if x >= n {
                assert(rebuild@[q as int] == x);
                return Err(RecoverError::Code(CodeError::ShardIndex { index: x, k: self.k() }));
            }
            q += 1;
        }
        let mut survivors: Vec<usize> = Vec::with_capacity(k);
        let mut have: usize = 0;
        let mut i: usize = 0;
        while i < n
            invariant
                n == self.n_of(),
                k == self.k_of(),
                n == present@.len(),
                0 <= i <= n,
                survivors@ == take_present(present@, i as int, k as int),
                have == count_present(present@, i as int),
            decreases n - i,
        {
            proof {
                lemma_take_present(present@, i as int, k as int);
            }
            if present[i] {
                have += 1;
                if survivors.len() < k {
                    survivors.push(i);
                }
            }
            i += 1;
        }
        proof {
            lemma_take_present(present@, n as int, k as int);
        }
        if survivors.len() < k {
            return Err(RecoverError::TooManyMissing { missing: n - have, p: self.p() });
        }
        let coeffs = match self.decode_coeffs(&survivors, rebuild) {
            Ok(c) => c,
            Err(e) => {
                return Err(e);
            },
        };
        assert(coeffs@.len() <= 255 * rebuild@.len()) by (nonlinear_arith)
            requires
                coeffs@.len() == rebuild@.len() * k,
                k <= 255,
        ;
        let gftbls = self.kernels.init(coeffs.as_slice());
        let mut targets: Vec<usize> = Vec::with_capacity(rebuild.len());
        let mut z: usize = 0;
        while z < rebuild.len()
            invariant
                0 <= z <= rebuild@.len(),
                targets@ == rebuild@.subrange(0, z as int),
            decreases rebuild@.len() - z,
        {
            targets.push(rebuild[z]);
            z += 1;
        }
        assert(targets@ == rebuild@);
        Ok(DecodePlan { gftbls, survivors, rebuild: targets, n, kernels: self.kernels, coeffs })
    }

    /// Rebuild shards from survivors.
    ///
    /// `shards` is the full stripe in index order — `k` sources then `p`
    /// parity — with `None` for anything lost. `rebuild` names the shard
    /// indices to reconstruct (source or parity), and `out` supplies one
    /// equal-length buffer per rebuild target. Any `k` present shards whose
    /// rows invert suffice; the first `k` present are used. Fewer is
    /// [`RecoverError::TooManyMissing`].
    ///
    /// For many stripes with one loss pattern, build a [`Coder::decode_plan`]
    /// once and use [`Coder::recover_with`] — this one-shot form re-derives
    /// the decode matrix every call.
    pub fn recover(
        &self,
        shards: &[Option<&[u8]>],
        rebuild: &[usize],
        out: &mut [&mut [u8]],
    ) -> (r: Result<(), RecoverError>)
        requires
            rebuild@.len() * self.k_of() * 32 <= usize::MAX,
        ensures
            ({
                let n = self.n_of();
                let k = self.k_of();
                let pres = presence(shards@);
                let s = take_present(pres, n, k);
                let len = if s.len() > 0 { shards@[s[0] as int]->0@.len() as int } else { 0 };
                let counts_ok = shards@.len() == n && rebuild@.len() == old(out)@.len();
                let targets_ok = counts_ok && all_in_range(rebuild@, n);
                let enough = targets_ok && count_present(pres, n) >= k;
                let lens_ok = enough && present_len(shards@, len) && all_len_mut(old(out)@, len);
                &&& shards@.len() != n ==> r == Err::<(), RecoverError>(
                    RecoverError::Code(CodeError::ShardCount { expected: n as usize, got: shards@.len() as usize }),
                )
                &&& shards@.len() == n && rebuild@.len() != old(out)@.len() ==> r == Err::<(), RecoverError>(
                    RecoverError::Code(
                        CodeError::ShardCount { expected: rebuild@.len() as usize, got: old(out)@.len() as usize },
                    ),
                )
                &&& r matches Err(RecoverError::Code(CodeError::ShardCount { .. })) ==> !counts_ok
                &&& r matches Err(RecoverError::Code(CodeError::ShardIndex { index, k: width })) ==> counts_ok
                    && width == k && first_out_of_range(rebuild@, n, index)
                &&& r matches Err(RecoverError::TooManyMissing { missing, p }) ==> targets_ok && count_present(
                    pres,
                    n,
                ) < k && missing == n - count_present(pres, n) && p == self.p_of()
                &&& r matches Err(RecoverError::Code(CodeError::ShardLength { index, expected, got })) ==> enough
                    && expected == len && ((first_bad_present(shards@, len, index as int) && got
                    == shards@[index as int]->0@.len()) || (present_len(shards@, len) && exists|q: int|
                    first_bad_len_mut(old(out)@, len, q) && index == rebuild@[q] && got == old(out)@[q]@.len()))
                &&& r matches Err(RecoverError::Matrix(e)) ==> lens_ok && e == MatrixError::Singular && !invertible(
                    select_grid(self.grid_of(), s),
                    k,
                ) && singular(select_grid(self.grid_of(), s), k)
                &&& r is Ok <==> lens_ok && invertible(select_grid(self.grid_of(), s), k)
                &&& r is Ok ==> forall|q: int, i: int|
                    0 <= q < old(out)@.len() && 0 <= i < old(out)@[q]@.len() ==> #[trigger] final(out)@[q]@[i]
                        == xsum(
                        k,
                        |t: int|
                            field_mul(
                                rebuild_row(self.grid_of(), k, decode_matrix(self.grid_of(), k, s), rebuild@[q] as int)[t],
                                shard_byte(shards@, s[t] as int, i),
                            ),
                    )
            }),
            final(out)@.len() == old(out)@.len(),
            forall|q: int| 0 <= q < old(out)@.len() ==> (#[trigger] final(out)@[q]@).len() == old(out)@[q]@.len(),
            r is Err ==> forall|q: int| 0 <= q < old(out)@.len() ==> #[trigger] final(out)@[q]@ == old(out)@[q]@,
    {
        let k = self.k();
        let n = self.matrix.rows();
        let ghost pres = presence(shards@);
        if shards.len() != n {
            return Err(RecoverError::Code(CodeError::ShardCount { expected: n, got: shards.len() }));
        }
        if rebuild.len() != out.len() {
            return Err(RecoverError::Code(CodeError::ShardCount { expected: rebuild.len(), got: out.len() }));
        }
        let mut q: usize = 0;
        while q < rebuild.len()
            invariant
                n == self.n_of(),
                n == shards@.len(),
                rebuild@.len() == old(out)@.len(),
                out@ == old(out)@,
                0 <= q <= rebuild@.len(),
                forall|z: int| 0 <= z < q ==> #[trigger] rebuild@[z] < n,
            decreases rebuild@.len() - q,
        {
            let x = rebuild[q];
            if x >= n {
                assert(rebuild@[q as int] == x);
                return Err(RecoverError::Code(CodeError::ShardIndex { index: x, k: self.k() }));
            }
            q += 1;
        }
        // Survivors: the first k present shards, in index order.
        let mut survivors: Vec<usize> = Vec::with_capacity(k);
        let mut present: usize = 0;
        let mut i: usize = 0;
        while i < n
            invariant
                n == self.n_of(),
                k == self.k_of(),
                n == shards@.len(),
                pres == presence(shards@),
                rebuild@.len() == old(out)@.len(),
                out@ == old(out)@,
                all_in_range(rebuild@, n as int),
                0 <= i <= n,
                survivors@ == take_present(pres, i as int, k as int),
                present == count_present(pres, i as int),
            decreases n - i,
        {
            proof {
                lemma_take_present(pres, i as int, k as int);
            }
            if shards[i].is_some() {
                present += 1;
                if survivors.len() < k {
                    survivors.push(i);
                }
            }
            i += 1;
        }
        proof {
            lemma_take_present(pres, n as int, k as int);
        }
        if survivors.len() < k {
            return Err(RecoverError::TooManyMissing { missing: n - present, p: self.p() });
        }
        // Shard length agreement across every present shard and output buffer.
        assert(all_in_range(rebuild@, n as int));
        let len = shards[survivors[0]].expect("survivor is present").len();
        let mut index: usize = 0;
        while index < n
            invariant
                n == self.n_of(),
                k == self.k_of(),
                n == shards@.len(),
                pres == presence(shards@),
                rebuild@.len() == old(out)@.len(),
                out@ == old(out)@,
                all_in_range(rebuild@, n as int),
                count_present(pres, n as int) >= k,
                survivors@ == take_present(pres, n as int, k as int),
                survivors@.len() == k,
                1 <= k,
                len == shards@[survivors@[0] as int]->0@.len(),
                0 <= index <= n,
                forall|z: int| 0 <= z < index && (#[trigger] shards@[z]) is Some ==> shards@[z]->0@.len() == len,
            decreases n - index,
        {
            match shards[index] {
                Some(s) => {
                    if s.len() != len {
                        assert(first_bad_present(shards@, len as int, index as int));
                        return Err(RecoverError::Code(CodeError::ShardLength { index, expected: len, got: s.len() }));
                    }
                },
                None => {},
            }
            index += 1;
        }
        let rows = out.len();
        let mut z: usize = 0;
        while z < rows
            invariant
                n == self.n_of(),
                k == self.k_of(),
                n == shards@.len(),
                pres == presence(shards@),
                rows == old(out)@.len(),
                rows == rebuild@.len(),
                out@ == old(out)@,
                all_in_range(rebuild@, n as int),
                count_present(pres, n as int) >= k,
                survivors@ == take_present(pres, n as int, k as int),
                survivors@.len() == k,
                1 <= k,
                len == shards@[survivors@[0] as int]->0@.len(),
                present_len(shards@, len as int),
                0 <= z <= rows,
                forall|y: int| 0 <= y < z ==> (#[trigger] out@[y]@).len() == len,
            decreases rows - z,
        {
            if out[z].len() != len {
                assert(first_bad_len_mut(old(out)@, len as int, z as int));
                return Err(RecoverError::Code(CodeError::ShardLength { index: rebuild[z], expected: len, got: out[z].len() }));
            }
            z += 1;
        }
        // Decode matrix: invert the survivors' rows, composed into one
        // coefficient row per rebuild target.
        proof {
            use_type_invariant(self);
            self.lemma_valid();
        }
        let coeffs = match self.decode_coeffs(&survivors, rebuild) {
            Ok(c) => c,
            Err(e) => {
                return Err(e);
            },
        };
        let mut src: Vec<&[u8]> = Vec::with_capacity(k);
        let mut t: usize = 0;
        while t < k
            invariant
                k == survivors@.len(),
                n == shards@.len(),
                forall|y: int| 0 <= y < k ==> (#[trigger] survivors@[y]) < n && pres[survivors@[y] as int],
                pres == presence(shards@),
                present_len(shards@, len as int),
                0 <= t <= k,
                src@.len() == t,
                forall|y: int| 0 <= y < t ==> #[trigger] src@[y] == shards@[survivors@[y] as int]->0,
                all_len(src@, len as int),
            decreases k - t,
        {
            let s = shards[survivors[t]].expect("survivor is present");
            src.push(s);
            t += 1;
        }
        assert(coeffs@.len() <= 255 * rebuild@.len()) by (nonlinear_arith)
            requires
                coeffs@.len() == rebuild@.len() * k,
                k <= 255,
        ;
        let gftbls = self.kernels.init(coeffs.as_slice());
        proof {
            let w = format_width(self.kernels.format_of());
            assert(rows * k * w <= gftbls@.len()) by (nonlinear_arith)
                requires
                    gftbls@.len() == w * (rows * k),
            ;
        }
        if rows == 0 {
            return Ok(());
        }
        self.kernels.encode(gftbls.as_slice(), src.as_slice(), out);
        proof {
            let g = self.grid_of();
            let dg = decode_matrix(g, k as int, survivors@);
            assert forall|y: int, b: int| 0 <= y < rows && 0 <= b < len implies #[trigger] out@[y]@[b] == xsum(
                k as int,
                |t: int|
                    field_mul(
                        rebuild_row(g, k as int, dg, rebuild@[y] as int)[t],
                        shard_byte(shards@, survivors@[t] as int, b),
                    ),
            ) by {
                let f = dot_terms(self.kernels.format_of(), gftbls@, src@, y * k, b);
                let h = |t: int|
                    field_mul(
                        rebuild_row(g, k as int, dg, rebuild@[y] as int)[t],
                        shard_byte(shards@, survivors@[t] as int, b),
                    );
                assert forall|t: int| 0 <= t < k implies #[trigger] f(t) == h(t) by {
                    assert(0 <= y * k + t < rows * k) by (nonlinear_arith)
                        requires
                            0 <= y < rows,
                            0 <= t < k,
                    ;
                    lemma_block_apply(self.kernels.format_of(), gftbls@, coeffs@, y * k + t, src@[t]@[b]);
                }
                lemma_xsum_ext(k as int, f, h);
            }
        }
        Ok(())
    }

    /// Rebuild one stripe with a prepared [`DecodePlan`] — pure kernel cost,
    /// no matrix work, no table expansion.
    pub fn recover_with(
        &self,
        plan: &DecodePlan,
        shards: &[Option<&[u8]>],
        out: &mut [&mut [u8]],
    ) -> (r: Result<(), RecoverError>)
        ensures
            ({
                let len = first_len(old(out)@);
                let s = plan.survivors_of();
                &&& shards@.len() != plan.n_of() ==> r == Err::<(), RecoverError>(
                    RecoverError::Code(CodeError::ShardCount { expected: plan.n_of() as usize, got: shards@.len() as usize }),
                )
                &&& shards@.len() == plan.n_of() && old(out)@.len() != plan.rebuild_of().len() ==> r == Err::<(), RecoverError>(
                    RecoverError::Code(
                        CodeError::ShardCount { expected: plan.rebuild_of().len() as usize, got: old(out)@.len() as usize },
                    ),
                )
                &&& r is Ok <==> shards@.len() == plan.n_of() && old(out)@.len() == plan.rebuild_of().len()
                    && (forall|t: int| 0 <= t < s.len() ==> #[trigger] survivor_ok(shards@, s, len, t))
                    && all_len_mut(old(out)@, len)
                &&& r matches Err(RecoverError::TooManyMissing { missing, p }) ==> shards@.len() == plan.n_of()
                    && old(out)@.len() == plan.rebuild_of().len() && missing == 1 && p == self.p_of()
                    && exists|t: int| first_bad_survivor(shards@, s, len, t) && shards@[s[t] as int] is None
                &&& r matches Err(RecoverError::Code(CodeError::ShardLength { index, expected, got })) ==> shards@.len()
                    == plan.n_of() && old(out)@.len() == plan.rebuild_of().len() && expected == len && ((exists|t: int|
                    first_bad_survivor(shards@, s, len, t) && shards@[s[t] as int] is Some && index == s[t]
                        && got == shards@[s[t] as int]->0@.len()) || ((forall|t: int|
                    0 <= t < s.len() ==> #[trigger] survivor_ok(shards@, s, len, t)) && index == 0 && exists|q: int|
                    first_bad_len_mut(old(out)@, len, q) && got == old(out)@[q]@.len()))
                &&& r matches Err(RecoverError::Code(CodeError::ShardCount { .. })) ==> shards@.len() != plan.n_of()
                    || old(out)@.len() != plan.rebuild_of().len()
                &&& r matches Err(RecoverError::Code(e)) ==> (e matches CodeError::ShardCount { .. } || e matches CodeError::ShardLength { .. })
                &&& r matches Err(RecoverError::Matrix(_)) ==> false
            }),
            final(out)@.len() == old(out)@.len(),
            forall|q: int| 0 <= q < old(out)@.len() ==> (#[trigger] final(out)@[q]@).len() == old(out)@[q]@.len(),
            r is Err ==> forall|q: int| 0 <= q < old(out)@.len() ==> #[trigger] final(out)@[q]@ == old(out)@[q]@,
            r is Ok ==> forall|q: int, i: int|
                0 <= q < old(out)@.len() && 0 <= i < old(out)@[q]@.len() ==> #[trigger] final(out)@[q]@[i]
                    == rebuilt_byte(plan.coeffs_of(), plan.survivors_of().len() as int, q, shards@, plan.survivors_of(), i),
    {
        proof {
            use_type_invariant(plan);
        }
        if shards.len() != plan.n {
            return Err(RecoverError::Code(CodeError::ShardCount { expected: plan.n, got: shards.len() }));
        }
        if out.len() != plan.rebuild.len() {
            return Err(RecoverError::Code(CodeError::ShardCount { expected: plan.rebuild.len(), got: out.len() }));
        }
        let k = plan.survivors.len();
        let len = if out.len() == 0 { 0 } else { out[0].len() };
        let mut src: Vec<&[u8]> = Vec::with_capacity(k);
        let mut t: usize = 0;
        while t < k
            invariant
                k == plan.survivors@.len(),
                shards@.len() == plan.n,
                plan.plan_inv(),
                len == first_len(old(out)@),
                out@ == old(out)@,
                old(out)@.len() == plan.rebuild@.len(),
                0 <= t <= k,
                src@.len() == t,
                forall|q: int| 0 <= q < t ==> #[trigger] survivor_ok(shards@, plan.survivors_of(), len as int, q),
                forall|q: int| 0 <= q < t ==> #[trigger] src@[q] == shards@[plan.survivors@[q] as int]->0,
            decreases k - t,
        {
            let i = plan.survivors[t];
            let s = match shards[i] {
                Some(s) => s,
                None => {
                    assert(first_bad_survivor(shards@, plan.survivors_of(), len as int, t as int));
                    return Err(RecoverError::TooManyMissing { missing: 1, p: self.p() });
                },
            };
            if s.len() != len {
                assert(first_bad_survivor(shards@, plan.survivors_of(), len as int, t as int));
                return Err(RecoverError::Code(CodeError::ShardLength { index: i, expected: len, got: s.len() }));
            }
            src.push(s);
            t += 1;
        }
        let rows = out.len();
        let mut q: usize = 0;
        while q < rows
            invariant
                rows == old(out)@.len(),
                out@ == old(out)@,
                len == first_len(old(out)@),
                0 <= q <= rows,
                forall|z: int| 0 <= z < q ==> (#[trigger] out@[z]@).len() == len,
                k == plan.survivors@.len(),
                shards@.len() == plan.n,
                old(out)@.len() == plan.rebuild@.len(),
                src@.len() == k,
                forall|z: int| 0 <= z < k ==> #[trigger] survivor_ok(shards@, plan.survivors_of(), len as int, z),
                forall|z: int| 0 <= z < k ==> #[trigger] src@[z] == shards@[plan.survivors@[z] as int]->0,
            decreases rows - q,
        {
            if out[q].len() != len {
                assert(first_bad_len_mut(old(out)@, len as int, q as int));
                return Err(RecoverError::Code(CodeError::ShardLength { index: 0, expected: len, got: out[q].len() }));
            }
            q += 1;
        }
        proof {
            let w = format_width(plan.kernels.format_of());
            assert(rows * k * w <= plan.gftbls@.len()) by (nonlinear_arith)
                requires
                    plan.gftbls@.len() == w * (rows * k),
            ;
            assert forall|z: int| 0 <= z < k implies (#[trigger] src@[z]@).len() == len by {
                assert(survivor_ok(shards@, plan.survivors_of(), len as int, z));
            }
        }
        if rows == 0 {
            return Ok(());
        }
        plan.kernels.encode(plan.gftbls.as_slice(), src.as_slice(), out);
        proof {
            assert forall|z: int, i: int| 0 <= z < rows && 0 <= i < len implies #[trigger] out@[z]@[i]
                == rebuilt_byte(plan.coeffs@, k as int, z, shards@, plan.survivors@, i) by {
                let f = dot_terms(plan.kernels.format_of(), plan.gftbls@, src@, z * k, i);
                let g = |t: int| field_mul(plan.coeffs@[z * k + t], shard_byte(shards@, plan.survivors@[t] as int, i));
                assert forall|t: int| 0 <= t < k implies #[trigger] f(t) == g(t) by {
                    assert(0 <= z * k + t < rows * k) by (nonlinear_arith)
                        requires
                            0 <= z < rows,
                            0 <= t < k,
                    ;
                    lemma_block_apply(plan.kernels.format_of(), plan.gftbls@, plan.coeffs@, z * k + t, src@[t]@[i]);
                }
                lemma_xsum_ext(k as int, f, g);
            }
        }
        Ok(())
    }
}

// ---------------------------------------------------------------------------
// Laws.
// ---------------------------------------------------------------------------

/// Parity byte `i` of shard `l` after folding, into zeroed parity, one
/// update per source listed in `order` (each step is what
/// [`Coder::update`] does).
pub open spec fn update_fold(g: Seq<Seq<u8>>, k: int, data: Seq<Seq<u8>>, order: Seq<int>, l: int, i: int) -> u8
    decreases order.len(),
{
    if order.len() == 0 {
        0u8
    } else {
        update_fold(g, k, data, order.drop_last(), l, i) ^ field_mul(g[k + l][order.last()], data[order.last()][i])
    }
}

proof fn lemma_update_fold_sum(g: Seq<Seq<u8>>, k: int, data: Seq<Seq<u8>>, order: Seq<int>, l: int, i: int)
    ensures
        update_fold(g, k, data, order, l, i) == xsum(
            order.len() as int,
            |t: int| field_mul(g[k + l][order[t]], data[order[t]][i]),
        ),
    decreases order.len(),
{
    if order.len() > 0 {
        let prev = order.drop_last();
        lemma_update_fold_sum(g, k, data, prev, l, i);
        lemma_xsum_ext(
            prev.len() as int,
            |t: int| field_mul(g[k + l][prev[t]], data[prev[t]][i]),
            |t: int| field_mul(g[k + l][order[t]], data[order[t]][i]),
        );
    }
}

/// Updating zeroed parity once per source, in any order, gives exactly the
/// parity that encode writes.
pub proof fn lemma_updates_equal_encode(g: Seq<Seq<u8>>, k: int, data: Seq<Seq<u8>>, order: Seq<int>, l: int, i: int)
    requires
        is_permutation(order, k),
    ensures
        update_fold(g, k, data, order, l, i) == parity_byte(g, k, data, l, i),
{
    lemma_update_fold_sum(g, k, data, order, l, i);
    let f = |j: int| field_mul(g[k + l][j], data[j][i]);
    lemma_xsum_perm(k, f, order);
    lemma_xsum_ext(k, |t: int| field_mul(g[k + l][order[t]], data[order[t]][i]), |t: int| f(order[t]));
}

/// The parity after the first `t` of a chain of updates is the fold of
/// those updates.
proof fn lemma_update_chain_prefix(
    g: Seq<Seq<u8>>,
    k: int,
    p: int,
    len: int,
    data: Seq<Seq<u8>>,
    order: Seq<int>,
    states: Seq<Seq<Seq<u8>>>,
    t: int,
)
    requires
        order.len() == k,
        states.len() == k + 1,
        0 <= t <= k,
        forall|l: int, i: int| 0 <= l < p && 0 <= i < len ==> #[trigger] states[0][l][i] == 0,
        forall|s: int, l: int, i: int|
            1 <= s <= k && 0 <= l < p && 0 <= i < len ==> #[trigger] states[s][l][i] == states[s - 1][l][i]
                ^ field_mul(g[k + l][order[s - 1]], data[order[s - 1]][i]),
    ensures
        forall|l: int, i: int|
            0 <= l < p && 0 <= i < len ==> #[trigger] states[t][l][i] == update_fold(g, k, data, order.take(t), l, i),
    decreases t,
{
    if t > 0 {
        lemma_update_chain_prefix(g, k, p, len, data, order, states, t - 1);
        assert(order.take(t).drop_last() =~= order.take(t - 1));
        assert forall|l: int, i: int| 0 <= l < p && 0 <= i < len implies #[trigger] states[t][l][i] == update_fold(
            g,
            k,
            data,
            order.take(t),
            l,
            i,
        ) by {
            assert(states[t - 1][l][i] == update_fold(g, k, data, order.take(t - 1), l, i));
            assert(order.take(t).last() == order[t - 1]);
        }
    }
}

/// A chain of updates, one per source in any order, from zeroed parity ends
/// in the parity that encoding writes. `states[t]` is the parity before the
/// `t`-th update (of source `order[t]`), and each step is what
/// [`Coder::update`] guarantees.
pub proof fn lemma_update_chain(
    g: Seq<Seq<u8>>,
    k: int,
    p: int,
    len: int,
    data: Seq<Seq<u8>>,
    order: Seq<int>,
    states: Seq<Seq<Seq<u8>>>,
)
    requires
        is_permutation(order, k),
        states.len() == k + 1,
        forall|l: int, i: int| 0 <= l < p && 0 <= i < len ==> #[trigger] states[0][l][i] == 0,
        forall|s: int, l: int, i: int|
            1 <= s <= k && 0 <= l < p && 0 <= i < len ==> #[trigger] states[s][l][i] == states[s - 1][l][i]
                ^ field_mul(g[k + l][order[s - 1]], data[order[s - 1]][i]),
    ensures
        forall|l: int, i: int| 0 <= l < p && 0 <= i < len ==> #[trigger] states[k][l][i] == parity_byte(g, k, data, l, i),
{
    lemma_update_chain_prefix(g, k, p, len, data, order, states, k);
    assert(order.take(k) =~= order);
    assert forall|l: int, i: int| 0 <= l < p && 0 <= i < len implies #[trigger] states[k][l][i] == parity_byte(
        g,
        k,
        data,
        l,
        i,
    ) by {
        lemma_updates_equal_encode(g, k, data, order, l, i);
    }
}

/// Encoding is byte-wise: parity byte `i` of a window of the sources is
/// parity byte `o + i` of the whole sources, so a stripe encoded segment by
/// segment equals one encoded in one shot.
pub proof fn lemma_parity_bytewise(
    g: Seq<Seq<u8>>,
    k: int,
    data: Seq<Seq<u8>>,
    window: Seq<Seq<u8>>,
    o: int,
    l: int,
    i: int,
)
    requires
        forall|j: int| 0 <= j < k ==> #[trigger] window[j][i] == data[j][o + i],
    ensures
        parity_byte(g, k, window, l, i) == parity_byte(g, k, data, l, o + i),
{
    lemma_xsum_ext(
        k,
        |j: int| field_mul(g[k + l][j], window[j][i]),
        |j: int| field_mul(g[k + l][j], data[j][o + i]),
    );
}

/// A prepared plan rebuilds what the one-shot recovery rebuilds: with the
/// plan's coefficient rows, every rebuilt byte is the rebuild row applied
/// to the survivors.
pub proof fn lemma_plan_matches_one_shot(
    g: Seq<Seq<u8>>,
    k: int,
    s: Seq<usize>,
    rebuild: Seq<usize>,
    coeffs: Seq<u8>,
    shards: Seq<Option<&[u8]>>,
    q: int,
    i: int,
)
    requires
        0 <= q < rebuild.len(),
        forall|z: int, t: int|
            0 <= z < rebuild.len() && 0 <= t < k ==> #[trigger] coeffs[z * k + t] == rebuild_row(
                g,
                k,
                decode_matrix(g, k, s),
                rebuild[z] as int,
            )[t],
    ensures
        rebuilt_byte(coeffs, k, q, shards, s, i) == xsum(
            k,
            |t: int|
                field_mul(
                    rebuild_row(g, k, decode_matrix(g, k, s), rebuild[q] as int)[t],
                    shard_byte(shards, s[t] as int, i),
                ),
        ),
{
    lemma_xsum_ext(
        k,
        |t: int| field_mul(coeffs[q * k + t], shard_byte(shards, s[t] as int, i)),
        |t: int|
            field_mul(
                rebuild_row(g, k, decode_matrix(g, k, s), rebuild[q] as int)[t],
                shard_byte(shards, s[t] as int, i),
            ),
    );
}

/// Recovery gives back the original stripe: when the survivors hold the
/// bytes of a stripe encoded from `data` (under a matrix whose top block is
/// the identity) and their rows invert, every rebuilt shard `x` — source or
/// parity — is byte for byte shard `x` of that stripe.
pub proof fn lemma_recover_restores_stripe(
    g: Seq<Seq<u8>>,
    k: int,
    n: int,
    data: Seq<Seq<u8>>,
    shards: Seq<Option<&[u8]>>,
    s: Seq<usize>,
    x: int,
    i: int,
)
    requires
        1 <= k <= n,
        is_grid(g, n, k),
        top_identity(g, k),
        s.len() == k,
        forall|t: int| 0 <= t < k ==> (#[trigger] s[t]) < n,
        crate::algebra::invertible(select_grid(g, s), k),
        forall|t: int| 0 <= t < k ==> #[trigger] shard_byte(shards, s[t] as int, i) == stripe_byte(g, k, data, s[t] as int, i),
        0 <= x < n,
    ensures
        xsum(
            k,
            |t: int|
                field_mul(
                    rebuild_row(g, k, decode_matrix(g, k, s), x)[t],
                    shard_byte(shards, s[t] as int, i),
                ),
        ) == stripe_byte(g, k, data, x, i),
{
    lemma_recovery_restores(g, k, n, data, s, x, i);
    lemma_xsum_ext(
        k,
        |t: int|
            field_mul(
                rebuild_row(g, k, decode_matrix(g, k, s), x)[t],
                shard_byte(shards, s[t] as int, i),
            ),
        |t: int| field_mul(rebuild_row(g, k, decode_matrix(g, k, s), x)[t], stripe_byte(g, k, data, s[t] as int, i)),
    );
}

} // verus!
