//! Typed errors for every public operation.
//!
//! ISA-L's own documentation states that parameters passed to its functions
//! are not validated — callers are responsible for argument validity. This
//! crate's contract is the opposite: every public entry point checks its
//! inputs and returns one of these errors instead of reading out of bounds or
//! panicking.

use vstd::prelude::*;

verus! {

/// Errors from coding-matrix construction and inversion.
#[derive(Debug, Clone, Copy, PartialEq, Eq, Structural)]
#[non_exhaustive]
pub enum MatrixError {
    /// The requested dimensions are unusable: `k` (source shards) or `p`
    /// (parity shards) is zero, or `k + p` exceeds 255 — the Vandermonde and
    /// Cauchy constructions run out of distinct GF(2^8) elements past that.
    Dimensions {
        /// Requested source-shard count.
        k: usize,
        /// Requested parity-shard count.
        p: usize,
    },
    /// The requested `(k, p)` falls outside ISA-L's documented safe region for
    /// Vandermonde matrices, where some recovery submatrices are singular.
    /// Use a Cauchy matrix instead — every submatrix inverts.
    VandermondeUnsafe {
        /// Requested source-shard count.
        k: usize,
        /// Requested parity-shard count.
        p: usize,
    },
    /// The submatrix selected for recovery is singular and cannot be inverted.
    Singular,
}

/// Errors from encode and update operations.
#[derive(Debug, Clone, Copy, PartialEq, Eq, Structural)]
#[non_exhaustive]
pub enum CodeError {
    /// The number of shard buffers supplied does not match the coder's matrix.
    ShardCount {
        /// Shard count the coder's matrix requires.
        expected: usize,
        /// Shard count actually supplied.
        got: usize,
    },
    /// A shard buffer's length disagrees with the stripe's shard length.
    ShardLength {
        /// Index of the offending shard.
        index: usize,
        /// Length every shard in this call must have.
        expected: usize,
        /// Length actually supplied.
        got: usize,
    },
    /// A shard index argument is out of range for the coder's matrix.
    ShardIndex {
        /// The out-of-range index.
        index: usize,
        /// Number of source shards in the coder's matrix.
        k: usize,
    },
}

/// Errors from the recovery path.
#[derive(Debug, Clone, Copy, PartialEq, Eq, Structural)]
#[non_exhaustive]
pub enum RecoverError {
    /// More shards are missing than the code can repair.
    TooManyMissing {
        /// Number of missing shards.
        missing: usize,
        /// Number of parity shards (the repair capacity).
        p: usize,
    },
    /// The surviving-rows submatrix could not be inverted.
    Matrix(MatrixError),
    /// A shard buffer failed validation.
    Code(CodeError),
}

impl From<MatrixError> for RecoverError {
    fn from(e: MatrixError) -> (r: Self) {
        RecoverError::Matrix(e)
    }
}

impl vstd::std_specs::convert::FromSpecImpl<MatrixError> for RecoverError {
    open spec fn obeys_from_spec() -> bool {
        true
    }

    open spec fn from_spec(e: MatrixError) -> Self {
        RecoverError::Matrix(e)
    }
}

impl From<CodeError> for RecoverError {
    fn from(e: CodeError) -> (r: Self) {
        RecoverError::Code(e)
    }
}

impl vstd::std_specs::convert::FromSpecImpl<CodeError> for RecoverError {
    open spec fn obeys_from_spec() -> bool {
        true
    }

    open spec fn from_spec(e: CodeError) -> Self {
        RecoverError::Code(e)
    }
}

} // verus!
