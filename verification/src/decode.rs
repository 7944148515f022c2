//! Decode algebra: which shards survive, the decode matrix, the coefficient
//! rows that rebuild lost shards, and the law that they give back exactly
//! the shards that were lost ([`lemma_recovery_restores`]).

use vstd::prelude::*;

use crate::algebra::{
    dot, identity, inverse_of, invertible, is_grid, is_inverse, lemma_identity_left,
    lemma_mat_mul_assoc, lemma_mat_mul_grid, lemma_xsum_ext, lemma_xsum_single, mat_mul, xsum,
};
use crate::encode::parity_byte;
use crate::gf::{field_mul, lemma_mul_units};

verus! {

/// The first `k` (at most) present positions among `0..m`, in increasing
/// order: the survivors a decode uses.
pub open spec fn take_present(present: Seq<bool>, m: int, k: int) -> Seq<usize>
    decreases m,
{
    if m <= 0 {
        Seq::empty()
    } else {
        let s = take_present(present, m - 1, k);
        if present[m - 1] && s.len() < k {
            s.push((m - 1) as usize)
        } else {
            s
        }
    }
}

/// How many of the positions `0..m` are present.
pub open spec fn count_present(present: Seq<bool>, m: int) -> int
    decreases m,
{
    if m <= 0 {
        0
    } else {
        count_present(present, m - 1) + if present[m - 1] {
            1int
        } else {
            0int
        }
    }
}

/// The survivor selection is what its name says: at most `k` present
/// positions below `m`, strictly increasing, and exactly `k` of them when
/// that many are present.
pub proof fn lemma_take_present(present: Seq<bool>, m: int, k: int)
    requires
        0 <= m <= present.len(),
        present.len() <= usize::MAX,
        k >= 0,
    ensures
        ({
            let s = take_present(present, m, k);
            &&& s.len() == if count_present(present, m) < k {
                count_present(present, m)
            } else {
                k
            }
            &&& forall|t: int| 0 <= t < s.len() ==> (#[trigger] s[t]) < m && present[s[t] as int]
            &&& forall|a: int, b: int| 0 <= a < b < s.len() ==> s[a] < s[b]
        }),
        0 <= count_present(present, m) <= m,
    decreases m,
{
    if m > 0 {
        lemma_take_present(present, m - 1, k);
    }
}

/// Setting one position present adds at most one to the count.
pub proof fn lemma_count_set_present(present: Seq<bool>, x: int, m: int)
    requires
        0 <= x < present.len(),
        0 <= m <= present.len(),
    ensures
        count_present(present.update(x, true), m) <= count_present(present, m) + 1,
        count_present(present, m) <= count_present(present.update(x, true), m),
        m <= x ==> count_present(present.update(x, true), m) == count_present(present, m),
    decreases m,
{
    if m > 0 {
        lemma_count_set_present(present, x, m - 1);
    }
}

/// A sequence with nothing present counts zero.
pub proof fn lemma_count_none(present: Seq<bool>, m: int)
    requires
        0 <= m <= present.len(),
        forall|i: int| 0 <= i < m ==> !(#[trigger] present[i]),
    ensures
        count_present(present, m) == 0,
    decreases m,
{
    if m > 0 {
        lemma_count_none(present, m - 1);
    }
}

/// Positions present in one sequence exactly where absent in another are
/// counted `m` times between them.
pub proof fn lemma_count_complement(a: Seq<bool>, b: Seq<bool>, m: int)
    requires
        0 <= m <= a.len(),
        m <= b.len(),
        forall|i: int| 0 <= i < m ==> #[trigger] a[i] == !b[i],
    ensures
        count_present(a, m) + count_present(b, m) == m,
    decreases m,
{
    if m > 0 {
        lemma_count_complement(a, b, m - 1);
    }
}

/// The rows of `g` listed in `s`.
pub open spec fn select_grid(g: Seq<Seq<u8>>, s: Seq<usize>) -> Seq<Seq<u8>> {
    Seq::new(s.len(), |t: int| g[s[t] as int])
}

/// The decode matrix: the inverse of the survivors' rows.
pub open spec fn decode_matrix(g: Seq<Seq<u8>>, k: int, s: Seq<usize>) -> Seq<Seq<u8>> {
    inverse_of(select_grid(g, s), k)
}

/// The coefficients that rebuild shard `x` from the survivors: row `x` of
/// the decode matrix `d` for a source, the parity row composed with `d` for
/// a parity shard.
pub open spec fn rebuild_row(g: Seq<Seq<u8>>, k: int, d: Seq<Seq<u8>>, x: int) -> Seq<u8> {
    if x < k {
        d[x]
    } else {
        mat_mul(seq![g[x]], d, k, k)[0]
    }
}

/// The top `k x k` block of `g` is the identity: source shards are stored
/// as they are.
pub open spec fn top_identity(g: Seq<Seq<u8>>, k: int) -> bool {
    forall|a: int, b: int| 0 <= a < k && 0 <= b < k ==> #[trigger] g[a][b] == (if a == b {
        1u8
    } else {
        0u8
    })
}

/// Byte `i` of shard `x` of the stripe of `data`: a source byte, or a parity
/// byte.
pub open spec fn stripe_byte(g: Seq<Seq<u8>>, k: int, data: Seq<Seq<u8>>, x: int, i: int) -> u8 {
    if x < k {
        data[x][i]
    } else {
        parity_byte(g, k, data, x - k, i)
    }
}

/// Byte `i` of every source, as a `k x 1` column.
pub open spec fn data_column(data: Seq<Seq<u8>>, k: int, i: int) -> Seq<Seq<u8>> {
    Seq::new(k as nat, |j: int| seq![data[j][i]])
}

/// Every byte of the stripe is its encode row applied to the sources.
proof fn lemma_stripe_is_product(g: Seq<Seq<u8>>, k: int, n: int, data: Seq<Seq<u8>>, x: int, i: int)
    requires
        1 <= k <= n,
        is_grid(g, n, k),
        top_identity(g, k),
        0 <= x < n,
    ensures
        stripe_byte(g, k, data, x, i) == dot(g, data_column(data, k, i), k, x, 0),
{
    let v = data_column(data, k, i);
    let f = |t: int| field_mul(g[x][t], v[t][0]);
    if x < k {
        lemma_mul_units();
        lemma_xsum_single(k, f, x);
    } else {
        lemma_xsum_ext(k, f, |j: int| field_mul(g[x][j], data[j][i]));
    }
}

/// The survivors' bytes are the survivors' rows times the sources.
proof fn lemma_survivor_column(g: Seq<Seq<u8>>, k: int, n: int, data: Seq<Seq<u8>>, s: Seq<usize>, i: int)
    requires
        1 <= k <= n,
        is_grid(g, n, k),
        top_identity(g, k),
        s.len() == k,
        forall|t: int| 0 <= t < k ==> (#[trigger] s[t]) < n,
    ensures
        Seq::new(k as nat, |t: int| seq![stripe_byte(g, k, data, s[t] as int, i)]) == mat_mul(
            select_grid(g, s),
            data_column(data, k, i),
            k,
            1,
        ),
{
    let b = select_grid(g, s);
    let v = data_column(data, k, i);
    let y = Seq::new(k as nat, |t: int| seq![stripe_byte(g, k, data, s[t] as int, i)]);
    assert forall|t: int| 0 <= t < k implies #[trigger] y[t] == mat_mul(b, v, k, 1)[t] by {
        lemma_stripe_is_product(g, k, n, data, s[t] as int, i);
        lemma_xsum_ext(k, |q: int| field_mul(b[t][q], v[q][0]), |q: int| field_mul(g[s[t] as int][q], v[q][0]));
        assert(y[t] =~= mat_mul(b, v, k, 1)[t]);
    }
    assert(y =~= mat_mul(b, v, k, 1));
}

/// Rebuilding from `k` survivors whose rows invert gives back every shard of
/// the stripe: for any shard `x` (source or parity), its rebuild row applied
/// to the survivors' bytes is byte `i` of shard `x`.
pub proof fn lemma_recovery_restores(
    g: Seq<Seq<u8>>,
    k: int,
    n: int,
    data: Seq<Seq<u8>>,
    s: Seq<usize>,
    x: int,
    i: int,
)
    requires
        1 <= k <= n,
        is_grid(g, n, k),
        top_identity(g, k),
        s.len() == k,
        forall|t: int| 0 <= t < k ==> (#[trigger] s[t]) < n,
        invertible(select_grid(g, s), k),
        0 <= x < n,
    ensures
        xsum(
            k,
            |t: int| field_mul(rebuild_row(g, k, decode_matrix(g, k, s), x)[t], stripe_byte(g, k, data, s[t] as int, i)),
        ) == stripe_byte(g, k, data, x, i),
{
    let b = select_grid(g, s);
    let d = decode_matrix(g, k, s);
    let v = data_column(data, k, i);
    let y = Seq::new(k as nat, |t: int| seq![stripe_byte(g, k, data, s[t] as int, i)]);
    assert(is_inverse(b, d, k));
    assert(is_grid(b, k, k));
    assert(is_grid(v, k, 1));
    lemma_survivor_column(g, k, n, data, s, i);
    // D * Y = D * (B * V) = (D * B) * V = V.
    lemma_mat_mul_assoc(d, b, v, k, k, k, 1);
    lemma_identity_left(v, k, 1);
    assert(mat_mul(d, y, k, 1) == v);
    let row = rebuild_row(g, k, d, x);
    let f = |t: int| field_mul(row[t], stripe_byte(g, k, data, s[t] as int, i));
    lemma_stripe_is_product(g, k, n, data, x, i);
    if x < k {
        lemma_xsum_ext(k, f, |t: int| field_mul(d[x][t], y[t][0]));
        assert(mat_mul(d, y, k, 1)[x][0] == v[x][0]);
        lemma_identity_left(v, k, 1);
        assert(dot(g, v, k, x, 0) == v[x][0]) by {
            lemma_mul_units();
            lemma_xsum_single(k, |t: int| field_mul(g[x][t], v[t][0]), x);
        }
    } else {
        let gx = seq![g[x]];
        let r = mat_mul(gx, d, k, k);
        assert(is_grid(gx, 1, k));
        lemma_mat_mul_grid(gx, d, k, k);
        lemma_mat_mul_assoc(gx, d, y, 1, k, k, 1);
        // (Gx * D) * Y = Gx * (D * Y) = Gx * V.
        lemma_xsum_ext(k, f, |t: int| field_mul(r[0][t], y[t][0]));
        assert(mat_mul(r, y, k, 1)[0][0] == dot(r, y, k, 0, 0));
        assert(mat_mul(gx, v, k, 1)[0][0] == dot(gx, v, k, 0, 0));
        lemma_xsum_ext(k, |t: int| field_mul(gx[0][t], v[t][0]), |t: int| field_mul(g[x][t], v[t][0]));
    }
}

} // verus!
