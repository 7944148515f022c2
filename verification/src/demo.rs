//! The browser demo's computations: encode a stripe of generated data, lose
//! shards, recover them and compare; or encode the same stripe repeatedly
//! for timing. The host exports and the timer live outside the library;
//! these functions take plain values and return the demo's status codes.

use vstd::prelude::*;

use crate::accel::CpuFeatures;
use crate::algebra::{is_grid, lemma_xsum_ext, lemma_xsum_zero, xsum};
use crate::decode::{
    count_present, lemma_count_complement, lemma_count_none, lemma_count_set_present, lemma_take_present, stripe_byte,
    take_present, top_identity,
};
use crate::encode::{
    all_in_range, lemma_recover_restores_stripe, parity_byte, presence, present_len, shard_byte, shard_views,
};
use crate::fuzz::{owned_rows, slices_of, zero_rows};
use crate::kernel::{all_len, all_len_mut, first_len};
use crate::matrix::{dims_ok, Matrix};
use crate::mds::{cauchy_grid, lemma_cauchy_survivors_nonsingular};

verus! {

/// The generator's state after `t` steps from `seed`.
pub open spec fn mix_state(seed: u64, t: nat) -> u64
    decreases t,
{
    if t == 0 {
        seed
    } else {
        mix_state(seed, (t - 1) as nat).wrapping_add(0x9E37_79B9_7F4A_7C15u64)
    }
}

/// The generator's output for a state.
pub open spec fn mix_out(s: u64) -> u64 {
    let z1 = (s ^ (s >> 30u64)).wrapping_mul(0xBF58_476D_1CE4_E5B9u64);
    let z2 = (z1 ^ (z1 >> 27u64)).wrapping_mul(0x94D0_49BB_1331_11EBu64);
    z2 ^ (z2 >> 31u64)
}

/// The generator's seed for a demo stripe of `k` shards of `len` bytes.
pub open spec fn demo_seed(k: usize, len: usize) -> u64 {
    ((k as u64) << 32u64) | (len as u64)
}

/// The demo stripe's sources: byte `i` of source `j` is the low byte of
/// output number `j * len + i + 1` of the generator.
pub open spec fn demo_data(k: usize, len: usize) -> Seq<Seq<u8>> {
    Seq::new(
        k as nat,
        |j: int| Seq::new(len as nat, |i: int| mix_out(mix_state(demo_seed(k, len), (j * len + i + 1) as nat)) as u8),
    )
}

/// The XOR of every parity byte of a stripe.
pub open spec fn parity_checksum(g: Seq<Seq<u8>>, k: int, data: Seq<Seq<u8>>, p: int, len: int) -> u8 {
    xsum(p, |l: int| xsum(len, |i: int| parity_byte(g, k, data, l, i)))
}

/// One generator step: the next state and its output.
fn mix_next(state: u64) -> (r: (u64, u64))
    ensures
        r.0 == state.wrapping_add(0x9E37_79B9_7F4A_7C15u64),
        r.1 == mix_out(r.0),
{
    let s = state.wrapping_add(0x9E37_79B9_7F4A_7C15);
    let mut z = s;
    z = (z ^ (z >> 30u64)).wrapping_mul(0xBF58_476D_1CE4_E5B9);
    z = (z ^ (z >> 27u64)).wrapping_mul(0x94D0_49BB_1331_11EB);
    (s, z ^ (z >> 31u64))
}

/// Fill `buf` from the generator seeded with `seed`: byte `i` is the low
/// byte of output number `i + 1`. Deterministic, so a stripe is identical
/// on every run and every machine.
pub fn fill(buf: &mut [u8], seed: u64)
    ensures
        final(buf)@.len() == old(buf)@.len(),
        forall|i: int| 0 <= i < old(buf)@.len() ==> #[trigger] final(buf)@[i] == mix_out(mix_state(seed, (i + 1) as nat)) as u8,
{
    let mut state = seed;
    let mut i: usize = 0;
    while i < buf.len()
        invariant
            buf@.len() == old(buf)@.len(),
            0 <= i <= buf@.len(),
            state == mix_state(seed, i as nat),
            forall|u: int| 0 <= u < i ==> #[trigger] buf@[u] == mix_out(mix_state(seed, (u + 1) as nat)) as u8,
        decreases buf@.len() - i,
    {
        let (s, z) = mix_next(state);
        state = s;
        buf[i] = z as u8;
        i += 1;
    }
}

/// The demo stripe's `k` sources of `len` bytes.
fn stripe(k: usize, len: usize) -> (r: Vec<Vec<u8>>)
    requires
        k * len <= usize::MAX,
    ensures
        r@.len() == k,
        forall|j: int| 0 <= j < k ==> (#[trigger] r@[j]@) == demo_data(k, len)[j],
{
    let mut state: u64 = ((k as u64) << 32u64) | (len as u64);
    let ghost seed = state;
    assert(seed == demo_seed(k, len));
    let mut out: Vec<Vec<u8>> = Vec::new();
    let mut j: usize = 0;
    while j < k
        invariant
            k * len <= usize::MAX,
            seed == demo_seed(k, len),
            0 <= j <= k,
            out@.len() == j,
            state == mix_state(seed, (j * len) as nat),
            forall|t: int| 0 <= t < j ==> (#[trigger] out@[t]@) == demo_data(k, len)[t],
        decreases k - j,
    {
        let mut v: Vec<u8> = Vec::with_capacity(len);
        let mut i: usize = 0;
        while i < len
            invariant
                k * len <= usize::MAX,
                seed == demo_seed(k, len),
                j < k,
                0 <= i <= len,
                v@.len() == i,
                state == mix_state(seed, (j * len + i) as nat),
                forall|u: int| 0 <= u < i ==> #[trigger] v@[u] == mix_out(mix_state(seed, (j * len + u + 1) as nat)) as u8,
            decreases len - i,
        {
            let (s, z) = mix_next(state);
            state = s;
            assert(mix_state(seed, (j * len + i + 1) as nat) == s);
            v.push(z as u8);
            i += 1;
        }
        assert(v@ =~= demo_data(k, len)[j as int]);
        assert((j + 1) * len == j * len + len) by (nonlinear_arith);
        out.push(v);
        j += 1;
    }
    out
}

/// Encode a `k + p` Cauchy stripe of `len`-byte generated shards, drop
/// `drop_n` of them (even indices first, then odd), recover them and compare
/// with the originals. Returns `0` on success, `-1` for unusable
/// dimensions and `-3` when more shards are dropped than there are parity
/// shards. Every other stage is proved to succeed (any `k` rows of the
/// Cauchy matrix invert), so its failure codes `-2`, `-4`, `-5` and `-6`
/// are never returned.
pub fn demo_roundtrip(k: usize, p: usize, len: usize, drop_n: usize, cpu: &CpuFeatures) -> (r: i32)
    requires
        dims_ok(k as int, p as int) ==> (k + p) * len <= usize::MAX,
    ensures
        !dims_ok(k as int, p as int) ==> r == -1,
        dims_ok(k as int, p as int) && drop_n > p ==> r == -3,
        dims_ok(k as int, p as int) && drop_n <= p ==> r == 0,
{
    let matrix = match Matrix::cauchy(k, p) {
        Ok(m) => m,
        Err(_) => {
            return -1;
        },
    };
    let c = match crate::coder(matrix, cpu) {
        Ok(c) => c,
        Err(_) => {
            return -2;
        },
    };
    if drop_n > p {
        return -3;
    }
    let n = k + p;
    let ghost g = cauchy_grid(k as int, p as int);
    assert(c.grid_of() == g);
    assert((k + p) * len == k * len + p * len) by (nonlinear_arith);
    let data = stripe(k, len);
    let data_refs = slices_of(&data);
    let ghost views = shard_views(data_refs@);
    assert(all_len(data_refs@, len as int));

    let mut parity_flat: Vec<u8> = vec![0u8; p * len];
    let mut parity_rows = zero_rows(parity_flat.as_mut_slice(), p, len);
    assert(first_len(parity_rows@) == len);
    if c.encode(data_refs.as_slice(), parity_rows.as_mut_slice()).is_err() {
        return -4;
    }
    let parity = owned_rows(parity_rows.as_slice());

    // Drop every other shard index, evens first, until drop_n are gone.
    let half = (n + 1) / 2;
    let mut lost: Vec<bool> = vec![false; n];
    proof {
        lemma_count_none(lost@, n as int);
    }
    let mut t: usize = 0;
    while t < drop_n
        invariant
            drop_n <= p < n <= 255,
            half == (n + 1) / 2,
            0 <= t <= drop_n,
            lost@.len() == n,
            count_present(lost@, n as int) <= t,
        decreases drop_n - t,
    {
        let x = if t < half { 2 * t } else { 2 * (t - half) + 1 };
        proof {
            lemma_count_set_present(lost@, x as int, n as int);
        }
        lost.set(x, true);
        t += 1;
    }
    let mut missing: Vec<usize> = Vec::new();
    let mut shards: Vec<Option<&[u8]>> = Vec::new();
    let mut x: usize = 0;
    while x < n
        invariant
            n == k + p,
            1 <= k,
            1 <= p,
            n <= 255,
            lost@.len() == n,
            count_present(lost@, n as int) <= p,
            data_refs@.len() == k,
            views == shard_views(data_refs@),
            parity@.len() == p,
            forall|l: int| 0 <= l < p ==> (#[trigger] parity@[l]@).len() == len,
            forall|l: int, i: int| 0 <= l < p && 0 <= i < len ==> #[trigger] parity@[l]@[i] == parity_byte(
                g,
                k as int,
                views,
                l,
                i,
            ),
            forall|t: int| 0 <= t < k ==> (#[trigger] data_refs@[t]@).len() == len,
            0 <= x <= n,
            shards@.len() == x,
            missing@.len() <= x,
            forall|y: int| 0 <= y < x ==> ((#[trigger] shards@[y]) is Some <==> !lost@[y]),
            forall|q: int| 0 <= q < missing@.len() ==> (#[trigger] missing@[q]) < n,
            forall|y: int| 0 <= y < x && (#[trigger] shards@[y]) is Some ==> shards@[y]->0@.len() == len,
            forall|y: int, i: int|
                0 <= y < x && shards@[y] is Some && 0 <= i < len ==> #[trigger] shard_byte(shards@, y, i)
                    == stripe_byte(g, k as int, views, y, i),
        decreases n - x,
    {
        let ghost before = shards@;
        if lost[x] {
            missing.push(x);
            shards.push(None);
        } else if x < k {
            shards.push(Some(data_refs[x]));
        } else {
            shards.push(Some(parity[x - k].as_slice()));
        }
        proof {
            assert forall|y: int, i: int|
                0 <= y < x + 1 && shards@[y] is Some && 0 <= i < len implies #[trigger] shard_byte(shards@, y, i)
                    == stripe_byte(g, k as int, views, y, i) by {
                if y < x {
                    assert(shards@[y] == before[y]);
                    assert(shard_byte(before, y, i) == stripe_byte(g, k as int, views, y, i));
                } else if x >= k {
                    assert(parity@[y - k]@[i] == parity_byte(g, k as int, views, y - k, i));
                } else {
                    assert(views[y] == data_refs@[y]@);
                }
            }
        }
        x += 1;
    }

    let nmiss = missing.len();
    assert(nmiss * len <= n * len) by (nonlinear_arith)
        requires
            nmiss <= n,
    ;
    let mut out_flat: Vec<u8> = vec![0u8; nmiss * len];
    let mut out = zero_rows(out_flat.as_mut_slice(), nmiss, len);
    // At most p shards are lost, so the survivors' rows are k distinct rows
    // of the Cauchy matrix: the recovery succeeds.
    proof {
        let pres = presence(shards@);
        assert forall|y: int| 0 <= y < n implies #[trigger] pres[y] == !lost@[y] by {
        }
        lemma_count_complement(pres, lost@, n as int);
        lemma_take_present(pres, n as int, k as int);
        let s = take_present(pres, n as int, k as int);
        lemma_cauchy_survivors_nonsingular(k as int, p as int, pres);
        assert(present_len(shards@, len as int));
        let s0 = s[0] as int;
        assert(shards@[s0] is Some);
        assert(shards@[s0]->0@.len() == len);
        assert(all_len_mut(out@, len as int));
        assert(all_in_range(missing@, n as int));
    }
    assert(nmiss * k * 32 <= 255 * 255 * 32) by (nonlinear_arith)
        requires
            nmiss <= 255,
            k <= 255,
    ;
    if c.recover(shards.as_slice(), missing.as_slice(), out.as_mut_slice()).is_err() {
        return -5;
    }
    let recovered = owned_rows(out.as_slice());
    proof {
        let pres = presence(shards@);
        let s = take_present(pres, n as int, k as int);
        lemma_take_present(pres, n as int, k as int);
        assert(is_grid(g, n as int, k as int));
        assert(top_identity(g, k as int));
        assert forall|q: int, i: int| 0 <= q < nmiss && 0 <= i < len implies #[trigger] recovered@[q]@[i]
            == stripe_byte(g, k as int, views, missing@[q] as int, i) by {
            assert forall|t: int| 0 <= t < k implies #[trigger] shard_byte(shards@, s[t] as int, i) == stripe_byte(
                g,
                k as int,
                views,
                s[t] as int,
                i,
            ) by {
                assert(pres[s[t] as int]);
                assert(shards@[s[t] as int] is Some);
            }
            lemma_recover_restores_stripe(g, k as int, n as int, views, shards@, s, missing@[q] as int, i);
        }
    }

    // Compare every rebuilt shard with the original.
    let mut q: usize = 0;
    while q < nmiss
        invariant
            nmiss == missing@.len(),
            n == k + p,
            recovered@.len() == nmiss,
            forall|z: int| 0 <= z < nmiss ==> (#[trigger] recovered@[z]@).len() == len,
            forall|z: int| 0 <= z < nmiss ==> (#[trigger] missing@[z]) < n,
            forall|z: int, i: int| 0 <= z < nmiss && 0 <= i < len ==> #[trigger] recovered@[z]@[i]
                == stripe_byte(g, k as int, views, missing@[z] as int, i),
            data_refs@.len() == k,
            views == shard_views(data_refs@),
            parity@.len() == p,
            forall|l: int| 0 <= l < p ==> (#[trigger] parity@[l]@).len() == len,
            forall|l: int, i: int| 0 <= l < p && 0 <= i < len ==> #[trigger] parity@[l]@[i] == parity_byte(
                g,
                k as int,
                views,
                l,
                i,
            ),
            forall|t: int| 0 <= t < k ==> (#[trigger] data_refs@[t]@).len() == len,
            0 <= q <= nmiss,
        decreases nmiss - q,
    {
        let x = missing[q];
        let expect: &[u8] = if x < k { data_refs[x] } else { parity[x - k].as_slice() };
        assert(expect@.len() == len);
        let mut i: usize = 0;
        while i < len
            invariant
                q < nmiss,
                x == missing@[q as int],
                x < n,
                recovered@.len() == nmiss,
                (recovered@[q as int]@).len() == len,
                expect@.len() == len,
                forall|u: int| 0 <= u < len ==> #[trigger] expect@[u] == stripe_byte(g, k as int, views, x as int, u),
                forall|u: int| 0 <= u < len ==> #[trigger] recovered@[q as int]@[u] == stripe_byte(
                    g,
                    k as int,
                    views,
                    x as int,
                    u,
                ),
                0 <= i <= len,
            decreases len - i,
        {
            if recovered[q][i] != expect[i] {
                return -6;
            }
            i += 1;
        }
        q += 1;
    }
    0
}

/// Encode the demo stripe of a `k + p` Cauchy code `reps` times (the host
/// times the call) and return the XOR of every parity byte, so the work
/// cannot be skipped. `-1` for unusable dimensions; with `reps == 0` the
/// parity buffers are never written and the checksum is `0`.
pub fn demo_bench(k: usize, p: usize, len: usize, reps: usize, cpu: &CpuFeatures) -> (r: i32)
    requires
        dims_ok(k as int, p as int) ==> (k + p) * len <= usize::MAX,
    ensures
        !dims_ok(k as int, p as int) ==> r == -1,
        dims_ok(k as int, p as int) && reps == 0 ==> r == 0,
        dims_ok(k as int, p as int) && reps > 0 ==> r == parity_checksum(
            cauchy_grid(k as int, p as int),
            k as int,
            demo_data(k, len),
            p as int,
            len as int,
        ) as i32,
{
    let matrix = match Matrix::cauchy(k, p) {
        Ok(m) => m,
        Err(_) => {
            return -1;
        },
    };
    let c = match crate::coder(matrix, cpu) {
        Ok(c) => c,
        Err(_) => {
            return -1;
        },
    };
    let ghost g = cauchy_grid(k as int, p as int);
    assert(c.grid_of() == g);
    assert((k + p) * len == k * len + p * len) by (nonlinear_arith);
    let data = stripe(k, len);
    let data_refs = slices_of(&data);
    let ghost views = shard_views(data_refs@);
    assert(views =~~= demo_data(k, len));
    assert(all_len(data_refs@, len as int));

    let mut parity_flat: Vec<u8> = vec![0u8; p * len];
    let mut rows = zero_rows(parity_flat.as_mut_slice(), p, len);
    let mut t: usize = 0;
    while t < reps
        invariant
            c.grid_of() == g,
            c.k_of() == k,
            c.p_of() == p,
            data_refs@.len() == k,
            all_len(data_refs@, len as int),
            views == shard_views(data_refs@),
            rows@.len() == p,
            p >= 1,
            forall|l: int| 0 <= l < p ==> (#[trigger] rows@[l]@).len() == len,
            t == 0 ==> forall|l: int, i: int| 0 <= l < p && 0 <= i < len ==> #[trigger] rows@[l]@[i] == 0u8,
            t > 0 ==> forall|l: int, i: int| 0 <= l < p && 0 <= i < len ==> #[trigger] rows@[l]@[i] == parity_byte(
                g,
                k as int,
                views,
                l,
                i,
            ),
            0 <= t <= reps,
        decreases reps - t,
    {
        assert(first_len(rows@) == len);
        if c.encode(data_refs.as_slice(), rows.as_mut_slice()).is_err() {
            return -1;
        }
        t += 1;
    }

    // The XOR of every parity byte, row by row.
    let ghost b = rows@;
    let ghost row_sum = |l: int| xsum(len as int, |i: int| b[l]@[i]);
    let mut acc: u8 = 0;
    let mut l: usize = 0;
    while l < p
        invariant
            rows@ == b,
            b.len() == p,
            forall|z: int| 0 <= z < p ==> (#[trigger] b[z]@).len() == len,
            row_sum == (|l: int| xsum(len as int, |i: int| b[l]@[i])),
            0 <= l <= p,
            acc == xsum(l as int, row_sum),
        decreases p - l,
    {
        let mut i: usize = 0;
        let ghost start = acc;
        proof {
            crate::gf::lemma_xor_units();
        }
        assert(start ^ 0u8 == start);
        while i < len
            invariant
                rows@ == b,
                b.len() == p,
                l < p,
                (b[l as int]@).len() == len,
                0 <= i <= len,
                acc == start ^ xsum(i as int, |u: int| b[l as int]@[u]),
            decreases len - i,
        {
            let ghost before = acc;
            acc = acc ^ rows[l][i];
            assert(acc == start ^ xsum((i + 1) as int, |u: int| b[l as int]@[u])) by {
                let x = xsum(i as int, |u: int| b[l as int]@[u]);
                let y = b[l as int]@[i as int];
                assert((start ^ x) ^ y == start ^ (x ^ y)) by {
                    crate::gf::lemma_xor_laws();
                }
            }
            i += 1;
        }
        l += 1;
    }
    proof {
        if reps == 0 {
            assert forall|z: int| 0 <= z < p implies #[trigger] row_sum(z) == 0u8 by {
                lemma_xsum_zero(len as int, |i: int| b[z]@[i]);
            }
            lemma_xsum_zero(p as int, row_sum);
        } else {
            let want = |z: int| xsum(len as int, |i: int| parity_byte(g, k as int, demo_data(k, len), z, i));
            assert forall|z: int| 0 <= z < p implies #[trigger] row_sum(z) == want(z) by {
                lemma_xsum_ext(len as int, |i: int| b[z]@[i], |i: int| parity_byte(g, k as int, demo_data(k, len), z, i));
            }
            lemma_xsum_ext(p as int, row_sum, want);
        }
    }
    acc as i32
}

} // verus!
