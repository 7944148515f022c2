//! RAID parity: XOR (P-only) and P+Q (RAID-6) generation and checking —
//! ISA-L's `raid` module semantics with validated, panic-free APIs.
//!
//! Q is the classic RAID-6 syndrome `Q = XOR_j 2^j * D_j` over
//! GF(2^8)/0x11d ([`q_byte`]), computed Horner-style as ISA-L's
//! `pq_gen_base` does (last source first, `q = s ^ 2*q`), with the same
//! word-parallel multiply-by-2 (eight byte lanes per u64). Any length is
//! handled: whole words, then an exact byte tail.

use vstd::prelude::*;

use crate::algebra::{lemma_xsum_ext, lemma_xsum_remove, lemma_xsum_scale, xsum};
use crate::error::CodeError;
use crate::gf::{field_mul, field_pow2, lemma_mul_commutative, lemma_mul_units, lemma_mul_xtime_left, xtime};
use crate::kernel::{all_len, first_bad_len};
use crate::tables::le_word;

verus! {

const NOTBIT0: u64 = 0xfefe_fefe_fefe_fefe;

const BIT7: u64 = 0x8080_8080_8080_8080;

const GF8POLY: u64 = 0x1d1d_1d1d_1d1d_1d1d;

/// Byte `i` of the XOR of all the vectors in `v`.
pub open spec fn xor_byte(v: Seq<&[u8]>, i: int) -> u8 {
    xsum(v.len() as int, |j: int| v[j]@[i])
}

/// Byte `i` of the RAID-6 syndrome: `XOR_j 2^j * v[j][i]`.
pub open spec fn q_byte(v: Seq<&[u8]>, i: int) -> u8 {
    xsum(v.len() as int, |j: int| field_mul(field_pow2(j as nat), v[j]@[i]))
}

/// Byte lane `t` (0..8) of a word.
pub open spec fn lane(w: u64, t: u64) -> u8 {
    (w >> ((8 * t) as u64)) as u8
}

/// The P byte accumulated from sources `j..` (last source first).
spec fn p_from(v: Seq<&[u8]>, j: int, i: int) -> u8
    decreases v.len() - j,
{
    if j >= v.len() - 1 {
        v[v.len() - 1]@[i]
    } else {
        v[j]@[i] ^ p_from(v, j + 1, i)
    }
}

/// The Q byte accumulated Horner-style from sources `j..`.
spec fn q_from(v: Seq<&[u8]>, j: int, i: int) -> u8
    decreases v.len() - j,
{
    if j >= v.len() - 1 {
        v[v.len() - 1]@[i]
    } else {
        v[j]@[i] ^ xtime(q_from(v, j + 1, i))
    }
}

/// The Horner P fold is the XOR of the sources it has seen.
proof fn lemma_horner_p(v: Seq<&[u8]>, j: int, i: int)
    requires
        0 <= j < v.len(),
    ensures
        p_from(v, j, i) == xsum(v.len() - j, |u: int| v[j + u]@[i]),
    decreases v.len() - j,
{
    let n = v.len() as int;
    let pf = |u: int| v[j + u]@[i];
    crate::gf::lemma_xor_laws();
    if j == n - 1 {
        assert(xsum(1, pf) == xsum(0, pf) ^ pf(0));
    } else {
        lemma_horner_p(v, j + 1, i);
        lemma_xsum_remove(n - j, pf, 0);
        lemma_xsum_ext(n - j - 1, |u: int| if u < 0 { pf(u) } else { pf(u + 1) }, |u: int| v[j + 1 + u]@[i]);
    }
}

/// Multiplying by 2 is doubling.
proof fn lemma_double(a: u8)
    ensures
        field_mul(2u8, a) == xtime(a),
{
    lemma_mul_units();
    lemma_mul_commutative();
    assert(field_mul(a, 2u8) == xtime(a));
}

/// `2^(u + 1) * x == 2 * (2^u * x)`.
proof fn lemma_pow2_step(u: nat, x: u8)
    ensures
        field_mul(field_pow2(u + 1), x) == field_mul(2u8, field_mul(field_pow2(u), x)),
{
    assert(field_pow2(u + 1) == xtime(field_pow2(u)));
    lemma_mul_xtime_left();
    assert(field_mul(xtime(field_pow2(u)), x) == xtime(field_mul(field_pow2(u), x)));
    lemma_double(field_mul(field_pow2(u), x));
}

/// The Horner Q fold is `XOR_u 2^u * v[j + u]` over the sources it has seen.
proof fn lemma_horner_q(v: Seq<&[u8]>, j: int, i: int)
    requires
        0 <= j < v.len(),
    ensures
        q_from(v, j, i) == xsum(v.len() - j, |u: int| field_mul(field_pow2(u as nat), v[j + u]@[i])),
    decreases v.len() - j,
{
    let n = v.len() as int;
    let qf = |u: int| field_mul(field_pow2(u as nat), v[j + u]@[i]);
    assert(qf(0) == v[j]@[i]) by {
        lemma_mul_units();
    }
    if j == n - 1 {
        assert(xsum(1, qf) == xsum(0, qf) ^ qf(0));
        assert(0u8 ^ qf(0) == qf(0)) by {
            crate::gf::lemma_xor_laws();
        }
    } else {
        lemma_horner_q(v, j + 1, i);
        let rest = |u: int| field_mul(field_pow2(u as nat), v[j + 1 + u]@[i]);
        let shifted = |u: int| if u < 0 { qf(u) } else { qf(u + 1) };
        let a = xsum(n - j - 1, rest);
        lemma_xsum_remove(n - j, qf, 0);
        assert forall|u: int| 0 <= u < n - j - 1 implies #[trigger] shifted(u) == field_mul(2u8, rest(u)) by {
            lemma_pow2_step(u as nat, v[j + 1 + u]@[i]);
        }
        lemma_xsum_scale(n - j - 1, 2u8, rest, shifted);
        lemma_double(a);
        assert(xsum(n - j - 1, shifted) ^ qf(0) == qf(0) ^ xtime(a)) by {
            crate::gf::lemma_xor_laws();
        }
    }
}

/// The Horner P fold from the first source is the XOR of all sources.
proof fn lemma_p_from_zero(v: Seq<&[u8]>, i: int)
    requires
        v.len() >= 1,
    ensures
        p_from(v, 0, i) == xor_byte(v, i),
        q_from(v, 0, i) == q_byte(v, i),
{
    lemma_horner_p(v, 0, i);
    lemma_horner_q(v, 0, i);
    lemma_xsum_ext(v.len() as int, |u: int| v[0 + u]@[i], |j: int| v[j]@[i]);
    lemma_xsum_ext(
        v.len() as int,
        |u: int| field_mul(field_pow2(u as nat), v[0 + u]@[i]),
        |j: int| field_mul(field_pow2(j as nat), v[j]@[i]),
    );
}

/// Multiply a field element by 2 (ISA-L's `gf2_mul2` on one byte).
fn gf2_mul2_byte(q: u8) -> (r: u8)
    ensures
        r == xtime(q),
{
    let r: u8 = (q << 1) ^ (if q & 0x80 != 0 {
        0x1d
    } else {
        0
    });
    assert(r == xtime(q)) by (bit_vector)
        requires
            r == ((q << 1u8) ^ (if q & 0x80u8 != 0 {
                0x1du8
            } else {
                0u8
            })),
    ;
    r
}

proof fn lemma_mul2_lanes(q: u64, d: u64)
    by (bit_vector)
    requires
        d == (if ((q & 0x8080_8080_8080_8080u64) << 1u64) - ((q & 0x8080_8080_8080_8080u64) >> 7u64) < 0 {
            (((q & 0x8080_8080_8080_8080u64) << 1u64) - ((q & 0x8080_8080_8080_8080u64) >> 7u64)
                + 0x1_0000_0000_0000_0000) as u64
        } else {
            (((q & 0x8080_8080_8080_8080u64) << 1u64) - ((q & 0x8080_8080_8080_8080u64) >> 7u64)) as u64
        }),
    ensures
        forall|t: u64|
            t < 8 ==> #[trigger] lane(((q << 1u64) & 0xfefe_fefe_fefe_fefeu64) ^ (d & 0x1d1d_1d1d_1d1d_1d1du64), t)
                == xtime(lane(q, t)),
{
}

/// Multiply each of the eight GF(2^8) byte lanes of `q` by 2 (ISA-L's
/// word-parallel trick: `(m << 1) - (m >> 7)` turns each 0x80 lane into
/// 0xff).
fn gf2_mul2_lanes(q: u64) -> (r: u64)
    ensures
        forall|t: u64| t < 8 ==> #[trigger] lane(r, t) == xtime(lane(q, t)),
{
    let m = q & BIT7;
    let d = (m << 1).wrapping_sub(m >> 7);
    proof {
        lemma_mul2_lanes(q, d);
    }
    ((q << 1) & NOTBIT0) ^ (d & GF8POLY)
}

proof fn lemma_lane_xor()
    by (bit_vector)
    ensures
        forall|a: u64, b: u64, t: u64| t < 8 ==> #[trigger] lane(a ^ b, t) == lane(a, t) ^ lane(b, t),
{
}

proof fn lemma_word_zero(w: u64)
    by (bit_vector)
    ensures
        w == 0u64 <==> (lane(w, 0) == 0 && lane(w, 1) == 0 && lane(w, 2) == 0 && lane(w, 3) == 0
            && lane(w, 4) == 0 && lane(w, 5) == 0 && lane(w, 6) == 0 && lane(w, 7) == 0),
{
}

proof fn lemma_le_lanes(b0: u8, b1: u8, b2: u8, b3: u8, b4: u8, b5: u8, b6: u8, b7: u8)
    by (bit_vector)
    ensures
        ({
            let w = (b0 as u64) | ((b1 as u64) << 8u64) | ((b2 as u64) << 16u64) | ((b3 as u64) << 24u64)
                | ((b4 as u64) << 32u64) | ((b5 as u64) << 40u64) | ((b6 as u64) << 48u64) | ((b7 as u64)
                << 56u64);
            lane(w, 0) == b0 && lane(w, 1) == b1 && lane(w, 2) == b2 && lane(w, 3) == b3 && lane(w, 4)
                == b4 && lane(w, 5) == b5 && lane(w, 6) == b6 && lane(w, 7) == b7
        }),
{
}

/// Lane `t` of a little-endian load is the byte at offset `t`.
proof fn lemma_load_lanes(g: Seq<u8>, s: int)
    requires
        0 <= s,
        s + 8 <= g.len(),
    ensures
        forall|t: u64| t < 8 ==> #[trigger] lane(le_word(g, s), t) == g[s + t],
{
    lemma_le_lanes(g[s], g[s + 1], g[s + 2], g[s + 3], g[s + 4], g[s + 5], g[s + 6], g[s + 7]);
    assert forall|t: u64| t < 8 implies #[trigger] lane(le_word(g, s), t) == g[s + t] by {
        if t == 0 {
        } else if t == 1 {
        } else if t == 2 {
        } else if t == 3 {
        } else if t == 4 {
        } else if t == 5 {
        } else if t == 6 {
        } else {
        }
    }
}

/// At least `min_sources` sources, each `len` bytes long.
fn check_lens(sources: &[&[u8]], len: usize, min_sources: usize) -> (r: Result<(), CodeError>)
    ensures
        r is Ok <==> sources@.len() >= min_sources && all_len(sources@, len as int),
        sources@.len() < min_sources ==> r matches Err(CodeError::ShardCount { .. }),
        r matches Err(CodeError::ShardCount { expected, got }) ==> sources@.len() < min_sources && expected
            == min_sources && got == sources@.len(),
        r matches Err(CodeError::ShardLength { index, expected, got }) ==> sources@.len() >= min_sources
            && first_bad_len(sources@, len as int, index as int) && expected == len && got
            == sources@[index as int]@.len(),
        r is Err ==> (r matches Err(CodeError::ShardCount { .. }) || r matches Err(CodeError::ShardLength { .. })),
{
    if sources.len() < min_sources {
        return Err(CodeError::ShardCount { expected: min_sources, got: sources.len() });
    }
    let mut index: usize = 0;
    while index < sources.len()
        invariant
            sources@.len() >= min_sources,
            0 <= index <= sources@.len(),
            forall|q: int| 0 <= q < index ==> (#[trigger] sources@[q]@).len() == len,
        decreases sources@.len() - index,
    {
        if sources[index].len() != len {
            return Err(CodeError::ShardLength { index, expected: len, got: sources[index].len() });
        }
        index += 1;
    }
    Ok(())
}

/// XOR parity of at least 2 sources into `parity` — ISA-L `xor_gen`.
///
/// The multi-pass shape: copy the first source, then one XOR pass per
/// further source.
pub fn xor_gen(sources: &[&[u8]], parity: &mut [u8]) -> (r: Result<(), CodeError>)
    ensures
        r is Ok <==> sources@.len() >= 2 && all_len(sources@, old(parity)@.len() as int),
        r matches Err(CodeError::ShardCount { expected, got }) ==> sources@.len() < 2 && expected == 2
            && got == sources@.len(),
        r matches Err(CodeError::ShardLength { index, expected, got }) ==> sources@.len() >= 2
            && first_bad_len(sources@, old(parity)@.len() as int, index as int) && expected == old(parity)@.len()
            && got == sources@[index as int]@.len(),
        r is Err ==> (r matches Err(CodeError::ShardCount { .. }) || r matches Err(CodeError::ShardLength { .. })),
        r is Err ==> final(parity)@ == old(parity)@,
        final(parity)@.len() == old(parity)@.len(),
        r is Ok ==> forall|i: int| 0 <= i < old(parity)@.len() ==> #[trigger] final(parity)@[i] == xor_byte(sources@, i),
{
    let len = parity.len();
    match check_lens(sources, len, 2) {
        Ok(()) => {},
        Err(e) => {
            return Err(e);
        },
    }
    let first = sources[0];
    let mut i: usize = 0;
    while i < len
        invariant
            len == parity@.len(),
            first@ == sources@[0]@,
            first@.len() == len,
            0 <= i <= len,
            forall|t: int| 0 <= t < i ==> #[trigger] parity@[t] == xsum(1, |q: int| sources@[q]@[t]),
        decreases len - i,
    {
        parity[i] = first[i];
        proof {
            assert(xsum(1, |q: int| sources@[q]@[i as int]) == xsum(0, |q: int| sources@[q]@[i as int]) ^ sources@[0]@[i as int]);
            crate::gf::lemma_xor_laws();
        }
        i += 1;
    }
    let n = sources.len();
    let mut j: usize = 1;
    while j < n
        invariant
            n == sources@.len(),
            all_len(sources@, len as int),
            len == parity@.len(),
            1 <= j <= n,
            forall|t: int| 0 <= t < len ==> #[trigger] parity@[t] == xsum(j as int, |q: int| sources@[q]@[t]),
        decreases n - j,
    {
        let src = sources[j];
        assert(src@.len() == len);
        let mut i: usize = 0;
        while i < len
            invariant
                n == sources@.len(),
                len == parity@.len(),
                src@ == sources@[j as int]@,
                src@.len() == len,
                1 <= j < n,
                0 <= i <= len,
                forall|t: int| 0 <= t < i ==> #[trigger] parity@[t] == xsum(j + 1, |q: int| sources@[q]@[t]),
                forall|t: int| i <= t < len ==> #[trigger] parity@[t] == xsum(j as int, |q: int| sources@[q]@[t]),
            decreases len - i,
        {
            parity[i] = parity[i] ^ src[i];
            i += 1;
        }
        j += 1;
    }
    Ok(())
}

proof fn lemma_lanes_equal(a: u64, b: u64)
    by (bit_vector)
    requires
        lane(a, 0) == lane(b, 0),
        lane(a, 1) == lane(b, 1),
        lane(a, 2) == lane(b, 2),
        lane(a, 3) == lane(b, 3),
        lane(a, 4) == lane(b, 4),
        lane(a, 5) == lane(b, 5),
        lane(a, 6) == lane(b, 6),
        lane(a, 7) == lane(b, 7),
    ensures
        a == b,
{
}

proof fn lemma_lanes_of_zero()
    by (bit_vector)
    ensures
        forall|t: u64| t < 8 ==> #[trigger] lane(0u64, t) == 0u8,
{
}

/// Write the eight byte lanes of `w` to `buf[o..o + 8]`.
fn store_lanes(buf: &mut [u8], o: usize, w: u64)
    requires
        o + 8 <= old(buf).len(),
    ensures
        final(buf)@.len() == old(buf)@.len(),
        forall|t: u64| t < 8 ==> #[trigger] final(buf)@[o + t] == lane(w, t),
        forall|i: int| 0 <= i < old(buf)@.len() && !(o <= i < o + 8) ==> #[trigger] final(buf)@[i] == old(buf)@[i],
{
    let mut t: u64 = 0;
    while t < 8
        invariant
            o + 8 <= buf@.len(),
            o + 8 <= usize::MAX,
            buf@.len() == old(buf)@.len(),
            0 <= t <= 8,
            forall|u: u64| u < t ==> #[trigger] buf@[o + u] == lane(w, u),
            forall|i: int| 0 <= i < old(buf)@.len() && !(o <= i < o + t) ==> #[trigger] buf@[i] == old(buf)@[i],
        decreases 8 - t,
    {
        buf[o + t as usize] = (w >> (8 * t)) as u8;
        t += 1;
    }
}

/// P and Q bytes at offset `i`, folded from the last source down.
fn pq_byte_at(sources: &[&[u8]], i: usize) -> (r: (u8, u8))
    requires
        sources@.len() >= 1,
        forall|j: int| 0 <= j < sources@.len() ==> i < (#[trigger] sources@[j]@).len(),
    ensures
        r.0 == xor_byte(sources@, i as int),
        r.1 == q_byte(sources@, i as int),
{
    let last = sources.len() - 1;
    let mut pb = sources[last][i];
    let mut qb = pb;
    let mut j = last;
    while j > 0
        invariant
            last == sources@.len() - 1,
            forall|z: int| 0 <= z < sources@.len() ==> i < (#[trigger] sources@[z]@).len(),
            0 <= j <= last,
            pb == p_from(sources@, j as int, i as int),
            qb == q_from(sources@, j as int, i as int),
        decreases j,
    {
        j -= 1;
        let s = sources[j][i];
        pb = s ^ pb;
        qb = s ^ gf2_mul2_byte(qb);
    }
    proof {
        lemma_p_from_zero(sources@, i as int);
    }
    (pb, qb)
}

/// P and Q words at offset `o`, eight byte lanes at a time.
fn pq_word_at(sources: &[&[u8]], o: usize) -> (r: (u64, u64))
    requires
        sources@.len() >= 1,
        forall|j: int| 0 <= j < sources@.len() ==> o + 8 <= (#[trigger] sources@[j]@).len(),
    ensures
        forall|t: u64| t < 8 ==> #[trigger] lane(r.0, t) == xor_byte(sources@, o + t),
        forall|t: u64| t < 8 ==> #[trigger] lane(r.1, t) == q_byte(sources@, o + t),
{
    let last = sources.len() - 1;
    let src = sources[last];
    let mut pw = crate::tables::load_le_u64(src, o);
    let mut qw = pw;
    proof {
        lemma_load_lanes(src@, o as int);
    }
    let mut j = last;
    while j > 0
        invariant
            last == sources@.len() - 1,
            forall|z: int| 0 <= z < sources@.len() ==> o + 8 <= (#[trigger] sources@[z]@).len(),
            0 <= j <= last,
            forall|t: u64| t < 8 ==> #[trigger] lane(pw, t) == p_from(sources@, j as int, o + t),
            forall|t: u64| t < 8 ==> #[trigger] lane(qw, t) == q_from(sources@, j as int, o + t),
        decreases j,
    {
        j -= 1;
        let src = sources[j];
        let s = crate::tables::load_le_u64(src, o);
        proof {
            lemma_load_lanes(src@, o as int);
            lemma_lane_xor();
        }
        pw = s ^ pw;
        qw = s ^ gf2_mul2_lanes(qw);
    }
    proof {
        assert forall|t: u64| t < 8 implies #[trigger] lane(pw, t) == xor_byte(sources@, o + t) by {
            lemma_p_from_zero(sources@, o + t);
        }
        assert forall|t: u64| t < 8 implies #[trigger] lane(qw, t) == q_byte(sources@, o + t) by {
            assert(lane(qw, t) == q_from(sources@, 0, o + t));
            lemma_p_from_zero(sources@, o + t);
        }
    }
    (pw, qw)
}

/// RAID-6 P+Q of at least 2 sources — ISA-L `pq_gen`, any length.
pub fn pq_gen(sources: &[&[u8]], p: &mut [u8], q: &mut [u8]) -> (r: Result<(), CodeError>)
    ensures
        ({
            let len = old(p)@.len() as int;
            &&& old(q)@.len() != len ==> r == Err::<(), CodeError>(
                CodeError::ShardLength { index: 1, expected: len as usize, got: old(q)@.len() as usize },
            )
            &&& r is Ok <==> old(q)@.len() == len && sources@.len() >= 2 && all_len(sources@, len)
            &&& r matches Err(CodeError::ShardCount { expected, got }) ==> old(q)@.len() == len
                && sources@.len() < 2 && expected == 2 && got == sources@.len()
            &&& r matches Err(CodeError::ShardLength { index, expected, got }) ==> expected == len && ((old(q)@.len()
                != len && index == 1 && got == old(q)@.len()) || (old(q)@.len() == len && sources@.len() >= 2
                && first_bad_len(sources@, len, index as int) && got == sources@[index as int]@.len()))
            &&& r is Err ==> (r matches Err(CodeError::ShardCount { .. }) || r matches Err(CodeError::ShardLength { .. }))
        }),
        final(p)@.len() == old(p)@.len(),
        final(q)@.len() == old(q)@.len(),
        r is Err ==> final(p)@ == old(p)@ && final(q)@ == old(q)@,
        r is Ok ==> forall|i: int| 0 <= i < old(p)@.len() ==> #[trigger] final(p)@[i] == xor_byte(sources@, i),
        r is Ok ==> forall|i: int| 0 <= i < old(p)@.len() ==> #[trigger] final(q)@[i] == q_byte(sources@, i),
{
    let len = p.len();
    if q.len() != len {
        return Err(CodeError::ShardLength { index: 1, expected: len, got: q.len() });
    }
    match check_lens(sources, len, 2) {
        Ok(()) => {},
        Err(e) => {
            return Err(e);
        },
    }
    // Whole words: eight byte lanes per step.
    let words = len / 8;
    let mut w: usize = 0;
    while w < words
        invariant
            len == p@.len(),
            len == q@.len(),
            sources@.len() >= 2,
            all_len(sources@, len as int),
            words == len / 8,
            0 <= w <= words,
            forall|i: int| 0 <= i < 8 * w ==> #[trigger] p@[i] == xor_byte(sources@, i),
            forall|i: int| 0 <= i < 8 * w ==> #[trigger] q@[i] == q_byte(sources@, i),
        decreases words - w,
    {
        assert(w * 8 + 8 <= len) by (nonlinear_arith)
            requires
                w < words,
                words == len / 8,
        ;
        let o = w * 8;
        let (pw, qw) = pq_word_at(sources, o);
        store_lanes(p, o, pw);
        store_lanes(q, o, qw);
        proof {
            assert forall|i: int| 0 <= i < 8 * (w + 1) implies #[trigger] p@[i] == xor_byte(sources@, i) by {
                if i >= o {
                    let t = (i - o) as u64;
                    assert(p@[o + t] == lane(pw, t));
                }
            }
            assert forall|i: int| 0 <= i < 8 * (w + 1) implies #[trigger] q@[i] == q_byte(sources@, i) by {
                if i >= o {
                    let t = (i - o) as u64;
                    assert(q@[o + t] == lane(qw, t));
                }
            }
        }
        w += 1;
    }
    // Byte tail, exact.
    assert(words * 8 <= len) by (nonlinear_arith)
        requires
            words == len / 8,
    ;
    let mut i: usize = words * 8;
    assert(i == 8 * w);
    while i < len
        invariant
            len == p@.len(),
            len == q@.len(),
            sources@.len() >= 2,
            all_len(sources@, len as int),
            words * 8 <= i <= len,
            forall|t: int| 0 <= t < i ==> #[trigger] p@[t] == xor_byte(sources@, t),
            forall|t: int| 0 <= t < i ==> #[trigger] q@[t] == q_byte(sources@, t),
        decreases len - i,
    {
        let (pb, qb) = pq_byte_at(sources, i);
        p[i] = pb;
        q[i] = qb;
        i += 1;
    }
    assert(i == len);
    Ok(())
}

/// Which parity vector a [`pq_check`] mismatch was found in.
#[derive(Debug, Clone, Copy, PartialEq, Eq, Structural)]
pub enum PqParity {
    /// The XOR parity (P) disagreed.
    P,
    /// The RAID-6 syndrome (Q) disagreed.
    Q,
}

/// A P/Q consistency failure: the first offending byte offset and which
/// parity it disagreed with (ISA-L's `i | 1` / `i | 2` return, made typed).
#[derive(Debug, Clone, Copy, PartialEq, Eq, Structural)]
pub struct PqMismatch {
    /// Byte offset of the first mismatch.
    pub index: usize,
    /// Which parity vector disagreed.
    pub parity: PqParity,
}

/// A block whose bytes all agree has P and Q words equal to the stored ones.
proof fn lemma_block_words(sources: Seq<&[u8]>, p: Seq<u8>, q: Seq<u8>, o: int, pw: u64, qw: u64)
    requires
        0 <= o,
        o + 8 <= p.len(),
        o + 8 <= q.len(),
        forall|t: u64| t < 8 ==> #[trigger] lane(pw, t) == xor_byte(sources, o + t),
        forall|t: u64| t < 8 ==> #[trigger] lane(qw, t) == q_byte(sources, o + t),
        forall|i: int| o <= i < o + 8 ==> #[trigger] pq_ok(sources, p, q, i),
    ensures
        pw == le_word(p, o),
        qw == le_word(q, o),
{
    lemma_load_lanes(p, o);
    lemma_load_lanes(q, o);
    let pl = le_word(p, o);
    let ql = le_word(q, o);
    assert(pq_ok(sources, p, q, o + 0) && lane(pw, 0) == xor_byte(sources, o + 0) && lane(qw, 0) == q_byte(sources, o + 0) && lane(pl, 0) == p[o + 0] && lane(ql, 0) == q[o + 0]);
    assert(pq_ok(sources, p, q, o + 1) && lane(pw, 1) == xor_byte(sources, o + 1) && lane(qw, 1) == q_byte(sources, o + 1) && lane(pl, 1) == p[o + 1] && lane(ql, 1) == q[o + 1]);
    assert(pq_ok(sources, p, q, o + 2) && lane(pw, 2) == xor_byte(sources, o + 2) && lane(qw, 2) == q_byte(sources, o + 2) && lane(pl, 2) == p[o + 2] && lane(ql, 2) == q[o + 2]);
    assert(pq_ok(sources, p, q, o + 3) && lane(pw, 3) == xor_byte(sources, o + 3) && lane(qw, 3) == q_byte(sources, o + 3) && lane(pl, 3) == p[o + 3] && lane(ql, 3) == q[o + 3]);
    assert(pq_ok(sources, p, q, o + 4) && lane(pw, 4) == xor_byte(sources, o + 4) && lane(qw, 4) == q_byte(sources, o + 4) && lane(pl, 4) == p[o + 4] && lane(ql, 4) == q[o + 4]);
    assert(pq_ok(sources, p, q, o + 5) && lane(pw, 5) == xor_byte(sources, o + 5) && lane(qw, 5) == q_byte(sources, o + 5) && lane(pl, 5) == p[o + 5] && lane(ql, 5) == q[o + 5]);
    assert(pq_ok(sources, p, q, o + 6) && lane(pw, 6) == xor_byte(sources, o + 6) && lane(qw, 6) == q_byte(sources, o + 6) && lane(pl, 6) == p[o + 6] && lane(ql, 6) == q[o + 6]);
    assert(pq_ok(sources, p, q, o + 7) && lane(pw, 7) == xor_byte(sources, o + 7) && lane(qw, 7) == q_byte(sources, o + 7) && lane(pl, 7) == p[o + 7] && lane(ql, 7) == q[o + 7]);
    lemma_lanes_equal(pw, pl);
    lemma_lanes_equal(qw, ql);
}

/// Byte `i` of `p` and `q` agrees with the sources.
pub open spec fn pq_ok(sources: Seq<&[u8]>, p: Seq<u8>, q: Seq<u8>, i: int) -> bool {
    p[i] == xor_byte(sources, i) && q[i] == q_byte(sources, i)
}

/// `m` names the first disagreeing byte at or after `from`, and which parity
/// disagrees there (P is examined before Q).
pub open spec fn first_mismatch(sources: Seq<&[u8]>, p: Seq<u8>, q: Seq<u8>, from: int, m: PqMismatch) -> bool {
    &&& from <= m.index < p.len()
    &&& !pq_ok(sources, p, q, m.index as int)
    &&& forall|i: int| from <= i < m.index ==> #[trigger] pq_ok(sources, p, q, i)
    &&& (m.parity == PqParity::P <==> p[m.index as int] != xor_byte(sources, m.index as int))
}

/// Exact byte-wise check of `from..to`: the first mismatching byte, P
/// examined before Q at each offset.
fn byte_scan(sources: &[&[u8]], p: &[u8], q: &[u8], from: usize, to: usize) -> (r: Option<PqMismatch>)
    requires
        sources@.len() >= 1,
        from <= to <= p@.len(),
        q@.len() == p@.len(),
        all_len(sources@, p@.len() as int),
    ensures
        r is None <==> forall|i: int| from <= i < to ==> #[trigger] pq_ok(sources@, p@, q@, i),
        r matches Some(m) ==> m.index < to && first_mismatch(sources@, p@, q@, from as int, m),
{
    let mut i = from;
    while i < to
        invariant
            sources@.len() >= 1,
            from <= i <= to <= p@.len(),
            q@.len() == p@.len(),
            all_len(sources@, p@.len() as int),
            forall|t: int| from <= t < i ==> #[trigger] pq_ok(sources@, p@, q@, t),
        decreases to - i,
    {
        let (pb, qb) = pq_byte_at(sources, i);
        if p[i] != pb {
            assert(!pq_ok(sources@, p@, q@, i as int));
            return Some(PqMismatch { index: i, parity: PqParity::P });
        }
        if q[i] != qb {
            assert(!pq_ok(sources@, p@, q@, i as int));
            return Some(PqMismatch { index: i, parity: PqParity::Q });
        }
        i += 1;
    }
    None
}

/// Check sources against P and Q — ISA-L `pq_check`. `Ok(None)` means
/// consistent; `Ok(Some(_))` names the first mismatch.
pub fn pq_check(sources: &[&[u8]], p: &[u8], q: &[u8]) -> (r: Result<Option<PqMismatch>, CodeError>)
    ensures
        ({
            let len = p@.len() as int;
            &&& q@.len() != len ==> r == Err::<Option<PqMismatch>, CodeError>(
                CodeError::ShardLength { index: 1, expected: len as usize, got: q@.len() as usize },
            )
            &&& r is Ok <==> q@.len() == len && sources@.len() >= 2 && all_len(sources@, len)
            &&& r matches Err(CodeError::ShardCount { expected, got }) ==> q@.len() == len && sources@.len() < 2
                && expected == 2 && got == sources@.len()
            &&& r matches Err(CodeError::ShardLength { index, expected, got }) ==> expected == len && ((q@.len()
                != len && index == 1 && got == q@.len()) || (q@.len() == len && sources@.len() >= 2
                && first_bad_len(sources@, len, index as int) && got == sources@[index as int]@.len()))
            &&& r is Err ==> (r matches Err(CodeError::ShardCount { .. }) || r matches Err(CodeError::ShardLength { .. }))
            &&& r == Ok::<Option<PqMismatch>, CodeError>(None) <==> r is Ok && forall|i: int|
                0 <= i < len ==> #[trigger] pq_ok(sources@, p@, q@, i)
            &&& r matches Ok(Some(m)) ==> first_mismatch(sources@, p@, q@, 0, m)
        }),
{
    let len = p.len();
    if q.len() != len {
        return Err(CodeError::ShardLength { index: 1, expected: len, got: q.len() });
    }
    match check_lens(sources, len, 2) {
        Ok(()) => {},
        Err(e) => {
            return Err(e);
        },
    }
    // Word-wide fast scan; a word that disagrees falls back to the byte scan
    // for the exact index and the P-before-Q ordering.
    let words = len / 8;
    let mut w: usize = 0;
    while w < words
        invariant
            len == p@.len(),
            len == q@.len(),
            sources@.len() >= 2,
            all_len(sources@, len as int),
            words == len / 8,
            0 <= w <= words,
            forall|i: int| 0 <= i < 8 * w ==> #[trigger] pq_ok(sources@, p@, q@, i),
        decreases words - w,
    {
        assert(w * 8 + 8 <= len) by (nonlinear_arith)
            requires
                w < words,
                words == len / 8,
        ;
        let o = w * 8;
        let (pw, qw) = pq_word_at(sources, o);
        let pl = crate::tables::load_le_u64(p, o);
        let ql = crate::tables::load_le_u64(q, o);
        proof {
            lemma_load_lanes(p@, o as int);
            lemma_load_lanes(q@, o as int);
        }
        if pw != pl || qw != ql {
            let found = byte_scan(sources, p, q, o, o + 8);
            proof {
                if found is None {
                    lemma_block_words(sources@, p@, q@, o as int, pw, qw);
                }
            }
            return Ok(found);
        }
        proof {
            assert forall|i: int| 0 <= i < 8 * (w + 1) implies #[trigger] pq_ok(sources@, p@, q@, i) by {
                if i >= o {
                    let t = (i - o) as u64;
                    assert(lane(pw, t) == lane(pl, t));
                    assert(lane(qw, t) == lane(ql, t));
                }
            }
        }
        w += 1;
    }
    assert(words * 8 <= len) by (nonlinear_arith)
        requires
            words == len / 8,
    ;
    let found = byte_scan(sources, p, q, words * 8, len);
    Ok(found)
}

/// True when the XOR of ALL vectors (parity included) is zero — ISA-L
/// `xor_check`. Word-wide with per-word early exit.
pub fn xor_check(vects: &[&[u8]]) -> (r: Result<bool, CodeError>)
    ensures
        ({
            let len = if vects@.len() == 0 { 0 } else { vects@[0]@.len() as int };
            &&& r is Ok <==> vects@.len() >= 2 && all_len(vects@, len)
            &&& r matches Err(CodeError::ShardCount { expected, got }) ==> vects@.len() < 2 && expected == 2
                && got == vects@.len()
            &&& r matches Err(CodeError::ShardLength { index, expected, got }) ==> vects@.len() >= 2
                && first_bad_len(vects@, len, index as int) && expected == len && got == vects@[index as int]@.len()
            &&& r is Err ==> (r matches Err(CodeError::ShardCount { .. }) || r matches Err(CodeError::ShardLength { .. }))
            &&& r matches Ok(b) ==> (b <==> forall|i: int| 0 <= i < len ==> #[trigger] xor_byte(vects@, i) == 0)
        }),
{
    let len = if vects.len() == 0 { 0 } else { vects[0].len() };
    match check_lens(vects, len, 2) {
        Ok(()) => {},
        Err(e) => {
            return Err(e);
        },
    }
    let n = vects.len();
    let words = len / 8;
    let mut w: usize = 0;
    while w < words
        invariant
            n == vects@.len(),
            n >= 2,
            len == vects@[0]@.len(),
            all_len(vects@, len as int),
            words == len / 8,
            0 <= w <= words,
            forall|i: int| 0 <= i < 8 * w ==> #[trigger] xor_byte(vects@, i) == 0,
        decreases words - w,
    {
        assert(w * 8 + 8 <= len) by (nonlinear_arith)
            requires
                w < words,
                words == len / 8,
        ;
        let o = w * 8;
        let mut acc: u64 = 0;
        proof {
            lemma_lanes_of_zero();
        }
        let mut j: usize = 0;
        while j < n
            invariant
                n == vects@.len(),
                all_len(vects@, len as int),
                o + 8 <= len,
                0 <= j <= n,
                forall|t: u64| t < 8 ==> #[trigger] lane(acc, t) == xsum(j as int, |q: int| vects@[q]@[o + t]),
            decreases n - j,
        {
            let v = vects[j];
            let word = crate::tables::load_le_u64(v, o);
            proof {
                lemma_load_lanes(v@, o as int);
                lemma_lane_xor();
                assert forall|t: u64| t < 8 implies #[trigger] lane(acc ^ word, t) == xsum(j + 1, |q: int| vects@[q]@[o + t]) by {
                    assert(xsum(j + 1, |q: int| vects@[q]@[o + t]) == xsum(j as int, |q: int| vects@[q]@[o + t]) ^ vects@[j as int]@[o + t]);
                }
            }
            acc = acc ^ word;
            j += 1;
        }
        proof {
            lemma_word_zero(acc);
        }
        if acc != 0 {
            proof {
                if lane(acc, 0) != 0 {
                    assert(xor_byte(vects@, o + 0) != 0);
                } else if lane(acc, 1) != 0 {
                    assert(xor_byte(vects@, o + 1) != 0);
                } else if lane(acc, 2) != 0 {
                    assert(xor_byte(vects@, o + 2) != 0);
                } else if lane(acc, 3) != 0 {
                    assert(xor_byte(vects@, o + 3) != 0);
                } else if lane(acc, 4) != 0 {
                    assert(xor_byte(vects@, o + 4) != 0);
                } else if lane(acc, 5) != 0 {
                    assert(xor_byte(vects@, o + 5) != 0);
                } else if lane(acc, 6) != 0 {
                    assert(xor_byte(vects@, o + 6) != 0);
                } else {
                    assert(xor_byte(vects@, o + 7) != 0);
                }
            }
            return Ok(false);
        }
        proof {
            assert forall|i: int| 0 <= i < 8 * (w + 1) implies #[trigger] xor_byte(vects@, i) == 0 by {
                if i >= o {
                    let t = (i - o) as u64;
                    assert(lane(acc, t) == 0);
                }
            }
        }
        w += 1;
    }
    assert(words * 8 <= len) by (nonlinear_arith)
        requires
            words == len / 8,
    ;
    let mut i: usize = words * 8;
    while i < len
        invariant
            n == vects@.len(),
            n >= 2,
            len == vects@[0]@.len(),
            all_len(vects@, len as int),
            words * 8 <= i <= len,
            forall|t: int| 0 <= t < i ==> #[trigger] xor_byte(vects@, t) == 0,
        decreases len - i,
    {
        let mut acc: u8 = 0;
        let mut j: usize = 0;
        while j < n
            invariant
                n == vects@.len(),
                all_len(vects@, len as int),
                i < len,
                0 <= j <= n,
                acc == xsum(j as int, |q: int| vects@[q]@[i as int]),
            decreases n - j,
        {
            acc = acc ^ vects[j][i];
            j += 1;
        }
        if acc != 0 {
            assert(xor_byte(vects@, i as int) != 0);
            return Ok(false);
        }
        i += 1;
    }
    Ok(true)
}


/// Appending the XOR parity of some vectors closes them: every byte of the
/// extended set XORs to zero, so [`xor_check`] of sources plus the parity
/// [`xor_gen`] wrote answers `true`.
pub proof fn lemma_xor_parity_closes(vects: Seq<&[u8]>, i: int)
    requires
        vects.len() >= 1,
        vects.last()@[i] == xor_byte(vects.drop_last(), i),
    ensures
        xor_byte(vects, i) == 0,
{
    let n = vects.len() as int;
    let f = |j: int| vects[j]@[i];
    let rest = vects.drop_last();
    lemma_xsum_ext(n - 1, f, |j: int| rest[j]@[i]);
    crate::gf::lemma_xor_units();
}

/// Changing one byte of one vector of a set whose bytes XOR to zero makes
/// that byte position XOR to non-zero: [`xor_check`] answers `false`.
pub proof fn lemma_xor_flip_detected(vects: Seq<&[u8]>, other: Seq<&[u8]>, v: int, i: int)
    requires
        other.len() == vects.len(),
        0 <= v < vects.len(),
        xor_byte(vects, i) == 0,
        other[v]@[i] != vects[v]@[i],
        forall|j: int| 0 <= j < vects.len() && j != v ==> #[trigger] other[j]@[i] == vects[j]@[i],
    ensures
        xor_byte(other, i) != 0,
{
    let n = vects.len() as int;
    let f = |j: int| vects[j]@[i];
    let g = |j: int| other[j]@[i];
    crate::algebra::lemma_xsum_update(n, f, g, v);
    let a = f(v);
    let b = g(v);
    crate::gf::lemma_xor_units();
    assert((0u8 ^ a) ^ b == a ^ b);
}

} // verus!
