//! RAID conformance: xor_gen/pq_gen byte-for-byte against ISA-L's byte-wise
//! reference math (P = XOR of the sources, Q = XOR_j 2^j * D_j over
//! GF(2^8)/0x11d, evaluated here independently of the library) on aligned
//! and odd lengths, plus the check functions' contract both ways.

use rusty_erasure::raid::{PqParity, pq_check, pq_gen, xor_check, xor_gen};

struct Rng(u64);

impl Rng {
    fn next(&mut self) -> u64 {
        self.0 = self.0.wrapping_add(0x9E37_79B9_7F4A_7C15);
        let mut z = self.0;
        z = (z ^ (z >> 30)).wrapping_mul(0xBF58_476D_1CE4_E5B9);
        z = (z ^ (z >> 27)).wrapping_mul(0x94D0_49BB_1331_11EB);
        z ^ (z >> 31)
    }
    fn bytes(&mut self, n: usize) -> Vec<u8> {
        (0..n).map(|_| self.next() as u8).collect()
    }
}

/// Multiply by 2 in GF(2^8)/0x11d, bit by bit.
fn times2(x: u8) -> u8 {
    let wide = (x as u16) << 1;
    if wide & 0x100 != 0 { (wide ^ 0x11d) as u8 } else { wide as u8 }
}

/// The reference parities: P = XOR_j D_j, Q = XOR_j 2^j * D_j.
fn reference(sources: &[&[u8]], len: usize) -> (Vec<u8>, Vec<u8>, Vec<u8>) {
    let mut p = vec![0u8; len];
    let mut q = vec![0u8; len];
    for (j, s) in sources.iter().enumerate() {
        for i in 0..len {
            let mut term = s[i];
            for _ in 0..j {
                term = times2(term);
            }
            p[i] ^= s[i];
            q[i] ^= term;
        }
    }
    (p.clone(), p, q)
}

#[test]
fn raid_matches_isal_vectors() {
    let mut rng = Rng(0x8A1D_0002);
    // kind 0: aligned lengths; kind 1: odd lengths with sub-word tails.
    let mut cases: Vec<(u8, usize, usize)> = Vec::new();
    for &nsrc in &[2usize, 3, 4, 8, 10, 17] {
        for &len in &[32usize, 64, 256, 4096] {
            cases.push((0, nsrc, len));
        }
        for &len in &[1usize, 7, 9, 31, 33, 63, 65, 1017] {
            cases.push((1, nsrc, len));
        }
    }
    for (case, &(kind, nsrc, len)) in cases.iter().enumerate() {
        let owned: Vec<Vec<u8>> = (0..nsrc).map(|_| rng.bytes(len)).collect();
        let sources: Vec<&[u8]> = owned.iter().map(|s| s.as_slice()).collect();
        let (xor_expect, p_expect, q_expect) = reference(&sources, len);
        let (xor_expect, p_expect, q_expect) = (xor_expect.as_slice(), p_expect.as_slice(), q_expect.as_slice());
        let tag = format!("case {case}: kind={kind} nsrc={nsrc} len={len}");

        let mut xor_out = vec![0u8; len];
        xor_gen(&sources, &mut xor_out).unwrap_or_else(|e| panic!("{tag}: xor_gen {e:?}"));
        assert_eq!(xor_out.as_slice(), xor_expect, "{tag}: xor parity");

        let mut p = vec![0u8; len];
        let mut q = vec![0u8; len];
        pq_gen(&sources, &mut p, &mut q).unwrap_or_else(|e| panic!("{tag}: pq_gen {e:?}"));
        assert_eq!(p.as_slice(), p_expect, "{tag}: P");
        assert_eq!(q.as_slice(), q_expect, "{tag}: Q");

        // The checkers agree with the golden state...
        let mut all: Vec<&[u8]> = sources.clone();
        all.push(&xor_out);
        assert_eq!(xor_check(&all), Ok(true), "{tag}: xor_check");
        assert_eq!(pq_check(&sources, &p, &q), Ok(None), "{tag}: pq_check");

        // ...and detect corruption, naming the right parity and offset.
        if len > 2 {
            let hit = len / 2;
            let mut bad_q = q.clone();
            bad_q[hit] ^= 0x20;
            let m = pq_check(&sources, &p, &bad_q).unwrap().expect("must detect");
            assert_eq!((m.index, m.parity), (hit, PqParity::Q), "{tag}");
            let mut bad_p = p.clone();
            bad_p[hit] ^= 0x01;
            let m = pq_check(&sources, &bad_p, &q).unwrap().expect("must detect");
            assert_eq!((m.index, m.parity), (hit, PqParity::P), "{tag}");
            let mut bad_all = all.clone();
            let bad_first: Vec<u8> = sources[0].iter().map(|&b| b ^ 0x80).collect();
            bad_all[0] = &bad_first;
            assert_eq!(xor_check(&bad_all), Ok(false), "{tag}: xor_check corruption");
        }
    }
}

#[test]
fn raid_misuse_is_typed_errors() {
    let a = [1u8; 16];
    let short = [1u8; 15];
    let mut out = vec![0u8; 16];
    let mut q = vec![0u8; 16];
    assert!(xor_gen(&[&a], &mut out).is_err(), "one source refused");
    assert!(xor_gen(&[&a, &short], &mut out).is_err(), "length mismatch refused");
    assert!(pq_gen(&[&a], &mut out, &mut q).is_err(), "one source refused");
    let mut q15 = vec![0u8; 15];
    assert!(pq_gen(&[&a, &a], &mut out, &mut q15).is_err(), "p/q length mismatch");
    assert!(xor_check(&[&a]).is_err(), "one vector refused");
    assert!(pq_check(&[&a, &short], &out, &q).is_err(), "length mismatch refused");
    // len-0 is a valid degenerate stripe.
    let e: [u8; 0] = [];
    let mut z: Vec<u8> = vec![];
    let mut z2: Vec<u8> = vec![];
    assert!(pq_gen(&[&e, &e], &mut z, &mut z2).is_ok());
}
