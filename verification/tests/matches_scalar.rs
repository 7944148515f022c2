//! The kernel-set oracle gate: every kernel set, at every ISA level, must be
//! byte-identical to `Kernels::scalar()` over random + edge inputs — lengths
//! straddling every vector width and tail, row counts straddling the fusion
//! group size.

use rusty_erasure::accel::x86::{Level, kernels_at};
use rusty_erasure::accel::{Arch, CpuFeatures};
use rusty_erasure::kernel::Kernels;
use rusty_erasure::tables;

struct Rng(u64);

impl Rng {
    fn next(&mut self) -> u64 {
        self.0 = self.0.wrapping_add(0x9E37_79B9_7F4A_7C15);
        let mut z = self.0;
        z = (z ^ (z >> 30)).wrapping_mul(0xBF58_476D_1CE4_E5B9);
        z = (z ^ (z >> 27)).wrapping_mul(0x94D0_49BB_1331_11EB);
        z ^ (z >> 31)
    }
    fn bytes(&mut self, n: usize) -> Vec<u8> {
        (0..n).map(|_| self.next() as u8).collect()
    }
}

const EDGE_LENS: &[usize] =
    &[0, 1, 15, 16, 17, 31, 32, 33, 47, 63, 64, 65, 96, 255, 256, 1024, 4113];

/// An x86-64 machine with every extension this module dispatches on.
fn full_x86() -> CpuFeatures {
    CpuFeatures { arch: Arch::X86_64, ssse3: true, avx2: true, gfni: true, simd128: false }
}

fn level_or_skip(level: Level) -> Option<Kernels> {
    let k = kernels_at(level, &full_x86());
    assert!(k.is_some(), "{level:?} must be offered when the machine has it");
    k
}

fn check_encode_matches(level: Level) {
    let Some(simd) = level_or_skip(level) else { return };
    let scalar = Kernels::scalar();
    let mut rng = Rng(0x4C0D_E001 ^ level as u64);
    for &len in EDGE_LENS {
        for &(k, rows) in
            &[(1usize, 1usize), (2, 3), (4, 4), (5, 5), (10, 4), (10, 9), (16, 8), (32, 8)]
        {
            let coeffs = rng.bytes(rows * k);
            let gftbls = tables::init_tables(&coeffs);
            let data: Vec<Vec<u8>> = (0..k).map(|_| rng.bytes(len)).collect();
            let data_refs: Vec<&[u8]> = data.iter().map(|d| d.as_slice()).collect();

            let mut a = vec![vec![0u8; len]; rows];
            let mut b = vec![vec![0xAAu8; len]; rows]; // different init: encode must overwrite
            {
                let mut ar: Vec<&mut [u8]> = a.iter_mut().map(|x| x.as_mut_slice()).collect();
                scalar.encode(&gftbls, &data_refs, &mut ar);
            }
            {
                let mut br: Vec<&mut [u8]> = b.iter_mut().map(|x| x.as_mut_slice()).collect();
                simd.encode(&gftbls, &data_refs, &mut br);
            }
            assert_eq!(a, b, "{level:?} encode k={k} rows={rows} len={len}");
        }
    }
}

fn check_mad_matches(level: Level) {
    let Some(simd) = level_or_skip(level) else { return };
    let scalar = Kernels::scalar();
    let mut rng = Rng(0x4C0D_E002 ^ level as u64);
    for &len in EDGE_LENS {
        for _ in 0..4 {
            let c = rng.next() as u8;
            let mut tbl = [0u8; 32];
            tables::mul_table32(c, &mut tbl);
            let src = rng.bytes(len);
            let base = rng.bytes(len);
            let mut a = base.clone();
            let mut b = base;
            scalar.mad(&tbl, &src, &mut a);
            simd.mad(&tbl, &src, &mut b);
            assert_eq!(a, b, "{level:?} mad c={c} len={len}");
        }
    }
}

#[test]
fn ssse3_encode_matches_scalar() {
    check_encode_matches(Level::Ssse3);
}

#[test]
fn ssse3_mad_matches_scalar() {
    check_mad_matches(Level::Ssse3);
}

#[test]
fn avx2_encode_matches_scalar() {
    check_encode_matches(Level::Avx2);
}

#[test]
fn avx2_mad_matches_scalar() {
    check_mad_matches(Level::Avx2);
}

/// Every architecture's best set, including the affine-format GFNI set,
/// encodes, multiply-adds and updates exactly as the scalar set does, each
/// from tables in its own format.
#[test]
fn best_arch_kernels_match_scalar() {
    let machines = [
        full_x86(),
        CpuFeatures { arch: Arch::X86_64, ssse3: true, avx2: true, gfni: false, simd128: false },
        CpuFeatures { arch: Arch::X86_64, ssse3: true, avx2: false, gfni: false, simd128: false },
        CpuFeatures { arch: Arch::Aarch64, ssse3: false, avx2: false, gfni: false, simd128: false },
        CpuFeatures { arch: Arch::Wasm32, ssse3: false, avx2: false, gfni: false, simd128: true },
    ];
    let scalar = Kernels::scalar();
    let mut rng = Rng(0x9047_AB1E);
    for cpu in &machines {
        let simd = rusty_erasure::accel::kernels(cpu).expect("a SIMD set for this machine");
        for &len in &[0usize, 1, 15, 16, 17, 31, 32, 33, 63, 64, 65, 96, 255, 1024, 4113] {
            for &(k, rows) in &[(1usize, 1usize), (2, 3), (4, 4), (5, 5), (10, 4), (16, 8)] {
                let coeffs = rng.bytes(rows * k);
                let data: Vec<Vec<u8>> = (0..k).map(|_| rng.bytes(len)).collect();
                let data_refs: Vec<&[u8]> = data.iter().map(|d| d.as_slice()).collect();
                let mut a = vec![vec![0u8; len]; rows];
                let mut b = vec![vec![0xAAu8; len]; rows];
                {
                    let g = scalar.init(&coeffs);
                    let mut ar: Vec<&mut [u8]> = a.iter_mut().map(|x| x.as_mut_slice()).collect();
                    scalar.encode(&g, &data_refs, &mut ar);
                }
                {
                    let g = simd.init(&coeffs);
                    let mut br: Vec<&mut [u8]> = b.iter_mut().map(|x| x.as_mut_slice()).collect();
                    simd.encode(&g, &data_refs, &mut br);
                }
                assert_eq!(a, b, "{} encode k={k} rows={rows} len={len}", simd.name());

                let sg = scalar.init(&coeffs[..1]);
                let vg = simd.init(&coeffs[..1]);
                let src = rng.bytes(len);
                let base = rng.bytes(len);
                let mut ma = base.clone();
                let mut mb = base;
                scalar.mad(&sg, &src, &mut ma);
                simd.mad(&vg, &src, &mut mb);
                assert_eq!(ma, mb, "{} mad len={len}", simd.name());

                if len > 0 {
                    let sg = scalar.init(&coeffs);
                    let vg = simd.init(&coeffs);
                    let mut ua = a.clone();
                    let mut ub = a.clone();
                    {
                        let mut ur: Vec<&mut [u8]> = ua.iter_mut().map(|x| x.as_mut_slice()).collect();
                        scalar.update(&sg, k, 0, data_refs[0], &mut ur);
                    }
                    {
                        let mut ur: Vec<&mut [u8]> = ub.iter_mut().map(|x| x.as_mut_slice()).collect();
                        simd.update(&vg, k, 0, data_refs[0], &mut ur);
                    }
                    assert_eq!(ua, ub, "{} update k={k} rows={rows} len={len}", simd.name());
                }
            }
        }
    }
}

/// The dispatched RAID pair on each architecture is byte-identical to the
/// core raid module.
#[test]
fn arch_raid_kernels_match_core() {
    let machines = [
        full_x86(),
        CpuFeatures { arch: Arch::X86_64, ssse3: true, avx2: false, gfni: false, simd128: false },
        CpuFeatures { arch: Arch::Aarch64, ssse3: false, avx2: false, gfni: false, simd128: false },
        CpuFeatures { arch: Arch::Wasm32, ssse3: false, avx2: false, gfni: false, simd128: true },
    ];
    let mut rng = Rng(0x7A1D_5EED);
    for cpu in &machines {
        let pair = rusty_erasure::accel::raid_kernels(cpu).expect("a RAID pair for this machine");
        for &len in &[0usize, 1, 7, 8, 15, 16, 31, 32, 33, 63, 64, 65, 96, 255, 1024, 4113] {
            for &n in &[2usize, 3, 5, 8, 17] {
                let sources: Vec<Vec<u8>> = (0..n).map(|_| rng.bytes(len)).collect();
                let refs: Vec<&[u8]> = sources.iter().map(|s| s.as_slice()).collect();

                let mut want_x = vec![0u8; len];
                rusty_erasure::raid::xor_gen(&refs, &mut want_x).expect("core xor");
                let mut got_x = vec![0xAAu8; len];
                pair.xor_gen(&refs, &mut got_x);
                assert_eq!(want_x, got_x, "raid xor n={n} len={len}");

                let mut want_p = vec![0u8; len];
                let mut want_q = vec![0u8; len];
                rusty_erasure::raid::pq_gen(&refs, &mut want_p, &mut want_q).expect("core pq");
                let mut got_p = vec![0xAAu8; len];
                let mut got_q = vec![0x55u8; len];
                pair.pq_gen(&refs, &mut got_p, &mut got_q);
                assert_eq!(want_p, got_p, "raid p n={n} len={len}");
                assert_eq!(want_q, got_q, "raid q n={n} len={len}");
            }
        }
    }
}
