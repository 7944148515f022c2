//! The demo computations: status codes and the bench checksum.

use rusty_erasure::accel::{Arch, CpuFeatures};
use rusty_erasure::demo::{demo_bench, demo_roundtrip, fill};
use rusty_erasure::{gf, Matrix};

fn machines() -> Vec<CpuFeatures> {
    vec![
        CpuFeatures::none(),
        CpuFeatures { arch: Arch::X86_64, ssse3: true, avx2: true, gfni: true, simd128: false },
        CpuFeatures { arch: Arch::Aarch64, ssse3: false, avx2: false, gfni: false, simd128: false },
    ]
}

/// The demo's generator, written out independently.
fn stripe(k: usize, len: usize) -> Vec<Vec<u8>> {
    let mut state: u64 = ((k as u64) << 32) | len as u64;
    let mut next = move || {
        state = state.wrapping_add(0x9E37_79B9_7F4A_7C15);
        let mut z = state;
        z = (z ^ (z >> 30)).wrapping_mul(0xBF58_476D_1CE4_E5B9);
        z = (z ^ (z >> 27)).wrapping_mul(0x94D0_49BB_1331_11EB);
        z ^ (z >> 31)
    };
    (0..k).map(|_| (0..len).map(|_| next() as u8).collect()).collect()
}

#[test]
fn demo_roundtrip_status_codes() {
    for cpu in machines() {
        assert_eq!(demo_roundtrip(10, 4, 1024, 0, &cpu), 0);
        assert_eq!(demo_roundtrip(10, 4, 1024, 4, &cpu), 0);
        assert_eq!(demo_roundtrip(3, 2, 1, 2, &cpu), 0);
        assert_eq!(demo_roundtrip(20, 8, 300, 5, &cpu), 0);
        assert_eq!(demo_roundtrip(4, 2, 0, 2, &cpu), 0);
        assert_eq!(demo_roundtrip(10, 4, 64, 5, &cpu), -3);
        assert_eq!(demo_roundtrip(0, 4, 64, 1, &cpu), -1);
        assert_eq!(demo_roundtrip(200, 56, 64, 1, &cpu), -1);
    }
}

#[test]
fn demo_bench_checksum_is_the_xor_of_all_parity() {
    let (k, p, len) = (6usize, 3usize, 97usize);
    let data = stripe(k, len);
    let m = Matrix::cauchy(k, p).expect("6+3");
    let mut want = 0u8;
    for l in 0..p {
        for i in 0..len {
            let mut b = 0u8;
            for j in 0..k {
                b ^= gf::mul(m.get(k + l, j).expect("in range"), data[j][i]);
            }
            want ^= b;
        }
    }
    for cpu in machines() {
        assert_eq!(demo_bench(k, p, len, 3, &cpu), want as i32);
        assert_eq!(demo_bench(k, p, len, 0, &cpu), 0);
        assert_eq!(demo_bench(0, p, len, 3, &cpu), -1);
    }
}

#[test]
fn fill_is_the_splitmix_stream() {
    let mut buf = [0u8; 40];
    fill(&mut buf, 0x1234);
    let mut state: u64 = 0x1234;
    for b in buf {
        state = state.wrapping_add(0x9E37_79B9_7F4A_7C15);
        let mut z = state;
        z = (z ^ (z >> 30)).wrapping_mul(0xBF58_476D_1CE4_E5B9);
        z = (z ^ (z >> 27)).wrapping_mul(0x94D0_49BB_1331_11EB);
        assert_eq!(b, (z ^ (z >> 31)) as u8);
    }
    let mut empty: [u8; 0] = [];
    fill(&mut empty, 7);
    // The demo stripe is the same stream, cut into shards.
    let mut flat = vec![0u8; 3 * 5];
    fill(&mut flat, (3u64 << 32) | 5);
    assert_eq!(&flat[..5], stripe(3, 5)[0].as_slice());
    assert_eq!(&flat[10..], stripe(3, 5)[2].as_slice());
}
