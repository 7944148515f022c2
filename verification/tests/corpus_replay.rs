//! The harness bodies, replayed on fixed inputs under every machine
//! description: the bodies must be total, whatever the bytes.

use rusty_erasure::accel::{Arch, CpuFeatures};
use rusty_erasure::fuzz::{roundtrip, run_case};

/// One description per dispatch path the library knows.
fn machines() -> Vec<CpuFeatures> {
    vec![
        CpuFeatures::none(),
        CpuFeatures { arch: Arch::X86_64, ssse3: true, avx2: false, gfni: false, simd128: false },
        CpuFeatures { arch: Arch::X86_64, ssse3: true, avx2: true, gfni: false, simd128: false },
        CpuFeatures { arch: Arch::X86_64, ssse3: true, avx2: true, gfni: true, simd128: false },
        CpuFeatures { arch: Arch::Aarch64, ssse3: false, avx2: false, gfni: false, simd128: false },
        CpuFeatures { arch: Arch::Wasm32, ssse3: false, avx2: false, gfni: false, simd128: true },
    ]
}

/// Past crashers stay fixed: the loss-selection walk that once spun forever
/// on some seeds is a bounded shuffle now, so every seed returns.
#[test]
fn past_findings_replay_without_hanging() {
    for cpu in machines() {
        for seed in 0u8..=255 {
            let input = [7u8, 3, 8, seed, 0, 1, 2, 3, 4, 5, 6, 7, 8, 9, 10, 11];
            roundtrip(&input, &cpu);
        }
    }
}

/// The harness bodies are total: short and degenerate inputs never panic
/// them.
#[test]
fn short_and_degenerate_inputs_never_panic() {
    let targets = ["matrix_gen", "matrix_invert", "roundtrip", "compat", "raid", "kernels"];
    for cpu in machines() {
        for target in targets {
            for len in 0usize..40 {
                for pattern in [0u8, 1, 0x7f, 0x80, 0xff] {
                    let input = vec![pattern; len];
                    run_case(target, &input, &cpu);
                }
                let input: Vec<u8> = (0..len).map(|i| i as u8).collect();
                run_case(target, &input, &cpu);
            }
        }
    }
}

/// A seeded sweep over lengths up to 300 bytes, with the generator the
/// harness itself uses for its choices.
#[test]
fn seeded_random_sweep_never_panics() {
    let mut state: u64 = 0x5EED_1234_ABCD_0001;
    let mut next = move || {
        state = state.wrapping_add(0x9E37_79B9_7F4A_7C15);
        let mut z = state;
        z = (z ^ (z >> 30)).wrapping_mul(0xBF58_476D_1CE4_E5B9);
        z = (z ^ (z >> 27)).wrapping_mul(0x94D0_49BB_1331_11EB);
        z ^ (z >> 31)
    };
    let targets = ["roundtrip", "compat", "raid", "kernels", "matrix_gen", "matrix_invert"];
    let cpu = CpuFeatures { arch: Arch::X86_64, ssse3: true, avx2: true, gfni: true, simd128: false };
    for target in targets {
        for _ in 0..2000 {
            let len = (next() % 300) as usize;
            let input: Vec<u8> = (0..len).map(|_| next() as u8).collect();
            run_case(target, &input, &cpu);
        }
    }
}

/// A roundtrip big enough to lose every parity shard's worth of data.
#[test]
fn roundtrip_full_shapes() {
    let cpu = CpuFeatures { arch: Arch::X86_64, ssse3: true, avx2: true, gfni: true, simd128: false };
    for k in [0u8, 5, 15] {
        for p in [0u8, 3, 7] {
            for seed in [0u8, 17, 200] {
                let mut input = vec![k, p, 64, seed];
                input.extend((0..(16 * 64)).map(|i| (i * 31 + 7) as u8));
                roundtrip(&input, &cpu);
            }
        }
    }
}
