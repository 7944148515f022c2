//! Each law of the library on concrete values, and each error on an input
//! that produces it.

use rusty_erasure::accel::x86::{kernels_at, Level};
use rusty_erasure::accel::{Arch, CpuFeatures};
use rusty_erasure::compat::reed_solomon_erasure_matrix;
use rusty_erasure::kernel::{vect_dot_prod, vect_mad, vect_mul, Kernels, TableFormat};
use rusty_erasure::raid::{pq_check, pq_gen, PqMismatch, PqParity};
use rusty_erasure::tables::{build_affine, coeff_from_affine, init_tables, init_tables_gfni, mul_table32};
use rusty_erasure::{gf, kernels_named, best_kernels, coder, CodeError, Coder, Matrix, MatrixError};

fn x86_full() -> CpuFeatures {
    CpuFeatures { arch: Arch::X86_64, ssse3: true, avx2: true, gfni: true, simd128: false }
}

#[test]
fn affine_encoding_gives_back_every_coefficient() {
    for c in 0..=255u8 {
        assert_eq!(coeff_from_affine(build_affine(c)), c);
    }
    assert_eq!(build_affine(0), 0);
    assert_eq!(build_affine(1), 0x0102_0408_1020_4080);
}

#[test]
fn nibble_and_affine_tables_give_the_same_products() {
    let coeffs = [0u8, 1, 2, 0x1d, 0x80, 0xff];
    let nib = init_tables(&coeffs);
    let aff = init_tables_gfni(&coeffs);
    assert_eq!(nib.len(), 32 * coeffs.len());
    assert_eq!(aff.len(), 8 * coeffs.len());
    let data: Vec<Vec<u8>> = (0..coeffs.len()).map(|j| (0..64).map(|i| (i * 7 + j * 13) as u8).collect()).collect();
    let refs: Vec<&[u8]> = data.iter().map(|d| d.as_slice()).collect();
    let scalar = Kernels::scalar();
    let gfni = kernels_at(Level::Gfni, &x86_full()).expect("gfni offered");
    assert_eq!(gfni.format(), TableFormat::Affine);
    let mut a = vec![vec![0u8; 64]; 1];
    let mut b = vec![vec![0u8; 64]; 1];
    {
        let mut ar: Vec<&mut [u8]> = a.iter_mut().map(|x| x.as_mut_slice()).collect();
        scalar.encode(&nib, &refs, &mut ar);
        let mut br: Vec<&mut [u8]> = b.iter_mut().map(|x| x.as_mut_slice()).collect();
        gfni.encode(&aff, &refs, &mut br);
    }
    assert_eq!(a, b);
    for i in 0..64 {
        let want = (0..coeffs.len()).fold(0u8, |acc, j| acc ^ gf::mul(coeffs[j], data[j][i]));
        assert_eq!(a[0][i], want);
    }
}

#[test]
fn kernel_sets_are_found_by_name() {
    let none = CpuFeatures::none();
    assert_eq!(kernels_named("scalar", &none).map(|k| k.name()), Some("scalar"));
    assert_eq!(kernels_named("auto", &none).map(|k| k.name()), Some("scalar"));
    assert!(kernels_named("avx2", &none).is_none());
    assert!(kernels_named("neon", &none).is_none());
    assert!(kernels_named("bogus", &none).is_none());
    assert!(kernels_named("", &none).is_none());

    let x86 = x86_full();
    assert!(kernels_named("ssse3", &x86).is_some());
    assert!(kernels_named("avx2", &x86).is_some());
    assert_eq!(kernels_named("gfni", &x86).map(|k| k.format()), Some(TableFormat::Affine));
    assert!(kernels_named("neon", &x86).is_none());
    assert_eq!(best_kernels(&x86).format(), TableFormat::Affine);

    let arm = CpuFeatures { arch: Arch::Aarch64, ssse3: false, avx2: false, gfni: false, simd128: false };
    assert!(kernels_named("neon", &arm).is_some());
    assert!(kernels_named("ssse3", &arm).is_none());
    let wasm = CpuFeatures { arch: Arch::Wasm32, ssse3: false, avx2: false, gfni: false, simd128: true };
    assert!(kernels_named("simd128", &wasm).is_some());
    assert_eq!(best_kernels(&wasm).format(), TableFormat::Nibble);
}

#[test]
fn reed_solomon_erasure_matrix_values_and_errors() {
    // V(3, 2) = [[1,0],[1,1],[1,2]], V_top^-1 = [[1,0],[1,1]]: the parity row
    // is [1^2, 2] = [3, 2].
    let m = reed_solomon_erasure_matrix(2, 1).expect("2+1 is valid");
    assert_eq!(m.as_bytes(), &[1, 0, 0, 1, 3, 2]);
    let m = reed_solomon_erasure_matrix(10, 4).expect("10+4 is valid");
    assert_eq!((m.rows(), m.cols()), (14, 10));
    for r in 0..10 {
        for c in 0..10 {
            assert_eq!(m.get(r, c), Some(if r == c { 1 } else { 0 }));
        }
    }
    assert_eq!(reed_solomon_erasure_matrix(0, 3).unwrap_err(), MatrixError::Dimensions { k: 0, p: 3 });
    assert_eq!(reed_solomon_erasure_matrix(3, 0).unwrap_err(), MatrixError::Dimensions { k: 3, p: 0 });
    assert_eq!(reed_solomon_erasure_matrix(200, 57).unwrap_err(), MatrixError::Dimensions { k: 200, p: 57 });
    // k + p == 256: every field element is a node.
    let m = reed_solomon_erasure_matrix(2, 254).expect("2+254 is valid");
    assert_eq!((m.rows(), m.cols()), (256, 2));
    for r in 0..2 {
        for c in 0..2 {
            assert_eq!(m.get(r, c), Some(if r == c { 1 } else { 0 }));
        }
    }
    assert_eq!(
        reed_solomon_erasure_matrix(usize::MAX, 2).unwrap_err(),
        MatrixError::Dimensions { k: usize::MAX, p: 2 }
    );
}

#[test]
fn vector_primitives_compute_and_report_lengths() {
    let mut tbl = [0u8; 32];
    mul_table32(0x1d, &mut tbl);
    let src = [0u8, 1, 2, 0x80, 0xff];
    let mut dest = [0u8; 5];
    vect_mul(&mut dest, &tbl, &src).expect("same lengths");
    for i in 0..5 {
        assert_eq!(dest[i], gf::mul(0x1d, src[i]));
    }
    let before = dest;
    vect_mad(&mut dest, &tbl, &src).expect("same lengths");
    assert_eq!(dest, [0u8; 5], "adding a product twice cancels");
    assert_eq!(before[1], 0x1d);

    let mut short = [9u8; 4];
    assert_eq!(
        vect_mul(&mut short, &tbl, &src).unwrap_err(),
        CodeError::ShardLength { index: 0, expected: 4, got: 5 }
    );
    assert_eq!(short, [9u8; 4], "an error leaves the destination alone");
    assert_eq!(
        vect_mad(&mut short, &tbl, &src).unwrap_err(),
        CodeError::ShardLength { index: 0, expected: 4, got: 5 }
    );

    let tables = init_tables(&[2u8, 3]);
    let a = [1u8, 2, 3];
    let b = [4u8, 5, 6];
    let mut out = [0u8; 3];
    vect_dot_prod(&mut out, &tables, &[&a, &b]).expect("valid");
    for i in 0..3 {
        assert_eq!(out[i], gf::mul(2, a[i]) ^ gf::mul(3, b[i]));
    }
    assert_eq!(
        vect_dot_prod(&mut out, &tables[..32], &[&a, &b]).unwrap_err(),
        CodeError::ShardCount { expected: 2, got: 1 }
    );
    let c = [1u8, 2];
    assert_eq!(
        vect_dot_prod(&mut out, &tables, &[&a, &c]).unwrap_err(),
        CodeError::ShardLength { index: 1, expected: 3, got: 2 }
    );
}

#[test]
fn pq_check_names_the_first_offset_and_p_before_q() {
    let s0 = [1u8, 2, 3, 4, 5, 6, 7, 8, 9, 10];
    let s1 = [11u8, 12, 13, 14, 15, 16, 17, 18, 19, 20];
    let sources: [&[u8]; 2] = [&s0, &s1];
    let mut p = [0u8; 10];
    let mut q = [0u8; 10];
    pq_gen(&sources, &mut p, &mut q).expect("valid");
    for i in 0..10 {
        assert_eq!(p[i], s0[i] ^ s1[i]);
        assert_eq!(q[i], s0[i] ^ gf::mul(2, s1[i]));
    }
    assert_eq!(pq_check(&sources, &p, &q), Ok(None));
    let mut bad_p = p;
    let mut bad_q = q;
    bad_p[6] ^= 1;
    bad_q[6] ^= 1;
    bad_q[3] ^= 1;
    assert_eq!(
        pq_check(&sources, &bad_p, &bad_q),
        Ok(Some(PqMismatch { index: 3, parity: PqParity::Q }))
    );
    bad_q[3] ^= 1;
    assert_eq!(
        pq_check(&sources, &bad_p, &bad_q),
        Ok(Some(PqMismatch { index: 6, parity: PqParity::P }))
    );
}

#[test]
fn recovery_gives_back_the_lost_shards_on_a_small_stripe() {
    let m = Matrix::cauchy(3, 2).expect("3+2");
    let c = coder(m, &x86_full()).expect("has parity");
    let data = [[1u8, 2, 3, 4], [5, 6, 7, 8], [9, 10, 11, 12]];
    let refs: Vec<&[u8]> = data.iter().map(|d| d.as_slice()).collect();
    let mut parity = vec![vec![0u8; 4]; 2];
    {
        let mut pr: Vec<&mut [u8]> = parity.iter_mut().map(|b| b.as_mut_slice()).collect();
        c.encode(&refs, &mut pr).expect("encode");
    }
    let shards: Vec<Option<&[u8]>> =
        vec![None, Some(&data[1]), None, Some(parity[0].as_slice()), Some(parity[1].as_slice())];
    let mut out = vec![vec![0u8; 4]; 2];
    {
        let mut or: Vec<&mut [u8]> = out.iter_mut().map(|b| b.as_mut_slice()).collect();
        c.recover(&shards, &[0, 2], &mut or).expect("two losses recover");
    }
    assert_eq!(out[0], data[0]);
    assert_eq!(out[1], data[2]);

    // The scalar coder writes the same parity.
    let s = Coder::new(Matrix::cauchy(3, 2).expect("3+2")).expect("has parity");
    let mut want = vec![vec![0u8; 4]; 2];
    {
        let mut wr: Vec<&mut [u8]> = want.iter_mut().map(|b| b.as_mut_slice()).collect();
        s.encode(&refs, &mut wr).expect("encode");
    }
    assert_eq!(want, parity);
}

#[test]
fn quick_start_four_plus_two_survives_two_losses() {
    let c = coder(Matrix::cauchy(4, 2).expect("4+2"), &CpuFeatures::none()).expect("has parity");
    let data: [&[u8]; 4] = [b"shard-one...", b"shard-two...", b"shard-three.", b"shard-four.."];
    let len = data[0].len();
    let mut parity = vec![vec![0u8; len]; 2];
    {
        let mut out: Vec<&mut [u8]> = parity.iter_mut().map(|b| b.as_mut_slice()).collect();
        c.encode(&data, &mut out).expect("encode");
    }
    let shards = [None, Some(data[1]), Some(data[2]), Some(data[3]), None, Some(parity[1].as_slice())];
    let mut rebuilt = vec![vec![0u8; len]; 2];
    {
        let mut out: Vec<&mut [u8]> = rebuilt.iter_mut().map(|b| b.as_mut_slice()).collect();
        c.recover(&shards, &[0, 4], &mut out).expect("two losses");
    }
    assert_eq!(rebuilt[0], data[0]);
    assert_eq!(rebuilt[1], parity[0]);
}

#[test]
fn every_four_rows_of_a_four_plus_three_cauchy_matrix_invert() {
    let m = Matrix::cauchy(4, 3).expect("4+3");
    let mut count = 0;
    for a in 0..7usize {
        for b in a + 1..7 {
            for c in b + 1..7 {
                for d in c + 1..7 {
                    let sel = m.select_rows(&[a, b, c, d]).expect("in range");
                    let inv = sel.invert().expect("any 4 rows invert");
                    assert!(sel.multiply(&inv).expect("square").is_identity());
                    count += 1;
                }
            }
        }
    }
    assert_eq!(count, 35);
}

#[test]
fn every_k_rows_of_small_reed_solomon_matrices_invert() {
    // Three sources, many parity rows: every 3 of the 43 rows.
    let m = Matrix::reed_solomon(3, 40).expect("3+40");
    let mut count = 0;
    for a in 0..43usize {
        for b in a + 1..43 {
            for c in b + 1..43 {
                let sel = m.select_rows(&[a, b, c]).expect("in range");
                let inv = sel.invert().expect("any 3 rows invert");
                assert!(sel.multiply(&inv).expect("square").is_identity());
                count += 1;
            }
        }
    }
    assert_eq!(count, 12341);
    // Many sources, three parity rows: every 12 of the 15 rows.
    let m = Matrix::reed_solomon(12, 3).expect("12+3");
    let mut count = 0;
    for a in 0..15usize {
        for b in a + 1..15 {
            for c in b + 1..15 {
                let rows: Vec<usize> = (0..15).filter(|&r| r != a && r != b && r != c).collect();
                let sel = m.select_rows(&rows).expect("in range");
                let inv = sel.invert().expect("any 12 rows invert");
                assert!(sel.multiply(&inv).expect("square").is_identity());
                count += 1;
            }
        }
    }
    assert_eq!(count, 455);
    // Four parity rows: every 12 of the 16 rows of a 12 + 4 matrix; every 4
    // of the 25 rows of a 4 + 21 matrix; every 5 of the 10 rows of 5 + 5.
    for &(k, p) in &[(12usize, 4usize), (4, 21), (5, 5)] {
        let n = k + p;
        let m = Matrix::reed_solomon(k, p).expect("safe shape");
        let mut count = 0;
        // Every increasing choice of k rows, in lexicographic order.
        let mut rows: Vec<usize> = (0..k).collect();
        loop {
            let sel = m.select_rows(&rows).expect("in range");
            let inv = sel.invert().expect("any k rows invert");
            assert!(sel.multiply(&inv).expect("square").is_identity());
            count += 1;
            let mut t = k;
            while t > 0 && rows[t - 1] == n - k + t - 1 {
                t -= 1;
            }
            if t == 0 {
                break;
            }
            rows[t - 1] += 1;
            for u in t..k {
                rows[u] = rows[u - 1] + 1;
            }
        }
        assert_eq!(count, if k == 12 { 1820 } else if k == 4 { 12650 } else { 252 });
    }
}

#[test]
fn parity_bytes_of_a_wide_matrix_is_empty() {
    let m = Matrix::from_bytes(1, 2, vec![5, 6]).expect("1x2");
    assert_eq!(m.parity_bytes(), &[] as &[u8]);
    let m = Matrix::from_bytes(3, 2, vec![1, 0, 0, 1, 7, 9]).expect("3x2");
    assert_eq!(m.parity_bytes(), &[7, 9]);
}

#[test]
fn affine_matrices_applied_bitwise_multiply() {
    for c in 0..=255u8 {
        let m = build_affine(c);
        for x in 0..=255u8 {
            assert_eq!(rusty_erasure::tables::affine_apply_byte(m, x), gf::mul(c, x));
        }
    }
    // A matrix that is not a multiply-by-c matrix: the identity with row 0
    // cleared drops bit 0 of every byte.
    let m = build_affine(1) & !0xFF00_0000_0000_0000;
    assert_eq!(rusty_erasure::tables::affine_apply_byte(m, 0xff), 0xfe);
}

#[test]
fn out_of_range_rebuild_index_reports_the_source_count() {
    let c = Coder::new(Matrix::cauchy(4, 2).expect("4+2")).expect("has parity");
    let z = [0u8; 64];
    let full: Vec<Option<&[u8]>> = vec![Some(&z[..]); 6];
    let mut out = vec![vec![0xAAu8; 64]; 1];
    {
        let mut or: Vec<&mut [u8]> = out.iter_mut().map(|b| b.as_mut_slice()).collect();
        assert_eq!(
            c.recover(&full, &[6], &mut or),
            Err(rusty_erasure::RecoverError::Code(CodeError::ShardIndex { index: 6, k: 4 }))
        );
        assert_eq!(
            c.recover(&full[..5], &[0], &mut or),
            Err(rusty_erasure::RecoverError::Code(CodeError::ShardCount { expected: 6, got: 5 }))
        );
    }
    assert_eq!(out, vec![vec![0xAAu8; 64]; 1]);
    let present = [true; 6];
    assert!(matches!(
        c.decode_plan(&present, &[9]),
        Err(rusty_erasure::RecoverError::Code(CodeError::ShardIndex { index: 9, k: 4 }))
    ));
}

#[test]
fn reed_solomon_erasure_matrix_exists_for_every_valid_shape() {
    for k in [1usize, 2, 3, 10, 64, 127, 200, 254] {
        for p in [1usize, 2, 255 - k, 256 - k] {
            if p >= 1 && k + p <= 256 {
                let m = reed_solomon_erasure_matrix(k, p).expect("valid shape");
                assert_eq!((m.rows(), m.cols()), (k + p, k));
            }
        }
    }
}
