//! Conformance gates for the GF(2^8) field ISA-L uses (polynomial 0x11d,
//! generator 2), against reference tables built here, independently of the
//! library: a bit-serial carry-less multiply reduced by the polynomial, an
//! inverse found by exhaustive search, and powers of the generator.
//!
//! Every one of the 65,536 products and 256 inverses must match exactly.

use rusty_erasure::{gf, matrix::Matrix, tables};

/// Bit-serial product reduced by x^8 + x^4 + x^3 + x^2 + 1.
fn isal_mul(a: u8, b: u8) -> u8 {
    let mut acc: u16 = 0;
    for i in 0..8 {
        if (b >> i) & 1 == 1 {
            acc ^= (a as u16) << i;
        }
    }
    for bit in (8..16).rev() {
        if (acc >> bit) & 1 == 1 {
            acc ^= 0x11d << (bit - 8);
        }
    }
    acc as u8
}

/// The reference inverse: the `b` with `a * b == 1`, and 0 for 0.
fn ref_inv(a: u8) -> u8 {
    (0..=255u8).find(|&b| isal_mul(a, b) == 1).unwrap_or(0)
}

/// Powers of the generator: entry `i` is `2^i`.
fn ref_exp() -> Vec<u8> {
    let mut t = Vec::with_capacity(256);
    let mut x: u8 = 1;
    for _ in 0..256 {
        t.push(x);
        x = isal_mul(x, 2);
    }
    t
}

/// Discrete logarithms base 2 (entry 0 unused).
fn ref_log() -> Vec<u8> {
    let exp = ref_exp();
    let mut t = vec![0u8; 256];
    for i in 0..255 {
        t[exp[i] as usize] = i as u8;
    }
    t
}

#[test]
fn mul_matches_isal_for_all_65536_pairs() {
    for a in 0..=255u8 {
        for b in 0..=255u8 {
            assert_eq!(gf::mul(a, b), isal_mul(a, b), "mul({a}, {b})");
        }
    }
}

#[test]
fn mul_shift_matches_isal_for_all_65536_pairs() {
    // The table-free construction must agree with the reference independently
    // of the const tables — two derivations, one truth.
    for a in 0..=255u8 {
        for b in 0..=255u8 {
            assert_eq!(gf::mul_shift(a, b), isal_mul(a, b), "mul_shift({a}, {b})");
        }
    }
}

#[test]
fn inv_matches_isal_for_all_256_values() {
    // Includes ISA-L's documented quirk: inv(0) == 0.
    for a in 0..=255u8 {
        assert_eq!(gf::inv(a), ref_inv(a), "inv({a})");
    }
}

#[test]
fn generator_powers_match_isal_exp_table() {
    let gff = ref_exp();
    let mut x: u8 = 1;
    for i in 0..255 {
        assert_eq!(x, gff[i], "2^{i}");
        x = gf::mul(x, 2);
    }
    assert_eq!(x, 1, "generator order must be 255");
}

#[test]
fn isal_log_table_is_inverse_of_exp_table() {
    let gff = ref_exp();
    let glog = ref_log();
    for a in 1..=255u8 {
        assert_eq!(gff[glog[a as usize] as usize], a, "exp(log({a}))");
    }
}

#[test]
fn rs_matrix_matches_reference_construction() {
    // Independent transcription of gf_gen_rs_matrix, multiplied through the
    // reference multiply (never our own gf), for safe-region configs.
    for &(k, p) in &[(2usize, 2usize), (3, 30), (4, 21), (5, 5), (10, 4), (21, 4), (200, 3)] {
        let m = k + p;
        let mut expect = vec![0u8; m * k];
        for i in 0..k {
            expect[k * i + i] = 1;
        }
        let mut row_gen: u8 = 1;
        for i in k..m {
            let mut coeff: u8 = 1;
            for j in 0..k {
                expect[k * i + j] = coeff;
                coeff = isal_mul(coeff, row_gen);
            }
            row_gen = isal_mul(row_gen, 2);
        }
        let ours = Matrix::reed_solomon(k, p).expect("safe-region config must generate");
        assert_eq!(ours.as_bytes(), &expect[..], "rs matrix k={k} p={p}");
    }
}

#[test]
fn cauchy_matrix_matches_reference_construction() {
    for &(k, p) in &[(2usize, 2usize), (10, 4), (17, 3), (32, 8), (247, 8)] {
        let m = k + p;
        let mut expect = vec![0u8; m * k];
        for i in 0..k {
            expect[k * i + i] = 1;
        }
        for i in k..m {
            for j in 0..k {
                expect[k * i + j] = ref_inv((i ^ j) as u8);
            }
        }
        let ours = Matrix::cauchy(k, p).expect("cauchy must generate");
        assert_eq!(ours.as_bytes(), &expect[..], "cauchy matrix k={k} p={p}");
    }
}

#[test]
fn expanded_tables_reproduce_every_product() {
    // The 32-byte nibble-table layout: tbl[j] = c*j, tbl[16+j] = c*(j<<4), and
    // table_mul recombines to c*x — checked for every (c, x) against the
    // reference multiply. This is the contract the table kernels rest on.
    let mut tbl = [0u8; tables::TABLE_BYTES];
    for c in 0..=255u8 {
        tables::mul_table32(c, &mut tbl);
        for j in 0..16u8 {
            assert_eq!(tbl[j as usize], isal_mul(c, j), "tbl low c={c} j={j}");
            assert_eq!(tbl[16 + j as usize], isal_mul(c, j << 4), "tbl high c={c} j={j}");
        }
        for x in 0..=255u8 {
            assert_eq!(tables::table_mul(&tbl, x), isal_mul(c, x), "table_mul c={c} x={x}");
        }
    }
}

#[test]
fn init_tables_expands_row_major_like_isal() {
    let m = Matrix::cauchy(4, 2).unwrap();
    let g = tables::init_tables(m.parity_bytes());
    assert_eq!(g.len(), 2 * 4 * tables::TABLE_BYTES);
    // ISA-L's ec_encode_data_base reads the coefficient back at
    // v[j*32 + l*srcs*32 + 1] — table byte 1 is the coefficient itself.
    for l in 0..2 {
        for j in 0..4 {
            assert_eq!(
                g[j * 32 + l * 4 * 32 + 1],
                m.get(4 + l, j).unwrap(),
                "coefficient position l={l} j={j}"
            );
        }
    }
}

#[test]
fn affine_matrices_match_isal_gfni_table() {
    // GF2P8AFFINEQB layout: output bit j of a byte is the parity of matrix
    // byte 7 - j AND the input, so qword byte 7 - j holds row j, whose bit i
    // is bit j of c * 2^i. Built here from the reference multiply.
    for c in 0..256usize {
        let mut want: u64 = 0;
        for j in 0..8 {
            let mut row: u8 = 0;
            for i in 0..8 {
                if (isal_mul(c as u8, 1 << i) >> j) & 1 == 1 {
                    row |= 1 << i;
                }
            }
            want |= (row as u64) << (8 * (7 - j));
        }
        assert_eq!(tables::build_affine(c as u8), want, "affine matrix for c={c}");
    }
}

#[test]
fn vandermonde_safe_region_is_enforced() {
    // Inside the documented region: accepted.
    for &(k, p) in &[(1usize, 200usize), (3, 100), (4, 21), (5, 5), (21, 4), (10, 4), (200, 3), (252, 3)] {
        assert!(Matrix::reed_solomon(k, p).is_ok(), "k={k} p={p} should be safe");
    }
    // Outside it: refused with the typed error.
    for &(k, p) in &[(4usize, 22usize), (5, 6), (6, 5), (22, 4), (10, 5), (100, 8)] {
        assert!(
            matches!(
                Matrix::reed_solomon(k, p),
                Err(rusty_erasure::MatrixError::VandermondeUnsafe { .. })
            ),
            "k={k} p={p} should be refused"
        );
    }
}
