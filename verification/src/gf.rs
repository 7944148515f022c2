//! GF(2^8) arithmetic over the field ISA-L uses: the polynomial
//! x^8 + x^4 + x^3 + x^2 + 1 (0x11d), generator 2.
//!
//! The field is modelled by [`field_mul`], the carry-less product of two
//! bytes reduced by the polynomial. Two independent executable constructions
//! are proved equal to it:
//!
//! - [`mul`]/[`inv`] — log/exp table lookups. The tables are written out as
//!   literal lookup tables and proved, by the bit-vector solver, to be the
//!   powers of the generator and their logarithms.
//! - [`mul_shift`] — table-free shift-and-XOR multiply.

use vstd::prelude::*;

verus! {

/// The reduction byte of the field polynomial: overflow of a doubling is
/// folded back with `^ 0x1d` (the low 8 bits of 0x11d).
pub const POLY_REDUCTION: u8 = 0x1d;

/// Multiplication by the generator 2: shift left, folding an overflowing
/// top bit back in with the reduction byte.
pub open spec fn xtime(x: u8) -> u8 {
    if x & 0x80u8 == 0 {
        (x << 1u8) as u8
    } else {
        ((x << 1u8) ^ 0x1du8) as u8
    }
}

/// `v` when bit `bit` of `b` is set, else 0.
pub open spec fn pick(b: u8, bit: u8, v: u8) -> u8 {
    if b & bit == 0 {
        0u8
    } else {
        v
    }
}

/// The field product: `a * b = XOR_i b_i * (a * 2^i)`, each `a * 2^i`
/// obtained by repeated doubling modulo the polynomial.
pub open spec fn field_mul(a: u8, b: u8) -> u8 {
    let a1 = xtime(a);
    let a2 = xtime(a1);
    let a3 = xtime(a2);
    let a4 = xtime(a3);
    let a5 = xtime(a4);
    let a6 = xtime(a5);
    let a7 = xtime(a6);
    pick(b, 1, a) ^ pick(b, 2, a1) ^ pick(b, 4, a2) ^ pick(b, 8, a3) ^ pick(b, 16, a4) ^ pick(
        b,
        32,
        a5,
    ) ^ pick(b, 64, a6) ^ pick(b, 128, a7)
}

/// `2^n` in the field.
pub open spec fn field_pow2(n: nat) -> u8
    decreases n,
{
    if n == 0 {
        1u8
    } else {
        xtime(field_pow2((n - 1) as nat))
    }
}

/// `x^e` in the field.
pub open spec fn field_pow(x: u8, e: nat) -> u8
    decreases e,
{
    if e == 0 {
        1u8
    } else {
        field_mul(field_pow(x, (e - 1) as nat), x)
    }
}

/// The multiplicative inverse as ISA-L defines it: the `b` with
/// `a * b == 1`, and 0 for 0.
pub open spec fn field_inv(a: u8) -> u8 {
    if a == 0 {
        0u8
    } else {
        choose|b: u8| field_mul(a, b) == 1
    }
}

/// The exponent table: `2^i` for `i < 255`, and `2^255 == 1` at index 255.
pub open spec fn exp_table(i: u8) -> u8 {
    match i {
        0 => 1, 1 => 2, 2 => 4, 3 => 8, 4 => 16, 5 => 32, 6 => 64, 7 => 128,
        8 => 29, 9 => 58, 10 => 116, 11 => 232, 12 => 205, 13 => 135, 14 => 19, 15 => 38,
        16 => 76, 17 => 152, 18 => 45, 19 => 90, 20 => 180, 21 => 117, 22 => 234, 23 => 201,
        24 => 143, 25 => 3, 26 => 6, 27 => 12, 28 => 24, 29 => 48, 30 => 96, 31 => 192,
        32 => 157, 33 => 39, 34 => 78, 35 => 156, 36 => 37, 37 => 74, 38 => 148, 39 => 53,
        40 => 106, 41 => 212, 42 => 181, 43 => 119, 44 => 238, 45 => 193, 46 => 159, 47 => 35,
        48 => 70, 49 => 140, 50 => 5, 51 => 10, 52 => 20, 53 => 40, 54 => 80, 55 => 160,
        56 => 93, 57 => 186, 58 => 105, 59 => 210, 60 => 185, 61 => 111, 62 => 222, 63 => 161,
        64 => 95, 65 => 190, 66 => 97, 67 => 194, 68 => 153, 69 => 47, 70 => 94, 71 => 188,
        72 => 101, 73 => 202, 74 => 137, 75 => 15, 76 => 30, 77 => 60, 78 => 120, 79 => 240,
        80 => 253, 81 => 231, 82 => 211, 83 => 187, 84 => 107, 85 => 214, 86 => 177, 87 => 127,
        88 => 254, 89 => 225, 90 => 223, 91 => 163, 92 => 91, 93 => 182, 94 => 113, 95 => 226,
        96 => 217, 97 => 175, 98 => 67, 99 => 134, 100 => 17, 101 => 34, 102 => 68, 103 => 136,
        104 => 13, 105 => 26, 106 => 52, 107 => 104, 108 => 208, 109 => 189, 110 => 103, 111 => 206,
        112 => 129, 113 => 31, 114 => 62, 115 => 124, 116 => 248, 117 => 237, 118 => 199, 119 => 147,
        120 => 59, 121 => 118, 122 => 236, 123 => 197, 124 => 151, 125 => 51, 126 => 102, 127 => 204,
        128 => 133, 129 => 23, 130 => 46, 131 => 92, 132 => 184, 133 => 109, 134 => 218, 135 => 169,
        136 => 79, 137 => 158, 138 => 33, 139 => 66, 140 => 132, 141 => 21, 142 => 42, 143 => 84,
        144 => 168, 145 => 77, 146 => 154, 147 => 41, 148 => 82, 149 => 164, 150 => 85, 151 => 170,
        152 => 73, 153 => 146, 154 => 57, 155 => 114, 156 => 228, 157 => 213, 158 => 183, 159 => 115,
        160 => 230, 161 => 209, 162 => 191, 163 => 99, 164 => 198, 165 => 145, 166 => 63, 167 => 126,
        168 => 252, 169 => 229, 170 => 215, 171 => 179, 172 => 123, 173 => 246, 174 => 241, 175 => 255,
        176 => 227, 177 => 219, 178 => 171, 179 => 75, 180 => 150, 181 => 49, 182 => 98, 183 => 196,
        184 => 149, 185 => 55, 186 => 110, 187 => 220, 188 => 165, 189 => 87, 190 => 174, 191 => 65,
        192 => 130, 193 => 25, 194 => 50, 195 => 100, 196 => 200, 197 => 141, 198 => 7, 199 => 14,
        200 => 28, 201 => 56, 202 => 112, 203 => 224, 204 => 221, 205 => 167, 206 => 83, 207 => 166,
        208 => 81, 209 => 162, 210 => 89, 211 => 178, 212 => 121, 213 => 242, 214 => 249, 215 => 239,
        216 => 195, 217 => 155, 218 => 43, 219 => 86, 220 => 172, 221 => 69, 222 => 138, 223 => 9,
        224 => 18, 225 => 36, 226 => 72, 227 => 144, 228 => 61, 229 => 122, 230 => 244, 231 => 245,
        232 => 247, 233 => 243, 234 => 251, 235 => 235, 236 => 203, 237 => 139, 238 => 11, 239 => 22,
        240 => 44, 241 => 88, 242 => 176, 243 => 125, 244 => 250, 245 => 233, 246 => 207, 247 => 131,
        248 => 27, 249 => 54, 250 => 108, 251 => 216, 252 => 173, 253 => 71, 254 => 142,
        _ => 1,
    }
}

/// The logarithm table: `log(a)` with `2^log(a) == a` for `a != 0`
/// (0 at index 0, which has no logarithm).
pub open spec fn log_table(a: u8) -> u8 {
    match a {
        0 => 0, 1 => 0, 2 => 1, 3 => 25, 4 => 2, 5 => 50, 6 => 26, 7 => 198,
        8 => 3, 9 => 223, 10 => 51, 11 => 238, 12 => 27, 13 => 104, 14 => 199, 15 => 75,
        16 => 4, 17 => 100, 18 => 224, 19 => 14, 20 => 52, 21 => 141, 22 => 239, 23 => 129,
        24 => 28, 25 => 193, 26 => 105, 27 => 248, 28 => 200, 29 => 8, 30 => 76, 31 => 113,
        32 => 5, 33 => 138, 34 => 101, 35 => 47, 36 => 225, 37 => 36, 38 => 15, 39 => 33,
        40 => 53, 41 => 147, 42 => 142, 43 => 218, 44 => 240, 45 => 18, 46 => 130, 47 => 69,
        48 => 29, 49 => 181, 50 => 194, 51 => 125, 52 => 106, 53 => 39, 54 => 249, 55 => 185,
        56 => 201, 57 => 154, 58 => 9, 59 => 120, 60 => 77, 61 => 228, 62 => 114, 63 => 166,
        64 => 6, 65 => 191, 66 => 139, 67 => 98, 68 => 102, 69 => 221, 70 => 48, 71 => 253,
        72 => 226, 73 => 152, 74 => 37, 75 => 179, 76 => 16, 77 => 145, 78 => 34, 79 => 136,
        80 => 54, 81 => 208, 82 => 148, 83 => 206, 84 => 143, 85 => 150, 86 => 219, 87 => 189,
        88 => 241, 89 => 210, 90 => 19, 91 => 92, 92 => 131, 93 => 56, 94 => 70, 95 => 64,
        96 => 30, 97 => 66, 98 => 182, 99 => 163, 100 => 195, 101 => 72, 102 => 126, 103 => 110,
        104 => 107, 105 => 58, 106 => 40, 107 => 84, 108 => 250, 109 => 133, 110 => 186, 111 => 61,
        112 => 202, 113 => 94, 114 => 155, 115 => 159, 116 => 10, 117 => 21, 118 => 121, 119 => 43,
        120 => 78, 121 => 212, 122 => 229, 123 => 172, 124 => 115, 125 => 243, 126 => 167, 127 => 87,
        128 => 7, 129 => 112, 130 => 192, 131 => 247, 132 => 140, 133 => 128, 134 => 99, 135 => 13,
        136 => 103, 137 => 74, 138 => 222, 139 => 237, 140 => 49, 141 => 197, 142 => 254, 143 => 24,
        144 => 227, 145 => 165, 146 => 153, 147 => 119, 148 => 38, 149 => 184, 150 => 180, 151 => 124,
        152 => 17, 153 => 68, 154 => 146, 155 => 217, 156 => 35, 157 => 32, 158 => 137, 159 => 46,
        160 => 55, 161 => 63, 162 => 209, 163 => 91, 164 => 149, 165 => 188, 166 => 207, 167 => 205,
        168 => 144, 169 => 135, 170 => 151, 171 => 178, 172 => 220, 173 => 252, 174 => 190, 175 => 97,
        176 => 242, 177 => 86, 178 => 211, 179 => 171, 180 => 20, 181 => 42, 182 => 93, 183 => 158,
        184 => 132, 185 => 60, 186 => 57, 187 => 83, 188 => 71, 189 => 109, 190 => 65, 191 => 162,
        192 => 31, 193 => 45, 194 => 67, 195 => 216, 196 => 183, 197 => 123, 198 => 164, 199 => 118,
        200 => 196, 201 => 23, 202 => 73, 203 => 236, 204 => 127, 205 => 12, 206 => 111, 207 => 246,
        208 => 108, 209 => 161, 210 => 59, 211 => 82, 212 => 41, 213 => 157, 214 => 85, 215 => 170,
        216 => 251, 217 => 96, 218 => 134, 219 => 177, 220 => 187, 221 => 204, 222 => 62, 223 => 90,
        224 => 203, 225 => 89, 226 => 95, 227 => 176, 228 => 156, 229 => 169, 230 => 160, 231 => 81,
        232 => 11, 233 => 245, 234 => 22, 235 => 235, 236 => 122, 237 => 117, 238 => 44, 239 => 215,
        240 => 79, 241 => 174, 242 => 213, 243 => 233, 244 => 230, 245 => 231, 246 => 173, 247 => 232,
        248 => 116, 249 => 214, 250 => 244, 251 => 234, 252 => 168, 253 => 80, 254 => 88, 255 => 175,
    }
}

fn exp_lookup(i: u8) -> (r: u8)
    ensures
        r == exp_table(i),
{
    match i {
        0 => 1, 1 => 2, 2 => 4, 3 => 8, 4 => 16, 5 => 32, 6 => 64, 7 => 128,
        8 => 29, 9 => 58, 10 => 116, 11 => 232, 12 => 205, 13 => 135, 14 => 19, 15 => 38,
        16 => 76, 17 => 152, 18 => 45, 19 => 90, 20 => 180, 21 => 117, 22 => 234, 23 => 201,
        24 => 143, 25 => 3, 26 => 6, 27 => 12, 28 => 24, 29 => 48, 30 => 96, 31 => 192,
        32 => 157, 33 => 39, 34 => 78, 35 => 156, 36 => 37, 37 => 74, 38 => 148, 39 => 53,
        40 => 106, 41 => 212, 42 => 181, 43 => 119, 44 => 238, 45 => 193, 46 => 159, 47 => 35,
        48 => 70, 49 => 140, 50 => 5, 51 => 10, 52 => 20, 53 => 40, 54 => 80, 55 => 160,
        56 => 93, 57 => 186, 58 => 105, 59 => 210, 60 => 185, 61 => 111, 62 => 222, 63 => 161,
        64 => 95, 65 => 190, 66 => 97, 67 => 194, 68 => 153, 69 => 47, 70 => 94, 71 => 188,
        72 => 101, 73 => 202, 74 => 137, 75 => 15, 76 => 30, 77 => 60, 78 => 120, 79 => 240,
        80 => 253, 81 => 231, 82 => 211, 83 => 187, 84 => 107, 85 => 214, 86 => 177, 87 => 127,
        88 => 254, 89 => 225, 90 => 223, 91 => 163, 92 => 91, 93 => 182, 94 => 113, 95 => 226,
        96 => 217, 97 => 175, 98 => 67, 99 => 134, 100 => 17, 101 => 34, 102 => 68, 103 => 136,
        104 => 13, 105 => 26, 106 => 52, 107 => 104, 108 => 208, 109 => 189, 110 => 103, 111 => 206,
        112 => 129, 113 => 31, 114 => 62, 115 => 124, 116 => 248, 117 => 237, 118 => 199, 119 => 147,
        120 => 59, 121 => 118, 122 => 236, 123 => 197, 124 => 151, 125 => 51, 126 => 102, 127 => 204,
        128 => 133, 129 => 23, 130 => 46, 131 => 92, 132 => 184, 133 => 109, 134 => 218, 135 => 169,
        136 => 79, 137 => 158, 138 => 33, 139 => 66, 140 => 132, 141 => 21, 142 => 42, 143 => 84,
        144 => 168, 145 => 77, 146 => 154, 147 => 41, 148 => 82, 149 => 164, 150 => 85, 151 => 170,
        152 => 73, 153 => 146, 154 => 57, 155 => 114, 156 => 228, 157 => 213, 158 => 183, 159 => 115,
        160 => 230, 161 => 209, 162 => 191, 163 => 99, 164 => 198, 165 => 145, 166 => 63, 167 => 126,
        168 => 252, 169 => 229, 170 => 215, 171 => 179, 172 => 123, 173 => 246, 174 => 241, 175 => 255,
        176 => 227, 177 => 219, 178 => 171, 179 => 75, 180 => 150, 181 => 49, 182 => 98, 183 => 196,
        184 => 149, 185 => 55, 186 => 110, 187 => 220, 188 => 165, 189 => 87, 190 => 174, 191 => 65,
        192 => 130, 193 => 25, 194 => 50, 195 => 100, 196 => 200, 197 => 141, 198 => 7, 199 => 14,
        200 => 28, 201 => 56, 202 => 112, 203 => 224, 204 => 221, 205 => 167, 206 => 83, 207 => 166,
        208 => 81, 209 => 162, 210 => 89, 211 => 178, 212 => 121, 213 => 242, 214 => 249, 215 => 239,
        216 => 195, 217 => 155, 218 => 43, 219 => 86, 220 => 172, 221 => 69, 222 => 138, 223 => 9,
        224 => 18, 225 => 36, 226 => 72, 227 => 144, 228 => 61, 229 => 122, 230 => 244, 231 => 245,
        232 => 247, 233 => 243, 234 => 251, 235 => 235, 236 => 203, 237 => 139, 238 => 11, 239 => 22,
        240 => 44, 241 => 88, 242 => 176, 243 => 125, 244 => 250, 245 => 233, 246 => 207, 247 => 131,
        248 => 27, 249 => 54, 250 => 108, 251 => 216, 252 => 173, 253 => 71, 254 => 142,
        _ => 1,
    }
}

fn log_lookup(a: u8) -> (r: u8)
    ensures
        r == log_table(a),
{
    match a {
        0 => 0, 1 => 0, 2 => 1, 3 => 25, 4 => 2, 5 => 50, 6 => 26, 7 => 198,
        8 => 3, 9 => 223, 10 => 51, 11 => 238, 12 => 27, 13 => 104, 14 => 199, 15 => 75,
        16 => 4, 17 => 100, 18 => 224, 19 => 14, 20 => 52, 21 => 141, 22 => 239, 23 => 129,
        24 => 28, 25 => 193, 26 => 105, 27 => 248, 28 => 200, 29 => 8, 30 => 76, 31 => 113,
        32 => 5, 33 => 138, 34 => 101, 35 => 47, 36 => 225, 37 => 36, 38 => 15, 39 => 33,
        40 => 53, 41 => 147, 42 => 142, 43 => 218, 44 => 240, 45 => 18, 46 => 130, 47 => 69,
        48 => 29, 49 => 181, 50 => 194, 51 => 125, 52 => 106, 53 => 39, 54 => 249, 55 => 185,
        56 => 201, 57 => 154, 58 => 9, 59 => 120, 60 => 77, 61 => 228, 62 => 114, 63 => 166,
        64 => 6, 65 => 191, 66 => 139, 67 => 98, 68 => 102, 69 => 221, 70 => 48, 71 => 253,
        72 => 226, 73 => 152, 74 => 37, 75 => 179, 76 => 16, 77 => 145, 78 => 34, 79 => 136,
        80 => 54, 81 => 208, 82 => 148, 83 => 206, 84 => 143, 85 => 150, 86 => 219, 87 => 189,
        88 => 241, 89 => 210, 90 => 19, 91 => 92, 92 => 131, 93 => 56, 94 => 70, 95 => 64,
        96 => 30, 97 => 66, 98 => 182, 99 => 163, 100 => 195, 101 => 72, 102 => 126, 103 => 110,
        104 => 107, 105 => 58, 106 => 40, 107 => 84, 108 => 250, 109 => 133, 110 => 186, 111 => 61,
        112 => 202, 113 => 94, 114 => 155, 115 => 159, 116 => 10, 117 => 21, 118 => 121, 119 => 43,
        120 => 78, 121 => 212, 122 => 229, 123 => 172, 124 => 115, 125 => 243, 126 => 167, 127 => 87,
        128 => 7, 129 => 112, 130 => 192, 131 => 247, 132 => 140, 133 => 128, 134 => 99, 135 => 13,
        136 => 103, 137 => 74, 138 => 222, 139 => 237, 140 => 49, 141 => 197, 142 => 254, 143 => 24,
        144 => 227, 145 => 165, 146 => 153, 147 => 119, 148 => 38, 149 => 184, 150 => 180, 151 => 124,
        152 => 17, 153 => 68, 154 => 146, 155 => 217, 156 => 35, 157 => 32, 158 => 137, 159 => 46,
        160 => 55, 161 => 63, 162 => 209, 163 => 91, 164 => 149, 165 => 188, 166 => 207, 167 => 205,
        168 => 144, 169 => 135, 170 => 151, 171 => 178, 172 => 220, 173 => 252, 174 => 190, 175 => 97,
        176 => 242, 177 => 86, 178 => 211, 179 => 171, 180 => 20, 181 => 42, 182 => 93, 183 => 158,
        184 => 132, 185 => 60, 186 => 57, 187 => 83, 188 => 71, 189 => 109, 190 => 65, 191 => 162,
        192 => 31, 193 => 45, 194 => 67, 195 => 216, 196 => 183, 197 => 123, 198 => 164, 199 => 118,
        200 => 196, 201 => 23, 202 => 73, 203 => 236, 204 => 127, 205 => 12, 206 => 111, 207 => 246,
        208 => 108, 209 => 161, 210 => 59, 211 => 82, 212 => 41, 213 => 157, 214 => 85, 215 => 170,
        216 => 251, 217 => 96, 218 => 134, 219 => 177, 220 => 187, 221 => 204, 222 => 62, 223 => 90,
        224 => 203, 225 => 89, 226 => 95, 227 => 176, 228 => 156, 229 => 169, 230 => 160, 231 => 81,
        232 => 11, 233 => 245, 234 => 22, 235 => 235, 236 => 122, 237 => 117, 238 => 44, 239 => 215,
        240 => 79, 241 => 174, 242 => 213, 243 => 233, 244 => 230, 245 => 231, 246 => 173, 247 => 232,
        248 => 116, 249 => 214, 250 => 244, 251 => 234, 252 => 168, 253 => 80, 254 => 88, 255 => 175,
    }
}

// ---------------------------------------------------------------------------
// Algebra of the model.
// ---------------------------------------------------------------------------

/// Multiplication is commutative.
#[verifier::rlimit(100)]
pub proof fn lemma_mul_commutative()
    by (bit_vector)
    ensures
        forall|a: u8, b: u8| #[trigger] field_mul(a, b) == field_mul(b, a),
{
}

/// Multiplication distributes over addition (XOR) in its right argument.
#[verifier::rlimit(100)]
pub proof fn lemma_mul_distributes_right()
    by (bit_vector)
    ensures
        forall|a: u8, b: u8, c: u8| #[trigger]
            field_mul(a, b ^ c) == field_mul(a, b) ^ field_mul(a, c),
{
}

/// Doubling either factor doubles the product.
#[verifier::rlimit(100)]
pub proof fn lemma_mul_xtime_left()
    by (bit_vector)
    ensures
        forall|a: u8, b: u8| #[trigger] field_mul(xtime(a), b) == xtime(field_mul(a, b)),
{
}

/// 1 is the identity, 0 annihilates, and 2 is doubling.
#[verifier::rlimit(100)]
pub proof fn lemma_mul_units()
    by (bit_vector)
    ensures
        forall|a: u8| #[trigger] field_mul(a, 1) == a,
        forall|a: u8| #[trigger] field_mul(1, a) == a,
        forall|a: u8| #[trigger] field_mul(a, 0) == 0,
        forall|a: u8| #[trigger] field_mul(0, a) == 0,
        forall|a: u8| #[trigger] field_mul(a, 2) == xtime(a),
{
}

#[verifier::rlimit(100)]
proof fn lemma_exp_table_steps()
    by (bit_vector)
    ensures
        exp_table(0) == 1,
        forall|i: u8| i < 255 ==> #[trigger] exp_table((i + 1) as u8) == xtime(exp_table(i)),
{
}

proof fn lemma_log_table_range()
    by (bit_vector)
    ensures
        forall|a: u8| a != 0 ==> #[trigger] log_table(a) < 255,
{
}

#[verifier::rlimit(100)]
proof fn lemma_log_table_inverts()
    by (bit_vector)
    ensures
        forall|a: u8| a != 0 ==> exp_table(#[trigger] log_table(a)) == a,
{
}


/// Multiplication distributes over addition in its left argument.
pub proof fn lemma_mul_distributes_left(a: u8, b: u8, c: u8)
    ensures
        field_mul(a ^ b, c) == field_mul(a, c) ^ field_mul(b, c),
{
    lemma_mul_commutative();
    lemma_mul_distributes_right();
    assert(field_mul(a ^ b, c) == field_mul(c, a ^ b));
    assert(field_mul(c, a ^ b) == field_mul(c, a) ^ field_mul(c, b));
}

/// Multiplying a picked term picks the product.
proof fn lemma_mul_pick(b: u8, bit: u8, v: u8, c: u8)
    ensures
        field_mul(pick(b, bit, v), c) == pick(b, bit, field_mul(v, c)),
{
    lemma_mul_units();
}

/// `(a * b) * c == (a * c) * b`: multiplying by `c` commutes with every
/// step of the shift-and-add expansion of `a * b`.
proof fn lemma_mul_swap_outer(a: u8, b: u8, c: u8)
    ensures
        field_mul(field_mul(a, b), c) == field_mul(field_mul(a, c), b),
{
    lemma_mul_xtime_left();
    let a1 = xtime(a);
    let a2 = xtime(a1);
    let a3 = xtime(a2);
    let a4 = xtime(a3);
    let a5 = xtime(a4);
    let a6 = xtime(a5);
    let a7 = xtime(a6);
    let p0 = pick(b, 1, a);
    let p1 = pick(b, 2, a1);
    let p2 = pick(b, 4, a2);
    let p3 = pick(b, 8, a3);
    let p4 = pick(b, 16, a4);
    let p5 = pick(b, 32, a5);
    let p6 = pick(b, 64, a6);
    let p7 = pick(b, 128, a7);
    let s1 = p0 ^ p1;
    let s2 = s1 ^ p2;
    let s3 = s2 ^ p3;
    let s4 = s3 ^ p4;
    let s5 = s4 ^ p5;
    let s6 = s5 ^ p6;
    let s7 = s6 ^ p7;
    assert(field_mul(a, b) == s7);
    lemma_mul_distributes_left(s6, p7, c);
    lemma_mul_distributes_left(s5, p6, c);
    lemma_mul_distributes_left(s4, p5, c);
    lemma_mul_distributes_left(s3, p4, c);
    lemma_mul_distributes_left(s2, p3, c);
    lemma_mul_distributes_left(s1, p2, c);
    lemma_mul_distributes_left(p0, p1, c);
    lemma_mul_pick(b, 1, a, c);
    lemma_mul_pick(b, 2, a1, c);
    lemma_mul_pick(b, 4, a2, c);
    lemma_mul_pick(b, 8, a3, c);
    lemma_mul_pick(b, 16, a4, c);
    lemma_mul_pick(b, 32, a5, c);
    lemma_mul_pick(b, 64, a6, c);
    lemma_mul_pick(b, 128, a7, c);
    let m = field_mul(a, c);
    assert(field_mul(a1, c) == xtime(m));
    assert(field_mul(a2, c) == xtime(xtime(m)));
    assert(field_mul(a3, c) == xtime(xtime(xtime(m))));
    assert(field_mul(a4, c) == xtime(xtime(xtime(xtime(m)))));
    assert(field_mul(a5, c) == xtime(xtime(xtime(xtime(xtime(m))))));
    assert(field_mul(a6, c) == xtime(xtime(xtime(xtime(xtime(xtime(m)))))));
    assert(field_mul(a7, c) == xtime(xtime(xtime(xtime(xtime(xtime(xtime(m))))))));
}

/// Multiplication is associative.
pub proof fn lemma_mul_associative(a: u8, b: u8, c: u8)
    ensures
        field_mul(field_mul(a, b), c) == field_mul(a, field_mul(b, c)),
{
    lemma_mul_commutative();
    lemma_mul_swap_outer(b, c, a);
    assert(field_mul(a, field_mul(b, c)) == field_mul(field_mul(b, c), a));
    assert(field_mul(field_mul(b, c), a) == field_mul(field_mul(b, a), c));
    assert(field_mul(b, a) == field_mul(a, b));
}

/// Doubling the right factor doubles the product.
pub proof fn lemma_mul_xtime_right(a: u8, b: u8)
    ensures
        field_mul(a, xtime(b)) == xtime(field_mul(a, b)),
{
    lemma_mul_commutative();
    lemma_mul_xtime_left();
    assert(field_mul(a, xtime(b)) == field_mul(xtime(b), a));
}

/// Powers of the generator add their exponents.
pub proof fn lemma_pow2_add(m: nat, n: nat)
    ensures
        field_pow2(m + n) == field_mul(field_pow2(m), field_pow2(n)),
    decreases n,
{
    lemma_mul_units();
    if n > 0 {
        lemma_pow2_add(m, (n - 1) as nat);
        lemma_mul_xtime_right(field_pow2(m), field_pow2((n - 1) as nat));
        assert(field_pow2(m + n) == xtime(field_pow2((m + n - 1) as nat)));
    }
}

/// The exponent table holds the generator's powers.
pub proof fn lemma_exp_table(i: u8)
    ensures
        exp_table(i) == field_pow2(i as nat),
    decreases i,
{
    lemma_exp_table_steps();
    if i > 0 {
        lemma_exp_table((i - 1) as u8);
        assert(exp_table(((i - 1) as u8 + 1) as u8) == xtime(exp_table((i - 1) as u8)));
    }
}

/// The generator has order 255: `2^255 == 1`.
pub proof fn lemma_pow2_255()
    ensures
        field_pow2(255) == 1,
{
    lemma_exp_table_steps();
    lemma_exp_table(254);
    assert(exp_table((254u8 + 1) as u8) == xtime(exp_table(254u8)));
    assert(exp_table(255u8) == 1) by (bit_vector);
}

/// Exponents of the generator may be reduced modulo 255.
pub proof fn lemma_pow2_mod(n: nat)
    requires
        n < 510,
    ensures
        field_pow2(n) == field_pow2((n % 255) as nat),
{
    if n >= 255 {
        lemma_pow2_255();
        lemma_pow2_add(255, (n - 255) as nat);
        lemma_mul_units();
    }
}

/// Every non-zero element is a power of the generator, its table logarithm.
pub proof fn lemma_log_table(a: u8)
    requires
        a != 0,
    ensures
        log_table(a) < 255,
        field_pow2(log_table(a) as nat) == a,
{
    lemma_log_table_range();
    lemma_log_table_inverts();
    lemma_exp_table(log_table(a));
}

proof fn lemma_xtime_nonzero()
    by (bit_vector)
    ensures
        forall|x: u8| x != 0 ==> #[trigger] xtime(x) != 0,
{
}

proof fn lemma_one_plus_two_powers()
    by (bit_vector)
    ensures
        forall|u: u8, v: u8| 0 < u && u < v && v < 21 ==> #[trigger] (1u8 ^ exp_table(u) ^ exp_table(v)) != 0u8,
{
}

/// Three distinct powers `2^a, 2^(a+u), 2^(a+v)` with `0 < u < v < 21` do
/// not sum to zero.
pub proof fn lemma_three_powers(a: nat, u: nat, v: nat)
    requires
        0 < u < v < 21,
    ensures
        field_pow2(a) ^ field_pow2(a + u) ^ field_pow2(a + v) != 0,
{
    lemma_one_plus_two_powers();
    lemma_exp_table(u as u8);
    lemma_exp_table(v as u8);
    let s = 1u8 ^ field_pow2(u) ^ field_pow2(v);
    assert(s != 0);
    lemma_pow2_add(a, u);
    lemma_pow2_add(a, v);
    lemma_mul_units();
    lemma_mul_distributes_right();
    let pa = field_pow2(a);
    assert(field_mul(pa, s) == field_mul(pa, 1u8 ^ field_pow2(u)) ^ field_mul(pa, field_pow2(v)));
    assert(field_mul(pa, 1u8 ^ field_pow2(u)) == field_mul(pa, 1u8) ^ field_mul(pa, field_pow2(u)));
    lemma_pow2_nonzero(a);
    if field_mul(pa, s) == 0 {
        lemma_mul_commutative();
        lemma_inverse_inverts(pa);
        lemma_mul_associative(field_inv(pa), pa, s);
        assert(false);
    }
}

/// No power of the generator is zero.
pub proof fn lemma_pow2_nonzero(n: nat)
    ensures
        field_pow2(n) != 0,
    decreases n,
{
    if n > 0 {
        lemma_pow2_nonzero((n - 1) as nat);
        lemma_xtime_nonzero();
    }
}

/// The powers `2^0, .., 2^254` are distinct.
pub proof fn lemma_pow2_injective(u: nat, v: nat)
    requires
        u < 255,
        v < 255,
        field_pow2(u) == field_pow2(v),
    ensures
        u == v,
{
    lemma_exp_table(u as u8);
    lemma_exp_table(v as u8);
    lemma_log_of_exp();
    assert(log_table(exp_table(u as u8)) == u as u8);
    assert(log_table(exp_table(v as u8)) == v as u8);
}


/// 0 is the XOR identity, every element its own XOR inverse, XOR commutes,
/// and a XOR is 0 exactly when its operands are equal.
pub proof fn lemma_xor_units()
    by (bit_vector)
    ensures
        forall|x: u8| #[trigger] (x ^ 0u8) == x,
        forall|x: u8| #[trigger] (0u8 ^ x) == x,
        forall|x: u8| #[trigger] (x ^ x) == 0u8,
        forall|x: u8, y: u8| #[trigger] (x ^ y) == (y ^ x),
        forall|x: u8, y: u8| ((#[trigger] (x ^ y)) == 0u8) <==> x == y,
{
}

/// XOR is an abelian group with 0 as identity in which every element is
/// its own inverse.
pub proof fn lemma_xor_laws()
    by (bit_vector)
    ensures
        forall|x: u8| #[trigger] (x ^ 0u8) == x,
        forall|x: u8| #[trigger] (0u8 ^ x) == x,
        forall|x: u8| #[trigger] (x ^ x) == 0u8,
        forall|x: u8, y: u8| #[trigger] (x ^ y) == y ^ x,
        forall|x: u8, y: u8, z: u8| #[trigger] ((x ^ y) ^ z) == x ^ (y ^ z),
{
}

/// One step of the shift-and-add expansion of the product.
proof fn lemma_mul_step()
    by (bit_vector)
    ensures
        forall|a: u8, b: u8| #[trigger]
            field_mul(a, b) == pick(b, 1, a) ^ field_mul(xtime(a), b >> 1u8),
        forall|b: u8| b != 0 ==> #[trigger] (b >> 1u8) < b,
{
}

#[verifier::rlimit(100)]
proof fn lemma_log_of_exp()
    by (bit_vector)
    ensures
        forall|i: u8| i < 255 ==> log_table(#[trigger] exp_table(i)) == i,
{
}

/// Inverses are unique: `a * b == 1` pins `b` down.
pub proof fn lemma_inverse_unique(a: u8, b: u8, c: u8)
    requires
        field_mul(a, b) == 1,
        field_mul(a, c) == 1,
    ensures
        b == c,
{
    lemma_mul_units();
    lemma_mul_commutative();
    lemma_mul_associative(b, a, c);
    assert(field_mul(field_mul(b, a), c) == field_mul(b, field_mul(a, c)));
}

/// Every non-zero element has an inverse, and [`field_inv`] is it.
pub proof fn lemma_inverse_inverts(a: u8)
    requires
        a != 0,
    ensures
        field_mul(a, field_inv(a)) == 1,
        field_mul(field_inv(a), a) == 1,
{
    lemma_log_table(a);
    let la = log_table(a) as nat;
    lemma_pow2_add(la, (255 - la) as nat);
    lemma_pow2_255();
    let w = field_pow2((255 - la) as nat);
    assert(field_mul(a, w) == 1);
    lemma_mul_commutative();
}

/// Double a field element (multiply by the generator, 2).
fn double(x: u8) -> (r: u8)
    ensures
        r == xtime(x),
{
    let r = (x << 1u8) ^ (if x & 0x80 != 0 { POLY_REDUCTION } else { 0 });
    assert(r == xtime(x)) by (bit_vector)
        requires
            r == (x << 1u8) ^ (if x & 0x80u8 != 0 { 0x1du8 } else { 0u8 }),
    ;
    r
}

/// Exponent table, doubled to 510 entries so `log(a) + log(b)` (max 508)
/// indexes directly: entry `i` is `2^(i mod 255)`.
pub fn build_exp() -> (exp: [u8; 510])
    ensures
        forall|i: int| 0 <= i < 510 ==> #[trigger] exp@[i] == field_pow2((i % 255) as nat),
{
    let mut exp = [0u8; 510];
    let mut x: u8 = 1;
    let mut i: usize = 0;
    while i < 255
        invariant
            0 <= i <= 255,
            x == field_pow2(i as nat),
            forall|j: int| 0 <= j < i ==> #[trigger] exp@[j] == field_pow2(j as nat),
            forall|j: int| 255 <= j < 255 + i ==> #[trigger] exp@[j] == field_pow2((j - 255) as nat),
        decreases 255 - i,
    {
        exp[i] = x;
        exp[i + 255] = x;
        x = double(x);
        i += 1;
    }
    assert forall|i: int| 0 <= i < 510 implies #[trigger] exp@[i] == field_pow2((i % 255) as nat) by {
        if i >= 255 {
            assert(i % 255 == i - 255);
        }
    }
    exp
}

/// Logarithm table for an exponent table built by [`build_exp`]: entry `a`
/// is `log(a)` for `a != 0`, and 0 for 0.
pub fn build_log(exp: &[u8; 510]) -> (log: [u8; 256])
    requires
        forall|i: int| 0 <= i < 510 ==> #[trigger] exp@[i] == field_pow2((i % 255) as nat),
    ensures
        forall|a: int| 0 <= a < 256 ==> #[trigger] log@[a] == log_table(a as u8),
{
    let mut log = [0u8; 256];
    let mut i: usize = 0;
    proof {
        lemma_exp_table_steps();
        lemma_log_of_exp();
        assert(log_table(0) == 0);
    }
    while i < 255
        invariant
            0 <= i <= 255,
            forall|j: int| 0 <= j < 510 ==> #[trigger] exp@[j] == field_pow2((j % 255) as nat),
            forall|j: int| 0 <= j < i ==> #[trigger] log@[exp_table(j as u8) as int] == j,
            log@[0] == 0,
            exp_table(0) == 1,
            log_table(0) == 0,
            forall|j: u8| j < 255 ==> log_table(#[trigger] exp_table(j)) == j,
        decreases 255 - i,
    {
        proof {
            lemma_exp_table(i as u8);
            assert(i % 255 == i);
        }
        let e = exp[i];
        assert(e == exp_table(i as u8));
        assert(e != 0) by {
            if e == 0 {
                assert(log_table(exp_table(i as u8)) == i);
            }
        }
        log[e as usize] = i as u8;
        assert forall|j: int| 0 <= j < i + 1 implies #[trigger] log@[exp_table(j as u8) as int] == j by {
            if j < i {
                assert(log_table(exp_table(j as u8)) == j);
                assert(log_table(exp_table(i as u8)) == i);
            }
        }
        i += 1;
    }
    assert forall|a: int| 0 <= a < 256 implies #[trigger] log@[a] == log_table(a as u8) by {
        if a == 0 {
        } else {
            lemma_log_table(a as u8);
            lemma_exp_table(log_table(a as u8));
            let la = log_table(a as u8) as int;
            assert(exp_table(la as u8) == a);
        }
    }
    log
}

/// Multiply two field elements. Byte-identical to ISA-L's `gf_mul` for every
/// input pair.
pub fn mul(a: u8, b: u8) -> (r: u8)
    ensures
        r == field_mul(a, b),
{
    proof {
        lemma_mul_units();
    }
    if a == 0 || b == 0 {
        return 0;
    }
    let la = log_lookup(a);
    let lb = log_lookup(b);
    proof {
        lemma_log_table(a);
        lemma_log_table(b);
    }
    let s: u16 = la as u16 + lb as u16;
    let i: u16 = if s >= 255 { s - 255 } else { s };
    let r = exp_lookup(i as u8);
    proof {
        lemma_exp_table(i as u8);
        lemma_pow2_mod(s as nat);
        lemma_pow2_add(la as nat, lb as nat);
    }
    r
}

/// Multiplicative inverse of a field element.
///
/// Faithful to ISA-L's `gf_inv`: `inv(0)` returns 0 rather than being an
/// error — zero has no inverse.
pub fn inv(a: u8) -> (r: u8)
    ensures
        r == field_inv(a),
        a != 0 ==> field_mul(a, r) == 1,
{
    if a == 0 {
        return 0;
    }
    let la = log_lookup(a);
    proof {
        lemma_log_table(a);
    }
    let r = exp_lookup(255 - la);
    proof {
        lemma_exp_table((255 - la) as u8);
        lemma_pow2_add(la as nat, (255 - la) as nat);
        lemma_pow2_255();
        lemma_inverse_inverts(a);
        lemma_inverse_unique(a, r, field_inv(a));
    }
    r
}

/// Table-free multiply: carry-less shift-and-XOR reduced by the polynomial.
pub fn mul_shift(a: u8, b: u8) -> (r: u8)
    ensures
        r == field_mul(a, b),
{
    let ghost a0 = a;
    let ghost b0 = b;
    let mut a = a;
    let mut b = b;
    let mut r: u8 = 0;
    proof {
        lemma_xor_laws();
        lemma_mul_step();
        lemma_mul_units();
    }
    while b != 0
        invariant
            r ^ field_mul(a, b) == field_mul(a0, b0),
        decreases b,
    {
        proof {
            lemma_xor_laws();
            lemma_mul_step();
        }
        let ghost (r1, a1, b1) = (r, a, b);
        let t: u8 = if b & 1 != 0 { a } else { 0 };
        assert(t == pick(b, 1, a));
        r ^= t;
        a = double(a);
        b >>= 1;
        assert(field_mul(a1, b1) == t ^ field_mul(a, b));
        assert((r1 ^ t) ^ field_mul(a, b) == r1 ^ (t ^ field_mul(a, b)));
    }
    r
}

} // verus!
