//! GF(2^8) Reed-Solomon erasure coding and RAID-6 parity, byte-compatible
//! with Intel ISA-L's `erasure_code` and `raid` modules.
//!
//! The typed API is [`Matrix`] (coding matrices) and [`Coder`] (encode,
//! incremental update, verify, recovery); [`raid`] holds XOR and P+Q
//! parity; [`isal`] is a layer named and shaped like ISA-L's C API. Every
//! entry point validates its inputs and returns a typed error instead of
//! panicking. Kernel sets are chosen once, from a description of the
//! machine ([`accel::CpuFeatures`]), by [`best_kernels`] / [`coder`].
//! [`fuzz`] holds the fuzz harness bodies and [`demo`] the browser demo's
//! computations, both verified like the rest.

pub mod accel;
pub mod algebra;
pub mod cert;
pub mod compat;
pub mod decode;
pub mod demo;
pub mod encode;
pub mod error;
pub mod fuzz;
pub mod gauss;
pub mod gf;
pub mod isal;
pub mod kernel;
pub mod matrix;
pub mod mds;
pub mod raid;
pub mod rs_five;
pub mod rs_mds;
pub mod tables;

pub use encode::{Coder, DecodePlan};
pub use error::{CodeError, MatrixError, RecoverError};
pub use matrix::Matrix;

use vstd::prelude::*;

use accel::{set_is, CpuFeatures};
use vstd::string::StringSliceAdditionalSpecFns;
use kernel::{Kernels, TableFormat};

verus! {

/// The kernel set [`best_kernels`] picks for `cpu`: the architecture's SIMD
/// set when the machine supports one, the scalar set otherwise.
pub open spec fn best_is(k: Kernels, cpu: CpuFeatures) -> bool {
    if (cpu.arch == accel::Arch::X86_64 && (cpu.ssse3 || cpu.avx2)) || cpu.arch == accel::Arch::Aarch64 || (
    cpu.arch == accel::Arch::Wasm32 && cpu.simd128) {
        (cpu.arch == accel::Arch::X86_64 ==> set_is(
            k,
            accel::x86::level_format(accel::x86::best_level(cpu)),
            accel::x86::level_name(accel::x86::best_level(cpu)),
        )) && (cpu.arch == accel::Arch::Aarch64 ==> set_is(k, TableFormat::Nibble, accel::aarch64::neon_name()))
            && (cpu.arch == accel::Arch::Wasm32 ==> set_is(k, TableFormat::Nibble, accel::wasm::simd128_name()))
    } else {
        k.format_of() == TableFormat::Nibble && k.name_of() == "scalar"@
    }
}

/// The best kernel set for the machine `cpu` describes: its SIMD set when it
/// has one, the scalar set otherwise. Resolve once and hold the result (or
/// build a [`Coder`] with [`coder`]) rather than re-asking in a loop.
pub fn best_kernels(cpu: &CpuFeatures) -> (r: Kernels)
    ensures
        best_is(r, *cpu),
        cpu.arch == accel::Arch::X86_64 && cpu.gfni && cpu.avx2 ==> set_is(r, TableFormat::Affine, "x86_64/avx2_gfni"@),
        cpu.arch == accel::Arch::X86_64 && cpu.avx2 && !cpu.gfni ==> set_is(r, TableFormat::Nibble, "x86_64/avx2"@),
        cpu.arch == accel::Arch::X86_64 && !cpu.avx2 && cpu.ssse3 ==> set_is(r, TableFormat::Nibble, "x86_64/ssse3"@),
        cpu.arch == accel::Arch::X86_64 && !cpu.avx2 && !cpu.ssse3 ==> set_is(r, TableFormat::Nibble, "scalar"@),
{
    match accel::kernels(cpu) {
        Some(k) => k,
        None => Kernels::scalar(),
    }
}

/// Build a [`Coder`] driving the best kernel set for `cpu`. This is the
/// constructor applications want; [`Coder::new`] is the always-scalar
/// variant.
pub fn coder(matrix: Matrix, cpu: &CpuFeatures) -> (r: Result<Coder, MatrixError>)
    ensures
        r is Ok <==> matrix.nrows() > matrix.ncols(),
        r is Err ==> r == Err::<Coder, MatrixError>(MatrixError::Dimensions { k: matrix.ncols() as usize, p: 0 }),
        r matches Ok(c) ==> c.matrix_of() == matrix && best_is(c.kernels_of(), *cpu),
{
    Coder::with_kernels(matrix, best_kernels(cpu))
}

/// `name` is spelled with exactly the bytes `want`.
pub(crate) fn is_named(name: &str, want: &[u8]) -> (r: bool)
    ensures
        r == (name.spec_bytes() == want@),
{
    let b = name.as_bytes();
    if b.len() != want.len() {
        return false;
    }
    let mut i: usize = 0;
    while i < b.len()
        invariant
            b@ == name.spec_bytes(),
            b@.len() == want@.len(),
            0 <= i <= b@.len(),
            forall|t: int| 0 <= t < i ==> b@[t] == want@[t],
        decreases b@.len() - i,
    {
        if b[i] != want[i] {
            return false;
        }
        i += 1;
    }
    assert(b@ =~= want@);
    true
}

/// The bytes of the kernel-set names [`kernels_named`] knows.
pub open spec fn name_bytes(word: int) -> Seq<u8> {
    if word == 0 {
        seq![97u8, 117, 116, 111]
    } else if word == 1 {
        seq![115u8, 99, 97, 108, 97, 114]
    } else if word == 2 {
        seq![115u8, 115, 115, 101, 51]
    } else if word == 3 {
        seq![97u8, 118, 120, 50]
    } else if word == 4 {
        seq![103u8, 102, 110, 105]
    } else if word == 5 {
        seq![110u8, 101, 111, 110]
    } else {
        seq![115u8, 105, 109, 100, 49, 50, 56]
    }
}

/// Look up a kernel set by name — `"auto"`, `"scalar"`, `"ssse3"`,
/// `"avx2"`, `"gfni"`, `"neon"`, `"simd128"`. `None` when the name is
/// unknown or the machine lacks the feature.
pub fn kernels_named(name: &str, cpu: &CpuFeatures) -> (r: Option<Kernels>)
    ensures
        name.spec_bytes() == name_bytes(0) ==> (r matches Some(k) && best_is(k, *cpu)),
        name.spec_bytes() == name_bytes(1) ==> (r matches Some(k) && k.format_of() == TableFormat::Nibble
            && k.name_of() == "scalar"@),
        name.spec_bytes() == name_bytes(2) ==> (r is Some <==> accel::x86::level_available(
            accel::x86::Level::Ssse3,
            *cpu,
        )) && (r matches Some(k) ==> set_is(
            k,
            accel::x86::level_format(accel::x86::Level::Ssse3),
            accel::x86::level_name(accel::x86::Level::Ssse3),
        )),
        name.spec_bytes() == name_bytes(3) ==> (r is Some <==> accel::x86::level_available(
            accel::x86::Level::Avx2,
            *cpu,
        )) && (r matches Some(k) ==> set_is(
            k,
            accel::x86::level_format(accel::x86::Level::Avx2),
            accel::x86::level_name(accel::x86::Level::Avx2),
        )),
        name.spec_bytes() == name_bytes(4) ==> (r is Some <==> accel::x86::level_available(
            accel::x86::Level::Gfni,
            *cpu,
        )) && (r matches Some(k) ==> set_is(
            k,
            accel::x86::level_format(accel::x86::Level::Gfni),
            accel::x86::level_name(accel::x86::Level::Gfni),
        )),
        name.spec_bytes() == name_bytes(5) ==> (r is Some <==> cpu.arch == accel::Arch::Aarch64) && (r matches Some(
            k,
        ) ==> set_is(k, TableFormat::Nibble, accel::aarch64::neon_name())),
        name.spec_bytes() == name_bytes(6) ==> (r is Some <==> cpu.arch == accel::Arch::Wasm32 && cpu.simd128) && (
        r matches Some(k) ==> set_is(k, TableFormat::Nibble, accel::wasm::simd128_name())),
        (forall|w: int| 0 <= w < 7 ==> name.spec_bytes() != #[trigger] name_bytes(w)) ==> r is None,
{
    let auto: [u8; 4] = [97, 117, 116, 111];
    let scalar: [u8; 6] = [115, 99, 97, 108, 97, 114];
    let ssse3: [u8; 5] = [115, 115, 115, 101, 51];
    let avx2: [u8; 4] = [97, 118, 120, 50];
    let gfni: [u8; 4] = [103, 102, 110, 105];
    let neon: [u8; 4] = [110, 101, 111, 110];
    let simd128: [u8; 7] = [115, 105, 109, 100, 49, 50, 56];
    assert(auto@ =~= name_bytes(0));
    assert(scalar@ =~= name_bytes(1));
    assert(ssse3@ =~= name_bytes(2));
    assert(avx2@ =~= name_bytes(3));
    assert(gfni@ =~= name_bytes(4));
    assert(neon@ =~= name_bytes(5));
    assert(simd128@ =~= name_bytes(6));
    if is_named(name, &auto) {
        Some(best_kernels(cpu))
    } else if is_named(name, &scalar) {
        Some(Kernels::scalar())
    } else if is_named(name, &ssse3) {
        accel::x86::kernels_at(accel::x86::Level::Ssse3, cpu)
    } else if is_named(name, &avx2) {
        accel::x86::kernels_at(accel::x86::Level::Avx2, cpu)
    } else if is_named(name, &gfni) {
        accel::x86::kernels_at(accel::x86::Level::Gfni, cpu)
    } else if is_named(name, &neon) {
        accel::aarch64::kernels(cpu)
    } else if is_named(name, &simd128) {
        accel::wasm::kernels(cpu)
    } else {
        None
    }
}

} // verus!
