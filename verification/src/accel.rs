//! Kernel-set dispatch: which kernel set applies on the running machine.
//!
//! The machine is described by plain values ([`CpuFeatures`]): the target
//! architecture and the instruction-set extensions detected at run time.
//! Detecting them is the caller's job; choosing a kernel set from them is
//! done here, once, at the surface — never inside a loop. Every set computes
//! the same products as [`Kernels::scalar`]; they differ in the table format
//! they consume and the name they report.
//!
//! Per-architecture sets: [`x86`] (SSSE3/AVX2 nibble, AVX2-GFNI affine),
//! [`aarch64`] (NEON, baseline there), [`wasm`] (SIMD128).

use vstd::prelude::*;

use crate::kernel::{all_len, Kernels, TableFormat};
use crate::raid::{q_byte, xor_byte};

pub mod aarch64;
pub mod wasm;
pub mod x86;

verus! {

/// The target architecture.
#[derive(Debug, Clone, Copy, PartialEq, Eq, Structural)]
pub enum Arch {
    /// x86-64.
    X86_64,
    /// AArch64 (NEON is baseline).
    Aarch64,
    /// wasm32.
    Wasm32,
    /// Any other target: only the scalar sets apply.
    Other,
}

/// What the running machine offers.
#[derive(Debug, Clone, Copy, PartialEq, Eq, Structural)]
pub struct CpuFeatures {
    /// The target architecture.
    pub arch: Arch,
    /// x86 SSSE3 (`pshufb`).
    pub ssse3: bool,
    /// x86 AVX2.
    pub avx2: bool,
    /// x86 GFNI (`gf2p8affineqb`).
    pub gfni: bool,
    /// wasm SIMD128, enabled at build time.
    pub simd128: bool,
}

impl CpuFeatures {
    /// A machine with no SIMD extension at all: every dispatch falls back to
    /// the scalar sets.
    pub fn none() -> (r: CpuFeatures)
        ensures
            r.arch == Arch::Other,
            !r.ssse3 && !r.avx2 && !r.gfni && !r.simd128,
    {
        CpuFeatures { arch: Arch::Other, ssse3: false, avx2: false, gfni: false, simd128: false }
    }
}

/// A RAID kernel pair (`xor_gen`, `pq_gen`). Every pair computes exactly
/// what [`crate::raid`] computes; the pair carries the name of the
/// architecture path it stands for.
#[derive(Debug, Clone, Copy)]
pub struct RaidKernels {
    name: &'static str,
}

impl RaidKernels {
    /// The name this pair reports.
    pub closed spec fn name_of(self) -> Seq<char> {
        self.name@
    }

    pub(crate) fn named(name: &'static str) -> (r: RaidKernels)
        ensures
            r.name_of() == name@,
    {
        RaidKernels { name }
    }

    /// The name this pair reports.
    pub fn name(&self) -> (r: &'static str)
        ensures
            r@ == self.name_of(),
    {
        self.name
    }

    /// XOR parity of at least two equal-length sources into `parity`.
    pub fn xor_gen(&self, sources: &[&[u8]], parity: &mut [u8])
        requires
            sources@.len() >= 2,
            all_len(sources@, old(parity)@.len() as int),
        ensures
            final(parity)@.len() == old(parity)@.len(),
            forall|i: int| 0 <= i < old(parity)@.len() ==> #[trigger] final(parity)@[i] == xor_byte(sources@, i),
    {
        let r = crate::raid::xor_gen(sources, parity);
        assert(r is Ok);
    }

    /// RAID-6 P and Q of at least two equal-length sources.
    pub fn pq_gen(&self, sources: &[&[u8]], p: &mut [u8], q: &mut [u8])
        requires
            sources@.len() >= 2,
            old(q)@.len() == old(p)@.len(),
            all_len(sources@, old(p)@.len() as int),
        ensures
            final(p)@.len() == old(p)@.len(),
            final(q)@.len() == old(q)@.len(),
            forall|i: int| 0 <= i < old(p)@.len() ==> #[trigger] final(p)@[i] == xor_byte(sources@, i),
            forall|i: int| 0 <= i < old(p)@.len() ==> #[trigger] final(q)@[i] == q_byte(sources@, i),
    {
        let r = crate::raid::pq_gen(sources, p, q);
        assert(r is Ok);
    }
}

/// `k` consumes `format` tables and reports `name`.
pub open spec fn set_is(k: Kernels, format: TableFormat, name: Seq<char>) -> bool {
    k.format_of() == format && k.name_of() == name
}

/// The best kernel set for the running machine on its architecture, or
/// `None` when no SIMD set applies — callers fall back to
/// [`Kernels::scalar`].
pub fn kernels(cpu: &CpuFeatures) -> (r: Option<Kernels>)
    ensures
        r is Some <==> (cpu.arch == Arch::X86_64 && (cpu.ssse3 || cpu.avx2)) || cpu.arch == Arch::Aarch64 || (
        cpu.arch == Arch::Wasm32 && cpu.simd128),
        r matches Some(k) ==> (cpu.arch == Arch::X86_64 ==> set_is(
            k,
            x86::level_format(x86::best_level(*cpu)),
            x86::level_name(x86::best_level(*cpu)),
        )) && (cpu.arch == Arch::Aarch64 ==> set_is(k, TableFormat::Nibble, aarch64::neon_name()))
            && (cpu.arch == Arch::Wasm32 ==> set_is(k, TableFormat::Nibble, wasm::simd128_name())),
        cpu.arch == Arch::X86_64 && cpu.gfni && cpu.avx2 ==> r is Some && set_is(
            r->0,
            TableFormat::Affine,
            "x86_64/avx2_gfni"@,
        ),
        cpu.arch == Arch::X86_64 && cpu.avx2 && !cpu.gfni ==> r is Some && set_is(
            r->0,
            TableFormat::Nibble,
            "x86_64/avx2"@,
        ),
        cpu.arch == Arch::X86_64 && !cpu.avx2 && cpu.ssse3 ==> r is Some && set_is(
            r->0,
            TableFormat::Nibble,
            "x86_64/ssse3"@,
        ),
{
    match cpu.arch {
        Arch::X86_64 => x86::kernels(cpu),
        Arch::Aarch64 => aarch64::kernels(cpu),
        Arch::Wasm32 => wasm::kernels(cpu),
        Arch::Other => None,
    }
}

/// The best RAID kernel pair for this architecture, or `None` when only the
/// core path applies.
pub fn raid_kernels(cpu: &CpuFeatures) -> (r: Option<RaidKernels>)
    ensures
        r is Some <==> cpu.arch == Arch::X86_64 || cpu.arch == Arch::Aarch64 || (cpu.arch == Arch::Wasm32
            && cpu.simd128),
{
    match cpu.arch {
        Arch::X86_64 => x86::raid_kernels(cpu),
        Arch::Aarch64 => aarch64::raid_kernels(cpu),
        Arch::Wasm32 => wasm::raid_kernels(cpu),
        Arch::Other => None,
    }
}

/// The best kernel set consuming ISA-L NIBBLE-format tables (the compat
/// layer's requirement: GFNI's affine tables must never be mixed in).
pub fn kernels_nibble(cpu: &CpuFeatures) -> (r: Option<Kernels>)
    ensures
        r is Some <==> (cpu.arch == Arch::X86_64 && (cpu.ssse3 || cpu.avx2)) || cpu.arch == Arch::Aarch64 || (
        cpu.arch == Arch::Wasm32 && cpu.simd128),
        r matches Some(k) ==> k.format_of() == TableFormat::Nibble,
        r matches Some(k) ==> (cpu.arch == Arch::X86_64 ==> set_is(
            k,
            TableFormat::Nibble,
            x86::level_name(x86::best_nibble_level(*cpu)),
        )) && (cpu.arch == Arch::Aarch64 ==> set_is(k, TableFormat::Nibble, aarch64::neon_name()))
            && (cpu.arch == Arch::Wasm32 ==> set_is(k, TableFormat::Nibble, wasm::simd128_name())),
{
    if cpu.arch == Arch::X86_64 {
        x86::kernels_nibble(cpu)
    } else {
        // Every non-x86 set is nibble-format already.
        kernels(cpu)
    }
}

} // verus!
