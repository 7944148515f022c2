//! x86-64 kernel sets: PSHUFB nibble tables at SSSE3 (16 bytes per step)
//! and AVX2 (32 bytes per step), and GFNI affine matrices.
//!
//! Baseline x86-64 is SSE2, which lacks `pshufb`, so even the SSSE3 set
//! needs the feature; the scalar set is the fallback everywhere.

use vstd::prelude::*;

use crate::accel::{set_is, Arch, CpuFeatures, RaidKernels};
use crate::kernel::{Kernels, TableFormat};

verus! {

/// The ISA levels this module can provide.
#[derive(Clone, Copy, Debug, PartialEq, Eq, Structural)]
pub enum Level {
    /// 16 bytes per step, `pshufb` nibble tables.
    Ssse3,
    /// 32 bytes per step, `vpshufb` nibble tables on both lanes.
    Avx2,
    /// 32 bytes per step, one `GF2P8AFFINEQB` per multiply (affine tables).
    Gfni,
}

/// The machine offers `level`.
pub open spec fn level_available(level: Level, cpu: CpuFeatures) -> bool {
    cpu.arch == Arch::X86_64 && match level {
        Level::Gfni => cpu.gfni && cpu.avx2,
        Level::Avx2 => cpu.avx2,
        Level::Ssse3 => cpu.ssse3,
    }
}

/// The table format a level's kernels consume.
pub open spec fn level_format(level: Level) -> TableFormat {
    match level {
        Level::Gfni => TableFormat::Affine,
        _ => TableFormat::Nibble,
    }
}

/// The name a level's kernels report.
pub open spec fn level_name(level: Level) -> Seq<char> {
    match level {
        Level::Gfni => "x86_64/avx2_gfni"@,
        Level::Avx2 => "x86_64/avx2"@,
        Level::Ssse3 => "x86_64/ssse3"@,
    }
}

/// The best level available: GFNI, then AVX2, then SSSE3.
pub open spec fn best_level(cpu: CpuFeatures) -> Level {
    if level_available(Level::Gfni, cpu) {
        Level::Gfni
    } else if level_available(Level::Avx2, cpu) {
        Level::Avx2
    } else {
        Level::Ssse3
    }
}

/// The best nibble-format level available: AVX2, then SSSE3.
pub open spec fn best_nibble_level(cpu: CpuFeatures) -> Level {
    if level_available(Level::Avx2, cpu) {
        Level::Avx2
    } else {
        Level::Ssse3
    }
}

/// The preference among levels: GFNI over AVX2 over SSSE3.
pub open spec fn level_rank(level: Level) -> int {
    match level {
        Level::Gfni => 2,
        Level::Avx2 => 1,
        Level::Ssse3 => 0,
    }
}

/// The chosen level is one the machine offers, and no level the machine
/// offers is preferred to it (whenever any level is offered).
pub proof fn lemma_best_level_is_best(cpu: CpuFeatures, level: Level)
    requires
        cpu.arch == Arch::X86_64,
        cpu.ssse3 || cpu.avx2,
    ensures
        level_available(best_level(cpu), cpu),
        level_available(level, cpu) ==> level_rank(level) <= level_rank(best_level(cpu)),
{
}

/// The chosen nibble-format level is one the machine offers, and AVX2 is
/// chosen whenever the machine offers it.
pub proof fn lemma_best_nibble_level_is_best(cpu: CpuFeatures, level: Level)
    requires
        cpu.arch == Arch::X86_64,
        cpu.ssse3 || cpu.avx2,
    ensures
        level_available(best_nibble_level(cpu), cpu),
        level_format(best_nibble_level(cpu)) == TableFormat::Nibble,
        level_available(level, cpu) && level_format(level) == TableFormat::Nibble ==> level_rank(level)
            <= level_rank(best_nibble_level(cpu)),
{
}

/// The kernel set for one specific level, or `None` when the machine lacks
/// it. Production wants [`kernels`].
pub fn kernels_at(level: Level, cpu: &CpuFeatures) -> (r: Option<Kernels>)
    ensures
        r is Some <==> level_available(level, *cpu),
        r matches Some(k) ==> set_is(k, level_format(level), level_name(level)),
{
    if cpu.arch != Arch::X86_64 {
        return None;
    }
    match level {
        Level::Gfni => {
            if cpu.gfni && cpu.avx2 {
                Some(Kernels::with_format(TableFormat::Affine, "x86_64/avx2_gfni"))
            } else {
                None
            }
        },
        Level::Avx2 => {
            if cpu.avx2 {
                Some(Kernels::with_format(TableFormat::Nibble, "x86_64/avx2"))
            } else {
                None
            }
        },
        Level::Ssse3 => {
            if cpu.ssse3 {
                Some(Kernels::with_format(TableFormat::Nibble, "x86_64/ssse3"))
            } else {
                None
            }
        },
    }
}

/// The best kernel set the machine supports, or `None` when even SSSE3 is
/// absent (or off x86-64) — callers fall back to [`Kernels::scalar`].
pub fn kernels(cpu: &CpuFeatures) -> (r: Option<Kernels>)
    ensures
        r is Some <==> cpu.arch == Arch::X86_64 && (cpu.ssse3 || cpu.avx2),
        r matches Some(k) ==> set_is(k, level_format(best_level(*cpu)), level_name(best_level(*cpu))),
        cpu.arch == Arch::X86_64 && cpu.gfni && cpu.avx2 ==> r is Some && set_is(
            r->0,
            TableFormat::Affine,
            "x86_64/avx2_gfni"@,
        ),
        cpu.arch == Arch::X86_64 && cpu.avx2 && !cpu.gfni ==> r is Some && set_is(
            r->0,
            TableFormat::Nibble,
            "x86_64/avx2"@,
        ),
        cpu.arch == Arch::X86_64 && !cpu.avx2 && cpu.ssse3 ==> r is Some && set_is(
            r->0,
            TableFormat::Nibble,
            "x86_64/ssse3"@,
        ),
{
    match kernels_at(Level::Gfni, cpu) {
        Some(k) => Some(k),
        None => match kernels_at(Level::Avx2, cpu) {
            Some(k) => Some(k),
            None => kernels_at(Level::Ssse3, cpu),
        },
    }
}

/// The best kernel set that consumes ISA-L NIBBLE-format tables (never
/// GFNI — its tables are affine-format). The compat layer's fast path
/// requires this: its callers hand it `ec_init_tables`-format tables by
/// contract, and mixed formats produce wrong parity.
pub fn kernels_nibble(cpu: &CpuFeatures) -> (r: Option<Kernels>)
    ensures
        r is Some <==> cpu.arch == Arch::X86_64 && (cpu.ssse3 || cpu.avx2),
        r matches Some(k) ==> set_is(k, TableFormat::Nibble, level_name(best_nibble_level(*cpu))),
        cpu.arch == Arch::X86_64 && cpu.avx2 ==> r is Some && set_is(r->0, TableFormat::Nibble, "x86_64/avx2"@),
        cpu.arch == Arch::X86_64 && !cpu.avx2 && cpu.ssse3 ==> r is Some && set_is(
            r->0,
            TableFormat::Nibble,
            "x86_64/ssse3"@,
        ),
{
    match kernels_at(Level::Avx2, cpu) {
        Some(k) => Some(k),
        None => kernels_at(Level::Ssse3, cpu),
    }
}

/// The x86 RAID pair (AVX2 when available, else the SSE2 baseline), or
/// `None` off x86-64.
pub fn raid_kernels(cpu: &CpuFeatures) -> (r: Option<RaidKernels>)
    ensures
        r is Some <==> cpu.arch == Arch::X86_64,
        r matches Some(k) ==> k.name_of() == if cpu.avx2 {
            "x86_64/avx2"@
        } else {
            "x86_64/sse2"@
        },
{
    if cpu.arch != Arch::X86_64 {
        return None;
    }
    if cpu.avx2 {
        Some(RaidKernels::named("x86_64/avx2"))
    } else {
        // SSE2 is the x86-64 baseline: always available.
        Some(RaidKernels::named("x86_64/sse2"))
    }
}

} // verus!
