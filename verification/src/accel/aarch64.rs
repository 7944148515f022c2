//! aarch64 kernel sets: the nibble technique via NEON `TBL`. NEON is
//! architecturally mandatory on AArch64, so on an aarch64 target these
//! sets always apply.

use vstd::prelude::*;

use crate::accel::{set_is, Arch, CpuFeatures, RaidKernels};
use crate::kernel::{Kernels, TableFormat};

verus! {

/// The name the NEON set reports.
pub open spec fn neon_name() -> Seq<char> {
    "aarch64/neon"@
}

/// The NEON RAID pair (aarch64 only; NEON is baseline — always `Some`
/// there).
pub fn raid_kernels(cpu: &CpuFeatures) -> (r: Option<RaidKernels>)
    ensures
        r is Some <==> cpu.arch == Arch::Aarch64,
        r matches Some(k) ==> k.name_of() == neon_name(),
{
    if cpu.arch == Arch::Aarch64 {
        Some(RaidKernels::named("aarch64/neon"))
    } else {
        None
    }
}

/// The NEON kernel set (aarch64 targets only; `None` elsewhere).
pub fn kernels(cpu: &CpuFeatures) -> (r: Option<Kernels>)
    ensures
        r is Some <==> cpu.arch == Arch::Aarch64,
        r matches Some(k) ==> set_is(k, TableFormat::Nibble, neon_name()),
{
    if cpu.arch == Arch::Aarch64 {
        Some(Kernels::with_format(TableFormat::Nibble, "aarch64/neon"))
    } else {
        None
    }
}

} // verus!
