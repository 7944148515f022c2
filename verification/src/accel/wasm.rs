//! wasm32 kernel sets: the nibble technique via SIMD128 swizzles, available
//! when the module is built with `+simd128`.

use vstd::prelude::*;

use crate::accel::{set_is, Arch, CpuFeatures, RaidKernels};
use crate::kernel::{Kernels, TableFormat};

verus! {

/// The name the SIMD128 set reports.
pub open spec fn simd128_name() -> Seq<char> {
    "wasm32/simd128"@
}

/// The SIMD128 RAID pair (wasm32 with `+simd128` only).
pub fn raid_kernels(cpu: &CpuFeatures) -> (r: Option<RaidKernels>)
    ensures
        r is Some <==> cpu.arch == Arch::Wasm32 && cpu.simd128,
        r matches Some(k) ==> k.name_of() == simd128_name(),
{
    if cpu.arch == Arch::Wasm32 && cpu.simd128 {
        Some(RaidKernels::named("wasm32/simd128"))
    } else {
        None
    }
}

/// The SIMD128 kernel set (wasm32 built with `+simd128` only; `None`
/// otherwise, including wasm builds without the feature).
pub fn kernels(cpu: &CpuFeatures) -> (r: Option<Kernels>)
    ensures
        r is Some <==> cpu.arch == Arch::Wasm32 && cpu.simd128,
        r matches Some(k) ==> set_is(k, TableFormat::Nibble, simd128_name()),
{
    if cpu.arch == Arch::Wasm32 && cpu.simd128 {
        Some(Kernels::with_format(TableFormat::Nibble, "wasm32/simd128"))
    } else {
        None
    }
}

} // verus!
