//! Hardware-acceleration levels and DMA constants.

use vstd::prelude::*;

verus! {

/// Alignment that DMA buffers are allocated with (4 KiB).
pub const SPDK_DMA_ALIGNMENT: usize = 4096;

/// SIMD instruction set used for Galois-field arithmetic.
#[derive(Debug, Clone, Copy, PartialEq, Eq)]
pub enum SimdLevel {
    /// No SIMD, scalar fallback
    Scalar,
    /// SSE 128-bit
    Sse,
    /// AVX2 256-bit
    Avx2,
    /// AVX-512 512-bit
    Avx512,
}

/// Display name of a SIMD level.
pub open spec fn simd_level_name(level: SimdLevel) -> Seq<char> {
    match level {
        SimdLevel::Scalar => "None (scalar)"@,
        SimdLevel::Sse => "SSE (128-bit)"@,
        SimdLevel::Avx2 => "AVX2 (256-bit)"@,
        SimdLevel::Avx512 => "AVX-512 (512-bit)"@,
    }
}

impl SimdLevel {
    /// The best SIMD level available. Without the native acceleration
    /// library the scalar path is used.
    pub fn detect() -> (r: SimdLevel)
        ensures
            r == SimdLevel::Scalar,
    {
        SimdLevel::Scalar
    }

    /// Human-readable name of the level.
    pub fn to_string(&self) -> (r: String)
        ensures
            r@ == simd_level_name(*self),
    {
        match self {
            SimdLevel::Scalar => "None (scalar)".to_owned(),
            SimdLevel::Sse => "SSE (128-bit)".to_owned(),
            SimdLevel::Avx2 => "AVX2 (256-bit)".to_owned(),
            SimdLevel::Avx512 => "AVX-512 (512-bit)".to_owned(),
        }
    }
}

impl Default for SimdLevel {
    fn default() -> (r: SimdLevel)
        ensures
            r == SimdLevel::Scalar,
    {
        SimdLevel::Scalar
    }
}

} // verus!
