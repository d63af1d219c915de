//! Erasure-coding storage path: DMA buffers, the Reed-Solomon codec, the
//! metadata engine and the components built on them.

pub mod bdev;
pub mod compression;
pub mod destage_manager;
pub mod dma_buf;
pub mod ec_engine;
pub mod ffi;
pub mod gf_matrix;
pub mod isal_codec;
pub mod l2p_map;
pub mod metadata_engine;
pub mod mock;
pub mod read_path;
pub mod stripe_processor;
pub mod zns;

pub use dma_buf::{DmaBuf, DmaBufPool};
pub use ffi::{SimdLevel, SPDK_DMA_ALIGNMENT};

use vstd::prelude::*;

verus! {

/// Whether the native storage toolkit is compiled in (this build uses the
/// portable implementation).
pub fn is_spdk_available() -> (r: bool)
    ensures
        !r,
{
    false
}

/// Whether the native erasure-coding library is compiled in.
pub fn is_isal_available() -> (r: bool)
    ensures
        !r,
{
    false
}

/// Build-time configuration of the storage path.
#[derive(Debug, Clone)]
pub struct SpdkInfo {
    /// Whether the native storage toolkit is compiled in
    pub spdk_enabled: bool,
    /// Whether the native erasure-coding library is compiled in
    pub isal_enabled: bool,
    /// Detected SIMD level (if the coding library is available)
    pub simd_level: Option<String>,
    /// DMA alignment requirement
    pub dma_alignment: usize,
}

impl SpdkInfo {
    /// The configuration of this build.
    pub fn current() -> (r: SpdkInfo)
        ensures
            !r.spdk_enabled,
            !r.isal_enabled,
            r.simd_level is None,
            r.dma_alignment == 4096,
    {
        SpdkInfo { spdk_enabled: false, isal_enabled: false, simd_level: None, dma_alignment: 4096 }
    }
}

} // verus!
