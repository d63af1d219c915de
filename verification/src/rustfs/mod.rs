//! Object-storage services: a three-tier cache (RAM, NVMe, cold storage)
//! with LZ4 compression, and monitoring (metrics and health checks).

pub mod cache;
pub mod monitoring;

use vstd::prelude::*;

verus! {

/// Version reported by health checks.
pub const VERSION: &'static str = "0.1.0";

/// Default chunk size for object storage (4MB)
pub const DEFAULT_CHUNK_SIZE: usize = 4194304;

/// Default stripe size for erasure coding (1MB)
pub const DEFAULT_STRIPE_SIZE: usize = 1048576;

/// Maximum object size (5TB)
pub const MAX_OBJECT_SIZE: u64 = 5497558138880;

/// Maximum parts per multipart upload
pub const MAX_PARTS: u32 = 10_000;

} // verus!
