//! Three-tier cache: L1 (RAM), L2 (NVMe) and L3 (cold storage), with
//! promotion and demotion between the tiers.

pub mod compression;
pub mod entry;
pub mod l2;
pub mod l3;
pub mod manager;
pub mod metrics;
pub mod policy;
pub mod shard;

use vstd::prelude::*;

verus! {

/// Number of shards for concurrent access (a power of two)
pub const SHARD_COUNT: usize = 1024;

/// Cache line size for alignment (x86-64)
pub const CACHE_LINE_SIZE: usize = 64;

/// Default L1 capacity (50GB)
pub const DEFAULT_L1_CAPACITY: u64 = 53687091200;

/// Default L2 capacity (500GB)
pub const DEFAULT_L2_CAPACITY: u64 = 536870912000;

/// Minimum entry size for L2 (skip small objects to reduce I/O)
pub const L2_MIN_ENTRY_SIZE: usize = 4096;

} // verus!
