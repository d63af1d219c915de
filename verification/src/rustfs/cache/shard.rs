//! Statistics of a sharded map.

use vstd::prelude::*;

verus! {

/// Statistics of a sharded map.
#[derive(Debug, Clone)]
pub struct ShardedMapStats {
    /// Total entries
    pub total_entries: usize,
    /// Total size in bytes
    pub total_size_bytes: u64,
    /// Total reads
    pub total_reads: u64,
    /// Total writes
    pub total_writes: u64,
    /// Per-shard entry counts
    pub shard_entry_counts: Vec<usize>,
    /// Per-shard sizes
    pub shard_sizes: Vec<u64>,
}

} // verus!
