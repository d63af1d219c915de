//! Erasure-coding storage engine: volumes of stripes whose shards are
//! spread over block devices. A write splits and encodes the data and
//! stores one shard per device; a read fetches the shards, reconstructs
//! missing ones and reassembles the data.

use vstd::prelude::*;

use super::bdev::{devices_fit, handle_index, shard_readable, shard_writable, BdevConfig, BdevManager, ShardIo};
use super::isal_codec::MatrixType;
use super::isal_codec::bufs_view;
use super::stripe_processor::{
    div_ceil, law_reassemble_inverts_layout, lemma_div_ceil, lemma_div_ceil_mono, shard_holds_chunk,
    shard_size_fits, shard_size_for, StripeProcessor, StripeProcessorConfig,
};
use super::{DmaBuf, SimdLevel};
use crate::clock::{elapsed_millis, instant_now};
use crate::error::{Error, Result};

verus! {

// =============================================================================
// Configuration
// =============================================================================

/// Configuration for the EC storage engine.
#[derive(Debug, Clone, Copy, PartialEq, Eq)]
pub struct EcEngineConfig {
    /// Number of data shards (k)
    pub data_shards: u8,
    /// Number of parity shards (m)
    pub parity_shards: u8,
    /// Stripe size in bytes
    pub stripe_size: usize,
    /// Matrix type for encoding
    pub matrix_type: MatrixType,
    /// Maximum concurrent operations
    pub max_concurrent_ops: usize,
    /// Bdev configuration
    pub bdev_config: BdevConfig,
    /// Whether to verify writes
    pub verify_writes: bool,
    /// Whether to verify reads
    pub verify_reads: bool,
    /// Read retry count
    pub read_retries: u32,
    /// Write retry count
    pub write_retries: u32,
    /// Operation timeout, in milliseconds
    pub timeout_ms: u64,
}

/// Whether an engine configuration is acceptable.
pub open spec fn engine_config_valid(c: EcEngineConfig) -> bool {
    &&& c.data_shards >= 1
    &&& c.parity_shards >= 1
    &&& c.data_shards + c.parity_shards <= 255
    &&& c.stripe_size > 0
}

impl EcEngineConfig {
    /// A configuration with the given erasure-coding shape and defaults
    /// otherwise.
    pub fn new(data_shards: u8, parity_shards: u8, stripe_size: usize) -> (r: EcEngineConfig)
        ensures
            r.data_shards == data_shards,
            r.parity_shards == parity_shards,
            r.stripe_size == stripe_size,
            r.matrix_type == MatrixType::Cauchy,
            r.max_concurrent_ops == 16,
            r.bdev_config == BdevConfig::default_spec(),
            !r.verify_writes,
            !r.verify_reads,
            r.read_retries == 3,
            r.write_retries == 3,
            r.timeout_ms == 60_000,
    {
        EcEngineConfig {
            data_shards,
            parity_shards,
            stripe_size,
            matrix_type: MatrixType::Cauchy,
            max_concurrent_ops: 16,
            bdev_config: BdevConfig::default(),
            verify_writes: false,
            verify_reads: false,
            read_retries: 3,
            write_retries: 3,
            timeout_ms: 60_000,
        }
    }

    /// Total number of shards.
    pub fn total_shards(&self) -> (r: usize)
        ensures
            r == self.data_shards + self.parity_shards,
    {
        self.data_shards as usize + self.parity_shards as usize
    }

    /// Shard size: the stripe divided over the data shards, rounded up,
    /// then rounded up to a multiple of 32 bytes.
    pub fn shard_size(&self) -> (r: usize)
        requires
            self.data_shards > 0,
            div_ceil(self.stripe_size as int, self.data_shards as int) + 31 <= usize::MAX,
        ensures
            r == shard_size_for(self.stripe_size, self.data_shards),
            r % 32 == 0,
    {
        self.processor_config().shard_size()
    }

    /// Checks the configuration.
    pub fn validate(&self) -> (r: Result<()>)
        ensures
            r is Ok <==> engine_config_valid(*self),
            r matches Err(e) ==> e is InvalidEcConfig,
    {
        if self.data_shards == 0 {
            return Err(Error::InvalidEcConfig("data_shards must be >= 1".to_owned()));
        }
        if self.parity_shards == 0 {
            return Err(Error::InvalidEcConfig("parity_shards must be >= 1".to_owned()));
        }
        if self.total_shards() > 255 {
            return Err(Error::InvalidEcConfig("total shards must be <= 255".to_owned()));
        }
        if self.stripe_size == 0 {
            return Err(Error::InvalidEcConfig("stripe_size must be > 0".to_owned()));
        }
        Ok(())
    }

    /// The stripe-processor configuration the engine runs with.
    pub open spec fn processor_config_spec(&self) -> StripeProcessorConfig {
        StripeProcessorConfig {
            data_shards: self.data_shards,
            parity_shards: self.parity_shards,
            stripe_size: self.stripe_size,
            matrix_type: self.matrix_type,
            buffer_pool_size: 64,
            max_concurrent_ops: self.max_concurrent_ops,
            verify_after_encode: self.verify_writes,
            zero_on_release: true,
            read_timeout_ms: self.timeout_ms,
            write_timeout_ms: self.timeout_ms,
        }
    }

    fn processor_config(&self) -> (r: StripeProcessorConfig)
        ensures
            r == self.processor_config_spec(),
    {
        StripeProcessorConfig {
            data_shards: self.data_shards,
            parity_shards: self.parity_shards,
            stripe_size: self.stripe_size,
            matrix_type: self.matrix_type,
            buffer_pool_size: 64,
            max_concurrent_ops: self.max_concurrent_ops,
            verify_after_encode: self.verify_writes,
            zero_on_release: true,
            read_timeout_ms: self.timeout_ms,
            write_timeout_ms: self.timeout_ms,
        }
    }
}

impl BdevConfig {
    /// The default bdev configuration.
    pub open spec fn default_spec() -> BdevConfig {
        BdevConfig {
            max_io_per_device: 64,
            io_timeout_ms: 30_000,
            write_through: false,
            io_channels_per_device: 4,
            collect_stats: true,
            retry_count: 3,
            retry_delay_ms: 100,
        }
    }
}

impl Default for EcEngineConfig {
    fn default() -> (r: Self)
        ensures
            r == (EcEngineConfig {
                data_shards: 4,
                parity_shards: 2,
                stripe_size: 1048576,
                matrix_type: MatrixType::Cauchy,
                max_concurrent_ops: 16,
                bdev_config: BdevConfig::default_spec(),
                verify_writes: false,
                verify_reads: false,
                read_retries: 3,
                write_retries: 3,
                timeout_ms: 60_000,
            }),
    {
        EcEngineConfig::new(4, 2, 1048576)
    }
}

// =============================================================================
// Placement Policy
// =============================================================================

/// Shard placement policy for distributing shards across devices.
#[derive(Debug, Clone, Copy, PartialEq, Eq, Structural)]
pub enum PlacementPolicy {
    /// Round-robin across all available devices
    RoundRobin,
    /// Spread across different failure domains
    FailureDomainAware,
    /// Pack shards on fewest devices (for small clusters)
    Packed,
    /// Random placement
    Random,
}

impl PlacementPolicy {
    /// Name of the policy.
    pub fn to_string(&self) -> (r: String)
        ensures
            r@ == match *self {
                PlacementPolicy::RoundRobin => "round-robin"@,
                PlacementPolicy::FailureDomainAware => "failure-domain-aware"@,
                PlacementPolicy::Packed => "packed"@,
                PlacementPolicy::Random => "random"@,
            },
    {
        match self {
            PlacementPolicy::RoundRobin => "round-robin".to_owned(),
            PlacementPolicy::FailureDomainAware => "failure-domain-aware".to_owned(),
            PlacementPolicy::Packed => "packed".to_owned(),
            PlacementPolicy::Random => "random".to_owned(),
        }
    }
}

impl Default for PlacementPolicy {
    fn default() -> (r: Self)
        ensures
            r == PlacementPolicy::RoundRobin,
    {
        PlacementPolicy::RoundRobin
    }
}

// =============================================================================
// Volume State
// =============================================================================

/// Placement information for a single shard.
#[derive(Debug, Clone)]
pub struct ShardPlacement {
    /// Shard index (0 to k+m-1)
    pub shard_index: usize,
    /// Device name
    pub device: String,
    /// Offset on device
    pub offset: u64,
    /// Whether shard is healthy
    pub healthy: bool,
}

/// Metadata for a single stripe.
#[derive(Debug)]
pub struct StripeMetadata {
    /// Stripe ID
    pub stripe_id: u64,
    /// Original data size
    pub data_size: usize,
    /// Shard size
    pub shard_size: usize,
    /// Shard locations
    pub shards: Vec<ShardPlacement>,
    /// Checksum of original data (wrapping sum of the bytes)
    pub checksum: u64,
    /// Creation timestamp
    pub created_at: std::time::Instant,
    /// Whether stripe is complete (all shards written)
    pub complete: bool,
}

/// Statistics for a volume.
#[derive(Debug, Clone, Copy, PartialEq, Eq, Default)]
pub struct VolumeStats {
    /// Bytes written
    pub bytes_written: u64,
    /// Bytes read
    pub bytes_read: u64,
    /// Stripes created
    pub stripes_created: u64,
    /// Stripes deleted
    pub stripes_deleted: u64,
    /// Read operations
    pub reads: u64,
    /// Write operations
    pub writes: u64,
    /// Reconstruction operations
    pub reconstructions: u64,
    /// Read errors
    pub read_errors: u64,
    /// Write errors
    pub write_errors: u64,
}

/// 64-bit wrapping addition, as the counters use.
pub open spec fn add_w(a: u64, b: u64) -> u64 {
    vstd::wrapping::u64_specs::wrapping_add(a, b)
}

/// All volume counters at zero.
pub open spec fn zero_volume_stats() -> VolumeStats {
    VolumeStats {
        bytes_written: 0,
        bytes_read: 0,
        stripes_created: 0,
        stripes_deleted: 0,
        reads: 0,
        writes: 0,
        reconstructions: 0,
        read_errors: 0,
        write_errors: 0,
    }
}

impl VolumeStats {
    /// All counters at zero.
    pub fn new() -> (r: VolumeStats)
        ensures
            r == zero_volume_stats(),
    {
        VolumeStats {
            bytes_written: 0,
            bytes_read: 0,
            stripes_created: 0,
            stripes_deleted: 0,
            reads: 0,
            writes: 0,
            reconstructions: 0,
            read_errors: 0,
            write_errors: 0,
        }
    }

    /// Records a write of `bytes` bytes.
    pub fn record_write(&mut self, bytes: usize, success: bool)
        ensures
            *final(self) == if success {
                VolumeStats {
                    writes: add_w(old(self).writes, 1),
                    bytes_written: add_w(old(self).bytes_written, bytes as u64),
                    stripes_created: add_w(old(self).stripes_created, 1),
                    ..*old(self)
                }
            } else {
                VolumeStats { write_errors: add_w(old(self).write_errors, 1), ..*old(self) }
            },
    {
        if success {
            self.writes = self.writes.wrapping_add(1);
            self.bytes_written = self.bytes_written.wrapping_add(bytes as u64);
            self.stripes_created = self.stripes_created.wrapping_add(1);
        } else {
            self.write_errors = self.write_errors.wrapping_add(1);
        }
    }

    /// Records a read of `bytes` bytes, and whether it needed reconstruction.
    pub fn record_read(&mut self, bytes: usize, success: bool, reconstructed: bool)
        ensures
            *final(self) == if success {
                VolumeStats {
                    reads: add_w(old(self).reads, 1),
                    bytes_read: add_w(old(self).bytes_read, bytes as u64),
                    reconstructions: if reconstructed {
                        add_w(old(self).reconstructions, 1)
                    } else {
                        old(self).reconstructions
                    },
                    ..*old(self)
                }
            } else {
                VolumeStats { read_errors: add_w(old(self).read_errors, 1), ..*old(self) }
            },
    {
        if success {
            self.reads = self.reads.wrapping_add(1);
            self.bytes_read = self.bytes_read.wrapping_add(bytes as u64);
            if reconstructed {
                self.reconstructions = self.reconstructions.wrapping_add(1);
            }
        } else {
            self.read_errors = self.read_errors.wrapping_add(1);
        }
    }
}

/// Index of the stripe with id `id`, if any.
pub open spec fn stripe_index(stripes: Seq<StripeMetadata>, id: u64) -> Option<int> {
    if exists|i: int| 0 <= i < stripes.len() && (#[trigger] stripes[i]).stripe_id == id {
        Some(choose|i: int| 0 <= i < stripes.len() && (#[trigger] stripes[i]).stripe_id == id)
    } else {
        None
    }
}

/// Whether no two stripes have the same id.
pub open spec fn stripe_ids_unique(stripes: Seq<StripeMetadata>) -> bool {
    forall|a: int, b: int|
        0 <= a < b < stripes.len() ==> (#[trigger] stripes[a]).stripe_id != (#[trigger] stripes[b]).stripe_id
}

/// State for a volume using EC storage.
#[derive(Debug)]
pub struct VolumeState {
    /// Volume ID
    pub volume_id: String,
    /// EC configuration for this volume
    pub config: EcEngineConfig,
    /// Device assignments for shard placement
    pub device_map: Vec<String>,
    /// Stripe metadata, one entry per stripe id
    pub stripes: Vec<StripeMetadata>,
    /// Next stripe ID
    pub next_stripe_id: u64,
    /// Volume statistics
    pub stats: VolumeStats,
    /// Creation time
    pub created_at: std::time::Instant,
}

impl VolumeState {
    /// A volume with no stripes; the first stripe gets id 1.
    pub fn new(volume_id: &str, config: EcEngineConfig, devices: Vec<String>) -> (r: VolumeState)
        ensures
            r.volume_id@ == volume_id@,
            r.config == config,
            r.device_map == devices,
            r.stripes@.len() == 0,
            r.next_stripe_id == 1,
            r.stats == zero_volume_stats(),
    {
        VolumeState {
            volume_id: volume_id.to_owned(),
            config,
            device_map: devices,
            stripes: Vec::new(),
            next_stripe_id: 1,
            stats: VolumeStats::new(),
            created_at: instant_now(),
        }
    }

    /// Hands out the next stripe id.
    pub fn next_stripe_id(&mut self) -> (r: u64)
        ensures
            r == old(self).next_stripe_id,
            final(self).next_stripe_id == add_w(old(self).next_stripe_id, 1),
            final(self).volume_id == old(self).volume_id,
            final(self).config == old(self).config,
            final(self).device_map == old(self).device_map,
            final(self).stripes == old(self).stripes,
            final(self).stats == old(self).stats,
    {
        let id = self.next_stripe_id;
        self.next_stripe_id = self.next_stripe_id.wrapping_add(1);
        id
    }

    /// Number of stripes.
    pub fn stripe_count(&self) -> (r: usize)
        ensures
            r == self.stripes@.len(),
    {
        self.stripes.len()
    }

    /// The device shard `shard_index` goes to (round-robin over the map).
    pub fn device_for_shard(&self, shard_index: usize) -> (r: Option<&str>)
        requires
            self.device_map@.len() > 0,
        ensures
            r matches Some(d) && d@ == self.device_map@[(shard_index as int) % (self.device_map@.len() as int)]@,
    {
        let i = shard_index % self.device_map.len();
        Some(self.device_map[i].as_str())
    }

    fn find_stripe(&self, id: u64) -> (r: Option<usize>)
        requires
            stripe_ids_unique(self.stripes@),
        ensures
            r == match stripe_index(self.stripes@, id) {
                Some(i) => Some(i as usize),
                None => None::<usize>,
            },
            r matches Some(i) ==> i < self.stripes@.len() && self.stripes@[i as int].stripe_id == id,
    {
        let mut i: usize = 0;
        while i < self.stripes.len()
            invariant
                stripe_ids_unique(self.stripes@),
                0 <= i <= self.stripes@.len(),
                forall|j: int| 0 <= j < i ==> (#[trigger] self.stripes@[j]).stripe_id != id,
            decreases self.stripes@.len() - i,
        {
            if self.stripes[i].stripe_id == id {
                proof {
                    let k = choose|k: int| 0 <= k < self.stripes@.len() && (#[trigger] self.stripes@[k]).stripe_id == id;
                    if k > i {
                        assert(self.stripes@[i as int].stripe_id != self.stripes@[k].stripe_id);
                    }
                }
                return Some(i);
            }
            i += 1;
        }
        None
    }
}

// =============================================================================
// Engine Statistics
// =============================================================================

/// Aggregate statistics for the EC engine.
#[derive(Debug, Clone, Copy)]
pub struct EngineStats {
    /// Total bytes written
    pub total_bytes_written: u64,
    /// Total bytes read
    pub total_bytes_read: u64,
    /// Total stripes
    pub total_stripes: u64,
    /// Total volumes
    pub total_volumes: u64,
    /// Total reconstructions
    pub total_reconstructions: u64,
    /// Engine uptime start
    pub started_at: Option<std::time::Instant>,
}

impl EngineStats {
    /// All counters at zero, started now.
    pub fn new() -> (r: EngineStats)
        ensures
            r.total_bytes_written == 0,
            r.total_bytes_read == 0,
            r.total_stripes == 0,
            r.total_volumes == 0,
            r.total_reconstructions == 0,
            r.started_at is Some,
    {
        EngineStats {
            total_bytes_written: 0,
            total_bytes_read: 0,
            total_stripes: 0,
            total_volumes: 0,
            total_reconstructions: 0,
            started_at: Some(instant_now()),
        }
    }

    /// Milliseconds since the engine started (0 if it has no start time).
    pub fn uptime(&self) -> (r: u64)
        ensures
            self.started_at is None ==> r == 0,
    {
        match &self.started_at {
            Some(t) => elapsed_millis(t),
            None => 0,
        }
    }
}

// =============================================================================
// Health Types
// =============================================================================

/// Health status.
#[derive(Debug, Clone, Copy, PartialEq, Eq, Structural)]
pub enum HealthStatus {
    /// All shards healthy
    Healthy,
    /// Some shards missing but can reconstruct
    Degraded,
    /// Cannot reconstruct, data at risk
    Critical,
}

impl HealthStatus {
    /// Name of the status.
    pub fn to_string(&self) -> (r: String)
        ensures
            r@ == match *self {
                HealthStatus::Healthy => "healthy"@,
                HealthStatus::Degraded => "degraded"@,
                HealthStatus::Critical => "critical"@,
            },
    {
        match self {
            HealthStatus::Healthy => "healthy".to_owned(),
            HealthStatus::Degraded => "degraded".to_owned(),
            HealthStatus::Critical => "critical".to_owned(),
        }
    }
}

/// Health information for a stripe.
#[derive(Debug, Clone)]
pub struct StripeHealth {
    /// Stripe ID
    pub stripe_id: u64,
    /// Overall status
    pub status: HealthStatus,
    /// Number of healthy shards
    pub healthy_shards: usize,
    /// Total number of shards
    pub total_shards: usize,
    /// Indices of degraded/missing shards
    pub degraded_shards: Vec<usize>,
    /// Whether data can be reconstructed
    pub can_reconstruct: bool,
}

/// Health information for a volume.
#[derive(Debug, Clone)]
pub struct VolumeHealth {
    /// Volume ID
    pub volume_id: String,
    /// Overall status
    pub status: HealthStatus,
    /// Number of healthy stripes
    pub healthy_stripes: usize,
    /// Number of degraded stripes
    pub degraded_stripes: usize,
    /// Number of critical stripes
    pub critical_stripes: usize,
    /// Total number of stripes
    pub total_stripes: usize,
}

/// Status of a stripe with `healthy` of `total` shards readable and
/// `required` needed to rebuild it.
pub open spec fn stripe_status(healthy: int, total: int, required: int) -> HealthStatus {
    if healthy == total {
        HealthStatus::Healthy
    } else if healthy >= required {
        HealthStatus::Degraded
    } else {
        HealthStatus::Critical
    }
}

/// A stripe is critical exactly when fewer shards are healthy than are
/// needed to rebuild it, healthy exactly when every shard is, and degraded
/// when some shard is missing but enough remain to rebuild it.
pub proof fn law_stripe_status(healthy: int, total: int, required: int)
    requires
        0 <= healthy <= total,
        0 < required <= total,
    ensures
        stripe_status(healthy, total, required) == HealthStatus::Critical <==> healthy < required,
        stripe_status(healthy, total, required) == HealthStatus::Healthy <==> healthy == total,
        stripe_status(healthy, total, required) == HealthStatus::Degraded <==> required <= healthy < total,
{
}

/// A volume is critical exactly when some stripe is, degraded when some
/// stripe is degraded and none critical, and healthy otherwise.
pub proof fn law_volume_status(degraded: int, critical: int)
    requires
        0 <= degraded,
        0 <= critical,
    ensures
        volume_status(degraded, critical) == HealthStatus::Critical <==> critical > 0,
        volume_status(degraded, critical) == HealthStatus::Degraded <==> critical == 0 && degraded > 0,
        volume_status(degraded, critical) == HealthStatus::Healthy <==> critical == 0 && degraded == 0,
{
}

/// Status of a volume: critical if any stripe is, else degraded if any
/// stripe is, else healthy.
pub open spec fn volume_status(degraded: int, critical: int) -> HealthStatus {
    if critical > 0 {
        HealthStatus::Critical
    } else if degraded > 0 {
        HealthStatus::Degraded
    } else {
        HealthStatus::Healthy
    }
}


// =============================================================================
// EC Storage Engine
// =============================================================================

/// Index of the volume named `id`, if any.
pub open spec fn volume_index(vols: Seq<VolumeState>, id: Seq<char>) -> Option<int> {
    if exists|i: int| 0 <= i < vols.len() && (#[trigger] vols[i]).volume_id@ == id {
        Some(choose|i: int| 0 <= i < vols.len() && (#[trigger] vols[i]).volume_id@ == id)
    } else {
        None
    }
}

/// Bytes reserved per shard on a device: the shard size rounded up to
/// whole 4096-byte blocks.
pub open spec fn aligned_shard_size(ss: int) -> int {
    div_ceil(ss, 4096) * 4096
}

/// Whether a stripe's metadata fits the engine: `ss`-byte shards whose
/// placements leave room for a shard below `u64::MAX`.
pub open spec fn stripe_fits(md: StripeMetadata, ss: usize) -> bool {
    &&& md.shard_size == ss
    &&& forall|i: int| 0 <= i < md.shards@.len() ==> (#[trigger] md.shards@[i]).offset + ss <= u64::MAX
}

/// Whether a volume fits an engine with configuration `c` and shard size
/// `ss`: the same configuration, enough devices, unique stripe ids and
/// stripes of that shard size.
pub open spec fn volume_ok(v: VolumeState, c: EcEngineConfig, ss: usize) -> bool {
    &&& v.config == c
    &&& v.device_map@.len() >= c.data_shards + c.parity_shards
    &&& stripe_ids_unique(v.stripes@)
    &&& forall|j: int| 0 <= j < v.stripes@.len() ==> stripe_fits(#[trigger] v.stripes@[j], ss)
}

/// Whether the volumes have unique names and all fit the engine.
pub open spec fn volumes_ok(vols: Seq<VolumeState>, c: EcEngineConfig, ss: usize) -> bool {
    &&& forall|a: int, b: int|
        0 <= a < b < vols.len() ==> (#[trigger] vols[a]).volume_id@ != (#[trigger] vols[b]).volume_id@
    &&& forall|i: int| 0 <= i < vols.len() ==> volume_ok(#[trigger] vols[i], c, ss)
}

/// Replacing a volume by one of the same name that fits keeps the volumes
/// well-formed, and the name still finds it.
proof fn lemma_volume_update(vols: Seq<VolumeState>, vi: int, v: VolumeState, c: EcEngineConfig, ss: usize)
    requires
        volumes_ok(vols, c, ss),
        0 <= vi < vols.len(),
        v.volume_id@ == vols[vi].volume_id@,
        volume_ok(v, c, ss),
    ensures
        volumes_ok(vols.update(vi, v), c, ss),
        volume_index(vols.update(vi, v), v.volume_id@) == Some(vi),
{
    let nv = vols.update(vi, v);
    assert forall|a: int, b: int| 0 <= a < b < nv.len() implies (#[trigger] nv[a]).volume_id@
        != (#[trigger] nv[b]).volume_id@ by {
        assert(nv[a].volume_id@ == vols[a].volume_id@);
        assert(nv[b].volume_id@ == vols[b].volume_id@);
    }
    let k = choose|k: int| 0 <= k < nv.len() && (#[trigger] nv[k]).volume_id@ == v.volume_id@;
    if k < vi {
        assert(nv[k].volume_id@ != nv[vi].volume_id@);
    } else if k > vi {
        assert(nv[vi].volume_id@ != nv[k].volume_id@);
    }
}

/// Unified erasure-coding storage engine: volumes, stripe encoding and
/// placement over devices, reads with reconstruction, and health checks.
#[derive(Debug)]
pub struct EcStorageEngine {
    config: EcEngineConfig,
    processor: StripeProcessor,
    shard_io: ShardIo,
    volumes: Vec<VolumeState>,
    stats: EngineStats,
    placement_policy: PlacementPolicy,
}

impl EcStorageEngine {
    /// The configuration.
    pub closed spec fn config_spec(&self) -> EcEngineConfig {
        self.config
    }

    /// The volumes.
    pub closed spec fn volumes_spec(&self) -> Seq<VolumeState> {
        self.volumes@
    }

    /// The device manager.
    pub closed spec fn manager_spec(&self) -> BdevManager {
        self.shard_io.manager
    }

    /// The statistics.
    pub closed spec fn stats_spec(&self) -> EngineStats {
        self.stats
    }

    /// The placement policy.
    pub closed spec fn policy_spec(&self) -> PlacementPolicy {
        self.placement_policy
    }

    /// Shard size of the engine's stripes.
    pub open spec fn shard_len(&self) -> usize {
        shard_size_for(self.config_spec().stripe_size, self.config_spec().data_shards)
    }

    /// The engine's parts agree with its configuration: a valid shape, a
    /// matching stripe processor, well-formed devices, and volumes with
    /// unique names, the engine's configuration, enough devices, unique
    /// stripe ids and stripes of the engine's shard size.
    pub closed spec fn wf(&self) -> bool {
        let c = self.config;
        let ss = shard_size_for(c.stripe_size, c.data_shards);
        &&& engine_config_valid(c)
        &&& shard_size_fits(c.processor_config_spec())
        &&& self.processor.wf()
        &&& self.processor.config_spec() == c.processor_config_spec()
        &&& self.shard_io.manager.wf()
        &&& devices_fit(self.shard_io.manager)
        &&& self.shard_io.shard_size == ss
        &&& volumes_ok(self.volumes@, c, ss)
    }

    /// Creates an engine: checks the configuration and builds the stripe
    /// processor and an empty device manager.
    pub fn new(config: EcEngineConfig) -> (r: Result<EcStorageEngine>)
        requires
            shard_size_fits(config.processor_config_spec()),
        ensures
            r is Ok <==> engine_config_valid(config) && config.max_concurrent_ops > 0,
            r matches Err(e) ==> e is InvalidEcConfig,
            r matches Ok(e) ==> {
                &&& e.wf()
                &&& e.config_spec() == config
                &&& e.volumes_spec().len() == 0
                &&& e.manager_spec().devices_spec().len() == 0
                &&& e.manager_spec().handles_spec().len() == 0
                &&& e.policy_spec() == PlacementPolicy::RoundRobin
            },
    {
        match config.validate() {
            Ok(()) => {},
            Err(e) => return Err(e),
        }
        let pc = config.processor_config();
        assert(64 * config.data_shards <= usize::MAX && 64 * config.parity_shards <= usize::MAX);
        let processor = match StripeProcessor::new(pc) {
            Ok(p) => p,
            Err(e) => return Err(e),
        };
        let manager = BdevManager::new(config.bdev_config);
        let shard_io = ShardIo::new(manager, config.shard_size());
        Ok(
            EcStorageEngine {
                config,
                processor,
                shard_io,
                volumes: Vec::new(),
                stats: EngineStats::new(),
                placement_policy: PlacementPolicy::RoundRobin,
            },
        )
    }

    /// The engine configuration.
    pub fn config(&self) -> (r: &EcEngineConfig)
        ensures
            *r == self.config_spec(),
    {
        &self.config
    }

    /// The SIMD level the codec uses.
    pub fn simd_level(&self) -> (r: SimdLevel)
        ensures
            r == SimdLevel::Scalar,
    {
        self.processor.simd_level()
    }

    /// The device manager.
    pub fn bdev_manager(&self) -> (r: &BdevManager)
        ensures
            *r == self.manager_spec(),
    {
        &self.shard_io.manager
    }

    /// The engine statistics.
    pub fn stats(&self) -> (r: &EngineStats)
        ensures
            *r == self.stats_spec(),
    {
        &self.stats
    }

    /// Sets the placement policy.
    pub fn set_placement_policy(&mut self, policy: PlacementPolicy)
        requires
            old(self).wf(),
        ensures
            final(self).wf(),
            final(self).policy_spec() == policy,
            final(self).config_spec() == old(self).config_spec(),
            final(self).volumes_spec() == old(self).volumes_spec(),
            final(self).manager_spec() == old(self).manager_spec(),
    {
        self.placement_policy = policy;
    }

    /// Registers an in-memory device of `size_mb` MiB with the engine's
    /// device manager.
    pub fn register_mock_device(&mut self, name: &str, size_mb: u64) -> (r: Result<()>)
        requires
            old(self).wf(),
            size_mb * 1048576 <= u64::MAX,
        ensures
            r is Ok,
            final(self).wf(),
            final(self).config_spec() == old(self).config_spec(),
            final(self).volumes_spec() == old(self).volumes_spec(),
            final(self).manager_spec().handles_spec() == old(self).manager_spec().handles_spec(),
            super::bdev::device_index(final(self).manager_spec().devices_spec(), name@) is Some,
    {
        let r = self.shard_io.manager.register_mock_device(name, size_mb);
        proof {
            let m = self.shard_io.manager;
            assert forall|i: int| 0 <= i < m.devices_spec().len() implies (#[trigger] m.devices_spec()[i]).block_size
                * m.devices_spec()[i].num_blocks <= u64::MAX by {
                if m.devices_spec()[i].name@ == name@ {
                    let nb = size_mb * 1048576 / 4096;
                    assert(4096 * nb <= u64::MAX) by (nonlinear_arith)
                        requires
                            nb == size_mb * 1048576 / 4096,
                            size_mb * 1048576 <= u64::MAX,
                    ;
                } else {
                    assert(old(self).shard_io.manager.devices_spec()[i] == m.devices_spec()[i]);
                }
            }
        }
        r
    }

    fn find_volume(&self, volume_id: &str) -> (r: Option<usize>)
        requires
            self.wf(),
        ensures
            r == match volume_index(self.volumes_spec(), volume_id@) {
                Some(i) => Some(i as usize),
                None => None::<usize>,
            },
            r matches Some(i) ==> i < self.volumes_spec().len() && self.volumes_spec()[i as int].volume_id@
                == volume_id@,
    {
        let target = volume_id.to_owned();
        let mut i: usize = 0;
        while i < self.volumes.len()
            invariant
                self.wf(),
                0 <= i <= self.volumes@.len(),
                target@ == volume_id@,
                forall|j: int| 0 <= j < i ==> (#[trigger] self.volumes@[j]).volume_id@ != volume_id@,
            decreases self.volumes@.len() - i,
        {
            if self.volumes[i].volume_id == target {
                proof {
                    let k = choose|k: int| 0 <= k < self.volumes@.len() && (#[trigger] self.volumes@[k]).volume_id@ == volume_id@;
                    if k > i {
                        assert(self.volumes@[i as int].volume_id@ != self.volumes@[k].volume_id@);
                    }
                }
                return Some(i);
            }
            i += 1;
        }
        None
    }

    /// Creates a volume over `devices`, which must name at least as many
    /// devices as a stripe has shards.
    pub fn create_volume(&mut self, volume_id: &str, devices: Vec<String>) -> (r: Result<()>)
        requires
            old(self).wf(),
        ensures
            final(self).wf(),
            final(self).config_spec() == old(self).config_spec(),
            final(self).manager_spec() == old(self).manager_spec(),
            r is Ok <==> (volume_index(old(self).volumes_spec(), volume_id@) is None && devices@.len()
                >= old(self).config_spec().data_shards + old(self).config_spec().parity_shards),
            r matches Err(e) ==> e is InvalidEcConfig && final(self).volumes_spec() == old(self).volumes_spec(),
            r is Ok ==> {
                let v = final(self).volumes_spec().last();
                &&& final(self).volumes_spec() == old(self).volumes_spec().push(v)
                &&& v.volume_id@ == volume_id@
                &&& v.device_map == devices
                &&& v.config == old(self).config_spec()
                &&& v.stripes@.len() == 0
                &&& v.next_stripe_id == 1
                &&& final(self).stats_spec().total_volumes == add_w(old(self).stats_spec().total_volumes, 1)
            },
    {
        if self.find_volume(volume_id).is_some() {
            return Err(Error::InvalidEcConfig(volume_exists_message(volume_id)));
        }
        let required = self.config.total_shards();
        if devices.len() < required {
            return Err(Error::InvalidEcConfig(not_enough_devices_message(required, devices.len())));
        }
        let state = VolumeState::new(volume_id, self.config, devices);
        self.volumes.push(state);
        self.stats.total_volumes = self.stats.total_volumes.wrapping_add(1);
        proof {
            let last = self.volumes@.len() - 1;
            assert forall|a: int, b: int|
                0 <= a < b < self.volumes@.len() implies (#[trigger] self.volumes@[a]).volume_id@
                != (#[trigger] self.volumes@[b]).volume_id@ by {
                if b == last {
                    assert(old(self).volumes@[a].volume_id@ != volume_id@);
                }
            }
            assert(self.volumes_spec() =~= old(self).volumes_spec().push(self.volumes_spec().last()));
        }
        Ok(())
    }

    /// Deletes a volume.
    pub fn delete_volume(&mut self, volume_id: &str) -> (r: Result<()>)
        requires
            old(self).wf(),
        ensures
            final(self).wf(),
            final(self).config_spec() == old(self).config_spec(),
            final(self).manager_spec() == old(self).manager_spec(),
            r is Ok <==> volume_index(old(self).volumes_spec(), volume_id@) is Some,
            r matches Err(e) ==> e is InvalidEcConfig && final(self).volumes_spec() == old(self).volumes_spec(),
            r is Ok ==> final(self).volumes_spec() == old(self).volumes_spec().remove(
                volume_index(old(self).volumes_spec(), volume_id@)->0,
            ),
    {
        let vi = match self.find_volume(volume_id) {
            Some(i) => i,
            None => return Err(Error::InvalidEcConfig(volume_not_found_message(volume_id))),
        };
        let _v = self.volumes.remove(vi);
        proof {
            assert forall|a: int, b: int|
                0 <= a < b < self.volumes@.len() implies (#[trigger] self.volumes@[a]).volume_id@
                != (#[trigger] self.volumes@[b]).volume_id@ by {
                let oa = if a < vi { a } else { a + 1 };
                let ob = if b < vi { b } else { b + 1 };
                assert(self.volumes@[a] == old(self).volumes@[oa]);
                assert(self.volumes@[b] == old(self).volumes@[ob]);
            }
            assert forall|i: int| 0 <= i < self.volumes@.len() implies {
                let v = #[trigger] self.volumes@[i];
                &&& v.config == self.config
                &&& v.device_map@.len() >= self.config.data_shards + self.config.parity_shards
                &&& stripe_ids_unique(v.stripes@)
                &&& forall|j: int| 0 <= j < v.stripes@.len() ==> stripe_fits(#[trigger] v.stripes@[j], self.shard_io.shard_size)
            } by {
                let oi = if i < vi { i } else { i + 1 };
                assert(self.volumes@[i] == old(self).volumes@[oi]);
            }
        }
        Ok(())
    }

    /// The volume named `volume_id`.
    pub fn get_volume(&self, volume_id: &str) -> (r: Option<&VolumeState>)
        requires
            self.wf(),
        ensures
            r == match volume_index(self.volumes_spec(), volume_id@) {
                Some(i) => Some(&self.volumes_spec()[i]),
                None => None::<&VolumeState>,
            },
    {
        match self.find_volume(volume_id) {
            Some(i) => Some(&self.volumes[i]),
            None => None,
        }
    }

    /// Names of all volumes.
    pub fn list_volumes(&self) -> (r: Vec<String>)
        ensures
            r@.len() == self.volumes_spec().len(),
            forall|i: int| 0 <= i < r@.len() ==> (#[trigger] r@[i])@ == self.volumes_spec()[i].volume_id@,
    {
        let mut out: Vec<String> = Vec::new();
        let mut i: usize = 0;
        while i < self.volumes.len()
            invariant
                0 <= i <= self.volumes@.len(),
                out@.len() == i,
                forall|j: int| 0 <= j < i ==> (#[trigger] out@[j])@ == self.volumes@[j].volume_id@,
            decreases self.volumes@.len() - i,
        {
            out.push(self.volumes[i].volume_id.clone());
            i += 1;
        }
        out
    }

    /// Deletes stripe `stripe_id` of a volume.
    pub fn delete(&mut self, volume_id: &str, stripe_id: u64) -> (r: Result<()>)
        requires
            old(self).wf(),
        ensures
            final(self).wf(),
            final(self).config_spec() == old(self).config_spec(),
            final(self).manager_spec() == old(self).manager_spec(),
            final(self).volumes_spec().len() == old(self).volumes_spec().len(),
            match volume_index(old(self).volumes_spec(), volume_id@) {
                None => r matches Err(e) && e is InvalidEcConfig && final(self).volumes_spec() == old(self).volumes_spec(),
                Some(vi) => {
                    let v = old(self).volumes_spec()[vi];
                    let v2 = final(self).volumes_spec()[vi];
                    &&& (r is Ok <==> stripe_index(v.stripes@, stripe_id) is Some)
                    &&& r matches Err(e) ==> e is EcStripeNotFound && final(self).volumes_spec() == old(self).volumes_spec()
                    &&& r is Ok ==> {
                        &&& v2.stripes@ == v.stripes@.remove(stripe_index(v.stripes@, stripe_id)->0)
                        &&& v2.stats.stripes_deleted == add_w(v.stats.stripes_deleted, 1)
                        &&& v2.volume_id == v.volume_id
                        &&& v2.next_stripe_id == v.next_stripe_id
                        &&& forall|j: int|
                            0 <= j < old(self).volumes_spec().len() && j != vi ==> final(self).volumes_spec()[j]
                                == old(self).volumes_spec()[j]
                    }
                },
            },
    {
        let vi = match self.find_volume(volume_id) {
            Some(i) => i,
            None => return Err(Error::InvalidEcConfig(volume_not_found_message(volume_id))),
        };
        let si = match self.volumes[vi].find_stripe(stripe_id) {
            Some(i) => i,
            None => return Err(Error::EcStripeNotFound(stripe_not_found_message(stripe_id))),
        };
        let mut v = self.volumes.remove(vi);
        let ghost ov = v;
        let _md = v.stripes.remove(si);
        v.stats.stripes_deleted = v.stats.stripes_deleted.wrapping_add(1);
        proof {
            assert forall|a: int, b: int|
                0 <= a < b < v.stripes@.len() implies (#[trigger] v.stripes@[a]).stripe_id != (#[trigger] v.stripes@[b]).stripe_id by {
                let oa = if a < si { a } else { a + 1 };
                let ob = if b < si { b } else { b + 1 };
                assert(v.stripes@[a] == ov.stripes@[oa]);
                assert(v.stripes@[b] == ov.stripes@[ob]);
            }
            assert forall|j: int| 0 <= j < v.stripes@.len() implies stripe_fits(#[trigger] v.stripes@[j], self.shard_io.shard_size) by {
                let oj = if j < si { j } else { j + 1 };
                assert(v.stripes@[j] == ov.stripes@[oj]);
            }
        }
        self.volumes.insert(vi, v);
        proof {
            lemma_volumes_replaced(old(self).volumes@, self.volumes@, vi as int);
        }
        Ok(())
    }
}

/// Putting a volume back at the index it was taken from keeps the names
/// unique.
proof fn lemma_volumes_replaced(old_v: Seq<VolumeState>, new_v: Seq<VolumeState>, i: int)
    requires
        0 <= i < old_v.len(),
        new_v.len() == old_v.len(),
        new_v[i].volume_id@ == old_v[i].volume_id@,
        forall|j: int| 0 <= j < old_v.len() && j != i ==> new_v[j] == old_v[j],
        forall|a: int, b: int|
            0 <= a < b < old_v.len() ==> (#[trigger] old_v[a]).volume_id@ != (#[trigger] old_v[b]).volume_id@,
    ensures
        forall|a: int, b: int|
            0 <= a < b < new_v.len() ==> (#[trigger] new_v[a]).volume_id@ != (#[trigger] new_v[b]).volume_id@,
        volume_index(new_v, new_v[i].volume_id@) == Some(i),
{
    assert forall|a: int, b: int| 0 <= a < b < new_v.len() implies (#[trigger] new_v[a]).volume_id@
        != (#[trigger] new_v[b]).volume_id@ by {
        assert(new_v[a].volume_id@ == old_v[a].volume_id@);
        assert(new_v[b].volume_id@ == old_v[b].volume_id@);
    }
    let k = choose|k: int| 0 <= k < new_v.len() && (#[trigger] new_v[k]).volume_id@ == new_v[i].volume_id@;
    if k < i {
        assert(new_v[k].volume_id@ != new_v[i].volume_id@);
    } else if k > i {
        assert(new_v[i].volume_id@ != new_v[k].volume_id@);
    }
}

/// Message of a volume that exists already (`format!`).
#[verifier::external_body]
fn volume_exists_message(volume_id: &str) -> String {
    format!("volume already exists: {}", volume_id)
}

/// Message of too few devices for a volume (`format!`).
#[verifier::external_body]
fn not_enough_devices_message(required: usize, got: usize) -> String {
    format!("need at least {} devices, got {}", required, got)
}

/// Message of an unknown volume (`format!`).
#[verifier::external_body]
fn volume_not_found_message(volume_id: &str) -> String {
    format!("volume not found: {}", volume_id)
}

/// Message of an unknown stripe (`format!`).
#[verifier::external_body]
fn stripe_not_found_message(stripe_id: u64) -> String {
    format!("stripe {} not found", stripe_id)
}

/// Message of data longer than a stripe (`format!`).
#[verifier::external_body]
fn stripe_too_large_message(len: usize, stripe_size: usize) -> String {
    format!("data size {} exceeds stripe size {}", len, stripe_size)
}


/// What the open device named `dev` holds at `offset` (empty when the
/// device is not open).
pub open spec fn device_bytes(m: BdevManager, dev: Seq<char>, offset: u64) -> Seq<u8> {
    match handle_index(m.handles_spec(), dev) {
        Some(h) => m.handles_spec()[h].stored()[offset],
        None => Seq::empty(),
    }
}

/// Whether every shard of the next stripe of the volume at `vi` can be
/// written: shard `i` goes to the volume's device `i` at the stripe's offset.
pub open spec fn shards_writable(e: EcStorageEngine, vi: int) -> bool {
    let c = e.config_spec();
    let v = e.volumes_spec()[vi];
    forall|q: int|
        0 <= q < c.data_shards + c.parity_shards ==> #[trigger] shard_writable(
            e.manager_spec(),
            v.device_map@[q]@,
            stripe_offset(e, v.next_stripe_id) as u64,
            e.shard_len() as nat,
        )
}

/// Whether stripe `id` of volume `vol` holds some data (see `stripe_stored`).
pub open spec fn stripe_holds_data(e: EcStorageEngine, vol: Seq<char>, id: u64) -> bool {
    exists|d: Seq<u8>| #[trigger] stripe_stored(e, vol, id, d)
}

/// A stored stripe stays stored when configuration and volumes are kept
/// and every readable shard stays readable.
proof fn lemma_stored_kept(e0: EcStorageEngine, e1: EcStorageEngine, vol: Seq<char>, id: u64, d: Seq<u8>)
    requires
        stripe_stored(e0, vol, id, d),
        e1.config_spec() == e0.config_spec(),
        e1.volumes_spec() == e0.volumes_spec(),
        forall|n: Seq<char>, o: u64, b: Seq<u8>|
            #[trigger] shard_readable(e0.manager_spec(), n, o, b) ==> shard_readable(e1.manager_spec(), n, o, b),
    ensures
        stripe_stored(e1, vol, id, d),
{
    let c = e0.config_spec();
    let n = c.data_shards + c.parity_shards;
    let vi = volume_index(e0.volumes_spec(), vol)->0;
    let si = stripe_index(e0.volumes_spec()[vi].stripes@, id)->0;
    let md = e0.volumes_spec()[vi].stripes@[si];
    assert forall|i: int| 0 <= i < n implies {
        let b = device_bytes(e1.manager_spec(), (#[trigger] md.shards@[i]).device@, md.shards@[i].offset);
        &&& b.len() == e1.shard_len()
        &&& shard_readable(e1.manager_spec(), md.shards@[i].device@, md.shards@[i].offset, b)
        &&& i < c.data_shards ==> shard_holds_chunk(b, d, i, div_ceil(d.len() as int, c.data_shards as int), e1.shard_len() as int, true)
    } by {
        let b0 = device_bytes(e0.manager_spec(), md.shards@[i].device@, md.shards@[i].offset);
        assert(shard_readable(e0.manager_spec(), md.shards@[i].device@, md.shards@[i].offset, b0));
        assert(shard_readable(e1.manager_spec(), md.shards@[i].device@, md.shards@[i].offset, b0));
    }
}

/// Whether the first `n` device names of a map are distinct.
pub open spec fn devices_distinct(dm: Seq<String>, n: int) -> bool {
    forall|a: int, b: int| 0 <= a < b < n ==> (#[trigger] dm[a])@ != (#[trigger] dm[b])@
}

/// Whether stripe `id` of volume `vol` holds `data`: it is recorded with
/// the data's length and one placement per shard, every shard can be read
/// back from its device, and the data shards hold the data chunk by chunk.
pub open spec fn stripe_stored(e: EcStorageEngine, vol: Seq<char>, id: u64, data: Seq<u8>) -> bool {
    let c = e.config_spec();
    let k = c.data_shards as int;
    let n = c.data_shards + c.parity_shards;
    let ss = e.shard_len() as int;
    let per = div_ceil(data.len() as int, k);
    match volume_index(e.volumes_spec(), vol) {
        Some(vi) => match stripe_index(e.volumes_spec()[vi].stripes@, id) {
            Some(si) => {
                let md = e.volumes_spec()[vi].stripes@[si];
                &&& md.data_size == data.len()
                &&& data.len() <= c.stripe_size
                &&& md.shards@.len() == n
                &&& forall|i: int|
                    0 <= i < n ==> {
                        let b = device_bytes(e.manager_spec(), (#[trigger] md.shards@[i]).device@, md.shards@[i].offset);
                        &&& b.len() == ss
                        &&& shard_readable(e.manager_spec(), md.shards@[i].device@, md.shards@[i].offset, b)
                        &&& i < k ==> shard_holds_chunk(b, data, i, per, ss, true)
                    }
            },
            None => false,
        },
        None => false,
    }
}

/// Whether none of a stripe's shard placements is at `offset` on one of the
/// first `n` devices of `dm`.
pub open spec fn placements_avoid(md: StripeMetadata, dm: Seq<String>, n: int, offset: u64) -> bool {
    forall|i: int, q: int|
        0 <= i < md.shards@.len() && 0 <= q < n ==> !((#[trigger] md.shards@[i]).device@ == (#[trigger] dm[q])@
            && md.shards@[i].offset == offset)
}

/// Whether stripe `id` of volume `vol`, if there is one, has no shard at
/// `offset` on the first `n` devices of `dm`.
pub open spec fn stripe_apart(e: EcStorageEngine, vol: Seq<char>, id: u64, dm: Seq<String>, n: int, offset: u64) -> bool {
    match volume_index(e.volumes_spec(), vol) {
        Some(vi) => match stripe_index(e.volumes_spec()[vi].stripes@, id) {
            Some(si) => placements_avoid(e.volumes_spec()[vi].stripes@[si], dm, n, offset),
            None => true,
        },
        None => true,
    }
}

/// Where a volume's stripe `id` is written on each of its devices.
pub open spec fn stripe_offset(e: EcStorageEngine, id: u64) -> int {
    id * aligned_shard_size(e.shard_len() as int)
}

/// With unique names, the volume at `j` is the one found for its name.
proof fn lemma_volume_index_at(vols: Seq<VolumeState>, j: int)
    requires
        forall|a: int, b: int| 0 <= a < b < vols.len() ==> (#[trigger] vols[a]).volume_id@ != (#[trigger] vols[b]).volume_id@,
        0 <= j < vols.len(),
    ensures
        volume_index(vols, vols[j].volume_id@) == Some(j),
{
    let name = vols[j].volume_id@;
    assert(vols[j].volume_id@ == name);
    let i = choose|i: int| 0 <= i < vols.len() && (#[trigger] vols[i]).volume_id@ == name;
    if i < j {
        assert(vols[i].volume_id@ != vols[j].volume_id@);
    } else if i > j {
        assert(vols[j].volume_id@ != vols[i].volume_id@);
    }
}

/// With unique ids, the stripe at `j` is the one found for its id.
proof fn lemma_stripe_index_at(stripes: Seq<StripeMetadata>, j: int)
    requires
        stripe_ids_unique(stripes),
        0 <= j < stripes.len(),
    ensures
        stripe_index(stripes, stripes[j].stripe_id) == Some(j),
{
    let id = stripes[j].stripe_id;
    assert(stripes[j].stripe_id == id);
    let i = choose|i: int| 0 <= i < stripes.len() && (#[trigger] stripes[i]).stripe_id == id;
    if i < j {
        assert(stripes[i].stripe_id != stripes[j].stripe_id);
    } else if i > j {
        assert(stripes[j].stripe_id != stripes[i].stripe_id);
    }
}

/// Replacing one volume of a well-formed list by another of the same name
/// keeps every other volume where it is.
proof fn lemma_volume_index_other(vols: Seq<VolumeState>, vi: int, v: VolumeState, name: Seq<char>, c: EcEngineConfig, ss: usize)
    requires
        volumes_ok(vols, c, ss),
        0 <= vi < vols.len(),
        v.volume_id@ == vols[vi].volume_id@,
        volume_ok(v, c, ss),
    ensures
        volume_index(vols.update(vi, v), name) == volume_index(vols, name),
{
    let nv = vols.update(vi, v);
    lemma_volume_update(vols, vi, v, c, ss);
    if let Some(j) = volume_index(vols, name) {
        assert(vols[j].volume_id@ == name);
        assert(nv[j].volume_id@ == name);
        lemma_volume_index_at(nv, j);
    } else {
        if let Some(j) = volume_index(nv, name) {
            assert(nv[j].volume_id@ == name);
            assert(vols[j].volume_id@ == name);
        }
    }
}

/// Setting or pushing the metadata of stripe `md.stripe_id` keeps every
/// other stripe id mapped to its metadata.
proof fn lemma_stripe_index_other(old_s: Seq<StripeMetadata>, new_s: Seq<StripeMetadata>, md: StripeMetadata, id2: u64)
    requires
        stripe_ids_unique(old_s),
        match stripe_index(old_s, md.stripe_id) {
            Some(si) => new_s == old_s.update(si, md),
            None => new_s == old_s.push(md),
        },
        id2 != md.stripe_id,
    ensures
        stripe_index(old_s, id2) matches Some(j) ==> stripe_index(new_s, id2) == Some(j) && new_s[j] == old_s[j],
{
    lemma_stripe_set_or_push(old_s, new_s, md);
    if let Some(j) = stripe_index(old_s, id2) {
        assert(old_s[j].stripe_id == id2);
        if let Some(si) = stripe_index(old_s, md.stripe_id) {
            assert(old_s[si].stripe_id == md.stripe_id);
            assert(j != si);
        }
        assert(new_s[j] == old_s[j]);
        lemma_stripe_index_at(new_s, j);
    }
}

impl EcStorageEngine {
    /// Writes `data` as a new stripe of a volume: encodes it, writes shard
    /// `i` to device `i` of the volume (round-robin) at the stripe's offset
    /// (stripe id times the block-aligned shard size), records the stripe,
    /// and returns its id. When the volume's first devices are distinct,
    /// the stripe can then be read back.
    pub fn write(&mut self, volume_id: &str, data: &[u8]) -> (r: Result<u64>)
        requires
            old(self).wf(),
            aligned_shard_size(old(self).shard_len() as int) <= u64::MAX,
            volume_index(old(self).volumes_spec(), volume_id@) matches Some(vi) ==> old(self).volumes_spec()[vi].next_stripe_id
                * aligned_shard_size(old(self).shard_len() as int) + old(self).shard_len() <= u64::MAX,
        ensures
            final(self).wf(),
            final(self).config_spec() == old(self).config_spec(),
            volume_index(old(self).volumes_spec(), volume_id@) is None ==> (r matches Err(e) && e is InvalidEcConfig),
            data@.len() > old(self).config_spec().stripe_size ==> (r matches Err(e) && e is InvalidEcConfig),
            volume_index(old(self).volumes_spec(), volume_id@) matches Some(vi) && data@.len()
                <= old(self).config_spec().stripe_size && shards_writable(*old(self), vi) ==> r is Ok,
            r matches Err(e) ==> e is InvalidEcConfig || e is SpdkBdevError,
            r matches Ok(id) ==> {
                let vi = volume_index(old(self).volumes_spec(), volume_id@)->0;
                let v = old(self).volumes_spec()[vi];
                &&& id == v.next_stripe_id
                &&& volume_index(final(self).volumes_spec(), volume_id@) == Some(vi)
                &&& final(self).volumes_spec()[vi].next_stripe_id == add_w(v.next_stripe_id, 1)
                &&& devices_distinct(
                    v.device_map@,
                    old(self).config_spec().data_shards + old(self).config_spec().parity_shards,
                ) ==> stripe_stored(*final(self), volume_id@, id, data@)
                &&& forall|v2: Seq<char>, id2: u64, d: Seq<u8>|
                    !(v2 == volume_id@ && id2 == id) && stripe_apart(
                        *old(self),
                        v2,
                        id2,
                        v.device_map@,
                        old(self).config_spec().data_shards + old(self).config_spec().parity_shards,
                        stripe_offset(*old(self), id) as u64,
                    ) && #[trigger] stripe_stored(*old(self), v2, id2, d) ==> stripe_stored(*final(self), v2, id2, d)
            },
    {
        let vi = match self.find_volume(volume_id) {
            Some(i) => i,
            None => return Err(Error::InvalidEcConfig(volume_not_found_message(volume_id))),
        };
        if data.len() > self.config.stripe_size {
            return Err(Error::InvalidEcConfig(stripe_too_large_message(data.len(), self.config.stripe_size)));
        }
        proof {
            self.processor.lemma_wf();
        }
        let (shards, _info) = match self.processor.encode(data) {
            Ok(x) => x,
            Err(e) => return Err(e),
        };
        let ghost sv = bufs_view(shards@);
        let ghost p1 = self.processor;
        let ghost c = self.config;
        let ghost ss = shard_size_for(c.stripe_size, c.data_shards);
        let ghost k = c.data_shards as int;
        let n = shards.len();
        proof {
            assert forall|q: int| 0 <= q < n implies (#[trigger] shards@[q])@.len() == ss by {
                if q < k {
                    assert(shard_holds_chunk(
                        shards@[q]@,
                        data@,
                        q,
                        div_ceil(data@.len() as int, k),
                        ss as int,
                        true,
                    ));
                } else {
                    assert(shards@[k + (q - k)]@.len() == ss);
                }
            }
        }
        let mut vol = self.volumes.remove(vi);
        let ghost ov = vol;
        let stripe_id = vol.next_stripe_id();
        let len = data.len();
        let mut checksum: u64 = 0;
        let mut j: usize = 0;
        while j < len
            invariant
                len == data@.len(),
                0 <= j <= len,
            decreases len - j,
        {
            checksum = checksum.wrapping_add(data[j] as u64);
            j += 1;
        }
        let shard_size = self.config.shard_size();
        let ss64 = shard_size as u64;
        let blocks = if ss64 % 4096 == 0 {
            ss64 / 4096
        } else {
            ss64 / 4096 + 1
        };
        let aligned = blocks * 4096;
        let offset = stripe_id * aligned;
        let ghost distinct = devices_distinct(ov.device_map@, n as int);
        let ghost m_start = self.shard_io.manager;
        let ghost writable = shards_writable(*old(self), vi as int);
        proof {
            assert(offset == stripe_offset(*old(self), ov.next_stripe_id) as u64);
        }
        let mut placements: Vec<ShardPlacement> = Vec::new();
        let mut i: usize = 0;
        while i < n
            invariant
                n == shards@.len(),
                n == c.data_shards + c.parity_shards,
                0 <= i <= n,
                c == self.config,
                c == old(self).config,
                engine_config_valid(c),
                shard_size_fits(c.processor_config_spec()),
                p1.config_spec() == c.processor_config_spec(),
                volume_index(old(self).volumes_spec(), volume_id@) == Some(vi as int),
                ov.volume_id@ == volume_id@,
                data@.len() <= c.stripe_size,
                ss == shard_size_for(c.stripe_size, c.data_shards),
                shard_size == ss,
                offset + shard_size <= u64::MAX,
                self.processor == p1,
                p1.wf(),
                self.stats == old(self).stats,
                self.shard_io.shard_size == ss,
                self.volumes@ == old(self).volumes@.remove(vi as int),
                0 <= vi < old(self).volumes@.len(),
                volumes_ok(old(self).volumes@, c, ss),
                ov == old(self).volumes@[vi as int],
                vol.device_map == ov.device_map,
                vol.volume_id == ov.volume_id,
                vol.config == ov.config,
                vol.stripes == ov.stripes,
                ov.device_map@.len() >= n,
                sv == bufs_view(shards@),
                forall|q: int| 0 <= q < n ==> (#[trigger] shards@[q])@.len() == ss,
                self.shard_io.manager.wf(),
                devices_fit(self.shard_io.manager),
                distinct == devices_distinct(ov.device_map@, n as int),
                placements@.len() == i,
                forall|q: int|
                    0 <= q < i ==> (#[trigger] placements@[q]).shard_index == q && placements@[q].device@
                        == ov.device_map@[q]@ && placements@[q].offset == offset && placements@[q].healthy,
                distinct ==> forall|q: int|
                    0 <= q < i ==> #[trigger] shard_readable(
                        self.shard_io.manager,
                        ov.device_map@[q]@,
                        offset,
                        sv[q],
                    ),
                m_start == old(self).shard_io.manager,
                writable == shards_writable(*old(self), vi as int),
                offset == stripe_offset(*old(self), ov.next_stripe_id) as u64,
                writable ==> forall|q: int|
                    i <= q < n ==> #[trigger] shard_writable(self.shard_io.manager, ov.device_map@[q]@, offset, ss as nat),
                forall|nn: Seq<char>, o: u64, b: Seq<u8>|
                    (forall|q: int| 0 <= q < i ==> !(nn == (#[trigger] ov.device_map@[q])@ && o == offset))
                        && #[trigger] shard_readable(m_start, nn, o, b) ==> shard_readable(self.shard_io.manager, nn, o, b),
            decreases n - i,
        {
            let device = vol.device_for_shard(i);
            let device = match device {
                Some(d) => d,
                None => {
                    proof {
                        assert(false);
                    }
                    return Err(Error::InvalidEcConfig(no_device_message(i)));
                },
            };
            assert((i as int) % (ov.device_map@.len() as int) == i as int) by {
                vstd::arithmetic::div_mod::lemma_small_mod(i as nat, ov.device_map@.len() as nat);
            }
            let ghost m0 = self.shard_io.manager;
            proof {
                if writable {
                    assert(shard_writable(m0, ov.device_map@[i as int]@, offset, ss as nat));
                    assert(shards@[i as int]@.len() == ss);
                }
            }
            match self.shard_io.write_shard(device, offset, &shards[i]) {
                Ok(_) => {},
                Err(e) => {
                    self.volumes.insert(vi, vol);
                    proof {
                        assert(volume_ok(old(self).volumes@[vi as int], c, ss));
                        assert(self.volumes@ =~= old(self).volumes@.update(vi as int, vol));
                        lemma_volume_update(old(self).volumes@, vi as int, vol, c, ss);
                    }
                    return Err(e);
                },
            }
            proof {
                if writable {
                    assert forall|q: int| i + 1 <= q < n implies #[trigger] shard_writable(
                        self.shard_io.manager,
                        ov.device_map@[q]@,
                        offset,
                        ss as nat,
                    ) by {
                        assert(shard_writable(m0, ov.device_map@[q]@, offset, ss as nat));
                    }
                }
                assert forall|nn: Seq<char>, o: u64, b: Seq<u8>|
                    (forall|q: int| 0 <= q < i + 1 ==> !(nn == (#[trigger] ov.device_map@[q])@ && o == offset))
                        && #[trigger] shard_readable(m_start, nn, o, b) implies shard_readable(self.shard_io.manager, nn, o, b) by {
                    assert(!(nn == ov.device_map@[i as int]@ && o == offset));
                    assert(forall|q: int| 0 <= q < i ==> !(nn == (#[trigger] ov.device_map@[q])@ && o == offset));
                    assert(shard_readable(m0, nn, o, b));
                }
                if distinct {
                    assert forall|q: int| 0 <= q < i + 1 implies #[trigger] shard_readable(
                        self.shard_io.manager,
                        ov.device_map@[q]@,
                        offset,
                        sv[q],
                    ) by {
                        if q < i {
                            assert(ov.device_map@[q]@ != ov.device_map@[i as int]@);
                            assert(shard_readable(m0, ov.device_map@[q]@, offset, sv[q]));
                        } else {
                            assert(sv[q] == shards@[i as int]@);
                        }
                    }
                }
            }
            placements.push(ShardPlacement { shard_index: i, device: device.to_owned(), offset, healthy: true });
            i += 1;
        }
        let metadata = StripeMetadata {
            stripe_id,
            data_size: len,
            shard_size,
            shards: placements,
            checksum,
            created_at: instant_now(),
            complete: true,
        };
        let ghost md = metadata;
        let ghost old_stripes = vol.stripes@;
        match vol.find_stripe(stripe_id) {
            Some(si) => {
                vol.stripes.set(si, metadata);
            },
            None => {
                vol.stripes.push(metadata);
            },
        }
        self.processor.release_shards(shards);
        vol.stats.record_write(len, true);
        let ghost nv = vol;
        proof {
            lemma_stripe_set_or_push(old_stripes, nv.stripes@, md);
            assert forall|q: int| 0 <= q < nv.stripes@.len() implies stripe_fits(#[trigger] nv.stripes@[q], ss) by {
                if nv.stripes@[q] != md {
                    let w = lemma_stripe_origin(old_stripes, nv.stripes@, md, q);
                    assert(stripe_fits(old_stripes[w], ss));
                }
            }
            assert(volume_ok(nv, c, ss));
        }
        self.volumes.insert(vi, vol);
        self.stats.total_bytes_written = self.stats.total_bytes_written.wrapping_add(len as u64);
        self.stats.total_stripes = self.stats.total_stripes.wrapping_add(1);
        proof {
            assert(self.volumes@ =~= old(self).volumes@.update(vi as int, nv));
            lemma_volume_update(old(self).volumes@, vi as int, nv, c, ss);
            if distinct {
                let per = div_ceil(len as int, k);
                let si = stripe_index(nv.stripes@, stripe_id)->0;
                assert(nv.stripes@[si] == md);
                assert(md.shards@.len() == n);
                assert forall|q: int| 0 <= q < n implies {
                    let b = device_bytes(self.shard_io.manager, (#[trigger] md.shards@[q]).device@, md.shards@[q].offset);
                    &&& b.len() == ss
                    &&& shard_readable(self.shard_io.manager, md.shards@[q].device@, md.shards@[q].offset, b)
                    &&& q < k ==> shard_holds_chunk(b, data@, q, per, ss as int, true)
                } by {
                    assert(md.shards@[q].device@ == ov.device_map@[q]@);
                    assert(shard_readable(self.shard_io.manager, ov.device_map@[q]@, offset, sv[q]));
                    assert(device_bytes(self.shard_io.manager, ov.device_map@[q]@, offset) == sv[q]);
                    assert(sv[q] == shards@[q]@);
                }
                assert(stripe_stored(*self, volume_id@, stripe_id, data@));
            }
            let dm = ov.device_map@;
            assert forall|v2: Seq<char>, id2: u64, d: Seq<u8>|
                !(v2 == volume_id@ && id2 == stripe_id) && stripe_apart(*old(self), v2, id2, dm, n as int, offset)
                    && #[trigger] stripe_stored(*old(self), v2, id2, d) implies stripe_stored(*self, v2, id2, d) by {
                lemma_volume_index_other(old(self).volumes@, vi as int, nv, v2, c, ss);
                let vi2 = volume_index(old(self).volumes_spec(), v2)->0;
                let os = old(self).volumes_spec()[vi2].stripes@;
                let si2 = stripe_index(os, id2)->0;
                let md2 = os[si2];
                assert(volume_index(self.volumes_spec(), v2) == Some(vi2));
                if vi2 == vi as int {
                    assert(v2 == volume_id@);
                    assert(id2 != stripe_id);
                    assert(os == old_stripes);
                    lemma_stripe_index_other(old_stripes, nv.stripes@, md, id2);
                    assert(self.volumes_spec()[vi2].stripes@ == nv.stripes@);
                } else {
                    assert(self.volumes_spec()[vi2] == old(self).volumes_spec()[vi2]);
                }
                assert(stripe_index(self.volumes_spec()[vi2].stripes@, id2) == Some(si2));
                assert(self.volumes_spec()[vi2].stripes@[si2] == md2);
                assert(placements_avoid(md2, dm, n as int, offset));
                assert forall|q: int| 0 <= q < md2.shards@.len() implies {
                    let b = device_bytes(self.shard_io.manager, (#[trigger] md2.shards@[q]).device@, md2.shards@[q].offset);
                    &&& b.len() == ss
                    &&& shard_readable(self.shard_io.manager, md2.shards@[q].device@, md2.shards@[q].offset, b)
                    &&& q < k ==> shard_holds_chunk(b, d, q, div_ceil(d.len() as int, k), ss as int, true)
                } by {
                    let p = md2.shards@[q];
                    let b0 = device_bytes(m_start, p.device@, p.offset);
                    assert(shard_readable(m_start, p.device@, p.offset, b0));
                    assert forall|w: int| 0 <= w < n implies !(p.device@ == (#[trigger] dm[w])@ && p.offset == offset) by {
                        assert(!((md2.shards@[q]).device@ == (dm[w])@ && md2.shards@[q].offset == offset));
                    }
                    assert(shard_readable(self.shard_io.manager, p.device@, p.offset, b0));
                    assert(device_bytes(self.shard_io.manager, p.device@, p.offset) == b0);
                }
            }
        }
        Ok(stripe_id)
    }
}

impl EcStorageEngine {
    /// Reads stripe `stripe_id` of a volume: fetches every shard from its
    /// device (a shard that cannot be read becomes an erasure of zeros),
    /// fails if more shards are missing than there are parity shards,
    /// otherwise reconstructs and reassembles the data. A stripe that holds
    /// `d` (see `stripe_stored`) reads back as `d`.
    pub fn read(&mut self, volume_id: &str, stripe_id: u64) -> (r: Result<Vec<u8>>)
        requires
            old(self).wf(),
        ensures
            final(self).wf(),
            final(self).config_spec() == old(self).config_spec(),
            volume_index(old(self).volumes_spec(), volume_id@) is None ==> (r matches Err(e) && e is InvalidEcConfig),
            volume_index(old(self).volumes_spec(), volume_id@) matches Some(vi) && stripe_index(
                old(self).volumes_spec()[vi].stripes@,
                stripe_id,
            ) is None ==> (r matches Err(e) && e is EcStripeNotFound),
            forall|d: Seq<u8>| #[trigger] stripe_stored(*old(self), volume_id@, stripe_id, d) ==> (r matches Ok(v) && v@ == d),
    {
        let vi = match self.find_volume(volume_id) {
            Some(i) => i,
            None => return Err(Error::InvalidEcConfig(volume_not_found_message(volume_id))),
        };
        let si = match self.volumes[vi].find_stripe(stripe_id) {
            Some(i) => i,
            None => return Err(Error::EcStripeNotFound(stripe_not_found_message(stripe_id))),
        };
        let ghost c = self.config;
        let ghost ss = shard_size_for(c.stripe_size, c.data_shards);
        let ghost m0 = self.shard_io.manager;
        let ghost good = exists|d: Seq<u8>| #[trigger] stripe_stored(*old(self), volume_id@, stripe_id, d);
        proof {
            assert(volume_ok(self.volumes@[vi as int], c, ss));
            assert(stripe_fits(self.volumes@[vi as int].stripes@[si as int], ss));
            self.processor.lemma_wf();
        }
        let nplace = self.volumes[vi].stripes[si].shards.len();
        let mut shards: Vec<DmaBuf> = Vec::new();
        let mut erasures: Vec<usize> = Vec::new();
        let mut p: usize = 0;
        while p < nplace
            invariant
                0 <= vi < self.volumes@.len(),
                0 <= si < self.volumes@[vi as int].stripes@.len(),
                self.volumes == old(self).volumes,
                self.config == c,
                self.processor == old(self).processor,
                self.stats == old(self).stats,
                self.shard_io.shard_size == ss,
                ss == shard_size_for(c.stripe_size, c.data_shards),
                ss > 0,
                nplace == self.volumes@[vi as int].stripes@[si as int].shards@.len(),
                stripe_fits(self.volumes@[vi as int].stripes@[si as int], ss),
                self.shard_io.manager.wf(),
                devices_fit(self.shard_io.manager),
                0 <= p <= nplace,
                shards@.len() == p,
                forall|q: int| 0 <= q < p ==> (#[trigger] shards@[q])@.len() == ss,
                erasures@.len() <= p,
                forall|n: Seq<char>, o: u64, b: Seq<u8>|
                    #[trigger] shard_readable(m0, n, o, b) ==> shard_readable(self.shard_io.manager, n, o, b),
                good ==> erasures@.len() == 0,
                good ==> forall|q: int|
                    0 <= q < p ==> (#[trigger] shards@[q])@ == device_bytes(
                        m0,
                        self.volumes@[vi as int].stripes@[si as int].shards@[q].device@,
                        self.volumes@[vi as int].stripes@[si as int].shards@[q].offset,
                    ),
                good == exists|d: Seq<u8>| #[trigger] stripe_stored(*old(self), volume_id@, stripe_id, d),
                volume_index(old(self).volumes_spec(), volume_id@) == Some(vi as int),
                stripe_index(old(self).volumes_spec()[vi as int].stripes@, stripe_id) == Some(si as int),
                m0 == old(self).shard_io.manager,
                c == old(self).config,
            decreases nplace - p,
        {
            let pl = &self.volumes[vi].stripes[si].shards[p];
            let ghost mp = self.shard_io.manager;
            proof {
                if good {
                    let d = choose|d: Seq<u8>| #[trigger] stripe_stored(*old(self), volume_id@, stripe_id, d);
                    assert(stripe_stored(*old(self), volume_id@, stripe_id, d));
                    let md = self.volumes@[vi as int].stripes@[si as int];
                    assert(md == old(self).volumes_spec()[vi as int].stripes@[si as int]);
                    let b = device_bytes(m0, md.shards@[p as int].device@, md.shards@[p as int].offset);
                    assert(shard_readable(m0, md.shards@[p as int].device@, md.shards@[p as int].offset, b));
                    assert(shard_readable(mp, md.shards@[p as int].device@, md.shards@[p as int].offset, b));
                }
            }
            match self.shard_io.read_shard(pl.device.as_str(), pl.offset) {
                Ok((buf, _)) => {
                    shards.push(buf);
                },
                Err(_) => {
                    erasures.push(pl.shard_index);
                    let z = match DmaBuf::new_zeroed(self.shard_io.shard_size) {
                        Ok(b) => b,
                        Err(e) => return Err(e),
                    };
                    shards.push(z);
                },
            }
            p += 1;
        }
        let k = self.config.data_shards as usize;
        let m = self.config.parity_shards as usize;
        let reconstructed = erasures.len() > 0;
        if reconstructed && erasures.len() > m {
            return Err(Error::InsufficientShards { available: shards.len() - erasures.len(), required: k });
        }
        let data_size = self.volumes[vi].stripes[si].data_size;
        proof {
            assert forall|q: int| 0 <= q < k && q < shards@.len() implies (#[trigger] shards@[q])@.len()
                >= super::stripe_processor::read_len(q, data_size, c.data_shards, self.processor.shard_len()) by {
                assert(self.processor.shard_len() == ss);
            }
        }
        let ghost sh0 = shards@;
        let data = match self.processor.decode(shards.as_mut_slice(), erasures.as_slice(), data_size) {
            Ok(v) => v,
            Err(e) => return Err(e),
        };
        proof {
            assert forall|d: Seq<u8>| #[trigger] stripe_stored(*old(self), volume_id@, stripe_id, d) implies data@ == d by {
                let md = old(self).volumes_spec()[vi as int].stripes@[si as int];
                let per = div_ceil(d.len() as int, k as int);
                let bv = bufs_view(sh0);
                assert(bv.len() == k + m);
                assert forall|q: int| 0 <= q < k implies shard_holds_chunk(#[trigger] bv[q], d, q, per, ss as int, true) by {
                    assert(bv[q] == device_bytes(m0, md.shards@[q].device@, md.shards@[q].offset));
                }
                lemma_div_ceil_mono(d.len() as int, c.stripe_size as int, k as int);
                law_reassemble_inverts_layout(bv, d, k as nat, ss as int, true);
                assert(bufs_view(shards@) =~= bv);
            }
        }
        let mut vol = self.volumes.remove(vi);
        vol.stats.record_read(data.len(), true, reconstructed);
        let ghost nv = vol;
        self.volumes.insert(vi, vol);
        self.stats.total_bytes_read = self.stats.total_bytes_read.wrapping_add(data.len() as u64);
        if reconstructed {
            self.stats.total_reconstructions = self.stats.total_reconstructions.wrapping_add(1);
        }
        proof {
            assert(volume_ok(old(self).volumes@[vi as int], c, ss));
            assert(volume_ok(nv, c, ss));
            assert(self.volumes@ =~= old(self).volumes@.update(vi as int, nv));
            lemma_volume_update(old(self).volumes@, vi as int, nv, c, ss);
        }
        Ok(data)
    }
}

impl EcStorageEngine {
    /// Checks a stripe's health: tries to read each shard; healthy when
    /// all can be read, degraded when at least `k` can, critical otherwise.
    pub fn check_stripe_health(&mut self, volume_id: &str, stripe_id: u64) -> (r: Result<StripeHealth>)
        requires
            old(self).wf(),
        ensures
            final(self).wf(),
            final(self).config_spec() == old(self).config_spec(),
            final(self).volumes_spec() == old(self).volumes_spec(),
            volume_index(old(self).volumes_spec(), volume_id@) is None ==> (r matches Err(e) && e is InvalidEcConfig),
            volume_index(old(self).volumes_spec(), volume_id@) matches Some(vi) ==> (stripe_index(
                old(self).volumes_spec()[vi].stripes@,
                stripe_id,
            ) is None <==> r is Err),
            r is Err ==> (volume_index(old(self).volumes_spec(), volume_id@) is None || (r matches Err(e) && e is EcStripeNotFound)),
            r matches Ok(h) ==> {
                let vi = volume_index(old(self).volumes_spec(), volume_id@)->0;
                let md = old(self).volumes_spec()[vi].stripes@[stripe_index(old(self).volumes_spec()[vi].stripes@, stripe_id)->0];
                let total = old(self).config_spec().data_shards + old(self).config_spec().parity_shards;
                let required = old(self).config_spec().data_shards as int;
                &&& h.stripe_id == stripe_id
                &&& h.total_shards == total
                &&& h.healthy_shards + h.degraded_shards@.len() == md.shards@.len()
                &&& h.status == stripe_status(h.healthy_shards as int, total, required)
                &&& h.can_reconstruct == (h.healthy_shards >= required)
                &&& (h.status == HealthStatus::Critical <==> !h.can_reconstruct)
                &&& (h.status == HealthStatus::Healthy <==> h.healthy_shards == total)
                &&& (h.status == HealthStatus::Degraded <==> h.can_reconstruct && h.healthy_shards != total)
            },
            forall|d: Seq<u8>| #[trigger] stripe_stored(*old(self), volume_id@, stripe_id, d) ==> (r matches Ok(h)
                && h.status == HealthStatus::Healthy && h.healthy_shards == h.total_shards && h.degraded_shards@.len() == 0),
            forall|v: Seq<char>, id: u64, d: Seq<u8>|
                #[trigger] stripe_stored(*old(self), v, id, d) ==> stripe_stored(*final(self), v, id, d),
    {
        let vi = match self.find_volume(volume_id) {
            Some(i) => i,
            None => return Err(Error::InvalidEcConfig(volume_not_found_message(volume_id))),
        };
        let si = match self.volumes[vi].find_stripe(stripe_id) {
            Some(i) => i,
            None => return Err(Error::EcStripeNotFound(stripe_not_found_message(stripe_id))),
        };
        let ghost c = self.config;
        let ghost ss = shard_size_for(c.stripe_size, c.data_shards);
        let ghost m0 = self.shard_io.manager;
        let ghost good = exists|d: Seq<u8>| #[trigger] stripe_stored(*old(self), volume_id@, stripe_id, d);
        proof {
            assert(volume_ok(self.volumes@[vi as int], c, ss));
            assert(stripe_fits(self.volumes@[vi as int].stripes@[si as int], ss));
            self.processor.lemma_wf();
        }
        let nplace = self.volumes[vi].stripes[si].shards.len();
        let mut healthy_count: usize = 0;
        let mut degraded_shards: Vec<usize> = Vec::new();
        let mut p: usize = 0;
        while p < nplace
            invariant
                0 <= vi < self.volumes@.len(),
                0 <= si < self.volumes@[vi as int].stripes@.len(),
                self.volumes == old(self).volumes,
                self.config == c,
                self.processor == old(self).processor,
                self.stats == old(self).stats,
                self.placement_policy == old(self).placement_policy,
                self.shard_io.shard_size == ss,
                ss == shard_size_for(c.stripe_size, c.data_shards),
                ss > 0,
                nplace == self.volumes@[vi as int].stripes@[si as int].shards@.len(),
                stripe_fits(self.volumes@[vi as int].stripes@[si as int], ss),
                self.shard_io.manager.wf(),
                devices_fit(self.shard_io.manager),
                0 <= p <= nplace,
                healthy_count + degraded_shards@.len() == p,
                forall|n: Seq<char>, o: u64, b: Seq<u8>|
                    #[trigger] shard_readable(m0, n, o, b) ==> shard_readable(self.shard_io.manager, n, o, b),
                good ==> degraded_shards@.len() == 0,
                good == exists|d: Seq<u8>| #[trigger] stripe_stored(*old(self), volume_id@, stripe_id, d),
                volume_index(old(self).volumes_spec(), volume_id@) == Some(vi as int),
                stripe_index(old(self).volumes_spec()[vi as int].stripes@, stripe_id) == Some(si as int),
                m0 == old(self).shard_io.manager,
                c == old(self).config,
            decreases nplace - p,
        {
            let pl = &self.volumes[vi].stripes[si].shards[p];
            let ghost mp = self.shard_io.manager;
            proof {
                if good {
                    let d = choose|d: Seq<u8>| #[trigger] stripe_stored(*old(self), volume_id@, stripe_id, d);
                    assert(stripe_stored(*old(self), volume_id@, stripe_id, d));
                    let md = self.volumes@[vi as int].stripes@[si as int];
                    assert(md == old(self).volumes_spec()[vi as int].stripes@[si as int]);
                    let b = device_bytes(m0, md.shards@[p as int].device@, md.shards@[p as int].offset);
                    assert(shard_readable(m0, md.shards@[p as int].device@, md.shards@[p as int].offset, b));
                    assert(shard_readable(mp, md.shards@[p as int].device@, md.shards@[p as int].offset, b));
                }
            }
            match self.shard_io.read_shard(pl.device.as_str(), pl.offset) {
                Ok(_) => {
                    healthy_count += 1;
                },
                Err(_) => {
                    degraded_shards.push(pl.shard_index);
                },
            }
            p += 1;
        }
        proof {
            assert forall|v: Seq<char>, id: u64, d: Seq<u8>|
                #[trigger] stripe_stored(*old(self), v, id, d) implies stripe_stored(*self, v, id, d) by {
                lemma_stored_kept(*old(self), *self, v, id, d);
            }
        }
        let total = self.config.total_shards();
        let required = self.config.data_shards as usize;
        let status = if healthy_count == total {
            HealthStatus::Healthy
        } else if healthy_count >= required {
            HealthStatus::Degraded
        } else {
            HealthStatus::Critical
        };
        Ok(
            StripeHealth {
                stripe_id,
                status,
                healthy_shards: healthy_count,
                total_shards: total,
                degraded_shards,
                can_reconstruct: healthy_count >= required,
            },
        )
    }

    /// Volume health: checks every stripe (in stripe order) and counts the
    /// healthy, degraded and critical ones.
    pub fn get_volume_health(&mut self, volume_id: &str) -> (r: Result<VolumeHealth>)
        requires
            old(self).wf(),
        ensures
            final(self).wf(),
            final(self).config_spec() == old(self).config_spec(),
            final(self).volumes_spec() == old(self).volumes_spec(),
            r is Err <==> volume_index(old(self).volumes_spec(), volume_id@) is None,
            r matches Err(e) ==> e is InvalidEcConfig,
            r matches Ok(h) ==> {
                let vi = volume_index(old(self).volumes_spec(), volume_id@)->0;
                &&& h.volume_id@ == volume_id@
                &&& h.total_stripes == old(self).volumes_spec()[vi].stripes@.len()
                &&& h.healthy_stripes + h.degraded_stripes + h.critical_stripes == h.total_stripes
                &&& h.status == volume_status(h.degraded_stripes as int, h.critical_stripes as int)
            },
            r matches Ok(h) ==> {
                let stripes = old(self).volumes_spec()[volume_index(old(self).volumes_spec(), volume_id@)->0].stripes@;
                (forall|j: int| 0 <= j < stripes.len() ==> #[trigger] stripe_holds_data(*old(self), volume_id@, stripes[j].stripe_id))
                    ==> h.healthy_stripes == h.total_stripes && h.status == HealthStatus::Healthy
            },
            forall|v: Seq<char>, id: u64, d: Seq<u8>|
                #[trigger] stripe_stored(*old(self), v, id, d) ==> stripe_stored(*final(self), v, id, d),
    {
        let vi = match self.find_volume(volume_id) {
            Some(i) => i,
            None => return Err(Error::InvalidEcConfig(volume_not_found_message(volume_id))),
        };
        let count = self.volumes[vi].stripes.len();
        let mut ids: Vec<u64> = Vec::new();
        let mut t: usize = 0;
        while t < count
            invariant
                0 <= vi < self.volumes@.len(),
                count == self.volumes@[vi as int].stripes@.len(),
                0 <= t <= count,
                ids@.len() == t,
                forall|j: int| 0 <= j < t ==> ids@[j] == self.volumes@[vi as int].stripes@[j].stripe_id,
            decreases count - t,
        {
            ids.push(self.volumes[vi].stripes[t].stripe_id);
            t += 1;
        }
        let ghost stripes = old(self).volumes_spec()[vi as int].stripes@;
        let ghost all_good = forall|j: int|
            0 <= j < stripes.len() ==> #[trigger] stripe_holds_data(*old(self), volume_id@, stripes[j].stripe_id);
        let mut healthy: usize = 0;
        let mut degraded: usize = 0;
        let mut critical: usize = 0;
        let mut i: usize = 0;
        while i < count
            invariant
                self.wf(),
                self.config == old(self).config,
                self.volumes@ == old(self).volumes@,
                count == ids@.len(),
                count == stripes.len(),
                stripes == old(self).volumes_spec()[vi as int].stripes@,
                forall|j: int| 0 <= j < count ==> ids@[j] == stripes[j].stripe_id,
                0 <= i <= count,
                healthy + degraded + critical == i,
                all_good == forall|j: int|
                    0 <= j < stripes.len() ==> #[trigger] stripe_holds_data(*old(self), volume_id@, stripes[j].stripe_id),
                all_good ==> healthy == i,
                forall|v: Seq<char>, id: u64, d: Seq<u8>|
                    #[trigger] stripe_stored(*old(self), v, id, d) ==> stripe_stored(*self, v, id, d),
            decreases count - i,
        {
            proof {
                if all_good {
                    assert(stripe_holds_data(*old(self), volume_id@, stripes[i as int].stripe_id));
                    let d = choose|d: Seq<u8>| #[trigger] stripe_stored(*old(self), volume_id@, stripes[i as int].stripe_id, d);
                    assert(stripe_stored(*self, volume_id@, ids@[i as int], d));
                }
            }
            match self.check_stripe_health(volume_id, ids[i]) {
                Ok(h) => match h.status {
                    HealthStatus::Healthy => healthy += 1,
                    HealthStatus::Degraded => degraded += 1,
                    HealthStatus::Critical => critical += 1,
                },
                Err(_) => critical += 1,
            }
            i += 1;
        }
        let overall = if critical > 0 {
            HealthStatus::Critical
        } else if degraded > 0 {
            HealthStatus::Degraded
        } else {
            HealthStatus::Healthy
        };
        Ok(
            VolumeHealth {
                volume_id: volume_id.to_owned(),
                status: overall,
                healthy_stripes: healthy,
                degraded_stripes: degraded,
                critical_stripes: critical,
                total_stripes: healthy + degraded + critical,
            },
        )
    }
}

/// Every metadata entry after a set or push by id other than the new one
/// was there before.
proof fn lemma_stripe_origin(old_s: Seq<StripeMetadata>, new_s: Seq<StripeMetadata>, md: StripeMetadata, q: int) -> (w: int)
    requires
        stripe_ids_unique(old_s),
        match stripe_index(old_s, md.stripe_id) {
            Some(si) => new_s == old_s.update(si, md),
            None => new_s == old_s.push(md),
        },
        0 <= q < new_s.len(),
        new_s[q] != md,
    ensures
        0 <= w < old_s.len(),
        old_s[w] == new_s[q],
{
    q
}

/// After setting or pushing a stripe's metadata by id, ids stay unique and
/// the id maps to the new metadata; every other entry was there before.
proof fn lemma_stripe_set_or_push(old_s: Seq<StripeMetadata>, new_s: Seq<StripeMetadata>, md: StripeMetadata)
    requires
        stripe_ids_unique(old_s),
        match stripe_index(old_s, md.stripe_id) {
            Some(si) => new_s == old_s.update(si, md),
            None => new_s == old_s.push(md),
        },
    ensures
        stripe_ids_unique(new_s),
        stripe_index(new_s, md.stripe_id) is Some,
        new_s[stripe_index(new_s, md.stripe_id)->0] == md,
{
    let id = md.stripe_id;
    match stripe_index(old_s, id) {
        Some(si) => {
            assert(old_s[si].stripe_id == id);
            assert forall|a: int, b: int| 0 <= a < b < new_s.len() implies (#[trigger] new_s[a]).stripe_id
                != (#[trigger] new_s[b]).stripe_id by {
                assert(new_s[a].stripe_id == old_s[a].stripe_id);
                assert(new_s[b].stripe_id == old_s[b].stripe_id);
            }
            assert(new_s[si].stripe_id == id);
            let k = choose|k: int| 0 <= k < new_s.len() && (#[trigger] new_s[k]).stripe_id == id;
            if k < si {
                assert(new_s[k].stripe_id != new_s[si].stripe_id);
            } else if k > si {
                assert(new_s[si].stripe_id != new_s[k].stripe_id);
            }
        },
        None => {
            let last = new_s.len() - 1;
            assert forall|a: int, b: int| 0 <= a < b < new_s.len() implies (#[trigger] new_s[a]).stripe_id
                != (#[trigger] new_s[b]).stripe_id by {
                if b == last {
                    assert(old_s[a].stripe_id != id);
                }
            }
            assert(new_s[last].stripe_id == id);
            let k = choose|k: int| 0 <= k < new_s.len() && (#[trigger] new_s[k]).stripe_id == id;
            if k < last {
                assert(old_s[k].stripe_id == id);
            }
        },
    }
}

/// A stripe stores one piece of data: two byte strings that are both
/// stored under the same volume and stripe id are equal, so a read of a
/// stored stripe has only one correct answer.
pub proof fn law_stored_stripe_is_unique(e: EcStorageEngine, vol: Seq<char>, id: u64, d1: Seq<u8>, d2: Seq<u8>)
    requires
        e.wf(),
        stripe_stored(e, vol, id, d1),
        stripe_stored(e, vol, id, d2),
    ensures
        d1 == d2,
{
    let c = e.config_spec();
    let k = c.data_shards as int;
    let ss = e.shard_len() as int;
    let vi = volume_index(e.volumes_spec(), vol)->0;
    let si = stripe_index(e.volumes_spec()[vi].stripes@, id)->0;
    let md = e.volumes_spec()[vi].stripes@[si];
    let m = e.manager_spec();
    e.processor.lemma_wf();
    assert(e.processor.shard_len() == e.shard_len());
    let bv = Seq::new(k as nat, |i: int| device_bytes(m, md.shards@[i].device@, md.shards@[i].offset));
    lemma_div_ceil_mono(d1.len() as int, c.stripe_size as int, k);
    assert forall|i: int| 0 <= i < k implies shard_holds_chunk(#[trigger] bv[i], d1, i, div_ceil(d1.len() as int, k), ss, true) by {
        assert(bv[i] == device_bytes(m, md.shards@[i].device@, md.shards@[i].offset));
    }
    assert forall|i: int| 0 <= i < k implies shard_holds_chunk(#[trigger] bv[i], d2, i, div_ceil(d2.len() as int, k), ss, true) by {
        assert(bv[i] == device_bytes(m, md.shards@[i].device@, md.shards@[i].offset));
    }
    law_reassemble_inverts_layout(bv, d1, k as nat, ss, true);
    law_reassemble_inverts_layout(bv, d2, k as nat, ss, true);
}

/// A deleted stripe is gone: once the stripe with id `id` is removed from
/// a volume's stripes (as `delete` does), no stripe has that id, so a read
/// of it fails with `EcStripeNotFound`.
pub proof fn law_deleted_stripe_is_gone(stripes: Seq<StripeMetadata>, id: u64)
    requires
        stripe_ids_unique(stripes),
        stripe_index(stripes, id) is Some,
    ensures
        stripe_index(stripes.remove(stripe_index(stripes, id)->0), id) is None,
{
    let si = stripe_index(stripes, id)->0;
    let rest = stripes.remove(si);
    assert(stripes[si].stripe_id == id);
    if let Some(j) = stripe_index(rest, id) {
        assert(rest[j].stripe_id == id);
        if j < si {
            assert(rest[j] == stripes[j]);
            assert(stripes[j].stripe_id != stripes[si].stripe_id);
        } else {
            assert(rest[j] == stripes[j + 1]);
            assert(stripes[si].stripe_id != stripes[j + 1].stripe_id);
        }
    }
}

/// Message of a shard with no device (`format!`).
#[verifier::external_body]
fn no_device_message(i: usize) -> String {
    format!("no device for shard {}", i)
}

} // verus!
