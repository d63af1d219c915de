//! Reading erasure-coded stripes: the fast path combines the data shards
//! when all shards were read, the degraded path rebuilds missing data
//! shards from the ones that were read. The parallel shard I/O itself is
//! done by the caller, which hands the outcomes to the reader.

use vstd::prelude::*;
use vstd::slice::SliceAdditionalExecFns;

use super::dma_buf::zeros;
use super::isal_codec::{bufs_view, codec_config_valid, is_codeword, shards_sized, IsalCodec, IsalCodecConfig, MatrixType};
use super::metadata_engine::LbaRange;
use super::DmaBuf;
use crate::clock::elapsed_micros;
use crate::error::{Error, Result};

verus! {

// =============================================================================
// Constants
// =============================================================================

/// Default read timeout per shard, in milliseconds
pub const DEFAULT_SHARD_READ_TIMEOUT_MS: u64 = 5000;

/// Default parallel read timeout (all shards), in milliseconds
pub const DEFAULT_PARALLEL_READ_TIMEOUT_MS: u64 = 10000;

/// Maximum reconstruction attempts before failing
pub const MAX_RECONSTRUCTION_ATTEMPTS: u32 = 2;

// =============================================================================
// Configuration
// =============================================================================

/// Configuration for the EC Reader.
#[derive(Debug, Clone, Copy, PartialEq, Eq)]
pub struct EcReaderConfig {
    /// Number of data shards (k)
    pub data_shards: u8,
    /// Number of parity shards (m)
    pub parity_shards: u8,
    /// Size of each shard in bytes
    pub shard_size: usize,
    /// Timeout for reading a single shard, in milliseconds
    pub shard_read_timeout_ms: u64,
    /// Timeout for the entire parallel read operation, in milliseconds
    pub parallel_read_timeout_ms: u64,
    /// Whether to use fast path optimization
    pub enable_fast_path: bool,
    /// Whether to trigger background repair after degraded read
    pub trigger_background_repair: bool,
    /// Maximum number of concurrent reads
    pub max_concurrent_reads: usize,
}

impl Default for EcReaderConfig {
    fn default() -> (r: Self)
        ensures
            r == (EcReaderConfig {
                data_shards: 4,
                parity_shards: 2,
                shard_size: 1048576,
                shard_read_timeout_ms: DEFAULT_SHARD_READ_TIMEOUT_MS,
                parallel_read_timeout_ms: DEFAULT_PARALLEL_READ_TIMEOUT_MS,
                enable_fast_path: true,
                trigger_background_repair: true,
                max_concurrent_reads: 64,
            }),
    {
        EcReaderConfig {
            data_shards: 4,
            parity_shards: 2,
            shard_size: 1048576,
            shard_read_timeout_ms: DEFAULT_SHARD_READ_TIMEOUT_MS,
            parallel_read_timeout_ms: DEFAULT_PARALLEL_READ_TIMEOUT_MS,
            enable_fast_path: true,
            trigger_background_repair: true,
            max_concurrent_reads: 64,
        }
    }
}

/// Whether a reader configuration is acceptable: at least one data and one
/// parity shard, and a non-zero shard size aligned to 4096 bytes.
pub open spec fn reader_config_valid(c: EcReaderConfig) -> bool {
    &&& c.data_shards > 0
    &&& c.parity_shards > 0
    &&& c.shard_size > 0
    &&& c.shard_size % 4096 == 0
}

impl EcReaderConfig {
    /// Total number of shards (k + m).
    pub fn total_shards(&self) -> (r: usize)
        ensures
            r == self.data_shards + self.parity_shards,
    {
        self.data_shards as usize + self.parity_shards as usize
    }

    /// Size of the complete data (k * shard_size).
    pub fn stripe_data_size(&self) -> (r: usize)
        requires
            self.data_shards * self.shard_size <= usize::MAX,
        ensures
            r == self.data_shards * self.shard_size,
    {
        self.data_shards as usize * self.shard_size
    }

    /// Checks the configuration.
    pub fn validate(&self) -> (r: Result<()>)
        ensures
            r is Ok <==> reader_config_valid(*self),
            r matches Err(e) ==> e is InvalidEcConfig,
    {
        if self.data_shards == 0 {
            return Err(Error::InvalidEcConfig("data_shards must be > 0".to_owned()));
        }
        if self.parity_shards == 0 {
            return Err(Error::InvalidEcConfig("parity_shards must be > 0".to_owned()));
        }
        if self.shard_size == 0 || self.shard_size % 4096 != 0 {
            return Err(Error::InvalidEcConfig("shard_size must be > 0 and aligned to 4096".to_owned()));
        }
        Ok(())
    }
}

// =============================================================================
// Types
// =============================================================================

/// Request to read data from an EC stripe.
#[derive(Debug, Clone, PartialEq, Eq)]
pub struct ReadRequest {
    /// Volume ID
    pub volume_id: String,
    /// Stripe ID to read
    pub stripe_id: u64,
    /// Optional: specific LBA range within the stripe
    pub lba_range: Option<LbaRange>,
    /// Read priority (higher = more important)
    pub priority: u8,
}

impl ReadRequest {
    /// A request for a full stripe, at priority 0.
    pub fn new(volume_id: &str, stripe_id: u64) -> (r: ReadRequest)
        ensures
            r.volume_id@ == volume_id@,
            r.stripe_id == stripe_id,
            r.lba_range is None,
            r.priority == 0,
    {
        ReadRequest { volume_id: volume_id.to_owned(), stripe_id, lba_range: None, priority: 0 }
    }

    /// The request restricted to an LBA range.
    pub fn with_lba_range(self, lba_range: LbaRange) -> (r: ReadRequest)
        ensures
            r == (ReadRequest { lba_range: Some(lba_range), ..self }),
    {
        let mut r = self;
        r.lba_range = Some(lba_range);
        r
    }

    /// The request with another priority.
    pub fn with_priority(self, priority: u8) -> (r: ReadRequest)
        ensures
            r == (ReadRequest { priority, ..self }),
    {
        let mut r = self;
        r.priority = priority;
        r
    }
}

/// Type of read path taken.
#[derive(Debug, Clone, PartialEq, Eq)]
pub enum ReadType {
    /// Fast path: all data shards were available
    FastPath,
    /// Degraded path: reconstruction was required
    Degraded {
        /// Indices of shards that were missing/failed
        missing_shards: Vec<usize>,
        /// Indices of shards used for reconstruction
        shards_used: Vec<usize>,
    },
}

/// Whether `text` reads `Degraded(missing=[..], used=[..])`: it starts with
/// `Degraded(missing=[` and ends with `])`.
pub open spec fn degraded_form(text: Seq<char>) -> bool {
    &&& text.len() >= 29
    &&& text.subrange(0, 18) == "Degraded(missing=["@
    &&& text.subrange(text.len() - 2, text.len() as int) == "])"@
}

/// Text of a degraded read type (`format!` with `{:?}` of the index lists).
/// Claims: the literal pieces around the two lists, each list written by
/// `Debug` between square brackets, as `format!` writes them; the digits
/// between are left unsaid.
#[verifier::external_body]
fn degraded_text(missing_shards: &Vec<usize>, shards_used: &Vec<usize>) -> (r: String)
    ensures
        degraded_form(r@),
{
    format!("Degraded(missing={:?}, used={:?})", missing_shards, shards_used)
}

impl ReadType {
    /// Display text: `FastPath`, or `Degraded(missing=[..], used=[..])`.
    pub fn to_string(&self) -> (r: String)
        ensures
            *self == ReadType::FastPath ==> r@ == "FastPath"@,
            *self is Degraded ==> degraded_form(r@),
    {
        match self {
            ReadType::FastPath => "FastPath".to_owned(),
            ReadType::Degraded { missing_shards, shards_used } => degraded_text(missing_shards, shards_used),
        }
    }
}

/// Result of reading a single shard.
#[derive(Debug, Clone, PartialEq, Eq)]
pub struct ShardReadResult {
    /// Shard index (0 to k+m-1)
    pub shard_index: usize,
    /// Whether the read succeeded
    pub success: bool,
    /// Error message if failed
    pub error: Option<String>,
    /// Time taken for this shard read, in microseconds
    pub duration_us: u64,
    /// Node that was read from
    pub node_id: String,
}

impl ShardReadResult {
    /// A successful shard read.
    pub fn success(shard_index: usize, node_id: String, duration_us: u64) -> (r: ShardReadResult)
        ensures
            r == (ShardReadResult { shard_index, success: true, error: None, duration_us, node_id }),
    {
        ShardReadResult { shard_index, success: true, error: None, duration_us, node_id }
    }

    /// An exact copy of the record.
    pub fn duplicate(&self) -> (r: ShardReadResult)
        ensures
            r == *self,
    {
        ShardReadResult {
            shard_index: self.shard_index,
            success: self.success,
            error: match &self.error {
                Some(e) => Some(e.clone()),
                None => None,
            },
            duration_us: self.duration_us,
            node_id: self.node_id.clone(),
        }
    }

    /// A failed shard read with its error.
    pub fn failure(shard_index: usize, node_id: String, error: String, duration_us: u64) -> (r: ShardReadResult)
        ensures
            r == (ShardReadResult { shard_index, success: false, error: Some(error), duration_us, node_id }),
    {
        ShardReadResult { shard_index, success: false, error: Some(error), duration_us, node_id }
    }
}

/// Result of reading an EC stripe.
#[derive(Debug)]
pub struct ReadResult {
    /// The reconstructed data
    pub data: DmaBuf,
    /// Volume ID
    pub volume_id: String,
    /// Stripe ID
    pub stripe_id: u64,
    /// Type of read path taken
    pub read_type: ReadType,
    /// Time taken for the read operation, in microseconds
    pub duration_us: u64,
    /// Individual shard read results (for debugging)
    pub shard_results: Vec<ShardReadResult>,
}

impl ReadResult {
    /// Whether this was a degraded read.
    pub fn is_degraded(&self) -> (r: bool)
        ensures
            r == (self.read_type is Degraded),
    {
        match self.read_type {
            ReadType::Degraded { .. } => true,
            ReadType::FastPath => false,
        }
    }

    /// Number of missing shards (0 for the fast path).
    pub fn missing_shard_count(&self) -> (r: usize)
        ensures
            r == match self.read_type {
                ReadType::FastPath => 0,
                ReadType::Degraded { missing_shards, .. } => missing_shards@.len(),
            },
    {
        match &self.read_type {
            ReadType::FastPath => 0,
            ReadType::Degraded { missing_shards, .. } => missing_shards.len(),
        }
    }
}

// =============================================================================
// Statistics
// =============================================================================

/// Statistics for the EC Reader.
#[derive(Debug, Clone, Copy, PartialEq, Eq, Default)]
pub struct EcReaderStats {
    /// Total reads attempted
    pub reads_total: u64,
    /// Reads that took the fast path
    pub reads_fast_path: u64,
    /// Reads that required reconstruction
    pub reads_degraded: u64,
    /// Reads that failed completely
    pub reads_failed: u64,
    /// Total shards read successfully
    pub shards_read_success: u64,
    /// Total shards that failed to read
    pub shards_read_failed: u64,
    /// Total shards reconstructed
    pub shards_reconstructed: u64,
    /// Total bytes read
    pub bytes_read: u64,
    /// Background repairs triggered
    pub repairs_triggered: u64,
}

/// Snapshot of reader statistics.
#[derive(Debug, Clone, Copy, PartialEq, Eq)]
pub struct EcReaderStatsSnapshot {
    pub reads_total: u64,
    pub reads_fast_path: u64,
    pub reads_degraded: u64,
    pub reads_failed: u64,
    pub shards_read_success: u64,
    pub shards_read_failed: u64,
    pub shards_reconstructed: u64,
    pub bytes_read: u64,
    pub repairs_triggered: u64,
}

/// 64-bit wrapping addition, as the counters use.
pub open spec fn wrap_add(a: u64, b: u64) -> u64 {
    vstd::wrapping::u64_specs::wrapping_add(a, b)
}

impl EcReaderStats {
    /// All counters at zero.
    pub fn new() -> (r: EcReaderStats)
        ensures
            r == (EcReaderStats {
                reads_total: 0,
                reads_fast_path: 0,
                reads_degraded: 0,
                reads_failed: 0,
                shards_read_success: 0,
                shards_read_failed: 0,
                shards_reconstructed: 0,
                bytes_read: 0,
                repairs_triggered: 0,
            }),
    {
        EcReaderStats {
            reads_total: 0,
            reads_fast_path: 0,
            reads_degraded: 0,
            reads_failed: 0,
            shards_read_success: 0,
            shards_read_failed: 0,
            shards_reconstructed: 0,
            bytes_read: 0,
            repairs_triggered: 0,
        }
    }

    /// Records a fast-path read of `bytes` bytes.
    pub fn record_fast_path(&mut self, bytes: u64)
        ensures
            *final(self) == (EcReaderStats {
                reads_total: wrap_add(old(self).reads_total, 1),
                reads_fast_path: wrap_add(old(self).reads_fast_path, 1),
                bytes_read: wrap_add(old(self).bytes_read, bytes),
                ..*old(self)
            }),
    {
        self.reads_total = self.reads_total.wrapping_add(1);
        self.reads_fast_path = self.reads_fast_path.wrapping_add(1);
        self.bytes_read = self.bytes_read.wrapping_add(bytes);
    }

    /// Records a degraded read of `bytes` bytes that rebuilt `reconstructed_shards` shards.
    pub fn record_degraded(&mut self, bytes: u64, reconstructed_shards: usize)
        ensures
            *final(self) == (EcReaderStats {
                reads_total: wrap_add(old(self).reads_total, 1),
                reads_degraded: wrap_add(old(self).reads_degraded, 1),
                bytes_read: wrap_add(old(self).bytes_read, bytes),
                shards_reconstructed: wrap_add(old(self).shards_reconstructed, reconstructed_shards as u64),
                ..*old(self)
            }),
    {
        self.reads_total = self.reads_total.wrapping_add(1);
        self.reads_degraded = self.reads_degraded.wrapping_add(1);
        self.bytes_read = self.bytes_read.wrapping_add(bytes);
        self.shards_reconstructed = self.shards_reconstructed.wrapping_add(reconstructed_shards as u64);
    }

    /// Records a failed read.
    pub fn record_failed(&mut self)
        ensures
            *final(self) == (EcReaderStats {
                reads_total: wrap_add(old(self).reads_total, 1),
                reads_failed: wrap_add(old(self).reads_failed, 1),
                ..*old(self)
            }),
    {
        self.reads_total = self.reads_total.wrapping_add(1);
        self.reads_failed = self.reads_failed.wrapping_add(1);
    }

    /// Records how many shard reads succeeded and failed.
    pub fn record_shard_results(&mut self, success: usize, failed: usize)
        ensures
            *final(self) == (EcReaderStats {
                shards_read_success: wrap_add(old(self).shards_read_success, success as u64),
                shards_read_failed: wrap_add(old(self).shards_read_failed, failed as u64),
                ..*old(self)
            }),
    {
        self.shards_read_success = self.shards_read_success.wrapping_add(success as u64);
        self.shards_read_failed = self.shards_read_failed.wrapping_add(failed as u64);
    }

    /// The current counters.
    pub fn snapshot(&self) -> (r: EcReaderStatsSnapshot)
        ensures
            r == (EcReaderStatsSnapshot {
                reads_total: self.reads_total,
                reads_fast_path: self.reads_fast_path,
                reads_degraded: self.reads_degraded,
                reads_failed: self.reads_failed,
                shards_read_success: self.shards_read_success,
                shards_read_failed: self.shards_read_failed,
                shards_reconstructed: self.shards_reconstructed,
                bytes_read: self.bytes_read,
                repairs_triggered: self.repairs_triggered,
            }),
    {
        EcReaderStatsSnapshot {
            reads_total: self.reads_total,
            reads_fast_path: self.reads_fast_path,
            reads_degraded: self.reads_degraded,
            reads_failed: self.reads_failed,
            shards_read_success: self.shards_read_success,
            shards_read_failed: self.shards_read_failed,
            shards_reconstructed: self.shards_reconstructed,
            bytes_read: self.bytes_read,
            repairs_triggered: self.repairs_triggered,
        }
    }
}

// =============================================================================
// Shard Location Tracking
// =============================================================================

/// Information about where shards are located.
#[derive(Debug, Clone, PartialEq, Eq)]
pub struct ShardLocationInfo {
    /// Shard index (0 to k+m-1)
    pub shard_index: usize,
    /// Node ID where the shard is stored
    pub node_id: String,
    /// Device path on the node
    pub device_path: String,
    /// Offset within the device
    pub offset: u64,
    /// Whether this is a data shard (vs parity)
    pub is_data_shard: bool,
}

/// Request to repair a degraded stripe (sent to background repair task).
#[derive(Debug, Clone, PartialEq, Eq)]
pub struct RepairRequest {
    /// Volume ID
    pub volume_id: String,
    /// Stripe ID
    pub stripe_id: u64,
    /// Missing shard indices
    pub missing_shards: Vec<usize>,
    /// Priority (higher = more urgent)
    pub priority: u8,
}

// =============================================================================
// Combining data shards
// =============================================================================

/// The bytes of a shard, if present.
pub open spec fn opt_view(o: Option<DmaBuf>) -> Option<Seq<u8>> {
    match o {
        Some(b) => Some(b@),
        None => None,
    }
}

/// The bytes of each shard slot.
pub open spec fn shard_views(s: Seq<Option<DmaBuf>>) -> Seq<Option<Seq<u8>>> {
    Seq::new(s.len(), |i: int| opt_view(s[i]))
}

/// The bytes of the shards one after the other (a missing shard adds nothing).
pub open spec fn concat_shards(shards: Seq<Option<Seq<u8>>>) -> Seq<u8>
    decreases shards.len(),
{
    if shards.len() == 0 {
        Seq::empty()
    } else {
        concat_shards(shards.drop_last()) + match shards.last() {
            Some(b) => b,
            None => Seq::empty(),
        }
    }
}

/// Message of a missing data shard (`format!`).
#[verifier::external_body]
fn missing_shard_message(index: usize) -> String {
    format!("Missing data shard {} during combine", index)
}

/// Combines the data shards, in order, into one buffer of `k * shard_size`
/// bytes (zero past the shards given). A missing shard is an error, and so
/// is a zero total size.
pub fn combine_data_shards(config: &EcReaderConfig, shards: &[Option<DmaBuf>]) -> (r: Result<DmaBuf>)
    requires
        config.data_shards * config.shard_size <= usize::MAX,
        shards@.len() <= config.data_shards,
        forall|i: int| 0 <= i < shards@.len() && (#[trigger] shards@[i]) is Some ==> shards@[i]->0@.len()
            == config.shard_size,
    ensures
        config.data_shards * config.shard_size == 0 ==> (r matches Err(e) && e is DmaAllocationFailed),
        config.data_shards * config.shard_size > 0 ==> {
            &&& r is Ok <==> forall|i: int| 0 <= i < shards@.len() ==> (#[trigger] shards@[i]) is Some
            &&& r matches Err(e) ==> e is Internal
            &&& r matches Ok(b) ==> b@.len() == config.data_shards * config.shard_size
            &&& r matches Ok(b) ==> b@ == concat_shards(shard_views(shards@)) + zeros(
                (config.data_shards * config.shard_size - shards@.len() * config.shard_size) as nat,
            )
        },
{
    let total_size = config.stripe_data_size();
    let mut combined = match DmaBuf::new(total_size) {
        Ok(b) => b,
        Err(e) => return Err(e),
    };
    let s = config.shard_size;
    let ghost k = config.data_shards as int;
    let mut i: usize = 0;
    while i < shards.len()
        invariant
            s == config.shard_size,
            total_size == k * s,
            total_size == config.data_shards * config.shard_size,
            k == config.data_shards,
            total_size > 0,
            shards@.len() <= k,
            forall|j: int| 0 <= j < shards@.len() && (#[trigger] shards@[j]) is Some ==> shards@[j]->0@.len() == s,
            0 <= i <= shards@.len(),
            forall|j: int| 0 <= j < i ==> (#[trigger] shards@[j]) is Some,
            concat_shards(shard_views(shards@).subrange(0, i as int)).len() == i * s,
            combined@.len() == total_size,
            combined@ == concat_shards(shard_views(shards@).subrange(0, i as int)) + zeros((total_size - i * s) as nat),
        decreases shards@.len() - i,
    {
        proof {
            assert(shard_views(shards@).subrange(0, i + 1).drop_last() =~= shard_views(shards@).subrange(0, i as int));
            assert((i + 1) * s <= k * s) by (nonlinear_arith)
                requires
                    i + 1 <= k,
                    s >= 0,
            ;
            assert((i + 1) * s == i * s + s) by (nonlinear_arith);
        }
        let shard = match &shards[i] {
            Some(b) => b,
            None => {
                return Err(Error::Internal(missing_shard_message(i)));
            },
        };
        let offset = i * s;
        let ghost before = combined@;
        combined.write_bytes(offset, shard.as_slice(), 0, s);
        proof {
            assert(combined@ =~= concat_shards(shard_views(shards@).subrange(0, i + 1)) + zeros((total_size - (i + 1) * s) as nat));
        }
        i += 1;
    }
    assert(shard_views(shards@).subrange(0, shards@.len() as int) =~= shard_views(shards@));
    Ok(combined)
}

// =============================================================================
// EC Reader
// =============================================================================

/// The outcome of one shard read: where the shard was read from, its data
/// if the read succeeded, and the record of the read.
pub type ShardOutcome = (ShardLocationInfo, Option<DmaBuf>, ShardReadResult);

/// Indices of the shards that were read, in result order.
pub open spec fn ok_indices(rs: Seq<ShardOutcome>) -> Seq<usize>
    decreases rs.len(),
{
    if rs.len() == 0 {
        Seq::empty()
    } else {
        let p = ok_indices(rs.drop_last());
        if rs.last().1 is Some {
            p.push(rs.last().0.shard_index)
        } else {
            p
        }
    }
}

/// Indices of the shards that could not be read, in result order.
pub open spec fn failed_indices(rs: Seq<ShardOutcome>) -> Seq<usize>
    decreases rs.len(),
{
    if rs.len() == 0 {
        Seq::empty()
    } else {
        let p = failed_indices(rs.drop_last());
        if rs.last().1 is None {
            p.push(rs.last().0.shard_index)
        } else {
            p
        }
    }
}

/// Data shard `i` as the fast path assembles it: what the last result for
/// data shard `i` holds.
pub open spec fn fast_slot(rs: Seq<ShardOutcome>, i: int) -> Option<DmaBuf>
    decreases rs.len(),
{
    if rs.len() == 0 {
        None
    } else if rs.last().0.is_data_shard && rs.last().0.shard_index == i {
        rs.last().1
    } else {
        fast_slot(rs.drop_last(), i)
    }
}

/// Shard `i` as read: the data of the last successful read of shard `i`.
pub open spec fn available_slot(rs: Seq<ShardOutcome>, i: int) -> Option<DmaBuf>
    decreases rs.len(),
{
    if rs.len() == 0 {
        None
    } else if rs.last().0.shard_index == i && rs.last().1 is Some {
        rs.last().1
    } else {
        available_slot(rs.drop_last(), i)
    }
}

/// The records of the shard reads, in order.
pub open spec fn read_records(rs: Seq<ShardOutcome>) -> Seq<ShardReadResult> {
    Seq::new(rs.len(), |i: int| rs[i].2)
}

/// Every successful read returned a whole shard and every data shard has
/// an index below `k`.
pub open spec fn outcomes_well_shaped(rs: Seq<ShardOutcome>, k: int, shard_size: int) -> bool {
    forall|i: int|
        0 <= i < rs.len() ==> {
            &&& ((#[trigger] rs[i]).0.is_data_shard ==> rs[i].0.shard_index < k)
            &&& (rs[i].1 matches Some(b) ==> b@.len() == shard_size)
        }
}

/// Text `prefix` followed by a number (`format!`).
#[verifier::external_body]
fn numbered_name(prefix: &str, i: usize, suffix: &str) -> String {
    format!("{}{}{}", prefix, i, suffix)
}

/// Message of a read with too few shards (`format!`).
#[verifier::external_body]
fn insufficient_shards_message(have: usize, need: u8) -> String {
    format!("Insufficient shards: have {}, need at least {}", have, need)
}

/// EC reader: combines or rebuilds the data of a stripe from the outcomes
/// of its shard reads.
#[derive(Debug)]
pub struct EcReader {
    config: EcReaderConfig,
    codec: IsalCodec,
    shard_nodes: Vec<String>,
    stats: EcReaderStats,
}

impl EcReader {
    /// The configuration.
    pub closed spec fn config_spec(&self) -> EcReaderConfig {
        self.config
    }

    /// Node of each shard.
    pub closed spec fn nodes(&self) -> Seq<String> {
        self.shard_nodes@
    }

    /// Counters.
    pub closed spec fn stats_spec(&self) -> EcReaderStats {
        self.stats
    }

    /// The configuration is valid and the codec matches it.
    pub closed spec fn wf(&self) -> bool {
        &&& reader_config_valid(self.config)
        &&& self.codec.wf()
        &&& self.codec.k() == self.config.data_shards
        &&& self.codec.m() == self.config.parity_shards
        &&& self.codec.shard_len() == self.config.shard_size
    }

    /// A reader; fails on an invalid configuration or one the codec refuses.
    pub fn new(config: EcReaderConfig) -> (r: Result<EcReader>)
        ensures
            r is Ok <==> (reader_config_valid(config) && config.data_shards + config.parity_shards <= 255),
            r matches Ok(reader) ==> {
                &&& reader.wf()
                &&& reader.config_spec() == config
                &&& reader.nodes().len() == config.data_shards + config.parity_shards
                &&& reader.stats_spec() == EcReaderStats::default_spec()
            },
    {
        match config.validate() {
            Ok(()) => {},
            Err(e) => return Err(e),
        }
        let codec_config = IsalCodecConfig {
            data_shards: config.data_shards,
            parity_shards: config.parity_shards,
            shard_size: config.shard_size,
            matrix_type: MatrixType::Cauchy,
            force_simd: None,
        };
        let codec = match IsalCodec::new(codec_config) {
            Ok(c) => c,
            Err(e) => return Err(e),
        };
        let total_shards = config.total_shards();
        let mut default_nodes: Vec<String> = Vec::new();
        let mut i: usize = 0;
        while i < total_shards
            invariant
                0 <= i <= total_shards,
                default_nodes@.len() == i,
            decreases total_shards - i,
        {
            default_nodes.push(numbered_name("node-", i, ""));
            i += 1;
        }
        Ok(EcReader { config, codec, shard_nodes: default_nodes, stats: EcReaderStats::new() })
    }

    /// Assigns shards to nodes; ignored when fewer nodes than shards are given.
    pub fn set_shard_nodes(&mut self, nodes: Vec<String>)
        ensures
            final(self).nodes() == if nodes@.len() >= old(self).config_spec().data_shards + old(self).config_spec().parity_shards {
                nodes@
            } else {
                old(self).nodes()
            },
            final(self).config_spec() == old(self).config_spec(),
            final(self).stats_spec() == old(self).stats_spec(),
            final(self).wf() == old(self).wf(),
    {
        if nodes.len() >= self.config.total_shards() {
            self.shard_nodes = nodes;
        }
    }

    /// Node of each shard.
    pub fn shard_nodes(&self) -> (r: &Vec<String>)
        ensures
            r@ == self.nodes(),
    {
        &self.shard_nodes
    }

    /// The counters.
    pub fn stats(&self) -> (r: EcReaderStats)
        ensures
            r == self.stats_spec(),
    {
        self.stats
    }

    /// Where each shard of the requested stripe lives: shard `i` on node `i`
    /// (or `node-i` when no node is assigned), at offset
    /// `stripe_id * shard_size`; the first `k` shards are data shards.
    pub fn get_shard_locations(&self, request: &ReadRequest) -> (r: Vec<ShardLocationInfo>)
        requires
            request.stripe_id * self.config_spec().shard_size <= u64::MAX,
        ensures
            r@.len() == self.config_spec().data_shards + self.config_spec().parity_shards,
            forall|i: int| 0 <= i < r@.len() ==> {
                &&& (#[trigger] r@[i]).shard_index == i
                &&& r@[i].offset == request.stripe_id * self.config_spec().shard_size
                &&& r@[i].is_data_shard == (i < self.config_spec().data_shards)
                &&& i < self.nodes().len() ==> r@[i].node_id == self.nodes()[i]
            },
    {
        let total_shards = self.config.total_shards();
        let offset = request.stripe_id * self.config.shard_size as u64;
        let mut out: Vec<ShardLocationInfo> = Vec::new();
        let mut i: usize = 0;
        while i < total_shards
            invariant
                total_shards == self.config.data_shards + self.config.parity_shards,
                offset == request.stripe_id * self.config.shard_size,
                0 <= i <= total_shards,
                out@.len() == i,
                forall|j: int| 0 <= j < i ==> {
                    &&& (#[trigger] out@[j]).shard_index == j
                    &&& out@[j].offset == offset
                    &&& out@[j].is_data_shard == (j < self.config.data_shards)
                    &&& j < self.shard_nodes@.len() ==> out@[j].node_id == self.shard_nodes@[j]
                },
            decreases total_shards - i,
        {
            let node_id = if i < self.shard_nodes.len() {
                self.shard_nodes[i].clone()
            } else {
                numbered_name("node-", i, "")
            };
            out.push(
                ShardLocationInfo {
                    shard_index: i,
                    node_id,
                    device_path: numbered_name("/dev/nvme", i, "n1"),
                    offset,
                    is_data_shard: i < self.config.data_shards as usize,
                },
            );
            i += 1;
        }
        out
    }

    /// Splits the shard indices into those read and those not, in result order.
    pub fn analyze_shard_results(&self, results: &[ShardOutcome]) -> (r: (Vec<usize>, Vec<usize>))
        ensures
            r.0@ == ok_indices(results@),
            r.1@ == failed_indices(results@),
    {
        let mut successful: Vec<usize> = Vec::new();
        let mut failed: Vec<usize> = Vec::new();
        let mut i: usize = 0;
        while i < results.len()
            invariant
                0 <= i <= results@.len(),
                successful@ == ok_indices(results@.subrange(0, i as int)),
                failed@ == failed_indices(results@.subrange(0, i as int)),
            decreases results@.len() - i,
        {
            proof {
                assert(results@.subrange(0, i + 1).drop_last() =~= results@.subrange(0, i as int));
            }
            if results[i].1.is_some() {
                successful.push(results[i].0.shard_index);
            } else {
                failed.push(results[i].0.shard_index);
            }
            i += 1;
        }
        assert(results@.subrange(0, results@.len() as int) =~= results@);
        (successful, failed)
    }
}

impl EcReaderStats {
    /// All counters at zero.
    pub open spec fn default_spec() -> EcReaderStats {
        EcReaderStats {
            reads_total: 0,
            reads_fast_path: 0,
            reads_degraded: 0,
            reads_failed: 0,
            shards_read_success: 0,
            shards_read_failed: 0,
            shards_reconstructed: 0,
            bytes_read: 0,
            repairs_triggered: 0,
        }
    }
}

/// The data shards as the fast path assembles them.
pub open spec fn fast_slots(rs: Seq<ShardOutcome>, k: nat) -> Seq<Option<Seq<u8>>> {
    Seq::new(k, |i: int| opt_view(fast_slot(rs, i)))
}

/// The shards as read, by index, for `total` shards.
pub open spec fn available_views(rs: Seq<ShardOutcome>, total: nat) -> Seq<Option<Seq<u8>>> {
    Seq::new(total, |i: int| opt_view(available_slot(rs, i)))
}

/// Number of shards, among `total`, that were not read.
pub open spec fn erasure_count(rs: Seq<ShardOutcome>, total: nat) -> nat {
    available_views(rs, total).filter(|o: Option<Seq<u8>>| o is None).len()
}

/// Failed data shards (indices below `k`), in result order.
pub open spec fn missing_data(rs: Seq<ShardOutcome>, k: nat) -> Seq<usize> {
    failed_indices(rs).filter(|i: usize| i < k)
}

/// Whether `slots` are the data shards as the degraded path assembles
/// them: a shard that was read as read; a failed data shard rebuilt, of
/// the shard size, and, when the shards read come from a codeword, that
/// codeword's shard; nothing for any other data shard.
pub open spec fn degraded_slots_ok(rs: Seq<ShardOutcome>, k: nat, m: nat, shard_size: nat, slots: Seq<Option<Seq<u8>>>) -> bool {
    &&& slots.len() == k
    &&& forall|i: int|
        0 <= i < k ==> {
            &&& (available_slot(rs, i) matches Some(b) ==> #[trigger] slots[i] == Some(b@))
            &&& (available_slot(rs, i) is None && !missing_data(rs, k).contains(i as usize) ==> slots[i] is None)
            &&& (available_slot(rs, i) is None && missing_data(rs, k).contains(i as usize) ==> slots[i] is Some
                && slots[i]->0.len() == shard_size)
        }
    &&& forall|orig: Seq<Seq<u8>>|
        #[trigger] is_codeword(orig, k, m, shard_size) && slots_agree(available_views(rs, k + m), orig) ==> forall|i: int|
            0 <= i < k && missing_data(rs, k).contains(i as usize) ==> #[trigger] slots[i] == Some(orig[i])
}

/// Whether every slot holds a shard.
pub open spec fn all_present(slots: Seq<Option<Seq<u8>>>) -> bool {
    forall|i: int| 0 <= i < slots.len() ==> (#[trigger] slots[i]) is Some
}

/// A copy of a shard slot.
fn copy_slot(o: &Option<DmaBuf>) -> (r: Option<DmaBuf>)
    ensures
        opt_view(r) == opt_view(*o),
        r is Some <==> o is Some,
{
    match o {
        Some(b) => Some(b.duplicate()),
        None => None,
    }
}

/// `n` empty slots.
fn empty_slots(n: usize) -> (r: Vec<Option<DmaBuf>>)
    ensures
        r@.len() == n,
        forall|i: int| 0 <= i < n ==> (#[trigger] r@[i]) is None,
{
    let mut v: Vec<Option<DmaBuf>> = Vec::new();
    let mut i: usize = 0;
    while i < n
        invariant
            0 <= i <= n,
            v@.len() == i,
            forall|j: int| 0 <= j < i ==> (#[trigger] v@[j]) is None,
        decreases n - i,
    {
        v.push(None);
        i += 1;
    }
    v
}

impl EcReader {
    /// Fast path: combines the data shards when all shards were read.
    fn fast_path_read(&mut self, request: ReadRequest, results: &Vec<ShardOutcome>, start: &std::time::Instant) -> (r: Result<
        ReadResult,
    >)
        requires
            old(self).wf(),
            outcomes_well_shaped(results@, old(self).config_spec().data_shards as int, old(self).config_spec().shard_size as int),
            old(self).config_spec().data_shards * old(self).config_spec().shard_size <= usize::MAX,
        ensures
            final(self).wf(),
            final(self).config_spec() == old(self).config_spec(),
            final(self).nodes() == old(self).nodes(),
            ({
                let k = old(self).config_spec().data_shards as nat;
                let slots = fast_slots(results@, k);
                &&& r is Ok <==> all_present(slots)
                &&& r matches Err(e) ==> e is Internal && final(self).stats_spec() == old(self).stats_spec()
                &&& r matches Ok(res) ==> {
                    &&& res.data@ == concat_shards(slots)
                    &&& res.read_type == ReadType::FastPath
                    &&& res.shard_results@ == read_records(results@)
                    &&& res.volume_id == request.volume_id
                    &&& res.stripe_id == request.stripe_id
                    &&& final(self).stats_spec() == (EcReaderStats {
                        reads_total: wrap_add(old(self).stats_spec().reads_total, 1),
                        reads_fast_path: wrap_add(old(self).stats_spec().reads_fast_path, 1),
                        bytes_read: wrap_add(
                            old(self).stats_spec().bytes_read,
                            (k * old(self).config_spec().shard_size) as u64,
                        ),
                        ..old(self).stats_spec()
                    })
                }
            }),
    {
        let k = self.config.data_shards as usize;
        let ghost rs = results@;
        let mut data_shards = empty_slots(k);
        let mut all_results: Vec<ShardReadResult> = Vec::new();
        let mut j: usize = 0;
        while j < results.len()
            invariant
                k == self.config.data_shards,
                rs == results@,
                outcomes_well_shaped(rs, k as int, self.config.shard_size as int),
                0 <= j <= rs.len(),
                data_shards@.len() == k,
                forall|i: int| 0 <= i < k ==> opt_view(#[trigger] data_shards@[i]) == opt_view(fast_slot(rs.subrange(0, j as int), i)),
                forall|i: int| 0 <= i < k && (#[trigger] data_shards@[i]) is Some ==> data_shards@[i]->0@.len() == self.config.shard_size,
                all_results@ == read_records(rs.subrange(0, j as int)),
            decreases rs.len() - j,
        {
            proof {
                assert(rs.subrange(0, j + 1).drop_last() =~= rs.subrange(0, j as int));
                assert(rs.subrange(0, j + 1).last() == rs[j as int]);
                assert(read_records(rs.subrange(0, j + 1)) =~= read_records(rs.subrange(0, j as int)).push(rs[j as int].2));
            }
            all_results.push(results[j].2.duplicate());
            if results[j].0.is_data_shard {
                let idx = results[j].0.shard_index;
                let slot = copy_slot(&results[j].1);
                data_shards.set(idx, slot);
            }
            j += 1;
        }
        proof {
            assert(rs.subrange(0, rs.len() as int) =~= rs);
            assert(shard_views(data_shards@) =~= fast_slots(rs, k as nat));
            assert(read_records(rs.subrange(0, rs.len() as int)) == read_records(rs));
        }
        let combined = match combine_data_shards(&self.config, data_shards.as_slice()) {
            Ok(b) => b,
            Err(e) => {
                proof {
                    assert(k * self.config.shard_size > 0) by (nonlinear_arith)
                        requires
                            k > 0,
                            self.config.shard_size > 0,
                    ;
                    if all_present(fast_slots(rs, k as nat)) {
                        assert forall|i: int| 0 <= i < data_shards@.len() implies (#[trigger] data_shards@[i]) is Some by {
                            assert(fast_slots(rs, k as nat)[i] is Some);
                        }
                    }
                }
                return Err(e);
            },
        };
        proof {
            assert(k * self.config.shard_size > 0) by (nonlinear_arith)
                requires
                    k > 0,
                    self.config.shard_size > 0,
            ;
            assert forall|i: int| 0 <= i < k implies (#[trigger] fast_slots(rs, k as nat)[i]) is Some by {
                assert(data_shards@[i] is Some);
            }
            assert(zeros((k * self.config.shard_size - data_shards@.len() * self.config.shard_size) as nat) =~= Seq::<u8>::empty());
            assert(combined@ =~= concat_shards(fast_slots(rs, k as nat)));
        }
        let bytes = combined.len() as u64;
        self.stats.record_fast_path(bytes);
        let res = ReadResult {
            data: combined,
            volume_id: request.volume_id,
            stripe_id: request.stripe_id,
            read_type: ReadType::FastPath,
            duration_us: elapsed_micros(start),
            shard_results: all_results,
        };
        proof {
            assert(res.data@ == concat_shards(fast_slots(results@, k as nat)));
            assert(res.shard_results@ == read_records(results@));
            assert(all_present(fast_slots(results@, k as nat)));
            assert(bytes == (k * self.config.shard_size) as u64);
        }
        Ok(res)
    }
}

impl EcReader {
    /// Rebuilds the failed data shards `missing` from the shards that were
    /// read (`available`, one slot per shard). Nothing is rebuilt when no
    /// data shard is missing; with more unread shards than parity shards the
    /// stripe cannot be rebuilt; otherwise the codec rebuilds the unread
    /// shards. A returned shard is the shard as read if it was read after
    /// all, else the rebuilt one: for shards read from a codeword, that
    /// codeword's shard.
    fn reconstruct_missing_shards(&self, available: &Vec<Option<DmaBuf>>, missing: &Vec<usize>) -> (r: Result<
        Vec<Option<DmaBuf>>,
    >)
        requires
            self.wf(),
            available@.len() == self.config_spec().data_shards + self.config_spec().parity_shards,
            forall|i: int| 0 <= i < available@.len() && (#[trigger] available@[i]) is Some ==> available@[i]->0@.len()
                == self.config_spec().shard_size,
        ensures
            ({
                let k = self.config_spec().data_shards as nat;
                let total = available@.len();
                let erasures = shard_views(available@).filter(|o: Option<Seq<u8>>| o is None).len();
                &&& missing@.len() == 0 ==> (r matches Ok(v) && v@.len() == k && forall|i: int| 0 <= i < k ==> (#[trigger] v@[i]) is None)
                &&& missing@.len() > 0 && erasures > self.config_spec().parity_shards ==> r == Err::<Vec<Option<DmaBuf>>, Error>(
                    Error::InsufficientShards { available: (total - erasures) as usize, required: k as usize },
                )
                &&& missing@.len() > 0 && erasures <= self.config_spec().parity_shards && (forall|i: int|
                    0 <= i < k ==> (#[trigger] available@[i]) is Some) ==> r is Ok
                &&& missing@.len() > 0 && erasures <= self.config_spec().parity_shards && (forall|a: int, b: int|
                    0 <= a < k && 0 <= b < k && (#[trigger] available@[a]) is None && (#[trigger] available@[b]) is None ==> a
                        == b) ==> r is Ok
                &&& r matches Err(e) ==> e is InsufficientShards || e is InvalidEcConfig || e is IsalMatrixError
                &&& r matches Ok(v) ==> v@.len() == k && forall|i: int|
                    0 <= i < k ==> (#[trigger] v@[i] is Some <==> missing@.contains(i as usize))
                        && (v@[i] is Some ==> v@[i]->0@.len() == self.config_spec().shard_size)
                        && (v@[i] is Some && available@[i] is Some ==> opt_view(v@[i]) == opt_view(available@[i]))
                &&& forall|orig: Seq<Seq<u8>>|
                    #[trigger] is_codeword(orig, k, self.config_spec().parity_shards as nat, self.config_spec().shard_size as nat)
                        && slots_agree(shard_views(available@), orig) ==> (r matches Ok(v) ==> forall|i: int|
                        0 <= i < k && missing@.contains(i as usize) ==> opt_view(#[trigger] v@[i]) == Some(orig[i]))
            }),
    {
        let k = self.config.data_shards as usize;
        if missing.len() == 0 {
            return Ok(empty_slots(k));
        }
        let total_shards = self.config.total_shards();
        let s = self.config.shard_size;
        let mut shards: Vec<DmaBuf> = Vec::new();
        let mut erasures: Vec<usize> = Vec::new();
        let mut i: usize = 0;
        while i < total_shards
            invariant
                total_shards == available@.len(),
                s == self.config.shard_size,
                s > 0,
                forall|j: int| 0 <= j < available@.len() && (#[trigger] available@[j]) is Some ==> available@[j]->0@.len() == s,
                0 <= i <= total_shards,
                shards@.len() == i,
                forall|j: int| 0 <= j < i ==> (#[trigger] shards@[j])@ == match available@[j] {
                    Some(b) => b@,
                    None => zeros(s as nat),
                },
                erasures@.len() == shard_views(available@).subrange(0, i as int).filter(|o: Option<Seq<u8>>| o is None).len(),
                forall|j: int| 0 <= j < total_shards ==> (erasures@.contains(j as usize) <==> (j < i && available@[j] is None)),
                forall|q: int| 0 <= q < erasures@.len() ==> #[trigger] erasures@[q] < i,
                erasures@.len() <= i,
            decreases total_shards - i,
        {
            let ghost prev = erasures@;
            proof {
                reveal(Seq::filter);
                assert(shard_views(available@).subrange(0, i + 1).drop_last() =~= shard_views(available@).subrange(0, i as int));
            }
            match &available[i] {
                Some(buf) => {
                    shards.push(buf.duplicate());
                },
                None => {
                    let empty = match DmaBuf::new(s) {
                        Ok(b) => b,
                        Err(e) => return Err(e),
                    };
                    shards.push(empty);
                    erasures.push(i);
                },
            }
            proof {
                assert forall|j: int| 0 <= j < total_shards implies (erasures@.contains(j as usize) <==> (j < i + 1
                    && available@[j] is None)) by {
                    if available@[i as int] is None {
                        assert(erasures@ == prev.push(i));
                        if j == i {
                            assert(erasures@[prev.len() as int] == i);
                        }
                        if prev.contains(j as usize) {
                            let w = choose|w: int| 0 <= w < prev.len() && #[trigger] prev[w] == j as usize;
                            assert(erasures@[w] == j as usize);
                        }
                        if erasures@.contains(j as usize) && j != i {
                            let w = choose|w: int| 0 <= w < erasures@.len() && #[trigger] erasures@[w] == j as usize;
                            assert(w < prev.len());
                            assert(prev[w] == j as usize);
                        }
                    }
                }
            }
            i += 1;
        }
        proof {
            assert(shard_views(available@).subrange(0, total_shards as int) =~= shard_views(available@));
        }
        if erasures.len() > self.config.parity_shards as usize {
            return Err(Error::InsufficientShards { available: total_shards - erasures.len(), required: k });
        }
        let ghost before = shards@;
        proof {
            assert forall|t: int| 0 <= t < erasures@.len() implies #[trigger] erasures@[t] < total_shards
                && available@[erasures@[t] as int] is None by {
                assert(erasures@.contains(erasures@[t]));
            }
            if forall|a: int, b: int|
                0 <= a < k && 0 <= b < k && (#[trigger] available@[a]) is None && (#[trigger] available@[b]) is None ==> a
                    == b {
                assert forall|t1: int, t2: int|
                    0 <= t1 < erasures@.len() && 0 <= t2 < erasures@.len() && #[trigger] erasures@[t1] < k
                        && #[trigger] erasures@[t2] < k implies erasures@[t1] == erasures@[t2] by {
                    assert(available@[erasures@[t1] as int] is None);
                    assert(available@[erasures@[t2] as int] is None);
                }
            }
            if forall|q: int| 0 <= q < k ==> (#[trigger] available@[q]) is Some {
                assert forall|t: int| 0 <= t < erasures@.len() implies k <= #[trigger] erasures@[t] < total_shards by {
                    assert(erasures@.contains(erasures@[t]));
                    if erasures@[t] < k {
                        assert(available@[erasures@[t] as int] is Some);
                    }
                }
            }
            assert(shards_sized(before, total_shards as nat, s as nat));
        }
        match self.codec.reconstruct(shards.as_mut_slice(), erasures.as_slice()) {
            Ok(()) => {},
            Err(e) => return Err(e),
        }
        let ghost after = shards@;
        let mut result = empty_slots(k);
        let mut t: usize = 0;
        while t < missing.len()
            invariant
                k == self.config.data_shards,
                k <= shards@.len(),
                shards@ == after,
                0 <= t <= missing@.len(),
                result@.len() == k,
                forall|i: int| 0 <= i < k ==> opt_view(#[trigger] result@[i]) == if missing@.subrange(0, t as int).contains(i as usize) {
                    Some(shards@[i]@)
                } else {
                    None
                },
            decreases missing@.len() - t,
        {
            let idx = missing[t];
            if idx < k {
                result.set(idx, Some(shards[idx].duplicate()));
            }
            proof {
                assert forall|i: int| 0 <= i < k implies opt_view(#[trigger] result@[i]) == if missing@.subrange(0, t + 1).contains(i as usize) {
                    Some(shards@[i]@)
                } else {
                    None
                } by {
                    if missing@.subrange(0, t as int).contains(i as usize) {
                        let w = choose|w: int| 0 <= w < t && #[trigger] missing@.subrange(0, t as int)[w] == i as usize;
                        assert(missing@.subrange(0, t + 1)[w] == i as usize);
                    }
                    if i == idx {
                        assert(missing@.subrange(0, t + 1)[t as int] == i as usize);
                    }
                    if missing@.subrange(0, t + 1).contains(i as usize) && i != idx {
                        let w = choose|w: int| 0 <= w < t + 1 && #[trigger] missing@.subrange(0, t + 1)[w] == i as usize;
                        assert(w < t);
                        assert(missing@.subrange(0, t as int)[w] == i as usize);
                    }
                }
            }
            t += 1;
        }
        proof {
            assert(missing@.subrange(0, missing@.len() as int) =~= missing@);
            assert forall|i: int| 0 <= i < k implies (#[trigger] result@[i] is Some <==> missing@.contains(i as usize))
                && (result@[i] is Some ==> result@[i]->0@.len() == s)
                && (result@[i] is Some && available@[i] is Some ==> opt_view(result@[i]) == opt_view(available@[i])) by {
                if available@[i] is Some {
                    assert(!erasures@.contains(i as usize));
                    assert(after[i]@ == before[i]@);
                } else {
                    assert(erasures@.contains(i as usize));
                }
            }
            assert forall|orig: Seq<Seq<u8>>|
                #[trigger] is_codeword(orig, k as nat, self.config.parity_shards as nat, s as nat) && slots_agree(
                    shard_views(available@),
                    orig,
                ) implies forall|i: int| 0 <= i < k && missing@.contains(i as usize) ==> opt_view(#[trigger] result@[i])
                == Some(orig[i]) by {
                assert forall|j: int| 0 <= j < before.len() && !erasures@.contains(j as usize) implies #[trigger] before[j]@
                    == orig[j] by {
                    assert(available@[j] is Some);
                    assert(shard_views(available@)[j] is Some);
                }
                assert(IsalCodec::survivors_agree(before, orig, erasures@));
                assert(self.codec.is_codeword(orig));
                assert(bufs_view(after) == orig);
                assert forall|i: int| 0 <= i < k && missing@.contains(i as usize) implies opt_view(#[trigger] result@[i])
                    == Some(orig[i]) by {
                    assert(bufs_view(after)[i] == orig[i]);
                }
            }
        }
        Ok(result)
    }
}

/// Whether every shard that was read holds what `orig` holds.
pub open spec fn slots_agree(slots: Seq<Option<Seq<u8>>>, orig: Seq<Seq<u8>>) -> bool {
    forall|j: int| 0 <= j < slots.len() && (#[trigger] slots[j]) is Some ==> slots[j]->0 == orig[j]
}

/// The counters after a fast-path read of `bytes` bytes.
pub open spec fn after_fast_path(st: EcReaderStats, bytes: u64) -> EcReaderStats {
    EcReaderStats {
        reads_total: wrap_add(st.reads_total, 1),
        reads_fast_path: wrap_add(st.reads_fast_path, 1),
        bytes_read: wrap_add(st.bytes_read, bytes),
        ..st
    }
}

/// The counters after a degraded read of `bytes` bytes rebuilding `n` shards.
pub open spec fn after_degraded(st: EcReaderStats, bytes: u64, n: nat) -> EcReaderStats {
    EcReaderStats {
        reads_total: wrap_add(st.reads_total, 1),
        reads_degraded: wrap_add(st.reads_degraded, 1),
        bytes_read: wrap_add(st.bytes_read, bytes),
        shards_reconstructed: wrap_add(st.shards_reconstructed, n as u64),
        ..st
    }
}

/// What the degraded path returns, given the counters before (`st0`) and
/// after (`st1`).
pub open spec fn degraded_outcome(
    config: EcReaderConfig,
    request: ReadRequest,
    rs: Seq<ShardOutcome>,
    st0: EcReaderStats,
    st1: EcReaderStats,
    r: Result<(ReadResult, Option<RepairRequest>)>,
) -> bool {
    let k = config.data_shards as nat;
    let total = (config.data_shards + config.parity_shards) as nat;
    let missing = missing_data(rs, k);
    let erasures = erasure_count(rs, total);
    let ok = ok_indices(rs);
    if missing.len() > 0 && erasures > config.parity_shards {
        &&& r == Err::<(ReadResult, Option<RepairRequest>), Error>(
            Error::InsufficientShards { available: (total - erasures) as usize, required: k as usize },
        )
        &&& st1 == st0
    } else {
        &&& (exists|i: int| 0 <= i < k && available_slot(rs, i) is None && !(#[trigger] missing.contains(i as usize)))
            ==> r is Err
        &&& (forall|i: int| 0 <= i < k ==> (#[trigger] available_slot(rs, i)) is Some) ==> r is Ok
        &&& (forall|i: int| 0 <= i < k && (#[trigger] available_slot(rs, i)) is None ==> missing.contains(i as usize))
            && (forall|a: int, b: int|
            0 <= a < k && 0 <= b < k && (#[trigger] available_slot(rs, a)) is None && (#[trigger] available_slot(rs, b))
                is None ==> a == b) ==> r is Ok
        &&& r matches Err(e) ==> (e is Internal || e is InsufficientShards || e is InvalidEcConfig || e is IsalMatrixError)
            && st1 == st0
        &&& r matches Ok(out) ==> {
            &&& exists|slots: Seq<Option<Seq<u8>>>|
                #[trigger] degraded_slots_ok(rs, k, config.parity_shards as nat, config.shard_size as nat, slots)
                    && all_present(slots) && out.0.data@ == concat_shards(slots)
            &&& out.0.read_type matches ReadType::Degraded { missing_shards, shards_used } && missing_shards@
                == failed_indices(rs) && shards_used@ == ok.take(if ok.len() < k { ok.len() as int } else { k as int })
            &&& out.0.shard_results@ == read_records(rs)
            &&& out.0.volume_id == request.volume_id
            &&& out.0.stripe_id == request.stripe_id
            &&& st1 == after_degraded(st0, (k * config.shard_size) as u64, missing.len())
            &&& out.1 == if config.trigger_background_repair && missing.len() > 0 {
                Some(
                    RepairRequest {
                        volume_id: request.volume_id,
                        stripe_id: request.stripe_id,
                        missing_shards: out.1->0.missing_shards,
                        priority: request.priority,
                    },
                )
            } else {
                None::<RepairRequest>
            }
            &&& out.1 matches Some(rep) ==> rep.missing_shards@ == failed_indices(rs)
        }
    }
}

/// The failed data shards: the indices below `k`, in order.
fn missing_data_shards(failed: &Vec<usize>, k: usize) -> (r: Vec<usize>)
    ensures
        r@ == failed@.filter(|i: usize| i < k),
{
    let mut out: Vec<usize> = Vec::new();
    let mut i: usize = 0;
    while i < failed.len()
        invariant
            0 <= i <= failed@.len(),
            out@ == failed@.subrange(0, i as int).filter(|x: usize| x < k),
        decreases failed@.len() - i,
    {
        proof {
            reveal(Seq::filter);
            assert(failed@.subrange(0, i + 1).drop_last() =~= failed@.subrange(0, i as int));
        }
        if failed[i] < k {
            out.push(failed[i]);
        }
        i += 1;
    }
    assert(failed@.subrange(0, failed@.len() as int) =~= failed@);
    out
}

/// A copy of a list of indices.
fn copy_indices(v: &Vec<usize>, n: usize) -> (r: Vec<usize>)
    requires
        n <= v@.len(),
    ensures
        r@ == v@.take(n as int),
{
    let mut out: Vec<usize> = Vec::new();
    let mut i: usize = 0;
    while i < n
        invariant
            n <= v@.len(),
            0 <= i <= n,
            out@ == v@.take(i as int),
        decreases n - i,
    {
        out.push(v[i]);
        assert(out@ =~= v@.take(i + 1));
        i += 1;
    }
    out
}

impl EcReader {
    /// Degraded path: rebuilds missing data shards from the shards read.
    fn degraded_path_read(
        &mut self,
        request: ReadRequest,
        results: &Vec<ShardOutcome>,
        successful_shards: Vec<usize>,
        failed: Vec<usize>,
        start: &std::time::Instant,
    ) -> (r: Result<(ReadResult, Option<RepairRequest>)>)
        requires
            old(self).wf(),
            outcomes_well_shaped(results@, old(self).config_spec().data_shards as int, old(self).config_spec().shard_size as int),
            old(self).config_spec().data_shards * old(self).config_spec().shard_size <= usize::MAX,
            successful_shards@ == ok_indices(results@),
            failed@ == failed_indices(results@),
        ensures
            final(self).wf(),
            final(self).config_spec() == old(self).config_spec(),
            final(self).nodes() == old(self).nodes(),
            degraded_outcome(old(self).config_spec(), request, results@, old(self).stats_spec(), final(self).stats_spec(), r),
    {
        let k = self.config.data_shards as usize;
        let total = self.config.total_shards();
        let ghost rs = results@;
        let mut available = empty_slots(total);
        let mut all_results: Vec<ShardReadResult> = Vec::new();
        let mut j: usize = 0;
        while j < results.len()
            invariant
                total == self.config.data_shards + self.config.parity_shards,
                rs == results@,
                outcomes_well_shaped(rs, k as int, self.config.shard_size as int),
                0 <= j <= rs.len(),
                available@.len() == total,
                forall|i: int| 0 <= i < total ==> opt_view(#[trigger] available@[i]) == opt_view(available_slot(rs.subrange(0, j as int), i)),
                forall|i: int| 0 <= i < total && (#[trigger] available@[i]) is Some ==> available@[i]->0@.len() == self.config.shard_size,
                all_results@ == read_records(rs.subrange(0, j as int)),
            decreases rs.len() - j,
        {
            proof {
                assert(rs.subrange(0, j + 1).drop_last() =~= rs.subrange(0, j as int));
                assert(rs.subrange(0, j + 1).last() == rs[j as int]);
                assert(read_records(rs.subrange(0, j + 1)) =~= read_records(rs.subrange(0, j as int)).push(rs[j as int].2));
            }
            all_results.push(results[j].2.duplicate());
            let idx = results[j].0.shard_index;
            if results[j].1.is_some() && idx < total {
                let slot = copy_slot(&results[j].1);
                available.set(idx, slot);
            }
            j += 1;
        }
        proof {
            assert(rs.subrange(0, rs.len() as int) =~= rs);
            assert(shard_views(available@) =~= available_views(rs, total as nat));
        }
        let used_count = if successful_shards.len() < k { successful_shards.len() } else { k };
        let shards_to_use = copy_indices(&successful_shards, used_count);
        let missing = missing_data_shards(&failed, k);
        proof {
            if forall|a: int, b: int|
                0 <= a < k && 0 <= b < k && (#[trigger] available_slot(rs, a)) is None && (#[trigger] available_slot(rs, b))
                    is None ==> a == b {
                assert forall|a: int, b: int|
                    0 <= a < k && 0 <= b < k && (#[trigger] available@[a]) is None && (#[trigger] available@[b]) is None
                        implies a == b by {
                    assert(opt_view(available@[a]) == opt_view(available_slot(rs, a)));
                    assert(opt_view(available@[b]) == opt_view(available_slot(rs, b)));
                }
            }
        }
        let reconstructed = match self.reconstruct_missing_shards(&available, &missing) {
            Ok(v) => v,
            Err(e) => return Err(e),
        };
        let mut final_data = empty_slots(k);
        let mut i: usize = 0;
        while i < k
            invariant
                k == self.config.data_shards,
                k <= total,
                available@.len() == total,
                reconstructed@.len() == k,
                final_data@.len() == k,
                0 <= i <= k,
                forall|q: int| 0 <= q < total && (#[trigger] available@[q]) is Some ==> available@[q]->0@.len() == self.config.shard_size,
                forall|q: int| 0 <= q < k && (#[trigger] reconstructed@[q]) is Some ==> reconstructed@[q]->0@.len() == self.config.shard_size,
                forall|q: int| 0 <= q < i ==> opt_view(#[trigger] final_data@[q]) == if available@[q] is Some {
                    opt_view(available@[q])
                } else {
                    opt_view(reconstructed@[q])
                },
                forall|q: int| 0 <= q < k && (#[trigger] final_data@[q]) is Some ==> final_data@[q]->0@.len() == self.config.shard_size,
            decreases k - i,
        {
            if available[i].is_some() {
                final_data.set(i, copy_slot(&available[i]));
            } else {
                final_data.set(i, copy_slot(&reconstructed[i]));
            }
            i += 1;
        }
        let ghost slots = shard_views(final_data@);
        let ghost m = self.config.parity_shards as nat;
        let ghost sz = self.config.shard_size as nat;
        proof {
            assert(missing@ =~= missing_data(rs, k as nat));
            assert forall|q: int| 0 <= q < k implies {
                &&& (available_slot(rs, q) matches Some(b) ==> #[trigger] slots[q] == Some(b@))
                &&& (available_slot(rs, q) is None && !missing_data(rs, k as nat).contains(q as usize) ==> slots[q] is None)
                &&& (available_slot(rs, q) is None && missing_data(rs, k as nat).contains(q as usize) ==> slots[q] is Some
                    && slots[q]->0.len() == sz)
            } by {
                assert(opt_view(available@[q]) == opt_view(available_slot(rs, q)));
            }
            assert forall|orig: Seq<Seq<u8>>|
                #[trigger] is_codeword(orig, k as nat, m, sz) && slots_agree(available_views(rs, (k + m) as nat), orig)
                    implies forall|q: int| 0 <= q < k && missing_data(rs, k as nat).contains(q as usize) ==> #[trigger] slots[q] == Some(orig[q]) by {
                assert(shard_views(available@) == available_views(rs, total as nat));
                assert forall|q: int| 0 <= q < k && missing_data(rs, k as nat).contains(q as usize) implies #[trigger] slots[q]
                    == Some(orig[q]) by {
                    assert(opt_view(available@[q]) == opt_view(available_slot(rs, q)));
                    if available@[q] is Some {
                        assert(shard_views(available@)[q] is Some);
                    }
                }
            }
            assert(degraded_slots_ok(rs, k as nat, m, sz, slots));
        }
        let combined = match combine_data_shards(&self.config, final_data.as_slice()) {
            Ok(b) => b,
            Err(e) => {
                proof {
                    assert(k * self.config.shard_size > 0) by (nonlinear_arith)
                        requires
                            k > 0,
                            self.config.shard_size > 0,
                    ;
                    if forall|q: int| 0 <= q < k && (#[trigger] available_slot(rs, q)) is None ==> missing_data(
                        rs,
                        k as nat,
                    ).contains(q as usize) {
                        assert forall|q: int| 0 <= q < final_data@.len() implies (#[trigger] final_data@[q]) is Some by {
                            assert(slots[q] is Some);
                        }
                    }
                }
                return Err(e);
            },
        };
        proof {
            assert(k * self.config.shard_size > 0) by (nonlinear_arith)
                requires
                    k > 0,
                    self.config.shard_size > 0,
            ;
            assert forall|q: int| 0 <= q < k implies (#[trigger] slots[q]) is Some by {
                assert(final_data@[q] is Some);
                assert(shard_views(final_data@)[q] is Some);
            }
            assert(zeros((k * self.config.shard_size - final_data@.len() * self.config.shard_size) as nat) =~= Seq::<u8>::empty());
            assert(combined@ =~= concat_shards(slots));
            assert(all_present(slots));
            assert(read_records(rs.subrange(0, rs.len() as int)) == read_records(rs));
        }
        let bytes = combined.len() as u64;
        let missing_count = missing.len();
        self.stats.record_degraded(bytes, missing_count);
        let repair = if self.config.trigger_background_repair && missing_count > 0 {
            Some(
                RepairRequest {
                    volume_id: request.volume_id.clone(),
                    stripe_id: request.stripe_id,
                    missing_shards: copy_indices(&failed, failed.len()),
                    priority: request.priority,
                },
            )
        } else {
            None
        };
        proof {
            assert(failed@.take(failed@.len() as int) =~= failed@);
        }
        let res = ReadResult {
            data: combined,
            volume_id: request.volume_id,
            stripe_id: request.stripe_id,
            read_type: ReadType::Degraded { missing_shards: failed, shards_used: shards_to_use },
            duration_us: elapsed_micros(start),
            shard_results: all_results,
        };
        proof {
            assert(degraded_slots_ok(rs, k as nat, m, sz, slots) && all_present(slots) && res.data@ == concat_shards(slots));
            assert forall|i: int| 0 <= i < k && available_slot(rs, i) is None implies #[trigger] missing_data(
                rs,
                k as nat,
            ).contains(i as usize) by {
                assert(slots[i] is Some);
            }
        }
        Ok((res, repair))
    }

    /// Finishes reading a stripe from the outcomes of its shard reads: the
    /// shard counts are recorded; with every shard read (and the fast path
    /// on) the data shards are combined; otherwise, with at least `k` shards
    /// read, missing data shards are rebuilt; otherwise the read fails. A
    /// degraded read may ask for a background repair.
    pub fn finish_read(&mut self, request: ReadRequest, results: Vec<ShardOutcome>, start: &std::time::Instant) -> (r:
        Result<(ReadResult, Option<RepairRequest>)>)
        requires
            old(self).wf(),
            outcomes_well_shaped(results@, old(self).config_spec().data_shards as int, old(self).config_spec().shard_size as int),
            old(self).config_spec().data_shards * old(self).config_spec().shard_size <= usize::MAX,
        ensures
            final(self).wf(),
            final(self).config_spec() == old(self).config_spec(),
            final(self).nodes() == old(self).nodes(),
            ({
                let rs = results@;
                let c = old(self).config_spec();
                let k = c.data_shards as nat;
                let ok = ok_indices(rs);
                let failed = failed_indices(rs);
                let st0 = old(self).stats_spec();
                let st1 = EcReaderStats {
                    shards_read_success: wrap_add(st0.shards_read_success, ok.len() as u64),
                    shards_read_failed: wrap_add(st0.shards_read_failed, failed.len() as u64),
                    ..st0
                };
                let fast = failed.len() == 0 && c.enable_fast_path;
                &&& fast ==> {
                    let slots = fast_slots(rs, k);
                    &&& r is Ok <==> all_present(slots)
                    &&& r matches Err(e) ==> e is Internal && final(self).stats_spec() == st1
                    &&& r matches Ok(out) ==> {
                        &&& out.0.data@ == concat_shards(slots)
                        &&& out.0.read_type == ReadType::FastPath
                        &&& out.0.shard_results@ == read_records(rs)
                        &&& out.0.volume_id == request.volume_id
                        &&& out.0.stripe_id == request.stripe_id
                        &&& out.1 is None
                        &&& final(self).stats_spec() == after_fast_path(st1, (k * c.shard_size) as u64)
                    }
                }
                &&& !fast && ok.len() >= k ==> degraded_outcome(c, request, rs, st1, final(self).stats_spec(), r)
                &&& !fast && ok.len() < k ==> {
                    &&& r matches Err(Error::EcReconstructionFailed { stripe_id, .. }) && stripe_id == request.stripe_id
                    &&& final(self).stats_spec() == (EcReaderStats {
                        reads_total: wrap_add(st1.reads_total, 1),
                        reads_failed: wrap_add(st1.reads_failed, 1),
                        ..st1
                    })
                }
            }),
    {
        let (successful_shards, failed) = self.analyze_shard_results(results.as_slice());
        self.stats.record_shard_results(successful_shards.len(), failed.len());
        if failed.len() == 0 && self.config.enable_fast_path {
            match self.fast_path_read(request, &results, start) {
                Ok(res) => Ok((res, None)),
                Err(e) => Err(e),
            }
        } else if successful_shards.len() >= self.config.data_shards as usize {
            self.degraded_path_read(request, &results, successful_shards, failed, start)
        } else {
            self.stats.record_failed();
            Err(
                Error::EcReconstructionFailed {
                    stripe_id: request.stripe_id,
                    reason: insufficient_shards_message(successful_shards.len(), self.config.data_shards),
                },
            )
        }
    }

    /// Counts a background repair that was handed to the repair task.
    pub fn record_repair_triggered(&mut self)
        ensures
            final(self).stats_spec() == (EcReaderStats {
                repairs_triggered: wrap_add(old(self).stats_spec().repairs_triggered, 1),
                ..old(self).stats_spec()
            }),
            final(self).config_spec() == old(self).config_spec(),
            final(self).nodes() == old(self).nodes(),
            final(self).wf() == old(self).wf(),
    {
        self.stats.repairs_triggered = self.stats.repairs_triggered.wrapping_add(1);
    }
}

} // verus!
