//! Destaging from the Hot Tier (replicated journal) to the Cold Tier
//! (erasure-coded storage): assembling journal writes into stripes, laying
//! them out in data chunks, encoding parity, and the bookkeeping around it.

use vstd::prelude::*;
use vstd::slice::SliceAdditionalExecFns;

use super::dma_buf::{is_pow2, usize_is_power_of_two};
use super::isal_codec::{bufs_view, codec_config_valid, IsalCodec, IsalCodecConfig, MatrixType};
use super::l2p_map::{floor_lookup, overlaps_pred, trim_overlaps};
use super::metadata_engine::{wadd, LbaRange, MetadataEngine, StorageTier, StripeLocation};
use super::DmaBuf;
use crate::clock::{elapsed_micros, instant_now};
use crate::error::{Error, Result};

verus! {

// =============================================================================
// Constants
// =============================================================================

/// Default write size from journal (4KB aligned)
pub const JOURNAL_WRITE_SIZE: usize = 4096;

/// Default chunk size for erasure coding (1MB)
pub const DEFAULT_CHUNK_SIZE: usize = 1048576;

/// Default data shards (k)
pub const DEFAULT_DATA_SHARDS: u8 = 4;

/// Default parity shards (m)
pub const DEFAULT_PARITY_SHARDS: u8 = 2;

/// Maximum retry attempts for encoding
pub const MAX_ENCODE_RETRIES: u32 = 3;

/// Maximum retry attempts for shard writes
pub const MAX_WRITE_RETRIES: u32 = 3;

// =============================================================================
// Configuration
// =============================================================================

/// Configuration for the Destage Manager.
#[derive(Debug, Clone, Copy, PartialEq, Eq)]
pub struct DestageManagerConfig {
    /// Number of data shards (k)
    pub data_shards: u8,
    /// Number of parity shards (m)
    pub parity_shards: u8,
    /// Size of each data chunk in bytes
    pub chunk_size: usize,
    /// Interval between destage cycles, in milliseconds
    pub destage_interval_ms: u64,
    /// Journal fill threshold to trigger destaging (0-100)
    pub destage_threshold_percent: u8,
    /// Maximum concurrent destage operations
    pub max_concurrent_destages: usize,
    /// Maximum concurrent shard writes per stripe
    pub max_concurrent_writes: usize,
    /// Retry delay for failed operations, in milliseconds
    pub retry_delay_ms: u64,
    /// Whether to verify writes by reading back
    pub verify_writes: bool,
    /// Dry run mode (log only, no actual writes)
    pub dry_run: bool,
}

impl Default for DestageManagerConfig {
    fn default() -> (r: Self)
        ensures
            r == (DestageManagerConfig {
                data_shards: 4,
                parity_shards: 2,
                chunk_size: 1048576,
                destage_interval_ms: 30_000,
                destage_threshold_percent: 80,
                max_concurrent_destages: 4,
                max_concurrent_writes: 6,
                retry_delay_ms: 100,
                verify_writes: false,
                dry_run: false,
            }),
    {
        DestageManagerConfig {
            data_shards: DEFAULT_DATA_SHARDS,
            parity_shards: DEFAULT_PARITY_SHARDS,
            chunk_size: DEFAULT_CHUNK_SIZE,
            destage_interval_ms: 30_000,
            destage_threshold_percent: 80,
            max_concurrent_destages: 4,
            max_concurrent_writes: 6,
            retry_delay_ms: 100,
            verify_writes: false,
            dry_run: false,
        }
    }
}

/// Whether a destage configuration is acceptable: at least one data and one
/// parity shard, and a power-of-two chunk of at least one journal write.
pub open spec fn destage_config_valid(c: DestageManagerConfig) -> bool {
    &&& c.data_shards > 0
    &&& c.parity_shards > 0
    &&& c.chunk_size >= JOURNAL_WRITE_SIZE
    &&& is_pow2(c.chunk_size)
}

impl DestageManagerConfig {
    /// The full stripe size (data only, before encoding).
    pub fn stripe_data_size(&self) -> (r: usize)
        requires
            self.chunk_size * self.data_shards <= usize::MAX,
        ensures
            r == self.chunk_size * self.data_shards,
    {
        self.chunk_size * self.data_shards as usize
    }

    /// Total shards (k + m).
    pub fn total_shards(&self) -> (r: usize)
        ensures
            r == self.data_shards + self.parity_shards,
    {
        self.data_shards as usize + self.parity_shards as usize
    }

    /// Checks the configuration.
    pub fn validate(&self) -> (r: Result<()>)
        ensures
            r is Ok <==> destage_config_valid(*self),
            r matches Err(e) ==> e is InvalidEcConfig,
    {
        if self.data_shards == 0 {
            return Err(Error::InvalidEcConfig("data_shards must be > 0".to_owned()));
        }
        if self.parity_shards == 0 {
            return Err(Error::InvalidEcConfig("parity_shards must be > 0".to_owned()));
        }
        if self.chunk_size < JOURNAL_WRITE_SIZE {
            return Err(Error::InvalidEcConfig("chunk_size must be >= 4KB".to_owned()));
        }
        if !usize_is_power_of_two(self.chunk_size) {
            return Err(Error::InvalidEcConfig("chunk_size must be a power of 2".to_owned()));
        }
        Ok(())
    }
}

// =============================================================================
// Journal writes
// =============================================================================

/// Location of data in the Hot Journal (for trimming).
#[derive(Debug, Clone, PartialEq, Eq)]
pub struct JournalLocation {
    /// Device ID of the journal
    pub device_id: String,
    /// Offset within the journal
    pub offset: u64,
    /// Length of the data
    pub length: u64,
}

/// A single write from the Hot Journal waiting to be destaged.
#[derive(Debug, Clone)]
pub struct JournalWrite {
    /// Volume ID this write belongs to
    pub volume_id: String,
    /// LBA range of this write
    pub lba_range: LbaRange,
    /// The actual data (4KB aligned)
    pub data: DmaBuf,
    /// Journal location for trimming later
    pub journal_location: JournalLocation,
    /// When the write was received
    pub received_at: std::time::Instant,
    /// Sequence number for ordering
    pub sequence: u64,
}

/// Number of data bytes held by a list of writes.
pub open spec fn total_bytes(writes: Seq<JournalWrite>) -> nat
    decreases writes.len(),
{
    if writes.len() == 0 {
        0
    } else {
        writes[0].data@.len() + total_bytes(writes.drop_first())
    }
}

/// Adding a write at the back adds its bytes.
pub proof fn lemma_total_bytes_push(writes: Seq<JournalWrite>, w: JournalWrite)
    ensures
        total_bytes(writes.push(w)) == total_bytes(writes) + w.data@.len(),
    decreases writes.len(),
{
    if writes.len() > 0 {
        assert(writes.push(w).drop_first() =~= writes.drop_first().push(w));
        assert(writes.push(w)[0] == writes[0]);
        lemma_total_bytes_push(writes.drop_first(), w);
    } else {
        assert(writes.push(w).drop_first() =~= Seq::<JournalWrite>::empty());
        assert(writes.push(w)[0] == w);
        assert(total_bytes(Seq::<JournalWrite>::empty()) == 0);
        assert(writes =~= Seq::<JournalWrite>::empty());
    }
}

/// How many writes, taken from the front, a stripe of `target` bytes takes:
/// writes are taken until their bytes reach the target or none are left.
pub open spec fn stripe_take(writes: Seq<JournalWrite>, target: int) -> nat
    decreases writes.len(),
{
    if target <= 0 || writes.len() == 0 {
        0
    } else {
        1 + stripe_take(writes.drop_first(), target - writes[0].data@.len())
    }
}

// =============================================================================
// Stripe Assembly Buffer
// =============================================================================

/// Buffer for assembling writes into complete stripes.
#[derive(Debug)]
pub struct StripeAssemblyBuffer {
    volume_id: String,
    pending_writes: std::collections::VecDeque<JournalWrite>,
    buffered_bytes: usize,
    target_size: usize,
    next_sequence: u64,
}

impl StripeAssemblyBuffer {
    /// Writes waiting to form a stripe, oldest first.
    pub closed spec fn pending(&self) -> Seq<JournalWrite> {
        self.pending_writes@
    }

    /// Bytes counted as buffered.
    pub closed spec fn buffered(&self) -> usize {
        self.buffered_bytes
    }

    /// Stripe size (data portion) the buffer assembles.
    pub closed spec fn target(&self) -> usize {
        self.target_size
    }

    /// Sequence number the next write gets.
    pub closed spec fn next_seq(&self) -> u64 {
        self.next_sequence
    }

    /// Volume the buffer belongs to.
    pub closed spec fn volume(&self) -> String {
        self.volume_id
    }

    /// The byte count matches the pending writes.
    pub open spec fn wf(&self) -> bool {
        self.buffered() == total_bytes(self.pending())
    }

    /// An empty buffer for a volume.
    pub fn new(volume_id: String, target_size: usize) -> (r: StripeAssemblyBuffer)
        ensures
            r.wf(),
            r.pending() == Seq::<JournalWrite>::empty(),
            r.buffered() == 0,
            r.target() == target_size,
            r.next_seq() == 0,
            r.volume() == volume_id,
    {
        StripeAssemblyBuffer {
            volume_id,
            pending_writes: std::collections::VecDeque::new(),
            buffered_bytes: 0,
            target_size,
            next_sequence: 0,
        }
    }

    /// Appends a write, giving it the next sequence number.
    pub fn push(&mut self, write: JournalWrite)
        requires
            old(self).wf(),
            old(self).buffered() + write.data@.len() <= usize::MAX,
        ensures
            final(self).wf(),
            final(self).pending() == old(self).pending().push(
                (JournalWrite { sequence: old(self).next_seq(), ..write }),
            ),
            final(self).buffered() == old(self).buffered() + write.data@.len(),
            final(self).next_seq() == vstd::wrapping::u64_specs::wrapping_add(old(self).next_seq(), 1),
            final(self).target() == old(self).target(),
            final(self).volume() == old(self).volume(),
    {
        let mut write = write;
        write.sequence = self.next_sequence;
        self.next_sequence = self.next_sequence.wrapping_add(1);
        self.buffered_bytes = self.buffered_bytes + write.data.len();
        proof {
            lemma_total_bytes_push(self.pending_writes@, write);
        }
        self.pending_writes.push_back(write);
    }

    /// Whether enough data is buffered for a complete stripe.
    pub fn is_stripe_ready(&self) -> (r: bool)
        ensures
            r == (self.buffered() >= self.target()),
    {
        self.buffered_bytes >= self.target_size
    }

    /// Takes the writes of one complete stripe from the front: writes are
    /// taken until their bytes reach the stripe size. Nothing is taken, and
    /// `None` comes back, when the buffer holds less than a stripe or when
    /// the stripe size is zero.
    pub fn extract_stripe_writes(&mut self) -> (r: Option<Vec<JournalWrite>>)
        requires
            old(self).wf(),
        ensures
            final(self).wf(),
            final(self).target() == old(self).target(),
            final(self).next_seq() == old(self).next_seq(),
            final(self).volume() == old(self).volume(),
            ({
                let n = stripe_take(old(self).pending(), old(self).target() as int);
                if old(self).buffered() >= old(self).target() && n > 0 {
                    &&& r matches Some(v) && v@ == old(self).pending().subrange(0, n as int)
                    &&& final(self).pending() == old(self).pending().subrange(
                        n as int,
                        old(self).pending().len() as int,
                    )
                } else {
                    &&& r is None
                    &&& final(self).pending() == old(self).pending()
                }
            }),
    {
        if !self.is_stripe_ready() {
            return None;
        }
        let ghost p0 = self.pending_writes@;
        let ghost target = self.target_size as int;
        let mut stripe_writes: Vec<JournalWrite> = Vec::new();
        let mut extracted_bytes: usize = 0;
        while extracted_bytes < self.target_size
            invariant
                self.buffered_bytes == total_bytes(self.pending_writes@),
                self.target_size == target,
                self.next_sequence == old(self).next_sequence,
                self.volume_id == old(self).volume_id,
                total_bytes(p0) <= usize::MAX,
                extracted_bytes + self.buffered_bytes == total_bytes(p0),
                stripe_writes@.len() <= p0.len(),
                stripe_writes@ == p0.subrange(0, stripe_writes@.len() as int),
                self.pending_writes@ == p0.subrange(stripe_writes@.len() as int, p0.len() as int),
                stripe_take(p0, target) == stripe_writes@.len() + stripe_take(
                    self.pending_writes@,
                    target - extracted_bytes,
                ),
            ensures
                extracted_bytes >= target || self.pending_writes@.len() == 0,
            decreases self.pending_writes@.len(),
        {
            let ghost before = self.pending_writes@;
            match self.pending_writes.pop_front() {
                Some(write) => {
                    proof {
                        assert(before.drop_first() =~= self.pending_writes@);
                        assert(total_bytes(before) == write.data@.len() + total_bytes(before.drop_first()));
                        assert(p0.subrange(0, stripe_writes@.len() as int + 1) =~= stripe_writes@.push(write));
                        assert(p0.subrange(stripe_writes@.len() as int + 1, p0.len() as int) =~= self.pending_writes@);
                    }
                    extracted_bytes = extracted_bytes + write.data.len();
                    self.buffered_bytes = self.buffered_bytes - write.data.len();
                    stripe_writes.push(write);
                },
                None => {
                    break;
                },
            }
        }
        assert(p0.subrange(0, p0.len() as int) =~= p0);
        assert(p0.subrange(0, 0) =~= Seq::<JournalWrite>::empty());
        if stripe_writes.len() == 0 {
            None
        } else {
            Some(stripe_writes)
        }
    }

    /// Number of pending writes.
    pub fn pending_count(&self) -> (r: usize)
        ensures
            r == self.pending().len(),
    {
        self.pending_writes.len()
    }

    /// Total buffered bytes.
    pub fn buffered_bytes(&self) -> (r: usize)
        ensures
            r == self.buffered(),
    {
        self.buffered_bytes
    }

    /// The volume the buffer belongs to.
    pub fn volume_id(&self) -> (r: &String)
        ensures
            *r == self.volume(),
    {
        &self.volume_id
    }

    /// The stripe size the buffer assembles.
    pub fn target_size(&self) -> (r: usize)
        ensures
            r == self.target(),
    {
        self.target_size
    }
}

// =============================================================================
// Destage Task
// =============================================================================

/// What the destage driver does next.
#[derive(Debug, Clone, Copy, PartialEq, Eq)]
pub enum DestageAction {
    /// Aggregate the buffered writes into data chunks
    Aggregate,
    /// Encode the chunks into data and parity shards
    Encode,
    /// Write the shards to their nodes
    WriteShards,
    /// Point the L2P mapping at the new stripe
    UpdateMetadata,
    /// Trim the journal entries the stripe replaced
    TrimJournal,
    /// Report success
    Finish,
    /// Report the failure of the last step
    Fail,
}

/// The next phase and action of a destage, given the phase whose step just
/// ran and whether it succeeded.
pub open spec fn destage_step_spec(phase: DestagePhase, ok: bool) -> (DestagePhase, DestageAction) {
    if !ok {
        match phase {
            DestagePhase::Encoding => (DestagePhase::Failed, DestageAction::Fail),
            DestagePhase::Writing => (DestagePhase::Failed, DestageAction::Fail),
            _ => (phase, DestageAction::Fail),
        }
    } else {
        match phase {
            DestagePhase::Aggregating => (DestagePhase::Encoding, DestageAction::Encode),
            DestagePhase::Encoding => (DestagePhase::Writing, DestageAction::WriteShards),
            DestagePhase::Writing => (DestagePhase::UpdatingMetadata, DestageAction::UpdateMetadata),
            DestagePhase::UpdatingMetadata => (DestagePhase::Trimming, DestageAction::TrimJournal),
            DestagePhase::Trimming => (DestagePhase::Completed, DestageAction::Finish),
            DestagePhase::Completed => (DestagePhase::Completed, DestageAction::Finish),
            DestagePhase::Failed => (DestagePhase::Failed, DestageAction::Fail),
        }
    }
}

/// Drives a destage: a destage starts in `Aggregating` with the action
/// `Aggregate`; after each step the driver reports whether it succeeded
/// and gets the next phase and action. A success moves the workflow on
/// (aggregate, encode, write the shards, update the mapping, trim the
/// journal, finish); a failed step stops it, failing the destage when
/// encoding or writing gave up.
pub fn destage_step(phase: DestagePhase, ok: bool) -> (r: (DestagePhase, DestageAction))
    ensures
        r == destage_step_spec(phase, ok),
{
    if !ok {
        match phase {
            DestagePhase::Encoding => (DestagePhase::Failed, DestageAction::Fail),
            DestagePhase::Writing => (DestagePhase::Failed, DestageAction::Fail),
            _ => (phase, DestageAction::Fail),
        }
    } else {
        match phase {
            DestagePhase::Aggregating => (DestagePhase::Encoding, DestageAction::Encode),
            DestagePhase::Encoding => (DestagePhase::Writing, DestageAction::WriteShards),
            DestagePhase::Writing => (DestagePhase::UpdatingMetadata, DestageAction::UpdateMetadata),
            DestagePhase::UpdatingMetadata => (DestagePhase::Trimming, DestageAction::TrimJournal),
            DestagePhase::Trimming => (DestagePhase::Completed, DestageAction::Finish),
            DestagePhase::Completed => (DestagePhase::Completed, DestageAction::Finish),
            DestagePhase::Failed => (DestagePhase::Failed, DestageAction::Fail),
        }
    }
}

/// The journal is trimmed only once the mapping update has succeeded, and
/// a destage finishes only after trimming (or when already complete).
pub proof fn law_trim_only_after_metadata_update(phase: DestagePhase, ok: bool)
    ensures
        destage_step_spec(phase, ok).1 == DestageAction::TrimJournal ==> phase == DestagePhase::UpdatingMetadata && ok,
        destage_step_spec(phase, ok).1 == DestageAction::Finish ==> ok && (phase == DestagePhase::Trimming
            || phase == DestagePhase::Completed),
        destage_step_spec(phase, ok).1 == DestageAction::UpdateMetadata ==> phase == DestagePhase::Writing && ok,
{
}

/// Current phase of a destage operation.
#[derive(Debug, Clone, Copy, PartialEq, Eq)]
pub enum DestagePhase {
    /// Aggregating writes into chunks
    Aggregating,
    /// Encoding data chunks into parity
    Encoding,
    /// Writing shards to storage nodes
    Writing,
    /// Updating metadata (L2P mapping)
    UpdatingMetadata,
    /// Trimming journal
    Trimming,
    /// Completed successfully
    Completed,
    /// Failed (with retries exhausted)
    Failed,
}

impl DestagePhase {
    /// Display name of the phase.
    pub fn to_string(&self) -> (r: String)
        ensures
            r@ == (match *self {
                DestagePhase::Aggregating => "Aggregating"@,
                DestagePhase::Encoding => "Encoding"@,
                DestagePhase::Writing => "Writing"@,
                DestagePhase::UpdatingMetadata => "UpdatingMetadata"@,
                DestagePhase::Trimming => "Trimming"@,
                DestagePhase::Completed => "Completed"@,
                DestagePhase::Failed => "Failed"@,
            }),
    {
        match self {
            DestagePhase::Aggregating => "Aggregating".to_owned(),
            DestagePhase::Encoding => "Encoding".to_owned(),
            DestagePhase::Writing => "Writing".to_owned(),
            DestagePhase::UpdatingMetadata => "UpdatingMetadata".to_owned(),
            DestagePhase::Trimming => "Trimming".to_owned(),
            DestagePhase::Completed => "Completed".to_owned(),
            DestagePhase::Failed => "Failed".to_owned(),
        }
    }
}

/// A task representing a stripe being destaged.
#[derive(Debug)]
pub struct DestageTask {
    /// Unique task ID
    pub task_id: u64,
    /// Volume ID
    pub volume_id: String,
    /// Stripe ID being created
    pub stripe_id: u64,
    /// Writes included in this stripe
    pub writes: Vec<JournalWrite>,
    /// Combined LBA range
    pub lba_range: LbaRange,
    /// Current phase
    pub phase: DestagePhase,
    /// Retry count
    pub retry_count: u32,
    /// When the task started
    pub started_at: std::time::Instant,
    /// Error message if failed
    pub error: Option<String>,
}

/// Result of writing a single shard.
#[derive(Debug, Clone)]
pub struct ShardWriteResult {
    /// Shard index (0 to k+m-1)
    pub shard_index: u8,
    /// Whether this is a data shard
    pub is_data: bool,
    /// Target node
    pub node_id: String,
    /// Offset where shard was written
    pub offset: u64,
    /// Size written
    pub size: u64,
    /// Write latency, in microseconds
    pub latency_us: u64,
    /// Whether write succeeded
    pub success: bool,
    /// Error message if failed
    pub error: Option<String>,
}

// =============================================================================
// Statistics
// =============================================================================

/// Statistics for the Destage Manager.
#[derive(Debug, Clone, Copy, PartialEq, Eq, Default)]
pub struct DestageManagerStats {
    /// Total destage operations started
    pub destages_started: u64,
    /// Total destage operations completed
    pub destages_completed: u64,
    /// Total destage operations failed
    pub destages_failed: u64,
    /// Total bytes destaged
    pub bytes_destaged: u64,
    /// Total stripes created
    pub stripes_created: u64,
    /// Total encoding operations
    pub encode_operations: u64,
    /// Total encoding failures
    pub encode_failures: u64,
    /// Total shard writes
    pub shard_writes: u64,
    /// Total shard write failures
    pub shard_write_failures: u64,
    /// Total journal trims
    pub journal_trims: u64,
    /// Total trim failures
    pub trim_failures: u64,
    /// Total encoding time (microseconds)
    pub encode_time_us: u64,
    /// Total write time (microseconds)
    pub write_time_us: u64,
}

/// 64-bit wrapping addition, as the counters use.
pub open spec fn add_wrapping(a: u64, b: u64) -> u64 {
    vstd::wrapping::u64_specs::wrapping_add(a, b)
}

impl DestageManagerStats {
    /// All counters at zero.
    pub fn new() -> (r: DestageManagerStats)
        ensures
            r == (DestageManagerStats {
                destages_started: 0,
                destages_completed: 0,
                destages_failed: 0,
                bytes_destaged: 0,
                stripes_created: 0,
                encode_operations: 0,
                encode_failures: 0,
                shard_writes: 0,
                shard_write_failures: 0,
                journal_trims: 0,
                trim_failures: 0,
                encode_time_us: 0,
                write_time_us: 0,
            }),
    {
        DestageManagerStats {
            destages_started: 0,
            destages_completed: 0,
            destages_failed: 0,
            bytes_destaged: 0,
            stripes_created: 0,
            encode_operations: 0,
            encode_failures: 0,
            shard_writes: 0,
            shard_write_failures: 0,
            journal_trims: 0,
            trim_failures: 0,
            encode_time_us: 0,
            write_time_us: 0,
        }
    }

    /// Records a completed destage of `bytes` bytes (one more stripe).
    pub fn record_destage_complete(&mut self, bytes: u64)
        ensures
            *final(self) == (DestageManagerStats {
                destages_completed: add_wrapping(old(self).destages_completed, 1),
                bytes_destaged: add_wrapping(old(self).bytes_destaged, bytes),
                stripes_created: add_wrapping(old(self).stripes_created, 1),
                ..*old(self)
            }),
    {
        self.destages_completed = self.destages_completed.wrapping_add(1);
        self.bytes_destaged = self.bytes_destaged.wrapping_add(bytes);
        self.stripes_created = self.stripes_created.wrapping_add(1);
    }

    /// Records a failed destage.
    pub fn record_destage_failed(&mut self)
        ensures
            *final(self) == (DestageManagerStats {
                destages_failed: add_wrapping(old(self).destages_failed, 1),
                ..*old(self)
            }),
    {
        self.destages_failed = self.destages_failed.wrapping_add(1);
    }

    /// Records an encoding that took `duration_us` microseconds.
    pub fn record_encode(&mut self, duration_us: u64, success: bool)
        ensures
            *final(self) == (DestageManagerStats {
                encode_operations: add_wrapping(old(self).encode_operations, 1),
                encode_time_us: add_wrapping(old(self).encode_time_us, duration_us),
                encode_failures: if success {
                    old(self).encode_failures
                } else {
                    add_wrapping(old(self).encode_failures, 1)
                },
                ..*old(self)
            }),
    {
        self.encode_operations = self.encode_operations.wrapping_add(1);
        self.encode_time_us = self.encode_time_us.wrapping_add(duration_us);
        if !success {
            self.encode_failures = self.encode_failures.wrapping_add(1);
        }
    }

    /// Records a shard write that took `duration_us` microseconds.
    pub fn record_shard_write(&mut self, duration_us: u64, success: bool)
        ensures
            *final(self) == (DestageManagerStats {
                shard_writes: add_wrapping(old(self).shard_writes, 1),
                write_time_us: add_wrapping(old(self).write_time_us, duration_us),
                shard_write_failures: if success {
                    old(self).shard_write_failures
                } else {
                    add_wrapping(old(self).shard_write_failures, 1)
                },
                ..*old(self)
            }),
    {
        self.shard_writes = self.shard_writes.wrapping_add(1);
        self.write_time_us = self.write_time_us.wrapping_add(duration_us);
        if !success {
            self.shard_write_failures = self.shard_write_failures.wrapping_add(1);
        }
    }

    /// Average encoding time in microseconds (0 before any encoding).
    pub fn avg_encode_time_us(&self) -> (r: u64)
        ensures
            r == if self.encode_operations == 0 {
                0
            } else {
                self.encode_time_us / self.encode_operations
            },
    {
        if self.encode_operations == 0 {
            0
        } else {
            self.encode_time_us / self.encode_operations
        }
    }

    /// Average shard write time in microseconds (0 before any write).
    pub fn avg_write_time_us(&self) -> (r: u64)
        ensures
            r == if self.shard_writes == 0 {
                0
            } else {
                self.write_time_us / self.shard_writes
            },
    {
        if self.shard_writes == 0 {
            0
        } else {
            self.write_time_us / self.shard_writes
        }
    }
}

// =============================================================================
// Parity encoding
// =============================================================================

/// Coefficient of parity shard `p`: `p + 1` in 8-bit arithmetic.
pub open spec fn parity_coef(p: int) -> u8 {
    (((p % 256) + 1) % 256) as u8
}

/// Byte `i` of a parity shard with coefficient `coef`: the xor, over the
/// first `upto` data shards that reach byte `i` (and `i < chunk`), of the
/// data byte times `coef` modulo 256.
pub open spec fn xor_parity_byte(data: Seq<Seq<u8>>, coef: u8, chunk: int, i: int, upto: nat) -> u8
    decreases upto,
{
    if upto == 0 {
        0u8
    } else {
        let d = upto - 1;
        let prev = xor_parity_byte(data, coef, chunk, i, d as nat);
        if i < chunk && i < data[d].len() {
            prev ^ vstd::wrapping::u8_specs::wrapping_mul(data[d][i], coef)
        } else {
            prev
        }
    }
}

/// Contents of parity shard `p` of `len` bytes over the data shards, with
/// bytes beyond the first data shard's length left zero.
pub open spec fn parity_shard_bytes(data: Seq<Seq<u8>>, p: int, len: nat) -> Seq<u8> {
    Seq::new(len, |i: int| xor_parity_byte(data, parity_coef(p), data[0].len() as int, i, data.len()))
}

impl IsalCodec {
    /// Computes every parity shard with the simplified xor scheme: byte `i`
    /// of parity shard `p` is the xor over the data shards of their byte `i`
    /// times `p + 1` (8-bit wrapping), for `i` below the first data shard's
    /// length; the rest of each parity shard is zero. Nothing changes when
    /// there is no data or no parity shard.
    pub fn encode_to_parity(&self, data: &[DmaBuf], parity: &mut [DmaBuf]) -> (r: Result<()>)
        requires
            data@.len() > 0 ==> forall|p: int| 0 <= p < old(parity)@.len() ==> data@[0]@.len() <= (#[trigger] old(parity)@[p])@.len(),
        ensures
            r is Ok,
            final(parity)@.len() == old(parity)@.len(),
            data@.len() == 0 || old(parity)@.len() == 0 ==> final(parity)@ == old(parity)@,
            data@.len() > 0 ==> forall|p: int| 0 <= p < old(parity)@.len() ==> (#[trigger] final(parity)@[p])@
                == parity_shard_bytes(bufs_view(data@), p, old(parity)@[p]@.len()),
    {
        if data.len() == 0 || parity.len() == 0 {
            return Ok(());
        }
        let chunk_size = data[0].len();
        let ghost dv = bufs_view(data@);
        let mut p: usize = 0;
        while p < parity.len()
            invariant
                data@.len() > 0,
                chunk_size == data@[0]@.len(),
                dv == bufs_view(data@),
                0 <= p <= parity@.len(),
                parity@.len() == old(parity)@.len(),
                forall|q: int| p <= q < parity@.len() ==> parity@[q] == old(parity)@[q],
                forall|q: int| 0 <= q < p ==> (#[trigger] parity@[q])@ == parity_shard_bytes(dv, q, old(parity)@[q]@.len()),
            decreases parity@.len() - p,
        {
            let len = parity[p].len();
            let coef = ((p % 256) as u8).wrapping_add(1);
            proof {
                assert(coef == parity_coef(p as int)) by (nonlinear_arith)
                    requires
                        coef == vstd::wrapping::u8_specs::wrapping_add((p % 256) as u8, 1u8),
                ;
            }
            let mut bytes: Vec<u8> = Vec::new();
            let mut i: usize = 0;
            while i < len
                invariant
                    data@.len() > 0,
                    chunk_size == data@[0]@.len(),
                    dv == bufs_view(data@),
                    coef == parity_coef(p as int),
                    0 <= i <= len,
                    bytes@.len() == i,
                    forall|j: int| 0 <= j < i ==> #[trigger] bytes@[j] == xor_parity_byte(dv, coef, chunk_size as int, j, data@.len()),
                decreases len - i,
            {
                let mut acc: u8 = 0;
                let mut d: usize = 0;
                while d < data.len()
                    invariant
                        dv == bufs_view(data@),
                        0 <= d <= data@.len(),
                        acc == xor_parity_byte(dv, coef, chunk_size as int, i as int, d as nat),
                    decreases data@.len() - d,
                {
                    let shard = data[d].as_slice();
                    if i < chunk_size && i < shard.len() {
                        acc = acc ^ shard[i].wrapping_mul(coef);
                    }
                    d += 1;
                }
                bytes.push(acc);
                i += 1;
            }
            proof {
                assert(bytes@ =~= parity_shard_bytes(dv, p as int, old(parity)@[p as int]@.len()));
            }
            parity.set(p, DmaBuf::from_vec(bytes));
            p += 1;
        }
        Ok(())
    }
}

/// Message of an encode call with the wrong number of chunks (`format!`).
#[verifier::external_body]
fn chunk_count_message(expected: u8, got: usize) -> String {
    format!("Expected {} data chunks, got {}", expected, got)
}

/// Message of an encode call with a chunk of the wrong size (`format!`).
#[verifier::external_body]
fn chunk_size_message(index: usize, size: usize, expected: usize) -> String {
    format!("Chunk {} has size {}, expected {}", index, size, expected)
}

/// Result of an encoding operation.
#[derive(Debug)]
pub struct EncodeResult {
    /// Data shards (input, unchanged)
    pub data_shards: Vec<DmaBuf>,
    /// Parity shards (computed)
    pub parity_shards: Vec<DmaBuf>,
    /// Encoding duration, in microseconds
    pub duration_us: u64,
    /// Whether hardware acceleration was used
    pub hw_accelerated: bool,
}

/// Acceleration engine for erasure-coding operations, backed by the
/// software codec.
#[derive(Debug)]
pub struct SpdkAccelEngine {
    codec: IsalCodec,
    data_shards: u8,
    parity_shards: u8,
    chunk_size: usize,
    use_hw_accel: bool,
}

impl SpdkAccelEngine {
    /// Number of data shards.
    pub closed spec fn k(&self) -> u8 {
        self.data_shards
    }

    /// Number of parity shards.
    pub closed spec fn m(&self) -> u8 {
        self.parity_shards
    }

    /// Size of each chunk in bytes.
    pub closed spec fn chunk(&self) -> usize {
        self.chunk_size
    }

    /// Whether hardware acceleration is used.
    pub closed spec fn hw(&self) -> bool {
        self.use_hw_accel
    }

    /// The engine's shape is one the codec accepts.
    pub closed spec fn wf(&self) -> bool {
        codec_config_valid(self.data_shards, self.parity_shards, self.chunk_size)
    }

    /// An engine for `data_shards` + `parity_shards` chunks of `chunk_size`
    /// bytes; fails when the codec refuses that shape.
    pub fn new(data_shards: u8, parity_shards: u8, chunk_size: usize) -> (r: Result<SpdkAccelEngine>)
        ensures
            r is Ok <==> codec_config_valid(data_shards, parity_shards, chunk_size),
            r matches Ok(e) ==> e.wf() && e.k() == data_shards && e.m() == parity_shards && e.chunk()
                == chunk_size && !e.hw(),
            r matches Err(e) ==> e is InvalidEcConfig,
    {
        let codec_config = IsalCodecConfig {
            data_shards,
            parity_shards,
            shard_size: chunk_size,
            matrix_type: MatrixType::Cauchy,
            force_simd: None,
        };
        let codec = match IsalCodec::new(codec_config) {
            Ok(c) => c,
            Err(e) => return Err(e),
        };
        Ok(SpdkAccelEngine { codec, data_shards, parity_shards, chunk_size, use_hw_accel: false })
    }

    /// Encodes `k` data chunks of `chunk_size` bytes into data and parity
    /// shards; any other number or size of chunks is refused.
    pub fn encode(&self, data_chunks: Vec<DmaBuf>) -> (r: Result<EncodeResult>)
        requires
            self.wf(),
        ensures
            data_chunks@.len() != self.k() ==> r matches Err(Error::IsalEncodingError(_)),
            data_chunks@.len() == self.k() && (exists|i: int| 0 <= i < data_chunks@.len() && (#[trigger] data_chunks@[i])@.len()
                != self.chunk()) ==> r matches Err(Error::IsalEncodingError(_)),
            data_chunks@.len() == self.k() && (forall|i: int| 0 <= i < data_chunks@.len() ==> (#[trigger] data_chunks@[i])@.len()
                == self.chunk()) ==> (r matches Ok(res) && {
                &&& res.data_shards@ == data_chunks@
                &&& res.parity_shards@.len() == self.m()
                &&& forall|p: int| 0 <= p < self.m() ==> (#[trigger] res.parity_shards@[p])@ == parity_shard_bytes(
                    bufs_view(data_chunks@),
                    p,
                    self.chunk() as nat,
                )
                &&& res.hw_accelerated == self.hw()
            }),
    {
        let start = instant_now();
        if data_chunks.len() != self.data_shards as usize {
            return Err(Error::IsalEncodingError(chunk_count_message(self.data_shards, data_chunks.len())));
        }
        let mut i: usize = 0;
        while i < data_chunks.len()
            invariant
                0 <= i <= data_chunks@.len(),
                forall|j: int| 0 <= j < i ==> (#[trigger] data_chunks@[j])@.len() == self.chunk(),
            decreases data_chunks@.len() - i,
        {
            if data_chunks[i].len() != self.chunk_size {
                return Err(
                    Error::IsalEncodingError(chunk_size_message(i, data_chunks[i].len(), self.chunk_size)),
                );
            }
            i += 1;
        }
        let parity_shards = match self.encode_software(&data_chunks) {
            Ok(p) => p,
            Err(e) => return Err(e),
        };
        let duration_us = elapsed_micros(&start);
        Ok(EncodeResult { data_shards: data_chunks, parity_shards, duration_us, hw_accelerated: self.use_hw_accel })
    }

    /// Allocates the parity shards and computes them.
    fn encode_software(&self, data_chunks: &Vec<DmaBuf>) -> (r: Result<Vec<DmaBuf>>)
        requires
            self.wf(),
            data_chunks@.len() == self.k(),
            forall|i: int| 0 <= i < data_chunks@.len() ==> (#[trigger] data_chunks@[i])@.len() == self.chunk(),
        ensures
            r matches Ok(ps) && ps@.len() == self.m() && forall|p: int| 0 <= p < self.m() ==> (#[trigger] ps@[p])@
                == parity_shard_bytes(bufs_view(data_chunks@), p, self.chunk() as nat),
    {
        let mut parity_shards: Vec<DmaBuf> = Vec::new();
        let mut j: u8 = 0;
        while j < self.parity_shards
            invariant
                self.wf(),
                0 <= j <= self.m(),
                parity_shards@.len() == j,
                forall|p: int| 0 <= p < j ==> (#[trigger] parity_shards@[p])@.len() == self.chunk(),
            decreases self.m() - j,
        {
            let buf = match DmaBuf::new(self.chunk_size) {
                Ok(b) => b,
                Err(_) => return Err(Error::IsalEncodingError("Failed to allocate parity buffer".to_owned())),
            };
            parity_shards.push(buf);
            j += 1;
        }
        let ghost before = parity_shards@;
        match self.codec.encode_to_parity(data_chunks.as_slice(), parity_shards.as_mut_slice()) {
            Ok(()) => {},
            Err(e) => return Err(e),
        }
        Ok(parity_shards)
    }
}

// =============================================================================
// Aggregation of journal writes into data chunks
// =============================================================================

/// The bytes of the writes, one after the other.
pub open spec fn journal_bytes(writes: Seq<JournalWrite>) -> Seq<u8>
    decreases writes.len(),
{
    if writes.len() == 0 {
        Seq::empty()
    } else {
        journal_bytes(writes.drop_last()) + writes.last().data@
    }
}

/// Chunk `c` of `size` bytes cut from `stream`, zero-filled past its end.
pub open spec fn chunk_bytes(stream: Seq<u8>, c: int, size: nat) -> Seq<u8> {
    Seq::new(size, |j: int| if c * size + j < stream.len() { stream[c * size + j] } else { 0u8 })
}

/// The bytes of the first `w` writes are a prefix of the bytes of all of them.
proof fn lemma_journal_prefix(writes: Seq<JournalWrite>, w: int)
    requires
        0 <= w <= writes.len(),
    ensures
        journal_bytes(writes.subrange(0, w)).len() <= journal_bytes(writes).len(),
        forall|x: int| 0 <= x < journal_bytes(writes.subrange(0, w)).len() ==> #[trigger] journal_bytes(writes)[x]
            == journal_bytes(writes.subrange(0, w))[x],
    decreases writes.len() - w,
{
    if w == writes.len() {
        assert(writes.subrange(0, w) =~= writes);
    } else {
        lemma_journal_prefix(writes, w + 1);
        assert(writes.subrange(0, w + 1).drop_last() =~= writes.subrange(0, w));
    }
}

/// Lays the writes' bytes, in order, into `data_shards` chunks of
/// `chunk_size` bytes: chunk `c` holds stream bytes `c * chunk_size ..`,
/// zero-filled past the end of the stream; bytes beyond the last chunk are
/// dropped. Fails only when a chunk cannot be allocated (a zero chunk size).
pub fn aggregate_to_chunks(config: &DestageManagerConfig, writes: &[JournalWrite]) -> (r: Result<Vec<DmaBuf>>)
    ensures
        r is Err <==> (config.data_shards > 0 && config.chunk_size == 0),
        r matches Err(e) ==> e is DmaAllocationFailed,
        r matches Ok(chunks) ==> {
            &&& chunks@.len() == config.data_shards
            &&& forall|c: int| 0 <= c < config.data_shards ==> (#[trigger] chunks@[c])@ == chunk_bytes(
                journal_bytes(writes@),
                c,
                config.chunk_size as nat,
            )
        },
{
    let k = config.data_shards as usize;
    let cs = config.chunk_size;
    let mut chunks: Vec<DmaBuf> = Vec::new();
    if k == 0 {
        return Ok(chunks);
    }
    let mut current = match DmaBuf::new(cs) {
        Ok(b) => b,
        Err(_) => {
            return Err(Error::DmaAllocationFailed { size: cs, reason: "Failed to allocate chunk 0".to_owned() });
        },
    };
    let ghost all = journal_bytes(writes@);
    assert(writes@.subrange(0, 0) =~= Seq::<JournalWrite>::empty());
    assert(journal_bytes(writes@.subrange(0, 0)).len() == 0);
    assert(chunks@.len() == 0);
    assert(chunks@.len() * cs == 0) by (nonlinear_arith)
        requires
            chunks@.len() == 0,
    ;
    let mut chunk_offset: usize = 0;
    let mut w: usize = 0;
    while w < writes.len()
        invariant
            k == config.data_shards,
            cs == config.chunk_size,
            0 < k,
            0 < cs,
            all == journal_bytes(writes@),
            0 <= w <= writes@.len(),
            chunks@.len() <= k,
            chunk_offset < cs,
            current@.len() == cs,
            forall|c: int| 0 <= c < chunks@.len() ==> (#[trigger] chunks@[c])@ == chunk_bytes(all, c, cs as nat),
            forall|j: int| 0 <= j < cs ==> #[trigger] current@[j] == if j < chunk_offset {
                all[chunks@.len() * cs + j]
            } else {
                0u8
            },
            chunks@.len() < k ==> chunks@.len() * cs + chunk_offset == journal_bytes(writes@.subrange(0, w as int)).len(),
            chunks@.len() == k ==> k * cs <= journal_bytes(writes@.subrange(0, w as int)).len(),
        decreases writes@.len() - w,
    {
        let data = writes[w].data.as_slice();
        let ghost pos = journal_bytes(writes@.subrange(0, w as int)).len();
        proof {
            assert(writes@.subrange(0, w + 1).drop_last() =~= writes@.subrange(0, w as int));
            lemma_journal_prefix(writes@, w + 1);
        }
        let mut wo: usize = 0;
        while wo < data.len() && chunks.len() < k
            invariant
                k == config.data_shards,
                cs == config.chunk_size,
                0 < k,
                0 < cs,
                all == journal_bytes(writes@),
                0 <= w < writes@.len(),
                data@ == writes@[w as int].data@,
                pos == journal_bytes(writes@.subrange(0, w as int)).len(),
                journal_bytes(writes@.subrange(0, w + 1)) == journal_bytes(writes@.subrange(0, w as int)) + data@,
                journal_bytes(writes@.subrange(0, w + 1)).len() <= all.len(),
                forall|x: int| 0 <= x < journal_bytes(writes@.subrange(0, w + 1)).len() ==> #[trigger] all[x]
                    == journal_bytes(writes@.subrange(0, w + 1))[x],
                0 <= wo <= data@.len(),
                chunks@.len() <= k,
                chunk_offset < cs,
                current@.len() == cs,
                forall|c: int| 0 <= c < chunks@.len() ==> (#[trigger] chunks@[c])@ == chunk_bytes(all, c, cs as nat),
                forall|j: int| 0 <= j < cs ==> #[trigger] current@[j] == if j < chunk_offset {
                    all[chunks@.len() * cs + j]
                } else {
                    0u8
                },
                chunks@.len() < k ==> chunks@.len() * cs + chunk_offset == pos + wo,
                chunks@.len() == k ==> k * cs <= pos + wo,
            decreases data@.len() - wo, k - chunks@.len(),
        {
            let space = cs - chunk_offset;
            let remaining = data.len() - wo;
            let n = if space < remaining { space } else { remaining };
            let ghost c = chunks@.len();
            let ghost old_current = current@;
            current.write_bytes(chunk_offset, data, wo, n);
            proof {
                assert forall|j: int| 0 <= j < cs implies #[trigger] current@[j] == if j < chunk_offset + n {
                    all[c * cs + j]
                } else {
                    0u8
                } by {
                    if chunk_offset <= j < chunk_offset + n {
                        assert(current@[j] == data@[wo + j - chunk_offset]);
                        assert(journal_bytes(writes@.subrange(0, w + 1))[pos + wo + j - chunk_offset] == data@[wo + j - chunk_offset]);
                    } else {
                        assert(current@[j] == old_current[j]);
                    }
                }
            }
            wo = wo + n;
            chunk_offset = chunk_offset + n;
            if chunk_offset >= cs {
                proof {
                    assert(current@ =~= chunk_bytes(all, c as int, cs as nat)) by {
                        assert forall|j: int| 0 <= j < cs implies current@[j] == chunk_bytes(all, c as int, cs as nat)[j] by {
                            assert(c * cs + j < c * cs + cs);
                        }
                    }
                    assert((c + 1) * cs == c * cs + cs) by (nonlinear_arith);
                }
                chunks.push(current);
                chunk_offset = 0;
                current = match DmaBuf::new(cs) {
                    Ok(b) => b,
                    Err(_) => {
                        return Err(Error::DmaAllocationFailed { size: cs, reason: "Failed to allocate chunk".to_owned() });
                    },
                };
            }
        }
        proof {
            if chunks@.len() < k {
                assert(wo == data@.len());
            }
        }
        w += 1;
    }
    proof {
        assert(writes@.subrange(0, writes@.len() as int) =~= writes@);
    }
    if chunks.len() < k {
        let ghost c = chunks@.len();
        proof {
            assert(current@ =~= chunk_bytes(all, c as int, cs as nat)) by {
                assert forall|j: int| 0 <= j < cs implies current@[j] == chunk_bytes(all, c as int, cs as nat)[j] by {
                    if j >= chunk_offset {
                        assert(c * cs + j >= all.len());
                    }
                }
            }
        }
        chunks.push(current);
        while chunks.len() < k
            invariant
                k == config.data_shards,
                cs == config.chunk_size,
                0 < cs,
                c < chunks@.len() <= k,
                all.len() <= c * cs + cs,
                forall|i: int| 0 <= i < chunks@.len() ==> (#[trigger] chunks@[i])@ == chunk_bytes(all, i, cs as nat),
            decreases k - chunks@.len(),
        {
            let zero = match DmaBuf::new(cs) {
                Ok(b) => b,
                Err(_) => {
                    return Err(Error::DmaAllocationFailed { size: cs, reason: "Failed to allocate chunk".to_owned() });
                },
            };
            proof {
                let i = chunks@.len() as int;
                assert(i * cs >= (c + 1) * cs) by (nonlinear_arith)
                    requires
                        i >= c + 1,
                        cs > 0,
                ;
                assert((c + 1) * cs == c * cs + cs) by (nonlinear_arith);
                assert(zero@ =~= chunk_bytes(all, i, cs as nat));
            }
            chunks.push(zero);
        }
    }
    Ok(chunks)
}

// =============================================================================
// Stripe bookkeeping
// =============================================================================

/// The LBA range covering all the writes: from the smallest start to the
/// largest end.
pub fn calculate_lba_range(writes: &[JournalWrite]) -> (r: LbaRange)
    requires
        writes@.len() > 0,
        forall|i: int| 0 <= i < writes@.len() ==> (#[trigger] writes@[i]).lba_range.start < writes@[i].lba_range.end,
    ensures
        r.start < r.end,
        exists|i: int| 0 <= i < writes@.len() && (#[trigger] writes@[i]).lba_range.start == r.start,
        exists|i: int| 0 <= i < writes@.len() && (#[trigger] writes@[i]).lba_range.end == r.end,
        forall|i: int| 0 <= i < writes@.len() ==> r.start <= (#[trigger] writes@[i]).lba_range.start,
        forall|i: int| 0 <= i < writes@.len() ==> (#[trigger] writes@[i]).lba_range.end <= r.end,
{
    let mut start = writes[0].lba_range.start;
    let mut end = writes[0].lba_range.end;
    let mut i: usize = 1;
    while i < writes.len()
        invariant
            1 <= i <= writes@.len(),
            forall|j: int| 0 <= j < writes@.len() ==> (#[trigger] writes@[j]).lba_range.start < writes@[j].lba_range.end,
            exists|j: int| 0 <= j < i && (#[trigger] writes@[j]).lba_range.start == start,
            exists|j: int| 0 <= j < i && (#[trigger] writes@[j]).lba_range.end == end,
            forall|j: int| 0 <= j < i ==> start <= (#[trigger] writes@[j]).lba_range.start,
            forall|j: int| 0 <= j < i ==> (#[trigger] writes@[j]).lba_range.end <= end,
            start < end,
        decreases writes@.len() - i,
    {
        if writes[i].lba_range.start < start {
            start = writes[i].lba_range.start;
        }
        if writes[i].lba_range.end > end {
            end = writes[i].lba_range.end;
        }
        i += 1;
    }
    LbaRange::new(start, end)
}

/// Cold Store locations for a dry run: shard `i` on node `i` at offset
/// `i * chunk_size`.
pub fn mock_shard_locations(nodes: &Vec<String>, stripe_id: u64, chunk_size: usize) -> (r: Vec<StripeLocation>)
    requires
        nodes@.len() * chunk_size <= u64::MAX,
    ensures
        r@.len() == nodes@.len(),
        forall|i: int| 0 <= i < r@.len() ==> {
            &&& (#[trigger] r@[i]).tier == StorageTier::ColdStore
            &&& r@[i].device_id@ == nodes@[i]@
            &&& r@[i].stripe_id == stripe_id
            &&& r@[i].offset == i * chunk_size
            &&& r@[i].length == chunk_size
        },
{
    let mut out: Vec<StripeLocation> = Vec::new();
    let mut i: usize = 0;
    while i < nodes.len()
        invariant
            0 <= i <= nodes@.len(),
            nodes@.len() * chunk_size <= u64::MAX,
            out@.len() == i,
            forall|j: int| 0 <= j < i ==> {
                &&& (#[trigger] out@[j]).tier == StorageTier::ColdStore
                &&& out@[j].device_id@ == nodes@[j]@
                &&& out@[j].stripe_id == stripe_id
                &&& out@[j].offset == j * chunk_size
                &&& out@[j].length == chunk_size
            },
        decreases nodes@.len() - i,
    {
        proof {
            assert(i * chunk_size <= nodes@.len() * chunk_size) by (nonlinear_arith)
                requires
                    i <= nodes@.len(),
            ;
        }
        let offset = (i as u64) * (chunk_size as u64);
        out.push(StripeLocation::cold_store(nodes[i].as_str(), stripe_id, offset, chunk_size as u64));
        i += 1;
    }
    out
}

/// Number of failed results among `results`.
pub open spec fn failed_count(results: Seq<ShardWriteResult>) -> nat {
    results.filter(|w: ShardWriteResult| !w.success).len()
}

/// Message of a stripe with too many failed shard writes (`format!`).
#[verifier::external_body]
fn too_many_failures_message(failed: usize, tolerable: u8) -> String {
    format!("Too many shard write failures: {} (max tolerable: {})", failed, tolerable)
}

/// Builds the Cold Store locations of the shards that were written, in
/// order; the stripe stays usable with up to `parity_shards` failed
/// shards, and more failures fail the destage.
pub fn collect_shard_locations(
    results: &Vec<ShardWriteResult>,
    volume_id: &String,
    stripe_id: u64,
    parity_shards: u8,
) -> (r: Result<Vec<StripeLocation>>)
    ensures
        failed_count(results@) > parity_shards ==> (r matches Err(Error::EcDestageFailed { volume_id: v, .. }) && v
            == *volume_id),
        failed_count(results@) <= parity_shards ==> (r matches Ok(locs) && {
            let ok = results@.filter(|w: ShardWriteResult| w.success);
            &&& locs@.len() == ok.len()
            &&& forall|i: int| 0 <= i < ok.len() ==> {
                &&& (#[trigger] locs@[i]).tier == StorageTier::ColdStore
                &&& locs@[i].device_id@ == ok[i].node_id@
                &&& locs@[i].stripe_id == stripe_id
                &&& locs@[i].offset == ok[i].offset
                &&& locs@[i].length == ok[i].size
            }
        }),
{
    let mut locations: Vec<StripeLocation> = Vec::new();
    let mut failed: usize = 0;
    let mut i: usize = 0;
    while i < results.len()
        invariant
            0 <= i <= results@.len(),
            failed == results@.subrange(0, i as int).filter(|w: ShardWriteResult| !w.success).len(),
            failed <= i,
            ({
                let ok = results@.subrange(0, i as int).filter(|w: ShardWriteResult| w.success);
                &&& locations@.len() == ok.len()
                &&& forall|j: int| 0 <= j < ok.len() ==> {
                    &&& (#[trigger] locations@[j]).tier == StorageTier::ColdStore
                    &&& locations@[j].device_id@ == ok[j].node_id@
                    &&& locations@[j].stripe_id == stripe_id
                    &&& locations@[j].offset == ok[j].offset
                    &&& locations@[j].length == ok[j].size
                }
            }),
        decreases results@.len() - i,
    {
        proof {
            reveal(Seq::filter);
            assert(results@.subrange(0, i + 1).drop_last() =~= results@.subrange(0, i as int));
            assert(results@.subrange(0, i + 1).last() == results@[i as int]);
        }
        if results[i].success {
            locations.push(
                StripeLocation::cold_store(results[i].node_id.as_str(), stripe_id, results[i].offset, results[i].size),
            );
        } else {
            failed += 1;
        }
        i += 1;
    }
    proof {
        assert(results@.subrange(0, results@.len() as int) =~= results@);
    }
    if failed > parity_shards as usize {
        return Err(
            Error::EcDestageFailed {
                volume_id: volume_id.clone(),
                reason: too_many_failures_message(failed, parity_shards),
            },
        );
    }
    Ok(locations)
}

/// The Cold Store location a destaged stripe gets, stored with generation `generation`.
pub open spec fn destaged_location(loc: StripeLocation, volume_id: Seq<char>, stripe_id: u64, size: u64, generation: u64) -> bool {
    &&& loc.tier == StorageTier::ColdStore
    &&& loc.device_id@ == volume_id
    &&& loc.stripe_id == stripe_id
    &&& loc.offset == 0
    &&& loc.length == size
    &&& loc.generation == generation
    &&& !loc.is_compressed
    &&& loc.original_size is None
}

/// Points the L2P mapping of a destaged range at its new Cold Store
/// stripe: the mapping found by a lookup of the range's first LBA is
/// updated (which fails on a generation conflict or when the range itself
/// is not mapped); with no mapping there, the new one is inserted.
pub fn update_metadata(
    engine: &mut MetadataEngine,
    lba_range: LbaRange,
    volume_id: &str,
    stripe_id: u64,
    stripe_data_size: u64,
) -> (r: Result<()>)
    requires
        old(engine).wf(),
    ensures
        final(engine).wf(),
        final(engine).generation_spec() == wadd(old(engine).generation_spec(), 1),
        ({
            let found = floor_lookup(old(engine)@, lba_range.start);
            match found {
                Some(e) => {
                    let ok = old(engine)@.dom().contains(lba_range) && old(engine)@[lba_range].generation
                        == e.1.generation;
                    &&& r is Ok <==> ok
                    &&& !ok ==> final(engine)@ == old(engine)@
                    &&& ok ==> final(engine)@ == old(engine)@.insert(lba_range, final(engine)@[lba_range])
                        && destaged_location(
                        final(engine)@[lba_range],
                        volume_id@,
                        stripe_id,
                        stripe_data_size,
                        old(engine).generation_spec(),
                    )
                },
                None => {
                    &&& r is Ok
                    &&& final(engine)@ == trim_overlaps(
                        old(engine)@,
                        old(engine).entries().filter(overlaps_pred(lba_range)),
                        lba_range,
                    ).insert(lba_range, final(engine)@[lba_range])
                    &&& destaged_location(
                        final(engine)@[lba_range],
                        volume_id@,
                        stripe_id,
                        stripe_data_size,
                        old(engine).generation_spec(),
                    )
                },
            }
        }),
{
    let new_location = StripeLocation::cold_store(volume_id, stripe_id, 0, stripe_data_size);
    match engine.lookup(lba_range.start) {
        Some((_, stored_old)) => {
            match engine.update_mapping(lba_range, &stored_old, new_location) {
                Ok(_) => {},
                Err(e) => return Err(e),
            }
        },
        None => {
            match engine.insert_mapping(lba_range, new_location) {
                Ok(_) => {},
                Err(e) => return Err(e),
            }
        },
    }
    Ok(())
}

// =============================================================================
// Retry decisions
// =============================================================================

/// What to do after an encoding attempt.
#[derive(Debug)]
pub enum EncodeStep {
    /// The stripe was encoded.
    Done(EncodeResult),
    /// The attempt failed; retry after this many milliseconds.
    RetryAfter(u64),
    /// Every attempt failed.
    GiveUp(Error),
}

/// Message of an encoding that failed on every attempt (`format!`).
#[verifier::external_body]
fn encode_failed_message(attempts: u32, last_error: &Error) -> String {
    format!("Encoding failed after {} attempts: {:?}", attempts, Some(last_error))
}

/// Copies a list of buffers.
pub fn duplicate_buffers(bufs: &Vec<DmaBuf>) -> (r: Vec<DmaBuf>)
    ensures
        bufs_view(r@) == bufs_view(bufs@),
{
    let mut out: Vec<DmaBuf> = Vec::new();
    let mut i: usize = 0;
    while i < bufs.len()
        invariant
            0 <= i <= bufs@.len(),
            out@.len() == i,
            forall|j: int| 0 <= j < i ==> (#[trigger] out@[j])@ == bufs@[j]@,
        decreases bufs@.len() - i,
    {
        out.push(bufs[i].duplicate());
        i += 1;
    }
    assert(bufs_view(out@) =~= bufs_view(bufs@));
    out
}

/// One encoding attempt (number `attempt`, counting from zero) of a
/// destage task: the chunks are encoded, the attempt is counted with its
/// time, and on failure the task's retry count goes up; after the last
/// allowed attempt the task is marked failed with the error.
pub fn encode_attempt(
    engine: &SpdkAccelEngine,
    data_chunks: &Vec<DmaBuf>,
    attempt: u32,
    retry_delay_ms: u64,
    task: &mut DestageTask,
    stats: &mut DestageManagerStats,
) -> (r: EncodeStep)
    requires
        engine.wf(),
        attempt < MAX_ENCODE_RETRIES,
        old(task).retry_count < u32::MAX,
    ensures
        stats_encode_recorded(*old(stats), *final(stats), r is Done),
        r matches EncodeStep::Done(res) ==> {
            &&& bufs_view(res.data_shards@) == bufs_view(data_chunks@)
            &&& res.parity_shards@.len() == engine.m()
            &&& forall|p: int| 0 <= p < engine.m() ==> (#[trigger] res.parity_shards@[p])@ == parity_shard_bytes(
                bufs_view(data_chunks@),
                p,
                engine.chunk() as nat,
            )
            &&& *final(task) == *old(task)
        },
        !(r is Done) ==> final(task).retry_count == old(task).retry_count + 1,
        r matches EncodeStep::RetryAfter(ms) ==> ms == retry_delay_ms && attempt + 1 < MAX_ENCODE_RETRIES
            && final(task).phase == old(task).phase && final(task).error == old(task).error,
        r matches EncodeStep::GiveUp(e) ==> attempt + 1 == MAX_ENCODE_RETRIES && e is IsalEncodingError
            && final(task).phase == DestagePhase::Failed && final(task).error is Some,
        data_chunks@.len() == engine.k() && (forall|i: int| 0 <= i < data_chunks@.len() ==> (#[trigger] data_chunks@[i])@.len()
            == engine.chunk()) ==> r is Done,
        final(task).task_id == old(task).task_id,
        final(task).stripe_id == old(task).stripe_id,
        final(task).writes@ == old(task).writes@,
        final(task).lba_range == old(task).lba_range,
{
    let start = instant_now();
    let chunks = duplicate_buffers(data_chunks);
    proof {
        assert(bufs_view(chunks@).len() == chunks@.len());
        assert(bufs_view(data_chunks@).len() == data_chunks@.len());
        assert forall|i: int| 0 <= i < chunks@.len() implies (#[trigger] chunks@[i])@.len() == data_chunks@[i]@.len() by {
            assert(bufs_view(chunks@)[i] == chunks@[i]@);
            assert(bufs_view(data_chunks@)[i] == data_chunks@[i]@);
        }
    }
    match engine.encode(chunks) {
        Ok(result) => {
            stats.record_encode(elapsed_micros(&start), true);
            EncodeStep::Done(result)
        },
        Err(e) => {
            stats.record_encode(elapsed_micros(&start), false);
            task.retry_count = task.retry_count + 1;
            if attempt + 1 < MAX_ENCODE_RETRIES {
                EncodeStep::RetryAfter(retry_delay_ms)
            } else {
                let msg = encode_failed_message(MAX_ENCODE_RETRIES, &e);
                task.error = Some(msg.clone());
                task.phase = DestagePhase::Failed;
                EncodeStep::GiveUp(Error::IsalEncodingError(msg))
            }
        },
    }
}

/// The counters after recording one encoding, with any duration.
pub open spec fn stats_encode_recorded(before: DestageManagerStats, after: DestageManagerStats, success: bool) -> bool {
    exists|duration_us: u64|
        #[trigger] add_wrapping(before.encode_time_us, duration_us) == after.encode_time_us && after == (
        DestageManagerStats {
            encode_operations: add_wrapping(before.encode_operations, 1),
            encode_time_us: add_wrapping(before.encode_time_us, duration_us),
            encode_failures: if success {
                before.encode_failures
            } else {
                add_wrapping(before.encode_failures, 1)
            },
            ..before
        })
}

/// What to do after a shard write attempt.
#[derive(Debug)]
pub enum ShardWriteStep {
    /// The shard was written.
    Written(ShardWriteResult),
    /// The attempt failed; retry after this many milliseconds.
    RetryAfter(u64),
    /// Every attempt failed.
    Failed(ShardWriteResult),
}

/// Decides after shard write attempt number `attempt` (from zero): a
/// write at `outcome`'s offset succeeds and is counted with the time since
/// the first attempt; a failure is retried while attempts remain, and after
/// the last one the shard is counted as failed, carrying the error text.
pub fn shard_write_step(
    shard_index: u8,
    is_data: bool,
    node_id: &str,
    shard_len: usize,
    attempt: u32,
    outcome: core::result::Result<u64, String>,
    elapsed_us: u64,
    retry_delay_ms: u64,
    stats: &mut DestageManagerStats,
) -> (r: ShardWriteStep)
    requires
        attempt < MAX_WRITE_RETRIES,
    ensures
        match outcome {
            Ok(offset) => r matches ShardWriteStep::Written(w) && w.success && w.offset == offset && w.size
                == shard_len && w.shard_index == shard_index && w.is_data == is_data && w.node_id@ == node_id@
                && w.latency_us == elapsed_us && w.error is None && *final(stats) == (DestageManagerStats {
                shard_writes: add_wrapping(old(stats).shard_writes, 1),
                write_time_us: add_wrapping(old(stats).write_time_us, elapsed_us),
                ..*old(stats)
            }),
            Err(msg) => if attempt + 1 < MAX_WRITE_RETRIES {
                r matches ShardWriteStep::RetryAfter(ms) && ms == retry_delay_ms && *final(stats) == *old(stats)
            } else {
                r matches ShardWriteStep::Failed(w) && !w.success && w.offset == 0 && w.size == 0 && w.shard_index
                    == shard_index && w.is_data == is_data && w.node_id@ == node_id@ && w.latency_us == elapsed_us
                    && w.error == Some(msg) && *final(stats) == (DestageManagerStats {
                    shard_writes: add_wrapping(old(stats).shard_writes, 1),
                    write_time_us: add_wrapping(old(stats).write_time_us, elapsed_us),
                    shard_write_failures: add_wrapping(old(stats).shard_write_failures, 1),
                    ..*old(stats)
                })
            },
        },
{
    match outcome {
        Ok(offset) => {
            stats.record_shard_write(elapsed_us, true);
            ShardWriteStep::Written(
                ShardWriteResult {
                    shard_index,
                    is_data,
                    node_id: node_id.to_owned(),
                    offset,
                    size: shard_len as u64,
                    latency_us: elapsed_us,
                    success: true,
                    error: None,
                },
            )
        },
        Err(msg) => {
            if attempt + 1 < MAX_WRITE_RETRIES {
                ShardWriteStep::RetryAfter(retry_delay_ms)
            } else {
                stats.record_shard_write(elapsed_us, false);
                ShardWriteStep::Failed(
                    ShardWriteResult {
                        shard_index,
                        is_data,
                        node_id: node_id.to_owned(),
                        offset: 0,
                        size: 0,
                        latency_us: elapsed_us,
                        success: false,
                        error: Some(msg),
                    },
                )
            }
        },
    }
}

} // verus!
