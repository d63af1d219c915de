//! Logical-to-physical (L2P) metadata: LBA ranges, stripe locations, the
//! write-ahead log, checkpoints and the metadata engine that ties them.

use vstd::prelude::*;

use crate::clock::{elapsed_millis, instant_now, unix_now_secs};
use crate::error::{Error, Result};
use crate::spdk::l2p_map::{
    collect_overlapping, entries_map, floor_lookup, is_floor_range, lemma_entry_in_map, lemma_filter_none,
    lemma_filter_push, lemma_map_key_index, lemma_trim_keys, lemma_trim_origin, is_piece, range_lt, map_floor_lookup, map_get, map_insert, map_range_query,
    map_remove, overlaps_pred, range_query, sorted_entries, trim_overlaps, L2pEntry,
};

verus! {

// =============================================================================
// Core Types
// =============================================================================

/// Logical Block Address range `[start, end)`.
#[derive(Debug, Clone, Copy, PartialEq, Eq, Hash, PartialOrd, Ord)]
pub struct LbaRange {
    /// Starting LBA (inclusive)
    pub start: u64,
    /// Ending LBA (exclusive)
    pub end: u64,
}

/// Whether two ranges share an LBA.
pub open spec fn ranges_overlap(a: LbaRange, b: LbaRange) -> bool {
    a.start < b.end && b.start < a.end
}

impl LbaRange {
    /// A range `[start, end)`; the range must be non-empty.
    pub fn new(start: u64, end: u64) -> (r: LbaRange)
        requires
            start < end,
        ensures
            r.start == start,
            r.end == end,
    {
        LbaRange { start, end }
    }

    /// The range holding only `lba`.
    pub fn single(lba: u64) -> (r: LbaRange)
        requires
            lba < u64::MAX,
        ensures
            r.start == lba,
            r.end == lba + 1,
    {
        LbaRange { start: lba, end: lba + 1 }
    }

    /// Number of LBAs in the range.
    pub fn len(&self) -> (r: u64)
        requires
            self.start <= self.end,
        ensures
            r == self.end - self.start,
    {
        self.end - self.start
    }

    /// Whether the range holds no LBA.
    pub fn is_empty(&self) -> (r: bool)
        ensures
            r == (self.start >= self.end),
    {
        self.start >= self.end
    }

    /// Whether `lba` lies in the range.
    pub fn contains(&self, lba: u64) -> (r: bool)
        ensures
            r == (self.start <= lba && lba < self.end),
    {
        lba >= self.start && lba < self.end
    }

    /// Whether the two ranges share an LBA.
    pub fn overlaps(&self, other: &LbaRange) -> (r: bool)
        ensures
            r == ranges_overlap(*self, *other),
    {
        self.start < other.end && other.start < self.end
    }

    /// Whether `other` lies entirely inside this range.
    pub fn contains_range(&self, other: &LbaRange) -> (r: bool)
        ensures
            r == (self.start <= other.start && self.end >= other.end),
    {
        self.start <= other.start && self.end >= other.end
    }

    /// Splits the range at `lba` into the part before and the part from `lba` on.
    pub fn split_at(&self, lba: u64) -> (r: (Option<LbaRange>, Option<LbaRange>))
        ensures
            lba <= self.start ==> r == (None::<LbaRange>, Some(*self)),
            self.start < lba && lba >= self.end ==> r == (Some(*self), None::<LbaRange>),
            self.start < lba < self.end ==> r == (
                Some(LbaRange { start: self.start, end: lba }),
                Some(LbaRange { start: lba, end: self.end }),
            ),
    {
        if lba <= self.start {
            (None, Some(*self))
        } else if lba >= self.end {
            (Some(*self), None)
        } else {
            (Some(LbaRange::new(self.start, lba)), Some(LbaRange::new(lba, self.end)))
        }
    }
}

/// Storage tier where data resides.
#[derive(Debug, Clone, Copy, PartialEq, Eq, Hash)]
pub enum StorageTier {
    /// Hot Journal - replicated for low latency
    HotJournal,
    /// Cold Store - erasure coded for efficiency
    ColdStore,
}

impl StorageTier {
    /// Display name of the tier.
    pub fn to_string(&self) -> (r: String)
        ensures
            r@ == (match *self {
                StorageTier::HotJournal => "hot-journal"@,
                StorageTier::ColdStore => "cold-store"@,
            }),
    {
        match self {
            StorageTier::HotJournal => "hot-journal".to_owned(),
            StorageTier::ColdStore => "cold-store".to_owned(),
        }
    }
}

/// Physical location of a stripe.
#[derive(Debug, Clone, PartialEq, Eq, Hash)]
pub struct StripeLocation {
    /// Storage tier
    pub tier: StorageTier,
    /// Device identifier (for Hot Journal) or volume ID (for Cold Store)
    pub device_id: String,
    /// Stripe identifier
    pub stripe_id: u64,
    /// Offset within the stripe (in bytes)
    pub offset: u64,
    /// Length of data (in bytes)
    pub length: u64,
    /// Generation number for conflict resolution
    pub generation: u64,
    /// Timestamp when this mapping was created
    pub created_at: u64,
    /// Whether the data is compressed
    pub is_compressed: bool,
    /// Original (uncompressed) size if compressed
    pub original_size: Option<u64>,
}

impl StripeLocation {
    /// A Hot Journal location created at `created_at` (seconds since the epoch).
    pub fn hot_journal_at(device_id: &str, stripe_id: u64, offset: u64, length: u64, created_at: u64) -> (r: StripeLocation)
        ensures
            r.tier == StorageTier::HotJournal,
            r.device_id@ == device_id@,
            r.stripe_id == stripe_id,
            r.offset == offset,
            r.length == length,
            r.generation == 1,
            r.created_at == created_at,
            !r.is_compressed,
            r.original_size is None,
    {
        StripeLocation {
            tier: StorageTier::HotJournal,
            device_id: device_id.to_owned(),
            stripe_id,
            offset,
            length,
            generation: 1,
            created_at,
            is_compressed: false,
            original_size: None,
        }
    }

    /// A Hot Journal location stamped with the current time.
    pub fn hot_journal(device_id: &str, stripe_id: u64, offset: u64, length: u64) -> (r: StripeLocation)
        ensures
            r.tier == StorageTier::HotJournal,
            r.device_id@ == device_id@,
            r.stripe_id == stripe_id,
            r.offset == offset,
            r.length == length,
            r.generation == 1,
            !r.is_compressed,
            r.original_size is None,
    {
        Self::hot_journal_at(device_id, stripe_id, offset, length, unix_now_secs())
    }

    /// A Cold Store location created at `created_at` (seconds since the epoch).
    pub fn cold_store_at(volume_id: &str, stripe_id: u64, offset: u64, length: u64, created_at: u64) -> (r: StripeLocation)
        ensures
            r.tier == StorageTier::ColdStore,
            r.device_id@ == volume_id@,
            r.stripe_id == stripe_id,
            r.offset == offset,
            r.length == length,
            r.generation == 1,
            r.created_at == created_at,
            !r.is_compressed,
            r.original_size is None,
    {
        StripeLocation {
            tier: StorageTier::ColdStore,
            device_id: volume_id.to_owned(),
            stripe_id,
            offset,
            length,
            generation: 1,
            created_at,
            is_compressed: false,
            original_size: None,
        }
    }

    /// A Cold Store location stamped with the current time.
    pub fn cold_store(volume_id: &str, stripe_id: u64, offset: u64, length: u64) -> (r: StripeLocation)
        ensures
            r.tier == StorageTier::ColdStore,
            r.device_id@ == volume_id@,
            r.stripe_id == stripe_id,
            r.offset == offset,
            r.length == length,
            r.generation == 1,
            !r.is_compressed,
            r.original_size is None,
    {
        Self::cold_store_at(volume_id, stripe_id, offset, length, unix_now_secs())
    }

    /// A compressed Cold Store location stamped with the current time.
    pub fn cold_store_compressed(
        volume_id: &str,
        stripe_id: u64,
        offset: u64,
        compressed_length: u64,
        original_length: u64,
    ) -> (r: StripeLocation)
        ensures
            r.tier == StorageTier::ColdStore,
            r.device_id@ == volume_id@,
            r.stripe_id == stripe_id,
            r.offset == offset,
            r.length == compressed_length,
            r.generation == 1,
            r.is_compressed,
            r.original_size == Some(original_length),
    {
        StripeLocation {
            tier: StorageTier::ColdStore,
            device_id: volume_id.to_owned(),
            stripe_id,
            offset,
            length: compressed_length,
            generation: 1,
            created_at: unix_now_secs(),
            is_compressed: true,
            original_size: Some(original_length),
        }
    }

    /// An exact copy of the location.
    pub fn duplicate(&self) -> (r: StripeLocation)
        ensures
            r == *self,
    {
        StripeLocation {
            tier: self.tier,
            device_id: self.device_id.clone(),
            stripe_id: self.stripe_id,
            offset: self.offset,
            length: self.length,
            generation: self.generation,
            created_at: self.created_at,
            is_compressed: self.is_compressed,
            original_size: self.original_size,
        }
    }

    /// The same location with generation `generation`.
    pub fn with_generation(&self, generation: u64) -> (r: StripeLocation)
        ensures
            r == (StripeLocation { generation, ..*self }),
    {
        let mut new = self.duplicate();
        new.generation = generation;
        new
    }

    /// Whether the location is in the Hot Journal.
    pub fn is_hot(&self) -> (r: bool)
        ensures
            r == (self.tier == StorageTier::HotJournal),
    {
        match self.tier {
            StorageTier::HotJournal => true,
            StorageTier::ColdStore => false,
        }
    }

    /// Whether the location is in the Cold Store.
    pub fn is_cold(&self) -> (r: bool)
        ensures
            r == (self.tier == StorageTier::ColdStore),
    {
        match self.tier {
            StorageTier::HotJournal => false,
            StorageTier::ColdStore => true,
        }
    }
}

// =============================================================================
// Write-Ahead Log
// =============================================================================

/// WAL entry types.
#[derive(Debug, Clone, PartialEq, Eq)]
pub enum WalEntryType {
    /// Insert a new mapping
    Insert { lba_range: LbaRange, location: StripeLocation },
    /// Update an existing mapping (destage)
    Update { lba_range: LbaRange, old_location: StripeLocation, new_location: StripeLocation },
    /// Delete a mapping
    Delete { lba_range: LbaRange },
    /// Checkpoint marker
    Checkpoint { checkpoint_id: u64 },
}

impl WalEntryType {
    /// An exact copy of the entry type.
    pub fn duplicate(&self) -> (r: WalEntryType)
        ensures
            r == *self,
    {
        match self {
            WalEntryType::Insert { lba_range, location } => WalEntryType::Insert {
                lba_range: *lba_range,
                location: location.duplicate(),
            },
            WalEntryType::Update { lba_range, old_location, new_location } => WalEntryType::Update {
                lba_range: *lba_range,
                old_location: old_location.duplicate(),
                new_location: new_location.duplicate(),
            },
            WalEntryType::Delete { lba_range } => WalEntryType::Delete { lba_range: *lba_range },
            WalEntryType::Checkpoint { checkpoint_id } => WalEntryType::Checkpoint {
                checkpoint_id: *checkpoint_id,
            },
        }
    }
}

/// A single WAL entry.
#[derive(Debug, Clone, PartialEq, Eq)]
pub struct WalEntry {
    /// Log Sequence Number (monotonically increasing)
    pub lsn: u64,
    /// Entry type and data
    pub entry_type: WalEntryType,
    /// Checksum for integrity
    pub checksum: u32,
    /// Timestamp
    pub timestamp: u64,
}

/// Checksum of a WAL entry: the low 32 bits of `lsn * 31 + timestamp * 17`
/// computed with wrapping 64-bit arithmetic.
pub open spec fn wal_checksum(lsn: u64, timestamp: u64) -> u32 {
    vstd::wrapping::u64_specs::wrapping_add(
        vstd::wrapping::u64_specs::wrapping_mul(lsn, 31),
        vstd::wrapping::u64_specs::wrapping_mul(timestamp, 17),
    ) as u32
}

impl WalEntry {
    /// An entry with sequence number `lsn` stamped `timestamp`, with its checksum.
    pub fn new_at(lsn: u64, entry_type: WalEntryType, timestamp: u64) -> (r: WalEntry)
        ensures
            r.lsn == lsn,
            r.entry_type == entry_type,
            r.timestamp == timestamp,
            r.checksum == wal_checksum(lsn, timestamp),
    {
        let mut entry = WalEntry { lsn, entry_type, checksum: 0, timestamp };
        entry.checksum = entry.calculate_checksum();
        entry
    }

    /// An entry with sequence number `lsn` stamped with the current time.
    pub fn new(lsn: u64, entry_type: WalEntryType) -> (r: WalEntry)
        ensures
            r.lsn == lsn,
            r.entry_type == entry_type,
            r.checksum == wal_checksum(lsn, r.timestamp),
    {
        Self::new_at(lsn, entry_type, unix_now_secs())
    }

    /// The checksum the entry should carry.
    pub fn calculate_checksum(&self) -> (r: u32)
        ensures
            r == wal_checksum(self.lsn, self.timestamp),
    {
        let mut hash = self.lsn.wrapping_mul(31);
        hash = hash.wrapping_add(self.timestamp.wrapping_mul(17));
        hash as u32
    }

    /// Whether the stored checksum matches the entry.
    pub fn verify_checksum(&self) -> (r: bool)
        ensures
            r == (self.checksum == wal_checksum(self.lsn, self.timestamp)),
    {
        self.checksum == self.calculate_checksum()
    }

    /// An exact copy of the entry.
    pub fn duplicate(&self) -> (r: WalEntry)
        ensures
            r == *self,
    {
        WalEntry {
            lsn: self.lsn,
            entry_type: self.entry_type.duplicate(),
            checksum: self.checksum,
            timestamp: self.timestamp,
        }
    }
}

/// WAL statistics.
#[derive(Debug, Clone, Copy, PartialEq, Eq, Default)]
pub struct WalStats {
    pub entries_written: u64,
    pub flushes: u64,
    pub replays: u64,
}

/// The entries of `log` with a sequence number above `lsn`, in log order.
pub open spec fn entries_above(log: Seq<WalEntry>, lsn: u64) -> Seq<WalEntry> {
    log.filter(|e: WalEntry| e.lsn > lsn)
}

/// Write-ahead log kept in memory.
#[derive(Debug)]
pub struct WriteAheadLog {
    current_lsn: u64,
    buffer: Vec<WalEntry>,
    flushed_lsn: u64,
    max_buffer_size: usize,
    stats: WalStats,
}

impl WriteAheadLog {
    /// Next sequence number to be handed out.
    pub closed spec fn next_lsn(&self) -> u64 {
        self.current_lsn
    }

    /// Sequence number of the last flushed entry.
    pub closed spec fn flushed(&self) -> u64 {
        self.flushed_lsn
    }

    /// Entries held in the log, oldest first.
    pub closed spec fn entries(&self) -> Seq<WalEntry> {
        self.buffer@
    }

    /// Buffer size at which appends flush.
    pub closed spec fn limit(&self) -> usize {
        self.max_buffer_size
    }

    /// Counters of the log.
    pub closed spec fn stats_spec(&self) -> WalStats {
        self.stats
    }

    /// An empty log that flushes when it holds `max_buffer_size` entries.
    pub fn new(max_buffer_size: usize) -> (r: WriteAheadLog)
        ensures
            r.next_lsn() == 1,
            r.flushed() == 0,
            r.entries() == Seq::<WalEntry>::empty(),
            r.limit() == max_buffer_size,
            r.stats_spec() == (WalStats { entries_written: 0, flushes: 0, replays: 0 }),
    {
        WriteAheadLog {
            current_lsn: 1,
            buffer: Vec::new(),
            flushed_lsn: 0,
            max_buffer_size,
            stats: WalStats { entries_written: 0, flushes: 0, replays: 0 },
        }
    }

    /// The next sequence number.
    pub fn current_lsn(&self) -> (r: u64)
        ensures
            r == self.next_lsn(),
    {
        self.current_lsn
    }

    /// The last flushed sequence number.
    pub fn flushed_lsn(&self) -> (r: u64)
        ensures
            r == self.flushed(),
    {
        self.flushed_lsn
    }

    /// Appends an entry stamped `timestamp` and returns its sequence number;
    /// flushes when the buffer reaches its limit.
    pub fn append_at(&mut self, entry_type: WalEntryType, timestamp: u64) -> (r: Result<u64>)
        ensures
            r == Ok::<u64, Error>(old(self).next_lsn()),
            final(self).next_lsn() == vstd::wrapping::u64_specs::wrapping_add(old(self).next_lsn(), 1),
            final(self).entries() == old(self).entries().push(
                (WalEntry {
                    lsn: old(self).next_lsn(),
                    entry_type,
                    checksum: wal_checksum(old(self).next_lsn(), timestamp),
                    timestamp,
                }),
            ),
            final(self).limit() == old(self).limit(),
            final(self).flushed() == if final(self).entries().len() >= old(self).limit() {
                old(self).next_lsn()
            } else {
                old(self).flushed()
            },
            final(self).stats_spec().entries_written == vstd::wrapping::u64_specs::wrapping_add(
                old(self).stats_spec().entries_written,
                1,
            ),
            final(self).stats_spec().replays == old(self).stats_spec().replays,
    {
        let lsn = self.current_lsn;
        self.current_lsn = self.current_lsn.wrapping_add(1);
        let entry = WalEntry::new_at(lsn, entry_type, timestamp);
        self.buffer.push(entry);
        if self.buffer.len() >= self.max_buffer_size {
            self.flush_buffer();
        }
        self.stats.entries_written = self.stats.entries_written.wrapping_add(1);
        Ok(lsn)
    }

    /// Appends an entry stamped with the current time.
    pub fn append(&mut self, entry_type: WalEntryType) -> (r: Result<u64>)
        ensures
            r == Ok::<u64, Error>(old(self).next_lsn()),
            final(self).next_lsn() == vstd::wrapping::u64_specs::wrapping_add(old(self).next_lsn(), 1),
            final(self).entries().len() == old(self).entries().len() + 1,
            final(self).entries().drop_last() == old(self).entries(),
            final(self).entries().last().lsn == old(self).next_lsn(),
            final(self).entries().last().entry_type == entry_type,
            final(self).entries().last().checksum == wal_checksum(
                old(self).next_lsn(),
                final(self).entries().last().timestamp,
            ),
            final(self).limit() == old(self).limit(),
            final(self).flushed() == if final(self).entries().len() >= old(self).limit() {
                old(self).next_lsn()
            } else {
                old(self).flushed()
            },
    {
        let ts = unix_now_secs();
        let r = self.append_at(entry_type, ts);
        assert(self.entries().drop_last() =~= old(self).entries());
        r
    }

    fn flush_buffer(&mut self)
        requires
            old(self).buffer@.len() > 0,
        ensures
            final(self).buffer@ == old(self).buffer@,
            final(self).current_lsn == old(self).current_lsn,
            final(self).max_buffer_size == old(self).max_buffer_size,
            final(self).flushed_lsn == old(self).buffer@.last().lsn,
            final(self).stats.entries_written == old(self).stats.entries_written,
            final(self).stats.replays == old(self).stats.replays,
            final(self).stats.flushes == vstd::wrapping::u64_specs::wrapping_add(old(self).stats.flushes, 1),
    {
        let last = self.buffer.len() - 1;
        self.flushed_lsn = self.buffer[last].lsn;
        self.stats.flushes = self.stats.flushes.wrapping_add(1);
    }

    /// Marks every buffered entry as persisted.
    pub fn flush(&mut self) -> (r: Result<()>)
        ensures
            r is Ok,
            final(self).entries() == old(self).entries(),
            final(self).next_lsn() == old(self).next_lsn(),
            final(self).limit() == old(self).limit(),
            final(self).flushed() == if old(self).entries().len() == 0 {
                old(self).flushed()
            } else {
                old(self).entries().last().lsn
            },
    {
        if self.buffer.len() == 0 {
            return Ok(());
        }
        self.flush_buffer();
        Ok(())
    }

    /// The entries with a sequence number above `lsn`, in log order.
    pub fn entries_after(&self, lsn: u64) -> (r: Vec<WalEntry>)
        ensures
            r@ == entries_above(self.entries(), lsn),
    {
        let mut out: Vec<WalEntry> = Vec::new();
        let mut i: usize = 0;
        while i < self.buffer.len()
            invariant
                0 <= i <= self.buffer@.len(),
                out@ == entries_above(self.buffer@.subrange(0, i as int), lsn),
            decreases self.buffer@.len() - i,
        {
            let ghost prefix = self.buffer@.subrange(0, i as int);
            assert(self.buffer@.subrange(0, i + 1) =~= prefix.push(self.buffer@[i as int]));
            proof {
                reveal(Seq::filter);
                assert(self.buffer@.subrange(0, i + 1).drop_last() =~= prefix);
            }
            if self.buffer[i].lsn > lsn {
                out.push(self.buffer[i].duplicate());
            }
            i += 1;
        }
        assert(self.buffer@.subrange(0, self.buffer@.len() as int) =~= self.buffer@);
        out
    }

    /// Drops every entry with a sequence number up to and including `lsn`.
    pub fn truncate_to(&mut self, lsn: u64)
        ensures
            final(self).entries() == entries_above(old(self).entries(), lsn),
            final(self).next_lsn() == old(self).next_lsn(),
            final(self).flushed() == old(self).flushed(),
            final(self).limit() == old(self).limit(),
            final(self).stats_spec() == old(self).stats_spec(),
    {
        let kept = self.entries_after(lsn);
        self.buffer = kept;
    }

    /// Counters of the log.
    pub fn stats(&self) -> (r: &WalStats)
        ensures
            *r == self.stats_spec(),
    {
        &self.stats
    }
}

// =============================================================================
// Checkpoints
// =============================================================================

/// 64-bit wrapping addition.
pub open spec fn wadd(a: u64, b: u64) -> u64 {
    vstd::wrapping::u64_specs::wrapping_add(a, b)
}

/// 64-bit wrapping multiplication.
pub open spec fn wmul(a: u64, b: u64) -> u64 {
    vstd::wrapping::u64_specs::wrapping_mul(a, b)
}

/// 64-bit wrapping subtraction.
pub open spec fn wsub(a: u64, b: u64) -> u64 {
    vstd::wrapping::u64_specs::wrapping_sub(a, b)
}

/// Checksum of checkpointed mappings: the wrapping sum over the mappings of
/// `start * 31 + end * 17 + stripe_id * 13`.
pub open spec fn mappings_checksum(m: Seq<(LbaRange, StripeLocation)>) -> u64
    decreases m.len(),
{
    if m.len() == 0 {
        0
    } else {
        let h = mappings_checksum(m.drop_last());
        let e = m.last();
        wadd(wadd(wadd(h, wmul(e.0.start, 31)), wmul(e.0.end, 17)), wmul(e.1.stripe_id, 13))
    }
}

/// Copies a list of mappings.
pub fn duplicate_mappings(v: &Vec<(LbaRange, StripeLocation)>) -> (r: Vec<(LbaRange, StripeLocation)>)
    ensures
        r@ == v@,
{
    let mut out: Vec<(LbaRange, StripeLocation)> = Vec::new();
    let mut i: usize = 0;
    while i < v.len()
        invariant
            0 <= i <= v@.len(),
            out@ == v@.subrange(0, i as int),
        decreases v@.len() - i,
    {
        let e = (v[i].0, v[i].1.duplicate());
        out.push(e);
        assert(v@.subrange(0, i + 1) =~= v@.subrange(0, i as int).push(v@[i as int]));
        i += 1;
    }
    assert(v@.subrange(0, v@.len() as int) =~= v@);
    out
}

/// Checkpoint metadata.
#[derive(Debug, Clone, Copy, PartialEq, Eq)]
pub struct CheckpointMetadata {
    /// Unique checkpoint ID
    pub id: u64,
    /// LSN at checkpoint time
    pub lsn: u64,
    /// Number of mappings
    pub mapping_count: u64,
    /// Timestamp
    pub timestamp: u64,
    /// Checksum of the checkpoint data
    pub checksum: u64,
    /// Whether this checkpoint is valid
    pub valid: bool,
}

/// A complete checkpoint of the L2P map.
#[derive(Debug, Clone)]
pub struct Checkpoint {
    /// Metadata
    pub metadata: CheckpointMetadata,
    /// The L2P mappings
    pub mappings: Vec<(LbaRange, StripeLocation)>,
}

/// Whether a checkpoint is marked valid and its checksum matches its mappings.
pub open spec fn checkpoint_ok(c: Checkpoint) -> bool {
    c.metadata.valid && mappings_checksum(c.mappings@) == c.metadata.checksum
}

impl Checkpoint {
    /// A checkpoint of `mappings` taken at `lsn`, stamped `timestamp`.
    pub fn new_at(id: u64, lsn: u64, mappings: Vec<(LbaRange, StripeLocation)>, timestamp: u64) -> (r: Checkpoint)
        ensures
            r.metadata.id == id,
            r.metadata.lsn == lsn,
            r.metadata.mapping_count == mappings@.len() as u64,
            r.metadata.timestamp == timestamp,
            r.metadata.checksum == mappings_checksum(mappings@),
            r.metadata.valid,
            r.mappings@ == mappings@,
    {
        let checksum = Self::calculate_checksum(&mappings);
        let mapping_count = mappings.len() as u64;
        Checkpoint {
            metadata: CheckpointMetadata { id, lsn, mapping_count, timestamp, checksum, valid: true },
            mappings,
        }
    }

    /// A checkpoint of `mappings` taken at `lsn`, stamped with the current time.
    pub fn new(id: u64, lsn: u64, mappings: Vec<(LbaRange, StripeLocation)>) -> (r: Checkpoint)
        ensures
            r.metadata.id == id,
            r.metadata.lsn == lsn,
            r.metadata.mapping_count == mappings@.len() as u64,
            r.metadata.checksum == mappings_checksum(mappings@),
            r.metadata.valid,
            r.mappings@ == mappings@,
    {
        Self::new_at(id, lsn, mappings, unix_now_secs())
    }

    /// Checksum of a list of mappings.
    pub fn calculate_checksum(mappings: &Vec<(LbaRange, StripeLocation)>) -> (r: u64)
        ensures
            r == mappings_checksum(mappings@),
    {
        let mut hash: u64 = 0;
        let mut i: usize = 0;
        while i < mappings.len()
            invariant
                0 <= i <= mappings@.len(),
                hash == mappings_checksum(mappings@.subrange(0, i as int)),
            decreases mappings@.len() - i,
        {
            let ghost prefix = mappings@.subrange(0, i + 1);
            assert(prefix.drop_last() =~= mappings@.subrange(0, i as int));
            hash = hash.wrapping_add(mappings[i].0.start.wrapping_mul(31));
            hash = hash.wrapping_add(mappings[i].0.end.wrapping_mul(17));
            hash = hash.wrapping_add(mappings[i].1.stripe_id.wrapping_mul(13));
            i += 1;
        }
        assert(mappings@.subrange(0, mappings@.len() as int) =~= mappings@);
        hash
    }

    /// Whether the checkpoint is valid and intact.
    pub fn verify(&self) -> (r: bool)
        ensures
            r == checkpoint_ok(*self),
    {
        if !self.metadata.valid {
            return false;
        }
        let expected = Self::calculate_checksum(&self.mappings);
        expected == self.metadata.checksum
    }

    /// An exact copy of the checkpoint.
    pub fn duplicate(&self) -> (r: Checkpoint)
        ensures
            r.metadata == self.metadata,
            r.mappings@ == self.mappings@,
    {
        Checkpoint { metadata: self.metadata, mappings: duplicate_mappings(&self.mappings) }
    }
}

/// Which checkpoint slot is active.
#[derive(Debug, Clone, Copy, PartialEq, Eq)]
pub enum CheckpointSlot {
    A,
    B,
}

impl CheckpointSlot {
    /// The other slot.
    pub fn other(&self) -> (r: CheckpointSlot)
        ensures
            r == self.other_spec(),
    {
        match self {
            CheckpointSlot::A => CheckpointSlot::B,
            CheckpointSlot::B => CheckpointSlot::A,
        }
    }
}

/// Checkpoint statistics.
#[derive(Debug, Clone, Copy, PartialEq, Eq, Default)]
pub struct CheckpointStats {
    pub checkpoints_created: u64,
    pub checkpoints_loaded: u64,
    pub recovery_time_ms: u64,
}

/// Keeps two checkpoint slots and writes each new checkpoint to the inactive one.
#[derive(Debug)]
pub struct CheckpointManager {
    next_id: u64,
    active_slot: CheckpointSlot,
    checkpoint_a: Option<Checkpoint>,
    checkpoint_b: Option<Checkpoint>,
    checkpoint_interval_ms: u64,
    last_checkpoint: std::time::Instant,
    stats: CheckpointStats,
}

/// The checkpoint that loading picks: the active slot's if it is intact, else
/// the other slot's if that is intact.
pub open spec fn pick_checkpoint(active: Option<Checkpoint>, other: Option<Checkpoint>) -> Option<Checkpoint> {
    if active is Some && checkpoint_ok(active->0) {
        active
    } else if other is Some && checkpoint_ok(other->0) {
        other
    } else {
        None
    }
}

impl CheckpointManager {
    /// Identifier the next checkpoint gets.
    pub closed spec fn next_id_spec(&self) -> u64 {
        self.next_id
    }

    /// The active slot.
    pub closed spec fn active(&self) -> CheckpointSlot {
        self.active_slot
    }

    /// Contents of a slot.
    pub closed spec fn slot(&self, s: CheckpointSlot) -> Option<Checkpoint> {
        match s {
            CheckpointSlot::A => self.checkpoint_a,
            CheckpointSlot::B => self.checkpoint_b,
        }
    }

    /// The checkpoint `load_latest_checkpoint` returns.
    pub open spec fn latest(&self) -> Option<Checkpoint> {
        pick_checkpoint(self.slot(self.active()), self.slot(self.active().other_spec()))
    }

    /// Counters of the manager.
    pub closed spec fn stats_spec(&self) -> CheckpointStats {
        self.stats
    }

    /// Interval after which a time-based checkpoint is due, in milliseconds.
    pub closed spec fn interval_ms(&self) -> u64 {
        self.checkpoint_interval_ms
    }

    /// A manager with both slots empty.
    pub fn new(checkpoint_interval_ms: u64) -> (r: CheckpointManager)
        ensures
            r.next_id_spec() == 1,
            r.active() == CheckpointSlot::A,
            r.slot(CheckpointSlot::A) is None,
            r.slot(CheckpointSlot::B) is None,
            r.interval_ms() == checkpoint_interval_ms,
            r.stats_spec() == (CheckpointStats { checkpoints_created: 0, checkpoints_loaded: 0, recovery_time_ms: 0 }),
    {
        CheckpointManager {
            next_id: 1,
            active_slot: CheckpointSlot::A,
            checkpoint_a: None,
            checkpoint_b: None,
            checkpoint_interval_ms,
            last_checkpoint: instant_now(),
            stats: CheckpointStats { checkpoints_created: 0, checkpoints_loaded: 0, recovery_time_ms: 0 },
        }
    }

    /// Writes a checkpoint of `mappings` at `lsn` to the inactive slot and
    /// makes that slot active.
    pub fn create_checkpoint(&mut self, lsn: u64, mappings: Vec<(LbaRange, StripeLocation)>) -> (r: Result<Checkpoint>)
        ensures
            r matches Ok(c) && {
                &&& c.metadata.id == old(self).next_id_spec()
                &&& c.metadata.lsn == lsn
                &&& c.metadata.mapping_count == mappings@.len() as u64
                &&& c.mappings@ == mappings@
                &&& checkpoint_ok(c)
                &&& final(self).active() == old(self).active().other_spec()
                &&& final(self).slot(final(self).active()) matches Some(s) && s.metadata == c.metadata
                    && s.mappings@ == c.mappings@
                &&& final(self).slot(old(self).active()) == old(self).slot(old(self).active())
                &&& final(self).latest() matches Some(l) && l.metadata == c.metadata && l.mappings@
                    == c.mappings@
            },
            final(self).next_id_spec() == wadd(old(self).next_id_spec(), 1),
            final(self).interval_ms() == old(self).interval_ms(),
            final(self).stats_spec().checkpoints_loaded == old(self).stats_spec().checkpoints_loaded,
            final(self).stats_spec().recovery_time_ms == old(self).stats_spec().recovery_time_ms,
    {
        let id = self.next_id;
        self.next_id = self.next_id.wrapping_add(1);
        let checkpoint = Checkpoint::new(id, lsn, mappings);
        let target_slot = self.active_slot.other();
        match target_slot {
            CheckpointSlot::A => {
                self.checkpoint_a = Some(checkpoint.duplicate());
            },
            CheckpointSlot::B => {
                self.checkpoint_b = Some(checkpoint.duplicate());
            },
        }
        self.active_slot = target_slot;
        self.last_checkpoint = instant_now();
        self.stats.checkpoints_created = self.stats.checkpoints_created.wrapping_add(1);
        proof {
            assert(checkpoint_ok(self.slot(target_slot)->0));
        }
        Ok(checkpoint)
    }

    fn slot_copy(&self, s: CheckpointSlot) -> (r: Option<Checkpoint>)
        ensures
            match (r, self.slot(s)) {
                (Some(a), Some(b)) => a.metadata == b.metadata && a.mappings@ == b.mappings@,
                (None, None) => true,
                _ => false,
            },
    {
        match s {
            CheckpointSlot::A => match &self.checkpoint_a {
                Some(c) => Some(c.duplicate()),
                None => None,
            },
            CheckpointSlot::B => match &self.checkpoint_b {
                Some(c) => Some(c.duplicate()),
                None => None,
            },
        }
    }

    /// Loads the newest intact checkpoint: the active slot's, else the other slot's.
    pub fn load_latest_checkpoint(&mut self) -> (r: Option<Checkpoint>)
        ensures
            match (r, old(self).latest()) {
                (Some(a), Some(b)) => a.metadata == b.metadata && a.mappings@ == b.mappings@,
                (None, None) => true,
                _ => false,
            },
            final(self).active() == old(self).active(),
            final(self).slot(CheckpointSlot::A) == old(self).slot(CheckpointSlot::A),
            final(self).slot(CheckpointSlot::B) == old(self).slot(CheckpointSlot::B),
            final(self).next_id_spec() == old(self).next_id_spec(),
            final(self).interval_ms() == old(self).interval_ms(),
    {
        let active = self.active_slot;
        let checkpoint = self.slot_copy(active);
        if let Some(ckpt) = checkpoint {
            if ckpt.verify() {
                self.stats.checkpoints_loaded = self.stats.checkpoints_loaded.wrapping_add(1);
                return Some(ckpt);
            }
        }
        let fallback = self.slot_copy(active.other());
        if let Some(ckpt) = fallback {
            if ckpt.verify() {
                self.stats.checkpoints_loaded = self.stats.checkpoints_loaded.wrapping_add(1);
                return Some(ckpt);
            }
        }
        None
    }

    /// Whether the checkpoint interval has passed since the last checkpoint,
    /// by the monotonic clock (which may report any elapsed time): always
    /// with a zero interval.
    pub fn needs_checkpoint(&self) -> (r: bool)
        ensures
            self.interval_ms() == 0 ==> r,
    {
        let elapsed_ms = elapsed_millis(&self.last_checkpoint);
        elapsed_ms >= self.checkpoint_interval_ms
    }

    /// Counters of the manager.
    pub fn stats(&self) -> (r: &CheckpointStats)
        ensures
            *r == self.stats_spec(),
    {
        &self.stats
    }
}

impl CheckpointSlot {
    /// The other slot.
    pub open spec fn other_spec(self) -> CheckpointSlot {
        match self {
            CheckpointSlot::A => CheckpointSlot::B,
            CheckpointSlot::B => CheckpointSlot::A,
        }
    }
}

// =============================================================================
// Metadata Engine
// =============================================================================

/// Configuration for the Metadata Engine.
#[derive(Debug, Clone, Copy, PartialEq, Eq)]
pub struct MetadataEngineConfig {
    /// WAL buffer size
    pub wal_buffer_size: usize,
    /// Checkpoint interval, in milliseconds
    pub checkpoint_interval_ms: u64,
    /// Enable auto-checkpoint
    pub auto_checkpoint: bool,
    /// Maximum mappings before forced checkpoint
    pub max_dirty_mappings: usize,
}

impl Default for MetadataEngineConfig {
    fn default() -> (r: Self)
        ensures
            r == (MetadataEngineConfig {
                wal_buffer_size: 1024,
                checkpoint_interval_ms: 60_000,
                auto_checkpoint: true,
                max_dirty_mappings: 10000,
            }),
    {
        MetadataEngineConfig {
            wal_buffer_size: 1024,
            checkpoint_interval_ms: 60_000,
            auto_checkpoint: true,
            max_dirty_mappings: 10000,
        }
    }
}

/// Statistics for the Metadata Engine.
#[derive(Debug, Clone, Copy, PartialEq, Eq, Default)]
pub struct MetadataEngineStats {
    pub lookups: u64,
    pub inserts: u64,
    pub updates: u64,
    pub deletes: u64,
    pub destages: u64,
    pub hot_mappings: u64,
    pub cold_mappings: u64,
}

/// Information about a recovery operation.
#[derive(Debug, Clone, Copy, PartialEq, Eq, Default)]
pub struct RecoveryInfo {
    /// LSN of the loaded checkpoint
    pub checkpoint_lsn: u64,
    /// Number of mappings restored from checkpoint
    pub mappings_from_checkpoint: usize,
    /// Number of WAL entries replayed
    pub wal_entries_replayed: usize,
    /// Number of corrupted entries skipped
    pub corrupted_entries: usize,
    /// Total recovery time, in milliseconds
    pub recovery_time_ms: u64,
}

/// Information about a checkpoint operation.
#[derive(Debug, Clone, Copy, PartialEq, Eq)]
pub struct CheckpointInfo {
    /// Checkpoint ID
    pub id: u64,
    /// LSN at checkpoint time
    pub lsn: u64,
    /// Number of mappings
    pub mapping_count: u64,
}

/// The location as stored with generation `generation`.
pub open spec fn stamped(location: StripeLocation, generation: u64) -> StripeLocation {
    StripeLocation { generation, ..location }
}

/// The WAL entry an operation logs at sequence number `lsn` at `timestamp`.
pub open spec fn logged_entry(lsn: u64, entry_type: WalEntryType, timestamp: u64) -> WalEntry {
    WalEntry { lsn, entry_type, checksum: wal_checksum(lsn, timestamp), timestamp }
}

/// The map after restoring checkpointed mappings in order.
pub open spec fn restore_mappings(m: Map<LbaRange, StripeLocation>, s: Seq<L2pEntry>) -> Map<LbaRange, StripeLocation>
    decreases s.len(),
{
    if s.len() == 0 {
        m
    } else {
        restore_mappings(m, s.drop_last()).insert(s.last().0, s.last().1)
    }
}

/// Whether a WAL entry's checksum matches it.
pub open spec fn wal_entry_intact(e: WalEntry) -> bool {
    e.checksum == wal_checksum(e.lsn, e.timestamp)
}

/// The map after applying one WAL entry.
pub open spec fn apply_wal_entry_spec(m: Map<LbaRange, StripeLocation>, e: WalEntry) -> Map<LbaRange, StripeLocation> {
    match e.entry_type {
        WalEntryType::Insert { lba_range, location } => m.insert(lba_range, location),
        WalEntryType::Update { lba_range, new_location, .. } => m.insert(lba_range, new_location),
        WalEntryType::Delete { lba_range } => m.remove(lba_range),
        WalEntryType::Checkpoint { .. } => m,
    }
}

/// The map after replaying the intact entries of `es` in order.
pub open spec fn replay_wal(m: Map<LbaRange, StripeLocation>, es: Seq<WalEntry>) -> Map<LbaRange, StripeLocation>
    decreases es.len(),
{
    if es.len() == 0 {
        m
    } else {
        let m1 = replay_wal(m, es.drop_last());
        if wal_entry_intact(es.last()) {
            apply_wal_entry_spec(m1, es.last())
        } else {
            m1
        }
    }
}

/// Entries whose checksum does not match.
pub open spec fn corrupted_pred() -> spec_fn(WalEntry) -> bool {
    |e: WalEntry| !wal_entry_intact(e)
}

/// Message of an update whose expected generation is stale (`format!`).
#[verifier::external_body]
fn generation_conflict_message(expected: u64, found: u64) -> String {
    format!("Mapping conflict: expected generation {}, found {}", expected, found)
}

/// Message of an operation on an unmapped range (`format!`).
#[verifier::external_body]
fn range_not_found_message(range: &LbaRange) -> String {
    format!("LBA range {:?} not found", range)
}

/// The main Metadata Engine for L2P mapping: it tracks where every range of
/// LBAs lives across the Hot Journal and Cold Store tiers, logs each change
/// to the write-ahead log and checkpoints the table.
#[derive(Debug)]
pub struct MetadataEngine {
    config: MetadataEngineConfig,
    l2p_map: Vec<L2pEntry>,
    wal: WriteAheadLog,
    checkpoint_manager: CheckpointManager,
    generation: u64,
    dirty_count: u64,
    stats: MetadataEngineStats,
}

impl View for MetadataEngine {
    type V = Map<LbaRange, StripeLocation>;

    /// The L2P map.
    open spec fn view(&self) -> Map<LbaRange, StripeLocation> {
        entries_map(self.entries())
    }
}

/// The log and checkpoint state after an operation that logged `entry` and
/// counted one more dirty mapping, then checkpointed if one was due (by
/// time, `checkpoint_due`, or by the dirty count).
pub open spec fn logged_then_checkpointed(
    before: MetadataEngine,
    after: MetadataEngine,
    entry: WalEntry,
    checkpoint_due: bool,
) -> bool {
    let logged = before.wal_entries().push(entry);
    let next = wadd(before.wal_next(), 1);
    let dirty = wadd(before.dirty(), 1);
    if before.config_spec().auto_checkpoint && (checkpoint_due || dirty >= before.config_spec().max_dirty_mappings as u64) {
        &&& after.dirty() == 0
        &&& after.wal_next() == wadd(next, 1)
        &&& after.wal_entries() == entries_above(logged, next)
        &&& after.latest_checkpoint() matches Some(c) && c.metadata.lsn == next && c.mappings@ == after.entries()
    } else {
        &&& after.dirty() == dirty
        &&& after.wal_next() == next
        &&& after.wal_entries() == logged
        &&& after.ckpt() == before.ckpt()
    }
}

impl MetadataEngine {
    /// The table entries, ascending by range.
    pub closed spec fn entries(&self) -> Seq<L2pEntry> {
        self.l2p_map@
    }

    /// The write-ahead log.
    pub closed spec fn wal_log(&self) -> WriteAheadLog {
        self.wal
    }

    /// The checkpoint manager.
    pub closed spec fn ckpt(&self) -> CheckpointManager {
        self.checkpoint_manager
    }

    /// Generation the next stored location gets.
    pub closed spec fn generation_spec(&self) -> u64 {
        self.generation
    }

    /// Changes since the last checkpoint.
    pub closed spec fn dirty(&self) -> u64 {
        self.dirty_count
    }

    /// Counters of the engine.
    pub closed spec fn stats_spec(&self) -> MetadataEngineStats {
        self.stats
    }

    /// The configuration.
    pub closed spec fn config_spec(&self) -> MetadataEngineConfig {
        self.config
    }

    /// The table is kept sorted by range.
    pub open spec fn wf(&self) -> bool {
        sorted_entries(self.entries())
    }

    /// Every stored location carries a generation below the one the next
    /// stored location gets. A new engine has this; inserts and updates
    /// keep it while the generation counter has not reached `u64::MAX`, and
    /// deletes keep it. (Recovery loads mappings of any generation.)
    pub open spec fn generations_below_next(&self) -> bool {
        forall|r: LbaRange| #[trigger] self@.dom().contains(r) ==> self@[r].generation < self.generation_spec()
    }

    /// Entries held in the write-ahead log.
    pub open spec fn wal_entries(&self) -> Seq<WalEntry> {
        self.wal_log().entries()
    }

    /// Next sequence number of the write-ahead log.
    pub open spec fn wal_next(&self) -> u64 {
        self.wal_log().next_lsn()
    }

    /// The checkpoint recovery would load.
    pub open spec fn latest_checkpoint(&self) -> Option<Checkpoint> {
        self.ckpt().latest()
    }

    /// An empty engine.
    pub fn new(config: MetadataEngineConfig) -> (r: MetadataEngine)
        ensures
            r.wf(),
            r.entries() == Seq::<L2pEntry>::empty(),
            r@ == (Map::<LbaRange, StripeLocation>::empty()),
            r.config_spec() == config,
            r.generation_spec() == 1,
            r.generations_below_next(),
            r.dirty() == 0,
            r.wal_next() == 1,
            r.wal_entries() == Seq::<WalEntry>::empty(),
            r.wal_log().limit() == config.wal_buffer_size,
            r.latest_checkpoint() is None,
            r.ckpt().interval_ms() == config.checkpoint_interval_ms,
            r.stats_spec() == (MetadataEngineStats {
                lookups: 0,
                inserts: 0,
                updates: 0,
                deletes: 0,
                destages: 0,
                hot_mappings: 0,
                cold_mappings: 0,
            }),
    {
        let wal = WriteAheadLog::new(config.wal_buffer_size);
        let checkpoint_manager = CheckpointManager::new(config.checkpoint_interval_ms);
        let r = MetadataEngine {
            config,
            l2p_map: Vec::new(),
            wal,
            checkpoint_manager,
            generation: 1,
            dirty_count: 0,
            stats: MetadataEngineStats {
                lookups: 0,
                inserts: 0,
                updates: 0,
                deletes: 0,
                destages: 0,
                hot_mappings: 0,
                cold_mappings: 0,
            },
        };
        assert(r@ =~= Map::<LbaRange, StripeLocation>::empty());
        r
    }

    /// An engine with the default configuration.
    pub fn new_mock() -> (r: MetadataEngine)
        ensures
            r.wf(),
            r@ == (Map::<LbaRange, StripeLocation>::empty()),
            r.config_spec() == (MetadataEngineConfig {
                wal_buffer_size: 1024,
                checkpoint_interval_ms: 60_000,
                auto_checkpoint: true,
                max_dirty_mappings: 10000,
            }),
            r.generation_spec() == 1,
            r.generations_below_next(),
            r.dirty() == 0,
            r.wal_next() == 1,
            r.latest_checkpoint() is None,
    {
        Self::new(MetadataEngineConfig::default())
    }

    /// Looks up the range holding `lba`: the greatest range starting at or
    /// before `lba`, if it holds `lba`.
    pub fn lookup(&mut self, lba: u64) -> (r: Option<L2pEntry>)
        requires
            old(self).wf(),
        ensures
            r == floor_lookup(old(self)@, lba),
            final(self).wf(),
            final(self).entries() == old(self).entries(),
            final(self).wal_log() == old(self).wal_log(),
            final(self).ckpt() == old(self).ckpt(),
            final(self).generation_spec() == old(self).generation_spec(),
            final(self).dirty() == old(self).dirty(),
            final(self).config_spec() == old(self).config_spec(),
            final(self).stats_spec() == (MetadataEngineStats {
                lookups: wadd(old(self).stats_spec().lookups, 1),
                ..old(self).stats_spec()
            }),
    {
        self.stats.lookups = self.stats.lookups.wrapping_add(1);
        map_floor_lookup(&self.l2p_map, lba)
    }

    /// Every mapping that overlaps `query` (see `range_query`).
    pub fn lookup_range(&mut self, query: &LbaRange) -> (r: Vec<L2pEntry>)
        requires
            old(self).wf(),
        ensures
            r@ == range_query(old(self).entries(), *query),
            final(self).wf(),
            final(self).entries() == old(self).entries(),
            final(self).wal_log() == old(self).wal_log(),
            final(self).ckpt() == old(self).ckpt(),
            final(self).generation_spec() == old(self).generation_spec(),
            final(self).dirty() == old(self).dirty(),
            final(self).config_spec() == old(self).config_spec(),
            final(self).stats_spec() == (MetadataEngineStats {
                lookups: wadd(old(self).stats_spec().lookups, 1),
                ..old(self).stats_spec()
            }),
    {
        self.stats.lookups = self.stats.lookups.wrapping_add(1);
        map_range_query(&self.l2p_map, query)
    }

    /// Cuts `new_range` out of every mapping that overlaps it.
    fn handle_overlaps(map: &mut Vec<L2pEntry>, new_range: &LbaRange)
        requires
            sorted_entries(old(map)@),
        ensures
            sorted_entries(final(map)@),
            entries_map(final(map)@) == trim_overlaps(
                entries_map(old(map)@),
                old(map)@.filter(overlaps_pred(*new_range)),
                *new_range,
            ),
    {
        let ghost m0 = entries_map(map@);
        let overlapping = collect_overlapping(map, new_range);
        let mut j: usize = 0;
        while j < overlapping.len()
            invariant
                0 <= j <= overlapping@.len(),
                sorted_entries(map@),
                entries_map(map@) == trim_overlaps(m0, overlapping@.subrange(0, j as int), *new_range),
            decreases overlapping@.len() - j,
        {
            let old_range = overlapping[j].0;
            proof {
                assert(overlapping@.subrange(0, j + 1).drop_last() =~= overlapping@.subrange(0, j as int));
                assert(overlapping@.subrange(0, j + 1).last() == overlapping@[j as int]);
            }
            map_remove(map, &old_range);
            if old_range.start < new_range.start {
                map_insert(map, LbaRange::new(old_range.start, new_range.start), overlapping[j].1.duplicate());
            }
            if old_range.end > new_range.end {
                map_insert(map, LbaRange::new(new_range.end, old_range.end), overlapping[j].1.duplicate());
            }
            j += 1;
        }
        assert(overlapping@.subrange(0, overlapping@.len() as int) =~= overlapping@);
    }

    /// Checkpoints the current table: the checkpoint is taken at the log's
    /// next sequence number, a checkpoint marker is logged, the log is
    /// truncated to that sequence number and the dirty count is reset.
    pub fn create_checkpoint(&mut self) -> (r: Result<CheckpointInfo>)
        requires
            old(self).wf(),
        ensures
            r matches Ok(info) && info.lsn == old(self).wal_next() && info.mapping_count == old(self).entries().len() as u64 && info.id == old(self).ckpt().next_id_spec(),
            final(self).latest_checkpoint() matches Some(c) && c.metadata.lsn == old(self).wal_next()
                && c.metadata.id == old(self).ckpt().next_id_spec() && c.mappings@ == old(self).entries(),
            final(self).wal_entries() == entries_above(old(self).wal_entries(), old(self).wal_next()),
            final(self).wal_next() == wadd(old(self).wal_next(), 1),
            final(self).dirty() == 0,
            final(self).wf(),
            final(self).entries() == old(self).entries(),
            final(self).generation_spec() == old(self).generation_spec(),
            final(self).config_spec() == old(self).config_spec(),
            final(self).stats_spec() == old(self).stats_spec(),
    {
        let lsn = self.wal.current_lsn();
        let mappings = duplicate_mappings(&self.l2p_map);
        let checkpoint = match self.checkpoint_manager.create_checkpoint(lsn, mappings) {
            Ok(c) => c,
            Err(e) => return Err(e),
        };
        let ghost logged = self.wal.entries();
        match self.wal.append(WalEntryType::Checkpoint { checkpoint_id: checkpoint.metadata.id }) {
            Ok(_) => {},
            Err(e) => return Err(e),
        }
        let ghost marked = self.wal.entries();
        self.wal.truncate_to(lsn);
        proof {
            reveal(Seq::filter);
            assert(marked.drop_last() =~= logged);
        }
        self.dirty_count = 0;
        Ok(CheckpointInfo {
            id: checkpoint.metadata.id,
            lsn: checkpoint.metadata.lsn,
            mapping_count: checkpoint.metadata.mapping_count,
        })
    }

    /// Checkpoints if auto-checkpointing is on and a checkpoint is due, by
    /// time (`checkpoint_due`) or by the dirty count.
    fn maybe_checkpoint_with(&mut self, checkpoint_due: bool) -> (r: Result<()>)
        requires
            old(self).wf(),
        ensures
            r is Ok,
            final(self).wf(),
            final(self).entries() == old(self).entries(),
            final(self).generation_spec() == old(self).generation_spec(),
            final(self).config_spec() == old(self).config_spec(),
            final(self).stats_spec() == old(self).stats_spec(),
            if old(self).config_spec().auto_checkpoint && (checkpoint_due || old(self).dirty()
                >= old(self).config_spec().max_dirty_mappings as u64) {
                &&& final(self).dirty() == 0
                &&& final(self).wal_next() == wadd(old(self).wal_next(), 1)
                &&& final(self).wal_entries() == entries_above(old(self).wal_entries(), old(self).wal_next())
                &&& final(self).latest_checkpoint() matches Some(c) && c.metadata.lsn == old(self).wal_next()
                    && c.mappings@ == old(self).entries()
            } else {
                &&& final(self).dirty() == old(self).dirty()
                &&& final(self).wal_log() == old(self).wal_log()
                &&& final(self).ckpt() == old(self).ckpt()
            },
    {
        if !self.config.auto_checkpoint {
            return Ok(());
        }
        let dirty = self.dirty_count;
        let needs_count_based = dirty >= self.config.max_dirty_mappings as u64;
        if checkpoint_due || needs_count_based {
            match self.create_checkpoint() {
                Ok(_) => {},
                Err(e) => return Err(e),
            }
        }
        Ok(())
    }

    /// Inserts a mapping for a Hot Journal write, logged at `timestamp`;
    /// `checkpoint_due` says whether the checkpoint interval has passed.
    /// The location is stored with the engine's next generation, and the
    /// parts of older mappings that overlap the range are cut away.
    pub fn insert_mapping_at(
        &mut self,
        lba_range: LbaRange,
        location: StripeLocation,
        timestamp: u64,
        checkpoint_due: bool,
    ) -> (r: Result<u64>)
        requires
            old(self).wf(),
        ensures
            r == Ok::<u64, Error>(old(self).wal_next()),
            final(self).wf(),
            final(self)@ == trim_overlaps(
                old(self)@,
                old(self).entries().filter(overlaps_pred(lba_range)),
                lba_range,
            ).insert(lba_range, stamped(location, old(self).generation_spec())),
            final(self).generation_spec() == wadd(old(self).generation_spec(), 1),
            old(self).generations_below_next() && old(self).generation_spec() < u64::MAX ==> final(self).generations_below_next(),
            final(self).config_spec() == old(self).config_spec(),
            final(self).stats_spec() == (MetadataEngineStats {
                inserts: wadd(old(self).stats_spec().inserts, 1),
                hot_mappings: if location.tier == StorageTier::HotJournal {
                    wadd(old(self).stats_spec().hot_mappings, 1)
                } else {
                    old(self).stats_spec().hot_mappings
                },
                cold_mappings: if location.tier == StorageTier::HotJournal {
                    old(self).stats_spec().cold_mappings
                } else {
                    wadd(old(self).stats_spec().cold_mappings, 1)
                },
                ..old(self).stats_spec()
            }),
            logged_then_checkpointed(
                *old(self),
                *final(self),
                logged_entry(
                    old(self).wal_next(),
                    WalEntryType::Insert { lba_range, location: stamped(location, old(self).generation_spec()) },
                    timestamp,
                ),
                checkpoint_due,
            ),
    {
        let gen = self.generation;
        self.generation = self.generation.wrapping_add(1);
        let location = location.with_generation(gen);
        let lsn = match self.wal.append_at(
            WalEntryType::Insert { lba_range, location: location.duplicate() },
            timestamp,
        ) {
            Ok(lsn) => lsn,
            Err(e) => return Err(e),
        };
        Self::handle_overlaps(&mut self.l2p_map, &lba_range);
        let hot = location.is_hot();
        map_insert(&mut self.l2p_map, lba_range, location);
        self.stats.inserts = self.stats.inserts.wrapping_add(1);
        self.dirty_count = self.dirty_count.wrapping_add(1);
        if hot {
            self.stats.hot_mappings = self.stats.hot_mappings.wrapping_add(1);
        } else {
            self.stats.cold_mappings = self.stats.cold_mappings.wrapping_add(1);
        }
        match self.maybe_checkpoint_with(checkpoint_due) {
            Ok(()) => {},
            Err(e) => return Err(e),
        }
        proof {
            if old(self).generations_below_next() && old(self).generation_spec() < u64::MAX {
                let g1 = self.generation;
                let es = old(self).entries();
                let olds = es.filter(overlaps_pred(lba_range));
                assert forall|j: int| 0 <= j < olds.len() implies (#[trigger] olds[j]).1.generation < g1 by {
                    assert(olds.contains(olds[j]));
                    es.lemma_filter_contains_rev(overlaps_pred(lba_range), olds[j]);
                    let i = choose|i: int| 0 <= i < es.len() && es[i] == olds[j];
                    lemma_entry_in_map(es, i);
                }
                lemma_trim_generations(old(self)@, olds, lba_range, g1);
            }
        }
        Ok(lsn)
    }

    /// Inserts a mapping for a Hot Journal write (see `insert_mapping_at`),
    /// logged at the current time.
    pub fn insert_mapping(&mut self, lba_range: LbaRange, location: StripeLocation) -> (r: Result<u64>)
        requires
            old(self).wf(),
        ensures
            r == Ok::<u64, Error>(old(self).wal_next()),
            final(self).wf(),
            final(self)@ == trim_overlaps(
                old(self)@,
                old(self).entries().filter(overlaps_pred(lba_range)),
                lba_range,
            ).insert(lba_range, stamped(location, old(self).generation_spec())),
            final(self).generation_spec() == wadd(old(self).generation_spec(), 1),
            old(self).generations_below_next() && old(self).generation_spec() < u64::MAX ==> final(self).generations_below_next(),
            final(self).config_spec() == old(self).config_spec(),
            final(self).stats_spec() == (MetadataEngineStats {
                inserts: wadd(old(self).stats_spec().inserts, 1),
                hot_mappings: if location.tier == StorageTier::HotJournal {
                    wadd(old(self).stats_spec().hot_mappings, 1)
                } else {
                    old(self).stats_spec().hot_mappings
                },
                cold_mappings: if location.tier == StorageTier::HotJournal {
                    old(self).stats_spec().cold_mappings
                } else {
                    wadd(old(self).stats_spec().cold_mappings, 1)
                },
                ..old(self).stats_spec()
            }),
            exists|timestamp: u64, checkpoint_due: bool|
                #[trigger] logged_then_checkpointed(
                    *old(self),
                    *final(self),
                    logged_entry(
                        old(self).wal_next(),
                        WalEntryType::Insert { lba_range, location: stamped(location, old(self).generation_spec()) },
                        timestamp,
                    ),
                    checkpoint_due,
                ),
    {
        let timestamp = unix_now_secs();
        let checkpoint_due = self.checkpoint_manager.needs_checkpoint();
        self.insert_mapping_at(lba_range, location, timestamp, checkpoint_due)
    }

    /// Switches the mapping of `lba_range` to `new_location` (destaging from
    /// the Hot Journal to the Cold Store), logged at `timestamp`;
    /// `checkpoint_due` says whether the checkpoint interval has passed.
    /// The update goes through only if `lba_range` is mapped and its stored
    /// generation is that of `old_location`; the engine's generation
    /// advances either way.
    pub fn update_mapping_at(
        &mut self,
        lba_range: LbaRange,
        old_location: &StripeLocation,
        new_location: StripeLocation,
        timestamp: u64,
        checkpoint_due: bool,
    ) -> (r: Result<u64>)
        requires
            old(self).wf(),
        ensures
            final(self).wf(),
            final(self).generation_spec() == wadd(old(self).generation_spec(), 1),
            old(self).generations_below_next() && old(self).generation_spec() < u64::MAX ==> final(self).generations_below_next(),
            final(self).config_spec() == old(self).config_spec(),
            !(old(self)@.dom().contains(lba_range) && old(self)@[lba_range].generation == old_location.generation)
                ==> {
                &&& r matches Err(Error::Internal(_))
                &&& final(self).entries() == old(self).entries()
                &&& final(self).wal_log() == old(self).wal_log()
                &&& final(self).ckpt() == old(self).ckpt()
                &&& final(self).dirty() == old(self).dirty()
                &&& final(self).stats_spec() == old(self).stats_spec()
            },
            old(self)@.dom().contains(lba_range) && old(self)@[lba_range].generation == old_location.generation
                ==> {
                &&& r == Ok::<u64, Error>(old(self).wal_next())
                &&& final(self)@ == old(self)@.insert(lba_range, stamped(new_location, old(self).generation_spec()))
                &&& final(self).stats_spec() == (MetadataEngineStats {
                    updates: wadd(old(self).stats_spec().updates, 1),
                    destages: wadd(old(self).stats_spec().destages, 1),
                    hot_mappings: if old_location.tier == StorageTier::HotJournal {
                        wsub(old(self).stats_spec().hot_mappings, 1)
                    } else {
                        old(self).stats_spec().hot_mappings
                    },
                    cold_mappings: wadd(old(self).stats_spec().cold_mappings, 1),
                    ..old(self).stats_spec()
                })
                &&& logged_then_checkpointed(
                    *old(self),
                    *final(self),
                    logged_entry(
                        old(self).wal_next(),
                        WalEntryType::Update {
                            lba_range,
                            old_location: *old_location,
                            new_location: stamped(new_location, old(self).generation_spec()),
                        },
                        timestamp,
                    ),
                    checkpoint_due,
                )
            },
    {
        let new_gen = self.generation;
        self.generation = self.generation.wrapping_add(1);
        let new_location = new_location.with_generation(new_gen);
        match map_get(&self.l2p_map, &lba_range) {
            Some(current) => {
                if current.generation != old_location.generation {
                    return Err(Error::Internal(generation_conflict_message(old_location.generation, current.generation)));
                }
            },
            None => {
                return Err(Error::Internal(range_not_found_message(&lba_range)));
            },
        }
        let lsn = match self.wal.append_at(
            WalEntryType::Update {
                lba_range,
                old_location: old_location.duplicate(),
                new_location: new_location.duplicate(),
            },
            timestamp,
        ) {
            Ok(lsn) => lsn,
            Err(e) => return Err(e),
        };
        map_insert(&mut self.l2p_map, lba_range, new_location);
        self.stats.updates = self.stats.updates.wrapping_add(1);
        self.stats.destages = self.stats.destages.wrapping_add(1);
        self.dirty_count = self.dirty_count.wrapping_add(1);
        if old_location.is_hot() {
            self.stats.hot_mappings = self.stats.hot_mappings.wrapping_sub(1);
        }
        self.stats.cold_mappings = self.stats.cold_mappings.wrapping_add(1);
        match self.maybe_checkpoint_with(checkpoint_due) {
            Ok(()) => {},
            Err(e) => return Err(e),
        }
        Ok(lsn)
    }

    /// Switches the mapping of `lba_range` to `new_location` (see
    /// `update_mapping_at`), logged at the current time.
    pub fn update_mapping(
        &mut self,
        lba_range: LbaRange,
        old_location: &StripeLocation,
        new_location: StripeLocation,
    ) -> (r: Result<u64>)
        requires
            old(self).wf(),
        ensures
            final(self).wf(),
            final(self).generation_spec() == wadd(old(self).generation_spec(), 1),
            old(self).generations_below_next() && old(self).generation_spec() < u64::MAX ==> final(self).generations_below_next(),
            final(self).config_spec() == old(self).config_spec(),
            !(old(self)@.dom().contains(lba_range) && old(self)@[lba_range].generation == old_location.generation)
                ==> {
                &&& r matches Err(Error::Internal(_))
                &&& final(self).entries() == old(self).entries()
                &&& final(self).wal_log() == old(self).wal_log()
                &&& final(self).ckpt() == old(self).ckpt()
                &&& final(self).dirty() == old(self).dirty()
                &&& final(self).stats_spec() == old(self).stats_spec()
            },
            old(self)@.dom().contains(lba_range) && old(self)@[lba_range].generation == old_location.generation
                ==> {
                &&& r == Ok::<u64, Error>(old(self).wal_next())
                &&& final(self)@ == old(self)@.insert(lba_range, stamped(new_location, old(self).generation_spec()))
                &&& final(self).stats_spec() == (MetadataEngineStats {
                    updates: wadd(old(self).stats_spec().updates, 1),
                    destages: wadd(old(self).stats_spec().destages, 1),
                    hot_mappings: if old_location.tier == StorageTier::HotJournal {
                        wsub(old(self).stats_spec().hot_mappings, 1)
                    } else {
                        old(self).stats_spec().hot_mappings
                    },
                    cold_mappings: wadd(old(self).stats_spec().cold_mappings, 1),
                    ..old(self).stats_spec()
                })
                &&& exists|timestamp: u64, checkpoint_due: bool|
                    #[trigger] logged_then_checkpointed(
                        *old(self),
                        *final(self),
                        logged_entry(
                            old(self).wal_next(),
                            WalEntryType::Update {
                                lba_range,
                                old_location: *old_location,
                                new_location: stamped(new_location, old(self).generation_spec()),
                            },
                            timestamp,
                        ),
                        checkpoint_due,
                    )
            },
    {
        let timestamp = unix_now_secs();
        let checkpoint_due = self.checkpoint_manager.needs_checkpoint();
        self.update_mapping_at(lba_range, old_location, new_location, timestamp, checkpoint_due)
    }

    /// Removes the mapping of exactly `lba_range`, logged at `timestamp`.
    pub fn delete_mapping_at(&mut self, lba_range: &LbaRange, timestamp: u64) -> (r: Result<u64>)
        requires
            old(self).wf(),
        ensures
            final(self).wf(),
            final(self).generation_spec() == old(self).generation_spec(),
            old(self).generations_below_next() ==> final(self).generations_below_next(),
            final(self).config_spec() == old(self).config_spec(),
            final(self).ckpt() == old(self).ckpt(),
            !old(self)@.dom().contains(*lba_range) ==> {
                &&& r matches Err(Error::Internal(_))
                &&& final(self).entries() == old(self).entries()
                &&& final(self).wal_log() == old(self).wal_log()
                &&& final(self).dirty() == old(self).dirty()
                &&& final(self).stats_spec() == old(self).stats_spec()
            },
            old(self)@.dom().contains(*lba_range) ==> {
                &&& r == Ok::<u64, Error>(old(self).wal_next())
                &&& final(self)@ == old(self)@.remove(*lba_range)
                &&& final(self).wal_entries() == old(self).wal_entries().push(
                    logged_entry(old(self).wal_next(), WalEntryType::Delete { lba_range: *lba_range }, timestamp),
                )
                &&& final(self).wal_next() == wadd(old(self).wal_next(), 1)
                &&& final(self).dirty() == wadd(old(self).dirty(), 1)
                &&& final(self).stats_spec() == (MetadataEngineStats {
                    deletes: wadd(old(self).stats_spec().deletes, 1),
                    hot_mappings: if old(self)@[*lba_range].tier == StorageTier::HotJournal {
                        wsub(old(self).stats_spec().hot_mappings, 1)
                    } else {
                        old(self).stats_spec().hot_mappings
                    },
                    cold_mappings: if old(self)@[*lba_range].tier == StorageTier::HotJournal {
                        old(self).stats_spec().cold_mappings
                    } else {
                        wsub(old(self).stats_spec().cold_mappings, 1)
                    },
                    ..old(self).stats_spec()
                })
            },
    {
        let old_location = map_get(&self.l2p_map, lba_range);
        let old_location = match old_location {
            Some(loc) => loc,
            None => return Err(Error::Internal(range_not_found_message(lba_range))),
        };
        let lsn = match self.wal.append_at(WalEntryType::Delete { lba_range: *lba_range }, timestamp) {
            Ok(lsn) => lsn,
            Err(e) => return Err(e),
        };
        map_remove(&mut self.l2p_map, lba_range);
        self.stats.deletes = self.stats.deletes.wrapping_add(1);
        self.dirty_count = self.dirty_count.wrapping_add(1);
        if old_location.is_hot() {
            self.stats.hot_mappings = self.stats.hot_mappings.wrapping_sub(1);
        } else {
            self.stats.cold_mappings = self.stats.cold_mappings.wrapping_sub(1);
        }
        Ok(lsn)
    }

    /// Removes the mapping of exactly `lba_range` (see `delete_mapping_at`),
    /// logged at the current time.
    pub fn delete_mapping(&mut self, lba_range: &LbaRange) -> (r: Result<u64>)
        requires
            old(self).wf(),
        ensures
            final(self).wf(),
            final(self).generation_spec() == old(self).generation_spec(),
            old(self).generations_below_next() ==> final(self).generations_below_next(),
            final(self).config_spec() == old(self).config_spec(),
            final(self).ckpt() == old(self).ckpt(),
            !old(self)@.dom().contains(*lba_range) ==> {
                &&& r matches Err(Error::Internal(_))
                &&& final(self).entries() == old(self).entries()
                &&& final(self).wal_log() == old(self).wal_log()
                &&& final(self).dirty() == old(self).dirty()
                &&& final(self).stats_spec() == old(self).stats_spec()
            },
            old(self)@.dom().contains(*lba_range) ==> {
                &&& r == Ok::<u64, Error>(old(self).wal_next())
                &&& final(self)@ == old(self)@.remove(*lba_range)
                &&& final(self).wal_entries().drop_last() == old(self).wal_entries()
                &&& final(self).wal_entries().len() == old(self).wal_entries().len() + 1
                &&& final(self).wal_entries().last().lsn == old(self).wal_next()
                &&& final(self).wal_entries().last().entry_type == (WalEntryType::Delete { lba_range: *lba_range })
                &&& final(self).wal_next() == wadd(old(self).wal_next(), 1)
                &&& final(self).dirty() == wadd(old(self).dirty(), 1)
                &&& final(self).stats_spec() == (MetadataEngineStats {
                    deletes: wadd(old(self).stats_spec().deletes, 1),
                    hot_mappings: if old(self)@[*lba_range].tier == StorageTier::HotJournal {
                        wsub(old(self).stats_spec().hot_mappings, 1)
                    } else {
                        old(self).stats_spec().hot_mappings
                    },
                    cold_mappings: if old(self)@[*lba_range].tier == StorageTier::HotJournal {
                        old(self).stats_spec().cold_mappings
                    } else {
                        wsub(old(self).stats_spec().cold_mappings, 1)
                    },
                    ..old(self).stats_spec()
                })
            },
    {
        let timestamp = unix_now_secs();
        let r = self.delete_mapping_at(lba_range, timestamp);
        proof {
            if old(self)@.dom().contains(*lba_range) {
                assert(self.wal_entries().drop_last() =~= old(self).wal_entries());
            }
        }
        r
    }

    /// Applies one WAL entry to the table.
    fn apply_wal_entry(map: &mut Vec<L2pEntry>, entry: &WalEntry)
        requires
            sorted_entries(old(map)@),
        ensures
            sorted_entries(final(map)@),
            entries_map(final(map)@) == apply_wal_entry_spec(entries_map(old(map)@), *entry),
    {
        match &entry.entry_type {
            WalEntryType::Insert { lba_range, location } => {
                map_insert(map, *lba_range, location.duplicate());
            },
            WalEntryType::Update { lba_range, new_location, .. } => {
                map_insert(map, *lba_range, new_location.duplicate());
            },
            WalEntryType::Delete { lba_range } => {
                map_remove(map, lba_range);
            },
            WalEntryType::Checkpoint { .. } => {},
        }
    }

    /// Rebuilds the table: the latest intact checkpoint's mappings are
    /// restored, then the intact WAL entries after the checkpoint's LSN are
    /// replayed in order; corrupted entries are counted and skipped.
    pub fn recover(&mut self) -> (r: Result<RecoveryInfo>)
        requires
            old(self).wf(),
        ensures
            final(self).wf(),
            r matches Ok(info) && {
                let c = old(self).latest_checkpoint();
                let restored = if c is Some {
                    c->0.mappings@
                } else {
                    Seq::<L2pEntry>::empty()
                };
                let es = entries_above(old(self).wal_entries(), info.checkpoint_lsn);
                &&& info.checkpoint_lsn == (if c is Some {
                    c->0.metadata.lsn
                } else {
                    0
                })
                &&& info.mappings_from_checkpoint == restored.len()
                &&& info.wal_entries_replayed == es.len()
                &&& info.corrupted_entries == es.filter(corrupted_pred()).len()
                &&& final(self)@ == replay_wal(restore_mappings(old(self)@, restored), es)
            },
            final(self).wal_log() == old(self).wal_log(),
            final(self).latest_checkpoint() == old(self).latest_checkpoint(),
            final(self).generation_spec() == old(self).generation_spec(),
            final(self).dirty() == old(self).dirty(),
            final(self).config_spec() == old(self).config_spec(),
            final(self).stats_spec() == old(self).stats_spec(),
    {
        let start = instant_now();
        let mut checkpoint_lsn: u64 = 0;
        let mut mappings_from_checkpoint: usize = 0;
        let ghost m0 = self@;
        let ghost pre = *self;
        let ghost restored = Seq::<L2pEntry>::empty();
        if let Some(checkpoint) = self.checkpoint_manager.load_latest_checkpoint() {
            checkpoint_lsn = checkpoint.metadata.lsn;
            mappings_from_checkpoint = checkpoint.mappings.len();
            proof {
                restored = checkpoint.mappings@;
            }
            let mut i: usize = 0;
            while i < checkpoint.mappings.len()
                invariant
                    0 <= i <= checkpoint.mappings@.len(),
                    sorted_entries(self.l2p_map@),
                    entries_map(self.l2p_map@) == restore_mappings(m0, checkpoint.mappings@.subrange(0, i as int)),
                    self.wal == pre.wal,
                    self.checkpoint_manager.latest() == pre.checkpoint_manager.latest(),
                    self.generation == pre.generation,
                    self.dirty_count == pre.dirty_count,
                    self.config == pre.config,
                    self.stats == pre.stats,
                decreases checkpoint.mappings@.len() - i,
            {
                proof {
                    assert(checkpoint.mappings@.subrange(0, i + 1).drop_last() =~= checkpoint.mappings@.subrange(0, i as int));
                }
                map_insert(&mut self.l2p_map, checkpoint.mappings[i].0, checkpoint.mappings[i].1.duplicate());
                i += 1;
            }
            assert(checkpoint.mappings@.subrange(0, checkpoint.mappings@.len() as int) =~= checkpoint.mappings@);
        } else {
            assert(restore_mappings(m0, restored) == m0);
        }
        let ghost m1 = self@;
        let wal_entries = self.wal.entries_after(checkpoint_lsn);
        let wal_entries_replayed = wal_entries.len();
        let mut corrupted_entries: usize = 0;
        let mut j: usize = 0;
        while j < wal_entries.len()
            invariant
                0 <= j <= wal_entries@.len(),
                sorted_entries(self.l2p_map@),
                entries_map(self.l2p_map@) == replay_wal(m1, wal_entries@.subrange(0, j as int)),
                corrupted_entries == wal_entries@.subrange(0, j as int).filter(corrupted_pred()).len(),
                corrupted_entries <= j,
                self.wal == pre.wal,
                self.checkpoint_manager.latest() == pre.checkpoint_manager.latest(),
                self.generation == pre.generation,
                self.dirty_count == pre.dirty_count,
                self.config == pre.config,
                self.stats == pre.stats,
            decreases wal_entries@.len() - j,
        {
            let ghost prefix = wal_entries@.subrange(0, j + 1);
            proof {
                reveal(Seq::filter);
                assert(prefix.drop_last() =~= wal_entries@.subrange(0, j as int));
                assert(prefix.last() == wal_entries@[j as int]);
            }
            if !wal_entries[j].verify_checksum() {
                corrupted_entries += 1;
            } else {
                Self::apply_wal_entry(&mut self.l2p_map, &wal_entries[j]);
            }
            j += 1;
        }
        assert(wal_entries@.subrange(0, wal_entries@.len() as int) =~= wal_entries@);
        let recovery_time_ms = elapsed_millis(&start);
        self.checkpoint_manager.stats.recovery_time_ms = recovery_time_ms;
        Ok(RecoveryInfo {
            checkpoint_lsn,
            mappings_from_checkpoint,
            wal_entries_replayed,
            corrupted_entries,
            recovery_time_ms,
        })
    }

    /// Engine statistics.
    pub fn stats(&self) -> (r: &MetadataEngineStats)
        ensures
            *r == self.stats_spec(),
    {
        &self.stats
    }

    /// WAL statistics.
    pub fn wal_stats(&self) -> (r: &WalStats)
        ensures
            *r == self.wal_log().stats_spec(),
    {
        self.wal.stats()
    }

    /// Checkpoint statistics.
    pub fn checkpoint_stats(&self) -> (r: &CheckpointStats)
        ensures
            *r == self.ckpt().stats_spec(),
    {
        self.checkpoint_manager.stats()
    }

    /// Number of mappings in the table.
    pub fn mapping_count(&self) -> (r: usize)
        ensures
            r == self.entries().len(),
    {
        self.l2p_map.len()
    }

    /// Number of mappings in the Hot Journal and in the Cold Store.
    pub fn mappings_by_tier(&self) -> (r: (usize, usize))
        ensures
            r.0 == self.entries().filter(tier_pred(StorageTier::HotJournal)).len(),
            r.1 == self.entries().filter(tier_pred(StorageTier::ColdStore)).len(),
    {
        let mut hot: usize = 0;
        let mut cold: usize = 0;
        let mut i: usize = 0;
        while i < self.l2p_map.len()
            invariant
                0 <= i <= self.l2p_map@.len(),
                hot == self.l2p_map@.subrange(0, i as int).filter(tier_pred(StorageTier::HotJournal)).len(),
                cold == self.l2p_map@.subrange(0, i as int).filter(tier_pred(StorageTier::ColdStore)).len(),
                hot + cold == i,
            decreases self.l2p_map@.len() - i,
        {
            proof {
                lemma_filter_push(self.l2p_map@.subrange(0, i as int), self.l2p_map@[i as int], tier_pred(StorageTier::HotJournal));
                lemma_filter_push(self.l2p_map@.subrange(0, i as int), self.l2p_map@[i as int], tier_pred(StorageTier::ColdStore));
                assert(self.l2p_map@.subrange(0, i + 1) =~= self.l2p_map@.subrange(0, i as int).push(self.l2p_map@[i as int]));
            }
            if self.l2p_map[i].1.is_hot() {
                hot += 1;
            } else {
                cold += 1;
            }
            i += 1;
        }
        assert(self.l2p_map@.subrange(0, self.l2p_map@.len() as int) =~= self.l2p_map@);
        (hot, cold)
    }
}

/// Mappings whose location lies in tier `t`.
pub open spec fn tier_pred(t: StorageTier) -> spec_fn(L2pEntry) -> bool {
    |e: L2pEntry| e.1.tier == t
}

// =============================================================================
// Laws of the metadata engine
// =============================================================================

/// Every range of the map holds at least one LBA.
pub open spec fn ranges_nonempty(m: Map<LbaRange, StripeLocation>) -> bool {
    forall|k: LbaRange| #[trigger] m.dom().contains(k) ==> k.start < k.end
}

/// A point lookup right after an insert: in a table whose ranges are all
/// non-empty, once a non-empty range is inserted, looking up any LBA of it
/// finds that range and the location stored with it.
pub proof fn law_lookup_after_insert(engine: MetadataEngine, r: LbaRange, v: StripeLocation, lba: u64)
    requires
        engine.wf(),
        ranges_nonempty(engine@),
        r.start <= lba < r.end,
    ensures
        floor_lookup(
            trim_overlaps(engine@, engine.entries().filter(overlaps_pred(r)), r).insert(r, v),
            lba,
        ) == Some((r, v)),
{
    let s = engine.entries();
    let olds = s.filter(overlaps_pred(r));
    let t = trim_overlaps(engine@, olds, r);
    let m = t.insert(r, v);
    assert forall|k2: LbaRange| #[trigger] m.dom().contains(k2) && k2.start <= lba implies !range_lt(r, k2) by {
        if k2 != r {
            lemma_trim_keys(engine@, olds, r, k2);
            if engine@.dom().contains(k2) && forall|j: int| 0 <= j < olds.len() ==> (#[trigger] olds[j]).0 != k2 {
                if ranges_overlap(k2, r) {
                    let i = lemma_map_key_index(s, k2);
                    s.lemma_filter_contains(overlaps_pred(r), i);
                    let j = choose|j: int| 0 <= j < olds.len() && olds[j] == s[i];
                    assert(olds[j].0 == k2);
                }
            }
        }
    }
    assert(is_floor_range(m, lba, r));
    let k = choose|k: LbaRange| is_floor_range(m, lba, k);
    assert(!range_lt(k, r) && !range_lt(r, k));
    assert(k == r);
}

/// A destage with a stale location conflicts: in an engine whose stored
/// generations are all below its next generation, once an update has
/// stored a new generation for a range, a second update that still expects
/// the replaced generation is refused.
pub proof fn law_stale_update_conflicts(
    before: MetadataEngine,
    after: MetadataEngine,
    r: LbaRange,
    stale: StripeLocation,
    new_location: StripeLocation,
)
    requires
        before.wf(),
        before.generations_below_next(),
        before@.dom().contains(r),
        before@[r].generation == stale.generation,
        after@ == before@.insert(r, stamped(new_location, before.generation_spec())),
    ensures
        !(after@.dom().contains(r) && after@[r].generation == stale.generation),
{
}

/// Trimming overlaps keeps generations below `g` when the map's and the
/// trimmed entries' generations are.
proof fn lemma_trim_generations(m: Map<LbaRange, StripeLocation>, olds: Seq<L2pEntry>, r: LbaRange, g: u64)
    requires
        forall|k: LbaRange| #[trigger] m.dom().contains(k) ==> m[k].generation < g,
        forall|j: int| 0 <= j < olds.len() ==> (#[trigger] olds[j]).1.generation < g,
    ensures
        forall|k: LbaRange|
            #[trigger] trim_overlaps(m, olds, r).dom().contains(k) ==> trim_overlaps(m, olds, r)[k].generation < g,
    decreases olds.len(),
{
    if olds.len() > 0 {
        lemma_trim_generations(m, olds.drop_last(), r, g);
        assert(olds.drop_last().len() < olds.len());
        let e = olds.last();
        assert(e.1.generation < g);
    }
}

/// Restoring a sorted table's own entries into its map changes nothing.
pub proof fn lemma_restore_own_entries(s: Seq<L2pEntry>, i: int)
    requires
        sorted_entries(s),
        0 <= i <= s.len(),
    ensures
        restore_mappings(entries_map(s), s.subrange(0, i)) == entries_map(s),
    decreases i,
{
    if i > 0 {
        lemma_restore_own_entries(s, i - 1);
        assert(s.subrange(0, i).drop_last() =~= s.subrange(0, i - 1));
        lemma_entry_in_map(s, i - 1);
        assert(entries_map(s).insert(s[i - 1].0, s[i - 1].1) =~= entries_map(s));
    }
}

/// Recovery right after a checkpoint gives back the table: the checkpoint
/// holds the table's entries, and the log, truncated at the checkpoint's
/// sequence number, holds nothing newer to replay (when every logged entry
/// is older than the log's next sequence number).
pub proof fn law_recover_after_checkpoint(engine: MetadataEngine)
    requires
        engine.wf(),
        forall|i: int| 0 <= i < engine.wal_entries().len() ==> (#[trigger] engine.wal_entries()[i]).lsn < engine.wal_next(),
    ensures
        replay_wal(
            restore_mappings(engine@, engine.entries()),
            entries_above(entries_above(engine.wal_entries(), engine.wal_next()), engine.wal_next()),
        ) == engine@,
{
    let w = engine.wal_entries();
    let l = engine.wal_next();
    lemma_filter_none(w, |e: WalEntry| e.lsn > l);
    assert(entries_above(w, l) == Seq::<WalEntry>::empty());
    lemma_filter_none(Seq::<WalEntry>::empty(), |e: WalEntry| e.lsn > l);
    lemma_restore_own_entries(engine.entries(), engine.entries().len() as int);
    assert(engine.entries().subrange(0, engine.entries().len() as int) =~= engine.entries());
}

/// The ranges of the map are non-empty and pairwise disjoint.
pub open spec fn disjoint_ranges(m: Map<LbaRange, StripeLocation>) -> bool {
    &&& ranges_nonempty(m)
    &&& forall|a: LbaRange, b: LbaRange|
        #![trigger m.dom().contains(a), m.dom().contains(b)]
        m.dom().contains(a) && m.dom().contains(b) && a != b ==> !ranges_overlap(a, b)
}

/// A range of the map after inserting `r`, other than `r`: an old range
/// that does not overlap `r`, or a piece of an old range beside `r`.
proof fn lemma_inserted_map_key(engine: MetadataEngine, r: LbaRange, k: LbaRange) -> (e: LbaRange)
    requires
        engine.wf(),
        trim_overlaps(engine@, engine.entries().filter(overlaps_pred(r)), r).dom().contains(k),
    ensures
        engine@.dom().contains(e),
        (k == e && !ranges_overlap(k, r)) || (is_piece(k, e, r) && ranges_overlap(e, r)),
{
    let s = engine.entries();
    let olds = s.filter(overlaps_pred(r));
    lemma_trim_origin(engine@, olds, r, k);
    if engine@.dom().contains(k) && forall|j: int| 0 <= j < olds.len() ==> (#[trigger] olds[j]).0 != k {
        if ranges_overlap(k, r) {
            let i = lemma_map_key_index(s, k);
            s.lemma_filter_contains(overlaps_pred(r), i);
            let j = choose|j: int| 0 <= j < olds.len() && olds[j] == s[i];
            assert(olds[j].0 == k);
        }
        k
    } else {
        let j = choose|j: int| 0 <= j < olds.len() && is_piece(k, (#[trigger] olds[j]).0, r);
        s.lemma_filter_pred(overlaps_pred(r), j);
        assert(olds.contains(olds[j]));
        s.lemma_filter_contains_rev(overlaps_pred(r), olds[j]);
        let i = choose|i: int| 0 <= i < s.len() && s[i] == olds[j];
        lemma_entry_in_map(s, i);
        olds[j].0
    }
}

/// Inserting keeps the ranges disjoint: if the table's ranges are non-empty
/// and pairwise disjoint, they still are after a non-empty range is
/// inserted, since every older range overlapping it is cut back.
pub proof fn law_insert_keeps_ranges_disjoint(engine: MetadataEngine, r: LbaRange, v: StripeLocation)
    requires
        engine.wf(),
        disjoint_ranges(engine@),
        r.start < r.end,
    ensures
        disjoint_ranges(trim_overlaps(engine@, engine.entries().filter(overlaps_pred(r)), r).insert(r, v)),
{
    let t = trim_overlaps(engine@, engine.entries().filter(overlaps_pred(r)), r);
    let m = t.insert(r, v);
    assert forall|k: LbaRange| #[trigger] m.dom().contains(k) implies k.start < k.end by {
        if k != r {
            let e = lemma_inserted_map_key(engine, r, k);
        }
    }
    assert forall|a: LbaRange, b: LbaRange|
        #![trigger m.dom().contains(a), m.dom().contains(b)]
        m.dom().contains(a) && m.dom().contains(b) && a != b implies !ranges_overlap(a, b) by {
        if a == r {
            let eb = lemma_inserted_map_key(engine, r, b);
        } else if b == r {
            let ea = lemma_inserted_map_key(engine, r, a);
        } else {
            let ea = lemma_inserted_map_key(engine, r, a);
            let eb = lemma_inserted_map_key(engine, r, b);
            if ea != eb {
                assert(!ranges_overlap(ea, eb));
            }
        }
    }
}

} // verus!
