//! Block devices for erasure-coded shard storage: device information, I/O
//! statistics, device handles that keep their blocks in memory, a manager
//! of devices and handles, and a helper that reads and writes shards.

use vstd::prelude::*;

use super::DmaBuf;
use crate::clock::{elapsed_micros, elapsed_millis, instant_now};
use crate::error::{Error, Result};

verus! {

broadcast use vstd::std_specs::hash::group_hash_axioms;

// =============================================================================
// Native handle types
// =============================================================================

/// Opaque native bdev descriptor; its values come only from the native
/// library.
pub enum SpkdBdevDesc {
    Native,
}

/// Opaque native I/O channel; its values come only from the native library.
pub enum SpdkIoChannel {
    Native,
}

/// Opaque native bdev; its values come only from the native library.
pub enum SpdkBdev {
    Native,
}

// =============================================================================
// Configuration
// =============================================================================

/// Configuration for the bdev manager.
#[derive(Debug, Clone, Copy, PartialEq, Eq)]
pub struct BdevConfig {
    /// Maximum concurrent I/O operations per device
    pub max_io_per_device: usize,
    /// I/O timeout, in milliseconds
    pub io_timeout_ms: u64,
    /// Whether to use write-through (sync after each write)
    pub write_through: bool,
    /// Number of I/O channels to pool per device
    pub io_channels_per_device: usize,
    /// Enable I/O statistics collection
    pub collect_stats: bool,
    /// Retry count for failed I/O operations
    pub retry_count: u32,
    /// Delay between retries, in milliseconds
    pub retry_delay_ms: u64,
}

impl Default for BdevConfig {
    fn default() -> (r: Self)
        ensures
            r == (BdevConfig {
                max_io_per_device: 64,
                io_timeout_ms: 30_000,
                write_through: false,
                io_channels_per_device: 4,
                collect_stats: true,
                retry_count: 3,
                retry_delay_ms: 100,
            }),
    {
        BdevConfig {
            max_io_per_device: 64,
            io_timeout_ms: 30_000,
            write_through: false,
            io_channels_per_device: 4,
            collect_stats: true,
            retry_count: 3,
            retry_delay_ms: 100,
        }
    }
}

// =============================================================================
// Device Information
// =============================================================================

/// Information about a block device.
#[derive(Debug, Clone)]
pub struct BdevInfo {
    /// Device name
    pub name: String,
    /// Block size in bytes
    pub block_size: u32,
    /// Total number of blocks
    pub num_blocks: u64,
    /// Total size in bytes
    pub size_bytes: u64,
    /// Device type (NVMe, AIO, etc.)
    pub device_type: String,
    /// Whether device is currently open
    pub is_open: bool,
    /// Storage tier label
    pub tier: Option<String>,
}

impl BdevInfo {
    /// Information for a closed device of `num_blocks` blocks of
    /// `block_size` bytes.
    pub fn new(name: &str, block_size: u32, num_blocks: u64) -> (r: BdevInfo)
        requires
            block_size * num_blocks <= u64::MAX,
        ensures
            r.name@ == name@,
            r.block_size == block_size,
            r.num_blocks == num_blocks,
            r.size_bytes == block_size * num_blocks,
            r.device_type@ == "unknown"@,
            !r.is_open,
            r.tier is None,
    {
        BdevInfo {
            name: name.to_owned(),
            block_size,
            num_blocks,
            size_bytes: block_size as u64 * num_blocks,
            device_type: "unknown".to_owned(),
            is_open: false,
            tier: None,
        }
    }
}

// =============================================================================
// I/O Statistics
// =============================================================================

/// I/O statistics for a device.
#[derive(Debug, Clone, Copy, PartialEq, Eq, Default)]
pub struct IoStats {
    /// Total read operations
    pub reads: u64,
    /// Total write operations
    pub writes: u64,
    /// Total bytes read
    pub bytes_read: u64,
    /// Total bytes written
    pub bytes_written: u64,
    /// Read errors
    pub read_errors: u64,
    /// Write errors
    pub write_errors: u64,
    /// Total read latency (microseconds)
    pub read_latency_us: u64,
    /// Total write latency (microseconds)
    pub write_latency_us: u64,
}

/// 64-bit wrapping addition, as the counters use.
pub open spec fn add_w(a: u64, b: u64) -> u64 {
    vstd::wrapping::u64_specs::wrapping_add(a, b)
}

/// All I/O counters at zero.
pub open spec fn zero_io_stats() -> IoStats {
    IoStats {
        reads: 0,
        writes: 0,
        bytes_read: 0,
        bytes_written: 0,
        read_errors: 0,
        write_errors: 0,
        read_latency_us: 0,
        write_latency_us: 0,
    }
}

/// The statistics after recording a read.
pub open spec fn after_read(s: IoStats, bytes: u64, latency_us: u64, success: bool) -> IoStats {
    if success {
        IoStats {
            reads: add_w(s.reads, 1),
            bytes_read: add_w(s.bytes_read, bytes),
            read_latency_us: add_w(s.read_latency_us, latency_us),
            ..s
        }
    } else {
        IoStats { read_errors: add_w(s.read_errors, 1), ..s }
    }
}

/// The statistics after recording a write.
pub open spec fn after_write(s: IoStats, bytes: u64, latency_us: u64, success: bool) -> IoStats {
    if success {
        IoStats {
            writes: add_w(s.writes, 1),
            bytes_written: add_w(s.bytes_written, bytes),
            write_latency_us: add_w(s.write_latency_us, latency_us),
            ..s
        }
    } else {
        IoStats { write_errors: add_w(s.write_errors, 1), ..s }
    }
}

impl IoStats {
    /// All counters at zero.
    pub fn new() -> (r: IoStats)
        ensures
            r == zero_io_stats(),
    {
        IoStats {
            reads: 0,
            writes: 0,
            bytes_read: 0,
            bytes_written: 0,
            read_errors: 0,
            write_errors: 0,
            read_latency_us: 0,
            write_latency_us: 0,
        }
    }

    /// Records a read of `bytes` bytes that took `latency_us` microseconds.
    pub fn record_read(&mut self, bytes: u64, latency_us: u64, success: bool)
        ensures
            *final(self) == after_read(*old(self), bytes, latency_us, success),
    {
        if success {
            self.reads = self.reads.wrapping_add(1);
            self.bytes_read = self.bytes_read.wrapping_add(bytes);
            self.read_latency_us = self.read_latency_us.wrapping_add(latency_us);
        } else {
            self.read_errors = self.read_errors.wrapping_add(1);
        }
    }

    /// Records a write of `bytes` bytes that took `latency_us` microseconds.
    pub fn record_write(&mut self, bytes: u64, latency_us: u64, success: bool)
        ensures
            *final(self) == after_write(*old(self), bytes, latency_us, success),
    {
        if success {
            self.writes = self.writes.wrapping_add(1);
            self.bytes_written = self.bytes_written.wrapping_add(bytes);
            self.write_latency_us = self.write_latency_us.wrapping_add(latency_us);
        } else {
            self.write_errors = self.write_errors.wrapping_add(1);
        }
    }

    /// Average read latency in microseconds (0 before any read).
    pub fn avg_read_latency(&self) -> (r: u64)
        ensures
            r == if self.reads == 0 {
                0
            } else {
                self.read_latency_us / self.reads
            },
    {
        if self.reads == 0 {
            return 0;
        }
        self.read_latency_us / self.reads
    }

    /// Average write latency in microseconds (0 before any write).
    pub fn avg_write_latency(&self) -> (r: u64)
        ensures
            r == if self.writes == 0 {
                0
            } else {
                self.write_latency_us / self.writes
            },
    {
        if self.writes == 0 {
            return 0;
        }
        self.write_latency_us / self.writes
    }

    /// Sets every counter to zero.
    pub fn reset(&mut self)
        ensures
            *final(self) == zero_io_stats(),
    {
        *self = IoStats::new();
    }
}

// =============================================================================
// I/O Request
// =============================================================================

/// Type of I/O operation.
#[derive(Debug, Clone, Copy, PartialEq, Eq, Structural)]
pub enum IoType {
    Read,
    Write,
    Flush,
}

impl IoType {
    /// Name of the operation.
    pub fn to_string(&self) -> (r: String)
        ensures
            r@ == match *self {
                IoType::Read => "read"@,
                IoType::Write => "write"@,
                IoType::Flush => "flush"@,
            },
    {
        match self {
            IoType::Read => "read".to_owned(),
            IoType::Write => "write".to_owned(),
            IoType::Flush => "flush".to_owned(),
        }
    }
}

/// Result of an I/O operation.
#[derive(Debug)]
pub struct IoResult {
    /// Operation type
    pub io_type: IoType,
    /// Whether the operation succeeded
    pub success: bool,
    /// Bytes transferred
    pub bytes: u64,
    /// Operation latency, in microseconds
    pub latency_us: u64,
    /// Error message if failed
    pub error: Option<String>,
}

impl IoResult {
    /// A successful result.
    pub fn success(io_type: IoType, bytes: u64, latency_us: u64) -> (r: IoResult)
        ensures
            r.io_type == io_type,
            r.success,
            r.bytes == bytes,
            r.latency_us == latency_us,
            r.error is None,
    {
        IoResult { io_type, success: true, bytes, latency_us, error: None }
    }

    /// A failed result carrying `error`.
    pub fn failure(io_type: IoType, error: String) -> (r: IoResult)
        ensures
            r.io_type == io_type,
            !r.success,
            r.bytes == 0,
            r.latency_us == 0,
            r.error == Some(error),
    {
        IoResult { io_type, success: false, bytes: 0, latency_us: 0, error: Some(error) }
    }
}

// =============================================================================
// Device Handle
// =============================================================================

/// Whether `offset` is a multiple of the block size (only 0 is, for a
/// block size of 0).
pub open spec fn block_aligned(offset: u64, block_size: u32) -> bool {
    if block_size == 0 {
        offset == 0
    } else {
        offset % (block_size as u64) == 0
    }
}

/// The bytes a read of `len` bytes at a location returns, given what the
/// location holds and what the buffer held: the stored bytes over the
/// start of the buffer, or zeros where nothing was written.
pub open spec fn read_bytes(stored: Option<Seq<u8>>, buf: Seq<u8>) -> Seq<u8> {
    match stored {
        Some(d) => if d.len() < buf.len() {
            d + buf.subrange(d.len() as int, buf.len() as int)
        } else {
            d.subrange(0, buf.len() as int)
        },
        None => Seq::new(buf.len(), |i: int| 0u8),
    }
}

/// Handle to an open block device; written blocks are kept in memory by
/// offset.
#[derive(Debug)]
pub struct BdevHandle {
    name: String,
    info: BdevInfo,
    config: BdevConfig,
    stats: IoStats,
    storage: std::collections::HashMap<u64, Vec<u8>>,
}

impl BdevHandle {
    /// The device name.
    pub closed spec fn name_spec(&self) -> Seq<char> {
        self.name@
    }

    /// The device information.
    pub closed spec fn info_spec(&self) -> BdevInfo {
        self.info
    }

    /// The I/O statistics.
    pub closed spec fn stats_spec(&self) -> IoStats {
        self.stats
    }

    /// What is stored at each written offset.
    pub closed spec fn stored(&self) -> Map<u64, Seq<u8>> {
        self.storage@.map_values(|v: Vec<u8>| v@)
    }

    /// A handle on an empty device.
    fn new_mock(name: &str, block_size: u32, num_blocks: u64, config: BdevConfig) -> (r: BdevHandle)
        requires
            block_size * num_blocks <= u64::MAX,
        ensures
            r.name_spec() == name@,
            r.info_spec().name@ == name@,
            r.info_spec().block_size == block_size,
            r.info_spec().size_bytes == block_size * num_blocks,
            r.stats_spec() == zero_io_stats(),
            r.stored() == Map::<u64, Seq<u8>>::empty(),
    {
        let info = BdevInfo::new(name, block_size, num_blocks);
        let h = BdevHandle {
            name: name.to_owned(),
            info,
            config,
            stats: IoStats::new(),
            storage: std::collections::HashMap::new(),
        };
        assert(h.stored() =~= Map::<u64, Seq<u8>>::empty());
        h
    }

    /// The device name.
    pub fn name(&self) -> (r: &str)
        ensures
            r@ == self.name_spec(),
    {
        self.name.as_str()
    }

    /// The device information.
    pub fn info(&self) -> (r: &BdevInfo)
        ensures
            *r == self.info_spec(),
    {
        &self.info
    }

    /// The I/O statistics.
    pub fn stats(&self) -> (r: IoStats)
        ensures
            r == self.stats_spec(),
    {
        self.stats
    }

    /// Reads into `buf` at `offset`: the offset must be block-aligned and
    /// the read must stay within the device. Bytes written at that offset
    /// are copied over the start of the buffer; an unwritten offset reads
    /// as zeros.
    pub fn read(&mut self, offset: u64, buf: &mut DmaBuf) -> (r: Result<IoResult>)
        requires
            offset + old(buf)@.len() <= u64::MAX,
        ensures
            final(self).name_spec() == old(self).name_spec(),
            final(self).info_spec() == old(self).info_spec(),
            final(self).stored() == old(self).stored(),
            r is Ok <==> (block_aligned(offset, old(self).info_spec().block_size) && offset + old(buf)@.len()
                <= old(self).info_spec().size_bytes),
            r matches Err(e) ==> e is SpdkBdevError && final(self).stats_spec() == old(self).stats_spec()
                && final(buf)@ == old(buf)@,
            r matches Ok(res) ==> {
                &&& final(buf)@ == read_bytes(
                    if old(self).stored().contains_key(offset) {
                        Some(old(self).stored()[offset])
                    } else {
                        None
                    },
                    old(buf)@,
                )
                &&& res.io_type == IoType::Read
                &&& res.success
                &&& res.bytes == old(buf)@.len()
                &&& res.error is None
                &&& final(self).stats_spec() == after_read(old(self).stats_spec(), res.bytes, res.latency_us, true)
            },
    {
        let start = instant_now();
        let bytes = buf.len() as u64;
        let bs = self.info.block_size as u64;
        if !offset.is_multiple_of(bs) {
            return Err(Error::SpdkBdevError(misaligned_message(offset, self.info.block_size)));
        }
        if offset + bytes > self.info.size_bytes {
            return Err(Error::SpdkBdevError(out_of_bounds_message("read", offset, bytes, self.info.size_bytes)));
        }
        match self.storage.get(&offset) {
            Some(data) => {
                let n = if data.len() < buf.len() {
                    data.len()
                } else {
                    buf.len()
                };
                let ghost before = buf@;
                buf.write_bytes(0, data.as_slice(), 0, n);
                proof {
                    assert(self.stored()[offset] == data@);
                    if data@.len() < before.len() {
                        assert(buf@ =~= data@ + before.subrange(data@.len() as int, before.len() as int));
                    } else {
                        assert(buf@ =~= data@.subrange(0, before.len() as int));
                    }
                }
            },
            None => {
                buf.zero();
                proof {
                    assert(!self.stored().contains_key(offset));
                    assert(buf@ =~= Seq::new(buf@.len(), |i: int| 0u8));
                }
            },
        }
        let latency = elapsed_micros(&start);
        self.stats.record_read(bytes, latency, true);
        Ok(IoResult::success(IoType::Read, bytes, latency))
    }

    /// Writes `buf` at `offset`: the offset must be block-aligned and the
    /// write must stay within the device; the bytes replace what the offset
    /// held.
    pub fn write(&mut self, offset: u64, buf: &DmaBuf) -> (r: Result<IoResult>)
        requires
            offset + buf@.len() <= u64::MAX,
        ensures
            final(self).name_spec() == old(self).name_spec(),
            final(self).info_spec() == old(self).info_spec(),
            r is Ok <==> (block_aligned(offset, old(self).info_spec().block_size) && offset + buf@.len()
                <= old(self).info_spec().size_bytes),
            r matches Err(e) ==> e is SpdkBdevError && final(self).stats_spec() == old(self).stats_spec()
                && final(self).stored() == old(self).stored(),
            r matches Ok(res) ==> {
                &&& final(self).stored() == old(self).stored().insert(offset, buf@)
                &&& res.io_type == IoType::Write
                &&& res.success
                &&& res.bytes == buf@.len()
                &&& res.error is None
                &&& final(self).stats_spec() == after_write(old(self).stats_spec(), res.bytes, res.latency_us, true)
            },
    {
        let start = instant_now();
        let bytes = buf.len() as u64;
        let bs = self.info.block_size as u64;
        if !offset.is_multiple_of(bs) {
            return Err(Error::SpdkBdevError(misaligned_message(offset, self.info.block_size)));
        }
        if offset + bytes > self.info.size_bytes {
            return Err(
                Error::SpdkBdevError(out_of_bounds_message("write", offset, bytes, self.info.size_bytes)),
            );
        }
        self.storage.insert(offset, buf.to_vec());
        proof {
            assert(self.stored() =~= old(self).stored().insert(offset, buf@));
        }
        let latency = elapsed_micros(&start);
        self.stats.record_write(bytes, latency, true);
        Ok(IoResult::success(IoType::Write, bytes, latency))
    }

    /// Flushes device caches (nothing to do for in-memory blocks).
    pub fn flush(&self) -> (r: Result<IoResult>)
        ensures
            r matches Ok(res) && res.io_type == IoType::Flush && res.success && res.bytes == 0 && res.error is None,
    {
        let start = instant_now();
        let latency = elapsed_micros(&start);
        Ok(IoResult::success(IoType::Flush, 0, latency))
    }

    /// Writes each (offset, buffer) pair in order; one result per write.
    pub fn write_batch(&mut self, writes: Vec<(u64, DmaBuf)>) -> (r: Vec<Result<IoResult>>)
        requires
            forall|i: int| 0 <= i < writes@.len() ==> #[trigger] writes@[i].0 + writes@[i].1@.len() <= u64::MAX,
        ensures
            r@.len() == writes@.len(),
            final(self).name_spec() == old(self).name_spec(),
            final(self).info_spec() == old(self).info_spec(),
            forall|i: int|
                0 <= i < writes@.len() ==> ((#[trigger] r@[i]) is Ok <==> (block_aligned(
                    writes@[i].0,
                    old(self).info_spec().block_size,
                ) && writes@[i].0 + writes@[i].1@.len() <= old(self).info_spec().size_bytes)),
    {
        let mut results: Vec<Result<IoResult>> = Vec::new();
        let n = writes.len();
        let mut i: usize = 0;
        while i < n
            invariant
                n == writes@.len(),
                0 <= i <= n,
                results@.len() == i,
                self.name_spec() == old(self).name_spec(),
                self.info_spec() == old(self).info_spec(),
                forall|j: int| 0 <= j < writes@.len() ==> #[trigger] writes@[j].0 + writes@[j].1@.len() <= u64::MAX,
                forall|j: int|
                    0 <= j < i ==> ((#[trigger] results@[j]) is Ok <==> (block_aligned(
                        writes@[j].0,
                        old(self).info_spec().block_size,
                    ) && writes@[j].0 + writes@[j].1@.len() <= old(self).info_spec().size_bytes)),
            decreases n - i,
        {
            let res = self.write(writes[i].0, &writes[i].1);
            results.push(res);
            i += 1;
        }
        results
    }

    /// Reads each (offset, size) pair in order into a new zeroed buffer;
    /// one result per read.
    pub fn read_batch(&mut self, reads: Vec<(u64, usize)>) -> (r: Vec<Result<(DmaBuf, IoResult)>>)
        requires
            forall|i: int| 0 <= i < reads@.len() ==> #[trigger] reads@[i].0 + reads@[i].1 <= u64::MAX,
        ensures
            r@.len() == reads@.len(),
            final(self).name_spec() == old(self).name_spec(),
            final(self).info_spec() == old(self).info_spec(),
            final(self).stored() == old(self).stored(),
            forall|i: int|
                0 <= i < reads@.len() ==> ((#[trigger] r@[i]) is Ok <==> (reads@[i].1 > 0 && block_aligned(
                    reads@[i].0,
                    old(self).info_spec().block_size,
                ) && reads@[i].0 + reads@[i].1 <= old(self).info_spec().size_bytes)),
            forall|i: int|
                0 <= i < reads@.len() ==> (#[trigger] r@[i] matches Ok((b, _)) ==> b@ == read_bytes(
                    if old(self).stored().contains_key(reads@[i].0) {
                        Some(old(self).stored()[reads@[i].0])
                    } else {
                        None
                    },
                    Seq::new(reads@[i].1 as nat, |k: int| 0u8),
                )),
    {
        let mut results: Vec<Result<(DmaBuf, IoResult)>> = Vec::new();
        let n = reads.len();
        let mut i: usize = 0;
        while i < n
            invariant
                n == reads@.len(),
                0 <= i <= n,
                results@.len() == i,
                self.name_spec() == old(self).name_spec(),
                self.info_spec() == old(self).info_spec(),
                self.stored() == old(self).stored(),
                forall|j: int| 0 <= j < reads@.len() ==> #[trigger] reads@[j].0 + reads@[j].1 <= u64::MAX,
                forall|j: int|
                    0 <= j < i ==> ((#[trigger] results@[j]) is Ok <==> (reads@[j].1 > 0 && block_aligned(
                        reads@[j].0,
                        old(self).info_spec().block_size,
                    ) && reads@[j].0 + reads@[j].1 <= old(self).info_spec().size_bytes)),
                forall|j: int|
                    0 <= j < i ==> (#[trigger] results@[j] matches Ok((b, _)) ==> b@ == read_bytes(
                        if old(self).stored().contains_key(reads@[j].0) {
                            Some(old(self).stored()[reads@[j].0])
                        } else {
                            None
                        },
                        Seq::new(reads@[j].1 as nat, |k: int| 0u8),
                    )),
            decreases n - i,
        {
            let offset = reads[i].0;
            let size = reads[i].1;
            let res = match DmaBuf::new_zeroed(size) {
                Ok(b) => {
                    let mut b = b;
                    proof {
                        assert(b@ =~= Seq::new(size as nat, |k: int| 0u8));
                    }
                    match self.read(offset, &mut b) {
                        Ok(io) => Ok((b, io)),
                        Err(e) => Err(e),
                    }
                },
                Err(e) => Err(e),
            };
            results.push(res);
            i += 1;
        }
        results
    }
}

/// Message of a misaligned offset (`format!`).
#[verifier::external_body]
fn misaligned_message(offset: u64, block_size: u32) -> String {
    format!("offset {} not aligned to block size {}", offset, block_size)
}

/// Message of an access beyond the device (`format!`).
#[verifier::external_body]
fn out_of_bounds_message(op: &str, offset: u64, bytes: u64, size: u64) -> String {
    format!("{} at offset {} + {} bytes exceeds device size {}", op, offset, bytes, size)
}

/// Message of an unknown device (`format!`).
#[verifier::external_body]
fn device_not_found_message(name: &str) -> String {
    format!("device not found: {}", name)
}

/// Message of a device that is not open (`format!`).
#[verifier::external_body]
fn device_not_open_message(name: &str) -> String {
    format!("device not open: {}", name)
}

/// Reading back what was just written at an offset gives the written bytes
/// (for a buffer of the same length).
pub proof fn law_read_after_write(stored: Map<u64, Seq<u8>>, offset: u64, written: Seq<u8>, buf: Seq<u8>)
    requires
        buf.len() == written.len(),
    ensures
        read_bytes(Some(stored.insert(offset, written)[offset]), buf) == written,
{
    assert(written.subrange(0, buf.len() as int) =~= written);
}

// =============================================================================
// Bdev Manager
// =============================================================================

/// Index of the device information named `name`, if any.
pub open spec fn device_index(devices: Seq<BdevInfo>, name: Seq<char>) -> Option<int> {
    if exists|i: int| 0 <= i < devices.len() && (#[trigger] devices[i]).name@ == name {
        Some(choose|i: int| 0 <= i < devices.len() && (#[trigger] devices[i]).name@ == name)
    } else {
        None
    }
}

/// Index of the handle named `name`, if any.
pub open spec fn handle_index(handles: Seq<BdevHandle>, name: Seq<char>) -> Option<int> {
    if exists|i: int| 0 <= i < handles.len() && (#[trigger] handles[i]).name_spec() == name {
        Some(choose|i: int| 0 <= i < handles.len() && (#[trigger] handles[i]).name_spec() == name)
    } else {
        None
    }
}

/// Manager of block devices: the known devices (names unique) and the open
/// handles (one per open device).
#[derive(Debug)]
pub struct BdevManager {
    config: BdevConfig,
    handles: Vec<BdevHandle>,
    devices: Vec<BdevInfo>,
    start_time: std::time::Instant,
}

impl BdevManager {
    /// The known devices.
    pub closed spec fn devices_spec(&self) -> Seq<BdevInfo> {
        self.devices@
    }

    /// The open handles.
    pub closed spec fn handles_spec(&self) -> Seq<BdevHandle> {
        self.handles@
    }

    /// The configuration.
    pub closed spec fn config_spec(&self) -> BdevConfig {
        self.config
    }

    /// Device and handle names are unique, and every handle's size fits.
    pub open spec fn wf(&self) -> bool {
        &&& forall|i: int, j: int|
            0 <= i < j < self.devices_spec().len() ==> (#[trigger] self.devices_spec()[i]).name@
                != (#[trigger] self.devices_spec()[j]).name@
        &&& forall|i: int, j: int|
            0 <= i < j < self.handles_spec().len() ==> (#[trigger] self.handles_spec()[i]).name_spec()
                != (#[trigger] self.handles_spec()[j]).name_spec()
    }

    /// A manager with no devices.
    pub fn new(config: BdevConfig) -> (r: BdevManager)
        ensures
            r.wf(),
            r.config_spec() == config,
            r.devices_spec().len() == 0,
            r.handles_spec().len() == 0,
    {
        BdevManager { config, handles: Vec::new(), devices: Vec::new(), start_time: instant_now() }
    }

    /// A manager with the default configuration.
    pub fn with_defaults() -> (r: BdevManager)
        ensures
            r.wf(),
            r.config_spec() == (BdevConfig {
                max_io_per_device: 64,
                io_timeout_ms: 30_000,
                write_through: false,
                io_channels_per_device: 4,
                collect_stats: true,
                retry_count: 3,
                retry_delay_ms: 100,
            }),
            r.devices_spec().len() == 0,
            r.handles_spec().len() == 0,
    {
        BdevManager::new(BdevConfig::default())
    }

    /// A manager for tests, with the default configuration.
    pub fn new_mock() -> (r: BdevManager)
        ensures
            r.wf(),
            r.config_spec() == (BdevConfig {
                max_io_per_device: 64,
                io_timeout_ms: 30_000,
                write_through: false,
                io_channels_per_device: 4,
                collect_stats: true,
                retry_count: 3,
                retry_delay_ms: 100,
            }),
            r.devices_spec().len() == 0,
            r.handles_spec().len() == 0,
    {
        BdevManager::with_defaults()
    }

    /// The configuration.
    pub fn config(&self) -> (r: &BdevConfig)
        ensures
            *r == self.config_spec(),
    {
        &self.config
    }

    fn find_device(&self, name: &str) -> (r: Option<usize>)
        requires
            self.wf(),
        ensures
            r == match device_index(self.devices_spec(), name@) {
                Some(i) => Some(i as usize),
                None => None::<usize>,
            },
            r matches Some(i) ==> i < self.devices_spec().len() && self.devices_spec()[i as int].name@ == name@,
    {
        let target = name.to_owned();
        let mut i: usize = 0;
        while i < self.devices.len()
            invariant
                self.wf(),
                0 <= i <= self.devices@.len(),
                target@ == name@,
                forall|j: int| 0 <= j < i ==> (#[trigger] self.devices@[j]).name@ != name@,
            decreases self.devices@.len() - i,
        {
            if self.devices[i].name == target {
                proof {
                    let k = choose|k: int| 0 <= k < self.devices@.len() && (#[trigger] self.devices@[k]).name@ == name@;
                    if k != i {
                        if k < i {
                        } else {
                            assert(self.devices_spec()[i as int].name@ != self.devices_spec()[k].name@);
                        }
                    }
                }
                return Some(i);
            }
            i += 1;
        }
        None
    }

    fn find_handle(&self, name: &str) -> (r: Option<usize>)
        requires
            self.wf(),
        ensures
            r == match handle_index(self.handles_spec(), name@) {
                Some(i) => Some(i as usize),
                None => None::<usize>,
            },
            r matches Some(i) ==> i < self.handles_spec().len() && self.handles_spec()[i as int].name_spec() == name@,
    {
        let mut i: usize = 0;
        while i < self.handles.len()
            invariant
                self.wf(),
                0 <= i <= self.handles@.len(),
                forall|j: int| 0 <= j < i ==> (#[trigger] self.handles@[j]).name_spec() != name@,
            decreases self.handles@.len() - i,
        {
            let hn = self.handles[i].name();
            if str_eq(hn, name) {
                proof {
                    let k = choose|k: int| 0 <= k < self.handles@.len() && (#[trigger] self.handles@[k]).name_spec() == name@;
                    if k != i && k > i {
                        assert(self.handles_spec()[i as int].name_spec() != self.handles_spec()[k].name_spec());
                    }
                }
                return Some(i);
            }
            i += 1;
        }
        None
    }

    /// Registers an in-memory device of `size_mb` MiB with 4096-byte
    /// blocks, replacing a device of the same name.
    pub fn register_mock_device(&mut self, name: &str, size_mb: u64) -> (r: Result<()>)
        requires
            old(self).wf(),
            size_mb * 1048576 <= u64::MAX,
        ensures
            r is Ok,
            final(self).wf(),
            final(self).config_spec() == old(self).config_spec(),
            final(self).handles_spec() == old(self).handles_spec(),
            device_index(final(self).devices_spec(), name@) is Some,
            final(self).devices_spec().len() >= old(self).devices_spec().len(),
            forall|j: int|
                0 <= j < final(self).devices_spec().len() && (#[trigger] final(self).devices_spec()[j]).name@
                    == name@ ==> {
                    let info = final(self).devices_spec()[j];
                    &&& info.block_size == 4096
                    &&& info.num_blocks == size_mb * 1048576 / 4096
                    &&& info.size_bytes == 4096 * (size_mb * 1048576 / 4096)
                    &&& info.device_type@ == "mock"@
                    &&& !info.is_open
                },
            forall|j: int|
                0 <= j < final(self).devices_spec().len() && (#[trigger] final(self).devices_spec()[j]).name@
                    != name@ ==> j < old(self).devices_spec().len() && final(self).devices_spec()[j] == old(self).devices_spec()[j],
    {
        let block_size: u32 = 4096;
        let num_blocks = (size_mb * 1048576) / 4096;
        assert(4096 * num_blocks <= u64::MAX) by (nonlinear_arith)
            requires
                num_blocks == (size_mb * 1048576) / 4096,
                size_mb * 1048576 <= u64::MAX,
        ;
        let mut info = BdevInfo::new(name, block_size, num_blocks);
        info.device_type = "mock".to_owned();
        match self.find_device(name) {
            Some(i) => {
                self.devices.set(i, info);
                proof {
                    assert forall|a: int, b: int|
                        0 <= a < b < self.devices_spec().len() implies (#[trigger] self.devices_spec()[a]).name@
                        != (#[trigger] self.devices_spec()[b]).name@ by {
                        assert(self.devices_spec()[a].name@ == old(self).devices_spec()[a].name@);
                        assert(self.devices_spec()[b].name@ == old(self).devices_spec()[b].name@);
                    }
                    lemma_device_index_unique(self.devices_spec(), i as int, name@);
                    assert forall|j: int|
                        0 <= j < self.devices_spec().len() && (#[trigger] self.devices_spec()[j]).name@ == name@
                        implies j == i by {
                        if j != i {
                            assert(old(self).devices_spec()[j].name@ == name@);
                            assert(old(self).devices_spec()[i as int].name@ == name@);
                        }
                    }
                }
            },
            None => {
                self.devices.push(info);
                proof {
                    let last = self.devices@.len() - 1;
                    assert forall|a: int, b: int|
                        0 <= a < b < self.devices_spec().len() implies (#[trigger] self.devices_spec()[a]).name@
                        != (#[trigger] self.devices_spec()[b]).name@ by {
                        if b == last {
                            assert(old(self).devices_spec()[a].name@ != name@);
                        }
                    }
                    lemma_device_index_unique(self.devices_spec(), last, name@);
                    assert forall|j: int|
                        0 <= j < self.devices_spec().len() && (#[trigger] self.devices_spec()[j]).name@ == name@
                        implies j == last by {
                        if j != last {
                            assert(old(self).devices_spec()[j].name@ == name@);
                        }
                    }
                }
            },
        }
        proof {
            assert(self.handles_spec() == old(self).handles_spec());
            assert forall|a: int, b: int|
                0 <= a < b < self.handles_spec().len() implies (#[trigger] self.handles_spec()[a]).name_spec()
                != (#[trigger] self.handles_spec()[b]).name_spec() by {
                assert(old(self).handles_spec()[a].name_spec() != old(self).handles_spec()[b].name_spec());
            }
        }
        Ok(())
    }

    /// Information on every known device.
    pub fn list_devices(&self) -> (r: Vec<BdevInfo>)
        ensures
            r@ == self.devices_spec(),
    {
        let mut out: Vec<BdevInfo> = Vec::new();
        let mut i: usize = 0;
        while i < self.devices.len()
            invariant
                0 <= i <= self.devices@.len(),
                out@ == self.devices@.subrange(0, i as int),
            decreases self.devices@.len() - i,
        {
            out.push(clone_info(&self.devices[i]));
            assert(out@ =~= self.devices@.subrange(0, i + 1));
            i += 1;
        }
        assert(out@ =~= self.devices@);
        out
    }

    /// Information on the device named `name`.
    pub fn get_device_info(&self, name: &str) -> (r: Option<BdevInfo>)
        requires
            self.wf(),
        ensures
            r == match device_index(self.devices_spec(), name@) {
                Some(i) => Some(self.devices_spec()[i]),
                None => None::<BdevInfo>,
            },
    {
        match self.find_device(name) {
            Some(i) => Some(clone_info(&self.devices[i])),
            None => None,
        }
    }

    /// Opens the device named `name` (a no-op when it is open already).
    pub fn open(&mut self, name: &str) -> (r: Result<()>)
        requires
            old(self).wf(),
            forall|i: int|
                0 <= i < old(self).devices_spec().len() ==> (#[trigger] old(self).devices_spec()[i]).block_size
                    * old(self).devices_spec()[i].num_blocks <= u64::MAX,
        ensures
            final(self).wf(),
            final(self).config_spec() == old(self).config_spec(),
            r is Ok <==> (handle_index(old(self).handles_spec(), name@) is Some || device_index(
                old(self).devices_spec(),
                name@,
            ) is Some),
            r matches Err(e) ==> e is SpdkBdevError,
            r is Err ==> final(self).handles_spec() == old(self).handles_spec() && final(self).devices_spec()
                == old(self).devices_spec(),
            handle_index(old(self).handles_spec(), name@) is Some ==> final(self).handles_spec() == old(self).handles_spec() && final(self).devices_spec() == old(self).devices_spec(),
            r is Ok ==> handle_index(final(self).handles_spec(), name@) is Some,
            forall|i: int|
                0 <= i < old(self).handles_spec().len() ==> final(self).handles_spec()[i] == old(self).handles_spec()[i],
            final(self).handles_spec().len() >= old(self).handles_spec().len(),
            forall|i: int|
                old(self).handles_spec().len() <= i < final(self).handles_spec().len() ==> (#[trigger] final(self).handles_spec()[i]).name_spec() == name@,
            final(self).devices_spec().len() == old(self).devices_spec().len(),
            forall|i: int|
                0 <= i < old(self).devices_spec().len() ==> (#[trigger] final(self).devices_spec()[i]).name@ == old(self).devices_spec()[i].name@ && final(self).devices_spec()[i].block_size == old(self).devices_spec()[i].block_size && final(self).devices_spec()[i].num_blocks == old(self).devices_spec()[i].num_blocks,
            r is Ok && handle_index(old(self).handles_spec(), name@) is None ==> {
                let h = final(self).handles_spec().last();
                &&& final(self).handles_spec() == old(self).handles_spec().push(h)
                &&& h.name_spec() == name@
                &&& h.stored() == Map::<u64, Seq<u8>>::empty()
                &&& h.stats_spec() == zero_io_stats()
                &&& h.info_spec().block_size == old(self).devices_spec()[device_index(
                    old(self).devices_spec(),
                    name@,
                )->0].block_size
                &&& h.info_spec().size_bytes == old(self).devices_spec()[device_index(
                    old(self).devices_spec(),
                    name@,
                )->0].block_size * old(self).devices_spec()[device_index(
                    old(self).devices_spec(),
                    name@,
                )->0].num_blocks
            },
    {
        if self.find_handle(name).is_some() {
            return Ok(());
        }
        let di = match self.find_device(name) {
            Some(i) => i,
            None => return Err(Error::SpdkBdevError(device_not_found_message(name))),
        };
        let bs = self.devices[di].block_size;
        let nb = self.devices[di].num_blocks;
        let handle = BdevHandle::new_mock(name, bs, nb, self.config);
        self.handles.push(handle);
        let mut info = clone_info(&self.devices[di]);
        info.is_open = true;
        self.devices.set(di, info);
        proof {
            assert forall|i: int, j: int|
                0 <= i < j < self.devices_spec().len() implies (#[trigger] self.devices_spec()[i]).name@
                != (#[trigger] self.devices_spec()[j]).name@ by {
                assert(old(self).devices_spec()[i].name@ == self.devices_spec()[i].name@);
                assert(old(self).devices_spec()[j].name@ == self.devices_spec()[j].name@);
            }
            let last = self.handles@.len() - 1;
            assert(self.handles_spec()[last].name_spec() == name@);
            assert forall|i: int, j: int|
                0 <= i < j < self.handles_spec().len() implies (#[trigger] self.handles_spec()[i]).name_spec()
                != (#[trigger] self.handles_spec()[j]).name_spec() by {
                if j == last {
                    assert(old(self).handles_spec()[i].name_spec() != name@);
                }
            }
            assert(self.handles_spec() =~= old(self).handles_spec().push(self.handles_spec().last()));
        }
        Ok(())
    }

    /// Closes the device named `name`.
    pub fn close(&mut self, name: &str) -> (r: Result<()>)
        requires
            old(self).wf(),
        ensures
            final(self).wf(),
            final(self).config_spec() == old(self).config_spec(),
            r is Ok <==> handle_index(old(self).handles_spec(), name@) is Some,
            r matches Err(e) ==> e is SpdkBdevError,
            r is Err ==> final(self).handles_spec() == old(self).handles_spec(),
            r is Ok ==> final(self).handles_spec() == old(self).handles_spec().remove(
                handle_index(old(self).handles_spec(), name@)->0,
            ),
            final(self).devices_spec().len() == old(self).devices_spec().len(),
    {
        let hi = match self.find_handle(name) {
            Some(i) => i,
            None => return Err(Error::SpdkBdevError(device_not_open_message(name))),
        };
        let _h = self.handles.remove(hi);
        proof {
            assert forall|i: int, j: int|
                0 <= i < j < self.handles_spec().len() implies (#[trigger] self.handles_spec()[i]).name_spec()
                != (#[trigger] self.handles_spec()[j]).name_spec() by {
                let oi = if i < hi { i } else { i + 1 };
                let oj = if j < hi { j } else { j + 1 };
                assert(self.handles_spec()[i] == old(self).handles_spec()[oi]);
                assert(self.handles_spec()[j] == old(self).handles_spec()[oj]);
            }
        }
        if let Some(di) = self.find_device(name) {
            let mut info = clone_info(&self.devices[di]);
            info.is_open = false;
            self.devices.set(di, info);
            proof {
                assert forall|i: int, j: int|
                    0 <= i < j < self.devices_spec().len() implies (#[trigger] self.devices_spec()[i]).name@
                    != (#[trigger] self.devices_spec()[j]).name@ by {
                    assert(old(self).devices_spec()[i].name@ == self.devices_spec()[i].name@);
                    assert(old(self).devices_spec()[j].name@ == self.devices_spec()[j].name@);
                }
            }
        }
        Ok(())
    }

    /// Closes every open device.
    pub fn close_all(&mut self)
        requires
            old(self).wf(),
        ensures
            final(self).wf(),
            final(self).config_spec() == old(self).config_spec(),
            final(self).handles_spec().len() == 0,
            final(self).devices_spec().len() == old(self).devices_spec().len(),
            forall|i: int|
                0 <= i < final(self).devices_spec().len() ==> !(#[trigger] final(self).devices_spec()[i]).is_open
                    && final(self).devices_spec()[i].name@ == old(self).devices_spec()[i].name@,
    {
        self.handles = Vec::new();
        let mut i: usize = 0;
        while i < self.devices.len()
            invariant
                0 <= i <= self.devices@.len(),
                self.devices@.len() == old(self).devices@.len(),
                self.handles@.len() == 0,
                self.config == old(self).config,
                forall|j: int| 0 <= j < self.devices@.len() ==> (#[trigger] self.devices@[j]).name@ == old(self).devices@[j].name@,
                forall|j: int| 0 <= j < i ==> !(#[trigger] self.devices@[j]).is_open,
            decreases self.devices@.len() - i,
        {
            let mut info = clone_info(&self.devices[i]);
            info.is_open = false;
            self.devices.set(i, info);
            i += 1;
        }
        proof {
            assert forall|i: int, j: int|
                0 <= i < j < self.devices_spec().len() implies (#[trigger] self.devices_spec()[i]).name@
                != (#[trigger] self.devices_spec()[j]).name@ by {
                assert(old(self).devices_spec()[i].name@ == self.devices_spec()[i].name@);
                assert(old(self).devices_spec()[j].name@ == self.devices_spec()[j].name@);
            }
        }
    }

    /// Sum of the statistics of the open devices (wrapping).
    pub fn aggregate_stats(&self) -> (r: IoStats)
        ensures
            r == sum_stats(self.handles_spec()),
    {
        let mut stats = IoStats::new();
        let mut i: usize = 0;
        while i < self.handles.len()
            invariant
                0 <= i <= self.handles@.len(),
                stats == sum_stats(self.handles@.subrange(0, i as int)),
            decreases self.handles@.len() - i,
        {
            let h = self.handles[i].stats();
            proof {
                assert(self.handles@.subrange(0, i + 1).drop_last() =~= self.handles@.subrange(0, i as int));
            }
            stats.reads = stats.reads.wrapping_add(h.reads);
            stats.writes = stats.writes.wrapping_add(h.writes);
            stats.bytes_read = stats.bytes_read.wrapping_add(h.bytes_read);
            stats.bytes_written = stats.bytes_written.wrapping_add(h.bytes_written);
            stats.read_errors = stats.read_errors.wrapping_add(h.read_errors);
            stats.write_errors = stats.write_errors.wrapping_add(h.write_errors);
            stats.read_latency_us = stats.read_latency_us.wrapping_add(h.read_latency_us);
            stats.write_latency_us = stats.write_latency_us.wrapping_add(h.write_latency_us);
            i += 1;
        }
        assert(self.handles@.subrange(0, self.handles@.len() as int) =~= self.handles@);
        stats
    }

    /// Milliseconds since the manager was created.
    pub fn elapsed(&self) -> u64 {
        elapsed_millis(&self.start_time)
    }

    /// Places a shard on a storage node. The node's space is not tracked
    /// here: shard `shard_index` of `data.len()` bytes is given the offset
    /// `shard_index * data.len()`.
    pub fn write_shard(&self, node_id: &str, shard_index: u8, data: &[u8]) -> (r: Result<u64>)
        requires
            shard_index * data@.len() <= u64::MAX,
        ensures
            r == Ok::<u64, Error>((shard_index * data@.len()) as u64),
    {
        Ok((shard_index as u64) * (data.len() as u64))
    }

    /// Releases (trims) a range of a device; the space is not tracked, so
    /// this always succeeds.
    pub fn trim(&self, device_id: &str, offset: u64, length: u64) -> (r: Result<()>)
        ensures
            r is Ok,
    {
        Ok(())
    }

    /// Number of open devices.
    pub fn open_device_count(&self) -> (r: usize)
        ensures
            r == self.handles_spec().len(),
    {
        self.handles.len()
    }

    /// The handle of the open device named `name`.
    pub fn handle(&self, name: &str) -> (r: Option<&BdevHandle>)
        requires
            self.wf(),
        ensures
            r == match handle_index(self.handles_spec(), name@) {
                Some(i) => Some(&self.handles_spec()[i]),
                None => None::<&BdevHandle>,
            },
    {
        match self.find_handle(name) {
            Some(i) => Some(&self.handles[i]),
            None => None,
        }
    }

    /// Writes `buf` at `offset` on the open device named `name`.
    pub fn write_to(&mut self, name: &str, offset: u64, buf: &DmaBuf) -> (r: Result<IoResult>)
        requires
            old(self).wf(),
            offset + buf@.len() <= u64::MAX,
        ensures
            final(self).wf(),
            final(self).config_spec() == old(self).config_spec(),
            final(self).devices_spec() == old(self).devices_spec(),
            final(self).handles_spec().len() == old(self).handles_spec().len(),
            match handle_index(old(self).handles_spec(), name@) {
                None => r matches Err(e) && e is SpdkBdevError && final(self).handles_spec() == old(self).handles_spec(),
                Some(i) => {
                    let h = old(self).handles_spec()[i];
                    let h2 = final(self).handles_spec()[i];
                    &&& forall|j: int|
                        0 <= j < old(self).handles_spec().len() && j != i ==> final(self).handles_spec()[j]
                            == old(self).handles_spec()[j]
                    &&& h2.name_spec() == h.name_spec()
                    &&& h2.info_spec() == h.info_spec()
                    &&& (r is Ok <==> (block_aligned(offset, h.info_spec().block_size) && offset + buf@.len()
                        <= h.info_spec().size_bytes))
                    &&& r is Err ==> h2.stored() == h.stored()
                    &&& r is Ok ==> h2.stored() == h.stored().insert(offset, buf@)
                    &&& r matches Err(e) ==> e is SpdkBdevError
                },
            },
    {
        let hi = match self.find_handle(name) {
            Some(i) => i,
            None => return Err(Error::SpdkBdevError(device_not_open_message(name))),
        };
        let mut h = self.handles.remove(hi);
        let r = h.write(offset, buf);
        self.handles.insert(hi, h);
        proof {
            lemma_handles_replaced(old(self).handles_spec(), self.handles_spec(), hi as int);
        }
        r
    }

    /// Reads into `buf` at `offset` on the open device named `name`.
    pub fn read_from(&mut self, name: &str, offset: u64, buf: &mut DmaBuf) -> (r: Result<IoResult>)
        requires
            old(self).wf(),
            offset + old(buf)@.len() <= u64::MAX,
        ensures
            final(self).wf(),
            final(self).config_spec() == old(self).config_spec(),
            final(self).devices_spec() == old(self).devices_spec(),
            final(self).handles_spec().len() == old(self).handles_spec().len(),
            forall|j: int|
                0 <= j < old(self).handles_spec().len() ==> (#[trigger] final(self).handles_spec()[j]).stored()
                    == old(self).handles_spec()[j].stored() && final(self).handles_spec()[j].name_spec()
                    == old(self).handles_spec()[j].name_spec() && final(self).handles_spec()[j].info_spec()
                    == old(self).handles_spec()[j].info_spec(),
            match handle_index(old(self).handles_spec(), name@) {
                None => r matches Err(e) && e is SpdkBdevError && final(buf)@ == old(buf)@,
                Some(i) => {
                    let h = old(self).handles_spec()[i];
                    &&& (r is Ok <==> (block_aligned(offset, h.info_spec().block_size) && offset + old(buf)@.len()
                        <= h.info_spec().size_bytes))
                    &&& r matches Err(e) ==> e is SpdkBdevError && final(buf)@ == old(buf)@
                    &&& r is Ok ==> final(buf)@ == read_bytes(
                        if h.stored().contains_key(offset) {
                            Some(h.stored()[offset])
                        } else {
                            None
                        },
                        old(buf)@,
                    )
                },
            },
    {
        let hi = match self.find_handle(name) {
            Some(i) => i,
            None => return Err(Error::SpdkBdevError(device_not_open_message(name))),
        };
        let mut h = self.handles.remove(hi);
        let r = h.read(offset, buf);
        self.handles.insert(hi, h);
        proof {
            lemma_handles_replaced(old(self).handles_spec(), self.handles_spec(), hi as int);
        }
        r
    }
}

/// `String` equality on `&str`.
fn str_eq(a: &str, b: &str) -> (r: bool)
    ensures
        r == (a@ == b@),
{
    let sa = a.to_owned();
    let sb = b.to_owned();
    sa == sb
}

/// A copy of device information.
fn clone_info(i: &BdevInfo) -> (r: BdevInfo)
    ensures
        r == *i,
{
    BdevInfo {
        name: i.name.clone(),
        block_size: i.block_size,
        num_blocks: i.num_blocks,
        size_bytes: i.size_bytes,
        device_type: i.device_type.clone(),
        is_open: i.is_open,
        tier: match &i.tier {
            Some(t) => Some(t.clone()),
            None => None,
        },
    }
}

/// Sum (wrapping) of the statistics of the handles.
pub open spec fn sum_stats(handles: Seq<BdevHandle>) -> IoStats
    decreases handles.len(),
{
    if handles.len() == 0 {
        zero_io_stats()
    } else {
        let s = sum_stats(handles.drop_last());
        let h = handles.last().stats_spec();
        IoStats {
            reads: add_w(s.reads, h.reads),
            writes: add_w(s.writes, h.writes),
            bytes_read: add_w(s.bytes_read, h.bytes_read),
            bytes_written: add_w(s.bytes_written, h.bytes_written),
            read_errors: add_w(s.read_errors, h.read_errors),
            write_errors: add_w(s.write_errors, h.write_errors),
            read_latency_us: add_w(s.read_latency_us, h.read_latency_us),
            write_latency_us: add_w(s.write_latency_us, h.write_latency_us),
        }
    }
}

/// With unique handle names, the handle at index `i` is found by its name.
pub proof fn lemma_handle_at_index(handles: Seq<BdevHandle>, i: int)
    requires
        0 <= i < handles.len(),
        forall|a: int, b: int|
            0 <= a < b < handles.len() ==> (#[trigger] handles[a]).name_spec() != (#[trigger] handles[b]).name_spec(),
    ensures
        handle_index(handles, handles[i].name_spec()) == Some(i),
{
    let name = handles[i].name_spec();
    let k = choose|k: int| 0 <= k < handles.len() && (#[trigger] handles[k]).name_spec() == name;
    if k < i {
        assert(handles[k].name_spec() != handles[i].name_spec());
    } else if k > i {
        assert(handles[i].name_spec() != handles[k].name_spec());
    }
}

/// A device name is found at the one index that carries it.
proof fn lemma_device_index_unique(devices: Seq<BdevInfo>, i: int, name: Seq<char>)
    requires
        0 <= i < devices.len(),
        devices[i].name@ == name,
        forall|a: int, b: int| 0 <= a < b < devices.len() ==> (#[trigger] devices[a]).name@ != (#[trigger] devices[b]).name@,
    ensures
        device_index(devices, name) == Some(i),
{
    let k = choose|k: int| 0 <= k < devices.len() && (#[trigger] devices[k]).name@ == name;
    if k < i {
        assert(devices[k].name@ != devices[i].name@);
    } else if k > i {
        assert(devices[i].name@ != devices[k].name@);
    }
}

/// Putting a handle back at the index it was taken from keeps the others.
proof fn lemma_handles_replaced(old_h: Seq<BdevHandle>, new_h: Seq<BdevHandle>, i: int)
    requires
        0 <= i < old_h.len(),
        new_h.len() == old_h.len(),
        new_h[i].name_spec() == old_h[i].name_spec(),
        forall|j: int| 0 <= j < old_h.len() && j != i ==> new_h[j] == old_h[j],
        forall|a: int, b: int|
            0 <= a < b < old_h.len() ==> (#[trigger] old_h[a]).name_spec() != (#[trigger] old_h[b]).name_spec(),
    ensures
        forall|a: int, b: int|
            0 <= a < b < new_h.len() ==> (#[trigger] new_h[a]).name_spec() != (#[trigger] new_h[b]).name_spec(),
{
    assert forall|a: int, b: int| 0 <= a < b < new_h.len() implies (#[trigger] new_h[a]).name_spec()
        != (#[trigger] new_h[b]).name_spec() by {
        assert(new_h[a].name_spec() == old_h[a].name_spec());
        assert(new_h[b].name_spec() == old_h[b].name_spec());
    }
}

// =============================================================================
// Shard I/O Helper
// =============================================================================

/// Whether a shard of `len` bytes can be written at `offset` on the device
/// named `dev`: the device is open, or known and can be opened, and the
/// offset is block-aligned with room for the shard on the device.
pub open spec fn shard_writable(m: BdevManager, dev: Seq<char>, offset: u64, len: nat) -> bool {
    match handle_index(m.handles_spec(), dev) {
        Some(h) => {
            let info = m.handles_spec()[h].info_spec();
            block_aligned(offset, info.block_size) && offset + len <= info.size_bytes
        },
        None => match device_index(m.devices_spec(), dev) {
            Some(d) => {
                let info = m.devices_spec()[d];
                block_aligned(offset, info.block_size) && offset + len <= info.block_size * info.num_blocks
            },
            None => false,
        },
    }
}

/// Reads and writes erasure-coded shards on the devices of a manager.
#[derive(Debug)]
pub struct ShardIo {
    /// The device manager
    pub manager: BdevManager,
    /// Shard size
    pub shard_size: usize,
}

impl ShardIo {
    /// A helper for shards of `shard_size` bytes.
    pub fn new(manager: BdevManager, shard_size: usize) -> (r: ShardIo)
        ensures
            r.manager == manager,
            r.shard_size == shard_size,
    {
        ShardIo { manager, shard_size }
    }

    /// Writes a shard at `offset` on `device`, opening it first.
    pub fn write_shard(&mut self, device: &str, offset: u64, shard: &DmaBuf) -> (r: Result<IoResult>)
        requires
            old(self).manager.wf(),
            offset + shard@.len() <= u64::MAX,
            devices_fit(old(self).manager),
        ensures
            final(self).manager.wf(),
            devices_fit(final(self).manager),
            final(self).shard_size == old(self).shard_size,
            final(self).manager.config_spec() == old(self).manager.config_spec(),
            final(self).manager.devices_spec().len() == old(self).manager.devices_spec().len(),
            r is Ok <==> shard_writable(old(self).manager, device@, offset, shard@.len()),
            r matches Err(e) ==> e is SpdkBdevError,
            forall|dev: Seq<char>, o: u64, len: nat|
                #[trigger] shard_writable(old(self).manager, dev, o, len) ==> shard_writable(final(self).manager, dev, o, len),
            r is Ok ==> shard_readable(final(self).manager, device@, offset, shard@),
            forall|n: Seq<char>, o: u64, b: Seq<u8>|
                !(n == device@ && o == offset) && #[trigger] shard_readable(old(self).manager, n, o, b)
                    ==> shard_readable(final(self).manager, n, o, b),
    {
        let ghost m0 = self.manager;
        match self.manager.open(device) {
            Ok(()) => {},
            Err(e) => {
                proof {
                    assert forall|n: Seq<char>, o: u64, b: Seq<u8>|
                        !(n == device@ && o == offset) && #[trigger] shard_readable(m0, n, o, b) implies shard_readable(
                        self.manager,
                        n,
                        o,
                        b,
                    ) by {
                        assert(self.manager.handles_spec() == m0.handles_spec());
                    }
                    assert(self.manager.handles_spec() == m0.handles_spec());
                    assert(self.manager.devices_spec() == m0.devices_spec());
                }
                return Err(e);
            },
        }
        let ghost m1 = self.manager;
        proof {
            let hi = handle_index(m1.handles_spec(), device@)->0;
            if handle_index(m0.handles_spec(), device@) is Some {
                assert(m1.handles_spec() == m0.handles_spec());
            } else {
                if hi < m0.handles_spec().len() {
                    assert(m1.handles_spec()[hi] == m0.handles_spec()[hi]);
                    assert(m0.handles_spec()[hi].name_spec() == device@);
                }
                assert(hi == m1.handles_spec().len() - 1);
            }
            assert(shard_writable(m0, device@, offset, shard@.len()) <==> (block_aligned(
                offset,
                m1.handles_spec()[hi].info_spec().block_size,
            ) && offset + shard@.len() <= m1.handles_spec()[hi].info_spec().size_bytes));
        }
        let r = self.manager.write_to(device, offset, shard);
        proof {
            let hi = handle_index(m1.handles_spec(), device@)->0;
            assert forall|n: Seq<char>, o: u64, b: Seq<u8>|
                !(n == device@ && o == offset) && #[trigger] shard_readable(m0, n, o, b) implies shard_readable(
                self.manager,
                n,
                o,
                b,
            ) by {
                let k = handle_index(m0.handles_spec(), n)->0;
                assert(m1.handles_spec()[k] == m0.handles_spec()[k]);
                lemma_handle_at_index(m1.handles_spec(), k);
                if n != device@ {
                    assert(k != hi);
                    assert(self.manager.handles_spec()[k] == m1.handles_spec()[k]);
                } else {
                    assert(k == hi);
                    assert(o != offset);
                    assert(self.manager.handles_spec()[k].info_spec() == m1.handles_spec()[k].info_spec());
                    assert(self.manager.handles_spec()[k].stored().contains_key(o));
                    assert(self.manager.handles_spec()[k].stored()[o] == m1.handles_spec()[k].stored()[o]);
                }
                lemma_handle_at_index(self.manager.handles_spec(), k);
            }
            if r is Ok {
                lemma_handle_at_index(self.manager.handles_spec(), hi);
                assert(self.manager.handles_spec()[hi].stored() == m1.handles_spec()[hi].stored().insert(offset, shard@));
            }
            let m2 = self.manager;
            assert forall|dev: Seq<char>, o: u64, len: nat|
                #[trigger] shard_writable(m0, dev, o, len) implies shard_writable(m2, dev, o, len) by {
                if handle_index(m0.handles_spec(), dev) is Some {
                    let h = handle_index(m0.handles_spec(), dev)->0;
                    assert(m0.handles_spec()[h].name_spec() == dev);
                    assert(m1.handles_spec()[h] == m0.handles_spec()[h]);
                    if h != hi {
                        assert(m2.handles_spec()[h] == m1.handles_spec()[h]);
                    }
                    assert(m2.handles_spec()[h].name_spec() == dev);
                    lemma_handle_at_index(m2.handles_spec(), h);
                } else {
                    let d = device_index(m0.devices_spec(), dev)->0;
                    assert(m0.devices_spec()[d].name@ == dev);
                    if handle_index(m2.handles_spec(), dev) is Some {
                        let h2 = handle_index(m2.handles_spec(), dev)->0;
                        assert(m2.handles_spec()[h2].name_spec() == dev);
                        if h2 != hi {
                            assert(m2.handles_spec()[h2] == m1.handles_spec()[h2]);
                        }
                        assert(m1.handles_spec()[h2].name_spec() == dev);
                        if h2 < m0.handles_spec().len() {
                            assert(m0.handles_spec()[h2] == m1.handles_spec()[h2]);
                            assert(m0.handles_spec()[h2].name_spec() == dev);
                            assert(false);
                        }
                        assert(dev == device@);
                        lemma_device_index_unique(m0.devices_spec(), d, device@);
                    } else {
                        assert(m2.devices_spec()[d].name@ == dev);
                        lemma_device_index_unique(m2.devices_spec(), d, dev);
                    }
                }
            }
            assert forall|i: int| 0 <= i < self.manager.devices_spec().len() implies (#[trigger] self.manager.devices_spec()[i]).block_size
                * self.manager.devices_spec()[i].num_blocks <= u64::MAX by {
                assert(self.manager.devices_spec()[i].block_size == m0.devices_spec()[i].block_size);
                assert(self.manager.devices_spec()[i].num_blocks == m0.devices_spec()[i].num_blocks);
            }
        }
        r
    }

    /// Reads a shard of `shard_size` bytes at `offset` on `device`, opening
    /// it first.
    pub fn read_shard(&mut self, device: &str, offset: u64) -> (r: Result<(DmaBuf, IoResult)>)
        requires
            old(self).manager.wf(),
            offset + old(self).shard_size <= u64::MAX,
            devices_fit(old(self).manager),
        ensures
            final(self).manager.wf(),
            devices_fit(final(self).manager),
            final(self).shard_size == old(self).shard_size,
            final(self).manager.config_spec() == old(self).manager.config_spec(),
            final(self).manager.devices_spec().len() == old(self).manager.devices_spec().len(),
            r matches Ok((b, _)) ==> b@.len() == old(self).shard_size,
            forall|b: Seq<u8>|
                #[trigger] shard_readable(old(self).manager, device@, offset, b) && b.len() == old(self).shard_size
                    && old(self).shard_size > 0 ==> (r matches Ok((buf, _)) && buf@ == b),
            forall|n: Seq<char>, o: u64, b: Seq<u8>|
                #[trigger] shard_readable(old(self).manager, n, o, b) ==> shard_readable(final(self).manager, n, o, b),
    {
        let ghost m0 = self.manager;
        match self.manager.open(device) {
            Ok(()) => {},
            Err(e) => {
                proof {
                    assert(self.manager.handles_spec() == m0.handles_spec());
                }
                return Err(e);
            },
        }
        let ghost m1 = self.manager;
        proof {
            assert forall|n: Seq<char>, o: u64, b: Seq<u8>|
                #[trigger] shard_readable(m0, n, o, b) implies shard_readable(m1, n, o, b) by {
                let k = handle_index(m0.handles_spec(), n)->0;
                assert(m1.handles_spec()[k] == m0.handles_spec()[k]);
                lemma_handle_at_index(m1.handles_spec(), k);
            }
            assert forall|i: int| 0 <= i < m1.devices_spec().len() implies (#[trigger] m1.devices_spec()[i]).block_size
                * m1.devices_spec()[i].num_blocks <= u64::MAX by {
                assert(m1.devices_spec()[i].block_size == m0.devices_spec()[i].block_size);
                assert(m1.devices_spec()[i].num_blocks == m0.devices_spec()[i].num_blocks);
            }
        }
        let mut buf = match DmaBuf::new_zeroed(self.shard_size) {
            Ok(b) => b,
            Err(e) => return Err(e),
        };
        let ghost zero = buf@;
        let r = self.manager.read_from(device, offset, &mut buf);
        proof {
            assert forall|n: Seq<char>, o: u64, b: Seq<u8>|
                #[trigger] shard_readable(m1, n, o, b) implies shard_readable(self.manager, n, o, b) by {
                let k = handle_index(m1.handles_spec(), n)->0;
                lemma_handle_at_index(m1.handles_spec(), k);
                lemma_handle_at_index(self.manager.handles_spec(), k);
            }
            assert forall|b: Seq<u8>|
                #[trigger] shard_readable(m0, device@, offset, b) && b.len() == self.shard_size && self.shard_size
                    > 0 implies (r is Ok && buf@ == b) by {
                let k = handle_index(m1.handles_spec(), device@)->0;
                assert(shard_readable(m1, device@, offset, b));
                assert(buf@ =~= b);
            }
        }
        match r {
            Ok(io) => Ok((buf, io)),
            Err(e) => Err(e),
        }
    }

    /// Reads shards one after the other, one result per `(device, offset)`
    /// location, in order.
    pub fn read_shards(&mut self, locations: Vec<(&str, u64)>) -> (r: Vec<Result<(DmaBuf, IoResult)>>)
        requires
            old(self).manager.wf(),
            devices_fit(old(self).manager),
            forall|i: int| 0 <= i < locations@.len() ==> (#[trigger] locations@[i]).1 + old(self).shard_size <= u64::MAX,
        ensures
            final(self).manager.wf(),
            devices_fit(final(self).manager),
            final(self).shard_size == old(self).shard_size,
            r@.len() == locations@.len(),
            forall|i: int, b: Seq<u8>|
                0 <= i < locations@.len() && #[trigger] shard_readable(old(self).manager, locations@[i].0@, locations@[i].1, b)
                    && b.len() == old(self).shard_size && old(self).shard_size > 0 ==> (#[trigger] r@[i] matches Ok((buf, _))
                    && buf@ == b),
            forall|i: int| 0 <= i < r@.len() ==> (#[trigger] r@[i] matches Ok((buf, _)) ==> buf@.len() == old(self).shard_size),
            forall|n: Seq<char>, o: u64, b: Seq<u8>|
                #[trigger] shard_readable(old(self).manager, n, o, b) ==> shard_readable(final(self).manager, n, o, b),
    {
        let ghost m0 = self.manager;
        let mut results: Vec<Result<(DmaBuf, IoResult)>> = Vec::new();
        let mut i: usize = 0;
        while i < locations.len()
            invariant
                0 <= i <= locations@.len(),
                results@.len() == i,
                self.manager.wf(),
                devices_fit(self.manager),
                self.shard_size == old(self).shard_size,
                m0 == old(self).manager,
                forall|j: int| 0 <= j < locations@.len() ==> (#[trigger] locations@[j]).1 + self.shard_size <= u64::MAX,
                forall|n: Seq<char>, o: u64, b: Seq<u8>|
                    #[trigger] shard_readable(m0, n, o, b) ==> shard_readable(self.manager, n, o, b),
                forall|j: int, b: Seq<u8>|
                    0 <= j < i && #[trigger] shard_readable(m0, locations@[j].0@, locations@[j].1, b) && b.len()
                        == self.shard_size && self.shard_size > 0 ==> (#[trigger] results@[j] matches Ok((buf, _)) && buf@
                        == b),
                forall|j: int| 0 <= j < i ==> (#[trigger] results@[j] matches Ok((buf, _)) ==> buf@.len() == self.shard_size),
            decreases locations@.len() - i,
        {
            let (device, offset) = locations[i];
            let ghost before = self.manager;
            let res = self.read_shard(device, offset);
            proof {
                assert forall|b: Seq<u8>|
                    #[trigger] shard_readable(m0, device@, offset, b) && b.len() == self.shard_size && self.shard_size > 0
                        implies (res matches Ok((buf, _)) && buf@ == b) by {
                    assert(shard_readable(before, device@, offset, b));
                }
            }
            results.push(res);
            proof {
                assert forall|j: int, b: Seq<u8>|
                    0 <= j < i + 1 && #[trigger] shard_readable(m0, locations@[j].0@, locations@[j].1, b) && b.len()
                        == self.shard_size && self.shard_size > 0 implies (#[trigger] results@[j] matches Ok((buf, _))
                        && buf@ == b) by {
                    if j == i as int {
                        assert(locations@[j] == (device, offset));
                    }
                }
            }
            i += 1;
        }
        results
    }
}

/// Whether every known device's size fits in 64 bits.
pub open spec fn devices_fit(m: BdevManager) -> bool {
    forall|i: int|
        0 <= i < m.devices_spec().len() ==> (#[trigger] m.devices_spec()[i]).block_size * m.devices_spec()[i].num_blocks
            <= u64::MAX
}

/// Whether the open device named `dev` holds `bytes` at `offset`, which is
/// block-aligned and leaves room for `bytes` on the device.
pub open spec fn shard_readable(m: BdevManager, dev: Seq<char>, offset: u64, bytes: Seq<u8>) -> bool {
    match handle_index(m.handles_spec(), dev) {
        Some(h) => {
            let hd = m.handles_spec()[h];
            &&& block_aligned(offset, hd.info_spec().block_size)
            &&& offset + bytes.len() <= hd.info_spec().size_bytes
            &&& hd.stored().contains_key(offset)
            &&& hd.stored()[offset] == bytes
        },
        None => false,
    }
}

} // verus!
