//! Inline compression before erasure coding: the algorithm and status
//! types, statistics, per-stripe compression metadata, and the run-length
//! codec that the portable build compresses with.
//!
//! Compressed data has the layout `[0xC0, 0xED] [original length, 4 bytes,
//! big-endian] [tokens...]`. A token is a short run `[0xFE, byte, count]`
//! (4 to 255 repeats), a long run `[0xFF, byte, count_hi, count_lo]` (256
//! to 65535 repeats), or a literal byte; literal `0xFE` and `0xFF` are
//! followed by an escape byte `0x00`.

use vstd::prelude::*;

use super::dma_buf::zeros;
use super::DmaBuf;
use crate::error::{Error, Result};

verus! {

// =============================================================================
// Constants
// =============================================================================

/// Sample size for entropy analysis (4KB); smaller inputs are not compressed.
pub const ENTROPY_SAMPLE_SIZE: usize = 4096;

/// Maximum compression level for LZ4
pub const LZ4_MAX_LEVEL: u32 = 12;

/// Default compression level
pub const DEFAULT_COMPRESSION_LEVEL: u32 = 1;

// =============================================================================
// Types
// =============================================================================

/// Compression algorithm selection.
#[derive(Debug, Clone, Copy, PartialEq, Eq, Structural)]
pub enum CompressionAlgorithm {
    /// LZ4 - Fast compression, moderate ratio
    Lz4,
    /// LZ4 High Compression - Better ratio, slower
    Lz4Hc,
    /// Zstandard - Best ratio, configurable speed/ratio tradeoff
    Zstd,
    /// Deflate - Compatible, moderate speed and ratio
    Deflate,
}

impl CompressionAlgorithm {
    /// Display name of the algorithm.
    pub fn to_string(&self) -> (r: String)
        ensures
            r@ == match *self {
                CompressionAlgorithm::Lz4 => "LZ4"@,
                CompressionAlgorithm::Lz4Hc => "LZ4-HC"@,
                CompressionAlgorithm::Zstd => "ZSTD"@,
                CompressionAlgorithm::Deflate => "Deflate"@,
            },
    {
        match self {
            CompressionAlgorithm::Lz4 => "LZ4".to_owned(),
            CompressionAlgorithm::Lz4Hc => "LZ4-HC".to_owned(),
            CompressionAlgorithm::Zstd => "ZSTD".to_owned(),
            CompressionAlgorithm::Deflate => "Deflate".to_owned(),
        }
    }
}

impl Default for CompressionAlgorithm {
    fn default() -> (r: Self)
        ensures
            r == CompressionAlgorithm::Lz4,
    {
        CompressionAlgorithm::Lz4
    }
}

/// Reason why compression was skipped.
#[derive(Debug, Clone, Copy, PartialEq, Eq, Structural)]
pub enum SkipReason {
    /// Compression is disabled in config
    Disabled,
    /// Data appears to be high-entropy (incompressible)
    HighEntropy,
    /// Compression ratio didn't meet threshold
    PoorRatio,
    /// Data is too small to benefit from compression
    TooSmall,
    /// Compression failed with an error
    Error,
}

impl SkipReason {
    /// Description of the reason.
    pub fn to_string(&self) -> (r: String)
        ensures
            r@ == match *self {
                SkipReason::Disabled => "compression disabled"@,
                SkipReason::HighEntropy => "high entropy data"@,
                SkipReason::PoorRatio => "poor compression ratio"@,
                SkipReason::TooSmall => "data too small"@,
                SkipReason::Error => "compression error"@,
            },
    {
        match self {
            SkipReason::Disabled => "compression disabled".to_owned(),
            SkipReason::HighEntropy => "high entropy data".to_owned(),
            SkipReason::PoorRatio => "poor compression ratio".to_owned(),
            SkipReason::TooSmall => "data too small".to_owned(),
            SkipReason::Error => "compression error".to_owned(),
        }
    }
}

/// The skip decided before looking at the data: compression disabled, or
/// less data than the entropy sample.
pub fn early_skip(enabled: bool, len: usize) -> (r: Option<SkipReason>)
    ensures
        r == if !enabled {
            Some(SkipReason::Disabled)
        } else if len < ENTROPY_SAMPLE_SIZE {
            Some(SkipReason::TooSmall)
        } else {
            None
        },
{
    if !enabled {
        Some(SkipReason::Disabled)
    } else if len < ENTROPY_SAMPLE_SIZE {
        Some(SkipReason::TooSmall)
    } else {
        None
    }
}

/// Status of a compression operation.
#[derive(Debug, Clone, Copy, PartialEq, Eq, Structural)]
pub enum CompressionStatus {
    /// Data was successfully compressed
    Compressed,
    /// Compression was skipped
    Skipped(SkipReason),
}

impl CompressionStatus {
    /// Whether the data was compressed.
    pub fn is_compressed(&self) -> (r: bool)
        ensures
            r == (*self is Compressed),
    {
        match self {
            CompressionStatus::Compressed => true,
            CompressionStatus::Skipped(_) => false,
        }
    }
}

/// Result of a decompression operation.
#[derive(Debug)]
pub struct DecompressionResult {
    /// The decompressed data
    pub data: DmaBuf,
    /// Compressed size (input)
    pub compressed_size: usize,
    /// Decompressed size (output)
    pub decompressed_size: usize,
    /// Time taken for decompression, in microseconds
    pub duration_us: u64,
}

// =============================================================================
// Statistics
// =============================================================================

/// Statistics for the compression engine.
#[derive(Debug, Clone, Copy, PartialEq, Eq, Default)]
pub struct CompressionStats {
    /// Total compression attempts
    pub compressions_attempted: u64,
    /// Successful compressions (data kept compressed)
    pub compressions_successful: u64,
    /// Compressions skipped due to high entropy
    pub skipped_high_entropy: u64,
    /// Compressions skipped due to poor ratio
    pub skipped_poor_ratio: u64,
    /// Compressions skipped due to being disabled
    pub skipped_disabled: u64,
    /// Total bytes input to compression
    pub bytes_input: u64,
    /// Total bytes output from compression
    pub bytes_output: u64,
    /// Total decompression operations
    pub decompressions: u64,
    /// Total compression time in microseconds
    pub compression_time_us: u64,
    /// Total decompression time in microseconds
    pub decompression_time_us: u64,
}

/// 64-bit wrapping addition, as the counters use.
pub open spec fn add_w(a: u64, b: u64) -> u64 {
    vstd::wrapping::u64_specs::wrapping_add(a, b)
}

/// The statistics after recording one compression with the given outcome.
pub open spec fn stats_after_compression(
    s: CompressionStats,
    status: CompressionStatus,
    original_size: usize,
    compressed_size: usize,
    duration_us: u64,
) -> CompressionStats {
    let base = CompressionStats {
        compressions_attempted: add_w(s.compressions_attempted, 1),
        bytes_input: add_w(s.bytes_input, original_size as u64),
        compression_time_us: add_w(s.compression_time_us, duration_us),
        ..s
    };
    match status {
        CompressionStatus::Compressed => CompressionStats {
            compressions_successful: add_w(s.compressions_successful, 1),
            bytes_output: add_w(s.bytes_output, compressed_size as u64),
            ..base
        },
        CompressionStatus::Skipped(reason) => {
            let b = CompressionStats { bytes_output: add_w(s.bytes_output, original_size as u64), ..base };
            match reason {
                SkipReason::HighEntropy => CompressionStats {
                    skipped_high_entropy: add_w(s.skipped_high_entropy, 1),
                    ..b
                },
                SkipReason::PoorRatio => CompressionStats { skipped_poor_ratio: add_w(s.skipped_poor_ratio, 1), ..b },
                SkipReason::Disabled => CompressionStats { skipped_disabled: add_w(s.skipped_disabled, 1), ..b },
                _ => b,
            }
        },
    }
}

impl CompressionStats {
    /// Records a compression attempt: its outcome, the sizes before and
    /// after, and how long it took.
    pub fn record_compression(
        &mut self,
        status: &CompressionStatus,
        original_size: usize,
        compressed_size: usize,
        duration_us: u64,
    )
        ensures
            *final(self) == stats_after_compression(
                *old(self),
                *status,
                original_size,
                compressed_size,
                duration_us,
            ),
    {
        self.compressions_attempted = self.compressions_attempted.wrapping_add(1);
        self.bytes_input = self.bytes_input.wrapping_add(original_size as u64);
        self.compression_time_us = self.compression_time_us.wrapping_add(duration_us);
        match status {
            CompressionStatus::Compressed => {
                self.compressions_successful = self.compressions_successful.wrapping_add(1);
                self.bytes_output = self.bytes_output.wrapping_add(compressed_size as u64);
            },
            CompressionStatus::Skipped(reason) => {
                self.bytes_output = self.bytes_output.wrapping_add(original_size as u64);
                match reason {
                    SkipReason::HighEntropy => {
                        self.skipped_high_entropy = self.skipped_high_entropy.wrapping_add(1);
                    },
                    SkipReason::PoorRatio => {
                        self.skipped_poor_ratio = self.skipped_poor_ratio.wrapping_add(1);
                    },
                    SkipReason::Disabled => {
                        self.skipped_disabled = self.skipped_disabled.wrapping_add(1);
                    },
                    _ => {},
                }
            },
        }
    }

    /// Records a decompression operation.
    pub fn record_decompression(&mut self, result: &DecompressionResult)
        ensures
            *final(self) == (CompressionStats {
                decompressions: add_w(old(self).decompressions, 1),
                decompression_time_us: add_w(old(self).decompression_time_us, result.duration_us),
                ..*old(self)
            }),
    {
        self.decompressions = self.decompressions.wrapping_add(1);
        self.decompression_time_us = self.decompression_time_us.wrapping_add(result.duration_us);
    }
}

// =============================================================================
// Metadata Integration
// =============================================================================

/// Compression metadata stored with each stripe.
#[derive(Debug, Clone, Copy, PartialEq, Eq, Structural)]
pub struct StripeCompressionInfo {
    /// Whether the stripe is compressed
    pub is_compressed: bool,
    /// Original (uncompressed) size
    pub original_size: u32,
    /// Compressed size (same as original if not compressed)
    pub compressed_size: u32,
    /// Algorithm used (if compressed)
    pub algorithm: Option<CompressionAlgorithm>,
}

impl StripeCompressionInfo {
    /// Info for data stored uncompressed (sizes kept to 32 bits).
    pub fn uncompressed(size: usize) -> (r: StripeCompressionInfo)
        ensures
            r == (StripeCompressionInfo {
                is_compressed: false,
                original_size: size as u32,
                compressed_size: size as u32,
                algorithm: None,
            }),
    {
        StripeCompressionInfo {
            is_compressed: false,
            original_size: size as u32,
            compressed_size: size as u32,
            algorithm: None,
        }
    }

    /// Info for compressed data (sizes kept to 32 bits).
    pub fn compressed(original: usize, compressed: usize, algorithm: CompressionAlgorithm) -> (r:
        StripeCompressionInfo)
        ensures
            r == (StripeCompressionInfo {
                is_compressed: true,
                original_size: original as u32,
                compressed_size: compressed as u32,
                algorithm: Some(algorithm),
            }),
    {
        StripeCompressionInfo {
            is_compressed: true,
            original_size: original as u32,
            compressed_size: compressed as u32,
            algorithm: Some(algorithm),
        }
    }

    /// Space saved, in bytes (0 when the data grew).
    pub fn bytes_saved(&self) -> (r: u32)
        ensures
            r == if self.original_size >= self.compressed_size {
                (self.original_size - self.compressed_size) as u32
            } else {
                0
            },
    {
        self.original_size.saturating_sub(self.compressed_size)
    }
}

impl Default for StripeCompressionInfo {
    fn default() -> (r: Self)
        ensures
            r == (StripeCompressionInfo {
                is_compressed: false,
                original_size: 0,
                compressed_size: 0,
                algorithm: None,
            }),
    {
        StripeCompressionInfo { is_compressed: false, original_size: 0, compressed_size: 0, algorithm: None }
    }
}

// =============================================================================
// Run-length codec
// =============================================================================

/// Longest run one token encodes.
pub const MAX_RUN: usize = 65535;

/// Length of the run of equal bytes at `i`, counted from `c` and capped at
/// `MAX_RUN`.
pub open spec fn run_from(data: Seq<u8>, i: int, c: int) -> int
    decreases MAX_RUN - c,
{
    if c < MAX_RUN && i + c < data.len() && data[i + c] == data[i] {
        run_from(data, i, c + 1)
    } else {
        c
    }
}

/// A run counted from `c` is at least `c` long, at most `MAX_RUN` (or `c`)
/// long, and stays within the data.
pub proof fn lemma_run_from_bounds(data: Seq<u8>, i: int, c: int)
    requires
        0 <= i,
        1 <= c,
        i + c <= data.len(),
    ensures
        c <= run_from(data, i, c),
        i + run_from(data, i, c) <= data.len(),
        run_from(data, i, c) <= if c < MAX_RUN { MAX_RUN as int } else { c },
    decreases MAX_RUN - c,
{
    if c < MAX_RUN && i + c < data.len() && data[i + c] == data[i] {
        lemma_run_from_bounds(data, i, c + 1);
    }
}

/// Length of the run of equal bytes starting at `i` (at most `MAX_RUN`).
pub open spec fn run_len(data: Seq<u8>, i: int) -> int {
    run_from(data, i, 1)
}

/// A literal byte, escaped when it could be read as a run marker.
pub open spec fn escaped(b: u8) -> Seq<u8> {
    if b == 0xFE || b == 0xFF {
        seq![b, 0x00u8]
    } else {
        seq![b]
    }
}

/// `n` copies of `s`, one after the other.
pub open spec fn repeat(s: Seq<u8>, n: nat) -> Seq<u8>
    decreases n,
{
    if n == 0 {
        Seq::empty()
    } else {
        repeat(s, (n - 1) as nat) + s
    }
}

/// The token for a run of `count` copies of `b`.
pub open spec fn run_token(b: u8, count: int) -> Seq<u8> {
    if count >= 4 {
        if count <= 255 {
            seq![0xFEu8, b, count as u8]
        } else {
            seq![0xFFu8, b, (count / 256) as u8, (count % 256) as u8]
        }
    } else {
        repeat(escaped(b), count as nat)
    }
}

/// The tokens for `data[i..]`.
pub open spec fn tokens_from(data: Seq<u8>, i: int) -> Seq<u8>
    decreases data.len() - i,
{
    if 0 <= i < data.len() {
        proof {
            lemma_run_from_bounds(data, i, 1);
        }
        run_token(data[i], run_len(data, i)) + tokens_from(data, i + run_len(data, i))
    } else {
        Seq::empty()
    }
}

/// The four big-endian bytes of `x`.
pub open spec fn be32(x: u32) -> Seq<u8> {
    seq![(x / 0x1000000) as u8, ((x / 0x10000) % 256) as u8, ((x / 0x100) % 256) as u8, (x % 256) as u8]
}

/// The compressed form of `data`: magic, original length, tokens.
pub open spec fn rle_encoded(data: Seq<u8>) -> Seq<u8> {
    seq![0xC0u8, 0xEDu8] + be32(data.len() as u32) + tokens_from(data, 0)
}

/// The length stored in a compressed header (bytes 2 to 5, big-endian).
pub open spec fn stored_len(data: Seq<u8>) -> int {
    data[2] * 0x1000000 + data[3] * 0x10000 + data[4] * 0x100 + data[5]
}

/// Whether compressed data starts with a header for `original_size` bytes.
pub open spec fn rle_header_ok(data: Seq<u8>, original_size: usize) -> bool {
    &&& data.len() >= 6
    &&& data[0] == 0xC0
    &&& data[1] == 0xED
    &&& stored_len(data) == original_size
}

/// `n` copies of `b`.
pub open spec fn fill(b: u8, n: int) -> Seq<u8> {
    Seq::new(n as nat, |k: int| b)
}

/// Decoding the tokens from position `i` on, after `out` was produced,
/// into at most `n` bytes; what is missing at the end is zero.
pub open spec fn rle_decode(data: Seq<u8>, i: int, out: Seq<u8>, n: int) -> Seq<u8>
    decreases data.len() - i,
{
    if 0 <= i < data.len() && out.len() < n {
        let byte = data[i];
        let j = i + 1;
        let room = n - out.len();
        if byte == 0xFE && j + 1 < data.len() {
            let count = data[j + 1] as int;
            rle_decode(data, j + 2, out + fill(data[j], if count < room { count } else { room }), n)
        } else if byte == 0xFF && j + 3 < data.len() {
            let count = data[j + 1] * 256 + data[j + 2];
            rle_decode(data, j + 3, out + fill(data[j], if count < room { count } else { room }), n)
        } else if (byte == 0xFE || byte == 0xFF) && j < data.len() && data[j] == 0 {
            rle_decode(data, j + 1, out.push(byte), n)
        } else {
            rle_decode(data, j, out.push(byte), n)
        }
    } else if out.len() < n {
        out + zeros((n - out.len()) as nat)
    } else {
        out
    }
}

/// The bytes decoded from compressed data for `original_size` bytes.
pub open spec fn rle_decoded(data: Seq<u8>, original_size: usize) -> Seq<u8> {
    rle_decode(data, 6, Seq::empty(), original_size as int)
}

/// Pushes `count` copies of `b`, stopping at `limit` bytes.
fn push_run(out: &mut Vec<u8>, b: u8, count: usize, limit: usize)
    requires
        old(out)@.len() <= limit,
    ensures
        final(out)@ == old(out)@ + fill(
            b,
            if count < limit - old(out)@.len() {
                count as int
            } else {
                limit - old(out)@.len()
            },
        ),
{
    let mut t: usize = 0;
    let ghost start = out@;
    let ghost room = limit - start.len();
    let ghost take: int = if count < room { count as int } else { room };
    while t < count
        invariant
            start.len() <= limit,
            room == limit - start.len(),
            take == (if count < room { count as int } else { room }),
            0 <= t <= count,
            out@ == start + fill(b, if t < room { t as int } else { room }),
        decreases count - t,
    {
        if out.len() < limit {
            out.push(b);
        }
        proof {
            let before = if t < room { t as int } else { room };
            let after = if t + 1 < room { t + 1 } else { room };
            if before < room {
                assert(fill(b, before).push(b) =~= fill(b, after));
            } else {
                assert(before == after);
            }
        }
        t += 1;
    }
}

/// Compresses `data` with the run-length codec (the original length is
/// kept to 32 bits).
pub fn mock_compress(data: &[u8]) -> (r: Result<Vec<u8>>)
    ensures
        r matches Ok(v) && v@ == rle_encoded(data@),
{
    let len = data.len();
    let mut output: Vec<u8> = Vec::new();
    output.push(0xC0);
    output.push(0xED);
    let l32 = len as u32;
    output.push((l32 / 0x1000000) as u8);
    output.push(((l32 / 0x10000) % 256) as u8);
    output.push(((l32 / 0x100) % 256) as u8);
    output.push((l32 % 256) as u8);
    let ghost header = output@;
    assert(header =~= seq![0xC0u8, 0xEDu8] + be32(len as u32));
    let mut i: usize = 0;
    while i < len
        invariant
            len == data@.len(),
            0 <= i <= len,
            header == seq![0xC0u8, 0xEDu8] + be32(len as u32),
            output@ + tokens_from(data@, i as int) == header + tokens_from(data@, 0),
        decreases len - i,
    {
        let byte = data[i];
        let mut count: usize = 1;
        while i + count < len && data[i + count] == byte && count < MAX_RUN
            invariant
                len == data@.len(),
                i < len,
                byte == data@[i as int],
                1 <= count <= MAX_RUN,
                i + count <= len,
                run_len(data@, i as int) == run_from(data@, i as int, count as int),
            decreases MAX_RUN - count,
        {
            count += 1;
        }
        proof {
            assert(run_from(data@, i as int, count as int) == count);
        }
        let ghost before = output@;
        if count >= 4 {
            if count <= 255 {
                output.push(0xFE);
                output.push(byte);
                output.push(count as u8);
            } else {
                output.push(0xFF);
                output.push(byte);
                output.push((count / 256) as u8);
                output.push((count % 256) as u8);
            }
            assert(output@ =~= before + run_token(byte, count as int));
        } else {
            let mut j: usize = 0;
            while j < count
                invariant
                    count < 4,
                    0 <= j <= count,
                    output@ == before + repeat(escaped(byte), j as nat),
                decreases count - j,
            {
                let ghost mid = output@;
                output.push(byte);
                if byte == 0xFE || byte == 0xFF {
                    output.push(0x00);
                }
                assert(output@ =~= mid + escaped(byte));
                assert(before + repeat(escaped(byte), (j + 1) as nat) =~= before + repeat(escaped(byte), j as nat)
                    + escaped(byte));
                j += 1;
            }
        }
        proof {
            assert(tokens_from(data@, i as int) == run_token(byte, count as int) + tokens_from(
                data@,
                i + count,
            ));
            assert(output@ + tokens_from(data@, i + count) =~= before + tokens_from(data@, i as int));
        }
        i += count;
    }
    proof {
        assert(tokens_from(data@, len as int) =~= Seq::<u8>::empty());
        assert(output@ + tokens_from(data@, len as int) =~= output@);
    }
    Ok(output)
}

/// Decompresses run-length data into `original_size` bytes: the header
/// must carry the magic and `original_size`; runs are cut off and missing
/// bytes are zero so that exactly `original_size` bytes come out.
pub fn mock_decompress(data: &[u8], original_size: usize) -> (r: Result<Vec<u8>>)
    ensures
        match r {
            Ok(v) => rle_header_ok(data@, original_size) && v@ == rle_decoded(data@, original_size),
            Err(e) => !rle_header_ok(data@, original_size) && e is Internal,
        },
{
    if data.len() < 6 {
        return Err(Error::Internal("Compressed data too short".to_owned()));
    }
    if data[0] != 0xC0 || data[1] != 0xED {
        return Err(Error::Internal("Invalid compression magic".to_owned()));
    }
    let stored: u64 = data[2] as u64 * 0x1000000 + data[3] as u64 * 0x10000 + data[4] as u64 * 0x100
        + data[5] as u64;
    if stored != original_size as u64 {
        return Err(Error::Internal(size_mismatch_message(stored, original_size)));
    }
    let len = data.len();
    let mut output: Vec<u8> = Vec::new();
    let mut i: usize = 6;
    while i < len && output.len() < original_size
        invariant
            len == data@.len(),
            6 <= i <= len,
            output@.len() <= original_size,
            rle_decode(data@, i as int, output@, original_size as int) == rle_decoded(data@, original_size),
        decreases len - i,
    {
        let byte = data[i];
        i += 1;
        if byte == 0xFE && len - i > 1 {
            let run_byte = data[i];
            let count = data[i + 1] as usize;
            i += 2;
            push_run(&mut output, run_byte, count, original_size);
        } else if byte == 0xFF && len - i > 3 {
            let run_byte = data[i];
            let count = data[i + 1] as usize * 256 + data[i + 2] as usize;
            i += 3;
            push_run(&mut output, run_byte, count, original_size);
        } else if (byte == 0xFE || byte == 0xFF) && i < len && data[i] == 0x00 {
            output.push(byte);
            i += 1;
        } else {
            output.push(byte);
        }
    }
    let ghost before = output@;
    while output.len() < original_size
        invariant
            before.len() <= output@.len() <= original_size,
            output@ == before + zeros((output@.len() - before.len()) as nat),
        decreases original_size - output@.len(),
    {
        output.push(0);
        assert(output@ =~= before + zeros((output@.len() - before.len()) as nat));
    }
    proof {
        if before.len() < original_size {
            assert(output@ =~= before + zeros((original_size - before.len()) as nat));
        } else {
            assert(output@ =~= before);
        }
    }
    Ok(output)
}

/// Message of a header whose length differs from the expected one (`format!`).
#[verifier::external_body]
fn size_mismatch_message(stored: u64, expected: usize) -> String {
    format!("Size mismatch: stored={}, expected={}", stored, expected)
}

/// Compresses a buffer with the run-length codec into a new buffer.
pub fn compress_buffer(data: &DmaBuf) -> (r: Result<DmaBuf>)
    ensures
        r matches Ok(b) && b@ == rle_encoded(data@),
{
    let compressed = match mock_compress(data.as_slice()) {
        Ok(v) => v,
        Err(e) => return Err(e),
    };
    Ok(DmaBuf::from_vec(compressed))
}

/// Decompresses a buffer into a new buffer of `original_size` bytes.
pub fn decompress_buffer(data: &DmaBuf, original_size: usize) -> (r: Result<DmaBuf>)
    ensures
        match r {
            Ok(b) => rle_header_ok(data@, original_size) && original_size > 0 && b@ == rle_decoded(
                data@,
                original_size,
            ),
            Err(e) => !rle_header_ok(data@, original_size) || original_size == 0,
        },
{
    let decompressed = match mock_decompress(data.as_slice(), original_size) {
        Ok(v) => v,
        Err(e) => return Err(e),
    };
    let mut output = match DmaBuf::new(original_size) {
        Ok(b) => b,
        Err(e) => return Err(e),
    };
    proof {
        lemma_rle_decoded_len(data@, original_size);
    }
    output.copy_from_slice(decompressed.as_slice());
    assert(output@ =~= decompressed@);
    Ok(output)
}

/// A copy of a buffer (which must not be empty).
pub fn clone_buffer(data: &DmaBuf) -> (r: Result<DmaBuf>)
    ensures
        match r {
            Ok(b) => b@ == data@,
            Err(e) => data@.len() == 0 && e is DmaAllocationFailed,
        },
{
    let mut new_buf = match DmaBuf::new(data.len()) {
        Ok(b) => b,
        Err(e) => return Err(e),
    };
    new_buf.copy_from_slice(data.as_slice());
    assert(new_buf@ =~= data@);
    Ok(new_buf)
}

/// How often each byte value occurs in the first `ENTROPY_SAMPLE_SIZE`
/// bytes of `data` (the entropy sample).
pub fn byte_histogram(data: &[u8]) -> (r: Vec<u64>)
    ensures
        r@.len() == 256,
        forall|v: int|
            0 <= v < 256 ==> #[trigger] r@[v] == count_byte(
                data@.subrange(0, sample_len(data@.len()) as int),
                v as u8,
            ),
{
    let n = if data.len() < ENTROPY_SAMPLE_SIZE {
        data.len()
    } else {
        ENTROPY_SAMPLE_SIZE
    };
    let mut freq: Vec<u64> = Vec::new();
    let mut v: usize = 0;
    while v < 256
        invariant
            0 <= v <= 256,
            freq@.len() == v,
            forall|w: int| 0 <= w < v ==> freq@[w] == 0,
        decreases 256 - v,
    {
        freq.push(0);
        v += 1;
    }
    let mut i: usize = 0;
    while i < n
        invariant
            n <= data@.len(),
            n <= ENTROPY_SAMPLE_SIZE,
            0 <= i <= n,
            freq@.len() == 256,
            forall|w: int| 0 <= w < 256 ==> #[trigger] freq@[w] == count_byte(data@.subrange(0, i as int), w as u8),
        decreases n - i,
    {
        let b = data[i];
        proof {
            assert(data@.subrange(0, i + 1).drop_last() =~= data@.subrange(0, i as int));
            lemma_count_byte_bound(data@.subrange(0, i as int), b);
        }
        let c = freq[b as usize];
        freq.set(b as usize, c + 1);
        i += 1;
    }
    freq
}

/// Bytes of a `len`-byte input that the entropy sample covers.
pub open spec fn sample_len(len: nat) -> nat {
    if len < ENTROPY_SAMPLE_SIZE {
        len
    } else {
        ENTROPY_SAMPLE_SIZE as nat
    }
}

/// How often `b` occurs in `s`.
pub open spec fn count_byte(s: Seq<u8>, b: u8) -> nat
    decreases s.len(),
{
    if s.len() == 0 {
        0
    } else {
        count_byte(s.drop_last(), b) + if s.last() == b {
            1nat
        } else {
            0nat
        }
    }
}

proof fn lemma_count_byte_bound(s: Seq<u8>, b: u8)
    ensures
        count_byte(s, b) <= s.len(),
    decreases s.len(),
{
    if s.len() > 0 {
        lemma_count_byte_bound(s.drop_last(), b);
    }
}

/// Decoding never produces more than `n` bytes once `out` holds at most
/// `n`, and always produces exactly `n`.
proof fn lemma_rle_decode_len(data: Seq<u8>, i: int, out: Seq<u8>, n: int)
    requires
        out.len() <= n,
    ensures
        rle_decode(data, i, out, n).len() == n,
    decreases data.len() - i,
{
    if 0 <= i < data.len() && out.len() < n {
        let byte = data[i];
        let j = i + 1;
        let room = n - out.len();
        if byte == 0xFE && j + 1 < data.len() {
            let count = data[j + 1] as int;
            lemma_rle_decode_len(data, j + 2, out + fill(data[j], if count < room { count } else { room }), n);
        } else if byte == 0xFF && j + 3 < data.len() {
            let count = data[j + 1] * 256 + data[j + 2];
            lemma_rle_decode_len(data, j + 3, out + fill(data[j], if count < room { count } else { room }), n);
        } else if (byte == 0xFE || byte == 0xFF) && j < data.len() && data[j] == 0 {
            lemma_rle_decode_len(data, j + 1, out.push(byte), n);
        } else {
            lemma_rle_decode_len(data, j, out.push(byte), n);
        }
    }
}

/// Decompressed data has exactly the requested length.
pub proof fn lemma_rle_decoded_len(data: Seq<u8>, original_size: usize)
    ensures
        rle_decoded(data, original_size).len() == original_size,
{
    lemma_rle_decode_len(data, 6, Seq::empty(), original_size as int);
}


/// Whether every run of `data` from position `i` on is decoded as it was
/// encoded: a run of fewer than four `0xFE`/`0xFF` bytes (written as
/// escaped literals) may only be a single byte at the very end, and a run
/// longer than 255 bytes may not end the data.
pub open spec fn runs_safe_from(data: Seq<u8>, i: int) -> bool
    decreases data.len() - i,
{
    if 0 <= i < data.len() {
        proof {
            lemma_run_from_bounds(data, i, 1);
        }
        let c = run_len(data, i);
        let b = data[i];
        &&& (c < 4 && (b == 0xFE || b == 0xFF)) ==> (c == 1 && i + 1 == data.len())
        &&& c > 255 ==> i + c < data.len()
        &&& runs_safe_from(data, i + c)
    } else {
        true
    }
}

/// Every byte of a run equals its first byte.
proof fn lemma_run_from_same(data: Seq<u8>, i: int, c: int)
    requires
        0 <= i,
        1 <= c,
        i + c <= data.len(),
        forall|k: int| i <= k < i + c ==> data[k] == data[i],
    ensures
        forall|k: int| i <= k < i + run_from(data, i, c) ==> data[k] == data[i],
    decreases MAX_RUN - c,
{
    if c < MAX_RUN && i + c < data.len() && data[i + c] == data[i] {
        lemma_run_from_same(data, i, c + 1);
    }
}

/// The big-endian bytes of a 32-bit length read back as the length.
proof fn lemma_be32(x: u32)
    ensures
        ({
            let h = seq![0xC0u8, 0xEDu8] + be32(x);
            h[2] * 0x1000000 + h[3] * 0x10000 + h[4] * 0x100 + h[5] == x
        }),
{
    let h = seq![0xC0u8, 0xEDu8] + be32(x);
    let a = x / 0x1000000;
    let r1 = x % 0x1000000;
    let b = r1 / 0x10000;
    let r2 = r1 % 0x10000;
    let c = r2 / 0x100;
    let d = r2 % 0x100;
    assert(x == a * 0x1000000 + b * 0x10000 + c * 0x100 + d && a < 256) by (nonlinear_arith)
        requires
            a == x / 0x1000000,
            r1 == x % 0x1000000,
            b == r1 / 0x10000,
            r2 == r1 % 0x10000,
            c == r2 / 0x100,
            d == r2 % 0x100,
            x < 0x100000000,
    ;
    assert((x / 0x10000) % 256 == b && (x / 0x100) % 256 == c && x % 256 == d) by (nonlinear_arith)
        requires
            x == a * 0x1000000 + b * 0x10000 + c * 0x100 + d,
            0 <= b < 256,
            0 <= c < 256,
            0 <= d < 256,
            a >= 0,
    ;
    assert(h[2] == a && h[3] == b && h[4] == c && h[5] == d);
}

/// Copies of a one-byte sequence are a run of that byte.
proof fn lemma_repeat_single(b: u8, k: nat)
    ensures
        repeat(seq![b], k) == fill(b, k as int),
    decreases k,
{
    if k > 0 {
        lemma_repeat_single(b, (k - 1) as nat);
        assert(fill(b, (k - 1) as int) + seq![b] =~= fill(b, k as int));
    } else {
        assert(repeat(seq![b], 0) =~= fill(b, 0));
    }
}

/// `k` literal copies of a byte that is not a run marker decode to `k`
/// copies of it.
proof fn lemma_decode_literals(enc: Seq<u8>, p: int, out: Seq<u8>, n: int, b: u8, k: nat, rest: Seq<u8>)
    requires
        b != 0xFE && b != 0xFF,
        0 <= p <= enc.len(),
        enc.subrange(p, enc.len() as int) == fill(b, k as int) + rest,
        out.len() + k <= n,
    ensures
        rle_decode(enc, p, out, n) == rle_decode(enc, p + k, out + fill(b, k as int), n),
    decreases k,
{
    if k > 0 {
        let tail = fill(b, (k - 1) as int) + rest;
        assert(fill(b, k as int) + rest =~= seq![b] + tail);
        assert(p < enc.len()) by {
            assert(enc.subrange(p, enc.len() as int).len() == k + rest.len());
        }
        assert(enc[p] == b) by {
            assert(enc.subrange(p, enc.len() as int)[0] == (seq![b] + tail)[0]);
        }
        assert(enc.subrange(p + 1, enc.len() as int) =~= tail) by {
            assert(enc.subrange(p, enc.len() as int).subrange(1, enc.len() - p) =~= enc.subrange(
                p + 1,
                enc.len() as int,
            ));
            assert((seq![b] + tail).subrange(1, (seq![b] + tail).len() as int) =~= tail);
        }
        assert(rle_decode(enc, p, out, n) == rle_decode(enc, p + 1, out.push(b), n));
        lemma_decode_literals(enc, p + 1, out.push(b), n, b, (k - 1) as nat, rest);
        assert(out.push(b) + fill(b, (k - 1) as int) =~= out + fill(b, k as int));
    } else {
        assert(out + fill(b, 0) =~= out);
    }
}

/// Decoding the tokens of `data[i..]` after `data[..i]` gives `data`.
proof fn lemma_decode_tokens(data: Seq<u8>, i: int, enc: Seq<u8>, p: int)
    requires
        0 <= i <= data.len(),
        0 <= p <= enc.len(),
        enc.subrange(p, enc.len() as int) == tokens_from(data, i),
        runs_safe_from(data, i),
    ensures
        rle_decode(enc, p, data.subrange(0, i), data.len() as int) == data,
    decreases data.len() - i,
{
    let n = data.len() as int;
    let out = data.subrange(0, i);
    if i == n {
        assert(tokens_from(data, i) =~= Seq::<u8>::empty());
        assert(enc.subrange(p, enc.len() as int).len() == 0);
        assert(out =~= data);
    } else {
        lemma_run_from_bounds(data, i, 1);
        lemma_run_from_same(data, i, 1);
        let c = run_len(data, i);
        let b = data[i];
        let t = run_token(b, c);
        let rest = tokens_from(data, i + c);
        assert(enc.subrange(p, enc.len() as int) == t + rest);
        let q = p + t.len();
        assert(enc.subrange(q, enc.len() as int) =~= rest) by {
            assert(enc.subrange(p, enc.len() as int).subrange(t.len() as int, enc.len() - p) =~= enc.subrange(
                q,
                enc.len() as int,
            ));
        }
        assert(forall|k: int| 0 <= k < t.len() ==> enc[p + k] == t[k]) by {
            assert forall|k: int| 0 <= k < t.len() implies enc[p + k] == t[k] by {
                assert(enc.subrange(p, enc.len() as int)[k] == (t + rest)[k]);
            }
        }
        let next = data.subrange(0, i + c);
        assert(out + fill(b, c) =~= next);
        lemma_decode_tokens(data, i + c, enc, q);
        if c >= 4 {
            if c <= 255 {
                assert(enc[p] == 0xFE && enc[p + 1] == b && enc[p + 2] == c as u8);
                assert(rle_decode(enc, p, out, n) == rle_decode(enc, p + 3, out + fill(b, c), n));
            } else {
                assert(rest.len() > 0) by {
                    lemma_run_from_bounds(data, i + c, 1);
                    lemma_tokens_nonempty(data, i + c);
                }
                assert(enc[p] == 0xFF && enc[p + 1] == b && enc[p + 2] == (c / 256) as u8 && enc[p + 3] == (c
                    % 256) as u8);
                assert(c <= MAX_RUN);
                assert(enc[p + 2] * 256 + enc[p + 3] == c) by (nonlinear_arith)
                    requires
                        enc[p + 2] == (c / 256) as u8,
                        enc[p + 3] == (c % 256) as u8,
                        256 <= c <= 65535,
                ;
                assert(rle_decode(enc, p, out, n) == rle_decode(enc, p + 4, out + fill(b, c), n));
            }
        } else if b == 0xFE || b == 0xFF {
            assert(c == 1 && i + 1 == n);
            assert(repeat(escaped(b), 0) =~= Seq::<u8>::empty());
            assert(t =~= seq![b, 0x00u8]);
            assert(rest =~= Seq::<u8>::empty());
            assert(enc.len() == p + 2);
            assert(out.push(b) =~= out + fill(b, c));
            assert(rle_decode(enc, p, out, n) == rle_decode(enc, p + 2, out.push(b), n));
        } else {
            assert(escaped(b) =~= seq![b]);
            lemma_repeat_single(b, c as nat);
            assert(t == fill(b, c));
            lemma_decode_literals(enc, p, out, n, b, c as nat, rest);
        }
    }
}

proof fn lemma_repeat_len(s: Seq<u8>, k: nat)
    ensures
        repeat(s, k).len() == s.len() * k,
    decreases k,
{
    if k > 0 {
        lemma_repeat_len(s, (k - 1) as nat);
        let a = s.len() as int;
        let kk = k as int;
        assert(a * kk == a * (kk - 1) + a) by (nonlinear_arith);
        assert(repeat(s, k).len() == repeat(s, (k - 1) as nat).len() + s.len());
    } else {
        assert(repeat(s, 0).len() == 0);
    }
}

proof fn lemma_tokens_nonempty(data: Seq<u8>, i: int)
    requires
        0 <= i < data.len(),
    ensures
        tokens_from(data, i).len() > 0,
{
    lemma_run_from_bounds(data, i, 1);
    let c = run_len(data, i);
    let b = data[i];
    if c < 4 {
        lemma_repeat_len(escaped(b), c as nat);
        assert(escaped(b).len() * c >= 1) by (nonlinear_arith)
            requires
                escaped(b).len() >= 1,
                c >= 1,
        ;
    }
}

/// Decompressing what `mock_compress` produced gives the data back, for
/// data of at most `u32::MAX` bytes whose runs are all decoded as encoded
/// (see `runs_safe_from`): the header matches and the bytes are the data.
pub proof fn law_rle_roundtrip(data: Seq<u8>)
    requires
        data.len() <= u32::MAX,
        runs_safe_from(data, 0),
    ensures
        rle_header_ok(rle_encoded(data), data.len() as usize),
        rle_decoded(rle_encoded(data), data.len() as usize) == data,
{
    let enc = rle_encoded(data);
    lemma_be32(data.len() as u32);
    assert(enc.subrange(6, enc.len() as int) =~= tokens_from(data, 0));
    lemma_decode_tokens(data, 0, enc, 6);
    assert(data.subrange(0, 0) =~= Seq::<u8>::empty());
}

/// Decompressing what `mock_compress` produced always succeeds for data of
/// at most `u32::MAX` bytes and gives exactly as many bytes as the data had.
pub proof fn law_rle_roundtrip_len(data: Seq<u8>)
    requires
        data.len() <= u32::MAX,
    ensures
        rle_header_ok(rle_encoded(data), data.len() as usize),
        rle_decoded(rle_encoded(data), data.len() as usize).len() == data.len(),
{
    lemma_be32(data.len() as u32);
    lemma_rle_decoded_len(rle_encoded(data), data.len() as usize);
}

} // verus!
