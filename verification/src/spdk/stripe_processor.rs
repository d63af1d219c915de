//! Stripe processing: splitting data across the data shards of a stripe,
//! encoding parity, and reassembling the data from the shards, with pools
//! of reusable shard buffers.

use vstd::prelude::*;

use super::dma_buf::zeros;
use super::gf_matrix::invertible;
use super::isal_codec::{
    first_survivors, survivor_matrix,
    bufs_view, generator_matrix, gf_combination, is_codeword, lemma_comb_ext, shards_match, shards_sized, IsalCodec,
    IsalCodecConfig, MatrixType,
};
use super::{DmaBuf, SimdLevel};
use crate::clock::{elapsed_micros, instant_now};
use crate::error::{Error, Result};

verus! {

/// Buffer pool statistics: (allocated, hits, misses, available)
pub type PoolStats = (u64, u64, u64, usize);

// =============================================================================
// Configuration
// =============================================================================

/// Configuration for the stripe processor.
#[derive(Debug, Clone, Copy, PartialEq, Eq)]
pub struct StripeProcessorConfig {
    /// Number of data shards (k)
    pub data_shards: u8,
    /// Number of parity shards (m)
    pub parity_shards: u8,
    /// Size of each stripe in bytes (total data before encoding), split
    /// into k data shards
    pub stripe_size: usize,
    /// Matrix type for encoding
    pub matrix_type: MatrixType,
    /// Number of buffers to pre-allocate in the pool
    pub buffer_pool_size: usize,
    /// Maximum concurrent encode/decode operations
    pub max_concurrent_ops: usize,
    /// Whether to verify parity after encoding
    pub verify_after_encode: bool,
    /// Whether to zero buffers after use (security)
    pub zero_on_release: bool,
    /// Read timeout for shard operations, in milliseconds
    pub read_timeout_ms: u64,
    /// Write timeout for shard operations, in milliseconds
    pub write_timeout_ms: u64,
}

/// `a / b` rounded up.
pub open spec fn div_ceil(a: int, b: int) -> int {
    if a % b == 0 {
        a / b
    } else {
        a / b + 1
    }
}

/// Shard size for a stripe of `stripe_size` bytes over `k` data shards: the
/// stripe divided by `k` rounded up, then rounded up to a multiple of 32.
pub open spec fn shard_size_for(stripe_size: usize, k: u8) -> usize {
    ((div_ceil(stripe_size as int, k as int) + 31) as usize) & !31usize
}

/// Whether a processor configuration is acceptable.
pub open spec fn processor_config_valid(c: StripeProcessorConfig) -> bool {
    &&& c.data_shards >= 1
    &&& c.parity_shards >= 1
    &&& c.data_shards + c.parity_shards <= 255
    &&& c.stripe_size > 0
    &&& c.buffer_pool_size > 0
    &&& c.max_concurrent_ops > 0
}

impl StripeProcessorConfig {
    /// A configuration with the given erasure-coding shape and defaults
    /// otherwise.
    pub fn new(data_shards: u8, parity_shards: u8, stripe_size: usize) -> (r: StripeProcessorConfig)
        ensures
            r == (StripeProcessorConfig {
                data_shards,
                parity_shards,
                stripe_size,
                matrix_type: MatrixType::Cauchy,
                buffer_pool_size: 32,
                max_concurrent_ops: 8,
                verify_after_encode: false,
                zero_on_release: true,
                read_timeout_ms: 30_000,
                write_timeout_ms: 30_000,
            }),
    {
        StripeProcessorConfig {
            data_shards,
            parity_shards,
            stripe_size,
            matrix_type: MatrixType::Cauchy,
            buffer_pool_size: 32,
            max_concurrent_ops: 8,
            verify_after_encode: false,
            zero_on_release: true,
            read_timeout_ms: 30_000,
            write_timeout_ms: 30_000,
        }
    }

    /// Shard size: the stripe divided over the data shards, rounded up,
    /// then rounded up to a multiple of 32 bytes.
    pub fn shard_size(&self) -> (r: usize)
        requires
            self.data_shards > 0,
            div_ceil(self.stripe_size as int, self.data_shards as int) + 31 <= usize::MAX,
        ensures
            r == shard_size_for(self.stripe_size, self.data_shards),
            r >= div_ceil(self.stripe_size as int, self.data_shards as int),
            r % 32 == 0,
            r < div_ceil(self.stripe_size as int, self.data_shards as int) + 32,
    {
        let k = self.data_shards as usize;
        let base_size = if self.stripe_size % k == 0 {
            self.stripe_size / k
        } else {
            self.stripe_size / k + 1
        };
        let y = base_size + 31;
        let r = y & !31usize;
        assert(r <= y && y - r <= 31 && r & 31 == 0) by (bit_vector)
            requires
                r == y & !31usize,
        ;
        assert(r % 32 == 0) by (bit_vector)
            requires
                r & 31 == 0,
        ;
        r
    }

    /// Total number of shards per stripe.
    pub fn total_shards(&self) -> (r: usize)
        ensures
            r == self.data_shards + self.parity_shards,
    {
        self.data_shards as usize + self.parity_shards as usize
    }

    /// Checks the configuration.
    pub fn validate(&self) -> (r: Result<()>)
        ensures
            r is Ok <==> processor_config_valid(*self),
            r matches Err(e) ==> e is InvalidEcConfig,
    {
        if self.data_shards == 0 {
            return Err(Error::InvalidEcConfig("data_shards must be >= 1".to_owned()));
        }
        if self.parity_shards == 0 {
            return Err(Error::InvalidEcConfig("parity_shards must be >= 1".to_owned()));
        }
        if self.total_shards() > 255 {
            return Err(Error::InvalidEcConfig("total shards must be <= 255".to_owned()));
        }
        if self.stripe_size == 0 {
            return Err(Error::InvalidEcConfig("stripe_size must be > 0".to_owned()));
        }
        if self.buffer_pool_size == 0 {
            return Err(Error::InvalidEcConfig("buffer_pool_size must be > 0".to_owned()));
        }
        if self.max_concurrent_ops == 0 {
            return Err(Error::InvalidEcConfig("max_concurrent_ops must be > 0".to_owned()));
        }
        Ok(())
    }
}

impl Default for StripeProcessorConfig {
    fn default() -> (r: Self)
        ensures
            r == (StripeProcessorConfig {
                data_shards: 4,
                parity_shards: 2,
                stripe_size: 1048576,
                matrix_type: MatrixType::Cauchy,
                buffer_pool_size: 32,
                max_concurrent_ops: 8,
                verify_after_encode: false,
                zero_on_release: true,
                read_timeout_ms: 30_000,
                write_timeout_ms: 30_000,
            }),
    {
        Self::new(4, 2, 1048576)
    }
}

// =============================================================================
// Stripe Metadata
// =============================================================================

/// Metadata about an encoded stripe.
#[derive(Debug, Clone)]
pub struct StripeInfo {
    /// Unique stripe identifier
    pub stripe_id: u64,
    /// Original data size before padding
    pub original_size: usize,
    /// Padded shard size
    pub shard_size: usize,
    /// Number of data shards
    pub data_shards: u8,
    /// Number of parity shards
    pub parity_shards: u8,
    /// Encoding timestamp
    pub encoded_at: std::time::Instant,
    /// Encoding duration, in microseconds
    pub encode_duration_us: u64,
    /// Checksum of original data (optional)
    pub checksum: Option<u64>,
}

impl StripeInfo {
    /// Total storage used by this stripe (all shards).
    pub fn total_storage(&self) -> (r: usize)
        requires
            self.shard_size * (self.data_shards + self.parity_shards) <= usize::MAX,
        ensures
            r == self.shard_size * (self.data_shards + self.parity_shards),
    {
        self.shard_size * (self.data_shards as usize + self.parity_shards as usize)
    }
}

// =============================================================================
// Shard Location
// =============================================================================

/// Location of a shard in storage.
#[derive(Debug, Clone, PartialEq, Eq)]
pub struct ShardLocation {
    /// Shard index (0 to k+m-1)
    pub shard_index: usize,
    /// Storage node/pool identifier
    pub node_id: String,
    /// Device/bdev name
    pub device: String,
    /// Offset within the device
    pub offset: u64,
    /// Whether this shard is known to be healthy
    pub healthy: bool,
}

impl ShardLocation {
    /// A healthy shard location.
    pub fn new(shard_index: usize, node_id: &str, device: &str, offset: u64) -> (r: ShardLocation)
        ensures
            r.shard_index == shard_index,
            r.node_id@ == node_id@,
            r.device@ == device@,
            r.offset == offset,
            r.healthy,
    {
        ShardLocation {
            shard_index,
            node_id: node_id.to_owned(),
            device: device.to_owned(),
            offset,
            healthy: true,
        }
    }
}

// =============================================================================
// Processing Statistics
// =============================================================================

/// Statistics for stripe processing operations.
#[derive(Debug, Clone, Copy, PartialEq, Eq, Default)]
pub struct ProcessorStats {
    /// Total stripes encoded
    pub stripes_encoded: u64,
    /// Total stripes decoded
    pub stripes_decoded: u64,
    /// Total reconstructions performed
    pub reconstructions: u64,
    /// Total bytes encoded
    pub bytes_encoded: u64,
    /// Total bytes decoded
    pub bytes_decoded: u64,
    /// Encode errors
    pub encode_errors: u64,
    /// Decode errors
    pub decode_errors: u64,
    /// Total encode time (microseconds)
    pub encode_time_us: u64,
    /// Total decode time (microseconds)
    pub decode_time_us: u64,
}

/// All processor counters at zero.
pub open spec fn zero_processor_stats() -> ProcessorStats {
    ProcessorStats {
        stripes_encoded: 0,
        stripes_decoded: 0,
        reconstructions: 0,
        bytes_encoded: 0,
        bytes_decoded: 0,
        encode_errors: 0,
        decode_errors: 0,
        encode_time_us: 0,
        decode_time_us: 0,
    }
}

/// 64-bit wrapping addition, as the counters use.
pub open spec fn add_w(a: u64, b: u64) -> u64 {
    vstd::wrapping::u64_specs::wrapping_add(a, b)
}

impl ProcessorStats {
    /// All counters at zero.
    pub fn new() -> (r: ProcessorStats)
        ensures
            r == zero_processor_stats(),
    {
        ProcessorStats {
            stripes_encoded: 0,
            stripes_decoded: 0,
            reconstructions: 0,
            bytes_encoded: 0,
            bytes_decoded: 0,
            encode_errors: 0,
            decode_errors: 0,
            encode_time_us: 0,
            decode_time_us: 0,
        }
    }

    /// Average encode time per stripe, in microseconds (0 before any).
    pub fn avg_encode_time(&self) -> (r: u64)
        ensures
            r == if self.stripes_encoded == 0 {
                0
            } else {
                self.encode_time_us / self.stripes_encoded
            },
    {
        if self.stripes_encoded == 0 {
            return 0;
        }
        self.encode_time_us / self.stripes_encoded
    }

    /// Average decode time per stripe, in microseconds (0 before any).
    pub fn avg_decode_time(&self) -> (r: u64)
        ensures
            r == if self.stripes_decoded == 0 {
                0
            } else {
                self.decode_time_us / self.stripes_decoded
            },
    {
        if self.stripes_decoded == 0 {
            return 0;
        }
        self.decode_time_us / self.stripes_decoded
    }

    /// Sets every counter to zero.
    pub fn reset(&mut self)
        ensures
            *final(self) == zero_processor_stats(),
    {
        *self = ProcessorStats::new();
    }
}

// =============================================================================
// Buffer Pool
// =============================================================================

/// Pool statistics after one buffer is taken: a pooled buffer is a hit,
/// an empty pool a miss and a new allocation.
pub open spec fn pool_after_get(s: PoolStats) -> PoolStats {
    if s.3 > 0 {
        (s.0, add_w(s.1, 1), s.2, (s.3 - 1) as usize)
    } else {
        (add_w(s.0, 1), s.1, add_w(s.2, 1), s.3)
    }
}

/// Pool statistics after `n` buffers are taken one after the other.
pub open spec fn pool_after_gets(s: PoolStats, n: nat) -> PoolStats
    decreases n,
{
    if n == 0 {
        s
    } else {
        pool_after_get(pool_after_gets(s, (n - 1) as nat))
    }
}

/// Pool statistics after a buffer of `len` bytes is handed back to a pool of
/// `size`-byte buffers holding at most `cap`: kept if it fits and there is room.
pub open spec fn pool_after_put(s: PoolStats, len: nat, size: usize, cap: usize) -> PoolStats {
    if len == size && s.3 < cap {
        (s.0, s.1, s.2, (s.3 + 1) as usize)
    } else {
        s
    }
}

/// Pool statistics after the buffers `lens` (by length) are handed back in order.
pub open spec fn pool_after_puts(s: PoolStats, lens: Seq<nat>, size: usize, cap: usize) -> PoolStats
    decreases lens.len(),
{
    if lens.len() == 0 {
        s
    } else {
        pool_after_put(pool_after_puts(s, lens.drop_last(), size, cap), lens.last(), size, cap)
    }
}

/// Pool of equally sized shard buffers for reuse.
#[derive(Debug)]
struct BufferPool {
    buffers: Vec<DmaBuf>,
    buffer_size: usize,
    max_capacity: usize,
    zero_on_release: bool,
    allocated: u64,
    hits: u64,
    misses: u64,
}

impl BufferPool {
    /// (allocated, hits, misses, available)
    spec fn stats_spec(&self) -> PoolStats {
        (self.allocated, self.hits, self.misses, self.buffers@.len() as usize)
    }

    /// Every pooled buffer has the pool's size, which is non-zero.
    spec fn wf(&self) -> bool {
        &&& self.buffer_size > 0
        &&& forall|i: int| 0 <= i < self.buffers@.len() ==> (#[trigger] self.buffers@[i])@.len() == self.buffer_size
    }

    /// A pool holding `initial_count` zeroed buffers.
    fn new(buffer_size: usize, initial_count: usize, max_capacity: usize, zero_on_release: bool) -> (r: Result<
        BufferPool,
    >)
        requires
            buffer_size > 0,
        ensures
            r matches Ok(p) && p.wf() && p.buffer_size == buffer_size && p.zero_on_release == zero_on_release
                && p.max_capacity == max_capacity && p.stats_spec() == (initial_count as u64, 0u64, 0u64, initial_count),
    {
        let mut buffers: Vec<DmaBuf> = Vec::new();
        let mut i: usize = 0;
        while i < initial_count
            invariant
                buffer_size > 0,
                0 <= i <= initial_count,
                buffers@.len() == i,
                forall|j: int| 0 <= j < buffers@.len() ==> (#[trigger] buffers@[j])@.len() == buffer_size,
            decreases initial_count - i,
        {
            let b = match DmaBuf::new_zeroed(buffer_size) {
                Ok(b) => b,
                Err(e) => return Err(e),
            };
            buffers.push(b);
            i += 1;
        }
        Ok(
            BufferPool {
                buffers,
                buffer_size,
                max_capacity,
                zero_on_release,
                allocated: initial_count as u64,
                hits: 0,
                misses: 0,
            },
        )
    }

    /// A buffer from the pool (zeroed if the pool zeroes buffers), else a
    /// new zeroed one.
    fn get(&mut self) -> (r: Result<DmaBuf>)
        requires
            old(self).wf(),
        ensures
            final(self).wf(),
            final(self).buffer_size == old(self).buffer_size,
            final(self).zero_on_release == old(self).zero_on_release,
            final(self).max_capacity == old(self).max_capacity,
            r matches Ok(b) && b@.len() == old(self).buffer_size && (old(self).zero_on_release ==> b@ == zeros(
                old(self).buffer_size as nat,
            )),
            final(self).stats_spec() == pool_after_get(old(self).stats_spec()),
    {
        let available = self.buffers.len();
        assert(available == old(self).buffers@.len());
        match self.buffers.pop() {
            Some(buf) => {
                let mut buf = buf;
                self.hits = self.hits.wrapping_add(1);
                if self.zero_on_release {
                    buf.zero();
                }
                Ok(buf)
            },
            None => {
                self.misses = self.misses.wrapping_add(1);
                self.allocated = self.allocated.wrapping_add(1);
                DmaBuf::new_zeroed(self.buffer_size)
            },
        }
    }

    /// Takes a buffer back (zeroing it if the pool zeroes buffers) if it
    /// has the pool's size and the pool has room.
    fn put(&mut self, buf: DmaBuf)
        requires
            old(self).wf(),
        ensures
            final(self).wf(),
            final(self).buffer_size == old(self).buffer_size,
            final(self).zero_on_release == old(self).zero_on_release,
            final(self).max_capacity == old(self).max_capacity,
            final(self).stats_spec() == pool_after_put(
                old(self).stats_spec(),
                buf@.len(),
                old(self).buffer_size,
                old(self).max_capacity,
            ),
    {
        if buf.len() != self.buffer_size {
            return;
        }
        let mut buf = buf;
        if self.zero_on_release {
            buf.zero();
        }
        if self.buffers.len() < self.max_capacity {
            self.buffers.push(buf);
        }
    }

    /// (allocated, hits, misses, available)
    fn stats(&self) -> (r: PoolStats)
        ensures
            r == self.stats_spec(),
    {
        (self.allocated, self.hits, self.misses, self.buffers.len())
    }
}

// =============================================================================
// Stripe layout
// =============================================================================

/// Offset of chunk `i` when `len` bytes are cut into chunks of `per` bytes
/// (`len` once the chunks run out).
pub open spec fn chunk_start(i: int, per: int, len: int) -> int {
    if i * per < len {
        i * per
    } else {
        len
    }
}

/// Length of chunk `i` when `len` bytes are cut into chunks of `per` bytes.
pub open spec fn chunk_len(i: int, per: int, len: int) -> int {
    chunk_start(i + 1, per, len) - chunk_start(i, per, len)
}

/// Whether `shard` holds chunk `i` of `data` at its start, with `per` bytes
/// per data shard, and is `size` bytes long; when `zeroed`, the rest of the
/// shard is zero.
pub open spec fn shard_holds_chunk(shard: Seq<u8>, data: Seq<u8>, i: int, per: int, size: int, zeroed: bool) -> bool {
    let start = chunk_start(i, per, data.len() as int);
    let n = chunk_len(i, per, data.len() as int);
    &&& shard.len() == size
    &&& shard.subrange(0, n) == data.subrange(start, start + n)
    &&& zeroed ==> shard.subrange(n, size) == zeros((size - n) as nat)
}

/// The data read back from the first `n` data shards: from shard `i`, the
/// bytes of chunk `i` of a `len`-byte stripe with `per` bytes per shard, at
/// most `size` of them.
pub open spec fn reassembled(shards: Seq<Seq<u8>>, n: nat, per: int, len: int, size: int) -> Seq<u8>
    decreases n,
{
    if n == 0 {
        Seq::empty()
    } else {
        let i = n - 1;
        let take = if chunk_len(i, per, len) < size {
            chunk_len(i, per, len)
        } else {
            size
        };
        reassembled(shards, (n - 1) as nat, per, len, size) + shards[i].subrange(0, take)
    }
}

/// Xor of all bytes, widened to 64 bits.
pub open spec fn xor_fold(data: Seq<u8>) -> u64
    decreases data.len(),
{
    if data.len() == 0 {
        0
    } else {
        xor_fold(data.drop_last()) ^ (data.last() as u64)
    }
}

/// `div_ceil` bounds: the chunks cover the data, and no chunk is longer
/// than the data.
pub proof fn lemma_div_ceil(a: int, b: int)
    requires
        a >= 0,
        b > 0,
    ensures
        div_ceil(a, b) * b >= a,
        0 <= div_ceil(a, b) <= a,
        a > 0 ==> div_ceil(a, b) > 0,
{
    vstd::arithmetic::div_mod::lemma_fundamental_div_mod(a, b);
    vstd::arithmetic::div_mod::lemma_mod_bound(a, b);
    vstd::arithmetic::div_mod::lemma_div_pos_is_pos(a, b);
    let q = a / b;
    let r = a % b;
    if r != 0 {
        assert((q + 1) * b >= a && q + 1 <= a) by (nonlinear_arith)
            requires
                a == b * q + r,
                0 < r < b,
                q >= 0,
        ;
    } else {
        assert(q * b >= a && q <= a && (a > 0 ==> q > 0)) by (nonlinear_arith)
            requires
                a == b * q + r,
                r == 0,
                q >= 0,
                b >= 1,
        ;
    }
}

/// `div_ceil` is monotonic in its first argument.
pub proof fn lemma_div_ceil_mono(a1: int, a2: int, b: int)
    requires
        0 <= a1 <= a2,
        b > 0,
    ensures
        div_ceil(a1, b) <= div_ceil(a2, b),
{
    vstd::arithmetic::div_mod::lemma_div_is_ordered(a1, a2, b);
    vstd::arithmetic::div_mod::lemma_fundamental_div_mod(a1, b);
    vstd::arithmetic::div_mod::lemma_fundamental_div_mod(a2, b);
    if a1 / b == a2 / b && a1 % b != 0 {
        assert(a2 % b != 0);
    }
}

/// Chunk offsets step by `per` until they reach the end.
proof fn lemma_chunk_step(i: int, per: int, len: int)
    requires
        i >= 0,
        per >= 0,
        len >= 0,
    ensures
        chunk_start(i + 1, per, len) == if len - chunk_start(i, per, len) <= per {
            len
        } else {
            chunk_start(i, per, len) + per
        },
        0 <= chunk_start(i, per, len) <= chunk_start(i + 1, per, len) <= len,
        chunk_len(i, per, len) <= per,
{
    assert((i + 1) * per == i * per + per) by (nonlinear_arith);
    assert(i * per >= 0) by (nonlinear_arith)
        requires
            i >= 0,
            per >= 0,
    ;
}

/// Chunk `i` starts at `len` once `i * per` reaches it.
proof fn lemma_chunk_start_end(k: int, per: int, len: int)
    requires
        k > 0,
        per == div_ceil(len, k),
        len >= 0,
    ensures
        chunk_start(k, per, len) == len,
{
    lemma_div_ceil(len, k);
    assert(k * per == per * k) by (nonlinear_arith);
}

/// The bytes read back from the first `n` data shards of a stripe that was
/// laid out chunk by chunk are the data up to the start of chunk `n`.
proof fn lemma_reassembled_prefix(shards: Seq<Seq<u8>>, data: Seq<u8>, n: nat, per: int, size: int)
    requires
        per >= 0,
        per <= size,
        n <= shards.len(),
        forall|i: int| 0 <= i < n ==> shard_holds_chunk(#[trigger] shards[i], data, i, per, size, false),
    ensures
        reassembled(shards, n, per, data.len() as int, size) == data.subrange(
            0,
            chunk_start(n as int, per, data.len() as int),
        ),
    decreases n,
{
    let len = data.len() as int;
    if n == 0 {
        assert(chunk_start(0, per, len) == 0);
        assert(data.subrange(0, 0) =~= Seq::<u8>::empty());
    } else {
        let i = n - 1;
        lemma_reassembled_prefix(shards, data, (n - 1) as nat, per, size);
        lemma_chunk_step(i, per, len);
        assert(shard_holds_chunk(shards[i], data, i, per, size, false));
        let a = chunk_start(i, per, len);
        let c = chunk_len(i, per, len);
        assert(data.subrange(0, a) + data.subrange(a, a + c) =~= data.subrange(0, a + c));
    }
}

/// Reading back the data shards of a stripe laid out chunk by chunk gives
/// the data: `per` is the data divided over the `k` data shards (rounded
/// up), and each data shard of `size >= per` bytes holds its chunk.
pub proof fn law_reassemble_inverts_layout(shards: Seq<Seq<u8>>, data: Seq<u8>, k: nat, size: int, zeroed: bool)
    requires
        k > 0,
        k <= shards.len(),
        div_ceil(data.len() as int, k as int) <= size,
        forall|i: int|
            0 <= i < k ==> shard_holds_chunk(
                #[trigger] shards[i],
                data,
                i,
                div_ceil(data.len() as int, k as int),
                size,
                zeroed,
            ),
    ensures
        reassembled(shards, k, div_ceil(data.len() as int, k as int), data.len() as int, size) == data,
{
    let per = div_ceil(data.len() as int, k as int);
    lemma_div_ceil(data.len() as int, k as int);
    assert forall|i: int| 0 <= i < k implies shard_holds_chunk(#[trigger] shards[i], data, i, per, size, false) by {
        assert(shard_holds_chunk(shards[i], data, i, per, size, zeroed));
    }
    lemma_reassembled_prefix(shards, data, k, per, size);
    lemma_chunk_start_end(k as int, per, data.len() as int);
    assert(data.subrange(0, data.len() as int) =~= data);
}

/// What is read back depends only on the first `n` shards.
proof fn lemma_reassembled_first(a: Seq<Seq<u8>>, b: Seq<Seq<u8>>, n: nat, per: int, len: int, size: int)
    requires
        n <= a.len(),
        n <= b.len(),
        forall|i: int| 0 <= i < n ==> a[i] == b[i],
    ensures
        reassembled(a, n, per, len, size) == reassembled(b, n, per, len, size),
    decreases n,
{
    if n > 0 {
        lemma_reassembled_first(a, b, (n - 1) as nat, per, len, size);
        assert(a[n - 1] == b[n - 1]);
    }
}

// =============================================================================
// Stripe Processor
// =============================================================================

/// Stripe processor for erasure-coding operations: splits data into data
/// shards, encodes parity, reassembles (reconstructing erased shards), and
/// manages pools of shard buffers.
#[derive(Debug)]
pub struct StripeProcessor {
    config: StripeProcessorConfig,
    codec: IsalCodec,
    data_pool: BufferPool,
    parity_pool: BufferPool,
    next_stripe_id: u64,
    stats: ProcessorStats,
}

/// Whether the shard size of a configuration can be computed.
pub open spec fn shard_size_fits(c: StripeProcessorConfig) -> bool {
    c.data_shards > 0 ==> div_ceil(c.stripe_size as int, c.data_shards as int) + 31 <= usize::MAX
}

/// Whether the pool capacities of a configuration can be computed.
pub open spec fn pool_capacity_fits(c: StripeProcessorConfig) -> bool {
    &&& c.buffer_pool_size * c.data_shards <= usize::MAX
    &&& c.buffer_pool_size * c.parity_shards <= usize::MAX
}

impl StripeProcessor {
    /// The configuration.
    pub closed spec fn config_spec(&self) -> StripeProcessorConfig {
        self.config
    }

    /// The statistics.
    pub closed spec fn stats_spec(&self) -> ProcessorStats {
        self.stats
    }

    /// The id the next encoded stripe gets.
    pub closed spec fn next_id(&self) -> u64 {
        self.next_stripe_id
    }

    /// Statistics of the data-shard pool.
    pub closed spec fn data_pool_spec(&self) -> PoolStats {
        self.data_pool.stats_spec()
    }

    /// Statistics of the parity-shard pool.
    pub closed spec fn parity_pool_spec(&self) -> PoolStats {
        self.parity_pool.stats_spec()
    }

    /// Capacity of the data-shard pool.
    pub closed spec fn data_pool_cap(&self) -> usize {
        self.data_pool.max_capacity
    }

    /// Capacity of the parity-shard pool.
    pub closed spec fn parity_pool_cap(&self) -> usize {
        self.parity_pool.max_capacity
    }

    /// Shard size in bytes.
    pub open spec fn shard_len(&self) -> usize {
        shard_size_for(self.config_spec().stripe_size, self.config_spec().data_shards)
    }

    /// The configuration is valid, the codec and both pools match it.
    pub closed spec fn wf(&self) -> bool {
        let ss = shard_size_for(self.config.stripe_size, self.config.data_shards);
        &&& processor_config_valid(self.config)
        &&& shard_size_fits(self.config)
        &&& self.codec.wf()
        &&& self.codec.k() == self.config.data_shards
        &&& self.codec.m() == self.config.parity_shards
        &&& self.codec.shard_len() == ss
        &&& ss >= div_ceil(self.config.stripe_size as int, self.config.data_shards as int)
        &&& ss % 32 == 0
        &&& self.data_pool.wf()
        &&& self.parity_pool.wf()
        &&& self.data_pool.buffer_size == ss
        &&& self.parity_pool.buffer_size == ss
        &&& self.data_pool.zero_on_release == self.config.zero_on_release
        &&& self.parity_pool.zero_on_release == self.config.zero_on_release
    }

    /// Facts of a well-formed processor that callers use.
    pub proof fn lemma_wf(&self)
        requires
            self.wf(),
        ensures
            processor_config_valid(self.config_spec()),
            shard_size_fits(self.config_spec()),
            self.shard_len() >= div_ceil(self.config_spec().stripe_size as int, self.config_spec().data_shards as int),
            self.shard_len() % 32 == 0,
            self.shard_len() > 0,
    {
        lemma_div_ceil(self.config.stripe_size as int, self.config.data_shards as int);
        if self.config.stripe_size > 0 {
            assert(div_ceil(self.config.stripe_size as int, self.config.data_shards as int) > 0) by {
                vstd::arithmetic::div_mod::lemma_fundamental_div_mod(
                    self.config.stripe_size as int,
                    self.config.data_shards as int,
                );
            }
        }
    }

    /// Creates a processor: checks the configuration, builds the codec and
    /// pre-fills both buffer pools.
    pub fn new(config: StripeProcessorConfig) -> (r: Result<StripeProcessor>)
        requires
            shard_size_fits(config),
            pool_capacity_fits(config),
        ensures
            r is Ok <==> processor_config_valid(config),
            r matches Err(e) ==> e is InvalidEcConfig,
            r matches Ok(p) ==> {
                &&& p.wf()
                &&& p.config_spec() == config
                &&& p.next_id() == 1
                &&& p.stats_spec() == zero_processor_stats()
                &&& p.data_pool_cap() == config.buffer_pool_size * config.data_shards
                &&& p.parity_pool_cap() == config.buffer_pool_size * config.parity_shards
            },
    {
        match config.validate() {
            Ok(()) => {},
            Err(e) => return Err(e),
        }
        proof {
            lemma_div_ceil(config.stripe_size as int, config.data_shards as int);
        }
        let shard_size = config.shard_size();
        let k = config.data_shards as usize;
        let m = config.parity_shards as usize;
        let codec_config = IsalCodecConfig {
            data_shards: config.data_shards,
            parity_shards: config.parity_shards,
            shard_size,
            matrix_type: config.matrix_type,
            force_simd: None,
        };
        let codec = match IsalCodec::new(codec_config) {
            Ok(c) => c,
            Err(e) => return Err(e),
        };
        proof {
            lemma_div_ceil(config.stripe_size as int, config.data_shards as int);
        }
        let per_k = config.buffer_pool_size / k;
        let n_k = if config.max_concurrent_ops < per_k { config.max_concurrent_ops } else { per_k };
        assert(k * n_k <= config.buffer_pool_size) by (nonlinear_arith)
            requires
                n_k <= per_k,
                per_k == config.buffer_pool_size / k,
                k > 0,
        ;
        let data_pool = match BufferPool::new(
            shard_size,
            k * n_k,
            config.buffer_pool_size * k,
            config.zero_on_release,
        ) {
            Ok(p) => p,
            Err(e) => return Err(e),
        };
        let per_m = config.buffer_pool_size / m;
        let n_m = if config.max_concurrent_ops < per_m { config.max_concurrent_ops } else { per_m };
        assert(m * n_m <= config.buffer_pool_size) by (nonlinear_arith)
            requires
                n_m <= per_m,
                per_m == config.buffer_pool_size / m,
                m > 0,
        ;
        let parity_pool = match BufferPool::new(
            shard_size,
            m * n_m,
            config.buffer_pool_size * m,
            config.zero_on_release,
        ) {
            Ok(p) => p,
            Err(e) => return Err(e),
        };
        let p = StripeProcessor {
            config,
            codec,
            data_pool,
            parity_pool,
            next_stripe_id: 1,
            stats: ProcessorStats::new(),
        };
        Ok(p)
    }

    /// The processor configuration.
    pub fn config(&self) -> (r: &StripeProcessorConfig)
        ensures
            *r == self.config_spec(),
    {
        &self.config
    }

    /// The SIMD level the codec uses.
    pub fn simd_level(&self) -> (r: SimdLevel)
        ensures
            r == SimdLevel::Scalar,
    {
        self.codec.simd_level()
    }

    /// The processing statistics.
    pub fn stats(&self) -> (r: ProcessorStats)
        ensures
            r == self.stats_spec(),
    {
        self.stats
    }

    /// The id the next encoded stripe will get.
    pub fn peek_next_stripe_id(&self) -> (r: u64)
        ensures
            r == self.next_id(),
    {
        self.next_stripe_id
    }

    /// Encodes `data` into a stripe: the `k` data shards hold the data chunk
    /// by chunk, `ceil(len / k)` bytes per shard, followed by the `m` parity
    /// shards; the stripe gets the next id.
    pub fn encode(&mut self, data: &[u8]) -> (r: Result<(Vec<DmaBuf>, StripeInfo)>)
        requires
            old(self).wf(),
        ensures
            final(self).wf(),
            final(self).config_spec() == old(self).config_spec(),
            r is Ok <==> data@.len() <= old(self).config_spec().stripe_size,
            r matches Err(e) ==> e is InvalidEcConfig,
            r is Err ==> {
                &&& final(self).stats_spec() == old(self).stats_spec()
                &&& final(self).next_id() == old(self).next_id()
                &&& final(self).data_pool_spec() == old(self).data_pool_spec()
                &&& final(self).parity_pool_spec() == old(self).parity_pool_spec()
            },
            r matches Ok((shards, info)) ==> {
                let c = old(self).config_spec();
                let k = c.data_shards as int;
                let m = c.parity_shards as int;
                let per = div_ceil(data@.len() as int, k);
                let ss = old(self).shard_len() as int;
                &&& shards@.len() == k + m
                &&& forall|i: int|
                    0 <= i < k ==> shard_holds_chunk(
                        (#[trigger] shards@[i])@,
                        data@,
                        i,
                        per,
                        ss,
                        c.zero_on_release,
                    )
                &&& forall|p: int| 0 <= p < m ==> (#[trigger] shards@[k + p])@.len() == ss
                &&& forall|p: int, j: int|
                    0 <= p < m && 0 <= j < ss ==> #[trigger] shards@[k + p]@[j] == gf_combination(
                        bufs_view(shards@.subrange(0, k)),
                        generator_matrix(k as nat, m as nat),
                        k,
                        k + p,
                        j,
                        k as nat,
                    )
                &&& info.stripe_id == old(self).next_id()
                &&& info.original_size == data@.len()
                &&& info.shard_size == ss
                &&& info.data_shards == c.data_shards
                &&& info.parity_shards == c.parity_shards
                &&& info.checksum == Some(xor_fold(data@))
                &&& final(self).next_id() == add_w(old(self).next_id(), 1)
                &&& final(self).stats_spec() == (ProcessorStats {
                    stripes_encoded: add_w(old(self).stats_spec().stripes_encoded, 1),
                    bytes_encoded: add_w(old(self).stats_spec().bytes_encoded, data@.len() as u64),
                    encode_time_us: add_w(old(self).stats_spec().encode_time_us, info.encode_duration_us),
                    ..old(self).stats_spec()
                })
                &&& final(self).data_pool_spec() == pool_after_gets(old(self).data_pool_spec(), k as nat)
                &&& final(self).parity_pool_spec() == pool_after_gets(old(self).parity_pool_spec(), m as nat)
            },
    {
        proof {
            self.lemma_wf();
        }
        if data.len() > self.config.stripe_size {
            return Err(Error::InvalidEcConfig(stripe_too_large_message(data.len(), self.config.stripe_size)));
        }
        let start = instant_now();
        let k = self.config.data_shards as usize;
        let m = self.config.parity_shards as usize;
        let shard_size = self.config.shard_size();
        let len = data.len();
        let per = if len % k == 0 {
            len / k
        } else {
            len / k + 1
        };
        proof {
            lemma_div_ceil(len as int, k as int);
            lemma_div_ceil_mono(len as int, self.config.stripe_size as int, k as int);
        }
        let ghost old_self = *old(self);
        // Data shards, each holding its chunk of the data.
        let mut data_shards: Vec<DmaBuf> = Vec::new();
        let mut off: usize = 0;
        let mut i: usize = 0;
        while i < k
            invariant
                self.wf(),
                self.config == old_self.config,
                self.stats == old_self.stats,
                self.next_stripe_id == old_self.next_stripe_id,
                self.parity_pool.stats_spec() == old_self.parity_pool.stats_spec(),
                self.data_pool.stats_spec() == pool_after_gets(old_self.data_pool.stats_spec(), i as nat),
                k == self.config.data_shards,
                shard_size == shard_size_for(self.config.stripe_size, self.config.data_shards),
                len == data@.len(),
                per == div_ceil(len as int, k as int),
                per <= shard_size,
                0 <= i <= k,
                off == chunk_start(i as int, per as int, len as int),
                data_shards@.len() == i,
                forall|j: int|
                    0 <= j < i ==> shard_holds_chunk(
                        (#[trigger] data_shards@[j])@,
                        data@,
                        j,
                        per as int,
                        shard_size as int,
                        self.config.zero_on_release,
                    ),
            decreases k - i,
        {
            proof {
                lemma_chunk_step(i as int, per as int, len as int);
            }
            let mut buf = match self.data_pool.get() {
                Ok(b) => b,
                Err(e) => return Err(e),
            };
            let next = if len - off <= per {
                len
            } else {
                off + per
            };
            let n = next - off;
            let ghost before = buf@;
            buf.write_bytes(0, data, off, n);
            proof {
                assert(buf@.subrange(0, n as int) =~= data@.subrange(off as int, off + n));
                assert(buf@.subrange(n as int, shard_size as int) =~= before.subrange(n as int, shard_size as int));
                if self.config.zero_on_release {
                    assert(before.subrange(n as int, shard_size as int) =~= zeros((shard_size - n) as nat));
                }
            }
            data_shards.push(buf);
            off = next;
            i += 1;
        }
        // Parity shards.
        let mut parity_shards: Vec<DmaBuf> = Vec::new();
        let mut p: usize = 0;
        while p < m
            invariant
                self.wf(),
                self.config == old_self.config,
                self.stats == old_self.stats,
                self.next_stripe_id == old_self.next_stripe_id,
                self.data_pool.stats_spec() == pool_after_gets(old_self.data_pool.stats_spec(), k as nat),
                self.parity_pool.stats_spec() == pool_after_gets(old_self.parity_pool.stats_spec(), p as nat),
                m == self.config.parity_shards,
                shard_size == shard_size_for(self.config.stripe_size, self.config.data_shards),
                0 <= p <= m,
                parity_shards@.len() == p,
                forall|q: int| 0 <= q < p ==> (#[trigger] parity_shards@[q])@.len() == shard_size,
            decreases m - p,
        {
            let buf = match self.parity_pool.get() {
                Ok(b) => b,
                Err(e) => return Err(e),
            };
            parity_shards.push(buf);
            p += 1;
        }
        proof {
            self.codec.lemma_wf_shape();
            assert(shards_match(data_shards@, parity_shards@, k as int, m as int, shard_size as int)) by {
                assert forall|d: int| 0 <= d < k implies #[trigger] data_shards@[d]@.len() == shard_size by {
                    assert(shard_holds_chunk(data_shards@[d]@, data@, d, per as int, shard_size as int, self.config.zero_on_release));
                }
            }
        }
        let ghost dshards = data_shards@;
        match self.codec.encode(data_shards.as_slice(), parity_shards.as_mut_slice()) {
            Ok(()) => {},
            Err(e) => return Err(e),
        }
        // Xor checksum of the data.
        let mut checksum: u64 = 0;
        let mut j: usize = 0;
        while j < len
            invariant
                len == data@.len(),
                0 <= j <= len,
                checksum == xor_fold(data@.subrange(0, j as int)),
            decreases len - j,
        {
            proof {
                assert(data@.subrange(0, j + 1).drop_last() =~= data@.subrange(0, j as int));
            }
            checksum = checksum ^ (data[j] as u64);
            j += 1;
        }
        proof {
            assert(data@.subrange(0, len as int) =~= data@);
        }
        let duration = elapsed_micros(&start);
        let stripe_id = self.next_stripe_id;
        self.next_stripe_id = self.next_stripe_id.wrapping_add(1);
        self.stats.stripes_encoded = self.stats.stripes_encoded.wrapping_add(1);
        self.stats.bytes_encoded = self.stats.bytes_encoded.wrapping_add(len as u64);
        self.stats.encode_time_us = self.stats.encode_time_us.wrapping_add(duration);
        let mut all_shards = data_shards;
        all_shards.append(&mut parity_shards);
        proof {
            assert(all_shards@.subrange(0, k as int) =~= dshards);
            assert(bufs_view(all_shards@.subrange(0, k as int)) =~= bufs_view(dshards));
        }
        let info = StripeInfo {
            stripe_id,
            original_size: len,
            shard_size,
            data_shards: self.config.data_shards,
            parity_shards: self.config.parity_shards,
            encoded_at: start,
            encode_duration_us: duration,
            checksum: Some(checksum),
        };
        Ok((all_shards, info))
    }

    /// Decodes a stripe: reconstructs the erased shards if there are any,
    /// then reads back `original_size` bytes from the data shards.
    pub fn decode(&mut self, shards: &mut [DmaBuf], erasures: &[usize], original_size: usize) -> (r: Result<Vec<u8>>)
        requires
            old(self).wf(),
            erasures@.len() > old(self).config_spec().parity_shards ==> erasures@.len()
                <= old(self).config_spec().data_shards + old(self).config_spec().parity_shards,
            forall|i: int|
                0 <= i < old(self).config_spec().data_shards && i < old(shards)@.len() ==> (#[trigger] old(shards)@[i])@.len()
                    >= read_len(i, original_size, old(self).config_spec().data_shards, old(self).shard_len()),
        ensures
            final(self).wf(),
            final(self).config_spec() == old(self).config_spec(),
            final(self).next_id() == old(self).next_id(),
            final(self).data_pool_spec() == old(self).data_pool_spec(),
            final(self).parity_pool_spec() == old(self).parity_pool_spec(),
            ({
                let c = old(self).config_spec();
                let n = erasures@.len();
                let total = c.data_shards + c.parity_shards;
                &&& n == 0 ==> r is Ok
                &&& n > c.parity_shards ==> (r matches Err(e) && e == Error::InsufficientShards {
                    available: (total - n) as usize,
                    required: c.data_shards as usize,
                })
                &&& 0 < n <= c.parity_shards && (exists|t: int| 0 <= t < n && #[trigger] erasures@[t] >= total) ==> (r matches Err(
                    e,
                ) && e is InvalidEcConfig)
                &&& 0 < n <= c.parity_shards && (forall|t: int| 0 <= t < n ==> #[trigger] erasures@[t] < total) && !shards_sized(
                    old(shards)@,
                    total as nat,
                    old(self).shard_len() as nat,
                ) ==> (r matches Err(e) && e is InvalidEcConfig)
                &&& 0 < n <= c.parity_shards && shards_sized(old(shards)@, total as nat, old(self).shard_len() as nat) && (forall|t: int|
                    0 <= t < n ==> c.data_shards <= #[trigger] erasures@[t] < total) ==> r is Ok
                &&& 0 < n <= c.parity_shards && shards_sized(old(shards)@, total as nat, old(self).shard_len() as nat) && (forall|t: int|
                    0 <= t < n ==> #[trigger] erasures@[t] < total) && invertible(
                    survivor_matrix(
                        generator_matrix(c.data_shards as nat, c.parity_shards as nat),
                        first_survivors(erasures@, total as nat, c.data_shards as nat),
                        c.data_shards as nat,
                    ),
                    c.data_shards as nat,
                ) ==> r is Ok
                &&& 0 < n <= c.parity_shards && shards_sized(old(shards)@, total as nat, old(self).shard_len() as nat) && (forall|t: int|
                    0 <= t < n ==> #[trigger] erasures@[t] < total) && (forall|t1: int, t2: int|
                    0 <= t1 < n && 0 <= t2 < n && #[trigger] erasures@[t1] < c.data_shards && #[trigger] erasures@[t2]
                        < c.data_shards ==> erasures@[t1] == erasures@[t2]) ==> r is Ok
                &&& r matches Err(e) ==> e is InsufficientShards || e is InvalidEcConfig || e is IsalMatrixError
            }),
            r is Err ==> final(self).stats_spec() == old(self).stats_spec() && final(shards)@ == old(shards)@,
            erasures@.len() == 0 ==> final(shards)@ == old(shards)@,
            r is Ok ==> {
                &&& final(shards)@.len() == old(shards)@.len()
                &&& forall|j: int|
                    0 <= j < old(shards)@.len() && !erasures@.contains(j as usize) ==> #[trigger] final(shards)@[j]@
                        == old(shards)@[j]@
            },
            forall|orig: Seq<Seq<u8>>|
                #[trigger] is_codeword(
                    orig,
                    old(self).config_spec().data_shards as nat,
                    old(self).config_spec().parity_shards as nat,
                    old(self).shard_len() as nat,
                ) && IsalCodec::survivors_agree(old(shards)@, orig, erasures@) && r is Ok ==> bufs_view(final(shards)@)
                    == orig,
            r matches Ok(v) ==> {
                let c = old(self).config_spec();
                let k = c.data_shards as int;
                let n = if k < old(shards)@.len() {
                    k
                } else {
                    old(shards)@.len() as int
                };
                &&& v@ == reassembled(
                    bufs_view(final(shards)@),
                    n as nat,
                    div_ceil(original_size as int, k),
                    original_size as int,
                    old(self).shard_len() as int,
                )
                &&& final(self).stats_spec().stripes_decoded == add_w(old(self).stats_spec().stripes_decoded, 1)
                &&& final(self).stats_spec().bytes_decoded == add_w(
                    old(self).stats_spec().bytes_decoded,
                    original_size as u64,
                )
                &&& final(self).stats_spec().reconstructions == if erasures@.len() == 0 {
                    old(self).stats_spec().reconstructions
                } else {
                    add_w(old(self).stats_spec().reconstructions, 1)
                }
                &&& final(self).stats_spec().stripes_encoded == old(self).stats_spec().stripes_encoded
                &&& final(self).stats_spec().bytes_encoded == old(self).stats_spec().bytes_encoded
                &&& final(self).stats_spec().encode_errors == old(self).stats_spec().encode_errors
                &&& final(self).stats_spec().decode_errors == old(self).stats_spec().decode_errors
                &&& final(self).stats_spec().encode_time_us == old(self).stats_spec().encode_time_us
            },
    {
        proof {
            self.lemma_wf();
            self.codec.lemma_wf_shape();
        }
        let start = instant_now();
        let k = self.config.data_shards as usize;
        if erasures.len() > 0 {
            match self.codec.reconstruct(shards, erasures) {
                Ok(()) => {},
                Err(e) => return Err(e),
            }
            self.stats.reconstructions = self.stats.reconstructions.wrapping_add(1);
        }
        proof {
            assert forall|orig: Seq<Seq<u8>>|
                #[trigger] is_codeword(
                    orig,
                    old(self).config_spec().data_shards as nat,
                    old(self).config_spec().parity_shards as nat,
                    old(self).shard_len() as nat,
                ) && IsalCodec::survivors_agree(old(shards)@, orig, erasures@) implies bufs_view(shards@) == orig by {
                if erasures@.len() == 0 {
                    assert forall|j: int| 0 <= j < orig.len() implies #[trigger] bufs_view(shards@)[j] == orig[j] by {
                        assert(!erasures@.contains(j as usize));
                    }
                    assert(bufs_view(shards@) =~= orig);
                } else {
                    assert(self.codec.is_codeword(orig));
                }
            }
        }
        let shard_size = self.config.shard_size();
        proof {
            lemma_div_ceil(original_size as int, k as int);
        }
        let per = if original_size % k == 0 {
            original_size / k
        } else {
            original_size / k + 1
        };
        let count = if k < shards.len() {
            k
        } else {
            shards.len()
        };
        let ghost sv = bufs_view(shards@);
        let mut out: Vec<u8> = Vec::new();
        let mut off: usize = 0;
        let mut i: usize = 0;
        while i < count
            invariant
                count <= shards@.len(),
                count <= k,
                k == old(self).config_spec().data_shards,
                k > 0,
                shard_size == old(self).shard_len(),
                sv == bufs_view(shards@),
                per == div_ceil(original_size as int, k as int),
                0 <= i <= count,
                off == chunk_start(i as int, per as int, original_size as int),
                forall|j: int|
                    0 <= j < count ==> (#[trigger] shards@[j])@.len() >= read_len(
                        j,
                        original_size,
                        k as u8,
                        shard_size,
                    ),
                out@ == reassembled(sv, i as nat, per as int, original_size as int, shard_size as int),
                out@.len() <= off,
            decreases count - i,
        {
            proof {
                lemma_chunk_step(i as int, per as int, original_size as int);
            }
            let next = if original_size - off <= per {
                original_size
            } else {
                off + per
            };
            let n = next - off;
            let take = if n < shard_size {
                n
            } else {
                shard_size
            };
            let src = shards[i].as_slice();
            let ghost before = out@;
            let mut t: usize = 0;
            while t < take
                invariant
                    take <= src@.len(),
                    0 <= t <= take,
                    out@ == before + src@.subrange(0, t as int),
                decreases take - t,
            {
                out.push(src[t]);
                t += 1;
            }
            proof {
                assert(src@ == sv[i as int]);
                assert(out@ =~= before + sv[i as int].subrange(0, take as int));
            }
            off = next;
            i += 1;
        }
        out.truncate(original_size);
        let duration = elapsed_micros(&start);
        self.stats.stripes_decoded = self.stats.stripes_decoded.wrapping_add(1);
        self.stats.bytes_decoded = self.stats.bytes_decoded.wrapping_add(original_size as u64);
        self.stats.decode_time_us = self.stats.decode_time_us.wrapping_add(duration);
        Ok(out)
    }

    /// Checks parity: recomputes it from the data shards and compares the
    /// first `shard_size` bytes of each given parity shard.
    pub fn verify(&mut self, data_shards: &[DmaBuf], parity_shards: &[DmaBuf]) -> (r: Result<bool>)
        requires
            old(self).wf(),
            forall|p: int|
                0 <= p < old(self).config_spec().parity_shards && p < parity_shards@.len() ==> (#[trigger] parity_shards@[p])@.len()
                    >= old(self).shard_len(),
        ensures
            final(self).wf(),
            final(self).config_spec() == old(self).config_spec(),
            final(self).stats_spec() == old(self).stats_spec(),
            final(self).next_id() == old(self).next_id(),
            final(self).data_pool_spec() == old(self).data_pool_spec(),
            ({
                let c = old(self).config_spec();
                let k = c.data_shards as int;
                let m = c.parity_shards as int;
                let ss = old(self).shard_len() as int;
                &&& r is Ok <==> (data_shards@.len() == k && forall|d: int|
                    0 <= d < k ==> (#[trigger] data_shards@[d])@.len() == ss)
                &&& r matches Err(e) ==> e is InvalidEcConfig
                &&& r matches Ok(b) ==> (b <==> forall|p: int, j: int|
                    0 <= p < m && p < parity_shards@.len() && 0 <= j < ss ==> #[trigger] parity_shards@[p]@[j]
                        == gf_combination(
                        bufs_view(data_shards@),
                        generator_matrix(k as nat, m as nat),
                        k,
                        k + p,
                        j,
                        k as nat,
                    ))
                &&& final(self).parity_pool_spec() == if r matches Ok(true) {
                    pool_after_puts(
                        pool_after_gets(old(self).parity_pool_spec(), m as nat),
                        Seq::new(m as nat, |q: int| ss as nat),
                        ss as usize,
                        old(self).parity_pool_cap(),
                    )
                } else {
                    pool_after_gets(old(self).parity_pool_spec(), m as nat)
                }
            }),
    {
        proof {
            self.lemma_wf();
            self.codec.lemma_wf_shape();
        }
        let k = self.config.data_shards as usize;
        let m = self.config.parity_shards as usize;
        let shard_size = self.config.shard_size();
        let ghost old_self = *old(self);
        let mut expected: Vec<DmaBuf> = Vec::new();
        let mut p: usize = 0;
        while p < m
            invariant
                self.wf(),
                self.config == old_self.config,
                self.stats == old_self.stats,
                self.next_stripe_id == old_self.next_stripe_id,
                self.data_pool.stats_spec() == old_self.data_pool.stats_spec(),
                self.parity_pool.stats_spec() == pool_after_gets(old_self.parity_pool.stats_spec(), p as nat),
                self.parity_pool.max_capacity == old_self.parity_pool.max_capacity,
                m == self.config.parity_shards,
                shard_size == shard_size_for(self.config.stripe_size, self.config.data_shards),
                0 <= p <= m,
                expected@.len() == p,
                forall|q: int| 0 <= q < p ==> (#[trigger] expected@[q])@.len() == shard_size,
            decreases m - p,
        {
            let buf = match self.parity_pool.get() {
                Ok(b) => b,
                Err(e) => return Err(e),
            };
            expected.push(buf);
            p += 1;
        }
        proof {
            self.codec.lemma_wf_shape();
        }
        match self.codec.encode(data_shards, expected.as_mut_slice()) {
            Ok(()) => {},
            Err(e) => return Err(e),
        }
        let count = if m < parity_shards.len() {
            m
        } else {
            parity_shards.len()
        };
        let ghost dv = bufs_view(data_shards@);
        let ghost mat = generator_matrix(k as nat, m as nat);
        let mut q: usize = 0;
        while q < count
            invariant
                dv == bufs_view(data_shards@),
                mat == generator_matrix(k as nat, m as nat),
                data_shards@.len() == k,
                forall|d: int| 0 <= d < k ==> (#[trigger] data_shards@[d])@.len() == shard_size,
                count == (if m < parity_shards@.len() { m } else { parity_shards@.len() as usize }),
                old_self == *old(self),
                self.wf(),
                self.config == old_self.config,
                self.stats == old_self.stats,
                self.next_stripe_id == old_self.next_stripe_id,
                self.data_pool.stats_spec() == old_self.data_pool.stats_spec(),
                self.parity_pool.stats_spec() == pool_after_gets(old_self.parity_pool.stats_spec(), m as nat),
                count <= m,
                count <= parity_shards@.len(),
                m == expected@.len(),
                k == self.config.data_shards,
                m == self.config.parity_shards,
                shard_size == old_self.shard_len(),
                forall|a: int| 0 <= a < m ==> (#[trigger] expected@[a])@.len() == shard_size,
                forall|a: int, b: int|
                    0 <= a < m && 0 <= b < shard_size ==> #[trigger] expected@[a]@[b] == gf_combination(
                        dv,
                        mat,
                        k as int,
                        k + a,
                        b,
                        k as nat,
                    ),
                forall|a: int| 0 <= a < count ==> (#[trigger] parity_shards@[a])@.len() >= shard_size,
                0 <= q <= count,
                forall|a: int, b: int|
                    0 <= a < q && 0 <= b < shard_size ==> #[trigger] parity_shards@[a]@[b] == gf_combination(
                        dv,
                        mat,
                        k as int,
                        k + a,
                        b,
                        k as nat,
                    ),
            decreases count - q,
        {
            let exp = expected[q].as_slice();
            let act = parity_shards[q].as_slice();
            let mut b: usize = 0;
            while b < shard_size
                invariant
                    dv == bufs_view(data_shards@),
                    mat == generator_matrix(k as nat, m as nat),
                    data_shards@.len() == k,
                    forall|d: int| 0 <= d < k ==> (#[trigger] data_shards@[d])@.len() == shard_size,
                    count == (if m < parity_shards@.len() { m } else { parity_shards@.len() as usize }),
                    old_self == *old(self),
                    k == self.config.data_shards,
                    m == self.config.parity_shards,
                    shard_size == old_self.shard_len(),
                    self.wf(),
                    self.config == old_self.config,
                    self.stats == old_self.stats,
                    self.next_stripe_id == old_self.next_stripe_id,
                    self.data_pool.stats_spec() == old_self.data_pool.stats_spec(),
                    self.parity_pool.stats_spec() == pool_after_gets(old_self.parity_pool.stats_spec(), m as nat),
                    q < m,
                    q < count,
                    count <= parity_shards@.len(),
                    m == expected@.len(),
                    exp@ == expected@[q as int]@,
                    act@ == parity_shards@[q as int]@,
                    forall|c: int|
                        0 <= c < shard_size ==> #[trigger] exp@[c] == gf_combination(
                            dv,
                            mat,
                            k as int,
                            k + q,
                            c,
                            k as nat,
                        ),
                    exp@.len() == shard_size,
                    act@.len() >= shard_size,
                    0 <= b <= shard_size,
                    forall|c: int| 0 <= c < b ==> act@[c] == exp@[c],
                decreases shard_size - b,
            {
                if exp[b] != act[b] {
                    proof {
                        assert(parity_shards@[q as int]@[b as int] != gf_combination(
                            dv,
                            mat,
                            k as int,
                            k + q,
                            b as int,
                            k as nat,
                        ));
                    }
                    return Ok(false);
                }
                b += 1;
            }
            proof {
                assert forall|a: int, c: int|
                    0 <= a < q + 1 && 0 <= c < shard_size implies #[trigger] parity_shards@[a]@[c] == gf_combination(
                    dv,
                    mat,
                    k as int,
                    k + a,
                    c,
                    k as nat,
                ) by {
                    if a == q {
                        assert(act@[c] == exp@[c]);
                    }
                }
            }
            q += 1;
        }
        let ghost lens = Seq::new(m as nat, |a: int| shard_size as nat);
        let ghost after_gets = self.parity_pool.stats_spec();
        let mut left: usize = m;
        while left > 0
            invariant
                self.wf(),
                self.config == old_self.config,
                self.stats == old_self.stats,
                self.next_stripe_id == old_self.next_stripe_id,
                self.data_pool.stats_spec() == old_self.data_pool.stats_spec(),
                self.parity_pool.max_capacity == old_self.parity_pool.max_capacity,
                shard_size == shard_size_for(self.config.stripe_size, self.config.data_shards),
                lens == Seq::new(m as nat, |a: int| shard_size as nat),
                0 <= left <= m,
                expected@.len() == left,
                forall|a: int| 0 <= a < left ==> (#[trigger] expected@[a])@.len() == shard_size,
                self.parity_pool.stats_spec() == pool_after_puts(
                    after_gets,
                    lens.subrange(0, (m - left) as int),
                    shard_size,
                    self.parity_pool.max_capacity,
                ),
            decreases left,
        {
            let buf = expected.pop().unwrap();
            proof {
                assert(lens.subrange(0, (m - left + 1) as int).drop_last() =~= lens.subrange(0, (m - left) as int));
            }
            self.parity_pool.put(buf);
            left -= 1;
        }
        proof {
            assert(lens.subrange(0, m as int) =~= lens);
        }
        Ok(true)
    }

    /// Hands shards back to the pools: the first `k` to the data-shard pool,
    /// the others to the parity-shard pool.
    pub fn release_shards(&mut self, shards: Vec<DmaBuf>)
        requires
            old(self).wf(),
        ensures
            final(self).wf(),
            final(self).config_spec() == old(self).config_spec(),
            final(self).stats_spec() == old(self).stats_spec(),
            final(self).next_id() == old(self).next_id(),
            final(self).data_pool_cap() == old(self).data_pool_cap(),
            final(self).parity_pool_cap() == old(self).parity_pool_cap(),
            ({
                let k = old(self).config_spec().data_shards as int;
                let cut = if k < shards@.len() {
                    k
                } else {
                    shards@.len() as int
                };
                &&& final(self).data_pool_spec() == pool_after_puts(
                    old(self).data_pool_spec(),
                    buf_lens(shards@.subrange(0, cut)),
                    old(self).shard_len(),
                    old(self).data_pool_cap(),
                )
                &&& final(self).parity_pool_spec() == pool_after_puts(
                    old(self).parity_pool_spec(),
                    buf_lens(shards@.subrange(cut, shards@.len() as int)),
                    old(self).shard_len(),
                    old(self).parity_pool_cap(),
                )
            }),
    {
        let k = self.config.data_shards as usize;
        let ghost old_self = *old(self);
        let ghost all = shards@;
        let total = shards.len();
        let cut = if k < total {
            k
        } else {
            total
        };
        let mut rest = shards;
        let mut i: usize = 0;
        while i < total
            invariant
                self.wf(),
                self.config == old_self.config,
                self.stats == old_self.stats,
                self.next_stripe_id == old_self.next_stripe_id,
                self.data_pool.max_capacity == old_self.data_pool.max_capacity,
                self.parity_pool.max_capacity == old_self.parity_pool.max_capacity,
                k == self.config.data_shards,
                total == all.len(),
                cut == (if k < total { k } else { total }),
                0 <= i <= total,
                rest@ == all.subrange(i as int, total as int),
                self.data_pool.stats_spec() == pool_after_puts(
                    old_self.data_pool.stats_spec(),
                    buf_lens(all.subrange(0, if i < cut { i as int } else { cut as int })),
                    self.data_pool.buffer_size,
                    self.data_pool.max_capacity,
                ),
                self.parity_pool.stats_spec() == pool_after_puts(
                    old_self.parity_pool.stats_spec(),
                    buf_lens(all.subrange(cut as int, if i < cut { cut as int } else { i as int })),
                    self.parity_pool.buffer_size,
                    self.parity_pool.max_capacity,
                ),
            decreases total - i,
        {
            let buf = rest.remove(0);
            proof {
                assert(buf == all[i as int]);
                assert(rest@ =~= all.subrange(i + 1, total as int));
            }
            if i < k {
                proof {
                    assert(buf_lens(all.subrange(0, i + 1)).drop_last() =~= buf_lens(all.subrange(0, i as int)));
                    assert(buf_lens(all.subrange(0, i + 1)).last() == buf@.len());
                }
                self.data_pool.put(buf);
            } else {
                proof {
                    assert(buf_lens(all.subrange(cut as int, i + 1)).drop_last() =~= buf_lens(
                        all.subrange(cut as int, i as int),
                    ));
                    assert(buf_lens(all.subrange(cut as int, i + 1)).last() == buf@.len());
                    assert(all.subrange(cut as int, cut as int) =~= Seq::<DmaBuf>::empty());
                }
                self.parity_pool.put(buf);
            }
            i += 1;
        }
    }

    /// Statistics of the two pools, each (allocated, hits, misses, available).
    pub fn pool_stats(&self) -> (r: (PoolStats, PoolStats))
        ensures
            r == (self.data_pool_spec(), self.parity_pool_spec()),
    {
        (self.data_pool.stats(), self.parity_pool.stats())
    }
}

/// Decoding what `encode` produced gives the data back, whichever shards
/// were lost: the shards `encode` returns form a codeword (so `decode`,
/// which rebuilds the codeword its surviving shards agree with, hands back
/// exactly these shards), their data shards are long enough for `decode`,
/// and reading the data shards back yields the data.
pub proof fn law_decode_inverts_encode(
    p: StripeProcessor,
    data: Seq<u8>,
    shards: Seq<DmaBuf>,
)
    requires
        p.wf(),
        data.len() <= p.config_spec().stripe_size,
        shards.len() == p.config_spec().data_shards + p.config_spec().parity_shards,
        forall|i: int|
            0 <= i < p.config_spec().data_shards ==> shard_holds_chunk(
                (#[trigger] shards[i])@,
                data,
                i,
                div_ceil(data.len() as int, p.config_spec().data_shards as int),
                p.shard_len() as int,
                p.config_spec().zero_on_release,
            ),
        forall|q: int| 0 <= q < p.config_spec().parity_shards ==> (#[trigger] shards[p.config_spec().data_shards + q])@.len() == p.shard_len(),
        forall|q: int, j: int|
            0 <= q < p.config_spec().parity_shards && 0 <= j < p.shard_len() ==> #[trigger] shards[p.config_spec().data_shards + q]@[j]
                == gf_combination(
                bufs_view(shards.subrange(0, p.config_spec().data_shards as int)),
                generator_matrix(p.config_spec().data_shards as nat, p.config_spec().parity_shards as nat),
                p.config_spec().data_shards as int,
                p.config_spec().data_shards + q,
                j,
                p.config_spec().data_shards as nat,
            ),
    ensures
        is_codeword(
            bufs_view(shards),
            p.config_spec().data_shards as nat,
            p.config_spec().parity_shards as nat,
            p.shard_len() as nat,
        ),
        forall|i: int|
            0 <= i < p.config_spec().data_shards ==> (#[trigger] shards[i])@.len() >= read_len(
                i,
                data.len() as usize,
                p.config_spec().data_shards,
                p.shard_len(),
            ),
        reassembled(
            bufs_view(shards),
            p.config_spec().data_shards as nat,
            div_ceil(data.len() as int, p.config_spec().data_shards as int),
            data.len() as int,
            p.shard_len() as int,
        ) == data,
{
    p.lemma_wf();
    let c = p.config_spec();
    let k = c.data_shards as int;
    let m = c.parity_shards as int;
    let per = div_ceil(data.len() as int, k);
    let ss = p.shard_len() as int;
    let v = bufs_view(shards);
    lemma_div_ceil_mono(data.len() as int, c.stripe_size as int, k);
    assert forall|i: int| 0 <= i < k implies (#[trigger] shards[i])@.len() >= read_len(
        i,
        data.len() as usize,
        c.data_shards,
        p.shard_len(),
    ) by {
        assert(shard_holds_chunk(shards[i]@, data, i, per, ss, c.zero_on_release));
    }
    assert forall|j: int| 0 <= j < v.len() implies (#[trigger] v[j]).len() == ss by {
        if j < k {
            assert(shard_holds_chunk(shards[j]@, data, j, per, ss, c.zero_on_release));
        } else {
            assert(shards[k + (j - k)]@.len() == ss);
        }
    }
    assert forall|q: int, i: int| 0 <= q < m && 0 <= i < ss implies #[trigger] v[k + q][i] == gf_combination(
        v,
        generator_matrix(k as nat, m as nat),
        k,
        k + q,
        i,
        k as nat,
    ) by {
        let sub = bufs_view(shards.subrange(0, k));
        assert(shards[k + q]@[i] == gf_combination(sub, generator_matrix(k as nat, m as nat), k, k + q, i, k as nat));
        assert forall|d: int| 0 <= d < k implies #[trigger] sub[d][i] == v[d][i] by {}
        lemma_comb_ext(sub, v, generator_matrix(k as nat, m as nat), k, k + q, i, k as nat);
    }
    law_reassemble_inverts_layout(v, data, k as nat, ss, c.zero_on_release);
}

/// The lengths of the buffers.
pub open spec fn buf_lens(bufs: Seq<DmaBuf>) -> Seq<nat> {
    Seq::new(bufs.len(), |i: int| bufs[i]@.len())
}

/// Bytes read back from data shard `i` when decoding `size` bytes over `k`
/// data shards of `ss` bytes.
pub open spec fn read_len(i: int, size: usize, k: u8, ss: usize) -> int {
    let n = chunk_len(i, div_ceil(size as int, k as int), size as int);
    if n < ss {
        n
    } else {
        ss as int
    }
}

/// Message of data longer than a stripe (`format!`).
#[verifier::external_body]
fn stripe_too_large_message(len: usize, stripe_size: usize) -> String {
    format!("data size {} exceeds stripe size {}", len, stripe_size)
}

// =============================================================================
// Batch Processing
// =============================================================================

/// Sum of the original sizes of the stripes.
pub open spec fn batch_bytes(stripes: Seq<(Vec<DmaBuf>, StripeInfo)>) -> int
    decreases stripes.len(),
{
    if stripes.len() == 0 {
        0
    } else {
        batch_bytes(stripes.drop_last()) + stripes.last().1.original_size
    }
}

/// A batch of stripes for parallel processing.
#[derive(Debug)]
pub struct StripeBatch {
    /// Stripe data and metadata
    pub stripes: Vec<(Vec<DmaBuf>, StripeInfo)>,
}

impl StripeBatch {
    /// An empty batch.
    pub fn new() -> (r: StripeBatch)
        ensures
            r.stripes@.len() == 0,
    {
        StripeBatch { stripes: Vec::new() }
    }

    /// Adds a stripe to the batch.
    pub fn add(&mut self, shards: Vec<DmaBuf>, info: StripeInfo)
        ensures
            final(self).stripes@ == old(self).stripes@.push((shards, info)),
    {
        self.stripes.push((shards, info));
    }

    /// Number of stripes in the batch.
    pub fn len(&self) -> (r: usize)
        ensures
            r == self.stripes@.len(),
    {
        self.stripes.len()
    }

    /// Whether the batch is empty.
    pub fn is_empty(&self) -> (r: bool)
        ensures
            r == (self.stripes@.len() == 0),
    {
        self.stripes.len() == 0
    }

    /// Total original bytes of the stripes in the batch.
    pub fn total_bytes(&self) -> (r: usize)
        requires
            batch_bytes(self.stripes@) <= usize::MAX,
        ensures
            r == batch_bytes(self.stripes@),
    {
        let mut total: usize = 0;
        let mut i: usize = 0;
        while i < self.stripes.len()
            invariant
                0 <= i <= self.stripes@.len(),
                batch_bytes(self.stripes@) <= usize::MAX,
                total == batch_bytes(self.stripes@.subrange(0, i as int)),
            decreases self.stripes@.len() - i,
        {
            proof {
                assert(self.stripes@.subrange(0, i + 1).drop_last() =~= self.stripes@.subrange(0, i as int));
                lemma_batch_bytes_prefix(self.stripes@, i + 1);
            }
            total = total + self.stripes[i].1.original_size;
            i += 1;
        }
        assert(self.stripes@.subrange(0, self.stripes@.len() as int) =~= self.stripes@);
        total
    }
}

/// The bytes of a prefix of the batch are at most those of the batch.
proof fn lemma_batch_bytes_prefix(stripes: Seq<(Vec<DmaBuf>, StripeInfo)>, n: int)
    requires
        0 <= n <= stripes.len(),
    ensures
        batch_bytes(stripes.subrange(0, n)) <= batch_bytes(stripes),
    decreases stripes.len() - n,
{
    if n < stripes.len() {
        lemma_batch_bytes_prefix(stripes, n + 1);
        assert(stripes.subrange(0, n + 1).drop_last() =~= stripes.subrange(0, n));
    } else {
        assert(stripes.subrange(0, n) =~= stripes);
    }
}

impl Default for StripeBatch {
    fn default() -> (r: Self)
        ensures
            r.stripes@.len() == 0,
    {
        Self::new()
    }
}

} // verus!
