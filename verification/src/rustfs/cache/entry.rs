//! Cache keys, entry metadata and entries.

use vstd::prelude::*;

use crate::clock::unix_now_secs;
use vstd::string::StringSliceAdditionalSpecFns;

verus! {

/// Seed and multiplier of the FxHash function.
pub const FX_SEED: u64 = 0x517cc1b727220a95;

/// `h` rotated left by 5 bits.
pub open spec fn rotl5(h: u64) -> u64 {
    (h << 5u64) | (h >> 59u64)
}

/// FxHash of `bytes`: starting from the seed, for each byte rotate left by
/// 5, xor the byte in and multiply by the seed (wrapping).
pub open spec fn fx_hash_spec(bytes: Seq<u8>) -> u64
    decreases bytes.len(),
{
    if bytes.len() == 0 {
        FX_SEED
    } else {
        vstd::wrapping::u64_specs::wrapping_mul(rotl5(fx_hash_spec(bytes.drop_last())) ^ (bytes.last() as u64), FX_SEED)
    }
}

/// FxHash of a byte string (fast, non-cryptographic).
pub fn fx_hash(bytes: &[u8]) -> (r: u64)
    ensures
        r == fx_hash_spec(bytes@),
{
    let mut hash: u64 = FX_SEED;
    let mut i: usize = 0;
    while i < bytes.len()
        invariant
            0 <= i <= bytes@.len(),
            hash == fx_hash_spec(bytes@.subrange(0, i as int)),
        decreases bytes@.len() - i,
    {
        proof {
            assert(bytes@.subrange(0, i + 1).drop_last() =~= bytes@.subrange(0, i as int));
        }
        hash = ((hash << 5u64) | (hash >> 59u64)) ^ (bytes[i] as u64);
        hash = hash.wrapping_mul(FX_SEED);
        i += 1;
    }
    proof {
        assert(bytes@.subrange(0, bytes@.len() as int) =~= bytes@);
    }
    hash
}

/// Cache key: bucket and object key, with their hashes.
#[derive(Clone, Debug, PartialEq, Eq, Hash)]
pub struct CacheKey {
    bucket_hash: u64,
    key_hash: u64,
    bucket: String,
    key: String,
}

impl CacheKey {
    /// The bucket name.
    pub closed spec fn bucket_spec(&self) -> Seq<char> {
        self.bucket@
    }

    /// The object key.
    pub closed spec fn key_spec(&self) -> Seq<char> {
        self.key@
    }

    /// Hash of the bucket name and hash of the object key, combined.
    pub closed spec fn combined_spec(&self) -> u64 {
        self.bucket_hash ^ self.key_hash
    }

    /// A key for `key` in `bucket`.
    pub fn new(bucket: &str, key: &str) -> (r: CacheKey)
        ensures
            r.bucket_spec() == bucket@,
            r.key_spec() == key@,
            r.combined_spec() == fx_hash_spec(utf8(bucket)) ^ fx_hash_spec(utf8(key)),
    {
        let bucket_hash = fx_hash(bucket.as_bytes());
        let key_hash = fx_hash(key.as_bytes());
        CacheKey { bucket_hash, key_hash, bucket: bucket.to_owned(), key: key.to_owned() }
    }

    /// Shard index of the key among `shard_count` shards (a power of two):
    /// the combined hash masked by `shard_count - 1`.
    pub fn shard_index(&self, shard_count: usize) -> (r: usize)
        requires
            shard_count > 0,
        ensures
            r == (self.combined_spec() as usize) & ((shard_count - 1) as usize),
    {
        let combined = self.bucket_hash ^ self.key_hash;
        (combined as usize) & (shard_count - 1)
    }

    /// The bucket name.
    pub fn bucket(&self) -> (r: &str)
        ensures
            r@ == self.bucket_spec(),
    {
        self.bucket.as_str()
    }

    /// The object key.
    pub fn key(&self) -> (r: &str)
        ensures
            r@ == self.key_spec(),
    {
        self.key.as_str()
    }

    /// Combined hash for quick comparison.
    pub fn combined_hash(&self) -> (r: u64)
        ensures
            r == self.combined_spec(),
    {
        self.bucket_hash ^ self.key_hash
    }
}

/// The UTF-8 bytes of a string.
pub open spec fn utf8(s: &str) -> Seq<u8> {
    s.spec_bytes()
}

/// Metadata of a cache entry; times are seconds since the Unix epoch.
#[derive(Debug, Clone, Copy)]
pub struct EntryMetadata {
    size: u64,
    last_access: u64,
    access_count: u32,
    created_at: u64,
    ttl_seconds: u32,
    generation: u32,
    content_hash: u64,
}

impl EntryMetadata {
    /// Object size in bytes.
    pub closed spec fn size_spec(&self) -> u64 {
        self.size
    }

    /// Last access time.
    pub closed spec fn last_access_spec(&self) -> u64 {
        self.last_access
    }

    /// Access count.
    pub closed spec fn access_count_spec(&self) -> u32 {
        self.access_count
    }

    /// Creation time.
    pub closed spec fn created_at_spec(&self) -> u64 {
        self.created_at
    }

    /// Time to live in seconds (0: no expiry).
    pub closed spec fn ttl_spec(&self) -> u32 {
        self.ttl_seconds
    }

    /// Generation.
    pub closed spec fn generation_spec(&self) -> u32 {
        self.generation
    }

    /// Content hash.
    pub closed spec fn content_hash_spec(&self) -> u64 {
        self.content_hash
    }

    /// Metadata of a new entry, created and last accessed now, accessed
    /// once, generation 1, no expiry.
    pub fn new(size: u64, content_hash: u64) -> (r: EntryMetadata)
        ensures
            r.size_spec() == size,
            r.content_hash_spec() == content_hash,
            r.access_count_spec() == 1,
            r.generation_spec() == 1,
            r.ttl_spec() == 0,
            r.last_access_spec() == r.created_at_spec(),
    {
        let now = unix_now_secs();
        EntryMetadata {
            size,
            last_access: now,
            access_count: 1,
            created_at: now,
            ttl_seconds: 0,
            generation: 1,
            content_hash,
        }
    }

    /// As `new`, expiring `ttl_secs` seconds after creation (kept to 32
    /// bits).
    pub fn with_ttl(size: u64, content_hash: u64, ttl_secs: u64) -> (r: EntryMetadata)
        ensures
            r.size_spec() == size,
            r.content_hash_spec() == content_hash,
            r.access_count_spec() == 1,
            r.generation_spec() == 1,
            r.ttl_spec() == ttl_secs as u32,
            r.last_access_spec() == r.created_at_spec(),
    {
        let mut meta = EntryMetadata::new(size, content_hash);
        meta.ttl_seconds = ttl_secs as u32;
        meta
    }

    /// Object size in bytes.
    pub fn size(&self) -> (r: u64)
        ensures
            r == self.size_spec(),
    {
        self.size
    }

    /// Records an access at time `now` (seconds since the Unix epoch) and
    /// returns the new access count (wrapping).
    pub fn record_access_at(&mut self, now: u64) -> (r: u32)
        ensures
            r == vstd::wrapping::u32_specs::wrapping_add(old(self).access_count_spec(), 1),
            final(self).access_count_spec() == r,
            final(self).last_access_spec() == now,
            final(self).size_spec() == old(self).size_spec(),
            final(self).created_at_spec() == old(self).created_at_spec(),
            final(self).ttl_spec() == old(self).ttl_spec(),
            final(self).generation_spec() == old(self).generation_spec(),
            final(self).content_hash_spec() == old(self).content_hash_spec(),
    {
        self.last_access = now;
        self.access_count = self.access_count.wrapping_add(1);
        self.access_count
    }

    /// Records an access at the time the wall clock reads (see
    /// `record_access_at`) and returns the new access count (wrapping).
    pub fn record_access(&mut self) -> (r: u32)
        ensures
            r == vstd::wrapping::u32_specs::wrapping_add(old(self).access_count_spec(), 1),
            final(self).access_count_spec() == r,
            final(self).size_spec() == old(self).size_spec(),
            final(self).created_at_spec() == old(self).created_at_spec(),
            final(self).ttl_spec() == old(self).ttl_spec(),
            final(self).generation_spec() == old(self).generation_spec(),
            final(self).content_hash_spec() == old(self).content_hash_spec(),
    {
        let now = unix_now_secs();
        self.record_access_at(now)
    }

    /// Access count.
    pub fn access_count(&self) -> (r: u32)
        ensures
            r == self.access_count_spec(),
    {
        self.access_count
    }

    /// Last access time.
    pub fn last_access(&self) -> (r: u64)
        ensures
            r == self.last_access_spec(),
    {
        self.last_access
    }

    /// Creation time.
    pub fn created_at(&self) -> (r: u64)
        ensures
            r == self.created_at_spec(),
    {
        self.created_at
    }

    /// Whether the entry has expired at time `now`: it has a time to live
    /// and `now` is past creation plus that time.
    pub open spec fn expired_at(&self, now: u64) -> bool {
        self.ttl_spec() != 0 && now > self.created_at_spec() + self.ttl_spec()
    }

    /// Whether the entry has expired (by the wall clock): the entry is
    /// checked against the time the wall clock reads, which may be any time.
    pub fn is_expired(&self) -> (r: bool)
        ensures
            self.ttl_spec() == 0 ==> !r,
            exists|now: u64| #[trigger] self.expired_at(now) == r,
    {
        if self.ttl_seconds == 0 {
            assert(self.expired_at(0) == false);
            return false;
        }
        let now = unix_now_secs();
        let r = self.is_expired_at(now);
        assert(self.expired_at(now) == r);
        r
    }

    /// Whether the entry has expired at time `now`.
    pub fn is_expired_at(&self, now: u64) -> (r: bool)
        ensures
            r == self.expired_at(now),
    {
        self.ttl_seconds != 0 && now > self.created_at && now - self.created_at > self.ttl_seconds as u64
    }

    /// Content hash.
    pub fn content_hash(&self) -> (r: u64)
        ensures
            r == self.content_hash_spec(),
    {
        self.content_hash
    }

    /// Increments the generation (wrapping) and returns it.
    pub fn increment_generation(&mut self) -> (r: u32)
        ensures
            r == vstd::wrapping::u32_specs::wrapping_add(old(self).generation_spec(), 1),
            final(self).generation_spec() == r,
            final(self).size_spec() == old(self).size_spec(),
            final(self).access_count_spec() == old(self).access_count_spec(),
            final(self).last_access_spec() == old(self).last_access_spec(),
            final(self).created_at_spec() == old(self).created_at_spec(),
            final(self).ttl_spec() == old(self).ttl_spec(),
            final(self).content_hash_spec() == old(self).content_hash_spec(),
    {
        self.generation = self.generation.wrapping_add(1);
        self.generation
    }

    /// Current generation.
    pub fn generation(&self) -> (r: u32)
        ensures
            r == self.generation_spec(),
    {
        self.generation
    }
}

/// Cache entry: data and metadata.
#[derive(Clone, Debug)]
pub struct CacheEntry {
    /// Entry metadata
    pub metadata: EntryMetadata,
    data: Vec<u8>,
}

impl CacheEntry {
    /// The entry's metadata.
    pub closed spec fn meta(&self) -> EntryMetadata {
        self.metadata
    }

    /// The cached bytes.
    pub closed spec fn data_spec(&self) -> Seq<u8> {
        self.data@
    }

    /// An entry for `data`, with its size and content hash.
    pub fn new(data: Vec<u8>) -> (r: CacheEntry)
        requires
            data@.len() <= u64::MAX,
        ensures
            r.data_spec() == data@,
            r.meta().size_spec() == data@.len(),
            r.meta().content_hash_spec() == fx_hash_spec(data@),
            r.meta().access_count_spec() == 1,
            r.meta().ttl_spec() == 0,
    {
        let content_hash = fx_hash(data.as_slice());
        let size = data.len() as u64;
        CacheEntry { metadata: EntryMetadata::new(size, content_hash), data }
    }

    /// As `new`, expiring after `ttl_secs` seconds.
    pub fn with_ttl(data: Vec<u8>, ttl_secs: u64) -> (r: CacheEntry)
        requires
            data@.len() <= u64::MAX,
        ensures
            r.data_spec() == data@,
            r.meta().size_spec() == data@.len(),
            r.meta().content_hash_spec() == fx_hash_spec(data@),
            r.meta().ttl_spec() == ttl_secs as u32,
    {
        let content_hash = fx_hash(data.as_slice());
        let size = data.len() as u64;
        CacheEntry { metadata: EntryMetadata::with_ttl(size, content_hash, ttl_secs), data }
    }

    /// An entry with existing metadata (moving between tiers).
    pub fn with_metadata(data: Vec<u8>, metadata: EntryMetadata) -> (r: CacheEntry)
        ensures
            r.data_spec() == data@,
            r.meta() == metadata,
    {
        CacheEntry { metadata, data }
    }

    /// The entry's metadata.
    pub fn metadata(&self) -> (r: EntryMetadata)
        ensures
            r == self.meta(),
    {
        self.metadata
    }

    /// The cached bytes.
    pub fn data(&self) -> (r: &[u8])
        ensures
            r@ == self.data_spec(),
    {
        self.data.as_slice()
    }

    /// Size recorded in the metadata.
    pub fn size(&self) -> (r: u64)
        ensures
            r == self.meta().size_spec(),
    {
        self.metadata.size()
    }

    /// Records an access.
    pub fn record_access(&mut self) -> (r: u32)
        ensures
            r == vstd::wrapping::u32_specs::wrapping_add(old(self).meta().access_count_spec(), 1),
            final(self).meta().access_count_spec() == r,
            final(self).meta().size_spec() == old(self).meta().size_spec(),
            final(self).data_spec() == old(self).data_spec(),
    {
        self.metadata.record_access()
    }

    /// Whether the entry has expired.
    pub fn is_expired(&self) -> (r: bool)
        ensures
            self.meta().ttl_spec() == 0 ==> !r,
            exists|now: u64| #[trigger] self.meta().expired_at(now) == r,
    {
        let r = self.metadata.is_expired();
        proof {
            let now = choose|now: u64| #[trigger] self.metadata.expired_at(now) == r;
            assert(self.meta().expired_at(now) == r);
        }
        r
    }

    /// Whether the data still has the hash recorded in the metadata.
    pub fn verify_integrity(&self) -> (r: bool)
        ensures
            r == (fx_hash_spec(self.data_spec()) == self.meta().content_hash_spec()),
    {
        let computed = fx_hash(self.data.as_slice());
        computed == self.metadata.content_hash()
    }
}

/// A newly created entry passes its integrity check.
pub proof fn law_new_entry_is_intact(data: Seq<u8>, e: CacheEntry)
    requires
        e.data_spec() == data,
        e.meta().content_hash_spec() == fx_hash_spec(data),
    ensures
        fx_hash_spec(e.data_spec()) == e.meta().content_hash_spec(),
{
}

/// An entry with a time to live has not expired up to `ttl` seconds after
/// its creation and has expired at every later time; an entry without one
/// never expires.
pub proof fn law_expiry(m: EntryMetadata, t: u64)
    ensures
        m.ttl_spec() == 0 ==> !m.expired_at(t),
        m.ttl_spec() != 0 && t > m.created_at_spec() + m.ttl_spec() ==> m.expired_at(t),
        t <= m.created_at_spec() + m.ttl_spec() ==> !m.expired_at(t),
{
}

/// Once expired, an entry stays expired at every later time.
pub proof fn law_expiry_monotone(m: EntryMetadata, t1: u64, t2: u64)
    requires
        t1 <= t2,
        m.expired_at(t1),
    ensures
        m.expired_at(t2),
{
}

} // verus!
