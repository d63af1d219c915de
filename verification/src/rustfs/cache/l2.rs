//! L2 (NVMe) cache configuration and index entries.

use vstd::prelude::*;

use super::entry::{CacheEntry, CacheKey, EntryMetadata};
use super::DEFAULT_L2_CAPACITY;
use crate::clock::unix_now_secs;

verus! {

/// L2 cache configuration.
#[derive(Debug, Clone)]
pub struct L2Config {
    /// Maximum capacity in bytes
    pub capacity: u64,
    /// Cache directory path
    pub cache_dir: String,
    /// Maximum data file size before rotation
    pub max_file_size: u64,
    /// Minimum entry size (smaller objects are not cached in L2)
    pub min_entry_size: usize,
    /// Enable memory mapping
    pub enable_mmap: bool,
}

impl Default for L2Config {
    fn default() -> (r: Self)
        ensures
            r.capacity == DEFAULT_L2_CAPACITY,
            r.cache_dir@ == "/var/cache/rustfs/l2"@,
            r.max_file_size == 1073741824,
            r.min_entry_size == 4096,
            r.enable_mmap,
    {
        L2Config {
            capacity: DEFAULT_L2_CAPACITY,
            cache_dir: "/var/cache/rustfs/l2".to_owned(),
            max_file_size: 1073741824,
            min_entry_size: 4096,
            enable_mmap: true,
        }
    }
}

/// Index entry of the L2 cache: where an entry's data lies.
#[derive(Debug, Clone)]
pub struct L2IndexEntry {
    /// File ID containing the data
    pub file_id: u64,
    /// Offset within the file
    pub offset: u64,
    /// Size of the entry
    pub size: u64,
    /// Entry metadata
    pub metadata: EntryMetadata,
}


// =============================================================================
// L2 Cache
// =============================================================================

/// Sum of the sizes recorded in the index.
pub open spec fn index_bytes(index: Seq<(u64, L2IndexEntry)>) -> int
    decreases index.len(),
{
    if index.len() == 0 {
        0
    } else {
        index_bytes(index.drop_last()) + index.last().1.size
    }
}

/// Whether the index keys are strictly increasing.
pub open spec fn keys_ascending(index: Seq<(u64, L2IndexEntry)>) -> bool {
    forall|a: int, b: int| 0 <= a < b < index.len() ==> (#[trigger] index[a]).0 < (#[trigger] index[b]).0
}

/// Position of `key` in the index, if present.
pub open spec fn slot_of(index: Seq<(u64, L2IndexEntry)>, key: u64) -> Option<int> {
    if exists|i: int| 0 <= i < index.len() && (#[trigger] index[i]).0 == key {
        Some(choose|i: int| 0 <= i < index.len() && (#[trigger] index[i]).0 == key)
    } else {
        None
    }
}

/// The index as a map from key hash to entry.
pub open spec fn index_map(index: Seq<(u64, L2IndexEntry)>) -> Map<u64, L2IndexEntry> {
    Map::new(
        |k: u64| exists|i: int| 0 <= i < index.len() && (#[trigger] index[i]).0 == k,
        |k: u64| index[slot_of(index, k)->0].1,
    )
}

/// Eviction weight of an entry at time `now`: its age (seconds since last
/// access) and its access count plus one; an entry with a higher
/// `age / (count + 1)` is evicted first.
pub open spec fn evicts_before(a: L2IndexEntry, b: L2IndexEntry, now: u64) -> bool {
    let age_a = if now >= a.metadata.last_access_spec() { now - a.metadata.last_access_spec() } else { 0 };
    let age_b = if now >= b.metadata.last_access_spec() { now - b.metadata.last_access_spec() } else { 0 };
    age_a * (b.metadata.access_count_spec() + 1) > age_b * (a.metadata.access_count_spec() + 1)
}

/// No entry that stayed in `after` would have been evicted at time `now`
/// before an entry of `before` that left.
pub open spec fn evicted_in_order(before: Map<u64, L2IndexEntry>, after: Map<u64, L2IndexEntry>, now: u64) -> bool {
    forall|k1: u64, k2: u64|
        #[trigger] before.contains_key(k1) && !after.contains_key(k1) && #[trigger] after.contains_key(k2) ==> !evicts_before(
            after[k2],
            before[k1],
            now,
        )
}

/// An entry last used earlier and used no more often than another is
/// evicted before it, at any time after both last uses.
pub proof fn law_older_colder_evicted_first(a: L2IndexEntry, b: L2IndexEntry, now: u64)
    requires
        a.metadata.last_access_spec() < b.metadata.last_access_spec() <= now,
        a.metadata.access_count_spec() <= b.metadata.access_count_spec(),
    ensures
        evicts_before(a, b, now),
        !evicts_before(b, a, now),
{
    let xa: int = now - a.metadata.last_access_spec();
    let xb: int = now - b.metadata.last_access_spec();
    let fa: int = a.metadata.access_count_spec() + 1;
    let fb: int = b.metadata.access_count_spec() + 1;
    assert(xa * fb > xb * fa) by (nonlinear_arith)
        requires
            xa > xb,
            xb >= 0,
            0 < fa <= fb,
    ;
}

/// Of two entries last used at the same time, before `now`, the one used
/// fewer times is evicted first.
pub proof fn law_less_used_evicted_first(a: L2IndexEntry, b: L2IndexEntry, now: u64)
    requires
        a.metadata.last_access_spec() == b.metadata.last_access_spec(),
        a.metadata.last_access_spec() < now,
        a.metadata.access_count_spec() < b.metadata.access_count_spec(),
    ensures
        evicts_before(a, b, now),
{
    let x: int = now - a.metadata.last_access_spec();
    let fa: int = a.metadata.access_count_spec() + 1;
    let fb: int = b.metadata.access_count_spec() + 1;
    assert(x * fb > x * fa) by (nonlinear_arith)
        requires
            x > 0,
            fa < fb,
    ;
}

/// Eviction order is transitive.
proof fn lemma_evicts_before_transitive(a: L2IndexEntry, b: L2IndexEntry, c: L2IndexEntry, now: u64)
    requires
        evicts_before(a, b, now),
        evicts_before(b, c, now),
    ensures
        evicts_before(a, c, now),
{
    let xa: int = if now >= a.metadata.last_access_spec() { now - a.metadata.last_access_spec() } else { 0 };
    let xb: int = if now >= b.metadata.last_access_spec() { now - b.metadata.last_access_spec() } else { 0 };
    let xc: int = if now >= c.metadata.last_access_spec() { now - c.metadata.last_access_spec() } else { 0 };
    let fa: int = a.metadata.access_count_spec() + 1;
    let fb: int = b.metadata.access_count_spec() + 1;
    let fc: int = c.metadata.access_count_spec() + 1;
    assert(xa * fc > xc * fa) by (nonlinear_arith)
        requires
            xa >= 0,
            xb >= 0,
            xc >= 0,
            fa > 0,
            fb > 0,
            fc > 0,
            xa * fb > xb * fa,
            xb * fc > xc * fb,
    ;
}

/// Whether `after` is `before` after a put of a `size`-byte entry under
/// `key` that evicted `e` entries: the eviction counter grew by `e`,
/// nothing was evicted when the entry fitted, and the entry count is the
/// old one less the evicted entries, plus one unless `key` was kept.
pub open spec fn evicted_for_put(before: L2Cache, after: L2Cache, key: u64, size: u64, e: nat) -> bool {
    &&& e <= before.index_spec().len()
    &&& after.counters().2 == vstd::wrapping::u64_specs::wrapping_add(before.counters().2, e as u64)
    &&& before.size_spec() + size <= before.config_spec().capacity ==> e == 0
    &&& after.index_spec().len() == before.index_spec().len() - e || after.index_spec().len() == before.index_spec().len() - e + 1
    &&& !before.entries().contains_key(key) ==> after.index_spec().len() == before.index_spec().len() - e + 1
}

/// L2 cache: an index from key hash to the location of the entry's data
/// in append-only data files.
#[derive(Debug)]
pub struct L2Cache {
    index: Vec<(u64, L2IndexEntry)>,
    config: L2Config,
    current_size: u64,
    current_file_id: u64,
    current_offset: u64,
    hits: u64,
    misses: u64,
    evictions: u64,
}

impl L2Cache {
    /// The index entries, in ascending key order.
    pub closed spec fn index_spec(&self) -> Seq<(u64, L2IndexEntry)> {
        self.index@
    }

    /// The index as a map.
    pub open spec fn entries(&self) -> Map<u64, L2IndexEntry> {
        index_map(self.index_spec())
    }

    /// The configuration.
    pub closed spec fn config_spec(&self) -> L2Config {
        self.config
    }

    /// Bytes currently cached.
    pub closed spec fn size_spec(&self) -> u64 {
        self.current_size
    }

    /// (file id, offset) where the next entry's data goes.
    pub closed spec fn write_position(&self) -> (u64, u64) {
        (self.current_file_id, self.current_offset)
    }

    /// (hits, misses, evictions).
    pub closed spec fn counters(&self) -> (u64, u64, u64) {
        (self.hits, self.misses, self.evictions)
    }

    /// Keys ascend, and the cached size is the sum of the entry sizes and
    /// within the capacity.
    pub closed spec fn wf(&self) -> bool {
        &&& keys_ascending(self.index@)
        &&& self.current_size == index_bytes(self.index@)
        &&& self.current_size <= self.config.capacity
    }

    /// An empty cache with the default configuration.
    pub fn new() -> (r: L2Cache)
        ensures
            r.wf(),
            r.entries() == Map::<u64, L2IndexEntry>::empty(),
            r.size_spec() == 0,
            r.config_spec().capacity == DEFAULT_L2_CAPACITY,
            r.config_spec().cache_dir@ == "/var/cache/rustfs/l2"@,
            r.config_spec().max_file_size == 1073741824,
            r.config_spec().min_entry_size == 4096,
            r.config_spec().enable_mmap,
            r.write_position() == (0u64, 0u64),
            r.counters() == (0u64, 0u64, 0u64),
    {
        L2Cache::with_config(L2Config::default())
    }

    /// An empty cache with `config`.
    pub fn with_config(config: L2Config) -> (r: L2Cache)
        ensures
            r.wf(),
            r.config_spec() == config,
            r.entries() == Map::<u64, L2IndexEntry>::empty(),
            r.size_spec() == 0,
            r.write_position() == (0u64, 0u64),
            r.counters() == (0u64, 0u64, 0u64),
    {
        let c = L2Cache {
            index: Vec::new(),
            config,
            current_size: 0,
            current_file_id: 0,
            current_offset: 0,
            hits: 0,
            misses: 0,
            evictions: 0,
        };
        assert(index_map(c.index@) =~= Map::<u64, L2IndexEntry>::empty());
        c
    }

    /// Position of `key` in the index, if present.
    fn find(&self, key: u64) -> (r: Option<usize>)
        requires
            self.wf(),
        ensures
            r == match slot_of(self.index_spec(), key) {
                Some(i) => Some(i as usize),
                None => None::<usize>,
            },
            r matches Some(i) ==> i < self.index_spec().len() && self.index_spec()[i as int].0 == key,
    {
        let mut i: usize = 0;
        while i < self.index.len()
            invariant
                self.wf(),
                0 <= i <= self.index@.len(),
                forall|j: int| 0 <= j < i ==> (#[trigger] self.index@[j]).0 != key,
            decreases self.index@.len() - i,
        {
            if self.index[i].0 == key {
                proof {
                    lemma_slot_unique(self.index@, i as int);
                }
                return Some(i);
            }
            i += 1;
        }
        None
    }

    /// The entry for `key`: counts a hit and records an access on the
    /// index entry, or counts a miss. The data of a hit is `size` zero
    /// bytes (the index does not hold the data) with the entry's metadata.
    pub fn get(&mut self, key: &CacheKey) -> (r: Option<CacheEntry>)
        requires
            old(self).wf(),
        ensures
            final(self).wf(),
            final(self).config_spec() == old(self).config_spec(),
            final(self).size_spec() == old(self).size_spec(),
            final(self).write_position() == old(self).write_position(),
            final(self).entries().dom() == old(self).entries().dom(),
            r is Some <==> old(self).entries().contains_key(key.combined_spec()),
            r is None ==> final(self).counters() == (
                old(self).counters().0,
                vstd::wrapping::u64_specs::wrapping_add(old(self).counters().1, 1),
                old(self).counters().2,
            ),
            r is Some ==> final(self).counters() == (
                vstd::wrapping::u64_specs::wrapping_add(old(self).counters().0, 1),
                old(self).counters().1,
                old(self).counters().2,
            ),
            r matches Some(e) ==> {
                let k = key.combined_spec();
                let old_e = old(self).entries()[k];
                let new_e = final(self).entries()[k];
                &&& e.data_spec() == Seq::new((old_e.size as usize) as nat, |i: int| 0u8)
                &&& e.meta() == new_e.metadata
                &&& new_e.size == old_e.size
                &&& new_e.metadata.access_count_spec() == vstd::wrapping::u32_specs::wrapping_add(old_e.metadata.access_count_spec(), 1)
                &&& new_e.metadata.size_spec() == old_e.metadata.size_spec()
            },
    {
        let key_hash = key.combined_hash();
        match self.find(key_hash) {
            Some(i) => {
                let mut slot = self.index.remove(i);
                slot.1.metadata.record_access();
                let meta = slot.1.metadata;
                let size = slot.1.size;
                let ghost old_slot = old(self).index@[i as int];
                self.index.insert(i, slot);
                self.hits = self.hits.wrapping_add(1);
                proof {
                    assert(self.index@ =~= old(self).index@.update(i as int, self.index@[i as int]));
                    lemma_update_same_key(old(self).index@, i as int, self.index@[i as int]);
                    lemma_bytes_update(old(self).index@, i as int, self.index@[i as int]);
                    lemma_slot_unique(old(self).index@, i as int);
                }
                let data = zero_bytes(size as usize);
                Some(CacheEntry::with_metadata(data, meta))
            },
            None => {
                self.misses = self.misses.wrapping_add(1);
                None
            },
        }
    }

    /// Whether `key` is cached.
    pub fn contains(&self, key: &CacheKey) -> (r: bool)
        requires
            self.wf(),
        ensures
            r == self.entries().contains_key(key.combined_spec()),
    {
        self.find(key.combined_hash()).is_some()
    }

    /// Caches an entry: refused (false, nothing changes) when smaller than
    /// the minimum entry size or larger than the capacity. Otherwise,
    /// entries are evicted (highest age over access count first) until the
    /// entry fits, the entry is placed at the current write position (the
    /// next file once the current one would overflow), and it replaces any
    /// entry for the same key.
    pub fn put(&mut self, key: CacheKey, entry: CacheEntry) -> (r: bool)
        requires
            old(self).wf(),
        ensures
            final(self).wf(),
            final(self).config_spec() == old(self).config_spec(),
            r == ((entry.meta().size_spec() as usize) >= old(self).config_spec().min_entry_size
                && entry.meta().size_spec() <= old(self).config_spec().capacity),
            final(self).size_spec() <= final(self).config_spec().capacity,
            r && old(self).size_spec() + entry.meta().size_spec() <= old(self).config_spec().capacity ==> forall|k2: u64|
                #[trigger] old(self).entries().contains_key(k2) ==> final(self).entries().contains_key(k2),
            !r ==> *final(self) == *old(self),
            final(self).counters().0 == old(self).counters().0,
            final(self).counters().1 == old(self).counters().1,
            r ==> exists|e: nat| #[trigger] evicted_for_put(*old(self), *final(self), key.combined_spec(), entry.meta().size_spec(), e),
            r ==> exists|now: u64|
                #[trigger] evicted_in_order(
                    old(self).entries().remove(key.combined_spec()),
                    final(self).entries().remove(key.combined_spec()),
                    now,
                ),
            r ==> {
                let k = key.combined_spec();
                let size = entry.meta().size_spec();
                let (fid, off) = old(self).write_position();
                &&& final(self).entries().contains_key(k)
                &&& final(self).entries()[k] == (L2IndexEntry { file_id: fid, offset: off, size, metadata: entry.meta() })
                &&& forall|k2: u64|
                    k2 != k && #[trigger] final(self).entries().contains_key(k2) ==> old(self).entries().contains_key(k2)
                        && final(self).entries()[k2] == old(self).entries()[k2]
                &&& final(self).write_position() == if off + size > old(self).config_spec().max_file_size {
                    (vstd::wrapping::u64_specs::wrapping_add(fid, 1), size)
                } else {
                    (fid, vstd::wrapping::u64_specs::wrapping_add(off, size))
                }
            },
    {
        let now = unix_now_secs();
        let r = self.put_at(key, entry, now);
        proof {
            if r {
                let k = key.combined_spec();
                assert(evicted_in_order(old(self).entries().remove(k), self.entries().remove(k), now));
            }
        }
        r
    }

    /// As `put`, with `now` (seconds since the epoch) as the time entries
    /// are aged by when room has to be made.
    pub fn put_at(&mut self, key: CacheKey, entry: CacheEntry, now: u64) -> (r: bool)
        requires
            old(self).wf(),
        ensures
            final(self).wf(),
            final(self).config_spec() == old(self).config_spec(),
            r == ((entry.meta().size_spec() as usize) >= old(self).config_spec().min_entry_size
                && entry.meta().size_spec() <= old(self).config_spec().capacity),
            final(self).size_spec() <= final(self).config_spec().capacity,
            r && old(self).size_spec() + entry.meta().size_spec() <= old(self).config_spec().capacity ==> forall|k2: u64|
                #[trigger] old(self).entries().contains_key(k2) ==> final(self).entries().contains_key(k2),
            !r ==> *final(self) == *old(self),
            final(self).counters().0 == old(self).counters().0,
            final(self).counters().1 == old(self).counters().1,
            r ==> exists|e: nat| #[trigger] evicted_for_put(*old(self), *final(self), key.combined_spec(), entry.meta().size_spec(), e),
            r ==> evicted_in_order(
                old(self).entries().remove(key.combined_spec()),
                final(self).entries().remove(key.combined_spec()),
                now,
            ),
            r ==> {
                let k = key.combined_spec();
                let size = entry.meta().size_spec();
                let (fid, off) = old(self).write_position();
                &&& final(self).entries().contains_key(k)
                &&& final(self).entries()[k] == (L2IndexEntry { file_id: fid, offset: off, size, metadata: entry.meta() })
                &&& forall|k2: u64|
                    k2 != k && #[trigger] final(self).entries().contains_key(k2) ==> old(self).entries().contains_key(k2)
                        && final(self).entries()[k2] == old(self).entries()[k2]
                &&& final(self).write_position() == if off + size > old(self).config_spec().max_file_size {
                    (vstd::wrapping::u64_specs::wrapping_add(fid, 1), size)
                } else {
                    (fid, vstd::wrapping::u64_specs::wrapping_add(off, size))
                }
            },
    {
        let size = entry.size();
        if (size as usize) < self.config.min_entry_size {
            return false;
        }
        if size > self.config.capacity {
            return false;
        }
        if self.current_size > self.config.capacity - size {
            self.evict_until_space(size, now);
        } else {
            proof {
                assert(evicted_in_order(old(self).entries(), self.entries(), now));
            }
        }
        let ghost mid_len = self.index@.len();
        let ghost e: nat = (old(self).index@.len() - mid_len) as nat;
        proof {
            assert(old(self).size_spec() + size <= old(self).config_spec().capacity ==> mid_len == old(self).index@.len());
        }
        let ghost mid_map = self.entries();
        assert(forall|k: u64|
            #[trigger] mid_map.contains_key(k) ==> old(self).entries().contains_key(k) && mid_map[k]
                == old(self).entries()[k]);
        let key_hash = key.combined_hash();
        let offset = self.current_offset;
        self.current_offset = self.current_offset.wrapping_add(size);
        let file_id = self.current_file_id;
        if (offset as u128) + (size as u128) > self.config.max_file_size as u128 {
            self.current_file_id = self.current_file_id.wrapping_add(1);
            self.current_offset = size;
        }
        let index_entry = L2IndexEntry { file_id, offset, size, metadata: entry.metadata() };
        let ghost before = self.index@;
        let ghost ie = index_entry;
        let found = self.find(key_hash);
        proof {
            if found is Some {
                let i = found->0 as int;
                assert(before[i].0 == key_hash);
                assert(index_map(before).contains_key(key_hash));
            }
        }
        match found {
            Some(i) => {
                let old_size = self.index[i].1.size;
                self.index.set(i, (key_hash, index_entry));
                proof {
                    lemma_update_same_key(before, i as int, self.index@[i as int]);
                    lemma_bytes_update(before, i as int, self.index@[i as int]);
                    lemma_bytes_nonneg(self.index@);
                    assert(self.index@ =~= before.update(i as int, self.index@[i as int]));
                }
                if size > old_size {
                    self.current_size = self.current_size + (size - old_size);
                } else {
                    self.current_size = self.current_size - (old_size - size);
                }
            },
            None => {
                let p = self.insert_position(key_hash);
                self.index.insert(p, (key_hash, index_entry));
                proof {
                    lemma_insert_ascending(before, p as int, self.index@[p as int]);
                    lemma_insert_map(before, p as int, self.index@[p as int]);
                    lemma_bytes_insert(before, p as int, self.index@[p as int]);
                }
                self.current_size = self.current_size + size;
            },
        }
        proof {
            assert(mid_map == index_map(before));
            assert(self.entries() == index_map(before).insert(key_hash, ie));
            assert forall|k2: u64|
                k2 != key_hash && #[trigger] self.entries().contains_key(k2) implies old(self).entries().contains_key(k2)
                    && self.entries()[k2] == old(self).entries()[k2] by {
                assert(mid_map.contains_key(k2));
            }
            assert(evicted_for_put(*old(self), *self, key_hash, size, e));
            assert(evicted_in_order(old(self).entries(), mid_map, now));
            assert forall|k1: u64, k2: u64|
                #[trigger] old(self).entries().remove(key_hash).contains_key(k1) && !self.entries().remove(
                    key_hash,
                ).contains_key(k1) && #[trigger] self.entries().remove(key_hash).contains_key(k2) implies !evicts_before(
                self.entries().remove(key_hash)[k2],
                old(self).entries().remove(key_hash)[k1],
                now,
            ) by {
                assert(mid_map.contains_key(k2));
                assert(!mid_map.contains_key(k1));
            }
            assert(evicted_in_order(old(self).entries().remove(key_hash), self.entries().remove(key_hash), now));
        }
        true
    }

    /// First position whose key is above `key` (where `key` goes).
    fn insert_position(&self, key: u64) -> (r: usize)
        requires
            self.wf(),
            slot_of(self.index_spec(), key) is None,
        ensures
            r <= self.index_spec().len(),
            forall|j: int| 0 <= j < r ==> (#[trigger] self.index_spec()[j]).0 < key,
            forall|j: int| r <= j < self.index_spec().len() ==> (#[trigger] self.index_spec()[j]).0 > key,
    {
        let mut i: usize = 0;
        while i < self.index.len()
            invariant
                self.wf(),
                slot_of(self.index@, key) is None,
                0 <= i <= self.index@.len(),
                forall|j: int| 0 <= j < i ==> (#[trigger] self.index@[j]).0 < key,
            decreases self.index@.len() - i,
        {
            if self.index[i].0 > key {
                proof {
                    assert forall|j: int| i <= j < self.index@.len() implies (#[trigger] self.index@[j]).0 > key by {
                        if j > i {
                            assert(self.index@[i as int].0 < self.index@[j].0);
                        }
                    }
                }
                return i;
            }
            proof {
                assert(self.index@[i as int].0 != key);
            }
            i += 1;
        }
        i
    }

    /// Removes the entry for `key`; true if there was one.
    pub fn remove(&mut self, key: &CacheKey) -> (r: bool)
        requires
            old(self).wf(),
        ensures
            final(self).wf(),
            final(self).config_spec() == old(self).config_spec(),
            r == old(self).entries().contains_key(key.combined_spec()),
            final(self).entries() == old(self).entries().remove(key.combined_spec()),
            r ==> final(self).size_spec() == old(self).size_spec() - old(self).entries()[key.combined_spec()].size,
            !r ==> final(self).size_spec() == old(self).size_spec(),
    {
        let key_hash = key.combined_hash();
        match self.find(key_hash) {
            Some(i) => {
                let ghost before = self.index@;
                let slot = self.index.remove(i);
                proof {
                    lemma_bytes_remove(before, i as int);
                    lemma_bytes_nonneg(self.index@);
                    lemma_remove_ascending(before, i as int);
                    lemma_map_after_remove(before, i as int);
                }
                self.current_size = self.current_size - slot.1.size;
                true
            },
            None => {
                proof {
                    assert(index_map(self.index@).remove(key_hash) =~= index_map(self.index@));
                }
                false
            },
        }
    }

    /// Evicts entries, highest age over access count first (ties in key
    /// order), until the cached size leaves room for `needed` bytes or the
    /// cache is empty.
    fn evict_until_space(&mut self, needed: u64, now: u64)
        requires
            old(self).wf(),
            needed <= old(self).config_spec().capacity,
        ensures
            final(self).wf(),
            final(self).config_spec() == old(self).config_spec(),
            final(self).write_position() == old(self).write_position(),
            final(self).size_spec() + needed <= final(self).config_spec().capacity || final(self).index_spec().len() == 0,
            forall|k: u64|
                #[trigger] final(self).entries().contains_key(k) ==> old(self).entries().contains_key(k)
                    && final(self).entries()[k] == old(self).entries()[k],
            final(self).index_spec().len() <= old(self).index_spec().len(),
            final(self).counters() == (
                old(self).counters().0,
                old(self).counters().1,
                vstd::wrapping::u64_specs::wrapping_add(
                    old(self).counters().2,
                    (old(self).index_spec().len() - final(self).index_spec().len()) as u64,
                ),
            ),
            old(self).size_spec() + needed <= old(self).config_spec().capacity ==> final(self).index_spec() == old(
                self,
            ).index_spec(),
            evicted_in_order(old(self).entries(), final(self).entries(), now),
    {
        let target = self.config.capacity.saturating_sub(needed);
        let ghost start = self.index@;
        let start_len = self.index.len();
        while self.current_size > target && self.index.len() > 0
            invariant
                self.wf(),
                self.hits == old(self).hits,
                self.misses == old(self).misses,
                self.index@.len() <= start.len(),
                start_len == start.len(),
                old(self).current_size == index_bytes(start),
                self.evictions == vstd::wrapping::u64_specs::wrapping_add(
                    old(self).evictions,
                    (start.len() - self.index@.len()) as u64,
                ),
                old(self).size_spec() + needed <= old(self).config_spec().capacity ==> self.index@ == start,
                self.config == old(self).config,
                self.current_file_id == old(self).current_file_id,
                self.current_offset == old(self).current_offset,
                target == self.config.capacity - needed,
                start == old(self).index@,
                forall|k: u64|
                    #[trigger] index_map(self.index@).contains_key(k) ==> index_map(start).contains_key(k)
                        && index_map(self.index@)[k] == index_map(start)[k],
                evicted_in_order(index_map(start), index_map(self.index@), now),
            decreases self.index@.len(),
        {
            proof {
                if old(self).size_spec() + needed <= old(self).config_spec().capacity {
                    assert(self.current_size == old(self).current_size);
                    assert(false);
                }
            }
            let mut best: usize = 0;
            let mut j: usize = 1;
            while j < self.index.len()
                invariant
                    self.index@.len() > 0,
                    0 <= best < j <= self.index@.len(),
                    forall|q: int| 0 <= q < j ==> !evicts_before(#[trigger] self.index@[q].1, self.index@[best as int].1, now),
                decreases self.index@.len() - j,
            {
                if evicts_first(&self.index[j].1, &self.index[best].1, now) {
                    proof {
                        assert forall|q: int| 0 <= q < j implies !evicts_before(
                            #[trigger] self.index@[q].1,
                            self.index@[j as int].1,
                            now,
                        ) by {
                            if evicts_before(self.index@[q].1, self.index@[j as int].1, now) {
                                lemma_evicts_before_transitive(
                                    self.index@[q].1,
                                    self.index@[j as int].1,
                                    self.index@[best as int].1,
                                    now,
                                );
                            }
                        }
                    }
                    best = j;
                }
                j += 1;
            }
            let ghost before = self.index@;
            let slot = self.index.remove(best);
            proof {
                lemma_bytes_remove(before, best as int);
                lemma_bytes_nonneg(self.index@);
                lemma_remove_ascending(before, best as int);
                lemma_map_after_remove(before, best as int);
                assert forall|k: u64| #[trigger] index_map(self.index@).contains_key(k) implies index_map(start).contains_key(k)
                    && index_map(self.index@)[k] == index_map(start)[k] by {
                    assert(index_map(before).contains_key(k));
                }
                let kb = before[best as int].0;
                lemma_slot_unique(before, best as int);
                assert(index_map(before)[kb] == before[best as int].1);
                assert forall|k1: u64, k2: u64|
                    #[trigger] index_map(start).contains_key(k1) && !index_map(self.index@).contains_key(k1)
                        && #[trigger] index_map(self.index@).contains_key(k2) implies !evicts_before(
                    index_map(self.index@)[k2],
                    index_map(start)[k1],
                    now,
                ) by {
                    assert(index_map(before).contains_key(k2));
                    let q = slot_of(before, k2)->0;
                    assert(0 <= q < before.len() && before[q].0 == k2);
                    assert(index_map(self.index@)[k2] == before[q].1);
                    if index_map(before).contains_key(k1) {
                        assert(k1 == kb);
                    }
                }
            }
            self.current_size = self.current_size - slot.1.size;
            let ghost ev0 = self.evictions;
            self.evictions = self.evictions.wrapping_add(1);
            proof {
                lemma_wrapping_add_step(old(self).evictions, (start.len() - before.len()) as u64);
            }
        }
        proof {
            assert(evicted_in_order(old(self).entries(), self.entries(), now));
        }
    }

    /// Bytes currently cached.
    pub fn size(&self) -> (r: u64)
        ensures
            r == self.size_spec(),
    {
        self.current_size
    }

    /// Capacity in bytes.
    pub fn capacity(&self) -> (r: u64)
        ensures
            r == self.config_spec().capacity,
    {
        self.config.capacity
    }

    /// Number of entries.
    pub fn len(&self) -> (r: usize)
        ensures
            r == self.index_spec().len(),
    {
        self.index.len()
    }

    /// Whether the cache holds no entry.
    pub fn is_empty(&self) -> (r: bool)
        ensures
            r == (self.index_spec().len() == 0),
    {
        self.index.len() == 0
    }

    /// Hit count.
    pub fn hits(&self) -> (r: u64)
        ensures
            r == self.counters().0,
    {
        self.hits
    }

    /// Miss count.
    pub fn misses(&self) -> (r: u64)
        ensures
            r == self.counters().1,
    {
        self.misses
    }

    /// Eviction count.
    pub fn evictions(&self) -> (r: u64)
        ensures
            r == self.counters().2,
    {
        self.evictions
    }

    /// Id of the data file being written.
    pub fn current_file_id(&self) -> (r: u64)
        ensures
            r == self.write_position().0,
    {
        self.current_file_id
    }

    /// Drops every entry and rewinds the write offset.
    pub fn clear(&mut self)
        requires
            old(self).wf(),
        ensures
            final(self).wf(),
            final(self).config_spec() == old(self).config_spec(),
            final(self).entries() == Map::<u64, L2IndexEntry>::empty(),
            final(self).size_spec() == 0,
            final(self).write_position() == (old(self).write_position().0, 0u64),
    {
        self.index = Vec::new();
        self.current_size = 0;
        self.current_offset = 0;
        assert(index_map(self.index@) =~= Map::<u64, L2IndexEntry>::empty());
    }

    /// The configuration.
    pub fn config(&self) -> (r: &L2Config)
        ensures
            *r == self.config_spec(),
    {
        &self.config
    }
}

/// The bytes held by a cache never exceed its capacity: every operation
/// keeps the cache well formed, and a well-formed cache is within capacity.
pub proof fn law_size_within_capacity(cache: L2Cache)
    requires
        cache.wf(),
    ensures
        cache.size_spec() <= cache.config_spec().capacity,
{
}

impl Default for L2Cache {
    fn default() -> (r: Self)
        ensures
            r.wf(),
            r.entries() == Map::<u64, L2IndexEntry>::empty(),
    {
        L2Cache::new()
    }
}

/// Whether entry `a` is evicted before entry `b` at time `now`.
fn evicts_first(a: &L2IndexEntry, b: &L2IndexEntry, now: u64) -> (r: bool)
    ensures
        r == evicts_before(*a, *b, now),
{
    let la = a.metadata.last_access();
    let lb = b.metadata.last_access();
    let age_a: u128 = if now >= la { (now - la) as u128 } else { 0 };
    let age_b: u128 = if now >= lb { (now - lb) as u128 } else { 0 };
    let fa: u128 = a.metadata.access_count() as u128 + 1;
    let fb: u128 = b.metadata.access_count() as u128 + 1;
    assert(age_a * fb <= u64::MAX as u128 * 0x1_0000_0000u128) by (nonlinear_arith)
        requires
            age_a <= u64::MAX,
            fb <= 0x1_0000_0000u128,
    ;
    assert(age_b * fa <= u64::MAX as u128 * 0x1_0000_0000u128) by (nonlinear_arith)
        requires
            age_b <= u64::MAX,
            fa <= 0x1_0000_0000u128,
    ;
    age_a * fb > age_b * fa
}

/// `n` zero bytes.
fn zero_bytes(n: usize) -> (r: Vec<u8>)
    ensures
        r@ == Seq::new(n as nat, |i: int| 0u8),
{
    let v = vec![0u8; n];
    assert(v@ =~= Seq::new(n as nat, |i: int| 0u8));
    v
}

proof fn lemma_wrapping_add_step(a: u64, x: u64)
    requires
        x < u64::MAX,
    ensures
        vstd::wrapping::u64_specs::wrapping_add(vstd::wrapping::u64_specs::wrapping_add(a, x), 1)
            == vstd::wrapping::u64_specs::wrapping_add(a, (x + 1) as u64),
{
}

proof fn lemma_slot_unique(index: Seq<(u64, L2IndexEntry)>, i: int)
    requires
        keys_ascending(index),
        0 <= i < index.len(),
    ensures
        slot_of(index, index[i].0) == Some(i),
{
    let k = choose|k: int| 0 <= k < index.len() && (#[trigger] index[k]).0 == index[i].0;
    if k < i {
        assert(index[k].0 < index[i].0);
    } else if k > i {
        assert(index[i].0 < index[k].0);
    }
}

proof fn lemma_update_same_key(index: Seq<(u64, L2IndexEntry)>, i: int, x: (u64, L2IndexEntry))
    requires
        keys_ascending(index),
        0 <= i < index.len(),
        x.0 == index[i].0,
    ensures
        keys_ascending(index.update(i, x)),
        index_map(index.update(i, x)) == index_map(index).insert(x.0, x.1),
{
    let n = index.update(i, x);
    assert forall|a: int, b: int| 0 <= a < b < n.len() implies (#[trigger] n[a]).0 < (#[trigger] n[b]).0 by {
        assert(n[a].0 == index[a].0);
        assert(n[b].0 == index[b].0);
    }
    assert forall|k: u64| #[trigger] index_map(n).contains_key(k) <==> index_map(index).insert(x.0, x.1).contains_key(k) by {
        if index_map(index).contains_key(k) {
            let j = choose|j: int| 0 <= j < index.len() && (#[trigger] index[j]).0 == k;
            assert(n[j].0 == k);
        }
        if index_map(n).contains_key(k) {
            let j = choose|j: int| 0 <= j < n.len() && (#[trigger] n[j]).0 == k;
            assert(index[j].0 == k);
        }
    }
    assert forall|k: u64| #[trigger] index_map(n).contains_key(k) implies index_map(n)[k] == index_map(index).insert(
        x.0,
        x.1,
    )[k] by {
        let j = choose|j: int| 0 <= j < n.len() && (#[trigger] n[j]).0 == k;
        lemma_slot_unique(n, j);
        lemma_slot_unique(index, j);
    }
    assert(index_map(n) =~= index_map(index).insert(x.0, x.1));
}

proof fn lemma_insert_ascending(index: Seq<(u64, L2IndexEntry)>, p: int, x: (u64, L2IndexEntry))
    requires
        keys_ascending(index),
        0 <= p <= index.len(),
        forall|j: int| 0 <= j < p ==> (#[trigger] index[j]).0 < x.0,
        forall|j: int| p <= j < index.len() ==> (#[trigger] index[j]).0 > x.0,
    ensures
        keys_ascending(index.insert(p, x)),
        index.insert(p, x)[p] == x,
{
    let n = index.insert(p, x);
    assert forall|a: int, b: int| 0 <= a < b < n.len() implies (#[trigger] n[a]).0 < (#[trigger] n[b]).0 by {
        if a < p && b < p {
            assert(n[a] == index[a] && n[b] == index[b]);
        } else if a < p && b == p {
            assert(n[a] == index[a]);
        } else if a < p {
            assert(n[a] == index[a] && n[b] == index[b - 1]);
        } else if a == p {
            assert(n[b] == index[b - 1]);
        } else {
            assert(n[a] == index[a - 1] && n[b] == index[b - 1]);
        }
    }
}

proof fn lemma_remove_ascending(index: Seq<(u64, L2IndexEntry)>, i: int)
    requires
        keys_ascending(index),
        0 <= i < index.len(),
    ensures
        keys_ascending(index.remove(i)),
{
    let n = index.remove(i);
    assert forall|a: int, b: int| 0 <= a < b < n.len() implies (#[trigger] n[a]).0 < (#[trigger] n[b]).0 by {
        let oa = if a < i { a } else { a + 1 };
        let ob = if b < i { b } else { b + 1 };
        assert(n[a] == index[oa] && n[b] == index[ob]);
    }
}

proof fn lemma_bytes_remove(index: Seq<(u64, L2IndexEntry)>, i: int)
    requires
        0 <= i < index.len(),
    ensures
        index_bytes(index.remove(i)) == index_bytes(index) - index[i].1.size,
    decreases index.len(),
{
    if i == index.len() - 1 {
        assert(index.remove(i) =~= index.drop_last());
    } else {
        lemma_bytes_remove(index.drop_last(), i);
        assert(index.remove(i).drop_last() =~= index.drop_last().remove(i));
        assert(index.remove(i).last() == index.last());
    }
}

proof fn lemma_bytes_nonneg(index: Seq<(u64, L2IndexEntry)>)
    ensures
        index_bytes(index) >= 0,
    decreases index.len(),
{
    if index.len() > 0 {
        lemma_bytes_nonneg(index.drop_last());
    }
}

proof fn lemma_bytes_insert(index: Seq<(u64, L2IndexEntry)>, p: int, x: (u64, L2IndexEntry))
    requires
        0 <= p <= index.len(),
    ensures
        index_bytes(index.insert(p, x)) == index_bytes(index) + x.1.size,
{
    lemma_bytes_remove(index.insert(p, x), p);
    assert(index.insert(p, x).remove(p) =~= index);
}

proof fn lemma_bytes_update(index: Seq<(u64, L2IndexEntry)>, i: int, x: (u64, L2IndexEntry))
    requires
        0 <= i < index.len(),
    ensures
        index_bytes(index.update(i, x)) == index_bytes(index) - index[i].1.size + x.1.size,
{
    lemma_bytes_remove(index, i);
    lemma_bytes_remove(index.update(i, x), i);
    assert(index.update(i, x).remove(i) =~= index.remove(i));
}

proof fn lemma_map_after_remove(index: Seq<(u64, L2IndexEntry)>, i: int)
    requires
        keys_ascending(index),
        0 <= i < index.len(),
    ensures
        index_map(index.remove(i)) == index_map(index).remove(index[i].0),
{
    let n = index.remove(i);
    lemma_remove_ascending(index, i);
    let key = index[i].0;
    assert forall|k: u64| #[trigger] index_map(n).contains_key(k) <==> index_map(index).remove(key).contains_key(k) by {
        if index_map(n).contains_key(k) {
            let j = choose|j: int| 0 <= j < n.len() && (#[trigger] n[j]).0 == k;
            let oj = if j < i { j } else { j + 1 };
            assert(index[oj].0 == k);
            assert(oj != i);
            lemma_slot_unique(index, oj);
            lemma_slot_unique(index, i);
        }
        if index_map(index).remove(key).contains_key(k) {
            let j = choose|j: int| 0 <= j < index.len() && (#[trigger] index[j]).0 == k;
            assert(j != i);
            let nj = if j < i { j } else { j - 1 };
            assert(n[nj].0 == k);
        }
    }
    assert forall|k: u64| #[trigger] index_map(n).contains_key(k) implies index_map(n)[k] == index_map(index).remove(
        key,
    )[k] by {
        let j = choose|j: int| 0 <= j < n.len() && (#[trigger] n[j]).0 == k;
        let oj = if j < i { j } else { j + 1 };
        lemma_slot_unique(n, j);
        lemma_slot_unique(index, oj);
    }
    assert(index_map(n) =~= index_map(index).remove(key));
}

proof fn lemma_insert_map(index: Seq<(u64, L2IndexEntry)>, p: int, x: (u64, L2IndexEntry))
    requires
        keys_ascending(index),
        0 <= p <= index.len(),
        forall|j: int| 0 <= j < p ==> (#[trigger] index[j]).0 < x.0,
        forall|j: int| p <= j < index.len() ==> (#[trigger] index[j]).0 > x.0,
    ensures
        index_map(index.insert(p, x)) == index_map(index).insert(x.0, x.1),
{
    let n = index.insert(p, x);
    lemma_insert_ascending(index, p, x);
    assert forall|k: u64| #[trigger] index_map(n).contains_key(k) <==> index_map(index).insert(x.0, x.1).contains_key(k) by {
        if index_map(n).contains_key(k) && k != x.0 {
            let j = choose|j: int| 0 <= j < n.len() && (#[trigger] n[j]).0 == k;
            let oj = if j < p { j } else { j - 1 };
            assert(j != p);
            assert(index[oj].0 == k);
        }
        if index_map(index).contains_key(k) {
            let j = choose|j: int| 0 <= j < index.len() && (#[trigger] index[j]).0 == k;
            let nj = if j < p { j } else { j + 1 };
            assert(n[nj].0 == k);
        }
        if k == x.0 {
            assert(n[p].0 == k);
        }
    }
    assert forall|k: u64| #[trigger] index_map(n).contains_key(k) implies index_map(n)[k] == index_map(index).insert(
        x.0,
        x.1,
    )[k] by {
        let j = choose|j: int| 0 <= j < n.len() && (#[trigger] n[j]).0 == k;
        lemma_slot_unique(n, j);
        if j != p {
            let oj = if j < p { j } else { j - 1 };
            lemma_slot_unique(index, oj);
        }
    }
    assert(index_map(n) =~= index_map(index).insert(x.0, x.1));
}

} // verus!
