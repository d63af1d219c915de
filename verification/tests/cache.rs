use couchestor::rustfs::cache::compression::{
    CompressionAlgorithm, CompressionConfig, CompressionManager, Compressor, Lz4Compressor,
    NoopCompressor,
};
use couchestor::rustfs::cache::entry::{fx_hash, CacheEntry, CacheKey, EntryMetadata};
use couchestor::rustfs::cache::l2::{L2Cache, L2Config};
use couchestor::rustfs::cache::l3::InMemoryL3Backend;
use couchestor::rustfs::cache::manager::{determine_target_tier, record_l3_promotion, record_lookup, CacheTier};
use couchestor::rustfs::cache::metrics::{update_latency_ema, CacheMetrics, LatencyTracker};
use couchestor::rustfs::cache::policy::{should_protect, PromotionPolicy, TargetTier};
use couchestor::rustfs::cache::{
    CACHE_LINE_SIZE, DEFAULT_L1_CAPACITY, DEFAULT_L2_CAPACITY, SHARD_COUNT,
};

const TEST_DATA: &[u8] = b"Hello, this is test data that should compress well. \
    It has some repetition: Hello, this is test data that should compress well.";

fn make_key(bucket: &str, key: &str) -> CacheKey {
    CacheKey::new(bucket, key)
}

fn make_entry(size: usize) -> CacheEntry {
    CacheEntry::new(vec![0u8; size])
}

// ---------------------------------------------------------------------------
// compression
// ---------------------------------------------------------------------------

#[test]
fn test_lz4_roundtrip() {
    let compressor = Lz4Compressor::new();
    let compressed = compressor.compress(TEST_DATA).unwrap();
    assert!(compressed.len() < TEST_DATA.len());
    let decompressed = compressor.decompress(&compressed).unwrap();
    assert_eq!(decompressed, TEST_DATA);
}

#[test]
fn test_noop_roundtrip() {
    let compressor = NoopCompressor;
    let compressed = compressor.compress(TEST_DATA).unwrap();
    assert_eq!(compressed, TEST_DATA);
    let decompressed = compressor.decompress(&compressed).unwrap();
    assert_eq!(decompressed, TEST_DATA);
}

#[test]
fn test_manager_auto_compress() {
    let manager = CompressionManager::new();
    let (compressed, algorithm) = manager.compress(TEST_DATA);
    assert!(algorithm != CompressionAlgorithm::NoCompression || compressed.len() >= TEST_DATA.len());

    let small = b"tiny";
    let (result, algorithm) = manager.compress(small);
    assert_eq!(algorithm, CompressionAlgorithm::NoCompression);
    assert_eq!(result.as_slice(), small);
}

#[test]
fn test_manager_decompress() {
    let manager = CompressionManager::new();
    let (compressed, algorithm) = manager.compress(TEST_DATA);
    let decompressed = manager.decompress(&compressed, algorithm).unwrap();
    assert_eq!(decompressed.as_slice(), TEST_DATA);
}

#[test]
fn test_incompressible_data() {
    let manager = CompressionManager::new();
    let random_data: Vec<u8> = (0..2000).map(|i| (i * 7 + 3) as u8).collect();
    let (result, algorithm) = manager.compress(&random_data);
    if algorithm == CompressionAlgorithm::NoCompression {
        assert_eq!(result.len(), random_data.len());
    } else {
        assert!(result.len() <= random_data.len());
    }
}

#[test]
fn test_algorithm_names() {
    assert_eq!(CompressionAlgorithm::NoCompression.name(), "none");
    assert_eq!(CompressionAlgorithm::Lz4.name(), "lz4");
}

#[test]
fn test_available_algorithms() {
    let algs = CompressionAlgorithm::available_algorithms();
    assert!(algs.contains(&CompressionAlgorithm::NoCompression));
    assert!(algs.contains(&CompressionAlgorithm::Lz4));
    assert_eq!(algs.len(), 2);
}

#[test]
fn manager_compresses_repetitive_data_with_lz4() {
    let manager = CompressionManager::new();
    let data = vec![b'a'; 8192];
    let (compressed, algorithm) = manager.compress(&data);
    assert_eq!(algorithm, CompressionAlgorithm::Lz4);
    assert!(compressed.len() < data.len());
    assert_eq!(manager.decompress(&compressed, algorithm).unwrap(), data);
}

#[test]
fn manager_disabled_keeps_data() {
    let config = CompressionConfig {
        default_algorithm: CompressionAlgorithm::NoCompression,
        ..CompressionConfig::default()
    };
    let manager = CompressionManager::with_config(config);
    let data = vec![b'z'; 8192];
    let (out, algorithm) = manager.compress(&data);
    assert_eq!(algorithm, CompressionAlgorithm::NoCompression);
    assert_eq!(out, data);
}

#[test]
fn lz4_decompress_rejects_garbage() {
    let compressor = Lz4Compressor::new();
    assert!(compressor.decompress(&[0xFF, 0xFF, 0xFF, 0xFF, 1, 2, 3]).is_err());
    assert!(compressor.decompress(&[1, 2]).is_err());
}

// ---------------------------------------------------------------------------
// entries
// ---------------------------------------------------------------------------

#[test]
fn test_cache_key_creation() {
    let key = CacheKey::new("my-bucket", "path/to/object.txt");
    assert_eq!(key.bucket(), "my-bucket");
    assert_eq!(key.key(), "path/to/object.txt");
}

#[test]
fn test_cache_key_equality() {
    let key1 = CacheKey::new("bucket", "key");
    let key2 = CacheKey::new("bucket", "key");
    let key3 = CacheKey::new("bucket", "different");
    assert_eq!(key1, key2);
    assert_ne!(key1, key3);
}

#[test]
fn test_cache_key_hashing() {
    let key1 = CacheKey::new("bucket1", "key1");
    let key2 = CacheKey::new("bucket1", "key1");
    let key3 = CacheKey::new("bucket2", "key2");
    let mut set = std::collections::HashSet::new();
    set.insert(key1.combined_hash());
    set.insert(key2.combined_hash());
    set.insert(key3.combined_hash());
    assert_eq!(set.len(), 2);
}

#[test]
fn test_shard_index_distribution() {
    let mut shard_counts = vec![0usize; 1024];
    for i in 0..10000 {
        let key = CacheKey::new("bucket", &format!("key-{}", i));
        let idx = key.shard_index(1024);
        assert!(idx < 1024);
        shard_counts[idx] += 1;
    }
    let max_count = shard_counts.iter().max().unwrap();
    assert!(*max_count < 500, "Uneven distribution: max count {}", max_count);
}

#[test]
fn test_entry_metadata_creation() {
    let meta = EntryMetadata::new(1024, 0xDEADBEEF);
    assert_eq!(meta.size(), 1024);
    assert_eq!(meta.content_hash(), 0xDEADBEEF);
    assert_eq!(meta.access_count(), 1);
    assert!(!meta.is_expired());
}

#[test]
fn test_entry_metadata_access_tracking() {
    let mut meta = EntryMetadata::new(1024, 0);
    assert_eq!(meta.access_count(), 1);
    let count = meta.record_access();
    assert_eq!(count, 2);
    assert_eq!(meta.access_count(), 2);
    meta.record_access();
    meta.record_access();
    assert_eq!(meta.access_count(), 4);
}

#[test]
fn test_entry_metadata_ttl() {
    let meta_no_ttl = EntryMetadata::new(1024, 0);
    assert!(!meta_no_ttl.is_expired());
    let meta_long_ttl = EntryMetadata::with_ttl(1024, 0, 3600);
    assert!(!meta_long_ttl.is_expired());
}

#[test]
fn test_entry_metadata_generation() {
    let mut meta = EntryMetadata::new(1024, 0);
    assert_eq!(meta.generation(), 1);
    let new_gen = meta.increment_generation();
    assert_eq!(new_gen, 2);
    assert_eq!(meta.generation(), 2);
}

#[test]
fn test_cache_entry_creation() {
    let entry = CacheEntry::new(b"Hello, World!".to_vec());
    assert_eq!(entry.size(), 13);
    assert_eq!(entry.data(), b"Hello, World!");
    assert!(entry.verify_integrity());
}

#[test]
fn test_cache_entry_with_ttl() {
    let entry = CacheEntry::with_ttl(b"Test data".to_vec(), 3600);
    assert!(!entry.is_expired());
}

#[test]
fn test_cache_entry_access_tracking() {
    let mut entry = CacheEntry::new(b"Test".to_vec());
    assert_eq!(entry.metadata().access_count(), 1);
    let count = entry.record_access();
    assert_eq!(count, 2);
}

#[test]
fn test_cache_entry_debug() {
    let entry = CacheEntry::new(b"Test".to_vec());
    let debug = format!("{:?}", entry);
    assert!(debug.contains("CacheEntry"));
}

#[test]
fn test_metadata_clone() {
    let mut meta = EntryMetadata::new(1024, 0xABCD);
    meta.record_access();
    meta.record_access();
    let cloned = meta.clone();
    assert_eq!(cloned.size(), 1024);
    assert_eq!(cloned.content_hash(), 0xABCD);
    assert_eq!(cloned.access_count(), 3);
}

#[test]
fn ttl_expiry_is_checked_against_given_time() {
    let meta = EntryMetadata::with_ttl(10, 0, 5);
    let created = meta.created_at();
    assert!(!meta.is_expired_at(created + 4));
    assert!(meta.is_expired_at(created + 6));
    assert!(!EntryMetadata::new(10, 0).is_expired_at(u64::MAX));
}

#[test]
fn fx_hash_known_values() {
    assert_eq!(fx_hash(b""), 0x517cc1b727220a95);
    assert_eq!(fx_hash(&[1]), 0x5ec22ba56ef5cb87);
}

#[test]
fn entry_integrity_fails_after_metadata_swap() {
    let good = CacheEntry::new(b"abc".to_vec());
    let other = CacheEntry::with_metadata(b"abd".to_vec(), good.metadata());
    assert!(!other.verify_integrity());
}

// ---------------------------------------------------------------------------
// module constants
// ---------------------------------------------------------------------------

#[test]
fn test_shard_count_is_power_of_two() {
    assert!(SHARD_COUNT.is_power_of_two());
    assert_eq!(SHARD_COUNT, 1024);
}

#[test]
fn mod_test_cache_line_alignment() {
    assert_eq!(CACHE_LINE_SIZE, 64);
}

#[test]
fn test_default_capacities() {
    assert_eq!(DEFAULT_L1_CAPACITY, 50 * 1024 * 1024 * 1024);
    assert_eq!(DEFAULT_L2_CAPACITY, 500 * 1024 * 1024 * 1024);
}

// ---------------------------------------------------------------------------
// metrics
// ---------------------------------------------------------------------------

#[test]
fn test_metrics_creation() {
    let metrics = CacheMetrics::new();
    assert_eq!(metrics.l1_hits(), 0);
    assert_eq!(metrics.l2_hits(), 0);
    assert_eq!(metrics.l3_hits(), 0);
}

#[test]
fn test_hit_tracking() {
    let mut metrics = CacheMetrics::new();
    metrics.record_l1_hit();
    metrics.record_l1_hit();
    metrics.record_l1_miss();
    assert_eq!(metrics.l1_hits(), 2);
    assert_eq!(metrics.l1_misses(), 1);
    let ratio = metrics.l1_hits() as f64 / (metrics.l1_hits() + metrics.l1_misses()) as f64;
    assert!((ratio - 0.666).abs() < 0.01);
}

#[test]
fn test_latency_tracking() {
    let mut metrics = CacheMetrics::new();
    metrics.record_l1_read_latency(100);
    assert_eq!(metrics.l1_read_latency(), 100);
    metrics.record_l1_read_latency(200);
    let latency = metrics.l1_read_latency();
    assert!(latency > 100 && latency < 200);
}

#[test]
fn test_tier_movement_tracking() {
    let mut metrics = CacheMetrics::new();
    metrics.record_promotion_l3_to_l2();
    metrics.record_promotion_l2_to_l1();
    metrics.record_demotion_l1_to_l2();
    metrics.record_demotion_l2_to_l3();
    let snapshot = metrics;
    assert_eq!(snapshot.promotions_l3_to_l2, 1);
    assert_eq!(snapshot.promotions_l2_to_l1, 1);
    assert_eq!(snapshot.demotions_l1_to_l2, 1);
    assert_eq!(snapshot.demotions_l2_to_l3, 1);
}

#[test]
fn test_snapshot() {
    let mut metrics = CacheMetrics::new();
    metrics.record_l1_hit();
    metrics.record_l2_hit();
    metrics.update_l1_stats(1024, 10);
    metrics.update_throughput(1_000_000, 500_000);
    let snapshot = metrics;
    assert_eq!(snapshot.l1_hits, 1);
    assert_eq!(snapshot.l2_hits, 1);
    assert_eq!(snapshot.l1_size_bytes, 1024);
    assert_eq!(snapshot.l1_entries, 10);
    assert_eq!(snapshot.read_throughput_bps, 1_000_000);
}

#[test]
fn test_reset() {
    let mut metrics = CacheMetrics::new();
    metrics.record_l1_hit();
    metrics.record_l2_hit();
    metrics.record_l3_miss();
    metrics.reset();
    assert_eq!(metrics.l1_hits(), 0);
    assert_eq!(metrics.l2_hits(), 0);
    assert_eq!(metrics.l3_misses(), 0);
}

#[test]
fn test_latency_tracker() {
    let tracker = LatencyTracker::start();
    let t = std::time::Instant::now();
    while t.elapsed() < std::time::Duration::from_millis(10) {}
    let elapsed = tracker.elapsed();
    assert!(elapsed >= 10_000);
}

#[test]
fn latency_ema_formula() {
    assert_eq!(update_latency_ema(0, 250), 250);
    assert_eq!(update_latency_ema(100, 200), 110);
    assert_eq!(update_latency_ema(u64::MAX, u64::MAX), u64::MAX);
}

// ---------------------------------------------------------------------------
// promotion policy
// ---------------------------------------------------------------------------

#[test]
fn test_promotion_policy_balanced() {
    let policy = PromotionPolicy::balanced();
    assert_eq!(policy.l1_promotion_threshold, 3);
    assert_eq!(policy.l2_promotion_threshold, 2);
}

#[test]
fn test_promotion_policy_target_tier() {
    let policy = PromotionPolicy::balanced();
    assert_eq!(policy.target_tier(5, 1024), TargetTier::L1);
    assert_eq!(policy.target_tier(5, 100 * 1024 * 1024), TargetTier::L2);
    assert_eq!(policy.target_tier(1, 8 * 1024), TargetTier::L3);
}

#[test]
fn test_promotion_size_constraints() {
    let policy = PromotionPolicy::balanced();
    assert!(!policy.should_promote_to_l1(100, 100 * 1024 * 1024));
    assert!(!policy.should_promote_to_l2(100, 100));
}

#[test]
fn test_promotion_eager() {
    let policy = PromotionPolicy::aggressive();
    assert!(policy.eager_promotion);
    assert!(policy.should_promote_to_l1(1, 1024));
}

#[test]
fn test_promotion_conservative() {
    let policy = PromotionPolicy::conservative();
    assert!(!policy.should_promote_to_l1(5, 1024));
    assert!(policy.should_promote_to_l1(10, 1024));
}

#[test]
fn test_cache_tier_display() {
    assert_eq!(CacheTier::L1.to_string(), "L1 (RAM)");
    assert_eq!(CacheTier::L2.to_string(), "L2 (NVMe)");
    assert_eq!(CacheTier::L3.to_string(), "L3 (Cold)");
}

// ---------------------------------------------------------------------------
// L2 cache
// ---------------------------------------------------------------------------

fn small_l2(capacity: u64, min_entry_size: usize) -> L2Cache {
    L2Cache::with_config(L2Config { capacity, min_entry_size, ..L2Config::default() })
}

#[test]
fn test_l2_cache_creation() {
    let cache = L2Cache::new();
    assert!(cache.is_empty());
    assert_eq!(cache.len(), 0);
    assert_eq!(cache.size(), 0);
}

#[test]
fn test_l2_cache_custom_config() {
    let cache = small_l2(1024 * 1024 * 1024, 8 * 1024);
    assert_eq!(cache.capacity(), 1024 * 1024 * 1024);
}

#[test]
fn test_l2_cache_put() {
    let mut cache = small_l2(1024 * 1024, 1024);
    let key = make_key("bucket", "large-object");
    assert!(cache.put(key, make_entry(8192)));
    assert_eq!(cache.len(), 1);
    assert_eq!(cache.size(), 8192);
}

#[test]
fn test_l2_cache_small_entry_rejected() {
    let mut cache = small_l2(1024 * 1024, 4096);
    let key = make_key("bucket", "small-object");
    assert!(!cache.put(key, make_entry(1024)));
    assert_eq!(cache.len(), 0);
}

#[test]
fn test_l2_cache_contains() {
    let mut cache = small_l2(1024 * 1024, 1024);
    let key = make_key("bucket", "object");
    assert!(!cache.contains(&key));
    cache.put(key.clone(), make_entry(4096));
    assert!(cache.contains(&key));
}

#[test]
fn test_l2_cache_remove() {
    let mut cache = small_l2(1024 * 1024, 1024);
    let key = make_key("bucket", "object");
    cache.put(key.clone(), make_entry(4096));
    assert!(cache.remove(&key));
    assert!(!cache.contains(&key));
    assert_eq!(cache.size(), 0);
    assert!(!cache.remove(&key));
}

#[test]
fn test_l2_cache_eviction() {
    let mut cache = small_l2(50 * 1024, 1024);
    for i in 0..10 {
        let key = make_key("bucket", &format!("object-{}", i));
        cache.put(key, make_entry(8192));
    }
    assert!(cache.size() <= cache.capacity());
    assert!(cache.evictions() > 0);
}

#[test]
fn test_l2_cache_stats() {
    let mut cache = small_l2(1024 * 1024, 1024);
    let key = make_key("bucket", "object");
    cache.put(key.clone(), make_entry(4096));
    cache.get(&key);
    cache.get(&make_key("bucket", "nonexistent"));
    assert_eq!(cache.len(), 1);
    assert_eq!(cache.size(), 4096);
    assert_eq!(cache.hits(), 1);
    assert_eq!(cache.misses(), 1);
    let hit_ratio = cache.hits() as f64 / (cache.hits() + cache.misses()) as f64;
    assert_eq!(hit_ratio, 0.5);
}

#[test]
fn test_l2_cache_clear() {
    let mut cache = small_l2(1024 * 1024, 1024);
    for i in 0..10 {
        let key = make_key("bucket", &format!("object-{}", i));
        cache.put(key, make_entry(4096));
    }
    assert_eq!(cache.len(), 10);
    cache.clear();
    assert!(cache.is_empty());
    assert_eq!(cache.size(), 0);
}

#[test]
fn test_l2_cache_file_rotation() {
    let config = L2Config {
        capacity: 100 * 1024 * 1024,
        max_file_size: 10 * 1024,
        min_entry_size: 1024,
        ..L2Config::default()
    };
    let mut cache = L2Cache::with_config(config);
    for i in 0..5 {
        let key = make_key("bucket", &format!("object-{}", i));
        cache.put(key, make_entry(4096));
    }
    assert!(cache.current_file_id() > 0, "Should have rotated files");
}

#[test]
fn l2_get_returns_entry_of_stored_size() {
    let mut cache = small_l2(1024 * 1024, 1024);
    let key = make_key("b", "k");
    cache.put(key.clone(), make_entry(5000));
    let got = cache.get(&key).unwrap();
    assert_eq!(got.size(), 5000);
    assert!(cache.get(&make_key("b", "missing")).is_none());
}

#[test]
fn l2_oversized_entry_rejected() {
    let mut cache = small_l2(8192, 1024);
    assert!(!cache.put(make_key("b", "huge"), make_entry(9000)));
    assert!(cache.is_empty());
}

#[test]
fn l2_replacing_a_key_keeps_one_entry() {
    let mut cache = small_l2(1024 * 1024, 1024);
    let key = make_key("b", "k");
    cache.put(key.clone(), make_entry(4096));
    cache.put(key.clone(), make_entry(8192));
    assert_eq!(cache.len(), 1);
    assert_eq!(cache.size(), 8192);
}

// ---------------------------------------------------------------------------
// in-memory cold storage
// ---------------------------------------------------------------------------

#[test]
fn test_in_memory_backend_put_get() {
    let mut backend = InMemoryL3Backend::new();
    backend.put("bucket", "key", b"data".to_vec());
    let result = backend.get("bucket", "key");
    assert_eq!(result, Some(b"data".to_vec()));
}

#[test]
fn test_in_memory_backend_delete() {
    let mut backend = InMemoryL3Backend::new();
    backend.put("bucket", "key", b"data".to_vec());
    let deleted = backend.delete("bucket", "key");
    assert!(deleted);
    let result = backend.get("bucket", "key");
    assert!(result.is_none());
}

#[test]
fn test_in_memory_backend_exists() {
    let mut backend = InMemoryL3Backend::new();
    assert!(!backend.has_object("bucket", "key"));
    backend.put("bucket", "key", b"data".to_vec());
    assert!(backend.has_object("bucket", "key"));
}

#[test]
fn test_in_memory_backend_stats() {
    let mut backend = InMemoryL3Backend::new();
    backend.put("bucket", "key1", b"data1".to_vec());
    backend.put("bucket", "key2", b"data2".to_vec());
    backend.get("bucket", "key1");
    backend.delete("bucket", "key2");
    let stats = backend.stats();
    assert_eq!(stats.object_count, 1);
    assert_eq!(stats.total_bytes, 5);
    assert_eq!(stats.writes, 2);
    assert_eq!(stats.reads, 1);
    assert_eq!(stats.deletes, 1);
}

#[test]
fn in_memory_backend_replace_adjusts_bytes() {
    let mut backend = InMemoryL3Backend::new();
    backend.put("b", "k", vec![1; 10]);
    backend.put("b", "k", vec![2; 4]);
    backend.put("other", "k", vec![3; 6]);
    let stats = backend.stats();
    assert_eq!(stats.object_count, 2);
    assert_eq!(stats.total_bytes, 10);
    assert_eq!(backend.get("b", "k"), Some(vec![2; 4]));
    assert_eq!(backend.get("other", "k"), Some(vec![3; 6]));
    assert!(!backend.delete("b", "missing"));
    assert_eq!(backend.stats().deletes, 1);
}

#[test]
fn new_entries_route_by_size() {
    let policy = PromotionPolicy::balanced();
    assert_eq!(determine_target_tier(&policy, 1024), CacheTier::L1);
    assert_eq!(determine_target_tier(&policy, policy.l1_max_size + 1), CacheTier::L2);
    assert_eq!(determine_target_tier(&policy, policy.l1_max_size), CacheTier::L1);
}

#[test]
fn l3_promotions_are_counted_per_tier() {
    let mut metrics = CacheMetrics::new();
    record_l3_promotion(&mut metrics, TargetTier::L1);
    assert_eq!(metrics.promotions_l3_to_l2, 1);
    assert_eq!(metrics.promotions_l2_to_l1, 1);
    record_l3_promotion(&mut metrics, TargetTier::L2);
    assert_eq!(metrics.promotions_l3_to_l2, 2);
    assert_eq!(metrics.promotions_l2_to_l1, 1);
    record_l3_promotion(&mut metrics, TargetTier::L3);
    assert_eq!(metrics.promotions_l3_to_l2, 2);
}

#[test]
fn l2_put_that_fits_evicts_nothing() {
    let mut cache = small_l2(5 * 4096, 1024);
    let keys: Vec<_> = (0..5).map(|i| make_key("bucket", &format!("object-{}", i))).collect();
    for key in &keys {
        assert!(cache.put(key.clone(), make_entry(4096)));
    }
    assert_eq!(cache.evictions(), 0);
    assert_eq!(cache.size(), cache.capacity());
    for key in &keys {
        assert!(cache.contains(key));
    }
    assert!(cache.put(make_key("bucket", "one-more"), make_entry(4096)));
    assert_eq!(cache.evictions(), 1);
    assert!(cache.size() <= cache.capacity());
}

#[test]
fn compress_with_lz4_keeps_only_shrinking_output() {
    let manager = CompressionManager::new();
    let data = vec![7u8; 8192];
    let (compressed, algorithm) = manager.compress_with(&data, CompressionAlgorithm::Lz4).unwrap();
    assert_eq!(algorithm, CompressionAlgorithm::Lz4);
    assert!(compressed.len() < data.len());
    let tiny = vec![1u8, 2, 3];
    let (out, algorithm) = manager.compress_with(&tiny, CompressionAlgorithm::Lz4).unwrap();
    assert_eq!(algorithm, CompressionAlgorithm::NoCompression);
    assert_eq!(out, tiny);
}

#[test]
fn record_access_at_stores_the_time() {
    let mut meta = EntryMetadata::new(1024, 0xABCD);
    assert_eq!(meta.record_access_at(1_700_000_000), 2);
    assert_eq!(meta.last_access(), 1_700_000_000);
    assert_eq!(meta.access_count(), 2);
    assert_eq!(meta.size(), 1024);
}

#[test]
fn protection_needs_a_positive_minimum() {
    assert!(!should_protect(0, 100));
    assert!(should_protect(5, 5));
    assert!(!should_protect(5, 4));
}

#[test]
fn lookup_counts_misses_above_the_hit() {
    let mut metrics = CacheMetrics::new();
    record_lookup(&mut metrics, Some(CacheTier::L3), 100);
    assert_eq!((metrics.l1_misses(), metrics.l2_misses(), metrics.l3_hits()), (1, 1, 1));
    record_lookup(&mut metrics, None, 0);
    assert_eq!((metrics.l1_misses(), metrics.l2_misses(), metrics.l3_misses()), (2, 2, 1));
    record_lookup(&mut metrics, Some(CacheTier::L1), 5);
    assert_eq!(metrics.l1_hits(), 1);
    assert_eq!(metrics.l2_hits(), 0);
}

#[test]
fn l2_refused_put_leaves_cache_unchanged() {
    let mut cache = small_l2(16 * 1024, 4096);
    let kept = make_key("bucket", "kept");
    assert!(cache.put(kept.clone(), make_entry(8192)));
    let _ = cache.get(&kept);
    let _ = cache.get(&make_key("bucket", "absent"));
    let (len, size, hits, misses, evictions, file) =
        (cache.len(), cache.size(), cache.hits(), cache.misses(), cache.evictions(), cache.current_file_id());
    // Below the minimum entry size.
    assert!(!cache.put(make_key("bucket", "tiny"), make_entry(1024)));
    // Larger than the whole cache.
    assert!(!cache.put(make_key("bucket", "huge"), make_entry(32 * 1024)));
    assert_eq!(
        (cache.len(), cache.size(), cache.hits(), cache.misses(), cache.evictions(), cache.current_file_id()),
        (len, size, hits, misses, evictions, file)
    );
    assert!(cache.contains(&kept));
}
