use couchestor::spdk::dma_buf::DmaBuf;
use couchestor::spdk::read_path::{
    combine_data_shards, EcReader, EcReaderConfig, EcReaderStats, ReadRequest, ReadType,
    ShardOutcome, ShardReadResult,
};

fn outcomes(reader: &EcReader, request: &ReadRequest, fill: &[Option<u8>], size: usize) -> Vec<ShardOutcome> {
    let locations = reader.get_shard_locations(request);
    locations
        .into_iter()
        .zip(fill.iter())
        .map(|(loc, f)| {
            let idx = loc.shard_index;
            let node = loc.node_id.clone();
            match f {
                Some(v) => {
                    let mut b = DmaBuf::new(size).unwrap();
                    b.fill(*v);
                    (loc, Some(b), ShardReadResult::success(idx, node, 10))
                }
                None => (loc, None, ShardReadResult::failure(idx, node, "timeout".to_string(), 10)),
            }
        })
        .collect()
}

#[test]
fn read_path_test_config_default() {
    let config = EcReaderConfig::default();
    assert_eq!(config.data_shards, 4);
    assert_eq!(config.parity_shards, 2);
    assert_eq!(config.shard_size, 1024 * 1024);
    assert_eq!(config.total_shards(), 6);
    assert!(config.enable_fast_path);
}

#[test]
fn read_path_test_config_validation() {
    let mut config = EcReaderConfig::default();
    assert!(config.validate().is_ok());

    config.data_shards = 0;
    assert!(config.validate().is_err());
    config.data_shards = 4;

    config.parity_shards = 0;
    assert!(config.validate().is_err());
    config.parity_shards = 2;

    config.shard_size = 1000;
    assert!(config.validate().is_err());
}

#[test]
fn test_config_stripe_data_size() {
    let config = EcReaderConfig {
        data_shards: 4,
        parity_shards: 2,
        shard_size: 1024 * 1024,
        ..EcReaderConfig::default()
    };
    assert_eq!(config.stripe_data_size(), 4 * 1024 * 1024);
}

#[test]
fn test_read_request_new() {
    let req = ReadRequest::new("vol-1", 42);
    assert_eq!(req.volume_id, "vol-1");
    assert_eq!(req.stripe_id, 42);
    assert!(req.lba_range.is_none());
    assert_eq!(req.priority, 0);
}

#[test]
fn test_read_request_with_priority() {
    let req = ReadRequest::new("vol-1", 42).with_priority(10);
    assert_eq!(req.priority, 10);
}

#[test]
fn test_read_type_display() {
    assert_eq!(ReadType::FastPath.to_string(), "FastPath");
    let degraded = ReadType::Degraded { missing_shards: vec![2], shards_used: vec![0, 1, 3, 4] };
    assert!(degraded.to_string().contains("Degraded"));
    assert!(degraded.to_string().contains("[2]"));
}

#[test]
fn test_read_type_equality() {
    assert_eq!(ReadType::FastPath, ReadType::FastPath);
    let d1 = ReadType::Degraded { missing_shards: vec![1], shards_used: vec![0, 2, 3, 4] };
    let d2 = ReadType::Degraded { missing_shards: vec![1], shards_used: vec![0, 2, 3, 4] };
    assert_eq!(d1, d2);
}

#[test]
fn test_shard_read_result_success() {
    let result = ShardReadResult::success(0, "node-0".into(), 10_000);
    assert!(result.success);
    assert!(result.error.is_none());
    assert_eq!(result.shard_index, 0);
}

#[test]
fn test_shard_read_result_failure() {
    let result = ShardReadResult::failure(1, "node-1".into(), "Connection refused".into(), 100_000);
    assert!(!result.success);
    assert!(result.error.is_some());
    assert_eq!(result.error.unwrap(), "Connection refused");
}

#[test]
fn read_path_test_stats_recording() {
    let mut stats = EcReaderStats::default();
    stats.record_fast_path(1024);
    stats.record_fast_path(2048);
    stats.record_degraded(1024, 1);
    stats.record_failed();

    let snapshot = stats.snapshot();
    assert_eq!(snapshot.reads_total, 4);
    assert_eq!(snapshot.reads_fast_path, 2);
    assert_eq!(snapshot.reads_degraded, 1);
    assert_eq!(snapshot.reads_failed, 1);
    assert_eq!(snapshot.bytes_read, 4096);
    assert_eq!(snapshot.shards_reconstructed, 1);
}

#[test]
fn test_reader_creation() {
    let reader = EcReader::new(EcReaderConfig::default());
    assert!(reader.is_ok());
}

#[test]
fn test_reader_set_shard_nodes() {
    let mut reader = EcReader::new(EcReaderConfig::default()).unwrap();
    let nodes: Vec<String> = (0..6).map(|i| format!("storage-node-{}", i)).collect();
    reader.set_shard_nodes(nodes.clone());
    assert_eq!(reader.shard_nodes(), &nodes);
}

#[test]
fn test_read_stripe_fast_path() {
    let mut reader = EcReader::new(EcReaderConfig::default()).unwrap();
    let request = ReadRequest::new("vol-1", 1);
    let results = outcomes(&reader, &request, &[Some(0), Some(0), Some(0), Some(0), Some(0), Some(0)], 1024 * 1024);
    let start = std::time::Instant::now();
    let (result, repair) = reader.finish_read(request, results, &start).unwrap();
    assert_eq!(result.read_type, ReadType::FastPath);
    assert_eq!(result.data.len(), 4 * 1024 * 1024);
    assert!(!result.is_degraded());
    assert!(repair.is_none());
}

#[test]
fn test_combine_data_shards() {
    let config = EcReaderConfig { data_shards: 2, parity_shards: 1, shard_size: 4096, ..EcReaderConfig::default() };
    let mut shard0 = DmaBuf::new(4096).unwrap();
    shard0.fill(0xAA);
    let mut shard1 = DmaBuf::new(4096).unwrap();
    shard1.fill(0xBB);
    let shards = vec![Some(shard0), Some(shard1)];
    let combined = combine_data_shards(&config, &shards).unwrap();
    assert_eq!(combined.len(), 8192);
    assert!(combined.as_slice()[..4096].iter().all(|&b| b == 0xAA));
    assert!(combined.as_slice()[4096..].iter().all(|&b| b == 0xBB));
}

#[test]
fn test_combine_missing_shard_fails() {
    let config = EcReaderConfig { data_shards: 2, parity_shards: 1, shard_size: 4096, ..EcReaderConfig::default() };
    let shard0 = DmaBuf::new(4096).unwrap();
    let shards = vec![Some(shard0), None];
    let result = combine_data_shards(&config, &shards);
    assert!(result.is_err());
}

#[test]
fn degraded_read_reports_missing_shard() {
    let config = EcReaderConfig { data_shards: 2, parity_shards: 1, shard_size: 4096, ..EcReaderConfig::default() };
    let mut reader = EcReader::new(config).unwrap();
    let request = ReadRequest::new("vol-2", 3);
    let results = outcomes(&reader, &request, &[Some(1), None, Some(3)], 4096);
    let start = std::time::Instant::now();
    let (result, _repair) = reader.finish_read(request, results, &start).unwrap();
    assert!(result.is_degraded());
    assert_eq!(result.missing_shard_count(), 1);
    assert_eq!(result.data.len(), 8192);
    assert!(result.data.as_slice()[..4096].iter().all(|&b| b == 1));
    assert_eq!(reader.stats().snapshot().reads_degraded, 1);
}

#[test]
fn read_fails_with_too_few_shards() {
    let config = EcReaderConfig { data_shards: 2, parity_shards: 1, shard_size: 4096, ..EcReaderConfig::default() };
    let mut reader = EcReader::new(config).unwrap();
    let request = ReadRequest::new("vol-3", 9);
    let results = outcomes(&reader, &request, &[None, None, Some(3)], 4096);
    let start = std::time::Instant::now();
    assert!(reader.finish_read(request, results, &start).is_err());
    assert_eq!(reader.stats().snapshot().reads_failed, 1);
}

#[test]
fn shard_locations_follow_stripe_id() {
    let reader = EcReader::new(EcReaderConfig::default()).unwrap();
    let locations = reader.get_shard_locations(&ReadRequest::new("v", 2));
    assert_eq!(locations.len(), 6);
    assert_eq!(locations[0].offset, 2 * 1024 * 1024);
    assert!(locations[3].is_data_shard);
    assert!(!locations[4].is_data_shard);
    assert_eq!(locations[5].node_id, "node-5");
}

#[test]
fn degraded_read_type_text_is_exact() {
    let degraded = ReadType::Degraded { missing_shards: vec![1, 5], shards_used: vec![0, 2] };
    assert_eq!(degraded.to_string(), "Degraded(missing=[1, 5], used=[0, 2])");
    let empty = ReadType::Degraded { missing_shards: vec![], shards_used: vec![] };
    assert_eq!(empty.to_string(), "Degraded(missing=[], used=[])");
}
