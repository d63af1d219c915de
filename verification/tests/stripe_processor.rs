use couchestor::spdk::stripe_processor::{
    ProcessorStats, ShardLocation, StripeBatch, StripeInfo, StripeProcessor, StripeProcessorConfig,
};

#[test]
fn stripe_processor_test_config_validation() {
    let config = StripeProcessorConfig::new(4, 2, 1024 * 1024);
    assert!(config.validate().is_ok());

    let mut config = StripeProcessorConfig::default();
    config.data_shards = 0;
    assert!(config.validate().is_err());

    let mut config = StripeProcessorConfig::default();
    config.parity_shards = 0;
    assert!(config.validate().is_err());

    let mut config = StripeProcessorConfig::default();
    config.stripe_size = 0;
    assert!(config.validate().is_err());
}

#[test]
fn stripe_processor_test_config_shard_size() {
    let config = StripeProcessorConfig::new(4, 2, 1000);
    let shard_size = config.shard_size();
    assert_eq!(shard_size, 256);
    assert_eq!(shard_size % 32, 0);
}

#[test]
fn stripe_processor_test_config_default() {
    let config = StripeProcessorConfig::default();
    assert_eq!(config.data_shards, 4);
    assert_eq!(config.parity_shards, 2);
    assert_eq!(config.stripe_size, 1024 * 1024);
    assert_eq!(config.total_shards(), 6);
}

#[test]
fn test_stripe_info_metrics() {
    let info = StripeInfo {
        stripe_id: 1,
        original_size: 1000,
        shard_size: 256,
        data_shards: 4,
        parity_shards: 2,
        encoded_at: std::time::Instant::now(),
        encode_duration_us: 10_000,
        checksum: Some(12345),
    };
    assert_eq!(info.total_storage(), 256 * 6);
    assert!(info.total_storage() as f64 / info.original_size as f64 > 1.0);
}

#[test]
fn test_shard_location() {
    let loc = ShardLocation::new(0, "node1", "/dev/nvme0n1", 4096);
    assert_eq!(loc.shard_index, 0);
    assert_eq!(loc.node_id, "node1");
    assert_eq!(loc.device, "/dev/nvme0n1");
    assert_eq!(loc.offset, 4096);
    assert!(loc.healthy);
}

#[test]
fn test_processor_stats() {
    let mut stats = ProcessorStats::new();
    stats.stripes_encoded = 100;
    stats.encode_time_us = 1_000_000;
    stats.bytes_encoded = 100_000_000;
    assert_eq!(stats.avg_encode_time(), 10_000);
    let throughput = stats.bytes_encoded as f64 / (stats.encode_time_us as f64 / 1_000_000.0);
    assert!((throughput - 100_000_000.0).abs() < 0.1);
    stats.reset();
    assert_eq!(stats.stripes_encoded, 0);
}

#[test]
fn test_stripe_batch() {
    let batch = StripeBatch::new();
    assert!(batch.is_empty());
    assert_eq!(batch.len(), 0);
    assert_eq!(batch.total_bytes(), 0);
}

#[test]
fn test_processor_creation() {
    let config = StripeProcessorConfig::new(4, 2, 4096);
    let processor = StripeProcessor::new(config).unwrap();
    assert_eq!(processor.config().data_shards, 4);
    assert_eq!(processor.config().parity_shards, 2);
    assert_eq!(processor.peek_next_stripe_id(), 1);
}

#[test]
fn test_encode_decode_roundtrip() {
    let config = StripeProcessorConfig::new(4, 2, 4096);
    let mut processor = StripeProcessor::new(config).unwrap();
    let original_data: Vec<u8> = (0..1000).map(|i| (i % 256) as u8).collect();

    let (mut shards, info) = processor.encode(&original_data).unwrap();
    assert_eq!(info.original_size, 1000);
    assert_eq!(info.stripe_id, 1);
    assert_eq!(shards.len(), 6);

    let decoded = processor.decode(&mut shards, &[], 1000).unwrap();
    assert_eq!(decoded, original_data);

    processor.release_shards(shards);
    assert_eq!(processor.stats().stripes_encoded, 1);
    assert_eq!(processor.stats().stripes_decoded, 1);
}

#[test]
fn test_encode_with_reconstruction() {
    let config = StripeProcessorConfig::new(4, 2, 4096);
    let mut processor = StripeProcessor::new(config).unwrap();
    let original_data: Vec<u8> = (0..1000).map(|i| (i % 256) as u8).collect();

    let (mut shards, _info) = processor.encode(&original_data).unwrap();
    shards[1].zero();
    let decoded = processor.decode(&mut shards, &[1], 1000).unwrap();
    assert_eq!(decoded.len(), 1000);

    processor.release_shards(shards);
    assert_eq!(processor.stats().reconstructions, 1);
}

#[test]
fn stripe_encode_too_large_is_rejected() {
    let config = StripeProcessorConfig::new(4, 2, 4096);
    let mut processor = StripeProcessor::new(config).unwrap();
    let data = vec![7u8; 4097];
    assert!(processor.encode(&data).is_err());
    assert_eq!(processor.peek_next_stripe_id(), 1);
}

#[test]
fn stripe_decode_too_many_erasures_fails() {
    let config = StripeProcessorConfig::new(4, 2, 4096);
    let mut processor = StripeProcessor::new(config).unwrap();
    let data = vec![1u8; 100];
    let (mut shards, _) = processor.encode(&data).unwrap();
    assert!(processor.decode(&mut shards, &[0, 1, 2], 100).is_err());
}

#[test]
fn stripe_ids_increase() {
    let config = StripeProcessorConfig::new(2, 1, 1024);
    let mut processor = StripeProcessor::new(config).unwrap();
    let (_, a) = processor.encode(&[1, 2, 3]).unwrap();
    let (_, b) = processor.encode(&[4, 5, 6]).unwrap();
    assert_eq!(a.stripe_id, 1);
    assert_eq!(b.stripe_id, 2);
}

#[test]
fn stripe_data_shards_hold_chunks() {
    let config = StripeProcessorConfig::new(2, 1, 1024);
    let mut processor = StripeProcessor::new(config).unwrap();
    let data: Vec<u8> = (0..10).collect();
    let (shards, info) = processor.encode(&data).unwrap();
    assert_eq!(info.shard_size, 512);
    assert_eq!(&shards[0].as_slice()[..5], &[0, 1, 2, 3, 4]);
    assert_eq!(&shards[1].as_slice()[..5], &[5, 6, 7, 8, 9]);
}

#[test]
fn stripe_verify_accepts_encoded_parity() {
    let config = StripeProcessorConfig::new(4, 2, 4096);
    let mut processor = StripeProcessor::new(config).unwrap();
    let data: Vec<u8> = (0..2000).map(|i| (i % 251) as u8).collect();
    let (shards, _) = processor.encode(&data).unwrap();
    let ok = processor.verify(&shards[..4], &shards[4..]).unwrap();
    assert!(ok);
}

#[test]
fn decode_recovers_data_after_losing_two_data_shards() {
    let config = StripeProcessorConfig::new(4, 2, 4096);
    let mut processor = StripeProcessor::new(config).unwrap();
    let original_data: Vec<u8> = (0..3000).map(|i| (i * 7 % 251) as u8).collect();
    let (mut shards, _info) = processor.encode(&original_data).unwrap();
    shards[0].zero();
    shards[2].zero();
    let decoded = processor.decode(&mut shards, &[0, 2], 3000).unwrap();
    assert_eq!(decoded, original_data);
}
