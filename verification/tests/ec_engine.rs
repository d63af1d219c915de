use couchestor::error::Error;
use couchestor::spdk::ec_engine::{
    EcEngineConfig, EcStorageEngine, EngineStats, HealthStatus, PlacementPolicy, VolumeStats,
};

fn engine_with_volume() -> EcStorageEngine {
    let config = EcEngineConfig::new(4, 2, 4096);
    let mut engine = EcStorageEngine::new(config).unwrap();
    for i in 0..6 {
        engine.register_mock_device(&format!("dev{}", i), 100).unwrap();
    }
    let devices: Vec<String> = (0..6).map(|i| format!("dev{}", i)).collect();
    engine.create_volume("vol1", devices).unwrap();
    engine
}

#[test]
fn ec_engine_test_config_validation() {
    let config = EcEngineConfig::default();
    assert!(config.validate().is_ok());
    assert_eq!(config.total_shards(), 6);
    let efficiency = config.data_shards as f64 / config.total_shards() as f64 * 100.0;
    assert!((efficiency - 66.67).abs() < 0.1);
}

#[test]
fn ec_engine_test_config_shard_size() {
    let config = EcEngineConfig::new(4, 2, 1000);
    let shard_size = config.shard_size();
    assert_eq!(shard_size % 32, 0);
}

#[test]
fn test_placement_policy_display() {
    assert_eq!(PlacementPolicy::RoundRobin.to_string(), "round-robin");
    assert_eq!(PlacementPolicy::FailureDomainAware.to_string(), "failure-domain-aware");
}

#[test]
fn ec_engine_test_health_status_display() {
    assert_eq!(HealthStatus::Healthy.to_string(), "healthy");
    assert_eq!(HealthStatus::Degraded.to_string(), "degraded");
    assert_eq!(HealthStatus::Critical.to_string(), "critical");
}

#[test]
fn test_volume_stats() {
    let mut stats = VolumeStats::new();
    stats.record_write(1000, true);
    stats.record_read(500, true, false);
    stats.record_read(500, true, true);
    assert_eq!(stats.writes, 1);
    assert_eq!(stats.reads, 2);
    assert_eq!(stats.bytes_written, 1000);
    assert_eq!(stats.bytes_read, 1000);
    assert_eq!(stats.reconstructions, 1);
}

#[test]
fn test_engine_stats() {
    let stats = EngineStats::new();
    let uptime = stats.uptime();
    assert!(uptime > 0 || uptime == 0);
    assert!(stats.started_at.is_some());
}

#[test]
fn ec_engine_test_engine_creation() {
    let engine = EcStorageEngine::new(EcEngineConfig::default()).unwrap();
    assert_eq!(engine.config().data_shards, 4);
    assert_eq!(engine.config().parity_shards, 2);
}

#[test]
fn test_volume_lifecycle() {
    let mut engine = engine_with_volume();
    let volumes = engine.list_volumes();
    assert_eq!(volumes.len(), 1);
    assert!(volumes.contains(&"vol1".to_string()));

    let volume = engine.get_volume("vol1").unwrap();
    assert_eq!(volume.volume_id, "vol1");

    engine.delete_volume("vol1").unwrap();
    assert!(engine.get_volume("vol1").is_none());
}

#[test]
fn test_write_read_roundtrip() {
    let mut engine = engine_with_volume();
    let original_data: Vec<u8> = (0..1000).map(|i| (i % 256) as u8).collect();
    let stripe_id = engine.write("vol1", &original_data).unwrap();
    assert_eq!(stripe_id, 1);

    let read_data = engine.read("vol1", stripe_id).unwrap();
    assert_eq!(read_data.len(), original_data.len());
    assert_eq!(read_data, original_data);

    let volume = engine.get_volume("vol1").unwrap();
    assert_eq!(volume.stats.writes, 1);
    assert_eq!(volume.stats.reads, 1);
}

#[test]
fn test_delete_stripe() {
    let mut engine = engine_with_volume();
    let data = vec![1u8; 100];
    let stripe_id = engine.write("vol1", &data).unwrap();
    engine.delete("vol1", stripe_id).unwrap();
    let result = engine.read("vol1", stripe_id);
    assert!(result.is_err());
}

#[test]
fn engine_rejects_unknown_volume() {
    let mut engine = engine_with_volume();
    assert!(engine.write("nope", &[1, 2, 3]).is_err());
    assert!(engine.read("nope", 1).is_err());
    assert!(engine.delete_volume("nope").is_err());
}

#[test]
fn engine_rejects_duplicate_volume() {
    let mut engine = engine_with_volume();
    let devices: Vec<String> = (0..6).map(|i| format!("dev{}", i)).collect();
    assert!(engine.create_volume("vol1", devices).is_err());
}

#[test]
fn engine_rejects_too_few_devices() {
    let mut engine = EcStorageEngine::new(EcEngineConfig::new(4, 2, 4096)).unwrap();
    let devices: Vec<String> = (0..3).map(|i| format!("dev{}", i)).collect();
    assert!(engine.create_volume("vol1", devices).is_err());
}

#[test]
fn engine_second_write_gets_next_stripe() {
    let mut engine = engine_with_volume();
    let a = engine.write("vol1", &[9u8; 10]).unwrap();
    let b = engine.write("vol1", &[8u8; 20]).unwrap();
    assert_eq!(b, a + 1);
    assert_eq!(engine.read("vol1", a).unwrap(), vec![9u8; 10]);
    assert_eq!(engine.read("vol1", b).unwrap(), vec![8u8; 20]);
}

#[test]
fn engine_invalid_config_is_refused() {
    let config = EcEngineConfig { data_shards: 0, ..EcEngineConfig::default() };
    assert!(matches!(EcStorageEngine::new(config), Err(Error::InvalidEcConfig(_))));
}

#[test]
fn engine_stripe_health_of_fresh_stripe() {
    let mut engine = engine_with_volume();
    let id = engine.write("vol1", &[5u8; 64]).unwrap();
    let health = engine.check_stripe_health("vol1", id).unwrap();
    assert_eq!(health.stripe_id, id);
    assert_eq!(health.status, HealthStatus::Healthy);
}

#[test]
fn engine_volume_of_written_stripes_is_healthy() {
    let mut engine = engine_with_volume();
    engine.write("vol1", &[1u8; 100]).unwrap();
    engine.write("vol1", &[2u8; 4096]).unwrap();
    let id = engine.write("vol1", &[3u8; 7]).unwrap();
    let stripe = engine.check_stripe_health("vol1", id).unwrap();
    assert_eq!(stripe.healthy_shards, stripe.total_shards);
    assert!(stripe.degraded_shards.is_empty());
    let health = engine.get_volume_health("vol1").unwrap();
    assert_eq!(health.total_stripes, 3);
    assert_eq!(health.healthy_stripes, 3);
    assert_eq!(health.status, HealthStatus::Healthy);
    assert!(engine.get_volume_health("missing").is_err());
}
