use couchestor::spdk::bdev::{BdevConfig, BdevInfo, BdevManager, IoResult, IoStats, IoType, ShardIo};
use couchestor::spdk::dma_buf::DmaBuf;

#[test]
fn test_bdev_config_default() {
    let config = BdevConfig::default();
    assert_eq!(config.max_io_per_device, 64);
    assert_eq!(config.io_timeout_ms, 30_000);
    assert!(!config.write_through);
}

#[test]
fn test_bdev_info() {
    let info = BdevInfo::new("nvme0n1", 4096, 1000000);
    assert_eq!(info.name, "nvme0n1");
    assert_eq!(info.block_size, 4096);
    assert_eq!(info.num_blocks, 1000000);
    assert_eq!(info.size_bytes, 4096 * 1000000);
}

#[test]
fn test_io_stats() {
    let mut stats = IoStats::new();
    stats.record_read(4096, 100, true);
    stats.record_read(4096, 200, true);
    stats.record_write(8192, 150, true);
    assert_eq!(stats.reads, 2);
    assert_eq!(stats.writes, 1);
    assert_eq!(stats.bytes_read, 8192);
    assert_eq!(stats.bytes_written, 8192);
    assert_eq!(stats.avg_read_latency(), 150);
}

#[test]
fn test_io_result() {
    let success = IoResult::success(IoType::Read, 4096, 1000);
    assert!(success.success);
    assert_eq!(success.bytes, 4096);
    assert!(success.error.is_none());

    let failure = IoResult::failure(IoType::Write, "device error".into());
    assert!(!failure.success);
    assert!(failure.error.is_some());
}

#[test]
fn test_io_type_display() {
    assert_eq!(IoType::Read.to_string(), "read");
    assert_eq!(IoType::Write.to_string(), "write");
    assert_eq!(IoType::Flush.to_string(), "flush");
}

#[test]
fn test_bdev_manager_mock() {
    let mut manager = BdevManager::with_defaults();
    manager.register_mock_device("nvme0n1", 100).unwrap();

    let devices = manager.list_devices();
    assert_eq!(devices.len(), 1);
    assert_eq!(devices[0].name, "nvme0n1");

    manager.open("nvme0n1").unwrap();
    let handle = manager.handle("nvme0n1").unwrap();
    assert_eq!(handle.name(), "nvme0n1");
    assert_eq!(manager.open_device_count(), 1);

    manager.close("nvme0n1").unwrap();
    assert_eq!(manager.open_device_count(), 0);
}

#[test]
fn test_bdev_read_write() {
    let mut manager = BdevManager::with_defaults();
    manager.register_mock_device("test", 10).unwrap();
    manager.open("test").unwrap();

    let write_buf = DmaBuf::new(4096).unwrap();
    let result = manager.write_to("test", 0, &write_buf).unwrap();
    assert!(result.success);
    assert_eq!(result.bytes, 4096);

    let mut read_buf = DmaBuf::new(4096).unwrap();
    let result = manager.read_from("test", 0, &mut read_buf).unwrap();
    assert!(result.success);
    assert_eq!(result.bytes, 4096);

    let stats = manager.handle("test").unwrap().stats();
    assert_eq!(stats.reads, 1);
    assert_eq!(stats.writes, 1);
}

#[test]
fn test_bdev_alignment_error() {
    let mut manager = BdevManager::with_defaults();
    manager.register_mock_device("test", 10).unwrap();
    manager.open("test").unwrap();
    let mut buf = DmaBuf::new(4096).unwrap();
    let result = manager.read_from("test", 100, &mut buf);
    assert!(result.is_err());
}

#[test]
fn test_shard_io() {
    let mut manager = BdevManager::with_defaults();
    manager.register_mock_device("dev0", 100).unwrap();
    manager.register_mock_device("dev1", 100).unwrap();
    let mut shard_io = ShardIo::new(manager, 4096);

    let buf = DmaBuf::new(4096).unwrap();
    let result = shard_io.write_shard("dev0", 0, &buf).unwrap();
    assert!(result.success);

    let (buf, result) = shard_io.read_shard("dev0", 0).unwrap();
    assert!(result.success);
    assert_eq!(buf.len(), 4096);
}

#[test]
fn bdev_read_returns_what_was_written() {
    let mut manager = BdevManager::with_defaults();
    manager.register_mock_device("d", 1).unwrap();
    manager.open("d").unwrap();
    let mut w = DmaBuf::new(8192).unwrap();
    w.fill(0x5A);
    manager.write_to("d", 4096, &w).unwrap();
    let mut r = DmaBuf::new(4096).unwrap();
    manager.read_from("d", 4096, &mut r).unwrap();
    assert!(r.as_slice().iter().all(|&b| b == 0x5A));
    let mut other = DmaBuf::new(4096).unwrap();
    other.fill(9);
    manager.read_from("d", 8192, &mut other).unwrap();
    assert!(other.as_slice().iter().all(|&b| b == 0));
    let mut untouched = DmaBuf::new(4096).unwrap();
    untouched.fill(1);
    manager.read_from("d", 0, &mut untouched).unwrap();
    assert!(untouched.as_slice().iter().all(|&b| b == 0));
}

#[test]
fn bdev_write_past_end_is_refused() {
    let mut manager = BdevManager::with_defaults();
    manager.register_mock_device("d", 1).unwrap();
    manager.open("d").unwrap();
    let w = DmaBuf::new(4096).unwrap();
    assert!(manager.write_to("d", 1024 * 1024, &w).is_err());
}

#[test]
fn bdev_unknown_device_errors() {
    let mut manager = BdevManager::new_mock();
    assert!(manager.open("ghost").is_err());
    assert!(manager.close("ghost").is_err());
    assert!(manager.get_device_info("ghost").is_none());
    assert!(manager.register_mock_device("a", 1).is_ok());
    assert!(manager.register_mock_device("a", 2).is_ok());
    assert_eq!(manager.list_devices().len(), 1);
    assert_eq!(manager.get_device_info("a").unwrap().size_bytes, 2 * 1024 * 1024);
}

#[test]
fn io_stats_average_and_reset() {
    let mut stats = IoStats::new();
    assert_eq!(stats.avg_write_latency(), 0);
    stats.record_write(10, 30, false);
    assert_eq!(stats.write_errors, 1);
    assert_eq!(stats.avg_write_latency(), 0);
    stats.record_write(10, 30, true);
    assert_eq!(stats.avg_write_latency(), 30);
    stats.reset();
    assert_eq!(stats, IoStats::new());
}

#[test]
fn shard_io_roundtrip_keeps_bytes() {
    let mut manager = BdevManager::with_defaults();
    manager.register_mock_device("dev0", 1).unwrap();
    let mut shard_io = ShardIo::new(manager, 4096);
    let mut buf = DmaBuf::new(4096).unwrap();
    buf.fill(0xC3);
    shard_io.write_shard("dev0", 4096, &buf).unwrap();
    let (back, _) = shard_io.read_shard("dev0", 4096).unwrap();
    assert_eq!(back.as_slice(), buf.as_slice());
}

#[test]
fn shard_placement_offsets() {
    let manager = BdevManager::new_mock();
    assert_eq!(manager.write_shard("node-2", 2, &[0u8; 4096]), Ok(8192));
    assert_eq!(manager.write_shard("node-0", 0, &[0u8; 100]), Ok(0));
    assert!(manager.trim("journal-0", 0, 4096).is_ok());
}

#[test]
fn shard_io_reads_several_shards_in_order() {
    let mut manager = BdevManager::with_defaults();
    manager.register_mock_device("dev0", 1).unwrap();
    manager.register_mock_device("dev1", 1).unwrap();
    let mut shard_io = ShardIo::new(manager, 4096);
    let mut a = DmaBuf::new(4096).unwrap();
    a.fill(1);
    let mut b = DmaBuf::new(4096).unwrap();
    b.fill(2);
    shard_io.write_shard("dev0", 0, &a).unwrap();
    shard_io.write_shard("dev1", 4096, &b).unwrap();
    let results = shard_io.read_shards(vec![("dev1", 4096), ("dev0", 0), ("missing", 0)]);
    assert_eq!(results.len(), 3);
    assert_eq!(results[0].as_ref().unwrap().0.as_slice(), b.as_slice());
    assert_eq!(results[1].as_ref().unwrap().0.as_slice(), a.as_slice());
    assert!(results[2].is_err());
}

#[test]
fn shard_io_write_refused_where_it_cannot_land() {
    let mut manager = BdevManager::with_defaults();
    manager.register_mock_device("dev0", 1).unwrap();
    let mut shard_io = ShardIo::new(manager, 4096);
    let buf = DmaBuf::new(4096).unwrap();
    assert!(shard_io.write_shard("missing", 0, &buf).is_err());
    assert!(shard_io.write_shard("dev0", 100, &buf).is_err());
    assert!(shard_io.write_shard("dev0", 1 << 40, &buf).is_err());
    assert!(shard_io.write_shard("dev0", 0, &buf).is_ok());
}
