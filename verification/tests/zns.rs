use couchestor::spdk::dma_buf::DmaBuf;
use couchestor::spdk::zns::{
    Zone, ZoneAllocator, ZoneSelectionStrategy, ZoneState, ZnsConfig, ZnsManager, ZnsStats,
    DEFAULT_MAX_OPEN_ZONES, DEFAULT_ZONE_SIZE, MIN_ZONE_SIZE,
};

#[test]
fn zns_test_config_default() {
    let config = ZnsConfig::default();
    assert_eq!(config.zone_size, DEFAULT_ZONE_SIZE);
    assert_eq!(config.max_open_zones, DEFAULT_MAX_OPEN_ZONES);
    assert!(config.enabled);
}

#[test]
fn test_config_conventional() {
    let config = ZnsConfig::conventional();
    assert!(!config.enabled);
}

#[test]
fn zns_test_config_validation() {
    let mut config = ZnsConfig::default();
    assert!(config.validate().is_ok());

    config.zone_size = 1024;
    assert!(config.validate().is_err());

    config.zone_size = 100 * 1024 * 1024;
    assert!(config.validate().is_err());

    config.zone_size = DEFAULT_ZONE_SIZE;

    config.write_alignment = 0;
    assert!(config.validate().is_err());
}

#[test]
fn test_config_stripes_per_zone() {
    let config = ZnsConfig::default();
    let stripe_size = 4 * 1024 * 1024;
    assert_eq!(config.stripes_per_zone(stripe_size), 64);
}

#[test]
fn test_zone_state_display() {
    assert_eq!(ZoneState::Empty.to_string(), "Empty");
    assert_eq!(ZoneState::Open.to_string(), "Open");
    assert_eq!(ZoneState::Full.to_string(), "Full");
}

#[test]
fn test_zone_state_can_write() {
    assert!(ZoneState::Empty.can_write());
    assert!(ZoneState::Open.can_write());
    assert!(!ZoneState::Full.can_write());
    assert!(!ZoneState::Closed.can_write());
    assert!(!ZoneState::Offline.can_write());
}

#[test]
fn test_zone_state_can_reset() {
    assert!(ZoneState::Empty.can_reset());
    assert!(ZoneState::Open.can_reset());
    assert!(ZoneState::Full.can_reset());
    assert!(ZoneState::Closed.can_reset());
    assert!(!ZoneState::Offline.can_reset());
}

#[test]
fn test_zone_creation() {
    let zone = Zone::new(0, 0, 256 * 1024 * 1024, "nvme0n1");
    assert_eq!(zone.id, 0);
    assert_eq!(zone.start_lba, 0);
    assert_eq!(zone.size, 256 * 1024 * 1024);
    assert_eq!(zone.write_pointer, 0);
    assert_eq!(zone.state, ZoneState::Empty);
    assert_eq!(zone.device_id, "nvme0n1");
}

#[test]
fn test_zone_remaining_space() {
    let mut zone = Zone::new(0, 0, 256 * 1024 * 1024, "nvme0n1");
    assert_eq!(zone.remaining_space(), 256 * 1024 * 1024);
    zone.write_pointer = 100 * 1024 * 1024;
    assert_eq!(zone.remaining_space(), 156 * 1024 * 1024);
}

#[test]
fn test_zone_has_space() {
    let mut zone = Zone::new(0, 0, 1000, "nvme0n1");
    zone.state = ZoneState::Open;
    assert!(zone.has_space(500));
    assert!(zone.has_space(1000));
    assert!(!zone.has_space(1001));
    zone.state = ZoneState::Full;
    assert!(!zone.has_space(500));
}

#[test]
fn test_allocator_creation() {
    let config = ZnsConfig::default();
    let allocator = ZoneAllocator::new(config, ZoneSelectionStrategy::FirstFit);
    assert!(allocator.is_ok());
}

#[test]
fn test_allocator_register_device() {
    let config = ZnsConfig::default();
    let mut allocator = ZoneAllocator::new(config, ZoneSelectionStrategy::FirstFit).unwrap();
    allocator.register_device("nvme0n1", 10);
    let zones = allocator.get_all_zones();
    assert_eq!(zones.len(), 10);
}

#[test]
fn test_allocator_allocate_zone() {
    let config = ZnsConfig::default();
    let mut allocator = ZoneAllocator::new(config, ZoneSelectionStrategy::FirstFit).unwrap();
    allocator.register_device("nvme0n1", 10);
    let zone = allocator.allocate_zone(1024 * 1024);
    assert!(zone.is_ok());
    let zone = zone.unwrap();
    assert_eq!(zone.state, ZoneState::Open);
}

#[test]
fn test_allocator_record_write() {
    let config = ZnsConfig::default();
    let mut allocator = ZoneAllocator::new(config, ZoneSelectionStrategy::FirstFit).unwrap();
    allocator.register_device("nvme0n1", 10);
    let zone = allocator.allocate_zone(1024 * 1024).unwrap();
    let updated = allocator.record_write(zone.id, 1024 * 1024, 0).unwrap();
    assert_eq!(updated.write_pointer, 1024 * 1024);
    assert_eq!(updated.stripes_written, 1);
}

#[test]
fn test_allocator_reset_zone() {
    let config = ZnsConfig::with_zone_size(MIN_ZONE_SIZE);
    let mut allocator = ZoneAllocator::new(config, ZoneSelectionStrategy::FirstFit).unwrap();
    allocator.register_device("nvme0n1", 10);
    let zone = allocator.allocate_zone(1024).unwrap();

    let mut current = zone.clone();
    while current.state != ZoneState::Full {
        if let Ok(z) = allocator.record_write(current.id, config.zone_size / 10, 0) {
            current = z;
        } else {
            break;
        }
    }

    let reclaimed = allocator.reset_zone(current.id).unwrap();
    assert!(reclaimed > 0);

    let reset_zone = allocator.get_zone(current.id).unwrap();
    assert_eq!(reset_zone.state, ZoneState::Empty);
    assert_eq!(reset_zone.write_pointer, 0);
}

#[test]
fn test_manager_creation() {
    let manager = ZnsManager::new(ZnsConfig::default());
    assert!(manager.is_ok());
}

#[test]
fn test_manager_disabled() {
    let manager = ZnsManager::new(ZnsConfig::conventional()).unwrap();
    assert!(!manager.is_enabled());
}

#[test]
fn test_manager_align_size() {
    let manager = ZnsManager::new(ZnsConfig::default()).unwrap();
    assert_eq!(manager.align_size(4096), 4096);
    assert_eq!(manager.align_size(4097), 8192);
    assert_eq!(manager.align_size(1000), 4096);
}

#[test]
fn test_manager_is_aligned() {
    let manager = ZnsManager::new(ZnsConfig::default()).unwrap();
    assert!(manager.is_aligned(4096));
    assert!(manager.is_aligned(8192));
    assert!(!manager.is_aligned(4097));
    assert!(!manager.is_aligned(1000));
}

#[test]
fn test_manager_append_stripe() {
    let mut manager = ZnsManager::new(ZnsConfig::default()).unwrap();
    manager.register_device("nvme0n1", 10);
    let data = DmaBuf::new(1024 * 1024).unwrap();
    let location = manager.append_stripe(&data);
    assert!(location.is_ok());
    let location = location.unwrap();
    assert_eq!(location.zone_id, 0);
    assert_eq!(location.offset, 0);
}

#[test]
fn test_manager_append_multiple() {
    let mut manager = ZnsManager::new(ZnsConfig::default()).unwrap();
    manager.register_device("nvme0n1", 10);
    let data = DmaBuf::new(1024 * 1024).unwrap();
    let loc1 = manager.append_stripe(&data).unwrap();
    let loc2 = manager.append_stripe(&data).unwrap();
    assert!(loc2.offset > loc1.offset || loc2.zone_id != loc1.zone_id);
}

#[test]
fn test_stats_snapshot() {
    let mut stats = ZnsStats::default();
    stats.writes_total = 100;
    stats.bytes_written = 1024 * 1024;
    stats.resets_total = 5;
    let snapshot = stats;
    assert_eq!(snapshot.writes_total, 100);
    assert_eq!(snapshot.bytes_written, 1024 * 1024);
    assert_eq!(snapshot.resets_total, 5);
}

#[test]
fn zns_stats_record_write_and_reset() {
    let mut stats = ZnsStats::new();
    stats.record_write(4096, 96);
    stats.record_write(1000, 0);
    stats.record_reset(8192);
    stats.record_allocation_failure();
    assert_eq!(stats.writes_total, 2);
    assert_eq!(stats.bytes_written, 5096);
    assert_eq!(stats.padding_bytes, 96);
    assert_eq!(stats.resets_total, 1);
    assert_eq!(stats.bytes_reclaimed, 8192);
    assert_eq!(stats.allocation_failures, 1);
}

#[test]
fn zns_append_is_sequential_within_zone() {
    let mut manager = ZnsManager::new(ZnsConfig::default()).unwrap();
    manager.register_device("nvme0n1", 4);
    let data = DmaBuf::new(5000).unwrap();
    let loc1 = manager.append_stripe(&data).unwrap();
    let loc2 = manager.append_stripe(&data).unwrap();
    assert_eq!(loc1.zone_id, loc2.zone_id);
    assert_eq!(loc1.length, 5000);
    assert_eq!(loc2.offset, loc1.offset + 8192);
}

#[test]
fn zns_append_without_devices_fails() {
    let mut manager = ZnsManager::new(ZnsConfig::default()).unwrap();
    let data = DmaBuf::new(4096).unwrap();
    assert!(manager.append_stripe(&data).is_err());
}

#[test]
fn zns_record_write_unknown_zone_fails() {
    let mut allocator =
        ZoneAllocator::new(ZnsConfig::default(), ZoneSelectionStrategy::FirstFit).unwrap();
    assert!(allocator.record_write(42, 4096, 0).is_err());
    assert!(allocator.reset_zone(42).is_err());
    assert!(allocator.get_zone(42).is_none());
}
