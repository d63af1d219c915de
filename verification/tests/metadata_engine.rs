use couchestor::spdk::metadata_engine::{
    Checkpoint, CheckpointManager, LbaRange, MetadataEngine, MetadataEngineConfig, StorageTier,
    StripeLocation, WalEntry, WalEntryType, WriteAheadLog,
};

#[test]
fn test_lba_range_basic() {
    let range = LbaRange::new(100, 200);
    assert_eq!(range.len(), 100);
    assert!(!range.is_empty());
    assert!(range.contains(100));
    assert!(range.contains(150));
    assert!(!range.contains(200));
    assert!(!range.contains(99));
}

#[test]
fn test_lba_range_overlap() {
    let r1 = LbaRange::new(100, 200);
    let r2 = LbaRange::new(150, 250);
    let r3 = LbaRange::new(200, 300);
    assert!(r1.overlaps(&r2));
    assert!(r2.overlaps(&r1));
    assert!(!r1.overlaps(&r3));
    assert!(r2.overlaps(&r3));
}

#[test]
fn test_lba_range_split() {
    let range = LbaRange::new(100, 200);

    let (before, after) = range.split_at(150);
    assert_eq!(before.unwrap(), LbaRange::new(100, 150));
    assert_eq!(after.unwrap(), LbaRange::new(150, 200));

    let (before, after) = range.split_at(50);
    assert!(before.is_none());
    assert_eq!(after.unwrap(), range);

    let (before, after) = range.split_at(250);
    assert_eq!(before.unwrap(), range);
    assert!(after.is_none());
}

#[test]
fn test_stripe_location_creation() {
    let hot = StripeLocation::hot_journal("dev1", 1, 0, 4096);
    assert!(hot.is_hot());
    assert!(!hot.is_cold());
    assert_eq!(hot.tier, StorageTier::HotJournal);

    let cold = StripeLocation::cold_store("vol1", 1, 0, 4096);
    assert!(!cold.is_hot());
    assert!(cold.is_cold());
    assert_eq!(cold.tier, StorageTier::ColdStore);
}

#[test]
fn test_wal_append_and_read() {
    let mut wal = WriteAheadLog::new(100);
    let lsn1 = wal
        .append(WalEntryType::Insert {
            lba_range: LbaRange::new(0, 100),
            location: StripeLocation::hot_journal("dev1", 1, 0, 4096),
        })
        .unwrap();
    let lsn2 = wal
        .append(WalEntryType::Insert {
            lba_range: LbaRange::new(100, 200),
            location: StripeLocation::hot_journal("dev1", 2, 0, 4096),
        })
        .unwrap();
    assert_eq!(lsn1, 1);
    assert_eq!(lsn2, 2);
    let entries = wal.entries_after(0);
    assert_eq!(entries.len(), 2);
}

#[test]
fn test_checkpoint_creation() {
    let mut manager = CheckpointManager::new(60_000);
    let mappings = vec![
        (LbaRange::new(0, 100), StripeLocation::hot_journal("dev1", 1, 0, 4096)),
        (LbaRange::new(100, 200), StripeLocation::cold_store("vol1", 1, 0, 4096)),
    ];
    let checkpoint = manager.create_checkpoint(10, mappings).unwrap();
    assert_eq!(checkpoint.metadata.lsn, 10);
    assert_eq!(checkpoint.metadata.mapping_count, 2);
    assert!(checkpoint.verify());

    let loaded = manager.load_latest_checkpoint().unwrap();
    assert_eq!(loaded.metadata.id, checkpoint.metadata.id);
}

#[test]
fn test_metadata_engine_basic_operations() {
    let mut engine = MetadataEngine::new(MetadataEngineConfig::default());
    let lba_range = LbaRange::new(0, 100);
    let location = StripeLocation::hot_journal("dev1", 1, 0, 4096);
    engine.insert_mapping(lba_range, location.clone()).unwrap();

    let result = engine.lookup(50);
    assert!(result.is_some());
    let (found_range, found_loc) = result.unwrap();
    assert_eq!(found_range, lba_range);
    assert!(found_loc.is_hot());

    let result = engine.lookup(200);
    assert!(result.is_none());
}

#[test]
fn test_metadata_engine_destage() {
    let mut engine = MetadataEngine::new(MetadataEngineConfig::default());
    let lba_range = LbaRange::new(0, 100);
    let hot_location = StripeLocation::hot_journal("dev1", 1, 0, 4096);
    engine.insert_mapping(lba_range, hot_location).unwrap();

    let (_, stored_hot) = engine.lookup(50).unwrap();
    assert!(stored_hot.is_hot());

    let cold_location = StripeLocation::cold_store("vol1", 1, 0, 4096);
    engine.update_mapping(lba_range, &stored_hot, cold_location).unwrap();

    let (_, loc) = engine.lookup(50).unwrap();
    assert!(loc.is_cold());
}

#[test]
fn test_metadata_engine_overlapping_writes() {
    let mut engine = MetadataEngine::new(MetadataEngineConfig::default());
    engine
        .insert_mapping(LbaRange::new(0, 200), StripeLocation::hot_journal("dev1", 1, 0, 8192))
        .unwrap();
    engine
        .insert_mapping(LbaRange::new(50, 150), StripeLocation::hot_journal("dev2", 2, 0, 4096))
        .unwrap();

    let (range, loc) = engine.lookup(25).unwrap();
    assert_eq!(range, LbaRange::new(0, 50));
    assert_eq!(loc.device_id, "dev1");

    let (range, loc) = engine.lookup(100).unwrap();
    assert_eq!(range, LbaRange::new(50, 150));
    assert_eq!(loc.device_id, "dev2");

    let (range, loc) = engine.lookup(175).unwrap();
    assert_eq!(range, LbaRange::new(150, 200));
    assert_eq!(loc.device_id, "dev1");
}

#[test]
fn test_metadata_engine_checkpoint_and_recovery() {
    let config = MetadataEngineConfig { auto_checkpoint: false, ..MetadataEngineConfig::default() };
    let mut engine = MetadataEngine::new(config);
    engine
        .insert_mapping(LbaRange::new(0, 100), StripeLocation::hot_journal("dev1", 1, 0, 4096))
        .unwrap();
    engine
        .insert_mapping(LbaRange::new(100, 200), StripeLocation::cold_store("vol1", 1, 0, 4096))
        .unwrap();

    let ckpt_info = engine.create_checkpoint().unwrap();
    assert_eq!(ckpt_info.mapping_count, 2);

    let (hot, cold) = engine.mappings_by_tier();
    assert_eq!(hot, 1);
    assert_eq!(cold, 1);
}

#[test]
fn test_metadata_engine_generation_conflict() {
    let mut engine = MetadataEngine::new(MetadataEngineConfig::default());
    let lba_range = LbaRange::new(0, 100);
    let location = StripeLocation::hot_journal("dev1", 1, 0, 4096);
    engine.insert_mapping(lba_range, location).unwrap();

    let (_, stored_location) = engine.lookup(50).unwrap();
    let stale_location = stored_location.clone();

    let cold1 = StripeLocation::cold_store("vol1", 1, 0, 4096);
    engine.update_mapping(lba_range, &stored_location, cold1).unwrap();

    let cold2 = StripeLocation::cold_store("vol1", 2, 0, 4096);
    let result = engine.update_mapping(lba_range, &stale_location, cold2);
    assert!(result.is_err());
}

#[test]
fn metadata_delete_then_lookup_misses() {
    let mut engine = MetadataEngine::new(MetadataEngineConfig::default());
    let r = LbaRange::new(10, 20);
    engine.insert_mapping(r, StripeLocation::hot_journal("dev1", 7, 0, 4096)).unwrap();
    assert_eq!(engine.mapping_count(), 1);
    engine.delete_mapping(&r).unwrap();
    assert!(engine.lookup(15).is_none());
    assert_eq!(engine.mapping_count(), 0);
}

#[test]
fn metadata_lookup_range_returns_overlaps() {
    let mut engine = MetadataEngine::new(MetadataEngineConfig::default());
    engine.insert_mapping(LbaRange::new(0, 10), StripeLocation::hot_journal("a", 1, 0, 1)).unwrap();
    engine.insert_mapping(LbaRange::new(10, 20), StripeLocation::hot_journal("b", 2, 0, 1)).unwrap();
    engine.insert_mapping(LbaRange::new(30, 40), StripeLocation::hot_journal("c", 3, 0, 1)).unwrap();
    let found = engine.lookup_range(&LbaRange::new(5, 15));
    assert_eq!(found.len(), 2);
    assert_eq!(found[0].0, LbaRange::new(0, 10));
    assert_eq!(found[1].0, LbaRange::new(10, 20));
}

#[test]
fn metadata_recover_restores_mappings() {
    let config = MetadataEngineConfig { auto_checkpoint: false, ..MetadataEngineConfig::default() };
    let mut engine = MetadataEngine::new(config);
    engine.insert_mapping(LbaRange::new(0, 100), StripeLocation::hot_journal("dev1", 1, 0, 4096)).unwrap();
    engine.create_checkpoint().unwrap();
    engine.insert_mapping(LbaRange::new(100, 200), StripeLocation::cold_store("vol1", 2, 0, 4096)).unwrap();
    let info = engine.recover().unwrap();
    assert_eq!(info.mappings_from_checkpoint, 1);
    assert!(engine.lookup(50).is_some());
}

#[test]
fn wal_entry_checksum_roundtrip() {
    let entry = WalEntry::new_at(3, WalEntryType::Delete { lba_range: LbaRange::new(0, 8) }, 100);
    assert!(entry.verify_checksum());
    assert_eq!(entry.calculate_checksum(), (3u64.wrapping_mul(31).wrapping_add(100 * 17)) as u32);
}

#[test]
fn checkpoint_verify_detects_tampering() {
    let mappings = vec![(LbaRange::new(0, 4), StripeLocation::hot_journal("d", 1, 0, 4))];
    let mut c = Checkpoint::new(1, 5, mappings);
    assert!(c.verify());
    c.mappings.push((LbaRange::new(4, 8), StripeLocation::hot_journal("d", 2, 0, 4)));
    assert!(!c.verify());
}
