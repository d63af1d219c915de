use couchestor::spdk::destage_manager::{
    aggregate_to_chunks, calculate_lba_range, destage_step, DestageAction, DestageManagerConfig, DestageManagerStats,
    DestagePhase, JournalLocation, JournalWrite, SpdkAccelEngine, StripeAssemblyBuffer,
};
use couchestor::spdk::dma_buf::DmaBuf;
use couchestor::spdk::metadata_engine::LbaRange;

fn journal_write(start: u64, end: u64, data: DmaBuf, offset: u64, sequence: u64) -> JournalWrite {
    let length = data.len() as u64;
    JournalWrite {
        volume_id: "vol-1".to_string(),
        lba_range: LbaRange::new(start, end),
        data,
        journal_location: JournalLocation { device_id: "j0".to_string(), offset, length },
        received_at: std::time::Instant::now(),
        sequence,
    }
}

#[test]
fn destage_manager_test_config_default() {
    let config = DestageManagerConfig::default();
    assert_eq!(config.data_shards, 4);
    assert_eq!(config.parity_shards, 2);
    assert_eq!(config.chunk_size, 1024 * 1024);
    assert_eq!(config.stripe_data_size(), 4 * 1024 * 1024);
    assert_eq!(config.total_shards(), 6);
}

#[test]
fn destage_manager_test_config_validation() {
    let mut config = DestageManagerConfig::default();
    assert!(config.validate().is_ok());

    config.data_shards = 0;
    assert!(config.validate().is_err());
    config.data_shards = 4;

    config.parity_shards = 0;
    assert!(config.validate().is_err());
    config.parity_shards = 2;

    config.chunk_size = 2048;
    assert!(config.validate().is_err());
    config.chunk_size = 1024 * 1024;

    config.chunk_size = 1000000;
    assert!(config.validate().is_err());
}

#[test]
fn test_assembly_buffer_basic() {
    let buffer = StripeAssemblyBuffer::new("vol-1".to_string(), 1024 * 1024);
    assert!(!buffer.is_stripe_ready());
    let fill_percent =
        ((buffer.buffered_bytes() as f64 / buffer.target_size() as f64) * 100.0) as u8;
    assert_eq!(fill_percent, 0);
    assert_eq!(buffer.pending_count(), 0);
}

#[test]
fn test_assembly_buffer_fill() {
    let target_size = 4096;
    let mut buffer = StripeAssemblyBuffer::new("vol-1".to_string(), target_size);
    let data = DmaBuf::new(1024).unwrap();
    let write = JournalWrite {
        volume_id: "vol-1".to_string(),
        lba_range: LbaRange::new(0, 2),
        data,
        journal_location: JournalLocation { device_id: "journal-0".to_string(), offset: 0, length: 1024 },
        received_at: std::time::Instant::now(),
        sequence: 0,
    };
    buffer.push(write);
    assert_eq!(buffer.pending_count(), 1);
    assert_eq!(buffer.buffered_bytes(), 1024);
    assert!(!buffer.is_stripe_ready());
}

#[test]
fn test_destage_phase_display() {
    assert_eq!(DestagePhase::Aggregating.to_string(), "Aggregating");
    assert_eq!(DestagePhase::Encoding.to_string(), "Encoding");
    assert_eq!(DestagePhase::Writing.to_string(), "Writing");
    assert_eq!(DestagePhase::Completed.to_string(), "Completed");
    assert_eq!(DestagePhase::Failed.to_string(), "Failed");
}

#[test]
fn destage_manager_test_stats_recording() {
    let mut stats = DestageManagerStats::default();

    stats.record_destage_complete(1024 * 1024);
    assert_eq!(stats.destages_completed, 1);
    assert_eq!(stats.bytes_destaged, 1024 * 1024);
    assert_eq!(stats.stripes_created, 1);

    stats.record_destage_failed();
    assert_eq!(stats.destages_failed, 1);

    stats.record_encode(1000, true);
    assert_eq!(stats.encode_operations, 1);
    assert_eq!(stats.avg_encode_time_us(), 1000);

    stats.record_shard_write(500, false);
    assert_eq!(stats.shard_write_failures, 1);
}

#[test]
fn test_accel_engine_creation() {
    let engine = SpdkAccelEngine::new(4, 2, 4096);
    assert!(engine.is_ok());
}

#[test]
fn test_accel_engine_encode_wrong_chunk_count() {
    let engine = SpdkAccelEngine::new(4, 2, 4096).unwrap();
    let chunks = vec![DmaBuf::new(4096).unwrap()];
    let result = engine.encode(chunks);
    assert!(result.is_err());
}

#[test]
fn test_accel_engine_encode_wrong_chunk_size() {
    let engine = SpdkAccelEngine::new(4, 2, 4096).unwrap();
    let chunks: Vec<DmaBuf> = (0..4).map(|_| DmaBuf::new(1024).unwrap()).collect();
    let result = engine.encode(chunks);
    assert!(result.is_err());
}

#[test]
fn test_accel_engine_encode_success() {
    let engine = SpdkAccelEngine::new(4, 2, 4096).unwrap();
    let chunks: Vec<DmaBuf> = (0..4)
        .map(|i| {
            let mut buf = DmaBuf::new(4096).unwrap();
            buf.fill(i as u8 + 1);
            buf
        })
        .collect();
    let result = engine.encode(chunks);
    assert!(result.is_ok());
    let encode_result = result.unwrap();
    assert_eq!(encode_result.data_shards.len(), 4);
    assert_eq!(encode_result.parity_shards.len(), 2);
}

#[test]
fn test_calculate_lba_range() {
    let writes = vec![
        journal_write(100, 200, DmaBuf::new(4096).unwrap(), 0, 0),
        journal_write(200, 300, DmaBuf::new(4096).unwrap(), 4096, 1),
        journal_write(50, 100, DmaBuf::new(4096).unwrap(), 8192, 2),
    ];
    let range = calculate_lba_range(&writes);
    assert_eq!(range.start, 50);
    assert_eq!(range.end, 300);
}

#[test]
fn assembly_buffer_extracts_a_full_stripe() {
    let mut buffer = StripeAssemblyBuffer::new("vol-1".to_string(), 2048);
    buffer.push(journal_write(0, 2, DmaBuf::new(1024).unwrap(), 0, 0));
    assert!(buffer.extract_stripe_writes().is_none());
    buffer.push(journal_write(2, 4, DmaBuf::new(1024).unwrap(), 1024, 1));
    buffer.push(journal_write(4, 6, DmaBuf::new(1024).unwrap(), 2048, 2));
    assert!(buffer.is_stripe_ready());
    let stripe = buffer.extract_stripe_writes().unwrap();
    assert_eq!(stripe.len(), 2);
    assert_eq!(stripe[0].sequence, 0);
    assert_eq!(stripe[1].sequence, 1);
    assert_eq!(buffer.pending_count(), 1);
    assert_eq!(buffer.buffered_bytes(), 1024);
}

#[test]
fn aggregate_lays_bytes_into_chunks() {
    let config = DestageManagerConfig { data_shards: 2, chunk_size: 4, ..DestageManagerConfig::default() };
    let a = DmaBuf::from_vec(vec![1, 2, 3]);
    let b = DmaBuf::from_vec(vec![4, 5, 6, 7, 8, 9, 10]);
    let writes = vec![journal_write(0, 1, a, 0, 0), journal_write(1, 2, b, 3, 1)];
    let chunks = aggregate_to_chunks(&config, &writes).unwrap();
    assert_eq!(chunks.len(), 2);
    assert_eq!(chunks[0].as_slice(), &[1, 2, 3, 4]);
    assert_eq!(chunks[1].as_slice(), &[5, 6, 7, 8]);
}

#[test]
fn aggregate_pads_short_stream_with_zeros() {
    let config = DestageManagerConfig { data_shards: 2, chunk_size: 4, ..DestageManagerConfig::default() };
    let writes = vec![journal_write(0, 1, DmaBuf::from_vec(vec![9, 9]), 0, 0)];
    let chunks = aggregate_to_chunks(&config, &writes).unwrap();
    assert_eq!(chunks[0].as_slice(), &[9, 9, 0, 0]);
    assert_eq!(chunks[1].as_slice(), &[0, 0, 0, 0]);
}

#[test]
fn stats_average_write_time() {
    let mut stats = DestageManagerStats::new();
    assert_eq!(stats.avg_write_time_us(), 0);
    stats.record_shard_write(300, true);
    stats.record_shard_write(100, true);
    assert_eq!(stats.shard_writes, 2);
    assert_eq!(stats.avg_write_time_us(), 200);
}

#[test]
fn destage_steps_run_in_order_and_stop_on_failure() {
    let mut phase = DestagePhase::Aggregating;
    let mut actions = Vec::new();
    loop {
        let (next, action) = destage_step(phase, true);
        actions.push(action);
        phase = next;
        if action == DestageAction::Finish {
            break;
        }
    }
    assert_eq!(
        actions,
        vec![
            DestageAction::Encode,
            DestageAction::WriteShards,
            DestageAction::UpdateMetadata,
            DestageAction::TrimJournal,
            DestageAction::Finish
        ]
    );
    assert_eq!(phase, DestagePhase::Completed);
    assert_eq!(destage_step(DestagePhase::UpdatingMetadata, false), (DestagePhase::UpdatingMetadata, DestageAction::Fail));
    assert_eq!(destage_step(DestagePhase::Writing, false), (DestagePhase::Failed, DestageAction::Fail));
}
