use couchestor::spdk::compression::{
    byte_histogram, clone_buffer, compress_buffer, decompress_buffer, early_skip, mock_compress,
    mock_decompress, CompressionAlgorithm, CompressionStats, CompressionStatus, SkipReason,
    StripeCompressionInfo, ENTROPY_SAMPLE_SIZE,
};
use couchestor::spdk::dma_buf::DmaBuf;

fn ratio(info: &StripeCompressionInfo) -> f64 {
    if !info.is_compressed || info.original_size == 0 {
        0.0
    } else {
        1.0 - (info.compressed_size as f64 / info.original_size as f64)
    }
}

#[test]
fn test_algorithm_display() {
    assert_eq!(CompressionAlgorithm::Lz4.to_string(), "LZ4");
    assert_eq!(CompressionAlgorithm::Zstd.to_string(), "ZSTD");
}

#[test]
fn test_skip_reason_display() {
    assert!(SkipReason::HighEntropy.to_string().contains("entropy"));
    assert!(SkipReason::PoorRatio.to_string().contains("ratio"));
}

#[test]
fn test_stripe_compression_info_uncompressed() {
    let info = StripeCompressionInfo::uncompressed(1024);
    assert!(!info.is_compressed);
    assert_eq!(info.original_size, 1024);
    assert_eq!(info.compressed_size, 1024);
    assert_eq!(ratio(&info), 0.0);
    assert_eq!(info.bytes_saved(), 0);
}

#[test]
fn test_stripe_compression_info_compressed() {
    let info = StripeCompressionInfo::compressed(1000, 700, CompressionAlgorithm::Lz4);
    assert!(info.is_compressed);
    assert_eq!(info.original_size, 1000);
    assert_eq!(info.compressed_size, 700);
    assert!((ratio(&info) - 0.3).abs() < 0.01);
    assert_eq!(info.bytes_saved(), 300);
    assert_eq!(info.algorithm, Some(CompressionAlgorithm::Lz4));
}

#[test]
fn rle_encodes_runs_and_literals() {
    let data = [7u8, 7, 7, 7, 7, 1, 0xFE];
    let encoded = mock_compress(&data).unwrap();
    assert_eq!(encoded, vec![0xC0, 0xED, 0, 0, 0, 7, 0xFE, 7, 5, 1, 0xFE, 0x00]);
}

#[test]
fn rle_long_run_uses_wide_token() {
    let data = vec![3u8; 300];
    let encoded = mock_compress(&data).unwrap();
    assert_eq!(encoded, vec![0xC0, 0xED, 0, 0, 1, 44, 0xFF, 3, 1, 44]);
}

#[test]
fn rle_roundtrip_restores_data() {
    let data: Vec<u8> = (0..2000u32).map(|i| ((i / 7) % 5) as u8).collect();
    let encoded = mock_compress(&data).unwrap();
    assert!(encoded.len() < data.len());
    let decoded = mock_decompress(&encoded, data.len()).unwrap();
    assert_eq!(decoded, data);
}

#[test]
fn rle_decompress_rejects_bad_header() {
    assert!(mock_decompress(&[0xC0, 0xED, 0, 0], 4).is_err());
    assert!(mock_decompress(&[0x00, 0xED, 0, 0, 0, 1, 5], 1).is_err());
    assert!(mock_decompress(&[0xC0, 0xED, 0, 0, 0, 2, 5, 6], 3).is_err());
}

#[test]
fn buffer_codec_roundtrip() {
    let mut bytes = vec![0xAAu8; 4096];
    bytes[4095] = 0x01;
    let data = DmaBuf::from_vec(bytes);
    let compressed = compress_buffer(&data).unwrap();
    assert!(compressed.len() < 64);
    let back = decompress_buffer(&compressed, 4096).unwrap();
    assert_eq!(back.as_slice(), data.as_slice());
    let copy = clone_buffer(&data).unwrap();
    assert_eq!(copy.as_slice(), data.as_slice());
}

#[test]
fn rle_long_final_run_is_not_restored() {
    // A wide run token at the very end of the stream is read back as literals.
    let data = vec![3u8; 300];
    let encoded = mock_compress(&data).unwrap();
    let decoded = mock_decompress(&encoded, data.len()).unwrap();
    assert_eq!(decoded.len(), 300);
    assert_ne!(decoded, data);
    assert_eq!(&decoded[..4], &[0xFF, 3, 1, 44]);
}

#[test]
fn histogram_counts_sample_bytes() {
    let data = [1u8, 1, 2, 255];
    let h = byte_histogram(&data);
    assert_eq!(h.len(), 256);
    assert_eq!(h[1], 2);
    assert_eq!(h[2], 1);
    assert_eq!(h[255], 1);
    assert_eq!(h[0], 0);
}

#[test]
fn compression_stats_record_outcomes() {
    let mut stats = CompressionStats::default();
    stats.record_compression(&CompressionStatus::Compressed, 1000, 700, 5);
    stats.record_compression(&CompressionStatus::Skipped(SkipReason::HighEntropy), 500, 500, 1);
    assert_eq!(stats.compressions_attempted, 2);
    assert_eq!(stats.compressions_successful, 1);
    assert_eq!(stats.bytes_input, 1500);
    assert_eq!(stats.bytes_output, 1200);
    assert_eq!(stats.skipped_high_entropy, 1);
    assert!(CompressionStatus::Compressed.is_compressed());
    assert!(!CompressionStatus::Skipped(SkipReason::TooSmall).is_compressed());
}

#[test]
fn early_skip_decisions() {
    assert_eq!(early_skip(false, 1 << 20), Some(SkipReason::Disabled));
    assert_eq!(early_skip(false, 10), Some(SkipReason::Disabled));
    assert_eq!(early_skip(true, ENTROPY_SAMPLE_SIZE - 1), Some(SkipReason::TooSmall));
    assert_eq!(early_skip(true, ENTROPY_SAMPLE_SIZE), None);
}
