use couchestor::error::Error;
use couchestor::spdk::dma_buf::DmaBuf;
use couchestor::spdk::isal_codec::{gf_mul_byte, gf_mul_slow, IsalCodec, IsalCodecConfig, MatrixType};

#[test]
fn isal_codec_test_config_validation() {
    let config = IsalCodecConfig::new(4, 2, 1024);
    assert!(config.validate().is_ok());

    let config = IsalCodecConfig::new(0, 2, 1024);
    assert!(config.validate().is_err());

    let config = IsalCodecConfig::new(4, 0, 1024);
    assert!(config.validate().is_err());

    let config = IsalCodecConfig::new(200, 100, 1024);
    assert!(config.validate().is_err());

    let config = IsalCodecConfig::new(4, 2, 1000);
    assert!(config.validate().is_err());

    let config = IsalCodecConfig::new(4, 2, 1024);
    assert!(config.validate().is_ok());
}

#[test]
fn test_config_metrics() {
    let config = IsalCodecConfig::new(4, 2, 1024);
    assert_eq!(config.total_shards(), 6);
    let overhead = config.parity_shards as f64 / config.data_shards as f64;
    let efficiency = config.data_shards as f64 / config.total_shards() as f64 * 100.0;
    assert!((overhead - 0.5).abs() < 0.001);
    assert!((efficiency - 66.67).abs() < 0.1);
}

#[test]
fn test_matrix_type_display() {
    assert_eq!(MatrixType::Cauchy.to_string(), "Cauchy");
    assert_eq!(MatrixType::Vandermonde.to_string(), "Vandermonde");
}

#[test]
fn isal_codec_test_config_default() {
    let config = IsalCodecConfig::default();
    assert_eq!(config.data_shards, 4);
    assert_eq!(config.parity_shards, 2);
    assert_eq!(config.shard_size, 1024 * 1024);
    assert_eq!(config.matrix_type, MatrixType::Cauchy);
}

#[test]
fn test_gf_mul() {
    assert_eq!(gf_mul_byte(0, 5), 0);
    assert_eq!(gf_mul_byte(5, 0), 0);
    assert_eq!(gf_mul_byte(1, 5), 5);
    assert_eq!(gf_mul_byte(5, 1), 5);
    assert_eq!(gf_mul_byte(7, 13), gf_mul_byte(13, 7));
}

#[test]
fn test_codec_creation() {
    let config = IsalCodecConfig::new(4, 2, 1024);
    let codec = IsalCodec::new(config).unwrap();
    assert_eq!(codec.data_shards(), 4);
    assert_eq!(codec.parity_shards(), 2);
    assert_eq!(codec.total_shards(), 6);
    assert_eq!(codec.shard_size(), 1024);
}

#[test]
fn test_encode_decode_mock() {
    let config = IsalCodecConfig::new(4, 2, 1024);
    let codec = IsalCodec::new(config).unwrap();
    let data: Vec<DmaBuf> = (0..4)
        .map(|i| {
            let mut buf = DmaBuf::new(1024).unwrap();
            buf.fill(i as u8 + 1);
            buf
        })
        .collect();
    let mut parity: Vec<DmaBuf> = (0..2).map(|_| DmaBuf::new(1024).unwrap()).collect();
    codec.encode(&data, &mut parity).unwrap();
    assert!(parity[0].as_slice().iter().any(|&b| b != 0));
}

#[test]
fn gf_mul_known_values() {
    // x * x = x^2, and 0x80 * 2 wraps through the field polynomial 0x11d.
    assert_eq!(gf_mul_byte(2, 2), 4);
    assert_eq!(gf_mul_byte(0x80, 2), 0x1d);
    assert_eq!(gf_mul_slow(0x80, 2), 0x1d);
    assert_eq!(gf_mul_byte(0x53, 0xca), gf_mul_slow(0x53, 0xca));
}

#[test]
fn encode_rejects_wrong_shard_count() {
    let codec = IsalCodec::new(IsalCodecConfig::new(4, 2, 64)).unwrap();
    let data: Vec<DmaBuf> = (0..3).map(|_| DmaBuf::new(64).unwrap()).collect();
    let mut parity: Vec<DmaBuf> = (0..2).map(|_| DmaBuf::new(64).unwrap()).collect();
    assert!(matches!(codec.encode(&data, &mut parity), Err(Error::InvalidEcConfig(_))));
}

#[test]
fn parity_of_single_nonzero_shard_is_matrix_column() {
    let codec = IsalCodec::new(IsalCodecConfig::new(2, 1, 32)).unwrap();
    let mut d0 = DmaBuf::new(32).unwrap();
    d0.fill(1);
    let d1 = DmaBuf::new(32).unwrap();
    let data = vec![d0, d1];
    let mut parity = vec![DmaBuf::new(32).unwrap()];
    codec.encode(&data, &mut parity).unwrap();
    let coeff = codec.encode_matrix()[2 * 2];
    assert!(parity[0].as_slice().iter().all(|&b| b == coeff));
}

#[test]
fn reconstruct_too_many_erasures() {
    let codec = IsalCodec::new(IsalCodecConfig::new(4, 2, 64)).unwrap();
    let mut shards: Vec<DmaBuf> = (0..6).map(|_| DmaBuf::new(64).unwrap()).collect();
    let r = codec.reconstruct(&mut shards, &[0, 1, 2]);
    assert_eq!(r, Err(Error::InsufficientShards { available: 3, required: 4 }));
}

fn encoded_stripe(codec: &IsalCodec, k: usize, m: usize, size: usize) -> Vec<DmaBuf> {
    let data: Vec<DmaBuf> = (0..k)
        .map(|i| {
            let bytes: Vec<u8> = (0..size).map(|j| (i * 37 + j * 11 + 5) as u8).collect();
            DmaBuf::from_vec(bytes)
        })
        .collect();
    let mut parity: Vec<DmaBuf> = (0..m).map(|_| DmaBuf::new(size).unwrap()).collect();
    codec.encode(&data, &mut parity).unwrap();
    data.into_iter().chain(parity).collect()
}

#[test]
fn reconstruct_rebuilds_erased_data_and_parity() {
    let codec = IsalCodec::new(IsalCodecConfig::new(4, 2, 64)).unwrap();
    let original = encoded_stripe(&codec, 4, 2, 64);
    for erasures in [vec![1usize], vec![0, 3], vec![2, 5], vec![4, 5], vec![0, 4]] {
        let mut shards: Vec<DmaBuf> = original.iter().map(|b| b.duplicate()).collect();
        for &e in &erasures {
            shards[e].zero();
        }
        codec.reconstruct(&mut shards, &erasures).unwrap();
        for (i, s) in shards.iter().enumerate() {
            assert_eq!(s.as_slice(), original[i].as_slice(), "shard {} after erasing {:?}", i, erasures);
        }
    }
}

#[test]
fn reconstruct_rejects_out_of_range_index() {
    let codec = IsalCodec::new(IsalCodecConfig::new(4, 2, 64)).unwrap();
    let mut shards = encoded_stripe(&codec, 4, 2, 64);
    assert!(matches!(codec.reconstruct(&mut shards, &[6]), Err(Error::InvalidEcConfig(_))));
    assert!(matches!(codec.reconstruct(&mut shards[..5], &[1]), Err(Error::InvalidEcConfig(_))));
}

#[test]
fn reconstruct_any_two_erasures_of_four_plus_two() {
    let codec = IsalCodec::new(IsalCodecConfig::new(4, 2, 64)).unwrap();
    let original = encoded_stripe(&codec, 4, 2, 64);
    let mut sets: Vec<Vec<usize>> = (0..6).map(|a| vec![a]).collect();
    for a in 0..6 {
        for b in (a + 1)..6 {
            sets.push(vec![a, b]);
        }
    }
    for erasures in sets {
        let mut shards: Vec<DmaBuf> = original.iter().map(|b| b.duplicate()).collect();
        for &e in &erasures {
            shards[e].zero();
        }
        codec.reconstruct(&mut shards, &erasures).unwrap();
        for (i, s) in shards.iter().enumerate() {
            assert_eq!(s.as_slice(), original[i].as_slice(), "shard {} after erasing {:?}", i, erasures);
        }
    }
}

#[test]
fn reconstruct_reports_singular_survivor_rows() {
    // With four data and three parity shards, losing shards 0, 2 and 5
    // leaves survivor rows whose determinant is zero.
    let codec = IsalCodec::new(IsalCodecConfig::new(4, 3, 32)).unwrap();
    let original = encoded_stripe(&codec, 4, 3, 32);
    let mut shards: Vec<DmaBuf> = original.iter().map(|b| b.duplicate()).collect();
    for &e in &[0usize, 2, 5] {
        shards[e].zero();
    }
    let before: Vec<Vec<u8>> = shards.iter().map(|b| b.as_slice().to_vec()).collect();
    let r = codec.reconstruct(&mut shards, &[0, 2, 5]);
    assert!(matches!(r, Err(Error::IsalMatrixError(_))));
    let after: Vec<Vec<u8>> = shards.iter().map(|b| b.as_slice().to_vec()).collect();
    assert_eq!(before, after);
    // Losing 0, 2 and 4 instead leaves an invertible set.
    let mut shards: Vec<DmaBuf> = original.iter().map(|b| b.duplicate()).collect();
    for &e in &[0usize, 2, 4] {
        shards[e].zero();
    }
    codec.reconstruct(&mut shards, &[0, 2, 4]).unwrap();
    for (i, s) in shards.iter().enumerate() {
        assert_eq!(s.as_slice(), original[i].as_slice());
    }
}

#[test]
fn reconstruct_single_data_loss_with_parity_losses() {
    for &(k, m) in &[(6usize, 3usize), (10, 4), (4, 3)] {
        let codec = IsalCodec::new(IsalCodecConfig::new(k as u8, m as u8, 32)).unwrap();
        let original = encoded_stripe(&codec, k, m, 32);
        for j in 0..k {
            for lost_parity in 0..m {
                let mut erasures = vec![j];
                erasures.extend((0..lost_parity).map(|p| k + p));
                let mut shards: Vec<DmaBuf> = original.iter().map(|b| b.duplicate()).collect();
                for &e in &erasures {
                    shards[e].zero();
                }
                codec.reconstruct(&mut shards, &erasures).unwrap();
                for (i, s) in shards.iter().enumerate() {
                    assert_eq!(s.as_slice(), original[i].as_slice(), "k={} m={} erasures={:?}", k, m, erasures);
                }
            }
        }
    }
}
