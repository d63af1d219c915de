use couchestor::error::Error;
use couchestor::spdk::dma_buf::{align_up, DmaBuf, DmaBufPool};
use couchestor::spdk::ffi::{SimdLevel, SPDK_DMA_ALIGNMENT};
use couchestor::spdk::mock::{MockDmaBuf, MOCK_DMA_ALIGNMENT};
use couchestor::spdk::{is_isal_available, is_spdk_available, SpdkInfo};

#[test]
fn test_zero_size_error() {
    let result = DmaBuf::new(0);
    assert!(result.is_err());
    if let Err(Error::DmaAllocationFailed { size, reason }) = result {
        assert_eq!(size, 0);
        assert!(reason.contains("greater than 0"));
    }
}

#[test]
fn test_alignment_calculation() {
    assert_eq!(align_up(1000, 512), 1024);
    assert_eq!(align_up(512, 512), 512);
    assert_eq!(align_up(513, 512), 1024);
    assert_eq!(align_up(4096, 4096), 4096);
    assert_eq!(align_up(1, 4096), 4096);
}

#[test]
fn test_block_size_validation() {
    let result = DmaBuf::new_aligned(1000, 500);
    assert!(result.is_err());
    if let Err(Error::DmaAllocationFailed { reason, .. }) = result {
        assert!(reason.contains("power of 2"));
    }
}

#[test]
fn test_dma_alignment_constant() {
    assert_eq!(SPDK_DMA_ALIGNMENT, 4096);
    assert!(SPDK_DMA_ALIGNMENT.is_power_of_two());
}

#[test]
fn test_mock_dma_buf_creation() {
    let buf = MockDmaBuf::new(4096).unwrap();
    assert_eq!(buf.len(), 4096);
}

#[test]
fn test_mock_dma_buf_zeroed() {
    let buf = MockDmaBuf::new_zeroed(4096).unwrap();
    assert!(buf.as_slice().iter().all(|&b| b == 0));
}

#[test]
fn test_mock_dma_buf_fill() {
    let mut buf = MockDmaBuf::new(4096).unwrap();
    buf.fill(0xFF);
    assert!(buf.as_slice().iter().all(|&b| b == 0xFF));
}

#[test]
fn test_mock_dma_buf_copy() {
    let mut buf = MockDmaBuf::new(4096).unwrap();
    let data = [1u8, 2, 3, 4, 5];
    buf.copy_from_slice(&data);
    assert_eq!(&buf.as_slice()[..5], &data);
}

#[test]
fn test_mock_dma_buf_zero_size_fails() {
    let result = MockDmaBuf::new(0);
    assert!(result.is_err());
}

#[test]
fn test_mock_dma_buf_aligned() {
    let buf = MockDmaBuf::new_aligned(1000, 512).unwrap();
    assert_eq!(buf.len(), 1024);
    assert_eq!(buf.len() % 512, 0);
}

#[test]
fn test_mock_dma_buf_slice_access() {
    let mut buf = MockDmaBuf::new(4096).unwrap();
    buf.as_mut_slice()[0] = 42;
    buf.as_mut_slice()[4095] = 99;
    assert_eq!(buf.as_slice()[0], 42);
    assert_eq!(buf.as_slice()[4095], 99);
}

#[test]
fn mock_alignment_constant() {
    assert_eq!(MOCK_DMA_ALIGNMENT, 4096);
}

#[test]
fn test_alignment_constant() {
    assert_eq!(SPDK_DMA_ALIGNMENT, 4096);
    assert!(SPDK_DMA_ALIGNMENT.is_power_of_two());
}

#[test]
fn test_simd_level_display() {
    assert_eq!(SimdLevel::Avx2.to_string(), "AVX2 (256-bit)");
    assert_eq!(SimdLevel::Avx512.to_string(), "AVX-512 (512-bit)");
}

#[test]
fn test_spdk_info() {
    let info = SpdkInfo::current();
    assert_eq!(info.dma_alignment, 4096);
}

#[test]
fn test_availability_checks() {
    let _spdk = is_spdk_available();
    let _isal = is_isal_available();
}

#[test]
fn dma_buf_fill_zero_and_copy() {
    let mut buf = DmaBuf::new(16).unwrap();
    buf.fill(7);
    assert!(buf.as_slice().iter().all(|&b| b == 7));
    buf.copy_from_slice(&[1, 2, 3]);
    assert_eq!(&buf.as_slice()[..4], &[1, 2, 3, 7]);
    buf.zero();
    assert!(buf.is_zeroed());
    assert!(buf.as_slice().iter().all(|&b| b == 0));
}

#[test]
fn dma_buf_split_at() {
    let buf = DmaBuf::from_vec(vec![1, 2, 3, 4, 5]);
    let (a, b) = buf.split_at(2);
    assert_eq!(a, &[1, 2]);
    assert_eq!(b, &[3, 4, 5]);
}

#[test]
fn dma_buf_pool_reuses_buffers() {
    let mut pool = DmaBufPool::new(4096, 2, 4).unwrap();
    assert_eq!(pool.available(), 2);
    assert_eq!(pool.buffer_size(), 4096);
    let a = pool.get().unwrap();
    assert_eq!(a.len(), 4096);
    assert_eq!(pool.available(), 1);
    pool.put(a);
    assert_eq!(pool.available(), 2);
}

#[test]
fn dma_buf_aligned_size_rounds_up() {
    let buf = DmaBuf::new_aligned(5000, 4096).unwrap();
    assert_eq!(buf.len(), 8192);
    assert!(DmaBuf::new_aligned(0, 4096).is_err());
}
