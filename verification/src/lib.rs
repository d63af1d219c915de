//! CoucheStor storage core: a three-tier object cache (L1/L2/L3) with
//! monitoring, and the erasure-coding storage path (Reed-Solomon codec,
//! metadata engine, destaging, zoned storage) on top of DMA buffers.

pub mod clock;
pub mod error;
pub mod rustfs;
pub mod spdk;
