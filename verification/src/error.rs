//! Error type shared by the whole crate.

use vstd::prelude::*;

verus! {

/// Errors reported by the storage engine.
#[derive(Debug, Clone, PartialEq, Eq)]
pub enum Error {
    /// Compression with the named algorithm failed.
    CompressionFailed { algorithm: String, reason: String },
    /// Decompression with the named algorithm failed.
    DecompressionFailed { algorithm: String, reason: String },
    /// An erasure-coding configuration or argument is invalid.
    InvalidEcConfig(String),
    /// Not enough shards survive to rebuild the data.
    InsufficientShards { available: usize, required: usize },
    /// A Galois-field matrix operation failed.
    IsalMatrixError(String),
    /// Encoding parity failed.
    IsalEncodingError(String),
    /// A DMA buffer could not be allocated.
    DmaAllocationFailed { size: usize, reason: String },
    /// A block-device operation was rejected.
    SpdkBdevError(String),
    /// Encoding a stripe failed.
    EcEncodingFailed(String),
    /// The requested stripe does not exist.
    EcStripeNotFound(String),
    /// Destaging a stripe failed.
    EcDestageFailed { volume_id: String, reason: String },
    /// A stripe could not be reconstructed.
    EcReconstructionFailed { stripe_id: u64, reason: String },
    /// Any other internal failure.
    Internal(String),
}

/// Result type of the crate.
pub type Result<T> = core::result::Result<T, Error>;

} // verus!
