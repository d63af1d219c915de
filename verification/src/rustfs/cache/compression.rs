//! Cache compression: LZ4, with a fallback to storing data uncompressed.

use vstd::prelude::*;

use crate::error::{Error, Result};

verus! {

// =============================================================================
// LZ4 block codec
// =============================================================================

/// The bytes `lz4::block::compress` produces for `data` in high-compression
/// mode at `level`, with the 4-byte size prefix.
pub uninterp spec fn lz4_compressed(data: Seq<u8>, level: i32) -> Seq<u8>;

/// What `lz4::block::decompress` returns for `data` with the size read
/// from the 4-byte prefix (`None` for an error).
pub uninterp spec fn lz4_decompressed(data: Seq<u8>) -> Option<Seq<u8>>;

/// Largest input LZ4 compresses (`LZ4_MAX_INPUT_SIZE`).
pub const LZ4_MAX_INPUT: usize = 0x7E000000;

/// Calls `lz4::block::compress(data, Some(HIGHCOMPRESSION(level)), true)`.
/// Claims: a result is the named output for `data` and `level`, and it
/// decompresses (LZ4 is lossless) to `data`; the call succeeds exactly for
/// inputs of at most `LZ4_MAX_INPUT` bytes (the crate refuses longer ones
/// through `LZ4_compressBound`, and the output buffer it allocates always
/// fits the result). As everywhere in this library, memory allocation is
/// taken to succeed: the C library's working state is allocated with
/// `malloc`, whose failure would also make the call fail.
#[verifier::external_body]
fn lz4_compress(data: &[u8], level: i32) -> (r: core::result::Result<Vec<u8>, String>)
    ensures
        r matches Ok(v) ==> v@ == lz4_compressed(data@, level),
        r matches Ok(v) ==> lz4_decompressed(v@) == Some(data@),
        r is Ok <==> data@.len() <= LZ4_MAX_INPUT,
{
    lz4::block::compress(data, Some(lz4::block::CompressionMode::HIGHCOMPRESSION(level)), true).map_err(
        |e| e.to_string(),
    )
}

/// Calls `lz4::block::decompress(data, None)`, which reads the size from
/// the 4-byte prefix. Claims: the result is the named one for `data` (an
/// error is handed back as its message).
#[verifier::external_body]
fn lz4_decompress(data: &[u8]) -> (r: core::result::Result<Vec<u8>, String>)
    ensures
        r is Ok <==> lz4_decompressed(data@) is Some,
        r matches Ok(v) ==> lz4_decompressed(data@) == Some(v@),
{
    lz4::block::decompress(data, None).map_err(|e| e.to_string())
}

// =============================================================================
// Compression Algorithm
// =============================================================================

/// Supported compression algorithms.
#[derive(Debug, Clone, Copy, PartialEq, Eq, Hash, Structural)]
pub enum CompressionAlgorithm {
    /// No compression
    NoCompression,
    /// LZ4 - fast compression
    Lz4,
}

impl CompressionAlgorithm {
    /// Human-readable name.
    pub fn name(&self) -> (r: &'static str)
        ensures
            r@ == match *self {
                CompressionAlgorithm::NoCompression => "none"@,
                CompressionAlgorithm::Lz4 => "lz4"@,
            },
    {
        match self {
            CompressionAlgorithm::NoCompression => "none",
            CompressionAlgorithm::Lz4 => "lz4",
        }
    }

    /// The name, as a string.
    pub fn to_string(&self) -> (r: String)
        ensures
            r@ == match *self {
                CompressionAlgorithm::NoCompression => "none"@,
                CompressionAlgorithm::Lz4 => "lz4"@,
            },
    {
        self.name().to_owned()
    }

    /// All available algorithms.
    pub fn available_algorithms() -> (r: Vec<CompressionAlgorithm>)
        ensures
            r@ == seq![CompressionAlgorithm::NoCompression, CompressionAlgorithm::Lz4],
    {
        let mut v: Vec<CompressionAlgorithm> = Vec::new();
        v.push(CompressionAlgorithm::NoCompression);
        v.push(CompressionAlgorithm::Lz4);
        assert(v@ =~= seq![CompressionAlgorithm::NoCompression, CompressionAlgorithm::Lz4]);
        v
    }
}

impl Default for CompressionAlgorithm {
    fn default() -> (r: Self)
        ensures
            r == CompressionAlgorithm::Lz4,
    {
        CompressionAlgorithm::Lz4
    }
}

// =============================================================================
// Compression Configuration
// =============================================================================

/// Configuration for compression.
#[derive(Debug, Clone, Copy, PartialEq, Eq)]
pub struct CompressionConfig {
    /// Default algorithm to use
    pub default_algorithm: CompressionAlgorithm,
    /// Minimum size to compress (smaller objects are stored uncompressed)
    pub min_size_bytes: u64,
    /// Compression level (algorithm-specific)
    pub level: i32,
    /// Whether to fall back to uncompressed on failure
    pub fallback_on_failure: bool,
}

impl Default for CompressionConfig {
    fn default() -> (r: Self)
        ensures
            r == (CompressionConfig {
                default_algorithm: CompressionAlgorithm::Lz4,
                min_size_bytes: 1024,
                level: 3,
                fallback_on_failure: true,
            }),
    {
        CompressionConfig {
            default_algorithm: CompressionAlgorithm::Lz4,
            min_size_bytes: 1024,
            level: 3,
            fallback_on_failure: true,
        }
    }
}

// =============================================================================
// Compressors
// =============================================================================

/// A compression implementation.
pub trait Compressor {
    /// The algorithm identifier.
    fn algorithm(&self) -> CompressionAlgorithm;

    /// Compresses data.
    fn compress(&self, data: &[u8]) -> Result<Vec<u8>>;

    /// Decompresses data.
    fn decompress(&self, data: &[u8]) -> Result<Vec<u8>>;
}

/// A copy of a byte slice.
fn copy_bytes(data: &[u8]) -> (r: Vec<u8>)
    ensures
        r@ == data@,
{
    let mut v: Vec<u8> = Vec::new();
    let mut i: usize = 0;
    while i < data.len()
        invariant
            0 <= i <= data@.len(),
            v@ == data@.subrange(0, i as int),
        decreases data@.len() - i,
    {
        v.push(data[i]);
        i += 1;
    }
    assert(v@ =~= data@);
    v
}

/// Pass-through compressor (no compression).
#[derive(Debug, Clone, Copy)]
pub struct NoopCompressor;

impl Compressor for NoopCompressor {
    fn algorithm(&self) -> (r: CompressionAlgorithm)
        ensures
            r == CompressionAlgorithm::NoCompression,
    {
        CompressionAlgorithm::NoCompression
    }

    fn compress(&self, data: &[u8]) -> (r: Result<Vec<u8>>)
        ensures
            r matches Ok(v) && v@ == data@,
    {
        Ok(copy_bytes(data))
    }

    fn decompress(&self, data: &[u8]) -> (r: Result<Vec<u8>>)
        ensures
            r matches Ok(v) && v@ == data@,
    {
        Ok(copy_bytes(data))
    }
}

/// LZ4 compressor (high-compression mode at a level).
#[derive(Debug, Clone, Copy)]
pub struct Lz4Compressor {
    level: i32,
}

impl Lz4Compressor {
    /// The compression level.
    pub closed spec fn level_spec(&self) -> i32 {
        self.level
    }

    /// An LZ4 compressor at level 4.
    pub fn new() -> (r: Lz4Compressor)
        ensures
            r.level_spec() == 4,
    {
        Lz4Compressor { level: 4 }
    }

    /// An LZ4 compressor at `level`.
    pub fn with_level(level: i32) -> (r: Lz4Compressor)
        ensures
            r.level_spec() == level,
    {
        Lz4Compressor { level }
    }
}

impl Default for Lz4Compressor {
    fn default() -> (r: Self)
        ensures
            r.level_spec() == 4,
    {
        Lz4Compressor::new()
    }
}

impl Compressor for Lz4Compressor {
    fn algorithm(&self) -> (r: CompressionAlgorithm)
        ensures
            r == CompressionAlgorithm::Lz4,
    {
        CompressionAlgorithm::Lz4
    }

    fn compress(&self, data: &[u8]) -> (r: Result<Vec<u8>>)
        ensures
            r matches Ok(v) ==> v@ == lz4_compressed(data@, self.level_spec()),
            r matches Ok(v) ==> lz4_decompressed(v@) == Some(data@),
            r matches Err(e) ==> (e matches Error::CompressionFailed { algorithm, .. } && algorithm@ == "LZ4"@),
            r is Ok <==> data@.len() <= LZ4_MAX_INPUT,
    {
        match lz4_compress(data, self.level) {
            Ok(v) => Ok(v),
            Err(reason) => Err(Error::CompressionFailed { algorithm: "LZ4".to_owned(), reason }),
        }
    }

    fn decompress(&self, data: &[u8]) -> (r: Result<Vec<u8>>)
        ensures
            r is Ok <==> lz4_decompressed(data@) is Some,
            r matches Ok(v) ==> lz4_decompressed(data@) == Some(v@),
            r matches Err(e) ==> (e matches Error::DecompressionFailed { algorithm, .. } && algorithm@ == "LZ4"@),
    {
        match lz4_decompress(data) {
            Ok(v) => Ok(v),
            Err(reason) => Err(Error::DecompressionFailed { algorithm: "LZ4".to_owned(), reason }),
        }
    }
}

// =============================================================================
// Compression Manager
// =============================================================================

/// What `compress` hands back for `data` under a configuration, given what
/// the chosen compressor produced (`attempt`): the compressed bytes and the
/// algorithm when they are shorter, else the data itself, uncompressed.
pub open spec fn compress_outcome(
    config: CompressionConfig,
    data: Seq<u8>,
    attempt: Option<Seq<u8>>,
) -> (Seq<u8>, CompressionAlgorithm) {
    if data.len() < config.min_size_bytes {
        (data, CompressionAlgorithm::NoCompression)
    } else {
        match attempt {
            Some(c) => if c.len() < data.len() {
                (c, config.default_algorithm)
            } else {
                (data, CompressionAlgorithm::NoCompression)
            },
            None => (data, CompressionAlgorithm::NoCompression),
        }
    }
}

/// What the compressor for `alg` produces for `data`: the data itself for
/// no compression; for LZ4 at `level` its output, or `None` (failure) for
/// inputs longer than LZ4 takes.
pub open spec fn compressor_output(alg: CompressionAlgorithm, level: i32, data: Seq<u8>) -> Option<Seq<u8>> {
    match alg {
        CompressionAlgorithm::NoCompression => Some(data),
        CompressionAlgorithm::Lz4 => if data.len() <= LZ4_MAX_INPUT {
            Some(lz4_compressed(data, level))
        } else {
            None
        },
    }
}

/// Whether `bytes` decompress to `orig` under `alg`: equal bytes for no
/// compression, and LZ4 output of `orig` for LZ4.
pub open spec fn decodes_to(alg: CompressionAlgorithm, bytes: Seq<u8>, orig: Seq<u8>) -> bool {
    match alg {
        CompressionAlgorithm::NoCompression => bytes == orig,
        CompressionAlgorithm::Lz4 => lz4_decompressed(bytes) == Some(orig),
    }
}

/// Compression with the configured algorithm, falling back to storing data
/// uncompressed.
#[derive(Debug, Clone, Copy)]
pub struct CompressionManager {
    config: CompressionConfig,
    noop: NoopCompressor,
    lz4: Lz4Compressor,
}

impl CompressionManager {
    /// The configuration.
    pub closed spec fn config_spec(&self) -> CompressionConfig {
        self.config
    }

    /// The LZ4 level used.
    pub closed spec fn level_spec(&self) -> i32 {
        self.lz4.level_spec()
    }

    /// A manager with the default configuration.
    pub fn new() -> (r: CompressionManager)
        ensures
            r.config_spec() == (CompressionConfig {
                default_algorithm: CompressionAlgorithm::Lz4,
                min_size_bytes: 1024,
                level: 3,
                fallback_on_failure: true,
            }),
            r.level_spec() == 3,
    {
        CompressionManager::with_config(CompressionConfig::default())
    }

    /// A manager with `config`; LZ4 runs at the configured level.
    pub fn with_config(config: CompressionConfig) -> (r: CompressionManager)
        ensures
            r.config_spec() == config,
            r.level_spec() == config.level,
    {
        CompressionManager { lz4: Lz4Compressor::with_level(config.level), noop: NoopCompressor, config }
    }

    /// Compresses with the default algorithm: data smaller than the
    /// minimum size, or that does not shrink, or whose compression fails,
    /// is returned as it is with no algorithm.
    pub fn compress(&self, data: &[u8]) -> (r: (Vec<u8>, CompressionAlgorithm))
        ensures
            (r.0@, r.1) == compress_outcome(
                self.config_spec(),
                data@,
                compressor_output(self.config_spec().default_algorithm, self.level_spec(), data@),
            ),
            decodes_to(r.1, r.0@, data@),
    {
        if (data.len() as u64) < self.config.min_size_bytes {
            let out = copy_bytes(data);
            proof {
                assert((out@, CompressionAlgorithm::NoCompression) == compress_outcome(self.config, data@, None));
            }
            return (out, CompressionAlgorithm::NoCompression);
        }
        let attempt = match self.config.default_algorithm {
            CompressionAlgorithm::NoCompression => self.noop.compress(data),
            CompressionAlgorithm::Lz4 => self.lz4.compress(data),
        };
        match attempt {
            Ok(compressed) => {
                if compressed.len() < data.len() {
                    proof {
                        assert((compressed@, self.config.default_algorithm) == compress_outcome(
                            self.config,
                            data@,
                            Some(compressed@),
                        ));
                        if self.config.default_algorithm == CompressionAlgorithm::Lz4 {
                            assert(compressed@ == lz4_compressed(data@, self.lz4.level_spec()));
                            assert(lz4_decompressed(compressed@) == Some(data@));
                        }
                    }
                    (compressed, self.config.default_algorithm)
                } else {
                    let out = copy_bytes(data);
                    proof {
                        assert((out@, CompressionAlgorithm::NoCompression) == compress_outcome(
                            self.config,
                            data@,
                            Some(compressed@),
                        ));
                    }
                    (out, CompressionAlgorithm::NoCompression)
                }
            },
            Err(_) => {
                let out = copy_bytes(data);
                proof {
                    assert((out@, CompressionAlgorithm::NoCompression) == compress_outcome(self.config, data@, None));
                }
                (out, CompressionAlgorithm::NoCompression)
            },
        }
    }

    /// Compresses with `algorithm`: no compression returns the data as it
    /// is; compressed output that does not shrink is replaced by the data
    /// with no algorithm; a failure falls back to the data when the
    /// configuration says so and is an error otherwise.
    pub fn compress_with(&self, data: &[u8], algorithm: CompressionAlgorithm) -> (r: Result<
        (Vec<u8>, CompressionAlgorithm),
    >)
        ensures
            algorithm == CompressionAlgorithm::NoCompression ==> (r matches Ok((v, a)) && v@ == data@ && a
                == CompressionAlgorithm::NoCompression),
            r matches Ok((v, a)) ==> decodes_to(a, v@, data@),
            r matches Ok((v, a)) ==> (a == CompressionAlgorithm::NoCompression && v@ == data@) || (a == algorithm
                && v@.len() < data@.len()),
            r is Err ==> !self.config_spec().fallback_on_failure,
            r matches Err(e) ==> e is CompressionFailed,
            algorithm == CompressionAlgorithm::Lz4 && data@.len() <= LZ4_MAX_INPUT ==> {
                let c = lz4_compressed(data@, self.level_spec());
                r matches Ok((v, a)) && if c.len() < data@.len() {
                    v@ == c && a == CompressionAlgorithm::Lz4
                } else {
                    v@ == data@ && a == CompressionAlgorithm::NoCompression
                }
            },
            algorithm == CompressionAlgorithm::Lz4 && data@.len() > LZ4_MAX_INPUT ==> if self.config_spec().fallback_on_failure {
                r matches Ok((v, a)) && v@ == data@ && a == CompressionAlgorithm::NoCompression
            } else {
                r is Err
            },
    {
        if algorithm == CompressionAlgorithm::NoCompression {
            return Ok((copy_bytes(data), CompressionAlgorithm::NoCompression));
        }
        match self.lz4.compress(data) {
            Ok(compressed) => {
                if compressed.len() < data.len() {
                    Ok((compressed, algorithm))
                } else {
                    Ok((copy_bytes(data), CompressionAlgorithm::NoCompression))
                }
            },
            Err(e) => {
                if self.config.fallback_on_failure {
                    Ok((copy_bytes(data), CompressionAlgorithm::NoCompression))
                } else {
                    Err(e)
                }
            },
        }
    }

    /// Decompresses data that was compressed with `algorithm`.
    pub fn decompress(&self, data: &[u8], algorithm: CompressionAlgorithm) -> (r: Result<Vec<u8>>)
        ensures
            forall|orig: Seq<u8>| #[trigger] decodes_to(algorithm, data@, orig) ==> (r matches Ok(v) && v@ == orig),
            algorithm == CompressionAlgorithm::NoCompression ==> (r matches Ok(v) && v@ == data@),
            r matches Err(e) ==> e is DecompressionFailed,
    {
        match algorithm {
            CompressionAlgorithm::NoCompression => self.noop.decompress(data),
            CompressionAlgorithm::Lz4 => {
                self.lz4.decompress(data)
            },
        }
    }

    /// The configuration.
    pub fn config(&self) -> (r: &CompressionConfig)
        ensures
            *r == self.config_spec(),
    {
        &self.config
    }
}

impl Default for CompressionManager {
    fn default() -> (r: Self)
        ensures
            r.config_spec() == (CompressionConfig {
                default_algorithm: CompressionAlgorithm::Lz4,
                min_size_bytes: 1024,
                level: 3,
                fallback_on_failure: true,
            }),
    {
        CompressionManager::new()
    }
}

/// Decompressing what `compress` produced gives the data back: whatever
/// `compress` returns, bytes and algorithm, decode to the data (given that
/// a successful compression decodes to its input, as `lz4_compress`
/// states).
pub proof fn law_decompress_inverts_compress(
    m: CompressionManager,
    data: Seq<u8>,
    attempt: Option<Seq<u8>>,
)
    requires
        attempt matches Some(c) ==> decodes_to(m.config_spec().default_algorithm, c, data),
    ensures
        decodes_to(compress_outcome(m.config_spec(), data, attempt).1, compress_outcome(m.config_spec(), data, attempt).0, data),
{
}

} // verus!
