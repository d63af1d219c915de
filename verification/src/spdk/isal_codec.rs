//! Reed-Solomon style erasure codec over GF(2^8).

use vstd::prelude::*;
use vstd::slice::SliceAdditionalExecFns;

use super::gf_matrix::{
    invert_matrix, invertible, is_left_inverse, lemma_xor_zero, lemma_xsum_point, lemma_xsum_two_points,
};
use super::{DmaBuf, SimdLevel};
use crate::error::{Error, Result};

verus! {

// =============================================================================
// Configuration
// =============================================================================

/// Matrix construction used for the generator matrix.
#[derive(Debug, Clone, Copy, PartialEq, Eq)]
pub enum MatrixType {
    /// Cauchy matrix - better numerical properties, recommended
    Cauchy,
    /// Vandermonde matrix - classic RS construction
    Vandermonde,
}

impl Default for MatrixType {
    fn default() -> (r: MatrixType)
        ensures
            r == MatrixType::Cauchy,
    {
        MatrixType::Cauchy
    }
}

impl MatrixType {
    /// Display name of the matrix type.
    pub fn to_string(&self) -> (r: String)
        ensures
            r@ == (match *self {
                MatrixType::Cauchy => "Cauchy"@,
                MatrixType::Vandermonde => "Vandermonde"@,
            }),
    {
        match self {
            MatrixType::Cauchy => "Cauchy".to_owned(),
            MatrixType::Vandermonde => "Vandermonde".to_owned(),
        }
    }
}

/// Configuration of the erasure codec.
#[derive(Debug, Clone)]
pub struct IsalCodecConfig {
    /// Number of data shards (k)
    pub data_shards: u8,
    /// Number of parity shards (m)
    pub parity_shards: u8,
    /// Size of each shard in bytes (must be multiple of 32 for SIMD)
    pub shard_size: usize,
    /// Matrix generation algorithm
    pub matrix_type: MatrixType,
    /// Force specific SIMD level (None = auto-detect)
    pub force_simd: Option<SimdLevel>,
}

/// Whether a codec configuration is acceptable.
pub open spec fn codec_config_valid(data_shards: u8, parity_shards: u8, shard_size: usize) -> bool {
    &&& data_shards > 0
    &&& parity_shards > 0
    &&& data_shards + parity_shards <= 255
    &&& shard_size > 0
    &&& shard_size % 32 == 0
}

impl IsalCodecConfig {
    /// A configuration with `data_shards` + `parity_shards` shards of `shard_size` bytes.
    pub fn new(data_shards: u8, parity_shards: u8, shard_size: usize) -> (r: IsalCodecConfig)
        ensures
            r.data_shards == data_shards,
            r.parity_shards == parity_shards,
            r.shard_size == shard_size,
            r.matrix_type == MatrixType::Cauchy,
            r.force_simd is None,
    {
        IsalCodecConfig {
            data_shards,
            parity_shards,
            shard_size,
            matrix_type: MatrixType::Cauchy,
            force_simd: None,
        }
    }

    /// Total number of shards (k + m).
    pub fn total_shards(&self) -> (r: usize)
        ensures
            r == self.data_shards + self.parity_shards,
    {
        self.data_shards as usize + self.parity_shards as usize
    }

    /// Checks the configuration.
    pub fn validate(&self) -> (r: Result<()>)
        ensures
            r is Ok <==> codec_config_valid(self.data_shards, self.parity_shards, self.shard_size),
            r matches Err(e) ==> e is InvalidEcConfig,
    {
        if self.data_shards == 0 {
            return Err(Error::InvalidEcConfig("data_shards must be >= 1".to_owned()));
        }
        if self.parity_shards == 0 {
            return Err(Error::InvalidEcConfig("parity_shards must be >= 1".to_owned()));
        }
        if self.total_shards() > 255 {
            return Err(
                Error::InvalidEcConfig("total shards (k + m) must be <= 255 for GF(2^8)".to_owned()),
            );
        }
        if self.shard_size == 0 {
            return Err(Error::InvalidEcConfig("shard_size must be > 0".to_owned()));
        }
        if self.shard_size % 32 != 0 {
            return Err(Error::InvalidEcConfig("shard_size must be multiple of 32".to_owned()));
        }
        Ok(())
    }
}

impl Default for IsalCodecConfig {
    fn default() -> (r: IsalCodecConfig)
        ensures
            r.data_shards == 4,
            r.parity_shards == 2,
            r.shard_size == 1024 * 1024,
            r.matrix_type == MatrixType::Cauchy,
            r.force_simd is None,
    {
        IsalCodecConfig {
            data_shards: 4,
            parity_shards: 2,
            shard_size: 1024 * 1024,
            matrix_type: MatrixType::Cauchy,
            force_simd: None,
        }
    }
}

// =============================================================================
// GF(2^8) arithmetic
// =============================================================================

/// Multiplication by `x` in GF(2^8) modulo x^8 + x^4 + x^3 + x^2 + 1.
pub open spec fn xtime(a: u8) -> u8 {
    if a & 0x80u8 != 0 {
        ((a << 1u8) ^ 0x1Du8) as u8
    } else {
        (a << 1u8) as u8
    }
}

/// The term that bit `bit` of `b` contributes to a product: `a` if the bit is set.
pub open spec fn gf_term(a: u8, b: u8, bit: u8) -> u8 {
    if b & bit != 0 { a } else { 0u8 }
}

/// Product of `a` and `b` in GF(2^8): the xor of `x^i * a` over the set bits `i` of `b`.
pub open spec fn gf_mul_spec(a: u8, b: u8) -> u8 {
    let a1 = xtime(a);
    let a2 = xtime(a1);
    let a3 = xtime(a2);
    let a4 = xtime(a3);
    let a5 = xtime(a4);
    let a6 = xtime(a5);
    let a7 = xtime(a6);
    gf_term(a, b, 1u8) ^ gf_term(a1, b, 2u8) ^ gf_term(a2, b, 4u8) ^ gf_term(a3, b, 8u8)
        ^ gf_term(a4, b, 16u8) ^ gf_term(a5, b, 32u8) ^ gf_term(a6, b, 64u8) ^ gf_term(
        a7,
        b,
        128u8,
    )
}

proof fn lemma_gf_mul_step(a: u8, b: u8)
    ensures
        gf_mul_spec(a, b) == gf_term(a, b, 1u8) ^ gf_mul_spec(xtime(a), b >> 1u8),
        gf_mul_spec(a, 0u8) == 0u8,
        b != 0u8 ==> (b >> 1u8) < b,
{
    assert(gf_mul_spec(a, b) == gf_term(a, b, 1u8) ^ gf_mul_spec(xtime(a), b >> 1u8))
        by (bit_vector);
    assert(gf_mul_spec(a, 0u8) == 0u8) by (bit_vector);
    assert(b != 0u8 ==> (b >> 1u8) < b) by (bit_vector);
}

/// Multiplication in GF(2^8) is commutative.
#[verifier::rlimit(100)]
pub proof fn lemma_gf_mul_commutative(a: u8, b: u8)
    ensures
        gf_mul_spec(a, b) == gf_mul_spec(b, a),
{
    assert(gf_mul_spec(a, b) == gf_mul_spec(b, a)) by (bit_vector);
}

/// One is the identity and zero annihilates in GF(2^8).
pub proof fn lemma_gf_mul_identity_zero(a: u8)
    ensures
        gf_mul_spec(a, 1u8) == a,
        gf_mul_spec(1u8, a) == a,
        gf_mul_spec(a, 0u8) == 0u8,
        gf_mul_spec(0u8, a) == 0u8,
{
    assert(gf_mul_spec(a, 1u8) == a) by (bit_vector);
    assert(gf_mul_spec(1u8, a) == a) by (bit_vector);
    assert(gf_mul_spec(a, 0u8) == 0u8) by (bit_vector);
    assert(gf_mul_spec(0u8, a) == 0u8) by (bit_vector);
}

/// Multiplication in GF(2^8) distributes over addition (xor).
pub proof fn lemma_gf_mul_distributes(a: u8, b: u8, c: u8)
    ensures
        gf_mul_spec(a, b ^ c) == gf_mul_spec(a, b) ^ gf_mul_spec(a, c),
{
    assert(gf_mul_spec(a, b ^ c) == gf_mul_spec(a, b) ^ gf_mul_spec(a, c)) by (bit_vector);
}

/// Multiplying a product by `x` is multiplying one factor by `x`.
#[verifier::rlimit(100)]
proof fn lemma_gf_xtime_product(a: u8, b: u8)
    ensures
        xtime(gf_mul_spec(a, b)) == gf_mul_spec(a, xtime(b)),
{
    assert(xtime(gf_mul_spec(a, b)) == gf_mul_spec(a, xtime(b))) by (bit_vector);
}

/// Multiplication in GF(2^8) is associative.
pub proof fn lemma_gf_mul_associative(a: u8, b: u8, c: u8)
    ensures
        gf_mul_spec(gf_mul_spec(a, b), c) == gf_mul_spec(a, gf_mul_spec(b, c)),
    decreases c,
{
    lemma_gf_mul_step(gf_mul_spec(a, b), c);
    lemma_gf_mul_step(b, c);
    if c != 0u8 {
        let c1 = c >> 1u8;
        lemma_gf_mul_associative(a, xtime(b), c1);
        lemma_gf_xtime_product(a, b);
        lemma_gf_mul_distributes(a, gf_term(b, c, 1u8), gf_mul_spec(xtime(b), c1));
        lemma_gf_mul_identity_zero(a);
        assert(gf_mul_spec(a, gf_term(b, c, 1u8)) == gf_term(gf_mul_spec(a, b), c, 1u8));
    } else {
        lemma_gf_mul_identity_zero(gf_mul_spec(a, b));
        lemma_gf_mul_identity_zero(a);
        lemma_gf_mul_identity_zero(b);
    }
}

/// GF(2^8) multiplication by shift-and-add.
pub fn gf_mul_slow(a: u8, b: u8) -> (result: u8)
    ensures
        result == gf_mul_spec(a, b),
{
    let mut result = 0u8;
    let mut a = a;
    let mut b = b;
    let ghost a0 = a;
    let ghost b0 = b;
    assert(0u8 ^ gf_mul_spec(a, b) == gf_mul_spec(a, b)) by (bit_vector);

    while b != 0
        invariant
            result ^ gf_mul_spec(a, b) == gf_mul_spec(a0, b0),
        decreases b,
    {
        proof {
            lemma_gf_mul_step(a, b);
        }
        let ghost old_a = a;
        let ghost old_b = b;
        let ghost old_r = result;
        if b & 1 != 0 {
            result ^= a;
        } else {
            assert(old_r ^ 0u8 == old_r) by (bit_vector);
        }
        let high_bit = a & 0x80;
        a = a << 1;
        if high_bit != 0 {
            a ^= 0x1D;
        }
        b = b >> 1;
        assert(a == xtime(old_a)) by (bit_vector)
            requires
                high_bit == old_a & 0x80u8,
                a == (if high_bit != 0 { ((old_a << 1u8) ^ 0x1Du8) as u8 } else { (old_a << 1u8) as u8 }),
        ;
        assert(result == old_r ^ gf_term(old_a, old_b, 1u8));
        assert((old_r ^ gf_term(old_a, old_b, 1u8)) ^ gf_mul_spec(a, b) == old_r ^ (gf_term(old_a, old_b, 1u8) ^ gf_mul_spec(a, b))) by (bit_vector);
    }
    proof {
        lemma_gf_mul_step(a, b);
        assert(result ^ 0u8 == result) by (bit_vector);
    }
    result
}

/// GF(2^8) multiplication with the zero shortcut.
pub fn gf_mul_byte(a: u8, b: u8) -> (result: u8)
    ensures
        result == gf_mul_spec(a, b),
{
    if a == 0 || b == 0 {
        proof {
            lemma_gf_mul_identity_zero(a);
            lemma_gf_mul_identity_zero(b);
        }
        0
    } else {
        gf_mul_slow(a, b)
    }
}

// =============================================================================
// Codec
// =============================================================================

/// Coefficient at (`row`, `col`) of the generator matrix for `k` data shards:
/// identity rows for the data shards, then `(parity_row + col + 1) mod 256`.
pub open spec fn matrix_entry(k: int, row: int, col: int) -> u8 {
    if row < k {
        if row == col {
            1u8
        } else {
            0u8
        }
    } else {
        ((row - k + col + 1) % 256) as u8
    }
}

/// Row-major generator matrix of `k + m` rows and `k` columns.
pub open spec fn generator_matrix(k: nat, m: nat) -> Seq<u8> {
    Seq::new((k + m) * k, |idx: int| matrix_entry(k as int, idx / (k as int), idx % (k as int)))
}

/// Byte `i` of the combination of the first `upto` data shards, each
/// multiplied by its coefficient in row `row` of `matrix`, summed with xor.
pub open spec fn gf_combination(
    shards: Seq<Seq<u8>>,
    matrix: Seq<u8>,
    k: int,
    row: int,
    i: int,
    upto: nat,
) -> u8
    decreases upto,
{
    if upto == 0 {
        0u8
    } else {
        let d = upto - 1;
        gf_combination(shards, matrix, k, row, i, d as nat) ^ gf_mul_spec(
            shards[d][i],
            matrix[row * k + d],
        )
    }
}

/// `a^254` in GF(2^8), the inverse of a nonzero `a` (`a^255 = 1`).
#[verifier::opaque]
pub open spec fn gf_inv_spec(a: u8) -> u8 {
    let a2 = gf_mul_spec(a, a);
    let a4 = gf_mul_spec(a2, a2);
    let a8 = gf_mul_spec(a4, a4);
    let a16 = gf_mul_spec(a8, a8);
    let a32 = gf_mul_spec(a16, a16);
    let a64 = gf_mul_spec(a32, a32);
    let a128 = gf_mul_spec(a64, a64);
    let p1 = gf_mul_spec(a2, a4);
    let p2 = gf_mul_spec(p1, a8);
    let p3 = gf_mul_spec(p2, a16);
    let p4 = gf_mul_spec(p3, a32);
    let p5 = gf_mul_spec(p4, a64);
    gf_mul_spec(p5, a128)
}

/// Every nonzero element of GF(2^8) has an inverse.
#[verifier::rlimit(100)]
pub proof fn lemma_gf_inverse_exists(a: u8)
    requires
        a != 0u8,
    ensures
        gf_mul_spec(a, gf_inv_spec(a)) == 1u8,
{
    reveal(gf_inv_spec);
    let a2 = gf_mul_spec(a, a);
    let a4 = gf_mul_spec(a2, a2);
    let a8 = gf_mul_spec(a4, a4);
    let a16 = gf_mul_spec(a8, a8);
    let a32 = gf_mul_spec(a16, a16);
    let a64 = gf_mul_spec(a32, a32);
    let a128 = gf_mul_spec(a64, a64);
    let p1 = gf_mul_spec(a2, a4);
    let p2 = gf_mul_spec(p1, a8);
    let p3 = gf_mul_spec(p2, a16);
    let p4 = gf_mul_spec(p3, a32);
    let p5 = gf_mul_spec(p4, a64);
    let p6 = gf_mul_spec(p5, a128);
    assert(gf_mul_spec(a, p6) == 1u8) by (bit_vector)
        requires
            a != 0u8,
            a2 == gf_mul_spec(a, a),
            a4 == gf_mul_spec(a2, a2),
            a8 == gf_mul_spec(a4, a4),
            a16 == gf_mul_spec(a8, a8),
            a32 == gf_mul_spec(a16, a16),
            a64 == gf_mul_spec(a32, a32),
            a128 == gf_mul_spec(a64, a64),
            p1 == gf_mul_spec(a2, a4),
            p2 == gf_mul_spec(p1, a8),
            p3 == gf_mul_spec(p2, a16),
            p4 == gf_mul_spec(p3, a32),
            p5 == gf_mul_spec(p4, a64),
            p6 == gf_mul_spec(p5, a128),
    ;
}

/// Sum (xor) of `f(0) .. f(n - 1)` in GF(2^8).
pub open spec fn xsum(f: spec_fn(int) -> u8, n: nat) -> u8
    decreases n,
{
    if n == 0 {
        0u8
    } else {
        xsum(f, (n - 1) as nat) ^ f(n - 1)
    }
}

/// 1 on the diagonal, 0 elsewhere.
pub open spec fn delta(j: int, l: int) -> u8 {
    if j == l {
        1u8
    } else {
        0u8
    }
}

pub(crate) proof fn lemma_xsum_ext(f: spec_fn(int) -> u8, g: spec_fn(int) -> u8, n: nat)
    requires
        forall|t: int| 0 <= t < n ==> #[trigger] f(t) == g(t),
    ensures
        xsum(f, n) == xsum(g, n),
    decreases n,
{
    if n > 0 {
        lemma_xsum_ext(f, g, (n - 1) as nat);
    }
}

pub(crate) proof fn lemma_xsum_zero(f: spec_fn(int) -> u8, n: nat)
    requires
        forall|t: int| 0 <= t < n ==> #[trigger] f(t) == 0u8,
    ensures
        xsum(f, n) == 0u8,
    decreases n,
{
    if n > 0 {
        lemma_xsum_zero(f, (n - 1) as nat);
        assert(0u8 ^ 0u8 == 0u8) by (bit_vector);
    }
}

pub(crate) proof fn lemma_xsum_add(f: spec_fn(int) -> u8, g: spec_fn(int) -> u8, n: nat)
    ensures
        xsum(|t: int| f(t) ^ g(t), n) == xsum(f, n) ^ xsum(g, n),
    decreases n,
{
    if n > 0 {
        lemma_xsum_add(f, g, (n - 1) as nat);
        let a = xsum(f, (n - 1) as nat);
        let b = xsum(g, (n - 1) as nat);
        let c = f(n - 1);
        let d = g(n - 1);
        assert((a ^ b) ^ (c ^ d) == (a ^ c) ^ (b ^ d)) by (bit_vector);
    } else {
        assert(0u8 ^ 0u8 == 0u8) by (bit_vector);
    }
}

/// A factor moves into a sum.
pub(crate) proof fn lemma_xsum_scale(a: u8, f: spec_fn(int) -> u8, n: nat)
    ensures
        gf_mul_spec(a, xsum(f, n)) == xsum(|t: int| gf_mul_spec(a, f(t)), n),
    decreases n,
{
    if n > 0 {
        lemma_xsum_scale(a, f, (n - 1) as nat);
        lemma_gf_mul_distributes(a, xsum(f, (n - 1) as nat), f(n - 1));
    } else {
        lemma_gf_mul_identity_zero(a);
    }
}

/// A factor on the right moves into a sum.
pub(crate) proof fn lemma_xsum_scale_right(f: spec_fn(int) -> u8, b: u8, n: nat)
    ensures
        gf_mul_spec(xsum(f, n), b) == xsum(|t: int| gf_mul_spec(f(t), b), n),
{
    lemma_gf_mul_commutative(xsum(f, n), b);
    lemma_xsum_scale(b, f, n);
    assert forall|t: int| 0 <= t < n implies gf_mul_spec(b, #[trigger] f(t)) == gf_mul_spec(f(t), b) by {
        lemma_gf_mul_commutative(b, f(t));
    }
    lemma_xsum_ext(|t: int| gf_mul_spec(b, f(t)), |t: int| gf_mul_spec(f(t), b), n);
}

/// Two sums can be exchanged.
proof fn lemma_xsum_swap(f: spec_fn(int, int) -> u8, c: nat, l: nat)
    ensures
        xsum(|i: int| xsum(|j: int| f(i, j), l), c) == xsum(|j: int| xsum(|i: int| f(i, j), c), l),
    decreases c,
{
    if c == 0 {
        lemma_xsum_zero(|j: int| xsum(|i: int| f(i, j), 0), l);
    } else {
        let c1 = (c - 1) as nat;
        lemma_xsum_swap(f, c1, l);
        lemma_xsum_add(|j: int| xsum(|i: int| f(i, j), c1), |j: int| f(c1 as int, j), l);
        lemma_xsum_ext(
            |t: int| (|j: int| xsum(|i: int| f(i, j), c1))(t) ^ (|j: int| f(c1 as int, j))(t),
            |j: int| xsum(|i: int| f(i, j), c),
            l,
        );
    }
}

/// Summing against the diagonal picks one entry.
pub(crate) proof fn lemma_xsum_delta(x: spec_fn(int) -> u8, j: int, n: nat)
    requires
        0 <= j,
    ensures
        xsum(|l: int| gf_mul_spec(delta(j, l), x(l)), n) == if j < n { x(j) } else { 0u8 },
    decreases n,
{
    if n > 0 {
        lemma_xsum_delta(x, j, (n - 1) as nat);
        lemma_gf_mul_identity_zero(x(n - 1));
        let p = xsum(|l: int| gf_mul_spec(delta(j, l), x(l)), (n - 1) as nat);
        let v = x(n - 1);
        assert(p ^ 0u8 == p) by (bit_vector);
        assert(0u8 ^ v == v) by (bit_vector);
    }
}

/// `P (Q v) == (P Q) v` for a row `p`, a matrix `q` and a vector `v`.
proof fn lemma_xsum_compose(p: spec_fn(int) -> u8, q: spec_fn(int, int) -> u8, v: spec_fn(int) -> u8, a: nat, b: nat)
    ensures
        xsum(|i: int| gf_mul_spec(p(i), xsum(|j: int| gf_mul_spec(q(i, j), v(j)), b)), a) == xsum(
            |j: int| gf_mul_spec(xsum(|i: int| gf_mul_spec(p(i), q(i, j)), a), v(j)),
            b,
        ),
{
    let f = |i: int, j: int| gf_mul_spec(gf_mul_spec(p(i), q(i, j)), v(j));
    assert forall|i: int| 0 <= i < a implies gf_mul_spec(#[trigger] p(i), xsum(|j: int| gf_mul_spec(q(i, j), v(j)), b))
        == xsum(|j: int| f(i, j), b) by {
        lemma_xsum_scale(p(i), |j: int| gf_mul_spec(q(i, j), v(j)), b);
        assert forall|j: int| 0 <= j < b implies gf_mul_spec(p(i), gf_mul_spec(#[trigger] q(i, j), v(j)))
            == f(i, j) by {
            lemma_gf_mul_associative(p(i), q(i, j), v(j));
        }
        lemma_xsum_ext(|t: int| gf_mul_spec(p(i), (|j: int| gf_mul_spec(q(i, j), v(j)))(t)), |j: int| f(i, j), b);
    }
    lemma_xsum_ext(
        |i: int| gf_mul_spec(p(i), xsum(|j: int| gf_mul_spec(q(i, j), v(j)), b)),
        |i: int| xsum(|j: int| f(i, j), b),
        a,
    );
    lemma_xsum_swap(f, a, b);
    assert forall|j: int| 0 <= j < b implies xsum(|i: int| f(i, j), a) == gf_mul_spec(
        xsum(|i: int| gf_mul_spec(p(i), q(i, j)), a),
        #[trigger] v(j),
    ) by {
        lemma_xsum_scale_right(|i: int| gf_mul_spec(p(i), q(i, j)), v(j), a);
        lemma_xsum_ext(|i: int| f(i, j), |t: int| gf_mul_spec((|i: int| gf_mul_spec(p(i), q(i, j)))(t), v(j)), a);
    }
    lemma_xsum_ext(
        |j: int| xsum(|i: int| f(i, j), a),
        |j: int| gf_mul_spec(xsum(|i: int| gf_mul_spec(p(i), q(i, j)), a), v(j)),
        b,
    );
}

/// With `B D == I`, applying `B` to `D x` gives back `x`.
pub proof fn lemma_left_inverse_recovers(
    bm: spec_fn(int, int) -> u8,
    dm: spec_fn(int, int) -> u8,
    x: spec_fn(int) -> u8,
    k: nat,
    j: int,
)
    requires
        0 <= j < k,
        forall|r: int, c: int|
            0 <= r < k && 0 <= c < k ==> xsum(|t: int| gf_mul_spec(bm(r, t), dm(t, c)), k) == #[trigger] delta(r, c),
    ensures
        xsum(|c: int| gf_mul_spec(bm(j, c), xsum(|l: int| gf_mul_spec(dm(c, l), x(l)), k)), k) == x(j),
{
    lemma_xsum_compose(|c: int| bm(j, c), dm, x, k, k);
    assert forall|l: int| 0 <= l < k implies gf_mul_spec(
        xsum(|i: int| gf_mul_spec((|c: int| bm(j, c))(i), dm(i, l)), k),
        #[trigger] x(l),
    ) == gf_mul_spec(delta(j, l), x(l)) by {
        assert(xsum(|t: int| gf_mul_spec(bm(j, t), dm(t, l)), k) == delta(j, l));
        lemma_xsum_ext(|i: int| gf_mul_spec((|c: int| bm(j, c))(i), dm(i, l)), |t: int| gf_mul_spec(bm(j, t), dm(t, l)), k);
    }
    lemma_xsum_ext(
        |l: int| gf_mul_spec(xsum(|i: int| gf_mul_spec((|c: int| bm(j, c))(i), dm(i, l)), k), x(l)),
        |l: int| gf_mul_spec(delta(j, l), x(l)),
        k,
    );
    lemma_xsum_delta(x, j, k);
    lemma_xsum_ext(
        |i: int| gf_mul_spec((|c: int| bm(j, c))(i), xsum(|l: int| gf_mul_spec(dm(i, l), x(l)), k)),
        |c: int| gf_mul_spec(bm(j, c), xsum(|l: int| gf_mul_spec(dm(c, l), x(l)), k)),
        k,
    );
}

/// Whether `orig` is a codeword for `k` data and `m` parity shards of
/// `size` bytes: `k + m` shards of that size whose parity shards are the
/// generator matrix's combinations of the data shards.
pub open spec fn is_codeword(orig: Seq<Seq<u8>>, k: nat, m: nat, size: nat) -> bool {
    &&& orig.len() == k + m
    &&& forall|j: int| 0 <= j < orig.len() ==> (#[trigger] orig[j]).len() == size
    &&& forall|p: int, i: int|
        0 <= p < m && 0 <= i < size ==> #[trigger] orig[k + p][i] == gf_combination(
            orig,
            generator_matrix(k, m),
            k as int,
            k + p,
            i,
            k,
        )
}

/// Whether there are `n` shards of `size` bytes each.
pub open spec fn shards_sized(shards: Seq<DmaBuf>, n: nat, size: nat) -> bool {
    &&& shards.len() == n
    &&& forall|j: int| 0 <= j < n ==> (#[trigger] shards[j])@.len() == size
}

/// Byte `i` of data shard `j` rebuilt from the survivors `surv` with the
/// inverse `b` (row-major, `k` columns) of their generator rows.
pub open spec fn recovered_byte(b: Seq<u8>, surv: Seq<usize>, shards: Seq<Seq<u8>>, k: nat, j: int, i: int) -> u8 {
    xsum(|c: int| gf_mul_spec(b[j * k + c], shards[surv[c] as int][i]), k)
}

/// The first `k` shard indices below `u` that are not erased, in order.
pub open spec fn first_survivors(erasures: Seq<usize>, u: nat, k: nat) -> Seq<usize>
    decreases u,
{
    if u == 0 {
        Seq::empty()
    } else {
        let prev = first_survivors(erasures, (u - 1) as nat, k);
        if prev.len() < k && !erasures.contains((u - 1) as usize) {
            prev.push((u - 1) as usize)
        } else {
            prev
        }
    }
}

/// The erased indices below `u`.
pub open spec fn erased_below(erasures: Seq<usize>, u: nat) -> Set<usize> {
    Set::new(|x: usize| (x as int) < u && erasures.contains(x))
}

/// The `k` by `k` matrix made of the rows `surv` of `matrix`, row-major.
pub open spec fn survivor_matrix(matrix: Seq<u8>, surv: Seq<usize>, k: nat) -> Seq<u8> {
    Seq::new(k * k, |i: int| matrix[surv[i / (k as int)] * k + i % (k as int)])
}

/// The survivors are distinct indices below `u` that are not erased, and
/// there are `k` of them unless fewer than `k` indices below `u` are left.
proof fn lemma_first_survivors(erasures: Seq<usize>, u: nat, k: nat)
    requires
        u <= usize::MAX,
    ensures
        first_survivors(erasures, u, k).len() <= k,
        forall|c: int|
            0 <= c < first_survivors(erasures, u, k).len() ==> (#[trigger] first_survivors(erasures, u, k)[c]) < u
                && !erasures.contains(first_survivors(erasures, u, k)[c]),
        erased_below(erasures, u).finite(),
        first_survivors(erasures, u, k).len() == if u - erased_below(erasures, u).len() < k {
            u - erased_below(erasures, u).len()
        } else {
            k as int
        },
    decreases u,
{
    if u == 0 {
        assert(erased_below(erasures, u) =~= Set::empty());
    } else {
        let u1 = (u - 1) as nat;
        lemma_first_survivors(erasures, u1, k);
        let x = u1 as usize;
        if erasures.contains(x) {
            assert(erased_below(erasures, u) =~= erased_below(erasures, u1).insert(x));
        } else {
            assert(erased_below(erasures, u) =~= erased_below(erasures, u1));
        }
    }
}

/// At most `erasures.len()` indices are erased.
proof fn lemma_erased_count(erasures: Seq<usize>, u: nat)
    ensures
        erased_below(erasures, u).len() <= erasures.len(),
{
    broadcast use vstd::seq_lib::seq_to_set_is_finite;

    erasures.lemma_cardinality_of_set();
    assert(erased_below(erasures, u).subset_of(erasures.to_set()));
    vstd::set_lib::lemma_len_subset(erased_below(erasures, u), erasures.to_set());
}

/// Position `c` of the survivors when data shard `j` alone is lost: the data
/// shards before `j`, then those after it.
pub open spec fn skip_index(j: int, c: int) -> int {
    if c < j {
        c
    } else {
        c + 1
    }
}

/// With data shard `j` the only one lost, the survivors are the other data
/// shards in order, then (once `k - 1` are taken) one parity shard.
proof fn lemma_survivors_one_data_loss(erasures: Seq<usize>, u: nat, k: nat, j: int)
    requires
        0 <= j < k,
        u <= usize::MAX,
        forall|x: usize| (x as int) < k ==> (erasures.contains(x) <==> x as int == j),
    ensures
        first_survivors(erasures, u, k).len() <= k,
        forall|c: int|
            0 <= c < first_survivors(erasures, u, k).len() && c < k - 1 ==> #[trigger] first_survivors(
                erasures,
                u,
                k,
            )[c] as int == skip_index(j, c),
        first_survivors(erasures, u, k).len() == k ==> k <= first_survivors(erasures, u, k)[k - 1] < u,
        u <= k ==> first_survivors(erasures, u, k).len() == if u <= j { u as int } else { u - 1 },
        u >= k ==> first_survivors(erasures, u, k).len() >= k - 1,
    decreases u,
{
    if u > 0 {
        let u1 = (u - 1) as nat;
        lemma_survivors_one_data_loss(erasures, u1, k, j);
        let prev = first_survivors(erasures, u1, k);
        let x = u1 as usize;
        if u1 < k {
            assert(erasures.contains(x) <==> u1 == j);
        }
        if prev.len() < k && !erasures.contains(x) {
            assert(first_survivors(erasures, u, k) == prev.push(x));
        }
    }
}

/// `(c k + l) / k == c` and `(c k + l) % k == l`.
proof fn lemma_row_major(c: int, l: int, k: int)
    requires
        0 <= c,
        0 <= l < k,
    ensures
        (c * k + l) / k == c,
        (c * k + l) % k == l,
{
    assert((c * k + l) / k == c && (c * k + l) % k == l) by (nonlinear_arith)
        requires
            0 <= c,
            0 <= l < k,
    ;
}

/// Entry (`r`, `c`) of the inverse of the survivor rows when data shard `j`
/// alone is lost and parity shard `q` stands in for it.
pub open spec fn one_loss_inverse(k: int, j: int, q: int, r: int, c: int) -> u8 {
    let ginv = gf_inv_spec(matrix_entry(k, q, j));
    if r != j {
        delta(if r < j { r } else { r - 1 }, c)
    } else if c < k - 1 {
        gf_mul_spec(ginv, matrix_entry(k, q, skip_index(j, c)))
    } else {
        ginv
    }
}

/// The survivors for a loss of data shard `j` stood in for by parity shard `q`.
pub open spec fn one_loss_survivors(s: Seq<usize>, k: int, j: int, q: int) -> bool {
    &&& s.len() == k
    &&& 0 <= j < k
    &&& k <= q
    &&& q + 1 <= 255
    &&& s[k - 1] as int == q
    &&& forall|c: int| 0 <= c < k - 1 ==> #[trigger] s[c] as int == skip_index(j, c)
}

/// A row other than `j` of the product is a unit row.
proof fn lemma_one_loss_other_row(s: Seq<usize>, k: int, j: int, q: int, r: int, col: int)
    requires
        one_loss_survivors(s, k, j, q),
        0 <= r < k,
        r != j,
        0 <= col < k,
    ensures
        xsum(|t: int| gf_mul_spec(one_loss_inverse(k, j, q, r, t), matrix_entry(k, s[t] as int, col)), k as nat)
            == delta(r, col),
{
    let rr = if r < j { r } else { r - 1 };
    let w = |t: int| matrix_entry(k, s[t] as int, col);
    lemma_xsum_delta(w, rr, k as nat);
    lemma_xsum_ext(
        |t: int| gf_mul_spec(one_loss_inverse(k, j, q, r, t), matrix_entry(k, s[t] as int, col)),
        |t: int| gf_mul_spec(delta(rr, t), w(t)),
        k as nat,
    );
    assert(s[rr] as int == skip_index(j, rr));
}

/// Entry `j` of row `j` of the product is one.
proof fn lemma_one_loss_lost_row_diagonal(s: Seq<usize>, k: int, j: int, q: int)
    requires
        one_loss_survivors(s, k, j, q),
    ensures
        xsum(|t: int| gf_mul_spec(one_loss_inverse(k, j, q, j, t), matrix_entry(k, s[t] as int, j)), k as nat)
            == 1u8,
{
    let gj = matrix_entry(k, q, j);
    assert(gj != 0u8) by {
        assert(1 <= q - k + j + 1 <= 254);
    }
    let ginv = gf_inv_spec(gj);
    lemma_gf_inverse_exists(gj);
    lemma_gf_mul_commutative(gj, ginv);
    let f = |t: int| gf_mul_spec(one_loss_inverse(k, j, q, j, t), matrix_entry(k, s[t] as int, j));
    let z = |t: int| 0u8;
    lemma_xsum_zero(z, k as nat);
    assert(f(k - 1) == 1u8);
    assert forall|t: int| 0 <= t < k && t != k - 1 implies #[trigger] z(t) == f(t) by {
        assert(s[t] as int == skip_index(j, t));
        lemma_gf_mul_identity_zero(one_loss_inverse(k, j, q, j, t));
    }
    lemma_xsum_point(z, f, k - 1, k as nat);
    lemma_xor_zero(0u8);
    lemma_xor_zero(f(k - 1));
}

/// Entry `col != j` of row `j` of the product is zero.
proof fn lemma_one_loss_lost_row_off(s: Seq<usize>, k: int, j: int, q: int, col: int)
    requires
        one_loss_survivors(s, k, j, q),
        0 <= col < k,
        col != j,
    ensures
        xsum(|t: int| gf_mul_spec(one_loss_inverse(k, j, q, j, t), matrix_entry(k, s[t] as int, col)), k as nat)
            == 0u8,
{
    let ginv = gf_inv_spec(matrix_entry(k, q, j));
    let f = |t: int| gf_mul_spec(one_loss_inverse(k, j, q, j, t), matrix_entry(k, s[t] as int, col));
    let z = |t: int| 0u8;
    lemma_xsum_zero(z, k as nat);
    let t0 = if col < j { col } else { col - 1 };
    assert(s[t0] as int == skip_index(j, t0));
    let y = gf_mul_spec(ginv, matrix_entry(k, q, col));
    lemma_gf_mul_identity_zero(y);
    assert(f(t0) == y);
    assert(f(k - 1) == y);
    assert forall|t: int| 0 <= t < k && t != t0 && t != k - 1 implies #[trigger] f(t) == z(t) by {
        assert(s[t] as int == skip_index(j, t));
        lemma_gf_mul_identity_zero(one_loss_inverse(k, j, q, j, t));
    }
    lemma_xor_zero(y);
    lemma_xor_zero(0u8);
    lemma_xsum_two_points(f, z, t0, k - 1, k as nat);
}

/// Entry (`c`, `l`) of the survivor rows is the generator's entry in row
/// `s[c]`.
proof fn lemma_survivor_entries(k: nat, m: nat, s: Seq<usize>)
    requires
        0 < k,
        s.len() == k,
        forall|c: int| 0 <= c < k ==> #[trigger] s[c] < k + m,
    ensures
        forall|c: int, l: int|
            0 <= c < k && 0 <= l < k ==> #[trigger] survivor_matrix(generator_matrix(k, m), s, k)[c * k + l]
                == matrix_entry(k as int, s[c] as int, l),
{
    let ki = k as int;
    let n = (k + m) as int;
    assert forall|c: int, l: int| 0 <= c < k && 0 <= l < k implies #[trigger] survivor_matrix(
        generator_matrix(k, m),
        s,
        k,
    )[c * k + l] == matrix_entry(ki, s[c] as int, l) by {
        lemma_row_major(c, l, ki);
        assert(c * ki + l < ki * ki) by (nonlinear_arith)
            requires
                0 <= c < ki,
                0 <= l < ki,
        ;
        let u = s[c] as int;
        lemma_row_major(u, l, ki);
        assert(u * ki + l < n * ki) by (nonlinear_arith)
            requires
                0 <= u < n,
                0 <= l < ki,
        ;
    }
}

/// Losing one data shard, and any parity shards, to at most `m` losses
/// leaves survivor rows that have an inverse: such a loss is always rebuilt.
pub proof fn lemma_one_data_loss_invertible(k: nat, m: nat, erasures: Seq<usize>, j: int)
    requires
        0 < k,
        k + m <= 255,
        erasures.len() <= m,
        0 <= j < k,
        forall|x: usize| (x as int) < k ==> (erasures.contains(x) <==> x as int == j),
    ensures
        invertible(survivor_matrix(generator_matrix(k, m), first_survivors(erasures, k + m, k), k), k),
{
    let n = k + m;
    let s = first_survivors(erasures, n, k);
    let d = survivor_matrix(generator_matrix(k, m), s, k);
    let ki = k as int;
    lemma_first_survivors(erasures, n, k);
    lemma_erased_count(erasures, n);
    lemma_survivors_one_data_loss(erasures, n, k, j);
    assert(s.len() == k);
    let q = s[ki - 1] as int;
    assert(one_loss_survivors(s, ki, j, q));
    lemma_survivor_entries(k, m, s);
    let x = Seq::new(k * k, |i: int| one_loss_inverse(ki, j, q, i / ki, i % ki));
    assert forall|r: int, col: int| 0 <= r < k && 0 <= col < k implies xsum(
        |t: int| gf_mul_spec(x[r * ki + t], d[t * ki + col]),
        k,
    ) == #[trigger] delta(r, col) by {
        assert forall|t: int| 0 <= t < k implies #[trigger] gf_mul_spec(x[r * ki + t], d[t * ki + col])
            == gf_mul_spec(one_loss_inverse(ki, j, q, r, t), matrix_entry(ki, s[t] as int, col)) by {
            lemma_row_major(r, t, ki);
            assert(r * ki + t < ki * ki) by (nonlinear_arith)
                requires
                    0 <= r < ki,
                    0 <= t < ki,
            ;
        }
        lemma_xsum_ext(
            |t: int| gf_mul_spec(x[r * ki + t], d[t * ki + col]),
            |t: int| gf_mul_spec(one_loss_inverse(ki, j, q, r, t), matrix_entry(ki, s[t] as int, col)),
            k,
        );
        if r != j {
            lemma_one_loss_other_row(s, ki, j, q, r, col);
        } else if col == j {
            lemma_one_loss_lost_row_diagonal(s, ki, j, q);
        } else {
            lemma_one_loss_lost_row_off(s, ki, j, q, col);
        }
    }
    assert(is_left_inverse(x, d, k));
}

/// `r * k + c`, an index into a `k` by `k` matrix.
fn mat_idx(r: usize, c: usize, k: usize) -> (i: usize)
    requires
        r < k,
        c < k,
        k <= 255,
    ensures
        i == r * k + c,
        i < k * k,
{
    assert(r * k + c < k * k && k * k <= 65025) by (nonlinear_arith)
        requires
            r < k,
            c < k,
            k <= 255,
    ;
    r * k + c
}

/// Whether `j` is one of `erasures`.
fn contains_index(erasures: &[usize], j: usize) -> (r: bool)
    ensures
        r == erasures@.contains(j),
{
    let mut t: usize = 0;
    while t < erasures.len()
        invariant
            0 <= t <= erasures@.len(),
            forall|q: int| 0 <= q < t ==> erasures@[q] != j,
        decreases erasures@.len() - t,
    {
        if erasures[t] == j {
            assert(erasures@[t as int] == j);
            return true;
        }
        t += 1;
    }
    false
}

/// Data shard `j` rebuilt from the survivors: byte `i` is
/// `recovered_byte(b, surv, shards, k, j, i)`.
fn recover_data_bytes(b: &Vec<u8>, surv: &Vec<usize>, shards: &[DmaBuf], j: usize, k: usize, size: usize) -> (r: Vec<u8>)
    requires
        b@.len() == k * k,
        surv@.len() == k,
        j < k,
        k <= 255,
        forall|c: int| 0 <= c < k ==> (#[trigger] surv@[c]) < shards@.len() && shards@[surv@[c] as int]@.len() == size,
    ensures
        r@.len() == size,
        forall|i: int| 0 <= i < size ==> #[trigger] r@[i] == recovered_byte(b@, surv@, bufs_view(shards@), k as nat, j as int, i),
{
    let ghost sv = bufs_view(shards@);
    let mut out: Vec<u8> = Vec::new();
    let mut i: usize = 0;
    while i < size
        invariant
            b@.len() == k * k,
            surv@.len() == k,
            j < k,
            k <= 255,
            sv == bufs_view(shards@),
            forall|c: int| 0 <= c < k ==> (#[trigger] surv@[c]) < shards@.len() && shards@[surv@[c] as int]@.len() == size,
            0 <= i <= size,
            out@.len() == i,
            forall|q: int| 0 <= q < i ==> #[trigger] out@[q] == recovered_byte(b@, surv@, sv, k as nat, j as int, q),
        decreases size - i,
    {
        let mut acc: u8 = 0;
        let mut c: usize = 0;
        while c < k
            invariant
                b@.len() == k * k,
                surv@.len() == k,
                j < k,
                k <= 255,
                i < size,
                sv == bufs_view(shards@),
                forall|c2: int| 0 <= c2 < k ==> (#[trigger] surv@[c2]) < shards@.len() && shards@[surv@[c2] as int]@.len() == size,
                0 <= c <= k,
                acc == xsum(|t: int| gf_mul_spec(b@[j * k + t], sv[surv@[t] as int][i as int]), c as nat),
            decreases k - c,
        {
            let s = surv[c];
            let x = gf_mul_byte(b[mat_idx(j, c, k)], shards[s].as_slice()[i]);
            acc = acc ^ x;
            c += 1;
        }
        out.push(acc);
        i += 1;
    }
    out
}

/// Message of an erasure index past the last shard (`format!`).
#[verifier::external_body]
fn erasure_index_message(index: usize, max: usize) -> String {
    format!("erasure index {} out of range (max {})", index, max)
}

/// Message of a wrong number of data or parity shards (`format!`).
#[verifier::external_body]
fn kind_count_message(kind: &str, expected: usize, got: usize) -> String {
    format!("expected {} {} shards, got {}", expected, kind, got)
}

/// Message of a data or parity shard of the wrong size (`format!`).
#[verifier::external_body]
fn kind_size_message(kind: &str, index: usize, size: usize, expected: usize) -> String {
    format!("{} shard {} has size {}, expected {}", kind, index, size, expected)
}

/// Message of a wrong number of shards (`format!`).
#[verifier::external_body]
fn shard_count_message(expected: usize, got: usize) -> String {
    format!("expected {} shards, got {}", expected, got)
}

/// Message of a shard of the wrong size (`format!`).
#[verifier::external_body]
fn shard_size_message(index: usize, size: usize, expected: usize) -> String {
    format!("shard {} has {} bytes, expected {}", index, size, expected)
}

/// A combination reads byte `i` of the first `upto` shards only.
pub proof fn lemma_comb_ext(s1: Seq<Seq<u8>>, s2: Seq<Seq<u8>>, matrix: Seq<u8>, k: int, row: int, i: int, upto: nat)
    requires
        forall|d: int| 0 <= d < upto ==> #[trigger] s1[d][i] == s2[d][i],
    ensures
        gf_combination(s1, matrix, k, row, i, upto) == gf_combination(s2, matrix, k, row, i, upto),
    decreases upto,
{
    if upto > 0 {
        lemma_comb_ext(s1, s2, matrix, k, row, i, (upto - 1) as nat);
        assert(s1[upto - 1][i] == s2[upto - 1][i]);
    }
}

/// A combination is a sum of coefficient-times-byte terms.
proof fn lemma_comb_xsum(sh: Seq<Seq<u8>>, matrix: Seq<u8>, k: int, row: int, i: int, upto: nat)
    ensures
        gf_combination(sh, matrix, k, row, i, upto) == xsum(|l: int| gf_mul_spec(matrix[row * k + l], sh[l][i]), upto),
    decreases upto,
{
    if upto > 0 {
        lemma_comb_xsum(sh, matrix, k, row, i, (upto - 1) as nat);
        lemma_gf_mul_commutative(sh[upto - 1][i], matrix[row * k + upto - 1]);
    }
}

/// The data rows of the generator matrix are the identity.
proof fn lemma_generator_data_row(k: nat, m: nat, u: int, l: int)
    requires
        0 <= u < k,
        0 <= l < k,
    ensures
        generator_matrix(k, m)[u * k + l] == delta(u, l),
{
    assert(0 <= u * k + l < (k + m) * k) by (nonlinear_arith)
        requires
            0 <= u < k,
            0 <= l < k,
    ;
    vstd::arithmetic::div_mod::lemma_fundamental_div_mod_converse(u * k + l, k as int, u, l);
}

/// The byte contents of a sequence of buffers.
pub open spec fn bufs_view(bufs: Seq<DmaBuf>) -> Seq<Seq<u8>> {
    Seq::new(bufs.len(), |i: int| bufs[i]@)
}

/// Whether the shard arrays have the shape a codec with `k` data shards,
/// `m` parity shards and shards of `size` bytes expects.
pub open spec fn shards_match(data: Seq<DmaBuf>, parity: Seq<DmaBuf>, k: int, m: int, size: int) -> bool {
    &&& data.len() == k
    &&& parity.len() == m
    &&& forall|d: int| 0 <= d < k ==> #[trigger] data[d]@.len() == size
    &&& forall|p: int| 0 <= p < m ==> #[trigger] parity[p]@.len() == size
}

/// Erasure codec over GF(2^8) with a systematic generator matrix.
#[derive(Debug)]
pub struct IsalCodec {
    config: IsalCodecConfig,
    encode_matrix: Vec<u8>,
    encode_tables: Vec<u8>,
    simd_level: SimdLevel,
}

impl IsalCodec {
    /// Number of data shards.
    pub closed spec fn k(&self) -> nat {
        self.config.data_shards as nat
    }

    /// Number of parity shards.
    pub closed spec fn m(&self) -> nat {
        self.config.parity_shards as nat
    }

    /// Shard size in bytes.
    pub closed spec fn shard_len(&self) -> nat {
        self.config.shard_size as nat
    }

    /// The generator matrix.
    pub closed spec fn matrix(&self) -> Seq<u8> {
        self.encode_matrix@
    }

    /// The configuration the codec was built from.
    pub closed spec fn config_spec(&self) -> IsalCodecConfig {
        self.config
    }

    /// A well-formed codec has a valid shape and the generator matrix.
    pub proof fn lemma_wf_shape(&self)
        requires
            self.wf(),
        ensures
            codec_config_valid(self.k() as u8, self.m() as u8, self.shard_len() as usize),
            self.matrix() == generator_matrix(self.k(), self.m()),
            self.k() == self.config_spec().data_shards,
            self.m() == self.config_spec().parity_shards,
            self.shard_len() == self.config_spec().shard_size,
    {
    }

    /// The codec's configuration is valid and its matrix is the generator matrix.
    pub closed spec fn wf(&self) -> bool {
        &&& codec_config_valid(
            self.config.data_shards,
            self.config.parity_shards,
            self.config.shard_size,
        )
        &&& self.encode_matrix@ == generator_matrix(self.k(), self.m())
    }

    fn build_matrix(k: usize, m: usize) -> (v: Vec<u8>)
        requires
            0 < k <= 255,
            m <= 255,
        ensures
            v@ == generator_matrix(k as nat, m as nat),
    {
        let n = k + m;
        let mut v: Vec<u8> = Vec::new();
        let mut row: usize = 0;
        while row < n
            invariant
                0 < k <= 255,
                m <= 255,
                n == k + m,
                0 <= row <= n,
                v@.len() == row * k,
                forall|idx: int|
                    0 <= idx < v@.len() ==> #[trigger] v@[idx] == matrix_entry(
                        k as int,
                        idx / (k as int),
                        idx % (k as int),
                    ),
            decreases n - row,
        {
            let mut col: usize = 0;
            while col < k
                invariant
                    0 < k <= 255,
                    m <= 255,
                    n == k + m,
                    0 <= row < n,
                    0 <= col <= k,
                    v@.len() == row * k + col,
                    forall|idx: int|
                        0 <= idx < v@.len() ==> #[trigger] v@[idx] == matrix_entry(
                            k as int,
                            idx / (k as int),
                            idx % (k as int),
                        ),
                decreases k - col,
            {
                let entry: u8 = if row < k {
                    if row == col {
                        1
                    } else {
                        0
                    }
                } else {
                    ((row - k + col + 1) % 256) as u8
                };
                proof {
                    vstd::arithmetic::div_mod::lemma_fundamental_div_mod_converse(
                        (row * k + col) as int,
                        k as int,
                        row as int,
                        col as int,
                    );
                }
                v.push(entry);
                col += 1;
            }
            assert((row + 1) * k == row * k + k) by (nonlinear_arith);
            row += 1;
        }
        assert(v@ =~= generator_matrix(k as nat, m as nat));
        v
    }

    /// Creates a codec for a valid configuration.
    pub fn new(config: IsalCodecConfig) -> (r: Result<IsalCodec>)
        ensures
            match r {
                Ok(c) => {
                    &&& codec_config_valid(
                        config.data_shards,
                        config.parity_shards,
                        config.shard_size,
                    )
                    &&& c.wf()
                    &&& c.config_spec() == config
                    &&& c.k() == config.data_shards
                    &&& c.m() == config.parity_shards
                    &&& c.shard_len() == config.shard_size
                },
                Err(e) => !codec_config_valid(
                    config.data_shards,
                    config.parity_shards,
                    config.shard_size,
                ) && e is InvalidEcConfig,
            },
    {
        config.validate()?;
        let k = config.data_shards as usize;
        let m = config.parity_shards as usize;
        let encode_matrix = Self::build_matrix(k, m);
        assert(32 * k * m <= 32 * 255 * 255) by (nonlinear_arith)
            requires
                k <= 255,
                m <= 255,
        ;
        let encode_tables = vec![0u8; 32 * k * m];
        IsalCodec::new_with(config, encode_matrix, encode_tables)
    }

    fn new_with(config: IsalCodecConfig, encode_matrix: Vec<u8>, encode_tables: Vec<u8>) -> (r: Result<IsalCodec>)
        requires
            codec_config_valid(config.data_shards, config.parity_shards, config.shard_size),
            encode_matrix@ == generator_matrix(config.data_shards as nat, config.parity_shards as nat),
        ensures
            r matches Ok(c) && c.wf() && c.config_spec() == config,
    {
        Ok(IsalCodec { config, encode_matrix, encode_tables, simd_level: SimdLevel::Scalar })
    }

    /// The codec's configuration.
    pub fn config(&self) -> (r: &IsalCodecConfig)
        ensures
            *r == self.config_spec(),
    {
        &self.config
    }

    /// SIMD level used for encoding.
    pub fn simd_level(&self) -> (r: SimdLevel)
        ensures
            r == SimdLevel::Scalar,
    {
        SimdLevel::Scalar
    }

    /// Number of data shards.
    pub fn data_shards(&self) -> (r: usize)
        ensures
            r == self.k(),
    {
        self.config.data_shards as usize
    }

    /// Number of parity shards.
    pub fn parity_shards(&self) -> (r: usize)
        ensures
            r == self.m(),
    {
        self.config.parity_shards as usize
    }

    /// Total number of shards.
    pub fn total_shards(&self) -> (r: usize)
        ensures
            r == self.k() + self.m(),
    {
        self.config.total_shards()
    }

    /// Shard size in bytes.
    pub fn shard_size(&self) -> (r: usize)
        ensures
            r == self.shard_len(),
    {
        self.config.shard_size
    }

    /// The generator matrix, row-major.
    pub fn encode_matrix(&self) -> (r: &[u8])
        ensures
            r@ == self.matrix(),
    {
        self.encode_matrix.as_slice()
    }

    /// Checks that `data` holds k shards and `parity` m shards, all of the shard size.
    fn validate_shards(&self, data: &[DmaBuf], parity: &[DmaBuf]) -> (r: Result<()>)
        ensures
            r is Ok <==> shards_match(
                data@,
                parity@,
                self.k() as int,
                self.m() as int,
                self.shard_len() as int,
            ),
            r matches Err(e) ==> e is InvalidEcConfig,
    {
        let k = self.data_shards();
        let m = self.parity_shards();
        let expected_size = self.shard_size();
        if data.len() != k {
            return Err(Error::InvalidEcConfig(kind_count_message("data", k, data.len())));
        }
        if parity.len() != m {
            return Err(Error::InvalidEcConfig(kind_count_message("parity", m, parity.len())));
        }
        let mut i: usize = 0;
        while i < k
            invariant
                k == data@.len(),
                k == self.k(),
                m == self.m(),
                m == parity@.len(),
                expected_size == self.shard_len(),
                0 <= i <= k,
                forall|d: int| 0 <= d < i ==> #[trigger] data@[d]@.len() == expected_size,
            decreases k - i,
        {
            if data[i].len() != expected_size {
                assert(!shards_match(data@, parity@, k as int, m as int, expected_size as int)) by {
                    assert(data@[i as int]@.len() != expected_size);
                }
                return Err(Error::InvalidEcConfig(kind_size_message("data", i, data[i].len(), expected_size)));
            }
            i += 1;
        }
        let mut j: usize = 0;
        while j < m
            invariant
                m == parity@.len(),
                k == data@.len(),
                k == self.k(),
                m == self.m(),
                expected_size == self.shard_len(),
                forall|d: int| 0 <= d < k ==> #[trigger] data@[d]@.len() == expected_size,
                0 <= j <= m,
                forall|p: int| 0 <= p < j ==> #[trigger] parity@[p]@.len() == expected_size,
            decreases m - j,
        {
            if parity[j].len() != expected_size {
                assert(!shards_match(data@, parity@, k as int, m as int, expected_size as int)) by {
                    assert(parity@[j as int]@.len() != expected_size);
                }
                return Err(Error::InvalidEcConfig(kind_size_message("parity", j, parity[j].len(), expected_size)));
            }
            j += 1;
        }
        Ok(())
    }

    /// Computes parity: byte `i` of parity shard `p` is the xor over the data
    /// shards `d` of `data[d][i] * matrix[k + p][d]` in GF(2^8).
    pub fn encode(&self, data: &[DmaBuf], parity: &mut [DmaBuf]) -> (r: Result<()>)
        requires
            self.wf(),
        ensures
            r is Ok <==> shards_match(
                data@,
                old(parity)@,
                self.k() as int,
                self.m() as int,
                self.shard_len() as int,
            ),
            r is Err ==> final(parity)@ == old(parity)@,
            r matches Err(e) ==> e is InvalidEcConfig,
            r is Ok ==> {
                &&& final(parity)@.len() == self.m()
                &&& forall|p: int, i: int|
                    0 <= p < self.m() && 0 <= i < self.shard_len() ==> #[trigger] final(parity)@[p]@[i] == gf_combination(
                        bufs_view(data@),
                        self.matrix(),
                        self.k() as int,
                        self.k() + p,
                        i,
                        self.k(),
                    )
                &&& forall|p: int|
                    0 <= p < self.m() ==> #[trigger] final(parity)@[p]@.len() == self.shard_len()
            },
    {
        self.validate_shards(data, parity)?;
        let k = self.data_shards();
        let m = self.parity_shards();
        let shard_size = self.shard_size();
        let ghost dv = bufs_view(data@);
        let mut p: usize = 0;
        while p < m
            invariant
                self.wf(),
                k == self.k(),
                m == self.m(),
                shard_size == self.shard_len(),
                dv == bufs_view(data@),
                shards_match(data@, old(parity)@, k as int, m as int, shard_size as int),
                parity@.len() == m,
                0 <= p <= m,
                forall|q: int| 0 <= q < m ==> #[trigger] parity@[q]@.len() == shard_size,
                forall|q: int, i: int|
                    0 <= q < p && 0 <= i < shard_size ==> #[trigger] parity@[q]@[i]
                        == gf_combination(dv, self.matrix(), k as int, k + q, i, k as nat),
            decreases m - p,
        {
            let mut bytes: Vec<u8> = Vec::new();
            let mut i: usize = 0;
            while i < shard_size
                invariant
                    self.wf(),
                    k == self.k(),
                    m == self.m(),
                    p < m,
                    shard_size == self.shard_len(),
                    dv == bufs_view(data@),
                    shards_match(data@, old(parity)@, k as int, m as int, shard_size as int),
                    0 <= i <= shard_size,
                    bytes@.len() == i,
                    forall|j: int|
                        0 <= j < i ==> #[trigger] bytes@[j] == gf_combination(
                            dv,
                            self.matrix(),
                            k as int,
                            k + p,
                            j,
                            k as nat,
                        ),
                decreases shard_size - i,
            {
                let mut acc: u8 = 0;
                let mut d: usize = 0;
                while d < k
                    invariant
                        self.wf(),
                        k == self.k(),
                        m == self.m(),
                        p < m,
                        i < shard_size,
                        shard_size == self.shard_len(),
                        dv == bufs_view(data@),
                        shards_match(data@, old(parity)@, k as int, m as int, shard_size as int),
                        0 <= d <= k,
                        acc == gf_combination(dv, self.matrix(), k as int, k + p, i as int, d as nat),
                    decreases k - d,
                {
                    proof {
                        assert((k + m) * k <= 510 * 255) by (nonlinear_arith)
                            requires
                                k <= 255,
                                m <= 255,
                        ;
                        assert((k + p) * k + d < (k + m) * k) by (nonlinear_arith)
                            requires
                                d < k,
                                p < m,
                        ;
                        assert(((k + p) * k + d) / (k as int) == k + p && ((k + p) * k + d) % (k as int) == d) by {
                            vstd::arithmetic::div_mod::lemma_fundamental_div_mod_converse(
                                (k + p) * k + d,
                                k as int,
                                (k + p) as int,
                                d as int,
                            );
                        }
                    }
                    let coeff = self.encode_matrix[(k + p) * k + d];
                    let byte = data[d].as_slice()[i];
                    acc = acc ^ gf_mul_byte(byte, coeff);
                    d += 1;
                }
                bytes.push(acc);
                i += 1;
            }
            parity.set(p, DmaBuf::from_vec(bytes));
            p += 1;
        }
        Ok(())
    }

    /// Each shard of a codeword is its generator row applied to the data shards.
    proof fn lemma_codeword_row(&self, orig: Seq<Seq<u8>>, u: int, i: int)
        requires
            self.wf(),
            self.is_codeword(orig),
            0 <= u < self.k() + self.m(),
            0 <= i < self.shard_len(),
        ensures
            orig[u][i] == xsum(|l: int| gf_mul_spec(self.matrix()[u * self.k() + l], orig[l][i]), self.k()),
    {
        self.lemma_wf_shape();
        let k = self.k();
        if u < k {
            assert forall|l: int| 0 <= l < k implies gf_mul_spec(self.matrix()[u * k + l], #[trigger] orig[l][i])
                == gf_mul_spec(delta(u, l), orig[l][i]) by {
                lemma_generator_data_row(k, self.m(), u, l);
            }
            lemma_xsum_ext(
                |l: int| gf_mul_spec(self.matrix()[u * k + l], orig[l][i]),
                |l: int| gf_mul_spec(delta(u, l), orig[l][i]),
                k,
            );
            lemma_xsum_delta(|l: int| orig[l][i], u, k);
            lemma_xsum_ext(
                |l: int| gf_mul_spec(delta(u, l), orig[l][i]),
                |l: int| gf_mul_spec(delta(u, l), (|l: int| orig[l][i])(l)),
                k,
            );
        } else {
            assert(orig[k + (u - k)][i] == gf_combination(orig, self.matrix(), k as int, k + (u - k), i, k));
            lemma_comb_xsum(orig, self.matrix(), k as int, u, i, k);
        }
    }

    /// What `reconstruct` leaves is the codeword the survivors came from.
    proof fn lemma_reconstructed(
        &self,
        orig: Seq<Seq<u8>>,
        old_v: Seq<Seq<u8>>,
        data_v: Seq<Seq<u8>>,
        fin: Seq<Seq<u8>>,
        erasures: Seq<usize>,
        any_data: bool,
        b: Seq<u8>,
        d: Seq<u8>,
        surv: Seq<usize>,
    )
        requires
            self.wf(),
            self.is_codeword(orig),
            old_v.len() == self.k() + self.m(),
            data_v.len() == self.k() + self.m(),
            fin.len() == self.k() + self.m(),
            forall|j: int| 0 <= j < old_v.len() && !erasures.contains(j as usize) ==> #[trigger] old_v[j] == orig[j],
            forall|q: int| 0 <= q < data_v.len() ==> (#[trigger] data_v[q]).len() == self.shard_len(),
            forall|q: int| 0 <= q < fin.len() ==> (#[trigger] fin[q]).len() == self.shard_len(),
            forall|q: int|
                0 <= q < data_v.len() && !(q < self.k() && erasures.contains(q as usize)) ==> #[trigger] data_v[q] == old_v[q],
            !any_data ==> forall|q: int| 0 <= q < self.k() ==> !erasures.contains(#[trigger] (q as usize)),
            any_data ==> {
                &&& b.len() == self.k() * self.k()
                &&& d.len() == self.k() * self.k()
                &&& surv.len() == self.k()
                &&& forall|c: int|
                    0 <= c < self.k() ==> (#[trigger] surv[c]) < self.k() + self.m() && !erasures.contains(surv[c])
                &&& forall|c: int, l: int|
                    0 <= c < self.k() && 0 <= l < self.k() ==> #[trigger] d[c * self.k() + l] == self.matrix()[surv[c]
                        * self.k() + l]
                &&& forall|r: int, c: int|
                    0 <= r < self.k() && 0 <= c < self.k() ==> xsum(
                        |t: int| gf_mul_spec(b[r * self.k() + t], d[t * self.k() + c]),
                        self.k(),
                    ) == #[trigger] delta(r, c)
                &&& forall|q: int, i: int|
                    0 <= q < self.k() && erasures.contains(q as usize) && 0 <= i < self.shard_len() ==> #[trigger] data_v[q][i]
                        == recovered_byte(b, surv, old_v, self.k(), q, i)
            },
            forall|q: int|
                0 <= q < fin.len() && !(self.k() <= q && erasures.contains(q as usize)) ==> #[trigger] fin[q] == data_v[q],
            forall|q: int, i: int|
                self.k() <= q < fin.len() && erasures.contains(q as usize) && 0 <= i < self.shard_len() ==> #[trigger] fin[q][i]
                    == gf_combination(data_v, self.matrix(), self.k() as int, q, i, self.k()),
        ensures
            fin == orig,
    {
        self.lemma_wf_shape();
        let k = self.k();
        let n = self.k() + self.m();
        let sz = self.shard_len();
        // The data shards come back.
        assert forall|q: int| 0 <= q < k implies #[trigger] data_v[q] == orig[q] by {
            if erasures.contains(q as usize) {
                assert(any_data);
                assert forall|i: int| 0 <= i < sz implies #[trigger] data_v[q][i] == orig[q][i] by {
                    let x = |l: int| orig[l][i];
                    let bm = |r: int, t: int| b[r * k + t];
                    let dm = |t: int, c: int| d[t * k + c];
                    assert forall|c: int| 0 <= c < k implies gf_mul_spec(b[q * k + c], old_v[#[trigger] surv[c] as int][i])
                        == gf_mul_spec(bm(q, c), xsum(|l: int| gf_mul_spec(dm(c, l), x(l)), k)) by {
                        let u = surv[c] as int;
                        assert(old_v[u] == orig[u]);
                        self.lemma_codeword_row(orig, u, i);
                        lemma_xsum_ext(
                            |l: int| gf_mul_spec(self.matrix()[u * k + l], orig[l][i]),
                            |l: int| gf_mul_spec(dm(c, l), x(l)),
                            k,
                        );
                    }
                    lemma_xsum_ext(
                        |c: int| gf_mul_spec(b[q * k + c], old_v[surv[c] as int][i]),
                        |c: int| gf_mul_spec(bm(q, c), xsum(|l: int| gf_mul_spec(dm(c, l), x(l)), k)),
                        k,
                    );
                    assert forall|r: int, c: int| 0 <= r < k && 0 <= c < k implies xsum(
                        |t: int| gf_mul_spec(bm(r, t), dm(t, c)),
                        k,
                    ) == #[trigger] delta(r, c) by {
                        lemma_xsum_ext(
                            |t: int| gf_mul_spec(bm(r, t), dm(t, c)),
                            |t: int| gf_mul_spec(b[r * k + t], d[t * k + c]),
                            k,
                        );
                    }
                    lemma_left_inverse_recovers(bm, dm, x, k, q);
                }
                assert(data_v[q] =~= orig[q]);
            } else {
                assert(data_v[q] == old_v[q]);
            }
        }
        assert forall|q: int| 0 <= q < n implies #[trigger] fin[q] == orig[q] by {
            if k <= q && erasures.contains(q as usize) {
                assert forall|i: int| 0 <= i < sz implies #[trigger] fin[q][i] == orig[q][i] by {
                    assert forall|dd: int| 0 <= dd < k implies #[trigger] data_v[dd][i] == orig[dd][i] by {
                        assert(data_v[dd] == orig[dd]);
                    }
                    lemma_comb_ext(data_v, orig, self.matrix(), k as int, q, i, k);
                    assert(orig[k + (q - k)][i] == gf_combination(orig, self.matrix(), k as int, k + (q - k), i, k));
                }
                assert(fin[q] =~= orig[q]);
            } else if q < k {
                assert(fin[q] == data_v[q]);
            } else {
                assert(fin[q] == data_v[q]);
                assert(data_v[q] == old_v[q]);
            }
        }
        assert(fin =~= orig);
    }

    /// The generator rows of the survivors `surv`, as a `k` by `k` matrix.
    fn decode_rows(&self, surv: &Vec<usize>) -> (d: Vec<u8>)
        requires
            self.wf(),
            surv@.len() == self.k(),
            forall|c: int| 0 <= c < self.k() ==> (#[trigger] surv@[c]) < self.k() + self.m(),
        ensures
            d@.len() == self.k() * self.k(),
            forall|c: int, l: int|
                0 <= c < self.k() && 0 <= l < self.k() ==> #[trigger] d@[c * self.k() + l] == self.matrix()[surv@[c] * self.k() + l],
            d@ == survivor_matrix(self.matrix(), surv@, self.k()),
    {
        proof {
            self.lemma_wf_shape();
        }
        let k = self.data_shards();
        let n = self.total_shards();
        let mut d: Vec<u8> = Vec::new();
        let mut c: usize = 0;
        while c < k
            invariant
                self.wf(),
                k == self.k(),
                n == self.k() + self.m(),
                0 < k <= 255,
                n <= 510,
                surv@.len() == k,
                forall|c2: int| 0 <= c2 < k ==> (#[trigger] surv@[c2]) < n,
                self.matrix().len() == n * k,
                0 <= c <= k,
                d@.len() == c * k,
                forall|c2: int, l: int|
                    0 <= c2 < c && 0 <= l < k ==> #[trigger] d@[c2 * k + l] == self.matrix()[surv@[c2] * k + l],
            decreases k - c,
        {
            let u = surv[c];
            let mut l: usize = 0;
            while l < k
                invariant
                    self.wf(),
                    k == self.k(),
                    n == self.k() + self.m(),
                    0 < k <= 255,
                    n <= 510,
                    u < n,
                    u == surv@[c as int],
                    c < k,
                    surv@.len() == k,
                    self.matrix().len() == n * k,
                    0 <= l <= k,
                    d@.len() == c * k + l,
                    forall|c2: int, l2: int|
                        0 <= c2 < c && 0 <= l2 < k ==> #[trigger] d@[c2 * k + l2] == self.matrix()[surv@[c2] * k + l2],
                    forall|l2: int| 0 <= l2 < l ==> #[trigger] d@[c * k + l2] == self.matrix()[u * k + l2],
                decreases k - l,
            {
                assert(u * k + l < n * k && n * k <= 130050) by (nonlinear_arith)
                    requires
                        u < n,
                        l < k,
                        n <= 510,
                        k <= 255,
                ;
                let x = self.encode_matrix[u * k + l];
                let ghost before = d@;
                d.push(x);
                proof {
                    assert forall|c2: int, l2: int| 0 <= c2 < c && 0 <= l2 < k implies #[trigger] d@[c2 * k + l2]
                        == self.matrix()[surv@[c2] * k + l2] by {
                        assert(c2 * k + l2 < c * k) by (nonlinear_arith)
                            requires
                                c2 < c,
                                l2 < k,
                        ;
                        assert(d@[c2 * k + l2] == before[c2 * k + l2]);
                    }
                }
                l += 1;
            }
            proof {
                assert((c + 1) * k == c * k + k) by (nonlinear_arith);
            }
            c += 1;
        }
        proof {
            let kk = k as int;
            assert forall|i: int| 0 <= i < kk * kk implies #[trigger] d@[i] == survivor_matrix(
                self.matrix(),
                surv@,
                self.k(),
            )[i] by {
                let c = i / kk;
                let l = i % kk;
                assert(0 <= c < kk && 0 <= l < kk && i == c * kk + l) by (nonlinear_arith)
                    requires
                        0 <= i < kk * kk,
                        kk > 0,
                        c == i / kk,
                        l == i % kk,
                ;
            }
            assert(d@ =~= survivor_matrix(self.matrix(), surv@, self.k()));
        }
        d
    }

    /// Parity row `row`: byte `i` combines byte `i` of the data shards with
    /// the row's coefficients.
    fn parity_bytes(&self, shards: &[DmaBuf], row: usize) -> (r: Vec<u8>)
        requires
            self.wf(),
            shards@.len() >= self.k(),
            forall|d: int| 0 <= d < self.k() ==> (#[trigger] shards@[d])@.len() == self.shard_len(),
            self.k() <= row < self.k() + self.m(),
        ensures
            r@.len() == self.shard_len(),
            forall|i: int|
                0 <= i < self.shard_len() ==> #[trigger] r@[i] == gf_combination(
                    bufs_view(shards@),
                    self.matrix(),
                    self.k() as int,
                    row as int,
                    i,
                    self.k(),
                ),
    {
        proof {
            self.lemma_wf_shape();
        }
        let k = self.data_shards();
        let n = self.total_shards();
        let size = self.shard_size();
        let ghost sv = bufs_view(shards@);
        let mut out: Vec<u8> = Vec::new();
        let mut i: usize = 0;
        while i < size
            invariant
                self.wf(),
                k == self.k(),
                n == self.k() + self.m(),
                0 < k <= 255,
                n <= 510,
                k <= row < n,
                size == self.shard_len(),
                self.matrix().len() == n * k,
                sv == bufs_view(shards@),
                shards@.len() >= k,
                forall|d: int| 0 <= d < k ==> (#[trigger] shards@[d])@.len() == size,
                0 <= i <= size,
                out@.len() == i,
                forall|q: int|
                    0 <= q < i ==> #[trigger] out@[q] == gf_combination(sv, self.matrix(), k as int, row as int, q, k as nat),
            decreases size - i,
        {
            let mut acc: u8 = 0;
            let mut d: usize = 0;
            while d < k
                invariant
                    self.wf(),
                    k == self.k(),
                    n == self.k() + self.m(),
                    0 < k <= 255,
                    n <= 510,
                    k <= row < n,
                    i < size,
                    size == self.shard_len(),
                    self.matrix().len() == n * k,
                    sv == bufs_view(shards@),
                    shards@.len() >= k,
                    forall|d2: int| 0 <= d2 < k ==> (#[trigger] shards@[d2])@.len() == size,
                    0 <= d <= k,
                    acc == gf_combination(sv, self.matrix(), k as int, row as int, i as int, d as nat),
                decreases k - d,
            {
                assert(row * k + d < n * k && n * k <= 130050) by (nonlinear_arith)
                    requires
                        row < n,
                        d < k,
                        n <= 510,
                        k <= 255,
                ;
                let coeff = self.encode_matrix[row * k + d];
                let byte = shards[d].as_slice()[i];
                acc = acc ^ gf_mul_byte(byte, coeff);
                d += 1;
            }
            out.push(acc);
            i += 1;
        }
        out
    }

    /// Whether `orig` is a codeword of this codec (see `is_codeword`).
    pub open spec fn is_codeword(&self, orig: Seq<Seq<u8>>) -> bool {
        is_codeword(orig, self.k(), self.m(), self.shard_len())
    }

    /// The generator rows of the first `k` shards that are not erased, as a
    /// `k` by `k` matrix: the rows that data shards are rebuilt from.
    pub open spec fn survivor_rows(&self, erasures: Seq<usize>) -> Seq<u8> {
        survivor_matrix(
            generator_matrix(self.k(), self.m()),
            first_survivors(erasures, self.k() + self.m(), self.k()),
            self.k(),
        )
    }

    /// Whether the shards that are not erased hold what `orig` holds.
    pub open spec fn survivors_agree(shards: Seq<DmaBuf>, orig: Seq<Seq<u8>>, erasures: Seq<usize>) -> bool {
        &&& shards.len() == orig.len()
        &&& forall|j: int| 0 <= j < shards.len() && !erasures.contains(j as usize) ==> #[trigger] shards[j]@ == orig[j]
    }

    /// Rebuilds erased shards from the surviving ones. Erased parity shards
    /// are recomputed from the data shards; when data shards are erased,
    /// the rows of the first `k` surviving shards are inverted (Gauss-Jordan
    /// over GF(2^8)) and the data shards are recovered from the survivors
    /// first. Errors: more erasures than parity shards, an erasure index past
    /// the last shard, a wrong number or size of shards, and a set of
    /// surviving rows that has no inverse (`IsalMatrixError`, exactly when
    /// that happens). A loss of at most one data shard, with any parity
    /// shards, within the parity count is always rebuilt.
    pub fn reconstruct(&self, shards: &mut [DmaBuf], erasures: &[usize]) -> (r: Result<()>)
        requires
            self.wf(),
            erasures@.len() > self.m() ==> erasures@.len() <= self.k() + self.m(),
        ensures
            erasures@.len() == 0 ==> r is Ok,
            erasures@.len() > self.m() ==> (r matches Err(e) && e == Error::InsufficientShards {
                available: (self.k() + self.m() - erasures@.len()) as usize,
                required: self.k() as usize,
            }),
            0 < erasures@.len() <= self.m() && (exists|t: int| 0 <= t < erasures@.len() && #[trigger] erasures@[t] >= self.k() + self.m())
                ==> (r matches Err(e) && e is InvalidEcConfig),
            0 < erasures@.len() <= self.m() && (forall|t: int| 0 <= t < erasures@.len() ==> #[trigger] erasures@[t] < self.k() + self.m())
                && !shards_sized(old(shards)@, self.k() + self.m(), self.shard_len()) ==> (r matches Err(e) && e is InvalidEcConfig),
            0 < erasures@.len() <= self.m() && shards_sized(old(shards)@, self.k() + self.m(), self.shard_len())
                && (forall|t: int| 0 <= t < erasures@.len() ==> self.k() <= #[trigger] erasures@[t] < self.k() + self.m())
                ==> r is Ok,
            0 < erasures@.len() <= self.m() && shards_sized(old(shards)@, self.k() + self.m(), self.shard_len())
                && (forall|t: int| 0 <= t < erasures@.len() ==> #[trigger] erasures@[t] < self.k() + self.m())
                && invertible(self.survivor_rows(erasures@), self.k()) ==> r is Ok,
            0 < erasures@.len() <= self.m() && shards_sized(old(shards)@, self.k() + self.m(), self.shard_len())
                && (forall|t: int| 0 <= t < erasures@.len() ==> #[trigger] erasures@[t] < self.k() + self.m())
                && (forall|t1: int, t2: int|
                    0 <= t1 < erasures@.len() && 0 <= t2 < erasures@.len() && #[trigger] erasures@[t1] < self.k()
                        && #[trigger] erasures@[t2] < self.k() ==> erasures@[t1] == erasures@[t2]) ==> r is Ok,
            0 < erasures@.len() <= self.m() && shards_sized(old(shards)@, self.k() + self.m(), self.shard_len())
                && (forall|t: int| 0 <= t < erasures@.len() ==> #[trigger] erasures@[t] < self.k() + self.m())
                && (exists|t: int| 0 <= t < erasures@.len() && #[trigger] erasures@[t] < self.k())
                && !invertible(self.survivor_rows(erasures@), self.k()) ==> (r matches Err(e) && e is IsalMatrixError),
            r matches Err(e) ==> e is InsufficientShards || e is InvalidEcConfig || e is IsalMatrixError,
            r is Err || erasures@.len() == 0 ==> final(shards)@ == old(shards)@,
            r is Ok ==> {
                &&& final(shards)@.len() == old(shards)@.len()
                &&& forall|j: int|
                    0 <= j < old(shards)@.len() && !erasures@.contains(j as usize) ==> #[trigger] final(shards)@[j]@
                        == old(shards)@[j]@
                &&& forall|j: int|
                    0 <= j < old(shards)@.len() && erasures@.contains(j as usize) ==> #[trigger] final(shards)@[j]@.len()
                        == self.shard_len()
            },
            forall|orig: Seq<Seq<u8>>|
                #[trigger] self.is_codeword(orig) && IsalCodec::survivors_agree(old(shards)@, orig, erasures@) && r is Ok
                    ==> bufs_view(final(shards)@) == orig,
    {
        proof {
            self.lemma_wf_shape();
        }
        if erasures.len() == 0 {
            return Ok(());
        }
        let k = self.data_shards();
        let m = self.parity_shards();
        let n = self.total_shards();
        let size = self.shard_size();
        if erasures.len() > m {
            return Err(Error::InsufficientShards { available: n - erasures.len(), required: k });
        }
        let mut t: usize = 0;
        let mut any_data = false;
        while t < erasures.len()
            invariant
                0 <= t <= erasures@.len(),
                0 < erasures@.len() <= self.m(),
                0 < k <= 255,
                n == self.k() + self.m(),
                k == self.k(),
                forall|q: int| 0 <= q < t ==> #[trigger] erasures@[q] < n,
                any_data == exists|q: int| 0 <= q < t && #[trigger] erasures@[q] < k,
            decreases erasures@.len() - t,
        {
            if erasures[t] >= n {
                return Err(Error::InvalidEcConfig(erasure_index_message(erasures[t], n - 1)));
            }
            if erasures[t] < k {
                any_data = true;
            }
            t += 1;
        }
        if shards.len() != n {
            return Err(Error::InvalidEcConfig(shard_count_message(n, shards.len())));
        }
        let mut j: usize = 0;
        while j < n
            invariant
                0 <= j <= n,
                n == shards@.len(),
                n == self.k() + self.m(),
                0 < erasures@.len() <= self.m(),
                forall|q: int| 0 <= q < erasures@.len() ==> #[trigger] erasures@[q] < n,
                any_data == exists|q: int| 0 <= q < erasures@.len() && #[trigger] erasures@[q] < k,
                k == self.k(),
                size == self.shard_len(),
                forall|q: int| 0 <= q < j ==> (#[trigger] shards@[q])@.len() == size,
            decreases n - j,
        {
            if shards[j].len() != size {
                return Err(Error::InvalidEcConfig(shard_size_message(j, shards[j].len(), size)));
            }
            j += 1;
        }
        let ghost old_v = bufs_view(old(shards)@);
        let ghost mut b_view: Seq<u8> = Seq::empty();
        let ghost mut d_view: Seq<u8> = Seq::empty();
        let ghost mut surv_view: Seq<usize> = Seq::empty();
        if any_data {
            let mut surv: Vec<usize> = Vec::new();
            let mut u: usize = 0;
            while u < n
                invariant
                    0 <= u <= n,
                    n == self.k() + self.m(),
                    k == self.k(),
                    surv@ == first_survivors(erasures@, u as nat, k as nat),
                decreases n - u,
            {
                if surv.len() < k && !contains_index(erasures, u) {
                    surv.push(u);
                }
                u += 1;
            }
            proof {
                lemma_first_survivors(erasures@, n as nat, k as nat);
                lemma_erased_count(erasures@, n as nat);
            }
            proof {
                if forall|t1: int, t2: int|
                    0 <= t1 < erasures@.len() && 0 <= t2 < erasures@.len() && #[trigger] erasures@[t1] < k
                        && #[trigger] erasures@[t2] < k ==> erasures@[t1] == erasures@[t2] {
                    let w = choose|w: int| 0 <= w < erasures@.len() && #[trigger] erasures@[w] < k;
                    let j = erasures@[w] as int;
                    assert forall|x: usize| (x as int) < k implies (erasures@.contains(x) <==> x as int == j) by {
                        if erasures@.contains(x) {
                            let t = choose|t: int| 0 <= t < erasures@.len() && erasures@[t] == x;
                            assert(erasures@[t] < k && erasures@[w] < k);
                        }
                    }
                    lemma_one_data_loss_invertible(self.k(), self.m(), erasures@, j);
                }
            }
            let d = self.decode_rows(&surv);
            let b = match invert_matrix(&d, k) {
                Some(b) => b,
                None => return Err(Error::IsalMatrixError("matrix inversion failed (singular matrix)".to_owned())),
            };
            proof {
                assert(is_left_inverse(b@, d@, k as nat));
                assert(invertible(d@, k as nat));
            }
            proof {
                b_view = b@;
                d_view = d@;
                surv_view = surv@;
            }
            let mut e: usize = 0;
            while e < k
                invariant
                    0 <= e <= k,
                    k == self.k(),
                    0 < k <= 255,
                    n == self.k() + self.m(),
                    size == self.shard_len(),
                    shards@.len() == n,
                    old(shards)@.len() == n,
                    b@ == b_view,
                    b_view.len() == k * k,
                    surv@ == surv_view,
                    surv_view.len() == k,
                    forall|c: int| 0 <= c < k ==> (#[trigger] surv_view[c]) < n && !erasures@.contains(surv_view[c]),
                    forall|q: int| 0 <= q < n ==> (#[trigger] shards@[q])@.len() == size,
                    forall|q: int| 0 <= q < n && !(q < e && erasures@.contains(q as usize)) ==> #[trigger] shards@[q]@ == old_v[q],
                    forall|q: int, i: int|
                        0 <= q < e && erasures@.contains(q as usize) && 0 <= i < size ==> #[trigger] shards@[q]@[i]
                            == recovered_byte(b_view, surv_view, old_v, k as nat, q, i),
                    old_v == bufs_view(old(shards)@),
                decreases k - e,
            {
                if contains_index(erasures, e) {
                    let bytes = recover_data_bytes(&b, &surv, shards, e, k, size);
                    proof {
                        assert forall|i: int| 0 <= i < size implies #[trigger] bytes@[i] == recovered_byte(
                            b_view,
                            surv_view,
                            old_v,
                            k as nat,
                            e as int,
                            i,
                        ) by {
                            lemma_xsum_ext(
                                |c: int| gf_mul_spec(b_view[e * k + c], bufs_view(shards@)[surv_view[c] as int][i]),
                                |c: int| gf_mul_spec(b_view[e * k + c], old_v[surv_view[c] as int][i]),
                                k as nat,
                            );
                        }
                    }
                    shards.set(e, DmaBuf::from_vec(bytes));
                }
                e += 1;
            }
        }
        let ghost data_v = bufs_view(shards@);
        proof {
            assert(shards@.len() == n);
            assert forall|q: int| 0 <= q < n implies (#[trigger] data_v[q]).len() == size by {}
            assert forall|q: int| 0 <= q < n && !(q < k && erasures@.contains(q as usize)) implies #[trigger] data_v[q]
                == old_v[q] by {}
            if !any_data {
                assert forall|q: int| 0 <= q < k implies !erasures@.contains(#[trigger] (q as usize)) by {
                    if erasures@.contains(q as usize) {
                        let w = choose|w: int| 0 <= w < erasures@.len() && erasures@[w] == q as usize;
                        assert(erasures@[w] < k);
                    }
                }
            }
        }
        let mut p: usize = k;
        while p < n
            invariant
                self.wf(),
                k <= p <= n,
                k == self.k(),
                n == self.k() + self.m(),
                size == self.shard_len(),
                shards@.len() == n,
                data_v.len() == n,
                forall|q: int| 0 <= q < n ==> (#[trigger] shards@[q])@.len() == size,
                forall|q: int| 0 <= q < n && !(k <= q < p && erasures@.contains(q as usize)) ==> #[trigger] shards@[q]@ == data_v[q],
                forall|q: int, i: int|
                    k <= q < p && erasures@.contains(q as usize) && 0 <= i < size ==> #[trigger] shards@[q]@[i] == gf_combination(
                        data_v,
                        self.matrix(),
                        k as int,
                        q,
                        i,
                        k as nat,
                    ),
            decreases n - p,
        {
            if contains_index(erasures, p) {
                let bytes = self.parity_bytes(shards, p);
                proof {
                    assert forall|i: int| 0 <= i < size implies #[trigger] bytes@[i] == gf_combination(
                        data_v,
                        self.matrix(),
                        k as int,
                        p as int,
                        i,
                        k as nat,
                    ) by {
                        lemma_comb_ext(bufs_view(shards@), data_v, self.matrix(), k as int, p as int, i, k as nat);
                    }
                }
                shards.set(p, DmaBuf::from_vec(bytes));
            }
            p += 1;
        }
        proof {
            assert forall|orig: Seq<Seq<u8>>|
                #[trigger] self.is_codeword(orig) && IsalCodec::survivors_agree(old(shards)@, orig, erasures@)
                    implies bufs_view(shards@) == orig by {
                self.lemma_reconstructed(orig, old_v, data_v, bufs_view(shards@), erasures@, any_data, b_view, d_view, surv_view);
            }
        }
        Ok(())
    }
}

/// A stripe of encoded data with both data and parity shards.
#[derive(Debug)]
pub struct EncodedStripe {
    /// Data shards
    pub data: Vec<DmaBuf>,
    /// Parity shards
    pub parity: Vec<DmaBuf>,
    /// Stripe ID
    pub stripe_id: u64,
}

impl EncodedStripe {
    /// All shards, data first, then parity.
    pub fn all_shards(&self) -> (r: Vec<&DmaBuf>)
        ensures
            r@.len() == self.data@.len() + self.parity@.len(),
            forall|i: int| 0 <= i < self.data@.len() ==> *#[trigger] r@[i] == self.data@[i],
            forall|i: int|
                0 <= i < self.parity@.len() ==> *#[trigger] r@[self.data@.len() + i] == self.parity@[i],
    {
        let mut r: Vec<&DmaBuf> = Vec::new();
        let mut i: usize = 0;
        while i < self.data.len()
            invariant
                0 <= i <= self.data@.len(),
                r@.len() == i,
                forall|j: int| 0 <= j < i ==> *#[trigger] r@[j] == self.data@[j],
            decreases self.data@.len() - i,
        {
            r.push(&self.data[i]);
            i += 1;
        }
        let mut j: usize = 0;
        while j < self.parity.len()
            invariant
                0 <= j <= self.parity@.len(),
                r@.len() == self.data@.len() + j,
                forall|t: int| 0 <= t < self.data@.len() ==> *#[trigger] r@[t] == self.data@[t],
                forall|t: int| 0 <= t < j ==> *#[trigger] r@[self.data@.len() + t] == self.parity@[t],
            decreases self.parity@.len() - j,
        {
            r.push(&self.parity[j]);
            j += 1;
        }
        r
    }

    /// Total number of shards.
    pub fn total_shards(&self) -> (r: usize)
        requires
            self.data@.len() + self.parity@.len() <= usize::MAX,
        ensures
            r == self.data@.len() + self.parity@.len(),
    {
        self.data.len() + self.parity.len()
    }
}

} // verus!
