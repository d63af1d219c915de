//! Square matrices over GF(2^8): products, left inverses and Gauss-Jordan
//! inversion.

use vstd::prelude::*;

use super::isal_codec::{
    delta, gf_inv_spec, gf_mul_byte, gf_mul_spec, lemma_gf_inverse_exists, lemma_gf_mul_associative,
    lemma_gf_mul_commutative, lemma_gf_mul_distributes, lemma_gf_mul_identity_zero,
    lemma_left_inverse_recovers, lemma_xsum_add, lemma_xsum_delta, lemma_xsum_ext, lemma_xsum_scale,
    lemma_xsum_scale_right, lemma_xsum_zero, xsum,
};

verus! {

// =============================================================================
// Specifications
// =============================================================================

/// `x y` is the identity, for `k` by `k` matrices stored row-major.
pub open spec fn is_left_inverse(x: Seq<u8>, y: Seq<u8>, k: nat) -> bool {
    forall|r: int, c: int|
        0 <= r < k && 0 <= c < k ==> xsum(|t: int| gf_mul_spec(x[r * k + t], y[t * k + c]), k)
            == #[trigger] delta(r, c)
}

/// The `k` by `k` row-major matrix `y` has a left inverse.
pub open spec fn invertible(y: Seq<u8>, k: nat) -> bool {
    exists|x: Seq<u8>| x.len() == k * k && #[trigger] is_left_inverse(x, y, k)
}

/// Entry `c` of the row vector `x` times the row-major matrix `d`.
pub open spec fn row_times(x: Seq<u8>, d: Seq<u8>, k: nat, c: int) -> u8 {
    xsum(|t: int| gf_mul_spec(x[t], d[t * k + c]), k)
}

/// Entry (`r`, `c`) of `g a`, both given as rows.
pub open spec fn row_product(g: Seq<Seq<u8>>, a: Seq<Seq<u8>>, k: nat, r: int, c: int) -> u8 {
    xsum(|t: int| gf_mul_spec(g[r][t], a[t][c]), k)
}

/// `g a` is the identity.
pub open spec fn rows_left_invert(g: Seq<Seq<u8>>, a: Seq<Seq<u8>>, k: nat) -> bool {
    forall|r: int, c: int| 0 <= r < k && 0 <= c < k ==> #[trigger] row_product(g, a, k, r, c) == delta(r, c)
}

/// `k` rows of `k` entries.
pub open spec fn square_rows(a: Seq<Seq<u8>>, k: nat) -> bool {
    &&& a.len() == k
    &&& forall|r: int| 0 <= r < k ==> (#[trigger] a[r]).len() == k
}

/// The rows of a matrix held as vectors.
pub open spec fn rows_view(a: Seq<Vec<u8>>) -> Seq<Seq<u8>> {
    Seq::new(a.len(), |r: int| a[r]@)
}

/// Entry `c` of the matrix `a` times the column vector `v`.
pub open spec fn mat_vec(a: Seq<Seq<u8>>, v: spec_fn(int) -> u8, k: nat, c: int) -> u8 {
    xsum(|l: int| gf_mul_spec(a[c][l], v(l)), k)
}

/// `g` with columns `i` and `j` exchanged.
pub open spec fn swap_columns(g: Seq<Seq<u8>>, i: int, j: int) -> Seq<Seq<u8>> {
    Seq::new(g.len(), |q: int| g[q].update(i, g[q][j]).update(j, g[q][i]))
}

/// `g` with column `j` multiplied by `s`.
pub open spec fn scale_column(g: Seq<Seq<u8>>, j: int, s: u8) -> Seq<Seq<u8>> {
    Seq::new(g.len(), |q: int| g[q].update(j, gf_mul_spec(g[q][j], s)))
}

/// `g` with `f` times column `i` added to column `j`.
pub open spec fn add_column(g: Seq<Seq<u8>>, j: int, i: int, f: u8) -> Seq<Seq<u8>> {
    Seq::new(g.len(), |q: int| g[q].update(j, g[q][j] ^ gf_mul_spec(f, g[q][i])))
}

// =============================================================================
// Algebra
// =============================================================================

/// Xor on bytes: zero is neutral, each byte cancels itself, and terms can
/// be regrouped and reordered.
proof fn lemma_xor(a: u8, b: u8, c: u8, d: u8)
    by (bit_vector)
    ensures
        a ^ 0u8 == a,
        0u8 ^ a == a,
        a ^ a == 0u8,
        a ^ b == b ^ a,
        (a ^ b) ^ b == a,
        ((a ^ b) ^ c) ^ d == ((a ^ d) ^ b) ^ c,
        (a ^ b) ^ (c ^ d) == (a ^ c) ^ (b ^ d),
        (((a ^ b) ^ c) ^ d) == (a ^ (b ^ c)) ^ d,
{
}

/// Zero is neutral for xor, and every byte is its own opposite.
pub(crate) proof fn lemma_xor_zero(a: u8)
    ensures
        a ^ 0u8 == a,
        0u8 ^ a == a,
        a ^ a == 0u8,
{
    lemma_xor(a, 0u8, 0u8, 0u8);
}

/// Multiplication distributes over xor from the right.
proof fn lemma_gf_mul_distributes_right(a: u8, b: u8, c: u8)
    ensures
        gf_mul_spec(a ^ b, c) == gf_mul_spec(a, c) ^ gf_mul_spec(b, c),
{
    lemma_gf_mul_commutative(a ^ b, c);
    lemma_gf_mul_distributes(c, a, b);
    lemma_gf_mul_commutative(a, c);
    lemma_gf_mul_commutative(b, c);
}

/// `(x y) s == (x s) y`.
proof fn lemma_gf_mul_swap_right(x: u8, y: u8, s: u8)
    ensures
        gf_mul_spec(gf_mul_spec(x, y), s) == gf_mul_spec(gf_mul_spec(x, s), y),
{
    lemma_gf_mul_associative(x, y, s);
    lemma_gf_mul_commutative(y, s);
    lemma_gf_mul_associative(x, s, y);
}

/// Changing one term of a sum changes the sum by the difference.
pub(crate) proof fn lemma_xsum_point(f: spec_fn(int) -> u8, g: spec_fn(int) -> u8, i: int, n: nat)
    requires
        0 <= i < n,
        forall|t: int| 0 <= t < n && t != i ==> #[trigger] f(t) == g(t),
    ensures
        xsum(g, n) == (xsum(f, n) ^ f(i)) ^ g(i),
    decreases n,
{
    let n1 = (n - 1) as nat;
    if i == n1 {
        lemma_xsum_ext(f, g, n1);
        let x = xsum(f, n1);
        lemma_xor(x, f(i), g(i), 0u8);
        lemma_xor(x ^ f(i), f(i), g(i), 0u8);
        assert(((x ^ f(i)) ^ f(i)) == x);
    } else {
        lemma_xsum_point(f, g, i, n1);
        lemma_xor(xsum(f, n1), f(i), g(i), f(n1 as int));
    }
}

/// Exchanging two terms' values, or any change that keeps the sum of the
/// two, keeps the sum.
pub(crate) proof fn lemma_xsum_two_points(f: spec_fn(int) -> u8, g: spec_fn(int) -> u8, i: int, j: int, n: nat)
    requires
        0 <= i < n,
        0 <= j < n,
        i != j,
        forall|t: int| 0 <= t < n && t != i && t != j ==> #[trigger] f(t) == g(t),
        f(i) ^ f(j) == g(i) ^ g(j),
    ensures
        xsum(g, n) == xsum(f, n),
{
    let h = |t: int| if t == i { g(i) } else { f(t) };
    lemma_xsum_point(f, h, i, n);
    lemma_xsum_point(h, g, j, n);
    let s = xsum(f, n);
    // xsum(g) == ((((s ^ f(i)) ^ g(i)) ^ f(j)) ^ g(j))
    assert(xsum(g, n) == (((s ^ f(i)) ^ g(i)) ^ f(j)) ^ g(j));
    lemma_xor_two(s, f(i), g(i), f(j), g(j));
}

/// Two changes that cancel leave a byte as it was.
proof fn lemma_xor_two(s: u8, a: u8, b: u8, c: u8, d: u8)
    by (bit_vector)
    requires
        a ^ c == b ^ d,
    ensures
        (((s ^ a) ^ b) ^ c) ^ d == s,
{
}

/// Scaling a row vector scales its product with `d`.
proof fn lemma_row_times_scale(x: Seq<u8>, z: Seq<u8>, s: u8, d: Seq<u8>, k: nat, c: int)
    requires
        forall|t: int| 0 <= t < k ==> #[trigger] z[t] == gf_mul_spec(x[t], s),
    ensures
        row_times(z, d, k, c) == gf_mul_spec(row_times(x, d, k, c), s),
{
    lemma_xsum_scale_right(|t: int| gf_mul_spec(x[t], d[t * k + c]), s, k);
    assert forall|t: int| 0 <= t < k implies #[trigger] gf_mul_spec(z[t], d[t * k + c]) == gf_mul_spec(
        gf_mul_spec(x[t], d[t * k + c]),
        s,
    ) by {
        lemma_gf_mul_swap_right(x[t], d[t * k + c], s);
    }
    lemma_xsum_ext(
        |t: int| gf_mul_spec(z[t], d[t * k + c]),
        |t: int| gf_mul_spec((|t: int| gf_mul_spec(x[t], d[t * k + c]))(t), s),
        k,
    );
}

/// The product with `d` is linear in the row vector.
proof fn lemma_row_times_add(x: Seq<u8>, y: Seq<u8>, z: Seq<u8>, f: u8, d: Seq<u8>, k: nat, c: int)
    requires
        forall|t: int| 0 <= t < k ==> #[trigger] z[t] == x[t] ^ gf_mul_spec(f, y[t]),
    ensures
        row_times(z, d, k, c) == row_times(x, d, k, c) ^ gf_mul_spec(f, row_times(y, d, k, c)),
{
    let xs = |t: int| gf_mul_spec(x[t], d[t * k + c]);
    let ys = |t: int| gf_mul_spec(y[t], d[t * k + c]);
    let fys = |t: int| gf_mul_spec(f, ys(t));
    lemma_xsum_scale(f, ys, k);
    lemma_xsum_add(xs, fys, k);
    assert forall|t: int| 0 <= t < k implies #[trigger] gf_mul_spec(z[t], d[t * k + c]) == xs(t) ^ fys(t) by {
        lemma_gf_mul_distributes_right(x[t], gf_mul_spec(f, y[t]), d[t * k + c]);
        lemma_gf_mul_associative(f, y[t], d[t * k + c]);
    }
    lemma_xsum_ext(|t: int| gf_mul_spec(z[t], d[t * k + c]), |t: int| xs(t) ^ fys(t), k);
}

/// `(x p) (y q) == x y` when `p q == 1`.
proof fn lemma_gf_cancel(x: u8, y: u8, p: u8, q: u8)
    requires
        gf_mul_spec(p, q) == 1u8,
    ensures
        gf_mul_spec(gf_mul_spec(x, p), gf_mul_spec(y, q)) == gf_mul_spec(x, y),
{
    lemma_gf_mul_associative(x, p, gf_mul_spec(y, q));
    lemma_gf_mul_associative(p, y, q);
    lemma_gf_mul_commutative(p, y);
    lemma_gf_mul_associative(y, p, q);
    lemma_gf_mul_identity_zero(y);
}

// =============================================================================
// Row operations keep a left inverse
// =============================================================================

/// Exchanging rows `i` and `j` of `a` is undone by exchanging columns `i`
/// and `j` of a left inverse.
proof fn lemma_swap_keeps_inverse(g: Seq<Seq<u8>>, a: Seq<Seq<u8>>, a2: Seq<Seq<u8>>, k: nat, i: int, j: int)
    requires
        square_rows(g, k),
        square_rows(a, k),
        square_rows(a2, k),
        0 <= i < k,
        0 <= j < k,
        i != j,
        a2[i] == a[j],
        a2[j] == a[i],
        forall|q: int| 0 <= q < k && q != i && q != j ==> #[trigger] a2[q] == a[q],
    ensures
        square_rows(swap_columns(g, i, j), k),
        rows_left_invert(g, a, k) ==> rows_left_invert(swap_columns(g, i, j), a2, k),
{
    let g2 = swap_columns(g, i, j);
    assert forall|r: int| 0 <= r < k implies (#[trigger] g2[r]).len() == k by {}
    assert forall|r: int, c: int| 0 <= r < k && 0 <= c < k implies #[trigger] row_product(g2, a2, k, r, c)
        == row_product(g, a, k, r, c) by {
        let f = |t: int| gf_mul_spec(g[r][t], a[t][c]);
        let h = |t: int| gf_mul_spec(g2[r][t], a2[t][c]);
        assert forall|t: int| 0 <= t < k && t != i && t != j implies #[trigger] f(t) == h(t) by {}
        lemma_xor(f(i), f(j), 0u8, 0u8);
        lemma_xsum_two_points(f, h, i, j, k);
    }
}

/// Multiplying row `j` of `a` by `q` is undone by multiplying column `j` of
/// a left inverse by `p`, where `p q == 1`.
proof fn lemma_scale_keeps_inverse(g: Seq<Seq<u8>>, a: Seq<Seq<u8>>, a2: Seq<Seq<u8>>, k: nat, j: int, p: u8, q: u8)
    requires
        square_rows(g, k),
        square_rows(a, k),
        square_rows(a2, k),
        0 <= j < k,
        gf_mul_spec(p, q) == 1u8,
        forall|c: int| 0 <= c < k ==> #[trigger] a2[j][c] == gf_mul_spec(a[j][c], q),
        forall|w: int| 0 <= w < k && w != j ==> #[trigger] a2[w] == a[w],
    ensures
        square_rows(scale_column(g, j, p), k),
        rows_left_invert(g, a, k) ==> rows_left_invert(scale_column(g, j, p), a2, k),
{
    let g2 = scale_column(g, j, p);
    assert forall|r: int| 0 <= r < k implies (#[trigger] g2[r]).len() == k by {}
    assert forall|r: int, c: int| 0 <= r < k && 0 <= c < k implies #[trigger] row_product(g2, a2, k, r, c)
        == row_product(g, a, k, r, c) by {
        assert forall|t: int| 0 <= t < k implies #[trigger] gf_mul_spec(g2[r][t], a2[t][c]) == gf_mul_spec(
            g[r][t],
            a[t][c],
        ) by {
            if t == j {
                lemma_gf_cancel(g[r][j], a[j][c], p, q);
            }
        }
        lemma_xsum_ext(|t: int| gf_mul_spec(g2[r][t], a2[t][c]), |t: int| gf_mul_spec(g[r][t], a[t][c]), k);
    }
}

/// Adding `f` times row `j` of `a` to row `r0` is undone by adding `f` times
/// column `r0` of a left inverse to its column `j`.
proof fn lemma_add_keeps_inverse(g: Seq<Seq<u8>>, a: Seq<Seq<u8>>, a2: Seq<Seq<u8>>, k: nat, r0: int, j: int, f: u8)
    requires
        square_rows(g, k),
        square_rows(a, k),
        square_rows(a2, k),
        0 <= r0 < k,
        0 <= j < k,
        r0 != j,
        forall|c: int| 0 <= c < k ==> #[trigger] a2[r0][c] == a[r0][c] ^ gf_mul_spec(f, a[j][c]),
        forall|w: int| 0 <= w < k && w != r0 ==> #[trigger] a2[w] == a[w],
    ensures
        square_rows(add_column(g, j, r0, f), k),
        rows_left_invert(g, a, k) ==> rows_left_invert(add_column(g, j, r0, f), a2, k),
{
    let g2 = add_column(g, j, r0, f);
    assert forall|r: int| 0 <= r < k implies (#[trigger] g2[r]).len() == k by {}
    assert forall|r: int, c: int| 0 <= r < k && 0 <= c < k implies #[trigger] row_product(g2, a2, k, r, c)
        == row_product(g, a, k, r, c) by {
        let ff = |t: int| gf_mul_spec(g[r][t], a[t][c]);
        let hh = |t: int| gf_mul_spec(g2[r][t], a2[t][c]);
        assert forall|t: int| 0 <= t < k && t != r0 && t != j implies #[trigger] ff(t) == hh(t) by {}
        let gr0 = g[r][r0];
        let grj = g[r][j];
        let ar0 = a[r0][c];
        let ajc = a[j][c];
        lemma_gf_mul_distributes(gr0, ar0, gf_mul_spec(f, ajc));
        lemma_gf_mul_distributes_right(grj, gf_mul_spec(f, gr0), ajc);
        lemma_gf_mul_associative(gr0, f, ajc);
        lemma_gf_mul_commutative(gr0, f);
        let x = gf_mul_spec(gr0, gf_mul_spec(f, ajc));
        assert(gf_mul_spec(gf_mul_spec(f, gr0), ajc) == x);
        assert(hh(r0) == gf_mul_spec(gr0, ar0) ^ x);
        assert(hh(j) == gf_mul_spec(grj, ajc) ^ x);
        lemma_xor(gf_mul_spec(gr0, ar0), x, gf_mul_spec(grj, ajc), x);
        lemma_xor(x, 0u8, 0u8, 0u8);
        lemma_xor(gf_mul_spec(gr0, ar0) ^ gf_mul_spec(grj, ajc), 0u8, 0u8, 0u8);
        lemma_xsum_two_points(ff, hh, r0, j, k);
    }
}

/// A matrix whose first `col` columns are unit columns and whose column
/// `col` is zero from row `col` on has no left inverse.
proof fn lemma_no_pivot_no_inverse(g: Seq<Seq<u8>>, a: Seq<Seq<u8>>, k: nat, col: int)
    requires
        square_rows(g, k),
        square_rows(a, k),
        0 <= col < k,
        forall|r: int, c: int| 0 <= r < k && 0 <= c < col ==> #[trigger] a[r][c] == delta(r, c),
        forall|r: int| col <= r < k ==> #[trigger] a[r][col] == 0u8,
    ensures
        !rows_left_invert(g, a, k),
{
    if rows_left_invert(g, a, k) {
        let v = |t: int| if t < col { a[t][col] } else if t == col { 1u8 } else { 0u8 };
        let w = |l: int| if l < col { a[l][col] } else { 0u8 };
        assert forall|c: int| 0 <= c < k implies #[trigger] mat_vec(a, v, k, c) == 0u8 by {
            let f1 = |l: int| gf_mul_spec(delta(c, l), w(l));
            let f = |l: int| gf_mul_spec(a[c][l], v(l));
            assert forall|l: int| 0 <= l < k && l != col implies #[trigger] f1(l) == f(l) by {
                lemma_gf_mul_identity_zero(delta(c, l));
                lemma_gf_mul_identity_zero(a[c][l]);
            }
            lemma_xsum_point(f1, f, col, k);
            lemma_xsum_delta(w, c, k);
            lemma_gf_mul_identity_zero(delta(c, col));
            lemma_gf_mul_identity_zero(a[c][col]);
            lemma_xor(w(c), 0u8, a[c][col], 0u8);
            lemma_xor(a[c][col], 0u8, 0u8, 0u8);
        }
        let bm = |r: int, t: int| g[r][t];
        let dm = |t: int, c: int| a[t][c];
        assert forall|r: int, c: int| 0 <= r < k && 0 <= c < k implies xsum(
            |t: int| gf_mul_spec(bm(r, t), dm(t, c)),
            k,
        ) == #[trigger] delta(r, c) by {
            assert(row_product(g, a, k, r, c) == delta(r, c));
            lemma_xsum_ext(|t: int| gf_mul_spec(bm(r, t), dm(t, c)), |t: int| gf_mul_spec(g[r][t], a[t][c]), k);
        }
        lemma_left_inverse_recovers(bm, dm, v, k, col);
        let z = |c: int| gf_mul_spec(bm(col, c), xsum(|l: int| gf_mul_spec(dm(c, l), v(l)), k));
        assert forall|c: int| 0 <= c < k implies #[trigger] z(c) == 0u8 by {
            lemma_xsum_ext(|l: int| gf_mul_spec(dm(c, l), v(l)), |l: int| gf_mul_spec(a[c][l], v(l)), k);
            assert(mat_vec(a, v, k, c) == 0u8);
            lemma_gf_mul_identity_zero(bm(col, c));
        }
        lemma_xsum_zero(z, k);
        assert(v(col) == 1u8);
    }
}

// =============================================================================
// Inversion
// =============================================================================

/// The inverse of `a` in GF(2^8), searched for; found for every nonzero `a`.
pub fn gf_inverse(a: u8) -> (r: Option<u8>)
    ensures
        r matches Some(b) ==> gf_mul_spec(a, b) == 1u8,
        a != 0u8 ==> r is Some,
{
    let mut b: u16 = 1;
    while b < 256
        invariant
            1 <= b <= 256,
            forall|x: u8| 1 <= x < b ==> #[trigger] gf_mul_spec(a, x) != 1u8,
        decreases 256 - b,
    {
        if gf_mul_byte(a, b as u8) == 1 {
            return Some(b as u8);
        }
        b += 1;
    }
    proof {
        if a != 0u8 {
            lemma_gf_inverse_exists(a);
            lemma_gf_mul_identity_zero(a);
            let x = gf_inv_spec(a);
            assert(gf_mul_spec(a, x) == 1u8);
        }
    }
    None
}

/// Row `r` of the row-major `k` by `k` matrix `d`.
fn row_of(d: &Vec<u8>, r: usize, k: usize) -> (row: Vec<u8>)
    requires
        d@.len() == k * k,
        r < k,
        k <= 255,
    ensures
        row@.len() == k,
        forall|c: int| 0 <= c < k ==> #[trigger] row@[c] == d@[r * k + c],
{
    let mut row: Vec<u8> = Vec::new();
    let mut c: usize = 0;
    while c < k
        invariant
            d@.len() == k * k,
            r < k,
            k <= 255,
            0 <= c <= k,
            row@.len() == c,
            forall|c2: int| 0 <= c2 < c ==> #[trigger] row@[c2] == d@[r * k + c2],
        decreases k - c,
    {
        assert(r * k + c < k * k && r * k <= 65025) by (nonlinear_arith)
            requires
                r < k,
                c < k,
                k <= 255,
        ;
        row.push(d[r * k + c]);
        c += 1;
    }
    row
}

/// Row `r` of the `k` by `k` identity.
fn unit_row(r: usize, k: usize) -> (row: Vec<u8>)
    ensures
        row@.len() == k,
        forall|c: int| 0 <= c < k ==> #[trigger] row@[c] == delta(r as int, c),
{
    let mut row: Vec<u8> = Vec::new();
    let mut c: usize = 0;
    while c < k
        invariant
            0 <= c <= k,
            row@.len() == c,
            forall|c2: int| 0 <= c2 < c ==> #[trigger] row@[c2] == delta(r as int, c2),
        decreases k - c,
    {
        if c == r {
            row.push(1u8);
        } else {
            row.push(0u8);
        }
        c += 1;
    }
    row
}

/// A copy of `x`.
fn row_copy(x: &Vec<u8>) -> (z: Vec<u8>)
    ensures
        z@ == x@,
{
    let mut z: Vec<u8> = Vec::new();
    let mut t: usize = 0;
    while t < x.len()
        invariant
            0 <= t <= x@.len(),
            z@ == x@.subrange(0, t as int),
        decreases x@.len() - t,
    {
        z.push(x[t]);
        t += 1;
    }
    z
}

/// `x` with each entry multiplied by `s`.
fn row_scaled(x: &Vec<u8>, s: u8) -> (z: Vec<u8>)
    ensures
        z@.len() == x@.len(),
        forall|t: int| 0 <= t < x@.len() ==> #[trigger] z@[t] == gf_mul_spec(x@[t], s),
{
    let mut z: Vec<u8> = Vec::new();
    let mut t: usize = 0;
    while t < x.len()
        invariant
            0 <= t <= x@.len(),
            z@.len() == t,
            forall|q: int| 0 <= q < t ==> #[trigger] z@[q] == gf_mul_spec(x@[q], s),
        decreases x@.len() - t,
    {
        z.push(gf_mul_byte(x[t], s));
        t += 1;
    }
    z
}

/// `x` plus `f` times `y`, entry by entry.
fn row_added(x: &Vec<u8>, y: &Vec<u8>, f: u8) -> (z: Vec<u8>)
    requires
        x@.len() == y@.len(),
    ensures
        z@.len() == x@.len(),
        forall|t: int| 0 <= t < x@.len() ==> #[trigger] z@[t] == x@[t] ^ gf_mul_spec(f, y@[t]),
{
    let mut z: Vec<u8> = Vec::new();
    let mut t: usize = 0;
    while t < x.len()
        invariant
            x@.len() == y@.len(),
            0 <= t <= x@.len(),
            z@.len() == t,
            forall|q: int| 0 <= q < t ==> #[trigger] z@[q] == x@[q] ^ gf_mul_spec(f, y@[q]),
        decreases x@.len() - t,
    {
        z.push(x[t] ^ gf_mul_byte(f, y[t]));
        t += 1;
    }
    z
}

/// The `k` rows of `k` entries laid out row-major.
fn flatten_rows(rows: &Vec<Vec<u8>>, k: usize) -> (b: Vec<u8>)
    requires
        rows@.len() == k,
        forall|r: int| 0 <= r < k ==> (#[trigger] rows@[r])@.len() == k,
        k <= 255,
    ensures
        b@.len() == k * k,
        forall|r: int, c: int| 0 <= r < k && 0 <= c < k ==> #[trigger] b@[r * k + c] == rows@[r]@[c],
{
    let mut b: Vec<u8> = Vec::new();
    let mut r: usize = 0;
    while r < k
        invariant
            rows@.len() == k,
            forall|q: int| 0 <= q < k ==> (#[trigger] rows@[q])@.len() == k,
            k <= 255,
            0 <= r <= k,
            b@.len() == r * k,
            forall|r2: int, c: int| 0 <= r2 < r && 0 <= c < k ==> #[trigger] b@[r2 * k + c] == rows@[r2]@[c],
        decreases k - r,
    {
        let mut c: usize = 0;
        while c < k
            invariant
                rows@.len() == k,
                forall|q: int| 0 <= q < k ==> (#[trigger] rows@[q])@.len() == k,
                k <= 255,
                r < k,
                0 <= c <= k,
                b@.len() == r * k + c,
                forall|r2: int, c2: int| 0 <= r2 < r && 0 <= c2 < k ==> #[trigger] b@[r2 * k + c2] == rows@[r2]@[c2],
                forall|c2: int| 0 <= c2 < c ==> #[trigger] b@[r * k + c2] == rows@[r as int]@[c2],
            decreases k - c,
        {
            let ghost before = b@;
            b.push(rows[r][c]);
            proof {
                assert forall|r2: int, c2: int| 0 <= r2 < r && 0 <= c2 < k implies #[trigger] b@[r2 * k + c2]
                    == rows@[r2]@[c2] by {
                    assert(r2 * k + c2 < r * k) by (nonlinear_arith)
                        requires
                            r2 < r,
                            c2 < k,
                    ;
                    assert(b@[r2 * k + c2] == before[r2 * k + c2]);
                }
            }
            c += 1;
        }
        proof {
            assert((r + 1) * k == r * k + k) by (nonlinear_arith);
        }
        r += 1;
    }
    proof {
        assert(b@.len() == k * k);
    }
    b
}

/// The rows of `k` vectors of length `k` form a square matrix.
proof fn lemma_rows_view(a: Seq<Vec<u8>>, k: nat)
    requires
        a.len() == k,
        forall|r: int| 0 <= r < k ==> (#[trigger] a[r])@.len() == k,
    ensures
        square_rows(rows_view(a), k),
        forall|r: int| 0 <= r < k ==> #[trigger] rows_view(a)[r] == a[r]@,
{
}

/// Gauss-Jordan inversion of the `k` by `k` row-major matrix `d` over
/// GF(2^8): a left inverse of `d`, found whenever `d` has one.
pub fn invert_matrix(d: &Vec<u8>, k: usize) -> (r: Option<Vec<u8>>)
    requires
        d@.len() == k * k,
        0 < k <= 255,
    ensures
        r matches Some(b) ==> b@.len() == k * k && is_left_inverse(b@, d@, k as nat),
        invertible(d@, k as nat) ==> r is Some,
{
    let ghost kn = k as nat;
    let mut a: Vec<Vec<u8>> = Vec::new();
    let mut inv: Vec<Vec<u8>> = Vec::new();
    let mut t: usize = 0;
    while t < k
        invariant
            0 < k <= 255,
            kn == k,
            d@.len() == k * k,
            0 <= t <= k,
            a@.len() == t,
            inv@.len() == t,
            forall|r: int| 0 <= r < t ==> (#[trigger] a@[r])@.len() == k && inv@[r]@.len() == k,
            forall|r: int, c: int| 0 <= r < t && 0 <= c < k ==> #[trigger] a@[r]@[c] == d@[r * k + c],
            forall|r: int, c: int| 0 <= r < t && 0 <= c < k ==> #[trigger] inv@[r]@[c] == delta(r, c),
        decreases k - t,
    {
        let ra = row_of(d, t, k);
        let ri = unit_row(t, k);
        a.push(ra);
        inv.push(ri);
        t += 1;
    }
    let ghost x = choose|x: Seq<u8>| x.len() == kn * kn && #[trigger] is_left_inverse(x, d@, kn);
    let ghost mut g: Seq<Seq<u8>> = Seq::new(kn, |r: int| Seq::new(kn, |c: int| x[r * kn + c]));
    proof {
        assert forall|r: int, c: int| 0 <= r < k && 0 <= c < k implies #[trigger] a@[r]@[c] == row_times(
            inv@[r]@,
            d@,
            kn,
            c,
        ) by {
            let col_c = |l: int| d@[l * kn + c];
            lemma_xsum_delta(col_c, r, kn);
            lemma_xsum_ext(
                |l: int| gf_mul_spec(inv@[r]@[l], d@[l * kn + c]),
                |l: int| gf_mul_spec(delta(r, l), col_c(l)),
                kn,
            );
        }
        lemma_rows_view(a@, kn);
        if invertible(d@, kn) {
            let av = rows_view(a@);
            assert forall|r: int, c: int| 0 <= r < k && 0 <= c < k implies #[trigger] row_product(g, av, kn, r, c)
                == delta(r, c) by {
                assert(is_left_inverse(x, d@, kn));
                lemma_xsum_ext(
                    |l: int| gf_mul_spec(g[r][l], av[l][c]),
                    |l: int| gf_mul_spec(x[r * kn + l], d@[l * kn + c]),
                    kn,
                );
            }
        }
    }
    let mut col: usize = 0;
    while col < k
        invariant
            0 < k <= 255,
            kn == k,
            d@.len() == k * k,
            0 <= col <= k,
            a@.len() == k,
            inv@.len() == k,
            forall|r: int| 0 <= r < k ==> (#[trigger] a@[r])@.len() == k && inv@[r]@.len() == k,
            square_rows(g, kn),
            forall|r: int, c: int|
                0 <= r < k && 0 <= c < k ==> #[trigger] a@[r]@[c] == row_times(inv@[r]@, d@, kn, c),
            forall|r: int, c: int| 0 <= r < k && 0 <= c < col ==> #[trigger] a@[r]@[c] == delta(r, c),
            invertible(d@, kn) ==> rows_left_invert(g, rows_view(a@), kn),
        decreases k - col,
    {
        let mut p: usize = col;
        while p < k
            invariant
                0 < k <= 255,
                col < k,
                col <= p <= k,
                a@.len() == k,
                forall|r: int| 0 <= r < k ==> (#[trigger] a@[r])@.len() == k,
                forall|q: int| col <= q < p ==> (#[trigger] a@[q])@[col as int] == 0u8,
            ensures
                col <= p <= k,
                forall|q: int| col <= q < p ==> (#[trigger] a@[q])@[col as int] == 0u8,
                p < k ==> a@[p as int]@[col as int] != 0u8,
            decreases k - p,
        {
            if a[p][col] != 0 {
                break;
            }
            p += 1;
        }
        if p == k {
            proof {
                lemma_rows_view(a@, kn);
                if invertible(d@, kn) {
                    lemma_no_pivot_no_inverse(g, rows_view(a@), kn, col as int);
                }
            }
            return None;
        }
        if p != col {
            let ghost a0 = a@;
            proof {
                lemma_rows_view(a0, kn);
            }
            let rp = row_copy(&a[p]);
            let rc = row_copy(&a[col]);
            a.set(p, rc);
            a.set(col, rp);
            let ip = row_copy(&inv[p]);
            let ic = row_copy(&inv[col]);
            inv.set(p, ic);
            inv.set(col, ip);
            proof {
                lemma_rows_view(a@, kn);
                lemma_swap_keeps_inverse(g, rows_view(a0), rows_view(a@), kn, p as int, col as int);
                g = swap_columns(g, p as int, col as int);
            }
        }
        let piv = a[col][col];
        let pinv = match gf_inverse(piv) {
            Some(v) => v,
            None => return None,
        };
        let ghost a1 = a@;
        let ghost inv1 = inv@;
        proof {
            lemma_rows_view(a1, kn);
        }
        let sa = row_scaled(&a[col], pinv);
        a.set(col, sa);
        let si = row_scaled(&inv[col], pinv);
        inv.set(col, si);
        proof {
            lemma_rows_view(a@, kn);
            lemma_scale_keeps_inverse(g, rows_view(a1), rows_view(a@), kn, col as int, piv, pinv);
            g = scale_column(g, col as int, piv);
            assert forall|c: int| 0 <= c < k implies #[trigger] a@[col as int]@[c] == row_times(
                inv@[col as int]@,
                d@,
                kn,
                c,
            ) by {
                lemma_row_times_scale(inv1[col as int]@, inv@[col as int]@, pinv, d@, kn, c);
            }
            assert forall|c: int| 0 <= c < col implies #[trigger] a@[col as int]@[c] == delta(col as int, c) by {
                lemma_gf_mul_identity_zero(pinv);
            }
        }
        let mut r: usize = 0;
        while r < k
            invariant
                0 < k <= 255,
                kn == k,
                d@.len() == k * k,
                col < k,
                0 <= r <= k,
                a@.len() == k,
                inv@.len() == k,
                forall|q: int| 0 <= q < k ==> (#[trigger] a@[q])@.len() == k && inv@[q]@.len() == k,
                square_rows(g, kn),
                forall|q: int, c: int|
                    0 <= q < k && 0 <= c < k ==> #[trigger] a@[q]@[c] == row_times(inv@[q]@, d@, kn, c),
                forall|q: int, c: int| 0 <= q < k && 0 <= c < col ==> #[trigger] a@[q]@[c] == delta(q, c),
                a@[col as int]@[col as int] == 1u8,
                forall|q: int| 0 <= q < r && q != col ==> (#[trigger] a@[q])@[col as int] == 0u8,
                invertible(d@, kn) ==> rows_left_invert(g, rows_view(a@), kn),
            decreases k - r,
        {
            if r != col {
                let f = a[r][col];
                if f != 0 {
                    let ghost a2 = a@;
                    let ghost inv2 = inv@;
                    proof {
                        lemma_rows_view(a2, kn);
                    }
                    let na = row_added(&a[r], &a[col], f);
                    a.set(r, na);
                    let ni = row_added(&inv[r], &inv[col], f);
                    inv.set(r, ni);
                    proof {
                        lemma_rows_view(a@, kn);
                        lemma_add_keeps_inverse(g, rows_view(a2), rows_view(a@), kn, r as int, col as int, f);
                        g = add_column(g, col as int, r as int, f);
                        assert forall|c: int| 0 <= c < k implies #[trigger] a@[r as int]@[c] == row_times(
                            inv@[r as int]@,
                            d@,
                            kn,
                            c,
                        ) by {
                            lemma_row_times_add(
                                inv2[r as int]@,
                                inv2[col as int]@,
                                inv@[r as int]@,
                                f,
                                d@,
                                kn,
                                c,
                            );
                        }
                        lemma_gf_mul_identity_zero(f);
                        assert forall|c: int| 0 <= c < col implies #[trigger] a@[r as int]@[c] == delta(r as int, c) by {
                            lemma_xor(delta(r as int, c), 0u8, 0u8, 0u8);
                        }
                        lemma_xor(f, 0u8, 0u8, 0u8);
                    }
                }
            }
            r += 1;
        }
        col += 1;
    }
    assert forall|r: int| 0 <= r < k implies (#[trigger] inv@[r])@.len() == k by {
        assert(a@[r]@.len() == k);
    }
    let b = flatten_rows(&inv, k);
    proof {
        assert forall|r: int, c: int| 0 <= r < k && 0 <= c < k implies xsum(
            |t: int| gf_mul_spec(b@[r * kn + t], d@[t * kn + c]),
            kn,
        ) == #[trigger] delta(r, c) by {
            assert(a@[r]@[c] == delta(r, c));
            lemma_xsum_ext(
                |t: int| gf_mul_spec(b@[r * kn + t], d@[t * kn + c]),
                |t: int| gf_mul_spec(inv@[r]@[t], d@[t * kn + c]),
                kn,
            );
        }
    }
    Some(b)
}

} // verus!
