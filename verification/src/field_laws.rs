//! The laws of addition and multiplication in GF(2^128).
//!
//! Multiplication is defined one way round: `a * b` adds up `a * x^k` over the
//! degrees of `b`. The proofs here expand both factors into their degrees, so
//! that a product becomes a double sum of powers of `x` in which the two
//! factors play the same part. From there: multiplication is commutative and
//! associative, distributes over addition, has the polynomial `1` as its
//! identity, and gives zero with zero.

use crate::gfpoly::{
    coeff, gf_mul, product_term, times_x, times_x_pow, x_pow, xor_sum, ONE, X, X128,
};
use vstd::prelude::*;

verus! {

/// Addition is commutative and associative, every element is its own
/// inverse, and zero is the identity.
pub proof fn lemma_add_laws(a: u128, b: u128, c: u128)
    by (bit_vector)
    ensures
        a ^ b == b ^ a,
        (a ^ b) ^ c == a ^ (b ^ c),
        a ^ a == 0,
        a ^ 0 == a,
        0 ^ a == a,
{
}

/// Four summands may be paired either way.
proof fn lemma_xor_interchange(a: u128, b: u128, c: u128, d: u128)
    by (bit_vector)
    ensures
        (a ^ b) ^ (c ^ d) == (a ^ c) ^ (b ^ d),
{
}

/// Multiplying by `x` respects addition.
proof fn lemma_times_x_linear(a: u128, b: u128)
    by (bit_vector)
    ensures
        times_x(a ^ b) == times_x(a) ^ times_x(b),
        times_x(0) == 0,
{
}

/// Multiplying by `x^k` respects addition.
pub proof fn lemma_times_x_pow_linear(a: u128, b: u128, k: nat)
    ensures
        times_x_pow(a ^ b, k) == times_x_pow(a, k) ^ times_x_pow(b, k),
    decreases k,
{
    if k == 0 {
    } else {
        let j = (k - 1) as nat;
        lemma_times_x_pow_linear(a, b, j);
        lemma_times_x_linear(times_x_pow(a, j), times_x_pow(b, j));
    }
}

/// Zero times `x^k` is zero.
proof fn lemma_times_x_pow_zero(k: nat)
    ensures
        times_x_pow(0, k) == 0,
    decreases k,
{
    if k == 0 {
    } else {
        lemma_times_x_pow_zero((k - 1) as nat);
        lemma_times_x_linear(0, 0);
    }
}

/// Multiplying by `x^i` and then by `x^j` multiplies by `x^(i + j)`.
pub proof fn lemma_times_x_pow_add(a: u128, i: nat, j: nat)
    ensures
        times_x_pow(times_x_pow(a, i), j) == times_x_pow(a, i + j),
    decreases j,
{
    if j == 0 {
    } else {
        lemma_times_x_pow_add(a, i, (j - 1) as nat);
    }
}

/// Sums of terms that agree below `n` agree.
proof fn lemma_xor_sum_ext(f: spec_fn(nat) -> u128, g: spec_fn(nat) -> u128, n: nat)
    requires
        forall|k: nat| k < n ==> #[trigger] f(k) == g(k),
    ensures
        xor_sum(f, n) == xor_sum(g, n),
    decreases n,
{
    if n == 0 {
    } else {
        lemma_xor_sum_ext(f, g, (n - 1) as nat);
    }
}

/// A sum of zeros is zero.
proof fn lemma_xor_sum_zero(f: spec_fn(nat) -> u128, n: nat)
    requires
        forall|k: nat| k < n ==> #[trigger] f(k) == 0,
    ensures
        xor_sum(f, n) == 0,
    decreases n,
{
    if n == 0 {
    } else {
        lemma_xor_sum_zero(f, (n - 1) as nat);
        lemma_add_laws(0, 0, 0);
    }
}

/// The sum of termwise sums is the sum of the sums.
proof fn lemma_xor_sum_split(
    f: spec_fn(nat) -> u128,
    g: spec_fn(nat) -> u128,
    h: spec_fn(nat) -> u128,
    n: nat,
)
    requires
        forall|k: nat| k < n ==> #[trigger] h(k) == f(k) ^ g(k),
    ensures
        xor_sum(h, n) == xor_sum(f, n) ^ xor_sum(g, n),
    decreases n,
{
    if n == 0 {
        lemma_add_laws(0, 0, 0);
    } else {
        let m = (n - 1) as nat;
        lemma_xor_sum_split(f, g, h, m);
        lemma_xor_interchange(xor_sum(f, m), xor_sum(g, m), f(m), g(m));
    }
}

/// Multiplying a sum by `x^m` multiplies each of its terms.
proof fn lemma_xor_sum_times_x_pow(
    f: spec_fn(nat) -> u128,
    g: spec_fn(nat) -> u128,
    m: nat,
    n: nat,
)
    requires
        forall|k: nat| k < n ==> #[trigger] g(k) == times_x_pow(f(k), m),
    ensures
        xor_sum(g, n) == times_x_pow(xor_sum(f, n), m),
    decreases n,
{
    if n == 0 {
        lemma_times_x_pow_zero(m);
    } else {
        let p = (n - 1) as nat;
        lemma_xor_sum_times_x_pow(f, g, m, p);
        lemma_times_x_pow_linear(xor_sum(f, p), f(p), m);
    }
}

/// Row `i` of a table of terms.
spec fn row(g: spec_fn(nat, nat) -> u128, i: nat) -> spec_fn(nat) -> u128 {
    |j: nat| g(i, j)
}

/// Column `j` of a table of terms.
spec fn col(g: spec_fn(nat, nat) -> u128, j: nat) -> spec_fn(nat) -> u128 {
    |i: nat| g(i, j)
}

/// The sums of the rows of a table, each over `m` columns.
spec fn row_sums(g: spec_fn(nat, nat) -> u128, m: nat) -> spec_fn(nat) -> u128 {
    |i: nat| xor_sum(row(g, i), m)
}

/// The sums of the columns of a table, each over `n` rows.
spec fn col_sums(g: spec_fn(nat, nat) -> u128, n: nat) -> spec_fn(nat) -> u128 {
    |j: nat| xor_sum(col(g, j), n)
}

/// A table of `n` rows and `m` columns has one sum, by rows or by columns.
proof fn lemma_xor_sum_exchange(g: spec_fn(nat, nat) -> u128, n: nat, m: nat)
    ensures
        xor_sum(row_sums(g, m), n) == xor_sum(col_sums(g, n), m),
    decreases n,
{
    if n == 0 {
        lemma_xor_sum_zero(col_sums(g, 0), m);
    } else {
        let p = (n - 1) as nat;
        lemma_xor_sum_exchange(g, p, m);
        lemma_xor_sum_split(col_sums(g, p), row(g, p), col_sums(g, n), m);
    }
}

/// The coefficients of the degrees below `n` and no others, for `n <= 128`.
spec fn degrees_below(n: u128) -> u128 {
    if n >= 128 {
        u128::MAX
    } else {
        !(u128::MAX >> n)
    }
}

/// The coefficient of `x^k` alone.
spec fn degree_bit(k: u128) -> u128 {
    1u128 << ((127 - k) as u128)
}

/// The degrees below `n + 1` are those below `n` and the degree `n`.
proof fn lemma_degrees_below_step(n: u128)
    by (bit_vector)
    requires
        n < 128,
    ensures
        degrees_below((n + 1) as u128) == degrees_below(n) | degree_bit(n),
        degrees_below(n) & degree_bit(n) == 0,
        degrees_below(0) == 0,
{
}

/// Masking with the bit of a degree leaves that bit or nothing, as the
/// coefficient says.
proof fn lemma_coeff_as_mask(a: u128, k: u128)
    by (bit_vector)
    requires
        k < 128,
    ensures
        ((a >> ((127 - k) as u128)) & 1 == 1) ==> a & degree_bit(k) == degree_bit(k),
        !((a >> ((127 - k) as u128)) & 1 == 1) ==> a & degree_bit(k) == 0,
{
}

/// A mask made of two disjoint masks selects the sum of what they select.
proof fn lemma_mask_split(a: u128, m: u128, u: u128)
    by (bit_vector)
    requires
        m & u == 0,
    ensures
        a & (m | u) == (a & m) ^ (a & u),
{
}

/// The empty mask selects nothing and the full mask everything.
proof fn lemma_mask_ends(a: u128)
    by (bit_vector)
    ensures
        a & 0 == 0,
        a & u128::MAX == a,
{
}

/// Below degree 127, multiplying a single term by `x` moves its bit.
proof fn lemma_times_x_of_bit(k: u128)
    by (bit_vector)
    requires
        k < 127,
    ensures
        times_x(1u128 << ((127 - k) as u128)) == 1u128 << ((126 - k) as u128),
{
}

/// Below degree 128 no reduction takes place: `x^k` is a single bit.
pub proof fn lemma_x_pow_is_bit(k: nat)
    requires
        k < 128,
    ensures
        x_pow(k) == 1u128 << ((127 - k) as u128),
    decreases k,
{
    if k == 0 {
        assert(ONE == 1u128 << 127) by (bit_vector);
    } else {
        let j = (k - 1) as nat;
        lemma_x_pow_is_bit(j);
        lemma_times_x_of_bit(j as u128);
    }
}

/// The reduction: `x^128` is `x^7 + x^2 + x + 1`.
pub proof fn lemma_x_pow_128()
    ensures
        x_pow(128) == X128,
{
    lemma_x_pow_is_bit(127);
    assert(times_x(1u128 << 0) == X128) by (bit_vector);
}

/// The term of degree `j` of `a`.
spec fn degree_term(a: u128) -> spec_fn(nat) -> u128 {
    |j: nat|
        if coeff(a, j) {
            x_pow(j)
        } else {
            0
        }
}

/// The terms of `a` below degree `n` add up to its coefficients below `n`.
proof fn lemma_degree_terms_upto(a: u128, n: nat)
    requires
        n <= 128,
    ensures
        xor_sum(degree_term(a), n) == a & degrees_below(n as u128),
    decreases n,
{
    if n == 0 {
        lemma_degrees_below_step(0);
        lemma_mask_ends(a);
    } else {
        let p = (n - 1) as nat;
        lemma_degree_terms_upto(a, p);
        lemma_x_pow_is_bit(p);
        lemma_degrees_below_step(p as u128);
        lemma_coeff_as_mask(a, p as u128);
        lemma_mask_split(a, degrees_below(p as u128), degree_bit(p as u128));
    }
}

/// Every element is the sum of its terms.
proof fn lemma_degree_terms(a: u128)
    ensures
        xor_sum(degree_term(a), 128) == a,
{
    lemma_degree_terms_upto(a, 128);
    lemma_mask_ends(a);
}

/// The term that degree `k` of `b` and degree `j` of `a` add to `a * b`.
spec fn pair_term(a: u128, b: u128) -> spec_fn(nat, nat) -> u128 {
    |k: nat, j: nat|
        if coeff(b, k) && coeff(a, j) {
            x_pow(j + k)
        } else {
            0
        }
}

/// A product is the sum of `x^(j + k)` over the degrees `j` of `a` and `k`
/// of `b`.
proof fn lemma_mul_expand(a: u128, b: u128)
    ensures
        gf_mul(a, b) == xor_sum(row_sums(pair_term(a, b), 128), 128),
{
    let g = pair_term(a, b);
    assert forall|k: nat| k < 128 implies #[trigger] product_term(a, b)(k) == row_sums(g, 128)(
        k,
    ) by {
        if coeff(b, k) {
            assert forall|j: nat| j < 128 implies #[trigger] row(g, k)(j) == times_x_pow(
                degree_term(a)(j),
                k,
            ) by {
                if coeff(a, j) {
                    lemma_times_x_pow_add(ONE, j, k);
                } else {
                    lemma_times_x_pow_zero(k);
                }
            }
            lemma_xor_sum_times_x_pow(degree_term(a), row(g, k), k, 128);
            lemma_degree_terms(a);
        } else {
            lemma_xor_sum_zero(row(g, k), 128);
        }
    }
    lemma_xor_sum_ext(product_term(a, b), row_sums(g, 128), 128);
}

/// The terms that degree `k` of `b` adds to `a * b`, one for each degree `j`
/// of `a`: `x^(j + k)`, reduced.
pub open spec fn polynomial_terms(a: u128, b: u128, k: nat) -> spec_fn(nat) -> u128 {
    |j: nat|
        if coeff(b, k) && coeff(a, j) {
            x_pow(j + k)
        } else {
            0
        }
}

/// The sum of the terms that degree `k` of `b` adds to `a * b`.
pub open spec fn polynomial_rows(a: u128, b: u128) -> spec_fn(nat) -> u128 {
    |k: nat| xor_sum(polynomial_terms(a, b, k), 128)
}

/// A product is the product of the two polynomials, reduced: the sum of
/// `x^(j + k)` over the degrees `j` of `a` and `k` of `b`.
pub proof fn lemma_mul_polynomial_product(a: u128, b: u128)
    ensures
        gf_mul(a, b) == xor_sum(polynomial_rows(a, b), 128),
{
    let g = pair_term(a, b);
    lemma_mul_expand(a, b);
    assert forall|k: nat| k < 128 implies #[trigger] row_sums(g, 128)(k) == polynomial_rows(a, b)(
        k,
    ) by {
        lemma_xor_sum_ext(row(g, k), polynomial_terms(a, b, k), 128);
    }
    lemma_xor_sum_ext(row_sums(g, 128), polynomial_rows(a, b), 128);
}

/// Multiplication is commutative.
pub proof fn lemma_mul_commutative(a: u128, b: u128)
    ensures
        gf_mul(a, b) == gf_mul(b, a),
{
    let g = pair_term(a, b);
    let h = pair_term(b, a);
    lemma_mul_expand(a, b);
    lemma_mul_expand(b, a);
    lemma_xor_sum_exchange(g, 128, 128);
    assert forall|j: nat| j < 128 implies #[trigger] col_sums(g, 128)(j) == row_sums(h, 128)(
        j,
    ) by {
        lemma_xor_sum_ext(col(g, j), row(h, j), 128);
    }
    lemma_xor_sum_ext(col_sums(g, 128), row_sums(h, 128), 128);
}

/// The polynomial `1` has the coefficient of `x^0` alone, and zero has none.
proof fn lemma_coeff_of_one(k: u128)
    by (bit_vector)
    requires
        k < 128,
    ensures
        ((ONE >> ((127 - k) as u128)) & 1 == 1) == (k == 0),
        (0u128 >> ((127 - k) as u128)) & 1 == 0,
{
}

/// From its first term on, the sum for `a * 1` is `a`.
proof fn lemma_mul_one_upto(a: u128, n: nat)
    requires
        1 <= n <= 128,
    ensures
        xor_sum(product_term(a, ONE), n) == a,
    decreases n,
{
    let p = (n - 1) as nat;
    lemma_coeff_of_one(p as u128);
    lemma_add_laws(a, 0, 0);
    if n == 1 {
        assert(xor_sum(product_term(a, ONE), 0) == 0);
    } else {
        lemma_mul_one_upto(a, p);
    }
}

/// The polynomial `1` is the identity of multiplication.
pub proof fn lemma_mul_one(a: u128)
    ensures
        gf_mul(a, ONE) == a,
        gf_mul(ONE, a) == a,
{
    lemma_mul_one_upto(a, 128);
    lemma_mul_commutative(a, ONE);
}

/// A product with zero is zero.
pub proof fn lemma_mul_zero(a: u128)
    ensures
        gf_mul(a, 0) == 0,
        gf_mul(0, a) == 0,
{
    assert forall|k: nat| k < 128 implies #[trigger] product_term(a, 0)(k) == 0 by {
        lemma_coeff_of_one(k as u128);
    }
    lemma_xor_sum_zero(product_term(a, 0), 128);
    lemma_mul_commutative(a, 0);
}

/// Multiplication distributes over addition, on either side.
pub proof fn lemma_mul_distributive(a: u128, b: u128, c: u128)
    ensures
        gf_mul(a ^ b, c) == gf_mul(a, c) ^ gf_mul(b, c),
        gf_mul(c, a ^ b) == gf_mul(c, a) ^ gf_mul(c, b),
{
    assert forall|k: nat| k < 128 implies #[trigger] product_term(a ^ b, c)(k) == product_term(
        a,
        c,
    )(k) ^ product_term(b, c)(k) by {
        if coeff(c, k) {
            lemma_times_x_pow_linear(a, b, k);
        } else {
            lemma_add_laws(0, 0, 0);
        }
    }
    lemma_xor_sum_split(product_term(a, c), product_term(b, c), product_term(a ^ b, c), 128);
    lemma_mul_commutative(a ^ b, c);
    lemma_mul_commutative(a, c);
    lemma_mul_commutative(b, c);
}

/// The polynomial `x` has the coefficient of `x^1` alone.
proof fn lemma_coeff_of_x(k: u128)
    by (bit_vector)
    requires
        k < 128,
    ensures
        ((X >> ((127 - k) as u128)) & 1 == 1) == (k == 1),
{
}

/// From its second term on, the sum for `a * x` is `a` times `x`.
proof fn lemma_mul_x_upto(a: u128, n: nat)
    requires
        2 <= n <= 128,
    ensures
        xor_sum(product_term(a, X), n) == times_x(a),
    decreases n,
{
    let f = product_term(a, X);
    let p = (n - 1) as nat;
    lemma_coeff_of_x(p as u128);
    lemma_add_laws(times_x(a), 0, 0);
    if n == 2 {
        lemma_coeff_of_x(0);
        assert(xor_sum(f, 0) == 0);
        assert(xor_sum(f, 1) == xor_sum(f, 0) ^ f(0));
        lemma_add_laws(0, 0, 0);
        assert(times_x_pow(a, 1) == times_x(times_x_pow(a, 0)));
    } else {
        lemma_mul_x_upto(a, p);
    }
}

/// Reduction: the product with the polynomial `x` moves every coefficient
/// one degree up, and adds `x^7 + x^2 + x + 1` once, and only once, where
/// the coefficient of `x^127` was set.
pub proof fn lemma_mul_x(a: u128)
    ensures
        gf_mul(a, X) == times_x(a),
        a & 1 == 1 ==> gf_mul(a, X) == (a >> 1) ^ X128,
        a & 1 != 1 ==> gf_mul(a, X) == a >> 1,
{
    lemma_mul_x_upto(a, 128);
}

/// Multiplying a factor by `x` multiplies the product by `x`.
proof fn lemma_mul_times_x(u: u128, c: u128)
    ensures
        gf_mul(times_x(u), c) == times_x(gf_mul(u, c)),
{
    let f = product_term(u, c);
    let g = product_term(times_x(u), c);
    assert forall|k: nat| k < 128 implies #[trigger] g(k) == times_x_pow(f(k), 1) by {
        assert(times_x_pow(f(k), 1) == times_x(times_x_pow(f(k), 0)));
        if coeff(c, k) {
            lemma_times_x_pow_add(u, 1, k);
            lemma_times_x_pow_add(u, k, 1);
            assert(times_x_pow(u, 1) == times_x(times_x_pow(u, 0)));
        } else {
            lemma_times_x_linear(0, 0);
        }
    }
    lemma_xor_sum_times_x_pow(f, g, 1, 128);
    assert(times_x_pow(gf_mul(u, c), 1) == times_x(times_x_pow(gf_mul(u, c), 0)));
}

/// Multiplying a factor by `x^k` multiplies the product by `x^k`.
proof fn lemma_mul_times_x_pow(u: u128, c: u128, k: nat)
    ensures
        gf_mul(times_x_pow(u, k), c) == times_x_pow(gf_mul(u, c), k),
    decreases k,
{
    if k == 0 {
    } else {
        lemma_mul_times_x_pow(u, c, (k - 1) as nat);
        lemma_mul_times_x(times_x_pow(u, (k - 1) as nat), c);
    }
}

/// The product of a sum is the sum of the products of its terms.
proof fn lemma_mul_xor_sum(
    f: spec_fn(nat) -> u128,
    h: spec_fn(nat) -> u128,
    c: u128,
    n: nat,
)
    requires
        forall|k: nat| k < n ==> #[trigger] h(k) == gf_mul(f(k), c),
    ensures
        xor_sum(h, n) == gf_mul(xor_sum(f, n), c),
    decreases n,
{
    if n == 0 {
        lemma_mul_zero(c);
    } else {
        let p = (n - 1) as nat;
        lemma_mul_xor_sum(f, h, c, p);
        lemma_mul_distributive(xor_sum(f, p), f(p), c);
    }
}

/// Two factors on the right may change places.
proof fn lemma_mul_exchange(a: u128, b: u128, c: u128)
    ensures
        gf_mul(gf_mul(a, b), c) == gf_mul(gf_mul(a, c), b),
{
    let f = product_term(a, b);
    let h = product_term(gf_mul(a, c), b);
    assert forall|k: nat| k < 128 implies #[trigger] h(k) == gf_mul(f(k), c) by {
        if coeff(b, k) {
            lemma_mul_times_x_pow(a, c, k);
        } else {
            lemma_mul_zero(c);
        }
    }
    lemma_mul_xor_sum(f, h, c, 128);
}

/// Multiplication is associative.
pub proof fn lemma_mul_associative(a: u128, b: u128, c: u128)
    ensures
        gf_mul(gf_mul(a, b), c) == gf_mul(a, gf_mul(b, c)),
{
    lemma_mul_commutative(a, gf_mul(b, c));
    lemma_mul_exchange(b, c, a);
    lemma_mul_commutative(b, a);
}

} // verus!
