//! Elements of GF(2^128) in the bit order of GCM.
//!
//! An element is a polynomial over GF(2) of degree below 128. It is stored in
//! a `u128`: the most significant bit (bit 127) is the coefficient of `x^0`
//! and the least significant bit is the coefficient of `x^127`. Sums are
//! bitwise XOR; products are reduced modulo `x^128 + x^7 + x^2 + x + 1`.

use crate::field_laws::lemma_add_laws;
use vstd::prelude::*;

verus! {

/// What `x^128` reduces to: `x^7 + x^2 + x + 1`, in the bit order above.
pub const X128: u128 = 0xe1000000000000000000000000000000u128;

/// The polynomial `1`: only the coefficient of `x^0` is set.
pub const ONE: u128 = 0x80000000000000000000000000000000u128;

/// The polynomial `x`: only the coefficient of `x^1` is set.
pub const X: u128 = 0x40000000000000000000000000000000u128;

/// Coefficient of `x^k` in `p`, for `k < 128`.
pub open spec fn coeff(p: u128, k: nat) -> bool {
    (p >> ((127 - k) as u128)) & 1 == 1
}

/// `p * x`, reduced: every coefficient moves one degree up, and the
/// coefficient that leaves degree 127 comes back as `x^7 + x^2 + x + 1`.
pub open spec fn times_x(p: u128) -> u128 {
    if p & 1 == 1 {
        (p >> 1) ^ X128
    } else {
        p >> 1
    }
}

/// `p * x^k`, reduced.
pub open spec fn times_x_pow(p: u128, k: nat) -> u128
    decreases k,
{
    if k == 0 {
        p
    } else {
        times_x(times_x_pow(p, (k - 1) as nat))
    }
}

/// The power `x^k`, reduced.
pub open spec fn x_pow(k: nat) -> u128 {
    times_x_pow(ONE, k)
}

/// The XOR of `f(0)`, ..., `f(n - 1)`.
pub open spec fn xor_sum(f: spec_fn(nat) -> u128, n: nat) -> u128
    decreases n,
{
    if n == 0 {
        0
    } else {
        xor_sum(f, (n - 1) as nat) ^ f((n - 1) as nat)
    }
}

/// The term that the coefficient of `x^k` in `b` adds to `a * b`:
/// `a * x^k` where it is set, nothing where it is not.
pub open spec fn product_term(a: u128, b: u128) -> spec_fn(nat) -> u128 {
    |k: nat|
        if coeff(b, k) {
            times_x_pow(a, k)
        } else {
            0
        }
}

/// The product `a * b` in GF(2^128): the sum of `a * x^k` over the degrees
/// `k` at which `b` has a coefficient.
pub open spec fn gf_mul(a: u128, b: u128) -> u128 {
    xor_sum(product_term(a, b), 128)
}

/// An element of GF(2^128).
#[derive(Copy, Clone, Debug, PartialEq, Eq, Structural)]
pub struct GFPoly {
    poly: u128,
}

impl View for GFPoly {
    type V = u128;

    /// The 128 coefficients, the one of `x^0` in the most significant bit.
    closed spec fn view(&self) -> u128 {
        self.poly
    }
}

/// Two elements are equal exactly if their coefficients are.
pub proof fn lemma_view_decides(a: GFPoly, b: GFPoly)
    ensures
        (a == b) == (a@ == b@),
{
}

impl From<u128> for GFPoly {
    fn from(from: u128) -> (r: GFPoly)
        ensures
            r@ == from,
    {
        GFPoly { poly: from }
    }
}

impl vstd::std_specs::convert::FromSpecImpl<u128> for GFPoly {
    open spec fn obeys_from_spec() -> bool {
        true
    }

    closed spec fn from_spec(v: u128) -> GFPoly {
        GFPoly { poly: v }
    }
}

impl From<GFPoly> for u128 {
    fn from(from: GFPoly) -> (r: u128)
        ensures
            r == from@,
    {
        from.poly
    }
}

impl vstd::std_specs::convert::FromSpecImpl<GFPoly> for u128 {
    open spec fn obeys_from_spec() -> bool {
        true
    }

    open spec fn from_spec(v: GFPoly) -> u128 {
        v@
    }
}

impl std::ops::Add<GFPoly> for GFPoly {
    type Output = GFPoly;

    /// The sum of two elements: coefficient by coefficient, modulo 2.
    fn add(self, rhs: GFPoly) -> (r: GFPoly)
        ensures
            r@ == self@ ^ rhs@,
    {
        GFPoly { poly: self.poly ^ rhs.poly }
    }
}

impl vstd::std_specs::ops::AddSpecImpl<GFPoly> for GFPoly {
    open spec fn obeys_add_spec() -> bool {
        true
    }

    open spec fn add_req(self, rhs: GFPoly) -> bool {
        true
    }

    closed spec fn add_spec(self, rhs: GFPoly) -> GFPoly {
        GFPoly { poly: self.poly ^ rhs.poly }
    }
}

impl std::ops::AddAssign<GFPoly> for GFPoly {
    fn add_assign(&mut self, rhs: GFPoly)
        ensures
            final(self)@ == old(self)@ ^ rhs@,
    {
        *self = *self + rhs;
    }
}

impl std::ops::Mul<GFPoly> for GFPoly {
    type Output = GFPoly;

    /// The product of two elements, by shifting and reducing: the degrees of
    /// `rhs` are walked upwards from `x^0`, while `lhs` is multiplied by `x`
    /// at each step and added wherever `rhs` has a coefficient.
    fn mul(self, rhs: GFPoly) -> (r: GFPoly)
        ensures
            r@ == gf_mul(self@, rhs@),
    {
        let mut cum = GFPoly { poly: 0 };
        let mut lhs = self;
        let mut k: u32 = 0;
        while k < 128
            invariant
                k <= 128,
                cum@ == xor_sum(product_term(self@, rhs@), k as nat),
                lhs@ == times_x_pow(self@, k as nat),
            decreases 128 - k,
        {
            if (rhs.poly >> (127 - k)) & 1 == 1 {
                cum = cum + lhs;
            } else {
                proof {
                    lemma_add_laws(cum@, 0, 0);
                }
            }
            lhs = lhs.rightshift();
            k = k + 1;
        }
        cum
    }
}

impl vstd::std_specs::ops::MulSpecImpl<GFPoly> for GFPoly {
    open spec fn obeys_mul_spec() -> bool {
        true
    }

    open spec fn mul_req(self, rhs: GFPoly) -> bool {
        true
    }

    closed spec fn mul_spec(self, rhs: GFPoly) -> GFPoly {
        GFPoly { poly: gf_mul(self.poly, rhs.poly) }
    }
}

impl std::ops::MulAssign<GFPoly> for GFPoly {
    fn mul_assign(&mut self, rhs: GFPoly)
        ensures
            final(self)@ == gf_mul(old(self)@, rhs@),
    {
        let temp = *self * rhs;
        self.poly = temp.poly;
    }
}

impl GFPoly {
    /// Multiplies by `x`: the bits move one place to the right, and a bit
    /// that falls off the low end is folded back by the reduction.
    pub fn rightshift(self) -> (r: GFPoly)
        ensures
            r@ == times_x(self@),
    {
        let shifted = GFPoly { poly: self.poly >> 1 };
        if self.poly & 1 == 1 {
            shifted + GFPoly { poly: X128 }
        } else {
            shifted
        }
    }

    /// The degrees at which the polynomial has a coefficient, from the
    /// highest down: what is needed to write it out as `x^a + x^b + ...`.
    pub fn degrees(&self) -> (r: Vec<u32>)
        ensures
            forall|j: int| 0 <= j < r@.len() ==> r@[j] < 128 && coeff(self@, r@[j] as nat),
            forall|i: int, j: int| 0 <= i < j < r@.len() ==> r@[i] > r@[j],
            forall|d: u32| d < 128 && coeff(self@, d as nat) ==> r@.contains(d),
    {
        let mut r: Vec<u32> = Vec::new();
        let mut i: u32 = 0;
        while i < 128
            invariant
                i <= 128,
                forall|j: int|
                    0 <= j < r@.len() ==> 128 - i <= r@[j] < 128 && coeff(self@, r@[j] as nat),
                forall|a: int, b: int| 0 <= a < b < r@.len() ==> r@[a] > r@[b],
                forall|d: u32| 128 - i <= d < 128 && coeff(self@, d as nat) ==> r@.contains(d),
            decreases 128 - i,
        {
            if (self.poly >> i) & 1 == 1 {
                let ghost before = r@;
                r.push(127 - i);
                proof {
                    assert(r@[before.len() as int] == 127 - i);
                    assert forall|d: u32|
                        128 - (i + 1) <= d < 128 && coeff(self@, d as nat) implies r@.contains(
                        d,
                    ) by {
                        if d == 127 - i {
                        } else {
                            let j = choose|j: int| 0 <= j < before.len() && before[j] == d;
                            assert(r@[j] == d);
                        }
                    }
                }
            }
            i = i + 1;
        }
        r
    }
}

} // verus!
