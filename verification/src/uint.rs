//! 256-bit and 512-bit unsigned integers, held as little-endian 64-bit limbs.
//!
//! The arithmetic itself is done by the `primitive-types` crate, which holds
//! its integers in the same limbs: a number is handed over by moving its
//! limbs. This module gives the numbers a mathematical value and states what
//! each operation returns in terms of it.

use vstd::prelude::*;
use vstd::std_specs::cmp::PartialEqSpecImpl;

verus! {

/// The value of four little-endian 64-bit limbs.
pub open spec fn value4(l: Seq<u64>) -> nat {
    (l[0] as nat) + (l[1] as nat) * 0x1_0000_0000_0000_0000nat + (l[2] as nat)
        * 0x1_0000_0000_0000_0000_0000_0000_0000_0000nat + (l[3] as nat)
        * 0x1_0000_0000_0000_0000_0000_0000_0000_0000_0000_0000_0000_0000nat
}

/// Two to the power 256.
pub open spec fn pow2_256() -> nat {
    0x1_0000_0000_0000_0000_0000_0000_0000_0000_0000_0000_0000_0000_0000_0000_0000_0000nat
}

/// The value of eight little-endian 64-bit limbs.
pub open spec fn value8(l: Seq<u64>) -> nat {
    value4(l.subrange(0, 4)) + value4(l.subrange(4, 8)) * pow2_256()
}

/// An unsigned 256-bit integer; limb 0 is the least significant.
#[derive(Clone, Copy, Debug, Eq, Hash)]
pub struct U256(pub [u64; 4]);

impl PartialEq for U256 {
    fn eq(&self, other: &U256) -> (r: bool) {
        let r = self.0[0] == other.0[0] && self.0[1] == other.0[1] && self.0[2] == other.0[2]
            && self.0[3] == other.0[3];
        proof {
            if r {
                assert(self.0@ =~= other.0@);
                assert(self.0 =~= other.0);
            }
        }
        r
    }
}

impl PartialEqSpecImpl for U256 {
    open spec fn obeys_eq_spec() -> bool {
        true
    }

    open spec fn eq_spec(&self, other: &U256) -> bool {
        *self == *other
    }
}

impl Default for U256 {
    fn default() -> (r: U256)
        ensures
            r@ == 0,
    {
        U256([0, 0, 0, 0])
    }
}

/// An unsigned 512-bit integer; limb 0 is the least significant.
#[derive(Clone, Copy, Debug)]
pub struct U512(pub [u64; 8]);

impl View for U256 {
    type V = nat;

    open spec fn view(&self) -> nat {
        value4(self.0@)
    }
}

impl View for U512 {
    type V = nat;

    open spec fn view(&self) -> nat {
        value8(self.0@)
    }
}

/// Every 256-bit integer is below two to the power 256.
pub proof fn lemma_u256_bound(a: U256)
    ensures
        a@ < pow2_256(),
{
}

/// Two 256-bit integers with the same value have the same limbs.
pub proof fn lemma_u256_injective(a: U256, b: U256)
    ensures
        a@ == b@ <==> a == b,
{
    if a@ == b@ {
        lemma_u256_same_limbs(a, b);
    }
}

proof fn lemma_u256_same_limbs(a: U256, b: U256)
    requires
        a@ == b@,
    ensures
        a == b,
{
    assert(a.0[3] == b.0[3]);
    assert(a.0[2] == b.0[2]);
    assert(a.0[1] == b.0[1]);
    assert(a.0[0] == b.0[0]);
    assert(a.0@ =~= b.0@);
    assert(a.0 =~= b.0);
}

/// The 256-bit integer whose value is `n`, for `n` below two to the power
/// 256.
pub open spec fn u256_of(n: nat) -> U256 {
    U256(
        [
            (n % 0x1_0000_0000_0000_0000nat) as u64,
            (n / 0x1_0000_0000_0000_0000nat % 0x1_0000_0000_0000_0000nat) as u64,
            (n / 0x1_0000_0000_0000_0000_0000_0000_0000_0000nat
                % 0x1_0000_0000_0000_0000nat) as u64,
            (n / 0x1_0000_0000_0000_0000_0000_0000_0000_0000_0000_0000_0000_0000nat
                % 0x1_0000_0000_0000_0000nat) as u64,
        ],
    )
}

/// `u256_of` gives the integer of the given value, and no other integer has
/// that value.
pub proof fn lemma_u256_of(n: nat)
    requires
        n < pow2_256(),
    ensures
        u256_of(n)@ == n,
        forall|u: U256| u@ == n ==> u == u256_of(n),
{
    assert(u256_of(n)@ == n);
    assert forall|u: U256| u@ == n implies u == u256_of(n) by {
        lemma_u256_injective(u, u256_of(n));
    }
}

impl U256 {
    /// The integer zero.
    pub fn zero() -> (r: U256)
        ensures
            r@ == 0,
    {
        U256([0, 0, 0, 0])
    }

    /// The 256-bit integer with the value of `v`.
    pub fn from_u64(v: u64) -> (r: U256)
        ensures
            r@ == v,
    {
        U256([v, 0, 0, 0])
    }

    /// Whether the value is zero.
    pub fn is_zero(&self) -> (r: bool)
        ensures
            r == (self@ == 0),
    {
        self.0[0] == 0 && self.0[1] == 0 && self.0[2] == 0 && self.0[3] == 0
    }

    /// Whether `self` is strictly greater than `other`.
    pub fn gt(&self, other: &U256) -> (r: bool)
        ensures
            r == (self@ > other@),
    {
        if self.0[3] != other.0[3] {
            self.0[3] > other.0[3]
        } else if self.0[2] != other.0[2] {
            self.0[2] > other.0[2]
        } else if self.0[1] != other.0[1] {
            self.0[1] > other.0[1]
        } else {
            self.0[0] > other.0[0]
        }
    }

    /// The largest 256-bit integer.
    pub fn max_value() -> (r: U256)
        ensures
            r@ == pow2_256() - 1,
    {
        U256(
            [
                0xffff_ffff_ffff_ffff,
                0xffff_ffff_ffff_ffff,
                0xffff_ffff_ffff_ffff,
                0xffff_ffff_ffff_ffff,
            ],
        )
    }

    /// The product of two 256-bit integers, which always fits in 512 bits.
    ///
    /// Trusted: calls `primitive_types::U256::full_mul`, documented to multiply
    /// two 256-bit integers into the full 512-bit integer without overflow.
    #[verifier::external_body]
    pub(crate) fn full_mul(self, other: U256) -> (r: U512)
        ensures
            r@ == self@ * other@,
    {
        U512(primitive_types::U256(self.0).full_mul(primitive_types::U256(other.0)).0)
    }

    /// The sum, or the largest 256-bit integer where the sum does not fit.
    ///
    /// Trusted: calls `primitive_types::U256::saturating_add`, documented as
    /// addition which saturates at the maximum value.
    #[verifier::external_body]
    pub(crate) fn saturating_add(self, other: U256) -> (r: U256)
        ensures
            r@ == if self@ + other@ < pow2_256() {
                self@ + other@
            } else {
                (pow2_256() - 1) as nat
            },
    {
        U256(primitive_types::U256(self.0).saturating_add(primitive_types::U256(other.0)).0)
    }

    /// The difference, or zero where `other` is the larger.
    ///
    /// Trusted: calls `primitive_types::U256::saturating_sub`, documented as
    /// subtraction which saturates at zero.
    #[verifier::external_body]
    pub(crate) fn saturating_sub(self, other: U256) -> (r: U256)
        ensures
            r@ == if self@ >= other@ {
                (self@ - other@) as nat
            } else {
                0
            },
    {
        U256(primitive_types::U256(self.0).saturating_sub(primitive_types::U256(other.0)).0)
    }
}

impl U512 {
    /// The integer zero.
    pub fn zero() -> (r: U512)
        ensures
            r@ == 0,
    {
        let r = U512([0, 0, 0, 0, 0, 0, 0, 0]);
        assert(r.0@.subrange(0, 4) =~= seq![0u64, 0u64, 0u64, 0u64]);
        assert(r.0@.subrange(4, 8) =~= seq![0u64, 0u64, 0u64, 0u64]);
        r
    }

    /// The 512-bit integer with the value of `v`.
    pub fn from_u256(v: U256) -> (r: U512)
        ensures
            r@ == v@,
    {
        let r = U512([v.0[0], v.0[1], v.0[2], v.0[3], 0, 0, 0, 0]);
        assert(r.0@.subrange(0, 4) =~= v.0@);
        assert(r.0@.subrange(4, 8) =~= seq![0u64, 0u64, 0u64, 0u64]);
        r
    }

    /// The same value as a 256-bit integer, where it fits.
    pub fn to_u256(self) -> (r: Option<U256>)
        ensures
            r is Some <==> self@ < pow2_256(),
            r is Some ==> r->0@ == self@,
    {
        let ghost low = self.0@.subrange(0, 4);
        let ghost high = self.0@.subrange(4, 8);
        assert(low[0] == self.0[0] && low[1] == self.0[1] && low[2] == self.0[2] && low[3]
            == self.0[3]);
        assert(high[0] == self.0[4] && high[1] == self.0[5] && high[2] == self.0[6] && high[3]
            == self.0[7]);
        if self.0[4] == 0 && self.0[5] == 0 && self.0[6] == 0 && self.0[7] == 0 {
            let r = U256([self.0[0], self.0[1], self.0[2], self.0[3]]);
            assert(r.0@ =~= low);
            Some(r)
        } else {
            assert(value4(high) >= 1);
            assert(value4(high) * pow2_256() >= pow2_256()) by (nonlinear_arith)
                requires
                    value4(high) >= 1,
            ;
            None
        }
    }

    /// The difference, where `other` is not the larger.
    ///
    /// Trusted: calls `primitive_types::U512::checked_sub`, documented as
    /// checked subtraction that returns `None` if overflow occurred.
    #[verifier::external_body]
    pub(crate) fn checked_sub(self, other: U512) -> (r: Option<U512>)
        ensures
            r is Some <==> self@ >= other@,
            r is Some ==> r->0@ == self@ - other@,
    {
        match primitive_types::U512(self.0).checked_sub(primitive_types::U512(other.0)) {
            Some(difference) => Some(U512(difference.0)),
            None => None,
        }
    }

    /// The quotient rounded down, where `other` is not zero.
    ///
    /// Trusted: calls `primitive_types::U512::checked_div`, documented as
    /// checked division that returns `None` if `other == 0`.
    #[verifier::external_body]
    pub(crate) fn checked_div(self, other: U512) -> (r: Option<U512>)
        ensures
            r is Some <==> other@ != 0,
            r is Some ==> r->0@ == self@ / other@,
    {
        match primitive_types::U512(self.0).checked_div(primitive_types::U512(other.0)) {
            Some(quotient) => Some(U512(quotient.0)),
            None => None,
        }
    }
}

} // verus!
