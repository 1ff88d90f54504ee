//! Unbounded non-negative integers, stored as little-endian base-2^32 limbs.
//! The arithmetic itself is done by `num_bigint`; this module states what
//! each operation returns in terms of the mathematical value of the limbs.

use num_bigint::BigUint;
use num_bigint::RandBigInt;
use vstd::arithmetic::power::pow;
use vstd::prelude::*;

verus! {

/// The value of little-endian base-2^32 limbs.
pub open spec fn limbs_value(d: Seq<u32>) -> nat
    decreases d.len(),
{
    if d.len() == 0 {
        0
    } else {
        d[0] as nat + 0x1_0000_0000 * limbs_value(d.drop_first())
    }
}

/// The value of a big-endian byte string (the empty string is zero).
pub open spec fn be_value(b: Seq<u8>) -> nat
    decreases b.len(),
{
    if b.len() == 0 {
        0
    } else {
        be_value(b.drop_last()) * 256 + b.last() as nat
    }
}

/// A non-negative integer of any size.
#[derive(Debug)]
pub struct BigNum {
    limbs: Vec<u32>,
}

impl View for BigNum {
    type V = nat;

    closed spec fn view(&self) -> nat {
        limbs_value(self.limbs@)
    }
}

/// Relies on `BigUint * BigUint`: the exact product.
#[verifier::external_body]
fn product(a: &BigNum, b: &BigNum) -> (r: BigNum)
    ensures
        r@ == a@ * b@,
{
    let x = BigUint::new(a.limbs.clone()) * BigUint::new(b.limbs.clone());
    BigNum { limbs: x.to_u32_digits() }
}

/// Relies on `BigUint + BigUint`: the exact sum.
#[verifier::external_body]
fn sum(a: &BigNum, b: &BigNum) -> (r: BigNum)
    ensures
        r@ == a@ + b@,
{
    let x = BigUint::new(a.limbs.clone()) + BigUint::new(b.limbs.clone());
    BigNum { limbs: x.to_u32_digits() }
}

/// Relies on `BigUint - BigUint`, which panics when the result would be negative.
#[verifier::external_body]
fn difference(a: &BigNum, b: &BigNum) -> (r: BigNum)
    requires
        a@ >= b@,
    ensures
        r@ == a@ - b@,
{
    let x = BigUint::new(a.limbs.clone()) - BigUint::new(b.limbs.clone());
    BigNum { limbs: x.to_u32_digits() }
}

/// Relies on `BigUint >= BigUint`: the numeric order.
#[verifier::external_body]
fn at_least(a: &BigNum, b: &BigNum) -> (r: bool)
    ensures
        r == (a@ >= b@),
{
    BigUint::new(a.limbs.clone()) >= BigUint::new(b.limbs.clone())
}

/// Relies on `BigUint == BigUint`: numeric equality.
#[verifier::external_body]
fn same_value(a: &BigNum, b: &BigNum) -> (r: bool)
    ensures
        r == (a@ == b@),
{
    BigUint::new(a.limbs.clone()) == BigUint::new(b.limbs.clone())
}

/// Relies on `BigUint::modpow`: `(base ^ exponent) % modulus`; it panics on a
/// zero modulus.
#[verifier::external_body]
fn power_mod(base: &BigNum, exponent: &BigNum, modulus: &BigNum) -> (r: BigNum)
    requires
        modulus@ > 0,
    ensures
        r@ == pow(base@ as int, exponent@) % (modulus@ as int),
{
    let b = BigUint::new(base.limbs.clone());
    let x = b.modpow(&BigUint::new(exponent.limbs.clone()), &BigUint::new(modulus.limbs.clone()));
    BigNum { limbs: x.to_u32_digits() }
}

/// Relies on `BigUint::from_bytes_be`: the number that the big-endian bytes spell.
#[verifier::external_body]
fn decode_be(bytes: &[u8]) -> (r: BigNum)
    ensures
        r@ == be_value(bytes@),
{
    BigNum { limbs: BigUint::from_bytes_be(bytes).to_u32_digits() }
}

/// Relies on `BigUint::to_bytes_be`: big-endian bytes that spell the number.
#[verifier::external_body]
fn encode_be(a: &BigNum) -> (r: Vec<u8>)
    ensures
        be_value(r@) == a@,
{
    BigUint::new(a.limbs.clone()).to_bytes_be()
}

/// Relies on `RandBigInt::gen_biguint_below` over the thread-local generator:
/// some value below the bound; it panics on a zero bound.
#[verifier::external_body]
fn draw_below(limit: &BigNum) -> (r: BigNum)
    requires
        limit@ > 0,
    ensures
        r@ < limit@,
{
    let x = rand::thread_rng().gen_biguint_below(&BigUint::new(limit.limbs.clone()));
    BigNum { limbs: x.to_u32_digits() }
}

impl BigNum {
    /// The number `n`.
    pub fn from_u32(n: u32) -> (r: BigNum)
        ensures
            r@ == n as nat,
    {
        let r = BigNum { limbs: vec![n] };
        proof {
            reveal_with_fuel(limbs_value, 2);
            assert(r.limbs@.drop_first().len() == 0);
        }
        r
    }

    /// The number zero.
    pub fn zero() -> (r: BigNum)
        ensures
            r@ == 0,
    {
        BigNum { limbs: Vec::new() }
    }

    /// The number that the big-endian bytes spell (no bytes spell zero).
    pub fn from_bytes_be(bytes: &[u8]) -> (r: BigNum)
        ensures
            r@ == be_value(bytes@),
    {
        decode_be(bytes)
    }

    /// Big-endian bytes that spell this number.
    pub fn to_bytes_be(&self) -> (r: Vec<u8>)
        ensures
            be_value(r@) == self@,
    {
        encode_be(self)
    }

    /// `self * other`.
    pub fn mul(&self, other: &BigNum) -> (r: BigNum)
        ensures
            r@ == self@ * other@,
    {
        product(self, other)
    }

    /// `self + other`.
    pub fn add(&self, other: &BigNum) -> (r: BigNum)
        ensures
            r@ == self@ + other@,
    {
        sum(self, other)
    }

    /// `self - other`, defined when `other` does not exceed `self`.
    pub fn sub(&self, other: &BigNum) -> (r: BigNum)
        requires
            self@ >= other@,
        ensures
            r@ == self@ - other@,
    {
        difference(self, other)
    }

    /// Whether `self >= other`.
    pub fn ge(&self, other: &BigNum) -> (r: bool)
        ensures
            r == (self@ >= other@),
    {
        at_least(self, other)
    }

    /// Whether the two numbers are equal.
    pub fn equals(&self, other: &BigNum) -> (r: bool)
        ensures
            r == (self@ == other@),
    {
        same_value(self, other)
    }

    /// `self ^ exponent mod modulus`, for a non-zero modulus.
    pub fn modpow(&self, exponent: &BigNum, modulus: &BigNum) -> (r: BigNum)
        requires
            modulus@ > 0,
        ensures
            r@ == pow(self@ as int, exponent@) % (modulus@ as int),
    {
        power_mod(self, exponent, modulus)
    }

    /// `self mod modulus`, for a non-zero modulus.
    pub fn rem(&self, modulus: &BigNum) -> (r: BigNum)
        requires
            modulus@ > 0,
        ensures
            r@ == self@ % modulus@,
            r@ < modulus@,
    {
        let one = BigNum::from_u32(1);
        let r = power_mod(self, &one, modulus);
        proof {
            vstd::arithmetic::power::lemma_pow1(self@ as int);
        }
        r
    }

    /// A value drawn below a non-zero bound by a random generator.
    pub fn random_below(limit: &BigNum) -> (r: BigNum)
        requires
            limit@ > 0,
        ensures
            r@ < limit@,
    {
        draw_below(limit)
    }
}

impl Clone for BigNum {
    fn clone(&self) -> (r: BigNum)
        ensures
            r@ == self@,
    {
        BigNum { limbs: self.limbs.clone() }
    }
}

impl PartialEq for BigNum {
    fn eq(&self, other: &BigNum) -> (r: bool) {
        same_value(self, other)
    }
}

impl vstd::std_specs::cmp::PartialEqSpecImpl for BigNum {
    open spec fn obeys_eq_spec() -> bool {
        true
    }

    open spec fn eq_spec(&self, other: &BigNum) -> bool {
        self@ == other@
    }
}

} // verus!
