//! The calls that leave this library: big-number arithmetic from `num-bigint`,
//! random numbers from `rand`, and SHA-256 from `sha2`. Verus takes the
//! contracts in this file on trust; everything else in the library is proved
//! from them.

use crate::natural::BigNat;
use num_bigint::{BigUint, RandBigInt};
use sha2::{Digest, Sha256};
use vstd::arithmetic::power::pow;
use vstd::prelude::*;

verus! {

/// The SHA-256 digest of `message`, as `sha2` computes it.
pub uninterp spec fn sha256(message: Seq<u8>) -> Seq<u8>;

/// `Sha256::digest` from `sha2`: the digest of `message`. The contract only
/// names the result; it claims that equal messages have equal digests.
#[verifier::external_body]
pub(crate) fn sha256_digest(message: &[u8]) -> (digest: Vec<u8>)
    ensures
        digest@ == sha256(message@),
{
    Sha256::digest(message).to_vec()
}

/// `+` on `BigUint`: the sum of the two numbers.
///
/// Here and in every function below the operands go in through
/// `BigUint::from_bytes_be` and the result comes back through
/// `BigUint::to_bytes_be`. The contracts speak of the numbers that the bytes
/// denote, so they also claim that these two read and write a number most
/// significant byte first, as `be_value` does.
#[verifier::external_body]
pub(crate) fn big_add(a: &BigNat, b: &BigNat) -> (r: BigNat)
    ensures
        r@ == a@ + b@,
{
    let sum = BigUint::from_bytes_be(&a.bytes) + BigUint::from_bytes_be(&b.bytes);
    BigNat { bytes: sum.to_bytes_be() }
}

/// `-` on `BigUint`: the difference of the two numbers. `BigUint` panics where
/// the result would be negative, so `b` must not exceed `a`.
#[verifier::external_body]
pub(crate) fn big_sub(a: &BigNat, b: &BigNat) -> (r: BigNat)
    requires
        b@ <= a@,
    ensures
        r@ == a@ - b@,
{
    let difference = BigUint::from_bytes_be(&a.bytes) - BigUint::from_bytes_be(&b.bytes);
    BigNat { bytes: difference.to_bytes_be() }
}

/// `*` on `BigUint`: the product of the two numbers.
#[verifier::external_body]
pub(crate) fn big_mul(a: &BigNat, b: &BigNat) -> (r: BigNat)
    ensures
        r@ == a@ * b@,
{
    let product = BigUint::from_bytes_be(&a.bytes) * BigUint::from_bytes_be(&b.bytes);
    BigNat { bytes: product.to_bytes_be() }
}

/// `%` on `BigUint`: the remainder of `a` on division by `m`. `BigUint` panics
/// on a zero divisor, so `m` must not be zero.
#[verifier::external_body]
pub(crate) fn big_rem(a: &BigNat, m: &BigNat) -> (r: BigNat)
    requires
        m@ != 0,
    ensures
        r@ == a@ % m@,
{
    let remainder = BigUint::from_bytes_be(&a.bytes) % BigUint::from_bytes_be(&m.bytes);
    BigNat { bytes: remainder.to_bytes_be() }
}

/// `BigUint::modpow`: `base` to the power `exponent`, reduced modulo
/// `modulus`. `BigUint` panics on a zero modulus, so `modulus` must not be
/// zero.
#[verifier::external_body]
pub(crate) fn big_modpow(base: &BigNat, exponent: &BigNat, modulus: &BigNat) -> (r: BigNat)
    requires
        modulus@ != 0,
    ensures
        r@ == pow(base@ as int, exponent@) % (modulus@ as int),
{
    let b = BigUint::from_bytes_be(&base.bytes);
    let e = BigUint::from_bytes_be(&exponent.bytes);
    let m = BigUint::from_bytes_be(&modulus.bytes);
    BigNat { bytes: b.modpow(&e, &m).to_bytes_be() }
}

/// `RandBigInt::gen_biguint_below` on `rand::thread_rng()`: a random number
/// below `bound`. The contract states the range and nothing else, so two calls
/// may differ. The outside function panics on a zero bound, so `bound` must
/// not be zero. It draws until a draw falls below the bound, and the
/// generator panics where the system cannot seed it; no argument avoids
/// either.
#[verifier::external_body]
pub(crate) fn random_below(bound: &BigNat) -> (r: BigNat)
    requires
        bound@ != 0,
    ensures
        r@ < bound@,
{
    let mut rng = rand::thread_rng();
    BigNat { bytes: rng.gen_biguint_below(&BigUint::from_bytes_be(&bound.bytes)).to_bytes_be() }
}

} // verus!
