//! Credentials: what a user holds, what the verifier stores, and how the one
//! becomes the other.

use crate::group::Group;
use crate::natural::{be_value, BigNat};
use crate::params::Params;
use crate::primes::is_prime;
use crate::theory::{lemma_prime_modulus_gives_order, lemma_verifier_is_group_element};
use crate::trusted::{big_modpow, sha256, sha256_digest};
use vstd::prelude::*;
use vstd::string::StringSliceAdditionalSpecFns;

verus! {

/// The exponent that stands for a password: its SHA-256 digest read as a
/// big-endian number. Nothing is reduced here; the exponent is reduced where
/// it is used.
pub open spec fn derived_exponent(password: Seq<u8>) -> nat {
    be_value(sha256(password))
}

/// Equal passwords stand for equal exponents.
pub proof fn lemma_derivation_is_deterministic(first: Seq<u8>, second: Seq<u8>)
    requires
        first == second,
    ensures
        derived_exponent(first) == derived_exponent(second),
{
}

/// The exponent that stands for the password `input`. To turn a digest that
/// is already at hand into an exponent, use [`BigNat::from_bytes_be`].
pub fn hash_to_int(input: &[u8]) -> (x: BigNat)
    ensures
        x@ == derived_exponent(input@),
{
    let digest = sha256_digest(input);
    BigNat::from_bytes_be(digest.as_slice())
}

/// What a user presents: a name and a password. It lives only as long as a
/// registration or a login takes, and it is not for printing.
pub struct UserCredentials {
    pub username: String,
    pub password: Vec<u8>,
}

impl UserCredentials {
    /// Credentials from a name and a password given as text. The password is
    /// the UTF-8 bytes of the text.
    pub fn from_text(username: &str, password: &str) -> (user: UserCredentials)
        ensures
            user.username@ == username@,
            user.password@ == password.spec_bytes(),
    {
        UserCredentials {
            username: username.to_owned(),
            password: vstd::slice::slice_to_vec(password.as_bytes()),
        }
    }
}

/// What the verifier keeps of a user: the name and the public value
/// `generator ^ x mod modulus`, where `x` is the exponent of the password.
#[derive(Debug)]
pub struct StoredCredentials {
    pub username: String,
    pub y: BigNat,
}

impl StoredCredentials {
    /// Whether the stored value is an element of `group`: it lies strictly
    /// between 0 and the modulus.
    pub open spec fn is_element_of(&self, group: Group) -> bool {
        0 < self.y@ < group.modulus
    }

    /// Whether the stored value is an element of the group of `params`.
    pub fn is_element(&self, params: &Params) -> (r: bool)
        ensures
            r == self.is_element_of(params@),
    {
        let zero = BigNat::from_u64(0);
        zero.lt(&self.y) && self.y.lt(params.modulus())
    }

    /// The record of `username` for a user whose password has the exponent
    /// `x`.
    pub fn from_exponent(params: &Params, username: String, x: &BigNat) -> (stored:
        StoredCredentials)
        ensures
            stored.username == username,
            stored.y@ == params@.verifier_of(x@),
            stored.y@ < params@.modulus,
            is_prime(params@.modulus) || params@.order_divides() ==> stored.is_element_of(params@),
    {
        let p = params.modulus();
        let g = params.generator();
        let y = big_modpow(g, x, p);
        proof {
            if is_prime(params@.modulus) {
                lemma_prime_modulus_gives_order(params@);
            }
            if params@.order_divides() {
                lemma_verifier_is_group_element(params@, x@);
            }
        }
        StoredCredentials { username, y }
    }
}

/// Registers `user`: derives the exponent of the password and stores the
/// public value that stands for it, under the user's name.
pub fn register_user(params: &Params, user: &UserCredentials) -> (stored: StoredCredentials)
    ensures
        stored.username == user.username,
        stored.y@ == params@.verifier_of(derived_exponent(user.password@)),
        stored.y@ < params@.modulus,
        is_prime(params@.modulus) || params@.order_divides() ==> stored.is_element_of(params@),
{
    let x = hash_to_int(user.password.as_slice());
    StoredCredentials::from_exponent(params, user.username.clone(), &x)
}

} // verus!
