//! Password-based identification in the style of Schnorr, over the
//! multiplicative group of a prime modulus.
//!
//! A user registers once: the password is hashed to an exponent `x`, and the
//! verifier stores `y = g ^ x mod p`. To log in, the prover commits to a fresh
//! secret `k` with `r = g ^ k mod p`, the verifier answers with a fresh
//! challenge `e`, the prover responds with `s = (k + e * x) mod (p - 1)`, and
//! the verifier accepts where `g ^ s = r * y ^ e (mod p)`. The password and
//! the exponent never leave the prover.
//!
//! The modules:
//! - [`natural`]: natural numbers of any size;
//! - [`params`]: validated group parameters;
//! - [`credentials`]: password derivation and registration;
//! - [`protocol`]: the four moves of a run, the run as a state machine, and a
//!   whole login;
//! - [`group`]: the arithmetic of all this over plain numbers, which the
//!   contracts of the other modules speak of;
//! - [`theory`] and [`primes`]: what is proved of that arithmetic, among it
//!   that an honest prover is always accepted under a prime modulus;
//! - [`trusted`]: the calls into `num-bigint`, `rand` and `sha2`, whose
//!   contracts are taken on trust.
//!
//! What this library does not give: the password is hashed without a salt,
//! so whoever obtains a stored value can try passwords against it offline;
//! this is an identification scheme, not a password-authenticated key
//! exchange. Nothing here runs in constant time, nothing binds a run to a
//! session, and nothing checks that a modulus is prime.

pub mod credentials;
pub mod group;
pub mod natural;
pub mod params;
pub mod primes;
pub mod protocol;
pub mod theory;
pub mod trusted;
