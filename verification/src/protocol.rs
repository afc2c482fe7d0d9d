//! The identification protocol: commit, challenge, response, verification.

use crate::credentials::{derived_exponent, hash_to_int, StoredCredentials, UserCredentials};
use crate::group::{RunModel, Transcript};
use crate::natural::BigNat;
use crate::params::Params;
use crate::primes::is_prime;
use crate::theory::{lemma_completeness, lemma_prime_modulus_gives_order};
use crate::trusted::{big_add, big_modpow, big_mul, big_rem, big_sub, random_below};
use vstd::prelude::*;

verus! {

/// The three messages of one run. A transcript belongs to one login attempt
/// and is thrown away after it.
#[derive(Debug)]
pub struct ProofTranscript {
    pub commitment: BigNat,
    pub challenge: BigNat,
    pub response: BigNat,
}

impl View for ProofTranscript {
    type V = Transcript;

    open spec fn view(&self) -> Transcript {
        Transcript {
            commitment: self.commitment@,
            challenge: self.challenge@,
            response: self.response@,
        }
    }
}

/// Whether `v` may serve as an ephemeral secret or as a challenge.
pub fn in_range(params: &Params, v: &BigNat) -> (r: bool)
    ensures
        r == params@.in_range(v@),
{
    let one = BigNat::from_u64(1);
    let two = BigNat::from_u64(2);
    let top = big_sub(params.modulus(), &two);
    one.le(v) && v.le(&top)
}

/// A fresh random number between 1 and the modulus less two, both included.
/// The prover draws its ephemeral secret with it and the verifier its
/// challenge, each with a call of its own.
pub fn sample_exponent(params: &Params) -> (v: BigNat)
    ensures
        params@.in_range(v@),
{
    let one = BigNat::from_u64(1);
    let two = BigNat::from_u64(2);
    let count = big_sub(params.modulus(), &two);
    let below = random_below(&count);
    big_add(&below, &one)
}

/// The commitment to the ephemeral secret `k`.
pub fn commit(params: &Params, k: &BigNat) -> (commitment: BigNat)
    ensures
        commitment@ == params@.commitment(k@),
        commitment@ < params@.modulus,
{
    big_modpow(params.generator(), k, params.modulus())
}

/// The answer to the challenge `e` of a prover that committed to `k` and
/// holds the exponent `x`.
pub fn respond(params: &Params, k: &BigNat, e: &BigNat, x: &BigNat) -> (response: BigNat)
    ensures
        response@ == params@.response(k@, e@, x@),
        response@ < params@.modulus - 1,
{
    let one = BigNat::from_u64(1);
    let order = big_sub(params.modulus(), &one);
    let product = big_mul(e, x);
    let sum = big_add(k, &product);
    big_rem(&sum, &order)
}

/// Whether the verification equation holds of `transcript` and the verifier
/// value `y`. The outcome depends on nothing but the parameters, `y` and the
/// transcript.
pub fn verify_transcript(params: &Params, y: &BigNat, transcript: &ProofTranscript) -> (accepted:
    bool)
    ensures
        accepted == params@.accepts(y@, transcript@),
{
    let p = params.modulus();
    let left = big_modpow(params.generator(), &transcript.response, p);
    let power = big_modpow(y, &transcript.challenge, p);
    let product = big_mul(&transcript.commitment, &power);
    let right = big_rem(&product, p);
    left == right
}

/// Where a run stands, with what has been drawn and said so far. The states
/// up to `ChallengeSent` hold the prover's secret, so they are not for
/// printing.
pub enum RunState {
    Start,
    CommitSent { secret: BigNat, commitment: BigNat },
    ChallengeSent { secret: BigNat, commitment: BigNat, challenge: BigNat },
    ResponseSent { transcript: ProofTranscript },
    Verified,
    Rejected,
}

impl View for RunState {
    type V = RunModel;

    open spec fn view(&self) -> RunModel {
        match self {
            RunState::Start => RunModel::Start,
            RunState::CommitSent { secret, commitment } => RunModel::CommitSent {
                secret: secret@,
                commitment: commitment@,
            },
            RunState::ChallengeSent { secret, commitment, challenge } => RunModel::ChallengeSent {
                secret: secret@,
                commitment: commitment@,
                challenge: challenge@,
            },
            RunState::ResponseSent { transcript } => RunModel::ResponseSent {
                transcript: transcript@,
            },
            RunState::Verified => RunModel::Verified,
            RunState::Rejected => RunModel::Rejected,
        }
    }
}

impl RunState {
    /// A run that has not begun.
    pub fn new() -> (run: RunState)
        ensures
            run@ == RunModel::Start,
    {
        RunState::Start
    }

    /// The prover commits to the ephemeral secret `k`.
    pub fn commit(self, params: &Params, k: BigNat) -> (next: RunState)
        ensures
            next@ == params@.after_commit(self@, k@),
    {
        match self {
            RunState::Start => {
                if in_range(params, &k) {
                    let commitment = commit(params, &k);
                    RunState::CommitSent { secret: k, commitment }
                } else {
                    RunState::Rejected
                }
            },
            RunState::Verified => RunState::Verified,
            _ => RunState::Rejected,
        }
    }

    /// The verifier sends the challenge `e`.
    pub fn challenge(self, params: &Params, e: BigNat) -> (next: RunState)
        ensures
            next@ == params@.after_challenge(self@, e@),
    {
        match self {
            RunState::CommitSent { secret, commitment } => {
                if in_range(params, &e) {
                    RunState::ChallengeSent { secret, commitment, challenge: e }
                } else {
                    RunState::Rejected
                }
            },
            RunState::Verified => RunState::Verified,
            _ => RunState::Rejected,
        }
    }

    /// The prover, holding the exponent `x`, answers the challenge.
    pub fn respond(self, params: &Params, x: &BigNat) -> (next: RunState)
        ensures
            next@ == params@.after_response(self@, x@),
    {
        match self {
            RunState::ChallengeSent { secret, commitment, challenge } => {
                let response = respond(params, &secret, &challenge, x);
                RunState::ResponseSent {
                    transcript: ProofTranscript { commitment, challenge, response },
                }
            },
            RunState::Verified => RunState::Verified,
            _ => RunState::Rejected,
        }
    }

    /// The verifier, holding the verifier value `y`, decides.
    pub fn verify(self, params: &Params, y: &BigNat) -> (next: RunState)
        ensures
            next@ == params@.after_verify(self@, y@),
    {
        match self {
            RunState::ResponseSent { transcript } => {
                if verify_transcript(params, y, &transcript) {
                    RunState::Verified
                } else {
                    RunState::Rejected
                }
            },
            RunState::Verified => RunState::Verified,
            _ => RunState::Rejected,
        }
    }

    /// Whether the run has ended in acceptance.
    pub fn is_verified(&self) -> (r: bool)
        ensures
            r == (self@ is Verified),
    {
        match self {
            RunState::Verified => true,
            _ => false,
        }
    }
}

/// One whole run with everything drawn beforehand: the prover holds the
/// exponent `x` and has drawn `k`, the verifier holds `stored` and has drawn
/// `e`. The run is rejected where `k` or `e` is out of range.
pub fn identify(
    params: &Params,
    stored: &StoredCredentials,
    x: &BigNat,
    k: BigNat,
    e: BigNat,
) -> (accepted: bool)
    ensures
        accepted == params@.run_accepts(stored.y@, x@, k@, e@),
        accepted == (params@.full_run(stored.y@, x@, k@, e@) is Verified),
{
    let run = RunState::new().commit(params, k).challenge(params, e).respond(params, x).verify(
        params,
        &stored.y,
    );
    run.is_verified()
}

/// One login attempt: a whole run in which the prover derives its exponent
/// from the password of `user` and both parties draw fresh random numbers.
/// The result is the verifier's decision.
pub fn login(params: &Params, stored: &StoredCredentials, user: &UserCredentials) -> (accepted:
    bool)
    ensures
        exists|k: nat, e: nat|
            params@.in_range(k) && params@.in_range(e) && accepted
                == #[trigger] params@.run_accepts(
                stored.y@,
                derived_exponent(user.password@),
                k,
                e,
            ),
        (is_prime(params@.modulus) || params@.order_divides()) && stored.y@
            == params@.verifier_of(derived_exponent(user.password@)) ==> accepted,
{
    let k = sample_exponent(params);
    let e = sample_exponent(params);
    let x = hash_to_int(user.password.as_slice());
    proof {
        use_type_invariant(params);
        if is_prime(params@.modulus) {
            lemma_prime_modulus_gives_order(params@);
        }
        if params@.order_divides() {
            lemma_completeness(params@, x@, k@, e@);
        }
    }
    identify(params, stored, &x, k, e)
}

} // verus!
