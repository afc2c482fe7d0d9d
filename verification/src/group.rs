//! The arithmetic of the protocol, over plain natural numbers.

use vstd::arithmetic::power::pow;
use vstd::prelude::*;

verus! {

/// The three messages of one run: what the prover commits to, what the
/// verifier asks, and what the prover answers.
pub struct Transcript {
    pub commitment: nat,
    pub challenge: nat,
    pub response: nat,
}

/// Where a run stands, with what has been drawn and said so far. A run starts
/// at `Start` and ends at `Verified` or at `Rejected`; from there it moves no
/// more.
pub enum RunModel {
    Start,
    CommitSent { secret: nat, commitment: nat },
    ChallengeSent { secret: nat, commitment: nat, challenge: nat },
    ResponseSent { transcript: Transcript },
    Verified,
    Rejected,
}

impl RunModel {
    /// Whether the run has ended.
    pub open spec fn is_terminal(self) -> bool {
        self is Verified || self is Rejected
    }
}

/// A group as the protocol sees it: a modulus and a generator.
pub struct Group {
    pub modulus: nat,
    pub generator: nat,
}

impl Group {
    /// What a constructor checks: the modulus is above 2 and the generator
    /// lies strictly between 1 and the modulus.
    pub open spec fn valid(self) -> bool {
        self.modulus > 2 && 1 < self.generator < self.modulus
    }

    /// `base` to the power `exponent`, reduced modulo the modulus.
    pub open spec fn power(self, base: nat, exponent: nat) -> nat {
        (pow(base as int, exponent) % (self.modulus as int)) as nat
    }

    /// Whether the order of the generator divides the modulus less one: the
    /// generator to that power is 1. This holds of every generator of a prime
    /// modulus.
    pub open spec fn order_divides(self) -> bool {
        self.power(self.generator, (self.modulus - 1) as nat) == 1
    }

    /// Whether `v` may serve as an ephemeral secret or as a challenge: it lies
    /// between 1 and the modulus less two, both included.
    pub open spec fn in_range(self, v: nat) -> bool {
        1 <= v <= self.modulus - 2
    }

    /// The public value that stands for the exponent `x`.
    pub open spec fn verifier_of(self, x: nat) -> nat {
        self.power(self.generator, x)
    }

    /// The commitment to the ephemeral secret `k`.
    pub open spec fn commitment(self, k: nat) -> nat {
        self.power(self.generator, k)
    }

    /// The answer to the challenge `e` of a prover that committed to `k` and
    /// holds the exponent `x`.
    pub open spec fn response(self, k: nat, e: nat, x: nat) -> nat {
        (((k + e * x) as int) % (self.modulus - 1)) as nat
    }

    /// The verification equation: the generator to the response equals the
    /// commitment times the verifier value `y` to the challenge, modulo the
    /// modulus.
    pub open spec fn accepts(self, y: nat, t: Transcript) -> bool {
        self.power(self.generator, t.response) == ((t.commitment * self.power(
            y,
            t.challenge,
        )) as int) % (self.modulus as int)
    }

    /// The transcript of a run in which the prover holds `x` and draws `k`,
    /// and the verifier draws `e`.
    pub open spec fn transcript(self, x: nat, k: nat, e: nat) -> Transcript {
        Transcript {
            commitment: self.commitment(k),
            challenge: e,
            response: self.response(k, e, x),
        }
    }

    /// The prover's first move: from `Start`, with a secret `k` in range, the
    /// commitment is sent. A run that has ended stays where it is; anything
    /// else ends the run in `Rejected`.
    pub open spec fn after_commit(self, run: RunModel, k: nat) -> RunModel {
        match run {
            RunModel::Start if self.in_range(k) => RunModel::CommitSent {
                secret: k,
                commitment: self.commitment(k),
            },
            RunModel::Verified => RunModel::Verified,
            _ => RunModel::Rejected,
        }
    }

    /// The verifier's move: from `CommitSent`, with a challenge `e` in range,
    /// the challenge is sent. A run that has ended stays where it is; anything
    /// else ends the run in `Rejected`.
    pub open spec fn after_challenge(self, run: RunModel, e: nat) -> RunModel {
        match run {
            RunModel::CommitSent { secret, commitment } if self.in_range(e) => {
                RunModel::ChallengeSent { secret, commitment, challenge: e }
            },
            RunModel::Verified => RunModel::Verified,
            _ => RunModel::Rejected,
        }
    }

    /// The prover's second move: from `ChallengeSent`, the response of a prover
    /// that holds the exponent `x` is sent, and the secret is forgotten. A run
    /// that has ended stays where it is; anything else ends the run in
    /// `Rejected`.
    pub open spec fn after_response(self, run: RunModel, x: nat) -> RunModel {
        match run {
            RunModel::ChallengeSent { secret, commitment, challenge } => RunModel::ResponseSent {
                transcript: Transcript {
                    commitment,
                    challenge,
                    response: self.response(secret, challenge, x),
                },
            },
            RunModel::Verified => RunModel::Verified,
            _ => RunModel::Rejected,
        }
    }

    /// The verifier's decision: from `ResponseSent`, the run is `Verified` where
    /// the verification equation holds of the transcript and the verifier
    /// value `y`, and `Rejected` where it does not. A run that has ended stays
    /// where it is; anything else ends the run in `Rejected`.
    pub open spec fn after_verify(self, run: RunModel, y: nat) -> RunModel {
        match run {
            RunModel::ResponseSent { transcript } if self.accepts(y, transcript) => {
                RunModel::Verified
            },
            RunModel::Verified => RunModel::Verified,
            _ => RunModel::Rejected,
        }
    }

    /// Where a run ends that goes through all four moves from `Start`.
    pub open spec fn full_run(self, y: nat, x: nat, k: nat, e: nat) -> RunModel {
        self.after_verify(
            self.after_response(self.after_challenge(self.after_commit(RunModel::Start, k), e), x),
            y,
        )
    }

    /// The outcome of a whole run against the verifier value `y`: both draws
    /// are in range and the verification equation holds of the transcript.
    pub open spec fn run_accepts(self, y: nat, x: nat, k: nat, e: nat) -> bool {
        &&& self.in_range(k)
        &&& self.in_range(e)
        &&& self.accepts(y, self.transcript(x, k, e))
    }
}

} // verus!
