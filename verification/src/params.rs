//! Group parameters: the modulus and the generator that every participant
//! reads and nobody changes.

use crate::group::Group;
use crate::natural::BigNat;
use crate::primes::is_prime;
use crate::theory::lemma_prime_modulus_gives_order;
use crate::trusted::{big_modpow, big_sub};
use vstd::prelude::*;

verus! {

/// Why a request was turned down.
#[derive(Clone, Copy, Debug, PartialEq, Eq, Structural)]
pub enum ProtocolError {
    /// The modulus is not above 2, or the generator does not lie strictly
    /// between 1 and the modulus.
    InvalidParameters,
}

/// Validated group parameters. A value of this type always has a modulus
/// above 2 and a generator strictly between 1 and the modulus.
#[derive(Debug)]
pub struct Params {
    p: BigNat,
    g: BigNat,
}

impl View for Params {
    type V = Group;

    closed spec fn view(&self) -> Group {
        Group { modulus: self.p@, generator: self.g@ }
    }
}

impl Params {
    /// What holds of every value of this type.
    #[verifier::type_invariant]
    pub open spec fn well_formed(&self) -> bool {
        self@.valid()
    }

    /// Parameters with the given modulus and generator, or
    /// `InvalidParameters` where they fail the check of [`Group::valid`].
    pub fn new(modulus: BigNat, generator: BigNat) -> (r: Result<Params, ProtocolError>)
        ensures
            match r {
                Ok(params) => {
                    &&& params@.modulus == modulus@
                    &&& params@.generator == generator@
                    &&& params@.valid()
                },
                Err(e) => {
                    &&& e == ProtocolError::InvalidParameters
                    &&& !(Group { modulus: modulus@, generator: generator@ }).valid()
                },
            },
    {
        let one = BigNat::from_u64(1);
        let two = BigNat::from_u64(2);
        if two.lt(&modulus) && one.lt(&generator) && generator.lt(&modulus) {
            Ok(Params { p: modulus, g: generator })
        } else {
            Err(ProtocolError::InvalidParameters)
        }
    }

    /// Whether the generator to the power of the modulus less one is 1, as it
    /// is under every prime modulus. An honest prover can count on being
    /// accepted only where this holds.
    pub fn generator_order_divides(&self) -> (r: bool)
        ensures
            r == self@.order_divides(),
    {
        proof {
            use_type_invariant(self);
        }
        let one = BigNat::from_u64(1);
        let order = big_sub(&self.p, &one);
        big_modpow(&self.g, &order, &self.p) == one
    }

    /// The modulus.
    pub fn modulus(&self) -> (m: &BigNat)
        ensures
            m@ == self@.modulus,
            self@.valid(),
    {
        proof {
            use_type_invariant(self);
        }
        &self.p
    }

    /// The generator.
    pub fn generator(&self) -> (g: &BigNat)
        ensures
            g@ == self@.generator,
            self@.valid(),
    {
        proof {
            use_type_invariant(self);
        }
        &self.g
    }
}

/// Demonstration parameters: modulus 23 and generator 5. A group this small
/// protects nothing; real parameters come from a vetted safe-prime procedure
/// and go through [`Params::new`].
pub fn generate_params() -> (params: Params)
    ensures
        params@ == (Group { modulus: 23, generator: 5 }),
        params@.valid(),
        is_prime(params@.modulus),
        params@.order_divides(),
{
    proof {
        assert forall|d: nat| 1 < d < 23 implies #[trigger] (23nat % d) != 0 by {
            assert(d == 2 || d == 3 || d == 4 || d == 5 || d == 6 || d == 7 || d == 8 || d == 9
                || d == 10 || d == 11 || d == 12 || d == 13 || d == 14 || d == 15 || d == 16 || d
                == 17 || d == 18 || d == 19 || d == 20 || d == 21 || d == 22);
        }
        lemma_prime_modulus_gives_order(Group { modulus: 23, generator: 5 });
    }
    Params { p: BigNat::from_u64(23), g: BigNat::from_u64(5) }
}

} // verus!
