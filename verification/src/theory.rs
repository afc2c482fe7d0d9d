//! What holds of the protocol's arithmetic: exponents may be reduced modulo
//! the order of the group, an honest run is always accepted, and a run is
//! accepted only on an exponent that the verifier value cannot tell from the
//! registered one.

use crate::group::{Group, RunModel, Transcript};
use crate::primes::{is_prime, lemma_fermat_little};
use vstd::arithmetic::div_mod::{
    lemma_fundamental_div_mod,
    lemma_mod_bound,
    lemma_mul_mod_noop_general,
    lemma_small_mod,
};
use vstd::arithmetic::mul::{lemma_mul_is_associative, lemma_mul_is_commutative};
use vstd::arithmetic::power::{
    lemma1_pow,
    lemma_pow_adds,
    lemma_pow_mod_noop,
    lemma_pow_multiplies,
    pow,
};
use vstd::prelude::*;

verus! {

/// Where `g` to the power `n` is 1 modulo `p`, so is `g` to every multiple of
/// `n`.
pub proof fn lemma_power_of_multiple(g: int, n: nat, q: nat, p: int)
    requires
        p > 1,
        pow(g, n) % p == 1,
    ensures
        pow(g, n * q) % p == 1,
{
    lemma_pow_multiplies(g, n, q);
    lemma_pow_mod_noop(pow(g, n), q, p);
    lemma1_pow(q);
    lemma_small_mod(1, p as nat);
}

/// Where `g` to the power `n` is 1 modulo `p`, an exponent may be reduced
/// modulo `n` without changing the power modulo `p`.
pub proof fn lemma_exponent_reduces(g: int, n: nat, a: nat, p: int)
    requires
        p > 1,
        n > 0,
        pow(g, n) % p == 1,
    ensures
        pow(g, a % n) % p == pow(g, a) % p,
{
    let q: nat = a / n;
    let r: nat = a % n;
    lemma_fundamental_div_mod(a as int, n as int);
    assert(a == n * q + r);
    lemma_pow_adds(g, n * q, r);
    lemma_power_of_multiple(g, n, q, p);
    lemma_mul_mod_noop_general(pow(g, n * q), pow(g, r), p);
    assert((1 * pow(g, r)) % p == pow(g, a) % p);
}

/// Where `g` to the power `n` is 1 modulo `p`, every power of `g` has an
/// inverse modulo `p`, itself a power of `g`.
pub proof fn lemma_power_has_inverse(g: int, n: nat, k: nat, p: int)
    requires
        p > 1,
        n > 0,
        pow(g, n) % p == 1,
    ensures
        (pow(g, k) * pow(g, ((n - 1) * k) as nat)) % p == 1,
{
    let rest: nat = ((n - 1) * k) as nat;
    assert(k + rest == n * k) by (nonlinear_arith)
        requires
            rest == (n - 1) * k,
    ;
    lemma_pow_adds(g, k, rest);
    lemma_power_of_multiple(g, n, k, p);
}

/// Multiplying by `c` and then by its inverse modulo `p` gives back what one
/// started from, modulo `p`.
pub proof fn lemma_inverse_undoes(c: int, inverse: int, v: int, p: int)
    requires
        p > 1,
        (c * inverse) % p == 1,
    ensures
        (inverse * ((c * v) % p)) % p == v % p,
{
    lemma_mul_mod_noop_general(inverse, c * v, p);
    lemma_mul_is_associative(inverse, c, v);
    lemma_mul_is_commutative(inverse, c);
    lemma_mul_mod_noop_general(c * inverse, v, p);
    assert((1 * v) % p == v % p);
}

/// A factor with an inverse modulo `p` may be cancelled from a congruence.
pub proof fn lemma_cancel(c: int, inverse: int, a: int, b: int, p: int)
    requires
        p > 1,
        (c * inverse) % p == 1,
        (c * a) % p == (c * b) % p,
    ensures
        a % p == b % p,
{
    lemma_inverse_undoes(c, inverse, a, p);
    lemma_inverse_undoes(c, inverse, b, p);
}

/// The two sides of the verification equation, written out for a run in which
/// the prover holds `x` and draws `k` and the verifier draws `e`: the left is
/// the generator to the power `k + e * x`, the right the generator to the
/// power `k` times the verifier value to the power `e`.
pub proof fn lemma_equation_sides(group: Group, y: nat, x: nat, k: nat, e: nat)
    requires
        group.valid(),
        group.order_divides(),
    ensures
        group.power(group.generator, group.response(k, e, x)) == (pow(group.generator as int, k)
            * pow(group.generator as int, e * x)) % (group.modulus as int),
        ((group.commitment(k) * group.power(y, e)) as int) % (group.modulus as int) == (pow(
            group.generator as int,
            k,
        ) * pow(y as int, e)) % (group.modulus as int),
{
    let p = group.modulus as int;
    let g = group.generator as int;
    let n: nat = (group.modulus - 1) as nat;
    let a: nat = k + e * x;
    lemma_exponent_reduces(g, n, a, p);
    lemma_pow_adds(g, k, e * x);
    lemma_mul_mod_noop_general(pow(g, k), pow(y as int, e), p);
    lemma_mod_bound(pow(g, k), p);
    lemma_mod_bound(pow(y as int, e), p);
}

/// A run is accepted exactly when the generator to the power `e * x` equals
/// the verifier value to the power `e`, modulo the modulus. The ephemeral
/// secret `k` plays no part in the outcome.
pub proof fn lemma_acceptance_criterion(group: Group, y: nat, x: nat, k: nat, e: nat)
    requires
        group.valid(),
        group.order_divides(),
    ensures
        group.accepts(y, group.transcript(x, k, e)) <==> group.power(group.generator, e * x)
            == group.power(y, e),
{
    let p = group.modulus as int;
    let g = group.generator as int;
    let n: nat = (group.modulus - 1) as nat;
    let left = pow(g, e * x);
    let right = pow(y as int, e);
    lemma_equation_sides(group, y, x, k, e);
    lemma_mod_bound(left, p);
    lemma_mod_bound(right, p);
    if left % p == right % p {
        lemma_mul_mod_noop_general(pow(g, k), left, p);
        lemma_mul_mod_noop_general(pow(g, k), right, p);
    }
    if (pow(g, k) * left) % p == (pow(g, k) * right) % p {
        lemma_power_has_inverse(g, n, k, p);
        lemma_cancel(pow(g, k), pow(g, ((n - 1) * k) as nat), left, right, p);
    }
}

/// Under a prime modulus the order of every generator divides the modulus
/// less one.
pub proof fn lemma_prime_modulus_gives_order(group: Group)
    requires
        group.valid(),
        is_prime(group.modulus),
    ensures
        group.order_divides(),
{
    lemma_small_mod(group.generator, group.modulus);
    lemma_fermat_little(group.modulus, group.generator);
}

/// What decides a run against a registered verifier value: with both draws in
/// range, a prover that holds `other` is accepted against the value
/// registered for `x` exactly when the generator to the power `e * other`
/// equals the generator to the power `e * x`, modulo the modulus. A wrong
/// exponent passes only where the group cannot tell it from the right one.
pub proof fn lemma_outcome_against_registered(group: Group, x: nat, other: nat, k: nat, e: nat)
    requires
        group.valid(),
        group.order_divides(),
        group.in_range(k),
        group.in_range(e),
    ensures
        group.run_accepts(group.verifier_of(x), other, k, e) <==> group.power(
            group.generator,
            e * other,
        ) == group.power(group.generator, e * x),
{
    let p = group.modulus as int;
    let g = group.generator as int;
    lemma_acceptance_criterion(group, group.verifier_of(x), other, k, e);
    lemma_mod_bound(pow(g, x), p);
    lemma_pow_mod_noop(pow(g, x), e, p);
    lemma_pow_multiplies(g, x, e);
    lemma_mul_is_commutative(x as int, e as int);
}

/// Completeness: in a group whose generator has an order that divides the
/// modulus less one, a prover that holds the registered exponent is accepted
/// whatever the two parties draw within the range.
pub proof fn lemma_completeness(group: Group, x: nat, k: nat, e: nat)
    requires
        group.valid(),
        group.order_divides(),
        group.in_range(k),
        group.in_range(e),
    ensures
        group.run_accepts(group.verifier_of(x), x, k, e),
{
    lemma_outcome_against_registered(group, x, x, k, e);
}

/// Completeness under a prime modulus: a prover that holds the registered
/// exponent is accepted whatever the two parties draw within the range.
pub proof fn lemma_completeness_under_prime_modulus(group: Group, x: nat, k: nat, e: nat)
    requires
        group.valid(),
        is_prime(group.modulus),
        group.in_range(k),
        group.in_range(e),
    ensures
        group.run_accepts(group.verifier_of(x), x, k, e),
{
    lemma_prime_modulus_gives_order(group);
    lemma_completeness(group, x, k, e);
}

/// A registered verifier value is an element of the group: it lies strictly
/// between 0 and the modulus.
pub proof fn lemma_verifier_is_group_element(group: Group, x: nat)
    requires
        group.valid(),
        group.order_divides(),
    ensures
        0 < group.verifier_of(x) < group.modulus,
{
    let p = group.modulus as int;
    let g = group.generator as int;
    let n: nat = (group.modulus - 1) as nat;
    let rest = pow(g, ((n - 1) * x) as nat);
    lemma_mod_bound(pow(g, x), p);
    lemma_power_has_inverse(g, n, x, p);
    lemma_mul_mod_noop_general(pow(g, x), rest, p);
    if pow(g, x) % p == 0 {
        assert((pow(g, x) % p) * rest == 0) by (nonlinear_arith)
            requires
                pow(g, x) % p == 0,
        ;
        lemma_small_mod(0, p as nat);
        assert((pow(g, x) * rest) % p == 0);
    }
}

/// Every draw that an accepted run has used lies between 1 and the modulus
/// less two, and every response, accepted or not, lies below the modulus less
/// one.
pub proof fn lemma_run_keeps_ranges(group: Group, y: nat, x: nat, k: nat, e: nat)
    requires
        group.valid(),
    ensures
        group.response(k, e, x) < group.modulus - 1,
        group.commitment(k) < group.modulus,
        group.run_accepts(y, x, k, e) ==> 1 <= k <= group.modulus - 2 && 1 <= e <= group.modulus
            - 2,
{
    lemma_mod_bound((k + e * x) as int, group.modulus - 1);
    lemma_mod_bound(pow(group.generator as int, k), group.modulus as int);
}

/// A run that goes through all four moves ends in `Verified` or in
/// `Rejected`, and in `Verified` exactly when both draws are in range and the
/// verification equation holds.
pub proof fn lemma_full_run_outcome(group: Group, y: nat, x: nat, k: nat, e: nat)
    ensures
        group.full_run(y, x, k, e).is_terminal(),
        group.full_run(y, x, k, e) is Verified <==> group.run_accepts(y, x, k, e),
{
}

/// A run that has ended stays where it is, whatever move is tried on it.
pub proof fn lemma_ended_run_stays(group: Group, run: RunModel, v: nat)
    requires
        run.is_terminal(),
    ensures
        group.after_commit(run, v) == run,
        group.after_challenge(run, v) == run,
        group.after_response(run, v) == run,
        group.after_verify(run, v) == run,
{
}

/// The verdict on a transcript depends on the group, the verifier value and
/// the transcript alone: worked out a second time, it is the same.
pub proof fn lemma_verdict_is_repeatable(
    group: Group,
    y: nat,
    first: Transcript,
    second: Transcript,
)
    requires
        first == second,
    ensures
        group.accepts(y, first) == group.accepts(y, second),
{
}

} // verus!
