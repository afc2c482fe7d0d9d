//! Prime moduli: a product is divisible by a prime only where a factor is,
//! and every number that a prime does not divide has an order that divides
//! the prime less one.

use vstd::arithmetic::div_mod::{
    lemma_fundamental_div_mod,
    lemma_mod_bound,
    lemma_mod_equivalence,
    lemma_mod_multiples_basic,
    lemma_mul_mod_noop_general,
    lemma_small_mod,
};
use vstd::arithmetic::power::pow;
use vstd::prelude::*;

verus! {

/// Whether `p` is prime: above 1 and divisible by nothing strictly between 1
/// and itself.
pub open spec fn is_prime(p: nat) -> bool {
    p > 1 && forall|d: nat| 1 < d < p ==> #[trigger] (p % d) != 0
}

/// Where a prime divides `a * b` and `a` lies strictly between 0 and the
/// prime, the prime divides `b`.
pub proof fn lemma_prime_divides_other_factor(p: nat, a: nat, b: int)
    requires
        is_prime(p),
        0 < a < p,
        (a * b) % (p as int) == 0,
    ensures
        b % (p as int) == 0,
    decreases a,
{
    let pi = p as int;
    if a == 1 {
        assert(1 * b == b);
    } else {
        let q: int = pi / (a as int);
        let r: nat = p % a;
        assert(r != 0);
        lemma_fundamental_div_mod(pi, a as int);
        let m: int = (a * b) / pi;
        lemma_fundamental_div_mod(a * b, pi);
        assert(r * b == pi * (b - q * m)) by (nonlinear_arith)
            requires
                pi == a * q + r,
                a * b == pi * m,
        ;
        lemma_mod_multiples_basic(b - q * m, pi);
        assert((b - q * m) * pi == pi * (b - q * m)) by (nonlinear_arith);
        lemma_prime_divides_other_factor(p, r, b);
    }
}

/// Euclid's lemma: a prime that divides a product divides one of the factors.
pub proof fn lemma_prime_divides_a_factor(p: nat, a: int, b: int)
    requires
        is_prime(p),
        (a * b) % (p as int) == 0,
    ensures
        a % (p as int) == 0 || b % (p as int) == 0,
{
    let pi = p as int;
    let reduced = a % pi;
    if reduced != 0 {
        lemma_mul_mod_noop_general(a, b, pi);
        lemma_prime_divides_other_factor(p, reduced as nat, b);
    }
}

/// The product of the numbers of `s`; the empty product is 1.
pub open spec fn product(s: Seq<int>) -> int
    decreases s.len(),
{
    if s.len() == 0 {
        1
    } else {
        product(s.drop_last()) * s.last()
    }
}

/// The product of the numbers from 1 to `n`.
pub open spec fn factorial(n: nat) -> int
    decreases n,
{
    if n == 0 {
        1
    } else {
        n * factorial((n - 1) as nat)
    }
}

/// Whether no number occurs twice in `s`.
pub open spec fn all_distinct(s: Seq<int>) -> bool {
    forall|i: int, j: int| 0 <= i < j < s.len() ==> s[i] != s[j]
}

/// Whether every number of `s` lies between 1 and `top`, both included.
pub open spec fn all_within(s: Seq<int>, top: int) -> bool {
    forall|i: int| 0 <= i < s.len() ==> 1 <= #[trigger] s[i] <= top
}

/// A factor may be taken out of a product from any place.
pub proof fn lemma_product_without(s: Seq<int>, j: int)
    requires
        0 <= j < s.len(),
    ensures
        product(s) == s[j] * product(s.remove(j)),
    decreases s.len(),
{
    let front = s.drop_last();
    if j == s.len() - 1 {
        assert(s.remove(j) =~= front);
        assert(product(front) * s.last() == s.last() * product(front)) by (nonlinear_arith);
    } else {
        lemma_product_without(front, j);
        let rest = front.remove(j);
        assert(s.remove(j).drop_last() =~= rest);
        assert(s.remove(j).last() == s.last());
        assert((s[j] * product(rest)) * s.last() == s[j] * (product(rest) * s.last()))
            by (nonlinear_arith);
    }
}

/// Taking one number out of a string of distinct numbers leaves distinct
/// numbers, none of them the one taken.
pub proof fn lemma_distinct_without(s: Seq<int>, j: int)
    requires
        0 <= j < s.len(),
        all_distinct(s),
    ensures
        all_distinct(s.remove(j)),
        forall|i: int| 0 <= i < s.remove(j).len() ==> #[trigger] s.remove(j)[i] != s[j],
{
    let rest = s.remove(j);
    assert forall|a: int, b: int| 0 <= a < b < rest.len() implies rest[a] != rest[b] by {
        let a0 = if a < j {
            a
        } else {
            a + 1
        };
        let b0 = if b < j {
            b
        } else {
            b + 1
        };
        assert(rest[a] == s[a0]);
        assert(rest[b] == s[b0]);
    }
    assert forall|i: int| 0 <= i < rest.len() implies #[trigger] rest[i] != s[j] by {
        let i0 = if i < j {
            i
        } else {
            i + 1
        };
        assert(rest[i] == s[i0]);
        if i0 < j {
            assert(s[i0] != s[j]);
        } else {
            assert(s[j] != s[i0]);
        }
    }
}

/// No more than `top` distinct numbers lie between 1 and `top`.
pub proof fn lemma_distinct_are_few(s: Seq<int>, top: nat)
    requires
        all_distinct(s),
        all_within(s, top as int),
    ensures
        s.len() <= top,
    decreases top,
{
    if top == 0 {
        if s.len() > 0 {
            assert(1 <= s[0] <= 0);
        }
    } else if exists|j: int| 0 <= j < s.len() && s[j] == top {
        let j = choose|j: int| 0 <= j < s.len() && s[j] == top;
        let rest = s.remove(j);
        lemma_distinct_without(s, j);
        assert forall|i: int| 0 <= i < rest.len() implies 1 <= #[trigger] rest[i] <= top - 1 by {
            let i0 = if i < j {
                i
            } else {
                i + 1
            };
            assert(rest[i] == s[i0]);
            assert(rest[i] != s[j]);
        }
        lemma_distinct_are_few(rest, (top - 1) as nat);
    } else {
        assert forall|i: int| 0 <= i < s.len() implies 1 <= #[trigger] s[i] <= top - 1 by {
            assert(s[i] != top);
        }
        lemma_distinct_are_few(s, (top - 1) as nat);
    }
}

/// The numbers from 1 to `n` in any order have the product `n!`.
pub proof fn lemma_product_of_rearrangement(s: Seq<int>, n: nat)
    requires
        s.len() == n,
        all_distinct(s),
        all_within(s, n as int),
    ensures
        product(s) == factorial(n),
    decreases n,
{
    if n == 0 {
    } else if exists|j: int| 0 <= j < s.len() && s[j] == n {
        let j = choose|j: int| 0 <= j < s.len() && s[j] == n;
        let rest = s.remove(j);
        lemma_distinct_without(s, j);
        assert forall|i: int| 0 <= i < rest.len() implies 1 <= #[trigger] rest[i] <= n - 1 by {
            let i0 = if i < j {
                i
            } else {
                i + 1
            };
            assert(rest[i] == s[i0]);
            assert(rest[i] != s[j]);
        }
        lemma_product_of_rearrangement(rest, (n - 1) as nat);
        lemma_product_without(s, j);
    } else {
        assert forall|i: int| 0 <= i < s.len() implies 1 <= #[trigger] s[i] <= n - 1 by {
            assert(s[i] != n);
        }
        lemma_distinct_are_few(s, (n - 1) as nat);
    }
}

/// The first `n` multiples of `a`: `a`, `2a`, and so on up to `n * a`.
pub open spec fn multiples(a: int, n: nat) -> Seq<int> {
    Seq::new(n, |i: int| a * (i + 1))
}

/// The remainders of the first `n` multiples of `a` on division by `p`.
pub open spec fn residues(a: int, n: nat, p: int) -> Seq<int> {
    Seq::new(n, |i: int| (a * (i + 1)) % p)
}

/// The first `n` multiples of `a` have the product `a ^ n * n!`.
pub proof fn lemma_product_of_multiples(a: int, n: nat)
    ensures
        product(multiples(a, n)) == pow(a, n) * factorial(n),
    decreases n,
{
    reveal(pow);
    if n == 0 {
    } else {
        let before: nat = (n - 1) as nat;
        lemma_product_of_multiples(a, before);
        assert(multiples(a, n).drop_last() =~= multiples(a, before));
        assert(multiples(a, n).last() == a * n);
        assert((pow(a, before) * factorial(before)) * (a * n) == (a * pow(a, before)) * (n
            * factorial(before))) by (nonlinear_arith);
    }
}

/// Products of strings that agree place by place modulo `p` agree modulo `p`.
pub proof fn lemma_product_modulo(s: Seq<int>, t: Seq<int>, p: int)
    requires
        p > 0,
        s.len() == t.len(),
        forall|i: int| 0 <= i < s.len() ==> #[trigger] s[i] % p == t[i] % p,
    ensures
        product(s) % p == product(t) % p,
    decreases s.len(),
{
    if s.len() > 0 {
        assert forall|i: int| 0 <= i < s.drop_last().len() implies #[trigger] s.drop_last()[i] % p
            == t.drop_last()[i] % p by {
            assert(s.drop_last()[i] == s[i]);
            assert(t.drop_last()[i] == t[i]);
        }
        lemma_product_modulo(s.drop_last(), t.drop_last(), p);
        assert(s.last() % p == t.last() % p) by {
            assert(s.last() == s[s.len() - 1]);
            assert(t.last() == t[s.len() - 1]);
        }
        lemma_mul_mod_noop_general(product(s.drop_last()), s.last(), p);
        lemma_mul_mod_noop_general(product(t.drop_last()), t.last(), p);
    }
}

/// A prime divides no factorial of a number below it.
pub proof fn lemma_prime_divides_no_small_factorial(p: nat, n: nat)
    requires
        is_prime(p),
        n < p,
    ensures
        factorial(n) % (p as int) != 0,
    decreases n,
{
    if n == 0 {
        lemma_small_mod(1, p);
    } else {
        lemma_prime_divides_no_small_factorial(p, (n - 1) as nat);
        lemma_small_mod(n, p);
        if factorial(n) % (p as int) == 0 {
            lemma_prime_divides_a_factor(p, n as int, factorial((n - 1) as nat));
        }
    }
}

/// Modulo a prime `p` that does not divide `a`, the first `p - 1` multiples of
/// `a` leave distinct remainders, none of them zero.
pub proof fn lemma_residues_are_a_rearrangement(p: nat, a: int)
    requires
        is_prime(p),
        a % (p as int) != 0,
    ensures
        all_distinct(residues(a, (p - 1) as nat, p as int)),
        all_within(residues(a, (p - 1) as nat, p as int), p - 1),
{
    let pi = p as int;
    let r = residues(a, (p - 1) as nat, pi);
    assert forall|i: int| 0 <= i < r.len() implies 1 <= #[trigger] r[i] <= p - 1 by {
        lemma_mod_bound(a * (i + 1), pi);
        if (a * (i + 1)) % pi == 0 {
            lemma_prime_divides_a_factor(p, a, i + 1);
            lemma_small_mod((i + 1) as nat, p);
        }
    }
    assert forall|i: int, j: int| 0 <= i < j < r.len() implies r[i] != r[j] by {
        if r[i] == r[j] {
            lemma_mod_equivalence(a * (j + 1), a * (i + 1), pi);
            assert(a * (j + 1) - a * (i + 1) == a * (j - i)) by (nonlinear_arith);
            lemma_prime_divides_a_factor(p, a, j - i);
            lemma_small_mod((j - i) as nat, p);
        }
    }
}

/// Fermat's little theorem: a number that the prime `p` does not divide, taken
/// to the power `p - 1`, leaves the remainder 1 on division by `p`.
pub proof fn lemma_fermat_little(p: nat, a: nat)
    requires
        is_prime(p),
        a % p != 0,
    ensures
        pow(a as int, (p - 1) as nat) % (p as int) == 1,
{
    let pi = p as int;
    let ai = a as int;
    let n: nat = (p - 1) as nat;
    let power = pow(ai, n);
    let f = factorial(n);
    lemma_residues_are_a_rearrangement(p, ai);
    lemma_product_of_rearrangement(residues(ai, n, pi), n);
    assert forall|i: int| 0 <= i < n implies #[trigger] residues(ai, n, pi)[i] % pi == multiples(
        ai,
        n,
    )[i] % pi by {
        lemma_mod_bound(ai * (i + 1), pi);
        lemma_small_mod(((ai * (i + 1)) % pi) as nat, p);
    }
    lemma_product_modulo(residues(ai, n, pi), multiples(ai, n), pi);
    lemma_product_of_multiples(ai, n);
    assert((power * f) % pi == f % pi);
    lemma_mod_equivalence(power * f, f, pi);
    assert(power * f - f == (power - 1) * f) by (nonlinear_arith);
    lemma_prime_divides_a_factor(p, power - 1, f);
    lemma_prime_divides_no_small_factorial(p, n);
    lemma_mod_equivalence(power, 1, pi);
    lemma_small_mod(1, p);
}

} // verus!
