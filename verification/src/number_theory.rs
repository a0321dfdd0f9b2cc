//! Primes and what holds modulo a prime: Euclid's lemma, Fermat's little
//! theorem, and the multiplicative inverse that follows from it.

use crate::modular::lemma_pow_unfold;
use vstd::arithmetic::div_mod::{
    lemma_fundamental_div_mod, lemma_mod_bound, lemma_mod_equivalence, lemma_mod_multiples_basic,
    lemma_mul_mod_noop_left, lemma_mul_mod_noop_right, lemma_small_mod,
};
use vstd::arithmetic::mul::{lemma_mul_is_associative, lemma_mul_is_commutative};
use vstd::arithmetic::power::{lemma_pow0, lemma_pow_mod_noop, pow};
use vstd::prelude::*;
use vstd::set_lib::{lemma_int_range, lemma_len_subset, set_int_range};

verus! {

/// `p` is a prime number: at least 2, and divisible by nothing strictly
/// between 1 and itself.
pub open spec fn is_prime(p: int) -> bool {
    &&& 2 <= p
    &&& forall|d: int| 1 < d < p ==> #[trigger] (p % d) != 0
}

/// A prime `p` that divides `x * y`, where `0 < x < p`, divides `y`.
///
/// By descent on `x`: the remainder of `p` by `x` is a smaller positive
/// number whose product with `y` is again a multiple of `p`.
proof fn lemma_prime_divides_cofactor(p: int, x: int, y: int)
    requires
        is_prime(p),
        0 < x < p,
        (x * y) % p == 0,
    ensures
        y % p == 0,
    decreases x,
{
    if x == 1 {
        assert(x * y == y) by (nonlinear_arith)
            requires
                x == 1,
        ;
    } else {
        let q = p / x;
        let r = p % x;
        let k = (x * y) / p;
        assert(p == x * q + r && 0 < r < x) by {
            lemma_fundamental_div_mod(p, x);
            lemma_mod_bound(p, x);
        }
        assert(x * y == p * k) by {
            lemma_fundamental_div_mod(x * y, p);
        }
        assert(r * y == (y - q * k) * p) by (nonlinear_arith)
            requires
                p == x * q + r,
                x * y == p * k,
        ;
        assert((r * y) % p == 0) by {
            lemma_mod_multiples_basic(y - q * k, p);
        }
        lemma_prime_divides_cofactor(p, r, y);
    }
}

/// Euclid's lemma: a prime that divides a product divides one of its factors.
pub proof fn lemma_prime_divides_product(p: int, x: int, y: int)
    requires
        is_prime(p),
        (x * y) % p == 0,
    ensures
        x % p == 0 || y % p == 0,
{
    let r = x % p;
    if r != 0 {
        lemma_mod_bound(x, p);
        lemma_mul_mod_noop_left(x, y, p);
        lemma_prime_divides_cofactor(p, r, y);
    }
}

/// `n!`, the product of the integers from 1 to `n`.
pub open spec fn factorial(n: nat) -> int
    decreases n,
{
    if n == 0 {
        1
    } else {
        n * factorial((n - 1) as nat)
    }
}

/// The product of the entries of `s`; 1 for the empty sequence.
pub open spec fn seq_product(s: Seq<int>) -> int
    decreases s.len(),
{
    if s.len() == 0 {
        1
    } else {
        seq_product(s.drop_last()) * s.last()
    }
}

/// Any entry of a sequence can be taken out of its product as a factor.
proof fn lemma_seq_product_remove(s: Seq<int>, k: int)
    requires
        0 <= k < s.len(),
    ensures
        seq_product(s) == s[k] * seq_product(s.remove(k)),
    decreases s.len(),
{
    let rest = s.remove(k);
    if k == s.len() - 1 {
        assert(rest =~= s.drop_last());
        lemma_mul_is_commutative(seq_product(rest), s[k]);
    } else {
        let front = s.drop_last();
        lemma_seq_product_remove(front, k);
        assert(front.remove(k) =~= rest.drop_last());
        assert(rest.last() == s.last());
        lemma_mul_is_associative(s[k], seq_product(rest.drop_last()), s.last());
    }
}

/// A sequence that lists each of `1, ..., n` exactly once has the product
/// `n!`, in whatever order it lists them.
proof fn lemma_product_of_rearranged_range(s: Seq<int>)
    requires
        s.no_duplicates(),
        forall|i: int| 0 <= i < s.len() ==> 1 <= #[trigger] s[i] <= s.len(),
    ensures
        seq_product(s) == factorial(s.len()),
    decreases s.len(),
{
    let n = s.len() as int;
    if n > 0 {
        if !s.contains(n) {
            // Then `n` distinct entries would share the `n - 1` values below `n`.
            s.unique_seq_to_set();
            lemma_int_range(1, n);
            assert(s.to_set().subset_of(set_int_range(1, n))) by {
                assert forall|v: int| s.to_set().contains(v) implies set_int_range(
                    1,
                    n,
                ).contains(v) by {
                    let i = choose|i: int| 0 <= i < s.len() && s[i] == v;
                    assert(1 <= s[i] <= n);
                }
            }
            lemma_len_subset(s.to_set(), set_int_range(1, n));
            assert(false);
        }
        let k = choose|k: int| 0 <= k < s.len() && s[k] == n;
        let rest = s.remove(k);
        assert forall|i: int| 0 <= i < rest.len() implies 1 <= #[trigger] rest[i]
            <= rest.len() by {
            let j = if i < k {
                i
            } else {
                i + 1
            };
            assert(rest[i] == s[j]);
            assert(s[j] != s[k]);
        }
        assert(rest.no_duplicates()) by {
            assert forall|i: int, j: int|
                0 <= i < rest.len() && 0 <= j < rest.len() && i != j implies rest[i]
                != rest[j] by {
                let si = if i < k {
                    i
                } else {
                    i + 1
                };
                let sj = if j < k {
                    j
                } else {
                    j + 1
                };
                assert(rest[i] == s[si] && rest[j] == s[sj]);
            }
        }
        lemma_product_of_rearranged_range(rest);
        lemma_seq_product_remove(s, k);
    }
}

/// The remainders modulo `p` of the first `n` positive multiples of `a`.
pub open spec fn reduced_multiples(a: int, p: int, n: nat) -> Seq<int> {
    Seq::new(n, |i: int| (a * (i + 1)) % p)
}

/// The product of the first `n` reduced multiples of `a` is congruent to
/// `a^n * n!`.
proof fn lemma_product_of_multiples(a: int, p: int, n: nat)
    requires
        p > 0,
    ensures
        seq_product(reduced_multiples(a, p, n)) % p == (pow(a, n) * factorial(n)) % p,
    decreases n,
{
    if n == 0 {
        lemma_pow0(a);
    } else {
        let m = (n - 1) as nat;
        let s = reduced_multiples(a, p, n);
        let front = reduced_multiples(a, p, m);
        let head = seq_product(front);
        let t = pow(a, m) * factorial(m);
        assert(s.drop_last() =~= front);
        assert(s.last() == (a * n) % p);
        lemma_product_of_multiples(a, p, m);
        lemma_mul_mod_noop_right(head, a * n, p);
        lemma_mul_mod_noop_left(head, a * n, p);
        lemma_mul_mod_noop_left(t, a * n, p);
        lemma_pow_unfold(a, n);
        assert(t * (a * n) == pow(a, n) * factorial(n)) by (nonlinear_arith)
            requires
                t == pow(a, m) * factorial(m),
                pow(a, n) == a * pow(a, m),
                factorial(n) == n * factorial(m),
        ;
    }
}

/// No factorial of a number below a prime is a multiple of that prime.
proof fn lemma_factorial_below_prime(p: int, n: nat)
    requires
        is_prime(p),
        n < p,
    ensures
        factorial(n) % p != 0,
    decreases n,
{
    if n == 0 {
        lemma_small_mod(1, p as nat);
    } else {
        lemma_factorial_below_prime(p, (n - 1) as nat);
        if factorial(n) % p == 0 {
            lemma_prime_divides_product(p, n as int, factorial((n - 1) as nat));
            lemma_small_mod(n, p as nat);
        }
    }
}

/// For `0 < a < p` with `p` prime, the reduced multiples `a, 2a, ...,
/// (p-1)a` list each of `1, ..., p-1` exactly once.
proof fn lemma_multiples_rearrange_range(a: int, p: int)
    requires
        is_prime(p),
        0 < a < p,
    ensures
        reduced_multiples(a, p, (p - 1) as nat).no_duplicates(),
        forall|i: int|
            0 <= i < p - 1 ==> 1 <= #[trigger] reduced_multiples(a, p, (p - 1) as nat)[i] <= p
                - 1,
{
    let s = reduced_multiples(a, p, (p - 1) as nat);
    lemma_small_mod(a as nat, p as nat);
    assert forall|i: int| 0 <= i < p - 1 implies 1 <= #[trigger] s[i] <= p - 1 by {
        lemma_mod_bound(a * (i + 1), p);
        if s[i] == 0 {
            lemma_prime_divides_product(p, a, i + 1);
            lemma_small_mod((i + 1) as nat, p as nat);
        }
    }
    assert forall|i: int, j: int| 0 <= i < j < s.len() implies s[i] != s[j] by {
        if s[i] == s[j] {
            lemma_mod_equivalence(a * (j + 1), a * (i + 1), p);
            assert(a * (j + 1) - a * (i + 1) == a * (j - i)) by (nonlinear_arith);
            lemma_prime_divides_product(p, a, j - i);
            lemma_small_mod((j - i) as nat, p as nat);
        }
    }
}

/// Fermat's little theorem: for a prime `p` and an `a` that `p` does not
/// divide, `a^(p-1)` leaves the remainder 1.
pub proof fn lemma_fermat_little(a: int, p: int)
    requires
        is_prime(p),
        a % p != 0,
    ensures
        pow(a, (p - 1) as nat) % p == 1,
{
    let n = (p - 1) as nat;
    let r = a % p;
    let x = pow(r, n);
    let f = factorial(n);
    lemma_mod_bound(a, p);
    assert(f % p == (x * f) % p) by {
        lemma_multiples_rearrange_range(r, p);
        lemma_product_of_rearranged_range(reduced_multiples(r, p, n));
        lemma_product_of_multiples(r, p, n);
    }
    assert(((x - 1) * f) % p == 0) by {
        lemma_mod_equivalence(x * f, f, p);
        assert(x * f - f == (x - 1) * f) by (nonlinear_arith);
    }
    assert((x - 1) % p == 0) by {
        lemma_prime_divides_product(p, x - 1, f);
        lemma_factorial_below_prime(p, n);
    }
    assert(x % p == 1) by {
        lemma_mod_equivalence(x, 1, p);
        lemma_small_mod(1, p as nat);
    }
    lemma_pow_mod_noop(a, n, p);
}

/// For a prime `p` and an `a` that `p` does not divide, `a^(p-2)` is the
/// multiplicative inverse of `a` modulo `p`.
pub proof fn lemma_fermat_inverse(a: int, p: int)
    requires
        is_prime(p),
        a % p != 0,
    ensures
        ((pow(a, (p - 2) as nat) % p) * a) % p == 1,
{
    let inv = pow(a, (p - 2) as nat);
    lemma_mul_mod_noop_left(inv, a, p);
    lemma_mul_is_commutative(inv, a);
    lemma_pow_unfold(a, (p - 1) as nat);
    lemma_fermat_little(a, p);
}

} // verus!
