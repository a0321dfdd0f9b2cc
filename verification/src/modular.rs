//! Facts about powers and remainders that the field operations rest on.

use vstd::arithmetic::div_mod::{lemma_mul_mod_noop_left, lemma_mul_mod_noop_right};
use vstd::arithmetic::mul::lemma_mul_is_associative;
use vstd::arithmetic::power::{
    lemma_pow_mod_noop, lemma_pow_multiplies, lemma_square_is_pow2, pow,
};
use vstd::prelude::*;

verus! {

/// A power with a positive exponent is the base times the next lower power.
pub proof fn lemma_pow_unfold(b: int, e: nat)
    requires
        e > 0,
    ensures
        pow(b, e) == b * pow(b, (e - 1) as nat),
{
    reveal(pow);
}

/// Halving the exponent squares the base; an odd exponent leaves one factor
/// over.
pub proof fn lemma_pow_halve(b: int, e: nat)
    ensures
        e % 2 == 0 ==> pow(b, e) == pow(b * b, e / 2),
        e % 2 == 1 ==> pow(b, e) == b * pow(b * b, e / 2),
{
    let h = e / 2;
    assert(pow(b * b, h) == pow(b, 2 * h)) by {
        lemma_square_is_pow2(b);
        lemma_pow_multiplies(b, 2, h);
    }
    if e % 2 == 1 {
        assert((e - 1) as nat == 2 * h);
        lemma_pow_unfold(b, e);
    } else {
        assert(e == 2 * h);
    }
}

/// One round of square-and-multiply keeps `acc * base^e` unchanged modulo
/// `m`: the base is squared, the exponent halved, and for an odd exponent
/// the accumulator takes one factor of the base.
pub proof fn lemma_square_and_multiply_round(acc: int, base: int, e: nat, m: int)
    requires
        m > 0,
    ensures
        ({
            let next_acc = if e % 2 == 1 {
                (acc * base) % m
            } else {
                acc
            };
            let next_base = (base * base) % m;
            (next_acc * pow(next_base, e / 2)) % m == (acc * pow(base, e)) % m
        }),
{
    let h = e / 2;
    let sq = base * base;
    let next = pow(sq % m, h);
    lemma_pow_halve(base, e);
    lemma_pow_mod_noop(sq, h, m);
    // Any factor `x` times the reduced power is congruent to `x` times the full one.
    assert forall|x: int| #![trigger x * next] (x * next) % m == (x * pow(sq, h)) % m by {
        lemma_mul_mod_noop_right(x, next, m);
        lemma_mul_mod_noop_right(x, pow(sq, h), m);
    }
    if e % 2 == 1 {
        let step = acc * base;
        assert(((step % m) * next) % m == (step * next) % m) by {
            lemma_mul_mod_noop_left(step, next, m);
        }
        assert(step * pow(sq, h) == acc * (base * pow(sq, h))) by {
            lemma_mul_is_associative(acc, base, pow(sq, h));
        }
    }
}

} // verus!
