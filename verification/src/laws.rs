//! The laws of the field operations, stated over the views of the elements.
//!
//! The operations in `element` return exactly the residues named here, so
//! each law carries over to their results.

use crate::element::FieldElement;
use crate::number_theory::{is_prime, lemma_fermat_inverse, lemma_fermat_little};
use vstd::arithmetic::div_mod::{
    lemma_mod_bound, lemma_mul_mod_noop_left, lemma_mul_mod_noop_right, lemma_small_mod,
    lemma_sub_mod_noop,
};
use vstd::arithmetic::mul::{lemma_mul_is_associative, lemma_mul_is_commutative};
use vstd::arithmetic::power::{lemma_pow0, pow};
use vstd::prelude::*;

verus! {

/// Multiplying by `u` and then by `v` changes nothing modulo `p` when
/// `u * v` leaves the remainder 1.
proof fn lemma_cancel_inverse_pair(a: int, u: int, v: int, p: int)
    requires
        p > 0,
        (u * v) % p == 1,
    ensures
        (((a * u) % p) * v) % p == a % p,
{
    lemma_mul_mod_noop_left(a * u, v, p);
    lemma_mul_is_associative(a, u, v);
    lemma_mul_mod_noop_right(a, u * v, p);
}

/// Closure: on two reduced elements of one field, each operation gives a
/// reduced element of that field; for the quotient the divisor must not be
/// zero.
pub proof fn lemma_operations_closed(a: FieldElement, b: FieldElement)
    requires
        a.wf(),
        b.wf(),
        a.prime == b.prime,
    ensures
        a@.sum(b@).wf() && a@.sum(b@).modulus == a.prime,
        a@.difference(b@).wf() && a@.difference(b@).modulus == a.prime,
        a@.product(b@).wf() && a@.product(b@).modulus == a.prime,
        b.num != 0 ==> a@.quotient(b@).wf() && a@.quotient(b@).modulus == a.prime,
{
    let p = a.prime as int;
    lemma_mod_bound(a.num + b.num, p);
    lemma_mod_bound(a.num - b.num, p);
    lemma_mod_bound(a.num * b.num, p);
    lemma_mod_bound(a.num * b@.inverse().value, p);
}

/// Every power of a reduced element is a reduced element of the same field.
pub proof fn lemma_power_closed(a: FieldElement, e: nat)
    requires
        a.wf(),
    ensures
        a@.power(e).wf(),
        a@.power(e).modulus == a.prime,
{
    lemma_mod_bound(pow(a.num as int, e), a.prime as int);
}

/// The power with exponent zero is 1, also for the base zero, in every
/// field with more than one element.
pub proof fn lemma_power_zero(a: FieldElement)
    requires
        a.prime >= 2,
    ensures
        a@.power(0).value == 1,
{
    lemma_pow0(a.num as int);
    lemma_small_mod(1, a.prime as nat);
}

/// Subtracting what was added gives back the first operand:
/// `(a + b) - b == a`.
pub proof fn lemma_sub_undoes_add(a: FieldElement, b: FieldElement)
    requires
        a.wf(),
        b.wf(),
        a.prime == b.prime,
    ensures
        a@.sum(b@).difference(b@) == a@,
{
    let p = a.prime as int;
    lemma_sub_mod_noop(a.num + b.num, b.num as int, p);
    lemma_small_mod(b.num as nat, p as nat);
    lemma_small_mod(a.num as nat, p as nat);
}

/// Multiplying by the divisor gives back the dividend: `(a / b) * b == a`,
/// for a prime modulus and a nonzero `b`.
pub proof fn lemma_mul_undoes_div(a: FieldElement, b: FieldElement)
    requires
        a.wf(),
        b.wf(),
        a.prime == b.prime,
        is_prime(a.prime as int),
        b.num != 0,
    ensures
        a@.quotient(b@).product(b@) == a@,
{
    let p = a.prime as int;
    lemma_small_mod(b.num as nat, p as nat);
    lemma_small_mod(a.num as nat, p as nat);
    lemma_fermat_inverse(b.num as int, p);
    lemma_cancel_inverse_pair(a.num as int, b@.inverse().value, b.num as int, p);
}

/// Dividing by what was multiplied gives back the first operand:
/// `(a * b) / b == a`, for a prime modulus and a nonzero `b`.
pub proof fn lemma_div_undoes_mul(a: FieldElement, b: FieldElement)
    requires
        a.wf(),
        b.wf(),
        a.prime == b.prime,
        is_prime(a.prime as int),
        b.num != 0,
    ensures
        a@.product(b@).quotient(b@) == a@,
{
    let p = a.prime as int;
    let inv = b@.inverse().value;
    lemma_small_mod(b.num as nat, p as nat);
    lemma_small_mod(a.num as nat, p as nat);
    lemma_fermat_inverse(b.num as int, p);
    lemma_mul_is_commutative(inv, b.num as int);
    lemma_cancel_inverse_pair(a.num as int, b.num as int, inv, p);
}

/// The quotient is the only reduced element whose product with the divisor
/// is the dividend, for a prime modulus and a nonzero divisor.
pub proof fn lemma_quotient_unique(a: FieldElement, b: FieldElement, q: FieldElement)
    requires
        a.wf(),
        b.wf(),
        q.wf(),
        a.prime == b.prime,
        q.prime == b.prime,
        is_prime(a.prime as int),
        b.num != 0,
        q@.product(b@) == a@,
    ensures
        q@ == a@.quotient(b@),
{
    let p = a.prime as int;
    let inv = b@.inverse().value;
    lemma_small_mod(b.num as nat, p as nat);
    lemma_small_mod(q.num as nat, p as nat);
    lemma_fermat_inverse(b.num as int, p);
    lemma_mul_is_commutative(inv, b.num as int);
    lemma_cancel_inverse_pair(q.num as int, b.num as int, inv, p);
}

/// The inverse of a nonzero element of a field of prime order is a reduced
/// element whose product with that element is 1.
pub proof fn lemma_inverse_cancels(b: FieldElement)
    requires
        b.wf(),
        is_prime(b.prime as int),
        b.num != 0,
    ensures
        b@.inverse().wf(),
        b@.inverse().product(b@).value == 1,
{
    let p = b.prime as int;
    lemma_mod_bound(pow(b.num as int, (p - 2) as nat), p);
    lemma_small_mod(b.num as nat, p as nat);
    lemma_fermat_inverse(b.num as int, p);
}

/// Fermat's little theorem in the field: a nonzero element of a field of
/// prime order `p`, raised to the power `p - 1`, is 1.
pub proof fn lemma_fermat(a: FieldElement)
    requires
        a.wf(),
        is_prime(a.prime as int),
        a.num != 0,
    ensures
        a@.power((a.prime - 1) as nat).value == 1,
{
    lemma_small_mod(a.num as nat, a.prime as nat);
    lemma_fermat_little(a.num as int, a.prime as int);
}

/// Addition commutes: `a + b == b + a`.
pub proof fn lemma_add_commutes(a: FieldElement, b: FieldElement)
    requires
        a.prime == b.prime,
    ensures
        a@.sum(b@) == b@.sum(a@),
{
}

/// Multiplication commutes: `a * b == b * a`.
pub proof fn lemma_mul_commutes(a: FieldElement, b: FieldElement)
    requires
        a.prime == b.prime,
    ensures
        a@.product(b@) == b@.product(a@),
{
    lemma_mul_is_commutative(a.num as int, b.num as int);
}

} // verus!
