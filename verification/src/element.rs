//! Field elements over machine integers, and the field operations on them.
//!
//! Every operation reduces its result, and none of them overflows: sums and
//! products are formed in 64 bits before they are reduced to 32.

use crate::modular::lemma_square_and_multiply_round;
use crate::residue::Residue;
use vstd::arithmetic::div_mod::{
    lemma_mod_add_multiples_vanish, lemma_mul_mod_noop_left, lemma_small_mod,
};
use vstd::arithmetic::power::{lemma_pow0, pow};
use vstd::prelude::*;

verus! {

/// A residue `num` modulo `prime`.
///
/// An element built by `new` is reduced (`wf`); the operations ask for
/// reduced operands and return reduced results.
///
/// The modulus is meant to be a prime, and nothing here tests that it is
/// one. Every operation is defined for any modulus; the laws that need a
/// prime say so.
#[derive(Clone, Copy, Debug, PartialEq, Eq)]
pub struct FieldElement {
    pub num: u32,
    pub prime: u32,
}

/// Why an operation did not produce an element.
#[derive(Clone, Copy, Debug, PartialEq, Eq)]
pub enum FieldError {
    /// The value offered to the constructor is not below the modulus.
    OutOfRange,
    /// The two operands belong to different fields.
    ModulusMismatch,
    /// The divisor is zero.
    DivisionByZero,
}

impl View for FieldElement {
    type V = Residue;

    open spec fn view(&self) -> Residue {
        Residue { value: self.num as int, modulus: self.prime as int }
    }
}

impl FieldElement {
    /// The element is fully reduced: `num < prime`.
    pub open spec fn wf(&self) -> bool {
        self.num < self.prime
    }

    /// The element `num` of the field with modulus `prime`, or `OutOfRange`
    /// when `num` is not below `prime`.
    pub fn new(num: u32, prime: u32) -> (r: Result<FieldElement, FieldError>)
        ensures
            match r {
                Ok(e) => num < prime && e.num == num && e.prime == prime && e.wf(),
                Err(err) => num >= prime && err == FieldError::OutOfRange,
            },
    {
        if num >= prime {
            Err(FieldError::OutOfRange)
        } else {
            Ok(FieldElement { num, prime })
        }
    }

    /// `self` raised to the power `exponent`, computed by square-and-multiply
    /// with a reduction after every product.
    pub fn pow(&self, exponent: u32) -> (r: FieldElement)
        requires
            self.wf(),
        ensures
            r.prime == self.prime,
            r.wf(),
            r@ == self@.power(exponent as nat),
    {
        let m: u32 = self.prime;
        let mut acc: u32 = 1 % m;
        let mut base: u32 = self.num;
        let mut e: u32 = exponent;
        proof {
            lemma_mul_mod_noop_left(1, pow(base as int, e as nat), m as int);
        }
        while e > 0
            invariant
                m == self.prime,
                acc < m,
                base < m,
                (acc * pow(base as int, e as nat)) % (m as int) == pow(
                    self.num as int,
                    exponent as nat,
                ) % (m as int),
            decreases e,
        {
            proof {
                lemma_square_and_multiply_round(acc as int, base as int, e as nat, m as int);
            }
            if e % 2 == 1 {
                acc = mul_mod(acc, base, m);
            }
            base = mul_mod(base, base, m);
            e = e / 2;
        }
        proof {
            lemma_pow0(base as int);
            lemma_small_mod(acc as nat, m as nat);
        }
        FieldElement { num: acc, prime: m }
    }
}

/// The sum of two elements of one field; `ModulusMismatch` when their
/// moduli differ.
#[allow(non_snake_case)]
pub fn AddFieldElements(first_element: FieldElement, second_element: FieldElement) -> (r: Result<
    FieldElement,
    FieldError,
>)
    requires
        first_element.wf(),
        second_element.wf(),
    ensures
        match r {
            Ok(e) => {
                &&& first_element.prime == second_element.prime
                &&& e.prime == first_element.prime
                &&& e.wf()
                &&& e@ == first_element@.sum(second_element@)
            },
            Err(err) => {
                &&& first_element.prime != second_element.prime
                &&& err == FieldError::ModulusMismatch
            },
        },
{
    if first_element.prime != second_element.prime {
        return Err(FieldError::ModulusMismatch);
    }
    let m: u64 = first_element.prime as u64;
    let wide: u64 = first_element.num as u64 + second_element.num as u64;
    let num: u32 = (wide % m) as u32;
    Ok(FieldElement { num, prime: first_element.prime })
}

/// The difference of two elements of one field; `ModulusMismatch` when
/// their moduli differ.
#[allow(non_snake_case)]
pub fn SubFieldElements(first_element: FieldElement, second_element: FieldElement) -> (r: Result<
    FieldElement,
    FieldError,
>)
    requires
        first_element.wf(),
        second_element.wf(),
    ensures
        match r {
            Ok(e) => {
                &&& first_element.prime == second_element.prime
                &&& e.prime == first_element.prime
                &&& e.wf()
                &&& e@ == first_element@.difference(second_element@)
            },
            Err(err) => {
                &&& first_element.prime != second_element.prime
                &&& err == FieldError::ModulusMismatch
            },
        },
{
    if first_element.prime != second_element.prime {
        return Err(FieldError::ModulusMismatch);
    }
    let m: u64 = first_element.prime as u64;
    // Adding the modulus first keeps the subtraction from going below zero.
    let wide: u64 = first_element.num as u64 + m - second_element.num as u64;
    let num: u32 = (wide % m) as u32;
    proof {
        lemma_mod_add_multiples_vanish(first_element.num - second_element.num, m as int);
    }
    Ok(FieldElement { num, prime: first_element.prime })
}

/// The product of two elements of one field; `ModulusMismatch` when their
/// moduli differ.
#[allow(non_snake_case)]
pub fn MulFieldElements(first_element: FieldElement, second_element: FieldElement) -> (r: Result<
    FieldElement,
    FieldError,
>)
    requires
        first_element.wf(),
        second_element.wf(),
    ensures
        match r {
            Ok(e) => {
                &&& first_element.prime == second_element.prime
                &&& e.prime == first_element.prime
                &&& e.wf()
                &&& e@ == first_element@.product(second_element@)
            },
            Err(err) => {
                &&& first_element.prime != second_element.prime
                &&& err == FieldError::ModulusMismatch
            },
        },
{
    if first_element.prime != second_element.prime {
        return Err(FieldError::ModulusMismatch);
    }
    let num: u32 = mul_mod(first_element.num, second_element.num, first_element.prime);
    Ok(FieldElement { num, prime: first_element.prime })
}

/// The quotient of two elements of one field: the first times the second
/// raised to the power `prime - 2`, which is the inverse of the second when
/// `prime` is a prime.
///
/// `ModulusMismatch` when the moduli differ; otherwise `DivisionByZero` when
/// the second element is zero.
#[allow(non_snake_case)]
pub fn DivFieldElements(first_element: FieldElement, second_element: FieldElement) -> (r: Result<
    FieldElement,
    FieldError,
>)
    requires
        first_element.wf(),
        second_element.wf(),
    ensures
        match r {
            Ok(e) => {
                &&& first_element.prime == second_element.prime
                &&& second_element.num != 0
                &&& e.prime == first_element.prime
                &&& e.wf()
                &&& e@ == first_element@.quotient(second_element@)
            },
            Err(FieldError::ModulusMismatch) => first_element.prime != second_element.prime,
            Err(FieldError::DivisionByZero) => {
                &&& first_element.prime == second_element.prime
                &&& second_element.num == 0
            },
            Err(FieldError::OutOfRange) => false,
        },
{
    if first_element.prime != second_element.prime {
        return Err(FieldError::ModulusMismatch);
    }
    if second_element.num == 0 {
        return Err(FieldError::DivisionByZero);
    }
    let inverse: FieldElement = second_element.pow(second_element.prime - 2);
    let num: u32 = mul_mod(first_element.num, inverse.num, first_element.prime);
    Ok(FieldElement { num, prime: first_element.prime })
}

/// `x * y` reduced modulo `m`, through a product twice as wide as the
/// operands.
fn mul_mod(x: u32, y: u32, m: u32) -> (r: u32)
    requires
        m > 0,
    ensures
        r == (x * y) % (m as int),
        r < m,
{
    assert(x * y <= 0xffff_ffff * 0xffff_ffff) by (nonlinear_arith)
        requires
            x <= 0xffff_ffff,
            y <= 0xffff_ffff,
    ;
    let wide: u64 = x as u64 * y as u64;
    (wide % m as u64) as u32
}

} // verus!
