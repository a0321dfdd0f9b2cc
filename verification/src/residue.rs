//! The mathematical model of a field element: an integer taken modulo a
//! modulus, with the field operations written over unbounded integers.

use vstd::arithmetic::power::pow;
use vstd::prelude::*;

verus! {

/// An integer `value` together with the `modulus` it is taken by.
///
/// This is the value that contracts speak of; it exists only in ghost
/// code.
pub struct Residue {
    pub value: int,
    pub modulus: int,
}

impl Residue {
    /// The value is fully reduced: it lies in `[0, modulus)`.
    pub open spec fn wf(self) -> bool {
        0 <= self.value < self.modulus
    }

    /// `self + rhs` in the field of `self`.
    pub open spec fn sum(self, rhs: Residue) -> Residue {
        Residue { value: (self.value + rhs.value) % self.modulus, modulus: self.modulus }
    }

    /// `self - rhs` in the field of `self`. The remainder is the Euclidean
    /// one, so the value is never negative.
    pub open spec fn difference(self, rhs: Residue) -> Residue {
        Residue { value: (self.value - rhs.value) % self.modulus, modulus: self.modulus }
    }

    /// `self * rhs` in the field of `self`.
    pub open spec fn product(self, rhs: Residue) -> Residue {
        Residue { value: (self.value * rhs.value) % self.modulus, modulus: self.modulus }
    }

    /// `self` raised to the power `e`, reduced; the empty product is 1, so
    /// the power of zero to the exponent zero is 1 (reduced).
    pub open spec fn power(self, e: nat) -> Residue {
        Residue { value: pow(self.value, e) % self.modulus, modulus: self.modulus }
    }

    /// The candidate multiplicative inverse `self^(modulus - 2)`. It is the
    /// inverse of a nonzero `self` when the modulus is prime.
    pub open spec fn inverse(self) -> Residue {
        self.power((self.modulus - 2) as nat)
    }

    /// `self / rhs` in the field of `self`: `self` times the inverse of `rhs`.
    pub open spec fn quotient(self, rhs: Residue) -> Residue {
        self.product(rhs.inverse())
    }
}

} // verus!
