//! Arithmetic in a prime field: elements are residues modulo a prime, with
//! addition, subtraction, multiplication, division and exponentiation.

pub mod element;
pub mod laws;
pub mod modular;
pub mod number_theory;
pub mod residue;

pub use element::{
    AddFieldElements, DivFieldElements, FieldElement, FieldError, MulFieldElements,
    SubFieldElements,
};
pub use number_theory::is_prime;
pub use residue::Residue;
