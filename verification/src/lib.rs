//! Arithmetic-circuit gadgets over the Pallas base field: a windowed
//! running-sum decomposition of a field element, and a gate that accepts only
//! canonical three-limb representations of a field element.
//!
//! The gadgets register their relations with, and assign their witnesses
//! through, the constraint system of `halo2_proofs`. What is computed here
//! (digits, partial sums, constraint polynomials) is verified against a
//! mathematical model, and so is what the gadgets ask of the constraint
//! system. The constraint system itself, and the arithmetic of the field, are
//! reached through trusted declarations in [`engine`] and [`field`].
//!
//! - [`field`]: field elements and the operations on them.
//! - [`engine`]: the handles of the constraint system, and the record of what
//!   is asked of it.
//! - [`expression`]: constraint polynomials and their meaning.
//! - [`utilities`]: the word decomposer and the running sum.
//! - [`canonicity`]: the canonicity gate.
//! - [`bit_check`]: the canonicity gate with the constants of the field.

pub mod bit_check;
pub mod canonicity;
pub mod engine;
pub mod expression;
pub mod field;
pub mod utilities;
