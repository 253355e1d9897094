//! Claim derivation, claim checking and the canonical codec for field
//! elements and evaluation claims of a layered-circuit proof system.

pub mod circuit;
pub mod claim;
pub mod derivation;
pub mod field;
pub mod random;
pub mod serialization;
pub mod theorems;
pub mod verification;
