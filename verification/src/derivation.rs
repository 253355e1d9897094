//! Derivation of the claims that a proof must establish: a random point for
//! the output wire, the value that the wire's polynomial takes there, and
//! the empty claim that fills the second place.

use crate::circuit::OUTPUT_WIRE;
use crate::claim::{empty_claim, values_of, ClaimView, EvalClaim};
use crate::field::FieldElement;
use crate::random::rand_vec;
use rand::rngs::StdRng;
use vstd::prelude::*;

verus! {

/// A claim on the output wire whose point has been drawn and whose value is
/// still to be evaluated.
pub struct ClaimDerivation {
    point: Vec<FieldElement>,
}

impl ClaimDerivation {
    /// The point that was drawn.
    pub closed spec fn sampled(self) -> Seq<FieldElement> {
        self.point@
    }

    /// Draws the evaluation point from the generator: one coordinate for
    /// each variable of the output wire's polynomial. The point depends on
    /// the generator alone, not on the circuit or its input.
    pub fn sample(num_vars: usize, rng: &mut StdRng) -> (derivation: ClaimDerivation)
        ensures
            derivation.sampled().len() == num_vars,
    {
        ClaimDerivation { point: rand_vec(num_vars, rng) }
    }

    /// The wire that is to be evaluated: the output wire of the circuit.
    pub fn wire(&self) -> (wire: usize)
        ensures
            wire == OUTPUT_WIRE,
    {
        OUTPUT_WIRE
    }

    /// The point at which the output wire is to be evaluated.
    pub fn point(&self) -> (point: &[FieldElement])
        ensures
            point@ == self.sampled(),
    {
        self.point.as_slice()
    }

    /// Takes the value of the output wire's polynomial at the point and
    /// gives the output claims of the proof: the claim of that point and
    /// that value, then the empty claim.
    pub fn complete(self, value: FieldElement) -> (claims: Vec<EvalClaim>)
        ensures
            claims.len() == 2,
            claims[0]@ == (ClaimView { point: values_of(self.sampled()), value: value@ }),
            claims[0].coordinates() == self.sampled(),
            claims[0].claimed() == value,
            claims[1]@ == empty_claim(),
    {
        let mut claims: Vec<EvalClaim> = Vec::new();
        claims.push(EvalClaim::new(self.point, value));
        claims.push(EvalClaim::default());
        claims
    }
}

} // verus!
