//! Evaluation claims: the assertion that a wire's multilinear extension takes
//! a given value at a given point.

use crate::field::FieldElement;
use vstd::prelude::*;
use vstd::slice::slice_to_vec;

verus! {

/// What a claim asserts, over the integers that its field elements stand
/// for.
pub struct ClaimView {
    pub point: Seq<nat>,
    pub value: nat,
}

/// The integers that a sequence of field elements stands for.
pub open spec fn values_of(elements: Seq<FieldElement>) -> Seq<nat> {
    elements.map_values(|f: FieldElement| f@)
}

/// The views of a sequence of claims.
pub open spec fn claims_view(claims: Seq<EvalClaim>) -> Seq<ClaimView> {
    claims.map_values(|c: EvalClaim| c@)
}

/// The claim that asserts nothing: no coordinates, value zero.
pub open spec fn empty_claim() -> ClaimView {
    ClaimView { point: Seq::empty(), value: 0 }
}

/// The assertion that a wire's multilinear extension evaluates to `value` at
/// `point`.
#[derive(Debug, PartialEq, Eq)]
pub struct EvalClaim {
    point: Vec<FieldElement>,
    value: FieldElement,
}

impl View for EvalClaim {
    type V = ClaimView;

    open spec fn view(&self) -> ClaimView {
        ClaimView { point: values_of(self.coordinates()), value: self.claimed()@ }
    }
}

impl EvalClaim {
    /// The coordinates of the evaluation point, as field elements.
    pub closed spec fn coordinates(self) -> Seq<FieldElement> {
        self.point@
    }

    /// The claimed value, as a field element.
    pub closed spec fn claimed(self) -> FieldElement {
        self.value
    }

    /// Every field element of the claim holds a canonical encoding.
    pub open spec fn wf(self) -> bool {
        &&& self.claimed().wf()
        &&& forall|i: int|
            0 <= i < self.coordinates().len() ==> (#[trigger] self.coordinates()[i]).wf()
    }

    /// The claim that the wire evaluates to `value` at `point`.
    pub fn new(point: Vec<FieldElement>, value: FieldElement) -> (claim: EvalClaim)
        ensures
            claim.coordinates() == point@,
            claim.claimed() == value,
            claim@ == (ClaimView { point: values_of(point@), value: value@ }),
    {
        EvalClaim { point, value }
    }

    /// The evaluation point.
    pub fn point(&self) -> (point: &[FieldElement])
        ensures
            point@ == self.coordinates(),
            values_of(point@) == self@.point,
    {
        self.point.as_slice()
    }

    /// The claimed value.
    pub fn value(&self) -> (value: FieldElement)
        ensures
            value == self.claimed(),
            value@ == self@.value,
    {
        self.value
    }
}

impl Clone for EvalClaim {
    /// A claim with the same point and the same value.
    fn clone(&self) -> (claim: EvalClaim)
        ensures
            claim.coordinates() == self.coordinates(),
            claim.claimed() == self.claimed(),
            claim@ == self@,
    {
        EvalClaim { point: slice_to_vec(self.point.as_slice()), value: self.value }
    }
}

impl Default for EvalClaim {
    /// The empty claim, which holds a place and asserts nothing.
    fn default() -> (claim: EvalClaim)
        ensures
            claim@ == empty_claim(),
    {
        let claim = EvalClaim { point: Vec::new(), value: FieldElement::zero() };
        assert(claim@.point =~= Seq::<nat>::empty());
        claim
    }
}

} // verus!
