//! The random source of claim derivation and what is drawn from it.

use crate::field::{is_canonical, FieldElement};
use halo2curves::bn256::Fr;
use halo2curves::ff::{Field, PrimeField};
use rand::rngs::{OsRng, StdRng};
use rand::{RngCore, SeedableRng};
use vstd::prelude::*;

verus! {

/// The generator `rand::rngs::StdRng`. Nothing is known of its state.
#[verifier::external_type_specification]
#[verifier::external_body]
pub struct ExStdRng(StdRng);

/// Reads eight bytes from the operating system's entropy source with
/// `OsRng::try_fill_bytes`. Nothing is claimed of the number read; `None`
/// stands for the source's refusal.
#[verifier::external_body]
fn entropy_seed() -> (seed: Option<u64>) {
    let mut bytes = [0u8; 8];
    match OsRng.try_fill_bytes(&mut bytes) {
        Ok(()) => Some(u64::from_le_bytes(bytes)),
        Err(_) => None,
    }
}

/// Makes a generator from a seed with `StdRng::seed_from_u64`. Nothing is
/// claimed of the generator.
#[verifier::external_body]
fn generator_from_seed(seed: u64) -> (rng: StdRng) {
    StdRng::seed_from_u64(seed)
}

/// Draws a field element with `Fr::random` and takes its bytes with
/// `to_repr`. Claimed: the bytes are a canonical encoding, as `to_repr`
/// gives for every element. Nothing is claimed of which element was drawn.
#[verifier::external_body]
fn random_repr(rng: &mut StdRng) -> (bytes: [u8; 32])
    ensures
        is_canonical(bytes@),
{
    Fr::random(rng).to_repr()
}

/// The generator for what the entropy source gave: one made from the seed
/// where it gave a seed, none where it refused.
pub fn generator_from_entropy(seed: Option<u64>) -> (rng: Option<StdRng>)
    ensures
        rng is Some <==> seed is Some,
{
    match seed {
        Some(seed) => Some(generator_from_seed(seed)),
        None => None,
    }
}

/// A generator seeded from the entropy of the operating system, so that no
/// two runs draw the same points; `None` where the system gives no entropy.
pub fn seeded_std_rng() -> (rng: Option<StdRng>) {
    generator_from_entropy(entropy_seed())
}

/// One field element drawn from the generator.
pub fn random_element(rng: &mut StdRng) -> (element: FieldElement)
    ensures
        element.wf(),
{
    let bytes = random_repr(rng);
    FieldElement::from_repr(bytes).unwrap()
}

/// `n` field elements drawn from the generator, in the order drawn.
pub fn rand_vec(n: usize, rng: &mut StdRng) -> (elements: Vec<FieldElement>)
    ensures
        elements.len() == n,
        forall|i: int| 0 <= i < n ==> (#[trigger] elements[i]).wf(),
{
    let mut elements: Vec<FieldElement> = Vec::new();
    let mut i: usize = 0;
    while i < n
        invariant
            i <= n,
            elements.len() == i,
            forall|j: int| 0 <= j < i ==> (#[trigger] elements[j]).wf(),
        decreases n - i,
    {
        let element = random_element(rng);
        elements.push(element);
        i = i + 1;
    }
    elements
}

} // verus!
