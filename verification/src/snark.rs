//! Trusted boundary around the pairing-based proof system on the
//! MNT4-298 / MNT6-298 curve cycle.
//!
//! Proofs and keys are opaque values.  Only proof verification crosses
//! this boundary from verified code: it is deterministic in the key,
//! the public inputs and the proof, so its result is named.  Proving
//! and key generation draw randomness and take circuits the verifier
//! cannot read, so they stay outside the library and hand their
//! results in as values.

use ark_ff::PrimeField;
use vstd::prelude::*;

use crate::field::{Fe, Fe6};

verus! {

/// A proof over the inner curve (MNT4-298).
#[verifier::external_body]
pub struct InnerProof(pub ark_groth16::Proof<ark_mnt4_298::MNT4_298>);

/// A proof over the outer curve (MNT6-298).
#[verifier::external_body]
pub struct OuterProof(pub ark_groth16::Proof<ark_mnt6_298::MNT6_298>);

/// A verification key over the inner curve.
#[verifier::external_body]
pub struct InnerVk(pub ark_groth16::VerifyingKey<ark_mnt4_298::MNT4_298>);

/// A verification key over the outer curve.
#[verifier::external_body]
pub struct OuterVk(pub ark_groth16::VerifyingKey<ark_mnt6_298::MNT6_298>);

/// A proving key over the inner curve.
#[verifier::external_body]
pub struct InnerPk(pub ark_groth16::ProvingKey<ark_mnt4_298::MNT4_298>);

/// A proving key over the outer curve.
#[verifier::external_body]
pub struct OuterPk(pub ark_groth16::ProvingKey<ark_mnt6_298::MNT6_298>);

impl Clone for InnerProof {
    /// Relies on the derived `Clone` of `ark_groth16::Proof`, which
    /// copies the three group elements unchanged.
    #[verifier::external_body]
    fn clone(&self) -> (r: Self)
        ensures
            r == *self,
    {
        InnerProof(self.0.clone())
    }
}

impl Clone for OuterProof {
    /// Relies on the derived `Clone` of `ark_groth16::Proof`, which
    /// copies the three group elements unchanged.
    #[verifier::external_body]
    fn clone(&self) -> (r: Self)
        ensures
            r == *self,
    {
        OuterProof(self.0.clone())
    }
}

impl Clone for InnerVk {
    /// Relies on the derived `Clone` of `ark_groth16::VerifyingKey`,
    /// which copies every group element unchanged.
    #[verifier::external_body]
    fn clone(&self) -> (r: Self)
        ensures
            r == *self,
    {
        InnerVk(self.0.clone())
    }
}

impl Clone for OuterVk {
    /// Relies on the derived `Clone` of `ark_groth16::VerifyingKey`,
    /// which copies every group element unchanged.
    #[verifier::external_body]
    fn clone(&self) -> (r: Self)
        ensures
            r == *self,
    {
        OuterVk(self.0.clone())
    }
}

/// Whether an inner-curve proof verifies against a key and a public
/// input list: deterministic, so it carries a name; nothing else is
/// assumed of it.
pub uninterp spec fn inner_verified(vk: InnerVk, inputs: Seq<Fe>, proof: InnerProof) -> bool;

/// Whether an outer-curve proof verifies against a key and a public
/// input list (given as inner-field values, embedded into the outer
/// scalar field as the outer circuits expose them).
pub uninterp spec fn outer_verified(vk: OuterVk, inputs: Seq<Fe>, proof: OuterProof) -> bool;

/// What the embedding of an inner scalar into the outer scalar field
/// returns.
pub uninterp spec fn mnt6_of(x: Fe) -> Fe6;

/// Relies on `Groth16::<MNT4_298>::verify`: deterministic in the key,
/// the inputs and the proof; a verification error (malformed inputs)
/// counts as a failed verification.
#[verifier::external_body]
pub fn inner_verify(vk: &InnerVk, inputs: &Vec<Fe>, proof: &InnerProof) -> (r: bool)
    ensures
        r == inner_verified(*vk, inputs@, *proof),
{
    let raw: Vec<ark_mnt4_298::Fr> = inputs.iter().map(|f| f.0).collect();
    <ark_groth16::Groth16<ark_mnt4_298::MNT4_298> as ark_snark::SNARK<ark_mnt4_298::Fr>>::verify(
        &vk.0,
        &raw,
        &proof.0,
    ).unwrap_or(false)
}

/// Relies on `Groth16::<MNT6_298>::verify` and on `ark_ff`'s
/// `from_bigint`: the embedding of MNT4-298 scalars into the MNT6-298
/// scalar field is total (the target modulus is larger), and the
/// verification is deterministic in the key, the inputs and the proof.
#[verifier::external_body]
pub fn outer_verify(vk: &OuterVk, inputs: &Vec<Fe>, proof: &OuterProof) -> (r: bool)
    ensures
        r == outer_verified(*vk, inputs@, *proof),
{
    let raw: Vec<ark_mnt6_298::Fr> = inputs.iter().map(
        |f| ark_mnt6_298::Fr::from_bigint(f.0.into_bigint()).unwrap(),
    ).collect();
    <ark_groth16::Groth16<ark_mnt6_298::MNT6_298> as ark_snark::SNARK<ark_mnt6_298::Fr>>::verify(
        &vk.0,
        &raw,
        &proof.0,
    ).unwrap_or(false)
}

/// Relies on `ark_ff`'s `into_bigint`/`from_bigint`: the canonical
/// embedding of an MNT4-298 scalar into the MNT6-298 scalar field,
/// total because the target modulus is larger, and a pure function of
/// its argument.
#[verifier::external_body]
pub fn mnt6(input: &Fe) -> (r: Fe6)
    ensures
        r == mnt6_of(*input),
{
    Fe6(ark_mnt6_298::Fr::from_bigint(input.0.into_bigint()).unwrap())
}

/// Embeds a whole public-input list into the outer scalar field, as
/// `mnt6_of` states it entry by entry.
pub fn convert_inputs(inputs: &Vec<Fe>) -> (r: Vec<Fe6>)
    ensures
        r@.len() == inputs@.len(),
        forall|i: int| 0 <= i < inputs@.len() ==> r@[i] == mnt6_of(#[trigger] inputs@[i]),
{
    let mut r: Vec<Fe6> = Vec::new();
    let n = inputs.len();
    for i in 0..n
        invariant
            n == inputs@.len(),
            r@.len() == i,
            forall|j: int| 0 <= j < i ==> r@[j] == mnt6_of(#[trigger] inputs@[j]),
    {
        let c = mnt6(&inputs[i]);
        r.push(c);
    }
    r
}

} // verus!
