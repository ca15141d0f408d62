//! Trusted boundary around the pairing-friendly scalar fields and the
//! Poseidon compression function.
//!
//! Every commitment in this library is an element of the MNT4-298 scalar
//! field, and every hash is one call of the Poseidon sponge hash of
//! `ark_crypto_primitives`.  The hash itself is opaque: its result is
//! only named (`crh_of`), never computed in specifications.  The field
//! types of `ark_ff` are generic over trait bounds that the verifier
//! cannot read, so each one is held inside an opaque struct of this
//! library.

use vstd::prelude::*;

verus! {

/// An element of the scalar field of MNT4-298: the field all state
/// commitments live in.
#[verifier::external_body]
pub struct Fe(pub ark_mnt4_298::Fr);

/// An element of the scalar field of MNT6-298 (the base field of
/// MNT4-298), the form public inputs take on the outer curve.
#[verifier::external_body]
pub struct Fe6(pub ark_mnt6_298::Fr);

impl Clone for Fe {
    /// Relies on `ark_ff::Fp` being `Copy`: the copy is the same element.
    #[verifier::external_body]
    fn clone(&self) -> (r: Self)
        ensures
            r == *self,
    {
        Fe(self.0)
    }
}

impl Copy for Fe {}

impl Clone for Fe6 {
    /// Relies on `ark_ff::Fp` being `Copy`: the copy is the same element.
    #[verifier::external_body]
    fn clone(&self) -> (r: Self)
        ensures
            r == *self,
    {
        Fe6(self.0)
    }
}

impl Copy for Fe6 {}

/// The Poseidon round constants and MDS matrix shared by every hash of
/// one proving session.
#[verifier::external_body]
pub struct HashParams(pub ark_crypto_primitives::sponge::poseidon::PoseidonConfig<ark_mnt4_298::Fr>);

/// The canonical embedding of a machine word into the scalar field.
pub uninterp spec fn fe_of(x: u64) -> Fe;

/// A parameter set whose sponge never stalls or reads out of bounds: a
/// positive rate, and round-constant and matrix tables of the shape the
/// permutation indexes.  Only the validating constructor below
/// establishes it.
pub uninterp spec fn params_wf(params: HashParams) -> bool;

/// What the Poseidon hash returns on a given parameter set and input list.
/// The hash is collision resistant but otherwise opaque; nothing else is
/// assumed of this name.
pub uninterp spec fn crh_of(params: HashParams, inputs: Seq<Fe>) -> Fe;

/// Two-input compression, the shape in which the hash combines
/// commitments, Merkle children and aggregated public values.
pub open spec fn compress_of(params: HashParams, a: Fe, b: Fe) -> Fe {
    crh_of(params, seq![a, b])
}

/// Relies on `ark_ff::Fp::from(u64)`: the canonical embedding of a
/// 64-bit integer into the field, a pure function of its argument and
/// injective, the modulus being far above the 64-bit range.
#[verifier::external_body]
pub fn fe_u64(x: u64) -> (r: Fe)
    ensures
        r == fe_of(x),
        forall|y: u64| r == fe_of(y) ==> y == x,
{
    Fe(ark_mnt4_298::Fr::from(x))
}

/// Relies on `PoseidonConfig::new` of `ark_crypto_primitives`: stores
/// the given rounds, tables, rate and capacity unchanged; its own shape
/// assertions cannot fire under this `requires`.  The well-formed shape
/// is what keeps the sponge's absorb and squeeze loops finite and its
/// table reads in bounds.
#[verifier::external_body]
fn params_raw(
    full_rounds: usize,
    partial_rounds: usize,
    alpha: u64,
    mds: Vec<Vec<Fe>>,
    ark: Vec<Vec<Fe>>,
    rate: usize,
    capacity: usize,
) -> (r: HashParams)
    requires
        rate >= 1,
        rate + capacity <= usize::MAX,
        full_rounds + partial_rounds <= usize::MAX,
        mds@.len() == rate + capacity,
        forall|i: int| 0 <= i < mds@.len() ==> (#[trigger] mds@[i])@.len() == rate + capacity,
        ark@.len() == full_rounds + partial_rounds,
        forall|i: int| 0 <= i < ark@.len() ==> (#[trigger] ark@[i])@.len() == rate + capacity,
    ensures
        params_wf(r),
{
    let mds: Vec<Vec<ark_mnt4_298::Fr>> = mds.iter().map(|row| row.iter().map(|f| f.0).collect()).collect();
    let ark: Vec<Vec<ark_mnt4_298::Fr>> = ark.iter().map(|row| row.iter().map(|f| f.0).collect()).collect();
    HashParams(ark_crypto_primitives::sponge::poseidon::PoseidonConfig::new(
        full_rounds,
        partial_rounds,
        alpha,
        mds,
        ark,
        rate,
        capacity,
    ))
}

/// The only door to a usable parameter set: checks the table shapes and
/// the positive rate, and hands back a well-formed parameter set if and
/// only if they fit.
pub fn make_params(
    full_rounds: usize,
    partial_rounds: usize,
    alpha: u64,
    mds: Vec<Vec<Fe>>,
    ark: Vec<Vec<Fe>>,
    rate: usize,
    capacity: usize,
) -> (r: Option<HashParams>)
    ensures
        r matches Some(p) ==> params_wf(p),
        r is Some <==> ({
            &&& rate >= 1
            &&& rate + capacity <= usize::MAX
            &&& full_rounds + partial_rounds <= usize::MAX
            &&& mds@.len() == rate + capacity
            &&& (forall|i: int|
                0 <= i < mds@.len() ==> (#[trigger] mds@[i])@.len() == rate + capacity)
            &&& ark@.len() == full_rounds + partial_rounds
            &&& (forall|i: int|
                0 <= i < ark@.len() ==> (#[trigger] ark@[i])@.len() == rate + capacity)
        }),
{
    if rate < 1 {
        return Option::None;
    }
    if usize::MAX - capacity < rate {
        return Option::None;
    }
    if usize::MAX - partial_rounds < full_rounds {
        return Option::None;
    }
    let width = rate + capacity;
    if mds.len() != width {
        return Option::None;
    }
    let mn = mds.len();
    for i in 0..mn
        invariant
            mn == mds@.len(),
            width == rate + capacity,
            forall|j: int| 0 <= j < i ==> (#[trigger] mds@[j])@.len() == width,
    {
        if mds[i].len() != width {
            proof {
                assert(mds@[i as int]@.len() != rate + capacity);
            }
            return Option::None;
        }
    }
    if ark.len() != full_rounds + partial_rounds {
        return Option::None;
    }
    let an = ark.len();
    for i in 0..an
        invariant
            an == ark@.len(),
            width == rate + capacity,
            forall|j: int| 0 <= j < i ==> (#[trigger] ark@[j])@.len() == width,
    {
        if ark[i].len() != width {
            proof {
                assert(ark@[i as int]@.len() != rate + capacity);
            }
            return Option::None;
        }
    }
    Option::Some(params_raw(full_rounds, partial_rounds, alpha, mds, ark, rate, capacity))
}

/// Relies on `CRH::<Fr>::evaluate` of `ark_crypto_primitives` (Poseidon):
/// deterministic in the parameters and the input list, and it returns
/// `Ok` on every input; on a well-formed parameter set the sponge's
/// loops shrink their input and stay inside its tables.
#[verifier::external_body]
pub fn crh(params: &HashParams, inputs: &Vec<Fe>) -> (r: Fe)
    requires
        params_wf(*params),
    ensures
        r == crh_of(*params, inputs@),
{
    let raw: Vec<ark_mnt4_298::Fr> = inputs.iter().map(|f| f.0).collect();
    Fe(<ark_crypto_primitives::crh::poseidon::CRH<ark_mnt4_298::Fr> as ark_crypto_primitives::crh::CRHScheme>::evaluate(
        &params.0,
        raw.as_slice(),
    ).unwrap())
}

/// What field addition returns.
pub uninterp spec fn fe_add_of(a: Fe, b: Fe) -> Fe;

/// What field subtraction returns.
pub uninterp spec fn fe_sub_of(a: Fe, b: Fe) -> Fe;

/// Relies on `ark_ff::Fp`'s `Add`: field addition, a pure function of
/// its arguments; on embedded machine words below the modulus it agrees
/// with integer addition.
#[verifier::external_body]
pub fn fe_add(a: Fe, b: Fe) -> (r: Fe)
    ensures
        r == fe_add_of(a, b),
        forall|x: u64, y: u64|
            #![trigger fe_of(x), fe_of(y)]
            a == fe_of(x) && b == fe_of(y) && x <= u32::MAX && y <= u32::MAX ==> r == fe_of(
                (x + y) as u64,
            ),
{
    Fe(a.0 + b.0)
}

/// Relies on `ark_ff::Fp`'s `Sub`: field subtraction, a pure function
/// of its arguments; on embedded machine words it agrees with integer
/// subtraction when no borrow occurs.
#[verifier::external_body]
pub fn fe_sub(a: Fe, b: Fe) -> (r: Fe)
    ensures
        r == fe_sub_of(a, b),
        forall|x: u64, y: u64|
            #![trigger fe_of(x), fe_of(y)]
            a == fe_of(x) && b == fe_of(y) && y <= x ==> r == fe_of((x - y) as u64),
{
    Fe(a.0 - b.0)
}

/// Relies on the derived `PartialEq` of `ark_ff::Fp`, which compares the
/// canonical (Montgomery) representations; representations are unique,
/// so this decides equality of the abstract field elements.
#[verifier::external_body]
pub fn fe_eq(a: &Fe, b: &Fe) -> (r: bool)
    ensures
        r == (*a == *b),
{
    a.0 == b.0
}

/// Relies on the derived `Clone` of `PoseidonConfig`, which copies every
/// round constant and matrix entry unchanged.
#[verifier::external_body]
pub fn clone_params(params: &HashParams) -> (r: HashParams)
    ensures
        r == *params,
{
    HashParams(params.0.clone())
}

} // verus!
