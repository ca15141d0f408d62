// The proof-system boundary: real proofs verify through the library's
// wrappers, the aggregation steps accept exactly the verifying pairs,
// and the selection statement picks the right key.

use ark_relations::r1cs::{
    ConstraintSynthesizer, ConstraintSystemRef, LinearCombination, SynthesisError,
};
use ark_snark::SNARK;
use ark_std::rand::SeedableRng;
use ark_std::UniformRand;

use vmsnark::aggtransition::{aggregate_level1, aggregate_list2, InnerLeaf, InnerSetup, OuterLeaf, OuterSetup};
use vmsnark::field::{fe_eq, fe_u64, HashParams};
use vmsnark::select::{select_pow2, selection_holds, SelectionCircuit};
use vmsnark::snark::{inner_verify, outer_verify, InnerPk, InnerProof, InnerVk, OuterPk, OuterProof, OuterVk};

type Fr = ark_mnt4_298::Fr;
type Fr6 = ark_mnt6_298::Fr;

fn params() -> HashParams {
    let mut rng = ark_std::test_rng();
    let mut mds: Vec<Vec<vmsnark::field::Fe>> = vec![vec![], vec![], vec![]];
    for row in mds.iter_mut() {
        for _ in 0..3 {
            row.push(vmsnark::field::Fe(ark_mnt4_298::Fr::rand(&mut rng)));
        }
    }
    let mut ark: Vec<Vec<vmsnark::field::Fe>> = (0..40).map(|_| vec![]).collect();
    for row in ark.iter_mut() {
        for _ in 0..3 {
            row.push(vmsnark::field::Fe(ark_mnt4_298::Fr::rand(&mut rng)));
        }
    }
    vmsnark::field::make_params(8, 32, 5, mds, ark, 2, 1).unwrap()
}

// x * x = y with public y
#[derive(Clone)]
struct Square {
    x: Fr,
    y: Fr,
}

impl ConstraintSynthesizer<Fr> for Square {
    fn generate_constraints(self, cs: ConstraintSystemRef<Fr>) -> Result<(), SynthesisError> {
        let x = cs.new_witness_variable(|| Ok(self.x))?;
        let y = cs.new_input_variable(|| Ok(self.y))?;
        cs.enforce_constraint(
            LinearCombination::from(x),
            LinearCombination::from(x),
            LinearCombination::from(y),
        )?;
        Ok(())
    }
}

// three public values, one trivial constraint
#[derive(Clone)]
struct Pass3 {
    a: Fr,
    b: Fr,
    c: Fr,
}

impl ConstraintSynthesizer<Fr> for Pass3 {
    fn generate_constraints(self, cs: ConstraintSystemRef<Fr>) -> Result<(), SynthesisError> {
        let a = cs.new_input_variable(|| Ok(self.a))?;
        let _b = cs.new_input_variable(|| Ok(self.b))?;
        let _c = cs.new_input_variable(|| Ok(self.c))?;
        let one = LinearCombination::from(ark_relations::r1cs::Variable::One);
        cs.enforce_constraint(LinearCombination::from(a), one.clone(), LinearCombination::from(a))?;
        Ok(())
    }
}

// the outer-curve counterpart of the squaring statement
#[derive(Clone)]
struct Square6 {
    x: Fr6,
    y: Fr6,
}

impl ConstraintSynthesizer<Fr6> for Square6 {
    fn generate_constraints(self, cs: ConstraintSystemRef<Fr6>) -> Result<(), SynthesisError> {
        let x = cs.new_witness_variable(|| Ok(self.x))?;
        let y = cs.new_input_variable(|| Ok(self.y))?;
        cs.enforce_constraint(
            LinearCombination::from(x),
            LinearCombination::from(x),
            LinearCombination::from(y),
        )?;
        Ok(())
    }
}

type G16 = ark_groth16::Groth16<ark_mnt4_298::MNT4_298>;
type G16o = ark_groth16::Groth16<ark_mnt6_298::MNT6_298>;

#[test]
fn inner_proofs_verify_through_the_wrapper() {
    let mut rng = ark_std::rand::rngs::StdRng::seed_from_u64(0);
    let (pk, vk) = G16::circuit_specific_setup(Square { x: Fr::from(3u64), y: Fr::from(9u64) }, &mut rng).unwrap();
    let proof = G16::prove(&pk, Square { x: Fr::from(3u64), y: Fr::from(9u64) }, &mut rng).unwrap();
    let vk = InnerVk(vk);
    let proof = InnerProof(proof);
    assert!(inner_verify(&vk, &vec![fe_u64(9)], &proof));
    assert!(!inner_verify(&vk, &vec![fe_u64(8)], &proof));
    // the wrong input count is a failed verification, not a panic
    assert!(!inner_verify(&vk, &vec![fe_u64(9), fe_u64(9)], &proof));
}

#[test]
fn outer_proofs_verify_through_the_wrapper() {
    let mut rng = ark_std::rand::rngs::StdRng::seed_from_u64(0);
    let (pk, vk) = G16o::circuit_specific_setup(Square6 { x: Fr6::from(3u64), y: Fr6::from(9u64) }, &mut rng).unwrap();
    let proof = G16o::prove(&pk, Square6 { x: Fr6::from(3u64), y: Fr6::from(9u64) }, &mut rng).unwrap();
    let vk = OuterVk(vk);
    let proof = OuterProof(proof);
    // the public input is handed over in the inner field and embedded
    assert!(outer_verify(&vk, &vec![fe_u64(9)], &proof));
    assert!(!outer_verify(&vk, &vec![fe_u64(10)], &proof));
}

#[test]
fn aggregation_combines_two_verified_leaves() {
    let p = params();
    let mut rng = ark_std::rand::rngs::StdRng::seed_from_u64(0);
    let (pk, vk) = G16::circuit_specific_setup(Square { x: Fr::from(3u64), y: Fr::from(9u64) }, &mut rng).unwrap();
    let proof1 = G16::prove(&pk, Square { x: Fr::from(3u64), y: Fr::from(9u64) }, &mut rng).unwrap();
    let proof2 = G16::prove(&pk, Square { x: Fr::from(5u64), y: Fr::from(25u64) }, &mut rng).unwrap();
    let h1 = fe_u64(9);
    let h2 = fe_u64(25);
    let c = vmsnark::code::hash_pair(&p, &h1, &h2);
    let (hash_pk, hash_vk) = G16::circuit_specific_setup(
        Pass3 { a: Fr::from(1u64), b: Fr::from(1u64), c: Fr::from(1u64) },
        &mut rng,
    ).unwrap();
    let proof_hash = G16::prove(&hash_pk, Pass3 { a: h1.0, b: h2.0, c: c.0 }, &mut rng).unwrap();
    let setup = InnerSetup {
        pk: InnerPk(pk),
        hash_pk: InnerPk(hash_pk),
        vk: InnerVk(vk),
        hash_vk: InnerVk(hash_vk),
        params: p,
    };
    let a = InnerLeaf { hash: h1, proof: InnerProof(proof1) };
    let b = InnerLeaf { hash: h2, proof: InnerProof(proof2) };
    let node = aggregate_level1(&a, &b, InnerProof(proof_hash.clone()), &setup).unwrap();
    // the combined public value is exactly the compression of the two
    assert!(fe_eq(&node.calc_hash(), &c));
    assert!(fe_eq(&node.a, &h1));
    assert!(fe_eq(&node.b, &h2));
    // an unverified child halts the level
    let bad = InnerLeaf { hash: fe_u64(10), proof: a.proof.clone() };
    assert!(aggregate_level1(&bad, &b, InnerProof(proof_hash), &setup).is_err());
}

#[test]
fn outer_level_pairs_left_to_right() {
    let p = params();
    let mut rng = ark_std::rand::rngs::StdRng::seed_from_u64(0);
    let (pk, vk) = G16o::circuit_specific_setup(Square6 { x: Fr6::from(2u64), y: Fr6::from(4u64) }, &mut rng).unwrap();
    let mut items: Vec<OuterLeaf> = Vec::new();
    for v in [2u64, 3, 4, 5] {
        let proof = G16o::prove(&pk, Square6 { x: Fr6::from(v), y: Fr6::from(v * v) }, &mut rng)
            .unwrap();
        items.push(OuterLeaf { hash: fe_u64(v * v), proof: OuterProof(proof) });
    }
    let setup = OuterSetup { pk: OuterPk(pk), vk: OuterVk(vk), params: params() };
    let level = aggregate_list2(&items, &setup).unwrap();
    assert_eq!(level.len(), 2);
    let c0 = vmsnark::code::hash_pair(&params(), &fe_u64(4), &fe_u64(9));
    let c1 = vmsnark::code::hash_pair(&params(), &fe_u64(16), &fe_u64(25));
    assert!(fe_eq(&level[0].c, &c0));
    assert!(fe_eq(&level[1].c, &c1));
}

#[test]
fn selection_picks_the_indexed_key() {
    let mut rng = ark_std::rand::rngs::StdRng::seed_from_u64(0);
    let (pk, vk) = G16::circuit_specific_setup(Square { x: Fr::from(3u64), y: Fr::from(9u64) }, &mut rng).unwrap();
    let proof = G16::prove(&pk, Square { x: Fr::from(3u64), y: Fr::from(9u64) }, &mut rng).unwrap();
    let mut keys: Vec<InnerVk> = Vec::new();
    for _ in 0..16 {
        keys.push(InnerVk(vk.clone()));
    }
    let circuit = SelectionCircuit {
        hash: fe_u64(9),
        proof: InnerProof(proof),
        keys,
        idx: 12,
    };
    assert!(selection_holds(&circuit));
    let wrong = SelectionCircuit { hash: fe_u64(8), ..circuit };
    assert!(!selection_holds(&wrong));
}

#[test]
fn pow2_selection_is_exact() {
    let items: Vec<u64> = (0..16).collect();
    for idx in 0..16u64 {
        let bits = vmsnark::decode(idx, 4);
        assert_eq!(select_pow2(&bits, &items), idx);
    }
}
