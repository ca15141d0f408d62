//! The recursive aggregation engine for transition proofs: sibling
//! proofs over one curve are folded pairwise, strictly left to right,
//! into nodes whose sole new public value is the compression of the two
//! children's public values.
//!
//! Proving happens outside the library (it draws randomness and needs
//! the circuit impls); the engine verifies every child proof before a
//! node is formed — an unverified child halts the batch with an
//! explicit error — and pins each node's combined hash exactly.

use vstd::prelude::*;

use crate::code::hash_pair;
use crate::field::{clone_params, compress_of, params_wf, Fe, HashParams};
use crate::merkleloop::level_up_of;
use crate::snark::{
    inner_verified, inner_verify, outer_verified, outer_verify, InnerPk, InnerProof, InnerVk,
    OuterPk, OuterProof, OuterVk,
};

verus! {

/// The failure of an aggregation level: a child proof did not verify,
/// so the batch halts rather than aggregate an unsound node.
#[derive(Debug)]
pub enum AggError {
    ChildProofInvalid,
}

/// The plain compression circuit: its three public values are two
/// inputs and their compression.
pub struct HashCircuit {
    pub a: Fe,
    pub b: Fe,
    pub params: HashParams,
}

impl HashCircuit {
    /// The circuit's combined public value.
    pub fn calc_hash(&self) -> (r: Fe)
        requires
            params_wf(self.params),
        ensures
            r == compress_of(self.params, self.a, self.b),
    {
        hash_pair(&self.params, &self.a, &self.b)
    }
}

/// An aggregation node at an inner level: two inner proofs of the
/// children's public values, a proof of the compression circuit tying
/// the combined value to them, and the keys they verify under.
pub struct InnerAggregationCircuit {
    pub a: Fe,
    pub b: Fe,
    pub c: Fe,
    pub proof1: InnerProof,
    pub proof2: InnerProof,
    pub proof_hash: InnerProof,
    pub vk: InnerVk,
    pub hash_vk: InnerVk,
}

impl InnerAggregationCircuit {
    /// The node's sole new public value.
    pub fn calc_hash(&self) -> (r: Fe)
        ensures
            r == self.c,
    {
        self.c
    }
}

/// An aggregation node at an outer level: two outer proofs of the
/// children's public values and the combined value, recomputed by the
/// node's own compression.
pub struct OuterAggregationCircuit {
    pub a: Fe,
    pub b: Fe,
    pub c: Fe,
    pub proof1: OuterProof,
    pub proof2: OuterProof,
    pub vk: OuterVk,
    pub params: HashParams,
}

impl OuterAggregationCircuit {
    /// The node's sole new public value.
    pub fn calc_hash(&self) -> (r: Fe)
        ensures
            r == self.c,
    {
        self.c
    }
}

/// The keys of an inner aggregation level: the level's own key pair and
/// the compression circuit's key pair.
pub struct InnerSetup {
    pub pk: InnerPk,
    pub hash_pk: InnerPk,
    pub vk: InnerVk,
    pub hash_vk: InnerVk,
    pub params: HashParams,
}

/// The keys of an outer aggregation level.
pub struct OuterSetup {
    pub pk: OuterPk,
    pub vk: OuterVk,
    pub params: HashParams,
}

/// A proved artifact entering an inner aggregation level: a public
/// value and an inner proof of it.
pub struct InnerLeaf {
    pub hash: Fe,
    pub proof: InnerProof,
}

/// A proved artifact entering an outer aggregation level.
pub struct OuterLeaf {
    pub hash: Fe,
    pub proof: OuterProof,
}

/// One aggregation step at an inner level: both child proofs and the
/// compression proof are verified — an invalid one halts the batch —
/// and the node's combined value is exactly the compression of the two
/// child values.
pub fn aggregate_level1(
    a: &InnerLeaf,
    b: &InnerLeaf,
    proof_hash: InnerProof,
    setup: &InnerSetup,
) -> (r: Result<InnerAggregationCircuit, AggError>)
    requires
        params_wf(setup.params),
    ensures
        r matches Ok(node) ==> ({
            &&& node.a == a.hash
            &&& node.b == b.hash
            &&& node.c == compress_of(setup.params, a.hash, b.hash)
            &&& node.vk == setup.vk
            &&& node.hash_vk == setup.hash_vk
            &&& node.proof1 == a.proof
            &&& node.proof2 == b.proof
            &&& node.proof_hash == proof_hash
            &&& inner_verified(setup.vk, seq![a.hash], node.proof1)
            &&& inner_verified(setup.vk, seq![b.hash], node.proof2)
            &&& inner_verified(setup.hash_vk, seq![a.hash, b.hash, node.c], node.proof_hash)
        }),
        r is Err ==> !(inner_verified(setup.vk, seq![a.hash], a.proof) && inner_verified(
            setup.vk,
            seq![b.hash],
            b.proof,
        ) && inner_verified(
            setup.hash_vk,
            seq![a.hash, b.hash, compress_of(setup.params, a.hash, b.hash)],
            proof_hash,
        )),
{
    let c = hash_pair(&setup.params, &a.hash, &b.hash);
    let in1 = vec![a.hash];
    let in2 = vec![b.hash];
    let in3 = vec![a.hash, b.hash, c];
    proof {
        assert(in1@ =~= seq![a.hash]);
        assert(in2@ =~= seq![b.hash]);
        assert(in3@ =~= seq![a.hash, b.hash, c]);
    }
    if !inner_verify(&setup.vk, &in1, &a.proof) {
        return Err(AggError::ChildProofInvalid);
    }
    if !inner_verify(&setup.vk, &in2, &b.proof) {
        return Err(AggError::ChildProofInvalid);
    }
    if !inner_verify(&setup.hash_vk, &in3, &proof_hash) {
        return Err(AggError::ChildProofInvalid);
    }
    Ok(
        InnerAggregationCircuit {
            a: a.hash,
            b: b.hash,
            c,
            proof1: a.proof.clone(),
            proof2: b.proof.clone(),
            proof_hash,
            vk: setup.vk.clone(),
            hash_vk: setup.hash_vk.clone(),
        },
    )
}

/// One aggregation step at an outer level: both child proofs are
/// verified and the combined value is the compression of the children.
pub fn aggregate_level2(a: &OuterLeaf, b: &OuterLeaf, setup: &OuterSetup) -> (r: Result<
    OuterAggregationCircuit,
    AggError,
>)
    requires
        params_wf(setup.params),
    ensures
        r matches Ok(node) ==> ({
            &&& node.a == a.hash
            &&& node.b == b.hash
            &&& node.c == compress_of(setup.params, a.hash, b.hash)
            &&& node.vk == setup.vk
            &&& node.proof1 == a.proof
            &&& node.proof2 == b.proof
            &&& outer_verified(setup.vk, seq![a.hash], node.proof1)
            &&& outer_verified(setup.vk, seq![b.hash], node.proof2)
        }),
        r is Err ==> !(outer_verified(setup.vk, seq![a.hash], a.proof) && outer_verified(
            setup.vk,
            seq![b.hash],
            b.proof,
        )),
{
    let c = hash_pair(&setup.params, &a.hash, &b.hash);
    let in1 = vec![a.hash];
    let in2 = vec![b.hash];
    proof {
        assert(in1@ =~= seq![a.hash]);
        assert(in2@ =~= seq![b.hash]);
    }
    if !outer_verify(&setup.vk, &in1, &a.proof) {
        return Err(AggError::ChildProofInvalid);
    }
    if !outer_verify(&setup.vk, &in2, &b.proof) {
        return Err(AggError::ChildProofInvalid);
    }
    Ok(
        OuterAggregationCircuit {
            a: a.hash,
            b: b.hash,
            c,
            proof1: a.proof.clone(),
            proof2: b.proof.clone(),
            vk: setup.vk.clone(),
            params: clone_params(&setup.params),
        },
    )
}

/// The public values of a list of inner artifacts.
pub open spec fn inner_hashes_of(items: Seq<InnerLeaf>) -> Seq<Fe> {
    Seq::new(items.len(), |i: int| items[i].hash)
}

/// The public values of a list of outer artifacts.
pub open spec fn outer_hashes_of(items: Seq<OuterLeaf>) -> Seq<Fe> {
    Seq::new(items.len(), |i: int| items[i].hash)
}

/// Pair `i` of an inner level is fully proved: both children and the
/// compression of their public values verify under the level's keys.
pub open spec fn inner_pair_verified(
    items: Seq<InnerLeaf>,
    hash_proofs: Seq<InnerProof>,
    setup: InnerSetup,
    i: int,
) -> bool {
    &&& inner_verified(setup.vk, seq![items[2 * i].hash], items[2 * i].proof)
    &&& inner_verified(setup.vk, seq![items[2 * i + 1].hash], items[2 * i + 1].proof)
    &&& inner_verified(
        setup.hash_vk,
        seq![
            items[2 * i].hash,
            items[2 * i + 1].hash,
            compress_of(setup.params, items[2 * i].hash, items[2 * i + 1].hash),
        ],
        hash_proofs[i],
    )
}

/// Pair `i` of an outer level is fully proved.
pub open spec fn outer_pair_verified(items: Seq<OuterLeaf>, setup: OuterSetup, i: int) -> bool {
    &&& outer_verified(setup.vk, seq![items[2 * i].hash], items[2 * i].proof)
    &&& outer_verified(setup.vk, seq![items[2 * i + 1].hash], items[2 * i + 1].proof)
}

/// The combined values of a list of inner aggregation nodes.
pub open spec fn inner_node_hashes_of(items: Seq<InnerAggregationCircuit>) -> Seq<Fe> {
    Seq::new(items.len(), |i: int| items[i].c)
}

/// The combined values of a list of outer aggregation nodes.
pub open spec fn outer_node_hashes_of(items: Seq<OuterAggregationCircuit>) -> Seq<Fe> {
    Seq::new(items.len(), |i: int| items[i].c)
}

/// One whole inner aggregation level: artifacts are paired strictly
/// left to right (children `2i` and `2i + 1` form node `i`, never
/// reordered), so the resulting public values are exactly one
/// level-up compression of the entering ones.
pub fn aggregate_list1(
    items: &Vec<InnerLeaf>,
    hash_proofs: &Vec<InnerProof>,
    setup: &InnerSetup,
) -> (r: Result<Vec<InnerAggregationCircuit>, AggError>)
    requires
        params_wf(setup.params),
        hash_proofs@.len() == items@.len() / 2,
    ensures
        r matches Ok(level) ==> ({
            &&& level@.len() == items@.len() / 2
            &&& forall|i: int|
                0 <= i < level@.len() ==> (#[trigger] level@[i]).a == items@[2 * i].hash
                    && level@[i].b == items@[2 * i + 1].hash && level@[i].c == compress_of(
                    setup.params,
                    items@[2 * i].hash,
                    items@[2 * i + 1].hash,
                )
            &&& forall|i: int|
                0 <= i < level@.len() ==> inner_verified(
                    setup.vk,
                    seq![items@[2 * i].hash],
                    (#[trigger] level@[i]).proof1,
                ) && inner_verified(setup.vk, seq![items@[2 * i + 1].hash], level@[i].proof2)
                    && inner_verified(
                    setup.hash_vk,
                    seq![items@[2 * i].hash, items@[2 * i + 1].hash, level@[i].c],
                    level@[i].proof_hash,
                )
            &&& forall|i: int|
                0 <= i < level@.len() ==> (#[trigger] level@[i]).proof1 == items@[2 * i].proof
                    && level@[i].proof2 == items@[2 * i + 1].proof && level@[i].proof_hash
                    == hash_proofs@[i]
            &&& inner_node_hashes_of(level@) == level_up_of(setup.params, inner_hashes_of(items@))
        }),
        r is Err ==> (exists|i: int|
            0 <= i < items@.len() / 2 && !(#[trigger] inner_pair_verified(
                items@,
                hash_proofs@,
                *setup,
                i,
            ))),
{
    let mut level: Vec<InnerAggregationCircuit> = Vec::new();
    let n = items.len();
    let m = n / 2;
    for i in 0..m
        invariant
            params_wf(setup.params),
            n == items@.len(),
            m == items@.len() / 2,
            hash_proofs@.len() == m,
            level@.len() == i,
            forall|j: int|
                0 <= j < i ==> (#[trigger] level@[j]).proof1 == items@[2 * j].proof
                    && level@[j].proof2 == items@[2 * j + 1].proof && level@[j].proof_hash
                    == hash_proofs@[j],
            forall|j: int|
                0 <= j < i ==> (#[trigger] level@[j]).a == items@[2 * j].hash && level@[j].b
                    == items@[2 * j + 1].hash && level@[j].c == compress_of(
                    setup.params,
                    items@[2 * j].hash,
                    items@[2 * j + 1].hash,
                ),
            forall|j: int|
                0 <= j < i ==> inner_verified(
                    setup.vk,
                    seq![items@[2 * j].hash],
                    (#[trigger] level@[j]).proof1,
                ) && inner_verified(setup.vk, seq![items@[2 * j + 1].hash], level@[j].proof2)
                    && inner_verified(
                    setup.hash_vk,
                    seq![items@[2 * j].hash, items@[2 * j + 1].hash, level@[j].c],
                    level@[j].proof_hash,
                ),
    {
        let hp = hash_proofs[i].clone();
        let node = aggregate_level1(&items[2 * i], &items[2 * i + 1], hp, setup);
        match node {
            Err(e) => {
                proof {
                    assert(!inner_pair_verified(items@, hash_proofs@, *setup, i as int));
                }
                return Err(e);
            },
            Ok(node) => {
                level.push(node);
            },
        }
    }
    proof {
        assert(inner_node_hashes_of(level@) =~= level_up_of(
            setup.params,
            inner_hashes_of(items@),
        ));
    }
    Ok(level)
}

/// One whole outer aggregation level, paired strictly left to right.
pub fn aggregate_list2(items: &Vec<OuterLeaf>, setup: &OuterSetup) -> (r: Result<
    Vec<OuterAggregationCircuit>,
    AggError,
>)
    requires
        params_wf(setup.params),
    ensures
        r matches Ok(level) ==> ({
            &&& level@.len() == items@.len() / 2
            &&& forall|i: int|
                0 <= i < level@.len() ==> (#[trigger] level@[i]).a == items@[2 * i].hash
                    && level@[i].b == items@[2 * i + 1].hash && level@[i].c == compress_of(
                    setup.params,
                    items@[2 * i].hash,
                    items@[2 * i + 1].hash,
                )
            &&& forall|i: int|
                0 <= i < level@.len() ==> outer_verified(
                    setup.vk,
                    seq![items@[2 * i].hash],
                    (#[trigger] level@[i]).proof1,
                ) && outer_verified(setup.vk, seq![items@[2 * i + 1].hash], level@[i].proof2)
            &&& forall|i: int|
                0 <= i < level@.len() ==> (#[trigger] level@[i]).proof1 == items@[2 * i].proof
                    && level@[i].proof2 == items@[2 * i + 1].proof
            &&& outer_node_hashes_of(level@) == level_up_of(setup.params, outer_hashes_of(items@))
        }),
        r is Err ==> (exists|i: int|
            0 <= i < items@.len() / 2 && !(#[trigger] outer_pair_verified(items@, *setup, i))),
{
    let mut level: Vec<OuterAggregationCircuit> = Vec::new();
    let n = items.len();
    let m = n / 2;
    for i in 0..m
        invariant
            params_wf(setup.params),
            n == items@.len(),
            m == items@.len() / 2,
            level@.len() == i,
            forall|j: int|
                0 <= j < i ==> (#[trigger] level@[j]).a == items@[2 * j].hash && level@[j].b
                    == items@[2 * j + 1].hash && level@[j].c == compress_of(
                    setup.params,
                    items@[2 * j].hash,
                    items@[2 * j + 1].hash,
                ),
            forall|j: int|
                0 <= j < i ==> outer_verified(
                    setup.vk,
                    seq![items@[2 * j].hash],
                    (#[trigger] level@[j]).proof1,
                ) && outer_verified(setup.vk, seq![items@[2 * j + 1].hash], level@[j].proof2),
            forall|j: int|
                0 <= j < i ==> (#[trigger] level@[j]).proof1 == items@[2 * j].proof && level@[j].proof2
                    == items@[2 * j + 1].proof,
    {
        let node = aggregate_level2(&items[2 * i], &items[2 * i + 1], setup);
        match node {
            Err(e) => {
                proof {
                    assert(!outer_pair_verified(items@, *setup, i as int));
                }
                return Err(e);
            },
            Ok(node) => {
                level.push(node);
            },
        }
    }
    proof {
        assert(outer_node_hashes_of(level@) =~= level_up_of(
            setup.params,
            outer_hashes_of(items@),
        ));
    }
    Ok(level)
}

/// The single public value left after repeatedly halving a power-of-two
/// list of public values: the root of the aggregation tree, a pure
/// function of the leaf values and their order.
pub open spec fn agg_root_of(params: HashParams, hs: Seq<Fe>) -> Fe
    decreases hs.len(),
{
    if hs.len() <= 1 {
        hs[0]
    } else {
        agg_root_of(params, level_up_of(params, hs))
    }
}

/// Aggregation preserves the tree root: the root over the level-up
/// values is the root over the values themselves.  Repeated pairwise
/// aggregation of `2^k` leaves therefore ends in exactly
/// `agg_root_of` of the original leaf values.
pub proof fn lemma_agg_root_level(params: HashParams, hs: Seq<Fe>)
    requires
        hs.len() >= 2,
    ensures
        agg_root_of(params, level_up_of(params, hs)) == agg_root_of(params, hs),
{
}


/// The root of a batch padded to four leaves by doubling the last: two
/// pairwise levels end in the compression of the two pair compressions.
pub proof fn lemma_agg_root_of_four(params: HashParams, h0: Fe, h1: Fe, h2: Fe, h3: Fe)
    ensures
        agg_root_of(params, seq![h0, h1, h2, h3]) == compress_of(
            params,
            compress_of(params, h0, h1),
            compress_of(params, h2, h3),
        ),
{
    let leaves = seq![h0, h1, h2, h3];
    let up = level_up_of(params, leaves);
    assert(up =~= seq![compress_of(params, h0, h1), compress_of(params, h2, h3)]);
    let top = level_up_of(params, up);
    assert(top =~= seq![
        compress_of(params, compress_of(params, h0, h1), compress_of(params, h2, h3)),
    ]);
    assert(agg_root_of(params, leaves) == agg_root_of(params, up));
    assert(agg_root_of(params, up) == agg_root_of(params, top));
}

} // verus!
