//! The recursive aggregation engine for Merkle-loop shard proofs.
//!
//! A shard proof attests three public values: a start commitment, an
//! end commitment and the tree root.  Two sibling shards chain through
//! a shared middle commitment and share one root; their aggregation
//! node attests the combined span.  A child that does not verify, or a
//! pair that does not chain, halts the batch with an explicit error.

use vstd::prelude::*;

use crate::field::{fe_eq, Fe};
use crate::snark::{
    inner_verified, inner_verify, outer_verified, outer_verify, InnerPk, InnerProof, InnerVk,
    OuterPk, OuterProof, OuterVk,
};

verus! {

/// Pair `i` of an inner loop level can form a node: the children chain
/// through a shared middle commitment, attest one root, and both verify.
pub open spec fn inner_loop_pair_ok(items: Seq<InnerLoopLeaf>, setup: InnerSetup, i: int) -> bool {
    &&& items[2 * i].end_st == items[2 * i + 1].start_st
    &&& items[2 * i].root == items[2 * i + 1].root
    &&& inner_verified(
        setup.vk,
        seq![items[2 * i].start_st, items[2 * i].end_st, items[2 * i].root],
        items[2 * i].proof,
    )
    &&& inner_verified(
        setup.vk,
        seq![items[2 * i + 1].start_st, items[2 * i + 1].end_st, items[2 * i + 1].root],
        items[2 * i + 1].proof,
    )
}

/// Pair `i` of an outer loop level can form a node.
pub open spec fn outer_loop_pair_ok(items: Seq<OuterLoopLeaf>, setup: OuterSetup, i: int) -> bool {
    &&& items[2 * i].end_st == items[2 * i + 1].start_st
    &&& items[2 * i].root == items[2 * i + 1].root
    &&& outer_verified(
        setup.vk,
        seq![items[2 * i].start_st, items[2 * i].end_st, items[2 * i].root],
        items[2 * i].proof,
    )
    &&& outer_verified(
        setup.vk,
        seq![items[2 * i + 1].start_st, items[2 * i + 1].end_st, items[2 * i + 1].root],
        items[2 * i + 1].proof,
    )
}

/// The failure of a loop-aggregation level.
#[derive(Debug)]
pub enum LoopAggError {
    /// a child proof did not verify
    ChildProofInvalid,
    /// the left child's end does not meet the right child's start
    ChainBroken,
    /// the two children attest different tree roots
    RootMismatch,
}

/// An aggregation node over two inner-curve shard proofs: the node
/// spans from the left child's start to the right child's end, through
/// the shared middle commitment, under one root.
pub struct InnerAggregateLoop {
    pub start_st: Fe,
    pub mid_st: Fe,
    pub end_st: Fe,
    pub root: Fe,
    pub proof1: InnerProof,
    pub proof2: InnerProof,
    pub vk: InnerVk,
}

/// An aggregation node over two outer-curve shard proofs.
pub struct OuterAggregateLoop {
    pub start_st: Fe,
    pub mid_st: Fe,
    pub end_st: Fe,
    pub root: Fe,
    pub proof1: OuterProof,
    pub proof2: OuterProof,
    pub vk: OuterVk,
}

/// The keys of an inner loop-aggregation level.
pub struct InnerSetup {
    pub pk: InnerPk,
    pub vk: InnerVk,
}

/// The keys of an outer loop-aggregation level.
pub struct OuterSetup {
    pub pk: OuterPk,
    pub vk: OuterVk,
}

/// A proved loop artifact entering an inner level: its three public
/// values and an inner proof of them.
pub struct InnerLoopLeaf {
    pub start_st: Fe,
    pub end_st: Fe,
    pub root: Fe,
    pub proof: InnerProof,
}

/// A proved loop artifact entering an outer level.
pub struct OuterLoopLeaf {
    pub start_st: Fe,
    pub end_st: Fe,
    pub root: Fe,
    pub proof: OuterProof,
}

impl InnerAggregateLoop {
    /// The node's three public inputs, in their fixed order.
    pub fn get_inputs(&self) -> (r: Vec<Fe>)
        ensures
            r@ == seq![self.start_st, self.end_st, self.root],
    {
        let mut r: Vec<Fe> = Vec::new();
        r.push(self.start_st);
        r.push(self.end_st);
        r.push(self.root);
        proof {
            assert(r@ =~= seq![self.start_st, self.end_st, self.root]);
        }
        r
    }

    /// The span's boundary commitments and the root.
    pub fn get(&self) -> (r: (Fe, Fe, Fe))
        ensures
            r == (self.start_st, self.end_st, self.root),
    {
        (self.start_st, self.end_st, self.root)
    }
}

impl OuterAggregateLoop {
    /// The node's three public inputs, in their fixed order.
    pub fn get_inputs(&self) -> (r: Vec<Fe>)
        ensures
            r@ == seq![self.start_st, self.end_st, self.root],
    {
        let mut r: Vec<Fe> = Vec::new();
        r.push(self.start_st);
        r.push(self.end_st);
        r.push(self.root);
        proof {
            assert(r@ =~= seq![self.start_st, self.end_st, self.root]);
        }
        r
    }

    /// The span's boundary commitments and the root.
    pub fn get(&self) -> (r: (Fe, Fe, Fe))
        ensures
            r == (self.start_st, self.end_st, self.root),
    {
        (self.start_st, self.end_st, self.root)
    }
}

/// One loop-aggregation step at an inner level: both child proofs are
/// verified against their three public values, the left child's end
/// meets the right child's start, the roots agree, and the node spans
/// from the left start to the right end.
pub fn aggregate_level1(a: &InnerLoopLeaf, b: &InnerLoopLeaf, setup: &InnerSetup) -> (r: Result<
    InnerAggregateLoop,
    LoopAggError,
>)
    ensures
        r matches Ok(node) ==> ({
            &&& node.start_st == a.start_st
            &&& node.mid_st == a.end_st
            &&& node.mid_st == b.start_st
            &&& node.end_st == b.end_st
            &&& node.root == a.root
            &&& node.root == b.root
            &&& node.vk == setup.vk
            &&& node.proof1 == a.proof
            &&& node.proof2 == b.proof
            &&& inner_verified(setup.vk, seq![a.start_st, a.end_st, a.root], node.proof1)
            &&& inner_verified(setup.vk, seq![b.start_st, b.end_st, b.root], node.proof2)
        }),
        r is Err ==> !(a.end_st == b.start_st && a.root == b.root && inner_verified(
            setup.vk,
            seq![a.start_st, a.end_st, a.root],
            a.proof,
        ) && inner_verified(setup.vk, seq![b.start_st, b.end_st, b.root], b.proof)),
{
    if !fe_eq(&a.end_st, &b.start_st) {
        return Err(LoopAggError::ChainBroken);
    }
    if !fe_eq(&a.root, &b.root) {
        return Err(LoopAggError::RootMismatch);
    }
    let in1 = vec![a.start_st, a.end_st, a.root];
    let in2 = vec![b.start_st, b.end_st, b.root];
    proof {
        assert(in1@ =~= seq![a.start_st, a.end_st, a.root]);
        assert(in2@ =~= seq![b.start_st, b.end_st, b.root]);
    }
    if !inner_verify(&setup.vk, &in1, &a.proof) {
        return Err(LoopAggError::ChildProofInvalid);
    }
    if !inner_verify(&setup.vk, &in2, &b.proof) {
        return Err(LoopAggError::ChildProofInvalid);
    }
    Ok(
        InnerAggregateLoop {
            start_st: a.start_st,
            mid_st: a.end_st,
            end_st: b.end_st,
            root: a.root,
            proof1: a.proof.clone(),
            proof2: b.proof.clone(),
            vk: setup.vk.clone(),
        },
    )
}

/// One loop-aggregation step at an outer level.
pub fn aggregate_level2(a: &OuterLoopLeaf, b: &OuterLoopLeaf, setup: &OuterSetup) -> (r: Result<
    OuterAggregateLoop,
    LoopAggError,
>)
    ensures
        r matches Ok(node) ==> ({
            &&& node.start_st == a.start_st
            &&& node.mid_st == a.end_st
            &&& node.mid_st == b.start_st
            &&& node.end_st == b.end_st
            &&& node.root == a.root
            &&& node.root == b.root
            &&& node.vk == setup.vk
            &&& node.proof1 == a.proof
            &&& node.proof2 == b.proof
            &&& outer_verified(setup.vk, seq![a.start_st, a.end_st, a.root], node.proof1)
            &&& outer_verified(setup.vk, seq![b.start_st, b.end_st, b.root], node.proof2)
        }),
        r is Err ==> !(a.end_st == b.start_st && a.root == b.root && outer_verified(
            setup.vk,
            seq![a.start_st, a.end_st, a.root],
            a.proof,
        ) && outer_verified(setup.vk, seq![b.start_st, b.end_st, b.root], b.proof)),
{
    if !fe_eq(&a.end_st, &b.start_st) {
        return Err(LoopAggError::ChainBroken);
    }
    if !fe_eq(&a.root, &b.root) {
        return Err(LoopAggError::RootMismatch);
    }
    let in1 = vec![a.start_st, a.end_st, a.root];
    let in2 = vec![b.start_st, b.end_st, b.root];
    proof {
        assert(in1@ =~= seq![a.start_st, a.end_st, a.root]);
        assert(in2@ =~= seq![b.start_st, b.end_st, b.root]);
    }
    if !outer_verify(&setup.vk, &in1, &a.proof) {
        return Err(LoopAggError::ChildProofInvalid);
    }
    if !outer_verify(&setup.vk, &in2, &b.proof) {
        return Err(LoopAggError::ChildProofInvalid);
    }
    Ok(
        OuterAggregateLoop {
            start_st: a.start_st,
            mid_st: a.end_st,
            end_st: b.end_st,
            root: a.root,
            proof1: a.proof.clone(),
            proof2: b.proof.clone(),
            vk: setup.vk.clone(),
        },
    )
}

/// One whole inner loop-aggregation level, paired strictly left to
/// right: node `i` spans from shard `2i`'s start to shard `2i + 1`'s
/// end, all under the shared root.
pub fn aggregate_list1(items: &Vec<InnerLoopLeaf>, setup: &InnerSetup) -> (r: Result<
    Vec<InnerAggregateLoop>,
    LoopAggError,
>)
    ensures
        r matches Ok(level) ==> ({
            &&& level@.len() == items@.len() / 2
            &&& forall|i: int|
                0 <= i < level@.len() ==> (#[trigger] level@[i]).start_st == items@[2 * i].start_st
                    && level@[i].end_st == items@[2 * i + 1].end_st && level@[i].mid_st == items@[2
                    * i].end_st && level@[i].mid_st == items@[2 * i + 1].start_st && level@[i].root
                    == items@[2 * i].root && level@[i].root == items@[2 * i + 1].root
        }),
        r is Err ==> (exists|i: int|
            0 <= i < items@.len() / 2 && !(#[trigger] inner_loop_pair_ok(items@, *setup, i))),
{
    let mut level: Vec<InnerAggregateLoop> = Vec::new();
    let n = items.len();
    let m = n / 2;
    for i in 0..m
        invariant
            n == items@.len(),
            m == items@.len() / 2,
            level@.len() == i,
            forall|j: int|
                0 <= j < i ==> (#[trigger] level@[j]).start_st == items@[2 * j].start_st
                    && level@[j].end_st == items@[2 * j + 1].end_st && level@[j].mid_st == items@[2
                    * j].end_st && level@[j].mid_st == items@[2 * j + 1].start_st && level@[j].root
                    == items@[2 * j].root && level@[j].root == items@[2 * j + 1].root,
    {
        let node = aggregate_level1(&items[2 * i], &items[2 * i + 1], setup);
        match node {
            Err(e) => {
                proof {
                    assert(!inner_loop_pair_ok(items@, *setup, i as int));
                }
                return Err(e);
            },
            Ok(node) => {
                level.push(node);
            },
        }
    }
    Ok(level)
}

/// One whole outer loop-aggregation level, paired strictly left to
/// right.
pub fn aggregate_list2(items: &Vec<OuterLoopLeaf>, setup: &OuterSetup) -> (r: Result<
    Vec<OuterAggregateLoop>,
    LoopAggError,
>)
    ensures
        r matches Ok(level) ==> ({
            &&& level@.len() == items@.len() / 2
            &&& forall|i: int|
                0 <= i < level@.len() ==> (#[trigger] level@[i]).start_st == items@[2 * i].start_st
                    && level@[i].end_st == items@[2 * i + 1].end_st && level@[i].mid_st == items@[2
                    * i].end_st && level@[i].mid_st == items@[2 * i + 1].start_st && level@[i].root
                    == items@[2 * i].root && level@[i].root == items@[2 * i + 1].root
        }),
        r is Err ==> (exists|i: int|
            0 <= i < items@.len() / 2 && !(#[trigger] outer_loop_pair_ok(items@, *setup, i))),
{
    let mut level: Vec<OuterAggregateLoop> = Vec::new();
    let n = items.len();
    let m = n / 2;
    for i in 0..m
        invariant
            n == items@.len(),
            m == items@.len() / 2,
            level@.len() == i,
            forall|j: int|
                0 <= j < i ==> (#[trigger] level@[j]).start_st == items@[2 * j].start_st
                    && level@[j].end_st == items@[2 * j + 1].end_st && level@[j].mid_st == items@[2
                    * j].end_st && level@[j].mid_st == items@[2 * j + 1].start_st && level@[j].root
                    == items@[2 * j].root && level@[j].root == items@[2 * j + 1].root,
    {
        let node = aggregate_level2(&items[2 * i], &items[2 * i + 1], setup);
        match node {
            Err(e) => {
                proof {
                    assert(!outer_loop_pair_ok(items@, *setup, i as int));
                }
                return Err(e);
            },
            Ok(node) => {
                level.push(node);
            },
        }
    }
    Ok(level)
}

} // verus!
