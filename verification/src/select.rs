//! The selection circuit: a proof is shown to verify against one of a
//! fixed, power-of-two-sized list of verification keys, the position
//! given by the bits of a hidden index.
//!
//! The core of the circuit is the power-of-two conditional selection:
//! the key is picked from the list by the index bits alone, a fixed
//! sequence of boolean-selected halvings whose shape is independent of
//! the index.  That selection is verified here exactly.

use vstd::prelude::*;

use crate::field::Fe;
use crate::snark::{inner_verified, inner_verify, InnerProof, InnerVk};

verus! {

/// The power of two with the given exponent.
pub open spec fn pow2_of(k: nat) -> nat
    decreases k,
{
    if k == 0 {
        1
    } else {
        2 * pow2_of((k - 1) as nat)
    }
}

/// The index the little-endian bits stand for.
pub open spec fn bits_index(bits: Seq<bool>) -> int
    decreases bits.len(),
{
    if bits.len() == 0 {
        0
    } else {
        (if bits[0] {
            1int
        } else {
            0int
        }) + 2 * bits_index(bits.skip(1))
    }
}

/// The index of a bit list is below the power of two of its length.
pub proof fn lemma_bits_index_range(bits: Seq<bool>)
    ensures
        0 <= bits_index(bits) < pow2_of(bits.len()),
    decreases bits.len(),
{
    if bits.len() > 0 {
        lemma_bits_index_range(bits.skip(1));
    }
}

/// The power-of-two conditional selection: picks the item the index
/// bits address, by repeatedly halving the list on each bit, lowest
/// bit deciding between adjacent pairs.  The sequence of selections is
/// fixed by the list length alone; only the bit values steer it.
#[verifier::rlimit(60)]
pub fn select_pow2<T: Copy>(bits: &Vec<bool>, items: &Vec<T>) -> (r: T)
    requires
        items@.len() == pow2_of(bits@.len()),
    ensures
        r == items@[bits_index(bits@)],
    decreases bits@.len(),
{
    proof {
        lemma_bits_index_range(bits@);
    }
    if bits.len() == 0 {
        items[0]
    } else {
        let mut rest_bits: Vec<bool> = Vec::new();
        for i in 1..bits.len()
            invariant
                rest_bits@ =~= bits@.subrange(1, i as int),
        {
            rest_bits.push(bits[i]);
            assert(rest_bits@ =~= bits@.subrange(1, i + 1));
        }
        proof {
            assert(rest_bits@ =~= bits@.skip(1));
            lemma_bits_index_range(bits@.skip(1));
        }
        let ilen = items.len();
        let half = ilen / 2;
        let mut halved: Vec<T> = Vec::new();
        let b0 = bits[0];
        for i in 0..half
            invariant
                ilen == items@.len(),
                half == items@.len() / 2,
                2 * half == items@.len(),
                halved@.len() == i,
                forall|j: int|
                    0 <= j < i ==> halved@[j] == items@[2 * j + (if b0 {
                        1int
                    } else {
                        0int
                    })],
        {
            if b0 {
                halved.push(items[2 * i + 1]);
            } else {
                halved.push(items[2 * i]);
            }
        }
        proof {
            assert(pow2_of(bits@.len()) == 2 * pow2_of(bits@.skip(1).len()));
        }
        let r = select_pow2(&rest_bits, &halved);
        proof {
            let k = bits_index(bits@.skip(1));
            assert(halved@[k] == items@[2 * k + (if b0 {
                1int
            } else {
                0int
            })]);
            assert(bits_index(bits@) == 2 * k + (if b0 {
                1int
            } else {
                0int
            }));
        }
        r
    }
}

/// The selection statement: the proof verifies against the key at the
/// hidden index of the fixed key list, whose length is a power of two.
pub struct SelectionCircuit {
    pub hash: Fe,
    pub proof: InnerProof,
    pub keys: Vec<InnerVk>,
    pub idx: u32,
}

impl SelectionCircuit {
    /// The circuit's sole public value.
    pub fn calc_hash(&self) -> (r: Fe)
        ensures
            r == self.hash,
    {
        self.hash
    }
}

/// Decides the selection statement over four index bits, as the
/// sixteen-key circuit does: the key is picked from the list by the
/// index bits through the power-of-two selection, and the proof is
/// verified against it and the claimed public value.
pub fn selection_holds(c: &SelectionCircuit) -> (r: bool)
    requires
        c.keys@.len() == 16,
        c.idx < 16,
    ensures
        r == inner_verified(c.keys@[c.idx as int], seq![c.hash], c.proof),
{
    let mut bits: Vec<bool> = Vec::new();
    bits.push(c.idx % 2 == 1);
    bits.push((c.idx / 2) % 2 == 1);
    bits.push((c.idx / 4) % 2 == 1);
    bits.push((c.idx / 8) % 2 == 1);
    proof {
        assert(bits@ =~= seq![
            c.idx % 2 == 1,
            (c.idx / 2) % 2 == 1,
            (c.idx / 4) % 2 == 1,
            (c.idx / 8) % 2 == 1,
        ]);
        assert(pow2_of(4) == 16) by {
            reveal_with_fuel(pow2_of, 5);
        }
        assert(bits@.skip(1) =~= seq![(c.idx / 2) % 2 == 1, (c.idx / 4) % 2 == 1, (c.idx / 8) % 2 == 1]);
        assert(bits@.skip(1).skip(1) =~= seq![(c.idx / 4) % 2 == 1, (c.idx / 8) % 2 == 1]);
        assert(bits@.skip(1).skip(1).skip(1) =~= seq![(c.idx / 8) % 2 == 1]);
        assert(bits@.skip(1).skip(1).skip(1).skip(1) =~= Seq::<bool>::empty());
        let i0 = c.idx as int;
        assert(i0 == (i0 % 2) + 2 * (i0 / 2));
        assert(i0 / 2 == ((i0 / 2) % 2) + 2 * ((i0 / 2) / 2));
        assert((i0 / 2) / 2 == i0 / 4) by (nonlinear_arith);
        assert(i0 / 4 == ((i0 / 4) % 2) + 2 * ((i0 / 4) / 2));
        assert((i0 / 4) / 2 == i0 / 8) by (nonlinear_arith);
        assert(i0 < 16 ==> i0 / 8 < 2);
        assert(i0 / 8 == ((i0 / 8) % 2) + 2 * ((i0 / 8) / 2));
        assert(bits_index(bits@.skip(1).skip(1).skip(1).skip(1)) == 0);
        assert(bits_index(bits@.skip(1).skip(1).skip(1)) == i0 / 8);
        assert(bits_index(bits@.skip(1).skip(1)) == i0 / 4);
        assert(bits_index(bits@.skip(1)) == i0 / 2);
        assert(bits_index(bits@) == c.idx as int);
    }
    let vk = select_pow2_vk(&bits, &c.keys);
    let inputs = vec![c.hash];
    proof {
        assert(inputs@ =~= seq![c.hash]);
    }
    inner_verify(&vk, &inputs, &c.proof)
}

/// The power-of-two conditional selection over verification keys, which
/// are cloned rather than copied.
#[verifier::rlimit(60)]
fn select_pow2_vk(bits: &Vec<bool>, items: &Vec<InnerVk>) -> (r: InnerVk)
    requires
        items@.len() == pow2_of(bits@.len()),
    ensures
        r == items@[bits_index(bits@)],
    decreases bits@.len(),
{
    proof {
        lemma_bits_index_range(bits@);
    }
    if bits.len() == 0 {
        items[0].clone()
    } else {
        let mut rest_bits: Vec<bool> = Vec::new();
        for i in 1..bits.len()
            invariant
                rest_bits@ =~= bits@.subrange(1, i as int),
        {
            rest_bits.push(bits[i]);
            assert(rest_bits@ =~= bits@.subrange(1, i + 1));
        }
        proof {
            assert(rest_bits@ =~= bits@.skip(1));
            lemma_bits_index_range(bits@.skip(1));
        }
        let ilen = items.len();
        let half = ilen / 2;
        let mut halved: Vec<InnerVk> = Vec::new();
        let b0 = bits[0];
        for i in 0..half
            invariant
                ilen == items@.len(),
                half == items@.len() / 2,
                2 * half == items@.len(),
                halved@.len() == i,
                forall|j: int|
                    0 <= j < i ==> halved@[j] == items@[2 * j + (if b0 {
                        1int
                    } else {
                        0int
                    })],
        {
            if b0 {
                let k = items[2 * i + 1].clone();
                halved.push(k);
            } else {
                let k = items[2 * i].clone();
                halved.push(k);
            }
        }
        proof {
            assert(pow2_of(bits@.len()) == 2 * pow2_of(bits@.skip(1).len()));
        }
        let r = select_pow2_vk(&rest_bits, &halved);
        proof {
            let k = bits_index(bits@.skip(1));
            assert(halved@[k] == items@[2 * k + (if b0 {
                1int
            } else {
                0int
            })]);
            assert(bits_index(bits@) == 2 * k + (if b0 {
                1int
            } else {
                0int
            }));
        }
        r
    }
}

} // verus!
