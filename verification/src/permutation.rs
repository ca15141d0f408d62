//! Explicit permutations on tree positions: one target index per source
//! index, with a verified inverse and a verified application to item
//! lists.  The oblivious switching network realizes such a permutation
//! with boolean-selected conditional swaps; its swap gate is modelled
//! here as well.

use vstd::prelude::*;

use vstd::set_lib::{lemma_int_range, lemma_len_subset, set_int_range};

use crate::field::Fe;

verus! {

/// A total bijection on `[0, len)`: every entry is in range and no two
/// entries collide.
pub open spec fn is_perm(s: Seq<usize>) -> bool {
    &&& forall|i: int| 0 <= i < s.len() ==> (#[trigger] s[i] as int) < s.len()
    &&& forall|i: int, j: int| 0 <= i < j < s.len() ==> s[i] != s[j]
}

/// The list `s` rearranged by `p`: position `i` of the result receives
/// the item at position `p[i]`.
pub open spec fn permute_of<T>(s: Seq<T>, p: Seq<usize>) -> Seq<T> {
    Seq::new(p.len(), |i: int| s[p[i] as int])
}

/// An explicit permutation: one source index per target position.
pub struct IntegerPermutation {
    pub map: Vec<usize>,
}

/// A bijection on `[0, len)` reaches every index below `len`.
pub proof fn lemma_perm_onto(s: Seq<usize>, v: int)
    requires
        is_perm(s),
        0 <= v < s.len(),
    ensures
        exists|i: int| 0 <= i < s.len() && s[i] == v,
{
    let n = s.len() as int;
    let t = s.map_values(|x: usize| x as int);
    assert(t.no_duplicates());
    t.unique_seq_to_set();
    lemma_int_range(0, n);
    if !(exists|i: int| 0 <= i < s.len() && s[i] == v) {
        assert forall|i: int| 0 <= i < t.len() implies t[i] != v by {
            assert(s[i] != v);
        }
        let range_minus = set_int_range(0, n).remove(v);
        assert(t.to_set().subset_of(range_minus));
        lemma_len_subset(t.to_set(), range_minus);
        assert(range_minus.len() == n - 1);
        assert(false);
    }
}

impl IntegerPermutation {
    /// The identity permutation on `[0, size)`.
    pub fn new(size: usize) -> (r: IntegerPermutation)
        ensures
            r.map@.len() == size,
            forall|i: int| 0 <= i < size ==> (#[trigger] r.map@[i] as int) == i,
            is_perm(r.map@),
    {
        let mut map: Vec<usize> = Vec::new();
        for i in 0..size
            invariant
                map@.len() == i,
                forall|j: int| 0 <= j < i ==> (#[trigger] map@[j] as int) == j,
        {
            map.push(i);
        }
        IntegerPermutation { map }
    }

    /// The number of positions.
    pub fn size(&self) -> (r: usize)
        ensures
            r == self.map@.len(),
    {
        self.map.len()
    }

    /// Routes target position `i` to source index `v`.
    pub fn set(&mut self, i: usize, v: usize)
        requires
            i < old(self).map@.len(),
        ensures
            final(self).map@ == old(self).map@.update(i as int, v),
    {
        self.map[i] = v;
    }

    /// The source index of target position `i`.
    pub fn get(&self, i: usize) -> (r: usize)
        requires
            i < self.map@.len(),
        ensures
            r == self.map@[i as int],
    {
        self.map[i]
    }

    /// Decides whether the stored map is a total bijection; a routing
    /// that is not one is rejected before any commitment is built from
    /// it.
    pub fn check(&self) -> (r: bool)
        ensures
            r == is_perm(self.map@),
    {
        let n = self.map.len();
        let mut seen: Vec<bool> = vec![false; n];
        for i in 0..n
            invariant
                n == self.map@.len(),
                seen@.len() == n,
                forall|j: int| 0 <= j < i ==> (#[trigger] self.map@[j] as int) < n,
                forall|j: int, k: int| 0 <= j < k < i ==> self.map@[j] != self.map@[k],
                forall|v: int|
                    0 <= v < n ==> (#[trigger] seen@[v] == exists|j: int|
                        0 <= j < i && self.map@[j] == v),
        {
            let v = self.map[i];
            if v >= n {
                return false;
            }
            if seen[v] {
                let ghost j = choose|j: int| 0 <= j < i && self.map@[j] == v as int;
                assert(self.map@[j] == self.map@[i as int]);
                return false;
            }
            seen[v] = true;
        }
        true
    }

    /// The inverse bijection: it sends each source index back to its
    /// target position.
    pub fn inverse(&self) -> (r: IntegerPermutation)
        requires
            is_perm(self.map@),
        ensures
            r.map@.len() == self.map@.len(),
            is_perm(r.map@),
            forall|i: int|
                0 <= i < self.map@.len() ==> (#[trigger] r.map@[self.map@[i] as int] as int) == i,
            forall|k: int|
                0 <= k < self.map@.len() ==> (#[trigger] self.map@[r.map@[k] as int] as int) == k,
    {
        let n = self.map.len();
        let mut inv: Vec<usize> = vec![0; n];
        for i in 0..n
            invariant
                n == self.map@.len(),
                is_perm(self.map@),
                inv@.len() == n,
                forall|j: int|
                    0 <= j < i ==> (#[trigger] inv@[self.map@[j] as int] as int) == j,
        {
            let v = self.map[i];
            inv[v] = i;
            proof {
                assert forall|j: int|
                    0 <= j < i + 1 implies (#[trigger] inv@[self.map@[j] as int] as int) == j by {
                    if j < i {
                        assert(self.map@[j] != self.map@[i as int]);
                    }
                }
            }
        }
        proof {
            assert forall|k: int|
                0 <= k < n implies (#[trigger] self.map@[inv@[k] as int] as int) == k && (inv@[k]
                as int) < n by {
                lemma_perm_onto(self.map@, k);
                let i = choose|i: int| 0 <= i < n && self.map@[i] == k;
                assert(inv@[self.map@[i] as int] as int == i);
            }
            assert forall|k: int|
                0 <= k < inv@.len() implies (#[trigger] inv@[k] as int) < inv@.len() by {
                assert(self.map@[inv@[k] as int] as int == k);
            }
            assert forall|k1: int, k2: int|
                0 <= k1 < k2 < inv@.len() implies inv@[k1] != inv@[k2] by {
                assert(self.map@[inv@[k1] as int] as int == k1);
                assert(self.map@[inv@[k2] as int] as int == k2);
            }
        }
        IntegerPermutation { map: inv }
    }
}

/// Rearranges a list of items by a permutation, as `permute_of` states
/// it: position `i` of the result receives item `perm.map[i]`.
pub fn apply_permutation<T: Copy>(perm: &IntegerPermutation, items: &Vec<T>) -> (r: Vec<T>)
    requires
        is_perm(perm.map@),
        items@.len() == perm.map@.len(),
    ensures
        r@ == permute_of(items@, perm.map@),
{
    let n = perm.map.len();
    let mut r: Vec<T> = Vec::new();
    for i in 0..n
        invariant
            n == perm.map@.len(),
            n == items@.len(),
            is_perm(perm.map@),
            r@ =~= permute_of(items@, perm.map@).take(i as int),
    {
        let idx = perm.map[i];
        r.push(items[idx]);
        assert(r@ =~= permute_of(items@, perm.map@).take(i + 1));
    }
    assert(permute_of(items@, perm.map@).take(n as int) =~= permute_of(items@, perm.map@));
    r
}

/// Round trip: rearranging any item list by a bijection and then by its
/// inverse reproduces the original list.
pub proof fn lemma_permutation_round_trip<T>(s: Seq<T>, p: Seq<usize>, q: Seq<usize>)
    requires
        is_perm(p),
        p.len() == s.len(),
        q.len() == p.len(),
        forall|i: int| 0 <= i < p.len() ==> (#[trigger] q[p[i] as int] as int) == i,
    ensures
        permute_of(permute_of(s, p), q) == s,
{
    let n = p.len() as int;
    assert forall|i: int| 0 <= i < n implies permute_of(permute_of(s, p), q)[i] == s[i] by {
        lemma_perm_onto(p, i);
        let j = choose|j: int| 0 <= j < n && p[j] == i;
        assert(q[p[j] as int] as int == j);
        assert(permute_of(s, p)[q[i] as int] == s[p[q[i] as int] as int]);
    }
    assert(permute_of(permute_of(s, p), q) =~= s);
}

/// One conditional swap gate of the oblivious network: a set selector
/// passes the pair straight through, a clear selector crosses it.
pub fn make_switch(a: Fe, b: Fe, switch: bool) -> (r: (Fe, Fe))
    ensures
        switch ==> r == (a, b),
        !switch ==> r == (b, a),
{
    if switch {
        (a, b)
    } else {
        (b, a)
    }
}

} // verus!
