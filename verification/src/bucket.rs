//! Bucket sizing and routing: reserves each bucket a power-of-two slice
//! of the leaf layout (largest bucket first, from a halving table of
//! free slices), then routes every transition index — and a canonical
//! filler for every unused slot — into the layout as one explicit
//! permutation.
//!
//! A routing that is not a total bijection is reported as a
//! construction-time error, never used to build a commitment.

use vstd::prelude::*;

use crate::permutation::{is_perm, IntegerPermutation};
use crate::vm::Transition;

verus! {

/// A positive power of two.
pub open spec fn is_pow2(n: nat) -> bool
    decreases n,
{
    if n == 0 {
        false
    } else if n == 1 {
        true
    } else {
        n % 2 == 0 && is_pow2(n / 2)
    }
}

/// A free or reserved slice of the leaf layout, as (size, start).
/// A zero size marks an empty slice.
pub open spec fn slice_disjoint(a: (usize, usize), b: (usize, usize)) -> bool {
    a.0 == 0 || b.0 == 0 || a.1 + a.0 <= b.1 || b.1 + b.0 <= a.1
}

/// Slice `a` lies inside slice `b` (or is empty).
pub open spec fn slice_contained(a: (usize, usize), b: (usize, usize)) -> bool {
    a.0 == 0 || (b.1 <= a.1 && a.1 + a.0 <= b.1 + b.0)
}

/// The free slices of a table are pairwise disjoint, power-of-two sized
/// (or empty markers) and within machine bounds.
pub open spec fn slices_wf(s: Seq<(usize, usize)>) -> bool {
    &&& forall|i: int, j: int|
        0 <= i < j < s.len() ==> slice_disjoint(#[trigger] s[i], #[trigger] s[j])
    &&& forall|i: int| 0 <= i < s.len() ==> ((#[trigger] s[i]).0 == 0 || is_pow2(s[i].0 as nat))
    &&& forall|i: int| 0 <= i < s.len() ==> (#[trigger] s[i]).1 + s[i].0 <= usize::MAX
}

/// What is contained in a slice of the table stays disjoint from
/// whatever the whole slice is disjoint from.
pub proof fn lemma_contained_disjoint(a: (usize, usize), b: (usize, usize), c: (usize, usize))
    requires
        slice_contained(a, b),
        slice_disjoint(c, b),
    ensures
        slice_disjoint(c, a),
{
}

/// A set of transition indices sharing a step range, together with its
/// reserved (start, size) slice of the global leaf layout.
pub struct Bucket {
    pub list: Vec<usize>,
    pub idx: usize,
    pub slice_start: usize,
    pub slice_size: usize,
}

fn copy_usizes(v: &Vec<usize>) -> (r: Vec<usize>)
    ensures
        r@ == v@,
{
    let mut r: Vec<usize> = Vec::new();
    let n = v.len();
    for i in 0..n
        invariant
            n == v@.len(),
            r@ =~= v@.take(i as int),
    {
        r.push(v[i]);
        assert(r@ =~= v@.take(i + 1));
    }
    assert(v@.take(n as int) =~= v@);
    r
}

impl Bucket {
    /// An empty bucket with the given identity and no slice yet.
    pub fn new(idx: usize) -> (r: Bucket)
        ensures
            r.list@.len() == 0,
            r.idx == idx,
            r.slice_start == 0,
            r.slice_size == 0,
    {
        Bucket { list: Vec::new(), idx, slice_start: 0, slice_size: 0 }
    }

    /// The same bucket with a slice assigned.
    pub fn set_slice(&self, slice_start: usize, slice_size: usize) -> (r: Bucket)
        ensures
            r.list@ == self.list@,
            r.idx == self.idx,
            r.slice_start == slice_start,
            r.slice_size == slice_size,
    {
        Bucket {
            list: copy_usizes(&self.list),
            idx: self.idx,
            slice_start,
            slice_size,
        }
    }

    /// How many transitions the bucket holds.
    pub fn size(&self) -> (r: usize)
        ensures
            r == self.list@.len(),
    {
        self.list.len()
    }
}

/// A structural error of the sizing or routing stage.
#[derive(Debug)]
pub enum BucketError {
    /// No free slice of the table can hold the bucket.
    NoSlice,
    /// The routed targets are not a total bijection on the layout.
    NotBijective,
}

/// The bucket a transition belongs to: its before-state step counter
/// divided by the bucket step range.
pub open spec fn bucket_of(trs: Seq<Transition>, bucket_size: int, i: int) -> int {
    (trs[i].before.step_counter as int) / bucket_size
}

/// The transition indices of bucket `b` among the first `upto`
/// transitions, in increasing order.
pub open spec fn indices_for(trs: Seq<Transition>, bucket_size: int, b: int, upto: int) -> Seq<
    usize,
>
    decreases upto,
{
    if upto <= 0 {
        Seq::empty()
    } else {
        let rest = indices_for(trs, bucket_size, b, upto - 1);
        if bucket_of(trs, bucket_size, upto - 1) == b {
            rest.push((upto - 1) as usize)
        } else {
            rest
        }
    }
}

/// Bucket contents are sound (right bucket, in range), strictly
/// increasing, and complete: every transition of the bucket is listed.
pub proof fn lemma_indices_for(trs: Seq<Transition>, bucket_size: int, b: int, upto: int)
    requires
        0 <= upto <= trs.len(),
        upto <= usize::MAX,
    ensures
        forall|j: int|
            0 <= j < indices_for(trs, bucket_size, b, upto).len() ==> (
            #[trigger] indices_for(trs, bucket_size, b, upto)[j] as int) < upto && bucket_of(
                trs,
                bucket_size,
                indices_for(trs, bucket_size, b, upto)[j] as int,
            ) == b,
        forall|j1: int, j2: int|
            0 <= j1 < j2 < indices_for(trs, bucket_size, b, upto).len() ==> indices_for(
                trs,
                bucket_size,
                b,
                upto,
            )[j1] < indices_for(trs, bucket_size, b, upto)[j2],
        forall|i: int|
            0 <= i < upto && bucket_of(trs, bucket_size, i) == b ==> exists|j: int|
                0 <= j < indices_for(trs, bucket_size, b, upto).len() && (#[trigger] indices_for(
                    trs,
                    bucket_size,
                    b,
                    upto,
                )[j] as int) == i,
    decreases upto,
{
    if upto > 0 {
        lemma_indices_for(trs, bucket_size, b, upto - 1);
        let prev = indices_for(trs, bucket_size, b, upto - 1);
        let cur = indices_for(trs, bucket_size, b, upto);
        assert forall|i: int|
            0 <= i < upto && bucket_of(trs, bucket_size, i) == b implies exists|j: int|
                0 <= j < cur.len() && (#[trigger] cur[j] as int) == i by {
            if i == upto - 1 {
                assert(cur[cur.len() - 1] as int == i);
            } else {
                let j0 = choose|j: int| 0 <= j < prev.len() && (#[trigger] prev[j] as int) == i;
                assert(cur[j0] as int == i);
            }
        }
    }
}

/// Distributes transition indices over `num_buckets` buckets by the
/// step counter of each transition's before state: index `i` goes to
/// bucket `counter / bucket_size`, in increasing order of `i`.
pub fn make_buckets(trs: &Vec<Transition>, bucket_size: usize, num_buckets: usize) -> (r: Vec<
    Bucket,
>)
    requires
        bucket_size > 0,
    ensures
        r@.len() == num_buckets,
        forall|b: int| 0 <= b < num_buckets ==> (#[trigger] r@[b]).idx == b,
        forall|b: int|
            0 <= b < num_buckets ==> (#[trigger] r@[b]).slice_size == 0 && r@[b].slice_start == 0,
        forall|b: int|
            0 <= b < num_buckets ==> (#[trigger] r@[b]).list@ == indices_for(
                trs@,
                bucket_size as int,
                b,
                trs@.len() as int,
            ),
{
    let mut buckets: Vec<Bucket> = Vec::new();
    let n = trs.len();
    for b in 0..num_buckets
        invariant
            n == trs@.len(),
            bucket_size > 0,
            buckets@.len() == b,
            forall|k: int| 0 <= k < b ==> (#[trigger] buckets@[k]).idx == k,
            forall|k: int|
                0 <= k < b ==> (#[trigger] buckets@[k]).slice_size == 0 && buckets@[k].slice_start
                    == 0,
            forall|k: int|
                0 <= k < b ==> (#[trigger] buckets@[k]).list@ == indices_for(
                    trs@,
                    bucket_size as int,
                    k,
                    trs@.len() as int,
                ),
    {
        let mut list: Vec<usize> = Vec::new();
        for i in 0..n
            invariant
                n == trs@.len(),
                bucket_size > 0,
                list@ == indices_for(trs@, bucket_size as int, b as int, i as int),
        {
            let c = trs[i].before.step_counter;
            if c / bucket_size == b {
                list.push(i);
            }
        }
        buckets.push(Bucket { list, idx: b, slice_start: 0, slice_size: 0 });
    }
    buckets
}

/// Buckets built from the step ranges are route-ready: their entries
/// are pairwise distinct across all buckets, and every transition index
/// appears in the bucket its step counter selects.
pub proof fn lemma_buckets_route_ready(buckets: Seq<Bucket>, trs: Seq<Transition>, bucket_size: int)
    requires
        bucket_size > 0,
        trs.len() <= usize::MAX,
        forall|b: int|
            0 <= b < buckets.len() ==> (#[trigger] buckets[b]).list@ == indices_for(
                trs,
                bucket_size,
                b,
                trs.len() as int,
            ),
        forall|i: int|
            0 <= i < trs.len() ==> 0 <= #[trigger] bucket_of(trs, bucket_size, i) < buckets.len(),
    ensures
        buckets_distinct(buckets),
        buckets_complete(buckets, trs.len() as int),
{
    assert forall|b: int, j: int|
        #![trigger buckets[b].list@[j]]
        0 <= b < buckets.len() && 0 <= j < buckets[b].list@.len() implies (
    buckets[b].list@[j] as int) < trs.len() && bucket_of(
        trs,
        bucket_size,
        buckets[b].list@[j] as int,
    ) == b by {
        lemma_indices_for(trs, bucket_size, b, trs.len() as int);
    }
    assert forall|b1: int, j1: int, b2: int, j2: int|
        #![trigger buckets[b1].list@[j1], buckets[b2].list@[j2]]
        0 <= b1 < buckets.len() && 0 <= j1 < buckets[b1].list@.len() && 0 <= b2 < buckets.len()
            && 0 <= j2 < buckets[b2].list@.len() && (b1 != b2 || j1 != j2) implies buckets[b1].list@[j1]
        != buckets[b2].list@[j2] by {
        lemma_indices_for(trs, bucket_size, b1, trs.len() as int);
        lemma_indices_for(trs, bucket_size, b2, trs.len() as int);
        if b1 == b2 && j1 != j2 {
            if j1 < j2 {
                assert(buckets[b1].list@[j1] < buckets[b1].list@[j2]);
            } else {
                assert(buckets[b1].list@[j2] < buckets[b1].list@[j1]);
            }
        }
    }
    assert forall|v: int| 0 <= v < trs.len() implies #[trigger] bucket_holds(buckets, v) by {
        let b = bucket_of(trs, bucket_size, v);
        lemma_indices_for(trs, bucket_size, b, trs.len() as int);
        let j = choose|j: int|
            0 <= j < indices_for(trs, bucket_size, b, trs.len() as int).len() && (
            #[trigger] indices_for(trs, bucket_size, b, trs.len() as int)[j] as int) == v;
        assert(0 <= b < buckets.len());
        assert((buckets[b].list@[j] as int) == v);
    }
}

/// The entries of a slice table as unbounded integers.
pub open spec fn slices_ints(s: Seq<(usize, usize)>) -> Seq<(int, int)> {
    Seq::new(s.len(), |i: int| (s[i].0 as int, s[i].1 as int))
}

/// The halving table over `num` leaf slots from offset `acc` on: one
/// slice of each size `num, num/2, ..., 1`, each starting where the
/// previous one ends.
pub open spec fn halving_table_of(num: int, acc: int) -> Seq<(int, int)>
    decreases num,
{
    if num <= 0 {
        Seq::empty()
    } else {
        seq![(num, acc)] + halving_table_of(num / 2, acc + num)
    }
}

/// The first table entry that can hold `num` (strictly): the table's
/// length when none can.
pub open spec fn find_fit(table: Seq<(int, int)>, num: int) -> int
    decreases table.len(),
{
    if table.len() == 0 {
        0
    } else if num < table[0].0 {
        0
    } else {
        1 + find_fit(table.skip(1), num)
    }
}

/// `find_fit` returns the first index whose entry exceeds the request,
/// or the table length.
pub proof fn lemma_find_fit(table: Seq<(int, int)>, num: int)
    ensures
        0 <= find_fit(table, num) <= table.len(),
        forall|j: int| 0 <= j < find_fit(table, num) ==> num >= (#[trigger] table[j]).0,
        find_fit(table, num) < table.len() ==> num < table[find_fit(table, num)].0,
    decreases table.len(),
{
    if table.len() > 0 && !(num < table[0].0) {
        lemma_find_fit(table.skip(1), num);
        assert forall|j: int|
            0 <= j < find_fit(table, num) implies num >= (#[trigger] table[j]).0 by {
            if j > 0 {
                assert(table.skip(1)[j - 1] == table[j]);
            }
        }
        if find_fit(table, num) < table.len() {
            assert(table.skip(1)[find_fit(table.skip(1), num)] == table[find_fit(table, num)]);
        }
    }
}

/// The upper halves split off while a found slice is halved down to the
/// smallest granule exceeding the request.
pub open spec fn split_frags(size: int, start: int, num: int) -> Seq<(int, int)>
    decreases size,
{
    if size >= 2 && 0 <= num < size / 2 {
        seq![(size / 2, start + size / 2)] + split_frags(size / 2, start, num)
    } else {
        Seq::empty()
    }
}

/// The granule a found slice is halved down to: the smallest power of
/// two of its halving chain strictly exceeding the request.
pub open spec fn final_size_of(size: int, num: int) -> int
    decreases size,
{
    if size >= 2 && 0 <= num < size / 2 {
        final_size_of(size / 2, num)
    } else {
        size
    }
}

/// The table after one reservation: the found entry is marked used and
/// the split-off upper halves are appended.
pub open spec fn reserve_table_of(table: Seq<(int, int)>, num: int) -> Seq<(int, int)> {
    let k = find_fit(table, num);
    table.update(k, (0int, 0int)) + split_frags(table[k].0, table[k].1, num)
}

/// Whether the greedy reservation of the given request sizes, in order,
/// runs out of fitting slices.
pub open spec fn greedy_fails_of(sizes: Seq<int>, table: Seq<(int, int)>) -> bool
    decreases sizes.len(),
{
    if sizes.len() == 0 {
        false
    } else if find_fit(table, sizes[0]) >= table.len() {
        true
    } else {
        greedy_fails_of(sizes.skip(1), reserve_table_of(table, sizes[0]))
    }
}

/// The halving table of free slices: one slice of each size
/// `num, num/2, ..., 1`, laid out one after the other.
pub struct Slices {
    pub slices: Vec<(usize, usize)>,
}

impl Slices {
    /// The full table over a power-of-two leaf count: disjoint free
    /// slices of sizes `num, num/2, ..., 1`, together covering
    /// `[0, 2*num - 1)`.
    pub fn new(num: usize) -> (r: Slices)
        requires
            is_pow2(num as nat),
            num * 2 <= usize::MAX,
        ensures
            slices_wf(r.slices@),
            forall|k: int|
                0 <= k < r.slices@.len() ==> (#[trigger] r.slices@[k]).1 + r.slices@[k].0 <= 2
                    * num - 1,
            r.slices@.len() > 0,
            r.slices@[0].0 == num,
            slices_ints(r.slices@) == halving_table_of(num as int, 0),
    {
        let mut num_left = num;
        let mut acc: usize = 0;
        let mut slices: Vec<(usize, usize)> = Vec::new();
        proof {
            assert(num >= 1) by {
                assert(is_pow2(num as nat));
            }
        }
        while num_left > 0
            invariant
                num * 2 <= usize::MAX,
                num_left == 0 || is_pow2(num_left as nat),
                acc + 2 * num_left <= 2 * num,
                num >= 1,
                forall|k: int|
                    0 <= k < slices@.len() ==> (#[trigger] slices@[k]).1 + slices@[k].0 <= acc,
                forall|k: int| 0 <= k < slices@.len() ==> (#[trigger] slices@[k]).0 > 0,
                forall|k: int| 0 <= k < slices@.len() ==> is_pow2((#[trigger] slices@[k]).0 as nat),
                forall|i: int, j: int|
                    0 <= i < j < slices@.len() ==> slice_disjoint(
                        #[trigger] slices@[i],
                        #[trigger] slices@[j],
                    ),
                num_left == num <==> slices@.len() == 0,
                slices@.len() > 0 ==> (slices@[0]).0 == num,
                halving_table_of(num as int, 0) == slices_ints(slices@) + halving_table_of(
                    num_left as int,
                    acc as int,
                ),
                num_left <= num,
                acc + num_left <= 2 * num - 1,
            decreases num_left,
        {
            let ghost s0 = slices@;
            slices.push((num_left, acc));
            proof {
                assert(halving_table_of(num_left as int, acc as int) == seq![
                    (num_left as int, acc as int),
                ] + halving_table_of((num_left / 2) as int, (acc + num_left) as int));
                assert(slices_ints(slices@) =~= slices_ints(s0) + seq![
                    (num_left as int, acc as int),
                ]);
                assert(slices_ints(slices@) + halving_table_of(
                    (num_left / 2) as int,
                    (acc + num_left) as int,
                ) =~= halving_table_of(num as int, 0));
            }
            acc = acc + num_left;
            proof {
                if num_left >= 2 {
                    assert(is_pow2((num_left / 2) as nat));
                }
            }
            num_left = num_left / 2;
        }
        proof {
            assert(slices@.len() > 0);
            assert(slices@[0].0 == num);
            assert(halving_table_of(0, acc as int) =~= Seq::<(int, int)>::empty());
            assert(slices_ints(slices@) =~= slices_ints(slices@) + Seq::<(int, int)>::empty());
        }
        Slices { slices }
    }

    /// Reserves a free slice that can hold `num` entries, splitting off
    /// and keeping the unused upper halves.  Returns the reserved
    /// (start, size), with `num < size`; the reserved slice is disjoint
    /// from everything left in the table, and everything left lies
    /// inside what was free before.  No slice can hold the bucket if
    /// and only if an error comes back.
    pub fn reserve(&mut self, num: usize) -> (r: Result<(usize, usize), BucketError>)
        requires
            slices_wf(old(self).slices@),
        ensures
            slices_wf(final(self).slices@),
            r is Err <==> (forall|k: int|
                0 <= k < old(self).slices@.len() ==> (num as int) >= (
                #[trigger] old(self).slices@[k]).0),
            r is Err <==> find_fit(slices_ints(old(self).slices@), num as int) >= old(
                self,
            ).slices@.len(),
            r is Err ==> final(self).slices@ == old(self).slices@,
            r matches Ok(s) ==> slices_ints(final(self).slices@) == reserve_table_of(
                slices_ints(old(self).slices@),
                num as int,
            ),
            r matches Ok(s) ==> ({
                let table = slices_ints(old(self).slices@);
                let k = find_fit(table, num as int);
                s == (table[k].1 as usize, final_size_of(table[k].0, num as int) as usize)
            }),
            r matches Ok(s) ==> ({
                &&& num < s.1
                &&& s.1 / 2 <= num
                &&& is_pow2(s.1 as nat)
                &&& s.0 + s.1 <= usize::MAX
                &&& forall|k: int|
                    0 <= k < final(self).slices@.len() ==> slice_disjoint(
                        (s.1, s.0),
                        #[trigger] final(self).slices@[k],
                    )
                &&& exists|j: int|
                    0 <= j < old(self).slices@.len() && slice_contained(
                        (s.1, s.0),
                        #[trigger] old(self).slices@[j],
                    )
                &&& forall|k: int|
                    0 <= k < final(self).slices@.len() ==> exists|j: int|
                        0 <= j < old(self).slices@.len() && slice_contained(
                            #[trigger] final(self).slices@[k],
                            #[trigger] old(self).slices@[j],
                        )
            }),
    {
        let n = self.slices.len();
        let mut found: usize = n;
        for i in 0..n
            invariant_except_break
                n == self.slices@.len(),
                found == n,
                forall|k: int|
                    0 <= k < i ==> (num as int) >= (#[trigger] self.slices@[k]).0,
            ensures
                n == self.slices@.len(),
                found <= n,
                found < n ==> num < self.slices@[found as int].0,
                forall|k: int| 0 <= k < found ==> (num as int) >= (#[trigger] self.slices@[k]).0,
                found == n ==> (forall|k: int|
                    0 <= k < n ==> (num as int) >= (#[trigger] self.slices@[k]).0),
        {
            let (sz, _) = self.slices[i];
            if num < sz {
                found = i;
                proof {
                    assert(num < self.slices@[found as int].0);
                }
                break ;
            }
        }
        proof {
            let table = slices_ints(self.slices@);
            lemma_find_fit(table, num as int);
            let ff = find_fit(table, num as int);
            if found < n {
                assert(table[found as int].0 == self.slices@[found as int].0);
                if ff < found {
                    assert((num as int) >= self.slices@[ff].0);
                    assert(table[ff].0 == self.slices@[ff].0);
                    assert(false);
                }
                if ff > found {
                    assert((num as int) >= table[found as int].0);
                    assert(false);
                }
            } else {
                if ff < n {
                    assert(table[ff].0 == self.slices@[ff].0);
                    assert(false);
                }
            }
            assert(ff == found as int);
        }
        if found == n {
            return Err(BucketError::NoSlice);
        }
        let ghost olds = self.slices@;
        let i = found;
        let (sz0, idx) = self.slices[i];
        let mut sz = sz0;
        let mut next_idx = idx + sz / 2;
        proof {
            assert(slice_contained((sz, idx), olds[i as int]));
            assert(slices_ints(self.slices@).skip(olds.len() as int) =~= Seq::<(int, int)>::empty());
            assert(Seq::<(int, int)>::empty() + split_frags(sz0 as int, idx as int, num as int)
                =~= split_frags(sz0 as int, idx as int, num as int));
        }
        while num < sz / 2
            invariant
                split_frags(sz0 as int, idx as int, num as int) == slices_ints(self.slices@).skip(
                    olds.len() as int,
                ) + split_frags(sz as int, idx as int, num as int),
                final_size_of(sz0 as int, num as int) == final_size_of(sz as int, num as int),
                slices_wf(olds),
                0 <= i < olds.len(),
                olds.len() <= self.slices@.len(),
                forall|k: int| 0 <= k < olds.len() ==> self.slices@[k] == olds[k],
                olds[i as int] == (sz0, idx),
                is_pow2(sz as nat),
                num < sz,
                sz <= sz0,
                sz >= 2 ==> next_idx == idx + sz / 2,
                idx + sz0 <= usize::MAX,
                slice_contained((sz, idx), olds[i as int]),
                // fragments are power-of-two slices inside the found slice
                forall|k: int|
                    olds.len() <= k < self.slices@.len() ==> slice_contained(
                        #[trigger] self.slices@[k],
                        olds[i as int],
                    ),
                forall|k: int|
                    olds.len() <= k < self.slices@.len() ==> is_pow2(
                        (#[trigger] self.slices@[k]).0 as nat,
                    ) && self.slices@[k].1 + self.slices@[k].0 <= usize::MAX,
                // fragments start above the remaining candidate
                forall|k: int|
                    olds.len() <= k < self.slices@.len() ==> (sz as int) + idx <= (
                    #[trigger] self.slices@[k]).1,
                // every pair not made of the found slice and a fragment is disjoint
                forall|a: int, b: int|
                    0 <= a < b < self.slices@.len() && !(a == i && b >= olds.len())
                        ==> slice_disjoint(#[trigger] self.slices@[a], #[trigger] self.slices@[b]),
            decreases sz,
        {
            let half = sz / 2;
            proof {
                assert(sz >= 2);
                assert(is_pow2(half as nat));
                assert(sz % 2 == 0);
            }
            let ghost frags0 = slices_ints(self.slices@).skip(olds.len() as int);
            proof {
                assert(split_frags(sz as int, idx as int, num as int) == seq![
                    ((sz / 2) as int, (idx + sz / 2) as int),
                ] + split_frags((sz / 2) as int, idx as int, num as int));
            }
            self.slices.push((half, next_idx));
            proof {
                assert(slices_ints(self.slices@).skip(olds.len() as int) =~= frags0 + seq![
                    (half as int, next_idx as int),
                ]);
                assert((frags0 + seq![(half as int, next_idx as int)]) + split_frags(
                    half as int,
                    idx as int,
                    num as int,
                ) =~= frags0 + (seq![(half as int, next_idx as int)] + split_frags(
                    half as int,
                    idx as int,
                    num as int,
                )));
            }
            sz = half;
            next_idx = next_idx - half / 2;
            proof {
                let last = self.slices@.len() - 1;
                assert(slice_contained(self.slices@[last], olds[i as int]));
                assert forall|a: int, b: int|
                    0 <= a < b < self.slices@.len() && !(a == i && b >= olds.len())
                        implies slice_disjoint(
                    #[trigger] self.slices@[a],
                    #[trigger] self.slices@[b],
                ) by {
                    if b == last {
                        if a < olds.len() && a != i {
                            lemma_contained_disjoint(
                                self.slices@[b],
                                olds[i as int],
                                olds[a],
                            );
                        }
                    }
                }
            }
        }
        self.slices[i] = (0, 0);
        proof {
            assert(split_frags(sz as int, idx as int, num as int) =~= Seq::<(int, int)>::empty());
            assert(split_frags(sz0 as int, idx as int, num as int) =~= slices_ints(
                self.slices@,
            ).skip(olds.len() as int));
            let table = slices_ints(olds);
            lemma_find_fit(table, num as int);
            assert(table[i as int] == (sz0 as int, idx as int));
            assert(slices_ints(self.slices@) =~= table.update(i as int, (0int, 0int))
                + split_frags(table[i as int].0, table[i as int].1, num as int));
            assert(final_size_of(sz as int, num as int) == sz as int);
        }
        proof {
            assert forall|a: int, b: int|
                0 <= a < b < self.slices@.len() implies slice_disjoint(
                    #[trigger] self.slices@[a],
                    #[trigger] self.slices@[b],
                ) by {
                if a == i || b == i {
                    assert(self.slices@[i as int].0 == 0);
                }
            }
            assert forall|k: int|
                0 <= k < self.slices@.len() implies ((#[trigger] self.slices@[k]).0 == 0 || is_pow2(
                    self.slices@[k].0 as nat,
                )) && self.slices@[k].1 + self.slices@[k].0 <= usize::MAX by {
                if k != i && k < olds.len() {
                    assert(self.slices@[k] == olds[k]);
                }
            }
            assert(slices_wf(self.slices@));
            assert forall|k: int|
                0 <= k < self.slices@.len() implies slice_disjoint(
                    (sz, idx),
                    #[trigger] self.slices@[k],
                ) by {
                if k < olds.len() && k != i {
                    lemma_contained_disjoint((sz, idx), olds[i as int], olds[k]);
                }
            }
            assert forall|k: int|
                0 <= k < self.slices@.len() implies exists|j: int|
                    0 <= j < olds.len() && slice_contained(
                        #[trigger] self.slices@[k],
                        #[trigger] olds[j],
                    ) by {
                if k < olds.len() {
                    assert(slice_contained(self.slices@[k], olds[k]));
                } else {
                    assert(slice_contained(self.slices@[k], olds[i as int]));
                }
            }
        }
        Ok((idx, sz))
    }
}

/// Reserves a slice for every bucket, largest bucket first; each bucket
/// keeps its identity, list and position, and the reserved slices are
/// pairwise disjoint, strictly larger than the bucket's count, and all
/// inside `[0, 2*num - 1)` for the table size `num`.
pub fn make_bucket_slices(buckets: &Vec<Bucket>, num: usize) -> (r: Result<
    Vec<Bucket>,
    BucketError,
>)
    requires
        is_pow2(num as nat),
        num * 2 <= usize::MAX,
    ensures
        r matches Ok(res) ==> ({
            &&& res@.len() == buckets@.len()
            &&& forall|b: int|
                0 <= b < res@.len() ==> (#[trigger] res@[b]).list@ == buckets@[b].list@
                    && res@[b].idx == buckets@[b].idx
            &&& forall|b: int|
                0 <= b < res@.len() ==> (#[trigger] res@[b]).list@.len() < res@[b].slice_size
            &&& forall|b: int|
                0 <= b < res@.len() ==> (#[trigger] res@[b]).slice_start + res@[b].slice_size <= 2
                    * num - 1
            &&& forall|b: int| 0 <= b < res@.len() ==> is_pow2((#[trigger] res@[b]).slice_size as nat)
            &&& forall|b1: int, b2: int|
                0 <= b1 < b2 < res@.len() ==> slice_disjoint(
                    ((#[trigger] res@[b1]).slice_size, res@[b1].slice_start),
                    ((#[trigger] res@[b2]).slice_size, res@[b2].slice_start),
                )
        }),
        // a failure is owed to the greedy largest-first run itself: some
        // descending order of the bucket counts exhausts the halving table
        r is Err ==> (exists|ord: Seq<usize>|
            #[trigger] is_perm(ord) && ord.len() == buckets@.len() && (forall|j1: int, j2: int|
                0 <= j1 < j2 < ord.len() ==> buckets@[(#[trigger] ord[j1]) as int].list@.len()
                    >= buckets@[(#[trigger] ord[j2]) as int].list@.len()) && greedy_fails_of(
                Seq::new(ord.len(), |j: int| buckets@[ord[j] as int].list@.len() as int),
                halving_table_of(num as int, 0),
            )),
{
    let mut table = Slices::new(num);
    let ghost bound: int = 2 * num - 1;
    let n = buckets.len();
    let mut res: Vec<Bucket> = Vec::new();
    for b in 0..n
        invariant
            n == buckets@.len(),
            res@.len() == b,
            forall|k: int|
                0 <= k < b ==> (#[trigger] res@[k]).list@ == buckets@[k].list@ && res@[k].idx
                    == buckets@[k].idx && res@[k].slice_size == 0,
    {
        let copy = buckets[b].set_slice(0, 0);
        res.push(copy);
    }
    let order = sort_indices_by_size_desc(buckets);
    let ghost ord = order.map@;
    let ghost sizes = Seq::new(ord.len(), |j: int| buckets@[ord[j] as int].list@.len() as int);
    proof {
        assert(sizes.skip(0) =~= sizes);
    }
    for round in 0..n
        invariant
            n == buckets@.len(),
            res@.len() == n,
            ord == order.map@,
            ord.len() == n,
            is_perm(ord),
            sizes == Seq::new(ord.len(), |j: int| buckets@[ord[j] as int].list@.len() as int),
            forall|j1: int, j2: int|
                0 <= j1 < j2 < ord.len() ==> buckets@[(#[trigger] ord[j1]) as int].list@.len()
                    >= buckets@[(#[trigger] ord[j2]) as int].list@.len(),
            greedy_fails_of(sizes, halving_table_of(num as int, 0)) == greedy_fails_of(
                sizes.skip(round as int),
                slices_ints(table.slices@),
            ),
            slices_wf(table.slices@),
            forall|k: int|
                0 <= k < table.slices@.len() && (#[trigger] table.slices@[k]).0 > 0
                    ==> table.slices@[k].1 + table.slices@[k].0 <= bound,
            forall|b: int|
                0 <= b < n ==> (#[trigger] res@[b]).list@ == buckets@[b].list@ && res@[b].idx
                    == buckets@[b].idx,
            forall|j: int|
                0 <= j < round ==> (#[trigger] res@[ord[j] as int]).list@.len() < res@[ord[j] as int].slice_size
                    && is_pow2(res@[ord[j] as int].slice_size as nat) && res@[ord[j] as int].slice_start
                    + res@[ord[j] as int].slice_size <= bound,
            forall|j1: int, j2: int|
                0 <= j1 < j2 < round ==> slice_disjoint(
                    ((#[trigger] res@[ord[j1] as int]).slice_size, res@[ord[j1] as int].slice_start),
                    ((#[trigger] res@[ord[j2] as int]).slice_size, res@[ord[j2] as int].slice_start),
                ),
            // every assigned slice is disjoint from every free table slice
            forall|j: int, k: int|
                0 <= j < round && 0 <= k < table.slices@.len() ==> slice_disjoint(
                    ((#[trigger] res@[ord[j] as int]).slice_size, res@[ord[j] as int].slice_start),
                    #[trigger] table.slices@[k],
                ),
    {
        let best = order.get(round);
        let want = res[best].list.len();
        let ghost table0 = table.slices@;
        proof {
            assert(sizes.skip(round as int)[0] == sizes[round as int]);
            assert(sizes[round as int] == buckets@[ord[round as int] as int].list@.len() as int);
            assert(want as int == sizes[round as int]);
            assert(sizes.skip(round as int).skip(1) =~= sizes.skip(round + 1));
        }
        let got = table.reserve(want);
        match got {
            Err(e) => {
                proof {
                    assert(find_fit(slices_ints(table0), want as int) >= table0.len());
                    assert(greedy_fails_of(sizes.skip(round as int), slices_ints(table0)));
                    assert(greedy_fails_of(sizes, halving_table_of(num as int, 0)));
                }
                return Err(e);
            },
            Ok((start, size)) => {
                let updated = res[best].set_slice(start, size);
                let ghost res0 = res@;
                res[best] = updated;
                proof {
                    assert forall|j: int|
                        0 <= j < round implies res@[ord[j] as int] == res0[ord[j] as int] by {
                        assert(ord[j] != ord[round as int]);
                    }
                    assert forall|j: int, k: int|
                        0 <= j < round + 1 && 0 <= k < table.slices@.len() implies slice_disjoint(
                        ((#[trigger] res@[ord[j] as int]).slice_size, res@[ord[j] as int].slice_start),
                        #[trigger] table.slices@[k],
                    ) by {
                        if j < round {
                            let j2 = choose|j2: int|
                                0 <= j2 < table0.len() && slice_contained(
                                    #[trigger] table.slices@[k],
                                    table0[j2],
                                );
                            lemma_contained_disjoint(
                                table.slices@[k],
                                table0[j2],
                                (res@[ord[j] as int].slice_size, res@[ord[j] as int].slice_start),
                            );
                        }
                    }
                    assert forall|j1: int, j2: int|
                        0 <= j1 < j2 < round + 1 implies slice_disjoint(
                        ((#[trigger] res@[ord[j1] as int]).slice_size, res@[ord[j1] as int].slice_start),
                        ((#[trigger] res@[ord[j2] as int]).slice_size, res@[ord[j2] as int].slice_start),
                    ) by {
                        if j2 == round as int {
                            let jw = choose|jw: int|
                                0 <= jw < table0.len() && slice_contained(
                                    (size, start),
                                    #[trigger] table0[jw],
                                );
                            lemma_contained_disjoint(
                                (size, start),
                                table0[jw],
                                (
                                    res0[ord[j1] as int].slice_size,
                                    res0[ord[j1] as int].slice_start,
                                ),
                            );
                        }
                    }
                    assert forall|k: int|
                        0 <= k < table.slices@.len() && (#[trigger] table.slices@[k]).0 > 0
                            implies table.slices@[k].1 + table.slices@[k].0 <= bound by {
                        let j2 = choose|j2: int|
                            0 <= j2 < table0.len() && slice_contained(
                                table.slices@[k],
                                #[trigger] table0[j2],
                            );
                        assert(table0[j2].0 > 0);
                    }
                    // one greedy step was taken on the mirror table
                    assert(find_fit(slices_ints(table0), want as int) < table0.len());
                    assert(slices_ints(table.slices@) == reserve_table_of(
                        slices_ints(table0),
                        want as int,
                    ));
                    assert(greedy_fails_of(sizes.skip(round as int), slices_ints(table0))
                        == greedy_fails_of(sizes.skip(round + 1), slices_ints(table.slices@)));
                }
            },
        }
    }
    proof {
        assert forall|b1: int, b2: int|
            0 <= b1 < b2 < res@.len() implies slice_disjoint(
            ((#[trigger] res@[b1]).slice_size, res@[b1].slice_start),
            ((#[trigger] res@[b2]).slice_size, res@[b2].slice_start),
        ) by {
            crate::permutation::lemma_perm_onto(ord, b1);
            crate::permutation::lemma_perm_onto(ord, b2);
            let j1 = choose|j: int| 0 <= j < n && ord[j] == b1;
            let j2 = choose|j: int| 0 <= j < n && ord[j] == b2;
        }
        assert forall|b: int|
            0 <= b < res@.len() implies (#[trigger] res@[b]).list@.len() < res@[b].slice_size
                && is_pow2(res@[b].slice_size as nat) && res@[b].slice_start + res@[b].slice_size
                <= bound by {
            crate::permutation::lemma_perm_onto(ord, b);
            let j = choose|j: int| 0 <= j < n && ord[j] == b;
            assert(res@[ord[j] as int].list@.len() < res@[ord[j] as int].slice_size);
        }
    }
    Ok(res)
}

/// The bucket positions ordered by bucket size, largest first: a
/// bijection on the positions, so every bucket is handled exactly once.
pub fn sort_indices_by_size_desc(buckets: &Vec<Bucket>) -> (r: IntegerPermutation)
    ensures
        r.map@.len() == buckets@.len(),
        is_perm(r.map@),
        forall|j1: int, j2: int|
            0 <= j1 < j2 < r.map@.len() ==> buckets@[(#[trigger] r.map@[j1]) as int].list@.len()
                >= buckets@[(#[trigger] r.map@[j2]) as int].list@.len(),
{
    let n = buckets.len();
    let mut order = IntegerPermutation::new(n);
    for r in 0..n
        invariant
            n == buckets@.len(),
            order.map@.len() == n,
            is_perm(order.map@),
            forall|j1: int, j2: int|
                0 <= j1 < j2 < r ==> buckets@[(#[trigger] order.map@[j1]) as int].list@.len()
                    >= buckets@[(#[trigger] order.map@[j2]) as int].list@.len(),
            forall|j1: int, j2: int|
                0 <= j1 < r && r <= j2 < n ==> buckets@[(#[trigger] order.map@[j1]) as int].list@.len()
                    >= buckets@[(#[trigger] order.map@[j2]) as int].list@.len(),
    {
        let mut m = r;
        for j in (r + 1)..n
            invariant
                n == buckets@.len(),
                order.map@.len() == n,
                is_perm(order.map@),
                r <= m < n,
                forall|k: int|
                    r <= k < j ==> buckets@[(#[trigger] order.map@[m as int]) as int].list@.len()
                        >= buckets@[(#[trigger] order.map@[k]) as int].list@.len(),
        {
            if buckets[order.get(j)].list.len() > buckets[order.get(m)].list.len() {
                m = j;
            }
        }
        let a = order.get(r);
        let b = order.get(m);
        let ghost before = order.map@;
        order.set(r, b);
        order.set(m, a);
        proof {
            if m == r {
                assert(order.map@ =~= before);
            }
            assert forall|i1: int, i2: int|
                0 <= i1 < i2 < n implies order.map@[i1] != order.map@[i2] by {
                assert(order.map@[i1] == before[if i1 == r as int {
                    m as int
                } else if i1 == m as int {
                    r as int
                } else {
                    i1
                }]);
                assert(order.map@[i2] == before[if i2 == r as int {
                    m as int
                } else if i2 == m as int {
                    r as int
                } else {
                    i2
                }]);
            }
            assert(is_perm(order.map@));
        }
    }
    order
}


/// A slot of the layout is inside a bucket's occupied prefix.
pub open spec fn slot_of_bucket(buckets: Seq<Bucket>, b: int, s: int) -> bool {
    buckets[b].slice_start <= s < buckets[b].slice_start + buckets[b].list@.len()
}

/// No transition index appears in two bucket entries.
pub open spec fn buckets_distinct(buckets: Seq<Bucket>) -> bool {
    forall|b1: int, j1: int, b2: int, j2: int|
        #![trigger buckets[b1].list@[j1], buckets[b2].list@[j2]]
        0 <= b1 < buckets.len() && 0 <= j1 < buckets[b1].list@.len() && 0 <= b2 < buckets.len()
            && 0 <= j2 < buckets[b2].list@.len() && (b1 != b2 || j1 != j2) ==> buckets[b1].list@[j1]
            != buckets[b2].list@[j2]
}

/// Some bucket entry holds the transition index `v`.
pub open spec fn bucket_holds(buckets: Seq<Bucket>, v: int) -> bool {
    exists|b: int, j: int|
        #![trigger buckets[b].list@[j]]
        0 <= b < buckets.len() && 0 <= j < buckets[b].list@.len() && (buckets[b].list@[j] as int)
            == v
}

/// Every transition index below the count appears in some bucket.
pub open spec fn buckets_complete(buckets: Seq<Bucket>, elems: int) -> bool {
    forall|v: int| 0 <= v < elems ==> #[trigger] bucket_holds(buckets, v)
}

/// Some slot of the layout holds the value `v`.
pub open spec fn value_placed(l: Seq<usize>, v: int) -> bool {
    exists|s: int| 0 <= s < l.len() && (#[trigger] l[s] as int) == v
}

/// A slot of the layout that no bucket's occupied prefix covers: the
/// slots the fillers go to.
pub open spec fn unused_slot(buckets: Seq<Bucket>, s: int) -> bool {
    !(exists|b: int| 0 <= b < buckets.len() && #[trigger] slot_of_bucket(buckets, b, s))
}

/// How many unused slots lie strictly below position `s`: the rank of
/// `s` among the filler slots, which fixes the filler value it gets.
pub open spec fn fillers_below(buckets: Seq<Bucket>, s: int) -> int
    decreases s,
{
    if s <= 0 {
        0
    } else {
        fillers_below(buckets, s - 1) + if unused_slot(buckets, s - 1) {
            1int
        } else {
            0int
        }
    }
}

/// Routes every transition index into its bucket's slice of the leaf
/// layout (entry `j` of bucket `b` to slot `slice_start + j`), and a
/// fresh filler target, counted up from `elems`, into every unused
/// slot.  The result is checked to be a total bijection on the
/// `2 * elems - 1` layout positions; a routing that is not one is a
/// construction-time error.
pub fn route_bucket_contents(buckets: &Vec<Bucket>, elems: usize) -> (r: Result<
    IntegerPermutation,
    BucketError,
>)
    requires
        elems >= 1,
        2 * elems - 1 <= usize::MAX - 1,
        forall|b: int|
            0 <= b < buckets@.len() ==> (#[trigger] buckets@[b]).slice_start
                + buckets@[b].list@.len() <= 2 * elems - 1,
        forall|b: int|
            0 <= b < buckets@.len() ==> (#[trigger] buckets@[b]).list@.len()
                <= buckets@[b].slice_size,
        forall|b1: int, b2: int|
            0 <= b1 < b2 < buckets@.len() ==> slice_disjoint(
                ((#[trigger] buckets@[b1]).slice_size, buckets@[b1].slice_start),
                ((#[trigger] buckets@[b2]).slice_size, buckets@[b2].slice_start),
            ),
        forall|b: int, j: int|
            #![trigger buckets@[b].list@[j]]
            0 <= b < buckets@.len() && 0 <= j < buckets@[b].list@.len() ==> (buckets@[b].list@[j]
                as int) < elems,
    ensures
        r matches Ok(p) ==> ({
            &&& p.map@.len() == 2 * elems - 1
            &&& is_perm(p.map@)
            &&& forall|b: int, j: int|
                #![trigger p.map@[buckets@[b].slice_start + j]]
                0 <= b < buckets@.len() && 0 <= j < buckets@[b].list@.len()
                    ==> p.map@[buckets@[b].slice_start + j] == buckets@[b].list@[j]
            &&& forall|s: int|
                0 <= s < p.map@.len() && unused_slot(buckets@, s) ==> (#[trigger] p.map@[s] as int)
                    == elems + fillers_below(buckets@, s)
        }),
        buckets_distinct(buckets@) && buckets_complete(buckets@, elems as int) ==> r is Ok,
{
    let size = 2 * elems - 1;
    let mut list: Vec<usize> = vec![usize::MAX; size];
    let nb = buckets.len();
    for b in 0..nb
        invariant
            nb == buckets@.len(),
            list@.len() == size,
            size == 2 * elems - 1,
            size <= usize::MAX - 1,
            forall|b2: int|
                0 <= b2 < nb ==> (#[trigger] buckets@[b2]).slice_start
                    + buckets@[b2].list@.len() <= size,
            forall|b2: int|
                0 <= b2 < nb ==> (#[trigger] buckets@[b2]).list@.len() <= buckets@[b2].slice_size,
            forall|b1: int, b2: int|
                0 <= b1 < b2 < nb ==> slice_disjoint(
                    ((#[trigger] buckets@[b1]).slice_size, buckets@[b1].slice_start),
                    ((#[trigger] buckets@[b2]).slice_size, buckets@[b2].slice_start),
                ),
            forall|b2: int, j: int|
                #![trigger list@[buckets@[b2].slice_start + j]]
                0 <= b2 < b && 0 <= j < buckets@[b2].list@.len() ==> list@[buckets@[b2].slice_start
                    + j] == buckets@[b2].list@[j],
            forall|s: int|
                0 <= s < size && (#[trigger] list@[s]) != usize::MAX ==> exists|b2: int|
                    0 <= b2 < b && slot_of_bucket(buckets@, b2, s),
    {
        let start = buckets[b].slice_start;
        let m = buckets[b].list.len();
        for j in 0..m
            invariant
                nb == buckets@.len(),
                0 <= b < nb,
                list@.len() == size,
                size == 2 * elems - 1,
                size <= usize::MAX - 1,
                m == buckets@[b as int].list@.len(),
                start == buckets@[b as int].slice_start,
                start + m <= size,
                forall|b2: int|
                    0 <= b2 < nb ==> (#[trigger] buckets@[b2]).slice_start
                        + buckets@[b2].list@.len() <= size,
                forall|b2: int, j2: int|
                    #![trigger list@[buckets@[b2].slice_start + j2]]
                    0 <= b2 < b && 0 <= j2 < buckets@[b2].list@.len()
                        ==> list@[buckets@[b2].slice_start + j2] == buckets@[b2].list@[j2],
                forall|j2: int|
                    0 <= j2 < j ==> list@[start + j2] == (#[trigger] buckets@[b as int].list@[j2]),
                forall|b2: int|
                    0 <= b2 < nb ==> (#[trigger] buckets@[b2]).list@.len()
                        <= buckets@[b2].slice_size,
                forall|b1: int, b2: int|
                    0 <= b1 < b2 < nb ==> slice_disjoint(
                        ((#[trigger] buckets@[b1]).slice_size, buckets@[b1].slice_start),
                        ((#[trigger] buckets@[b2]).slice_size, buckets@[b2].slice_start),
                    ),
                forall|s: int|
                    0 <= s < size && (#[trigger] list@[s]) != usize::MAX ==> (exists|b2: int|
                        0 <= b2 < b && slot_of_bucket(buckets@, b2, s)) || (start <= s < start + j),
        {
            let v = buckets[b].list[j];
            list[start + j] = v;
            proof {
                assert forall|b2: int, j2: int|
                    #![trigger list@[buckets@[b2].slice_start + j2]]
                    0 <= b2 < b && 0 <= j2 < buckets@[b2].list@.len()
                        implies list@[buckets@[b2].slice_start + j2] == buckets@[b2].list@[j2] by {
                    assert(slice_disjoint(
                        ((buckets@[b2]).slice_size, buckets@[b2].slice_start),
                        ((buckets@[b as int]).slice_size, buckets@[b as int].slice_start),
                    ));
                    assert(buckets@[b2].slice_start + j2 != start + j);
                }
            }
        }
        proof {
            assert forall|s: int|
                0 <= s < size && (#[trigger] list@[s]) != usize::MAX implies exists|b2: int|
                    0 <= b2 < b + 1 && slot_of_bucket(buckets@, b2, s) by {
                if !(exists|b2: int| 0 <= b2 < b && slot_of_bucket(buckets@, b2, s)) {
                    assert(slot_of_bucket(buckets@, b as int, s));
                }
            }
        }
    }
    // assign a fresh filler target to every untouched slot
    let mut acc = elems;
    let ghost pre = list@;
    proof {
        // the placed values are in range, pinned by their buckets, and
        // distinct wherever the bucket entries are
        assert forall|s2: int|
            0 <= s2 < size && (#[trigger] pre[s2]) != usize::MAX implies (pre[s2] as int)
                < elems by {
            let b = choose|b: int| 0 <= b < nb && slot_of_bucket(buckets@, b, s2);
            let j = s2 - buckets@[b].slice_start;
            assert(pre[buckets@[b].slice_start + j] == buckets@[b].list@[j]);
        }
        assert forall|s2: int|
            0 <= s2 < size implies ((#[trigger] pre[s2]) == usize::MAX <==> unused_slot(
            buckets@,
            s2,
        )) by {
            if pre[s2] != usize::MAX {
                let b = choose|b: int| 0 <= b < nb && slot_of_bucket(buckets@, b, s2);
                assert(slot_of_bucket(buckets@, b, s2));
            } else if !unused_slot(buckets@, s2) {
                let b = choose|b: int|
                    0 <= b < buckets@.len() && #[trigger] slot_of_bucket(buckets@, b, s2);
                let j = s2 - buckets@[b].slice_start;
                assert(pre[buckets@[b].slice_start + j] == buckets@[b].list@[j]);
                assert((buckets@[b].list@[j] as int) < elems);
            }
        }
        if buckets_distinct(buckets@) {
            assert forall|s1: int, s2: int|
                0 <= s1 < s2 < size && (#[trigger] pre[s1]) != usize::MAX && (#[trigger] pre[s2])
                    != usize::MAX implies pre[s1] != pre[s2] by {
                let b1 = choose|b: int| 0 <= b < nb && slot_of_bucket(buckets@, b, s1);
                let b2 = choose|b: int| 0 <= b < nb && slot_of_bucket(buckets@, b, s2);
                let j1 = s1 - buckets@[b1].slice_start;
                let j2 = s2 - buckets@[b2].slice_start;
                assert(pre[buckets@[b1].slice_start + j1] == buckets@[b1].list@[j1]);
                assert(pre[buckets@[b2].slice_start + j2] == buckets@[b2].list@[j2]);
                if b1 != b2 {
                    assert(slice_disjoint(
                        ((buckets@[b1]).slice_size, buckets@[b1].slice_start),
                        ((buckets@[b2]).slice_size, buckets@[b2].slice_start),
                    ));
                }
            }
        }
        if buckets_complete(buckets@, elems as int) {
            assert forall|v: int| 0 <= v < elems implies #[trigger] value_placed(pre, v) by {
                assert(bucket_holds(buckets@, v));
                let (b, j) = choose|b: int, j: int|
                    #![trigger buckets@[b].list@[j]]
                    0 <= b < nb && 0 <= j < buckets@[b].list@.len() && (buckets@[b].list@[j] as int)
                        == v;
                assert(pre[buckets@[b].slice_start + j] == buckets@[b].list@[j]);
            }
        }
    }
    let ghost mut fs: Seq<int> = Seq::empty();
    for s in 0..size
        invariant
            list@.len() == size,
            size == 2 * elems - 1,
            size <= usize::MAX - 1,
            elems <= acc <= size,
            pre.len() == size,
            fs.len() == acc - elems,
            forall|s2: int| s <= s2 < size ==> (#[trigger] list@[s2]) == pre[s2],
            forall|s2: int|
                0 <= s2 < size && (#[trigger] pre[s2]) != usize::MAX ==> list@[s2] == pre[s2],
            forall|s2: int| 0 <= s2 < s ==> (#[trigger] list@[s2]) != usize::MAX,
            forall|k: int|
                0 <= k < fs.len() ==> 0 <= (#[trigger] fs[k]) < s && (list@[fs[k]] as int) == elems
                    + k,
            forall|s2: int|
                0 <= s2 < size && (#[trigger] list@[s2]) != usize::MAX ==> ((pre[s2] != usize::MAX
                    && list@[s2] == pre[s2]) || (elems <= (list@[s2] as int) < acc)),
            forall|s2: int|
                0 <= s2 < s && (#[trigger] list@[s2] as int) >= elems ==> fs[(list@[s2] as int)
                    - (elems as int)] == s2,
            forall|s2: int|
                0 <= s2 < size && (#[trigger] pre[s2]) != usize::MAX ==> (pre[s2] as int) < elems,
            forall|s2: int|
                0 <= s2 < size ==> ((#[trigger] pre[s2]) == usize::MAX <==> unused_slot(
                    buckets@,
                    s2,
                )),
            acc == elems + fillers_below(buckets@, s as int),
            forall|s2: int|
                0 <= s2 < s && (#[trigger] pre[s2]) == usize::MAX ==> (list@[s2] as int) == elems
                    + fillers_below(buckets@, s2),
            buckets_distinct(buckets@) ==> (forall|s1: int, s2: int|
                0 <= s1 < s2 < size && (#[trigger] pre[s1]) != usize::MAX && (#[trigger] pre[s2])
                    != usize::MAX ==> pre[s1] != pre[s2]),
            buckets_complete(buckets@, elems as int) ==> (forall|v: int|
                0 <= v < elems ==> #[trigger] value_placed(pre, v)),
    {
        if list[s] == usize::MAX {
            if acc >= size {
                proof {
                    if buckets_distinct(buckets@) && buckets_complete(buckets@, elems as int) {
                        // every layout value already sits at some slot,
                        // yet slot `s` is empty: the covering below
                        // contradicts itself
                        let lv = list@;
                        assert forall|v: int|
                            0 <= v < size implies #[trigger] value_placed(lv, v) by {
                            if v < elems {
                                assert(value_placed(pre, v));
                                let sp = choose|sp: int|
                                    0 <= sp < size && (#[trigger] pre[sp] as int) == v;
                                assert(lv[sp] == pre[sp]);
                                assert(0 <= sp < lv.len() && (lv[sp] as int) == v);
                            } else {
                                let sf = fs[v - elems];
                                assert(0 <= sf < lv.len() && (lv[sf] as int) == v);
                            }
                        }
                        let q = Seq::<usize>::new(
                            size as nat,
                            |v: int|
                                (choose|s2: int|
                                    0 <= s2 < lv.len() && (lv[s2] as int) == v) as usize,
                        );
                        assert forall|v: int|
                            0 <= v < size implies (#[trigger] q[v] as int) < size && (lv[q[v] as int]
                                as int) == v by {
                            assert(value_placed(lv, v));
                            let s2 = choose|s2: int| 0 <= s2 < lv.len() && (lv[s2] as int) == v;
                            assert(q[v] == s2 as usize);
                        }
                        assert(is_perm(q)) by {
                            assert forall|v1: int, v2: int|
                                0 <= v1 < v2 < size implies q[v1] != q[v2] by {
                                assert((lv[q[v1] as int] as int) == v1);
                                assert((lv[q[v2] as int] as int) == v2);
                            }
                        }
                        crate::permutation::lemma_perm_onto(q, s as int);
                        let v = choose|v: int| 0 <= v < size && (q[v] as int) == s as int;
                        assert((lv[s as int] as int) == v);
                        assert(lv[s as int] == usize::MAX);
                        assert(false);
                    }
                }
                return Err(BucketError::NotBijective);
            }
            proof {
                assert(list@[s as int] == usize::MAX);
                assert(list@[s as int] == pre[s as int]);
                assert(pre[s as int] == usize::MAX);
                assert(acc < usize::MAX);
            }
            list[s] = acc;
            proof {
                fs = fs.push(s as int);
            }
            acc = acc + 1;
            proof {
                assert forall|s2: int|
                    0 <= s2 < s + 1 implies (#[trigger] list@[s2]) != usize::MAX by {
                    if s2 == s as int {
                        assert(list@[s2] == acc - 1);
                    }
                }
                assert(unused_slot(buckets@, s as int));
                assert(fillers_below(buckets@, s as int + 1) == fillers_below(buckets@, s as int)
                    + 1);
            }
        } else {
            proof {
                assert(pre[s as int] != usize::MAX);
                assert(!unused_slot(buckets@, s as int));
                assert(fillers_below(buckets@, s as int + 1) == fillers_below(buckets@, s as int));
            }
        }
    }
    let perm = IntegerPermutation { map: list };
    proof {
        if buckets_distinct(buckets@) && buckets_complete(buckets@, elems as int) {
            let lv = perm.map@;
            assert forall|s2: int|
                0 <= s2 < size implies (#[trigger] lv[s2] as int) < size by {
                if pre[s2] != usize::MAX {
                    assert((pre[s2] as int) < elems);
                }
            }
            assert forall|s1: int, s2: int| 0 <= s1 < s2 < size implies lv[s1] != lv[s2] by {
                if (lv[s1] as int) < elems && (lv[s2] as int) < elems {
                    assert(lv[s1] == pre[s1] && lv[s2] == pre[s2]);
                } else if (lv[s1] as int) >= elems && (lv[s2] as int) >= elems {
                    if lv[s1] == lv[s2] {
                        assert(fs[(lv[s1] as int) - (elems as int)] == s1);
                        assert(fs[(lv[s2] as int) - (elems as int)] == s2);
                    }
                }
            }
            assert(is_perm(perm.map@));
        }
    }
    if perm.check() {
        proof {
            assert forall|b: int, j: int|
                #![trigger perm.map@[buckets@[b].slice_start + j]]
                0 <= b < buckets@.len() && 0 <= j < buckets@[b].list@.len()
                    implies perm.map@[buckets@[b].slice_start + j] == buckets@[b].list@[j] by {
                assert(pre[buckets@[b].slice_start + j] == buckets@[b].list@[j]);
                assert((buckets@[b].list@[j] as int) < elems);
                assert(buckets@[b].list@[j] != usize::MAX);
            }
            assert forall|s2: int|
                0 <= s2 < size && unused_slot(buckets@, s2) implies (#[trigger] perm.map@[s2]
                as int) == elems + fillers_below(buckets@, s2) by {
                assert(pre[s2] == usize::MAX);
            }
        }
        Ok(perm)
    } else {
        Err(BucketError::NotBijective)
    }
}

/// The positions of a perfect binary tree over `elems` leaf slots,
/// level by level: `2*elems - 1` bottom positions, then the level
/// above, down to the root.
pub open spec fn total_size_of(elems: int) -> int
    decreases elems,
{
    if elems <= 0 {
        0
    } else {
        2 * elems - 1 + total_size_of(elems / 2)
    }
}

/// The whole tree is at most four times its leaf count.
pub proof fn lemma_total_size_bound(elems: int)
    requires
        elems >= 0,
    ensures
        total_size_of(elems) <= 4 * elems,
        elems >= 1 ==> total_size_of(elems) >= 2 * elems - 1,
    decreases elems,
{
    if elems > 0 {
        lemma_total_size_bound(elems / 2);
    }
}

/// How many tree positions the bucket layout takes over `elems` leaf
/// slots, as `total_size_of` states it.
pub fn total_size(elems: usize) -> (r: usize)
    requires
        4 * elems <= usize::MAX,
    ensures
        r == total_size_of(elems as int),
{
    let mut elems_left = elems;
    let mut size: usize = 0;
    proof {
        lemma_total_size_bound(elems as int);
    }
    while elems_left > 0
        invariant
            4 * elems <= usize::MAX,
            0 <= elems_left <= elems,
            size + total_size_of(elems_left as int) == total_size_of(elems as int),
            total_size_of(elems as int) <= 4 * elems,
            size <= total_size_of(elems as int),
        decreases elems_left,
    {
        proof {
            lemma_total_size_bound(elems_left as int);
            lemma_total_size_bound((elems_left / 2) as int);
        }
        size = size + (2 * elems_left - 1);
        elems_left = elems_left / 2;
    }
    size
}

/// The tree position of the subtree root over the slice
/// `(level_idx, size sz)`: the bottom level holds the lowest positions,
/// and each halving steps one level up.
pub open spec fn tree_idx_of(sz: int, level_idx: int, elems: int, level_acc: int) -> int
    decreases sz,
{
    if sz <= 1 {
        level_idx + level_acc
    } else {
        tree_idx_of(sz / 2, level_idx / 2, elems / 2, level_acc + 2 * elems - 1)
    }
}

/// The tree position of a bucket's root: the node at the level matching
/// its slice size, as `tree_idx_of` states it.
pub fn compute_idx(b: &Bucket, elems: usize) -> (r: usize)
    requires
        is_pow2(elems as nat),
        is_pow2(b.slice_size as nat),
        b.slice_size <= elems,
        b.slice_start <= 2 * elems,
        8 * elems <= usize::MAX,
    ensures
        r == tree_idx_of(b.slice_size as int, b.slice_start as int, elems as int, 0),
{
    let mut sz = b.slice_size;
    let mut level_idx = b.slice_start;
    let mut elems_left = elems;
    let mut level_acc: usize = 0;
    while sz > 1
        invariant
            is_pow2(sz as nat),
            is_pow2(elems_left as nat),
            sz <= elems_left,
            level_idx <= 2 * elems_left,
            level_acc + 4 * elems_left <= 8 * elems,
            8 * elems <= usize::MAX,
            tree_idx_of(sz as int, level_idx as int, elems_left as int, level_acc as int)
                == tree_idx_of(b.slice_size as int, b.slice_start as int, elems as int, 0),
        decreases sz,
    {
        proof {
            assert(sz >= 2);
            assert(is_pow2((sz / 2) as nat));
            assert(elems_left >= 2);
            assert(is_pow2((elems_left / 2) as nat));
        }
        sz = sz / 2;
        level_acc = level_acc + (2 * elems_left - 1);
        elems_left = elems_left / 2;
        level_idx = level_idx / 2;
    }
    level_idx + level_acc
}

/// Tree positions shift with the running level offset.
pub proof fn lemma_tree_idx_acc(s: int, a: int, e: int, acc: int)
    requires
        s >= 1,
    ensures
        tree_idx_of(s, a, e, acc) == acc + tree_idx_of(s, a, e, 0),
    decreases s,
{
    if s >= 2 {
        lemma_tree_idx_acc(s / 2, a / 2, e / 2, acc + 2 * e - 1);
        lemma_tree_idx_acc(s / 2, a / 2, e / 2, 2 * e - 1);
    }
}

/// The tree position of a slice inside the bottom layout lies inside
/// the whole tree.
pub proof fn lemma_tree_idx_bound(s: int, a: int, e: int)
    requires
        s >= 1,
        e >= 1,
        is_pow2(s as nat),
        is_pow2(e as nat),
        s <= e,
        0 <= a,
        a + s <= 2 * e - 1,
    ensures
        0 <= tree_idx_of(s, a, e, 0) < total_size_of(e),
    decreases s,
{
    lemma_total_size_bound(e);
    if s == 1 {
        assert(tree_idx_of(s, a, e, 0) == a);
        lemma_total_size_bound(e / 2);
    } else {
        assert(s % 2 == 0 && is_pow2((s / 2) as nat));
        assert(e >= 2 && e % 2 == 0 && is_pow2((e / 2) as nat));
        assert(a / 2 + s / 2 <= 2 * (e / 2) - 1) by (nonlinear_arith)
            requires
                0 <= a && s >= 2 && e >= 2 && s % 2 == 0 && e % 2 == 0 && a + s <= 2 * e - 1,
        ;
        lemma_tree_idx_bound(s / 2, a / 2, e / 2);
        lemma_tree_idx_acc(s / 2, a / 2, e / 2, 2 * e - 1);
        assert(total_size_of(e) == 2 * e - 1 + total_size_of(e / 2));
    }
}

/// Disjoint power-of-two slices of the bottom layout root at distinct
/// tree positions.
pub proof fn lemma_tree_idx_inj(s: int, a: int, t: int, b: int, e: int)
    requires
        s >= 1,
        t >= 1,
        e >= 1,
        is_pow2(s as nat),
        is_pow2(t as nat),
        is_pow2(e as nat),
        s <= e,
        t <= e,
        0 <= a,
        0 <= b,
        a + s <= 2 * e - 1,
        b + t <= 2 * e - 1,
        a + s <= b || b + t <= a,
    ensures
        tree_idx_of(s, a, e, 0) != tree_idx_of(t, b, e, 0),
    decreases e, s,
{
    lemma_tree_idx_bound(s, a, e);
    lemma_tree_idx_bound(t, b, e);
    if s == 1 && t == 1 {
        assert(a != b);
    } else if s == 1 && t >= 2 {
        // a bottom position sits below every higher level's positions
        assert(tree_idx_of(s, a, e, 0) == a);
        assert(a < 2 * e - 1);
        lemma_tree_idx_acc(t / 2, b / 2, e / 2, 2 * e - 1);
        lemma_tree_idx_bound(t, b, e);
        assert(tree_idx_of(t, b, e, 0) >= 2 * e - 1) by {
            assert(is_pow2((t / 2) as nat) && is_pow2((e / 2) as nat));
            assert(b / 2 + t / 2 <= 2 * (e / 2) - 1) by (nonlinear_arith)
                requires
                    0 <= b && t >= 2 && e >= 2 && t % 2 == 0 && e % 2 == 0 && b + t <= 2 * e - 1,
            ;
            lemma_tree_idx_bound(t / 2, b / 2, e / 2);
        }
    } else if s >= 2 && t == 1 {
        lemma_tree_idx_inj(t, b, s, a, e);
    } else {
        // both recurse one level; halved slices stay disjoint
        assert(s % 2 == 0 && t % 2 == 0 && e % 2 == 0 && e >= 2);
        assert(a / 2 + s / 2 <= b / 2 || b / 2 + t / 2 <= a / 2) by (nonlinear_arith)
            requires
                0 <= a && 0 <= b && s >= 2 && t >= 2 && s % 2 == 0 && t % 2 == 0 && (a + s <= b
                    || b + t <= a),
        ;
        assert(a / 2 + s / 2 <= 2 * (e / 2) - 1) by (nonlinear_arith)
            requires
                0 <= a && s >= 2 && e >= 2 && s % 2 == 0 && e % 2 == 0 && a + s <= 2 * e - 1,
        ;
        assert(b / 2 + t / 2 <= 2 * (e / 2) - 1) by (nonlinear_arith)
            requires
                0 <= b && t >= 2 && e >= 2 && t % 2 == 0 && e % 2 == 0 && b + t <= 2 * e - 1,
        ;
        lemma_tree_idx_inj(s / 2, a / 2, t / 2, b / 2, e / 2);
        lemma_tree_idx_acc(s / 2, a / 2, e / 2, 2 * e - 1);
        lemma_tree_idx_acc(t / 2, b / 2, e / 2, 2 * e - 1);
    }
}

/// Routes each bucket's subtree root (at the tree position its slice
/// determines) into position `idx` of the second-stage layout, and a
/// fresh unused filler target, counted upward in position order, into
/// every remaining slot.  Disjoint power-of-two slices root at distinct
/// tree positions, so under the stated shape the routing is always a
/// total bijection and the call always succeeds.
pub fn route_buckets(buckets: &Vec<Bucket>, elems: usize) -> (r: Result<
    IntegerPermutation,
    BucketError,
>)
    requires
        is_pow2(elems as nat),
        8 * elems <= usize::MAX,
        forall|b: int|
            0 <= b < buckets@.len() ==> ((#[trigger] buckets@[b]).idx as int) < total_size_of(
                elems as int,
            ),
        forall|b1: int, b2: int|
            0 <= b1 < b2 < buckets@.len() ==> (#[trigger] buckets@[b1]).idx != (
            #[trigger] buckets@[b2]).idx,
        forall|b: int|
            0 <= b < buckets@.len() ==> is_pow2((#[trigger] buckets@[b]).slice_size as nat)
                && buckets@[b].slice_size <= elems && buckets@[b].slice_start
                + buckets@[b].slice_size <= 2 * elems - 1,
        forall|b1: int, b2: int|
            0 <= b1 < b2 < buckets@.len() ==> slice_disjoint(
                ((#[trigger] buckets@[b1]).slice_size, buckets@[b1].slice_start),
                ((#[trigger] buckets@[b2]).slice_size, buckets@[b2].slice_start),
            ),
    ensures
        r is Ok,
        r matches Ok(p) ==> ({
            &&& p.map@.len() == total_size_of(elems as int)
            &&& is_perm(p.map@)
            &&& forall|b: int|
                0 <= b < buckets@.len() ==> (p.map@[(#[trigger] buckets@[b]).idx as int] as int)
                    == tree_idx_of(
                    buckets@[b].slice_size as int,
                    buckets@[b].slice_start as int,
                    elems as int,
                    0,
                )
        }),
{
    let ghost e = elems as int;
    let ghost tidx = |b: int|
        tree_idx_of(buckets@[b].slice_size as int, buckets@[b].slice_start as int, e, 0);
    let size = total_size(elems);
    proof {
        lemma_total_size_bound(e);
        assert(size < usize::MAX);
    }
    let mut list: Vec<usize> = vec![usize::MAX; size];
    let mut used: Vec<bool> = vec![false; size];
    let nb = buckets.len();
    for b in 0..nb
        invariant
            e == elems as int,
            tidx == (|b2: int|
                tree_idx_of(
                    buckets@[b2].slice_size as int,
                    buckets@[b2].slice_start as int,
                    e,
                    0,
                )),
            nb == buckets@.len(),
            list@.len() == size,
            used@.len() == size,
            size == total_size_of(e),
            size < usize::MAX,
            is_pow2(elems as nat),
            8 * elems <= usize::MAX,
            forall|b2: int| 0 <= b2 < nb ==> ((#[trigger] buckets@[b2]).idx as int) < size,
            forall|b1: int, b2: int|
                0 <= b1 < b2 < nb ==> (#[trigger] buckets@[b1]).idx != (
                #[trigger] buckets@[b2]).idx,
            forall|b2: int|
                0 <= b2 < nb ==> is_pow2((#[trigger] buckets@[b2]).slice_size as nat)
                    && buckets@[b2].slice_size <= elems && buckets@[b2].slice_start
                    + buckets@[b2].slice_size <= 2 * elems - 1,
            forall|b1: int, b2: int|
                0 <= b1 < b2 < nb ==> slice_disjoint(
                    ((#[trigger] buckets@[b1]).slice_size, buckets@[b1].slice_start),
                    ((#[trigger] buckets@[b2]).slice_size, buckets@[b2].slice_start),
                ),
            forall|b2: int|
                0 <= b2 < b ==> (#[trigger] list@[buckets@[b2].idx as int] as int) == tidx(b2),
            forall|v: int|
                0 <= v < size ==> ((#[trigger] used@[v]) <==> (exists|b2: int|
                    0 <= b2 < b && #[trigger] tidx(b2) == v)),
            forall|s2: int|
                0 <= s2 < size && (#[trigger] list@[s2]) != usize::MAX ==> ((list@[s2] as int)
                    < size && used@[list@[s2] as int]),
            forall|s1: int, s2: int|
                0 <= s1 < s2 < size && (#[trigger] list@[s1]) != usize::MAX && (
                #[trigger] list@[s2]) != usize::MAX ==> list@[s1] != list@[s2],
    {
        let target = compute_idx(&buckets[b], elems);
        proof {
            lemma_tree_idx_bound(
                buckets@[b as int].slice_size as int,
                buckets@[b as int].slice_start as int,
                e,
            );
            assert((target as int) == tidx(b as int));
        }
        if used[target] {
            proof {
                let b2 = choose|b2: int| 0 <= b2 < b && #[trigger] tidx(b2) == target as int;
                lemma_tree_idx_inj(
                    buckets@[b2].slice_size as int,
                    buckets@[b2].slice_start as int,
                    buckets@[b as int].slice_size as int,
                    buckets@[b as int].slice_start as int,
                    e,
                );
                assert(false);
            }
            return Err(BucketError::NotBijective);
        }
        let pos = buckets[b].idx;
        let ghost list0 = list@;
        let ghost used0 = used@;
        list[pos] = target;
        used[target] = true;
        proof {
            assert forall|v: int|
                0 <= v < size implies ((#[trigger] used@[v]) <==> (exists|b2: int|
                    0 <= b2 < b + 1 && #[trigger] tidx(b2) == v)) by {
                if v == target as int {
                    assert(tidx(b as int) == v);
                } else {
                    if used@[v] {
                        let b2 = choose|b2: int| 0 <= b2 < b && #[trigger] tidx(b2) == v;
                        assert(0 <= b2 < b + 1 && tidx(b2) == v);
                    }
                    if exists|b2: int| 0 <= b2 < b + 1 && #[trigger] tidx(b2) == v {
                        let b2 = choose|b2: int| 0 <= b2 < b + 1 && #[trigger] tidx(b2) == v;
                        assert(b2 < b);
                    }
                }
            }
            assert forall|b2: int|
                0 <= b2 < b + 1 implies (#[trigger] list@[buckets@[b2].idx as int] as int) == tidx(
                b2,
            ) by {
                if b2 < b {
                    assert(buckets@[b2].idx != buckets@[b as int].idx);
                    assert(list@[buckets@[b2].idx as int] == list0[buckets@[b2].idx as int]);
                }
            }
            assert forall|s1: int, s2: int|
                0 <= s1 < s2 < size && (#[trigger] list@[s1]) != usize::MAX && (
                #[trigger] list@[s2]) != usize::MAX implies list@[s1] != list@[s2] by {
                if s1 != pos as int && s2 != pos as int {
                    assert(list@[s1] == list0[s1] && list@[s2] == list0[s2]);
                } else {
                    let other: int = if s1 == pos as int {
                        s2
                    } else {
                        s1
                    };
                    assert(list@[other] == list0[other]);
                    assert(used0[list0[other] as int]);
                    assert(!used0[target as int]);
                }
            }
        }
    }
    proof {
        assert forall|b2: int| 0 <= b2 < nb implies 0 <= #[trigger] tidx(b2) < size by {
            lemma_tree_idx_bound(
                buckets@[b2].slice_size as int,
                buckets@[b2].slice_start as int,
                e,
            );
        }
        assert forall|v: int|
            0 <= v < size && (#[trigger] used@[v]) implies value_placed(list@, v) by {
            let b2 = choose|b2: int| 0 <= b2 < nb && #[trigger] tidx(b2) == v;
            assert((list@[buckets@[b2].idx as int] as int) == v);
            assert(0 <= (buckets@[b2].idx as int) < list@.len());
        }
    }
    // the remaining slots take the unused positions, counted upward
    let mut next: usize = 0;
    for s in 0..size
        invariant
            forall|b2: int| 0 <= b2 < nb ==> 0 <= #[trigger] tidx(b2) < size,
            nb == buckets@.len(),
            e == elems as int,
            tidx == (|b2: int|
                tree_idx_of(
                    buckets@[b2].slice_size as int,
                    buckets@[b2].slice_start as int,
                    e,
                    0,
                )),
            list@.len() == size,
            used@.len() == size,
            size < usize::MAX,
            next <= size,
            forall|b2: int|
                0 <= b2 < nb ==> (#[trigger] list@[buckets@[b2].idx as int] as int) == tidx(b2),
            forall|b2: int| 0 <= b2 < nb ==> ((#[trigger] buckets@[b2]).idx as int) < size,
            forall|v: int| 0 <= v < next ==> #[trigger] used@[v],
            forall|v: int|
                0 <= v < size && (#[trigger] used@[v]) ==> value_placed(list@, v),
            forall|s2: int|
                0 <= s2 < size && (#[trigger] list@[s2]) != usize::MAX ==> ((list@[s2] as int)
                    < size && used@[list@[s2] as int]),
            forall|s1: int, s2: int|
                0 <= s1 < s2 < size && (#[trigger] list@[s1]) != usize::MAX && (
                #[trigger] list@[s2]) != usize::MAX ==> list@[s1] != list@[s2],
            forall|s2: int| 0 <= s2 < s ==> (#[trigger] list@[s2]) != usize::MAX,
    {
        if list[s] == usize::MAX {
            while next < size && used[next]
                invariant
                    used@.len() == size,
                    next <= size,
                    forall|v: int| 0 <= v < next ==> #[trigger] used@[v],
                decreases size - next,
            {
                next = next + 1;
            }
            if next >= size {
                proof {
                    let lv = list@;
                    assert forall|v: int| 0 <= v < size implies #[trigger] value_placed(lv, v) by {
                        assert(used@[v]);
                    }
                    let q = Seq::<usize>::new(
                        size as nat,
                        |v: int| (choose|s2: int| 0 <= s2 < lv.len() && (lv[s2] as int) == v) as usize,
                    );
                    assert forall|v: int|
                        0 <= v < size implies (#[trigger] q[v] as int) < size && (lv[q[v] as int]
                            as int) == v by {
                        assert(value_placed(lv, v));
                        let s2 = choose|s2: int| 0 <= s2 < lv.len() && (lv[s2] as int) == v;
                        assert(q[v] == s2 as usize);
                    }
                    assert(is_perm(q)) by {
                        assert forall|v1: int, v2: int|
                            0 <= v1 < v2 < size implies q[v1] != q[v2] by {
                            assert((lv[q[v1] as int] as int) == v1);
                            assert((lv[q[v2] as int] as int) == v2);
                        }
                    }
                    crate::permutation::lemma_perm_onto(q, s as int);
                    let v = choose|v: int| 0 <= v < size && (q[v] as int) == s as int;
                    assert((lv[s as int] as int) == v);
                    assert(lv[s as int] == usize::MAX);
                    assert(false);
                }
                return Err(BucketError::NotBijective);
            }
            let ghost list0 = list@;
            let ghost used0 = used@;
            list[s] = next;
            used[next] = true;
            proof {
                assert(list0[s as int] == usize::MAX);
                assert forall|b2: int|
                    0 <= b2 < nb implies (#[trigger] list@[buckets@[b2].idx as int] as int) == tidx(
                    b2,
                ) by {
                    assert(list0[buckets@[b2].idx as int] != usize::MAX);
                    assert(buckets@[b2].idx != s);
                }
                assert forall|v: int|
                    0 <= v < size && (#[trigger] used@[v]) implies value_placed(list@, v) by {
                    if v == next as int {
                        assert(0 <= s < list@.len() && (list@[s as int] as int) == v);
                    } else {
                        assert(used0[v]);
                        let s2 = choose|s2: int|
                            0 <= s2 < list0.len() && (#[trigger] list0[s2] as int) == v;
                        assert(list0[s2] != usize::MAX);
                        assert(s2 != s as int);
                        assert((list@[s2] as int) == v);
                    }
                }
                assert forall|s1: int, s2: int|
                    0 <= s1 < s2 < size && (#[trigger] list@[s1]) != usize::MAX && (
                    #[trigger] list@[s2]) != usize::MAX implies list@[s1] != list@[s2] by {
                    if s1 != s as int && s2 != s as int {
                        assert(list@[s1] == list0[s1] && list@[s2] == list0[s2]);
                    } else {
                        let other: int = if s1 == s as int {
                            s2
                        } else {
                            s1
                        };
                        assert(list@[other] == list0[other]);
                        assert(used0[list0[other] as int]);
                        assert(!used0[next as int]);
                    }
                }
            }
            next = next + 1;
        }
    }
    let perm = IntegerPermutation { map: list };
    proof {
        assert(is_perm(perm.map@));
    }
    if perm.check() {
        Ok(perm)
    } else {
        proof {
            assert(false);
        }
        Err(BucketError::NotBijective)
    }
}

} // verus!
