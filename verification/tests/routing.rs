// Permutations, bucket sizing and the two-stage routing.

use vmsnark::bucket::{
    compute_idx, make_bucket_slices, make_buckets, route_bucket_contents, route_buckets,
    total_size, Bucket, Slices,
};
use vmsnark::code::CodeTree;
use vmsnark::permutation::{apply_permutation, make_switch, IntegerPermutation};
use vmsnark::field::{fe_eq, fe_u64};
use vmsnark::vm::{Transition, VM};

fn vm_with_counter(c: usize) -> VM {
    let mut vm = VM::new(vec![CodeTree::CEnd]);
    vm.step_counter = c;
    vm
}

fn tr(counter: usize) -> Transition {
    Transition { before: vm_with_counter(counter), after: vm_with_counter(counter + 1) }
}

// eight transitions in four step ranges of width four: bucket counts
// 3, 2, 2 and 1
fn batch() -> Vec<Transition> {
    [0usize, 1, 2, 4, 5, 8, 9, 12].iter().map(|&c| tr(c)).collect()
}

#[test]
fn permutation_round_trip() {
    // applying a bijection then its inverse reproduces the original,
    // for every power-of-two size
    for k in [2usize, 4, 8, 16, 32] {
        let mut perm = IntegerPermutation::new(k);
        for i in 0..k {
            perm.set(i, k - 1 - i);
        }
        assert!(perm.check());
        let inv = perm.inverse();
        let items: Vec<u64> = (0..k as u64).map(|i| i * 10).collect();
        let once = apply_permutation(&perm, &items);
        let back = apply_permutation(&inv, &once);
        assert_eq!(back, items);
    }
}

#[test]
fn non_bijections_are_rejected() {
    let mut dup = IntegerPermutation::new(4);
    dup.set(0, 2);
    dup.set(1, 2);
    assert!(!dup.check());
    let mut oor = IntegerPermutation::new(4);
    oor.set(3, 9);
    assert!(!oor.check());
}

#[test]
fn switch_gate_routes_both_ways() {
    let a = fe_u64(1);
    let b = fe_u64(2);
    let (s1, s2) = make_switch(a, b, true);
    assert!(fe_eq(&s1, &a) && fe_eq(&s2, &b));
    let (c1, c2) = make_switch(a, b, false);
    assert!(fe_eq(&c1, &b) && fe_eq(&c2, &a));
}

#[test]
fn buckets_partition_by_step_range() {
    let trs: Vec<Transition> = (0..6).map(tr).collect();
    let buckets = make_buckets(&trs, 2, 4);
    assert_eq!(buckets.len(), 4);
    assert_eq!(buckets[0].list, vec![0, 1]);
    assert_eq!(buckets[1].list, vec![2, 3]);
    assert_eq!(buckets[2].list, vec![4, 5]);
    assert_eq!(buckets[3].list, Vec::<usize>::new());
    assert_eq!(buckets[2].idx, 2);
}

#[test]
fn slice_table_halves() {
    let s = Slices::new(8);
    assert_eq!(s.slices, vec![(8, 0), (4, 8), (2, 12), (1, 14)]);
}

#[test]
fn reserve_splits_and_stays_disjoint() {
    let mut s = Slices::new(8);
    let (start1, size1) = s.reserve(1).unwrap();
    assert!(size1 > 1);
    let (start2, size2) = s.reserve(1).unwrap();
    assert!(size2 > 1);
    // the two reserved slices never overlap
    assert!(start1 + size1 <= start2 || start2 + size2 <= start1);
    // a bucket too large for any free slice is an explicit error
    assert!(s.reserve(64).is_err());
}

#[test]
fn sizing_gives_every_bucket_a_private_slice() {
    let trs = batch();
    let buckets = make_buckets(&trs, 4, 4);
    let sized = make_bucket_slices(&buckets, 8).unwrap();
    for b in &sized {
        assert!(b.list.len() < b.slice_size);
        assert!(b.slice_start + b.slice_size <= 15);
    }
    for i in 0..sized.len() {
        for j in 0..sized.len() {
            if i != j {
                let a = &sized[i];
                let b = &sized[j];
                assert!(
                    a.slice_start + a.slice_size <= b.slice_start
                        || b.slice_start + b.slice_size <= a.slice_start
                );
            }
        }
    }
}

#[test]
fn stage_one_routing_is_a_bijection() {
    let trs = batch();
    let buckets = make_buckets(&trs, 4, 4);
    let sized = make_bucket_slices(&buckets, 8).unwrap();
    let perm = route_bucket_contents(&sized, 8).unwrap();
    assert_eq!(perm.size(), 15);
    assert!(perm.check());
    // every transition index sits at its bucket slot
    for b in &sized {
        for (j, &v) in b.list.iter().enumerate() {
            assert_eq!(perm.get(b.slice_start + j), v);
        }
    }
    // the routing is deterministic across repeated runs
    let again = route_bucket_contents(&sized, 8).unwrap();
    assert_eq!(perm.map, again.map);
    // every slot outside the occupied prefixes holds a filler, counted
    // up from the transition count in position order
    let mut filler = 8usize;
    for s in 0..15 {
        let occupied = sized
            .iter()
            .any(|b| b.slice_start <= s && s < b.slice_start + b.list.len());
        if !occupied {
            assert_eq!(perm.get(s), filler);
            filler += 1;
        }
    }
    assert_eq!(filler, 15);
}

#[test]
fn stage_two_routing_is_a_bijection() {
    let trs = batch();
    let buckets = make_buckets(&trs, 4, 4);
    let sized = make_bucket_slices(&buckets, 8).unwrap();
    let perm = route_buckets(&sized, 8).unwrap();
    assert_eq!(perm.size(), total_size(8));
    assert!(perm.check());
    for b in &sized {
        assert_eq!(perm.get(b.idx), compute_idx(b, 8));
    }
    let again = route_buckets(&sized, 8).unwrap();
    assert_eq!(perm.map, again.map);
}

#[test]
fn tree_positions() {
    assert_eq!(total_size(4), 11);
    assert_eq!(total_size(1), 1);
    let b = Bucket { list: vec![], idx: 0, slice_start: 0, slice_size: 4 };
    // the slice of size four roots at the single top position
    assert_eq!(compute_idx(&b, 4), 10);
    let leaf = Bucket { list: vec![], idx: 1, slice_start: 2, slice_size: 1 };
    assert_eq!(compute_idx(&leaf, 4), 2);
}
