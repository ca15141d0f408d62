// The Merkle-loop step verifier: honest chains hold, tampered paths
// do not.

use vmsnark::code::CodeTree;
use vmsnark::field::{fe_eq, fe_u64, HashParams};
use vmsnark::merkleloop::{
    build_merkle_loop, compute_level, compute_levels, merkle_loop_holds, shard_merkle_loop,
    states_of_transitions,
};
use vmsnark::vm::{get_transitions, Collector, VM};

use ark_std::UniformRand;

fn params() -> HashParams {
    let mut rng = ark_std::test_rng();
    let mut mds: Vec<Vec<vmsnark::field::Fe>> = vec![vec![], vec![], vec![]];
    for row in mds.iter_mut() {
        for _ in 0..3 {
            row.push(vmsnark::field::Fe(ark_mnt4_298::Fr::rand(&mut rng)));
        }
    }
    let mut ark: Vec<Vec<vmsnark::field::Fe>> = (0..40).map(|_| vec![]).collect();
    for row in ark.iter_mut() {
        for _ in 0..3 {
            row.push(vmsnark::field::Fe(ark_mnt4_298::Fr::rand(&mut rng)));
        }
    }
    vmsnark::field::make_params(8, 32, 5, mds, ark, 2, 1).unwrap()
}

#[test]
fn honest_chain_holds() {
    let p = params();
    // a synthetic chain of four state commitments plus boundary
    let states = vec![fe_u64(11), fe_u64(22), fe_u64(33), fe_u64(44), fe_u64(55)];
    let shard = build_merkle_loop(&p, &states);
    assert!(merkle_loop_holds(&shard));
    let (start, end, _root) = shard.get();
    assert!(fe_eq(&start, &states[0]));
    assert!(fe_eq(&end, &states[4]));
}

#[test]
fn flipped_sibling_breaks_the_shard() {
    let p = params();
    let states = vec![fe_u64(11), fe_u64(22), fe_u64(33), fe_u64(44), fe_u64(55)];
    let mut shard = build_merkle_loop(&p, &states);
    assert!(merkle_loop_holds(&shard));
    // flip one sibling hash on one authentication path
    shard.paths[1][1] = fe_u64(999_999);
    assert!(!merkle_loop_holds(&shard));
}

#[test]
fn flipped_boundary_breaks_the_shard() {
    let p = params();
    let states = vec![fe_u64(11), fe_u64(22), fe_u64(33), fe_u64(44), fe_u64(55)];
    let mut shard = build_merkle_loop(&p, &states);
    shard.leafs[0] = fe_u64(123_456);
    assert!(!merkle_loop_holds(&shard));
}

#[test]
fn levels_fold_to_the_padded_root() {
    // aggregating [h0, h1, h2, h2] two levels deep gives
    // compress(compress(h0, h1), compress(h2, h2))
    let p = params();
    let h0 = fe_u64(7);
    let h1 = fe_u64(8);
    let h2 = fe_u64(9);
    let leaves = vec![h0, h1, h2, h2];
    let levels = compute_levels(&p, &leaves);
    assert_eq!(levels.len(), 3);
    let left = vmsnark::code::hash_pair(&p, &h0, &h1);
    let right = vmsnark::code::hash_pair(&p, &h2, &h2);
    let root = vmsnark::code::hash_pair(&p, &left, &right);
    assert!(fe_eq(&levels[2][0], &root));
    // one level alone matches as well
    let one = compute_level(&p, &leaves);
    assert!(fe_eq(&one[0], &left));
    assert!(fe_eq(&one[1], &right));
}

#[test]
fn chained_run_yields_states() {
    let p = params();
    let code = vec![
        CodeTree::CConst(3),
        CodeTree::CConst(4),
        CodeTree::CAdd,
        CodeTree::CConst(1),
    ];
    let mut vm = VM::new(code);
    let mut c = Collector::new();
    for _ in 0..4 {
        vm.step(&mut c);
    }
    // reorder into execution order by the before step counter
    let mut trs = get_transitions(&c);
    trs.sort_by_key(|t| t.before.step_counter);
    let states = states_of_transitions(&p, &trs).unwrap();
    assert_eq!(states.len(), 5);
    // a run whose order is broken is rejected
    trs.swap(0, 2);
    assert!(states_of_transitions(&p, &trs).is_err());
}

#[test]
fn shard_of_machine_run_holds() {
    let p = params();
    let code = vec![
        CodeTree::CConst(3),
        CodeTree::CConst(4),
        CodeTree::CAdd,
        CodeTree::CConst(1),
    ];
    let mut vm = VM::new(code);
    let mut c = Collector::new();
    for _ in 0..4 {
        vm.step(&mut c);
    }
    let mut trs = get_transitions(&c);
    trs.sort_by_key(|t| t.before.step_counter);
    let states = states_of_transitions(&p, &trs).unwrap();
    let shard = build_merkle_loop(&p, &states);
    assert!(merkle_loop_holds(&shard));
}

#[test]
fn shards_chain_and_share_the_root() {
    let p = params();
    let states: Vec<_> = (0..9u64).map(|i| fe_u64(100 + i)).collect();
    let whole = build_merkle_loop(&p, &states);
    assert!(merkle_loop_holds(&whole));
    let shards = shard_merkle_loop(&whole, 4);
    assert_eq!(shards.len(), 4);
    for s in &shards {
        assert!(merkle_loop_holds(s));
        let (_, _, root) = s.get();
        assert!(fe_eq(&root, &whole.root));
    }
    // consecutive shards chain end to start
    for w in shards.windows(2) {
        let (_, end, _) = w[0].get();
        let (start, _, _) = w[1].get();
        assert!(fe_eq(&end, &start));
    }
    let (first, _, _) = shards[0].get();
    let (_, last, _) = shards[3].get();
    assert!(fe_eq(&first, &states[0]));
    assert!(fe_eq(&last, &states[8]));
}
