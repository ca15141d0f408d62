// Runs of the stack machine and the word-level helpers.

use vmsnark::code::CodeTree;
use vmsnark::field::{fe_eq, fe_u64, HashParams};
use vmsnark::vm::{get_transitions, transition_hash, Collector, VM};

use ark_std::UniformRand;

fn params() -> HashParams {
    let mut rng = ark_std::test_rng();
    let mut mds: Vec<Vec<vmsnark::field::Fe>> = vec![vec![], vec![], vec![]];
    for row in mds.iter_mut() {
        for _ in 0..3 {
            row.push(vmsnark::field::Fe(ark_mnt4_298::Fr::rand(&mut rng)));
        }
    }
    let mut ark: Vec<Vec<vmsnark::field::Fe>> = (0..40).map(|_| vec![]).collect();
    for row in ark.iter_mut() {
        for _ in 0..3 {
            row.push(vmsnark::field::Fe(ark_mnt4_298::Fr::rand(&mut rng)));
        }
    }
    vmsnark::field::make_params(8, 32, 5, mds, ark, 2, 1).unwrap()
}

#[test]
fn push_push_add_run() {
    // the machine executes [push 3, push 4, add]
    let code = vec![CodeTree::CConst(3), CodeTree::CConst(4), CodeTree::CAdd];
    let mut vm = VM::new(code);
    assert_eq!(vm.expr_stack.len(), 0);
    let mut c = Collector::new();
    vm.step(&mut c);
    vm.step(&mut c);
    assert_eq!(vm.expr_stack, vec![3, 4]);
    vm.step(&mut c);
    assert_eq!(vm.expr_stack, vec![7]);
    assert_eq!(vm.step_counter, 3);
    assert_eq!(c.constant.len(), 2);
    assert_eq!(c.add.len(), 1);
    // the add transition's before state holds the two operands
    assert_eq!(c.add[0].before.expr_stack, vec![3, 4]);
    assert_eq!(c.add[0].after.expr_stack, vec![7]);
    // before_0 has the empty stack, after_2 holds the sum
    assert_eq!(c.constant[0].before.expr_stack, Vec::<u32>::new());
    let trs = get_transitions(&c);
    assert_eq!(trs.len(), 3);
    // flattening order: the add list comes before the constant list
    assert_eq!(trs[0].before.expr_stack, vec![3, 4]);
    assert_eq!(trs[1].before.expr_stack, Vec::<u32>::new());
}

#[test]
fn loop_and_break_run() {
    // loop once: [loop{...}, set-up code inline, break taken]
    // code list: [CLoop(after), CConst(1), CBreakIf(0), CEnd]
    let after = vec![CodeTree::CEnd];
    let code = vec![
        CodeTree::CLoop(after),
        CodeTree::CConst(0),
        CodeTree::CBreakIf(0),
        CodeTree::CEnd,
    ];
    let mut vm = VM::new(code);
    let mut c = Collector::new();
    vm.step(&mut c); // enter loop
    assert_eq!(vm.control_stack.len(), 1);
    vm.step(&mut c); // push 0
    vm.step(&mut c); // break not taken (top is zero)
    assert_eq!(c.breakno.len(), 1);
    assert_eq!(vm.expr_stack.len(), 0);
    vm.step(&mut c); // end: pop the frame, continue after the loop
    assert_eq!(c.endi.len(), 1);
    assert_eq!(vm.control_stack.len(), 0);
}

#[test]
fn set_and_get_local_run() {
    let code = vec![
        CodeTree::CConst(9),
        CodeTree::CSetLocal(1),
        CodeTree::CGetLocal(1),
        CodeTree::CGetLocal(0),
    ];
    let mut vm = VM::new(code);
    let mut c = Collector::new();
    vm.step(&mut c);
    vm.step(&mut c);
    assert_eq!(vm.locals, vec![0, 9]);
    vm.step(&mut c);
    vm.step(&mut c);
    assert_eq!(vm.expr_stack, vec![9, 0]);
    assert_eq!(c.set.len(), 1);
    assert_eq!(c.get.len(), 2);
}

#[test]
fn sub_and_gt_run() {
    let code = vec![
        CodeTree::CConst(10),
        CodeTree::CConst(3),
        CodeTree::CSub,
        CodeTree::CConst(9),
        CodeTree::CGt,
    ];
    let mut vm = VM::new(code);
    let mut c = Collector::new();
    for _ in 0..5 {
        vm.step(&mut c);
    }
    // 10 - 3 = 7; then top 9 compared against 7: 9 < 7 is false
    assert_eq!(vm.expr_stack, vec![0]);
    assert_eq!(c.sub.len(), 1);
    assert_eq!(c.gt.len(), 1);
}

#[test]
fn make_params_rejects_wrong_shapes() {
    let z = || vmsnark::field::Fe(ark_mnt4_298::Fr::from(1u64));
    let mds_ok: Vec<Vec<vmsnark::field::Fe>> = vec![vec![z(), z(), z()]; 3];
    let ark_ok: Vec<Vec<vmsnark::field::Fe>> = vec![vec![z(), z(), z()]; 40];
    // a zero rate is refused
    assert!(vmsnark::field::make_params(8, 32, 5, mds_ok.clone(), ark_ok.clone(), 0, 3).is_none());
    // a matrix with too few rows is refused
    let mds_short: Vec<Vec<vmsnark::field::Fe>> = vec![vec![z(), z(), z()]; 2];
    assert!(vmsnark::field::make_params(8, 32, 5, mds_short, ark_ok.clone(), 2, 1).is_none());
    // a ragged matrix row is refused
    let mut mds_ragged = mds_ok.clone();
    mds_ragged[1].pop();
    assert!(vmsnark::field::make_params(8, 32, 5, mds_ragged, ark_ok.clone(), 2, 1).is_none());
    // a round-constant table shorter than the round count is refused
    let ark_short: Vec<Vec<vmsnark::field::Fe>> = vec![vec![z(), z(), z()]; 39];
    assert!(vmsnark::field::make_params(8, 32, 5, mds_ok.clone(), ark_short, 2, 1).is_none());
    // the fitting shape is accepted
    assert!(vmsnark::field::make_params(8, 32, 5, mds_ok, ark_ok, 2, 1).is_some());
}

#[test]
fn state_commitment_is_deterministic() {
    let p = params();
    let code = vec![CodeTree::CConst(3), CodeTree::CAdd];
    let vm = VM::new(code);
    let h1 = vm.hash(&p);
    let h2 = vm.hash(&p);
    assert!(fe_eq(&h1, &h2));
}

#[test]
fn state_commitment_depends_on_state() {
    let p = params();
    let vm1 = VM::new(vec![CodeTree::CConst(3)]);
    let vm2 = VM::new(vec![CodeTree::CConst(4)]);
    assert!(!fe_eq(&vm1.hash(&p), &vm2.hash(&p)));
}

#[test]
fn hash_is_not_identity_on_first_input() {
    // the compression of [x, 0] must differ from x itself
    let p = params();
    let x = fe_u64(5);
    let z = fe_u64(0);
    let h = vmsnark::code::hash_pair(&p, &x, &z);
    assert!(!fe_eq(&h, &x));
}

#[test]
fn transition_hash_matches_pair_of_commitments() {
    let p = params();
    let code = vec![CodeTree::CConst(3), CodeTree::CConst(4), CodeTree::CAdd];
    let mut vm = VM::new(code);
    let mut c = Collector::new();
    for _ in 0..3 {
        vm.step(&mut c);
    }
    let t = &c.add[0];
    let th = transition_hash(&p, t);
    let direct = vmsnark::code::hash_pair(&p, &t.before.hash(&p), &t.after.hash(&p));
    assert!(fe_eq(&th, &direct));
}

#[test]
fn decode_bits() {
    assert_eq!(vmsnark::decode(6, 4), vec![false, true, true, false]);
    assert_eq!(vmsnark::decode2(6, 4), vec![false, true, true, false]);
    assert_eq!(vmsnark::decode(1, 1), vec![true]);
    assert_eq!(vmsnark::decode(0, 3), vec![false, false, false]);
}

#[test]
fn decode_op_fields() {
    // op 5, first register 2, second register 3
    let word = 5 + 16 * 2 + 64 * 3;
    assert_eq!(vmsnark::decode_op(word), (5, 2, 3));
}

#[test]
fn compute_arithmetic() {
    assert_eq!(vmsnark::compute(0, 7, 8), 15);
    assert_eq!(vmsnark::compute(1, 7, 8), 56);
    assert_eq!(vmsnark::compute(2, 7, 8), 0x1_0000_0000_0000_0000u128 - 1);
    assert_eq!(vmsnark::compute(1, u64::MAX, u64::MAX), (u64::MAX as u128) * (u64::MAX as u128));
}

#[test]
fn reverse_round_trip() {
    let v: Vec<u64> = vec![1, 2, 3, 4, 5];
    let r = vmsnark::reverse(&v);
    assert_eq!(r, vec![5, 4, 3, 2, 1]);
    assert_eq!(vmsnark::reverse(&r), v);
}
