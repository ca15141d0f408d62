// The shared transition-circuit contract: satisfiable with the natural
// witness, unsatisfiable with a tampered one.

use vmsnark::code::CodeTree;
use vmsnark::field::{fe_u64, HashParams};
use vmsnark::opcodes::{circuit_holds, natural_witness, prove_step_satisfiable};
use vmsnark::vm::{transition_hash, Collector, OpKind, Transition, VM};

use ark_std::UniformRand;

fn params() -> HashParams {
    let mut rng = ark_std::test_rng();
    let mut mds: Vec<Vec<vmsnark::field::Fe>> = vec![vec![], vec![], vec![]];
    for row in mds.iter_mut() {
        for _ in 0..3 {
            row.push(vmsnark::field::Fe(ark_mnt4_298::Fr::rand(&mut rng)));
        }
    }
    let mut ark: Vec<Vec<vmsnark::field::Fe>> = (0..40).map(|_| vec![]).collect();
    for row in ark.iter_mut() {
        for _ in 0..3 {
            row.push(vmsnark::field::Fe(ark_mnt4_298::Fr::rand(&mut rng)));
        }
    }
    vmsnark::field::make_params(8, 32, 5, mds, ark, 2, 1).unwrap()
}

fn public_of(p: &HashParams, before: &VM, after: &VM) -> vmsnark::field::Fe {
    let t = Transition { before: before.clone(), after: after.clone() };
    transition_hash(p, &t)
}

fn step_once(vm: &VM) -> VM {
    let mut after = vm.clone();
    let mut c = Collector::new();
    after.step(&mut c);
    after
}

#[test]
fn add_circuit_satisfiable_with_natural_witness() {
    let p = params();
    let before = VM {
        expr_stack: vec![3, 4],
        locals: vec![0, 0],
        control_stack: vec![],
        pc: vec![CodeTree::CAdd],
        step_counter: 2,
    };
    let w = prove_step_satisfiable(&p, &before);
    let after = step_once(&before);
    let public = public_of(&p, &before, &after);
    assert!(circuit_holds(&p, OpKind::Add, &w, &public));
}

#[test]
fn add_circuit_rejects_tampered_witness() {
    let p = params();
    let before = VM {
        expr_stack: vec![3, 4],
        locals: vec![0, 0],
        control_stack: vec![],
        pc: vec![CodeTree::CAdd],
        step_counter: 2,
    };
    let mut w = natural_witness(&p, &before);
    let after = step_once(&before);
    let public = public_of(&p, &before, &after);
    assert!(circuit_holds(&p, OpKind::Add, &w, &public));
    // a witness inconsistent with the commitments is rejected
    w.a = fe_u64(99);
    assert!(!circuit_holds(&p, OpKind::Add, &w, &public));
}

#[test]
fn circuit_rejects_wrong_public_input() {
    let p = params();
    let before = VM {
        expr_stack: vec![8],
        locals: vec![0, 0],
        control_stack: vec![],
        pc: vec![CodeTree::CSetLocal(1)],
        step_counter: 0,
    };
    let w = prove_step_satisfiable(&p, &before);
    let after = step_once(&before);
    let public = public_of(&p, &before, &after);
    assert!(circuit_holds(&p, OpKind::SetLocal, &w, &public));
    assert!(!circuit_holds(&p, OpKind::SetLocal, &w, &fe_u64(17)));
}

#[test]
fn every_opcode_circuit_is_satisfiable() {
    let p = params();
    let body_end = vec![CodeTree::CEnd];
    let cases: Vec<(OpKind, VM)> = vec![
        (
            OpKind::Add,
            VM {
                expr_stack: vec![3, 4],
                locals: vec![0, 0],
                control_stack: vec![],
                pc: vec![CodeTree::CAdd],
                step_counter: 0,
            },
        ),
        (
            OpKind::Sub,
            VM {
                expr_stack: vec![9, 4],
                locals: vec![0, 0],
                control_stack: vec![],
                pc: vec![CodeTree::CSub, CodeTree::CEnd],
                step_counter: 1,
            },
        ),
        (
            OpKind::Gt,
            VM {
                expr_stack: vec![9, 4],
                locals: vec![0, 0],
                control_stack: vec![],
                pc: vec![CodeTree::CGt],
                step_counter: 2,
            },
        ),
        (
            OpKind::Const,
            VM {
                expr_stack: vec![],
                locals: vec![0, 0],
                control_stack: vec![],
                pc: vec![CodeTree::CConst(12)],
                step_counter: 0,
            },
        ),
        (
            OpKind::GetLocal,
            VM {
                expr_stack: vec![],
                locals: vec![5, 6],
                control_stack: vec![],
                pc: vec![CodeTree::CGetLocal(1)],
                step_counter: 0,
            },
        ),
        (
            OpKind::SetLocal,
            VM {
                expr_stack: vec![8],
                locals: vec![5, 6],
                control_stack: vec![],
                pc: vec![CodeTree::CSetLocal(0)],
                step_counter: 0,
            },
        ),
        (
            OpKind::Loop,
            VM {
                expr_stack: vec![],
                locals: vec![0, 0],
                control_stack: vec![],
                pc: vec![CodeTree::CLoop(body_end.clone()), CodeTree::CEnd],
                step_counter: 0,
            },
        ),
        (
            OpKind::End,
            VM {
                expr_stack: vec![],
                locals: vec![0, 0],
                control_stack: vec![
                    vmsnark::code::ControlFrame::LoopFrame(body_end.clone(), vec![CodeTree::CEnd]),
                ],
                pc: vec![CodeTree::CEnd],
                step_counter: 3,
            },
        ),
        (
            OpKind::BreakYes,
            VM {
                expr_stack: vec![1],
                locals: vec![0, 0],
                control_stack: vec![
                    vmsnark::code::ControlFrame::LoopFrame(body_end.clone(), vec![CodeTree::CEnd]),
                ],
                pc: vec![CodeTree::CBreakIf(0)],
                step_counter: 4,
            },
        ),
        (
            OpKind::BreakNo,
            VM {
                expr_stack: vec![0],
                locals: vec![0, 0],
                control_stack: vec![],
                pc: vec![CodeTree::CBreakIf(0)],
                step_counter: 4,
            },
        ),
    ];
    for (k, before) in cases {
        let w = prove_step_satisfiable(&p, &before);
        let after = step_once(&before);
        let public = public_of(&p, &before, &after);
        assert!(circuit_holds(&p, k, &w, &public));
    }
}

#[test]
fn break_circuits_enforce_the_selector() {
    let p = params();
    // a taken break saw a non-zero top; handing the same witness to the
    // untaken circuit fails its side constraint
    let before = VM {
        expr_stack: vec![1],
        locals: vec![0, 0],
        control_stack: vec![
            vmsnark::code::ControlFrame::LoopFrame(vec![CodeTree::CEnd], vec![CodeTree::CEnd]),
        ],
        pc: vec![CodeTree::CBreakIf(0)],
        step_counter: 0,
    };
    let w = natural_witness(&p, &before);
    assert!(!circuit_holds(&p, OpKind::BreakNo, &w, &fe_u64(0)));
}

#[test]
fn value_hint_hash_and_defaults() {
    let p = params();
    let v = vmsnark::machine::ValueHint::default();
    assert_eq!(v.value, 0);
    assert_eq!(v.ty, 0);
    let h1 = v.hash(&p);
    let h2 = vmsnark::machine::ValueHint { value: 0, ty: 0 }.hash(&p);
    assert!(vmsnark::field::fe_eq(&h1, &h2));
    let i = vmsnark::machine::InstructionHint::default();
    assert_eq!(i.opcode, 0);
    let d = vmsnark::machine::default_instruction();
    assert_eq!(d.argument_data, 0);
    let _ = vmsnark::machine::InstDropHint::default();
    let _ = vmsnark::machine::InstBlockHint::default();
    let _ = vmsnark::machine::InstCrossCallHint::default();
}

#[test]
fn witness_slate_spreads_one_hint() {
    let w = vmsnark::machine::proof_to_witness(vmsnark::machine::InstProof::Branch(
        vmsnark::machine::InstBranchHint { val: 7, block: 3 },
    ));
    assert_eq!(w.branch.val, 7);
    assert_eq!(w.branch.block, 3);
    assert_eq!(w.drop.val, 0);
    assert_eq!(w.select.val1, 0);
    assert_eq!(w.branch_if.block, 0);
}
