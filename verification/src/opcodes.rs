//! The shared contract of the per-opcode transition circuits.
//!
//! Every opcode circuit recomputes the before and the after state
//! commitment from witness pieces — literal operand values and partial
//! hashes of untouched collection suffixes — and enforces that the
//! compression of the two commitments equals its sole public input.
//! `circuit_holds_of` is that relation, exactly: a transition circuit
//! over a witness and a public value is satisfiable exactly when the
//! relation holds.  The break circuit is the depth-zero one, and the
//! locals gadgets address a two-entry locals array, as the machine is
//! created with.

use vstd::prelude::*;

use crate::field::{
    compress_of, crh_of, fe_add_of, fe_of, fe_sub_of, params_wf, Fe, HashParams,
};
use crate::vm::{
    control_hash_of, locals_hash_of, stack_hash_of, step_kind, step_ok, step_vm, vm_hash_of,
    words_view, OpKind, VmV,
};
use crate::code::{hash_code_of, CodeTree, CodeV, FrameV};
use crate::field::{crh, fe_u64};
use crate::vm::VM;

verus! {

/// The private witness of one transition circuit: literal operands and
/// the partial hashes of whatever the opcode leaves untouched.
pub struct StepWitness {
    /// first operand: the stack top, or the immediate of a push
    pub a: Fe,
    /// second operand on the stack
    pub b: Fe,
    /// the claimed comparison result (hashed in, not constrained)
    pub res: Fe,
    /// which of the two locals is addressed
    pub sel: bool,
    /// hash of the untouched stack suffix
    pub rest: Fe,
    /// the first local
    pub l0: Fe,
    /// the second local
    pub l1: Fe,
    /// hash of the locals when untouched
    pub locals: Fe,
    /// hash of the untouched control stack (the after side for ends and
    /// breaks)
    pub control: Fe,
    /// hash of the code after the operation
    pub pc_tail: Fe,
    /// hash of the loop body or continuation
    pub cont: Fe,
    /// hash of the code the loop was entered from
    pub start: Fe,
}

/// The field embedding of a selector bit.
pub open spec fn bit_of(sel: bool) -> Fe {
    if sel {
        fe_of(1)
    } else {
        fe_of(0)
    }
}

/// The before-state commitment an opcode circuit recomputes from its
/// witness.
pub open spec fn witness_before_of(params: HashParams, k: OpKind, w: StepWitness) -> Fe {
    match k {
        OpKind::Add => crh_of(
            params,
            seq![
                crh_of(params, seq![fe_of(1), w.pc_tail]),
                crh_of(params, seq![w.a, crh_of(params, seq![w.b, w.rest])]),
                w.locals,
                w.control,
            ],
        ),
        OpKind::Sub => crh_of(
            params,
            seq![
                crh_of(params, seq![fe_of(2), w.pc_tail]),
                crh_of(params, seq![w.a, crh_of(params, seq![w.b, w.rest])]),
                w.locals,
                w.control,
            ],
        ),
        OpKind::Gt => crh_of(
            params,
            seq![
                crh_of(params, seq![fe_of(3), w.pc_tail]),
                crh_of(params, seq![w.a, crh_of(params, seq![w.b, w.rest])]),
                w.locals,
                w.control,
            ],
        ),
        OpKind::Const => crh_of(
            params,
            seq![
                crh_of(params, seq![fe_of(6), w.a, w.pc_tail]),
                w.rest,
                w.locals,
                w.control,
            ],
        ),
        OpKind::GetLocal => crh_of(
            params,
            seq![
                crh_of(params, seq![fe_of(4), bit_of(w.sel), w.pc_tail]),
                w.rest,
                crh_of(params, seq![w.l0, w.l1]),
                w.control,
            ],
        ),
        OpKind::SetLocal => crh_of(
            params,
            seq![
                crh_of(params, seq![fe_of(5), bit_of(w.sel), w.pc_tail]),
                crh_of(params, seq![w.a, w.rest]),
                crh_of(params, seq![w.l0, w.l1]),
                w.control,
            ],
        ),
        OpKind::Loop => crh_of(
            params,
            seq![
                crh_of(params, seq![fe_of(8), w.cont, w.pc_tail]),
                w.rest,
                w.locals,
                w.control,
            ],
        ),
        OpKind::End => crh_of(
            params,
            seq![
                crh_of(params, seq![fe_of(9), w.pc_tail]),
                w.rest,
                w.locals,
                crh_of(
                    params,
                    seq![crh_of(params, seq![fe_of(1), w.cont, w.start]), w.control],
                ),
            ],
        ),
        OpKind::BreakYes => crh_of(
            params,
            seq![
                crh_of(params, seq![fe_of(7), fe_of(0), w.pc_tail]),
                crh_of(params, seq![w.a, w.rest]),
                w.locals,
                crh_of(
                    params,
                    seq![crh_of(params, seq![fe_of(1), w.cont, w.start]), w.control],
                ),
            ],
        ),
        OpKind::BreakNo => crh_of(
            params,
            seq![
                crh_of(params, seq![fe_of(7), fe_of(0), w.pc_tail]),
                crh_of(params, seq![w.a, w.rest]),
                w.locals,
                w.control,
            ],
        ),
    }
}

/// The after-state commitment an opcode circuit recomputes from its
/// witness.
pub open spec fn witness_after_of(params: HashParams, k: OpKind, w: StepWitness) -> Fe {
    match k {
        OpKind::Add => crh_of(
            params,
            seq![
                w.pc_tail,
                crh_of(params, seq![fe_add_of(w.a, w.b), w.rest]),
                w.locals,
                w.control,
            ],
        ),
        OpKind::Sub => crh_of(
            params,
            seq![
                w.pc_tail,
                crh_of(params, seq![fe_sub_of(w.b, w.a), w.rest]),
                w.locals,
                w.control,
            ],
        ),
        OpKind::Gt => crh_of(
            params,
            seq![w.pc_tail, crh_of(params, seq![w.res, w.rest]), w.locals, w.control],
        ),
        OpKind::Const => crh_of(
            params,
            seq![w.pc_tail, crh_of(params, seq![w.a, w.rest]), w.locals, w.control],
        ),
        OpKind::GetLocal => crh_of(
            params,
            seq![
                w.pc_tail,
                crh_of(
                    params,
                    seq![
                        if w.sel {
                            w.l1
                        } else {
                            w.l0
                        },
                        w.rest,
                    ],
                ),
                crh_of(params, seq![w.l0, w.l1]),
                w.control,
            ],
        ),
        OpKind::SetLocal => crh_of(
            params,
            seq![
                w.pc_tail,
                w.rest,
                crh_of(
                    params,
                    seq![
                        if w.sel {
                            w.l0
                        } else {
                            w.a
                        },
                        if w.sel {
                            w.a
                        } else {
                            w.l1
                        },
                    ],
                ),
                w.control,
            ],
        ),
        OpKind::Loop => crh_of(
            params,
            seq![
                w.pc_tail,
                w.rest,
                w.locals,
                crh_of(
                    params,
                    seq![crh_of(params, seq![fe_of(1), w.cont, w.start]), w.control],
                ),
            ],
        ),
        OpKind::End => crh_of(params, seq![w.cont, w.rest, w.locals, w.control]),
        OpKind::BreakYes => crh_of(params, seq![w.start, w.rest, w.locals, w.control]),
        OpKind::BreakNo => crh_of(
            params,
            seq![w.pc_tail, w.rest, w.locals, w.control],
        ),
    }
}

/// The side constraints an opcode circuit enforces beyond the hash
/// recomputation: a taken break saw a non-zero top of stack, an
/// untaken one a zero.  The comparison result of a greater-than is not
/// constrained, only hashed in.
pub open spec fn witness_ok_of(k: OpKind, w: StepWitness) -> bool {
    match k {
        OpKind::BreakYes => w.a != fe_of(0),
        OpKind::BreakNo => w.a == fe_of(0),
        _ => true,
    }
}

/// The satisfaction relation of one opcode circuit: the witness meets
/// the opcode's side constraints and the public input is exactly the
/// compression of the two recomputed commitments.
pub open spec fn circuit_holds_of(params: HashParams, k: OpKind, w: StepWitness, public: Fe) -> bool {
    witness_ok_of(k, w) && public == compress_of(
        params,
        witness_before_of(params, k, w),
        witness_after_of(params, k, w),
    )
}


/// The natural witness of a step: the literal operands the opcode
/// consumed and the commitments of whatever it left untouched.
pub open spec fn natural_witness_of(params: HashParams, v: VmV) -> StepWitness {
    let n = v.stack.len() as int;
    let base = StepWitness {
        a: fe_of(0),
        b: fe_of(0),
        res: fe_of(0),
        sel: false,
        rest: stack_hash_of(params, v.stack),
        l0: fe_of(0),
        l1: fe_of(0),
        locals: locals_hash_of(params, v.locals),
        control: control_hash_of(params, v.control),
        pc_tail: hash_code_of(params, v.pc.skip(1)),
        cont: fe_of(0),
        start: fe_of(0),
    };
    match v.pc[0] {
        CodeV::Add => StepWitness {
            a: fe_of(v.stack[n - 1] as u64),
            b: fe_of(v.stack[n - 2] as u64),
            rest: stack_hash_of(params, v.stack.take(n - 2)),
            ..base
        },
        CodeV::Sub => StepWitness {
            a: fe_of(v.stack[n - 1] as u64),
            b: fe_of(v.stack[n - 2] as u64),
            rest: stack_hash_of(params, v.stack.take(n - 2)),
            ..base
        },
        CodeV::Gt => StepWitness {
            a: fe_of(v.stack[n - 1] as u64),
            b: fe_of(v.stack[n - 2] as u64),
            res: if v.stack[n - 1] < v.stack[n - 2] {
                fe_of(1)
            } else {
                fe_of(0)
            },
            rest: stack_hash_of(params, v.stack.take(n - 2)),
            ..base
        },
        CodeV::Const(x) => StepWitness { a: fe_of(x as u64), ..base },
        CodeV::GetLocal(x) => StepWitness {
            sel: x == 1,
            l0: fe_of(v.locals[0] as u64),
            l1: fe_of(v.locals[1] as u64),
            ..base
        },
        CodeV::SetLocal(x) => StepWitness {
            a: fe_of(v.stack[n - 1] as u64),
            sel: x == 1,
            l0: fe_of(v.locals[0] as u64),
            l1: fe_of(v.locals[1] as u64),
            rest: stack_hash_of(params, v.stack.take(n - 1)),
            ..base
        },
        CodeV::Loop(cont) => StepWitness {
            cont: hash_code_of(params, cont),
            start: hash_code_of(params, v.pc),
            ..base
        },
        CodeV::End => match v.control.last() {
            FrameV::LoopFrame(c1, st) => StepWitness {
                cont: hash_code_of(params, c1),
                start: hash_code_of(params, st),
                control: control_hash_of(params, v.control.drop_last()),
                ..base
            },
        },
        CodeV::BreakIf(_) => {
            if v.stack[n - 1] != 0 {
                match v.control.last() {
                    FrameV::LoopFrame(c1, st) => StepWitness {
                        a: fe_of(v.stack[n - 1] as u64),
                        rest: stack_hash_of(params, v.stack.take(n - 1)),
                        cont: hash_code_of(params, c1),
                        start: hash_code_of(params, st),
                        control: control_hash_of(params, v.control.drop_last()),
                        ..base
                    },
                }
            } else {
                StepWitness {
                    a: fe_of(v.stack[n - 1] as u64),
                    rest: stack_hash_of(params, v.stack.take(n - 1)),
                    ..base
                }
            }
        },
    }
}

/// The natural witness of a machine about to step, as
/// `natural_witness_of` states it.
pub fn natural_witness(params: &HashParams, vm: &VM) -> (r: StepWitness)
    requires
        params_wf(*params),
        vm@.pc.len() > 0,
        step_ok(vm@),
        (vm@.pc[0] is GetLocal || vm@.pc[0] is SetLocal) ==> vm@.locals.len() == 2,
        vm@.pc[0] is End ==> vm@.control.len() >= 1,
    ensures
        r == natural_witness_of(*params, vm@),
{
    let n = vm.expr_stack.len();
    proof {
        crate::code::lemma_codes_view(vm.pc@);
        crate::vm::lemma_codes_view_skip(vm.pc@, 1);
    }
    let base = StepWitness {
        a: fe_u64(0),
        b: fe_u64(0),
        res: fe_u64(0),
        sel: false,
        rest: vm.hash_stack(params),
        l0: fe_u64(0),
        l1: fe_u64(0),
        locals: vm.hash_locals(params),
        control: vm.hash_control(params),
        pc_tail: crate::code::hash_code_from(params, &vm.pc, 1),
        cont: fe_u64(0),
        start: fe_u64(0),
    };
    match &vm.pc[0] {
        CodeTree::CAdd => StepWitness {
            a: fe_u64(vm.expr_stack[n - 1] as u64),
            b: fe_u64(vm.expr_stack[n - 2] as u64),
            rest: crate::vm::hash_stack_prefix(params, &vm.expr_stack, n - 2),
            ..base
        },
        CodeTree::CSub => StepWitness {
            a: fe_u64(vm.expr_stack[n - 1] as u64),
            b: fe_u64(vm.expr_stack[n - 2] as u64),
            rest: crate::vm::hash_stack_prefix(params, &vm.expr_stack, n - 2),
            ..base
        },
        CodeTree::CGt => StepWitness {
            a: fe_u64(vm.expr_stack[n - 1] as u64),
            b: fe_u64(vm.expr_stack[n - 2] as u64),
            res: if vm.expr_stack[n - 1] < vm.expr_stack[n - 2] {
                fe_u64(1)
            } else {
                fe_u64(0)
            },
            rest: crate::vm::hash_stack_prefix(params, &vm.expr_stack, n - 2),
            ..base
        },
        CodeTree::CConst(x) => StepWitness { a: fe_u64(*x as u64), ..base },
        CodeTree::CGetLocal(x) => StepWitness {
            sel: *x == 1,
            l0: fe_u64(vm.locals[0] as u64),
            l1: fe_u64(vm.locals[1] as u64),
            ..base
        },
        CodeTree::CSetLocal(x) => StepWitness {
            a: fe_u64(vm.expr_stack[n - 1] as u64),
            sel: *x == 1,
            l0: fe_u64(vm.locals[0] as u64),
            l1: fe_u64(vm.locals[1] as u64),
            rest: crate::vm::hash_stack_prefix(params, &vm.expr_stack, n - 1),
            ..base
        },
        CodeTree::CLoop(cont) => StepWitness {
            cont: crate::code::hash_code(params, cont),
            start: crate::code::hash_code(params, &vm.pc),
            ..base
        },
        CodeTree::CEnd => {
            let frame = &vm.control_stack[vm.control_stack.len() - 1];
            proof {
                assert(crate::code::frames_view(vm.control_stack@).last() == crate::code::frame_view(
                    vm.control_stack@.last(),
                ));
                assert(crate::code::frames_view(vm.control_stack@).take(
                    vm.control_stack@.len() - 1,
                ) =~= crate::code::frames_view(vm.control_stack@).drop_last());
            }
            match frame {
                crate::code::ControlFrame::LoopFrame(c1, st) => StepWitness {
                    cont: crate::code::hash_code(params, c1),
                    start: crate::code::hash_code(params, st),
                    control: crate::vm::hash_control_prefix(
                        params,
                        &vm.control_stack,
                        vm.control_stack.len() - 1,
                    ),
                    ..base
                },
            }
        },
        CodeTree::CBreakIf(_) => {
            let top = vm.expr_stack[n - 1];
            if top != 0 {
                proof {
                    assert(crate::code::frames_view(vm.control_stack@).last()
                        == crate::code::frame_view(vm.control_stack@.last()));
                    assert(crate::code::frames_view(vm.control_stack@).take(
                        vm.control_stack@.len() - 1,
                    ) =~= crate::code::frames_view(vm.control_stack@).drop_last());
                }
                let frame = &vm.control_stack[vm.control_stack.len() - 1];
                match frame {
                    crate::code::ControlFrame::LoopFrame(c1, st) => StepWitness {
                        a: fe_u64(top as u64),
                        rest: crate::vm::hash_stack_prefix(params, &vm.expr_stack, n - 1),
                        cont: crate::code::hash_code(params, c1),
                        start: crate::code::hash_code(params, st),
                        control: crate::vm::hash_control_prefix(
                            params,
                            &vm.control_stack,
                            vm.control_stack.len() - 1,
                        ),
                        ..base
                    },
                }
            } else {
                StepWitness {
                    a: fe_u64(top as u64),
                    rest: crate::vm::hash_stack_prefix(params, &vm.expr_stack, n - 1),
                    ..base
                }
            }
        },
    }
}

/// Decides the opcode circuit relation, as `circuit_holds_of` states it.
pub fn circuit_holds(params: &HashParams, k: OpKind, w: &StepWitness, public: &Fe) -> (r: bool)
    requires
        params_wf(*params),
    ensures
        r == circuit_holds_of(*params, k, *w, *public),
{
    let zero = fe_u64(0);
    let one = fe_u64(1);
    let bit = if w.sel {
        fe_u64(1)
    } else {
        fe_u64(0)
    };
    let (before, after, ok) = match k {
        OpKind::Add => {
            let pc_before = crh(params, &vec![one, w.pc_tail]);
            let st_before = crh(params, &vec![w.a, crh(params, &vec![w.b, w.rest])]);
            let st_after = crh(params, &vec![crate::field::fe_add(w.a, w.b), w.rest]);
            (
                crh(params, &vec![pc_before, st_before, w.locals, w.control]),
                crh(params, &vec![w.pc_tail, st_after, w.locals, w.control]),
                true,
            )
        },
        OpKind::Sub => {
            let pc_before = crh(params, &vec![fe_u64(2), w.pc_tail]);
            let st_before = crh(params, &vec![w.a, crh(params, &vec![w.b, w.rest])]);
            let st_after = crh(params, &vec![crate::field::fe_sub(w.b, w.a), w.rest]);
            (
                crh(params, &vec![pc_before, st_before, w.locals, w.control]),
                crh(params, &vec![w.pc_tail, st_after, w.locals, w.control]),
                true,
            )
        },
        OpKind::Gt => {
            let pc_before = crh(params, &vec![fe_u64(3), w.pc_tail]);
            let st_before = crh(params, &vec![w.a, crh(params, &vec![w.b, w.rest])]);
            let st_after = crh(params, &vec![w.res, w.rest]);
            (
                crh(params, &vec![pc_before, st_before, w.locals, w.control]),
                crh(params, &vec![w.pc_tail, st_after, w.locals, w.control]),
                true,
            )
        },
        OpKind::Const => {
            let pc_before = crh(params, &vec![fe_u64(6), w.a, w.pc_tail]);
            let st_after = crh(params, &vec![w.a, w.rest]);
            (
                crh(params, &vec![pc_before, w.rest, w.locals, w.control]),
                crh(params, &vec![w.pc_tail, st_after, w.locals, w.control]),
                true,
            )
        },
        OpKind::GetLocal => {
            let pc_before = crh(params, &vec![fe_u64(4), bit, w.pc_tail]);
            let locals = crh(params, &vec![w.l0, w.l1]);
            let read = if w.sel {
                w.l1
            } else {
                w.l0
            };
            let st_after = crh(params, &vec![read, w.rest]);
            (
                crh(params, &vec![pc_before, w.rest, locals, w.control]),
                crh(params, &vec![w.pc_tail, st_after, locals, w.control]),
                true,
            )
        },
        OpKind::SetLocal => {
            let pc_before = crh(params, &vec![fe_u64(5), bit, w.pc_tail]);
            let locals_before = crh(params, &vec![w.l0, w.l1]);
            let la = if w.sel {
                w.l0
            } else {
                w.a
            };
            let lb = if w.sel {
                w.a
            } else {
                w.l1
            };
            let locals_after = crh(params, &vec![la, lb]);
            let st_before = crh(params, &vec![w.a, w.rest]);
            (
                crh(params, &vec![pc_before, st_before, locals_before, w.control]),
                crh(params, &vec![w.pc_tail, w.rest, locals_after, w.control]),
                true,
            )
        },
        OpKind::Loop => {
            let pc_before = crh(params, &vec![fe_u64(8), w.cont, w.pc_tail]);
            let frame = crh(params, &vec![one, w.cont, w.start]);
            let control_after = crh(params, &vec![frame, w.control]);
            (
                crh(params, &vec![pc_before, w.rest, w.locals, w.control]),
                crh(params, &vec![w.pc_tail, w.rest, w.locals, control_after]),
                true,
            )
        },
        OpKind::End => {
            let pc_before = crh(params, &vec![fe_u64(9), w.pc_tail]);
            let frame = crh(params, &vec![one, w.cont, w.start]);
            let control_before = crh(params, &vec![frame, w.control]);
            (
                crh(params, &vec![pc_before, w.rest, w.locals, control_before]),
                crh(params, &vec![w.cont, w.rest, w.locals, w.control]),
                true,
            )
        },
        OpKind::BreakYes => {
            let pc_before = crh(params, &vec![fe_u64(7), zero, w.pc_tail]);
            let st_before = crh(params, &vec![w.a, w.rest]);
            let frame = crh(params, &vec![one, w.cont, w.start]);
            let control_before = crh(params, &vec![frame, w.control]);
            (
                crh(params, &vec![pc_before, st_before, w.locals, control_before]),
                crh(params, &vec![w.start, w.rest, w.locals, w.control]),
                !crate::field::fe_eq(&w.a, &zero),
            )
        },
        OpKind::BreakNo => {
            let pc_before = crh(params, &vec![fe_u64(7), zero, w.pc_tail]);
            let st_before = crh(params, &vec![w.a, w.rest]);
            (
                crh(params, &vec![pc_before, st_before, w.locals, w.control]),
                crh(params, &vec![w.pc_tail, w.rest, w.locals, w.control]),
                crate::field::fe_eq(&w.a, &zero),
            )
        },
    };
    let pair = crh(params, &vec![before, after]);
    ok && crate::field::fe_eq(public, &pair)
}


/// For every valid step of the machine, the matching opcode circuit is
/// satisfiable with the natural witness and the computed public hash:
/// the returned witness meets the circuit relation against the
/// compression of the two state commitments of the step.  Conditional
/// breaks are covered at depth zero, the depth the break circuit hashes
/// as a constant, and the locals gadgets address the two-entry locals
/// array the machine is created with.
pub fn prove_step_satisfiable(params: &HashParams, vm: &VM) -> (w: StepWitness)
    requires
        params_wf(*params),
        vm@.pc.len() > 0,
        step_ok(vm@),
        step_kind(vm@) is Some,
        (vm@.pc[0] is GetLocal || vm@.pc[0] is SetLocal) ==> vm@.locals.len() == 2,
        vm@.pc[0] matches CodeV::BreakIf(num) ==> num == 0,
    ensures
        w == natural_witness_of(*params, vm@),
        step_kind(vm@) matches Option::Some(k) ==> circuit_holds_of(
            *params,
            k,
            w,
            compress_of(*params, vm_hash_of(*params, vm@), vm_hash_of(*params, step_vm(vm@))),
        ),
{
    let ghost v = vm@;
    let ghost n = v.stack.len() as int;
    let w = natural_witness(params, vm);
    let nst = vm.expr_stack.len();
    proof {
        crate::code::lemma_codes_view(vm.pc@);
    }
    match &vm.pc[0] {
        CodeTree::CAdd => {
            let s = crate::field::fe_add(w.a, w.b);
            proof {
                let sv = step_vm(v);
                crate::vm::lemma_stack_hash_unfold(*params, v.stack);
                crate::vm::lemma_stack_hash_unfold(*params, v.stack.drop_last());
                assert(v.stack.drop_last().drop_last() =~= v.stack.take(n - 2));
                crate::vm::lemma_stack_hash_unfold(*params, sv.stack);
                assert(sv.stack.drop_last() =~= v.stack.take(n - 2));
                assert(s == fe_of(((v.stack[n - 1] + v.stack[n - 2]) as u32) as u64));
            }
        },
        CodeTree::CSub => {
            let s = crate::field::fe_sub(w.b, w.a);
            proof {
                let sv = step_vm(v);
                crate::vm::lemma_stack_hash_unfold(*params, v.stack);
                crate::vm::lemma_stack_hash_unfold(*params, v.stack.drop_last());
                assert(v.stack.drop_last().drop_last() =~= v.stack.take(n - 2));
                crate::vm::lemma_stack_hash_unfold(*params, sv.stack);
                assert(sv.stack.drop_last() =~= v.stack.take(n - 2));
                assert(s == fe_of(((v.stack[n - 2] - v.stack[n - 1]) as u32) as u64));
            }
        },
        CodeTree::CGt => {
            proof {
                let sv = step_vm(v);
                crate::vm::lemma_stack_hash_unfold(*params, v.stack);
                crate::vm::lemma_stack_hash_unfold(*params, v.stack.drop_last());
                assert(v.stack.drop_last().drop_last() =~= v.stack.take(n - 2));
                crate::vm::lemma_stack_hash_unfold(*params, sv.stack);
                assert(sv.stack.drop_last() =~= v.stack.take(n - 2));
            }
        },
        CodeTree::CConst(x) => {
            proof {
                let sv = step_vm(v);
                crate::vm::lemma_stack_hash_unfold(*params, sv.stack);
                assert(sv.stack.drop_last() =~= v.stack);
            }
        },
        CodeTree::CGetLocal(x) => {
            proof {
                let sv = step_vm(v);
                assert(words_view(v.locals) =~= seq![
                    fe_of(v.locals[0] as u64),
                    fe_of(v.locals[1] as u64),
                ]);
                crate::vm::lemma_stack_hash_unfold(*params, sv.stack);
                assert(sv.stack.drop_last() =~= v.stack);
                assert((*x as int) < 2);
            }
        },
        CodeTree::CSetLocal(x) => {
            proof {
                let sv = step_vm(v);
                assert(words_view(v.locals) =~= seq![
                    fe_of(v.locals[0] as u64),
                    fe_of(v.locals[1] as u64),
                ]);
                crate::vm::lemma_stack_hash_unfold(*params, v.stack);
                assert(v.stack.drop_last() =~= v.stack.take(n - 1));
                assert((*x as int) < 2);
                if *x == 1 {
                    assert(sv.locals =~= seq![v.locals[0], v.stack[n - 1]]);
                } else {
                    assert(sv.locals =~= seq![v.stack[n - 1], v.locals[1]]);
                }
                assert(words_view(sv.locals) =~= seq![
                    fe_of(sv.locals[0] as u64),
                    fe_of(sv.locals[1] as u64),
                ]);
            }
        },
        CodeTree::CLoop(cont) => {
            proof {
                let sv = step_vm(v);
                crate::vm::lemma_control_hash_unfold(*params, sv.control);
                assert(sv.control.drop_last() =~= v.control);
                assert(sv.control.last() == FrameV::LoopFrame(
                    v.pc[0]->Loop_0,
                    v.pc,
                ));
            }
        },
        CodeTree::CEnd => {
            proof {
                let sv = step_vm(v);
                crate::vm::lemma_control_hash_unfold(*params, v.control);
            }
        },
        CodeTree::CBreakIf(num) => {
            let top = vm.expr_stack[nst - 1];
            if top != 0 {
                let fa = fe_u64(top as u64);
                let f0 = fe_u64(0);
                proof {
                    let sv = step_vm(v);
                    assert(w.a == fa);
                    if w.a == fe_of(0) {
                        assert(top as u64 == 0);
                    }
                    crate::vm::lemma_stack_hash_unfold(*params, v.stack);
                    assert(v.stack.drop_last() =~= v.stack.take(n - 1));
                    crate::vm::lemma_control_hash_unfold(*params, v.control);
                    assert(v.control.take(v.control.len() - 1) =~= v.control.drop_last());
                }
            } else {
                proof {
                    crate::vm::lemma_stack_hash_unfold(*params, v.stack);
                    assert(v.stack.drop_last() =~= v.stack.take(n - 1));
                }
            }
        },
    }
    w
}

} // verus!
