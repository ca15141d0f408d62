//! The stack machine, its state commitment, and the verified step
//! function that produces one transition per executed operation.
//!
//! A state is committed by one hash over the commitments of its four
//! parts: the code pointer, the value stack, the locals and the control
//! stack.  A transition's public identity is the compression of its two
//! state commitments.

use vstd::prelude::*;

use crate::code::{
    code_view, codes_view, copy_codes, copy_frames, frame_hash_of, frame_view, frames_view, hash_code, hash_code_of,
    hash_list, hash_list_of, hash_many, hash_many_of, lemma_codes_view, CodeTree, CodeV,
    ControlFrame, FrameV,
};
use crate::field::{compress_of, crh, crh_of, fe_of, fe_u64, params_wf, Fe, HashParams};

verus! {

/// The mathematical mirror of a machine state.
pub ghost struct VmV {
    pub stack: Seq<u32>,
    pub locals: Seq<u32>,
    pub control: Seq<FrameV>,
    pub pc: Seq<CodeV>,
    pub steps: nat,
}

/// A machine state: value stack, locals, control frames, remaining code
/// and the number of steps taken so far.
pub struct VM {
    pub expr_stack: Vec<u32>,
    pub locals: Vec<u32>,
    pub control_stack: Vec<ControlFrame>,
    pub pc: Vec<CodeTree>,
    pub step_counter: usize,
}

impl View for VM {
    type V = VmV;

    open spec fn view(&self) -> VmV {
        VmV {
            stack: self.expr_stack@,
            locals: self.locals@,
            control: frames_view(self.control_stack@),
            pc: codes_view(self.pc@),
            steps: self.step_counter as nat,
        }
    }
}

/// An immutable (before, after) state pair, created once per step.
pub struct Transition {
    pub before: VM,
    pub after: VM,
}

/// The mathematical mirror of a transition.
pub ghost struct TransV {
    pub before: VmV,
    pub after: VmV,
}

impl View for Transition {
    type V = TransV;

    open spec fn view(&self) -> TransV {
        TransV { before: self.before@, after: self.after@ }
    }
}

/// The value list a word list stands for, embedded into the field.
pub open spec fn words_view(s: Seq<u32>) -> Seq<Fe> {
    Seq::new(s.len(), |i: int| fe_of(s[i] as u64))
}

/// The frame commitments of a control stack.
pub open spec fn frame_hashes_of(params: HashParams, s: Seq<FrameV>) -> Seq<Fe> {
    Seq::new(s.len(), |i: int| frame_hash_of(params, s[i]))
}

/// Commitment of the value stack.
pub open spec fn stack_hash_of(params: HashParams, s: Seq<u32>) -> Fe {
    hash_list_of(params, words_view(s))
}

/// Commitment of the locals.
pub open spec fn locals_hash_of(params: HashParams, s: Seq<u32>) -> Fe {
    hash_many_of(params, words_view(s))
}

/// Commitment of the control stack.
pub open spec fn control_hash_of(params: HashParams, s: Seq<FrameV>) -> Fe {
    hash_list_of(params, frame_hashes_of(params, s))
}

/// The state commitment: a pure function of the state.
pub open spec fn vm_hash_of(params: HashParams, v: VmV) -> Fe {
    crh_of(
        params,
        seq![
            hash_code_of(params, v.pc),
            stack_hash_of(params, v.stack),
            locals_hash_of(params, v.locals),
            control_hash_of(params, v.control),
        ],
    )
}

/// The public identity of a transition.
pub open spec fn transition_hash_of(params: HashParams, t: TransV) -> Fe {
    compress_of(params, vm_hash_of(params, t.before), vm_hash_of(params, t.after))
}

/// Which opcode a step executed, named by the transition list it is
/// collected into.
pub enum OpKind {
    Add,
    Sub,
    Gt,
    Const,
    GetLocal,
    SetLocal,
    Loop,
    End,
    BreakYes,
    BreakNo,
}

/// The inputs on which a step neither panics nor overflows: enough
/// operands on the stacks, locals indices in range, and sums and
/// differences inside the 32-bit domain.
pub open spec fn step_ok(v: VmV) -> bool {
    let n = v.stack.len() as int;
    v.pc.len() > 0 ==> (v.steps + 1 <= usize::MAX && (match v.pc[0] {
        CodeV::Add => n >= 2 && v.stack[n - 1] + v.stack[n - 2] <= u32::MAX,
        CodeV::Sub => n >= 2 && v.stack[n - 2] >= v.stack[n - 1],
        CodeV::Gt => n >= 2,
        CodeV::Const(_) => true,
        CodeV::GetLocal(x) => x < v.locals.len(),
        CodeV::SetLocal(x) => n >= 1 && x < v.locals.len(),
        CodeV::Loop(_) => true,
        CodeV::End => true,
        CodeV::BreakIf(num) => n >= 1 && (v.stack[n - 1] != 0 ==> num < v.control.len()),
    }))
}

/// The successor state of one step on a non-empty code pointer.
pub open spec fn step_vm(v: VmV) -> VmV {
    let n = v.stack.len() as int;
    let steps = (v.steps + 1) as nat;
    match v.pc[0] {
        CodeV::Add => VmV {
            stack: v.stack.take(n - 2).push(((v.stack[n - 1] + v.stack[n - 2]) as u32)),
            pc: v.pc.skip(1),
            steps,
            ..v
        },
        CodeV::Sub => VmV {
            stack: v.stack.take(n - 2).push(((v.stack[n - 2] - v.stack[n - 1]) as u32)),
            pc: v.pc.skip(1),
            steps,
            ..v
        },
        CodeV::Gt => VmV {
            stack: v.stack.take(n - 2).push(
                if v.stack[n - 1] < v.stack[n - 2] {
                    1u32
                } else {
                    0u32
                },
            ),
            pc: v.pc.skip(1),
            steps,
            ..v
        },
        CodeV::Const(x) => VmV { stack: v.stack.push(x), pc: v.pc.skip(1), steps, ..v },
        CodeV::GetLocal(x) => VmV {
            stack: v.stack.push(v.locals[x as int]),
            pc: v.pc.skip(1),
            steps,
            ..v
        },
        CodeV::SetLocal(x) => VmV {
            stack: v.stack.take(n - 1),
            locals: v.locals.update(x as int, v.stack[n - 1]),
            pc: v.pc.skip(1),
            steps,
            ..v
        },
        CodeV::Loop(cont) => VmV {
            control: v.control.push(FrameV::LoopFrame(cont, v.pc)),
            pc: v.pc.skip(1),
            steps,
            ..v
        },
        CodeV::End => {
            if v.control.len() == 0 {
                VmV { steps, ..v }
            } else {
                match v.control.last() {
                    FrameV::LoopFrame(c1, _) => VmV {
                        control: v.control.drop_last(),
                        pc: c1,
                        steps,
                        ..v
                    },
                }
            }
        },
        CodeV::BreakIf(num) => {
            if v.stack[n - 1] != 0 {
                let k = v.control.len() - 1 - num;
                match v.control[k] {
                    FrameV::LoopFrame(_, c1) => VmV {
                        stack: v.stack.take(n - 1),
                        control: v.control.take(k),
                        pc: c1,
                        steps,
                        ..v
                    },
                }
            } else {
                VmV { stack: v.stack.take(n - 1), pc: v.pc.skip(1), steps, ..v }
            }
        },
    }
}

/// The state a step leaves behind: unchanged on an empty code pointer.
pub open spec fn step_result(v: VmV) -> VmV {
    if v.pc.len() == 0 {
        v
    } else {
        step_vm(v)
    }
}

/// Which transition list a step's (before, after) pair is recorded in;
/// none on an empty code pointer, and none for an end operation with no
/// open control frame.
pub open spec fn step_kind(v: VmV) -> Option<OpKind> {
    if v.pc.len() == 0 {
        Option::None
    } else {
        match v.pc[0] {
            CodeV::Add => Option::Some(OpKind::Add),
            CodeV::Sub => Option::Some(OpKind::Sub),
            CodeV::Gt => Option::Some(OpKind::Gt),
            CodeV::Const(_) => Option::Some(OpKind::Const),
            CodeV::GetLocal(_) => Option::Some(OpKind::GetLocal),
            CodeV::SetLocal(_) => Option::Some(OpKind::SetLocal),
            CodeV::Loop(_) => Option::Some(OpKind::Loop),
            CodeV::End => if v.control.len() == 0 {
                Option::None
            } else {
                Option::Some(OpKind::End)
            },
            CodeV::BreakIf(_) => if v.stack[v.stack.len() - 1] != 0 {
                Option::Some(OpKind::BreakYes)
            } else {
                Option::Some(OpKind::BreakNo)
            },
        }
    }
}

/// One list of transitions per opcode, filled while the machine runs.
pub struct Collector {
    pub add: Vec<Transition>,
    pub sub: Vec<Transition>,
    pub gt: Vec<Transition>,
    pub constant: Vec<Transition>,
    pub get: Vec<Transition>,
    pub set: Vec<Transition>,
    pub loopi: Vec<Transition>,
    pub endi: Vec<Transition>,
    pub breakno: Vec<Transition>,
    pub breakyes: Vec<Transition>,
}

/// The mathematical mirror of a collector.
pub ghost struct CollV {
    pub add: Seq<TransV>,
    pub sub: Seq<TransV>,
    pub gt: Seq<TransV>,
    pub constant: Seq<TransV>,
    pub get: Seq<TransV>,
    pub set: Seq<TransV>,
    pub loopi: Seq<TransV>,
    pub endi: Seq<TransV>,
    pub breakno: Seq<TransV>,
    pub breakyes: Seq<TransV>,
}

/// The values a transition list stands for.
pub open spec fn transs_view(s: Seq<Transition>) -> Seq<TransV> {
    Seq::new(s.len(), |i: int| s[i]@)
}

impl View for Collector {
    type V = CollV;

    open spec fn view(&self) -> CollV {
        CollV {
            add: transs_view(self.add@),
            sub: transs_view(self.sub@),
            gt: transs_view(self.gt@),
            constant: transs_view(self.constant@),
            get: transs_view(self.get@),
            set: transs_view(self.set@),
            loopi: transs_view(self.loopi@),
            endi: transs_view(self.endi@),
            breakno: transs_view(self.breakno@),
            breakyes: transs_view(self.breakyes@),
        }
    }
}

/// The collector after one step: the step's transition appended to the
/// list its opcode belongs to.
pub open spec fn collector_after(c: CollV, k: Option<OpKind>, t: TransV) -> CollV {
    match k {
        Option::None => c,
        Option::Some(OpKind::Add) => CollV { add: c.add.push(t), ..c },
        Option::Some(OpKind::Sub) => CollV { sub: c.sub.push(t), ..c },
        Option::Some(OpKind::Gt) => CollV { gt: c.gt.push(t), ..c },
        Option::Some(OpKind::Const) => CollV { constant: c.constant.push(t), ..c },
        Option::Some(OpKind::GetLocal) => CollV { get: c.get.push(t), ..c },
        Option::Some(OpKind::SetLocal) => CollV { set: c.set.push(t), ..c },
        Option::Some(OpKind::Loop) => CollV { loopi: c.loopi.push(t), ..c },
        Option::Some(OpKind::End) => CollV { endi: c.endi.push(t), ..c },
        Option::Some(OpKind::BreakYes) => CollV { breakyes: c.breakyes.push(t), ..c },
        Option::Some(OpKind::BreakNo) => CollV { breakno: c.breakno.push(t), ..c },
    }
}

fn copy_words(v: &Vec<u32>) -> (r: Vec<u32>)
    ensures
        r@ == v@,
{
    let mut r: Vec<u32> = Vec::new();
    let n = v.len();
    for i in 0..n
        invariant
            n == v@.len(),
            r@ =~= v@.take(i as int),
    {
        r.push(v[i]);
        assert(r@ =~= v@.take(i + 1));
    }
    assert(v@.take(n as int) =~= v@);
    r
}

impl Clone for VM {
    /// A deep copy that stands for the same machine state.
    fn clone(&self) -> (r: Self)
        ensures
            r@ == self@,
    {
        VM {
            expr_stack: copy_words(&self.expr_stack),
            locals: copy_words(&self.locals),
            control_stack: copy_frames(&self.control_stack),
            pc: copy_codes(&self.pc),
            step_counter: self.step_counter,
        }
    }
}

impl Clone for Transition {
    /// A deep copy that stands for the same transition.
    fn clone(&self) -> (r: Self)
        ensures
            r@ == self@,
    {
        Transition { before: self.before.clone(), after: self.after.clone() }
    }
}

/// `codes_view` commutes with dropping a prefix.
pub proof fn lemma_codes_view_skip(s: Seq<CodeTree>, k: int)
    requires
        0 <= k <= s.len(),
    ensures
        codes_view(s.skip(k)) == codes_view(s).skip(k),
{
    lemma_codes_view(s);
    lemma_codes_view(s.skip(k));
    assert forall|i: int| 0 <= i < s.len() - k implies codes_view(s.skip(k))[i] == codes_view(
        s,
    ).skip(k)[i] by {
        assert(s.skip(k)[i] == s[k + i]);
        assert(codes_view(s.skip(k))[i] == code_view(s.skip(k)[i]));
        assert(codes_view(s)[k + i] == code_view(s[k + i]));
    }
    assert(codes_view(s.skip(k)) =~= codes_view(s).skip(k));
}

impl VM {
    /// A fresh machine over the given code: empty stacks, two zeroed
    /// locals, step counter zero.
    pub fn new(code: Vec<CodeTree>) -> (r: VM)
        ensures
            r@ == (VmV {
                stack: Seq::<u32>::empty(),
                locals: seq![0u32, 0u32],
                control: Seq::<FrameV>::empty(),
                pc: codes_view(code@),
                steps: 0,
            }),
    {
        let mut locals: Vec<u32> = Vec::new();
        locals.push(0);
        locals.push(0);
        let r = VM {
            expr_stack: Vec::new(),
            locals,
            control_stack: Vec::new(),
            pc: code,
            step_counter: 0,
        };
        proof {
            assert(r@.stack =~= Seq::<u32>::empty());
            assert(r@.locals =~= seq![0u32, 0u32]);
            assert(r@.control =~= Seq::<FrameV>::empty());
        }
        r
    }

    /// Commitment of the value stack, as `stack_hash_of` states it.
    pub fn hash_stack(&self, params: &HashParams) -> (r: Fe)
        requires
            params_wf(*params),
        ensures
            r == stack_hash_of(*params, self@.stack),
    {
        let mut fes: Vec<Fe> = Vec::new();
        let n = self.expr_stack.len();
        for i in 0..n
            invariant
                params_wf(*params),
                n == self.expr_stack@.len(),
                fes@ =~= words_view(self.expr_stack@).take(i as int),
        {
            fes.push(fe_u64(self.expr_stack[i] as u64));
            assert(fes@ =~= words_view(self.expr_stack@).take(i + 1));
        }
        assert(words_view(self.expr_stack@).take(n as int) =~= words_view(self.expr_stack@));
        hash_list(params, &fes)
    }

    /// Commitment of the locals, as `locals_hash_of` states it.
    pub fn hash_locals(&self, params: &HashParams) -> (r: Fe)
        requires
            params_wf(*params),
        ensures
            r == locals_hash_of(*params, self@.locals),
    {
        let mut fes: Vec<Fe> = Vec::new();
        let n = self.locals.len();
        for i in 0..n
            invariant
                params_wf(*params),
                n == self.locals@.len(),
                fes@ =~= words_view(self.locals@).take(i as int),
        {
            fes.push(fe_u64(self.locals[i] as u64));
            assert(fes@ =~= words_view(self.locals@).take(i + 1));
        }
        assert(words_view(self.locals@).take(n as int) =~= words_view(self.locals@));
        hash_many(params, &fes)
    }

    /// Commitment of the control stack, as `control_hash_of` states it.
    pub fn hash_control(&self, params: &HashParams) -> (r: Fe)
        requires
            params_wf(*params),
        ensures
            r == control_hash_of(*params, self@.control),
    {
        let mut fes: Vec<Fe> = Vec::new();
        let n = self.control_stack.len();
        for i in 0..n
            invariant
                params_wf(*params),
                n == self.control_stack@.len(),
                fes@ =~= frame_hashes_of(*params, self@.control).take(i as int),
        {
            let h = crate::code::hash_frame(params, &self.control_stack[i]);
            fes.push(h);
            assert(fes@ =~= frame_hashes_of(*params, self@.control).take(i + 1));
        }
        assert(frame_hashes_of(*params, self@.control).take(n as int) =~= frame_hashes_of(
            *params,
            self@.control,
        ));
        hash_list(params, &fes)
    }

    /// The state commitment, as `vm_hash_of` states it.
    pub fn hash(&self, params: &HashParams) -> (r: Fe)
        requires
            params_wf(*params),
        ensures
            r == vm_hash_of(*params, self@),
    {
        let a = hash_code(params, &self.pc);
        let b = self.hash_stack(params);
        let c = self.hash_locals(params);
        let d = self.hash_control(params);
        crh(params, &vec![a, b, c, d])
    }

    fn incr_pc(&mut self)
        requires
            old(self)@.pc.len() > 0,
        ensures
            final(self)@ == (VmV { pc: old(self)@.pc.skip(1), ..old(self)@ }),
    {
        self.pc.remove(0);
        proof {
            assert(self.pc@ =~= old(self).pc@.skip(1));
            lemma_codes_view_skip(old(self).pc@, 1);
        }
    }

    /// Executes exactly one operation: advances the state as `step_vm`
    /// says and records the (before, after) pair in the collector list
    /// of the executed opcode.  On an empty code pointer nothing
    /// changes.
    pub fn step(&mut self, c: &mut Collector)
        requires
            step_ok(old(self)@),
        ensures
            final(self)@ == step_result(old(self)@),
            final(c)@ == collector_after(
                old(c)@,
                step_kind(old(self)@),
                TransV { before: old(self)@, after: step_result(old(self)@) },
            ),
    {
        if self.pc.len() == 0 {
            return ;
        }
        let ghost v0 = self@;
        let before = self.clone();
        let elen = self.expr_stack.len();
        let clen = self.control_stack.len();
        self.step_counter = self.step_counter + 1;
        proof {
            lemma_codes_view(self.pc@);
        }
        let op = self.pc[0].clone();
        match op {
            CodeTree::CAdd => {
                let p1 = self.expr_stack.pop().unwrap();
                let p2 = self.expr_stack.pop().unwrap();
                self.expr_stack.push(p1 + p2);
                self.incr_pc();
                proof {
                    assert(self@.stack =~= v0.stack.take(elen - 2).push(
                        ((v0.stack[elen - 1] + v0.stack[elen - 2]) as u32),
                    ));
                }
                let after = self.clone();
                c.add.push(Transition { before, after });
                proof {
                    assert(transs_view(c.add@) =~= transs_view(old(c).add@).push(
                        TransV { before: v0, after: step_vm(v0) },
                    ));
                }
            },
            CodeTree::CSub => {
                let p1 = self.expr_stack.pop().unwrap();
                let p2 = self.expr_stack.pop().unwrap();
                self.expr_stack.push(p2 - p1);
                self.incr_pc();
                proof {
                    assert(self@.stack =~= v0.stack.take(elen - 2).push(
                        ((v0.stack[elen - 2] - v0.stack[elen - 1]) as u32),
                    ));
                }
                let after = self.clone();
                c.sub.push(Transition { before, after });
                proof {
                    assert(transs_view(c.sub@) =~= transs_view(old(c).sub@).push(
                        TransV { before: v0, after: step_vm(v0) },
                    ));
                }
            },
            CodeTree::CGt => {
                let p1 = self.expr_stack.pop().unwrap();
                let p2 = self.expr_stack.pop().unwrap();
                let res: u32 = if p1 < p2 {
                    1
                } else {
                    0
                };
                self.expr_stack.push(res);
                self.incr_pc();
                proof {
                    assert(self@.stack =~= step_vm(v0).stack);
                }
                let after = self.clone();
                c.gt.push(Transition { before, after });
                proof {
                    assert(transs_view(c.gt@) =~= transs_view(old(c).gt@).push(
                        TransV { before: v0, after: step_vm(v0) },
                    ));
                }
            },
            CodeTree::CConst(a) => {
                self.expr_stack.push(a);
                self.incr_pc();
                let after = self.clone();
                c.constant.push(Transition { before, after });
                proof {
                    assert(transs_view(c.constant@) =~= transs_view(old(c).constant@).push(
                        TransV { before: v0, after: step_vm(v0) },
                    ));
                }
            },
            CodeTree::CGetLocal(a) => {
                let val = self.locals[a as usize];
                self.expr_stack.push(val);
                self.incr_pc();
                let after = self.clone();
                c.get.push(Transition { before, after });
                proof {
                    assert(transs_view(c.get@) =~= transs_view(old(c).get@).push(
                        TransV { before: v0, after: step_vm(v0) },
                    ));
                }
            },
            CodeTree::CSetLocal(a) => {
                let val = self.expr_stack.pop().unwrap();
                self.locals[a as usize] = val;
                self.incr_pc();
                proof {
                    assert(self@.stack =~= v0.stack.take(elen - 1));
                    assert(self@.locals =~= v0.locals.update(a as int, v0.stack[elen - 1]));
                }
                let after = self.clone();
                c.set.push(Transition { before, after });
                proof {
                    assert(transs_view(c.set@) =~= transs_view(old(c).set@).push(
                        TransV { before: v0, after: step_vm(v0) },
                    ));
                }
            },
            CodeTree::CLoop(cont) => {
                let saved_pc = copy_codes(&self.pc);
                self.control_stack.push(ControlFrame::LoopFrame(cont, saved_pc));
                self.incr_pc();
                proof {
                    assert(self@.control =~= step_vm(v0).control);
                }
                let after = self.clone();
                c.loopi.push(Transition { before, after });
                proof {
                    assert(transs_view(c.loopi@) =~= transs_view(old(c).loopi@).push(
                        TransV { before: v0, after: step_vm(v0) },
                    ));
                }
            },
            CodeTree::CEnd => {
                if clen == 0 {
                    return ;
                }
                let frame = self.control_stack.pop().unwrap();
                match frame {
                    ControlFrame::LoopFrame(c1, _) => {
                        self.pc = c1;
                    },
                }
                proof {
                    assert(self@.control =~= v0.control.drop_last());
                }
                let after = self.clone();
                c.endi.push(Transition { before, after });
                proof {
                    assert(transs_view(c.endi@) =~= transs_view(old(c).endi@).push(
                        TransV { before: v0, after: step_vm(v0) },
                    ));
                }
            },
            CodeTree::CBreakIf(num) => {
                let p1 = self.expr_stack.pop().unwrap();
                if p1 != 0 {
                    let k = clen - 1 - (num as usize);
                    let frame = self.control_stack[k].clone();
                    self.control_stack.truncate(k);
                    match frame {
                        ControlFrame::LoopFrame(_, c1) => {
                            self.pc = c1;
                        },
                    }
                    proof {
                        assert(self@.stack =~= v0.stack.take(elen - 1));
                        assert(self@.control =~= v0.control.take(k as int));
                    }
                    let after = self.clone();
                    c.breakyes.push(Transition { before, after });
                    proof {
                        assert(transs_view(c.breakyes@) =~= transs_view(old(c).breakyes@).push(
                            TransV { before: v0, after: step_vm(v0) },
                        ));
                    }
                } else {
                    self.incr_pc();
                    proof {
                        assert(self@.stack =~= v0.stack.take(elen - 1));
                    }
                    let after = self.clone();
                    c.breakno.push(Transition { before, after });
                    proof {
                        assert(transs_view(c.breakno@) =~= transs_view(old(c).breakno@).push(
                            TransV { before: v0, after: step_vm(v0) },
                        ));
                    }
                }
            },
        }
    }
}

impl Collector {
    /// A collector with every transition list empty.
    pub fn new() -> (r: Collector)
        ensures
            r@.add.len() == 0,
            r@.sub.len() == 0,
            r@.gt.len() == 0,
            r@.constant.len() == 0,
            r@.get.len() == 0,
            r@.set.len() == 0,
            r@.loopi.len() == 0,
            r@.endi.len() == 0,
            r@.breakno.len() == 0,
            r@.breakyes.len() == 0,
    {
        Collector {
            add: Vec::new(),
            sub: Vec::new(),
            gt: Vec::new(),
            constant: Vec::new(),
            get: Vec::new(),
            set: Vec::new(),
            loopi: Vec::new(),
            endi: Vec::new(),
            breakno: Vec::new(),
            breakyes: Vec::new(),
        }
    }
}

/// The value list of a transition list extends by one entry per push.
pub proof fn lemma_transs_view_push(s: Seq<Transition>, t: Transition)
    ensures
        transs_view(s.push(t)) == transs_view(s).push(t@),
{
    assert forall|j: int|
        0 <= j < s.len() + 1 implies transs_view(s.push(t))[j] == transs_view(s).push(t@)[j] by {
        if j < s.len() {
            assert(s.push(t)[j] == s[j]);
        } else {
            assert(s.push(t)[j] == t);
        }
    }
    assert(transs_view(s.push(t)) =~= transs_view(s).push(t@));
}

/// Appends copies of one opcode's transitions to a flat list.
pub fn get_transition(circuits: &mut Vec<Transition>, lst: &Vec<Transition>)
    ensures
        transs_view(final(circuits)@) == transs_view(old(circuits)@) + transs_view(lst@),
{
    let ghost base = transs_view(old(circuits)@);
    let ghost lv = transs_view(lst@);
    let n = lst.len();
    for i in 0..n
        invariant
            n == lst@.len(),
            lv == transs_view(lst@),
            transs_view(circuits@) =~= base + lv.take(i as int),
    {
        let t = lst[i].clone();
        let ghost prev = circuits@;
        circuits.push(t);
        proof {
            assert(circuits@ =~= prev.push(t));
            lemma_transs_view_push(prev, t);
            assert(t@ == lv[i as int]);
            assert((base + lv.take(i as int)).push(lv[i as int]) =~= base + lv.take(i + 1));
        }
        assert(transs_view(circuits@) =~= base + lv.take(i + 1));
    }
    assert(lv.take(n as int) =~= lv);
    assert(transs_view(circuits@) =~= base + lv);
}

/// All transitions of a run, flattened in the fixed opcode order.
pub fn get_transitions(c: &Collector) -> (r: Vec<Transition>)
    ensures
        transs_view(r@) == transs_view(c.add@) + transs_view(c.sub@) + transs_view(c.gt@)
            + transs_view(c.constant@) + transs_view(c.get@) + transs_view(c.set@) + transs_view(
            c.loopi@,
        ) + transs_view(c.endi@) + transs_view(c.breakno@) + transs_view(c.breakyes@),
{
    let mut circuits: Vec<Transition> = Vec::new();
    proof {
        assert(transs_view(circuits@) =~= Seq::<TransV>::empty());
    }
    get_transition(&mut circuits, &c.add);
    get_transition(&mut circuits, &c.sub);
    get_transition(&mut circuits, &c.gt);
    get_transition(&mut circuits, &c.constant);
    get_transition(&mut circuits, &c.get);
    get_transition(&mut circuits, &c.set);
    get_transition(&mut circuits, &c.loopi);
    get_transition(&mut circuits, &c.endi);
    get_transition(&mut circuits, &c.breakno);
    get_transition(&mut circuits, &c.breakyes);
    proof {
        assert(Seq::<TransV>::empty() + transs_view(c.add@) =~= transs_view(c.add@));
    }
    circuits
}

/// Commitment of the first `k` stack entries, as `stack_hash_of` of the
/// prefix states it.
pub fn hash_stack_prefix(params: &HashParams, stack: &Vec<u32>, k: usize) -> (r: Fe)
    requires
        params_wf(*params),
        k <= stack@.len(),
    ensures
        r == stack_hash_of(*params, stack@.take(k as int)),
{
    let mut fes: Vec<Fe> = Vec::new();
    for i in 0..k
        invariant
            params_wf(*params),
            k <= stack@.len(),
            fes@ =~= words_view(stack@.take(k as int)).take(i as int),
    {
        fes.push(fe_u64(stack[i] as u64));
        assert(fes@ =~= words_view(stack@.take(k as int)).take(i + 1));
    }
    assert(words_view(stack@.take(k as int)).take(k as int) =~= words_view(stack@.take(k as int)));
    hash_list(params, &fes)
}

/// Commitment of the first `k` control frames, as `control_hash_of` of
/// the prefix states it.
pub fn hash_control_prefix(params: &HashParams, frames: &Vec<ControlFrame>, k: usize) -> (r: Fe)
    requires
        params_wf(*params),
        k <= frames@.len(),
    ensures
        r == control_hash_of(*params, frames_view(frames@).take(k as int)),
{
    let mut fes: Vec<Fe> = Vec::new();
    for i in 0..k
        invariant
            params_wf(*params),
            k <= frames@.len(),
            fes@ =~= frame_hashes_of(*params, frames_view(frames@).take(k as int)).take(i as int),
    {
        let h = crate::code::hash_frame(params, &frames[i]);
        proof {
            assert(frames_view(frames@).take(k as int)[i as int] == frame_view(frames@[i as int]));
        }
        fes.push(h);
        assert(fes@ =~= frame_hashes_of(*params, frames_view(frames@).take(k as int)).take(i + 1));
    }
    assert(frame_hashes_of(*params, frames_view(frames@).take(k as int)).take(k as int)
        =~= frame_hashes_of(*params, frames_view(frames@).take(k as int)));
    hash_list(params, &fes)
}

/// Unfolds a non-empty stack commitment one value at a time.
pub proof fn lemma_stack_hash_unfold(params: HashParams, s: Seq<u32>)
    requires
        s.len() >= 1,
    ensures
        stack_hash_of(params, s) == crh_of(
            params,
            seq![fe_of(s.last() as u64), stack_hash_of(params, s.drop_last())],
        ),
{
    assert(words_view(s).last() == fe_of(s.last() as u64));
    assert(words_view(s).drop_last() =~= words_view(s.drop_last()));
}

/// Unfolds a non-empty control commitment one frame at a time.
pub proof fn lemma_control_hash_unfold(params: HashParams, s: Seq<FrameV>)
    requires
        s.len() >= 1,
    ensures
        control_hash_of(params, s) == crh_of(
            params,
            seq![frame_hash_of(params, s.last()), control_hash_of(params, s.drop_last())],
        ),
{
    assert(frame_hashes_of(params, s).last() == frame_hash_of(params, s.last()));
    assert(frame_hashes_of(params, s).drop_last() =~= frame_hashes_of(params, s.drop_last()));
}

/// The public identity of a transition, as `transition_hash_of` states it.
pub fn transition_hash(params: &HashParams, t: &Transition) -> (r: Fe)
    requires
        params_wf(*params),
    ensures
        r == transition_hash_of(*params, t@),
{
    let a = t.before.hash(params);
    let b = t.after.hash(params);
    crh(params, &vec![a, b])
}

} // verus!
