//! The code tree of the stack machine and the hash chains that commit
//! to code, stacks and control frames.
//!
//! Each executable type has a mathematical mirror (`CodeV`, `FrameV`)
//! that contracts are stated over.  A code list is committed by a right
//! fold: the commitment of a list is the hash of its first operation's
//! tag (and operands) together with the commitment of the rest.  A value
//! list is committed by a left fold, and a fixed-size list by one hash
//! over all entries.

use vstd::prelude::*;

use crate::field::{crh, crh_of, fe_of, fe_u64, params_wf, Fe, HashParams};

verus! {

broadcast use vstd::seq::axiom_seq_index_decreases, vstd::seq::axiom_seq_subrange_decreases,
    vstd::std_specs::vec::axiom_vec_decreases_to_view;

/// One operation of the stack machine; a loop carries its body.
pub enum CodeTree {
    CLoop(Vec<CodeTree>),
    CConst(u32),
    CAdd,
    CSub,
    CGt,
    CEnd,
    CBreakIf(u32),
    CSetLocal(u32),
    CGetLocal(u32),
}

/// A control frame: the loop body (for repeating) and the code list the
/// loop was entered from (for breaking out).
pub enum ControlFrame {
    LoopFrame(Vec<CodeTree>, Vec<CodeTree>),
}

/// The mathematical mirror of `CodeTree`.
pub enum CodeV {
    Loop(Seq<CodeV>),
    Const(u32),
    Add,
    Sub,
    Gt,
    End,
    BreakIf(u32),
    SetLocal(u32),
    GetLocal(u32),
}

/// The mathematical mirror of `ControlFrame`.
pub enum FrameV {
    LoopFrame(Seq<CodeV>, Seq<CodeV>),
}

/// The value a code-tree node stands for.
pub open spec fn code_view(c: CodeTree) -> CodeV
    decreases c,
{
    match c {
        CodeTree::CLoop(v) => CodeV::Loop(codes_view(v@)),
        CodeTree::CConst(x) => CodeV::Const(x),
        CodeTree::CAdd => CodeV::Add,
        CodeTree::CSub => CodeV::Sub,
        CodeTree::CGt => CodeV::Gt,
        CodeTree::CEnd => CodeV::End,
        CodeTree::CBreakIf(x) => CodeV::BreakIf(x),
        CodeTree::CSetLocal(x) => CodeV::SetLocal(x),
        CodeTree::CGetLocal(x) => CodeV::GetLocal(x),
    }
}

/// The value a code list stands for.
pub open spec fn codes_view(s: Seq<CodeTree>) -> Seq<CodeV>
    decreases s,
{
    if s.len() == 0 {
        Seq::empty()
    } else {
        seq![code_view(s[0])] + codes_view(s.skip(1))
    }
}

/// A code list's value has one entry per operation, in order.
pub proof fn lemma_codes_view(s: Seq<CodeTree>)
    ensures
        codes_view(s).len() == s.len(),
        forall|i: int| 0 <= i < s.len() ==> codes_view(s)[i] == code_view(#[trigger] s[i]),
    decreases s.len(),
{
    if s.len() > 0 {
        lemma_codes_view(s.skip(1));
        assert forall|i: int| 0 <= i < s.len() implies codes_view(s)[i] == code_view(#[trigger] s[i]) by {
            if i > 0 {
                assert(codes_view(s)[i] == codes_view(s.skip(1))[i - 1]);
                assert(s.skip(1)[i - 1] == s[i]);
            }
        }
    }
}

/// The value a control frame stands for.
pub open spec fn frame_view(f: ControlFrame) -> FrameV {
    match f {
        ControlFrame::LoopFrame(cont, start) => FrameV::LoopFrame(
            codes_view(cont@),
            codes_view(start@),
        ),
    }
}

/// The value a control stack stands for.
pub open spec fn frames_view(s: Seq<ControlFrame>) -> Seq<FrameV> {
    Seq::new(s.len(), |i: int| frame_view(s[i]))
}

/// Commitment of a code list: a right fold of the hash over tags,
/// operands and the commitment of the remaining code.
pub open spec fn hash_code_of(params: HashParams, code: Seq<CodeV>) -> Fe
    decreases code,
{
    if code.len() == 0 {
        fe_of(0)
    } else {
        let rest = hash_code_of(params, code.skip(1));
        match code[0] {
            CodeV::Add => crh_of(params, seq![fe_of(1), rest]),
            CodeV::Sub => crh_of(params, seq![fe_of(2), rest]),
            CodeV::Gt => crh_of(params, seq![fe_of(3), rest]),
            CodeV::GetLocal(x) => crh_of(params, seq![fe_of(4), fe_of(x as u64), rest]),
            CodeV::SetLocal(x) => crh_of(params, seq![fe_of(5), fe_of(x as u64), rest]),
            CodeV::Const(x) => crh_of(params, seq![fe_of(6), fe_of(x as u64), rest]),
            CodeV::BreakIf(x) => crh_of(params, seq![fe_of(7), fe_of(x as u64), rest]),
            CodeV::Loop(cont) => crh_of(params, seq![fe_of(8), hash_code_of(params, cont), rest]),
            CodeV::End => crh_of(params, seq![fe_of(9), rest]),
        }
    }
}

/// Commitment of a value list: a left fold, so the last pushed value is
/// hashed outermost.
pub open spec fn hash_list_of(params: HashParams, items: Seq<Fe>) -> Fe
    decreases items.len(),
{
    if items.len() == 0 {
        fe_of(0)
    } else {
        crh_of(params, seq![items.last(), hash_list_of(params, items.drop_last())])
    }
}

/// Commitment of a fixed-size list: one hash over all entries.
pub open spec fn hash_many_of(params: HashParams, items: Seq<Fe>) -> Fe {
    crh_of(params, items)
}

/// Commitment of a control frame.
pub open spec fn frame_hash_of(params: HashParams, frame: FrameV) -> Fe {
    match frame {
        FrameV::LoopFrame(cont, start) => crh_of(
            params,
            seq![fe_of(1), hash_code_of(params, cont), hash_code_of(params, start)],
        ),
    }
}

/// Commitment of the code list from position `i` on.
pub fn hash_code_from(params: &HashParams, code: &Vec<CodeTree>, i: usize) -> (r: Fe)
    requires
        params_wf(*params),
        i <= code@.len(),
    ensures
        r == hash_code_of(*params, codes_view(code@).skip(i as int)),
    decreases code@, code@.len() - i,
{
    let ghost view = codes_view(code@);
    proof {
        lemma_codes_view(code@);
    }
    if i == code.len() {
        assert(view.skip(i as int).len() == 0);
        fe_u64(0)
    } else {
        let ghost tail = view.skip(i as int);
        assert(tail[0] == code_view(code@[i as int]));
        assert(tail.skip(1) =~= view.skip(i + 1));
        let rest = hash_code_from(params, code, i + 1);
        match &code[i] {
            CodeTree::CAdd => crh(params, &vec![fe_u64(1), rest]),
            CodeTree::CSub => crh(params, &vec![fe_u64(2), rest]),
            CodeTree::CGt => crh(params, &vec![fe_u64(3), rest]),
            CodeTree::CGetLocal(x) => crh(params, &vec![fe_u64(4), fe_u64(*x as u64), rest]),
            CodeTree::CSetLocal(x) => crh(params, &vec![fe_u64(5), fe_u64(*x as u64), rest]),
            CodeTree::CConst(x) => crh(params, &vec![fe_u64(6), fe_u64(*x as u64), rest]),
            CodeTree::CBreakIf(x) => crh(params, &vec![fe_u64(7), fe_u64(*x as u64), rest]),
            CodeTree::CLoop(cont) => {
                let body = hash_code(params, cont);
                crh(params, &vec![fe_u64(8), body, rest])
            },
            CodeTree::CEnd => crh(params, &vec![fe_u64(9), rest]),
        }
    }
}

/// Commitment of a code list, as `hash_code_of` states it.
pub fn hash_code(params: &HashParams, code: &Vec<CodeTree>) -> (r: Fe)
    requires
        params_wf(*params),
    ensures
        r == hash_code_of(*params, codes_view(code@)),
    decreases code@,
{
    assert(codes_view(code@).skip(0) =~= codes_view(code@));
    hash_code_from(params, code, 0)
}

/// Commitment of a value list, as `hash_list_of` states it.
pub fn hash_list(params: &HashParams, lst: &Vec<Fe>) -> (r: Fe)
    requires
        params_wf(*params),
    ensures
        r == hash_list_of(*params, lst@),
{
    let mut res = fe_u64(0);
    let n = lst.len();
    for i in 0..n
        invariant
            params_wf(*params),
            n == lst@.len(),
            res == hash_list_of(*params, lst@.take(i as int)),
    {
        assert(lst@.take(i + 1).drop_last() =~= lst@.take(i as int));
        assert(lst@.take(i + 1).last() == lst@[i as int]);
        res = crh(params, &vec![lst[i], res]);
    }
    assert(lst@.take(n as int) =~= lst@);
    res
}

/// Commitment of a fixed-size list, as `hash_many_of` states it.
pub fn hash_many(params: &HashParams, lst: &Vec<Fe>) -> (r: Fe)
    requires
        params_wf(*params),
    ensures
        r == hash_many_of(*params, lst@),
{
    crh(params, lst)
}

/// Commitment of a control frame, as `frame_hash_of` states it.
pub fn hash_frame(params: &HashParams, frame: &ControlFrame) -> (r: Fe)
    requires
        params_wf(*params),
    ensures
        r == frame_hash_of(*params, frame_view(*frame)),
{
    match frame {
        ControlFrame::LoopFrame(cont, start) => {
            let a = hash_code(params, cont);
            let b = hash_code(params, start);
            crh(params, &vec![fe_u64(1), a, b])
        },
    }
}

/// Compression of two commitments into one, the public identity of a
/// transition and of an aggregation node.
pub fn hash_pair(params: &HashParams, a: &Fe, b: &Fe) -> (r: Fe)
    requires
        params_wf(*params),
    ensures
        r == crate::field::compress_of(*params, *a, *b),
{
    crh(params, &vec![*a, *b])
}

fn clone_codes(v: &Vec<CodeTree>) -> (r: Vec<CodeTree>)
    ensures
        codes_view(r@) == codes_view(v@),
    decreases v@,
{
    let mut r: Vec<CodeTree> = Vec::new();
    let n = v.len();
    for i in 0..n
        invariant
            n == v@.len(),
            r@.len() == i,
            codes_view(r@) =~= codes_view(v@).take(i as int),
        decreases n - i,
    {
        let c = clone_code(&v[i]);
        let ghost r0 = r@;
        r.push(c);
        proof {
            lemma_codes_view(r0);
            lemma_codes_view(r@);
            lemma_codes_view(v@);
            assert forall|j: int| 0 <= j < i + 1 implies codes_view(r@)[j] == codes_view(
                v@,
            ).take(i + 1)[j] by {
                assert(codes_view(r@)[j] == code_view(r@[j]));
                if j < i {
                    assert(r@[j] == r0[j]);
                    assert(code_view(r0[j]) == codes_view(r0)[j]);
                    assert(codes_view(r0)[j] == codes_view(v@).take(i as int)[j]);
                } else {
                    assert(r@[j] == c);
                }
            }
        }
        assert(codes_view(r@) =~= codes_view(v@).take(i + 1));
    }
    proof {
        lemma_codes_view(v@);
    }
    assert(codes_view(v@).take(n as int) =~= codes_view(v@));
    r
}

fn clone_code(c: &CodeTree) -> (r: CodeTree)
    ensures
        code_view(r) == code_view(*c),
    decreases *c,
{
    match c {
        CodeTree::CLoop(cont) => CodeTree::CLoop(clone_codes(cont)),
        CodeTree::CConst(x) => CodeTree::CConst(*x),
        CodeTree::CAdd => CodeTree::CAdd,
        CodeTree::CSub => CodeTree::CSub,
        CodeTree::CGt => CodeTree::CGt,
        CodeTree::CEnd => CodeTree::CEnd,
        CodeTree::CBreakIf(x) => CodeTree::CBreakIf(*x),
        CodeTree::CSetLocal(x) => CodeTree::CSetLocal(*x),
        CodeTree::CGetLocal(x) => CodeTree::CGetLocal(*x),
    }
}

impl Clone for CodeTree {
    /// A deep copy that stands for the same code value.
    fn clone(&self) -> (r: Self)
        ensures
            code_view(r) == code_view(*self),
    {
        match self {
            CodeTree::CLoop(cont) => CodeTree::CLoop(clone_codes(cont)),
            CodeTree::CConst(x) => CodeTree::CConst(*x),
            CodeTree::CAdd => CodeTree::CAdd,
            CodeTree::CSub => CodeTree::CSub,
            CodeTree::CGt => CodeTree::CGt,
            CodeTree::CEnd => CodeTree::CEnd,
            CodeTree::CBreakIf(x) => CodeTree::CBreakIf(*x),
            CodeTree::CSetLocal(x) => CodeTree::CSetLocal(*x),
            CodeTree::CGetLocal(x) => CodeTree::CGetLocal(*x),
        }
    }
}

impl Clone for ControlFrame {
    /// A deep copy that stands for the same frame value.
    fn clone(&self) -> (r: Self)
        ensures
            frame_view(r) == frame_view(*self),
    {
        match self {
            ControlFrame::LoopFrame(cont, start) => ControlFrame::LoopFrame(
                clone_codes(cont),
                clone_codes(start),
            ),
        }
    }
}

/// A deep copy of a code list that stands for the same value.
pub fn copy_codes(v: &Vec<CodeTree>) -> (r: Vec<CodeTree>)
    ensures
        codes_view(r@) == codes_view(v@),
{
    clone_codes(v)
}

/// A deep copy of a control stack that stands for the same value.
pub fn copy_frames(v: &Vec<ControlFrame>) -> (r: Vec<ControlFrame>)
    ensures
        frames_view(r@) == frames_view(v@),
{
    let mut r: Vec<ControlFrame> = Vec::new();
    let n = v.len();
    for i in 0..n
        invariant
            n == v@.len(),
            r@.len() == i,
            frames_view(r@) =~= frames_view(v@).take(i as int),
    {
        let c = v[i].clone();
        r.push(c);
        assert(frames_view(r@) =~= frames_view(v@).take(i + 1));
    }
    assert(frames_view(v@).take(n as int) =~= frames_view(v@));
    r
}

} // verus!
