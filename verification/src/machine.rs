//! Plain witness hints for the register-machine prototype: the default
//! values a combined instruction proof carries for every opcode it did
//! not execute.

use vstd::prelude::*;

use crate::field::{crh, crh_of, fe_of, fe_u64, params_wf, Fe, HashParams};

verus! {

/// A typed machine value as witness data.
pub struct ValueHint {
    pub value: u64,
    pub ty: u32,
}

/// An instruction word as witness data.
pub struct InstructionHint {
    pub opcode: u64,
    pub argument_data: u64,
}

/// The hint of an inactive drop instruction.
pub struct InstDropHint {
    pub val: u64,
}

/// The hint of an inactive block instruction.
pub struct InstBlockHint {}

/// The hint of an inactive cross-module call instruction.
pub struct InstCrossCallHint {}

impl ValueHint {
    /// The commitment of the value: one hash over value and type.
    pub fn hash(&self, params: &HashParams) -> (r: Fe)
        requires
            params_wf(*params),
        ensures
            r == crh_of(*params, seq![fe_of(self.value), fe_of(self.ty as u64)]),
    {
        let inputs = vec![fe_u64(self.value), fe_u64(self.ty as u64)];
        proof {
            assert(inputs@ =~= seq![fe_of(self.value), fe_of(self.ty as u64)]);
        }
        crh(params, &inputs)
    }

    /// The zero value.
    pub fn default() -> (r: ValueHint)
        ensures
            r.value == 0,
            r.ty == 0,
    {
        ValueHint { value: 0, ty: 0 }
    }
}

impl InstructionHint {
    /// The zero instruction.
    pub fn default() -> (r: InstructionHint)
        ensures
            r.opcode == 0,
            r.argument_data == 0,
    {
        InstructionHint { opcode: 0, argument_data: 0 }
    }
}

impl InstDropHint {
    /// The zero hint.
    pub fn default() -> (r: InstDropHint)
        ensures
            r.val == 0,
    {
        InstDropHint { val: 0 }
    }
}

impl InstBlockHint {
    /// The empty hint.
    pub fn default() -> (r: InstBlockHint) {
        InstBlockHint {  }
    }
}

impl InstCrossCallHint {
    /// The empty hint.
    pub fn default() -> (r: InstCrossCallHint) {
        InstCrossCallHint {  }
    }
}

/// The hint of an inactive push-constant instruction.
pub struct InstConstHint {}

/// The hint of an inactive select instruction.
pub struct InstSelectHint {
    pub val1: u64,
    pub val2: u64,
    pub val3: u64,
}

/// The hint of an inactive branch instruction.
pub struct InstBranchHint {
    pub val: u64,
    pub block: u64,
}

/// The hint of an inactive conditional-branch instruction.
pub struct InstBranchIfHint {
    pub val1: u64,
    pub val2: u64,
    pub block: u64,
}

impl InstConstHint {
    /// The empty hint.
    pub fn default() -> (r: InstConstHint) {
        InstConstHint {  }
    }
}

impl InstSelectHint {
    /// The zero hint.
    pub fn default() -> (r: InstSelectHint)
        ensures
            r.val1 == 0 && r.val2 == 0 && r.val3 == 0,
    {
        InstSelectHint { val1: 0, val2: 0, val3: 0 }
    }
}

impl InstBranchHint {
    /// The zero hint.
    pub fn default() -> (r: InstBranchHint)
        ensures
            r.val == 0 && r.block == 0,
    {
        InstBranchHint { val: 0, block: 0 }
    }
}

impl InstBranchIfHint {
    /// The zero hint.
    pub fn default() -> (r: InstBranchIfHint)
        ensures
            r.val1 == 0 && r.val2 == 0 && r.block == 0,
    {
        InstBranchIfHint { val1: 0, val2: 0, block: 0 }
    }
}

/// One executed instruction's hint, tagged by its opcode.  A combined
/// instruction proof carries a full slate of per-opcode witnesses; only
/// the executed opcode's slot holds real data.
pub enum InstProof {
    Const(InstConstHint),
    Drop(InstDropHint),
    Select(InstSelectHint),
    Branch(InstBranchHint),
    BranchIf(InstBranchIfHint),
    Block(InstBlockHint),
    CrossCall(InstCrossCallHint),
}

/// The full slate of per-opcode witness hints a combined instruction
/// proof is built from.
pub struct InstWitness {
    pub constant: InstConstHint,
    pub drop: InstDropHint,
    pub select: InstSelectHint,
    pub branch: InstBranchHint,
    pub branch_if: InstBranchIfHint,
    pub block: InstBlockHint,
    pub cross_call: InstCrossCallHint,
}

/// Spreads one executed instruction's hint over the full witness slate:
/// the executed opcode's slot takes the hint, every other slot takes
/// its zero default.
pub fn proof_to_witness(hint: InstProof) -> (r: InstWitness)
    ensures
        (match hint {
            InstProof::Drop(h) => r.drop == h,
            InstProof::Select(h) => r.select == h,
            InstProof::Branch(h) => r.branch == h,
            InstProof::BranchIf(h) => r.branch_if == h,
            _ => true,
        }),
        !(hint is Drop) ==> r.drop.val == 0,
        !(hint is Select) ==> (r.select.val1 == 0 && r.select.val2 == 0 && r.select.val3 == 0),
        !(hint is Branch) ==> (r.branch.val == 0 && r.branch.block == 0),
        !(hint is BranchIf) ==> (r.branch_if.val1 == 0 && r.branch_if.val2 == 0
            && r.branch_if.block == 0),
{
    let mut r = InstWitness {
        constant: InstConstHint::default(),
        drop: InstDropHint::default(),
        select: InstSelectHint::default(),
        branch: InstBranchHint::default(),
        branch_if: InstBranchIfHint::default(),
        block: InstBlockHint::default(),
        cross_call: InstCrossCallHint::default(),
    };
    match hint {
        InstProof::Const(h) => {
            r.constant = h;
        },
        InstProof::Drop(h) => {
            r.drop = h;
        },
        InstProof::Select(h) => {
            r.select = h;
        },
        InstProof::Branch(h) => {
            r.branch = h;
        },
        InstProof::BranchIf(h) => {
            r.branch_if = h;
        },
        InstProof::Block(h) => {
            r.block = h;
        },
        InstProof::CrossCall(h) => {
            r.cross_call = h;
        },
    }
    r
}

/// The zero instruction, as every inactive opcode slot carries it.
pub fn default_instruction() -> (r: InstructionHint)
    ensures
        r.opcode == 0,
        r.argument_data == 0,
{
    InstructionHint { opcode: 0, argument_data: 0 }
}

} // verus!
