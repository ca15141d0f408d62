//! The per-opcode transition circuit statements, one type per opcode
//! that the machine records transitions for.
//!
//! Each one holds the before and after state of one step (and the
//! immediate operand where the opcode has one) together with the hash
//! parameters; its sole public value is the compression of the two
//! state commitments.  The constraint bodies — mechanical instances of
//! the shared contract in `opcodes` — are built outside the library,
//! over these values.

use vstd::prelude::*;

use crate::field::{params_wf, Fe, HashParams};
use crate::vm::{transition_hash, transition_hash_of, Transition, VM};

verus! {

/// The constant-add transition statement.
pub struct AddCircuit {
    pub before: VM,
    pub after: VM,
    pub params: HashParams,
}

/// The constant-subtract transition statement.
pub struct SubCircuit {
    pub before: VM,
    pub after: VM,
    pub params: HashParams,
}

/// The unsigned-greater-than transition statement.
pub struct GtCircuit {
    pub before: VM,
    pub after: VM,
    pub params: HashParams,
}

/// The push-constant transition statement.
pub struct ConstCircuit {
    pub before: VM,
    pub after: VM,
    pub params: HashParams,
    pub idx: u32,
}

/// The get-local transition statement.
pub struct GetCircuit {
    pub before: VM,
    pub after: VM,
    pub params: HashParams,
    pub idx: u32,
}

/// The set-local transition statement.
pub struct SetCircuit {
    pub before: VM,
    pub after: VM,
    pub params: HashParams,
    pub idx: usize,
}

/// The enter-loop transition statement.
pub struct LoopCircuit {
    pub before: VM,
    pub after: VM,
    pub params: HashParams,
}

/// The end-loop transition statement.
pub struct EndCircuit {
    pub before: VM,
    pub after: VM,
    pub params: HashParams,
}

/// The taken conditional-break transition statement.
pub struct BreakYesCircuit {
    pub before: VM,
    pub after: VM,
    pub params: HashParams,
}

/// The untaken conditional-break transition statement.
pub struct BreakNoCircuit {
    pub before: VM,
    pub after: VM,
    pub params: HashParams,
}

impl AddCircuit {
    /// The sole public value: the transition's identity.
    pub fn calc_hash(&self) -> (r: Fe)
        requires
            params_wf(self.params),
        ensures
            r == transition_hash_of(
                self.params,
                crate::vm::TransV { before: self.before@, after: self.after@ },
            ),
    {
        let t = Transition { before: self.before.clone(), after: self.after.clone() };
        let r = transition_hash(&self.params, &t);
        r
    }

    /// The state pair the statement is about.
    pub fn transition(&self) -> (r: Transition)
        ensures
            r@.before == self.before@,
            r@.after == self.after@,
    {
        Transition { before: self.before.clone(), after: self.after.clone() }
    }
}

impl ConstCircuit {
    /// The sole public value: the transition's identity.
    pub fn calc_hash(&self) -> (r: Fe)
        requires
            params_wf(self.params),
        ensures
            r == transition_hash_of(
                self.params,
                crate::vm::TransV { before: self.before@, after: self.after@ },
            ),
    {
        let t = Transition { before: self.before.clone(), after: self.after.clone() };
        let r = transition_hash(&self.params, &t);
        r
    }

    /// The state pair the statement is about.
    pub fn transition(&self) -> (r: Transition)
        ensures
            r@.before == self.before@,
            r@.after == self.after@,
    {
        Transition { before: self.before.clone(), after: self.after.clone() }
    }
}

impl SetCircuit {
    /// The sole public value: the transition's identity.
    pub fn calc_hash(&self) -> (r: Fe)
        requires
            params_wf(self.params),
        ensures
            r == transition_hash_of(
                self.params,
                crate::vm::TransV { before: self.before@, after: self.after@ },
            ),
    {
        let t = Transition { before: self.before.clone(), after: self.after.clone() };
        let r = transition_hash(&self.params, &t);
        r
    }

    /// The state pair the statement is about.
    pub fn transition(&self) -> (r: Transition)
        ensures
            r@.before == self.before@,
            r@.after == self.after@,
    {
        Transition { before: self.before.clone(), after: self.after.clone() }
    }
}

impl LoopCircuit {
    /// The sole public value: the transition's identity.
    pub fn calc_hash(&self) -> (r: Fe)
        requires
            params_wf(self.params),
        ensures
            r == transition_hash_of(
                self.params,
                crate::vm::TransV { before: self.before@, after: self.after@ },
            ),
    {
        let t = Transition { before: self.before.clone(), after: self.after.clone() };
        let r = transition_hash(&self.params, &t);
        r
    }

    /// The state pair the statement is about.
    pub fn transition(&self) -> (r: Transition)
        ensures
            r@.before == self.before@,
            r@.after == self.after@,
    {
        Transition { before: self.before.clone(), after: self.after.clone() }
    }
}

impl EndCircuit {
    /// The sole public value: the transition's identity.
    pub fn calc_hash(&self) -> (r: Fe)
        requires
            params_wf(self.params),
        ensures
            r == transition_hash_of(
                self.params,
                crate::vm::TransV { before: self.before@, after: self.after@ },
            ),
    {
        let t = Transition { before: self.before.clone(), after: self.after.clone() };
        let r = transition_hash(&self.params, &t);
        r
    }

    /// The state pair the statement is about.
    pub fn transition(&self) -> (r: Transition)
        ensures
            r@.before == self.before@,
            r@.after == self.after@,
    {
        Transition { before: self.before.clone(), after: self.after.clone() }
    }
}

impl BreakYesCircuit {
    /// The sole public value: the transition's identity.
    pub fn calc_hash(&self) -> (r: Fe)
        requires
            params_wf(self.params),
        ensures
            r == transition_hash_of(
                self.params,
                crate::vm::TransV { before: self.before@, after: self.after@ },
            ),
    {
        let t = Transition { before: self.before.clone(), after: self.after.clone() };
        let r = transition_hash(&self.params, &t);
        r
    }

    /// The state pair the statement is about.
    pub fn transition(&self) -> (r: Transition)
        ensures
            r@.before == self.before@,
            r@.after == self.after@,
    {
        Transition { before: self.before.clone(), after: self.after.clone() }
    }
}

} // verus!
