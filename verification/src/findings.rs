//! The findings record: which dangerous lookup kinds were requested during
//! an expansion, accumulated monotonically across every pass and nested
//! dispatch.

use vstd::prelude::*;

verus! {

/// The kind of lookup handler that a `${...}` region dispatched to.
#[derive(Clone, Copy, Debug, PartialEq, Eq, Structural)]
pub enum Handler {
    Env,
    Jndi,
    Base64,
    Upper,
    Lower,
    Main,
    Date,
}

/// What was observed while expanding one input: which dangerous or
/// information-disclosing lookup kinds were dispatched anywhere during
/// expansion, and whether the recursion budget was ever exhausted.
#[derive(Clone, Copy, Debug, PartialEq, Eq, Structural)]
pub struct Findings {
    pub saw_jndi: bool,
    pub saw_env: bool,
    pub saw_main: bool,
    pub hit_recursion_limit: bool,
}

/// The findings record with every flag false.
pub open spec fn empty_findings() -> Findings {
    Findings { saw_jndi: false, saw_env: false, saw_main: false, hit_recursion_limit: false }
}

/// Pointwise boolean OR of two findings records.
pub open spec fn or_findings(a: Findings, b: Findings) -> Findings {
    Findings {
        saw_jndi: a.saw_jndi || b.saw_jndi,
        saw_env: a.saw_env || b.saw_env,
        saw_main: a.saw_main || b.saw_main,
        hit_recursion_limit: a.hit_recursion_limit || b.hit_recursion_limit,
    }
}

impl Findings {
    /// A fresh findings record: nothing observed yet.
    pub fn new() -> (r: Findings)
        ensures
            r == empty_findings(),
    {
        Findings { saw_jndi: false, saw_env: false, saw_main: false, hit_recursion_limit: false }
    }

    /// Fold the findings of a nested expansion into this record: once a flag
    /// is true it stays true.
    pub fn merge(&mut self, new_findings: Findings)
        ensures
            *final(self) == or_findings(*old(self), new_findings),
    {
        self.saw_jndi = self.saw_jndi || new_findings.saw_jndi;
        self.saw_env = self.saw_env || new_findings.saw_env;
        self.saw_main = self.saw_main || new_findings.saw_main;
        self.hit_recursion_limit = self.hit_recursion_limit || new_findings.hit_recursion_limit;
    }
}

} // verus!
