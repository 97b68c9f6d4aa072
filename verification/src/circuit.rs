//! The constraint environment that circuit values are synthesized in.
//!
//! The environment counts the variables of each mode and the constraints,
//! and records whether every constraint added so far holds for the
//! assigned values.
use vstd::prelude::*;
use crate::mode::Mode;

verus! {

/// Adds one to a counter, staying at the maximum instead of wrapping.
pub open spec fn bump(n: u64) -> u64 {
    if n < u64::MAX { (n + 1) as u64 } else { n }
}

/// Adds `k` to a counter, staying at the maximum instead of wrapping.
pub open spec fn bump_by(n: u64, k: nat) -> u64 {
    if n + k <= u64::MAX { (n + k) as u64 } else { u64::MAX }
}

/// Adding one is adding `1`, and adding twice is adding the sum.
pub proof fn lemma_bump_by(n: u64, j: nat, k: nat)
    ensures
        bump(n) == bump_by(n, 1),
        bump_by(n, 0) == n,
        bump_by(bump_by(n, j), k) == bump_by(n, j + k),
{
}

/// A constraint system: variable and constraint counts, and satisfaction.
pub struct Circuit {
    num_constants: u64,
    num_public: u64,
    num_private: u64,
    num_constraints: u64,
    satisfied: bool,
}

impl Circuit {
    /// Number of constants allocated so far.
    pub closed spec fn constants(&self) -> u64 { self.num_constants }

    /// Number of public variables allocated so far, the constant `one` included.
    pub closed spec fn publics(&self) -> u64 { self.num_public }

    /// Number of private variables allocated so far.
    pub closed spec fn privates(&self) -> u64 { self.num_private }

    /// Number of constraints added so far.
    pub closed spec fn constraints(&self) -> u64 { self.num_constraints }

    /// Whether every constraint added so far holds.
    pub closed spec fn satisfied(&self) -> bool { self.satisfied }

    /// Whether the environment is freshly reset: only the public `one` variable.
    pub open spec fn is_fresh(&self) -> bool {
        &&& self.constants() == 0
        &&& self.publics() == 1
        &&& self.privates() == 0
        &&& self.constraints() == 0
        &&& self.satisfied()
    }

    /// Creates a fresh environment that holds only the public `one` variable.
    pub fn new() -> (c: Circuit)
        ensures
            c.is_fresh(),
    {
        Circuit { num_constants: 0, num_public: 1, num_private: 0, num_constraints: 0, satisfied: true }
    }

    /// Clears the environment back to its fresh state.
    pub fn reset_circuit(&mut self)
        ensures
            final(self).is_fresh(),
    {
        *self = Circuit::new();
    }

    /// Returns `true` if all constraints in the environment are satisfied.
    pub fn is_satisfied(&self) -> (b: bool)
        ensures
            b == self.satisfied(),
    {
        self.satisfied
    }

    /// Returns the number of constants in the environment.
    pub fn num_constants(&self) -> (n: u64)
        ensures
            n == self.constants(),
    {
        self.num_constants
    }

    /// Returns the number of public variables in the environment.
    pub fn num_public(&self) -> (n: u64)
        ensures
            n == self.publics(),
    {
        self.num_public
    }

    /// Returns the number of private variables in the environment.
    pub fn num_private(&self) -> (n: u64)
        ensures
            n == self.privates(),
    {
        self.num_private
    }

    /// Returns the number of constraints in the environment.
    pub fn num_constraints(&self) -> (n: u64)
        ensures
            n == self.constraints(),
    {
        self.num_constraints
    }

    /// Allocates a new variable of the given mode.
    pub fn new_variable(&mut self, mode: Mode)
        ensures
            final(self).constants() == (if mode == Mode::Constant { bump(old(self).constants()) } else { old(self).constants() }),
            final(self).publics() == (if mode == Mode::Public { bump(old(self).publics()) } else { old(self).publics() }),
            final(self).privates() == (if mode == Mode::Private { bump(old(self).privates()) } else { old(self).privates() }),
            final(self).constraints() == old(self).constraints(),
            final(self).satisfied() == old(self).satisfied(),
    {
        match mode {
            Mode::Constant => self.num_constants = self.num_constants.saturating_add(1),
            Mode::Public => self.num_public = self.num_public.saturating_add(1),
            Mode::Private => self.num_private = self.num_private.saturating_add(1),
        }
    }

    /// Adds a constraint whose truth on the assigned values is `holds`.
    ///
    /// A constraint over constants only is not recorded and leaves the
    /// environment as it was.
    pub fn enforce(&mut self, over_constants: bool, holds: bool)
        ensures
            final(self).constants() == old(self).constants(),
            final(self).publics() == old(self).publics(),
            final(self).privates() == old(self).privates(),
            final(self).constraints() == (if over_constants { old(self).constraints() } else { bump(old(self).constraints()) }),
            final(self).satisfied() == (old(self).satisfied() && (over_constants || holds)),
    {
        if !over_constants {
            self.num_constraints = self.num_constraints.saturating_add(1);
            self.satisfied = self.satisfied && holds;
        }
    }
}

} // verus!
