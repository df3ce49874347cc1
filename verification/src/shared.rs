//! The module description of the Shared platform target: the code shared
//! between the client and the bindings.  It is transpiled, lives under the
//! platform directory, and depends on nothing.

use vstd::prelude::*;
use crate::target::{cwd_of, deps_of, kind_of, Kind, Target};

verus! {

/// The per-module manager of the Shared target.
#[derive(Clone, Debug)]
pub struct Module {}

impl Module {
    pub fn new() -> (r: Module) {
        Module {}
    }

    /// The target this module manages.
    pub fn owner(&self) -> (r: Target)
        ensures
            r == Target::Shared,
    {
        Target::Shared
    }

    /// The Shared target is transpiled.
    pub fn kind(&self) -> (r: Kind)
        ensures
            r == kind_of(Target::Shared),
            r == Kind::Ts,
    {
        Kind::Ts
    }

    /// The module's working directory, relative to the repository root.
    pub fn cwd(&self) -> (r: &'static str)
        ensures
            r@ == cwd_of(Target::Shared),
    {
        Target::Shared.cwd()
    }

    /// The Shared target depends on nothing.
    pub fn deps(&self) -> (r: Vec<Target>)
        ensures
            r@ == deps_of(Target::Shared),
            r@.len() == 0,
    {
        Vec::new()
    }
}

} // verus!
