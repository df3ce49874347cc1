//! The target graph: the closed set of modules of the repository, each with
//! a kind, a working directory relative to the repository root, and a list
//! of targets that must be built before it.  The scheduling order exposed by
//! [`Target::all`] is proved to be a topological order of the graph.

use vstd::prelude::*;

verus! {

/// Whether a target's toolchain is a native compiler (`Rs`) or a
/// transpiler / package manager (`Ts`).
#[derive(Clone, Copy, Debug, PartialEq, Eq, Structural)]
pub enum Kind {
    /// Built by the native compiler into `target/`.
    Rs,
    /// Built by the package manager into `node_modules/` and `dist/`.
    Ts,
}

/// A named module of the repository with its own build and test lifecycle.
#[derive(Clone, Copy, Debug, PartialEq, Eq, Structural)]
pub enum Target {
    /// Indexer core.
    Core,
    /// Platform code shared between client and bindings.
    Shared,
    /// Native bindings over the core.
    Binding,
    /// Transpiled wrapper around the native bindings.
    Wrapper,
    /// Wasm bindings.
    Wasm,
    /// Client application front-end.
    Client,
    /// Precompiled updater.
    Updater,
    /// Application holder bundling the parts.
    App,
    /// The workflow tool itself.
    Cli,
}

/// The number of targets.
pub const TARGET_COUNT: usize = 9;

/// Position of a target in the scheduling order: every dependency of a
/// target has a strictly smaller rank.
pub open spec fn rank(t: Target) -> int {
    match t {
        Target::Core => 0,
        Target::Shared => 1,
        Target::Binding => 2,
        Target::Wrapper => 3,
        Target::Wasm => 4,
        Target::Client => 5,
        Target::Updater => 6,
        Target::App => 7,
        Target::Cli => 8,
    }
}

/// The scheduling order over all targets.
pub open spec fn all_targets() -> Seq<Target> {
    seq![
        Target::Core,
        Target::Shared,
        Target::Binding,
        Target::Wrapper,
        Target::Wasm,
        Target::Client,
        Target::Updater,
        Target::App,
        Target::Cli,
    ]
}

/// The declared dependencies of a target, in declared order.
pub open spec fn deps_of(t: Target) -> Seq<Target> {
    match t {
        Target::Binding => seq![Target::Shared],
        Target::Wrapper => seq![Target::Binding, Target::Shared],
        Target::Client => seq![Target::Shared, Target::Wasm],
        Target::App => seq![Target::Wrapper, Target::Client, Target::Core, Target::Updater],
        _ => Seq::empty(),
    }
}

impl Target {
    /// Index of this target in the scheduling order; doubles as the key of
    /// the per-target tables kept by the coordinator and the records.
    pub fn index(&self) -> (r: usize)
        ensures
            r == rank(*self),
            r < TARGET_COUNT,
    {
        match self {
            Target::Core => 0,
            Target::Shared => 1,
            Target::Binding => 2,
            Target::Wrapper => 3,
            Target::Wasm => 4,
            Target::Client => 5,
            Target::Updater => 6,
            Target::App => 7,
            Target::Cli => 8,
        }
    }

    /// All targets, in scheduling order.
    pub fn all() -> (r: Vec<Target>)
        ensures
            r@ == all_targets(),
    {
        let mut v: Vec<Target> = Vec::new();
        v.push(Target::Core);
        v.push(Target::Shared);
        v.push(Target::Binding);
        v.push(Target::Wrapper);
        v.push(Target::Wasm);
        v.push(Target::Client);
        v.push(Target::Updater);
        v.push(Target::App);
        v.push(Target::Cli);
        proof {
            assert(v@ =~= all_targets());
        }
        v
    }

    /// Whether the target's toolchain is native or a transpiler.
    pub fn kind(&self) -> (r: Kind)
        ensures
            r == kind_of(*self),
    {
        match self {
            Target::Core => Kind::Rs,
            Target::Shared => Kind::Ts,
            Target::Binding => Kind::Rs,
            Target::Wrapper => Kind::Ts,
            Target::Wasm => Kind::Rs,
            Target::Client => Kind::Ts,
            Target::Updater => Kind::Rs,
            Target::App => Kind::Ts,
            Target::Cli => Kind::Rs,
        }
    }

    /// Working directory of the target, relative to the repository root.
    pub fn cwd(&self) -> (r: &'static str)
        ensures
            r@ == cwd_of(*self),
    {
        match self {
            Target::Core => "application/apps/indexer",
            Target::Shared => "application/platform",
            Target::Binding => "application/apps/rustcore/rs-bindings",
            Target::Wrapper => "application/apps/rustcore/ts-bindings",
            Target::Wasm => "application/apps/rustcore/wasm-bindings",
            Target::Client => "application/client",
            Target::Updater => "application/apps/precompiled/updater",
            Target::App => "application/holder",
            Target::Cli => "cli",
        }
    }

    /// Display and parse form of the target's name.
    pub fn name(&self) -> (r: &'static str)
        ensures
            r@ == name_of(*self),
    {
        match self {
            Target::Core => "Core",
            Target::Shared => "Shared",
            Target::Binding => "Binding",
            Target::Wrapper => "Wrapper",
            Target::Wasm => "Wasm",
            Target::Client => "Client",
            Target::Updater => "Updater",
            Target::App => "App",
            Target::Cli => "Cli",
        }
    }

    /// The targets that must be built before this one, in declared order.
    pub fn deps(&self) -> (r: Vec<Target>)
        ensures
            r@ == deps_of(*self),
    {
        let mut v: Vec<Target> = Vec::new();
        match self {
            Target::Binding => {
                v.push(Target::Shared);
            }
            Target::Wrapper => {
                v.push(Target::Binding);
                v.push(Target::Shared);
            }
            Target::Client => {
                v.push(Target::Shared);
                v.push(Target::Wasm);
            }
            Target::App => {
                v.push(Target::Wrapper);
                v.push(Target::Client);
                v.push(Target::Core);
                v.push(Target::Updater);
            }
            _ => {}
        }
        proof {
            assert(v@ =~= deps_of(*self));
        }
        v
    }
}

/// Kind of a target, at the specification level.
pub open spec fn kind_of(t: Target) -> Kind {
    match t {
        Target::Core => Kind::Rs,
        Target::Shared => Kind::Ts,
        Target::Binding => Kind::Rs,
        Target::Wrapper => Kind::Ts,
        Target::Wasm => Kind::Rs,
        Target::Client => Kind::Ts,
        Target::Updater => Kind::Rs,
        Target::App => Kind::Ts,
        Target::Cli => Kind::Rs,
    }
}

/// Working directory of a target, at the specification level.
pub open spec fn cwd_of(t: Target) -> Seq<char> {
    match t {
        Target::Core => "application/apps/indexer"@,
        Target::Shared => "application/platform"@,
        Target::Binding => "application/apps/rustcore/rs-bindings"@,
        Target::Wrapper => "application/apps/rustcore/ts-bindings"@,
        Target::Wasm => "application/apps/rustcore/wasm-bindings"@,
        Target::Client => "application/client"@,
        Target::Updater => "application/apps/precompiled/updater"@,
        Target::App => "application/holder"@,
        Target::Cli => "cli"@,
    }
}

/// Name of a target, at the specification level.
pub open spec fn name_of(t: Target) -> Seq<char> {
    match t {
        Target::Core => "Core"@,
        Target::Shared => "Shared"@,
        Target::Binding => "Binding"@,
        Target::Wrapper => "Wrapper"@,
        Target::Wasm => "Wasm"@,
        Target::Client => "Client"@,
        Target::Updater => "Updater"@,
        Target::App => "App"@,
        Target::Cli => "Cli"@,
    }
}

/// Exact-match parsing of a target name; any other string is rejected.
pub fn parse_target(name: &str) -> (r: Option<Target>)
    ensures
        match r {
            Some(t) => name@ == name_of(t),
            None => forall|t: Target| name@ != name_of(t),
        },
{
    let candidates = Target::all();
    let mut i: usize = 0;
    while i < candidates.len()
        invariant
            candidates@ == all_targets(),
            i <= candidates@.len(),
            forall|j: int| 0 <= j < i ==> name@ != name_of(candidates@[j]),
        decreases candidates@.len() - i,
    {
        let t = candidates[i];
        if str_eq(name, t.name()) {
            return Some(t);
        }
        i += 1;
    }
    proof {
        assert forall|t: Target| name@ != name_of(t) by {
            assert(all_targets()[rank(t)] == t);
            assert(name@ != name_of(all_targets()[rank(t)]));
        }
    }
    None
}

/// Character-for-character equality of two string slices.
pub fn str_eq(a: &str, b: &str) -> (r: bool)
    ensures
        r == (a@ == b@),
{
    let a_string = a.to_owned();
    let b_string = b.to_owned();
    a_string == b_string
}

/// The topological-order law: `rank` gives the position of each target in
/// the scheduling order, and every dependency of a target stands at a
/// strictly smaller position than the target itself.
pub proof fn lemma_topological_order()
    ensures
        forall|i: int| 0 <= i < all_targets().len() ==> rank(#[trigger] all_targets()[i]) == i,
        forall|t: Target| 0 <= #[trigger] rank(t) < all_targets().len() && all_targets()[rank(t)] == t,
        forall|t: Target, j: int|
            0 <= j < deps_of(t).len() ==> rank(#[trigger] deps_of(t)[j]) < rank(t),
{
    assert forall|t: Target, j: int| 0 <= j < deps_of(t).len()
        implies rank(#[trigger] deps_of(t)[j]) < rank(t) by {
        lemma_dependency_rank(t, j);
    }
}

/// The acyclicity law: `rank` is a ranking function for the dependency
/// relation — every dependency has a strictly smaller rank — so a
/// topological order over the relation exists (the scheduling order is
/// one) and the graph has no cycles.
pub proof fn lemma_dependency_rank(t: Target, j: int)
    requires
        0 <= j < deps_of(t).len(),
    ensures
        rank(deps_of(t)[j]) < rank(t),
{
}

} // verus!
