//! The build coordinator: one state machine per target, serializing
//! concurrent `build` calls.  A target is Unstarted until the first caller
//! registers; that caller alone becomes the executor, later callers wait;
//! when the executor publishes, the stored result is handed — by value —
//! to every waiter, and every later caller receives it immediately.  The
//! at-most-one-execution law is proved over traces of the state machine.

use vstd::prelude::*;
use vstd::pervasive::unreached;
use crate::jobs::{BuildResult, JobStatus};
use crate::target::{rank, Target, TARGET_COUNT};

verus! {

/// The stored state of one target that has been registered at least once.
#[derive(Debug)]
pub enum BuildState {
    /// A build is under way; the single-shot reply channels of the callers
    /// that arrived while it ran, by their identifiers.
    Running { waiters: Vec<u64> },
    /// The build completed; the result every later caller receives.
    Finished { result: BuildResult },
}

/// What a registering caller is told.
#[derive(Debug)]
pub enum RegisterOutcome {
    /// The target was Unstarted: the caller must execute the build and
    /// publish its result.
    Execute,
    /// A build is already running: the caller's waiter was enqueued and
    /// will receive the published result.
    Wait,
    /// The build already finished: the stored result, by value.
    Done(BuildResult),
}

/// The abstract per-target state the trace laws speak of.
pub enum CoordState {
    Unstarted,
    Running { waiters: Seq<u64> },
    Finished { status: JobStatus, output: Seq<char> },
}

/// One abstract operation on a single target's state machine.
pub enum CoordOp {
    Register { waiter: u64 },
    Publish { status: JobStatus, output: Seq<char> },
}

/// The transition function of the per-target state machine.
pub open spec fn coord_step(s: CoordState, op: CoordOp) -> CoordState {
    match op {
        CoordOp::Register { waiter } => match s {
            CoordState::Unstarted => CoordState::Running { waiters: seq![waiter] },
            CoordState::Running { waiters } => CoordState::Running {
                waiters: waiters.push(waiter),
            },
            CoordState::Finished { .. } => s,
        },
        CoordOp::Publish { status, output } => match s {
            CoordState::Running { .. } => CoordState::Finished { status, output },
            _ => s,
        },
    }
}

/// Whether an operation makes its caller the executor.
pub open spec fn grants_execute(s: CoordState, op: CoordOp) -> bool {
    op is Register && s is Unstarted
}

/// The state after a sequence of operations.
pub open spec fn coord_run(s: CoordState, ops: Seq<CoordOp>) -> CoordState
    decreases ops.len(),
{
    if ops.len() == 0 {
        s
    } else {
        coord_run(coord_step(s, ops[0]), ops.drop_first())
    }
}

/// How many operations of a sequence are granted Execute.
pub open spec fn count_executes(s: CoordState, ops: Seq<CoordOp>) -> nat
    decreases ops.len(),
{
    if ops.len() == 0 {
        0
    } else {
        (if grants_execute(s, ops[0]) {
            1nat
        } else {
            0nat
        }) + count_executes(coord_step(s, ops[0]), ops.drop_first())
    }
}

/// From a started target no operation is ever granted Execute.
pub proof fn lemma_no_execute_once_started(s: CoordState, ops: Seq<CoordOp>)
    requires
        !(s is Unstarted),
    ensures
        count_executes(s, ops) == 0,
    decreases ops.len(),
{
    if ops.len() > 0 {
        lemma_no_execute_once_started(coord_step(s, ops[0]), ops.drop_first());
    }
}

/// The at-most-one-execution law: along any sequence of operations on one
/// target, starting Unstarted, at most one caller is granted Execute.
pub proof fn lemma_at_most_one_execute(ops: Seq<CoordOp>)
    ensures
        count_executes(CoordState::Unstarted, ops) <= 1,
    decreases ops.len(),
{
    if ops.len() > 0 {
        let next = coord_step(CoordState::Unstarted, ops[0]);
        if grants_execute(CoordState::Unstarted, ops[0]) {
            lemma_no_execute_once_started(next, ops.drop_first());
        } else {
            assert(next is Unstarted);
            lemma_at_most_one_execute(ops.drop_first());
        }
    }
}

/// A published result is stable: once Finished, every later operation
/// leaves the state — and so the result every caller receives — unchanged.
pub proof fn lemma_finished_is_stable(s: CoordState, ops: Seq<CoordOp>)
    requires
        s is Finished,
    ensures
        coord_run(s, ops) == s,
    decreases ops.len(),
{
    if ops.len() > 0 {
        lemma_finished_is_stable(coord_step(s, ops[0]), ops.drop_first());
    }
}

/// The concrete coordinator: the per-target states, Unstarted targets
/// absent.
#[derive(Debug)]
pub struct Coordinator {
    pub states: Vec<Option<BuildState>>,
}

/// The abstract state of one target under a coordinator.
pub open spec fn abs_state(c: Coordinator, t: Target) -> CoordState {
    match c.states@[rank(t)] {
        None => CoordState::Unstarted,
        Some(BuildState::Running { waiters }) => CoordState::Running { waiters: waiters@ },
        Some(BuildState::Finished { result }) => CoordState::Finished {
            status: result.status,
            output: result.output@,
        },
    }
}

impl Coordinator {
    /// One slot per target.
    pub open spec fn wf(self) -> bool {
        self.states@.len() == TARGET_COUNT
    }

    /// A fresh coordinator: every target Unstarted.
    pub fn new() -> (r: Coordinator)
        ensures
            r.wf(),
            forall|t: Target| abs_state(r, t) is Unstarted,
    {
        let mut states: Vec<Option<BuildState>> = Vec::new();
        let mut i: usize = 0;
        while i < TARGET_COUNT
            invariant
                i <= TARGET_COUNT,
                states@.len() == i,
                forall|j: int| 0 <= j < i ==> states@[j] is None,
            decreases TARGET_COUNT - i,
        {
            states.push(None);
            i += 1;
        }
        let r = Coordinator { states };
        proof {
            assert forall|t: Target| abs_state(r, t) is Unstarted by {
                assert(r.states@[rank(t)] is None);
            }
        }
        r
    }

    /// Register a caller's intent to build `t`, with the identifier of its
    /// reply channel.  The outcome follows the state machine: the first
    /// caller executes, callers during the run wait, and callers after
    /// completion receive the stored result at once.
    pub fn register(&mut self, t: Target, waiter: u64) -> (r: RegisterOutcome)
        requires
            old(self).wf(),
        ensures
            final(self).wf(),
            abs_state(*final(self), t) == coord_step(
                abs_state(*old(self), t),
                CoordOp::Register { waiter },
            ),
            (r is Execute) == grants_execute(abs_state(*old(self), t), CoordOp::Register { waiter }),
            (r is Wait) == abs_state(*old(self), t) is Running,
            match r {
                RegisterOutcome::Done(result) => abs_state(*old(self), t) == (CoordState::Finished {
                    status: result.status,
                    output: result.output@,
                }),
                _ => !(abs_state(*old(self), t) is Finished),
            },
            forall|u: Target| rank(u) != rank(t) ==> abs_state(*final(self), u) == abs_state(
                *old(self),
                u,
            ),
    {
        let idx = t.index();
        let ghost before = self.states@;
        let state = self.states.remove(idx);
        let (new_state, outcome) = match state {
            None => {
                let mut waiters: Vec<u64> = Vec::new();
                waiters.push(waiter);
                proof {
                    assert(waiters@ =~= seq![waiter]);
                }
                (Some(BuildState::Running { waiters }), RegisterOutcome::Execute)
            }
            Some(BuildState::Running { mut waiters }) => {
                waiters.push(waiter);
                (Some(BuildState::Running { waiters }), RegisterOutcome::Wait)
            }
            Some(BuildState::Finished { result }) => {
                let r = result.clone();
                (Some(BuildState::Finished { result }), RegisterOutcome::Done(r))
            }
        };
        self.states.insert(idx, new_state);
        proof {
            assert(self.states@ =~= before.update(idx as int, new_state));
        }
        outcome
    }

    /// Publish the executor's result: the target becomes Finished with it,
    /// and the enqueued waiter identifiers are returned so each can be sent
    /// a value equal to the published result.
    pub fn publish(&mut self, t: Target, result: BuildResult) -> (waiters: Vec<u64>)
        requires
            old(self).wf(),
            abs_state(*old(self), t) is Running,
        ensures
            final(self).wf(),
            abs_state(*final(self), t) == coord_step(
                abs_state(*old(self), t),
                CoordOp::Publish { status: result.status, output: result.output@ },
            ),
            abs_state(*old(self), t) matches CoordState::Running { waiters: ws } ==> waiters@
                == ws,
            forall|u: Target| rank(u) != rank(t) ==> abs_state(*final(self), u) == abs_state(
                *old(self),
                u,
            ),
    {
        let idx = t.index();
        let ghost before = self.states@;
        let state = self.states.remove(idx);
        let waiters = if let Some(BuildState::Running { waiters }) = state {
            waiters
        } else {
            unreached()
        };
        self.states.insert(idx, Some(BuildState::Finished { result }));
        proof {
            assert(self.states@ =~= before.update(
                idx as int,
                Some(BuildState::Finished { result }),
            ));
        }
        waiters
    }
}

} // verus!
