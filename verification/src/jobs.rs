//! Job types and job results.  A job is one (target, job-type) pair executed
//! as a unit; its definition is the key used by the build coordinator and the
//! line identity used by the progress tracker.

use vstd::prelude::*;
use crate::target::{Target, Kind, kind_of, name_of};

verus! {

/// The kind of work requested for a target.  The `production` flag alters
/// command flags and triggers a reinstall without development dependencies
/// after transpiled builds.
#[derive(Clone, Copy, Debug, PartialEq, Eq, Structural)]
pub enum JobType {
    Lint,
    Clean,
    Build { production: bool },
    Install { production: bool },
    AfterBuild { production: bool },
    Test { production: bool },
    Run { production: bool },
}

/// Whether a job type applies to a target.  Jobs that would be no-ops are
/// excluded: install only applies where a package manager must fetch
/// dependencies (transpiled targets, and the native binding whose install is
/// delegated to its transpiled wrapper), after-build only to targets that
/// publish artifacts into sibling trees, test only to targets with defined
/// test commands, run only to the application holder.
pub open spec fn has_job_spec(t: Target, job: JobType) -> bool {
    match job {
        JobType::Lint => true,
        JobType::Clean => true,
        JobType::Build { .. } => true,
        JobType::Install { .. } => kind_of(t) == Kind::Ts || t == Target::Binding,
        JobType::AfterBuild { .. } => t == Target::Binding || t == Target::Client
            || t == Target::App,
        JobType::Test { .. } => t == Target::Core || t == Target::Wrapper || t == Target::Wasm,
        JobType::Run { .. } => t == Target::App,
    }
}

impl Target {
    /// Whether `job` applies to this target.
    pub fn has_job(&self, job: JobType) -> (r: bool)
        ensures
            r == has_job_spec(*self, job),
    {
        match job {
            JobType::Lint => true,
            JobType::Clean => true,
            JobType::Build { .. } => true,
            JobType::Install { .. } => self.kind() == Kind::Ts || *self == Target::Binding,
            JobType::AfterBuild { .. } => *self == Target::Binding || *self == Target::Client
                || *self == Target::App,
            JobType::Test { .. } => *self == Target::Core || *self == Target::Wrapper
                || *self == Target::Wasm,
            JobType::Run { .. } => *self == Target::App,
        }
    }
}

/// The verb under which a job type is displayed.
pub open spec fn job_verb(job: JobType) -> Seq<char> {
    match job {
        JobType::Lint => "Lint"@,
        JobType::Clean => "Clean"@,
        JobType::Build { .. } => "Build"@,
        JobType::Install { .. } => "Install"@,
        JobType::AfterBuild { .. } => "After build"@,
        JobType::Test { .. } => "Test"@,
        JobType::Run { .. } => "Run"@,
    }
}

/// A (target, job-type) pair executed as one unit.
#[derive(Clone, Copy, Debug, PartialEq, Eq, Structural)]
pub struct JobDefinition {
    pub target: Target,
    pub job_type: JobType,
}

impl JobDefinition {
    pub fn new(target: Target, job_type: JobType) -> (r: JobDefinition)
        ensures
            r.target == target,
            r.job_type == job_type,
    {
        JobDefinition { target, job_type }
    }

    /// Display label of the job: the verb, a space, and the target name.
    pub fn label(&self) -> (r: String)
        ensures
            r@ == job_verb(self.job_type) + " "@ + name_of(self.target),
    {
        let verb: &str = match self.job_type {
            JobType::Lint => "Lint",
            JobType::Clean => "Clean",
            JobType::Build { .. } => "Build",
            JobType::Install { .. } => "Install",
            JobType::AfterBuild { .. } => "After build",
            JobType::Test { .. } => "Test",
            JobType::Run { .. } => "Run",
        };
        let mut s = verb.to_owned();
        s.append(" ");
        s.append(self.target.name());
        s
    }
}

/// Exit disposition of one executed (or skipped) job.
#[derive(Clone, Copy, Debug, PartialEq, Eq, Structural)]
pub enum JobStatus {
    /// The underlying command ran and exited successfully.
    Success,
    /// A synthetic success: the command was not run because its inputs were
    /// unchanged.
    Skipped,
    /// The underlying command ran and exited with a failure.
    Failed,
}

impl JobStatus {
    /// Success or skip; a skipped job counts as a successful one.
    pub fn is_ok(&self) -> (r: bool)
        ensures
            r == (*self != JobStatus::Failed),
    {
        match self {
            JobStatus::Failed => false,
            _ => true,
        }
    }
}

/// The value a build computes once and the coordinator hands to every
/// caller: the exit disposition together with the output text — the name
/// of the built target; the per-step logs live in the session's job log,
/// one record per step, in emission order.
#[derive(Debug, PartialEq, Eq)]
pub struct BuildResult {
    pub status: JobStatus,
    pub output: String,
}

impl Clone for BuildResult {
    /// A clone carries the very value: each waiter receives a result equal
    /// to the one the executor computed.
    fn clone(&self) -> (r: BuildResult)
        ensures
            r == *self,
    {
        BuildResult { status: self.status, output: self.output.clone() }
    }
}

} // verus!
