//! The job orchestrator: the per-job algorithms over the target graph.
//! Subprocesses and the file tree stay outside and are handed in as plain
//! values — the freshly computed digest of each target's sources and the
//! exit of each target's commands — so every decision the orchestrator
//! makes is a function of those values, stated by `pure_build_status` and
//! proved of the executable algorithm.

use vstd::prelude::*;
use vstd::pervasive::unreached;
use crate::checksum::{changed_spec, stored_digest, ChecksumRecords};
use crate::coordinator::{abs_state, Coordinator, CoordState, RegisterOutcome};
use crate::jobs::{has_job_spec, BuildResult, JobDefinition, JobStatus, JobType};
use crate::target::{
    cwd_of, deps_of, kind_of, lemma_dependency_rank, name_of, rank, Kind, Target,
};

verus! {

/// What the outside world would answer, handed in as plain values: the
/// current content digest of each target's sources, and whether each
/// target's commands would exit successfully — all indexed by rank.
#[derive(Debug)]
pub struct BuildEnv {
    pub current_digests: Vec<String>,
    pub install_ok: Vec<bool>,
    pub build_ok: Vec<bool>,
    pub lint_ok: Vec<bool>,
    pub test_ok: Vec<bool>,
}

impl BuildEnv {
    /// One answer per target.
    pub open spec fn wf(self) -> bool {
        &&& self.current_digests@.len() == crate::target::TARGET_COUNT
        &&& self.install_ok@.len() == crate::target::TARGET_COUNT
        &&& self.build_ok@.len() == crate::target::TARGET_COUNT
        &&& self.lint_ok@.len() == crate::target::TARGET_COUNT
        &&& self.test_ok@.len() == crate::target::TARGET_COUNT
    }
}

/// One tracker-visible job with its outcome, in emission order.
#[derive(Clone, Copy, Debug, PartialEq, Eq, Structural)]
pub struct JobRecord {
    pub job: JobDefinition,
    pub status: JobStatus,
}

/// Whether an install actually runs a command for this target: transpiled
/// targets fetch their packages, and the native binding's install is
/// delegated to its transpiled wrapper — which is why the wrapper's own
/// install, called directly, is a no-op.
pub open spec fn install_applies(t: Target) -> bool {
    (kind_of(t) == Kind::Ts && t != Target::Wrapper) || t == Target::Binding
}

/// Whether the install step of a build would succeed: vacuously where no
/// install command runs.
pub open spec fn install_ok_for(t: Target, env: BuildEnv) -> bool {
    !install_applies(t) || env.install_ok@[rank(t)]
}

/// The status a build of `t` computes, as a pure function of the outside
/// answers and of the digests recorded at session start: failed when some
/// dependency fails, when the install step fails, or when the build
/// command fails; skipped when every dependency was skipped and the
/// current digest equals the recorded one; successful otherwise.
pub open spec fn pure_build_status(t: Target, env: BuildEnv, base: ChecksumRecords) -> JobStatus
    decreases rank(t),
{
    if exists|j: int|
        0 <= j < deps_of(t).len() && rank(deps_of(t)[j]) < rank(t) && pure_build_status(
            deps_of(t)[j],
            env,
            base,
        ) == JobStatus::Failed {
        JobStatus::Failed
    } else if !install_ok_for(t, env) {
        JobStatus::Failed
    } else if (forall|j: int|
        0 <= j < deps_of(t).len() && rank(deps_of(t)[j]) < rank(t) ==> pure_build_status(
            deps_of(t)[j],
            env,
            base,
        ) == JobStatus::Skipped) && !changed_spec(
        stored_digest(base, t),
        env.current_digests@[rank(t)]@,
    ) {
        JobStatus::Skipped
    } else if env.build_ok@[rank(t)] {
        JobStatus::Success
    } else {
        JobStatus::Failed
    }
}

/// The set of targets the coordinator has finished.
pub open spec fn finished_set(c: Coordinator) -> Set<Target> {
    Set::new(|u: Target| abs_state(c, u) is Finished)
}

/// The job records the executor of a build appends for the target itself:
/// nothing when a dependency failed; otherwise the install record, then
/// the build record — skipped, successful or failed — and, after a build
/// that did not fail, the after-build record and, on production transpiled
/// builds, the dev-dependency strip with its production re-install.
#[verifier::opaque]
pub open spec fn own_records(
    t: Target,
    production: bool,
    env: BuildEnv,
    base: ChecksumRecords,
) -> Seq<JobRecord> {
    if exists|j: int|
        0 <= j < deps_of(t).len() && rank(deps_of(t)[j]) < rank(t) && pure_build_status(
            deps_of(t)[j],
            env,
            base,
        ) == JobStatus::Failed {
        Seq::empty()
    } else {
        let install_recs: Seq<JobRecord> = if install_applies(t) {
            seq![
                JobRecord {
                    job: JobDefinition { target: t, job_type: JobType::Install { production } },
                    status: if env.install_ok@[rank(t)] {
                        JobStatus::Success
                    } else {
                        JobStatus::Failed
                    },
                },
            ]
        } else {
            Seq::empty()
        };
        if install_applies(t) && !env.install_ok@[rank(t)] {
            install_recs
        } else {
            let skip = (forall|j: int|
                0 <= j < deps_of(t).len() && rank(deps_of(t)[j]) < rank(t) ==> pure_build_status(
                    deps_of(t)[j],
                    env,
                    base,
                ) == JobStatus::Skipped) && !changed_spec(
                stored_digest(base, t),
                env.current_digests@[rank(t)]@,
            );
            let bstatus = if skip {
                JobStatus::Skipped
            } else if env.build_ok@[rank(t)] {
                JobStatus::Success
            } else {
                JobStatus::Failed
            };
            let build_recs = install_recs + seq![
                JobRecord {
                    job: JobDefinition { target: t, job_type: JobType::Build { production } },
                    status: bstatus,
                },
            ];
            if bstatus == JobStatus::Failed {
                build_recs
            } else {
                let after_recs: Seq<JobRecord> = if has_job_spec(
                    t,
                    JobType::AfterBuild { production },
                ) {
                    seq![
                        JobRecord {
                            job: JobDefinition {
                                target: t,
                                job_type: JobType::AfterBuild { production },
                            },
                            status: JobStatus::Success,
                        },
                    ]
                } else {
                    Seq::empty()
                };
                let prod_recs: Seq<JobRecord> = if production && kind_of(t) == Kind::Ts {
                    seq![
                        JobRecord {
                            job: JobDefinition { target: t, job_type: JobType::Clean },
                            status: JobStatus::Success,
                        },
                    ] + if install_applies(t) {
                        seq![
                            JobRecord {
                                job: JobDefinition {
                                    target: t,
                                    job_type: JobType::Install { production: true },
                                },
                                status: JobStatus::Success,
                            },
                        ]
                    } else {
                        Seq::empty()
                    }
                } else {
                    Seq::empty()
                };
                build_recs + after_recs + prod_recs
            }
        }
    }
}

/// The job log a build of `t` appends, given the set of targets already
/// finished: nothing for a finished target; otherwise the records of its
/// dependencies, built in declared order up to and including the first
/// failing one, followed by the executor's own records.
pub open spec fn plan_log(
    t: Target,
    production: bool,
    env: BuildEnv,
    base: ChecksumRecords,
    done: Set<Target>,
) -> Seq<JobRecord>
    decreases rank(t), 1int, 0int,
{
    if done.contains(t) {
        Seq::empty()
    } else {
        deps_plan_log(rank(t), deps_of(t), production, env, base, done) + own_records(
            t,
            production,
            env,
            base,
        )
    }
}

/// The set of finished targets after a build of `t`.
pub open spec fn plan_done(
    t: Target,
    production: bool,
    env: BuildEnv,
    base: ChecksumRecords,
    done: Set<Target>,
) -> Set<Target>
    decreases rank(t), 1int, 0int,
{
    if done.contains(t) {
        done
    } else {
        deps_plan_done(rank(t), deps_of(t), production, env, base, done).insert(t)
    }
}

/// The records of a dependency list built in declared order, stopping
/// after the first failing dependency; `bound` bounds the ranks.
pub open spec fn deps_plan_log(
    bound: int,
    list: Seq<Target>,
    production: bool,
    env: BuildEnv,
    base: ChecksumRecords,
    done: Set<Target>,
) -> Seq<JobRecord>
    decreases bound, 0int, list.len(),
{
    if list.len() == 0 {
        Seq::empty()
    } else if 0 <= rank(list[0]) < bound {
        let head_log = plan_log(list[0], production, env, base, done);
        if pure_build_status(list[0], env, base) == JobStatus::Failed {
            head_log
        } else {
            head_log + deps_plan_log(
                bound,
                list.drop_first(),
                production,
                env,
                base,
                plan_done(list[0], production, env, base, done),
            )
        }
    } else {
        Seq::empty()
    }
}

/// The set of finished targets after a dependency list was built in
/// declared order, stopping after the first failing dependency.
pub open spec fn deps_plan_done(
    bound: int,
    list: Seq<Target>,
    production: bool,
    env: BuildEnv,
    base: ChecksumRecords,
    done: Set<Target>,
) -> Set<Target>
    decreases bound, 0int, list.len(),
{
    if list.len() == 0 {
        done
    } else if 0 <= rank(list[0]) < bound {
        let head_done = plan_done(list[0], production, env, base, done);
        if pure_build_status(list[0], env, base) == JobStatus::Failed {
            head_done
        } else {
            deps_plan_done(bound, list.drop_first(), production, env, base, head_done)
        }
    } else {
        done
    }
}

/// Appending one more dependency to an all-successful prefix extends its
/// plan by that dependency's own plan, run from the prefix's finished set.
proof fn lemma_deps_plan_snoc(
    bound: int,
    list: Seq<Target>,
    x: Target,
    production: bool,
    env: BuildEnv,
    base: ChecksumRecords,
    done: Set<Target>,
)
    requires
        0 <= rank(x) < bound,
        forall|i: int| 0 <= i < list.len() ==> 0 <= rank(#[trigger] list[i]) < bound,
        forall|i: int|
            0 <= i < list.len() ==> pure_build_status(#[trigger] list[i], env, base)
                != JobStatus::Failed,
    ensures
        deps_plan_log(bound, list.push(x), production, env, base, done) == deps_plan_log(
            bound,
            list,
            production,
            env,
            base,
            done,
        ) + plan_log(
            x,
            production,
            env,
            base,
            deps_plan_done(bound, list, production, env, base, done),
        ),
        deps_plan_done(bound, list.push(x), production, env, base, done) == plan_done(
            x,
            production,
            env,
            base,
            deps_plan_done(bound, list, production, env, base, done),
        ),
    decreases list.len(),
{
    if list.len() == 0 {
        let x_log = plan_log(x, production, env, base, done);
        assert(list.push(x)[0] == x);
        assert(list.push(x).drop_first() =~= Seq::<Target>::empty());
        assert(list.push(x).drop_first() == Seq::<Target>::empty());
        assert(deps_plan_log(
            bound,
            Seq::<Target>::empty(),
            production,
            env,
            base,
            plan_done(x, production, env, base, done),
        ) == Seq::<JobRecord>::empty());
        assert(x_log + Seq::<JobRecord>::empty() =~= x_log);
        assert(Seq::<JobRecord>::empty() + x_log =~= x_log);
        assert(deps_plan_log(bound, list, production, env, base, done)
            == Seq::<JobRecord>::empty());
        assert(deps_plan_done(bound, list, production, env, base, done) == done);
        assert(deps_plan_done(
            bound,
            Seq::<Target>::empty(),
            production,
            env,
            base,
            plan_done(x, production, env, base, done),
        ) == plan_done(x, production, env, base, done));
    } else {
        let hd = list[0];
        let tl = list.drop_first();
        let hd_done = plan_done(hd, production, env, base, done);
        assert(list.push(x)[0] == hd);
        assert(list.push(x).drop_first() =~= tl.push(x));
        assert(list.push(x).drop_first() == tl.push(x));
        assert(0 <= rank(hd) < bound);
        assert(pure_build_status(hd, env, base) != JobStatus::Failed);
        assert forall|i: int| 0 <= i < tl.len() implies 0 <= rank(#[trigger] tl[i]) < bound by {
            assert(tl[i] == list[i + 1]);
        }
        assert forall|i: int| 0 <= i < tl.len() implies pure_build_status(
            #[trigger] tl[i],
            env,
            base,
        ) != JobStatus::Failed by {
            assert(tl[i] == list[i + 1]);
        }
        lemma_deps_plan_snoc(bound, tl, x, production, env, base, hd_done);
        let hd_log = plan_log(hd, production, env, base, done);
        let tl_log = deps_plan_log(bound, tl, production, env, base, hd_done);
        let x_log = plan_log(
            x,
            production,
            env,
            base,
            deps_plan_done(bound, tl, production, env, base, hd_done),
        );
        assert(deps_plan_log(bound, list.push(x), production, env, base, done) == hd_log + (tl_log
            + x_log));
        assert(hd_log + (tl_log + x_log) =~= (hd_log + tl_log) + x_log);
        assert(deps_plan_log(bound, list, production, env, base, done) == hd_log + tl_log);
        assert(deps_plan_done(bound, list, production, env, base, done) == deps_plan_done(
            bound,
            tl,
            production,
            env,
            base,
            hd_done,
        ));
    }
}

/// A dependency list's plan stops after its first failing dependency: the
/// list and its prefix through that dependency have the same plan.
proof fn lemma_deps_plan_stop(
    bound: int,
    list: Seq<Target>,
    m: int,
    production: bool,
    env: BuildEnv,
    base: ChecksumRecords,
    done: Set<Target>,
)
    requires
        0 <= m < list.len(),
        forall|i: int| 0 <= i <= m ==> 0 <= rank(#[trigger] list[i]) < bound,
        forall|i: int|
            0 <= i < m ==> pure_build_status(#[trigger] list[i], env, base) != JobStatus::Failed,
        pure_build_status(list[m], env, base) == JobStatus::Failed,
    ensures
        deps_plan_log(bound, list, production, env, base, done) == deps_plan_log(
            bound,
            list.subrange(0, m + 1),
            production,
            env,
            base,
            done,
        ),
        deps_plan_done(bound, list, production, env, base, done) == deps_plan_done(
            bound,
            list.subrange(0, m + 1),
            production,
            env,
            base,
            done,
        ),
    decreases list.len(),
{
    let prefix = list.subrange(0, m + 1);
    assert(prefix[0] == list[0]);
    if m == 0 {
    } else {
        assert(prefix.drop_first() =~= list.drop_first().subrange(0, m));
        assert forall|i: int| 0 <= i <= m - 1 implies 0 <= rank(
            #[trigger] list.drop_first()[i],
        ) < bound by {
            assert(list.drop_first()[i] == list[i + 1]);
        }
        assert forall|i: int| 0 <= i < m - 1 implies pure_build_status(
            #[trigger] list.drop_first()[i],
            env,
            base,
        ) != JobStatus::Failed by {
            assert(list.drop_first()[i] == list[i + 1]);
        }
        assert(list.drop_first()[m - 1] == list[m]);
        lemma_deps_plan_stop(
            bound,
            list.drop_first(),
            m - 1,
            production,
            env,
            base,
            plan_done(list[0], production, env, base, done),
        );
    }
}

/// A build never unfinishes anything: the finished set only grows.
proof fn lemma_plan_done_grows(
    t: Target,
    production: bool,
    env: BuildEnv,
    base: ChecksumRecords,
    done: Set<Target>,
)
    ensures
        forall|u: Target|
            done.contains(u) ==> #[trigger] plan_done(t, production, env, base, done).contains(u),
    decreases rank(t), 1int, 0int,
{
    if !done.contains(t) {
        lemma_deps_plan_done_grows(rank(t), deps_of(t), production, env, base, done);
        assert forall|u: Target| done.contains(u) implies #[trigger] plan_done(
            t,
            production,
            env,
            base,
            done,
        ).contains(u) by {
            assert(deps_plan_done(rank(t), deps_of(t), production, env, base, done).contains(u));
        }
    }
}

/// Building a dependency list never unfinishes anything.
proof fn lemma_deps_plan_done_grows(
    bound: int,
    list: Seq<Target>,
    production: bool,
    env: BuildEnv,
    base: ChecksumRecords,
    done: Set<Target>,
)
    ensures
        forall|u: Target|
            done.contains(u) ==> #[trigger] deps_plan_done(
                bound,
                list,
                production,
                env,
                base,
                done,
            ).contains(u),
    decreases bound, 0int, list.len(),
{
    if list.len() == 0 {
    } else if 0 <= rank(list[0]) < bound {
        let head_done = plan_done(list[0], production, env, base, done);
        lemma_plan_done_grows(list[0], production, env, base, done);
        if pure_build_status(list[0], env, base) != JobStatus::Failed {
            lemma_deps_plan_done_grows(bound, list.drop_first(), production, env, base, head_done);
            assert forall|u: Target| done.contains(u) implies #[trigger] deps_plan_done(
                bound,
                list,
                production,
                env,
                base,
                done,
            ).contains(u) by {
                assert(head_done.contains(u));
                assert(deps_plan_done(
                    bound,
                    list.drop_first(),
                    production,
                    env,
                    base,
                    head_done,
                ).contains(u));
            }
        } else {
            assert forall|u: Target| done.contains(u) implies #[trigger] deps_plan_done(
                bound,
                list,
                production,
                env,
                base,
                done,
            ).contains(u) by {
                assert(head_done.contains(u));
            }
        }
    }
}

/// A build leaves its own target finished.
proof fn lemma_plan_done_contains_self(
    t: Target,
    production: bool,
    env: BuildEnv,
    base: ChecksumRecords,
    done: Set<Target>,
)
    ensures
        plan_done(t, production, env, base, done).contains(t) || done.contains(t),
        done.contains(t) ==> plan_done(t, production, env, base, done) == done,
{
}

/// Building a dependency list finishes every dependency up to and
/// including the first failing one.
proof fn lemma_deps_plan_done_covers(
    bound: int,
    list: Seq<Target>,
    production: bool,
    env: BuildEnv,
    base: ChecksumRecords,
    done: Set<Target>,
    j: int,
)
    requires
        0 <= j < list.len(),
        forall|i: int| 0 <= i < list.len() ==> 0 <= rank(#[trigger] list[i]) < bound,
        forall|k: int|
            0 <= k < j ==> pure_build_status(#[trigger] list[k], env, base) != JobStatus::Failed,
    ensures
        deps_plan_done(bound, list, production, env, base, done).contains(list[j]),
    decreases list.len(),
{
    let head = list[0];
    let head_done = plan_done(head, production, env, base, done);
    lemma_plan_done_contains_self(head, production, env, base, done);
    assert(head_done.contains(head));
    if j == 0 {
        if pure_build_status(head, env, base) != JobStatus::Failed {
            lemma_deps_plan_done_grows(
                bound,
                list.drop_first(),
                production,
                env,
                base,
                head_done,
            );
            assert(deps_plan_done(
                bound,
                list.drop_first(),
                production,
                env,
                base,
                head_done,
            ).contains(head));
        }
    } else {
        let tl = list.drop_first();
        assert forall|i: int| 0 <= i < tl.len() implies 0 <= rank(#[trigger] tl[i]) < bound by {
            assert(tl[i] == list[i + 1]);
        }
        assert forall|k: int| 0 <= k < j - 1 implies pure_build_status(
            #[trigger] tl[k],
            env,
            base,
        ) != JobStatus::Failed by {
            assert(tl[k] == list[k + 1]);
        }
        lemma_deps_plan_done_covers(bound, tl, production, env, base, head_done, j - 1);
        assert(tl[j - 1] == list[j]);
    }
}

/// After a build of an unstarted target, the target stands Finished, and
/// so does each declared dependency up to and including the first failing
/// one — in particular every dependency when none fails.
pub proof fn lemma_build_finishes_dependencies(
    t: Target,
    production: bool,
    env: BuildEnv,
    base: ChecksumRecords,
    done: Set<Target>,
    j: int,
)
    requires
        !done.contains(t),
        0 <= j < deps_of(t).len(),
        forall|k: int|
            0 <= k < j ==> pure_build_status(#[trigger] deps_of(t)[k], env, base)
                != JobStatus::Failed,
    ensures
        plan_done(t, production, env, base, done).contains(t),
        plan_done(t, production, env, base, done).contains(deps_of(t)[j]),
{
    assert forall|i: int| 0 <= i < deps_of(t).len() implies 0 <= rank(
        #[trigger] deps_of(t)[i],
    ) < rank(t) by {
        lemma_dependency_rank(t, i);
    }
    lemma_deps_plan_done_covers(rank(t), deps_of(t), production, env, base, done, j);
}

/// A session: the coordinator, the live checksum records, the emitted job
/// log, and — as a ghost — the records as they stood when the session
/// began, which the pure build status is a function of.
pub struct Session {
    pub coordinator: Coordinator,
    pub records: ChecksumRecords,
    pub log: Vec<JobRecord>,
    pub next_waiter: u64,
    pub base: Ghost<ChecksumRecords>,
}

impl Session {
    /// The session invariant: whatever the coordinator has finished agrees
    /// with the pure build status, the stored output is the target's name,
    /// and the live records hold the session-start digests except for the
    /// targets whose build ran and succeeded, which hold today's digest.
    pub open spec fn inv(self, env: BuildEnv) -> bool {
        &&& self.coordinator.wf()
        &&& self.records.wf()
        &&& self.base@.wf()
        &&& env.wf()
        &&& self.records.production == self.base@.production
        &&& forall|u: Target|
            (#[trigger] abs_state(self.coordinator, u)) matches CoordState::Finished {
                status,
                output,
            } ==> status == pure_build_status(u, env, self.base@) && output == name_of(u)
        &&& forall|u: Target|
            #[trigger] self.records.entries@[rank(u)] == if abs_state(self.coordinator, u)
                is Finished && pure_build_status(u, env, self.base@) == JobStatus::Success {
                Some(env.current_digests@[rank(u)])
            } else {
                self.base@.entries@[rank(u)]
            }
    }

    /// A fresh session over the given records.
    pub fn new(records: ChecksumRecords) -> (r: Session)
        requires
            records.wf(),
        ensures
            r.records == records,
            r.base@ == records,
            r.log@.len() == 0,
            forall|u: Target| abs_state(r.coordinator, u) is Unstarted,
            forall|env: BuildEnv| env.wf() ==> r.inv(env),
    {
        let ghost base = records;
        let r = Session {
            coordinator: Coordinator::new(),
            records,
            log: Vec::new(),
            next_waiter: 0,
            base: Ghost(base),
        };
        r
    }

    /// The install job: a no-op for targets without one; with `skip` set a
    /// skip placeholder is logged; otherwise the command's exit decides.
    /// For the native binding the command that runs is its transpiled
    /// wrapper's install — the job is logged under the binding's name.
    pub fn install(&mut self, t: Target, production: bool, skip: bool, env: &BuildEnv) -> (r:
        JobStatus)
        requires
            env.wf(),
        ensures
            final(self).coordinator == old(self).coordinator,
            final(self).records == old(self).records,
            final(self).next_waiter == old(self).next_waiter,
            final(self).base == old(self).base,
            !install_applies(t) ==> r == JobStatus::Success && final(self).log == old(self).log,
            install_applies(t) && skip ==> r == JobStatus::Skipped && final(self).log@ == old(
                self,
            ).log@.push(
                JobRecord {
                    job: JobDefinition { target: t, job_type: JobType::Install { production } },
                    status: JobStatus::Skipped,
                },
            ),
            install_applies(t) && !skip ==> r == (if env.install_ok@[rank(t)] {
                JobStatus::Success
            } else {
                JobStatus::Failed
            }) && final(self).log@ == old(self).log@.push(
                JobRecord {
                    job: JobDefinition { target: t, job_type: JobType::Install { production } },
                    status: r,
                },
            ),
    {
        let applies = match t {
            Target::Binding => true,
            Target::Wrapper => false,
            _ => t.kind() == Kind::Ts,
        };
        if !applies {
            return JobStatus::Success;
        }
        let job = JobDefinition { target: t, job_type: JobType::Install { production } };
        if skip {
            self.log.push(JobRecord { job, status: JobStatus::Skipped });
            return JobStatus::Skipped;
        }
        let ok = env.install_ok[t.index()];
        let status = if ok {
            JobStatus::Success
        } else {
            JobStatus::Failed
        };
        self.log.push(JobRecord { job, status });
        status
    }

    /// The build algorithm.  The first caller for a target executes it:
    /// dependencies are built in declared order and a failure stops the
    /// rest; the build may be skipped only when every dependency was
    /// skipped and the recorded digest matches the current one; install
    /// runs before the build command unconditionally; after-build and — on
    /// production transpiled builds — the dev-dependency strip with its
    /// re-install follow; the result is published so that every caller,
    /// then or later, receives the same value, equal to `pure_build_status`.
    #[verifier::rlimit(100)]
    pub fn build(&mut self, t: Target, production: bool, env: &BuildEnv) -> (r: BuildResult)
        requires
            old(self).inv(*env),
            forall|u: Target|
                abs_state(old(self).coordinator, u) is Running ==> rank(u) > rank(t),
        ensures
            final(self).inv(*env),
            final(self).base == old(self).base,
            r.status == pure_build_status(t, *env, old(self).base@),
            r.output@ == name_of(t),
            abs_state(final(self).coordinator, t) is Finished,
            old(self).log@.is_prefix_of(final(self).log@),
            final(self).log@ == old(self).log@ + plan_log(
                t,
                production,
                *env,
                old(self).base@,
                finished_set(old(self).coordinator),
            ),
            finished_set(final(self).coordinator) == plan_done(
                t,
                production,
                *env,
                old(self).base@,
                finished_set(old(self).coordinator),
            ),
            forall|u: Target|
                abs_state(old(self).coordinator, u) is Running ==> abs_state(
                    final(self).coordinator,
                    u,
                ) == abs_state(old(self).coordinator, u),
            forall|u: Target|
                abs_state(old(self).coordinator, u) is Finished ==> abs_state(
                    final(self).coordinator,
                    u,
                ) == abs_state(old(self).coordinator, u),
            forall|u: Target|
                rank(u) > rank(t) ==> abs_state(final(self).coordinator, u) == abs_state(
                    old(self).coordinator,
                    u,
                ),
            forall|u: Target|
                abs_state(final(self).coordinator, u) is Running ==> abs_state(
                    old(self).coordinator,
                    u,
                ) is Running,
        decreases rank(t),
    {
        let ghost done0 = finished_set(old(self).coordinator);
        let waiter = self.next_waiter;
        if self.next_waiter < u64::MAX {
            self.next_waiter = self.next_waiter + 1;
        }
        let outcome = self.coordinator.register(t, waiter);
        match outcome {
            RegisterOutcome::Done(result) => {
                proof {
                    assert(done0.contains(t));
                    assert(self.log@ =~= old(self).log@ + plan_log(
                        t,
                        production,
                        *env,
                        old(self).base@,
                        done0,
                    ));
                    assert forall|u: Target|
                        finished_set(self.coordinator).contains(u) == done0.contains(u) by {
                        if rank(u) == rank(t) {
                            assert(u == t);
                            assert(abs_state(self.coordinator, t) == abs_state(
                                old(self).coordinator,
                                t,
                            ));
                        }
                    }
                    assert(finished_set(self.coordinator) =~= done0);
                }
                return result;
            }
            RegisterOutcome::Wait => {
                proof {
                    assert(abs_state(old(self).coordinator, t) is Running);
                }
                unreached()
            }
            RegisterOutcome::Execute => {
                let ghost base = self.base@;
                proof {
                    assert(!done0.contains(t));
                    assert forall|u: Target|
                        finished_set(self.coordinator).contains(u) == done0.contains(u) by {
                        if rank(u) == rank(t) {
                            assert(u == t);
                        }
                    }
                    assert(finished_set(self.coordinator) =~= done0);
                }
                let deps = t.deps();
                let mut j: usize = 0;
                let mut all_skipped = true;
                let mut failed = false;
                proof {
                    assert(deps@.subrange(0, 0) =~= Seq::<Target>::empty());
                    assert(deps_plan_log(
                        rank(t),
                        Seq::<Target>::empty(),
                        production,
                        *env,
                        base,
                        done0,
                    ) == Seq::<JobRecord>::empty());
                    assert(deps_plan_done(
                        rank(t),
                        Seq::<Target>::empty(),
                        production,
                        *env,
                        base,
                        done0,
                    ) == done0);
                    assert(self.log@ =~= old(self).log@ + Seq::<JobRecord>::empty());
                }
                while j < deps.len() && !failed
                    invariant
                        deps@ == deps_of(t),
                        j <= deps@.len(),
                        self.inv(*env),
                        self.base@ == base,
                        base == old(self).base@,
                        abs_state(self.coordinator, t) is Running,
                        forall|u: Target|
                            abs_state(self.coordinator, u) is Running ==> rank(u) >= rank(t),
                        forall|u: Target|
                            abs_state(self.coordinator, u) is Running ==> (abs_state(
                                old(self).coordinator,
                                u,
                            ) is Running || u == t),
                        forall|u: Target|
                            abs_state(old(self).coordinator, u) is Running ==> abs_state(
                                self.coordinator,
                                u,
                            ) == abs_state(old(self).coordinator, u),
                        forall|u: Target|
                            abs_state(old(self).coordinator, u) is Finished ==> abs_state(
                                self.coordinator,
                                u,
                            ) == abs_state(old(self).coordinator, u),
                        forall|u: Target|
                            rank(u) > rank(t) ==> abs_state(self.coordinator, u) == abs_state(
                                old(self).coordinator,
                                u,
                            ),
                        old(self).log@.is_prefix_of(self.log@),
                        failed ==> j >= 1 && pure_build_status(deps@[j - 1], *env, base)
                            == JobStatus::Failed && (forall|k: int|
                            0 <= k < j - 1 ==> pure_build_status(deps@[k], *env, base)
                                != JobStatus::Failed),
                        !failed ==> forall|k: int|
                            0 <= k < j ==> pure_build_status(deps@[k], *env, base)
                                != JobStatus::Failed,
                        all_skipped == (forall|k: int|
                            0 <= k < j ==> pure_build_status(deps@[k], *env, base)
                                == JobStatus::Skipped),
                        done0 == finished_set(old(self).coordinator),
                        !done0.contains(t),
                        self.log@ == old(self).log@ + deps_plan_log(
                            rank(t),
                            deps@.subrange(0, j as int),
                            production,
                            *env,
                            base,
                            done0,
                        ),
                        finished_set(self.coordinator) == deps_plan_done(
                            rank(t),
                            deps@.subrange(0, j as int),
                            production,
                            *env,
                            base,
                            done0,
                        ),
                    decreases deps@.len() - j,
                {
                    proof {
                        lemma_dependency_rank(t, j as int);
                    }
                    let ghost prefix = deps@.subrange(0, j as int);
                    let ghost log_before = self.log@;
                    let ghost done_before = finished_set(self.coordinator);
                    let dep = deps[j];
                    let result = self.build(dep, production, env);
                    let ghost st = pure_build_status(dep, *env, base);
                    match result.status {
                        JobStatus::Failed => {
                            failed = true;
                            all_skipped = false;
                        }
                        JobStatus::Success => {
                            all_skipped = false;
                        }
                        JobStatus::Skipped => {}
                    }
                    proof {
                        assert forall|i: int| 0 <= i < prefix.len() implies 0 <= rank(
                            #[trigger] prefix[i],
                        ) < rank(t) by {
                            assert(prefix[i] == deps_of(t)[i]);
                            lemma_dependency_rank(t, i);
                        }
                        assert forall|i: int| 0 <= i < prefix.len() implies pure_build_status(
                            #[trigger] prefix[i],
                            *env,
                            base,
                        ) != JobStatus::Failed by {
                            assert(prefix[i] == deps@[i]);
                        }
                        lemma_deps_plan_snoc(rank(t), prefix, dep, production, *env, base, done0);
                        assert(prefix.push(dep) =~= deps@.subrange(0, j + 1));
                        let dpl_prefix = deps_plan_log(rank(t), prefix, production, *env, base, done0);
                        let dep_log = plan_log(dep, production, *env, base, done_before);
                        assert(self.log@ == (old(self).log@ + dpl_prefix) + dep_log);
                        assert((old(self).log@ + dpl_prefix) + dep_log =~= old(self).log@ + (
                        dpl_prefix + dep_log));
                        assert(deps_plan_log(
                            rank(t),
                            deps@.subrange(0, j + 1),
                            production,
                            *env,
                            base,
                            done0,
                        ) == dpl_prefix + dep_log);
                    }
                    j += 1;
                }
                let ghost dpl_full = deps_plan_log(
                    rank(t),
                    deps_of(t),
                    production,
                    *env,
                    base,
                    done0,
                );
                let ghost dpd_full = deps_plan_done(
                    rank(t),
                    deps_of(t),
                    production,
                    *env,
                    base,
                    done0,
                );
                let status: JobStatus;
                if failed {
                    status = JobStatus::Failed;
                    proof {
                        reveal(own_records);
                        lemma_dependency_rank(t, j - 1);
                        assert(pure_build_status(t, *env, base) == JobStatus::Failed);
                        assert forall|i: int| 0 <= i <= j - 1 implies 0 <= rank(
                            #[trigger] deps@[i],
                        ) < rank(t) by {
                            lemma_dependency_rank(t, i);
                        }
                        lemma_deps_plan_stop(
                            rank(t),
                            deps@,
                            j - 1,
                            production,
                            *env,
                            base,
                            done0,
                        );
                        assert(deps@.subrange(0, (j - 1) + 1) =~= deps@.subrange(0, j as int));
                        assert(self.log@ == old(self).log@ + dpl_full);
                        assert(finished_set(self.coordinator) == dpd_full);
                        assert(own_records(t, production, *env, base)
                            == Seq::<JobRecord>::empty());
                        assert(self.log@ =~= old(self).log@ + (dpl_full + own_records(
                            t,
                            production,
                            *env,
                            base,
                        )));
                    }
                } else {
                    proof {
                        assert(deps@.subrange(0, j as int) =~= deps@);
                        assert(self.log@ == old(self).log@ + dpl_full);
                        assert(finished_set(self.coordinator) == dpd_full);
                        assert(self.records.entries@[rank(t)] == base.entries@[rank(t)]);
                    }
                    let ghost log_before_tail = self.log@;
                    status = self.executor_tail(t, production, env, all_skipped, Ghost(base));
                    proof {
                        assert(self.log@ == log_before_tail + own_records(
                            t,
                            production,
                            *env,
                            base,
                        ));
                        assert(self.log@ =~= old(self).log@ + (dpl_full + own_records(
                            t,
                            production,
                            *env,
                            base,
                        )));
                        assert(finished_set(self.coordinator) == dpd_full);
                    }
                }
                let result = BuildResult { status, output: t.name().to_owned() };
                let broadcast_result = result.clone();
                let ghost done_pre_publish = finished_set(self.coordinator);
                proof {
                    assert(self.records.wf());
                }
                let _waiters = self.coordinator.publish(t, broadcast_result);
                proof {
                    assert(abs_state(self.coordinator, t) matches CoordState::Finished {
                        status: s,
                        output: o,
                    } && s == status && o == name_of(t));
                    assert(done_pre_publish == dpd_full);
                    assert forall|u: Target|
                        finished_set(self.coordinator).contains(u) == dpd_full.insert(t).contains(
                            u,
                        ) by {
                        if rank(u) == rank(t) {
                            assert(u == t);
                        }
                    }
                    assert(finished_set(self.coordinator) =~= dpd_full.insert(t));
                    assert(plan_log(t, production, *env, base, done0) == dpl_full + own_records(
                        t,
                        production,
                        *env,
                        base,
                    ));
                    assert(plan_done(t, production, *env, base, done0) == dpd_full.insert(t));
                }
                result
            }
        }
    }
}

impl Session {
    /// The executor's own steps of a build, run once every dependency
    /// finished without failure: the target is registered as touched, the
    /// skip decision is taken against the recorded digest, install runs
    /// unconditionally, then the build command or its skip, then — when
    /// the build did not fail — the after-build record and, on production
    /// transpiled builds, the dev-dependency strip with its re-install.
    /// Appends exactly `own_records`; on success the target's digest is
    /// recorded.
    #[verifier::rlimit(100)]
    fn executor_tail(
        &mut self,
        t: Target,
        production: bool,
        env: &BuildEnv,
        all_skipped: bool,
        Ghost(base): Ghost<ChecksumRecords>,
    ) -> (status: JobStatus)
        requires
            env.wf(),
            old(self).records.wf(),
            old(self).base@ == base,
            base.wf(),
            old(self).records.entries@[rank(t)] == base.entries@[rank(t)],
            forall|k: int|
                0 <= k < deps_of(t).len() ==> pure_build_status(
                    #[trigger] deps_of(t)[k],
                    *env,
                    base,
                ) != JobStatus::Failed,
            all_skipped == (forall|k: int|
                0 <= k < deps_of(t).len() ==> pure_build_status(
                    #[trigger] deps_of(t)[k],
                    *env,
                    base,
                ) == JobStatus::Skipped),
        ensures
            final(self).coordinator == old(self).coordinator,
            final(self).next_waiter == old(self).next_waiter,
            final(self).base == old(self).base,
            final(self).records.wf(),
            final(self).records.production == old(self).records.production,
            status == pure_build_status(t, *env, base),
            final(self).records.touched@ == old(self).records.touched@.update(rank(t), true),
            status == JobStatus::Success ==> final(self).records.entries@ == old(
                self,
            ).records.entries@.update(rank(t), Some(env.current_digests@[rank(t)])),
            status != JobStatus::Success ==> final(self).records.entries == old(
                self,
            ).records.entries,
            final(self).log@ == old(self).log@ + own_records(t, production, *env, base),
    {
        proof {
            assert forall|k: int|
                0 <= k < deps_of(t).len() && rank(deps_of(t)[k]) < rank(t)
                    implies pure_build_status(#[trigger] deps_of(t)[k], *env, base)
                    != JobStatus::Failed by {}
        }
        self.records.register_job(t);
        let idx = t.index();
        let digest = &env.current_digests[idx];
        let changed = self.records.check_changed(t, digest.as_str());
        proof {
            assert(self.records.entries@[rank(t)] == base.entries@[rank(t)]);
        }
        let skip = all_skipped && !changed;
        proof {
            assert forall|k: int|
                0 <= k < deps_of(t).len() && rank(deps_of(t)[k]) < rank(t) implies (all_skipped
                ==> pure_build_status(#[trigger] deps_of(t)[k], *env, base)
                == JobStatus::Skipped) by {}
            if !all_skipped {
                let k = choose|k: int|
                    0 <= k < deps_of(t).len() && pure_build_status(deps_of(t)[k], *env, base)
                        != JobStatus::Skipped;
                lemma_dependency_rank(t, k);
            }
        }
        let status: JobStatus;
        let install_status = self.install(t, production, false, env);
        if match install_status {
            JobStatus::Failed => true,
            _ => false,
        } {
            status = JobStatus::Failed;
        } else {
            let job = JobDefinition { target: t, job_type: JobType::Build { production } };
            if skip {
                self.log.push(JobRecord { job, status: JobStatus::Skipped });
                status = JobStatus::Skipped;
            } else {
                let ok = env.build_ok[idx];
                if ok {
                    self.log.push(JobRecord { job, status: JobStatus::Success });
                    self.records.set_hash(t, digest.clone());
                    status = JobStatus::Success;
                } else {
                    self.log.push(JobRecord { job, status: JobStatus::Failed });
                    status = JobStatus::Failed;
                }
            }
            if match status {
                JobStatus::Failed => false,
                _ => true,
            } {
                if t.has_job(JobType::AfterBuild { production }) {
                    self.log.push(
                        JobRecord {
                            job: JobDefinition {
                                target: t,
                                job_type: JobType::AfterBuild { production },
                            },
                            status: JobStatus::Success,
                        },
                    );
                }
                if production && t.kind() == Kind::Ts {
                    self.log.push(
                        JobRecord {
                            job: JobDefinition { target: t, job_type: JobType::Clean },
                            status: JobStatus::Success,
                        },
                    );
                    let reinstall = self.install(t, true, false, env);
                    proof {
                        assert(reinstall != JobStatus::Failed);
                    }
                }
            }
        }
        proof {
            reveal(own_records);
            assert(self.log@ =~= old(self).log@ + own_records(t, production, *env, base));
        }
        status
    }
}

/// The skip-transitivity law: when every dependency of a target came out
/// skipped, the target's own sources are unchanged since last recorded,
/// and its install step is not the failing kind, the target's build is
/// skipped as well.
pub proof fn lemma_skip_transitivity(t: Target, env: BuildEnv, base: ChecksumRecords)
    requires
        forall|j: int|
            0 <= j < deps_of(t).len() ==> pure_build_status(#[trigger] deps_of(t)[j], env, base)
                == JobStatus::Skipped,
        !changed_spec(stored_digest(base, t), env.current_digests@[rank(t)]@),
        install_ok_for(t, env),
    ensures
        pure_build_status(t, env, base) == JobStatus::Skipped,
{
}

/// The skip-invalidation law: a target whose recorded digest was cleared —
/// as a clean or reset does — is never skipped by its next build.
pub proof fn lemma_no_skip_after_clean(t: Target, env: BuildEnv, base: ChecksumRecords)
    requires
        stored_digest(base, t) is None,
    ensures
        pure_build_status(t, env, base) != JobStatus::Skipped,
{
}

/// The clean-idempotence law: the state a first clean leaves behind — both
/// of its directories absent and the digest entry cleared — is a fixed
/// point, so a clean run again from it succeeds, removes nothing, and
/// changes neither the directories nor the records.
pub proof fn lemma_clean_idempotent(dirs: Seq<String>, entries: Seq<Option<String>>, t: Target)
    requires
        !dirs_contain(dirs, clean_path_out(t)),
        !dirs_contain(dirs, clean_path_dist(t)),
        0 <= rank(t) < entries.len(),
        entries[rank(t)] is None,
    ensures
        (if dirs_contain(dirs, clean_path_out(t)) {
            1int
        } else {
            0int
        }) + (if dirs_contain(dirs, clean_path_dist(t)) {
            1int
        } else {
            0int
        }) == 0,
        forall|x: Seq<char>|
            dirs_contain(dirs, x) <==> (dirs_contain(dirs, x) && x != clean_path_out(t) && x
                != clean_path_dist(t)),
        entries.update(rank(t), None) == entries,
{
    assert(entries.update(rank(t), None) =~= entries);
    assert forall|x: Seq<char>|
        dirs_contain(dirs, x) <==> (dirs_contain(dirs, x) && x != clean_path_out(t) && x
            != clean_path_dist(t)) by {
        if dirs_contain(dirs, x) {
            if x == clean_path_out(t) {
                assert(dirs_contain(dirs, clean_path_out(t)));
            }
            if x == clean_path_dist(t) {
                assert(dirs_contain(dirs, clean_path_dist(t)));
            }
        }
    }
}

/// The directory a target's toolchain writes its compiled output into.
pub open spec fn out_dir_of(t: Target) -> Seq<char> {
    if kind_of(t) == Kind::Rs {
        "target"@
    } else {
        "node_modules"@
    }
}

/// The output directory a clean removes, relative to the repository root.
pub open spec fn clean_path_out(t: Target) -> Seq<char> {
    cwd_of(t) + "/"@ + out_dir_of(t)
}

/// The dist directory a clean removes, relative to the repository root.
pub open spec fn clean_path_dist(t: Target) -> Seq<char> {
    cwd_of(t) + "/dist"@
}

/// Whether a path is among the directories.
pub open spec fn dirs_contain(dirs: Seq<String>, p: Seq<char>) -> bool {
    exists|i: int| 0 <= i < dirs.len() && dirs[i]@ == p
}

/// Membership test over a directory list.
pub fn dirs_contains(dirs: &Vec<String>, p: &str) -> (r: bool)
    ensures
        r == dirs_contain(dirs@, p@),
{
    let mut i: usize = 0;
    while i < dirs.len()
        invariant
            i <= dirs@.len(),
            forall|k: int| 0 <= k < i ==> dirs@[k]@ != p@,
        decreases dirs@.len() - i,
    {
        if crate::target::str_eq(dirs[i].as_str(), p) {
            return true;
        }
        i += 1;
    }
    false
}

/// Removes every occurrence of a path from a directory list.
pub fn dirs_remove(dirs: &mut Vec<String>, p: &str)
    ensures
        forall|x: Seq<char>|
            dirs_contain(final(dirs)@, x) <==> (dirs_contain(old(dirs)@, x) && x != p@),
{
    let n = dirs.len();
    let mut acc: Vec<String> = Vec::new();
    let mut i: usize = 0;
    while i < n
        invariant
            n == dirs@.len(),
            i <= n,
            forall|x: Seq<char>|
                dirs_contain(acc@, x) <==> ((exists|k: int| 0 <= k < i && dirs@[k]@ == x) && x
                    != p@),
        decreases n - i,
    {
        let keep = !crate::target::str_eq(dirs[i].as_str(), p);
        let ghost before = acc@;
        if keep {
            let s = dirs[i].clone();
            acc.push(s);
        }
        proof {
            assert forall|x: Seq<char>|
                dirs_contain(acc@, x) <==> ((exists|k: int| 0 <= k < i + 1 && dirs@[k]@ == x) && x
                    != p@) by {
                if keep {
                    assert(acc@ == before.push(dirs@[i as int]));
                    if dirs_contain(acc@, x) {
                        let w = choose|w: int| 0 <= w < acc@.len() && acc@[w]@ == x;
                        if w < before.len() {
                            assert(dirs_contain(before, x));
                        } else {
                            assert(dirs@[i as int]@ == x);
                        }
                    }
                    if (exists|k: int| 0 <= k < i + 1 && dirs@[k]@ == x) && x != p@ {
                        let k = choose|k: int| 0 <= k < i + 1 && dirs@[k]@ == x;
                        if k < i {
                            assert(dirs_contain(before, x));
                            let w = choose|w: int| 0 <= w < before.len() && before[w]@ == x;
                            assert(acc@[w]@ == x);
                        } else {
                            assert(acc@[acc@.len() - 1]@ == x);
                        }
                    }
                } else {
                    if (exists|k: int| 0 <= k < i + 1 && dirs@[k]@ == x) && x != p@ {
                        let k = choose|k: int| 0 <= k < i + 1 && dirs@[k]@ == x;
                        assert(k < i);
                    }
                }
            }
        }
        i += 1;
    }
    *dirs = acc;
}

/// The publish steps an after-build performs for a target: each is a
/// source, a destination — both relative to the repository root — and
/// whether a whole directory moves.  The native binding publishes its
/// artifact into its transpiled wrapper's asset tree; the client publishes
/// its built tree into the application bundle; the application bundles the
/// precompiled updater.
pub open spec fn after_build_steps_of(t: Target) -> Seq<(Seq<char>, Seq<char>, bool)> {
    match t {
        Target::Binding => seq![
            (
                cwd_of(Target::Binding) + "/dist/index.node"@,
                cwd_of(Target::Wrapper) + "/dist/native/index.node"@,
                false,
            ),
        ],
        Target::Client => seq![
            (cwd_of(Target::Client) + "/dist"@, cwd_of(Target::App) + "/dist/client"@, true),
        ],
        Target::App => seq![
            (
                cwd_of(Target::Updater) + "/target/release/updater"@,
                cwd_of(Target::App) + "/dist/bin/updater"@,
                false,
            ),
        ],
        _ => Seq::empty(),
    }
}

/// Whether a list of copy steps carries exactly the given paths.
pub open spec fn copy_steps_match(
    steps: Seq<(String, String, bool)>,
    expected: Seq<(Seq<char>, Seq<char>, bool)>,
) -> bool {
    &&& steps.len() == expected.len()
    &&& forall|i: int|
        0 <= i < steps.len() ==> (#[trigger] steps[i]).0@ == expected[i].0 && steps[i].1@
            == expected[i].1 && steps[i].2 == expected[i].2
}

/// The copy steps of a target's after-build, as path values.
pub fn after_build_steps(t: Target) -> (r: Vec<(String, String, bool)>)
    ensures
        copy_steps_match(r@, after_build_steps_of(t)),
{
    let mut v: Vec<(String, String, bool)> = Vec::new();
    match t {
        Target::Binding => {
            let mut src = Target::Binding.cwd().to_owned();
            src.append("/dist/index.node");
            let mut dest = Target::Wrapper.cwd().to_owned();
            dest.append("/dist/native/index.node");
            v.push((src, dest, false));
        }
        Target::Client => {
            let mut src = Target::Client.cwd().to_owned();
            src.append("/dist");
            let mut dest = Target::App.cwd().to_owned();
            dest.append("/dist/client");
            v.push((src, dest, true));
        }
        Target::App => {
            let mut src = Target::Updater.cwd().to_owned();
            src.append("/target/release/updater");
            let mut dest = Target::App.cwd().to_owned();
            dest.append("/dist/bin/updater");
            v.push((src, dest, false));
        }
        _ => {}
    }
    v
}

/// Renders the two directories a clean of `t` removes.
pub fn clean_paths(t: Target) -> (r: (String, String))
    ensures
        r.0@ == clean_path_out(t),
        r.1@ == clean_path_dist(t),
{
    let mut out = t.cwd().to_owned();
    out.append("/");
    let od: &str = match t.kind() {
        Kind::Rs => "target",
        Kind::Ts => "node_modules",
    };
    out.append(od);
    let mut dist = t.cwd().to_owned();
    dist.append("/dist");
    proof {
        reveal_strlit("target");
        reveal_strlit("node_modules");
        assert(out@ =~= clean_path_out(t));
        assert(dist@ =~= clean_path_dist(t));
    }
    (out, dist)
}

impl Session {
    /// The clean job: remove the kind-specific output directory and the
    /// dist directory — those of the two that exist — drop the target's
    /// digest from the records, and return the removed paths as the log of
    /// a synthetic success.  Cleaning again right away removes nothing.
    pub fn clean(&mut self, t: Target, dirs: &mut Vec<String>) -> (removed: Vec<String>)
        requires
            old(self).records.wf(),
        ensures
            final(self).records.wf(),
            final(self).coordinator == old(self).coordinator,
            final(self).next_waiter == old(self).next_waiter,
            final(self).base == old(self).base,
            final(self).records.production == old(self).records.production,
            final(self).records.touched == old(self).records.touched,
            final(self).records.entries@ == old(self).records.entries@.update(rank(t), None),
            stored_digest(final(self).records, t) is None,
            forall|x: Seq<char>|
                dirs_contain(final(dirs)@, x) <==> (dirs_contain(old(dirs)@, x) && x
                    != clean_path_out(t) && x != clean_path_dist(t)),
            removed@.len() == (if dirs_contain(old(dirs)@, clean_path_out(t)) {
                1int
            } else {
                0int
            }) + (if dirs_contain(old(dirs)@, clean_path_dist(t)) {
                1int
            } else {
                0int
            }),
            dirs_contain(old(dirs)@, clean_path_out(t)) ==> removed@[0]@ == clean_path_out(t),
            (dirs_contain(old(dirs)@, clean_path_out(t)) && dirs_contain(
                old(dirs)@,
                clean_path_dist(t),
            )) ==> removed@[1]@ == clean_path_dist(t),
            (!dirs_contain(old(dirs)@, clean_path_out(t)) && dirs_contain(
                old(dirs)@,
                clean_path_dist(t),
            )) ==> removed@[0]@ == clean_path_dist(t),
            final(self).log@ == old(self).log@.push(
                JobRecord {
                    job: JobDefinition { target: t, job_type: JobType::Clean },
                    status: JobStatus::Success,
                },
            ),
    {
        let (out_path, dist_path) = clean_paths(t);
        let mut removed: Vec<String> = Vec::new();
        let present_out = dirs_contains(dirs, out_path.as_str());
        let present_dist = dirs_contains(dirs, dist_path.as_str());
        dirs_remove(dirs, out_path.as_str());
        dirs_remove(dirs, dist_path.as_str());
        if present_out {
            removed.push(out_path);
        }
        if present_dist {
            removed.push(dist_path);
        }
        let _existed = self.records.remove_hash_if_exist(t);
        self.log.push(
            JobRecord {
                job: JobDefinition { target: t, job_type: JobType::Clean },
                status: JobStatus::Success,
            },
        );
        removed
    }

    /// The after-build job, standalone: targets that publish artifacts into
    /// sibling trees hand out their copy steps now; others are a no-op.
    /// With `skip` set a skip placeholder is logged and nothing is copied.
    /// The copies themselves are filesystem work and are performed outside,
    /// step by step as returned.
    pub fn after_build(&mut self, t: Target, production: bool, skip: bool) -> (r: (
        JobStatus,
        Vec<(String, String, bool)>,
    ))
        ensures
            final(self).coordinator == old(self).coordinator,
            final(self).records == old(self).records,
            final(self).next_waiter == old(self).next_waiter,
            final(self).base == old(self).base,
            !has_job_spec(t, JobType::AfterBuild { production }) ==> r.0 == JobStatus::Success
                && final(self).log == old(self).log,
            has_job_spec(t, JobType::AfterBuild { production }) ==> r.0 == (if skip {
                JobStatus::Skipped
            } else {
                JobStatus::Success
            }) && final(self).log@ == old(self).log@.push(
                JobRecord {
                    job: JobDefinition { target: t, job_type: JobType::AfterBuild { production } },
                    status: r.0,
                },
            ),
            !has_job_spec(t, JobType::AfterBuild { production }) || skip ==> r.1@.len() == 0,
            has_job_spec(t, JobType::AfterBuild { production }) && !skip ==> copy_steps_match(
                r.1@,
                after_build_steps_of(t),
            ),
    {
        if !t.has_job(JobType::AfterBuild { production }) {
            return (JobStatus::Success, Vec::new());
        }
        if skip {
            self.log.push(
                JobRecord {
                    job: JobDefinition { target: t, job_type: JobType::AfterBuild { production } },
                    status: JobStatus::Skipped,
                },
            );
            return (JobStatus::Skipped, Vec::new());
        }
        self.log.push(
            JobRecord {
                job: JobDefinition { target: t, job_type: JobType::AfterBuild { production } },
                status: JobStatus::Success,
            },
        );
        (JobStatus::Success, after_build_steps(t))
    }

    /// The lint job: native targets run the static-analysis tool with
    /// warnings as errors; transpiled targets run the linter and, when it
    /// passes, the full build as well — the linter alone does not prove
    /// compilation.
    pub fn lint(&mut self, t: Target, env: &BuildEnv) -> (r: JobStatus)
        requires
            old(self).inv(*env),
            forall|u: Target|
                abs_state(old(self).coordinator, u) is Running ==> rank(u) > rank(t),
        ensures
            final(self).inv(*env),
            final(self).base == old(self).base,
            old(self).log@.is_prefix_of(final(self).log@),
            !env.lint_ok@[rank(t)] ==> r == JobStatus::Failed,
            env.lint_ok@[rank(t)] && kind_of(t) == Kind::Rs ==> r == JobStatus::Success,
            env.lint_ok@[rank(t)] && kind_of(t) == Kind::Ts ==> r == pure_build_status(
                t,
                *env,
                old(self).base@,
            ),
    {
        let idx = t.index();
        let ok = env.lint_ok[idx];
        let status = if ok {
            JobStatus::Success
        } else {
            JobStatus::Failed
        };
        self.log.push(
            JobRecord { job: JobDefinition { target: t, job_type: JobType::Lint }, status },
        );
        if !ok {
            return JobStatus::Failed;
        }
        if t.kind() == Kind::Ts {
            let result = self.build(t, false, env);
            result.status
        } else {
            JobStatus::Success
        }
    }

    /// The test job: targets without test commands are a no-op; otherwise
    /// the target is built first, and the test commands run only when the
    /// build did not fail; any failing command surfaces.  Only the folded
    /// status is modelled; the commands' output text streams through the
    /// tracker outside.
    pub fn test(&mut self, t: Target, production: bool, env: &BuildEnv) -> (r: JobStatus)
        requires
            old(self).inv(*env),
            forall|u: Target|
                abs_state(old(self).coordinator, u) is Running ==> rank(u) > rank(t),
        ensures
            final(self).inv(*env),
            final(self).base == old(self).base,
            old(self).log@.is_prefix_of(final(self).log@),
            !has_job_spec(t, JobType::Test { production }) ==> r == JobStatus::Success
                && *final(self) == *old(self),
            has_job_spec(t, JobType::Test { production }) ==> r == (if pure_build_status(
                t,
                *env,
                old(self).base@,
            ) == JobStatus::Failed {
                JobStatus::Failed
            } else if env.test_ok@[rank(t)] {
                JobStatus::Success
            } else {
                JobStatus::Failed
            }),
    {
        if !t.has_job(JobType::Test { production }) {
            return JobStatus::Success;
        }
        let result = self.build(t, production, env);
        if match result.status {
            JobStatus::Failed => true,
            _ => false,
        } {
            return JobStatus::Failed;
        }
        let idx = t.index();
        let ok = env.test_ok[idx];
        let status = if ok {
            JobStatus::Success
        } else {
            JobStatus::Failed
        };
        self.log.push(
            JobRecord {
                job: JobDefinition { target: t, job_type: JobType::Test { production } },
                status,
            },
        );
        status
    }

    /// The reset job: a clean, with the checksum entry cleared so that the
    /// next build of the target cannot be skipped.
    pub fn reset(&mut self, t: Target, dirs: &mut Vec<String>) -> (removed: Vec<String>)
        requires
            old(self).records.wf(),
        ensures
            final(self).records.wf(),
            final(self).coordinator == old(self).coordinator,
            final(self).next_waiter == old(self).next_waiter,
            final(self).base == old(self).base,
            final(self).records.production == old(self).records.production,
            final(self).records.touched == old(self).records.touched,
            final(self).records.entries@ == old(self).records.entries@.update(rank(t), None),
            stored_digest(final(self).records, t) is None,
            forall|x: Seq<char>|
                dirs_contain(final(dirs)@, x) <==> (dirs_contain(old(dirs)@, x) && x
                    != clean_path_out(t) && x != clean_path_dist(t)),
            removed@.len() == (if dirs_contain(old(dirs)@, clean_path_out(t)) {
                1int
            } else {
                0int
            }) + (if dirs_contain(old(dirs)@, clean_path_dist(t)) {
                1int
            } else {
                0int
            }),
            final(self).log@ == old(self).log@.push(
                JobRecord {
                    job: JobDefinition { target: t, job_type: JobType::Clean },
                    status: JobStatus::Success,
                },
            ),
    {
        let removed = self.clean(t, dirs);
        let _existed = self.records.remove_hash_if_exist(t);
        proof {
            assert(self.records.entries@ =~= old(self).records.entries@.update(rank(t), None));
        }
        removed
    }
}

} // verus!
