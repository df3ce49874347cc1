use dev_cli::checksum::ChecksumRecords;
use dev_cli::jobs::{JobStatus, JobType};
use dev_cli::orchestrator::{BuildEnv, Session};
use dev_cli::target::Target;

fn env_all_ok() -> BuildEnv {
    BuildEnv {
        current_digests: (0..9).map(|i| format!("digest{i}")).collect(),
        install_ok: vec![true; 9],
        build_ok: vec![true; 9],
        lint_ok: vec![true; 9],
        test_ok: vec![true; 9],
    }
}

fn job_names(session: &Session) -> Vec<(Target, String, JobStatus)> {
    session
        .log
        .iter()
        .map(|r| (r.job.target, r.job.label(), r.status))
        .collect()
}

#[test]
fn fresh_build_of_shared_installs_and_builds() {
    let records = ChecksumRecords::new(false);
    let mut session = Session::new(records);
    let env = env_all_ok();
    let result = session.build(Target::Shared, false, &env);
    assert_eq!(result.status, JobStatus::Success);
    assert_eq!(result.output, "Shared");
    let jobs = job_names(&session);
    assert_eq!(jobs.len(), 2);
    assert_eq!(jobs[0].1, "Install Shared");
    assert_eq!(jobs[0].2, JobStatus::Success);
    assert_eq!(jobs[1].1, "Build Shared");
    assert_eq!(jobs[1].2, JobStatus::Success);
    // The records now hold Shared's digest, ready to be persisted.
    let line = session.records.serialize();
    assert_eq!(line, "Shared digest1\n");
}

#[test]
fn second_build_of_shared_is_skipped() {
    let mut records = ChecksumRecords::new(false);
    let env = env_all_ok();
    records.set_hash(Target::Shared, "digest1".to_string());
    let serialized_before = records.serialize();
    let mut session = Session::new(records);
    let result = session.build(Target::Shared, false, &env);
    assert_eq!(result.status, JobStatus::Skipped);
    let jobs = job_names(&session);
    // The install still runs — the toolchain needs dependencies present —
    // but the build itself is skipped.
    assert_eq!(jobs.len(), 2);
    assert_eq!(jobs[0].1, "Install Shared");
    assert_eq!(jobs[0].2, JobStatus::Success);
    assert_eq!(jobs[1].1, "Build Shared");
    assert_eq!(jobs[1].2, JobStatus::Skipped);
    assert_eq!(session.records.serialize(), serialized_before);
}

#[test]
fn build_of_wrapper_builds_shared_then_binding_then_wrapper() {
    let records = ChecksumRecords::new(false);
    let mut session = Session::new(records);
    let env = env_all_ok();
    let result = session.build(Target::Wrapper, false, &env);
    assert_eq!(result.status, JobStatus::Success);
    let jobs = job_names(&session);
    let build_order: Vec<&str> = jobs
        .iter()
        .filter(|(_, label, _)| label.starts_with("Build"))
        .map(|(_, label, _)| label.as_str())
        .collect();
    assert_eq!(build_order, vec!["Build Shared", "Build Binding", "Build Wrapper"]);
    // The binding's install is delegated but logged under its own name,
    // and it runs before the binding's build.
    let binding_install = jobs.iter().position(|(_, l, _)| l == "Install Binding").unwrap();
    let binding_build = jobs.iter().position(|(_, l, _)| l == "Build Binding").unwrap();
    assert!(binding_install < binding_build);
    for (_, _, status) in &jobs {
        assert_eq!(*status, JobStatus::Success);
    }
}

#[test]
fn shared_dependency_is_built_only_once() {
    let records = ChecksumRecords::new(false);
    let mut session = Session::new(records);
    let env = env_all_ok();
    // Client and Wrapper both depend on Shared; App depends on both.
    let result = session.build(Target::App, false, &env);
    assert_eq!(result.status, JobStatus::Success);
    let jobs = job_names(&session);
    let shared_builds = jobs.iter().filter(|(_, l, _)| l == "Build Shared").count();
    assert_eq!(shared_builds, 1);
}

#[test]
fn failing_dependency_stops_the_dependent() {
    let records = ChecksumRecords::new(false);
    let mut session = Session::new(records);
    let mut env = env_all_ok();
    env.build_ok[Target::Shared.index()] = false;
    let result = session.build(Target::Binding, false, &env);
    assert_eq!(result.status, JobStatus::Failed);
    let jobs = job_names(&session);
    // The binding's own build command never ran.
    assert!(jobs.iter().all(|(_, l, _)| l != "Build Binding"));
}

#[test]
fn reset_core_removes_output_dirs_and_next_build_is_not_skipped() {
    let mut records = ChecksumRecords::new(false);
    let env = env_all_ok();
    // Core was built before: its digest is recorded and unchanged.
    records.set_hash(Target::Core, "digest0".to_string());
    let mut session = Session::new(records);
    let mut dirs: Vec<String> = vec![
        "application/apps/indexer/target".to_string(),
        "application/apps/indexer/dist".to_string(),
        "application/platform/node_modules".to_string(),
    ];
    let removed = session.reset(Target::Core, &mut dirs);
    assert_eq!(
        removed,
        vec![
            "application/apps/indexer/target".to_string(),
            "application/apps/indexer/dist".to_string(),
        ]
    );
    assert_eq!(dirs, vec!["application/platform/node_modules".to_string()]);
    // A fresh session over the cleared records must rebuild Core.
    let mut session2 = Session::new(session.records);
    let result = session2.build(Target::Core, false, &env);
    assert_eq!(result.status, JobStatus::Success);
}

#[test]
fn clean_twice_removes_nothing_the_second_time() {
    let records = ChecksumRecords::new(false);
    let mut session = Session::new(records);
    let mut dirs: Vec<String> = vec![
        "application/platform/node_modules".to_string(),
        "application/platform/dist".to_string(),
    ];
    let removed_first = session.clean(Target::Shared, &mut dirs);
    assert_eq!(removed_first.len(), 2);
    let removed_second = session.clean(Target::Shared, &mut dirs);
    assert_eq!(removed_second.len(), 0);
    assert!(dirs.is_empty());
    // Both cleans succeed and are logged.
    assert_eq!(session.log.len(), 2);
    assert!(session.log.iter().all(|r| r.status == JobStatus::Success));
}

#[test]
fn production_build_of_app_reinstalls_after_the_copy() {
    let records = ChecksumRecords::new(false);
    let mut session = Session::new(records);
    let env = env_all_ok();
    let result = session.build(Target::App, true, &env);
    assert_eq!(result.status, JobStatus::Success);
    let jobs = job_names(&session);
    let app_jobs: Vec<&str> = jobs
        .iter()
        .filter(|(t, _, _)| *t == Target::App)
        .map(|(_, l, _)| l.as_str())
        .collect();
    // After the build: the after-build copy, then the dev-dependency strip,
    // then the production re-install, appended in that order.
    assert_eq!(
        app_jobs,
        vec!["Install App", "Build App", "After build App", "Clean App", "Install App"]
    );
}

#[test]
fn skip_propagates_through_unchanged_dependencies() {
    let mut records = ChecksumRecords::new(false);
    let env = env_all_ok();
    records.set_hash(Target::Shared, "digest1".to_string());
    records.set_hash(Target::Binding, "digest2".to_string());
    let mut session = Session::new(records);
    let result = session.build(Target::Binding, false, &env);
    // Shared is unchanged and skipped; Binding's sources are unchanged
    // too, so its build is skipped transitively.
    assert_eq!(result.status, JobStatus::Skipped);
}

#[test]
fn changed_dependency_forces_rebuild_of_dependent() {
    let mut records = ChecksumRecords::new(false);
    let env = env_all_ok();
    // Binding unchanged, but Shared was recorded with another digest.
    records.set_hash(Target::Shared, "old-digest".to_string());
    records.set_hash(Target::Binding, "digest2".to_string());
    let mut session = Session::new(records);
    let result = session.build(Target::Binding, false, &env);
    assert_eq!(result.status, JobStatus::Success);
}

#[test]
fn lint_of_transpiled_target_builds_after_linting() {
    let records = ChecksumRecords::new(false);
    let mut session = Session::new(records);
    let env = env_all_ok();
    let status = session.lint(Target::Shared, &env);
    assert_eq!(status, JobStatus::Success);
    let jobs = job_names(&session);
    assert_eq!(jobs[0].1, "Lint Shared");
    assert!(jobs.iter().any(|(_, l, _)| l == "Build Shared"));
}

#[test]
fn failing_lint_stops_before_the_build() {
    let records = ChecksumRecords::new(false);
    let mut session = Session::new(records);
    let mut env = env_all_ok();
    env.lint_ok[Target::Shared.index()] = false;
    let status = session.lint(Target::Shared, &env);
    assert_eq!(status, JobStatus::Failed);
    let jobs = job_names(&session);
    assert!(jobs.iter().all(|(_, l, _)| l != "Build Shared"));
}

#[test]
fn test_job_builds_first_and_surfaces_failures() {
    let records = ChecksumRecords::new(false);
    let mut session = Session::new(records);
    let mut env = env_all_ok();
    env.test_ok[Target::Core.index()] = false;
    let status = session.test(Target::Core, false, &env);
    assert_eq!(status, JobStatus::Failed);
    let jobs = job_names(&session);
    assert!(jobs.iter().any(|(_, l, _)| l == "Build Core"));
    // A target without test commands is a no-op.
    let status = session.test(Target::Client, false, &env);
    assert_eq!(status, JobStatus::Success);
}

#[test]
fn install_failure_fails_the_build() {
    let records = ChecksumRecords::new(false);
    let mut session = Session::new(records);
    let mut env = env_all_ok();
    env.install_ok[Target::Shared.index()] = false;
    let result = session.build(Target::Shared, false, &env);
    assert_eq!(result.status, JobStatus::Failed);
}

#[test]
fn after_build_hands_out_the_copy_steps() {
    let records = ChecksumRecords::new(false);
    let mut session = Session::new(records);
    let (status, steps) = session.after_build(Target::Binding, false, false);
    assert_eq!(status, JobStatus::Success);
    assert_eq!(
        steps,
        vec![(
            "application/apps/rustcore/rs-bindings/dist/index.node".to_string(),
            "application/apps/rustcore/ts-bindings/dist/native/index.node".to_string(),
            false,
        )]
    );
    // A target without publish steps is a no-op and hands out none.
    let (status, steps) = session.after_build(Target::Shared, false, false);
    assert_eq!(status, JobStatus::Success);
    assert!(steps.is_empty());
    // With skip set, a placeholder is logged and nothing is copied.
    let (status, steps) = session.after_build(Target::Client, false, true);
    assert_eq!(status, JobStatus::Skipped);
    assert!(steps.is_empty());
}
