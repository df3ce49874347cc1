use dev_cli::target::{parse_target, Kind, Target};
use dev_cli::jobs::{JobDefinition, JobType};

fn position(all: &[Target], t: Target) -> usize {
    all.iter().position(|x| *x == t).unwrap()
}

#[test]
fn all_targets_topological_order() {
    let all = Target::all();
    assert_eq!(all.len(), 9);
    for t in all.iter() {
        let pt = position(&all, *t);
        for d in t.deps() {
            assert!(position(&all, d) < pt, "dependency must precede its target");
        }
    }
}

#[test]
fn declared_dependency_edges() {
    assert_eq!(Target::Binding.deps(), vec![Target::Shared]);
    assert_eq!(Target::Wrapper.deps(), vec![Target::Binding, Target::Shared]);
    assert_eq!(Target::Client.deps(), vec![Target::Shared, Target::Wasm]);
    assert_eq!(
        Target::App.deps(),
        vec![Target::Wrapper, Target::Client, Target::Core, Target::Updater]
    );
    assert_eq!(Target::Core.deps(), vec![]);
    assert_eq!(Target::Shared.deps(), vec![]);
    assert_eq!(Target::Wasm.deps(), vec![]);
    assert_eq!(Target::Updater.deps(), vec![]);
    assert_eq!(Target::Cli.deps(), vec![]);
}

#[test]
fn relative_paths() {
    assert_eq!(Target::Core.cwd(), "application/apps/indexer");
    assert_eq!(Target::Shared.cwd(), "application/platform");
    assert_eq!(Target::Binding.cwd(), "application/apps/rustcore/rs-bindings");
    assert_eq!(Target::Wrapper.cwd(), "application/apps/rustcore/ts-bindings");
    assert_eq!(Target::Wasm.cwd(), "application/apps/rustcore/wasm-bindings");
    assert_eq!(Target::Client.cwd(), "application/client");
    assert_eq!(Target::Updater.cwd(), "application/apps/precompiled/updater");
    assert_eq!(Target::App.cwd(), "application/holder");
    assert_eq!(Target::Cli.cwd(), "cli");
}

#[test]
fn target_kinds() {
    assert_eq!(Target::Core.kind(), Kind::Rs);
    assert_eq!(Target::Shared.kind(), Kind::Ts);
    assert_eq!(Target::Binding.kind(), Kind::Rs);
    assert_eq!(Target::Wrapper.kind(), Kind::Ts);
    assert_eq!(Target::Client.kind(), Kind::Ts);
    assert_eq!(Target::App.kind(), Kind::Ts);
}

#[test]
fn parse_target_exact_match() {
    assert_eq!(parse_target("Core"), Some(Target::Core));
    assert_eq!(parse_target("Shared"), Some(Target::Shared));
    assert_eq!(parse_target("Cli"), Some(Target::Cli));
    assert_eq!(parse_target("core"), None);
    assert_eq!(parse_target("shared"), None);
    assert_eq!(parse_target(""), None);
    assert_eq!(parse_target("Unknown"), None);
}

#[test]
fn job_applicability() {
    assert!(Target::Shared.has_job(JobType::Install { production: false }));
    assert!(Target::Binding.has_job(JobType::Install { production: false }));
    assert!(!Target::Core.has_job(JobType::Install { production: false }));
    assert!(Target::Binding.has_job(JobType::AfterBuild { production: false }));
    assert!(Target::Client.has_job(JobType::AfterBuild { production: false }));
    assert!(!Target::Shared.has_job(JobType::AfterBuild { production: false }));
    assert!(Target::Core.has_job(JobType::Test { production: false }));
    assert!(Target::Wrapper.has_job(JobType::Test { production: false }));
    assert!(!Target::Client.has_job(JobType::Test { production: false }));
    assert!(Target::App.has_job(JobType::Run { production: false }));
    assert!(!Target::Cli.has_job(JobType::Run { production: false }));
    for t in Target::all() {
        assert!(t.has_job(JobType::Lint));
        assert!(t.has_job(JobType::Clean));
        assert!(t.has_job(JobType::Build { production: false }));
    }
}

#[test]
fn job_labels() {
    let j = JobDefinition::new(Target::Shared, JobType::Install { production: false });
    assert_eq!(j.label(), "Install Shared");
    let b = JobDefinition::new(Target::App, JobType::Build { production: true });
    assert_eq!(b.label(), "Build App");
}
