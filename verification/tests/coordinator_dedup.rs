use dev_cli::coordinator::{Coordinator, RegisterOutcome};
use dev_cli::jobs::{BuildResult, JobStatus};
use dev_cli::target::Target;

#[test]
fn two_concurrent_callers_one_execution() {
    let mut coordinator = Coordinator::new();
    // The first caller registers and must execute.
    let first = coordinator.register(Target::App, 1);
    assert!(matches!(first, RegisterOutcome::Execute));
    // The second caller arrives while the build runs and waits.
    let second = coordinator.register(Target::App, 2);
    assert!(matches!(second, RegisterOutcome::Wait));
    // A third caller on another target is independent.
    let other = coordinator.register(Target::Core, 3);
    assert!(matches!(other, RegisterOutcome::Execute));
    // The executor publishes once; every waiter is handed the result.
    let result = BuildResult { status: JobStatus::Success, output: "App".to_string() };
    let waiters = coordinator.publish(Target::App, result.clone());
    assert_eq!(waiters, vec![1, 2]);
    // Every later caller receives a value equal to the published one.
    match coordinator.register(Target::App, 4) {
        RegisterOutcome::Done(stored) => {
            assert_eq!(stored.status, result.status);
            assert_eq!(stored.output, result.output);
        }
        _ => panic!("a finished target must answer immediately"),
    }
}

#[test]
fn finished_state_is_stable() {
    let mut coordinator = Coordinator::new();
    assert!(matches!(coordinator.register(Target::Cli, 1), RegisterOutcome::Execute));
    let result = BuildResult { status: JobStatus::Failed, output: "Cli".to_string() };
    coordinator.publish(Target::Cli, result);
    for waiter in 2..10 {
        match coordinator.register(Target::Cli, waiter) {
            RegisterOutcome::Done(stored) => {
                assert_eq!(stored.status, JobStatus::Failed);
                assert_eq!(stored.output, "Cli");
            }
            _ => panic!("the stored result must persist for the process lifetime"),
        }
    }
}
