use sonic262::outcome::ExecOutcome;
use sonic262::outcome::FileOutcome;
use sonic262::outcome::SkipReason;
use sonic262::reporter::Diagnostics;

fn assert_shared_across_workers<T: Send + Sync>() {}

#[test]
fn test() {
    assert_shared_across_workers::<Diagnostics>();
}

#[test]
fn fresh_counters_are_zero() {
    let d = Diagnostics::new();
    assert_eq!(d, Diagnostics::default());
    assert_eq!(d.total_files, 0);
    assert_eq!(d.run, 0);
    assert_eq!(d.passed, 0);
    assert_eq!(d.failed, 0);
    assert_eq!(d.invalid, 0);
}

#[test]
fn each_outcome_moves_one_counter() {
    let mut d = Diagnostics::new();
    d.record(&FileOutcome::Executed(ExecOutcome::Passed));
    assert_eq!((d.total_files, d.run, d.passed, d.failed, d.invalid), (1, 1, 1, 0, 0));
    d.record(&FileOutcome::Executed(ExecOutcome::Failed(String::from("e"))));
    assert_eq!((d.total_files, d.run, d.passed, d.failed, d.invalid), (2, 2, 1, 1, 0));
    d.record(&FileOutcome::Executed(ExecOutcome::Timeout));
    assert_eq!((d.total_files, d.run, d.passed, d.failed, d.invalid), (3, 3, 1, 2, 0));
    d.record(&FileOutcome::Executed(ExecOutcome::ExecutionError(String::from("e"))));
    assert_eq!((d.total_files, d.run, d.passed, d.failed, d.invalid), (4, 3, 1, 2, 1));
    d.record(&FileOutcome::Skipped(SkipReason::NoMetadata));
    assert_eq!((d.total_files, d.run, d.passed, d.failed, d.invalid), (5, 3, 1, 2, 2));
    d.record(&FileOutcome::Skipped(SkipReason::MissingInclude(String::from("x"))));
    assert_eq!((d.total_files, d.run, d.passed, d.failed, d.invalid), (6, 3, 1, 2, 3));
    assert_eq!(d.passed + d.failed, d.run);
    assert_eq!(d.run + d.invalid, d.total_files);
}
