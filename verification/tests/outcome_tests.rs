//! The exit codes of batches.

use quick_ubu::host::BatchOutcome;

#[test]
fn outcome_exit_codes_only_allow_shutdown_after_completion() {
    assert_eq!(BatchOutcome::Completed.exit_code(), 0);
    assert_eq!(BatchOutcome::Interrupted.exit_code(), 130);
    assert_eq!(BatchOutcome::Failed("fatal".into()).exit_code(), 1);
}
