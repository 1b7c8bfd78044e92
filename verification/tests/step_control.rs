use raybnn_core::control::{worst_component, IntegrationRun, StepController, StepDecision};
use raybnn_core::errors::EngineError;

#[test]
fn accepted_step_commits() {
    let mut c = StepController::new(10);
    assert_eq!(c.on_attempt(true, false), Ok(StepDecision::Commit));
    assert_eq!(c.accepted_steps, 1);
    assert_eq!(c.rejects_in_a_row, 0);
}

#[test]
fn accepted_step_at_end_finishes() {
    let mut c = StepController::new(10);
    assert_eq!(c.on_attempt(true, false), Ok(StepDecision::Commit));
    assert_eq!(c.on_attempt(true, true), Ok(StepDecision::Finish));
    assert_eq!(c.accepted_steps, 2);
}

#[test]
fn rejected_step_commits_nothing_and_retries() {
    // An oversized step is rejected: the driver is told to retry with
    // the shrunken step, and no trajectory sample is committed.
    let mut c = StepController::new(10);
    assert_eq!(c.on_attempt(false, false), Ok(StepDecision::Retry));
    assert_eq!(c.accepted_steps, 0);
    assert_eq!(c.rejects_in_a_row, 1);
    // Once the shrunken step passes the tolerance test, the run goes on.
    assert_eq!(c.on_attempt(true, false), Ok(StepDecision::Commit));
    assert_eq!(c.rejects_in_a_row, 0);
    assert_eq!(c.accepted_steps, 1);
}

#[test]
fn acceptance_clears_the_rejection_run() {
    let mut c = StepController::new(3);
    assert_eq!(c.on_attempt(false, false), Ok(StepDecision::Retry));
    assert_eq!(c.on_attempt(false, false), Ok(StepDecision::Retry));
    assert_eq!(c.on_attempt(true, false), Ok(StepDecision::Commit));
    // The budget of consecutive rejections is whole again.
    assert_eq!(c.on_attempt(false, false), Ok(StepDecision::Retry));
    assert_eq!(c.on_attempt(false, false), Ok(StepDecision::Retry));
    assert_eq!(c.on_attempt(true, true), Ok(StepDecision::Finish));
}

#[test]
fn unbroken_rejection_stalls_at_the_bound() {
    // With tolerances that no step can meet, every attempt is rejected:
    // the run must end in IntegrationStalled after exactly max_rejects
    // attempts, never looping forever.
    let mut c = StepController::new(5);
    for _ in 0..4 {
        assert_eq!(c.on_attempt(false, false), Ok(StepDecision::Retry));
    }
    assert_eq!(c.on_attempt(false, false), Err(EngineError::IntegrationStalled));
    assert_eq!(c.accepted_steps, 0);
}

#[test]
fn tightest_bound_stalls_immediately() {
    let mut c = StepController::new(1);
    assert_eq!(c.on_attempt(false, false), Err(EngineError::IntegrationStalled));
}

#[test]
fn run_commits_a_sample_exactly_on_acceptance() {
    let mut run = IntegrationRun::new(4);
    // A rejected attempt leaves the trajectory untouched.
    assert_eq!(
        run.on_attempt(false, false, 10, vec![1, 2], vec![3, 4]),
        Ok(StepDecision::Retry)
    );
    assert!(run.times.is_empty());
    // An accepted attempt commits exactly its sample.
    assert_eq!(
        run.on_attempt(true, false, 20, vec![5, 6], vec![7, 8]),
        Ok(StepDecision::Commit)
    );
    assert_eq!(run.times, vec![20]);
    assert_eq!(run.states, vec![vec![5, 6]]);
    assert_eq!(run.derivs, vec![vec![7, 8]]);
    assert_eq!(
        run.on_attempt(true, true, 30, vec![9], vec![10]),
        Ok(StepDecision::Finish)
    );
    assert_eq!(run.times, vec![20, 30]);
    assert_eq!(run.controller.accepted_steps, 2);
}

#[test]
fn stalled_run_holds_no_partial_sample() {
    let mut run = IntegrationRun::new(2);
    assert_eq!(
        run.on_attempt(false, false, 1, vec![2], vec![3]),
        Ok(StepDecision::Retry)
    );
    assert_eq!(
        run.on_attempt(false, false, 4, vec![5], vec![6]),
        Err(EngineError::IntegrationStalled)
    );
    assert!(run.times.is_empty());
    assert!(run.states.is_empty());
    assert!(run.derivs.is_empty());
}

#[test]
fn worst_component_takes_the_largest_key() {
    assert_eq!(worst_component(&vec![3, 9, 1, 7]), 1);
    assert_eq!(worst_component(&vec![5]), 0);
}

#[test]
fn worst_component_breaks_ties_to_the_lowest_index() {
    assert_eq!(worst_component(&vec![2, 8, 8, 8, 1]), 1);
    assert_eq!(worst_component(&vec![4, 4, 4]), 0);
}
