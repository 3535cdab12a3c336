use finplan_server::error::ApiError;
use finplan_server::jobs::{
    JobBudget, JobKind, JobRegistry, JobStatus, WorkerAction, WorkerError, WorkerEvent,
};

#[test]
fn kinds_and_statuses_have_wire_names() {
    assert_eq!(JobKind::Sweep.as_str(), "sweep");
    assert_eq!(JobKind::Sensitivity.as_str(), "sensitivity");
    assert_eq!(JobKind::Solve.as_str(), "solve");
    assert_eq!(JobKind::WhatIf.as_str(), "what-if");
    assert_eq!(JobStatus::Queued.as_str(), "queued");
    assert_eq!(JobStatus::Canceled.as_str(), "canceled");
    assert!(JobStatus::Succeeded.is_terminal());
    assert!(JobStatus::Failed.is_terminal());
    assert!(JobStatus::Canceled.is_terminal());
    assert!(!JobStatus::Queued.is_terminal());
    assert!(!JobStatus::Running.is_terminal());
}

#[test]
fn budgets_count_simulations() {
    assert_eq!(JobBudget::Sweep { points: 36, iterations: 250 }.total(), 37 * 250);
    assert_eq!(JobBudget::Sensitivity { params: 3, iterations: 200 }.total(), 7 * 200);
    assert_eq!(JobBudget::Solve { probes: 10, iterations: 250 }.total(), 2500);
    assert_eq!(JobBudget::WhatIf { steps: 4, iterations: 100 }.total(), 400);
}

#[test]
fn worker_error_reports_cancellation() {
    assert!(WorkerError { cancel: true }.is_cancel());
    assert!(!WorkerError { cancel: false }.is_cancel());
}

#[test]
fn ids_increase_and_jobs_start_queued() {
    let mut reg: JobRegistry<u32> = JobRegistry::new();
    let a = reg.start(1, "u", JobKind::Sweep, 100, 0);
    let b = reg.start(1, "u", JobKind::Solve, 50, 5);
    assert_eq!(a, 1);
    assert_eq!(b, 2);
    let v = reg.view(b, "u").ok().unwrap();
    assert_eq!(v.status, JobStatus::Queued);
    assert_eq!(v.total, 50);
    assert_eq!(v.kind, JobKind::Solve);
    assert_eq!(reg.queued(JobKind::Sweep), 1);
    assert_eq!(reg.queued(JobKind::Solve), 1);
}

#[test]
fn another_users_job_reads_as_missing() {
    let mut reg: JobRegistry<u32> = JobRegistry::new();
    let id = reg.start(1, "owner", JobKind::Sweep, 10, 0);
    assert!(matches!(reg.view(id, "intruder"), Err(ApiError::NotFound("analysis"))));
    assert!(matches!(reg.view(999, "owner"), Err(ApiError::NotFound("analysis"))));
    assert!(matches!(reg.cancel(id, "intruder"), Err(ApiError::NotFound("analysis"))));
}

#[test]
fn successful_job_keeps_its_results() {
    let mut reg: JobRegistry<u32> = JobRegistry::new();
    let id = reg.start(1, "u", JobKind::Sweep, 10, 100);
    assert_eq!(reg.on_event(id, WorkerEvent::Ready, 150), WorkerAction::Run);
    reg.record_progress(id, 7);
    assert_eq!(reg.view(id, "u").ok().unwrap().completed, 7);
    assert_eq!(reg.on_event(id, WorkerEvent::Finished(42), 400), WorkerAction::Stop);
    let v = reg.view(id, "u").ok().unwrap();
    assert_eq!(v.status, JobStatus::Succeeded);
    assert_eq!(v.elapsed_ms, Some(250));
    assert!(v.error.is_none());
    assert_eq!(*reg.outcome(id, "u").ok().unwrap(), 42);
}

#[test]
fn terminal_state_is_recorded_once() {
    let mut reg: JobRegistry<u32> = JobRegistry::new();
    let id = reg.start(1, "u", JobKind::Sweep, 10, 0);
    assert_eq!(reg.finish(id, JobStatus::Failed, None, Some("boom".to_string()), 10), Some(JobStatus::Failed));
    assert_eq!(reg.finish(id, JobStatus::Succeeded, Some(1), None, 20), None);
    let v = reg.view(id, "u").ok().unwrap();
    assert_eq!(v.status, JobStatus::Failed);
    assert_eq!(v.error.as_deref(), Some("boom"));
    match reg.outcome(id, "u") {
        Err(ApiError::Unprocessable(m)) => assert_eq!(m, "boom"),
        _ => panic!("expected the failure message"),
    }
}

#[test]
fn cancel_requested_while_queued_settles_as_canceled() {
    let mut reg: JobRegistry<u32> = JobRegistry::new();
    let id = reg.start(1, "u", JobKind::Sensitivity, 10, 0);
    let v = reg.cancel(id, "u").ok().unwrap();
    assert_eq!(v.status, JobStatus::Queued);
    assert_eq!(reg.on_event(id, WorkerEvent::Ready, 5), WorkerAction::Stop);
    assert_eq!(reg.view(id, "u").ok().unwrap().status, JobStatus::Canceled);
    match reg.outcome(id, "u") {
        Err(ApiError::BadRequest(m)) => assert_eq!(m, "analysis was canceled"),
        _ => panic!("expected a refusal"),
    }
}

#[test]
fn cancel_wins_over_a_late_success() {
    let mut reg: JobRegistry<u32> = JobRegistry::new();
    let id = reg.start(1, "u", JobKind::Solve, 10, 0);
    assert_eq!(reg.on_event(id, WorkerEvent::Ready, 1), WorkerAction::Run);
    reg.cancel(id, "u").ok().unwrap();
    reg.on_event(id, WorkerEvent::Finished(9), 2);
    let v = reg.view(id, "u").ok().unwrap();
    assert_eq!(v.status, JobStatus::Canceled);
    assert!(reg.outcome(id, "u").is_err());
}

#[test]
fn unfinished_job_has_no_results_yet() {
    let mut reg: JobRegistry<u32> = JobRegistry::new();
    let id = reg.start(1, "u", JobKind::Sweep, 10, 0);
    match reg.outcome(id, "u") {
        Err(ApiError::BadRequest(m)) => assert_eq!(m, "analysis has not finished"),
        _ => panic!("expected a refusal"),
    }
}

#[test]
fn worker_failures_carry_their_messages() {
    let cases = [
        (WorkerEvent::QueueClosed, "Analysis queue unavailable"),
        (WorkerEvent::PrepareFailed, "Unable to prepare analysis"),
        (WorkerEvent::EngineFailed, "Analysis failed"),
        (WorkerEvent::Panicked, "Analysis worker failed"),
    ];
    for (event, message) in cases {
        let mut reg: JobRegistry<u32> = JobRegistry::new();
        let id = reg.start(1, "u", JobKind::Sweep, 10, 0);
        assert_eq!(reg.on_event(id, event, 3), WorkerAction::Stop);
        let v = reg.view(id, "u").ok().unwrap();
        assert_eq!(v.status, JobStatus::Failed);
        assert_eq!(v.error.as_deref(), Some(message));
    }
}

#[test]
fn deleted_plan_cancels_before_start() {
    let mut reg: JobRegistry<u32> = JobRegistry::new();
    let id = reg.start(1, "u", JobKind::Sweep, 10, 10);
    assert_eq!(reg.on_event(id, WorkerEvent::ScenarioMissing, 30), WorkerAction::Stop);
    let v = reg.view(id, "u").ok().unwrap();
    assert_eq!(v.status, JobStatus::Canceled);
    assert_eq!(v.elapsed_ms, Some(20));
}

#[test]
fn interrupted_worker_fails_its_job() {
    let mut reg: JobRegistry<u32> = JobRegistry::new();
    let id = reg.start(1, "u", JobKind::WhatIf, 10, 0);
    reg.interrupt(id, 8);
    let v = reg.view(id, "u").ok().unwrap();
    assert_eq!(v.status, JobStatus::Failed);
    assert_eq!(v.error.as_deref(), Some("Analysis interrupted"));
    assert_eq!(v.elapsed_ms, Some(8));
}

#[test]
fn eviction_keeps_jobs_in_flight() {
    let mut reg: JobRegistry<u32> = JobRegistry::new();
    let first = reg.start(1, "u", JobKind::Sweep, 1, 0);
    for _ in 0..40 {
        reg.start(1, "u", JobKind::Sweep, 1, 0);
    }
    // Nothing has finished, so nothing was let go.
    assert!(reg.view(first, "u").is_ok());
    reg.finish(first, JobStatus::Succeeded, Some(1), None, 1);
    reg.start(1, "u", JobKind::Sweep, 1, 0);
    // Once finished, the oldest job is the one let go.
    assert!(reg.view(first, "u").is_err());
    assert!(reg.view(first + 1, "u").is_ok());
}
