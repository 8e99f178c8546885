use rustql::rest::DispatchStatus;
use rustql::retry::{backoff_delay, on_attempt_outcome, run_attempts, AttemptOutcome, DispatchStep};

fn server_error() -> AttemptOutcome {
    AttemptOutcome::Response { status: 503, body: String::from("busy") }
}

#[test]
fn retries_exactly_budget_on_503_then_surfaces() {
    // retryAttempts = 2: three attempts in all, then the 503 surfaces.
    let outcomes = vec![server_error(), server_error(), server_error()];
    let (res, used) = run_attempts(2, 100, &outcomes);
    assert_eq!(used, 3);
    assert_eq!(res.status, DispatchStatus::UpstreamError);
    assert_eq!(res.http_status, Some(503));
}

#[test]
fn zero_retries_on_404() {
    let outcomes = vec![
        AttemptOutcome::Response { status: 404, body: String::from("missing") },
        server_error(),
    ];
    let (res, used) = run_attempts(1, 100, &outcomes);
    assert_eq!(used, 1);
    assert_eq!(res.status, DispatchStatus::UpstreamError);
    assert_eq!(res.http_status, Some(404));
}

#[test]
fn recovery_on_second_attempt() {
    let outcomes = vec![
        server_error(),
        AttemptOutcome::Response { status: 200, body: String::from("{\"ok\": true}") },
    ];
    let (res, used) = run_attempts(1, 100, &outcomes);
    assert_eq!(used, 2);
    assert_eq!(res.status, DispatchStatus::Success);
    assert_eq!(res.value, Some(String::from("{\"ok\": true}")));
}

#[test]
fn timeout_every_attempt_surfaces_timeout() {
    // timeout = 200 ms, retryAttempts = 1, the upstream never answers in
    // time: at most two attempts go out and a timeout is surfaced.
    let outcomes = vec![AttemptOutcome::TimedOut, AttemptOutcome::TimedOut];
    let (res, used) = run_attempts(1, 100, &outcomes);
    assert_eq!(used, 2);
    assert_eq!(res.status, DispatchStatus::Timeout);
    assert_eq!(res.error_detail, Some(String::from("Request timeout")));
}

#[test]
fn transport_error_exhausts_and_surfaces_detail() {
    let outcomes = vec![
        AttemptOutcome::TransportError { detail: String::from("connection refused") },
        AttemptOutcome::TransportError { detail: String::from("connection refused") },
    ];
    let (res, used) = run_attempts(1, 100, &outcomes);
    assert_eq!(used, 2);
    assert_eq!(res.status, DispatchStatus::UpstreamError);
    assert_eq!(res.error_detail, Some(String::from("connection refused")));
}

#[test]
fn backoff_doubles_per_attempt() {
    assert_eq!(backoff_delay(100, 0, 0), 100);
    assert_eq!(backoff_delay(100, 1, 0), 200);
    assert_eq!(backoff_delay(100, 2, 0), 400);
    assert_eq!(backoff_delay(100, 3, 7), 807);
}

#[test]
fn backoff_saturates() {
    assert_eq!(backoff_delay(u64::MAX, 1, 0), u64::MAX);
    assert_eq!(backoff_delay(1, 63, u64::MAX), u64::MAX);
}

#[test]
fn single_step_decisions() {
    let retry = on_attempt_outcome(2, 0, &server_error(), 100, 0);
    assert!(matches!(retry, DispatchStep::Retry { delay_ms: 100 }));
    let second = on_attempt_outcome(2, 1, &server_error(), 100, 0);
    assert!(matches!(second, DispatchStep::Retry { delay_ms: 200 }));
    let done = on_attempt_outcome(2, 2, &server_error(), 100, 0);
    match done {
        DispatchStep::Done(res) => assert_eq!(res.http_status, Some(503)),
        DispatchStep::Retry { .. } => panic!("budget was spent"),
    }
}
