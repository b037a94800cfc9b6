use nucleotide::error_boundary::{
    log_async_error, retry_after_failure, retry_failure_message, AsyncError, IntoAsyncError,
    RetryStep, INITIAL_BACKOFF_MS, MAX_BACKOFF_MS,
};

#[test]
fn error_messages_name_the_kind() {
    assert_eq!(AsyncError::Cancelled.message(), "Async operation was cancelled");
    assert_eq!(AsyncError::Failed("Not found".to_string()).message(), "Async operation failed: Not found");
    assert_eq!(AsyncError::Panicked("Test panic".to_string()).message(), "Async operation panicked: Test panic");
}

#[test]
fn outside_errors_become_failures_with_their_text() {
    let e = anyhow::Error::msg("Temporary failure").into_async_error();
    assert_eq!(e, AsyncError::Failed("Temporary failure".to_string()));
    let io = std::io::Error::new(std::io::ErrorKind::NotFound, "Not found").into_async_error();
    assert_eq!(io, AsyncError::Failed("Not found".to_string()));
}

#[test]
fn failed_results_are_dropped() {
    let ok: Result<i32, AsyncError> = Ok(42);
    assert_eq!(log_async_error(ok), Some(42));
    let err: Result<i32, AsyncError> = Err(AsyncError::Cancelled);
    assert_eq!(log_async_error(err), None);
}

#[test]
fn retry_schedule_doubles_up_to_the_cap() {
    assert_eq!(
        retry_after_failure(1, 3, INITIAL_BACKOFF_MS),
        RetryStep::Retry { delay_ms: 100, next_backoff_ms: 200 }
    );
    assert_eq!(
        retry_after_failure(2, 10, 4000),
        RetryStep::Retry { delay_ms: 4000, next_backoff_ms: MAX_BACKOFF_MS }
    );
    assert_eq!(retry_after_failure(3, 3, 400), RetryStep::GiveUp);
    assert_eq!(
        retry_failure_message(3, "Temporary failure"),
        "Operation failed after 3 attempts: Temporary failure"
    );
}

#[test]
fn retrying_calls_until_the_operation_succeeds() {
    // The operation fails twice, then gives 42; three attempts are allowed.
    let outcomes: Vec<Result<u32, String>> =
        vec![Err("busy".to_string()), Err("busy".to_string()), Ok(42)];
    let max_attempts = 3;
    let mut backoff = INITIAL_BACKOFF_MS;
    let mut waits = Vec::new();
    let mut calls = 0;
    let mut result = None;
    for attempt in 1..=max_attempts {
        calls += 1;
        match &outcomes[attempt - 1] {
            Ok(v) => {
                result = Some(Ok(*v));
                break;
            }
            Err(e) => match retry_after_failure(attempt, max_attempts, backoff) {
                RetryStep::Retry { delay_ms, next_backoff_ms } => {
                    waits.push(delay_ms);
                    backoff = next_backoff_ms;
                }
                RetryStep::GiveUp => {
                    result = Some(Err(retry_failure_message(max_attempts, e)));
                }
            },
        }
    }
    assert_eq!(result, Some(Ok(42)));
    assert_eq!(calls, 3);
    assert_eq!(waits, vec![100, 200]);
}
