//! Errors of background operations: their kinds and messages, discarding a
//! failed result, and the retry schedule with exponential backoff.
use vstd::prelude::*;
use crate::decimal::{decimal_text, usize_to_decimal};
use crate::text::owned;

verus! {

broadcast use vstd::string::group_string_axioms;

#[verifier::external_type_specification]
#[verifier::external_body]
pub struct ExIoError(std::io::Error);

#[verifier::external_type_specification]
#[verifier::external_body]
pub struct ExAnyhowError(anyhow::Error);

/// The text that `std::io::Error`'s `Display` writes; it depends on the
/// operating system's messages, so nothing is stated of it.
#[verifier::external_body]
fn io_error_text(e: &std::io::Error) -> String {
    e.to_string()
}

/// The text that `anyhow::Error`'s `Display` writes (its outermost message);
/// the error is opaque here, so nothing is stated of it.
#[verifier::external_body]
fn anyhow_error_text(e: &anyhow::Error) -> String {
    e.to_string()
}

/// Why a background operation did not give a value.
#[derive(Debug, Clone, PartialEq)]
pub enum AsyncError {
    /// The operation was cancelled or its context dropped.
    Cancelled,
    /// The operation failed with a message.
    Failed(String),
    /// The operation panicked.
    Panicked(String),
}

/// The message of each kind of error.
pub open spec fn async_error_message(e: AsyncError) -> Seq<char> {
    match e {
        AsyncError::Cancelled => "Async operation was cancelled"@,
        AsyncError::Failed(msg) => "Async operation failed: "@ + msg@,
        AsyncError::Panicked(msg) => "Async operation panicked: "@ + msg@,
    }
}

impl AsyncError {
    /// The message that describes the error.
    pub fn message(&self) -> (r: String)
        ensures
            r@ == async_error_message(*self),
    {
        match self {
            AsyncError::Cancelled => owned("Async operation was cancelled"),
            AsyncError::Failed(msg) => {
                let mut m = owned("Async operation failed: ");
                m.append(msg.as_str());
                m
            },
            AsyncError::Panicked(msg) => {
                let mut m = owned("Async operation panicked: ");
                m.append(msg.as_str());
                m
            },
        }
    }
}

/// Turning an error into a failed background operation.
pub trait IntoAsyncError {
    fn into_async_error(self) -> (r: AsyncError)
        ensures
            r is Failed,
    ;
}

impl IntoAsyncError for anyhow::Error {
    /// A failure carrying the error's message.
    fn into_async_error(self) -> (r: AsyncError) {
        AsyncError::Failed(anyhow_error_text(&self))
    }
}

impl IntoAsyncError for std::io::Error {
    /// A failure carrying the error's message.
    fn into_async_error(self) -> (r: AsyncError) {
        AsyncError::Failed(io_error_text(&self))
    }
}

/// The value of a successful operation; nothing for a failed one (whose
/// error the caller reports).
pub fn log_async_error<T, E>(result: Result<T, E>) -> (r: Option<T>)
    ensures
        match result {
            Ok(v) => r == Some(v),
            Err(_) => r is None,
        },
{
    match result {
        Ok(value) => Some(value),
        Err(_) => None,
    }
}

/// The wait before the second attempt, in milliseconds.
pub const INITIAL_BACKOFF_MS: u64 = 100;

/// The longest wait between attempts, in milliseconds.
pub const MAX_BACKOFF_MS: u64 = 5000;

/// What to do after a failed attempt.
#[derive(Debug, Clone, Copy, PartialEq, Eq)]
pub enum RetryStep {
    /// Wait, then try again; the wait after that is `next_backoff_ms`.
    Retry { delay_ms: u64, next_backoff_ms: u64 },
    /// That was the last attempt: report the failure.
    GiveUp,
}

/// The wait after the current one: doubled, at most the longest wait.
pub open spec fn next_backoff(backoff_ms: u64) -> u64 {
    if backoff_ms * 2 <= MAX_BACKOFF_MS {
        (backoff_ms * 2) as u64
    } else {
        MAX_BACKOFF_MS
    }
}

/// What to do after attempt number `attempt` (counting from one) of
/// `max_attempts` failed: wait `backoff_ms` and try again while attempts
/// remain, otherwise give up.
pub fn retry_after_failure(attempt: usize, max_attempts: usize, backoff_ms: u64) -> (r: RetryStep)
    requires
        backoff_ms * 2 <= u64::MAX,
    ensures
        attempt < max_attempts ==> r == (RetryStep::Retry {
            delay_ms: backoff_ms,
            next_backoff_ms: next_backoff(backoff_ms),
        }),
        attempt >= max_attempts ==> r == RetryStep::GiveUp,
{
    if attempt < max_attempts {
        let doubled = backoff_ms * 2;
        let next = if doubled <= MAX_BACKOFF_MS {
            doubled
        } else {
            MAX_BACKOFF_MS
        };
        RetryStep::Retry { delay_ms: backoff_ms, next_backoff_ms: next }
    } else {
        RetryStep::GiveUp
    }
}

/// The message of a failure after all attempts.
pub open spec fn retry_failure_message_spec(max_attempts: usize, error: Seq<char>) -> Seq<char> {
    "Operation failed after "@ + decimal_text(max_attempts as nat) + " attempts: "@ + error
}

/// The message of a failure after all attempts, with the last error's text.
pub fn retry_failure_message(max_attempts: usize, error: &str) -> (r: String)
    ensures
        r@ == retry_failure_message_spec(max_attempts, error@),
{
    let mut m = owned("Operation failed after ");
    let n = usize_to_decimal(max_attempts);
    m.append(n.as_str());
    m.append(" attempts: ");
    m.append(error);
    m
}

/// The waits of the retry schedule grow and never pass the longest wait:
/// from any wait up to the longest, the next wait is at least as long and
/// at most the longest.
pub proof fn lemma_backoff_grows_and_is_capped(backoff_ms: u64)
    requires
        backoff_ms <= MAX_BACKOFF_MS,
    ensures
        backoff_ms <= next_backoff(backoff_ms) <= MAX_BACKOFF_MS,
        next_backoff(MAX_BACKOFF_MS) == MAX_BACKOFF_MS,
{
}

/// What the retry schedule comes to when the `k`-th call of the operation
/// gives `outcomes[k - 1]`, from call number `attempt` on: the number of
/// calls made and the result. A success ends the calls; after a failure the
/// schedule tries again while calls remain ([`retry_after_failure`]) and
/// otherwise fails with [`retry_failure_message`] of the last error.
pub open spec fn retried<T>(outcomes: Seq<Result<T, Seq<char>>>, max_attempts: usize, attempt: nat) -> (nat, Result<T, Seq<char>>)
    decreases max_attempts - attempt,
{
    if attempt == 0 || attempt > max_attempts || attempt > outcomes.len() {
        (attempt, Err(Seq::empty()))
    } else {
        match outcomes[attempt - 1] {
            Ok(v) => (attempt, Ok(v)),
            Err(e) => if attempt < max_attempts {
                retried(outcomes, max_attempts, attempt + 1)
            } else {
                (attempt, Err(retry_failure_message_spec(max_attempts, e)))
            },
        }
    }
}

/// The first call that succeeds, counted from one, when one of the first
/// `n` calls does.
pub open spec fn first_success<T>(outcomes: Seq<Result<T, Seq<char>>>, n: nat) -> Option<nat>
    decreases n,
{
    if n == 0 {
        None
    } else {
        match first_success(outcomes, (n - 1) as nat) {
            Some(j) => Some(j),
            None => if outcomes[n - 1] is Ok { Some(n) } else { None },
        }
    }
}

proof fn lemma_retried_from<T>(outcomes: Seq<Result<T, Seq<char>>>, max_attempts: usize, attempt: nat)
    requires
        1 <= attempt <= max_attempts,
        outcomes.len() >= max_attempts,
        first_success(outcomes, (attempt - 1) as nat) is None,
    ensures
        match first_success(outcomes, max_attempts as nat) {
            Some(j) => retried(outcomes, max_attempts, attempt) == (j, outcomes[j - 1]),
            None => retried(outcomes, max_attempts, attempt) == (
                max_attempts as nat,
                Err::<T, Seq<char>>(retry_failure_message_spec(max_attempts, outcomes[max_attempts - 1]->Err_0)),
            ),
        },
    decreases max_attempts - attempt,
{
    lemma_first_success_prefix(outcomes, attempt, max_attempts as nat);
    match outcomes[attempt - 1] {
        Ok(_) => {
            assert(first_success(outcomes, attempt) == Some(attempt));
        },
        Err(_) => {
            assert(first_success(outcomes, attempt) is None);
            if attempt < max_attempts {
                lemma_retried_from(outcomes, max_attempts, attempt + 1);
            }
        },
    }
}

/// A success among the first `n` calls stays the first success among more
/// calls; with none, the first success among more calls lies beyond `n`.
proof fn lemma_first_success_prefix<T>(outcomes: Seq<Result<T, Seq<char>>>, n: nat, m: nat)
    requires
        n <= m,
    ensures
        first_success(outcomes, n) is Some ==> first_success(outcomes, m) == first_success(outcomes, n),
        first_success(outcomes, n) is None && first_success(outcomes, m) is Some ==> first_success(outcomes, m)->Some_0 > n,
        first_success(outcomes, m) matches Some(j) ==> 1 <= j <= m && outcomes[j - 1] is Ok,
        first_success(outcomes, m) is None ==> forall|k: int| 0 <= k < m ==> outcomes[k] is Err,
    decreases m,
{
    if m > 0 {
        if n < m {
            lemma_first_success_prefix(outcomes, n, (m - 1) as nat);
        } else {
            lemma_first_success_prefix(outcomes, (m - 1) as nat, (m - 1) as nat);
        }
        assert forall|k: int| first_success(outcomes, m) is None && 0 <= k < m implies outcomes[k] is Err by {
            if k < m - 1 {
            } else {
                assert(k == m - 1);
            }
        }
    }
}

/// Retrying: with at least one attempt allowed, the operation is called
/// until it first succeeds, and its value is the result after exactly that
/// many calls; when none of the allowed calls succeeds, the result after
/// exactly `max_attempts` calls is the failure that names the number of
/// attempts and the last error. The waits between calls grow and stay
/// capped ([`lemma_backoff_grows_and_is_capped`]).
pub proof fn lemma_retry_outcome<T>(outcomes: Seq<Result<T, Seq<char>>>, max_attempts: usize)
    requires
        max_attempts >= 1,
        outcomes.len() >= max_attempts,
    ensures
        match first_success(outcomes, max_attempts as nat) {
            Some(j) => retried(outcomes, max_attempts, 1) == (j, outcomes[j - 1]) && outcomes[j - 1] is Ok,
            None => retried(outcomes, max_attempts, 1) == (
                max_attempts as nat,
                Err::<T, Seq<char>>(retry_failure_message_spec(max_attempts, outcomes[max_attempts - 1]->Err_0)),
            ),
        },
{
    lemma_retried_from(outcomes, max_attempts, 1);
    lemma_first_success_prefix(outcomes, max_attempts as nat, max_attempts as nat);
}

} // verus!
