//! When to try an HTTP request again.
//!
//! A request is tried at most `max(retries, 1)` times. A response is
//! handed back unless its status asks for another try (429 Too Many
//! Requests, or a server error) and tries are left; a failed request is
//! tried again while tries are left. Before try `k + 1` the caller waits
//! `150 * k` milliseconds. The caller performs the requests and the waits.

use vstd::prelude::*;

verus! {

/// Whether a status is a server error (500 to 599).
pub open spec fn is_server_error(status: u16) -> bool {
    500 <= status <= 599
}

/// Whether a response with this status should be tried again.
pub open spec fn spec_should_retry_status(status: u16) -> bool {
    status == 429 || is_server_error(status)
}

/// Whether a response with this status should be tried again: 429 Too
/// Many Requests, or a server error.
pub fn should_retry_status(status: u16) -> (b: bool)
    ensures
        b == spec_should_retry_status(status),
{
    status == 429 || (500 <= status && status <= 599)
}

/// How many times a request is tried for a number of retries: at least
/// once.
pub fn attempts_for(retries: usize) -> (n: usize)
    ensures
        n == if retries == 0 {
            1
        } else {
            retries
        },
        n >= 1,
{
    if retries == 0 {
        1
    } else {
        retries
    }
}

/// What came of one try.
#[derive(Clone, Copy, Debug, PartialEq, Eq, Structural)]
pub enum Outcome {
    /// A response arrived, with this status.
    Response(u16),
    /// The request failed before any response.
    Failed,
}

/// What the caller does after a try.
#[derive(Clone, Copy, Debug, PartialEq, Eq, Structural)]
pub enum RetryStep {
    /// Hand back the response of this try.
    Deliver,
    /// Wait this many milliseconds, then try again.
    RetryAfter(u64),
    /// Hand back the error of this try: no tries are left.
    GiveUp,
}

/// The milliseconds to wait after try `attempt`.
pub open spec fn backoff_ms(attempt: nat) -> nat {
    150 * attempt
}

/// The step after try number `attempt` (from 1) of `attempts`.
pub open spec fn spec_next_step(attempt: nat, attempts: nat, outcome: Outcome) -> RetryStep {
    match outcome {
        Outcome::Response(status) => if !spec_should_retry_status(status) || attempt == attempts {
            RetryStep::Deliver
        } else {
            RetryStep::RetryAfter(backoff_ms(attempt) as u64)
        },
        Outcome::Failed => if attempt < attempts {
            RetryStep::RetryAfter(backoff_ms(attempt) as u64)
        } else {
            RetryStep::GiveUp
        },
    }
}

/// The step after try number `attempt` (from 1) of `attempts`.
pub fn next_step(attempt: usize, attempts: usize, outcome: Outcome) -> (s: RetryStep)
    requires
        1 <= attempt <= attempts,
        150 * attempt <= u64::MAX,
    ensures
        s == spec_next_step(attempt as nat, attempts as nat, outcome),
{
    match outcome {
        Outcome::Response(status) => {
            if !should_retry_status(status) || attempt == attempts {
                RetryStep::Deliver
            } else {
                RetryStep::RetryAfter(150 * attempt as u64)
            }
        },
        Outcome::Failed => {
            if attempt < attempts {
                RetryStep::RetryAfter(150 * attempt as u64)
            } else {
                RetryStep::GiveUp
            }
        },
    }
}

/// The last try never asks for another, and a try before the last gives up
/// on nothing: the caller makes at most `attempts` tries, and hands back an
/// error only when the last one failed.
pub proof fn lemma_tries_bounded(attempt: nat, attempts: nat, outcome: Outcome)
    requires
        1 <= attempt <= attempts,
    ensures
        attempt == attempts ==> !(spec_next_step(attempt, attempts, outcome) is RetryAfter),
        spec_next_step(attempt, attempts, outcome) is GiveUp ==> attempt == attempts
            && outcome == Outcome::Failed,
{
}

/// A response whose status does not ask for another try is handed back at
/// once.
pub proof fn lemma_plain_response_delivered(attempt: nat, attempts: nat, status: u16)
    requires
        1 <= attempt <= attempts,
        !spec_should_retry_status(status),
    ensures
        spec_next_step(attempt, attempts, Outcome::Response(status)) == RetryStep::Deliver,
{
}

} // verus!
