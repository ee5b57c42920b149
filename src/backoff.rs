//! The decisions of the blocking send and receive: after a refused attempt,
//! spin and try again, or give up once the deadline has passed.
use vstd::prelude::*;

use std::time::{Duration, Instant};

use crate::frame::{SendError, RecvError};

verus! {

#[verifier::external_type_specification]
#[verifier::external_body]
pub struct ExInstant(std::time::Instant);

/// Relies on `Instant::now`: reads the monotonic clock; nothing is known of the value.
pub assume_specification[ std::time::Instant::now ]() -> std::time::Instant;

/// Relies on `Instant::elapsed`: the time since the instant; nothing is known of the value.
pub assume_specification[ std::time::Instant::elapsed ](i: &std::time::Instant) -> std::time::Duration;

/// Relies on `Duration::as_nanos`: the whole nanoseconds of a duration.
pub assume_specification[ std::time::Duration::as_nanos ](d: &std::time::Duration) -> u128;

/// Relies on `std::hint::spin_loop`: a processor hint that returns at once.
pub assume_specification[ std::hint::spin_loop ]();

/// Busy-waits with the processor's spin hint until `duration` has passed
/// since the call, but for at most `max_spins` rounds; returns the rounds made.
pub fn spin_wait(duration: Duration, max_spins: u64) -> (spins: u64)
    ensures
        spins <= max_spins,
{
    let start = Instant::now();
    let limit = duration.as_nanos();
    let mut spins: u64 = 0;
    while spins < max_spins
        invariant
            spins <= max_spins,
        decreases max_spins - spins,
    {
        let waited = start.elapsed();
        if waited.as_nanos() >= limit {
            break;
        }
        std::hint::spin_loop();
        spins = spins + 1;
    }
    spins
}

/// Whether a blocking call that has waited `elapsed_nanos` still waits,
/// under an optional deadline counted from the call's start.
pub open spec fn within(elapsed_nanos: nat, deadline_nanos: Option<u64>) -> bool {
    match deadline_nanos {
        None => true,
        Some(d) => elapsed_nanos < d,
    }
}

/// Whether a blocking call that has waited `elapsed_nanos` still waits.
pub fn keep_waiting(elapsed_nanos: u64, deadline_nanos: Option<u64>) -> (r: bool)
    ensures
        r == within(elapsed_nanos as nat, deadline_nanos),
{
    match deadline_nanos {
        None => true,
        Some(d) => elapsed_nanos < d,
    }
}

/// What a blocking call does after one non-blocking attempt.
#[derive(Clone, Debug, PartialEq, Eq)]
pub enum Step<T> {
    /// The call ends with this result.
    Done(T),
    /// The call spins, then tries again.
    Retry,
}

/// After a send attempt: `Full` is waited out until the deadline, then
/// becomes `Timeout`; success and every other error end the call.
pub fn send_step(attempt: Result<(), SendError>, elapsed_nanos: u64, deadline_nanos: Option<u64>) -> (r:
    Step<Result<(), SendError>>)
    ensures
        attempt == Err::<(), SendError>(SendError::Full) ==> if within(
            elapsed_nanos as nat,
            deadline_nanos,
        ) {
            r == Step::<Result<(), SendError>>::Retry
        } else {
            r == Step::Done(Err::<(), SendError>(SendError::Timeout))
        },
        attempt != Err::<(), SendError>(SendError::Full) ==> r == Step::Done(attempt),
{
    match attempt {
        Err(SendError::Full) => {
            if keep_waiting(elapsed_nanos, deadline_nanos) {
                Step::Retry
            } else {
                Step::Done(Err(SendError::Timeout))
            }
        },
        other => Step::Done(other),
    }
}

/// After a receive attempt: `Empty` is waited out until the deadline, then
/// becomes `Timeout`; a message and every other error end the call.
pub fn receive_step(
    attempt: Result<Vec<u8>, RecvError>,
    elapsed_nanos: u64,
    deadline_nanos: Option<u64>,
) -> (r: Step<Result<Vec<u8>, RecvError>>)
    ensures
        attempt == Err::<Vec<u8>, RecvError>(RecvError::Empty) ==> if within(
            elapsed_nanos as nat,
            deadline_nanos,
        ) {
            r == Step::<Result<Vec<u8>, RecvError>>::Retry
        } else {
            r == Step::Done(Err::<Vec<u8>, RecvError>(RecvError::Timeout))
        },
        attempt != Err::<Vec<u8>, RecvError>(RecvError::Empty) ==> r == Step::Done(attempt),
{
    match attempt {
        Err(RecvError::Empty) => {
            if keep_waiting(elapsed_nanos, deadline_nanos) {
                Step::Retry
            } else {
                Step::Done(Err(RecvError::Timeout))
            }
        },
        other => Step::Done(other),
    }
}

} // verus!
