//! Which failures of a playback are worth another attempt.

use core::time::Duration;
use vstd::prelude::*;

use crate::error::R357Error;

verus! {

/// A failure as the retry policy sees it.
#[derive(Debug)]
pub enum RetryError {
    /// Another attempt is pointless.
    Permanent(R357Error),
    /// Another attempt may succeed, after the given time or else when the policy says.
    Transient { err: R357Error, retry_after: Option<Duration> },
}

/// `backoff::Error::transient`: the failure may be retried when the policy says.
#[verifier::external_body]
fn transient(err: R357Error) -> (failure: RetryError)
    ensures
        failure == (RetryError::Transient { err, retry_after: None }),
{
    match backoff::Error::transient(err) {
        backoff::Error::Permanent(err) => RetryError::Permanent(err),
        backoff::Error::Transient { err, retry_after } => RetryError::Transient { err, retry_after },
    }
}

/// The failure of an attempt that ran in a task of its own. `Err` tells why the
/// task did not end.
pub open spec fn failure_of(attempt: Result<Result<(), R357Error>, String>) -> Option<R357Error> {
    match attempt {
        Ok(Ok(())) => None,
        Ok(Err(failure)) => Some(failure),
        Err(cause) => Some(R357Error::JoinError(cause)),
    }
}

/// Hands the result of an attempt to the retry policy. Every failure may be
/// retried, and none is held back.
pub fn to_backoff_error(attempt: Result<Result<(), R357Error>, String>) -> (verdict: Result<
    (),
    RetryError,
>)
    ensures
        verdict == (match failure_of(attempt) {
            None => Ok::<(), RetryError>(()),
            Some(err) => Err(RetryError::Transient { err, retry_after: None }),
        }),
        verdict is Ok <==> attempt is Ok && attempt->Ok_0 is Ok,
        attempt matches Ok(Err(failure)) ==> verdict == Err::<(), RetryError>(
            RetryError::Transient { err: failure, retry_after: None },
        ),
        attempt matches Err(cause) ==> verdict == Err::<(), RetryError>(
            RetryError::Transient { err: R357Error::JoinError(cause), retry_after: None },
        ),
{
    match attempt {
        Ok(Ok(())) => Ok(()),
        Ok(Err(failure)) => Err(transient(failure)),
        Err(cause) => Err(transient(R357Error::JoinError(cause))),
    }
}

/// An attempt has a failure if and only if it did not end well, and the failure is its
/// own: what it ended with, or that its task did not end.
pub proof fn no_failure_is_lost(
    attempt: Result<Result<(), R357Error>, String>,
    failure: R357Error,
    cause: String,
)
    ensures
        failure_of(attempt) is None <==> attempt is Ok && attempt->Ok_0 is Ok,
        failure_of(Ok(Err(failure))) == Some(failure),
        failure_of(Err(cause)) == Some(R357Error::JoinError(cause)),
{
}

} // verus!
