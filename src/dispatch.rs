//! The decisions of a dispatch around the send: what each way the send can
//! end turns into.

use crate::error::{DispatchError, ErrorKind};
use vstd::prelude::*;

verus! {

/// How a send ended, as the caller that raced it against a deadline saw it.
pub enum SendOutcome<R> {
    /// The client answered with a response.
    Completed(R),
    /// The client failed; the text of its error.
    Failed(String),
    /// The deadline elapsed first; the text of the timer's error.
    TimedOut(String),
}

/// Turns the outcome of a send into the dispatch result: the response on
/// completion, otherwise an error carrying the cause's text. A timed-out send
/// never yields a response.
pub fn settle<R>(outcome: SendOutcome<R>) -> (r: Result<R, DispatchError>)
    ensures
        match outcome {
            SendOutcome::Completed(x) => r matches Ok(y) && y == x,
            SendOutcome::Failed(m) => r matches Err(e) && e.kind == ErrorKind::Send && e.message@ == m@,
            SendOutcome::TimedOut(m) => r matches Err(e) && e.kind == ErrorKind::Timeout && e.message@
                == m@,
        },
{
    match outcome {
        SendOutcome::Completed(x) => Ok(x),
        SendOutcome::Failed(m) => Err(DispatchError::new(ErrorKind::Send, m)),
        SendOutcome::TimedOut(m) => Err(DispatchError::new(ErrorKind::Timeout, m)),
    }
}

} // verus!
