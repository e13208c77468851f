//! Bounding a call that has no timeout of its own: what is answered.

use vstd::prelude::*;

use crate::error::PolarizeError;

verus! {

/// How waiting for a worker ended.
pub enum Waited<T> {
    /// The worker answered in time.
    Answered(Result<T, PolarizeError>),
    /// The time ran out. `after` is how long the wait was, in words.
    Expired { after: String },
    /// The worker ended without an answer.
    Lost,
}

/// Answers a bounded call: the worker's own answer when it came in time, and an
/// error when it did not.
pub fn answer_wait<T>(waited: Waited<T>) -> (r: Result<T, PolarizeError>)
    ensures
        match waited {
            Waited::Answered(answer) => r == answer,
            Waited::Expired { after } => r matches Err(PolarizeError::Platform(s)) && s@
                == "operation timed out after "@ + after@ + " with no response"@,
            Waited::Lost => r matches Err(PolarizeError::Platform(s)) && s@
                == "operation's worker thread ended without sending a result"@,
        },
{
    match waited {
        Waited::Answered(answer) => answer,
        Waited::Expired { after } => {
            let mut message = "operation timed out after ".to_owned();
            message.append(&after);
            message.append(" with no response");
            Err(PolarizeError::Platform(message))
        },
        Waited::Lost => Err(
            PolarizeError::Platform(
                "operation's worker thread ended without sending a result".to_owned(),
            ),
        ),
    }
}

/// Only an answer that came in time is answered, as the worker gave it. A wait
/// that ran out, or whose worker was lost, is an error of the platform; the one
/// that ran out says how long it was.
pub proof fn only_answers_in_time_are_answers<T>(waited: Waited<T>, r: Result<T, PolarizeError>)
    requires
        call_ensures(answer_wait::<T>, (waited,), r),
    ensures
        r is Ok ==> waited is Answered && waited->Answered_0 is Ok,
        waited matches Waited::Answered(answer) ==> r == answer,
        !(waited is Answered) ==> r is Err && r->Err_0 is Platform,
        waited matches Waited::Expired { after } ==> r->Err_0->Platform_0@
            == "operation timed out after "@ + after@ + " with no response"@,
{
}

} // verus!
