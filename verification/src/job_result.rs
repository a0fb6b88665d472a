//! The tri-valued outcome of one job execution, carrying the
//! notification detail built from its output.

use vstd::prelude::*;
use crate::message::MessageDetail;

verus! {

/// Outcome of one run of a job.
pub enum JobResult {
    /// The job ran and exited cleanly.
    Succeeded(MessageDetail),
    /// The job could not be run: its configuration is wrong.
    Invalid(MessageDetail),
    /// The job ran and reported a problem.
    Failed(MessageDetail),
}

impl JobResult {
    /// The detail carried, whatever the outcome.
    pub open spec fn detail_of(self) -> MessageDetail {
        match self {
            JobResult::Succeeded(detail) => detail,
            JobResult::Invalid(detail) => detail,
            JobResult::Failed(detail) => detail,
        }
    }

    pub fn take_detail(self) -> (r: MessageDetail)
        ensures
            r == self.detail_of(),
    {
        match self {
            JobResult::Succeeded(detail) => detail,
            JobResult::Invalid(detail) => detail,
            JobResult::Failed(detail) => detail,
        }
    }

    /// A short name of the outcome kind.
    pub fn type_str(&self) -> (r: &str)
        ensures
            *self is Succeeded ==> r@ == "ok"@,
            *self is Invalid ==> r@ == "invalid"@,
            *self is Failed ==> r@ == "failed"@,
    {
        match self {
            JobResult::Succeeded(_) => "ok",
            JobResult::Invalid(_) => "invalid",
            JobResult::Failed(_) => "failed",
        }
    }
}

} // verus!
