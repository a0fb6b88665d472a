//! The notification policy of a job, and the construction of a
//! notification message from a job's outcome.

use vstd::prelude::*;
use vstd::string::StringExecFns;
use crate::action::ProgramOutputFormat;
use crate::config::JobDefinitionId;
use crate::job_result::JobResult;
use crate::message::Level;
use crate::message::Message;

verus! {

/// Milliseconds since the unix epoch, now.
///
/// Relies on std::time::SystemTime::now and
/// SystemTime::duration_since(UNIX_EPOCH): the wall clock read as
/// milliseconds from the epoch. A clock before the epoch reads as zero.
#[verifier::external_body]
fn now_unix_millis() -> i64 {
    match std::time::SystemTime::now().duration_since(std::time::UNIX_EPOCH) {
        Ok(d) => d.as_millis() as i64,
        Err(_) => 0,
    }
}

/// How and whether a job's outcome turns into a notification.
#[derive(Debug)]
pub struct NotifyDefinition {
    pub title: String,
    pub component: String,
    pub output_format: ProgramOutputFormat,
    pub report_if_success: bool,
}

impl NotifyDefinition {
    pub fn new(
        title: String,
        component: String,
        report_if_success: bool,
        output_format: ProgramOutputFormat,
    ) -> (r: Self)
        ensures
            r == (NotifyDefinition { title, component, output_format, report_if_success }),
    {
        NotifyDefinition { title, component, report_if_success, output_format }
    }

    pub fn get_output_format(&self) -> (r: &ProgramOutputFormat)
        ensures
            r == &self.output_format,
    {
        &self.output_format
    }

    /// Build the notification for an outcome: none for a quiet success,
    /// else a message whose severity follows the outcome kind, titled
    /// and attributed per this policy, carrying the outcome's detail.
    /// The timestamp is read off the wall clock at the call.
    pub fn create_message(&self, job_id: &JobDefinitionId, job_result: JobResult) -> (r: Option<
        Message,
    >)
        ensures
            r is None <==> (job_result is Succeeded && !self.report_if_success),
            r is Some ==> {
                let m = r->0;
                &&& m.level == (match job_result {
                    JobResult::Succeeded(_) => Level::Info,
                    JobResult::Invalid(_) => Level::SelfError,
                    JobResult::Failed(_) => Level::Error,
                })
                &&& m.title matches Some(t) && t@ == self.title@
                &&& m.detail == job_result.detail_of()
                &&& m.component matches Some(c) && c@ == self.component@
                &&& m.author@ == "rnotifyd/"@ + job_id@
            },
    {
        let mut author = String::from_str("rnotifyd/");
        author.append(job_id.as_str());
        let timestamp_millis = now_unix_millis();
        if let JobResult::Succeeded(_) = &job_result {
            if !self.report_if_success {
                return None;
            }
        }
        let level = match &job_result {
            JobResult::Succeeded(_) => Level::Info,
            JobResult::Invalid(_) => Level::SelfError,
            JobResult::Failed(_) => Level::Error,
        };
        Some(
            Message {
                level,
                title: Some(self.title.clone()),
                detail: job_result.take_detail(),
                component: Some(self.component.clone()),
                author,
                timestamp_millis,
            },
        )
    }
}

} // verus!
