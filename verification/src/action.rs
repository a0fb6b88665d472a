//! Classification of a finished (or failed-to-start) subprocess run
//! into a `JobResult`.
//!
//! Running the subprocess itself is I/O and lives outside the library;
//! the surrounding program hands the captured output (or the spawn
//! error) to these functions.

use vstd::prelude::*;
use vstd::string::StringExecFns;
use crate::job_result::JobResult;
use crate::message::MessageDetail;
use crate::program_output::ProgramOutput;
use crate::program_output::is_verbose_detail;
use crate::program_output::is_stdout_success_detail;
use crate::program_output::trim_spec;

verus! {

/// How a job's captured output is rendered into a notification.
#[derive(Clone, Copy, Debug, PartialEq, Eq, Structural)]
pub enum ProgramOutputFormat {
    SimpleIfSuccess,
    StdoutIfSuccess,
    AlwaysDetailed,
}

impl Default for ProgramOutputFormat {
    fn default() -> (r: Self)
        ensures
            r == ProgramOutputFormat::SimpleIfSuccess,
    {
        ProgramOutputFormat::SimpleIfSuccess
    }
}

/// Classify a run that produced output: truncate the captured streams,
/// render them, and wrap the detail as `Succeeded` exactly when the
/// exit code was zero, else as `Failed`. The streams are truncated once
/// on classification and once more by the renderer, so the rendered
/// detail holds the twice-truncated streams.
pub fn classify_output(output: ProgramOutput, format: &ProgramOutputFormat) -> (r: JobResult)
    ensures
        r is Succeeded <==> output.exit_code == 0,
        !(r is Invalid),
        crate::program_output::to_detail_matches(
            r.detail_of(),
            trim_spec(trim_spec(output.std_out@, 500), 500),
            trim_spec(trim_spec(output.std_err@, 500), 500),
            output.exit_code as int,
            *format,
        ),
{
    let success = output.is_success();
    let mut output = output;
    output.trim_to(500);
    let detail = output.to_detail(format);
    if success {
        JobResult::Succeeded(detail)
    } else {
        JobResult::Failed(detail)
    }
}

/// The result of a run that could not be started: an `Invalid` outcome
/// whose detail names the command and the error.
pub fn spawn_failure_result(cmd: &str, err: &str) -> (r: JobResult)
    ensures
        r matches JobResult::Invalid(d) && d matches MessageDetail::Raw(s) && s@
            == "Failed to run command: '"@ + cmd@ + "'\nError: "@ + err@,
{
    let mut s = String::from_str("Failed to run command: '");
    s.append(cmd);
    s.append("'\nError: ");
    s.append(err);
    JobResult::Invalid(MessageDetail::Raw(s))
}

} // verus!
