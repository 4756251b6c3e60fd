//! The structured result of a synchronous run.

use vstd::prelude::*;

use crate::jobs::{exit_message, exit_text, OutputFile};

verus! {

/// What a synchronous run reports in structured-output mode.
pub struct RunToolResult {
    /// `completed` or `failed`.
    pub status: String,
    pub exit_code: i64,
    pub output_dir: Option<String>,
    pub files: Vec<OutputFile>,
    pub error: Option<String>,
}

/// The report of a run whose container exited with `exit_code`, with its
/// output directory and the files found there.
pub fn run_result(exit_code: i64, output_dir: Option<String>, files: Vec<OutputFile>) -> (r:
    RunToolResult)
    ensures
        r.status@ == if exit_code == 0 {
            "completed"@
        } else {
            "failed"@
        },
        r.exit_code == exit_code,
        r.output_dir == output_dir,
        r.files == files,
        exit_code == 0 ==> r.error.is_none(),
        exit_code != 0 ==> r.error.is_some() && r.error.unwrap()@ == exit_message(exit_code as int),
{
    if exit_code == 0 {
        RunToolResult {
            status: String::from_str("completed"),
            exit_code,
            output_dir,
            files,
            error: None,
        }
    } else {
        RunToolResult {
            status: String::from_str("failed"),
            exit_code,
            output_dir,
            files,
            error: Some(exit_text(exit_code)),
        }
    }
}

} // verus!
