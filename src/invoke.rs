//! What a run of the preprocessor comes to. Running it is the caller's part;
//! this module decides, from how the run ended, whether there is a file.

use vstd::prelude::*;
use crate::error::PpError;
use crate::scan::{has_target_marker, joined, lines_of, reconstitute, retained, text_lines};

verus! {

/// How one run of the preprocessor ended.
pub enum RunOutcome {
    /// The executable could not be found or started; `reason` says why.
    NotStarted { reason: String },
    /// The process ran to its end. `stdout` holds its standard output, or
    /// none where that output is not UTF-8.
    Finished { success: bool, stdout: Option<String>, stderr: String },
}

/// The reconstituted text of `target` from a run, or the stage at which it
/// failed: a run that did not start is a launch error; one that failed or
/// wrote output that is not UTF-8 is a failure, with what it wrote on
/// standard error; an output with no marker for `target` has no span.
pub fn settle_run(target: &str, run: RunOutcome) -> (r: Result<String, PpError>)
    ensures
        run matches RunOutcome::NotStarted { reason } ==> (r matches Err(
            PpError::LaunchError { path, reason: why },
        ) && path@ == target@ && why@ == reason@),
        run matches RunOutcome::Finished { success, stdout, stderr } ==> (!success
            || stdout is None) ==> (r matches Err(PpError::Failure { path, diagnostics })
            && path@ == target@ && diagnostics@ == stderr@),
        run matches RunOutcome::Finished { success: true, stdout: Some(text), .. } ==> {
            &&& has_target_marker(lines_of(text@), target@) ==> (r matches Ok(s) && s@ == joined(
                retained(lines_of(text@), target@),
            ))
            &&& !has_target_marker(lines_of(text@), target@) ==> (r matches Err(
                PpError::NoMatchingSpan { path },
            ) && path@ == target@)
        },
{
    match run {
        RunOutcome::NotStarted { reason } => {
            Err(PpError::LaunchError { path: target.to_owned(), reason })
        },
        RunOutcome::Finished { success, stdout, stderr } => {
            match stdout {
                Some(text) if success => reconstitute(target, &text_lines(text.as_str())),
                _ => Err(PpError::Failure { path: target.to_owned(), diagnostics: stderr }),
            }
        },
    }
}

/// What a run of `cpphs`, which writes its output file itself, comes to: a
/// run that did not start is a launch error, one that failed is a failure
/// with what it wrote on standard error, and any other is done.
pub fn settle_cpphs(target: &str, run: RunOutcome) -> (r: Result<(), PpError>)
    ensures
        run matches RunOutcome::NotStarted { reason } ==> (r matches Err(
            PpError::LaunchError { path, reason: why },
        ) && path@ == target@ && why@ == reason@),
        run matches RunOutcome::Finished { success: false, stderr, .. } ==> (r matches Err(
            PpError::Failure { path, diagnostics },
        ) && path@ == target@ && diagnostics@ == stderr@),
        run matches RunOutcome::Finished { success: true, .. } ==> r is Ok,
{
    match run {
        RunOutcome::NotStarted { reason } => {
            Err(PpError::LaunchError { path: target.to_owned(), reason })
        },
        RunOutcome::Finished { success, stderr, .. } => {
            if success {
                Ok(())
            } else {
                Err(PpError::Failure { path: target.to_owned(), diagnostics: stderr })
            }
        },
    }
}

} // verus!
