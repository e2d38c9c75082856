//! Why preprocessing one file failed, and at which stage.

use vstd::prelude::*;

verus! {

pub enum PpError {
    /// The preprocessor could not be found or started.
    LaunchError { path: String, reason: String },
    /// The preprocessor exited with a failure status, or wrote output that is
    /// not UTF-8; `diagnostics` is what it wrote on standard error.
    Failure { path: String, diagnostics: String },
    /// No line marker of the output names the file that was preprocessed.
    NoMatchingSpan { path: String },
    /// No output path could be formed for the file.
    PathMapping { path: String },
    /// The reconstituted text could not be written to the output path.
    WriteError { path: String, reason: String },
}

impl PpError {
    /// The file the error is about.
    pub fn path(&self) -> (r: &String)
        ensures
            r == match self {
                PpError::LaunchError { path, .. } => path,
                PpError::Failure { path, .. } => path,
                PpError::NoMatchingSpan { path } => path,
                PpError::PathMapping { path } => path,
                PpError::WriteError { path, .. } => path,
            },
    {
        match self {
            PpError::LaunchError { path, .. } => path,
            PpError::Failure { path, .. } => path,
            PpError::NoMatchingSpan { path } => path,
            PpError::PathMapping { path } => path,
            PpError::WriteError { path, .. } => path,
        }
    }
}

} // verus!
