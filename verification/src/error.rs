//! The ways in which a run can fail.

use vstd::prelude::*;

verus! {

/// Why a run ended without a report.
#[derive(Clone, Copy, Debug, PartialEq, Eq, Structural)]
pub enum CheckError {
    /// The configuration file is absent.
    ConfigNotFound,
    /// The configuration file does not hold a well-formed document.
    ConfigParseError,
    /// The root directory is missing or cannot be read.
    DirectoryReadError,
    /// The template of the org-mode report could not be set up or filled in.
    TemplateRenderError,
}

impl CheckError {
    /// The exit code that stands for each kind of failure.
    pub open spec fn code(self) -> u8 {
        match self {
            CheckError::ConfigNotFound => 2,
            CheckError::ConfigParseError => 3,
            CheckError::DirectoryReadError => 4,
            CheckError::TemplateRenderError => 5,
        }
    }

    /// The exit code of the process for this failure: never zero, and
    /// different for each kind.
    pub fn exit_code(&self) -> (r: u8)
        ensures
            r == self.code(),
            r != 0,
    {
        match self {
            CheckError::ConfigNotFound => 2,
            CheckError::ConfigParseError => 3,
            CheckError::DirectoryReadError => 4,
            CheckError::TemplateRenderError => 5,
        }
    }

    /// Different kinds of failure have different exit codes.
    pub proof fn lemma_codes_distinct(a: CheckError, b: CheckError)
        requires
            a != b,
        ensures
            a.code() != b.code(),
    {
    }

    /// A line that tells the user what went wrong.
    pub fn message(&self) -> (r: &'static str)
        ensures
            r@ == match *self {
                CheckError::ConfigNotFound => "configuration file not found"@,
                CheckError::ConfigParseError => "configuration file is malformed"@,
                CheckError::DirectoryReadError => "root directory cannot be read"@,
                CheckError::TemplateRenderError => "report template cannot be rendered"@,
            },
    {
        match self {
            CheckError::ConfigNotFound => "configuration file not found",
            CheckError::ConfigParseError => "configuration file is malformed",
            CheckError::DirectoryReadError => "root directory cannot be read",
            CheckError::TemplateRenderError => "report template cannot be rendered",
        }
    }
}

} // verus!
