use vstd::prelude::*;
use vstd::string::StringExecFns;

verus! {

/// The failure taxonomy of the library.
///
/// `OutOfBounds` carries the 1-indexed line number that lay beyond the end of
/// the content being patched. `NotFound` reports an expected key or folder that
/// was absent. `IoFailure` and `MissingConfiguration` are produced at the
/// application boundary: a read, write or permission-command failure, and a
/// required configuration field that was never set.
#[derive(Clone, Copy, Debug, PartialEq, Eq, Structural)]
pub enum AppError {
    OutOfBounds(usize),
    NotFound,
    IoFailure,
    MissingConfiguration,
}

impl AppError {
    /// The human-readable description of the failure.
    pub open spec fn spec_message(&self) -> Seq<char> {
        match self {
            AppError::OutOfBounds(n) => "Line number "@ + crate::utils::dec_str(*n as nat)
                + " out of bounds"@,
            AppError::NotFound => "Not found"@,
            AppError::IoFailure => "IO failure"@,
            AppError::MissingConfiguration => "Missing configuration"@,
        }
    }

    /// Renders the failure for the operation boundary, where it is shown to
    /// the user as a plain string.
    pub fn message(&self) -> (m: String)
        ensures
            m@ == self.spec_message(),
    {
        match self {
            AppError::OutOfBounds(n) => {
                let mut m = String::from_str("Line number ");
                m.append(crate::utils::decimal_string_usize(*n).as_str());
                m.append(" out of bounds");
                m
            },
            AppError::NotFound => String::from_str("Not found"),
            AppError::IoFailure => String::from_str("IO failure"),
            AppError::MissingConfiguration => String::from_str("Missing configuration"),
        }
    }
}

} // verus!
