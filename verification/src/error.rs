//! Error type shared by every module: a hard failure invoking an
//! external program, a dependency that is not installed, a network
//! failure, or another error carried as text.
use vstd::prelude::*;

verus! {

pub enum AppError {
    CommandFailed(String),
    MissingDependency(String),
    Network(String),
    Other(String),
}

pub type AppResult<T> = Result<T, AppError>;

impl AppError {
    /// The message shown for this error.
    pub fn message(&self) -> (r: String)
        ensures
            r@ == self.spec_message(),
    {
        match self {
            AppError::CommandFailed(s) => {
                let mut m = String::from_str("Command failed: ");
                m.append(s.as_str());
                m
            },
            AppError::MissingDependency(s) => {
                let mut m = String::from_str("Missing dependency: ");
                m.append(s.as_str());
                m
            },
            AppError::Network(s) => {
                let mut m = String::from_str("Network error: ");
                m.append(s.as_str());
                m
            },
            AppError::Other(s) => {
                let mut m = String::new();
                m.append(s.as_str());
                m
            },
        }
    }

    /// What the message for this error says.
    pub open spec fn spec_message(&self) -> Seq<char> {
        match self {
            AppError::CommandFailed(s) => "Command failed: "@ + s@,
            AppError::MissingDependency(s) => "Missing dependency: "@ + s@,
            AppError::Network(s) => "Network error: "@ + s@,
            AppError::Other(s) => s@,
        }
    }
}

} // verus!
