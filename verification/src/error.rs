//! The failures that the operations of this crate report.

use vstd::prelude::*;

verus! {

/// How serious a reported failure is.
#[derive(Clone, Copy, Debug, PartialEq, Eq, Structural)]
pub enum ErrorSeverity {
    /// The operation goes on.
    Warning,
    /// The operation is given up.
    Fatal,
}

impl ErrorSeverity {
    /// The word by which the severity is shown.
    pub open spec fn label_spec(self) -> Seq<char> {
        match self {
            ErrorSeverity::Warning => "warning"@,
            ErrorSeverity::Fatal => "error"@,
        }
    }

    /// The word by which the severity is shown: `warning` or `error`.
    pub fn label(self) -> (word: &'static str)
        ensures
            word@ == self.label_spec(),
    {
        match self {
            ErrorSeverity::Warning => "warning",
            ErrorSeverity::Fatal => "error",
        }
    }
}

/// A failure of an operation on a prefix.
#[derive(Debug, Clone, PartialEq, Eq)]
pub enum PrefixError {
    /// No registry file of the prefix names an architecture.
    FailedToDetectArch,
    /// A hook could not be started or ended with a status other than zero.
    FailedToRunHook,
    /// No script exists for the named hook.
    HookNotFound(String),
    /// The initialisation of a new prefix could not be started.
    FailedToCreatePrefix,
    /// The initialisation of a new prefix ended with a status other than
    /// zero.
    WineFailedToExecute,
    /// The named directory does not hold a prefix.
    InvalidPrefix(String),
}

/// A failure while asking the user.
#[derive(Debug, Clone, PartialEq, Eq)]
pub enum InputError {
    /// The line read, which is not a number.
    ParseFailed(String),
    /// There was nothing to choose from.
    NoItemsProvided,
}

/// A failure of a command.
#[derive(Debug, Clone, PartialEq, Eq)]
pub enum CommandError {
    /// Asking the user failed.
    Input(InputError),
    /// The named process could not be started.
    FailedToRunProcess(String),
    /// The named prefix exists and has save data already.
    PrefixAlreadyManaged(String),
    /// The named prefix has no save data.
    PrefixNotManaged(String),
    /// The search found no executable in the named prefix.
    NoExecsDetected(String),
    /// Several executables are saved and none was named.
    NameNeededToRunExec,
    /// No executable is saved under the given name.
    ExecNotManaged(String),
    /// The directory of the prefix does not exist.
    PrefixDoesNotExist,
    /// The save data of the prefix does not exist.
    PrefixDataDoesNotExist,
    /// The given path does not exist.
    PathDoesntExist(String),
    /// No script exists for the named hook.
    HookNotFound(String),
}

} // verus!
