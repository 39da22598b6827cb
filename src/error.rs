use vstd::prelude::*;

verus! {

/// What went wrong while preparing the takeover.
#[derive(Clone, Copy, Debug, PartialEq, Eq, Structural)]
pub enum MigErrorKind {
    /// The process does not run with root privileges.
    NotPrivileged,
    /// A required input (image, config, flash device) is absent or unreadable.
    MissingInput,
    /// Free memory cannot hold everything the in-memory root needs.
    InsufficientMemory,
    /// A mount call failed.
    MountFailed,
    /// Copying a file into the in-memory root failed.
    CopyFailed,
    /// An external utility returned a non-zero status.
    CommandFailed,
    /// The handoff configuration could not be written or read.
    Serialization,
    /// The error was already reported to the operator.
    Displayed,
}

impl MigErrorKind {
    /// A short description of the error kind.
    pub fn describe(&self) -> (r: &'static str) {
        match self {
            MigErrorKind::NotPrivileged => "not privileged",
            MigErrorKind::MissingInput => "missing input",
            MigErrorKind::InsufficientMemory => "insufficient memory",
            MigErrorKind::MountFailed => "mount failed",
            MigErrorKind::CopyFailed => "copy failed",
            MigErrorKind::CommandFailed => "command failed",
            MigErrorKind::Serialization => "serialization",
            MigErrorKind::Displayed => "displayed",
        }
    }
}

} // verus!
