use vstd::prelude::*;

verus! {

/// How a command ended when it did not simply succeed.
///
/// `UserError`    (1) bad input, missing branch, dirty tree, ...
/// `ConflictExit` (2) a rebase stopped on a conflict; the user must resolve it
/// `AbortExit`    (3) `rebase --abort` completed; branches were restored
#[derive(Clone, Copy, Debug, PartialEq, Eq, Structural)]
pub enum CmdError {
    UserError,
    ConflictExit,
    AbortExit,
}

/// The process exit code of a command outcome.
pub open spec fn spec_exit_code(e: CmdError) -> u8 {
    match e {
        CmdError::UserError => 1,
        CmdError::ConflictExit => 2,
        CmdError::AbortExit => 3,
    }
}

impl CmdError {
    pub fn exit_code(&self) -> (code: u8)
        ensures
            code == spec_exit_code(*self),
    {
        match self {
            CmdError::UserError => 1,
            CmdError::ConflictExit => 2,
            CmdError::AbortExit => 3,
        }
    }

    /// The short description that the command prints for this outcome.
    pub fn describe(&self) -> (s: &'static str)
        ensures
            *self == CmdError::UserError ==> s@ == "command failed"@,
            *self == CmdError::ConflictExit ==> s@ == "rebase conflict"@,
            *self == CmdError::AbortExit ==> s@ == "abort complete"@,
    {
        match self {
            CmdError::UserError => "command failed",
            CmdError::ConflictExit => "rebase conflict",
            CmdError::AbortExit => "abort complete",
        }
    }
}

/// Distinct outcomes have distinct exit codes, and none of them is 0.
pub proof fn exit_codes_distinct(a: CmdError, b: CmdError)
    ensures
        spec_exit_code(a) != 0,
        a != b ==> spec_exit_code(a) != spec_exit_code(b),
{
}

} // verus!
