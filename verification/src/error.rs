//! What can stop a pass.

use vstd::prelude::*;

verus! {

/// Why a program could not be obfuscated.
#[derive(Debug, Clone, Copy, PartialEq, Eq, Structural)]
pub enum PassError {
    /// What the passes have made is not accepted as a source file.
    Parse,
    /// The body of a formatting macro is not a format expression followed by positional and
    /// then named arguments.
    MalformedMacroArguments,
    /// No kill date is configured, and the build is not a debug build.
    KillDateAbsent,
    /// The configured kill date is not a decimal number of seconds that fits in 64 bits.
    KillDateInvalid,
    /// The configured kill date is not in the future.
    KillDatePast,
}

impl PassError {
    /// The error in words.
    pub fn message(&self) -> (text: &'static str)
        ensures
            text@ == match *self {
                PassError::Parse => "the source does not parse"@,
                PassError::MalformedMacroArguments => "malformed macro arguments"@,
                PassError::KillDateAbsent => "refusing to use a default kill date in release mode"@,
                PassError::KillDateInvalid => "the kill date is not a number of seconds"@,
                PassError::KillDatePast => "cannot use a kill date in the past"@,
            },
    {
        match self {
            PassError::Parse => "the source does not parse",
            PassError::MalformedMacroArguments => "malformed macro arguments",
            PassError::KillDateAbsent => "refusing to use a default kill date in release mode",
            PassError::KillDateInvalid => "the kill date is not a number of seconds",
            PassError::KillDatePast => "cannot use a kill date in the past",
        }
    }
}

} // verus!
