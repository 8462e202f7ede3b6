//! How the exit of a measured command bears on the run.

use vstd::prelude::*;

verus! {

/// What the run does after a measured command has ended.
#[derive(Debug, Clone, Copy, PartialEq, Eq, Structural)]
pub enum ExitClass {
    /// The command exited with code 0.
    Success,
    /// The command failed: the whole invocation stops with this exit code.
    Abort(i32),
    /// The command ended by a signal, or with a code above 128: the
    /// measurement is kept and the run goes on.
    Tolerated,
}

/// The highest exit code that still counts as an ordinary failure; codes
/// above it follow the convention of a signal folded into the exit code.
pub const MAX_FAILURE_CODE: i32 = 128;

/// The classification of an exit: `code` is `None` when the process was
/// terminated by a signal.
pub open spec fn exit_class_of(code: Option<i32>) -> ExitClass {
    match code {
        None => ExitClass::Tolerated,
        Some(c) => if c == 0 {
            ExitClass::Success
        } else if c <= MAX_FAILURE_CODE {
            ExitClass::Abort(c)
        } else {
            ExitClass::Tolerated
        },
    }
}

/// Classifies the exit of a measured command.
pub fn classify_exit(code: Option<i32>) -> (r: ExitClass)
    ensures
        r == exit_class_of(code),
        code == Some(0i32) <==> r == ExitClass::Success,
        r is Abort ==> 1 <= r->Abort_0 <= 128 || r->Abort_0 < 0,
{
    match code {
        None => ExitClass::Tolerated,
        Some(c) => {
            if c == 0 {
                ExitClass::Success
            } else if c <= MAX_FAILURE_CODE {
                ExitClass::Abort(c)
            } else {
                ExitClass::Tolerated
            }
        },
    }
}

} // verus!
