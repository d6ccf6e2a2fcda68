//! Exit codes.

use vstd::prelude::*;

verus! {

/// Exit code for usage errors (bad arguments, unknown command).
pub const EXIT_USAGE: u8 = 2;

/// Exit code for runtime failures.
pub const EXIT_FAILURE: u8 = 1;

/// What a finished subprocess left behind: its exit code (`None` when a signal
/// killed it) and what it wrote.
#[derive(Debug, PartialEq, Eq)]
pub struct Output {
    pub status: Option<i32>,
    pub stdout: Vec<u8>,
    pub stderr: Vec<u8>,
}

/// The model of an [`Output`].
pub struct OutputView {
    pub status: Option<i32>,
    pub stdout: Seq<u8>,
    pub stderr: Seq<u8>,
}

impl View for Output {
    type V = OutputView;

    open spec fn view(&self) -> OutputView {
        OutputView { status: self.status, stdout: self.stdout@, stderr: self.stderr@ }
    }
}

/// Whether an exit status reports success.
pub open spec fn succeeded(status: Option<i32>) -> bool {
    status == Some(0i32)
}

/// The exit code that passes a subprocess status on: its own code where that fits
/// an exit code, and failure otherwise.
pub open spec fn passed_on(status: Option<i32>) -> u8 {
    match status {
        Some(code) if 0 <= code <= 255 => code as u8,
        _ => EXIT_FAILURE,
    }
}

/// Whether an exit status reports success.
pub(crate) fn is_success(status: Option<i32>) -> (res: bool)
    ensures
        res == succeeded(status),
{
    match status {
        Some(code) => code == 0,
        None => false,
    }
}

/// Named exit codes.
pub struct ExitCodes;

impl ExitCodes {
    /// The code for runtime failures.
    pub fn failure() -> (res: u8)
        ensures
            res == EXIT_FAILURE,
    {
        EXIT_FAILURE
    }

    /// The code for usage errors.
    pub fn usage() -> (res: u8)
        ensures
            res == EXIT_USAGE,
    {
        EXIT_USAGE
    }

    /// Propagate a subprocess exit code; signal death, and a code that is no exit
    /// code, map to failure.
    pub fn of_status(status: Option<i32>) -> (res: u8)
        ensures
            res == passed_on(status),
    {
        match status {
            Some(code) => if 0 <= code && code <= 255 {
                code as u8
            } else {
                Self::failure()
            },
            None => Self::failure(),
        }
    }

    /// Propagate the exit code of a finished subprocess.
    pub fn of(output: &Output) -> (res: u8)
        ensures
            res == passed_on(output.status),
    {
        Self::of_status(output.status)
    }
}

/// An exit code is passed on as success exactly when the subprocess succeeded.
pub proof fn success_is_passed_on(status: Option<i32>)
    ensures
        passed_on(status) == 0 <==> succeeded(status),
{
}

/// A code that fits an exit code is passed on as it is; a signal, and any other code,
/// is passed on as 1. Bad usage is 2.
pub proof fn codes_are_passed_on_unchanged(status: Option<i32>)
    ensures
        forall|code: i32| 0 <= code <= 255 && status == Some(code) ==> passed_on(status) == code,
        (status matches Some(code) ==> code < 0 || code > 255) ==> passed_on(status) == 1,
        EXIT_FAILURE == 1,
        EXIT_USAGE == 2,
{
}

} // verus!
