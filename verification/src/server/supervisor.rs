//! Supervision of the background writer.

use vstd::prelude::*;

verus! {

/// How the writer task ended.
#[derive(Debug, Clone, Copy, PartialEq, Eq, Structural)]
pub enum WriterExit {
    /// It returned.
    Finished,
    /// It panicked.
    Panicked,
}

/// How serious a report is.
#[derive(Debug, Clone, Copy, PartialEq, Eq, Structural)]
pub enum Severity {
    Info,
    Error,
}

/// What to report about the end of the writer task. Only a return during
/// shutdown is expected.
pub open spec fn writer_report(exit: WriterExit, shutting_down: bool) -> (Severity, Seq<char>) {
    match exit {
        WriterExit::Finished => if shutting_down {
            (Severity::Info, "writer task drained and exited cleanly during shutdown"@)
        } else {
            (
                Severity::Error,
                "writer task exited unexpectedly; subsequent log events will be dropped"@,
            )
        },
        WriterExit::Panicked => (
            Severity::Error,
            "writer task panicked; subsequent log events will be dropped"@,
        ),
    }
}

/// What to report about the end of the writer task.
pub fn supervise_writer_task(exit: WriterExit, shutting_down: bool) -> (r: (
    Severity,
    &'static str,
))
    ensures
        (r.0, r.1@) == writer_report(exit, shutting_down),
{
    match exit {
        WriterExit::Finished => if shutting_down {
            (Severity::Info, "writer task drained and exited cleanly during shutdown")
        } else {
            (
                Severity::Error,
                "writer task exited unexpectedly; subsequent log events will be dropped",
            )
        },
        WriterExit::Panicked => (
            Severity::Error,
            "writer task panicked; subsequent log events will be dropped",
        ),
    }
}

} // verus!
