//! The outcome classifier: turning a failed external command's captured
//! diagnostic text into one of a fixed set of structured error kinds.
//!
//! Matching is a flat set of literal-text checks, not a grammar: it exists
//! so that callers can special-case a handful of recoverable conditions —
//! chiefly a missing destination — without parsing free-form text at every
//! call site.

use vstd::prelude::*;

use crate::strutil::{contains_str, has_substring};

verus! {

/// The structured kinds a failed external command is reported as.
#[derive(Debug)]
pub enum CommandFailure {
    /// The external process could not even be launched.
    ExecutionFailure { detail: String },
    /// A queried or targeted object does not exist.  Recoverable: a missing
    /// destination is an empty destination, and nothing to resume.
    NoSuchPath,
    /// The resume token refers to a source object that no longer exists.
    CannotResumeVanished,
    /// Resuming failed for an unrecognized reason.
    CannotResumeOther,
    /// The receiving side could not read the incoming stream.
    ReceiveStreamReadFailure,
    /// The destination already holds objects that block creating a fresh
    /// filesystem object.
    ReceiveNewFilesystemConflict,
    /// Any unrecognized failure, kept with its raw diagnostic text and exit
    /// status for operator diagnosis.
    GenericProcessFailure { diagnostic: String, status: i32 },
}

/// The diagnostic names a missing object.
pub open spec fn diag_no_such_path(d: Seq<char>) -> bool {
    has_substring(d, "does not exist"@)
}

/// The diagnostic reports a failed resume.
pub open spec fn diag_cannot_resume(d: Seq<char>) -> bool {
    has_substring(d, "cannot resume send"@)
}

/// The diagnostic reports a resume whose source object vanished.
pub open spec fn diag_resume_vanished(d: Seq<char>) -> bool {
    diag_cannot_resume(d) && has_substring(d, "no longer exists"@)
}

/// The diagnostic reports a receive that could not read its stream.
pub open spec fn diag_stream_read(d: Seq<char>) -> bool {
    has_substring(d, "failed to read from stream"@)
}

/// The diagnostic reports existing destination objects blocking a fresh
/// filesystem stream.
pub open spec fn diag_new_fs_conflict(d: Seq<char>) -> bool {
    has_substring(d, "destination has snapshots"@)
}

/// Classifies a failed external command by its captured diagnostic text and
/// exit status.  The checks are tried in a fixed order and anything
/// unrecognized keeps its raw text and status.
pub fn classify_failure(diagnostic: &str, status: i32) -> (r: CommandFailure)
    ensures
        (r is NoSuchPath) <==> diag_no_such_path(diagnostic@),
        (r is CannotResumeVanished) <==> (!diag_no_such_path(diagnostic@)
            && diag_resume_vanished(diagnostic@)),
        (r is CannotResumeOther) <==> (!diag_no_such_path(diagnostic@) && !diag_resume_vanished(
            diagnostic@,
        ) && diag_cannot_resume(diagnostic@)),
        (r is ReceiveStreamReadFailure) <==> (!diag_no_such_path(diagnostic@)
            && !diag_cannot_resume(diagnostic@) && diag_stream_read(diagnostic@)),
        (r is ReceiveNewFilesystemConflict) <==> (!diag_no_such_path(diagnostic@)
            && !diag_cannot_resume(diagnostic@) && !diag_stream_read(diagnostic@)
            && diag_new_fs_conflict(diagnostic@)),
        r matches CommandFailure::GenericProcessFailure { diagnostic: d, status: st } ==> d@
            == diagnostic@ && st == status,
        (r is GenericProcessFailure) <==> (!diag_no_such_path(diagnostic@) && !diag_cannot_resume(
            diagnostic@,
        ) && !diag_stream_read(diagnostic@) && !diag_new_fs_conflict(diagnostic@)),
{
    if contains_str(diagnostic, "does not exist") {
        CommandFailure::NoSuchPath
    } else if contains_str(diagnostic, "cannot resume send") {
        if contains_str(diagnostic, "no longer exists") {
            CommandFailure::CannotResumeVanished
        } else {
            CommandFailure::CannotResumeOther
        }
    } else if contains_str(diagnostic, "failed to read from stream") {
        CommandFailure::ReceiveStreamReadFailure
    } else if contains_str(diagnostic, "destination has snapshots") {
        CommandFailure::ReceiveNewFilesystemConflict
    } else {
        CommandFailure::GenericProcessFailure { diagnostic: diagnostic.to_owned(), status }
    }
}

} // verus!
