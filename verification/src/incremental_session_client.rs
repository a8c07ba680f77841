//! What the client of the incremental planner's session reports when the
//! session breaks down. The session itself is a child process spoken to
//! over its standard streams, which happens outside this library; the
//! outside errors are held as their text.

use vstd::prelude::*;

use crate::text::{owned, push_str};

verus! {

/// Why a session with the incremental planner failed.
#[derive(Debug, Clone, PartialEq, Eq)]
pub enum IncrementalSessionError {
    Spawn(String),
    WriteCommand(String),
    /// The child exited, or its output closed, before answering a command
    /// that was sent.
    ChildExited,
    ReadResponse(String),
    MalformedResponse(String),
}

/// The human-readable text of a session error.
pub open spec fn session_error_text(e: IncrementalSessionError) -> Seq<char> {
    match e {
        IncrementalSessionError::Spawn(d) => "failed to spawn laminaria-incremental-planner: "@ + d@,
        IncrementalSessionError::WriteCommand(d) => "failed to write a command to the incremental planner's stdin: "@ + d@,
        IncrementalSessionError::ChildExited => "laminaria-incremental-planner exited before responding to a command that was sent"@,
        IncrementalSessionError::ReadResponse(d) => "failed to read a response from the incremental planner's stdout: "@ + d@,
        IncrementalSessionError::MalformedResponse(d) => "the incremental planner's stdout line was not a well-formed IncrementalPlannerResponse: "@
            + d@,
    }
}

impl IncrementalSessionError {
    /// The error's human-readable text.
    pub fn message(&self) -> (r: String)
        ensures
            r@ == session_error_text(*self),
    {
        let (head, detail): (&str, &str) = match self {
            IncrementalSessionError::Spawn(d) => ("failed to spawn laminaria-incremental-planner: ", d.as_str()),
            IncrementalSessionError::WriteCommand(d) => (
                "failed to write a command to the incremental planner's stdin: ",
                d.as_str(),
            ),
            IncrementalSessionError::ChildExited => (
                "laminaria-incremental-planner exited before responding to a command that was sent",
                "",
            ),
            IncrementalSessionError::ReadResponse(d) => (
                "failed to read a response from the incremental planner's stdout: ",
                d.as_str(),
            ),
            IncrementalSessionError::MalformedResponse(d) => (
                "the incremental planner's stdout line was not a well-formed IncrementalPlannerResponse: ",
                d.as_str(),
            ),
        };
        let mut m = owned(head);
        push_str(&mut m, detail);
        proof {
            reveal_strlit("");
            assert(m@ =~= session_error_text(*self));
        }
        m
    }
}

} // verus!
