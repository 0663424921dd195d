//! The editor-facing command vocabulary: the commands the editor sends to
//! the daemon, and the UI-update commands the daemon sends back.

use vstd::prelude::*;

use crate::protocol::{ProtocolRichPP, ProtocolValue};
use crate::range::Range;
use crate::state::Operation;

verus! {

/// A command received from the editor, or re-injected internally.
#[derive(Debug)]
pub enum ClientCommand {
    /// Initialise the session.
    Init,
    /// Stop the daemon.
    Quit,
    /// Go back to the last proven statement.
    Previous,
    /// Rewind back to just before the given line and column.
    RewindTo(u64, u64),
    /// Send a query to the backend in a disposable context.
    Query(String),
    /// Process the given statements in order, up to the cursor.
    MoveTo(Vec<(Range, String)>),
    /// Try to process the next statement; the flag tells whether the
    /// result pane is appended to or replaced.
    Next(bool, Range, String),
    /// Bypass the last reported error without removing its highlight.
    IgnoreError,
    /// Ask for hints for the current proof.
    Hints,
    /// Ask the backend for the current goals.
    ShowGoals(Range),
    /// Internal use: go back to the given operation.
    BackTo(Operation),
    /// Show the status of the worker.
    Status,
    /// Leave the interrupted state and accept commands again.
    StopInterrupt,
}

/// A UI update for the editor.
#[derive(Debug)]
pub enum DisplayCommand {
    /// Refresh the error range; the flag forces the update even when no
    /// error is pending.
    RefreshErrorRange(Option<Range>, bool),
    /// Output a message to the result pane, either appending or replacing.
    ColorResult(ProtocolRichPP, bool),
    /// Show goals: focused, background pairs, given up, shelved.
    OutputGoals(
        Vec<ProtocolValue>,
        Vec<(Vec<ProtocolValue>, Vec<ProtocolValue>)>,
        Vec<ProtocolValue>,
        Vec<ProtocolValue>,
    ),
    /// Remove a range from the to-be-processed highlighter.
    RemoveToBeProcessed(Range),
    /// Add a range to the processed highlighter.
    AddToProcessed(Range),
    /// Remove a range from the processed highlighter.
    RemoveProcessed(Range),
    /// Move the cursor to the tip of the processed code.
    GotoTip,
    /// Add a range to the axiom highlighter.
    AddAxiom(Range),
    /// Remove a range from the axiom highlighter.
    RemoveAxiom(Range),
    /// Show the worker status: a module path and a proof name.
    ShowStatus(String, String),
}

} // verus!
