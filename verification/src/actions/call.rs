//! A call the model asked for, and what came of it.

use vstd::prelude::*;

verus! {

/// One tool call as the model wrote it.
#[derive(Debug, Clone)]
pub struct ToolCall {
    pub id: String,
    pub name: String,
    /// The arguments, as the JSON text the model emitted.
    pub arguments: String,
}

/// What a [`ToolCall`] says.
pub struct ToolCallV {
    pub id: Seq<char>,
    pub name: Seq<char>,
    pub arguments: Seq<char>,
}

impl View for ToolCall {
    type V = ToolCallV;

    open spec fn view(&self) -> ToolCallV {
        ToolCallV { id: self.id@, name: self.name@, arguments: self.arguments@ }
    }
}

impl ToolCall {
    /// A call of its own that says the same.
    pub(crate) fn copy(&self) -> (r: ToolCall)
        ensures
            r@ == self@,
    {
        ToolCall {
            id: self.id.clone(),
            name: self.name.clone(),
            arguments: self.arguments.clone(),
        }
    }
}

/// What the model is told about a call.
#[derive(Debug, Clone)]
pub struct ToolOutcome {
    pub summary: String,
    pub failed: bool,
    /// Whether the model may try the call once more.
    pub retryable: bool,
}

/// What a [`ToolOutcome`] says.
pub struct ToolOutcomeV {
    pub summary: Seq<char>,
    pub failed: bool,
    pub retryable: bool,
}

impl View for ToolOutcome {
    type V = ToolOutcomeV;

    open spec fn view(&self) -> ToolOutcomeV {
        ToolOutcomeV { summary: self.summary@, failed: self.failed, retryable: self.retryable }
    }
}

/// What the model is told about a call that worked.
pub open spec fn worked_with(summary: Seq<char>) -> ToolOutcomeV {
    ToolOutcomeV { summary, failed: false, retryable: false }
}

impl ToolOutcome {
    /// A call that worked, and what to say of it.
    pub fn worked(summary: String) -> (r: ToolOutcome)
        ensures
            r@ == worked_with(summary@),
    {
        ToolOutcome { summary, failed: false, retryable: false }
    }
}

/// How strongly it can be said that a call worked.
#[derive(Debug, Clone, Copy, PartialEq, Eq, Structural)]
pub enum RunOutcome {
    /// The home was read afterwards and agrees.
    Confirmed,
    /// The server accepted it.
    Accepted,
    /// It was sent, and nothing observes the effect.
    Sent,
    /// It did not do what was asked.
    Failed,
}

} // verus!
