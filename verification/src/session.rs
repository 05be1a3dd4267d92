//! What a pane runs and what it is doing.

use vstd::prelude::*;

verus! {

/// The AI tool that runs in a pane.
#[derive(Debug, Clone, Copy, PartialEq, Eq, Structural)]
pub enum ToolType {
    Claude,
    Codex,
    OpenCode,
}

/// What an assistant's pane is doing, judged by what it shows.
#[derive(Debug, Clone, Copy, PartialEq, Eq, Structural)]
pub enum ClaudeCodeStatus {
    /// It asks a yes-or-no question.
    WaitingInput,
    /// It is generating, running a tool or thinking.
    Working,
    /// It waits behind its input field.
    Idle,
    /// Nothing on the screen tells.
    Unknown,
}

} // verus!
