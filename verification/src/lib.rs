//! How long an AI session in a tmux pane has been idle, and what it is doing.
//!
//! [`detection`] reads the status of a pane off the text it shows. [`claude_session`]
//! finds the last activity of the session in a pane: it decides, step by step, what
//! has to be read and what follows from it, and leaves the reading to its caller.

pub mod bytes;
pub mod claude;
pub mod claude_session;
pub mod clock;
pub mod codex;
pub mod datetime;
pub mod detection;
pub mod host;
pub mod json;
pub mod names;
pub mod number;
pub mod opencode;
pub mod session;
pub mod text;
pub mod transcript;
