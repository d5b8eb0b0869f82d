//! The state behind the status line.

use vstd::prelude::*;

verus! {

/// What the status line is showing.
#[derive(Clone, Copy, Debug, PartialEq, Eq, Structural)]
pub enum Mode {
    Enabled,
    Disabled,
    Error,
    Success,
}

/// The text state behind the status line.
pub struct StatusMessage {
    pub mode: Mode,
    pub command: String,
    pub error: String,
    pub success: String,
    pub quick_command: String,
}

impl StatusMessage {
    /// A disabled status line with all texts empty.
    pub fn new() -> (r: Self)
        ensures
            r.mode == Mode::Disabled,
            r.command@.len() == 0,
            r.error@.len() == 0,
            r.success@.len() == 0,
            r.quick_command@.len() == 0,
    {
        StatusMessage {
            mode: Mode::Disabled,
            command: String::new(),
            error: String::new(),
            success: String::new(),
            quick_command: String::new(),
        }
    }
}

} // verus!
