//! Small shared API enums that the plugin schema refers to.

use vstd::prelude::*;

verus! {

/// The state an agent running in a pane reports.
#[derive(Debug, Clone, Copy, PartialEq, Eq, Structural)]
pub enum AgentStatus {
    Idle,
    Working,
    Blocked,
    Done,
    Unknown,
}

/// Where a new split opens relative to the pane it splits.
#[derive(Debug, Clone, Copy, PartialEq, Eq, Structural)]
pub enum SplitDirection {
    Right,
    Down,
}

} // verus!
