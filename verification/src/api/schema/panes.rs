//! Pane description returned by the API.

use vstd::prelude::*;

use super::common::AgentStatus;

verus! {

/// A pane as the API reports it.
#[derive(Debug, Clone, PartialEq, Eq)]
pub struct PaneInfo {
    pub pane_id: String,
    pub workspace_id: String,
    pub tab_id: String,
    pub focused: bool,
    pub cwd: Option<String>,
    pub agent: Option<String>,
    pub agent_status: Option<AgentStatus>,
}

} // verus!
