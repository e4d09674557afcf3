//! The API requests and responses that closing a running pane exchanges.

use vstd::prelude::*;

verus! {

#[derive(Debug, Clone, PartialEq, Eq)]
pub struct PaneTarget {
    pub pane_id: String,
}

#[derive(Debug, Clone, PartialEq, Eq)]
pub struct TabTarget {
    pub tab_id: String,
}

#[derive(Debug, Clone, PartialEq, Eq)]
pub struct PaneProcessInfoParams {
    pub pane_id: Option<String>,
}

#[derive(Debug, Clone, PartialEq, Eq)]
pub struct WorkspaceCloseParams {
    pub workspace_id: String,
    pub close_group: bool,
}

/// An API request.
#[derive(Debug, Clone, PartialEq, Eq)]
pub enum Method {
    PaneClose(PaneTarget),
    TabClose(TabTarget),
    PaneProcessInfo(PaneProcessInfoParams),
    WorkspaceClose(WorkspaceCloseParams),
    /// Any request that closing a running pane does not look at.
    Other,
}

/// A process in the foreground of a pane's terminal.
#[derive(Debug, Clone, PartialEq, Eq)]
pub struct PaneProcessInfoProcess {
    pub pid: u32,
    pub name: String,
    pub argv0: Option<String>,
    pub argv: Option<Vec<String>>,
    pub cmdline: Option<String>,
    pub cwd: Option<String>,
}

/// What runs in a pane's terminal.
#[derive(Debug, Clone, PartialEq, Eq)]
pub struct PaneProcessInfo {
    pub pane_id: String,
    pub shell_pid: Option<u32>,
    pub foreground_process_group_id: Option<u32>,
    pub tty: Option<String>,
    pub foreground_processes: Vec<PaneProcessInfoProcess>,
}

/// An API response.
#[derive(Debug, Clone, PartialEq, Eq)]
pub enum ResponseResult {
    PaneProcessInfo { process_info: PaneProcessInfo },
    /// Any response that closing a running pane does not look at.
    Other,
}

} // verus!
