//! Workspace worktree description returned by the API.

use vstd::prelude::*;

verus! {

/// The git worktree a workspace is attached to.
#[derive(Debug, Clone, PartialEq, Eq)]
pub struct WorkspaceWorktreeInfo {
    pub path: String,
    pub repo_root: Option<String>,
    pub branch: Option<String>,
}

} // verus!
