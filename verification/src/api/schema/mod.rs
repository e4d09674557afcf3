pub mod common;
pub mod panes;
pub mod plugin_path;
pub mod plugins;
pub mod popup_dimension;
pub mod requests;
pub mod workspaces;

pub use common::{AgentStatus, SplitDirection};
pub use panes::PaneInfo;
pub use plugins::{
    InstalledPluginInfo, PluginActionContext, PluginActionInfo, PluginActionInvokeParams,
    PluginActionListParams, PluginCommandLogInfo, PluginCommandStatus, PluginInvocationContext,
    PluginLinkParams, PluginListParams, PluginLogListParams, PluginManifestAction,
    PluginManifestBuild, PluginManifestEventHook, PluginManifestLinkHandler, PluginManifestPane,
    PluginPaneCloseParams, PluginPaneFocusParams, PluginPaneInfo, PluginPaneOpenParams,
    PluginPanePlacement, PluginPlatform, PluginSetEnabledParams, PluginSourceInfo,
    PluginSourceKind, PluginUnlinkParams, PopupBorderStyle, PopupBreakpointSpec, PopupDimension,
    PopupPosition, PopupSpec,
};
pub use workspaces::WorkspaceWorktreeInfo;
pub use requests::{
    Method, PaneProcessInfo, PaneProcessInfoParams, PaneProcessInfoProcess, PaneTarget,
    ResponseResult, TabTarget, WorkspaceCloseParams,
};
