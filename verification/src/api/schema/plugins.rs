//! Plugin API schema: the parameters and records that the plugin API
//! exchanges, and the popup styling that plugin panes carry.

use std::collections::HashMap;

use vstd::prelude::*;

use super::common::{AgentStatus, SplitDirection};
use super::panes::PaneInfo;
use super::workspaces::WorkspaceWorktreeInfo;

pub use super::plugin_path::{
    has_windows_reserved_stem_for_path_component, plugin_managed_path_component,
    readable_plugin_path_slug, short_plugin_id_hash_for_path_component,
};

verus! {

#[derive(Debug, Clone, PartialEq, Eq)]
pub struct PluginLinkParams {
    pub path: String,
    pub enabled: bool,
    pub source: Option<PluginSourceInfo>,
}

#[derive(Debug, Clone, PartialEq, Eq, Default)]
pub struct PluginListParams {
    pub plugin_id: Option<String>,
}

#[derive(Debug, Clone, PartialEq, Eq)]
pub struct PluginUnlinkParams {
    pub plugin_id: String,
}

#[derive(Debug, Clone, PartialEq, Eq)]
pub struct PluginSetEnabledParams {
    pub plugin_id: String,
}

#[derive(Debug, Clone, PartialEq, Eq)]
pub struct InstalledPluginInfo {
    pub plugin_id: String,
    pub name: String,
    pub version: String,
    pub min_herdr_version: String,
    pub description: Option<String>,
    pub manifest_path: String,
    pub plugin_root: String,
    pub enabled: bool,
    pub platforms: Option<Vec<PluginPlatform>>,
    pub build: Vec<PluginManifestBuild>,
    pub actions: Vec<PluginManifestAction>,
    pub events: Vec<PluginManifestEventHook>,
    pub panes: Vec<PluginManifestPane>,
    pub link_handlers: Vec<PluginManifestLinkHandler>,
    pub source: PluginSourceInfo,
    /// Warnings collected at link time or on registry load (e.g. unknown event names,
    /// missing manifest file). Non-fatal: the entry is kept and surfaced by plugin.list.
    pub warnings: Vec<String>,
}

#[derive(Debug, Clone, PartialEq, Eq)]
pub struct PluginSourceInfo {
    pub kind: PluginSourceKind,
    pub owner: Option<String>,
    pub repo: Option<String>,
    pub subdir: Option<String>,
    pub requested_ref: Option<String>,
    pub resolved_commit: Option<String>,
    pub managed_path: Option<String>,
    pub installed_unix_ms: Option<u64>,
}

impl Default for PluginSourceInfo {
    /// A local source with no further details.
    fn default() -> (r: Self)
        ensures
            r.kind == PluginSourceKind::Local,
            r.owner is None,
            r.repo is None,
            r.subdir is None,
            r.requested_ref is None,
            r.resolved_commit is None,
            r.managed_path is None,
            r.installed_unix_ms is None,
    {
        PluginSourceInfo {
            kind: PluginSourceKind::Local,
            owner: None,
            repo: None,
            subdir: None,
            requested_ref: None,
            resolved_commit: None,
            managed_path: None,
            installed_unix_ms: None,
        }
    }
}

#[derive(Debug, Clone, Copy, PartialEq, Eq, Structural, Default)]
pub enum PluginSourceKind {
    #[default]
    Local,
    Github,
}

#[derive(Debug, Clone, PartialEq, Eq)]
pub struct PluginManifestBuild {
    pub platforms: Option<Vec<PluginPlatform>>,
    pub command: Vec<String>,
}

#[derive(Debug, Clone, PartialEq, Eq)]
pub struct PluginManifestAction {
    pub id: String,
    pub title: String,
    pub description: Option<String>,
    pub contexts: Vec<PluginActionContext>,
    pub platforms: Option<Vec<PluginPlatform>>,
    pub command: Vec<String>,
}

#[derive(Debug, Clone, PartialEq, Eq)]
pub struct PluginManifestEventHook {
    pub on: String,
    pub platforms: Option<Vec<PluginPlatform>>,
    pub command: Vec<String>,
}

#[derive(Debug, Clone, PartialEq, Eq)]
pub struct PluginManifestPane {
    pub id: String,
    pub title: String,
    pub description: Option<String>,
    pub platforms: Option<Vec<PluginPlatform>>,
    pub placement: PluginPanePlacement,
    /// Styling/sizing for `placement = popup`. Manifest-level default; a per-call
    /// `PluginPaneOpenParams.popup` overrides field-by-field via [`PopupSpec::merge`].
    pub popup: Option<PopupSpec>,
    pub command: Vec<String>,
}

/// A popup dimension: either a percentage of the relevant terminal axis
/// (`"80%"`) or an absolute cell count (`60`).
#[derive(Debug, Clone, Copy, PartialEq, Eq, Structural)]
pub enum PopupDimension {
    /// Percentage of the terminal axis, clamped to 1..=100.
    Percent(u16),
    /// Absolute cell count.
    Cells(u16),
}

#[derive(Debug, Clone, Copy, PartialEq, Eq, Structural, Default)]
pub enum PopupBorderStyle {
    #[default]
    Single,
    Double,
    Rounded,
    Thick,
}

#[derive(Debug, Clone, Copy, PartialEq, Eq, Structural, Default)]
pub enum PopupPosition {
    /// Center against the entire terminal frame, ignoring sidebar/tab layout.
    #[default]
    TotalCenter,
    /// Center against the pane/content area behind the popup.
    RelativeCenter,
}

/// Styling and sizing for a popup pane. All fields optional and additive so
/// callers (manifest or per-call) only specify what they want to override.
#[derive(Debug, Clone, PartialEq, Eq)]
pub struct PopupSpec {
    pub width: Option<PopupDimension>,
    pub height: Option<PopupDimension>,
    pub position: Option<PopupPosition>,
    pub border: Option<bool>,
    pub border_style: Option<PopupBorderStyle>,
    pub border_color: Option<String>,
    pub padding: Option<u16>,
    pub bg: Option<String>,
    pub title: Option<String>,
    pub breakpoints: Vec<PopupBreakpointSpec>,
}

/// Area-aware popup overrides. `max_cols` / `max_rows` refer to the host tab
/// area in terminal cells. A breakpoint matches when every provided limit
/// matches; later matching breakpoints override earlier ones field-by-field.
#[derive(Debug, Clone, PartialEq, Eq, Default)]
pub struct PopupBreakpointSpec {
    pub max_cols: Option<u16>,
    pub max_rows: Option<u16>,
    pub width: Option<PopupDimension>,
    pub height: Option<PopupDimension>,
    pub position: Option<PopupPosition>,
    pub border: Option<bool>,
    pub border_style: Option<PopupBorderStyle>,
    pub border_color: Option<String>,
    pub padding: Option<u16>,
    pub bg: Option<String>,
    pub title: Option<String>,
}

/// The value of a `PopupSpec`: its fields, with the breakpoints as a sequence.
pub struct PopupSpecView {
    pub width: Option<PopupDimension>,
    pub height: Option<PopupDimension>,
    pub position: Option<PopupPosition>,
    pub border: Option<bool>,
    pub border_style: Option<PopupBorderStyle>,
    pub border_color: Option<String>,
    pub padding: Option<u16>,
    pub bg: Option<String>,
    pub title: Option<String>,
    pub breakpoints: Seq<PopupBreakpointSpec>,
}

impl View for PopupSpec {
    type V = PopupSpecView;

    open spec fn view(&self) -> PopupSpecView {
        PopupSpecView {
            width: self.width,
            height: self.height,
            position: self.position,
            border: self.border,
            border_style: self.border_style,
            border_color: self.border_color,
            padding: self.padding,
            bg: self.bg,
            title: self.title,
            breakpoints: self.breakpoints@,
        }
    }
}

/// `preferred` when it is set, `fallback` otherwise (`Option::or`).
pub open spec fn or_else<T>(preferred: Option<T>, fallback: Option<T>) -> Option<T> {
    if preferred is Some {
        preferred
    } else {
        fallback
    }
}

/// The spec that sets nothing.
pub open spec fn empty_popup_spec() -> PopupSpecView {
    PopupSpecView {
        width: None,
        height: None,
        position: None,
        border: None,
        border_style: None,
        border_color: None,
        padding: None,
        bg: None,
        title: None,
        breakpoints: Seq::empty(),
    }
}

/// Field-by-field merge of `base` under `over`: every field that `over` sets
/// wins; a non-empty breakpoint list of `over` replaces that of `base`.
pub open spec fn merge_popup_specs(base: PopupSpecView, over: PopupSpecView) -> PopupSpecView {
    PopupSpecView {
        width: or_else(over.width, base.width),
        height: or_else(over.height, base.height),
        position: or_else(over.position, base.position),
        border: or_else(over.border, base.border),
        border_style: or_else(over.border_style, base.border_style),
        border_color: or_else(over.border_color, base.border_color),
        padding: or_else(over.padding, base.padding),
        bg: or_else(over.bg, base.bg),
        title: or_else(over.title, base.title),
        breakpoints: if over.breakpoints.len() == 0 { base.breakpoints } else { over.breakpoints },
    }
}

fn clone_text(s: &Option<String>) -> (r: Option<String>)
    ensures
        r == *s,
{
    match s {
        Some(t) => Some(t.clone()),
        None => None,
    }
}

fn or_else_text(preferred: &Option<String>, fallback: &Option<String>) -> (r: Option<String>)
    ensures
        r == or_else(*preferred, *fallback),
{
    if preferred.is_some() {
        clone_text(preferred)
    } else {
        clone_text(fallback)
    }
}

impl PopupBreakpointSpec {
    /// A field-for-field copy.
    pub fn duplicate(&self) -> (r: Self)
        ensures
            r == *self,
    {
        PopupBreakpointSpec {
            max_cols: self.max_cols,
            max_rows: self.max_rows,
            width: self.width,
            height: self.height,
            position: self.position,
            border: self.border,
            border_style: self.border_style,
            border_color: clone_text(&self.border_color),
            padding: self.padding,
            bg: clone_text(&self.bg),
            title: clone_text(&self.title),
        }
    }
}

fn duplicate_breakpoints(v: &Vec<PopupBreakpointSpec>) -> (r: Vec<PopupBreakpointSpec>)
    ensures
        r@ == v@,
{
    let mut r: Vec<PopupBreakpointSpec> = Vec::new();
    let n = v.len();
    for i in 0..n
        invariant
            n == v@.len(),
            r@ == v@.take(i as int),
    {
        r.push(v[i].duplicate());
        assert(v@.take(i + 1) == v@.take(i as int).push(v@[i as int]));
    }
    assert(v@.take(n as int) == v@);
    r
}

impl Default for PopupSpec {
    /// The spec that sets nothing.
    fn default() -> (r: Self)
        ensures
            r@ == empty_popup_spec(),
    {
        PopupSpec {
            width: None,
            height: None,
            position: None,
            border: None,
            border_style: None,
            border_color: None,
            padding: None,
            bg: None,
            title: None,
            breakpoints: Vec::new(),
        }
    }
}

impl PopupSpec {
    /// Field-by-field merge where `override_` (a per-call spec) wins over `self`
    /// (the manifest default) for every field it sets.
    pub fn merge(&self, override_: &PopupSpec) -> (r: PopupSpec)
        ensures
            r@ == merge_popup_specs(self@, override_@),
    {
        PopupSpec {
            width: if override_.width.is_some() { override_.width } else { self.width },
            height: if override_.height.is_some() { override_.height } else { self.height },
            position: if override_.position.is_some() { override_.position } else { self.position },
            border: if override_.border.is_some() { override_.border } else { self.border },
            border_style: if override_.border_style.is_some() {
                override_.border_style
            } else {
                self.border_style
            },
            border_color: or_else_text(&override_.border_color, &self.border_color),
            padding: if override_.padding.is_some() { override_.padding } else { self.padding },
            bg: or_else_text(&override_.bg, &self.bg),
            title: or_else_text(&override_.title, &self.title),
            breakpoints: if override_.breakpoints.len() == 0 {
                duplicate_breakpoints(&self.breakpoints)
            } else {
                duplicate_breakpoints(&override_.breakpoints)
            },
        }
    }
}

/// Merging over a spec that sets nothing keeps the base; merging an override
/// into a spec that sets nothing yields the override.
pub proof fn lemma_merge_with_empty_is_identity(spec: PopupSpecView)
    ensures
        merge_popup_specs(spec, empty_popup_spec()) == spec,
        merge_popup_specs(empty_popup_spec(), spec) == spec,
{
    assert(merge_popup_specs(empty_popup_spec(), spec).breakpoints =~= spec.breakpoints);
}

/// Layering is associative: merging `c` over the merge of `b` over `a` equals
/// merging the merge of `c` over `b` over `a`.
pub proof fn lemma_merge_is_associative(a: PopupSpecView, b: PopupSpecView, c: PopupSpecView)
    ensures
        merge_popup_specs(merge_popup_specs(a, b), c) == merge_popup_specs(a, merge_popup_specs(b, c)),
{
}

/// Merging a spec over itself changes nothing.
pub proof fn lemma_merge_is_idempotent(a: PopupSpecView)
    ensures
        merge_popup_specs(a, a) == a,
{
}

/// The override wins for every field it sets; every field it leaves unset
/// comes from the base.
pub proof fn lemma_merge_override_wins(base: PopupSpecView, over: PopupSpecView)
    ensures
        over.width is Some ==> merge_popup_specs(base, over).width == over.width,
        over.width is None ==> merge_popup_specs(base, over).width == base.width,
        over.title is Some ==> merge_popup_specs(base, over).title == over.title,
        over.title is None ==> merge_popup_specs(base, over).title == base.title,
        over.border_color is Some ==> merge_popup_specs(base, over).border_color == over.border_color,
        over.border_color is None ==> merge_popup_specs(base, over).border_color == base.border_color,
        over.bg is Some ==> merge_popup_specs(base, over).bg == over.bg,
        over.bg is None ==> merge_popup_specs(base, over).bg == base.bg,
        over.breakpoints.len() > 0 ==> merge_popup_specs(base, over).breakpoints == over.breakpoints,
        over.breakpoints.len() == 0 ==> merge_popup_specs(base, over).breakpoints == base.breakpoints,
{
}

/// Every field follows the same rule: a field that the override sets takes
/// the override's value, a field that it leaves unset keeps the base's value;
/// the breakpoint list counts as set when it is not empty.
pub proof fn lemma_merge_every_field_follows_override(base: PopupSpecView, over: PopupSpecView)
    ensures
        ({
            let m = merge_popup_specs(base, over);
            &&& m.width == (if over.width is Some { over.width } else { base.width })
            &&& m.height == (if over.height is Some { over.height } else { base.height })
            &&& m.position == (if over.position is Some { over.position } else { base.position })
            &&& m.border == (if over.border is Some { over.border } else { base.border })
            &&& m.border_style == (if over.border_style is Some { over.border_style } else { base.border_style })
            &&& m.border_color == (if over.border_color is Some { over.border_color } else { base.border_color })
            &&& m.padding == (if over.padding is Some { over.padding } else { base.padding })
            &&& m.bg == (if over.bg is Some { over.bg } else { base.bg })
            &&& m.title == (if over.title is Some { over.title } else { base.title })
            &&& m.breakpoints == (if over.breakpoints.len() > 0 { over.breakpoints } else { base.breakpoints })
        }),
{
}

#[derive(Debug, Clone, PartialEq, Eq)]
pub struct PluginManifestLinkHandler {
    pub id: String,
    pub title: String,
    pub pattern: String,
    pub action: String,
    pub platforms: Option<Vec<PluginPlatform>>,
}

#[derive(Debug, Clone, PartialEq, Eq, Default)]
pub struct PluginActionListParams {
    pub plugin_id: Option<String>,
}

#[derive(Debug, Clone, PartialEq, Eq, Default)]
pub struct PluginLogListParams {
    pub plugin_id: Option<String>,
    pub limit: Option<usize>,
}

#[derive(Debug, Clone, PartialEq, Eq)]
pub struct PluginActionInvokeParams {
    pub action_id: String,
    pub plugin_id: Option<String>,
    pub context: Option<PluginInvocationContext>,
}

#[derive(Debug, Clone, PartialEq, Eq)]
pub struct PluginCommandLogInfo {
    pub log_id: String,
    pub plugin_id: String,
    pub action_id: Option<String>,
    pub event: Option<String>,
    pub command: Vec<String>,
    pub status: PluginCommandStatus,
    pub started_unix_ms: u64,
    pub finished_unix_ms: Option<u64>,
    pub exit_code: Option<i32>,
    pub stdout: Option<String>,
    pub stderr: Option<String>,
    pub error: Option<String>,
}

#[derive(Debug, Clone, Copy, PartialEq, Eq, Structural)]
pub enum PluginCommandStatus {
    Running,
    Succeeded,
    Failed,
}

#[derive(Debug, Clone, Copy, PartialEq, Eq, Structural, Hash)]
pub enum PluginPlatform {
    Linux,
    Macos,
    Windows,
}

#[derive(Debug, Clone, Copy, PartialEq, Eq, Structural)]
pub enum PluginActionContext {
    Global,
    Workspace,
    Tab,
    Pane,
    Selection,
}

#[derive(Debug, Clone, PartialEq, Eq)]
pub struct PluginInvocationContext {
    pub workspace_id: Option<String>,
    pub workspace_label: Option<String>,
    pub workspace_cwd: Option<String>,
    pub worktree: Option<WorkspaceWorktreeInfo>,
    pub tab_id: Option<String>,
    pub tab_label: Option<String>,
    pub focused_pane_id: Option<String>,
    pub focused_pane_cwd: Option<String>,
    pub focused_pane_agent: Option<String>,
    pub focused_pane_status: Option<AgentStatus>,
    pub selected_text: Option<String>,
    pub invocation_source: Option<String>,
    pub correlation_id: Option<String>,
    pub clicked_url: Option<String>,
    pub link_handler_id: Option<String>,
}

#[derive(Debug, Clone, PartialEq, Eq)]
pub struct PluginActionInfo {
    pub plugin_id: String,
    pub action_id: String,
    pub title: String,
    pub description: Option<String>,
    pub contexts: Vec<PluginActionContext>,
    pub command: Vec<String>,
    pub platforms: Option<Vec<PluginPlatform>>,
}

impl PluginActionInfo {
    /// `<plugin_id>.<action_id>`.
    pub fn qualified_id(&self) -> (r: String)
        ensures
            r@ == self.plugin_id@ + seq!['.'] + self.action_id@,
    {
        let mut r = self.plugin_id.clone();
        proof {
            reveal_strlit(".");
        }
        r.append(".");
        r.append(self.action_id.as_str());
        r
    }
}

#[derive(Debug, Clone, PartialEq, Eq)]
pub struct PluginPaneOpenParams {
    pub plugin_id: String,
    pub entrypoint: String,
    pub placement: Option<PluginPanePlacement>,
    pub workspace_id: Option<String>,
    pub target_pane_id: Option<String>,
    pub direction: Option<SplitDirection>,
    pub cwd: Option<String>,
    pub focus: bool,
    pub env: HashMap<String, String>,
    /// Per-call popup styling/sizing override for `placement = popup`. Merged
    /// over the manifest pane's `popup` default via [`PopupSpec::merge`].
    pub popup: Option<PopupSpec>,
}

#[derive(Debug, Clone, Copy, PartialEq, Eq, Structural, Default)]
pub enum PluginPanePlacement {
    #[default]
    Overlay,
    Split,
    Tab,
    Zoomed,
    /// Ephemeral floating centered terminal rendered on top of the tiled layout,
    /// outside the layout tree. Dropped on session restore and live-handoff.
    Popup,
}

#[derive(Debug, Clone, PartialEq, Eq)]
pub struct PluginPaneFocusParams {
    pub pane_id: String,
}

#[derive(Debug, Clone, PartialEq, Eq)]
pub struct PluginPaneCloseParams {
    pub pane_id: String,
}

#[derive(Debug, Clone, PartialEq, Eq)]
pub struct PluginPaneInfo {
    pub plugin_id: String,
    pub entrypoint: String,
    pub pane: PaneInfo,
}

} // verus!
