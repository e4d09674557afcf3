//! Closing a pane or a single-pane tab that still runs a program: the client
//! first asks for the pane's foreground process; an idle shell is closed at
//! once, anything else is confirmed by the user first. A close whose target
//! changed in the meantime (another endpoint, a rebooted server, a pane gone or
//! moved) is never sent.

use vstd::prelude::*;

use crate::api::schema::{
    Method, PaneProcessInfo, PaneProcessInfoParams, PaneProcessInfoProcess, PaneTarget,
    ResponseResult, TabTarget, WorkspaceCloseParams,
};
use crate::text::{ascii_lower, chars_of, lower_char_exec, trim_white_space, trim_ws};

verus! {

/// The part of a command after its last `/` or `\` (all of it when there is none).
pub open spec fn last_path_segment(s: Seq<char>) -> Seq<char>
    decreases s.len(),
{
    if s.len() == 0 {
        s
    } else if s.last() == '/' || s.last() == '\\' {
        Seq::empty()
    } else {
        last_path_segment(s.drop_last()).push(s.last())
    }
}

/// Program names of interactive shells.
pub open spec fn is_shell_name(s: Seq<char>) -> bool {
    ||| s == "sh"@
    ||| s == "bash"@
    ||| s == "zsh"@
    ||| s == "fish"@
    ||| s == "nu"@
    ||| s == "ksh"@
    ||| s == "csh"@
    ||| s == "tcsh"@
    ||| s == "elvish"@
    ||| s == "pwsh"@
    ||| s == "powershell"@
    ||| s == "powershell.exe"@
    ||| s == "cmd"@
    ||| s == "cmd.exe"@
}

/// A foreground command is an idle shell: its trimmed program name, after the
/// last path separator and in ASCII lower case, is a shell.
pub open spec fn is_idle_shell(command: Seq<char>) -> bool {
    is_shell_name(ascii_lower(last_path_segment(trim_ws(command))))
}

fn equals_text(v: &Vec<char>, text: &str) -> (r: bool)
    ensures
        r == (v@ == text@),
{
    let t = chars_of(text);
    if v.len() != t.len() {
        return false;
    }
    let n = v.len();
    for i in 0..n
        invariant
            n == v@.len(),
            n == t@.len(),
            t@ == text@,
            forall|k: int| 0 <= k < i ==> v@[k] == t@[k],
    {
        if v[i] != t[i] {
            assert(v@[i as int] != t@[i as int]);
            return false;
        }
    }
    assert(v@ =~= t@);
    true
}

pub fn is_idle_shell_command(command: &str) -> (r: bool)
    ensures
        r == is_idle_shell(command@),
{
    let raw = chars_of(command);
    let trimmed = trim_white_space(&raw);
    let n = trimmed.len();
    let mut start: usize = n;
    assert(trimmed@.take(n as int) == trimmed@);
    assert(trimmed@.subrange(n as int, n as int) == Seq::<char>::empty());
    assert(last_path_segment(trimmed@) == last_path_segment(trimmed@.take(n as int)) + trimmed@.subrange(n as int, n as int));
    while start > 0 && trimmed[start - 1] != '/' && trimmed[start - 1] != '\\'
        invariant
            n == trimmed@.len(),
            start <= n,
            last_path_segment(trimmed@) == last_path_segment(trimmed@.take(start as int)) + trimmed@.subrange(
                start as int,
                n as int,
            ),
        decreases start,
    {
        let ghost t = trimmed@.take(start as int);
        assert(t.drop_last() == trimmed@.take(start - 1));
        assert(trimmed@.subrange(start - 1, n as int) == seq![t.last()] + trimmed@.subrange(start as int, n as int));
        start = start - 1;
    }
    assert(last_path_segment(trimmed@.take(start as int)) == Seq::<char>::empty()) by {
        if start > 0 {
            let t = trimmed@.take(start as int);
            assert(t.last() == trimmed@[start - 1]);
        }
    }
    let mut name: Vec<char> = Vec::new();
    let mut i: usize = start;
    while i < n
        invariant
            n == trimmed@.len(),
            start <= i <= n,
            name@ == ascii_lower(trimmed@.subrange(start as int, i as int)),
        decreases n - i,
    {
        name.push(lower_char_exec(trimmed[i]));
        assert(trimmed@.subrange(start as int, i + 1) == trimmed@.subrange(start as int, i as int).push(
            trimmed@[i as int],
        ));
        i = i + 1;
    }
    assert(last_path_segment(trimmed@) == trimmed@.subrange(start as int, n as int));
    equals_text(&name, "sh") || equals_text(&name, "bash") || equals_text(&name, "zsh")
        || equals_text(&name, "fish") || equals_text(&name, "nu") || equals_text(&name, "ksh")
        || equals_text(&name, "csh") || equals_text(&name, "tcsh") || equals_text(&name, "elvish")
        || equals_text(&name, "pwsh") || equals_text(&name, "powershell") || equals_text(
        &name,
        "powershell.exe",
    ) || equals_text(&name, "cmd") || equals_text(&name, "cmd.exe")
}


/// A pane as the client's snapshot of the server lists it.
#[derive(Debug, Clone, PartialEq, Eq)]
pub struct SnapshotPane {
    pub pane_id: String,
    pub tab_id: String,
}

/// The client's last snapshot of the server state.
#[derive(Debug, Clone, PartialEq, Eq)]
pub struct ClientSnapshot {
    /// Identifies the server process that produced the snapshot.
    pub boot_id: String,
    pub panes: Vec<SnapshotPane>,
}

/// A close that waits for the foreground-process probe: the target and the
/// endpoint and server boot it was requested against.
#[derive(Debug, Clone, PartialEq, Eq)]
pub struct ClientPaneClose {
    pub endpoint_id: String,
    pub boot_id: String,
    pub pane_id: String,
    /// Set when a whole (single-pane) tab is being closed.
    pub tab_id: Option<String>,
}

/// What the client does with the response to a request it sent.
#[derive(Debug, Clone, PartialEq, Eq)]
pub enum PendingEndpointKind {
    Generic,
    /// The response is the foreground-process probe of a pending close.
    CloseProcessInfo(Box<ClientPaneClose>),
}

/// Work the shell hands back to its driver.
#[derive(Debug, Clone, PartialEq, Eq)]
pub enum ClientShellAction {
    /// Send `method` to the active endpoint.
    Endpoint { method: Method, kind: PendingEndpointKind },
}

/// The actions produced while handling one input, and whether to repaint.
#[derive(Debug, Clone, PartialEq, Eq)]
pub struct ClientShellInput {
    pub actions: Vec<ClientShellAction>,
    pub repaint: bool,
}

/// A failed request to the endpoint.
#[derive(Debug, Clone, PartialEq, Eq)]
pub struct ClientShellEndpointError {
    pub code: Option<String>,
    pub message: String,
}

/// The confirmation dialog for a close.
#[derive(Debug, Clone, PartialEq, Eq)]
pub struct ClientConfirmCloseOverlay {
    pub workspace_id: String,
    pub title: String,
    pub detail: String,
    /// The pending close of a running pane, when that is what is confirmed
    /// (otherwise the workspace is closed).
    pub running_close: Option<Box<ClientPaneClose>>,
}

#[derive(Debug, Clone, PartialEq, Eq)]
pub enum ClientShellOverlay {
    ConfirmClose(ClientConfirmCloseOverlay),
    /// Any other overlay (menus, text entry, ...).
    Other,
}

/// The part of the client shell state that closing a running pane reads and
/// writes.
#[derive(Debug, Clone, PartialEq, Eq)]
pub struct ClientShellState {
    /// `confirm_close_running` from the configuration.
    pub confirm_close_running: bool,
    pub active_endpoint_id: String,
    pub snapshot: Option<ClientSnapshot>,
    pub overlay: Option<ClientShellOverlay>,
    pub endpoint_error: Option<String>,
}

/// The panes of `panes` that belong to the tab `tab`, in order.
pub open spec fn panes_in_tab(panes: Seq<SnapshotPane>, tab: Seq<char>) -> Seq<SnapshotPane>
    decreases panes.len(),
{
    if panes.len() == 0 {
        Seq::empty()
    } else if panes.last().tab_id@ == tab {
        panes_in_tab(panes.drop_last(), tab).push(panes.last())
    } else {
        panes_in_tab(panes.drop_last(), tab)
    }
}

/// How a close request is handled when it arrives.
pub enum RunningClosePlan {
    /// Not a running-pane close: the request goes out unchanged.
    PassThrough,
    /// Closing a tab that has no panes: the request is dropped.
    Drop,
    /// Probe the foreground process of the target first.
    Probe(ClientPaneClose),
}

/// The plan for `method`: with confirmation enabled and a snapshot at hand, a
/// pane close or a close of a tab with exactly one pane is probed first.
pub open spec fn running_close_plan(state: ClientShellState, method: Method) -> RunningClosePlan {
    if !state.confirm_close_running || state.snapshot is None {
        RunningClosePlan::PassThrough
    } else {
        let snapshot = state.snapshot->0;
        match method {
            Method::PaneClose(target) => RunningClosePlan::Probe(
                ClientPaneClose {
                    endpoint_id: state.active_endpoint_id,
                    boot_id: snapshot.boot_id,
                    pane_id: target.pane_id,
                    tab_id: None,
                },
            ),
            Method::TabClose(target) => {
                let in_tab = panes_in_tab(snapshot.panes@, target.tab_id@);
                if in_tab.len() == 0 {
                    RunningClosePlan::Drop
                } else if in_tab.len() > 1 {
                    RunningClosePlan::PassThrough
                } else {
                    RunningClosePlan::Probe(
                        ClientPaneClose {
                            endpoint_id: state.active_endpoint_id,
                            boot_id: snapshot.boot_id,
                            pane_id: in_tab[0].pane_id,
                            tab_id: Some(target.tab_id),
                        },
                    )
                }
            },
            _ => RunningClosePlan::PassThrough,
        }
    }
}

/// The request that asks for the foreground process of a pending close.
pub open spec fn probe_request(close: ClientPaneClose) -> ClientShellAction {
    ClientShellAction::Endpoint {
        method: Method::PaneProcessInfo(PaneProcessInfoParams { pane_id: Some(close.pane_id) }),
        kind: PendingEndpointKind::CloseProcessInfo(Box::new(close)),
    }
}

/// The request that performs a pending close: the tab close when a tab is
/// closed, the pane close otherwise.
pub open spec fn close_request(close: ClientPaneClose) -> ClientShellAction {
    ClientShellAction::Endpoint {
        method: match close.tab_id {
            Some(tab_id) => Method::TabClose(TabTarget { tab_id }),
            None => Method::PaneClose(PaneTarget { pane_id: close.pane_id }),
        },
        kind: PendingEndpointKind::Generic,
    }
}

/// The target of a pending close is still what it was: same endpoint, same
/// server boot, the pane still exists, and for a tab close the tab still holds
/// exactly that one pane.
pub open spec fn close_target_exists(state: ClientShellState, close: ClientPaneClose) -> bool {
    &&& state.active_endpoint_id@ == close.endpoint_id@
    &&& state.snapshot matches Some(snapshot) && {
        &&& snapshot.boot_id@ == close.boot_id@
        &&& exists|i: int| 0 <= i < snapshot.panes@.len() && #[trigger] snapshot.panes@[i].pane_id@ == close.pane_id@
        &&& close.tab_id matches Some(tab_id) ==> {
            let in_tab = panes_in_tab(snapshot.panes@, tab_id@);
            in_tab.len() == 1 && in_tab[0].pane_id@ == close.pane_id@
        }
    }
}

/// Counts the panes of tab `tab` (stopping at two) and finds the first one.
fn tab_panes_summary(panes: &Vec<SnapshotPane>, tab: &String) -> (r: (Option<usize>, usize))
    ensures
        r.1 == (if panes_in_tab(panes@, tab@).len() < 2 { panes_in_tab(panes@, tab@).len() } else { 2 }),
        r.1 >= 1 ==> (r.0 matches Some(i) && i < panes@.len() && panes@[i as int] == panes_in_tab(panes@, tab@)[0]),
{
    let n = panes.len();
    let mut first: Option<usize> = None;
    let mut count: usize = 0;
    for i in 0..n
        invariant
            n == panes@.len(),
            count == (if panes_in_tab(panes@.take(i as int), tab@).len() < 2 {
                panes_in_tab(panes@.take(i as int), tab@).len()
            } else {
                2
            }),
            count >= 1 ==> (first matches Some(f) && f < n && panes@[f as int] == panes_in_tab(
                panes@.take(i as int),
                tab@,
            )[0]),
    {
        let ghost t = panes@.take(i + 1);
        assert(t.drop_last() == panes@.take(i as int));
        assert(t.last() == panes@[i as int]);
        if panes[i].tab_id == *tab {
            if count == 0 {
                first = Some(i);
            }
            if count < 2 {
                count = count + 1;
            }
        }
    }
    assert(panes@.take(n as int) == panes@);
    (first, count)
}

fn clone_close(close: &ClientPaneClose) -> (r: ClientPaneClose)
    ensures
        r == *close,
{
    ClientPaneClose {
        endpoint_id: close.endpoint_id.clone(),
        boot_id: close.boot_id.clone(),
        pane_id: close.pane_id.clone(),
        tab_id: match &close.tab_id {
            Some(t) => Some(t.clone()),
            None => None,
        },
    }
}

impl ClientShellState {
    /// Intercepts a pane or tab close that should be confirmed when the target
    /// still runs something. Returns whether the request was taken over; when
    /// it was and a target is known, the foreground-process probe is queued.
    pub fn prepare_running_close(&mut self, method: &Method, outcome: &mut ClientShellInput) -> (r: bool)
        ensures
            *final(self) == *old(self),
            r == !(running_close_plan(*old(self), *method) is PassThrough),
            final(outcome).repaint == old(outcome).repaint,
            final(outcome).actions@ == old(outcome).actions@ + match running_close_plan(*old(self), *method) {
                RunningClosePlan::Probe(close) => seq![probe_request(close)],
                _ => Seq::<ClientShellAction>::empty(),
            },
    {
        if !self.confirm_close_running {
            assert(outcome.actions@ + Seq::<ClientShellAction>::empty() == outcome.actions@);
            return false;
        }
        let snapshot = match &self.snapshot {
            Some(s) => s,
            None => {
                assert(outcome.actions@ + Seq::<ClientShellAction>::empty() == outcome.actions@);
                return false;
            },
        };
        let (pane_id, tab_id) = match method {
            Method::PaneClose(target) => (target.pane_id.clone(), None),
            Method::TabClose(target) => {
                let (first, count) = tab_panes_summary(&snapshot.panes, &target.tab_id);
                if count == 0 {
                    assert(outcome.actions@ + Seq::<ClientShellAction>::empty() == outcome.actions@);
                    return true;
                }
                if count > 1 {
                    assert(outcome.actions@ + Seq::<ClientShellAction>::empty() == outcome.actions@);
                    return false;
                }
                let f = match first {
                    Some(f) => f,
                    None => {
                        return false;
                    },
                };
                (snapshot.panes[f].pane_id.clone(), Some(target.tab_id.clone()))
            },
            _ => {
                assert(outcome.actions@ + Seq::<ClientShellAction>::empty() == outcome.actions@);
                return false;
            },
        };
        let close = ClientPaneClose {
            endpoint_id: self.active_endpoint_id.clone(),
            boot_id: snapshot.boot_id.clone(),
            pane_id: pane_id.clone(),
            tab_id,
        };
        outcome.actions.push(
            ClientShellAction::Endpoint {
                method: Method::PaneProcessInfo(PaneProcessInfoParams { pane_id: Some(pane_id) }),
                kind: PendingEndpointKind::CloseProcessInfo(Box::new(close)),
            },
        );
        true
    }

    /// Whether the target of `close` is still what it was when the close was
    /// requested.
    pub fn running_close_target_exists(&self, close: &ClientPaneClose) -> (r: bool)
        ensures
            r == close_target_exists(*self, *close),
    {
        if self.active_endpoint_id != close.endpoint_id {
            return false;
        }
        let snapshot = match &self.snapshot {
            Some(s) => s,
            None => return false,
        };
        if snapshot.boot_id != close.boot_id {
            return false;
        }
        let n = snapshot.panes.len();
        let mut found = false;
        for i in 0..n
            invariant
                n == snapshot.panes@.len(),
                found <==> exists|k: int| 0 <= k < i && #[trigger] snapshot.panes@[k].pane_id@ == close.pane_id@,
        {
            if snapshot.panes[i].pane_id == close.pane_id {
                found = true;
            }
        }
        if !found {
            return false;
        }
        match &close.tab_id {
            None => true,
            Some(tab_id) => {
                let (first, count) = tab_panes_summary(&snapshot.panes, tab_id);
                if count != 1 {
                    return false;
                }
                match first {
                    Some(f) => snapshot.panes[f].pane_id == close.pane_id,
                    None => false,
                }
            },
        }
    }

    /// Sends the close of `close`'s target, unless the target changed.
    pub fn dispatch_running_close(&mut self, close: ClientPaneClose, outcome: &mut ClientShellInput)
        ensures
            *final(self) == *old(self),
            final(outcome).repaint == old(outcome).repaint,
            final(outcome).actions@ == old(outcome).actions@ + if close_target_exists(*old(self), close) {
                seq![close_request(close)]
            } else {
                Seq::<ClientShellAction>::empty()
            },
    {
        if !self.running_close_target_exists(&close) {
            assert(outcome.actions@ + Seq::<ClientShellAction>::empty() == outcome.actions@);
            return;
        }
        let method = match close.tab_id {
            Some(tab_id) => Method::TabClose(TabTarget { tab_id }),
            None => Method::PaneClose(PaneTarget { pane_id: close.pane_id }),
        };
        outcome.actions.push(ClientShellAction::Endpoint { method, kind: PendingEndpointKind::Generic });
    }
}


/// The first process of `procs` whose pid is the foreground process group id.
pub open spec fn first_process_in_group(
    procs: Seq<PaneProcessInfoProcess>,
    group: Option<u32>,
) -> Option<PaneProcessInfoProcess>
    decreases procs.len(),
{
    if procs.len() == 0 {
        None
    } else if Some(procs[0].pid) == group {
        Some(procs[0])
    } else {
        first_process_in_group(procs.drop_first(), group)
    }
}

/// The process that stands for what a pane runs: the leader of the foreground
/// process group when listed, else the first foreground process.
pub open spec fn foreground_process(info: PaneProcessInfo) -> Option<PaneProcessInfoProcess> {
    match first_process_in_group(info.foreground_processes@, info.foreground_process_group_id) {
        Some(p) => Some(p),
        None => if info.foreground_processes@.len() > 0 {
            Some(info.foreground_processes@[0])
        } else {
            None
        },
    }
}

/// What the response to a close's probe means.
pub enum ProbeVerdict {
    /// The target changed, or another overlay is open: the close is dropped.
    Stale,
    /// The probe request failed: the close is dropped silently.
    ProbeFailed,
    /// The response is not the process info of the target.
    Uninspectable,
    /// The target has no foreground process.
    Undetermined,
    /// The target runs an idle shell: it is closed at once.
    Idle,
    /// The target runs this command: the user confirms first.
    Running(Seq<char>),
}

pub open spec fn probe_verdict(
    state: ClientShellState,
    close: ClientPaneClose,
    result: Result<ResponseResult, ClientShellEndpointError>,
) -> ProbeVerdict {
    if !close_target_exists(state, close) || state.overlay is Some {
        ProbeVerdict::Stale
    } else {
        match result {
            Err(_) => ProbeVerdict::ProbeFailed,
            Ok(ResponseResult::PaneProcessInfo { process_info }) => {
                if process_info.pane_id@ != close.pane_id@ {
                    ProbeVerdict::Uninspectable
                } else {
                    match foreground_process(process_info) {
                        None => ProbeVerdict::Undetermined,
                        Some(p) => if is_idle_shell(p.name@) {
                            ProbeVerdict::Idle
                        } else {
                            ProbeVerdict::Running(p.name@)
                        },
                    }
                }
            },
            Ok(_) => ProbeVerdict::Uninspectable,
        }
    }
}

/// `b` is `a` apart, at most, from its overlay.
pub open spec fn same_except_overlay(a: ClientShellState, b: ClientShellState) -> bool {
    &&& b.confirm_close_running == a.confirm_close_running
    &&& b.active_endpoint_id == a.active_endpoint_id
    &&& b.snapshot == a.snapshot
    &&& b.endpoint_error == a.endpoint_error
}

/// `b` is `a` apart, at most, from its endpoint error.
pub open spec fn same_except_error(a: ClientShellState, b: ClientShellState) -> bool {
    &&& b.confirm_close_running == a.confirm_close_running
    &&& b.active_endpoint_id == a.active_endpoint_id
    &&& b.snapshot == a.snapshot
    &&& b.overlay == a.overlay
}

/// The dialog that asks whether to close `close`'s target, which runs `command`.
pub open spec fn is_confirm_overlay_for(
    overlay: Option<ClientShellOverlay>,
    close: ClientPaneClose,
    command: Seq<char>,
) -> bool {
    overlay matches Some(ClientShellOverlay::ConfirmClose(o)) && {
        &&& o.workspace_id@ == Seq::<char>::empty()
        &&& o.title@ == (if close.tab_id is Some { "Close tab?"@ } else { "Close pane?"@ })
        &&& o.detail@ == close.pane_id@ + " \u{2014} terminate "@ + command
        &&& o.running_close == Some(Box::new(close))
    }
}

/// What handling a probe response does: the next state, whether the response
/// was handled, and the requests to send.
pub open spec fn probe_transition(
    old: ClientShellState,
    close: ClientPaneClose,
    result: Result<ResponseResult, ClientShellEndpointError>,
    new: ClientShellState,
    handled: bool,
    actions: Seq<ClientShellAction>,
) -> bool {
    match probe_verdict(old, close, result) {
        ProbeVerdict::Stale => new == old && !handled && actions.len() == 0,
        ProbeVerdict::ProbeFailed => new == old && handled && actions.len() == 0,
        ProbeVerdict::Uninspectable => {
            &&& same_except_error(old, new)
            &&& new.endpoint_error matches Some(e)
            &&& e@ == "Cannot inspect the close target's foreground process"@
            &&& handled
            &&& actions.len() == 0
        },
        ProbeVerdict::Undetermined => {
            &&& same_except_error(old, new)
            &&& new.endpoint_error matches Some(e)
            &&& e@ == "Cannot determine whether the close target is idle"@
            &&& handled
            &&& actions.len() == 0
        },
        ProbeVerdict::Idle => new == old && handled && actions == seq![close_request(close)],
        ProbeVerdict::Running(command) => {
            &&& same_except_overlay(old, new)
            &&& is_confirm_overlay_for(new.overlay, close, command)
            &&& handled
            &&& actions.len() == 0
        },
    }
}

/// The request that closes a whole workspace group.
pub open spec fn workspace_close_request(workspace_id: String) -> ClientShellAction {
    ClientShellAction::Endpoint {
        method: Method::WorkspaceClose(WorkspaceCloseParams { workspace_id, close_group: true }),
        kind: PendingEndpointKind::Generic,
    }
}

/// The requests that accepting the open overlay sends.
pub open spec fn accept_actions(state: ClientShellState) -> Seq<ClientShellAction> {
    match state.overlay {
        Some(ClientShellOverlay::ConfirmClose(c)) => match c.running_close {
            Some(close) => if close_target_exists(state, *close) {
                seq![close_request(*close)]
            } else {
                Seq::empty()
            },
            None => seq![workspace_close_request(c.workspace_id)],
        },
        _ => Seq::empty(),
    }
}

fn find_foreground_process(info: &PaneProcessInfo) -> (r: Option<usize>)
    ensures
        match foreground_process(*info) {
            None => r is None,
            Some(p) => r matches Some(i) && i < info.foreground_processes@.len()
                && info.foreground_processes@[i as int] == p,
        },
{
    let n = info.foreground_processes.len();
    let ghost procs = info.foreground_processes@;
    let mut i: usize = 0;
    assert(procs.skip(0) == procs);
    while i < n
        invariant
            n == procs.len(),
            procs == info.foreground_processes@,
            i <= n,
            first_process_in_group(procs, info.foreground_process_group_id) == first_process_in_group(
                procs.skip(i as int),
                info.foreground_process_group_id,
            ),
        decreases n - i,
    {
        let ghost rest = procs.skip(i as int);
        assert(rest[0] == procs[i as int]);
        let matches_group = match info.foreground_process_group_id {
            Some(g) => info.foreground_processes[i].pid == g,
            None => false,
        };
        if matches_group {
            return Some(i);
        }
        assert(rest.drop_first() == procs.skip(i + 1));
        i = i + 1;
    }
    assert(procs.skip(n as int).len() == 0);
    if n > 0 {
        Some(0)
    } else {
        None
    }
}

impl ClientShellState {
    /// Handles the response to a close's foreground-process probe. Returns
    /// whether the response was handled and the requests to send.
    pub fn complete_running_close_probe(
        &mut self,
        close: ClientPaneClose,
        result: Result<ResponseResult, ClientShellEndpointError>,
    ) -> (r: (bool, Vec<ClientShellAction>))
        ensures
            probe_transition(*old(self), close, result, *final(self), r.0, r.1@),
    {
        if !self.running_close_target_exists(&close) || self.overlay.is_some() {
            return (false, Vec::new());
        }
        let info = match result {
            Ok(ResponseResult::PaneProcessInfo { process_info }) => {
                if process_info.pane_id == close.pane_id {
                    process_info
                } else {
                    self.endpoint_error = Some(
                        "Cannot inspect the close target's foreground process".to_owned(),
                    );
                    return (true, Vec::new());
                }
            },
            Err(_) => {
                return (true, Vec::new());
            },
            Ok(_) => {
                self.endpoint_error = Some("Cannot inspect the close target's foreground process".to_owned());
                return (true, Vec::new());
            },
        };
        let index = match find_foreground_process(&info) {
            Some(i) => i,
            None => {
                self.endpoint_error = Some("Cannot determine whether the close target is idle".to_owned());
                return (true, Vec::new());
            },
        };
        let command: &str = info.foreground_processes[index].name.as_str();
        let mut outcome = ClientShellInput { actions: Vec::new(), repaint: false };
        if is_idle_shell_command(command) {
            self.dispatch_running_close(close, &mut outcome);
            assert(outcome.actions@ =~= seq![close_request(close)]);
        } else {
            let title = if close.tab_id.is_some() {
                "Close tab?".to_owned()
            } else {
                "Close pane?".to_owned()
            };
            let mut detail = close.pane_id.clone();
            detail.append(" \u{2014} terminate ");
            detail.append(command);
            self.overlay = Some(
                ClientShellOverlay::ConfirmClose(
                    ClientConfirmCloseOverlay {
                        workspace_id: String::new(),
                        title,
                        detail,
                        running_close: Some(Box::new(close)),
                    },
                ),
            );
        }
        (true, outcome.actions)
    }

    /// Accepts the open confirmation dialog: a pending running-pane close is
    /// sent (unless its target changed), otherwise the workspace group is
    /// closed. Any overlay is dismissed.
    pub fn accept_close_overlay(&mut self, outcome: &mut ClientShellInput)
        ensures
            final(self).overlay is None,
            same_except_overlay(*old(self), *final(self)),
            old(self).overlay matches Some(ClientShellOverlay::ConfirmClose(_)) ==> {
                &&& final(outcome).repaint
                &&& final(outcome).actions@ == old(outcome).actions@ + accept_actions(*old(self))
            },
            !(old(self).overlay matches Some(ClientShellOverlay::ConfirmClose(_))) ==> *final(outcome) == *old(outcome),
    {
        let overlay = self.overlay.take();
        let confirm = match overlay {
            Some(ClientShellOverlay::ConfirmClose(confirm)) => confirm,
            _ => {
                return;
            },
        };
        match confirm.running_close {
            Some(close) => {
                self.dispatch_running_close(*close, outcome);
            },
            None => {
                outcome.actions.push(
                    ClientShellAction::Endpoint {
                        method: Method::WorkspaceClose(
                            WorkspaceCloseParams { workspace_id: confirm.workspace_id, close_group: true },
                        ),
                        kind: PendingEndpointKind::Generic,
                    },
                );
            },
        }
        outcome.repaint = true;
    }
}


proof fn lemma_panes_in_tab_are_panes(panes: Seq<SnapshotPane>, tab: Seq<char>)
    ensures
        forall|j: int|
            0 <= j < panes_in_tab(panes, tab).len() ==> exists|k: int|
                0 <= k < panes.len() && #[trigger] panes[k] == #[trigger] panes_in_tab(panes, tab)[j],
    decreases panes.len(),
{
    if panes.len() > 0 {
        let t = panes.drop_last();
        lemma_panes_in_tab_are_panes(t, tab);
        let r = panes_in_tab(panes, tab);
        let rt = panes_in_tab(t, tab);
        assert forall|j: int| 0 <= j < r.len() implies exists|k: int|
            0 <= k < panes.len() && #[trigger] panes[k] == #[trigger] r[j] by {
            if j < rt.len() {
                assert(r[j] == rt[j]);
                let k = choose|k: int| 0 <= k < t.len() && #[trigger] t[k] == #[trigger] rt[j];
                assert(panes[k] == t[k]);
            } else {
                assert(r[j] == panes[panes.len() - 1]);
            }
        }
    }
}

/// A freshly recorded close targets what is there: when a close request is
/// taken over for probing, the recorded target exists as long as the pane
/// exists (which a single-pane tab close guarantees by itself).
pub proof fn lemma_recorded_close_targets_current_state(state: ClientShellState, method: Method)
    requires
        running_close_plan(state, method) is Probe,
        method is TabClose || (state.snapshot matches Some(snapshot) && exists|i: int|
            0 <= i < snapshot.panes@.len() && #[trigger] snapshot.panes@[i].pane_id@ == (match method {
                Method::PaneClose(t) => t.pane_id@,
                _ => Seq::<char>::empty(),
            })),
    ensures
        running_close_plan(state, method) matches RunningClosePlan::Probe(close) && close_target_exists(state, close),
{
    let snapshot = state.snapshot->0;
    if let Method::TabClose(target) = method {
        let in_tab = panes_in_tab(snapshot.panes@, target.tab_id@);
        lemma_panes_in_tab_are_panes(snapshot.panes@, target.tab_id@);
        let k = choose|k: int| 0 <= k < snapshot.panes@.len() && #[trigger] snapshot.panes@[k] == #[trigger] in_tab[0];
        assert(snapshot.panes@[k].pane_id@ == in_tab[0].pane_id@);
    }
}

/// A close whose target changed is never sent: the probe response is then
/// ignored without any change, and accepting a dialog that holds such a close
/// sends nothing.
pub proof fn lemma_stale_close_is_never_sent(
    old: ClientShellState,
    close: ClientPaneClose,
    result: Result<ResponseResult, ClientShellEndpointError>,
    new: ClientShellState,
    handled: bool,
    actions: Seq<ClientShellAction>,
)
    requires
        !close_target_exists(old, close),
        probe_transition(old, close, result, new, handled, actions),
    ensures
        new == old,
        !handled,
        actions.len() == 0,
        old.overlay matches Some(ClientShellOverlay::ConfirmClose(c)) && c.running_close == Some(Box::new(close))
            ==> accept_actions(old).len() == 0,
{
}

/// Confirming a running close sends exactly the recorded close: after a probe
/// reports that the target runs something other than an idle shell, the
/// dialog is open, and accepting it sends the close of that target.
pub proof fn lemma_confirmed_running_close_sends_recorded_target(
    old: ClientShellState,
    close: ClientPaneClose,
    result: Result<ResponseResult, ClientShellEndpointError>,
    new: ClientShellState,
    handled: bool,
    actions: Seq<ClientShellAction>,
)
    requires
        probe_verdict(old, close, result) is Running,
        probe_transition(old, close, result, new, handled, actions),
    ensures
        handled,
        actions.len() == 0,
        accept_actions(new) == seq![close_request(close)],
{
    assert(close_target_exists(new, close) == close_target_exists(old, close));
}

/// An idle shell is closed at once: the probe response sends the close of the
/// recorded target and opens no dialog.
pub proof fn lemma_idle_shell_closes_at_once(
    old: ClientShellState,
    close: ClientPaneClose,
    result: Result<ResponseResult, ClientShellEndpointError>,
    new: ClientShellState,
    handled: bool,
    actions: Seq<ClientShellAction>,
)
    requires
        probe_verdict(old, close, result) is Idle,
        probe_transition(old, close, result, new, handled, actions),
    ensures
        handled,
        actions == seq![close_request(close)],
        new.overlay is None,
{
}


proof fn lemma_first_process_in_group_is_leader(procs: Seq<PaneProcessInfoProcess>, group: Option<u32>)
    ensures
        forall|k: int|
            0 <= k < procs.len() && Some(#[trigger] procs[k].pid) == group && (forall|j: int|
                0 <= j < k ==> Some(procs[j].pid) != group) ==> first_process_in_group(procs, group) == Some(
                procs[k],
            ),
        (forall|j: int| 0 <= j < procs.len() ==> Some(#[trigger] procs[j].pid) != group) ==> first_process_in_group(
            procs,
            group,
        ) is None,
    decreases procs.len(),
{
    if procs.len() > 0 {
        let t = procs.drop_first();
        lemma_first_process_in_group_is_leader(t, group);
        assert forall|k: int|
            0 <= k < procs.len() && Some(#[trigger] procs[k].pid) == group && (forall|j: int|
                0 <= j < k ==> Some(procs[j].pid) != group) implies first_process_in_group(procs, group) == Some(
            procs[k],
        ) by {
            if k > 0 {
                assert(Some(procs[0].pid) != group);
                assert(t[k - 1] == procs[k]);
                assert forall|j: int| 0 <= j < k - 1 implies Some(t[j].pid) != group by {
                    assert(t[j] == procs[j + 1]);
                }
            }
        }
        if forall|j: int| 0 <= j < procs.len() ==> Some(#[trigger] procs[j].pid) != group {
            assert(Some(procs[0].pid) != group);
            assert forall|j: int| 0 <= j < t.len() implies Some(#[trigger] t[j].pid) != group by {
                assert(t[j] == procs[j + 1]);
            }
        }
    }
}

/// The process that decides a probe, by position `k` in the list: the first
/// process whose pid is the foreground process group id, or the first process
/// when none has it.
pub open spec fn decides_probe(info: PaneProcessInfo, k: int) -> bool {
    let procs = info.foreground_processes@;
    let group = info.foreground_process_group_id;
    &&& 0 <= k < procs.len()
    &&& ({
        ||| (Some(procs[k].pid) == group && forall|j: int| 0 <= j < k ==> Some(#[trigger] procs[j].pid) != group)
        ||| (k == 0 && forall|j: int| 0 <= j < procs.len() ==> Some(#[trigger] procs[j].pid) != group)
    })
}

/// A probe of a current target answered with its process list is judged by
/// the group leader, or by the first listed process when no process leads the
/// foreground group: an idle shell there sends at once the close of the
/// recorded target (its tab when a tab is closed, else its pane) and changes
/// nothing else; any other program opens the confirmation for that target and
/// sends nothing; an empty list reports that idleness cannot be determined.
pub proof fn lemma_probe_is_judged_by_leader_or_first_process(
    old: ClientShellState,
    close: ClientPaneClose,
    info: PaneProcessInfo,
    k: int,
    new: ClientShellState,
    handled: bool,
    actions: Seq<ClientShellAction>,
)
    requires
        close_target_exists(old, close),
        old.overlay is None,
        info.pane_id@ == close.pane_id@,
        probe_transition(
            old,
            close,
            Ok(ResponseResult::PaneProcessInfo { process_info: info }),
            new,
            handled,
            actions,
        ),
    ensures
        decides_probe(info, k) && is_idle_shell(info.foreground_processes@[k].name@) ==> {
            &&& handled
            &&& new == old
            &&& actions == seq![
                ClientShellAction::Endpoint {
                    method: match close.tab_id {
                        Some(tab_id) => Method::TabClose(TabTarget { tab_id }),
                        None => Method::PaneClose(PaneTarget { pane_id: close.pane_id }),
                    },
                    kind: PendingEndpointKind::Generic,
                },
            ]
        },
        decides_probe(info, k) && !is_idle_shell(info.foreground_processes@[k].name@) ==> {
            &&& handled
            &&& actions.len() == 0
            &&& new.overlay matches Some(ClientShellOverlay::ConfirmClose(o))
            &&& o.running_close == Some(Box::new(close))
            &&& o.detail@ == close.pane_id@ + " \u{2014} terminate "@ + info.foreground_processes@[k].name@
            &&& new.snapshot == old.snapshot
            &&& new.endpoint_error == old.endpoint_error
        },
        info.foreground_processes@.len() == 0 ==> {
            &&& handled
            &&& actions.len() == 0
            &&& new.overlay is None
            &&& new.endpoint_error is Some
        },
{
    lemma_first_process_in_group_is_leader(info.foreground_processes@, info.foreground_process_group_id);
}


/// The panes of a tab are the snapshot's panes filtered by tab, in order
/// (`in_tab` tells whether a pane belongs to the tab).
pub proof fn lemma_panes_in_tab_filters_by_tab(
    panes: Seq<SnapshotPane>,
    tab: Seq<char>,
    in_tab: spec_fn(SnapshotPane) -> bool,
)
    requires
        forall|p: SnapshotPane| #[trigger] in_tab(p) == (p.tab_id@ == tab),
    ensures
        panes_in_tab(panes, tab) == panes.filter(in_tab),
    decreases panes.len(),
{
    reveal_with_fuel(Seq::<SnapshotPane>::filter, 1);
    if panes.len() > 0 {
        lemma_panes_in_tab_filters_by_tab(panes.drop_last(), tab, in_tab);
        assert(in_tab(panes.last()) == (panes.last().tab_id@ == tab));
    }
}

/// How a close request is taken over: nothing is taken over without the
/// confirmation setting or a snapshot; a pane close is probed for that pane;
/// a tab close is probed for the tab's only pane, dropped when the tab has no
/// pane and passed on when it has several; other requests pass. The probe
/// records the active endpoint and the snapshot's boot, and asks about the
/// pane it records.
pub proof fn lemma_running_close_plan_follows_the_request(state: ClientShellState, method: Method)
    ensures
        !state.confirm_close_running || state.snapshot is None ==> running_close_plan(state, method) is PassThrough,
        state.confirm_close_running && state.snapshot is Some ==> {
            let snapshot = state.snapshot->0;
            &&& (method matches Method::PaneClose(target) ==> running_close_plan(state, method) == RunningClosePlan::Probe(
                ClientPaneClose {
                    endpoint_id: state.active_endpoint_id,
                    boot_id: snapshot.boot_id,
                    pane_id: target.pane_id,
                    tab_id: None,
                },
            ))
            &&& (method matches Method::TabClose(target) ==> {
                let in_tab = snapshot.panes@.filter(|p: SnapshotPane| p.tab_id@ == target.tab_id@);
                &&& (in_tab.len() == 0 ==> running_close_plan(state, method) is Drop)
                &&& (in_tab.len() > 1 ==> running_close_plan(state, method) is PassThrough)
                &&& (in_tab.len() == 1 ==> running_close_plan(state, method) == RunningClosePlan::Probe(
                    ClientPaneClose {
                        endpoint_id: state.active_endpoint_id,
                        boot_id: snapshot.boot_id,
                        pane_id: in_tab[0].pane_id,
                        tab_id: Some(target.tab_id),
                    },
                ))
            })
            &&& (!(method is PaneClose) && !(method is TabClose) ==> running_close_plan(state, method) is PassThrough)
        },
        forall|close: ClientPaneClose|
            #[trigger] probe_request(close) == (ClientShellAction::Endpoint {
                method: Method::PaneProcessInfo(PaneProcessInfoParams { pane_id: Some(close.pane_id) }),
                kind: PendingEndpointKind::CloseProcessInfo(Box::new(close)),
            }),
{
    if let Method::TabClose(target) = method {
        if let Some(snapshot) = state.snapshot {
            lemma_panes_in_tab_filters_by_tab(
                snapshot.panes@,
                target.tab_id@,
                |p: SnapshotPane| p.tab_id@ == target.tab_id@,
            );
        }
    }
}

/// A failed probe closes nothing and changes nothing, though the response
/// counts as handled while the target is current.
pub proof fn lemma_failed_probe_closes_nothing(
    old: ClientShellState,
    close: ClientPaneClose,
    error: ClientShellEndpointError,
    new: ClientShellState,
    handled: bool,
    actions: Seq<ClientShellAction>,
)
    requires
        probe_transition(old, close, Err(error), new, handled, actions),
    ensures
        new == old,
        actions.len() == 0,
        handled == (close_target_exists(old, close) && old.overlay is None),
{
}

/// The target of a close is current exactly when the endpoint and the server
/// boot are the recorded ones, the recorded pane is in the snapshot and, for a
/// tab close, the tab's panes are that pane alone.
pub proof fn lemma_close_target_exists_explained(state: ClientShellState, close: ClientPaneClose)
    ensures
        close_target_exists(state, close) <==> {
            &&& state.active_endpoint_id@ == close.endpoint_id@
            &&& state.snapshot is Some
            &&& state.snapshot->0.boot_id@ == close.boot_id@
            &&& exists|i: int|
                0 <= i < state.snapshot->0.panes@.len() && #[trigger] state.snapshot->0.panes@[i].pane_id@
                    == close.pane_id@
            &&& close.tab_id is Some ==> {
                let in_tab = state.snapshot->0.panes@.filter(|p: SnapshotPane| p.tab_id@ == close.tab_id->0@);
                in_tab.len() == 1 && in_tab[0].pane_id@ == close.pane_id@
            }
        },
{
    if let Some(snapshot) = state.snapshot {
        if let Some(tab_id) = close.tab_id {
            lemma_panes_in_tab_filters_by_tab(
                snapshot.panes@,
                tab_id@,
                |p: SnapshotPane| p.tab_id@ == close.tab_id->0@,
            );
        }
    }
}


/// The program name is what follows the last `/` or `\`: a suffix of the
/// command holding no separator, preceded by a separator unless it is the
/// whole command.
pub proof fn lemma_last_path_segment_follows_last_separator(s: Seq<char>)
    ensures
        last_path_segment(s).len() <= s.len(),
        last_path_segment(s) == s.subrange(s.len() - last_path_segment(s).len(), s.len() as int),
        forall|i: int|
            0 <= i < last_path_segment(s).len() ==> #[trigger] last_path_segment(s)[i] != '/' && last_path_segment(
                s,
            )[i] != '\\',
        last_path_segment(s).len() < s.len() ==> (s[s.len() - last_path_segment(s).len() - 1] == '/' || s[s.len()
            - last_path_segment(s).len() - 1] == '\\'),
    decreases s.len(),
{
    if s.len() > 0 {
        let t = s.drop_last();
        lemma_last_path_segment_follows_last_separator(t);
        let lt = last_path_segment(t);
        let l = last_path_segment(s);
        if s.last() == '/' || s.last() == '\\' {
            assert(s.subrange(s.len() as int, s.len() as int) == Seq::<char>::empty());
        } else {
            assert(l == lt.push(s.last()));
            assert(t.subrange(t.len() - lt.len(), t.len() as int).push(s.last()) == s.subrange(
                s.len() - l.len(),
                s.len() as int,
            ));
            assert forall|i: int| 0 <= i < l.len() implies #[trigger] l[i] != '/' && l[i] != '\\' by {
                if i < lt.len() {
                    assert(l[i] == lt[i]);
                }
            }
            if l.len() < s.len() {
                assert(s[s.len() - l.len() - 1] == t[t.len() - lt.len() - 1]);
            }
        }
    }
}

} // verus!
