use herdr::api::schema::{
    Method, PaneProcessInfo, PaneProcessInfoParams, PaneProcessInfoProcess, PaneTarget,
    ResponseResult, TabTarget, WorkspaceCloseParams,
};
use herdr::client::shell::confirm_running::{
    is_idle_shell_command, ClientConfirmCloseOverlay, ClientPaneClose, ClientShellAction,
    ClientShellEndpointError, ClientShellInput, ClientShellOverlay, ClientShellState,
    ClientSnapshot, PendingEndpointKind, SnapshotPane,
};

fn pane(pane_id: &str, tab_id: &str) -> SnapshotPane {
    SnapshotPane { pane_id: pane_id.into(), tab_id: tab_id.into() }
}

fn state() -> ClientShellState {
    ClientShellState {
        confirm_close_running: true,
        active_endpoint_id: "local".into(),
        snapshot: Some(ClientSnapshot {
            boot_id: "boot-1".into(),
            panes: vec![pane("pane_1", "tab_1"), pane("pane_2", "tab_2"), pane("pane_3", "tab_2")],
        }),
        overlay: None,
        endpoint_error: None,
    }
}

fn input() -> ClientShellInput {
    ClientShellInput { actions: Vec::new(), repaint: false }
}

fn close(tab: bool) -> ClientPaneClose {
    ClientPaneClose {
        endpoint_id: "local".into(),
        boot_id: "boot-1".into(),
        pane_id: "pane_1".into(),
        tab_id: if tab { Some("tab_1".into()) } else { None },
    }
}

fn process_info(idle: bool) -> ResponseResult {
    ResponseResult::PaneProcessInfo {
        process_info: PaneProcessInfo {
            pane_id: "pane_1".into(),
            shell_pid: Some(100),
            foreground_process_group_id: Some(if idle { 100 } else { 200 }),
            tty: None,
            foreground_processes: vec![PaneProcessInfoProcess {
                pid: if idle { 100 } else { 200 },
                name: if idle { "zsh" } else { "python" }.into(),
                argv0: None,
                argv: None,
                cmdline: None,
                cwd: None,
            }],
        },
    }
}

fn endpoint(method: Method) -> ClientShellAction {
    ClientShellAction::Endpoint { method, kind: PendingEndpointKind::Generic }
}

#[test]
fn pane_close_is_probed_first() {
    let mut s = state();
    let mut out = input();
    let method = Method::PaneClose(PaneTarget { pane_id: "pane_1".into() });
    assert!(s.prepare_running_close(&method, &mut out));
    assert_eq!(
        out.actions,
        vec![ClientShellAction::Endpoint {
            method: Method::PaneProcessInfo(PaneProcessInfoParams { pane_id: Some("pane_1".into()) }),
            kind: PendingEndpointKind::CloseProcessInfo(Box::new(close(false))),
        }]
    );
    assert_eq!(s, state());
}

#[test]
fn single_pane_tab_close_is_probed_and_multi_pane_tab_passes() {
    let mut s = state();
    let mut out = input();
    let single = Method::TabClose(TabTarget { tab_id: "tab_1".into() });
    assert!(s.prepare_running_close(&single, &mut out));
    assert_eq!(
        out.actions,
        vec![ClientShellAction::Endpoint {
            method: Method::PaneProcessInfo(PaneProcessInfoParams { pane_id: Some("pane_1".into()) }),
            kind: PendingEndpointKind::CloseProcessInfo(Box::new(close(true))),
        }]
    );

    let mut out = input();
    let multi = Method::TabClose(TabTarget { tab_id: "tab_2".into() });
    assert!(!s.prepare_running_close(&multi, &mut out));
    assert!(out.actions.is_empty());

    let mut out = input();
    let empty = Method::TabClose(TabTarget { tab_id: "tab_9".into() });
    assert!(s.prepare_running_close(&empty, &mut out));
    assert!(out.actions.is_empty());
}

#[test]
fn probing_needs_the_setting_and_a_snapshot() {
    let method = Method::PaneClose(PaneTarget { pane_id: "pane_1".into() });
    let mut s = state();
    s.confirm_close_running = false;
    let mut out = input();
    assert!(!s.prepare_running_close(&method, &mut out));
    assert!(out.actions.is_empty());

    let mut s = state();
    s.snapshot = None;
    assert!(!s.prepare_running_close(&method, &mut out));
    assert!(!state().prepare_running_close(&Method::Other, &mut out));
    assert!(out.actions.is_empty());
}

#[test]
fn idle_shell_closes_at_once() {
    for tab in [false, true] {
        let mut s = state();
        let (handled, actions) = s.complete_running_close_probe(close(tab), Ok(process_info(true)));
        assert!(handled);
        let expected = if tab {
            Method::TabClose(TabTarget { tab_id: "tab_1".into() })
        } else {
            Method::PaneClose(PaneTarget { pane_id: "pane_1".into() })
        };
        assert_eq!(actions, vec![endpoint(expected)]);
        assert_eq!(s, state());
    }
}

#[test]
fn running_program_asks_for_confirmation_then_closes_the_recorded_target() {
    for tab in [false, true] {
        let mut s = state();
        let (handled, actions) = s.complete_running_close_probe(close(tab), Ok(process_info(false)));
        assert!(handled);
        assert!(actions.is_empty());
        let Some(ClientShellOverlay::ConfirmClose(confirm)) = &s.overlay else {
            panic!("confirmation overlay");
        };
        assert_eq!(confirm.title, if tab { "Close tab?" } else { "Close pane?" });
        assert_eq!(confirm.detail, "pane_1 \u{2014} terminate python");
        assert_eq!(confirm.workspace_id, "");
        assert_eq!(confirm.running_close.as_deref(), Some(&close(tab)));

        let mut out = input();
        s.accept_close_overlay(&mut out);
        assert!(out.repaint);
        assert!(s.overlay.is_none());
        let expected = if tab {
            Method::TabClose(TabTarget { tab_id: "tab_1".into() })
        } else {
            Method::PaneClose(PaneTarget { pane_id: "pane_1".into() })
        };
        assert_eq!(out.actions, vec![endpoint(expected)]);
    }
}

#[test]
fn stale_targets_and_probe_errors_fail_closed() {
    // Pane removed.
    let mut s = state();
    s.snapshot.as_mut().unwrap().panes.remove(0);
    let before = s.clone();
    assert_eq!(s.complete_running_close_probe(close(false), Ok(process_info(true))), (false, vec![]));
    assert_eq!(s, before);

    // Server rebooted.
    let mut s = state();
    s.snapshot.as_mut().unwrap().boot_id = "boot-2".into();
    assert_eq!(s.complete_running_close_probe(close(false), Ok(process_info(true))), (false, vec![]));

    // Another endpoint is active.
    let mut s = state();
    s.active_endpoint_id = "remote".into();
    assert_eq!(s.complete_running_close_probe(close(false), Ok(process_info(true))), (false, vec![]));

    // The tab gained a pane.
    let mut s = state();
    s.snapshot.as_mut().unwrap().panes.push(pane("pane_4", "tab_1"));
    assert_eq!(s.complete_running_close_probe(close(true), Ok(process_info(true))), (false, vec![]));

    // Another overlay is open.
    let mut s = state();
    s.overlay = Some(ClientShellOverlay::Other);
    assert_eq!(s.complete_running_close_probe(close(false), Ok(process_info(true))), (false, vec![]));

    // The probe failed.
    let mut s = state();
    let error = ClientShellEndpointError { code: Some("endpoint_timeout".into()), message: "timeout".into() };
    assert_eq!(s.complete_running_close_probe(close(false), Err(error)), (true, vec![]));
    assert_eq!(s, state());
}

#[test]
fn unusable_probe_responses_report_an_error() {
    let mut s = state();
    assert_eq!(s.complete_running_close_probe(close(false), Ok(ResponseResult::Other)), (true, vec![]));
    assert_eq!(
        s.endpoint_error.as_deref(),
        Some("Cannot inspect the close target's foreground process")
    );

    let mut s = state();
    let ResponseResult::PaneProcessInfo { mut process_info } = process_info(true) else {
        unreachable!()
    };
    process_info.pane_id = "pane_2".into();
    let other = ResponseResult::PaneProcessInfo { process_info: process_info.clone() };
    assert_eq!(s.complete_running_close_probe(close(false), Ok(other)), (true, vec![]));
    assert!(s.endpoint_error.is_some());

    let mut s = state();
    process_info.pane_id = "pane_1".into();
    process_info.foreground_processes.clear();
    let none = ResponseResult::PaneProcessInfo { process_info };
    assert_eq!(s.complete_running_close_probe(close(false), Ok(none)), (true, vec![]));
    assert_eq!(
        s.endpoint_error.as_deref(),
        Some("Cannot determine whether the close target is idle")
    );
    assert!(s.overlay.is_none());
}

#[test]
fn group_leader_decides_over_the_first_process() {
    let mut s = state();
    let info = ResponseResult::PaneProcessInfo {
        process_info: PaneProcessInfo {
            pane_id: "pane_1".into(),
            shell_pid: Some(100),
            foreground_process_group_id: Some(300),
            tty: None,
            foreground_processes: vec![
                PaneProcessInfoProcess {
                    pid: 200,
                    name: "vim".into(),
                    argv0: None,
                    argv: None,
                    cmdline: None,
                    cwd: None,
                },
                PaneProcessInfoProcess {
                    pid: 300,
                    name: "/bin/BASH".into(),
                    argv0: None,
                    argv: None,
                    cmdline: None,
                    cwd: None,
                },
            ],
        },
    };
    let (handled, actions) = s.complete_running_close_probe(close(false), Ok(info));
    assert!(handled);
    assert_eq!(actions.len(), 1);
}

#[test]
fn accepting_a_workspace_confirmation_closes_the_group() {
    let mut s = state();
    s.overlay = Some(ClientShellOverlay::ConfirmClose(ClientConfirmCloseOverlay {
        workspace_id: "ws_1".into(),
        title: "Close workspace?".into(),
        detail: "1 pane".into(),
        running_close: None,
    }));
    let mut out = input();
    s.accept_close_overlay(&mut out);
    assert!(out.repaint);
    assert!(s.overlay.is_none());
    assert_eq!(
        out.actions,
        vec![endpoint(Method::WorkspaceClose(WorkspaceCloseParams {
            workspace_id: "ws_1".into(),
            close_group: true,
        }))]
    );

    // Another overlay is dismissed without any request.
    let mut s = state();
    s.overlay = Some(ClientShellOverlay::Other);
    let mut out = input();
    s.accept_close_overlay(&mut out);
    assert!(s.overlay.is_none());
    assert_eq!(out, input());
}

#[test]
fn accepting_a_stale_close_sends_nothing() {
    let mut s = state();
    s.overlay = Some(ClientShellOverlay::ConfirmClose(ClientConfirmCloseOverlay {
        workspace_id: String::new(),
        title: "Close pane?".into(),
        detail: "pane_1".into(),
        running_close: Some(Box::new(close(false))),
    }));
    s.snapshot.as_mut().unwrap().boot_id = "boot-2".into();
    let mut out = input();
    s.accept_close_overlay(&mut out);
    assert!(out.repaint);
    assert!(out.actions.is_empty());
}

#[test]
fn idle_shell_names() {
    for idle in [
        "sh", "bash", "zsh", "fish", "nu", "ksh", "csh", "tcsh", "elvish", "pwsh", "powershell",
        "powershell.exe", "cmd", "cmd.exe", "/bin/zsh", "C:\\Windows\\System32\\CMD.EXE", "  -bash  ",
        "/usr/local/bin/Fish\n",
    ] {
        assert_eq!(is_idle_shell_command(idle), !idle.contains("-bash"), "{idle:?}");
    }
    for busy in ["python", "vim", "bash5", "zsh/", "", "/bin/", "sh -c"] {
        assert!(!is_idle_shell_command(busy), "{busy:?}");
    }
}

fn running_close_state() -> ClientShellState {
    ClientShellState {
        confirm_close_running: true,
        active_endpoint_id: "local".into(),
        snapshot: Some(ClientSnapshot {
            boot_id: "boot-1".into(),
            panes: vec![pane("pane_1", "tab_1")],
        }),
        overlay: None,
        endpoint_error: None,
    }
}

/// Requests the close of pane_1 (or of tab_1) and returns the close that the
/// queued foreground-process probe records.
fn request_running_close(state: &mut ClientShellState, tab: bool) -> ClientPaneClose {
    let mut outcome = input();
    let method = if tab {
        Method::TabClose(TabTarget { tab_id: "tab_1".into() })
    } else {
        Method::PaneClose(PaneTarget { pane_id: "pane_1".into() })
    };
    assert!(state.prepare_running_close(&method, &mut outcome));
    let [ClientShellAction::Endpoint {
        method: Method::PaneProcessInfo(_),
        kind: PendingEndpointKind::CloseProcessInfo(close),
    }] = &outcome.actions[..]
    else {
        panic!("process probe")
    };
    (**close).clone()
}

fn is_close(action: &ClientShellAction) -> bool {
    matches!(
        action,
        ClientShellAction::Endpoint { method: Method::PaneClose(_) | Method::TabClose(_), .. }
    )
}

#[test]
fn running_close_confirms_an_exec_replaced_shell_and_rejects_unknown_identity() {
    for tab in [false, true] {
        for unknown in [false, true] {
            let mut state = running_close_state();
            let close = request_running_close(&mut state, tab);
            let mut result = process_info(false);
            let ResponseResult::PaneProcessInfo { process_info } = &mut result else {
                panic!("process info");
            };
            process_info.shell_pid = process_info.foreground_process_group_id;
            if unknown {
                process_info.foreground_processes.clear();
            }
            let (_, actions) = state.complete_running_close_probe(close, Ok(result));
            assert!(actions.is_empty());
            if unknown {
                assert!(state.endpoint_error.is_some());
            } else {
                assert!(matches!(state.overlay, Some(ClientShellOverlay::ConfirmClose(_))));
            }
        }
    }
}

#[test]
fn running_close_is_idle_aware_and_fails_closed_on_stale_target_or_probe_error() {
    let mut state = running_close_state();
    let close = request_running_close(&mut state, false);
    let (_, actions) = state.complete_running_close_probe(close, Ok(process_info(true)));
    assert_eq!(actions.len(), 1);
    assert!(state.overlay.is_none());
    for stale in ["removed", "rebooted", "error", "cancel"] {
        let mut state = running_close_state();
        let close = request_running_close(&mut state, false);
        if stale == "error" {
            assert!(state
                .complete_running_close_probe(
                    close,
                    Err(ClientShellEndpointError {
                        code: Some("endpoint_timeout".into()),
                        message: "timeout".into(),
                    })
                )
                .1
                .is_empty());
        } else {
            state.complete_running_close_probe(close, Ok(process_info(false)));
            match stale {
                "removed" => state.snapshot.as_mut().unwrap().panes.clear(),
                "rebooted" => state.snapshot.as_mut().unwrap().boot_id = "boot-2".into(),
                // Escape dismisses the dialog.
                _ => state.overlay = None,
            }
        }
        // Enter accepts whatever dialog is open.
        let mut outcome = input();
        state.accept_close_overlay(&mut outcome);
        assert!(!outcome.actions.iter().any(is_close), "stale close dispatched: {stale}");
    }
}
