use nirius::cmds::exec_nirius_cmd;
use nirius::cmds::exec_resume;
use nirius::cmds::Action;
use nirius::cmds::NiriusCmd;
use nirius::cmds::Reply;
use nirius::cmds::Step;
use nirius::events::handle_event;
use nirius::events::Event;
use nirius::state::Mark;
use nirius::state::State;
use nirius::state::Window;
use nirius::state::Workspace;

fn win(id: u64, app_id: &str, focused: bool) -> Window {
    Window {
        id,
        app_id: Some(app_id.to_string()),
        title: None,
        workspace_id: Some(1),
        is_focused: focused,
        is_floating: false,
    }
}

fn ws(id: u64, idx: u8, output: &str, focused: bool) -> Workspace {
    Workspace { id, idx, output: Some(output.to_string()), is_focused: focused }
}

fn done_ok(step: Step) -> String {
    match step {
        Step::Done { result: Ok(m) } => m,
        _ => panic!("expected a finished success"),
    }
}

fn done_err(step: Step) -> String {
    match step {
        Step::Done { result: Err(m) } => m,
        _ => panic!("expected a finished error"),
    }
}

#[test]
fn toggle_follow_mode_is_its_own_inverse() {
    let mut st = State::new();
    st.windows.push(win(5, "term", true));
    st.follow_mode_win_ids = vec![1, 9];
    let s1 = exec_nirius_cmd(&mut st, NiriusCmd::ToggleFollowMode);
    assert_eq!(done_ok(s1), "Enabled follow mode for window 5");
    assert_eq!(st.follow_mode_win_ids, vec![1, 9, 5]);
    let s2 = exec_nirius_cmd(&mut st, NiriusCmd::ToggleFollowMode);
    assert_eq!(done_ok(s2), "Disabled follow mode for window 5");
    assert_eq!(st.follow_mode_win_ids, vec![1, 9]);
}

#[test]
fn toggle_follow_mode_needs_a_focused_window() {
    let mut st = State::new();
    st.windows.push(win(5, "term", false));
    let s = exec_nirius_cmd(&mut st, NiriusCmd::ToggleFollowMode);
    assert_eq!(done_err(s), "No focused window");
}

#[test]
fn toggle_mark_round_trips_the_registry() {
    let mut st = State::new();
    st.windows.push(win(7, "term", true));
    st.marks.push(Mark { name: "m".to_string(), win_ids: vec![5] });
    let cmd = NiriusCmd::ToggleMark { mark: Some("m".to_string()) };
    let s1 = exec_nirius_cmd(&mut st, cmd);
    assert_eq!(done_ok(s1), "Set mark for window 7");
    assert_eq!(st.marks[0].win_ids, vec![5, 7]);
    let cmd2 = NiriusCmd::ToggleMark { mark: Some("m".to_string()) };
    let s2 = exec_nirius_cmd(&mut st, cmd2);
    assert_eq!(done_ok(s2), "Unset mark for window 7");
    assert_eq!(st.marks[0].win_ids, vec![5]);
    assert_eq!(st.marks.len(), 1);
}

#[test]
fn toggle_mark_uses_the_default_mark_without_a_name() {
    let mut st = State::new();
    st.windows.push(win(7, "term", true));
    let s = exec_nirius_cmd(&mut st, NiriusCmd::ToggleMark { mark: None });
    assert_eq!(done_ok(s), "Set mark for window 7");
    assert_eq!(st.marks.len(), 1);
    assert_eq!(st.marks[0].name, "__default__");
    assert_eq!(st.marks[0].win_ids, vec![7]);
    let s2 = exec_nirius_cmd(&mut st, NiriusCmd::ToggleMark { mark: None });
    assert_eq!(done_ok(s2), "Unset mark for window 7");
    assert_eq!(st.marks[0].win_ids, Vec::<u64>::new());
}

#[test]
fn toggle_mark_needs_a_focused_window() {
    let mut st = State::new();
    let s = exec_nirius_cmd(&mut st, NiriusCmd::ToggleMark { mark: None });
    assert_eq!(done_err(s), "No focused window.");
}

#[test]
fn focus_marked_cycles_through_the_marked_windows() {
    let mut st = State::new();
    st.windows.push(win(1, "a", false));
    st.windows.push(win(2, "b", false));
    st.windows.push(win(3, "c", false));
    st.marks.push(Mark { name: "m".to_string(), win_ids: vec![3, 1] });
    let pick = |st: &mut State| {
        let cmd = NiriusCmd::FocusMarked { mark: Some("m".to_string()) };
        match exec_nirius_cmd(st, cmd) {
            Step::Request { action: Action::FocusWindow { id }, .. } => id,
            _ => panic!("expected a focus request"),
        }
    };
    assert_eq!(pick(&mut st), 1);
    assert_eq!(pick(&mut st), 3);
    // both marked windows visited: the cycle restarts
    assert_eq!(pick(&mut st), 1);
}

#[test]
fn focus_marked_unknown_mark_fails() {
    let mut st = State::new();
    st.windows.push(win(1, "a", false));
    let s = exec_nirius_cmd(&mut st, NiriusCmd::FocusMarked { mark: Some("x".to_string()) });
    assert_eq!(done_err(s), "No such mark.");
}

#[test]
fn focus_marked_with_only_stale_ids_fails_and_prunes() {
    let mut st = State::new();
    st.windows.push(win(1, "a", false));
    st.marks.push(Mark { name: "m".to_string(), win_ids: vec![5, 7] });
    let s = exec_nirius_cmd(&mut st, NiriusCmd::FocusMarked { mark: Some("m".to_string()) });
    assert_eq!(done_err(s), "No marked window.");
    assert_eq!(st.marks[0].win_ids, Vec::<u64>::new());
}

#[test]
fn list_marked_drops_stale_ids_and_lists_the_rest() {
    let mut st = State::new();
    st.windows.push(Window {
        id: 5,
        app_id: Some("term".to_string()),
        title: None,
        workspace_id: Some(2),
        is_focused: false,
        is_floating: false,
    });
    st.marks.push(Mark { name: "m".to_string(), win_ids: vec![5, 7] });
    let cmd = NiriusCmd::ListMarked { mark: Some("m".to_string()), all: false };
    let out = done_ok(exec_nirius_cmd(&mut st, cmd));
    assert_eq!(out, "id: 5, app-id: Some(\"term\"), title: None, on workspace: Some(2)\n");
    // window 7 was silently dropped from the registry
    assert_eq!(st.marks[0].win_ids, vec![5]);
}

#[test]
fn list_marked_unknown_mark_fails() {
    let mut st = State::new();
    let cmd = NiriusCmd::ListMarked { mark: Some("m".to_string()), all: false };
    assert_eq!(done_err(exec_nirius_cmd(&mut st, cmd)), "No such mark.");
}

#[test]
fn list_all_marked_lists_every_mark_under_its_name() {
    let mut st = State::new();
    st.windows.push(Window {
        id: 5,
        app_id: Some("term".to_string()),
        title: Some("sh".to_string()),
        workspace_id: None,
        is_focused: false,
        is_floating: false,
    });
    st.marks.push(Mark { name: "a".to_string(), win_ids: vec![5] });
    st.marks.push(Mark { name: "b".to_string(), win_ids: vec![9] });
    let cmd = NiriusCmd::ListMarked { mark: None, all: true };
    let out = done_ok(exec_nirius_cmd(&mut st, cmd));
    assert_eq!(
        out,
        "-> a:\nid: 5, app-id: Some(\"term\"), title: Some(\"sh\"), on workspace: None\n-> b:\n",
    );
    assert_eq!(st.marks[1].win_ids, Vec::<u64>::new());
}

#[test]
fn remove_window_purges_every_registry_at_once() {
    let mut st = State::new();
    st.windows.push(win(1, "a", false));
    st.windows.push(win(2, "b", false));
    st.follow_mode_win_ids = vec![1];
    st.scratchpad_win_ids = vec![2, 1];
    st.visited_win_ids = vec![1];
    st.marks.push(Mark { name: "m".to_string(), win_ids: vec![1, 2] });
    let (r, actions) = handle_event(&mut st, Event::WindowClosed { id: 1 });
    assert_eq!(r.unwrap(), "Removed window with id 1. Currently managing 1 windows.");
    assert!(actions.is_empty());
    assert_eq!(st.windows.len(), 1);
    assert_eq!(st.windows[0].id, 2);
    assert_eq!(st.follow_mode_win_ids, Vec::<u64>::new());
    assert_eq!(st.scratchpad_win_ids, vec![2]);
    assert_eq!(st.visited_win_ids, Vec::<u64>::new());
    assert_eq!(st.marks[0].win_ids, vec![2]);
}

#[test]
fn scratchpad_round_trip_leaves_the_set_as_it_was() {
    let mut st = State::new();
    st.windows.push(win(1, "term", true));
    st.workspaces.push(ws(10, 0, "eDP", true));
    st.workspaces.push(ws(11, 1, "eDP", false));
    // toggle in: float it and relocate it to the bottom workspace
    match exec_nirius_cmd(&mut st, NiriusCmd::ScratchpadToggle) {
        Step::Request { action: Action::ToggleWindowFloating { id }, session } => {
            assert_eq!(id, 1);
            match exec_resume(session, Reply::Handled) {
                Step::Request {
                    action: Action::MoveWindowToWorkspace { window_id, workspace_id, focus },
                    session: s2,
                } => {
                    assert_eq!((window_id, workspace_id, focus), (1, 11, false));
                    let m = done_ok(exec_resume(s2, Reply::Handled));
                    assert_eq!(m, "Moved 1 scratchpad windows to workspace with id 11.");
                },
                _ => panic!("expected the relocation move"),
            }
        },
        _ => panic!("expected a float toggle"),
    }
    assert_eq!(st.scratchpad_win_ids, vec![1]);
    // the compositor reports the window floating, hidden, unfocused
    let (_, _) = handle_event(
        &mut st,
        Event::WindowOpenedOrChanged {
            window: Window {
                id: 1,
                app_id: Some("term".to_string()),
                title: None,
                workspace_id: Some(11),
                is_focused: false,
                is_floating: true,
            },
        },
    );
    // show: the first scratchpad window comes to the focused workspace
    match exec_nirius_cmd(&mut st, NiriusCmd::ScratchpadShow) {
        Step::Request {
            action: Action::MoveWindowToWorkspace { window_id, workspace_id, focus },
            session,
        } => {
            assert_eq!((window_id, workspace_id, focus), (1, 10, true));
            match exec_resume(session, Reply::Handled) {
                Step::Request { action: Action::FocusWindow { id }, session: s2 } => {
                    assert_eq!(id, 1);
                    assert_eq!(done_ok(exec_resume(s2, Reply::Handled)),
                        "Focused window with id 1");
                },
                _ => panic!("expected the focus request"),
            }
        },
        _ => panic!("expected the show move"),
    }
    // showing did not change the scratchpad set
    assert_eq!(st.scratchpad_win_ids, vec![1]);
    let (_, _) = handle_event(&mut st, Event::WindowFocusChanged { id: Some(1) });
    // toggle out: the window leaves the set and stays an ordinary window
    let m = done_ok(exec_nirius_cmd(&mut st, NiriusCmd::ScratchpadToggle));
    assert_eq!(m, "Removed window 1 from scratchpad.");
    assert_eq!(st.scratchpad_win_ids, Vec::<u64>::new());
    // floating was never un-set by the engine
    assert!(st.windows[0].is_floating);
}

#[test]
fn scratchpad_show_with_empty_scratchpad_fails() {
    let mut st = State::new();
    st.windows.push(win(1, "term", false));
    st.workspaces.push(ws(10, 0, "eDP", true));
    let s = exec_nirius_cmd(&mut st, NiriusCmd::ScratchpadShow);
    assert_eq!(done_err(s), "No window in the scratchpad.");
}

#[test]
fn scratchpad_toggle_needs_a_focused_window_and_workspace() {
    let mut st = State::new();
    st.windows.push(win(1, "term", false));
    let s = exec_nirius_cmd(&mut st, NiriusCmd::ScratchpadToggle);
    assert_eq!(done_err(s), "No focused window.");
    st.windows[0].is_focused = true;
    let s2 = exec_nirius_cmd(&mut st, NiriusCmd::ScratchpadToggle);
    assert_eq!(done_err(s2), "No workspace is focused.");
}

#[test]
fn scratchpad_relocation_follows_insertion_order_and_skips_floating() {
    let mut st = State::new();
    let mut w4 = win(4, "a", false);
    w4.is_floating = true;
    st.windows.push(w4);
    st.windows.push(win(2, "b", true));
    st.workspaces.push(ws(10, 0, "eDP", true));
    st.workspaces.push(ws(11, 1, "eDP", false));
    st.scratchpad_win_ids = vec![4];
    // window 2 joins; relocation walks [4, 2] in insertion order
    match exec_nirius_cmd(&mut st, NiriusCmd::ScratchpadToggle) {
        Step::Request {
            action: Action::MoveWindowToWorkspace { window_id, workspace_id, focus },
            session,
        } => {
            // window 4 is already floating: no toggle for it
            assert_eq!((window_id, workspace_id, focus), (4, 11, false));
            match exec_resume(session, Reply::Handled) {
                Step::Request { action: Action::ToggleWindowFloating { id }, session: s2 } => {
                    assert_eq!(id, 2);
                    match exec_resume(s2, Reply::Handled) {
                        Step::Request {
                            action: Action::MoveWindowToWorkspace { window_id: w2, .. },
                            session: s3,
                        } => {
                            assert_eq!(w2, 2);
                            let m = done_ok(exec_resume(s3, Reply::Handled));
                            assert_eq!(
                                m,
                                "Moved 2 scratchpad windows to workspace with id 11.",
                            );
                        },
                        _ => panic!("expected the second move"),
                    }
                },
                _ => panic!("expected the float toggle of window 2"),
            }
        },
        _ => panic!("expected the first move"),
    }
    assert_eq!(st.scratchpad_win_ids, vec![4, 2]);
}

#[test]
fn workspace_activation_moves_follow_mode_windows() {
    let mut st = State::new();
    st.windows.push(win(4, "a", false));
    st.windows.push(win(5, "b", false));
    st.workspaces.push(ws(10, 0, "eDP", true));
    st.workspaces.push(ws(11, 1, "eDP", false));
    st.follow_mode_win_ids = vec![4, 5];
    let (r, actions) = handle_event(&mut st, Event::WorkspaceActivated { id: 11, focused: true });
    assert_eq!(r.unwrap(), "Moved 2 follow-mode windows.");
    assert_eq!(actions.len(), 2);
    match &actions[0] {
        Action::MoveWindowToWorkspace { window_id, workspace_id, focus } => {
            assert_eq!((*window_id, *workspace_id, *focus), (4, 11, true));
        },
        _ => panic!("expected a move"),
    }
    match &actions[1] {
        Action::MoveWindowToWorkspace { window_id, .. } => assert_eq!(*window_id, 5),
        _ => panic!("expected a move"),
    }
    assert!(st.workspaces[1].is_focused);
    assert!(!st.workspaces[0].is_focused);
}

#[test]
fn focus_cycling_survives_interleaved_focus_events() {
    let mut st = State::new();
    st.windows.push(win(1, "term", false));
    st.windows.push(win(2, "term", false));
    st.windows.push(win(3, "term", false));
    let focus_cmd = || NiriusCmd::Focus {
        match_opts: nirius::cmds::MatchOptions {
            app_id: Some("term".to_string()),
            title: None,
        },
    };
    let mut seen = Vec::new();
    for _ in 0..3 {
        let id = match exec_nirius_cmd(&mut st, focus_cmd()) {
            Step::Request { action: Action::FocusWindow { id }, .. } => id,
            _ => panic!("expected a focus request"),
        };
        seen.push(id);
        // the compositor reports the focus change back
        let (_, _) = handle_event(&mut st, Event::WindowFocusChanged { id: Some(id) });
    }
    // all three windows were visited once before any repeat
    let mut sorted = seen.clone();
    sorted.sort();
    assert_eq!(sorted, vec![1, 2, 3]);
    // the fourth invocation starts a new cycle
    let id4 = match exec_nirius_cmd(&mut st, focus_cmd()) {
        Step::Request { action: Action::FocusWindow { id }, .. } => id,
        _ => panic!("expected a focus request"),
    };
    assert!(seen.contains(&id4));
}
