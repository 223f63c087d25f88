use nirius::cmds::exec_nirius_cmd;
use nirius::cmds::exec_resume;
use nirius::cmds::Action;
use nirius::cmds::MatchOptions;
use nirius::cmds::NiriusCmd;
use nirius::cmds::Reply;
use nirius::cmds::Session;
use nirius::cmds::Step;
use nirius::state::State;
use nirius::state::Window;
use nirius::state::Workspace;
use nirius::cmds::ScratchItem;

fn win(id: u64, app_id: &str, focused: bool) -> Window {
    Window {
        id,
        app_id: Some(app_id.to_string()),
        title: None,
        workspace_id: Some(1),
        is_focused: focused,
        is_floating: false,
    }
}

fn ws(id: u64, idx: u8, output: &str, focused: bool) -> Workspace {
    Workspace { id, idx, output: Some(output.to_string()), is_focused: focused }
}

fn focus_cmd(app: &str) -> NiriusCmd {
    NiriusCmd::Focus {
        match_opts: MatchOptions { app_id: Some(app.to_string()), title: None },
    }
}

fn chosen_id(step: &Step) -> u64 {
    match step {
        Step::Request { action: Action::FocusWindow { id }, session: Session::AwaitFocus { .. } } => {
            *id
        },
        _ => panic!("expected a focus-window request"),
    }
}

fn done_err(step: Step) -> String {
    match step {
        Step::Done { result: Err(m) } => m,
        _ => panic!("expected a finished error"),
    }
}

fn three_term_windows() -> State {
    let mut st = State::new();
    st.windows.push(win(1, "term", false));
    st.windows.push(win(2, "term", false));
    st.windows.push(win(3, "term", false));
    st
}

#[test]
fn focus_cycles_through_all_matches_then_restarts() {
    let mut st = three_term_windows();
    let s1 = exec_nirius_cmd(&mut st, focus_cmd("term"));
    assert_eq!(chosen_id(&s1), 1);
    let s2 = exec_nirius_cmd(&mut st, focus_cmd("term"));
    assert_eq!(chosen_id(&s2), 2);
    let s3 = exec_nirius_cmd(&mut st, focus_cmd("term"));
    assert_eq!(chosen_id(&s3), 3);
    // every match visited: the cycle resets and starts over at the lowest id
    let s4 = exec_nirius_cmd(&mut st, focus_cmd("term"));
    assert_eq!(chosen_id(&s4), 1);
    assert_eq!(st.visited_win_ids, vec![1]);
}

#[test]
fn other_command_between_focuses_resets_the_cycle() {
    let mut st = three_term_windows();
    let s1 = exec_nirius_cmd(&mut st, focus_cmd("term"));
    assert_eq!(chosen_id(&s1), 1);
    let s2 = exec_nirius_cmd(&mut st, focus_cmd("term"));
    assert_eq!(chosen_id(&s2), 2);
    let nop = exec_nirius_cmd(&mut st, NiriusCmd::Nop);
    match nop {
        Step::Done { result: Ok(m) } => assert_eq!(m, ""),
        _ => panic!("Nop must finish successfully"),
    }
    // the memory was cleared: the next focus revisits window 1 at once
    let s3 = exec_nirius_cmd(&mut st, focus_cmd("term"));
    assert_eq!(chosen_id(&s3), 1);
}

#[test]
fn focused_window_is_never_chosen_first() {
    let mut st = State::new();
    st.windows.push(win(1, "term", true));
    st.windows.push(win(2, "term", false));
    let s1 = exec_nirius_cmd(&mut st, focus_cmd("term"));
    assert_eq!(chosen_id(&s1), 2);
}

#[test]
fn focus_reply_is_turned_into_the_result_message() {
    let mut st = three_term_windows();
    let step = exec_nirius_cmd(&mut st, focus_cmd("term"));
    match step {
        Step::Request { action: Action::FocusWindow { id }, session } => {
            assert_eq!(id, 1);
            match exec_resume(session, Reply::Handled) {
                Step::Done { result: Ok(m) } => assert_eq!(m, "Focused window with id 1"),
                _ => panic!("expected success"),
            }
        },
        _ => panic!("expected a focus request"),
    }
}

#[test]
fn unexpected_reply_and_transport_error_fail_the_command() {
    let s = exec_resume(
        Session::AwaitFocus { id: 9 },
        Reply::Unexpected { text: "Output(...)".to_string() },
    );
    assert_eq!(done_err(s), "Received unexpected reply Output(...)");
    let s2 = exec_resume(Session::AwaitFocus { id: 9 }, Reply::Error { text: "boom".to_string() });
    assert_eq!(done_err(s2), "boom");
}

#[test]
fn focus_without_match_fails_distinguishably() {
    let mut st = three_term_windows();
    let step = exec_nirius_cmd(&mut st, focus_cmd("editor"));
    assert_eq!(done_err(step), "No matching window.");
}

#[test]
fn invalid_filter_is_a_domain_error() {
    let mut st = three_term_windows();
    let step = exec_nirius_cmd(&mut st, focus_cmd("("));
    assert_eq!(done_err(step), "Invalid filter.");
}

#[test]
fn focus_or_spawn_spawns_only_when_nothing_matches() {
    let mut st = three_term_windows();
    let cmd = NiriusCmd::FocusOrSpawn {
        match_opts: MatchOptions { app_id: Some("editor".to_string()), title: None },
        command: vec!["emacs".to_string()],
    };
    match exec_nirius_cmd(&mut st, cmd) {
        Step::Request { action: Action::Spawn { command }, session: Session::AwaitSpawn } => {
            assert_eq!(command, vec!["emacs".to_string()]);
            match exec_resume(Session::AwaitSpawn, Reply::Handled) {
                Step::Done { result: Ok(m) } => assert_eq!(m, "Spawned successfully"),
                _ => panic!("expected success"),
            }
        },
        _ => panic!("expected a spawn request"),
    }
    // with a match it focuses and never spawns
    let cmd2 = NiriusCmd::FocusOrSpawn {
        match_opts: MatchOptions { app_id: Some("term".to_string()), title: None },
        command: vec!["emacs".to_string()],
    };
    let step = exec_nirius_cmd(&mut st, cmd2);
    assert_eq!(chosen_id(&step), 1);
}

#[test]
fn move_to_current_workspace_picks_lowest_id_from_elsewhere() {
    let mut st = State::new();
    let mut w3 = win(3, "term", false);
    w3.workspace_id = Some(2);
    let mut w5 = win(5, "term", false);
    w5.workspace_id = Some(7);
    let mut w2 = win(2, "term", false);
    w2.workspace_id = Some(7);  // the focused workspace: not eligible
    st.windows.push(w3);
    st.windows.push(w5);
    st.windows.push(w2);
    st.workspaces.push(ws(7, 0, "eDP", true));
    let cmd = NiriusCmd::MoveToCurrentWorkspace {
        match_opts: MatchOptions { app_id: Some("term".to_string()), title: None },
        focus: true,
    };
    match exec_nirius_cmd(&mut st, cmd) {
        Step::Request {
            action: Action::MoveWindowToWorkspace { window_id, workspace_id, focus },
            session,
        } => {
            assert_eq!(window_id, 3);
            assert_eq!(workspace_id, 7);
            assert!(focus);
            // the move reply settles the message, the follow-up focus is issued
            match exec_resume(session, Reply::Handled) {
                Step::Request { action: Action::FocusWindow { id }, session: s2 } => {
                    assert_eq!(id, 3);
                    match exec_resume(s2, Reply::Handled) {
                        Step::Done { result: Ok(m) } => assert_eq!(m, "Moved successfully"),
                        _ => panic!("expected success"),
                    }
                },
                _ => panic!("expected the follow-up focus"),
            }
        },
        _ => panic!("expected a move request"),
    }
}

#[test]
fn move_without_focused_workspace_fails() {
    let mut st = three_term_windows();
    let cmd = NiriusCmd::MoveToCurrentWorkspace {
        match_opts: MatchOptions { app_id: Some("term".to_string()), title: None },
        focus: false,
    };
    assert_eq!(done_err(exec_nirius_cmd(&mut st, cmd)), "No focused workspace.");
}

#[test]
fn move_or_spawn_falls_back_to_spawning() {
    let mut st = State::new();
    st.workspaces.push(ws(7, 0, "eDP", true));
    let cmd = NiriusCmd::MoveToCurrentWorkspaceOrSpawn {
        match_opts: MatchOptions { app_id: Some("term".to_string()), title: None },
        focus: false,
        command: vec!["foot".to_string()],
    };
    match exec_nirius_cmd(&mut st, cmd) {
        Step::Request { action: Action::Spawn { command }, session: Session::AwaitSpawn } => {
            assert_eq!(command, vec!["foot".to_string()]);
        },
        _ => panic!("expected a spawn request"),
    }
}

#[test]
fn move_without_focus_flag_finishes_after_the_move_reply() {
    let s = exec_resume(
        Session::AwaitMove { win_id: 3, focus_after: false },
        Reply::Handled,
    );
    match s {
        Step::Done { result: Ok(m) } => assert_eq!(m, "Moved successfully"),
        _ => panic!("expected success"),
    }
    let s2 = exec_resume(
        Session::AwaitMove { win_id: 3, focus_after: false },
        Reply::Error { text: "gone".to_string() },
    );
    assert_eq!(done_err(s2), "gone");
}

#[test]
fn move_focus_failure_wins_over_the_move_result() {
    // the follow-up focus failed: its error replaces the move's outcome
    let s = exec_resume(
        Session::AwaitMoveFocus { move_result: Ok("Moved successfully".to_string()) },
        Reply::Unexpected { text: "Output(...)".to_string() },
    );
    assert_eq!(done_err(s), "Received unexpected reply Output(...)");
}

#[test]
fn scratch_relocation_stops_on_a_transport_error() {
    let queue = vec![
        ScratchItem { id: 1, needs_float_toggle: true },
        ScratchItem { id: 2, needs_float_toggle: false },
    ];
    // a transport error while toggling aborts the relocation
    let s = exec_resume(
        Session::AwaitScratchToggle { queue, idx: 0, ws_id: 11 },
        Reply::Error { text: "gone".to_string() },
    );
    assert_eq!(done_err(s), "gone");
    // an unexpected reply to the float toggle is tolerated: the move follows
    let queue2 = vec![ScratchItem { id: 1, needs_float_toggle: true }];
    let s2 = exec_resume(
        Session::AwaitScratchToggle { queue: queue2, idx: 0, ws_id: 11 },
        Reply::Unexpected { text: "Output(...)".to_string() },
    );
    match s2 {
        Step::Request {
            action: Action::MoveWindowToWorkspace { window_id, workspace_id, focus },
            ..
        } => assert_eq!((window_id, workspace_id, focus), (1, 11, false)),
        _ => panic!("expected the move to follow"),
    }
}
