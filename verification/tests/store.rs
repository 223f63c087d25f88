use nirius::config::load_config;
use nirius::config::with_config;
use nirius::config::Config;
use nirius::events::handle_event;
use nirius::events::Event;
use nirius::matching::window_matches;
use nirius::cmds::MatchOptions;
use nirius::state::State;
use nirius::state::Window;
use nirius::state::Workspace;
use nirius::strfmt::u64_to_string;

fn win(id: u64, app_id: Option<&str>, title: Option<&str>, focused: bool) -> Window {
    Window {
        id,
        app_id: app_id.map(|s| s.to_string()),
        title: title.map(|s| s.to_string()),
        workspace_id: None,
        is_focused: focused,
        is_floating: false,
    }
}

fn ws(id: u64, idx: u8, output: Option<&str>, focused: bool) -> Workspace {
    Workspace { id, idx, output: output.map(|s| s.to_string()), is_focused: focused }
}

#[test]
fn matching_needs_the_attribute_to_be_present() {
    let q = MatchOptions { app_id: Some("^fire.*".to_string()), title: None };
    assert!(window_matches(&win(1, Some("firefox"), None, false), &q));
    assert!(!window_matches(&win(2, Some("terminal"), None, false), &q));
    // a present filter against a window with no app-id never matches
    assert!(!window_matches(&win(3, None, None, false), &q));
}

#[test]
fn matching_without_filters_matches_everything() {
    let q = MatchOptions { app_id: None, title: None };
    assert!(window_matches(&win(1, None, None, false), &q));
}

#[test]
fn matching_checks_both_filters() {
    let q = MatchOptions { app_id: Some("term".to_string()), title: Some("vim".to_string()) };
    assert!(window_matches(&win(1, Some("terminal"), Some("vim main.rs"), false), &q));
    assert!(!window_matches(&win(2, Some("terminal"), Some("shell"), false), &q));
    assert!(!window_matches(&win(3, Some("terminal"), None, false), &q));
}

#[test]
fn register_window_updates_in_place_and_appends_new_windows() {
    let mut st = State::new();
    let (r, _) = handle_event(
        &mut st,
        Event::WindowOpenedOrChanged { window: win(3, Some("a"), None, false) },
    );
    assert_eq!(r.unwrap(), "Registered window 3. Currently managing 1 windows.");
    let (r2, _) = handle_event(
        &mut st,
        Event::WindowOpenedOrChanged { window: win(1, Some("b"), None, false) },
    );
    assert_eq!(r2.unwrap(), "Registered window 1. Currently managing 2 windows.");
    let (r3, _) = handle_event(
        &mut st,
        Event::WindowOpenedOrChanged { window: win(3, Some("c"), None, false) },
    );
    assert_eq!(r3.unwrap(), "Updated window 3.");
    assert_eq!(st.windows.len(), 2);
    assert_eq!(st.windows[0].id, 3);
    assert_eq!(st.windows[0].app_id.as_deref(), Some("c"));
}

#[test]
fn a_focused_upsert_steals_the_focus_flag() {
    let mut st = State::new();
    st.windows.push(win(1, Some("a"), None, true));
    st.windows.push(win(2, Some("b"), None, false));
    let (_, _) = handle_event(
        &mut st,
        Event::WindowOpenedOrChanged { window: win(2, Some("b"), None, true) },
    );
    assert!(!st.windows[0].is_focused);
    assert!(st.windows[1].is_focused);
}

#[test]
fn focus_change_moves_the_window_to_the_recency_end() {
    let mut st = State::new();
    st.windows.push(win(1, Some("a"), None, false));
    st.windows.push(win(2, Some("b"), None, false));
    st.windows.push(win(3, Some("c"), None, false));
    let (r, _) = handle_event(&mut st, Event::WindowFocusChanged { id: Some(1) });
    assert_eq!(r.unwrap(), "Updated focus to window 1.");
    let ids: Vec<u64> = st.windows.iter().map(|w| w.id).collect();
    assert_eq!(ids, vec![2, 3, 1]);
    assert!(st.windows[2].is_focused);
    let (r2, _) = handle_event(&mut st, Event::WindowFocusChanged { id: None });
    assert_eq!(r2.unwrap(), "No window has focus anymore.");
    assert!(st.windows.iter().all(|w| !w.is_focused));
}

#[test]
fn focus_change_to_an_unknown_id_clears_the_focus() {
    let mut st = State::new();
    st.windows.push(win(1, Some("a"), None, true));
    let (r, _) = handle_event(&mut st, Event::WindowFocusChanged { id: Some(9) });
    assert_eq!(r.unwrap(), "Updated focus (no window is focused).");
    assert!(!st.windows[0].is_focused);
}

#[test]
fn workspace_list_is_replaced_wholesale() {
    let mut st = State::new();
    st.workspaces.push(ws(1, 0, Some("eDP"), true));
    let (r, _) = handle_event(
        &mut st,
        Event::WorkspacesChanged { workspaces: vec![ws(2, 0, Some("DP"), false)] },
    );
    assert_eq!(r.unwrap(), "Updated all workspaces.");
    assert_eq!(st.workspaces.len(), 1);
    assert_eq!(st.workspaces[0].id, 2);
}

#[test]
fn other_events_do_nothing() {
    let mut st = State::new();
    let (r, actions) = handle_event(&mut st, Event::Other);
    assert_eq!(r.unwrap(), "Nothing to do.");
    assert!(actions.is_empty());
}

#[test]
fn bottom_workspace_is_the_highest_index_on_the_output() {
    let mut st = State::new();
    st.workspaces.push(ws(10, 0, Some("eDP"), true));
    st.workspaces.push(ws(11, 2, Some("eDP"), false));
    st.workspaces.push(ws(12, 1, Some("eDP"), false));
    st.workspaces.push(ws(20, 7, Some("DP"), false));
    assert_eq!(st.get_bottom_workspace_id_and_idx_of_output("eDP"), Some((11, 2)));
    assert_eq!(st.get_bottom_workspace_id_and_idx_of_output("DP"), Some((20, 7)));
    assert_eq!(st.get_bottom_workspace_id_and_idx_of_output("HDMI"), None);
}

#[test]
fn bottom_workspace_focus_check_compares_against_the_trailing_workspace() {
    let mut st = State::new();
    st.workspaces.push(ws(10, 0, Some("eDP"), false));
    st.workspaces.push(ws(11, 1, Some("eDP"), true));
    st.workspaces.push(ws(12, 2, Some("eDP"), false));
    assert!(st.is_bottom_workspace_focused());
    st.workspaces[1].is_focused = false;
    st.workspaces[0].is_focused = true;
    assert!(!st.is_bottom_workspace_focused());
}

#[test]
fn focused_ids_come_from_the_flags() {
    let mut st = State::new();
    assert_eq!(st.get_focused_win_id(), None);
    assert_eq!(st.get_focused_workspace_id(), None);
    st.windows.push(win(4, Some("a"), None, true));
    st.workspaces.push(ws(10, 0, Some("eDP"), true));
    assert_eq!(st.get_focused_win_id(), Some(4));
    assert_eq!(st.get_focused_workspace_id(), Some(10));
    assert_eq!(st.get_focused_workspace().map(|w| w.id), Some(10));
}

#[test]
fn decimal_rendering_is_exact() {
    assert_eq!(u64_to_string(0), "0");
    assert_eq!(u64_to_string(7), "7");
    assert_eq!(u64_to_string(1203), "1203");
    assert_eq!(u64_to_string(u64::MAX), "18446744073709551615");
}

#[test]
fn config_loading_falls_back_to_the_default() {
    assert_eq!(load_config(&"".to_string()), Config::default());
    assert_eq!(load_config(&"this is not { toml".to_string()), Config::default());
    assert_eq!(load_config(&"[section]\nkey = 1\n".to_string()), Config {});
}

#[test]
fn with_config_applies_the_closure() {
    let cfg = Config::default();
    let n = with_config(&cfg, |_c| 41 + 1);
    assert_eq!(n, 42);
}
