//! The event synchronizer's decision core: one compositor event comes in,
//! the store is updated, and the follow-mode moves the event gives rise to
//! go back out as [`Action`] values for the caller to perform (their
//! failures are logged there, never fatal).

use vstd::prelude::*;

use crate::cmds::Action;
use crate::state::State;
use crate::state::Window;
use crate::state::Workspace;
use crate::state::spec_focus_changed_post;
use crate::state::spec_register_post;
use crate::state::spec_remove_post;
use crate::state::spec_workspace_focused_post;
use crate::state::spec_workspaces_changed_post;
use crate::strfmt::msg_u64;
use crate::strfmt::spec_u64_string;

verus! {

/// A compositor event, reduced to what the synchronizer reads.
pub enum Event {
    /// A window appeared or changed; the store upserts it.
    WindowOpenedOrChanged { window: Window },
    /// A window closed; the store purges its id everywhere.
    WindowClosed { id: u64 },
    /// The window focus moved (or was dropped); the store follows.
    WindowFocusChanged { id: Option<u64> },
    /// The workspace list changed; the store replaces it wholesale.
    WorkspacesChanged { workspaces: Vec<Workspace> },
    /// A workspace was activated; when it gained the focus, every
    /// follow-mode window is moved after it.
    WorkspaceActivated { id: u64, focused: bool },
    /// Any other event kind: nothing to do.
    Other,
}

/// The action is a focus-carrying move of window `wid` to workspace `ws`.
pub open spec fn spec_is_follow_move(a: Action, wid: u64, ws: u64) -> bool {
    a matches Action::MoveWindowToWorkspace { window_id, workspace_id, focus } && window_id == wid
        && workspace_id == ws && focus == true
}

/// What handling one event does to the store, and which follow-mode moves
/// it asks for: exactly the corresponding store operation, plus — for a
/// focus-gaining workspace — one move action per follow-mode window, in
/// follow-mode order.
pub open spec fn spec_handle_event_post(
    pre: State,
    post: State,
    event: Event,
    r: Result<String, String>,
    actions: Seq<Action>,
) -> bool {
    match event {
        Event::WindowOpenedOrChanged { window } => spec_register_post(pre, post, window, r)
            && actions.len() == 0,
        Event::WindowClosed { id } => spec_remove_post(pre, post, id, r) && actions.len() == 0,
        Event::WindowFocusChanged { id } => spec_focus_changed_post(pre, post, id, r)
            && actions.len() == 0,
        Event::WorkspacesChanged { workspaces } => spec_workspaces_changed_post(
            pre,
            post,
            workspaces,
            r,
        ) && actions.len() == 0,
        Event::WorkspaceActivated { id, focused } => {
            if focused {
                &&& spec_workspace_focused_post(pre, post, id)
                &&& actions.len() == pre.follow_mode_win_ids@.len()
                &&& forall|j: int|
                    0 <= j < actions.len() ==> spec_is_follow_move(
                        #[trigger] actions[j],
                        pre.follow_mode_win_ids@[j],
                        id,
                    )
                &&& r matches Ok(m) && m@ == "Moved "@ + spec_u64_string(
                    pre.follow_mode_win_ids@.len() as int,
                ) + " follow-mode windows."@
            } else {
                &&& post == pre
                &&& actions.len() == 0
                &&& r matches Ok(m) && m@ == "Nothing to do."@
            }
        },
        Event::Other => {
            &&& post == pre
            &&& actions.len() == 0
            &&& r matches Ok(m) && m@ == "Nothing to do."@
        },
    }
}

/// Applies one compositor event to the store and returns the message to
/// log together with the follow-mode moves to perform.
pub fn handle_event(state: &mut State, event: Event) -> (r: (Result<String, String>, Vec<Action>))
    requires
        old(state).wf(),
    ensures
        final(state).wf(),
        old(state).consistent() ==> final(state).consistent(),
        spec_handle_event_post(*old(state), *final(state), event, r.0, r.1@),
{
    match event {
        Event::WindowOpenedOrChanged { window } => {
            let res = state.register_window(window);
            (res, Vec::new())
        },
        Event::WindowClosed { id } => {
            let res = state.remove_window(&id);
            (res, Vec::new())
        },
        Event::WindowFocusChanged { id } => {
            let res = state.window_focus_changed(id);
            (res, Vec::new())
        },
        Event::WorkspacesChanged { workspaces } => {
            let res = state.workspaces_changed(workspaces);
            (res, Vec::new())
        },
        Event::WorkspaceActivated { id, focused } => {
            if focused {
                state.workspace_focused(id);
                let mut actions: Vec<Action> = Vec::new();
                let follow = &state.follow_mode_win_ids;
                let mut j: usize = 0;
                while j < follow.len()
                    invariant
                        j <= follow@.len(),
                        follow@ == state.follow_mode_win_ids@,
                        actions@.len() == j,
                        forall|p: int|
                            0 <= p < j ==> spec_is_follow_move(
                                #[trigger] actions@[p],
                                follow@[p],
                                id,
                            ),
                    decreases follow@.len() - j,
                {
                    actions.push(
                        Action::MoveWindowToWorkspace {
                            window_id: follow[j],
                            workspace_id: id,
                            focus: true,
                        },
                    );
                    j += 1;
                }
                let n = follow.len();
                (Ok(msg_u64("Moved ", n as u64, " follow-mode windows.")), actions)
            } else {
                (Ok("Nothing to do.".to_owned()), Vec::new())
            }
        },
        Event::Other => (Ok("Nothing to do.".to_owned()), Vec::new()),
    }
}

} // verus!
