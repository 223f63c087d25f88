//! The command engine: the commands a client can send, the compositor
//! actions they give rise to, and the execution of a command as a small
//! dialogue — the engine decides, the caller performs each [`Action`]
//! against the compositor and hands the outcome back as a [`Reply`].

use vstd::prelude::*;

use crate::matching::filters_valid;
use crate::matching::spec_filters_valid;
use crate::matching::spec_window_matches;
use crate::matching::window_matches;
use crate::state::Mark;
use crate::state::State;
use crate::state::Window;
use crate::state::Workspace;
use crate::state::clone_opt_string;
use crate::state::contains_id;
use crate::state::find_window_index;
use crate::state::lemma_filter_u64_props;
use crate::state::lemma_present_pruned;
use crate::state::spec_ids_present;
use crate::state::lemma_present_push;
use crate::state::lemma_present_subset;
use crate::state::lemma_purge_props;
use crate::state::ne_pred;
use crate::state::no_dup_ids;
use crate::state::remove_id;
use crate::state::spec_focused_win_id;
use crate::state::spec_has_win_id;
use crate::strfmt::dbg_opt_str;
use crate::strfmt::dbg_opt_u64;
use crate::strfmt::msg_u64;
use crate::strfmt::msg_u64_end;
use crate::strfmt::msg_u64_u64;
use crate::strfmt::spec_dbg_opt_str;
use crate::strfmt::spec_dbg_opt_u64;
use crate::strfmt::spec_u64_string;
use vstd::string::StringExecFns;

verus! {

/// Filters a command uses to pick windows: each one, when present, is a
/// regular expression matched against the window's app-id or title.
pub struct MatchOptions {
    pub app_id: Option<String>,
    pub title: Option<String>,
}

/// A command sent by the client.
pub enum NiriusCmd {
    /// Focus a window matching the options, cycling through the matches on
    /// repeated invocations.
    Focus { match_opts: MatchOptions },
    /// Like `Focus`, but when nothing matches, spawn the given command line.
    FocusOrSpawn { match_opts: MatchOptions, command: Vec<String> },
    /// Move a matching window from another workspace to the focused one,
    /// optionally focusing it afterwards.
    MoveToCurrentWorkspace { match_opts: MatchOptions, focus: bool },
    /// Like `MoveToCurrentWorkspace`, but when nothing matches, spawn the
    /// given command line.
    MoveToCurrentWorkspaceOrSpawn { match_opts: MatchOptions, focus: bool, command: Vec<String> },
    /// Enrol the focused window in follow mode, or remove it again.
    ToggleFollowMode,
    /// Mark or unmark the focused window under the given (or default) mark.
    ToggleMark { mark: Option<String> },
    /// Focus a window carrying the given (or default) mark, cycling through
    /// the marked windows on repeated invocations.
    FocusMarked { mark: Option<String> },
    /// List the windows of the given (or default) mark, or of every mark.
    ListMarked { mark: Option<String>, all: bool },
    /// Put the focused window into the scratchpad, or take it out again.
    ScratchpadToggle,
    /// Bring a scratchpad window to the focused workspace, or hide the
    /// focused window again if it is a scratchpad window.
    ScratchpadShow,
    /// Does nothing; breaks the chain of identical commands and thereby
    /// resets the focus-cycling memory.
    Nop,
}

/// A request the engine asks the caller to perform against the compositor.
pub enum Action {
    FocusWindow { id: u64 },
    Spawn { command: Vec<String> },
    MoveWindowToWorkspace { window_id: u64, workspace_id: u64, focus: bool },
    ToggleWindowFloating { id: u64 },
}

/// What came back from performing an [`Action`]: the compositor handled it,
/// answered with something else (its debug rendering), or the request
/// failed with an error message.
pub enum Reply {
    Handled,
    Unexpected { text: String },
    Error { text: String },
}

/// One window the scratchpad relocation still has to move, and whether it
/// must be toggled to floating first.
#[derive(PartialEq, Eq, Structural)]
pub struct ScratchItem {
    pub id: u64,
    pub needs_float_toggle: bool,
}

/// Where an execution stands while it waits for the [`Reply`] to the action
/// it just requested.
pub enum Session {
    /// A focus-window action was requested; `id` is the window.
    AwaitFocus { id: u64 },
    /// A spawn action was requested.
    AwaitSpawn,
    /// The move of `MoveToCurrentWorkspace` was requested.
    AwaitMove { win_id: u64, focus_after: bool },
    /// The follow-up focus of `MoveToCurrentWorkspace` was requested;
    /// `move_result` is the already-decided outcome of the move itself.
    AwaitMoveFocus { move_result: Result<String, String> },
    /// The move of `ScratchpadShow` was requested.
    AwaitShowMove { win_id: u64 },
    /// A float-toggle of the scratchpad relocation was requested for
    /// `queue[idx]`.
    AwaitScratchToggle { queue: Vec<ScratchItem>, idx: usize, ws_id: u64 },
    /// The move of the scratchpad relocation was requested for `queue[idx]`.
    AwaitScratchMove { queue: Vec<ScratchItem>, idx: usize, ws_id: u64 },
}

/// What the engine wants next: either perform `action` and resume with
/// [`exec_resume`] under `session`, or the command is finished with
/// `result`.
pub enum Step {
    Request { action: Action, session: Session },
    Done { result: Result<String, String> },
}

/// Content equality of optional strings.
pub open spec fn same_opt_str(a: Option<String>, b: Option<String>) -> bool {
    match (a, b) {
        (Option::None, Option::None) => true,
        (Option::Some(x), Option::Some(y)) => x@ == y@,
        _ => false,
    }
}

/// Content equality of string sequences.
pub open spec fn same_str_seq(a: Seq<String>, b: Seq<String>) -> bool {
    a.len() == b.len() && (forall|i: int| 0 <= i < a.len() ==> a[i]@ == b[i]@)
}

/// Content equality of match options.
pub open spec fn same_match_opts(a: MatchOptions, b: MatchOptions) -> bool {
    same_opt_str(a.app_id, b.app_id) && same_opt_str(a.title, b.title)
}

/// Structural equality of two commands: same kind and same parameters.
/// The engine clears its focus-cycling memory exactly when the incoming
/// command is not `same_cmd` as the previous one.
pub open spec fn same_cmd(a: NiriusCmd, b: NiriusCmd) -> bool {
    match (a, b) {
        (
            NiriusCmd::Focus { match_opts: ma },
            NiriusCmd::Focus { match_opts: mb },
        ) => same_match_opts(ma, mb),
        (
            NiriusCmd::FocusOrSpawn { match_opts: ma, command: ca },
            NiriusCmd::FocusOrSpawn { match_opts: mb, command: cb },
        ) => same_match_opts(ma, mb) && same_str_seq(ca@, cb@),
        (
            NiriusCmd::MoveToCurrentWorkspace { match_opts: ma, focus: fa },
            NiriusCmd::MoveToCurrentWorkspace { match_opts: mb, focus: fb },
        ) => same_match_opts(ma, mb) && fa == fb,
        (
            NiriusCmd::MoveToCurrentWorkspaceOrSpawn { match_opts: ma, focus: fa, command: ca },
            NiriusCmd::MoveToCurrentWorkspaceOrSpawn { match_opts: mb, focus: fb, command: cb },
        ) => same_match_opts(ma, mb) && fa == fb && same_str_seq(ca@, cb@),
        (NiriusCmd::ToggleFollowMode, NiriusCmd::ToggleFollowMode) => true,
        (
            NiriusCmd::ToggleMark { mark: ma },
            NiriusCmd::ToggleMark { mark: mb },
        ) => same_opt_str(ma, mb),
        (
            NiriusCmd::FocusMarked { mark: ma },
            NiriusCmd::FocusMarked { mark: mb },
        ) => same_opt_str(ma, mb),
        (
            NiriusCmd::ListMarked { mark: ma, all: aa },
            NiriusCmd::ListMarked { mark: mb, all: ab },
        ) => same_opt_str(ma, mb) && aa == ab,
        (NiriusCmd::ScratchpadToggle, NiriusCmd::ScratchpadToggle) => true,
        (NiriusCmd::ScratchpadShow, NiriusCmd::ScratchpadShow) => true,
        (NiriusCmd::Nop, NiriusCmd::Nop) => true,
        _ => false,
    }
}

/// Decides [`same_opt_str`].
pub fn opt_str_eq(a: &Option<String>, b: &Option<String>) -> (r: bool)
    ensures
        r == same_opt_str(*a, *b),
{
    match (a, b) {
        (Option::None, Option::None) => true,
        (Option::Some(x), Option::Some(y)) => x.eq(y),
        _ => false,
    }
}

/// Decides [`same_str_seq`].
pub fn str_vec_eq(a: &Vec<String>, b: &Vec<String>) -> (r: bool)
    ensures
        r == same_str_seq(a@, b@),
{
    if a.len() != b.len() {
        return false;
    }
    let mut i: usize = 0;
    while i < a.len()
        invariant
            a@.len() == b@.len(),
            i <= a@.len(),
            forall|j: int| 0 <= j < i ==> a@[j]@ == b@[j]@,
        decreases a@.len() - i,
    {
        if !a[i].eq(&b[i]) {
            return false;
        }
        i += 1;
    }
    true
}

/// Decides [`same_match_opts`].
pub fn match_opts_eq(a: &MatchOptions, b: &MatchOptions) -> (r: bool)
    ensures
        r == same_match_opts(*a, *b),
{
    opt_str_eq(&a.app_id, &b.app_id) && opt_str_eq(&a.title, &b.title)
}

/// Decides [`same_cmd`]: the comparison the engine makes between the
/// incoming command and the previous one before each dispatch.
pub fn cmd_eq(a: &NiriusCmd, b: &NiriusCmd) -> (r: bool)
    ensures
        r == same_cmd(*a, *b),
{
    match (a, b) {
        (
            NiriusCmd::Focus { match_opts: ma },
            NiriusCmd::Focus { match_opts: mb },
        ) => match_opts_eq(ma, mb),
        (
            NiriusCmd::FocusOrSpawn { match_opts: ma, command: ca },
            NiriusCmd::FocusOrSpawn { match_opts: mb, command: cb },
        ) => match_opts_eq(ma, mb) && str_vec_eq(ca, cb),
        (
            NiriusCmd::MoveToCurrentWorkspace { match_opts: ma, focus: fa },
            NiriusCmd::MoveToCurrentWorkspace { match_opts: mb, focus: fb },
        ) => match_opts_eq(ma, mb) && *fa == *fb,
        (
            NiriusCmd::MoveToCurrentWorkspaceOrSpawn { match_opts: ma, focus: fa, command: ca },
            NiriusCmd::MoveToCurrentWorkspaceOrSpawn { match_opts: mb, focus: fb, command: cb },
        ) => match_opts_eq(ma, mb) && *fa == *fb && str_vec_eq(ca, cb),
        (NiriusCmd::ToggleFollowMode, NiriusCmd::ToggleFollowMode) => true,
        (
            NiriusCmd::ToggleMark { mark: ma },
            NiriusCmd::ToggleMark { mark: mb },
        ) => opt_str_eq(ma, mb),
        (
            NiriusCmd::FocusMarked { mark: ma },
            NiriusCmd::FocusMarked { mark: mb },
        ) => opt_str_eq(ma, mb),
        (
            NiriusCmd::ListMarked { mark: ma, all: aa },
            NiriusCmd::ListMarked { mark: mb, all: ab },
        ) => opt_str_eq(ma, mb) && *aa == *ab,
        (NiriusCmd::ScratchpadToggle, NiriusCmd::ScratchpadToggle) => true,
        (NiriusCmd::ScratchpadShow, NiriusCmd::ScratchpadShow) => true,
        (NiriusCmd::Nop, NiriusCmd::Nop) => true,
        _ => false,
    }
}

/// The mark name a command names: the given one, or the default mark.
pub open spec fn spec_mark_name(m: Option<String>) -> Seq<char> {
    match m {
        Some(s) => s@,
        None => "__default__"@,
    }
}

/// Resolves an optional mark name to [`spec_mark_name`].
pub fn resolve_mark(m: &Option<String>) -> (r: String)
    ensures
        r@ == spec_mark_name(*m),
{
    match m {
        Option::Some(s) => s.clone(),
        Option::None => "__default__".to_owned(),
    }
}

/// Some mark in `marks` carries this name.
pub open spec fn spec_has_mark(marks: Seq<Mark>, name: Seq<char>) -> bool {
    exists|k: int| 0 <= k < marks.len() && marks[k].name@ == name
}

/// The position of the mark named `name`, if present.
pub fn find_mark_index(marks: &Vec<Mark>, name: &String) -> (r: Option<usize>)
    ensures
        match r {
            Some(k) => k < marks@.len() && marks@[k as int].name@ == name@,
            None => !spec_has_mark(marks@, name@),
        },
{
    let mut k: usize = 0;
    while k < marks.len()
        invariant
            k <= marks@.len(),
            forall|j: int| 0 <= j < k ==> marks@[j].name@ != name@,
        decreases marks@.len() - k,
    {
        if marks[k].name.eq(name) {
            return Some(k);
        }
        k += 1;
    }
    None
}

/// An exact copy of a string list (a command line).
pub fn clone_string_vec(v: &Vec<String>) -> (r: Vec<String>)
    ensures
        r@ == v@,
{
    let mut out: Vec<String> = Vec::new();
    let mut i: usize = 0;
    while i < v.len()
        invariant
            i <= v@.len(),
            out@ == v@.take(i as int),
        decreases v@.len() - i,
    {
        out.push(v[i].clone());
        proof {
            assert(out@ =~= v@.take(i as int + 1));
        }
        i += 1;
    }
    proof {
        assert(v@.take(v@.len() as int) =~= v@);
    }
    out
}

/// Toggling membership of `id` in an ordered id list: removal keeps the
/// order of the rest, insertion appends at the newest end.
pub open spec fn spec_toggle_in(ids: Seq<u64>, id: u64) -> Seq<u64> {
    if ids.contains(id) {
        ids.filter(ne_pred(id))
    } else {
        ids.push(id)
    }
}

/// `j` is one of the candidate indices.
pub open spec fn spec_idx_in(cands: Seq<usize>, j: int) -> bool {
    exists|p: int| 0 <= p < cands.len() && cands[p] as int == j
}

/// The candidate order of the cycle: the focused window sorts last, then
/// already-visited windows after unvisited ones, and ties break by
/// ascending id.  `a` comes strictly before `b`.
pub open spec fn spec_better(a: Window, b: Window, visited: Seq<u64>) -> bool {
    if a.is_focused != b.is_focused {
        !a.is_focused
    } else if visited.contains(a.id) != visited.contains(b.id) {
        !visited.contains(a.id)
    } else {
        a.id < b.id
    }
}

/// `ci` indexes a candidate that sorts before every other candidate.
pub open spec fn spec_is_best(
    windows: Seq<Window>,
    cands: Seq<usize>,
    visited: Seq<u64>,
    ci: int,
) -> bool {
    &&& 0 <= ci < windows.len()
    &&& spec_idx_in(cands, ci)
    &&& forall|q: int|
        0 <= q < cands.len() && windows[#[trigger] cands[q] as int].id != windows[ci].id
            ==> spec_better(windows[ci], windows[cands[q] as int], visited)
}

/// Decides [`spec_better`].
fn better(a: &Window, b: &Window, visited: &Vec<u64>) -> (r: bool)
    ensures
        r == spec_better(*a, *b, visited@),
{
    if a.is_focused != b.is_focused {
        !a.is_focused
    } else {
        let va = contains_id(visited, a.id);
        let vb = contains_id(visited, b.id);
        if va != vb {
            !va
        } else {
            a.id < b.id
        }
    }
}

/// The candidate order is transitive over windows with distinct ids.
proof fn lemma_better_trans(a: Window, b: Window, c: Window, visited: Seq<u64>)
    requires
        spec_better(a, b, visited),
        spec_better(b, c, visited),
        a.id != b.id,
        b.id != c.id,
        a.id != c.id,
    ensures
        spec_better(a, c, visited),
{
}

/// The indices of the windows matching the query, in window order.
pub fn matching_candidates(windows: &Vec<Window>, opts: &MatchOptions) -> (r: Vec<usize>)
    requires
        spec_filters_valid(*opts),
    ensures
        forall|p: int, q: int| 0 <= p < q < r@.len() ==> r@[p] < r@[q],
        forall|p: int| 0 <= p < r@.len() ==> (#[trigger] r@[p]) < windows@.len(),
        forall|p: int|
            0 <= p < r@.len() ==> spec_window_matches(windows@[#[trigger] r@[p] as int], *opts),
        forall|j: int|
            0 <= j < windows@.len() ==> (spec_idx_in(r@, j) <==> spec_window_matches(
                windows@[j],
                *opts,
            )),
{
    let mut out: Vec<usize> = Vec::new();
    let mut i: usize = 0;
    while i < windows.len()
        invariant
            i <= windows@.len(),
            spec_filters_valid(*opts),
            forall|p: int, q: int| 0 <= p < q < out@.len() ==> out@[p] < out@[q],
            forall|p: int| 0 <= p < out@.len() ==> (#[trigger] out@[p]) < i,
            forall|p: int|
                0 <= p < out@.len() ==> spec_window_matches(
                    windows@[#[trigger] out@[p] as int],
                    *opts,
                ),
            forall|j: int|
                0 <= j < i ==> (spec_idx_in(out@, j) <==> spec_window_matches(
                    windows@[j],
                    *opts,
                )),
        decreases windows@.len() - i,
    {
        let ghost pre = out@;
        if window_matches(&windows[i], opts) {
            out.push(i);
        }
        proof {
            assert forall|j: int|
                0 <= j < i + 1 implies (spec_idx_in(out@, j) <==> spec_window_matches(
                windows@[j],
                *opts,
            )) by {
                if j < i {
                    if spec_idx_in(out@, j) {
                        let p = choose|p: int| 0 <= p < out@.len() && out@[p] as int == j;
                        assert(pre[p] as int == j || out@[p] as int == j);
                        if p < pre.len() {
                            assert(spec_idx_in(pre, j));
                        } else {
                            assert(out@[p] as int == i as int);
                        }
                    }
                    if spec_window_matches(windows@[j], *opts) {
                        assert(spec_idx_in(pre, j));
                        let p = choose|p: int| 0 <= p < pre.len() && pre[p] as int == j;
                        assert(out@[p] as int == j);
                        assert(spec_idx_in(out@, j));
                    }
                } else {
                    if spec_window_matches(windows@[j], *opts) {
                        assert(out@[out@.len() - 1] as int == j);
                        assert(spec_idx_in(out@, j));
                    } else {
                        if spec_idx_in(out@, j) {
                            let p = choose|p: int| 0 <= p < out@.len() && out@[p] as int == j;
                            if p < pre.len() {
                                assert(pre[p] < i);
                            }
                            assert(false);
                        }
                    }
                }
            }
        }
        i += 1;
    }
    out
}

/// Picks the candidate that sorts first; fails only on an empty candidate
/// list.
fn select_best(windows: &Vec<Window>, cands: &Vec<usize>, visited: &Vec<u64>) -> (r: Option<
    usize,
>)
    requires
        forall|p: int| 0 <= p < cands@.len() ==> (#[trigger] cands@[p]) < windows@.len(),
        forall|p: int, q: int| 0 <= p < q < cands@.len() ==> cands@[p] < cands@[q],
        crate::state::win_ids_unique(windows@),
    ensures
        match r {
            Some(ci) => spec_is_best(windows@, cands@, visited@, ci as int),
            None => cands@.len() == 0,
        },
{
    if cands.len() == 0 {
        return None;
    }
    let mut best: usize = cands[0];
    let ghost mut bp: int = 0;
    let mut q: usize = 1;
    while q < cands.len()
        invariant
            1 <= q <= cands@.len(),
            forall|p: int| 0 <= p < cands@.len() ==> (#[trigger] cands@[p]) < windows@.len(),
            forall|p: int, q2: int| 0 <= p < q2 < cands@.len() ==> cands@[p] < cands@[q2],
            crate::state::win_ids_unique(windows@),
            0 <= bp < q && cands@[bp] == best,
            forall|p: int|
                0 <= p < q && windows@[#[trigger] cands@[p] as int].id != windows@[best as int].id
                    ==> spec_better(
                    windows@[best as int],
                    windows@[cands@[p] as int],
                    visited@,
                ),
        decreases cands@.len() - q,
    {
        let cq = cands[q];
        let ghost oldbest = best;
        if better(&windows[cq], &windows[best], visited) {
            proof {
                assert(cands@[bp] < cands@[q as int]);
                assert(windows@[cq as int].id != windows@[oldbest as int].id);
                let cqid = windows@[cq as int].id;
                assert forall|p: int|
                    0 <= p < q + 1 && windows@[#[trigger] cands@[p] as int].id != cqid
                    implies spec_better(
                    windows@[cq as int],
                    windows@[cands@[p] as int],
                    visited@,
                ) by {
                    if p < q {
                        let wp = windows@[cands@[p] as int];
                        if wp.id != windows@[oldbest as int].id {
                            lemma_better_trans(
                                windows@[cq as int],
                                windows@[oldbest as int],
                                wp,
                                visited@,
                            );
                        }
                    }
                }
            }
            best = cq;
            proof {
                bp = q as int;
            }
        } else {
            proof {
                assert(cands@[bp] < cands@[q as int]);
                assert(windows@[cq as int].id != windows@[best as int].id);
                assert(spec_better(
                    windows@[best as int],
                    windows@[cq as int],
                    visited@,
                ));
            }
        }
        q += 1;
    }
    proof {
        assert(spec_idx_in(cands@, best as int));
    }
    Some(best)
}

/// Every candidate is already visited (or is the `extra` id, which counts
/// as visited).
pub open spec fn spec_all_cands_visited(
    windows: Seq<Window>,
    cands: Seq<usize>,
    visited: Seq<u64>,
    extra: Option<u64>,
) -> bool {
    forall|p: int|
        0 <= p < cands.len() ==> visited.contains(windows[#[trigger] cands[p] as int].id) || (
        extra matches Some(e) && windows[cands[p] as int].id == e)
}

/// Decides [`spec_all_cands_visited`].
fn all_cands_visited(
    windows: &Vec<Window>,
    cands: &Vec<usize>,
    visited: &Vec<u64>,
    extra: Option<u64>,
) -> (r: bool)
    requires
        forall|p: int| 0 <= p < cands@.len() ==> (#[trigger] cands@[p]) < windows@.len(),
    ensures
        r == spec_all_cands_visited(windows@, cands@, visited@, extra),
{
    let mut p: usize = 0;
    while p < cands.len()
        invariant
            p <= cands@.len(),
            forall|p2: int| 0 <= p2 < cands@.len() ==> (#[trigger] cands@[p2]) < windows@.len(),
            forall|p2: int|
                0 <= p2 < p ==> visited@.contains(windows@[#[trigger] cands@[p2] as int].id) || (
                extra matches Some(e) && windows@[cands@[p2] as int].id == e),
        decreases cands@.len() - p,
    {
        let wid = windows[cands[p]].id;
        let is_extra: bool = match extra {
            Some(e) => wid == e,
            None => false,
        };
        if !is_extra && !contains_id(visited, wid) {
            return false;
        }
        p += 1;
    }
    true
}

/// Every window matching the query is already in the cycling memory.
pub open spec fn spec_all_matching_visited(
    ws: Seq<Window>,
    opts: MatchOptions,
    visited: Seq<u64>,
) -> bool {
    forall|j: int|
        0 <= j < ws.len() && spec_window_matches(#[trigger] ws[j], opts) ==> visited.contains(
            ws[j].id,
        )
}

/// No window matches the query.
pub open spec fn spec_no_match(ws: Seq<Window>, opts: MatchOptions) -> bool {
    forall|j: int| 0 <= j < ws.len() ==> !spec_window_matches(#[trigger] ws[j], opts)
}

/// The windows, workspaces and all registries but the cycling memory are
/// untouched.
pub open spec fn spec_frames(pre: State, post: State) -> bool {
    &&& post.windows == pre.windows
    &&& post.workspaces == pre.workspaces
    &&& post.follow_mode_win_ids == pre.follow_mode_win_ids
    &&& post.scratchpad_win_ids == pre.scratchpad_win_ids
    &&& post.marks == pre.marks
}

/// The step is a finished command with this error message.
pub open spec fn spec_step_err(step: Step, m: Seq<char>) -> bool {
    step matches Step::Done { result: Result::Err(e) } && e@ == m
}

/// The step is a finished command with this success message.
pub open spec fn spec_step_ok(step: Step, m: Seq<char>) -> bool {
    step matches Step::Done { result: Result::Ok(s) } && s@ == m
}

/// What the focus selection decides, starting from cycling memory `v0`:
/// an invalid filter and an empty match set fail without touching the
/// memory; otherwise the memory is reset when every match was already
/// visited, the best candidate in the [`spec_better`] order is chosen,
/// and its id is recorded in the memory unless already there.
pub open spec fn spec_focus_choice(
    pre: State,
    v0: Seq<u64>,
    post: State,
    opts: MatchOptions,
    r: FocusOutcome,
) -> bool {
    let ws = pre.windows@;
    if !spec_filters_valid(opts) {
        post.visited_win_ids@ == v0 && r is InvalidFilter
    } else if spec_no_match(ws, opts) {
        post.visited_win_ids@ == v0 && r is NoMatch
    } else {
        let v1 = if spec_all_matching_visited(ws, opts, v0) {
            Seq::<u64>::empty()
        } else {
            v0
        };
        &&& r matches FocusOutcome::Chosen { id }
        &&& exists|ci: int|
            {
                &&& 0 <= ci < ws.len() && (#[trigger] ws[ci]).id == r->id
                &&& spec_window_matches(ws[ci], opts)
                &&& forall|j: int|
                    0 <= j < ws.len() && spec_window_matches(#[trigger] ws[j], opts) && ws[j].id
                        != r->id ==> spec_better(ws[ci], ws[j], v1)
            }
        &&& post.visited_win_ids@ == (if v1.contains(r->id) {
            v1
        } else {
            v1.push(r->id)
        })
    }
}

/// The outcome of the focus selection.
pub enum FocusOutcome {
    InvalidFilter,
    NoMatch,
    Chosen { id: u64 },
}

/// Runs the focus selection against the store: computes the match set,
/// resets the cycling memory on a completed cycle, picks the best
/// candidate and records it.
fn focus_select(state: &mut State, opts: &MatchOptions) -> (r: FocusOutcome)
    requires
        old(state).wf(),
    ensures
        final(state).wf(),
        old(state).consistent() ==> final(state).consistent(),
        spec_frames(*old(state), *final(state)),
        final(state).last_cmd == old(state).last_cmd,
        spec_focus_choice(*old(state), old(state).visited_win_ids@, *final(state), *opts, r),
{
    if !filters_valid(opts) {
        return FocusOutcome::InvalidFilter;
    }
    let cands = matching_candidates(&state.windows, opts);
    if cands.len() == 0 {
        proof {
            assert forall|j: int|
                0 <= j < state.windows@.len() implies !spec_window_matches(
                #[trigger] state.windows@[j],
                *opts,
            ) by {
                if spec_window_matches(state.windows@[j], *opts) {
                    assert(spec_idx_in(cands@, j));
                    let p = choose|p: int| 0 <= p < cands@.len() && cands@[p] as int == j;
                    assert(false);
                }
            }
        }
        return FocusOutcome::NoMatch;
    }
    let ghost ws = state.windows@;
    let ghost v0 = state.visited_win_ids@;
    proof {
        assert(spec_window_matches(ws[cands@[0] as int], *opts));
        assert(!spec_no_match(ws, *opts));
    }
    if all_cands_visited(&state.windows, &cands, &state.visited_win_ids, None) {
        proof {
            assert forall|j: int|
                0 <= j < ws.len() && spec_window_matches(#[trigger] ws[j], *opts) implies
                v0.contains(ws[j].id) by {
                assert(spec_idx_in(cands@, j));
                let p = choose|p: int| 0 <= p < cands@.len() && cands@[p] as int == j;
                assert(v0.contains(ws[cands@[p] as int].id));
            }
        }
        state.visited_win_ids.clear();
    } else {
        proof {
            let p = choose|p: int|
                0 <= p < cands@.len() && !(v0.contains(ws[#[trigger] cands@[p] as int].id) || (
                Option::<u64>::None matches Some(e) && ws[cands@[p] as int].id == e));
            assert(spec_window_matches(ws[cands@[p] as int], *opts));
            assert(!spec_all_matching_visited(ws, *opts, v0));
        }
    }
    let ghost v1 = state.visited_win_ids@;
    let sel_opt = select_best(&state.windows, &cands, &state.visited_win_ids);
    let sel = sel_opt.unwrap();
    let id = state.windows[sel].id;
    if !contains_id(&state.visited_win_ids, id) {
        state.visited_win_ids.push(id);
        proof {
            assert forall|i2: int, j2: int|
                0 <= i2 < j2 < state.visited_win_ids@.len() implies state.visited_win_ids@[i2]
                != state.visited_win_ids@[j2] by {
                if j2 == state.visited_win_ids@.len() - 1 {
                    assert(v1.contains(v1[i2]));
                }
            }
        }
    }
    proof {
        assert(spec_is_best(ws, cands@, v1, sel as int));
        assert forall|j: int|
            0 <= j < ws.len() && spec_window_matches(#[trigger] ws[j], *opts) && ws[j].id != id
            implies spec_better(ws[sel as int], ws[j], v1) by {
            assert(spec_idx_in(cands@, j));
            let p = choose|p: int| 0 <= p < cands@.len() && cands@[p] as int == j;
            assert(ws[cands@[p] as int].id != ws[sel as int].id);
        }
        if old(state).consistent() {
            // the memory holds present ids: it is the old memory or empty,
            // plus perhaps the chosen window's id
            assert(spec_ids_present(ws, v1));
            assert(ws[sel as int].id == id);
            assert(spec_has_win_id(ws, id));
            lemma_present_push(ws, v1, id);
            assert(spec_ids_present(ws, state.visited_win_ids@));
        }
    }
    FocusOutcome::Chosen { id }
}

/// What `Focus` does: the focus selection, turned into a compositor
/// request for the chosen window or a finished failure.
pub open spec fn spec_focus_post(
    pre: State,
    v0: Seq<u64>,
    post: State,
    opts: MatchOptions,
    step: Step,
) -> bool {
    &&& spec_frames(pre, post)
    &&& if !spec_filters_valid(opts) {
        post.visited_win_ids@ == v0 && spec_step_err(step, "Invalid filter."@)
    } else if spec_no_match(pre.windows@, opts) {
        post.visited_win_ids@ == v0 && spec_step_err(step, "No matching window."@)
    } else {
        exists|id: u64|
            {
                &&& spec_focus_choice(pre, v0, post, opts, FocusOutcome::Chosen { id })
                &&& #[trigger] spec_step_focus(step, id)
            }
    }
}

/// The step requests focusing window `id` and waits for the reply.
pub open spec fn spec_step_focus(step: Step, id: u64) -> bool {
    step matches Step::Request {
        action: Action::FocusWindow { id: aid },
        session: Session::AwaitFocus { id: sid },
    } && aid == id && sid == id
}

/// Focuses the best window matching the query, cycling through the
/// matches on repeated identical commands.
pub fn focus(state: &mut State, match_opts: &MatchOptions) -> (step: Step)
    requires
        old(state).wf(),
    ensures
        final(state).wf(),
        old(state).consistent() ==> final(state).consistent(),
        final(state).last_cmd == old(state).last_cmd,
        spec_focus_post(
            *old(state),
            old(state).visited_win_ids@,
            *final(state),
            *match_opts,
            step,
        ),
{
    match focus_select(state, match_opts) {
        FocusOutcome::InvalidFilter => Step::Done { result: Err("Invalid filter.".to_owned()) },
        FocusOutcome::NoMatch => Step::Done { result: Err("No matching window.".to_owned()) },
        FocusOutcome::Chosen { id } => {
            let step = Step::Request {
                action: Action::FocusWindow { id },
                session: Session::AwaitFocus { id },
            };
            proof {
                assert(spec_step_focus(step, id));
            }
            step
        },
    }
}

/// What `FocusOrSpawn` does: like `Focus`, except that an empty match set
/// requests spawning the given command line instead of failing.
pub open spec fn spec_focus_or_spawn_post(
    pre: State,
    v0: Seq<u64>,
    post: State,
    opts: MatchOptions,
    cmdline: Seq<String>,
    step: Step,
) -> bool {
    &&& spec_frames(pre, post)
    &&& if !spec_filters_valid(opts) {
        post.visited_win_ids@ == v0 && spec_step_err(step, "Invalid filter."@)
    } else if spec_no_match(pre.windows@, opts) {
        &&& post.visited_win_ids@ == v0
        &&& step matches Step::Request {
            action: Action::Spawn { command },
            session: Session::AwaitSpawn,
        } && same_str_seq(command@, cmdline)
    } else {
        exists|id: u64|
            {
                &&& spec_focus_choice(pre, v0, post, opts, FocusOutcome::Chosen { id })
                &&& #[trigger] spec_step_focus(step, id)
            }
    }
}

/// Focuses the best matching window, or spawns the command line when
/// nothing matches.
pub fn focus_or_spawn(state: &mut State, match_opts: &MatchOptions, command: &Vec<String>) -> (step:
    Step)
    requires
        old(state).wf(),
    ensures
        final(state).wf(),
        old(state).consistent() ==> final(state).consistent(),
        final(state).last_cmd == old(state).last_cmd,
        spec_focus_or_spawn_post(
            *old(state),
            old(state).visited_win_ids@,
            *final(state),
            *match_opts,
            command@,
            step,
        ),
{
    match focus_select(state, match_opts) {
        FocusOutcome::InvalidFilter => Step::Done { result: Err("Invalid filter.".to_owned()) },
        FocusOutcome::NoMatch => Step::Request {
            action: Action::Spawn { command: clone_string_vec(command) },
            session: Session::AwaitSpawn,
        },
        FocusOutcome::Chosen { id } => {
            let step = Step::Request {
                action: Action::FocusWindow { id },
                session: Session::AwaitFocus { id },
            };
            proof {
                assert(spec_step_focus(step, id));
            }
            step
        },
    }
}

/// A window `MoveToCurrentWorkspace` considers: it matches the query and
/// does not already sit on the focused workspace.
pub open spec fn spec_move_eligible(w: Window, opts: MatchOptions, fwsid: u64) -> bool {
    spec_window_matches(w, opts) && (match w.workspace_id {
        Some(wid) => wid != fwsid,
        None => true,
    })
}

/// No window is eligible for the move.
pub open spec fn spec_no_move_candidate(ws: Seq<Window>, opts: MatchOptions, fwsid: u64) -> bool {
    forall|j: int| 0 <= j < ws.len() ==> !spec_move_eligible(#[trigger] ws[j], opts, fwsid)
}

/// The step requests moving window `win_id` to workspace `ws_id` and waits
/// for the reply; `fcs` asks for a follow-up focus.
pub open spec fn spec_step_move(step: Step, win_id: u64, ws_id: u64, fcs: bool) -> bool {
    step matches Step::Request {
        action: Action::MoveWindowToWorkspace { window_id, workspace_id, focus },
        session: Session::AwaitMove { win_id: sw, focus_after },
    } && window_id == win_id && workspace_id == ws_id && focus == fcs && sw == win_id
        && focus_after == fcs
}

/// What `MoveToCurrentWorkspace` does: without a focused workspace or with
/// an invalid filter it fails; otherwise it requests moving the eligible
/// window with the lowest id to the focused workspace — a one-shot choice,
/// deliberately without the cycling memory.
pub open spec fn spec_move_post(pre: State, opts: MatchOptions, fcs: bool, step: Step) -> bool {
    let ws = pre.windows@;
    match crate::state::spec_focused_ws_id(pre.workspaces@) {
        None => spec_step_err(step, "No focused workspace."@),
        Some(fwsid) => {
            if !spec_filters_valid(opts) {
                spec_step_err(step, "Invalid filter."@)
            } else if spec_no_move_candidate(ws, opts, fwsid) {
                spec_step_err(step, "No matching window."@)
            } else {
                exists|ci: int|
                    {
                        &&& 0 <= ci < ws.len() && spec_move_eligible(#[trigger] ws[ci], opts, fwsid)
                        &&& forall|j: int|
                            0 <= j < ws.len() && spec_move_eligible(#[trigger] ws[j], opts, fwsid)
                                && ws[j].id != ws[ci].id ==> ws[ci].id < ws[j].id
                        &&& spec_step_move(step, ws[ci].id, fwsid, fcs)
                    }
            }
        },
    }
}

/// Like [`spec_move_post`], except that an empty candidate set requests
/// spawning the command line instead of failing.
pub open spec fn spec_move_or_spawn_post(
    pre: State,
    opts: MatchOptions,
    fcs: bool,
    cmdline: Seq<String>,
    step: Step,
) -> bool {
    let ws = pre.windows@;
    match crate::state::spec_focused_ws_id(pre.workspaces@) {
        None => spec_step_err(step, "No focused workspace."@),
        Some(fwsid) => {
            if !spec_filters_valid(opts) {
                spec_step_err(step, "Invalid filter."@)
            } else if spec_no_move_candidate(ws, opts, fwsid) {
                step matches Step::Request {
                    action: Action::Spawn { command },
                    session: Session::AwaitSpawn,
                } && same_str_seq(command@, cmdline)
            } else {
                exists|ci: int|
                    {
                        &&& 0 <= ci < ws.len() && spec_move_eligible(#[trigger] ws[ci], opts, fwsid)
                        &&& forall|j: int|
                            0 <= j < ws.len() && spec_move_eligible(#[trigger] ws[j], opts, fwsid)
                                && ws[j].id != ws[ci].id ==> ws[ci].id < ws[j].id
                        &&& spec_step_move(step, ws[ci].id, fwsid, fcs)
                    }
            }
        },
    }
}

/// The selection `MoveToCurrentWorkspace` makes.
enum MoveOutcome {
    NoFocusedWs,
    InvalidFilter,
    NoMatch,
    Chosen { id: u64, ws_id: u64 },
}

/// Picks the eligible window with the lowest id, or reports why none can
/// be picked.
fn move_select(state: &State, opts: &MatchOptions) -> (r: MoveOutcome)
    requires
        state.wf(),
    ensures
        ({
            let ws = state.windows@;
            match crate::state::spec_focused_ws_id(state.workspaces@) {
                None => r is NoFocusedWs,
                Some(fwsid) => {
                    if !spec_filters_valid(*opts) {
                        r is InvalidFilter
                    } else if spec_no_move_candidate(ws, *opts, fwsid) {
                        r is NoMatch
                    } else {
                        &&& r matches MoveOutcome::Chosen { id, ws_id }
                        &&& r->ws_id == fwsid
                        &&& exists|ci: int|
                            {
                                &&& 0 <= ci < ws.len() && (#[trigger] ws[ci]).id == r->id
                                &&& spec_move_eligible(ws[ci], *opts, fwsid)
                                &&& forall|j: int|
                                    0 <= j < ws.len() && spec_move_eligible(
                                        #[trigger] ws[j],
                                        *opts,
                                        fwsid,
                                    ) && ws[j].id != r->id ==> r->id < ws[j].id
                            }
                    }
                },
            }
        }),
{
    let fwsid: u64 = match state.get_focused_workspace_id() {
        None => {
            return MoveOutcome::NoFocusedWs;
        },
        Some(x) => x,
    };
    if !filters_valid(opts) {
        return MoveOutcome::InvalidFilter;
    }
    let mut best: Option<usize> = None;
    let ghost ws = state.windows@;
    let mut i: usize = 0;
    while i < state.windows.len()
        invariant
            i <= ws.len(),
            ws == state.windows@,
            state.wf(),
            spec_filters_valid(*opts),
            match best {
                Some(bi) => bi < i && spec_move_eligible(ws[bi as int], *opts, fwsid) && (forall|
                    j: int,
                |
                    0 <= j < i && spec_move_eligible(#[trigger] ws[j], *opts, fwsid) && ws[j].id
                        != ws[bi as int].id ==> ws[bi as int].id < ws[j].id),
                None => forall|j: int|
                    0 <= j < i ==> !spec_move_eligible(#[trigger] ws[j], *opts, fwsid),
            },
        decreases ws.len() - i,
    {
        let w = &state.windows[i];
        let eligible: bool = window_matches(w, opts) && (match w.workspace_id {
            Some(wid) => wid != fwsid,
            None => true,
        });
        if eligible {
            match best {
                Some(bi) => {
                    if w.id < state.windows[bi].id {
                        best = Some(i);
                    }
                },
                None => {
                    best = Some(i);
                },
            }
        }
        i += 1;
    }
    match best {
        Some(bi) => MoveOutcome::Chosen { id: state.windows[bi].id, ws_id: fwsid },
        None => MoveOutcome::NoMatch,
    }
}

/// Moves the lowest-id matching window from another workspace to the
/// focused one; `focus` asks for a follow-up focus of that window.
pub fn move_to_current_workspace(state: &State, match_opts: &MatchOptions, focus: bool) -> (step:
    Step)
    requires
        state.wf(),
    ensures
        spec_move_post(*state, *match_opts, focus, step),
{
    match move_select(state, match_opts) {
        MoveOutcome::NoFocusedWs => Step::Done {
            result: Err("No focused workspace.".to_owned()),
        },
        MoveOutcome::InvalidFilter => Step::Done { result: Err("Invalid filter.".to_owned()) },
        MoveOutcome::NoMatch => Step::Done { result: Err("No matching window.".to_owned()) },
        MoveOutcome::Chosen { id, ws_id } => {
            let step = Step::Request {
                action: Action::MoveWindowToWorkspace {
                    window_id: id,
                    workspace_id: ws_id,
                    focus,
                },
                session: Session::AwaitMove { win_id: id, focus_after: focus },
            };
            proof {
                assert(spec_step_move(step, id, ws_id, focus));
            }
            step
        },
    }
}

/// Like [`move_to_current_workspace`], but when nothing is eligible,
/// requests spawning the command line.
pub fn move_to_current_workspace_or_spawn(
    state: &State,
    match_opts: &MatchOptions,
    focus: bool,
    command: &Vec<String>,
) -> (step: Step)
    requires
        state.wf(),
    ensures
        spec_move_or_spawn_post(*state, *match_opts, focus, command@, step),
{
    match move_select(state, match_opts) {
        MoveOutcome::NoFocusedWs => Step::Done {
            result: Err("No focused workspace.".to_owned()),
        },
        MoveOutcome::InvalidFilter => Step::Done { result: Err("Invalid filter.".to_owned()) },
        MoveOutcome::NoMatch => Step::Request {
            action: Action::Spawn { command: clone_string_vec(command) },
            session: Session::AwaitSpawn,
        },
        MoveOutcome::Chosen { id, ws_id } => {
            let step = Step::Request {
                action: Action::MoveWindowToWorkspace {
                    window_id: id,
                    workspace_id: ws_id,
                    focus,
                },
                session: Session::AwaitMove { win_id: id, focus_after: focus },
            };
            proof {
                assert(spec_step_move(step, id, ws_id, focus));
            }
            step
        },
    }
}

/// The predicate "a window with this id is present", the shape every
/// prune filters with.
pub open spec fn present_pred(ws: Seq<Window>) -> spec_fn(u64) -> bool {
    |x: u64| spec_has_win_id(ws, x)
}

/// Whether a window with this id is present.
pub fn has_window(windows: &Vec<Window>, id: u64) -> (r: bool)
    ensures
        r == spec_has_win_id(windows@, id),
{
    match find_window_index(windows, id) {
        Some(_) => true,
        None => false,
    }
}

/// Drops every id that names no present window, keeping the order of the
/// rest.
pub fn prune_ids(v: &mut Vec<u64>, windows: &Vec<Window>)
    ensures
        final(v)@ == old(v)@.filter(present_pred(windows@)),
{
    let mut out: Vec<u64> = Vec::new();
    let mut i: usize = 0;
    while i < v.len()
        invariant
            i <= v@.len(),
            out@ == v@.take(i as int).filter(present_pred(windows@)),
        decreases v@.len() - i,
    {
        let ghost pre = v@.take(i as int);
        proof {
            assert(v@.take(i as int + 1) =~= pre.push(v@[i as int]));
        }
        if has_window(windows, v[i]) {
            out.push(v[i]);
        }
        proof {
            pre.lemma_filter_push(v@[i as int], present_pred(windows@));
        }
        i += 1;
    }
    proof {
        assert(v@.take(v@.len() as int) =~= v@);
    }
    *v = out;
}

/// The indices of the windows whose id stands in `ids`, in window order.
pub fn marked_candidates(windows: &Vec<Window>, ids: &Vec<u64>) -> (r: Vec<usize>)
    ensures
        forall|p: int, q: int| 0 <= p < q < r@.len() ==> r@[p] < r@[q],
        forall|p: int| 0 <= p < r@.len() ==> (#[trigger] r@[p]) < windows@.len(),
        forall|p: int|
            0 <= p < r@.len() ==> ids@.contains(windows@[#[trigger] r@[p] as int].id),
        forall|j: int|
            0 <= j < windows@.len() ==> (spec_idx_in(r@, j) <==> ids@.contains(windows@[j].id)),
{
    let mut out: Vec<usize> = Vec::new();
    let mut i: usize = 0;
    while i < windows.len()
        invariant
            i <= windows@.len(),
            forall|p: int, q: int| 0 <= p < q < out@.len() ==> out@[p] < out@[q],
            forall|p: int| 0 <= p < out@.len() ==> (#[trigger] out@[p]) < i,
            forall|p: int|
                0 <= p < out@.len() ==> ids@.contains(windows@[#[trigger] out@[p] as int].id),
            forall|j: int|
                0 <= j < i ==> (spec_idx_in(out@, j) <==> ids@.contains(windows@[j].id)),
        decreases windows@.len() - i,
    {
        let ghost pre = out@;
        if contains_id(ids, windows[i].id) {
            out.push(i);
        }
        proof {
            assert forall|j: int|
                0 <= j < i + 1 implies (spec_idx_in(out@, j) <==> ids@.contains(
                windows@[j].id,
            )) by {
                if j < i {
                    if spec_idx_in(out@, j) {
                        let p = choose|p: int| 0 <= p < out@.len() && out@[p] as int == j;
                        if p < pre.len() {
                            assert(spec_idx_in(pre, j));
                        } else {
                            assert(out@[p] as int == i as int);
                        }
                    }
                    if ids@.contains(windows@[j].id) {
                        assert(spec_idx_in(pre, j));
                        let p = choose|p: int| 0 <= p < pre.len() && pre[p] as int == j;
                        assert(out@[p] as int == j);
                        assert(spec_idx_in(out@, j));
                    }
                } else {
                    if ids@.contains(windows@[j].id) {
                        assert(out@[out@.len() - 1] as int == j);
                        assert(spec_idx_in(out@, j));
                    } else {
                        if spec_idx_in(out@, j) {
                            let p = choose|p: int| 0 <= p < out@.len() && out@[p] as int == j;
                            if p < pre.len() {
                                assert(pre[p] < i);
                            }
                            assert(false);
                        }
                    }
                }
            }
        }
        i += 1;
    }
    out
}

/// Every window carrying one of these ids is already visited, the focused
/// window counting as visited even when unmarked.
pub open spec fn spec_marked_all_visited(
    ws: Seq<Window>,
    ids: Seq<u64>,
    visited: Seq<u64>,
) -> bool {
    forall|j: int|
        0 <= j < ws.len() && ids.contains((#[trigger] ws[j]).id) ==> visited.contains(ws[j].id)
            || (spec_focused_win_id(ws) matches Some(f) && ws[j].id == f)
}

/// One line of a mark listing: the window's id, app-id, title and
/// workspace.
pub open spec fn spec_win_line(w: Window) -> Seq<char> {
    "id: "@ + spec_u64_string(w.id as int) + ", app-id: "@ + spec_dbg_opt_str(w.app_id)
        + ", title: "@ + spec_dbg_opt_str(w.title) + ", on workspace: "@ + spec_dbg_opt_u64(
        w.workspace_id,
    ) + "\n"@
}

/// The listing of the windows whose id stands in `ids`, one line each, in
/// window order.
pub open spec fn spec_marked_lines(ws: Seq<Window>, ids: Seq<u64>) -> Seq<char>
    decreases ws.len(),
{
    if ws.len() == 0 {
        Seq::empty()
    } else {
        spec_marked_lines(ws.drop_last(), ids) + (if ids.contains(ws.last().id) {
            spec_win_line(ws.last())
        } else {
            Seq::<char>::empty()
        })
    }
}

/// Renders exactly [`spec_win_line`].
fn win_line(w: &Window) -> (r: String)
    ensures
        r@ == spec_win_line(*w),
{
    "id: ".to_owned().concat(crate::strfmt::u64_to_string(w.id).as_str()).concat(
        ", app-id: ",
    ).concat(dbg_opt_str(&w.app_id).as_str()).concat(", title: ").concat(
        dbg_opt_str(&w.title).as_str(),
    ).concat(", on workspace: ").concat(dbg_opt_u64(&w.workspace_id).as_str()).concat("\n")
}

/// Renders exactly [`spec_marked_lines`].
fn marked_lines(windows: &Vec<Window>, ids: &Vec<u64>) -> (r: String)
    ensures
        r@ == spec_marked_lines(windows@, ids@),
{
    let mut acc = String::new();
    let mut i: usize = 0;
    while i < windows.len()
        invariant
            i <= windows@.len(),
            acc@ == spec_marked_lines(windows@.take(i as int), ids@),
        decreases windows@.len() - i,
    {
        proof {
            assert(windows@.take(i as int + 1).drop_last() =~= windows@.take(i as int));
            assert(windows@.take(i as int + 1).last() == windows@[i as int]);
        }
        if contains_id(ids, windows[i].id) {
            let line = win_line(&windows[i]);
            acc.append(line.as_str());
        } else {
            proof {
                assert(acc@ + Seq::<char>::empty() =~= acc@);
            }
        }
        i += 1;
    }
    proof {
        assert(windows@.take(windows@.len() as int) =~= windows@);
    }
    acc
}

/// What `FocusMarked` does: an unknown mark fails; otherwise the mark is
/// pruned of stale ids, an empty remainder fails, and else the same
/// cycling discipline as `Focus` runs over the marked windows, with the
/// focused window counting as visited even when unmarked.
pub open spec fn spec_focus_marked_post(
    pre: State,
    v0: Seq<u64>,
    post: State,
    name: Seq<char>,
    step: Step,
) -> bool {
    let ws = pre.windows@;
    let pm = pre.marks@;
    &&& post.windows == pre.windows
    &&& post.workspaces == pre.workspaces
    &&& post.follow_mode_win_ids == pre.follow_mode_win_ids
    &&& post.scratchpad_win_ids == pre.scratchpad_win_ids
    &&& if !spec_has_mark(pm, name) {
        &&& post.marks == pre.marks
        &&& post.visited_win_ids@ == v0
        &&& spec_step_err(step, "No such mark."@)
    } else {
        exists|k: int|
            {
                let pruned = pm[k].win_ids@.filter(present_pred(ws));
                &&& 0 <= k < pm.len() && (#[trigger] pm[k]).name@ == name
                &&& post.marks@.len() == pm.len()
                &&& forall|k2: int| 0 <= k2 < pm.len() && k2 != k ==> post.marks@[k2] == pm[k2]
                &&& post.marks@[k].name == pm[k].name
                &&& post.marks@[k].win_ids@ == pruned
                &&& if pruned.len() == 0 {
                    post.visited_win_ids@ == v0 && spec_step_err(step, "No marked window."@)
                } else {
                    let v1 = if spec_marked_all_visited(ws, pruned, v0) {
                        Seq::<u64>::empty()
                    } else {
                        v0
                    };
                    exists|ci: int|
                        {
                            &&& 0 <= ci < ws.len() && pruned.contains((#[trigger] ws[ci]).id)
                            &&& forall|j: int|
                                0 <= j < ws.len() && pruned.contains((#[trigger] ws[j]).id)
                                    && ws[j].id != ws[ci].id ==> spec_better(ws[ci], ws[j], v1)
                            &&& post.visited_win_ids@ == (if v1.contains(ws[ci].id) {
                                v1
                            } else {
                                v1.push(ws[ci].id)
                            })
                            &&& spec_step_focus(step, ws[ci].id)
                        }
                }
            }
    }
}

/// Focuses a window carrying the mark, cycling through the marked windows
/// on repeated identical commands; stale ids are pruned from the mark
/// first.
pub fn focus_marked(state: &mut State, mark: String) -> (step: Step)
    requires
        old(state).wf(),
    ensures
        final(state).wf(),
        old(state).consistent() ==> final(state).consistent(),
        final(state).last_cmd == old(state).last_cmd,
        spec_focus_marked_post(
            *old(state),
            old(state).visited_win_ids@,
            *final(state),
            mark@,
            step,
        ),
{
    let ghost ws = state.windows@;
    let ghost pm = state.marks@;
    let ghost v0 = state.visited_win_ids@;
    let k = match find_mark_index(&state.marks, &mark) {
        None => {
            return Step::Done { result: Err("No such mark.".to_owned()) };
        },
        Some(k) => k,
    };
    let mut m = state.marks.remove(k);
    proof {
        lemma_filter_u64_props(m.win_ids@, present_pred(ws));
    }
    prune_ids(&mut m.win_ids, &state.windows);
    let cands = marked_candidates(&state.windows, &m.win_ids);
    let ghost pruned = m.win_ids@;
    state.marks.insert(k, m);
    proof {
        assert forall|k2: int|
            0 <= k2 < pm.len() && k2 != k implies #[trigger] state.marks@[k2] == pm[k2] by {
            assert(state.marks@ == pm.remove(k as int).insert(k as int, m));
        }
        assert(state.marks@[k as int] == m);
        let nm = state.marks@;
        assert forall|i: int, j: int|
            0 <= i < j < nm.len() implies nm[i].name@ != nm[j].name@ by {
            assert(nm[i].name == pm[i].name);
            assert(nm[j].name == pm[j].name);
        }
        assert forall|k2: int|
            0 <= k2 < nm.len() implies no_dup_ids((#[trigger] nm[k2]).win_ids@) by {
            if k2 != k {
                assert(nm[k2] == pm[k2]);
                assert(no_dup_ids(old(state).marks@[k2].win_ids@));
            } else {
                assert(no_dup_ids(old(state).marks@[k2].win_ids@));
            }
        }
        if old(state).consistent() {
            assert forall|k2: int|
                0 <= k2 < nm.len() implies spec_ids_present(
                state.windows@,
                (#[trigger] nm[k2]).win_ids@,
            ) by {
                assert(spec_ids_present(old(state).windows@, old(state).marks@[k2].win_ids@));
                if k2 != k {
                    assert(nm[k2] == pm[k2]);
                } else {
                    assert(forall|x: u64|
                        #[trigger] present_pred(ws)(x) ==> spec_has_win_id(ws, x));
                    lemma_present_pruned(ws, pm[k2].win_ids@, present_pred(ws));
                }
            }
        }
    }
    if cands.len() == 0 {
        proof {
            if pruned.len() > 0 {
                assert(pruned.contains(pruned[0]));
                assert(spec_has_win_id(ws, pruned[0]));
                let j = choose|j: int| 0 <= j < ws.len() && ws[j].id == pruned[0];
                assert(spec_idx_in(cands@, j));
                let p = choose|p: int| 0 <= p < cands@.len() && cands@[p] as int == j;
                assert(false);
            }
        }
        return Step::Done { result: Err("No marked window.".to_owned()) };
    }
    proof {
        assert(pruned.contains(ws[cands@[0] as int].id));
        assert(pruned.len() > 0);
    }
    let extra = state.get_focused_win_id();
    if all_cands_visited(&state.windows, &cands, &state.visited_win_ids, extra) {
        proof {
            assert forall|j: int|
                0 <= j < ws.len() && pruned.contains((#[trigger] ws[j]).id) implies v0.contains(
                ws[j].id,
            ) || (spec_focused_win_id(ws) matches Some(f) && ws[j].id == f) by {
                assert(spec_idx_in(cands@, j));
                let p = choose|p: int| 0 <= p < cands@.len() && cands@[p] as int == j;
                assert(v0.contains(ws[cands@[p] as int].id) || (extra matches Some(e) && ws[
                    cands@[p] as int
                ].id == e));
            }
            assert(spec_marked_all_visited(ws, pruned, v0));
        }
        state.visited_win_ids.clear();
    } else {
        proof {
            let p = choose|p: int|
                0 <= p < cands@.len() && !(v0.contains(ws[#[trigger] cands@[p] as int].id) || (
                extra matches Some(e) && ws[cands@[p] as int].id == e));
            let j = cands@[p] as int;
            assert(pruned.contains(ws[j].id));
            if spec_marked_all_visited(ws, pruned, v0) {
                assert(v0.contains(ws[j].id) || (spec_focused_win_id(ws) matches Some(f)
                    && ws[j].id == f));
                assert(false);
            }
        }
    }
    let ghost v1 = state.visited_win_ids@;
    let sel_opt = select_best(&state.windows, &cands, &state.visited_win_ids);
    let sel = sel_opt.unwrap();
    let id = state.windows[sel].id;
    if !contains_id(&state.visited_win_ids, id) {
        state.visited_win_ids.push(id);
        proof {
            assert forall|i2: int, j2: int|
                0 <= i2 < j2 < state.visited_win_ids@.len() implies state.visited_win_ids@[i2]
                != state.visited_win_ids@[j2] by {
                if j2 == state.visited_win_ids@.len() - 1 {
                    assert(v1.contains(v1[i2]));
                }
            }
        }
    }
    let step = Step::Request {
        action: Action::FocusWindow { id },
        session: Session::AwaitFocus { id },
    };
    proof {
        assert(spec_is_best(ws, cands@, v1, sel as int));
        assert(pruned.contains(ws[sel as int].id));
        assert forall|j: int|
            0 <= j < ws.len() && pruned.contains((#[trigger] ws[j]).id) && ws[j].id != id
            implies spec_better(ws[sel as int], ws[j], v1) by {
            assert(spec_idx_in(cands@, j));
            let p = choose|p: int| 0 <= p < cands@.len() && cands@[p] as int == j;
            assert(ws[cands@[p] as int].id != ws[sel as int].id);
        }
        assert(spec_step_focus(step, id));
        if old(state).consistent() {
            assert(spec_ids_present(ws, v1));
            assert(ws[sel as int].id == id);
            assert(spec_has_win_id(ws, id));
            lemma_present_push(ws, v1, id);
            assert(spec_ids_present(ws, state.visited_win_ids@));
        }
    }
    step
}

/// What `ListMarked` does for one mark: an unknown mark fails; otherwise
/// the mark is pruned of stale ids and its windows are listed, one line
/// each, in window order.
pub open spec fn spec_list_marked_post(
    pre: State,
    v0: Seq<u64>,
    post: State,
    name: Seq<char>,
    r: Result<String, String>,
) -> bool {
    let ws = pre.windows@;
    let pm = pre.marks@;
    &&& post.windows == pre.windows
    &&& post.workspaces == pre.workspaces
    &&& post.follow_mode_win_ids == pre.follow_mode_win_ids
    &&& post.scratchpad_win_ids == pre.scratchpad_win_ids
    &&& post.visited_win_ids@ == v0
    &&& if !spec_has_mark(pm, name) {
        &&& post.marks == pre.marks
        &&& r matches Err(m) && m@ == "No such mark."@
    } else {
        exists|k: int|
            {
                let pruned = pm[k].win_ids@.filter(present_pred(ws));
                &&& 0 <= k < pm.len() && (#[trigger] pm[k]).name@ == name
                &&& post.marks@.len() == pm.len()
                &&& forall|k2: int| 0 <= k2 < pm.len() && k2 != k ==> post.marks@[k2] == pm[k2]
                &&& post.marks@[k].name == pm[k].name
                &&& post.marks@[k].win_ids@ == pruned
                &&& r matches Ok(m) && m@ == spec_marked_lines(ws, pruned)
            }
    }
}

/// Lists the windows of the named mark, pruning stale ids from it.
pub fn list_marked(state: &mut State, mark: String) -> (r: Result<String, String>)
    requires
        old(state).wf(),
    ensures
        final(state).wf(),
        old(state).consistent() ==> final(state).consistent(),
        final(state).last_cmd == old(state).last_cmd,
        spec_list_marked_post(
            *old(state),
            old(state).visited_win_ids@,
            *final(state),
            mark@,
            r,
        ),
{
    let ghost ws = state.windows@;
    let ghost pm = state.marks@;
    let k = match find_mark_index(&state.marks, &mark) {
        None => {
            return Err("No such mark.".to_owned());
        },
        Some(k) => k,
    };
    let mut m = state.marks.remove(k);
    proof {
        lemma_filter_u64_props(m.win_ids@, present_pred(ws));
    }
    prune_ids(&mut m.win_ids, &state.windows);
    let lines = marked_lines(&state.windows, &m.win_ids);
    state.marks.insert(k, m);
    proof {
        assert forall|k2: int|
            0 <= k2 < pm.len() && k2 != k implies #[trigger] state.marks@[k2] == pm[k2] by {
            assert(state.marks@ == pm.remove(k as int).insert(k as int, m));
        }
        assert(state.marks@[k as int] == m);
        let nm = state.marks@;
        assert forall|i: int, j: int|
            0 <= i < j < nm.len() implies nm[i].name@ != nm[j].name@ by {
            assert(nm[i].name == pm[i].name);
            assert(nm[j].name == pm[j].name);
        }
        assert forall|k2: int|
            0 <= k2 < nm.len() implies no_dup_ids((#[trigger] nm[k2]).win_ids@) by {
            assert(no_dup_ids(old(state).marks@[k2].win_ids@));
            if k2 != k {
                assert(nm[k2] == pm[k2]);
            }
        }
        if old(state).consistent() {
            assert forall|k2: int|
                0 <= k2 < nm.len() implies spec_ids_present(
                state.windows@,
                (#[trigger] nm[k2]).win_ids@,
            ) by {
                assert(spec_ids_present(old(state).windows@, old(state).marks@[k2].win_ids@));
                if k2 != k {
                    assert(nm[k2] == pm[k2]);
                } else {
                    assert(forall|x: u64|
                        #[trigger] present_pred(ws)(x) ==> spec_has_win_id(ws, x));
                    lemma_present_pruned(ws, pm[k2].win_ids@, present_pred(ws));
                }
            }
        }
    }
    Ok(lines)
}

/// The listing of every mark: its name on a header line, then its pruned
/// windows as in [`spec_marked_lines`].
pub open spec fn spec_all_marked(ws: Seq<Window>, marks: Seq<Mark>) -> Seq<char>
    decreases marks.len(),
{
    if marks.len() == 0 {
        Seq::empty()
    } else {
        spec_all_marked(ws, marks.drop_last()) + "-> "@ + marks.last().name@ + ":\n"@
            + spec_marked_lines(ws, marks.last().win_ids@.filter(present_pred(ws)))
    }
}

/// What `ListMarked` does with `all`: every mark is pruned of stale ids
/// and listed under its name.
pub open spec fn spec_list_all_post(
    pre: State,
    v0: Seq<u64>,
    post: State,
    r: Result<String, String>,
) -> bool {
    let ws = pre.windows@;
    let pm = pre.marks@;
    &&& post.windows == pre.windows
    &&& post.workspaces == pre.workspaces
    &&& post.follow_mode_win_ids == pre.follow_mode_win_ids
    &&& post.scratchpad_win_ids == pre.scratchpad_win_ids
    &&& post.visited_win_ids@ == v0
    &&& post.marks@.len() == pm.len()
    &&& forall|k: int|
        0 <= k < pm.len() ==> (#[trigger] post.marks@[k]).name == pm[k].name
            && post.marks@[k].win_ids@ == pm[k].win_ids@.filter(present_pred(ws))
    &&& r matches Ok(m) && m@ == spec_all_marked(ws, pm)
}

/// Lists every mark with its windows, pruning stale ids everywhere.
pub fn list_all_marked(state: &mut State) -> (r: Result<String, String>)
    requires
        old(state).wf(),
    ensures
        final(state).wf(),
        old(state).consistent() ==> final(state).consistent(),
        final(state).last_cmd == old(state).last_cmd,
        spec_list_all_post(*old(state), old(state).visited_win_ids@, *final(state), r),
{
    let ghost ws = state.windows@;
    let ghost pm = state.marks@;
    let mut acc = String::new();
    let mut k: usize = 0;
    while k < state.marks.len()
        invariant
            k <= state.marks@.len(),
            old(state).wf(),
            ws == state.windows@,
            pm == old(state).marks@,
            state.windows == old(state).windows,
            state.workspaces == old(state).workspaces,
            state.follow_mode_win_ids == old(state).follow_mode_win_ids,
            state.scratchpad_win_ids == old(state).scratchpad_win_ids,
            state.visited_win_ids == old(state).visited_win_ids,
            state.last_cmd == old(state).last_cmd,
            state.marks@.len() == pm.len(),
            forall|j: int|
                0 <= j < k ==> (#[trigger] state.marks@[j]).name == pm[j].name
                    && state.marks@[j].win_ids@ == pm[j].win_ids@.filter(present_pred(ws)),
            forall|j: int| k <= j < pm.len() ==> #[trigger] state.marks@[j] == pm[j],
            acc@ == spec_all_marked(ws, pm.take(k as int)),
        decreases state.marks@.len() - k,
    {
        let ghost prevmarks = state.marks@;
        proof {
            assert(pm.take(k as int + 1).drop_last() =~= pm.take(k as int));
            assert(pm.take(k as int + 1).last() == pm[k as int]);
        }
        let mut m = state.marks.remove(k);
        proof {
            lemma_filter_u64_props(m.win_ids@, present_pred(ws));
        }
        prune_ids(&mut m.win_ids, &state.windows);
        acc.append("-> ");
        acc.append(m.name.as_str());
        acc.append(":\n");
        let lines = marked_lines(&state.windows, &m.win_ids);
        acc.append(lines.as_str());
        state.marks.insert(k, m);
        proof {
            assert forall|j: int|
                0 <= j < state.marks@.len() && j != k implies #[trigger] state.marks@[j]
                == prevmarks[j] by {
                assert(state.marks@ == prevmarks.remove(k as int).insert(k as int, m));
            }
            assert(state.marks@[k as int] == m);
        }
        k += 1;
    }
    proof {
        assert(pm.take(pm.len() as int) =~= pm);
        let nm = state.marks@;
        assert forall|i: int, j: int|
            0 <= i < j < nm.len() implies nm[i].name@ != nm[j].name@ by {
            assert(nm[i].name == pm[i].name);
            assert(nm[j].name == pm[j].name);
        }
        assert forall|k2: int|
            0 <= k2 < nm.len() implies no_dup_ids((#[trigger] nm[k2]).win_ids@) by {
            assert(no_dup_ids(old(state).marks@[k2].win_ids@));
            lemma_filter_u64_props(pm[k2].win_ids@, present_pred(ws));
        }
        if old(state).consistent() {
            assert forall|k2: int|
                0 <= k2 < nm.len() implies spec_ids_present(
                state.windows@,
                (#[trigger] nm[k2]).win_ids@,
            ) by {
                assert(forall|x: u64|
                    #[trigger] present_pred(ws)(x) ==> spec_has_win_id(ws, x));
                lemma_present_pruned(ws, pm[k2].win_ids@, present_pred(ws));
            }
        }
    }
    Ok(acc)
}

/// The window carrying this id — meaningful where one is present and ids
/// are unique.
pub open spec fn spec_win_by_id(ws: Seq<Window>, id: u64) -> Window {
    ws[choose|i: int| 0 <= i < ws.len() && ws[i].id == id]
}

/// The relocation queue: each scratchpad id that still names a present
/// window, in scratchpad order, with a float-toggle wherever the window is
/// not floating yet.
pub open spec fn spec_scratch_queue(ws: Seq<Window>, ids: Seq<u64>) -> Seq<ScratchItem>
    decreases ids.len(),
{
    if ids.len() == 0 {
        Seq::empty()
    } else {
        spec_scratch_queue(ws, ids.drop_last()) + (if spec_has_win_id(ws, ids.last()) {
            seq![
                ScratchItem {
                    id: ids.last(),
                    needs_float_toggle: !spec_win_by_id(ws, ids.last()).is_floating,
                },
            ]
        } else {
            Seq::<ScratchItem>::empty()
        })
    }
}

/// The step the relocation takes at position `idx` of the queue: a float
/// toggle, a move, or — past the end — the finished success message.
pub open spec fn spec_step_scratch(
    queue: Seq<ScratchItem>,
    idx: int,
    ws_id: u64,
    step: Step,
) -> bool {
    if idx >= queue.len() {
        spec_step_ok(
            step,
            "Moved "@ + spec_u64_string(queue.len() as int)
                + " scratchpad windows to workspace with id "@ + spec_u64_string(ws_id as int)
                + "."@,
        )
    } else if queue[idx].needs_float_toggle {
        step matches Step::Request {
            action: Action::ToggleWindowFloating { id },
            session: Session::AwaitScratchToggle { queue: q, idx: i2, ws_id: w2 },
        } && id == queue[idx].id && q@ == queue && i2 == idx && w2 == ws_id
    } else {
        step matches Step::Request {
            action: Action::MoveWindowToWorkspace { window_id, workspace_id, focus },
            session: Session::AwaitScratchMove { queue: q, idx: i2, ws_id: w2 },
        } && window_id == queue[idx].id && workspace_id == ws_id && focus == false && q@ == queue
            && i2 == idx && w2 == ws_id
    }
}

/// Emits the relocation step at `idx`, handing the queue on in the
/// session.
fn scratch_step(queue: Vec<ScratchItem>, idx: usize, ws_id: u64) -> (step: Step)
    ensures
        spec_step_scratch(queue@, idx as int, ws_id, step),
{
    if idx >= queue.len() {
        Step::Done {
            result: Ok(
                msg_u64_u64(
                    "Moved ",
                    queue.len() as u64,
                    " scratchpad windows to workspace with id ",
                    ws_id,
                    ".",
                ),
            ),
        }
    } else if queue[idx].needs_float_toggle {
        let id = queue[idx].id;
        Step::Request {
            action: Action::ToggleWindowFloating { id },
            session: Session::AwaitScratchToggle { queue, idx, ws_id },
        }
    } else {
        let id = queue[idx].id;
        Step::Request {
            action: Action::MoveWindowToWorkspace {
                window_id: id,
                workspace_id: ws_id,
                focus: false,
            },
            session: Session::AwaitScratchMove { queue, idx, ws_id },
        }
    }
}

/// `b` indexes the bottom workspace among those sharing this output: the
/// highest index, the last one on a tie.
pub open spec fn spec_bottom_at(wss: Seq<Workspace>, out: Option<String>, b: int) -> bool {
    &&& 0 <= b < wss.len() && same_opt_str(wss[b].output, out)
    &&& forall|j: int|
        0 <= j < wss.len() && same_opt_str((#[trigger] wss[j]).output, out) ==> wss[j].idx
            <= wss[b].idx && (wss[j].idx == wss[b].idx ==> j <= b)
}

/// `fi` indexes the first focused workspace and `b` the bottom workspace
/// of its output — the scratchpad target.
pub open spec fn spec_scratch_target_at(wss: Seq<Workspace>, fi: int, b: int) -> bool {
    crate::state::spec_ws_focused_at(wss, fi) && spec_bottom_at(wss, wss[fi].output, b)
}

/// What the scratchpad relocation does: without a focused workspace it
/// fails; otherwise it starts walking the relocation queue towards the
/// bottom workspace of the focused output.
pub open spec fn spec_scratch_move_core(
    ws: Seq<Window>,
    wss: Seq<Workspace>,
    scratch: Seq<u64>,
    step: Step,
) -> bool {
    if forall|j: int| 0 <= j < wss.len() ==> !(#[trigger] wss[j]).is_focused {
        spec_step_err(step, "No workspace is focused."@)
    } else {
        exists|fi: int, b: int|
            spec_scratch_target_at(wss, fi, b) && spec_step_scratch(
                spec_scratch_queue(ws, scratch),
                0,
                wss[b].id,
                step,
            )
    }
}

/// Starts relocating every scratchpad window to the bottom workspace of
/// the focused output, in scratchpad order, toggling non-floating ones to
/// floating on the way.
pub fn scratchpad_move(state: &State) -> (step: Step)
    requires
        state.wf(),
    ensures
        spec_scratch_move_core(
            state.windows@,
            state.workspaces@,
            state.scratchpad_win_ids@,
            step,
        ),
{
    let ghost ws = state.windows@;
    let ghost wss = state.workspaces@;
    let out: Option<String>;
    let ghost fi: int;
    match state.get_focused_workspace() {
        None => {
            return Step::Done { result: Err("No workspace is focused.".to_owned()) };
        },
        Some(fws) => {
            out = clone_opt_string(&fws.output);
            proof {
                fi = choose|i: int|
                    0 <= i < wss.len() && *fws == wss[i] && fws.is_focused && (forall|j: int|
                        0 <= j < i ==> !wss[j].is_focused);
                assert(crate::state::spec_ws_focused_at(wss, fi));
                assert(out == wss[fi].output);
            }
        },
    }
    // the bottom workspace of that output: highest index, last on a tie
    let mut best: Option<(u64, u8)> = None;
    let ghost mut bi: int = 0;
    let mut j: usize = 0;
    while j < state.workspaces.len()
        invariant
            j <= wss.len(),
            wss == state.workspaces@,
            match best {
                Some(p) => 0 <= bi < j && same_opt_str(wss[bi].output, out) && wss[bi].id == p.0
                    && wss[bi].idx == p.1 && (forall|j2: int|
                    0 <= j2 < j && same_opt_str((#[trigger] wss[j2]).output, out) ==> wss[j2].idx
                        <= p.1 && (wss[j2].idx == p.1 ==> j2 <= bi)),
                None => forall|j2: int|
                    0 <= j2 < j ==> !same_opt_str((#[trigger] wss[j2]).output, out),
            },
        decreases wss.len() - j,
    {
        if opt_str_eq(&state.workspaces[j].output, &out) {
            let take_it: bool = match &best {
                Some(p) => state.workspaces[j].idx >= p.1,
                None => true,
            };
            if take_it {
                best = Some((state.workspaces[j].id, state.workspaces[j].idx));
                proof {
                    bi = j as int;
                }
            }
        }
        j += 1;
    }
    let ws_id: u64 = match best {
        Some(p) => p.0,
        None => {
            proof {
                assert(same_opt_str(wss[fi].output, out));
                assert(false);
            }
            0
        },
    };
    proof {
        assert(spec_bottom_at(wss, out, bi));
        assert(spec_scratch_target_at(wss, fi, bi));
    }
    // the relocation queue, in scratchpad order
    let mut queue: Vec<ScratchItem> = Vec::new();
    let scratch = &state.scratchpad_win_ids;
    let mut p: usize = 0;
    while p < scratch.len()
        invariant
            p <= scratch@.len(),
            scratch@ == state.scratchpad_win_ids@,
            ws == state.windows@,
            state.wf(),
            queue@ == spec_scratch_queue(ws, scratch@.take(p as int)),
        decreases scratch@.len() - p,
    {
        proof {
            assert(scratch@.take(p as int + 1).drop_last() =~= scratch@.take(p as int));
            assert(scratch@.take(p as int + 1).last() == scratch@[p as int]);
        }
        let sid = scratch[p];
        match find_window_index(&state.windows, sid) {
            Some(wi) => {
                let item = ScratchItem {
                    id: sid,
                    needs_float_toggle: !state.windows[wi].is_floating,
                };
                proof {
                    let c = choose|c: int| 0 <= c < ws.len() && ws[c].id == sid;
                    assert(c == wi as int);
                    assert(item == ScratchItem {
                        id: sid,
                        needs_float_toggle: !spec_win_by_id(ws, sid).is_floating,
                    });
                    assert(queue@.push(item) =~= spec_scratch_queue(
                        ws,
                        scratch@.take(p as int + 1),
                    ));
                }
                queue.push(item);
            },
            None => {
                proof {
                    assert(queue@ + Seq::<ScratchItem>::empty() =~= queue@);
                }
            },
        }
        p += 1;
    }
    proof {
        assert(scratch@.take(scratch@.len() as int) =~= scratch@);
    }
    scratch_step(queue, 0, ws_id)
}

/// What `ScratchpadToggle` does: with no focused window it fails; a
/// focused scratchpad window leaves the set and stays put; any other
/// focused window joins the set and the whole set is relocated.
pub open spec fn spec_scratchpad_toggle_post(
    pre: State,
    v0: Seq<u64>,
    post: State,
    step: Step,
) -> bool {
    &&& post.windows == pre.windows
    &&& post.workspaces == pre.workspaces
    &&& post.follow_mode_win_ids == pre.follow_mode_win_ids
    &&& post.marks == pre.marks
    &&& post.visited_win_ids@ == v0
    &&& match spec_focused_win_id(pre.windows@) {
        None => {
            &&& post.scratchpad_win_ids == pre.scratchpad_win_ids
            &&& spec_step_err(step, "No focused window."@)
        },
        Some(fid) => {
            if pre.scratchpad_win_ids@.contains(fid) {
                &&& post.scratchpad_win_ids@ == pre.scratchpad_win_ids@.filter(ne_pred(fid))
                &&& spec_step_ok(
                    step,
                    "Removed window "@ + spec_u64_string(fid as int) + " from scratchpad."@,
                )
            } else {
                &&& post.scratchpad_win_ids@ == pre.scratchpad_win_ids@.push(fid)
                &&& spec_scratch_move_core(
                    pre.windows@,
                    pre.workspaces@,
                    post.scratchpad_win_ids@,
                    step,
                )
            }
        },
    }
}

/// Puts the focused window into the scratchpad (floating it and moving it
/// to the bottom workspace, along with every other scratchpad window), or
/// takes it out again.
pub fn scratchpad_toggle(state: &mut State) -> (step: Step)
    requires
        old(state).wf(),
    ensures
        final(state).wf(),
        old(state).consistent() ==> final(state).consistent(),
        final(state).last_cmd == old(state).last_cmd,
        spec_scratchpad_toggle_post(
            *old(state),
            old(state).visited_win_ids@,
            *final(state),
            step,
        ),
{
    match state.get_focused_win_id() {
        None => Step::Done { result: Err("No focused window.".to_owned()) },
        Some(fid) => {
            proof {
                let c = choose|i: int|
                    0 <= i < state.windows@.len() && state.windows@[i].is_focused
                        && state.windows@[i].id == fid;
                assert(state.windows@[c].id == fid);
                assert(spec_has_win_id(state.windows@, fid));
            }
            if contains_id(&state.scratchpad_win_ids, fid) {
                proof {
                    lemma_purge_props(state.scratchpad_win_ids@, fid);
                }
                remove_id(&mut state.scratchpad_win_ids, fid);
                proof {
                    if old(state).consistent() {
                        lemma_present_subset(
                            state.windows@,
                            old(state).scratchpad_win_ids@,
                            state.scratchpad_win_ids@,
                        );
                    }
                }
                Step::Done {
                    result: Ok(msg_u64("Removed window ", fid, " from scratchpad.")),
                }
            } else {
                let ghost pre_scratch = state.scratchpad_win_ids@;
                proof {
                    if old(state).consistent() {
                        lemma_present_push(state.windows@, pre_scratch, fid);
                    }
                }
                state.scratchpad_win_ids.push(fid);
                proof {
                    assert forall|i2: int, j2: int|
                        0 <= i2 < j2 < state.scratchpad_win_ids@.len()
                        implies state.scratchpad_win_ids@[i2] != state.scratchpad_win_ids@[j2] by {
                        if j2 == state.scratchpad_win_ids@.len() - 1 {
                            assert(pre_scratch.contains(pre_scratch[i2]));
                        }
                    }
                }
                scratchpad_move(state)
            }
        },
    }
}

/// `p` indexes the first scratchpad id that still names a window, and the
/// step requests moving that window to the focused workspace `fwsid`,
/// focusing it next.
pub open spec fn spec_show_pick_at(
    ws: Seq<Window>,
    scratch: Seq<u64>,
    fwsid: u64,
    p: int,
    step: Step,
) -> bool {
    &&& 0 <= p < scratch.len() && spec_has_win_id(ws, scratch[p])
    &&& forall|q: int| 0 <= q < p ==> !spec_has_win_id(ws, #[trigger] scratch[q])
    &&& step matches Step::Request {
        action: Action::MoveWindowToWorkspace { window_id, workspace_id, focus },
        session: Session::AwaitShowMove { win_id },
    } && window_id == scratch[p] && workspace_id == fwsid && focus == true && win_id == scratch[p]
}

/// What `ScratchpadShow` does: a focused scratchpad window is hidden again
/// by the relocation; otherwise the first scratchpad window that still
/// exists is moved to the focused workspace, to be focused next; an empty
/// scratchpad fails.
pub open spec fn spec_scratchpad_show_post(pre: State, step: Step) -> bool {
    let ws = pre.windows@;
    let scratch = pre.scratchpad_win_ids@;
    if spec_focused_win_id(ws) matches Some(f) && scratch.contains(f) {
        spec_scratch_move_core(ws, pre.workspaces@, scratch, step)
    } else {
        match crate::state::spec_focused_ws_id(pre.workspaces@) {
            None => spec_step_err(step, "No focused workspace."@),
            Some(fwsid) => {
                ||| (forall|p: int|
                    0 <= p < scratch.len() ==> !spec_has_win_id(ws, #[trigger] scratch[p]))
                    && spec_step_err(step, "No window in the scratchpad."@)
                ||| exists|p: int| spec_show_pick_at(ws, scratch, fwsid, p, step)
            },
        }
    }
}

/// Brings a scratchpad window to the focused workspace, or hides the
/// focused window again if it is itself a scratchpad window.
pub fn scratchpad_show(state: &State) -> (step: Step)
    requires
        state.wf(),
    ensures
        spec_scratchpad_show_post(*state, step),
{
    let fid_opt = state.get_focused_win_id();
    proof {
        assert(fid_opt == spec_focused_win_id(state.windows@));
    }
    let in_scratch: bool = match fid_opt {
        Some(fid) => contains_id(&state.scratchpad_win_ids, fid),
        None => false,
    };
    proof {
        assert(in_scratch == (spec_focused_win_id(state.windows@) matches Some(f)
            && state.scratchpad_win_ids@.contains(f)));
    }
    if in_scratch {
        return scratchpad_move(state);
    }
    let fwsid = match state.get_focused_workspace_id() {
        None => {
            return Step::Done { result: Err("No focused workspace.".to_owned()) };
        },
        Some(x) => x,
    };
    let scratch = &state.scratchpad_win_ids;
    let mut p: usize = 0;
    while p < scratch.len()
        invariant
            p <= scratch@.len(),
            scratch@ == state.scratchpad_win_ids@,
            state.wf(),
            crate::state::spec_focused_ws_id(state.workspaces@) == Some(fwsid),
            !(spec_focused_win_id(state.windows@) matches Some(f)
                && state.scratchpad_win_ids@.contains(f)),
            forall|q: int| 0 <= q < p ==> !spec_has_win_id(state.windows@, #[trigger] scratch@[q]),
        decreases scratch@.len() - p,
    {
        if has_window(&state.windows, scratch[p]) {
            let id = scratch[p];
            let step = Step::Request {
                action: Action::MoveWindowToWorkspace {
                    window_id: id,
                    workspace_id: fwsid,
                    focus: true,
                },
                session: Session::AwaitShowMove { win_id: id },
            };
            proof {
                assert(spec_show_pick_at(state.windows@, scratch@, fwsid, p as int, step));
                assert(exists|p2: int|
                    spec_show_pick_at(state.windows@, state.scratchpad_win_ids@, fwsid, p2, step));
                if spec_focused_win_id(state.windows@) matches Some(f)
                    && state.scratchpad_win_ids@.contains(f) {
                    assert(false);
                }
                assert(crate::state::spec_focused_ws_id(state.workspaces@) matches Some(w2)
                    && w2 == fwsid);
                assert(spec_scratchpad_show_post(*state, step));
            }
            return step;
        }
        p += 1;
    }
    Step::Done { result: Err("No window in the scratchpad.".to_owned()) }
}

/// The outcome a move request settles to under this reply: success, the
/// unexpected-reply error, or the transport error itself.
pub open spec fn spec_is_move_result(r: Result<String, String>, reply: Reply) -> bool {
    match reply {
        Reply::Handled => r matches Ok(m) && m@ == "Moved successfully"@,
        Reply::Unexpected { text } => r matches Err(m) && m@ == "Received unexpected reply "@
            + text@,
        Reply::Error { text } => r matches Err(m) && m@ == text@,
    }
}

/// What [`exec_resume`] does for each waiting session and reply: the
/// protocol of the command engine, reply by reply.
pub open spec fn spec_resume_post(session: Session, reply: Reply, step: Step) -> bool {
    match session {
        Session::AwaitFocus { id } => match reply {
            Reply::Handled => spec_step_ok(
                step,
                "Focused window with id "@ + spec_u64_string(id as int),
            ),
            Reply::Unexpected { text } => spec_step_err(
                step,
                "Received unexpected reply "@ + text@,
            ),
            Reply::Error { text } => spec_step_err(step, text@),
        },
        Session::AwaitSpawn => match reply {
            Reply::Handled => spec_step_ok(step, "Spawned successfully"@),
            Reply::Unexpected { text } => spec_step_err(
                step,
                "Received unexpected reply "@ + text@,
            ),
            Reply::Error { text } => spec_step_err(step, text@),
        },
        Session::AwaitMove { win_id, focus_after } => {
            if focus_after {
                step matches Step::Request {
                    action: Action::FocusWindow { id },
                    session: Session::AwaitMoveFocus { move_result },
                } && id == win_id && spec_is_move_result(move_result, reply)
            } else {
                step matches Step::Done { result } && spec_is_move_result(result, reply)
            }
        },
        Session::AwaitMoveFocus { move_result } => match reply {
            Reply::Handled => step matches Step::Done { result } && result == move_result,
            Reply::Unexpected { text } => spec_step_err(
                step,
                "Received unexpected reply "@ + text@,
            ),
            Reply::Error { text } => spec_step_err(step, text@),
        },
        Session::AwaitShowMove { win_id } => match reply {
            Reply::Handled => spec_step_focus(step, win_id),
            Reply::Unexpected { text } => spec_step_err(
                step,
                "Received unexpected reply "@ + text@,
            ),
            Reply::Error { text } => spec_step_err(step, text@),
        },
        Session::AwaitScratchToggle { queue, idx, ws_id } => match reply {
            Reply::Error { text } => spec_step_err(step, text@),
            _ => {
                if idx < queue@.len() {
                    step matches Step::Request {
                        action: Action::MoveWindowToWorkspace { window_id, workspace_id, focus },
                        session: Session::AwaitScratchMove { queue: q, idx: i2, ws_id: w2 },
                    } && window_id == queue@[idx as int].id && workspace_id == ws_id && focus
                        == false && q@ == queue@ && i2 == idx && w2 == ws_id
                } else {
                    spec_step_scratch(queue@, idx as int, ws_id, step)
                }
            },
        },
        Session::AwaitScratchMove { queue, idx, ws_id } => match reply {
            Reply::Handled => spec_step_scratch(queue@, idx + 1, ws_id, step),
            Reply::Unexpected { text } => spec_step_err(
                step,
                "Received unexpected reply "@ + text@,
            ),
            Reply::Error { text } => spec_step_err(step, text@),
        },
    }
}

/// Resumes a waiting execution with the reply to its last action: the
/// float-toggle of a scratchpad relocation tolerates unexpected replies,
/// every other unexpected reply fails the command, and transport errors
/// fail it verbatim.
pub fn exec_resume(session: Session, reply: Reply) -> (step: Step)
    ensures
        spec_resume_post(session, reply, step),
{
    match session {
        Session::AwaitFocus { id } => match reply {
            Reply::Handled => Step::Done {
                result: Ok(msg_u64_end("Focused window with id ", id)),
            },
            Reply::Unexpected { text } => Step::Done {
                result: Err("Received unexpected reply ".to_owned().concat(text.as_str())),
            },
            Reply::Error { text } => Step::Done { result: Err(text) },
        },
        Session::AwaitSpawn => match reply {
            Reply::Handled => Step::Done { result: Ok("Spawned successfully".to_owned()) },
            Reply::Unexpected { text } => Step::Done {
                result: Err("Received unexpected reply ".to_owned().concat(text.as_str())),
            },
            Reply::Error { text } => Step::Done { result: Err(text) },
        },
        Session::AwaitMove { win_id, focus_after } => {
            let move_result: Result<String, String> = match reply {
                Reply::Handled => Ok("Moved successfully".to_owned()),
                Reply::Unexpected { text } => Err(
                    "Received unexpected reply ".to_owned().concat(text.as_str()),
                ),
                Reply::Error { text } => Err(text),
            };
            if focus_after {
                Step::Request {
                    action: Action::FocusWindow { id: win_id },
                    session: Session::AwaitMoveFocus { move_result },
                }
            } else {
                Step::Done { result: move_result }
            }
        },
        Session::AwaitMoveFocus { move_result } => match reply {
            Reply::Handled => Step::Done { result: move_result },
            Reply::Unexpected { text } => Step::Done {
                result: Err("Received unexpected reply ".to_owned().concat(text.as_str())),
            },
            Reply::Error { text } => Step::Done { result: Err(text) },
        },
        Session::AwaitShowMove { win_id } => match reply {
            Reply::Handled => Step::Request {
                action: Action::FocusWindow { id: win_id },
                session: Session::AwaitFocus { id: win_id },
            },
            Reply::Unexpected { text } => Step::Done {
                result: Err("Received unexpected reply ".to_owned().concat(text.as_str())),
            },
            Reply::Error { text } => Step::Done { result: Err(text) },
        },
        Session::AwaitScratchToggle { queue, idx, ws_id } => match reply {
            Reply::Error { text } => Step::Done { result: Err(text) },
            _ => {
                if idx < queue.len() {
                    let id = queue[idx].id;
                    Step::Request {
                        action: Action::MoveWindowToWorkspace {
                            window_id: id,
                            workspace_id: ws_id,
                            focus: false,
                        },
                        session: Session::AwaitScratchMove { queue, idx, ws_id },
                    }
                } else {
                    scratch_step(queue, idx, ws_id)
                }
            },
        },
        Session::AwaitScratchMove { queue, idx, ws_id } => match reply {
            Reply::Handled => {
                if idx < queue.len() {
                    scratch_step(queue, idx + 1, ws_id)
                } else {
                    proof {
                        assert(idx + 1 >= queue@.len());
                    }
                    scratch_step(queue, idx, ws_id)
                }
            },
            Reply::Unexpected { text } => Step::Done {
                result: Err("Received unexpected reply ".to_owned().concat(text.as_str())),
            },
            Reply::Error { text } => Step::Done { result: Err(text) },
        },
    }
}

/// What `ToggleFollowMode` does: with a focused window, toggle its
/// membership in the follow-mode set and report which way it went; without
/// one, fail.  Everything else, and the cycling memory `v0`, stays.
pub open spec fn spec_toggle_follow_post(
    pre: State,
    v0: Seq<u64>,
    post: State,
    r: Result<String, String>,
) -> bool {
    &&& post.windows == pre.windows
    &&& post.workspaces == pre.workspaces
    &&& post.scratchpad_win_ids == pre.scratchpad_win_ids
    &&& post.marks == pre.marks
    &&& post.visited_win_ids@ == v0
    &&& match spec_focused_win_id(pre.windows@) {
        Some(fid) => {
            &&& post.follow_mode_win_ids@ == spec_toggle_in(pre.follow_mode_win_ids@, fid)
            &&& r matches Ok(m) && m@ == (if pre.follow_mode_win_ids@.contains(fid) {
                "Disabled follow mode for window "@ + spec_u64_string(fid as int)
            } else {
                "Enabled follow mode for window "@ + spec_u64_string(fid as int)
            })
        },
        None => {
            &&& post.follow_mode_win_ids == pre.follow_mode_win_ids
            &&& r matches Err(m) && m@ == "No focused window"@
        },
    }
}

/// Enrols the focused window in follow mode or removes it again.
pub fn toggle_follow_mode(state: &mut State) -> (r: Result<String, String>)
    requires
        old(state).wf(),
    ensures
        final(state).wf(),
        old(state).consistent() ==> final(state).consistent(),
        final(state).last_cmd == old(state).last_cmd,
        spec_toggle_follow_post(*old(state), old(state).visited_win_ids@, *final(state), r),
{
    match state.get_focused_win_id() {
        Some(fid) => {
            proof {
                let c = choose|i: int|
                    0 <= i < state.windows@.len() && state.windows@[i].is_focused
                        && state.windows@[i].id == fid;
                assert(state.windows@[c].id == fid);
                assert(spec_has_win_id(state.windows@, fid));
            }
            if contains_id(&state.follow_mode_win_ids, fid) {
                proof {
                    lemma_purge_props(state.follow_mode_win_ids@, fid);
                }
                remove_id(&mut state.follow_mode_win_ids, fid);
                proof {
                    if old(state).consistent() {
                        lemma_present_subset(
                            state.windows@,
                            old(state).follow_mode_win_ids@,
                            state.follow_mode_win_ids@,
                        );
                    }
                }
                Ok(msg_u64_end("Disabled follow mode for window ", fid))
            } else {
                proof {
                    if old(state).consistent() {
                        lemma_present_push(state.windows@, state.follow_mode_win_ids@, fid);
                    }
                }
                state.follow_mode_win_ids.push(fid);
                Ok(msg_u64_end("Enabled follow mode for window ", fid))
            }
        },
        None => Err("No focused window".to_owned()),
    }
}

/// What `ToggleMark` does: with a focused window, toggle its membership in
/// the named mark's list, creating the mark when absent; without one, fail.
pub open spec fn spec_toggle_mark_post(
    pre: State,
    v0: Seq<u64>,
    post: State,
    name: Seq<char>,
    r: Result<String, String>,
) -> bool {
    &&& post.windows == pre.windows
    &&& post.workspaces == pre.workspaces
    &&& post.follow_mode_win_ids == pre.follow_mode_win_ids
    &&& post.scratchpad_win_ids == pre.scratchpad_win_ids
    &&& post.visited_win_ids@ == v0
    &&& match spec_focused_win_id(pre.windows@) {
        Some(fid) => {
            let pm = pre.marks@;
            let nm = post.marks@;
            if spec_has_mark(pm, name) {
                exists|k: int|
                    {
                        &&& 0 <= k < pm.len() && pm[k].name@ == name
                        &&& nm.len() == pm.len()
                        &&& forall|k2: int|
                            0 <= k2 < pm.len() && k2 != k ==> nm[k2] == pm[k2]
                        &&& (#[trigger] nm[k]).name == pm[k].name
                        &&& nm[k].win_ids@ == spec_toggle_in(pm[k].win_ids@, fid)
                        &&& r matches Ok(m) && m@ == (if pm[k].win_ids@.contains(fid) {
                            "Unset mark for window "@ + spec_u64_string(fid as int)
                        } else {
                            "Set mark for window "@ + spec_u64_string(fid as int)
                        })
                    }
            } else {
                &&& nm.len() == pm.len() + 1
                &&& forall|k2: int| 0 <= k2 < pm.len() ==> nm[k2] == pm[k2]
                &&& nm[pm.len() as int].name@ == name
                &&& nm[pm.len() as int].win_ids@ == seq![fid]
                &&& r matches Ok(m) && m@ == "Set mark for window "@ + spec_u64_string(fid as int)
            }
        },
        None => {
            &&& post.marks == pre.marks
            &&& r matches Err(m) && m@ == "No focused window."@
        },
    }
}

/// Marks or unmarks the focused window under the given mark name.
pub fn toggle_mark(state: &mut State, mark: String) -> (r: Result<String, String>)
    requires
        old(state).wf(),
    ensures
        final(state).wf(),
        old(state).consistent() ==> final(state).consistent(),
        final(state).last_cmd == old(state).last_cmd,
        spec_toggle_mark_post(*old(state), old(state).visited_win_ids@, *final(state), mark@, r),
{
    match state.get_focused_win_id() {
        Some(fid) => {
            proof {
                let c = choose|i: int|
                    0 <= i < state.windows@.len() && state.windows@[i].is_focused
                        && state.windows@[i].id == fid;
                assert(state.windows@[c].id == fid);
                assert(spec_has_win_id(state.windows@, fid));
            }
            match find_mark_index(&state.marks, &mark) {
                Some(k) => {
                    let ghost pm = state.marks@;
                    let mut m = state.marks.remove(k);
                    let had = contains_id(&m.win_ids, fid);
                    if had {
                        proof {
                            lemma_purge_props(m.win_ids@, fid);
                        }
                        remove_id(&mut m.win_ids, fid);
                    } else {
                        m.win_ids.push(fid);
                    }
                    state.marks.insert(k, m);
                    proof {
                        assert forall|k2: int|
                            0 <= k2 < pm.len() && k2 != k implies #[trigger] state.marks@[k2]
                            == pm[k2] by {
                            assert(state.marks@ == pm.remove(k as int).insert(k as int, m));
                        }
                        assert(state.marks@[k as int] == m);
                        let nm = state.marks@;
                        assert forall|i: int, j: int|
                            0 <= i < j < nm.len() implies nm[i].name@ != nm[j].name@ by {
                            assert(nm[i].name == pm[i].name);
                            assert(nm[j].name == pm[j].name);
                        }
                        assert forall|k2: int|
                            0 <= k2 < nm.len() implies no_dup_ids(
                            (#[trigger] nm[k2]).win_ids@,
                        ) by {
                            if k2 != k {
                                assert(nm[k2] == pm[k2]);
                                assert(no_dup_ids(old(state).marks@[k2].win_ids@));
                            } else {
                                assert(nm[k2] == m);
                                let orig = pm[k as int].win_ids@;
                                assert(no_dup_ids(orig));
                                if had {
                                    assert(m.win_ids@ == orig.filter(ne_pred(fid)));
                                    assert(no_dup_ids(m.win_ids@));
                                } else {
                                    assert(m.win_ids@ == orig.push(fid));
                                    assert forall|i2: int, j2: int|
                                        0 <= i2 < j2 < m.win_ids@.len() implies m.win_ids@[i2]
                                        != m.win_ids@[j2] by {
                                        if j2 == m.win_ids@.len() - 1 {
                                            assert(orig.contains(orig[i2]));
                                        }
                                    }
                                }
                            }
                        }
                        if old(state).consistent() {
                            assert forall|k2: int|
                                0 <= k2 < nm.len() implies spec_ids_present(
                                state.windows@,
                                (#[trigger] nm[k2]).win_ids@,
                            ) by {
                                let orig = pm[k2].win_ids@;
                                assert(spec_ids_present(
                                    old(state).windows@,
                                    old(state).marks@[k2].win_ids@,
                                ));
                                if k2 != k {
                                    assert(nm[k2] == pm[k2]);
                                } else {
                                    assert(nm[k2] == m);
                                    if had {
                                        lemma_present_subset(state.windows@, orig, m.win_ids@);
                                    } else {
                                        lemma_present_push(state.windows@, orig, fid);
                                    }
                                }
                            }
                        }
                    }
                    if had {
                        Ok(msg_u64_end("Unset mark for window ", fid))
                    } else {
                        Ok(msg_u64_end("Set mark for window ", fid))
                    }
                },
                None => {
                    let mut ids: Vec<u64> = Vec::new();
                    ids.push(fid);
                    state.marks.push(Mark { name: mark, win_ids: ids });
                    proof {
                        let pm = old(state).marks@;
                        let nm = state.marks@;
                        assert(nm[pm.len() as int].win_ids@ =~= seq![fid]);
                        assert forall|i: int, j: int|
                            0 <= i < j < nm.len() implies nm[i].name@ != nm[j].name@ by {
                            if j < pm.len() {
                                assert(nm[i] == pm[i] && nm[j] == pm[j]);
                            } else {
                                assert(nm[i] == pm[i]);
                            }
                        }
                        assert forall|k2: int|
                            0 <= k2 < nm.len() implies no_dup_ids(
                            (#[trigger] nm[k2]).win_ids@,
                        ) by {
                            if k2 < pm.len() {
                                assert(nm[k2] == pm[k2]);
                                assert(no_dup_ids(old(state).marks@[k2].win_ids@));
                            }
                        }
                        if old(state).consistent() {
                            assert forall|k2: int|
                                0 <= k2 < nm.len() implies spec_ids_present(
                                state.windows@,
                                (#[trigger] nm[k2]).win_ids@,
                            ) by {
                                if k2 < pm.len() {
                                    assert(nm[k2] == pm[k2]);
                                    assert(spec_ids_present(
                                        old(state).windows@,
                                        old(state).marks@[k2].win_ids@,
                                    ));
                                } else {
                                    assert(nm[k2].win_ids@ =~= seq![fid]);
                                }
                            }
                        }
                    }
                    Ok(msg_u64_end("Set mark for window ", fid))
                },
            }
        },
        None => Err("No focused window.".to_owned()),
    }
}

/// What executing a command does.  `v0` is the cycling memory the command
/// starts from: the previous memory when the command structurally equals
/// the previous one, and empty otherwise — so any change of command resets
/// the cycle.  Each command then acts as its own postcondition predicate
/// says.
pub open spec fn spec_exec_post(pre: State, post: State, cmd: NiriusCmd, step: Step) -> bool {
    let v0 = if pre.last_cmd matches Some(p) && same_cmd(p, cmd) {
        pre.visited_win_ids@
    } else {
        Seq::<u64>::empty()
    };
    match cmd {
        NiriusCmd::Focus { match_opts } => spec_focus_post(pre, v0, post, match_opts, step),
        NiriusCmd::FocusOrSpawn { match_opts, command } => spec_focus_or_spawn_post(
            pre,
            v0,
            post,
            match_opts,
            command@,
            step,
        ),
        NiriusCmd::MoveToCurrentWorkspace { match_opts, focus } => {
            &&& spec_frames(pre, post)
            &&& post.visited_win_ids@ == v0
            &&& spec_move_post(pre, match_opts, focus, step)
        },
        NiriusCmd::MoveToCurrentWorkspaceOrSpawn { match_opts, focus, command } => {
            &&& spec_frames(pre, post)
            &&& post.visited_win_ids@ == v0
            &&& spec_move_or_spawn_post(pre, match_opts, focus, command@, step)
        },
        NiriusCmd::ToggleFollowMode => step matches Step::Done { result }
            && spec_toggle_follow_post(pre, v0, post, result),
        NiriusCmd::ToggleMark { mark } => step matches Step::Done { result }
            && spec_toggle_mark_post(pre, v0, post, spec_mark_name(mark), result),
        NiriusCmd::FocusMarked { mark } => spec_focus_marked_post(
            pre,
            v0,
            post,
            spec_mark_name(mark),
            step,
        ),
        NiriusCmd::ListMarked { mark, all } => {
            if all {
                step matches Step::Done { result } && spec_list_all_post(pre, v0, post, result)
            } else {
                step matches Step::Done { result } && spec_list_marked_post(
                    pre,
                    v0,
                    post,
                    spec_mark_name(mark),
                    result,
                )
            }
        },
        NiriusCmd::ScratchpadToggle => spec_scratchpad_toggle_post(pre, v0, post, step),
        NiriusCmd::ScratchpadShow => {
            &&& spec_frames(pre, post)
            &&& post.visited_win_ids@ == v0
            &&& spec_scratchpad_show_post(pre, step)
        },
        NiriusCmd::Nop => {
            &&& spec_frames(pre, post)
            &&& post.visited_win_ids@ == v0
            &&& spec_step_ok(step, ""@)
        },
    }
}

/// Executes one client command against the store: the cycling memory is
/// cleared exactly when the command differs structurally from the previous
/// one, the command runs, and it becomes the remembered previous command.
/// The returned step either finishes the command or asks the caller to
/// perform a compositor action and resume with the reply.
pub fn exec_nirius_cmd(state: &mut State, cmd: NiriusCmd) -> (step: Step)
    requires
        old(state).wf(),
    ensures
        final(state).wf(),
        old(state).consistent() ==> final(state).consistent(),
        final(state).last_cmd == Some(cmd),
        spec_exec_post(*old(state), *final(state), cmd, step),
{
    let same: bool = match &state.last_cmd {
        Some(p) => cmd_eq(p, &cmd),
        None => false,
    };
    if !same {
        state.visited_win_ids.clear();
    }
    proof {
        if old(state).consistent() {
            assert(state.consistent());
        }
    }
    let ghost mid = *state;
    let step = match &cmd {
        NiriusCmd::Focus { match_opts } => focus(state, match_opts),
        NiriusCmd::FocusOrSpawn { match_opts, command } => focus_or_spawn(
            state,
            match_opts,
            command,
        ),
        NiriusCmd::MoveToCurrentWorkspace { match_opts, focus } => move_to_current_workspace(
            state,
            match_opts,
            *focus,
        ),
        NiriusCmd::MoveToCurrentWorkspaceOrSpawn { match_opts, focus, command } => {
            move_to_current_workspace_or_spawn(state, match_opts, *focus, command)
        },
        NiriusCmd::ToggleFollowMode => {
            let result = toggle_follow_mode(state);
            Step::Done { result }
        },
        NiriusCmd::ToggleMark { mark } => {
            let name = resolve_mark(mark);
            let result = toggle_mark(state, name);
            Step::Done { result }
        },
        NiriusCmd::FocusMarked { mark } => {
            let name = resolve_mark(mark);
            focus_marked(state, name)
        },
        NiriusCmd::ListMarked { mark, all } => {
            if *all {
                let result = list_all_marked(state);
                Step::Done { result }
            } else {
                let name = resolve_mark(mark);
                let result = list_marked(state, name);
                Step::Done { result }
            }
        },
        NiriusCmd::ScratchpadToggle => scratchpad_toggle(state),
        NiriusCmd::ScratchpadShow => scratchpad_show(state),
        NiriusCmd::Nop => Step::Done { result: Ok("".to_owned()) },
    };
    proof {
        let v0 = if old(state).last_cmd matches Some(p) && same_cmd(p, cmd) {
            old(state).visited_win_ids@
        } else {
            Seq::<u64>::empty()
        };
        assert(mid.visited_win_ids@ == v0);
        assert(mid.windows == old(state).windows);
        assert(mid.workspaces == old(state).workspaces);
        assert(mid.follow_mode_win_ids == old(state).follow_mode_win_ids);
        assert(mid.scratchpad_win_ids == old(state).scratchpad_win_ids);
        assert(mid.marks == old(state).marks);
    }
    state.last_cmd = Some(cmd);
    step
}

/// Filtering keeps a sequence whose elements all pass untouched.
proof fn lemma_filter_all_pass(s: Seq<u64>, pred: spec_fn(u64) -> bool)
    requires
        forall|i: int| 0 <= i < s.len() ==> pred(#[trigger] s[i]),
    ensures
        s.filter(pred) == s,
    decreases s.len(),
{
    reveal(Seq::filter);
    if s.len() > 0 {
        assert forall|i: int| 0 <= i < s.drop_last().len() implies pred(
            #[trigger] s.drop_last()[i],
        ) by {
            assert(s.drop_last()[i] == s[i]);
        }
        lemma_filter_all_pass(s.drop_last(), pred);
        assert(s.filter(pred) =~= s);
    }
}

/// Purging a contained id from a duplicate-free list and re-adding it
/// gives the same multiset back.
proof fn lemma_purge_multiset(s: Seq<u64>, id: u64)
    requires
        no_dup_ids(s),
        s.contains(id),
    ensures
        s.filter(ne_pred(id)).push(id).to_multiset() == s.to_multiset(),
    decreases s.len(),
{
    broadcast use vstd::seq_lib::group_to_multiset_ensures;

    reveal(Seq::filter);
    let f = s.filter(ne_pred(id));
    if s.len() > 0 {
        let d = s.drop_last();
        assert(no_dup_ids(d)) by {
            assert forall|i: int, j: int| 0 <= i < j < d.len() implies d[i] != d[j] by {
                assert(d[i] == s[i] && d[j] == s[j]);
            }
        }
        assert(s =~= d.push(s.last()));
        if s.last() == id {
            // the last element is the purged one; the rest all pass
            assert(!d.contains(id)) by {
                if d.contains(id) {
                    let w = choose|w: int| 0 <= w < d.len() && d[w] == id;
                    assert(s[w] == s[s.len() - 1]);
                }
            }
            assert forall|i: int| 0 <= i < d.len() implies ne_pred(id)(#[trigger] d[i]) by {
                if d[i] == id {
                    assert(d.contains(d[i]));
                }
            }
            lemma_filter_all_pass(d, ne_pred(id));
            assert(f == d);
        } else {
            assert(d.contains(id)) by {
                let w = choose|w: int| 0 <= w < s.len() && s[w] == id;
                assert(w < s.len() - 1);
                assert(d[w] == id);
            }
            lemma_purge_multiset(d, id);
            assert(f == d.filter(ne_pred(id)).push(s.last()));
            let df = d.filter(ne_pred(id));
            assert(f.push(id).to_multiset() =~= df.push(id).push(s.last()).to_multiset()) by {
                assert(f.push(id) =~= df.push(s.last()).push(id));
                assert(df.push(s.last()).push(id).to_multiset() == df.push(s.last()).to_multiset()
                    .insert(id));
                assert(df.push(id).push(s.last()).to_multiset() == df.push(id).to_multiset()
                    .insert(s.last()));
                assert(df.push(s.last()).to_multiset() == df.to_multiset().insert(s.last()));
                assert(df.push(id).to_multiset() == df.to_multiset().insert(id));
                assert(df.to_multiset().insert(s.last()).insert(id) =~= df.to_multiset().insert(
                    id,
                ).insert(s.last()));
            }
            assert(df.push(id).to_multiset() == d.to_multiset());
            assert(df.push(id).push(s.last()).to_multiset() == df.push(id).to_multiset().insert(
                s.last(),
            ));
            assert(s.to_multiset() == d.to_multiset().insert(s.last()));
        }
    }
}

/// Law: toggling the same id twice in a registry list restores the
/// membership of every id; it restores the list itself exactly when the
/// id was absent, and the same multiset of ids when it was present (the
/// re-added id comes back at the newest end).  This is the round trip of
/// `ToggleMark`, `ToggleFollowMode` and `ScratchpadToggle`, whose
/// contracts all change their list by [`spec_toggle_in`].
pub proof fn lemma_toggle_round_trip(ids: Seq<u64>, id: u64)
    requires
        no_dup_ids(ids),
    ensures
        !ids.contains(id) ==> spec_toggle_in(spec_toggle_in(ids, id), id) == ids,
        spec_toggle_in(spec_toggle_in(ids, id), id).to_multiset() == ids.to_multiset(),
        forall|x: u64|
            spec_toggle_in(spec_toggle_in(ids, id), id).contains(x) == ids.contains(x),
{
    broadcast use Seq::lemma_filter_push;

    lemma_purge_props(ids, id);
    if ids.contains(id) {
        // removed, then re-added at the end
        let once = ids.filter(ne_pred(id));
        assert(!once.contains(id));
        assert(spec_toggle_in(ids, id) == once);
        assert(spec_toggle_in(once, id) == once.push(id));
        lemma_purge_multiset(ids, id);
        assert forall|x: u64| once.push(id).contains(x) == ids.contains(x) by {
            if once.push(id).contains(x) {
                if x == id {
                } else {
                    let w = choose|w: int| 0 <= w < once.push(id).len() && once.push(id)[w] == x;
                    assert(once[w] == x);
                    assert(once.contains(x));
                }
            }
            if ids.contains(x) {
                if x == id {
                    assert(once.push(id)[once.len() as int] == x);
                } else {
                    assert(once.contains(x));
                    let w = choose|w: int| 0 <= w < once.len() && once[w] == x;
                    assert(once.push(id)[w] == x);
                }
            }
        }
    } else {
        // added at the end, then removed again
        let once = ids.push(id);
        assert(once.contains(id)) by {
            assert(once[ids.len() as int] == id);
        }
        assert(spec_toggle_in(ids, id) == once);
        assert(spec_toggle_in(once, id) == once.filter(ne_pred(id)));
        assert forall|i: int| 0 <= i < ids.len() implies ne_pred(id)(#[trigger] ids[i]) by {
            if ids[i] == id {
                assert(ids.contains(ids[i]));
            }
        }
        lemma_filter_all_pass(ids, ne_pred(id));
        assert(once.filter(ne_pred(id)) == ids.filter(ne_pred(id)));
        assert(spec_toggle_in(spec_toggle_in(ids, id), id) == ids);
    }
}

/// Law: any other command between two identical `Focus` commands resets
/// the cycle.  When the previous command differs structurally from the
/// incoming `Focus`, that `Focus` runs with an empty cycling memory — so
/// it may at once revisit a window it had already visited before.
pub proof fn lemma_other_cmd_resets_cycle(
    pre: State,
    post: State,
    opts: MatchOptions,
    step: Step,
)
    requires
        spec_exec_post(pre, post, NiriusCmd::Focus { match_opts: opts }, step),
        !(pre.last_cmd matches Some(p) && same_cmd(p, NiriusCmd::Focus { match_opts: opts })),
    ensures
        spec_focus_post(pre, Seq::<u64>::empty(), post, opts, step),
{
}

/// Law: repeated identical `Focus` commands visit all matches before any
/// repeat.  While an unvisited, unfocused match remains, the engine's
/// contract only admits an unvisited choice, and the memory grows by
/// exactly that id; once every match has been visited, the memory resets
/// and holds the new choice alone.
pub proof fn lemma_focus_cycles(
    pre: State,
    v0: Seq<u64>,
    post: State,
    opts: MatchOptions,
    id: u64,
)
    requires
        spec_focus_choice(pre, v0, post, opts, FocusOutcome::Chosen { id }),
        spec_filters_valid(opts),
        !spec_no_match(pre.windows@, opts),
    ensures
        spec_all_matching_visited(pre.windows@, opts, v0) ==> post.visited_win_ids@ =~= seq![id],
        (!spec_all_matching_visited(pre.windows@, opts, v0) && exists|j: int|
            0 <= j < pre.windows@.len() && spec_window_matches(#[trigger] pre.windows@[j], opts)
                && !v0.contains(pre.windows@[j].id) && !pre.windows@[j].is_focused) ==> (
        !v0.contains(id) && post.visited_win_ids@ == v0.push(id)),
{
    let ws = pre.windows@;
    if spec_all_matching_visited(ws, opts, v0) {
        assert(post.visited_win_ids@ =~= seq![id]);
    } else {
        if exists|j: int|
            0 <= j < ws.len() && spec_window_matches(#[trigger] ws[j], opts) && !v0.contains(
                ws[j].id,
            ) && !ws[j].is_focused {
            let j = choose|j: int|
                0 <= j < ws.len() && spec_window_matches(#[trigger] ws[j], opts) && !v0.contains(
                    ws[j].id,
                ) && !ws[j].is_focused;
            let ci = choose|ci: int|
                {
                    &&& 0 <= ci < ws.len() && (#[trigger] ws[ci]).id == id
                    &&& spec_window_matches(ws[ci], opts)
                    &&& forall|j2: int|
                        0 <= j2 < ws.len() && spec_window_matches(#[trigger] ws[j2], opts)
                            && ws[j2].id != id ==> spec_better(ws[ci], ws[j2], v0)
                };
            if v0.contains(id) {
                assert(ws[j].id != id);
                assert(spec_better(ws[ci], ws[j], v0));
                assert(false);
            }
        }
    }
}

} // verus!
