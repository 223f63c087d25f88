//! The state store: the daemon's mirror of the compositor's windows and
//! workspaces, plus the purely local registries — marks, follow mode,
//! scratchpad, and the focus-cycling memory.
//!
//! The window list keeps a recency order: whenever focus changes, the newly
//! focused window moves to the back, so the front holds the least recently
//! focused windows.

use vstd::prelude::*;

use crate::cmds::NiriusCmd;
use crate::strfmt::msg_u64;
use crate::strfmt::msg_u64_u64;
use crate::strfmt::spec_u64_string;

verus! {

/// The slice of a compositor window the engine reads.
pub struct Window {
    pub id: u64,
    pub app_id: Option<String>,
    pub title: Option<String>,
    pub workspace_id: Option<u64>,
    pub is_focused: bool,
    pub is_floating: bool,
}

/// The slice of a compositor workspace the engine reads.  `idx` orders the
/// workspaces of one output; `output` is absent while no output is
/// connected.
pub struct Workspace {
    pub id: u64,
    pub idx: u8,
    pub output: Option<String>,
    pub is_focused: bool,
}

/// One named mark: an ordered list of window ids, oldest first.
pub struct Mark {
    pub name: String,
    pub win_ids: Vec<u64>,
}

/// The daemon's whole mutable state.
pub struct State {
    pub windows: Vec<Window>,
    pub workspaces: Vec<Workspace>,
    pub follow_mode_win_ids: Vec<u64>,
    pub scratchpad_win_ids: Vec<u64>,
    pub marks: Vec<Mark>,
    /// The focus-cycling memory: ids already visited by the current chain
    /// of identical commands.
    pub visited_win_ids: Vec<u64>,
    /// The previous command, compared against the incoming one to decide
    /// whether the cycling memory is reset.
    pub last_cmd: Option<NiriusCmd>,
}

/// `w` with its focus flag cleared.
pub open spec fn spec_unfocus(w: Window) -> Window {
    Window {
        id: w.id,
        app_id: w.app_id,
        title: w.title,
        workspace_id: w.workspace_id,
        is_focused: false,
        is_floating: w.is_floating,
    }
}

/// `w` with its focus flag set exactly when its id is `id`.
pub open spec fn spec_focus_to(w: Window, id: u64) -> Window {
    Window {
        id: w.id,
        app_id: w.app_id,
        title: w.title,
        workspace_id: w.workspace_id,
        is_focused: w.id == id,
        is_floating: w.is_floating,
    }
}

/// `ws` with its focus flag set exactly when its id is `id`.
pub open spec fn spec_ws_focus_to(ws: Workspace, id: u64) -> Workspace {
    Workspace { id: ws.id, idx: ws.idx, output: ws.output, is_focused: ws.id == id }
}

/// Some window in `s` has id `id`.
pub open spec fn spec_has_win_id(s: Seq<Window>, id: u64) -> bool {
    exists|i: int| 0 <= i < s.len() && s[i].id == id
}

/// No id occurs twice.
pub open spec fn no_dup_ids(s: Seq<u64>) -> bool {
    forall|i: int, j: int| 0 <= i < j < s.len() ==> s[i] != s[j]
}

/// All window ids are distinct.
pub open spec fn win_ids_unique(s: Seq<Window>) -> bool {
    forall|i: int, j: int| 0 <= i < j < s.len() ==> s[i].id != s[j].id
}

/// At most one window carries the focus flag.
pub open spec fn at_most_one_focused(s: Seq<Window>) -> bool {
    forall|i: int, j: int|
        0 <= i < j < s.len() ==> !(s[i].is_focused && s[j].is_focused)
}

/// All mark names are distinct.
pub open spec fn mark_names_unique(s: Seq<Mark>) -> bool {
    forall|i: int, j: int| 0 <= i < j < s.len() ==> s[i].name@ != s[j].name@
}

/// The predicate "is not this id", the shape every purge filters with.
pub open spec fn ne_pred(id: u64) -> spec_fn(u64) -> bool {
    |y: u64| y != id
}

/// Every id in the list names a window that is present.
pub open spec fn spec_ids_present(ws: Seq<Window>, ids: Seq<u64>) -> bool {
    forall|j: int| 0 <= j < ids.len() ==> spec_has_win_id(ws, #[trigger] ids[j])
}

/// Presence survives shrinking the id list.
pub proof fn lemma_present_subset(ws: Seq<Window>, olds: Seq<u64>, news: Seq<u64>)
    requires
        spec_ids_present(ws, olds),
        forall|x: u64| #[trigger] news.contains(x) ==> olds.contains(x),
    ensures
        spec_ids_present(ws, news),
{
    assert forall|j: int| 0 <= j < news.len() implies spec_has_win_id(ws, #[trigger] news[j]) by {
        let x = news[j];
        assert(news.contains(x));
        let w = choose|w: int| 0 <= w < olds.len() && olds[w] == x;
        assert(spec_has_win_id(ws, olds[w]));
    }
}

/// Presence survives appending the id of a present window.
pub proof fn lemma_present_push(ws: Seq<Window>, olds: Seq<u64>, id: u64)
    requires
        spec_ids_present(ws, olds),
        spec_has_win_id(ws, id),
    ensures
        spec_ids_present(ws, olds.push(id)),
{
    assert forall|j: int|
        0 <= j < olds.push(id).len() implies spec_has_win_id(ws, #[trigger] olds.push(id)[j]) by {
        if j < olds.len() {
            assert(olds.push(id)[j] == olds[j]);
            assert(spec_has_win_id(ws, olds[j]));
        }
    }
}

/// A list pruned down to present ids holds only present ids, whatever it
/// held before.
pub proof fn lemma_present_pruned(ws: Seq<Window>, ids: Seq<u64>, pred: spec_fn(u64) -> bool)
    requires
        forall|x: u64| #[trigger] pred(x) ==> spec_has_win_id(ws, x),
    ensures
        spec_ids_present(ws, ids.filter(pred)),
{
    lemma_filter_u64_props(ids, pred);
    let f = ids.filter(pred);
    assert forall|j: int| 0 <= j < f.len() implies spec_has_win_id(ws, #[trigger] f[j]) by {
        assert(f.contains(f[j]));
        assert(pred(f[j]));
    }
}

/// The first focused workspace stands at `i`.
pub open spec fn spec_ws_focused_at(wss: Seq<Workspace>, i: int) -> bool {
    0 <= i < wss.len() && wss[i].is_focused && (forall|j: int| 0 <= j < i ==> !wss[j].is_focused)
}

/// The id of the first focused workspace, if any.
pub open spec fn spec_focused_ws_id(wss: Seq<Workspace>) -> Option<u64> {
    if exists|i: int| spec_ws_focused_at(wss, i) {
        Some(wss[choose|i: int| spec_ws_focused_at(wss, i)].id)
    } else {
        None
    }
}

/// The id of the focused window — meaningful under [`at_most_one_focused`],
/// where the choice is the single focused window.
pub open spec fn spec_focused_win_id(s: Seq<Window>) -> Option<u64> {
    if exists|i: int| 0 <= i < s.len() && s[i].is_focused {
        Some(s[choose|i: int| 0 <= i < s.len() && s[i].is_focused].id)
    } else {
        None
    }
}

impl State {
    /// Well-formedness: distinct window ids, a single focus, no duplicate
    /// entries in any registry, distinct mark names.
    pub open spec fn wf(self) -> bool {
        &&& win_ids_unique(self.windows@)
        &&& at_most_one_focused(self.windows@)
        &&& no_dup_ids(self.follow_mode_win_ids@)
        &&& no_dup_ids(self.scratchpad_win_ids@)
        &&& no_dup_ids(self.visited_win_ids@)
        &&& mark_names_unique(self.marks@)
        &&& forall|k: int|
            0 <= k < self.marks@.len() ==> no_dup_ids(#[trigger] self.marks@[k].win_ids@)
    }

    /// Every id a registry refers to names a window that is present.  The
    /// store's own mutations keep this; the engine does not rely on it and
    /// prunes stale ids defensively instead.
    pub open spec fn consistent(self) -> bool {
        &&& spec_ids_present(self.windows@, self.follow_mode_win_ids@)
        &&& spec_ids_present(self.windows@, self.scratchpad_win_ids@)
        &&& spec_ids_present(self.windows@, self.visited_win_ids@)
        &&& forall|k: int|
            0 <= k < self.marks@.len() ==> spec_ids_present(
                self.windows@,
                (#[trigger] self.marks@[k]).win_ids@,
            )
    }

    /// An empty store.
    pub fn new() -> (s: State)
        ensures
            s.wf(),
            s.consistent(),
            s.windows@.len() == 0,
            s.workspaces@.len() == 0,
            s.follow_mode_win_ids@.len() == 0,
            s.scratchpad_win_ids@.len() == 0,
            s.marks@.len() == 0,
            s.visited_win_ids@.len() == 0,
            s.last_cmd is None,
    {
        State {
            windows: Vec::new(),
            workspaces: Vec::new(),
            follow_mode_win_ids: Vec::new(),
            scratchpad_win_ids: Vec::new(),
            marks: Vec::new(),
            visited_win_ids: Vec::new(),
            last_cmd: None,
        }
    }
}

/// An exact copy of an optional string.
pub fn clone_opt_string(s: &Option<String>) -> (r: Option<String>)
    ensures
        r == *s,
{
    match s {
        Option::Some(x) => Some(x.clone()),
        Option::None => None,
    }
}

/// Whether `v` holds `id`.
pub fn contains_id(v: &Vec<u64>, id: u64) -> (r: bool)
    ensures
        r == v@.contains(id),
{
    let mut i: usize = 0;
    while i < v.len()
        invariant
            i <= v@.len(),
            forall|j: int| 0 <= j < i ==> v@[j] != id,
        decreases v@.len() - i,
    {
        if v[i] == id {
            return true;
        }
        i += 1;
    }
    false
}

/// The position of the window with id `id`, if present.
pub fn find_window_index(v: &Vec<Window>, id: u64) -> (r: Option<usize>)
    ensures
        match r {
            Some(i) => i < v@.len() && v@[i as int].id == id,
            None => !spec_has_win_id(v@, id),
        },
{
    let mut i: usize = 0;
    while i < v.len()
        invariant
            i <= v@.len(),
            forall|j: int| 0 <= j < i ==> v@[j].id != id,
        decreases v@.len() - i,
    {
        if v[i].id == id {
            return Some(i);
        }
        i += 1;
    }
    None
}

/// What filtering an id list leaves and what it keeps: the filtered
/// sequence holds exactly the ids the predicate admits, without duplicates
/// if there were none.
pub proof fn lemma_filter_u64_props(s: Seq<u64>, pred: spec_fn(u64) -> bool)
    ensures
        forall|x: u64| #[trigger] s.filter(pred).contains(x) <==> (s.contains(x) && pred(x)),
        no_dup_ids(s) ==> no_dup_ids(s.filter(pred)),
        s.filter(pred).len() <= s.len(),
    decreases s.len(),
{
    broadcast use vstd::seq_lib::group_seq_properties;

    reveal(Seq::filter);
    let f = s.filter(pred);
    if s.len() > 0 {
        lemma_filter_u64_props(s.drop_last(), pred);
        let df = s.drop_last().filter(pred);
        assert forall|x: u64| #[trigger] f.contains(x) implies (s.contains(x) && pred(x)) by {
            if df.contains(x) {
                assert(s.drop_last().contains(x));
                let w = choose|w: int| 0 <= w < s.drop_last().len() && s.drop_last()[w] == x;
                assert(s[w] == x);
            } else {
                assert(x == s.last());
                assert(s[s.len() - 1] == x);
            }
        }
        assert forall|x: u64| s.contains(x) && pred(x) implies #[trigger] f.contains(x) by {
            let w = choose|w: int| 0 <= w < s.len() && s[w] == x;
            if w < s.len() - 1 {
                assert(s.drop_last()[w] == x);
                assert(s.drop_last().contains(x));
                assert(df.contains(x));
                let u = choose|u: int| 0 <= u < df.len() && df[u] == x;
                if pred(s.last()) {
                    assert(f == df.push(s.last()));
                    assert(f[u] == x);
                } else {
                    assert(f == df);
                    assert(f[u] == x);
                }
            } else {
                assert(pred(x));
                assert(f.last() == x);
            }
        }
        if no_dup_ids(s) {
            assert(no_dup_ids(s.drop_last())) by {
                assert forall|i: int, j: int|
                    0 <= i < j < s.drop_last().len() implies s.drop_last()[i]
                    != s.drop_last()[j] by {
                    assert(s.drop_last()[i] == s[i]);
                    assert(s.drop_last()[j] == s[j]);
                }
            }
            assert forall|i: int, j: int| 0 <= i < j < f.len() implies f[i] != f[j] by {
                if pred(s.last()) {
                    assert(f == df.push(s.last()));
                    if j < f.len() - 1 {
                        assert(f[i] == df[i] && f[j] == df[j]);
                    } else {
                        assert(f[j] == s.last());
                        assert(f[i] == df[i]);
                        if df[i] == s.last() {
                            assert(df.contains(df[i]));
                            assert(s.drop_last().contains(s.last()));
                            let w = choose|w: int|
                                0 <= w < s.drop_last().len() && s.drop_last()[w] == s.last();
                            assert(s[w] == s[s.len() - 1]);
                            assert(false);
                        }
                    }
                } else {
                    assert(f == df);
                }
            }
        }
    }
}

/// The purge instance of [`lemma_filter_u64_props`]: what removing one id
/// leaves behind.
pub proof fn lemma_purge_props(s: Seq<u64>, id: u64)
    ensures
        forall|x: u64| #[trigger] s.filter(ne_pred(id)).contains(x) <==> (s.contains(x) && x != id),
        no_dup_ids(s) ==> no_dup_ids(s.filter(ne_pred(id))),
        s.filter(ne_pred(id)).len() <= s.len(),
{
    lemma_filter_u64_props(s, ne_pred(id));
}

/// Removes every occurrence of `id`, keeping the order of the rest.
pub fn remove_id(v: &mut Vec<u64>, id: u64)
    ensures
        final(v)@ == old(v)@.filter(ne_pred(id)),
{
    broadcast use Seq::lemma_filter_push;

    let mut out: Vec<u64> = Vec::new();
    let mut i: usize = 0;
    while i < v.len()
        invariant
            i <= v@.len(),
            out@ == v@.take(i as int).filter(ne_pred(id)),
        decreases v@.len() - i,
    {
        let ghost pre = v@.take(i as int);
        proof {
            assert(v@.take(i as int + 1) =~= pre.push(v@[i as int]));
        }
        if v[i] != id {
            out.push(v[i]);
        }
        proof {
            pre.lemma_filter_push(v@[i as int], ne_pred(id));
        }
        i += 1;
    }
    proof {
        assert(v@.take(v@.len() as int) =~= v@);
    }
    *v = out;
}

/// The workspace lies on the output named `o`.
pub open spec fn spec_on_output(ws: Workspace, o: Seq<char>) -> bool {
    match ws.output {
        Some(s) => s@ == o,
        None => false,
    }
}

/// Sets the focus flag of every window to "its id is `id`".
pub fn set_focus_flags(v: &mut Vec<Window>, id: u64)
    ensures
        final(v)@.len() == old(v)@.len(),
        forall|j: int| 0 <= j < old(v)@.len() ==> final(v)@[j] == spec_focus_to(old(v)@[j], id),
{
    let mut i: usize = 0;
    while i < v.len()
        invariant
            i <= v@.len(),
            v@.len() == old(v)@.len(),
            forall|j: int| 0 <= j < i ==> v@[j] == spec_focus_to(old(v)@[j], id),
            forall|j: int| i <= j < v@.len() ==> v@[j] == old(v)@[j],
        decreases v@.len() - i,
    {
        let w = Window {
            id: v[i].id,
            app_id: clone_opt_string(&v[i].app_id),
            title: clone_opt_string(&v[i].title),
            workspace_id: v[i].workspace_id,
            is_focused: v[i].id == id,
            is_floating: v[i].is_floating,
        };
        v[i] = w;
        i += 1;
    }
}

/// Clears the focus flag of every window.
pub fn clear_focus_flags(v: &mut Vec<Window>)
    ensures
        final(v)@.len() == old(v)@.len(),
        forall|j: int| 0 <= j < old(v)@.len() ==> final(v)@[j] == spec_unfocus(old(v)@[j]),
{
    let mut i: usize = 0;
    while i < v.len()
        invariant
            i <= v@.len(),
            v@.len() == old(v)@.len(),
            forall|j: int| 0 <= j < i ==> v@[j] == spec_unfocus(old(v)@[j]),
            forall|j: int| i <= j < v@.len() ==> v@[j] == old(v)@[j],
        decreases v@.len() - i,
    {
        if v[i].is_focused {
            let w = Window {
                id: v[i].id,
                app_id: clone_opt_string(&v[i].app_id),
                title: clone_opt_string(&v[i].title),
                workspace_id: v[i].workspace_id,
                is_focused: false,
                is_floating: v[i].is_floating,
            };
            v[i] = w;
        }
        i += 1;
    }
}

/// What [`State::register_window`] does to the store and reports back.
pub open spec fn spec_register_post(
    pre: State,
    post: State,
    win: Window,
    r: Result<String, String>,
) -> bool {
    &&& post.workspaces == pre.workspaces
    &&& post.follow_mode_win_ids == pre.follow_mode_win_ids
    &&& post.scratchpad_win_ids == pre.scratchpad_win_ids
    &&& post.marks == pre.marks
    &&& post.visited_win_ids == pre.visited_win_ids
    &&& post.last_cmd == pre.last_cmd
    &&& ({
        let olds = pre.windows@;
        let news = post.windows@;
        if spec_has_win_id(olds, win.id) {
            &&& news.len() == olds.len()
            &&& forall|j: int|
                0 <= j < olds.len() && olds[j].id == win.id ==> #[trigger] news[j] == win
            &&& forall|j: int|
                0 <= j < olds.len() && olds[j].id != win.id ==> #[trigger] news[j] == (
                if win.is_focused {
                    spec_unfocus(olds[j])
                } else {
                    olds[j]
                })
        } else {
            &&& news.len() == olds.len() + 1
            &&& news[olds.len() as int] == win
            &&& forall|j: int|
                0 <= j < olds.len() ==> #[trigger] news[j] == (if win.is_focused {
                    spec_unfocus(olds[j])
                } else {
                    olds[j]
                })
        }
    })
    &&& r matches Ok(m) && m@ == (if spec_has_win_id(pre.windows@, win.id) {
        "Updated window "@ + spec_u64_string(win.id as int) + "."@
    } else {
        "Registered window "@ + spec_u64_string(win.id as int) + ". Currently managing "@
            + spec_u64_string(post.windows@.len() as int) + " windows."@
    })
}

/// What [`State::remove_window`] does: the window goes, and its id is
/// purged from every registry at once — no stale reference remains.
pub open spec fn spec_remove_post(
    pre: State,
    post: State,
    id: u64,
    r: Result<String, String>,
) -> bool {
    &&& post.workspaces == pre.workspaces
    &&& post.last_cmd == pre.last_cmd
    &&& ({
        let olds = pre.windows@;
        let news = post.windows@;
        if spec_has_win_id(olds, id) {
            exists|i: int| 0 <= i < olds.len() && olds[i].id == id && news == olds.remove(i)
        } else {
            news == olds
        }
    })
    &&& post.follow_mode_win_ids@ == pre.follow_mode_win_ids@.filter(ne_pred(id))
    &&& post.scratchpad_win_ids@ == pre.scratchpad_win_ids@.filter(ne_pred(id))
    &&& post.visited_win_ids@ == pre.visited_win_ids@.filter(ne_pred(id))
    &&& post.marks@.len() == pre.marks@.len()
    &&& forall|k: int|
        0 <= k < pre.marks@.len() ==> (#[trigger] post.marks@[k]).name == pre.marks@[k].name
            && post.marks@[k].win_ids@ == pre.marks@[k].win_ids@.filter(ne_pred(id))
    // the purge leaves nothing behind
    &&& !spec_has_win_id(post.windows@, id)
    &&& !post.follow_mode_win_ids@.contains(id)
    &&& !post.scratchpad_win_ids@.contains(id)
    &&& !post.visited_win_ids@.contains(id)
    &&& forall|k: int|
        0 <= k < post.marks@.len() ==> !(#[trigger] post.marks@[k]).win_ids@.contains(id)
    &&& r matches Ok(m) && m@ == "Removed window with id "@ + spec_u64_string(id as int)
        + ". Currently managing "@ + spec_u64_string(post.windows@.len() as int) + " windows."@
}

/// What [`State::window_focus_changed`] does: focus flags follow the
/// given id, and the newly focused window moves to the recency end.
pub open spec fn spec_focus_changed_post(
    pre: State,
    post: State,
    opt_id: Option<u64>,
    r: Result<String, String>,
) -> bool {
    &&& post.workspaces == pre.workspaces
    &&& post.follow_mode_win_ids == pre.follow_mode_win_ids
    &&& post.scratchpad_win_ids == pre.scratchpad_win_ids
    &&& post.marks == pre.marks
    &&& post.visited_win_ids == pre.visited_win_ids
    &&& post.last_cmd == pre.last_cmd
    &&& ({
        let olds = pre.windows@;
        let news = post.windows@;
        match opt_id {
            Some(id) => {
                let mid = olds.map_values(|w: Window| spec_focus_to(w, id));
                if spec_has_win_id(olds, id) {
                    exists|i: int|
                        0 <= i < olds.len() && olds[i].id == id && news == mid.remove(i).push(
                            mid[i],
                        )
                } else {
                    news == mid
                }
            },
            None => news.len() == olds.len() && (forall|j: int|
                0 <= j < olds.len() ==> news[j] == spec_unfocus(olds[j])),
        }
    })
    &&& r matches Ok(m) && m@ == (match opt_id {
        Some(id) => if spec_has_win_id(pre.windows@, id) {
            "Updated focus to window "@ + spec_u64_string(id as int) + "."@
        } else {
            "Updated focus (no window is focused)."@
        },
        None => "No window has focus anymore."@,
    })
}

/// What [`State::workspaces_changed`] does: the workspace list is
/// replaced wholesale.
pub open spec fn spec_workspaces_changed_post(
    pre: State,
    post: State,
    workspaces: Vec<Workspace>,
    r: Result<String, String>,
) -> bool {
    &&& post.workspaces == workspaces
    &&& post.windows == pre.windows
    &&& post.follow_mode_win_ids == pre.follow_mode_win_ids
    &&& post.scratchpad_win_ids == pre.scratchpad_win_ids
    &&& post.marks == pre.marks
    &&& post.visited_win_ids == pre.visited_win_ids
    &&& post.last_cmd == pre.last_cmd
    &&& r matches Ok(m) && m@ == "Updated all workspaces."@
}

/// What [`State::workspace_focused`] does: every workspace focus flag
/// becomes "its id is the given one".
pub open spec fn spec_workspace_focused_post(pre: State, post: State, id: u64) -> bool {
    &&& post.workspaces@.len() == pre.workspaces@.len()
    &&& forall|j: int|
        0 <= j < pre.workspaces@.len() ==> post.workspaces@[j] == spec_ws_focus_to(
            pre.workspaces@[j],
            id,
        )
    &&& post.windows == pre.windows
    &&& post.follow_mode_win_ids == pre.follow_mode_win_ids
    &&& post.scratchpad_win_ids == pre.scratchpad_win_ids
    &&& post.marks == pre.marks
    &&& post.visited_win_ids == pre.visited_win_ids
    &&& post.last_cmd == pre.last_cmd
}

impl State {
    /// The id of the focused window, if any.
    pub fn get_focused_win_id(&self) -> (r: Option<u64>)
        ensures
            match r {
                Some(id) => exists|i: int|
                    0 <= i < self.windows@.len() && self.windows@[i].is_focused
                        && self.windows@[i].id == id,
                None => forall|i: int|
                    0 <= i < self.windows@.len() ==> !self.windows@[i].is_focused,
            },
            at_most_one_focused(self.windows@) ==> r == spec_focused_win_id(self.windows@),
    {
        let mut i: usize = 0;
        while i < self.windows.len()
            invariant
                i <= self.windows@.len(),
                forall|j: int| 0 <= j < i ==> !self.windows@[j].is_focused,
            decreases self.windows@.len() - i,
        {
            if self.windows[i].is_focused {
                proof {
                    if at_most_one_focused(self.windows@) {
                        let c = choose|k: int|
                            0 <= k < self.windows@.len() && self.windows@[k].is_focused;
                        assert(c == i as int);
                    }
                }
                return Some(self.windows[i].id);
            }
            i += 1;
        }
        None
    }

    /// Replaces or inserts the window with `win`'s id.  A focused incoming
    /// window steals the focus flag from every other window, keeping the
    /// single-focus invariant; an existing window keeps its position, a new
    /// one is appended as the newest entry.
    pub fn register_window(&mut self, win: Window) -> (r: Result<String, String>)
        requires
            old(self).wf(),
        ensures
            final(self).wf(),
            old(self).consistent() ==> final(self).consistent(),
            spec_register_post(*old(self), *final(self), win, r),
    {
        let id = win.id;
        let idx_opt = find_window_index(&self.windows, id);
        if win.is_focused {
            clear_focus_flags(&mut self.windows);
        }
        let r: Result<String, String>;
        match idx_opt {
            Some(i) => {
                self.windows[i] = win;
                r = Ok(msg_u64("Updated window ", id, "."));
            },
            None => {
                self.windows.push(win);
                r = Ok(
                    msg_u64_u64(
                        "Registered window ",
                        id,
                        ". Currently managing ",
                        self.windows.len() as u64,
                        " windows.",
                    ),
                );
            },
        }
        proof {
            let olds = old(self).windows@;
            let news = self.windows@;
            assert forall|x: u64| spec_has_win_id(olds, x) implies spec_has_win_id(news, x) by {
                let w = choose|w: int| 0 <= w < olds.len() && olds[w].id == x;
                assert(news[w].id == x);
            }
            assert(win_ids_unique(news)) by {
                assert forall|i2: int, j2: int|
                    0 <= i2 < j2 < news.len() implies news[i2].id != news[j2].id by {
                    if i2 < olds.len() {
                        assert(news[i2].id == olds[i2].id);
                    }
                    if j2 < olds.len() {
                        assert(news[j2].id == olds[j2].id);
                    }
                }
            }
            assert(at_most_one_focused(news)) by {
                assert forall|i2: int, j2: int|
                    0 <= i2 < j2 < news.len() implies !(news[i2].is_focused
                    && news[j2].is_focused) by {}
            }
            if old(self).consistent() {
                assert forall|j: int|
                    0 <= j < self.follow_mode_win_ids@.len() implies spec_has_win_id(
                    news,
                    #[trigger] self.follow_mode_win_ids@[j],
                ) by {}
                assert forall|j: int|
                    0 <= j < self.scratchpad_win_ids@.len() implies spec_has_win_id(
                    news,
                    #[trigger] self.scratchpad_win_ids@[j],
                ) by {}
                assert forall|j: int|
                    0 <= j < self.visited_win_ids@.len() implies spec_has_win_id(
                    news,
                    #[trigger] self.visited_win_ids@[j],
                ) by {}
                assert forall|k: int, j: int|
                    0 <= k < self.marks@.len() && 0 <= j < self.marks@[k].win_ids@.len()
                    implies spec_has_win_id(news, #[trigger] self.marks@[k].win_ids@[j]) by {}
            }
        }
        r
    }

    /// Deletes the window and purges its id from the marks, the follow-mode
    /// set, the scratchpad set and the cycling memory, all in one step; no
    /// stale reference to it remains anywhere in the store.
    pub fn remove_window(&mut self, id: &u64) -> (r: Result<String, String>)
        requires
            old(self).wf(),
        ensures
            final(self).wf(),
            final(self).consistent() <== old(self).consistent(),
            spec_remove_post(*old(self), *final(self), *id, r),
    {
        let id = *id;
        proof {
            lemma_purge_props(old(self).follow_mode_win_ids@, id);
            lemma_purge_props(old(self).scratchpad_win_ids@, id);
            lemma_purge_props(old(self).visited_win_ids@, id);
        }
        let idx_opt = find_window_index(&self.windows, id);
        match idx_opt {
            Some(i) => {
                self.windows.remove(i);
            },
            None => {},
        }
        proof {
            let olds = old(self).windows@;
            let news = self.windows@;
            match idx_opt {
                Some(iu) => {
                    let i = iu as int;
                    assert(news == olds.remove(i));
                    assert(olds[i].id == id);
                    assert forall|j: int|
                        0 <= j < news.len() implies news[j] == (if j < i {
                        olds[j]
                    } else {
                        olds[j + 1]
                    }) by {}
                    assert(win_ids_unique(news)) by {
                        assert forall|i2: int, j2: int|
                            0 <= i2 < j2 < news.len() implies news[i2].id != news[j2].id by {}
                    }
                    assert(at_most_one_focused(news)) by {
                        assert forall|i2: int, j2: int|
                            0 <= i2 < j2 < news.len() implies !(news[i2].is_focused
                            && news[j2].is_focused) by {}
                    }
                    assert(!spec_has_win_id(news, id)) by {
                        if spec_has_win_id(news, id) {
                            let w = choose|w: int| 0 <= w < news.len() && news[w].id == id;
                            assert(news[w] == (if w < i {
                                olds[w]
                            } else {
                                olds[w + 1]
                            }));
                            assert(false);
                        }
                    }
                    assert forall|x: u64|
                        spec_has_win_id(olds, x) && x != id implies spec_has_win_id(news, x) by {
                        let w = choose|w: int| 0 <= w < olds.len() && olds[w].id == x;
                        if w < i {
                            assert(news[w].id == x);
                        } else {
                            assert(w != i);
                            assert(news[w - 1].id == x);
                        }
                    }
                },
                None => {
                    assert(news == olds);
                },
            }
        }
        remove_id(&mut self.follow_mode_win_ids, id);
        remove_id(&mut self.scratchpad_win_ids, id);
        remove_id(&mut self.visited_win_ids, id);
        let ghost mid = *self;
        let mut k: usize = 0;
        while k < self.marks.len()
            invariant
                k <= self.marks@.len(),
                self.windows == mid.windows,
                self.workspaces == mid.workspaces,
                self.follow_mode_win_ids == mid.follow_mode_win_ids,
                self.scratchpad_win_ids == mid.scratchpad_win_ids,
                self.visited_win_ids == mid.visited_win_ids,
                self.last_cmd == mid.last_cmd,
                self.marks@.len() == mid.marks@.len(),
                forall|j: int|
                    0 <= j < k ==> (#[trigger] self.marks@[j]).name == mid.marks@[j].name
                        && self.marks@[j].win_ids@ == mid.marks@[j].win_ids@.filter(ne_pred(id)),
                forall|j: int|
                    k <= j < self.marks@.len() ==> #[trigger] self.marks@[j] == mid.marks@[j],
            decreases self.marks@.len() - k,
        {
            let ghost prevmarks = self.marks@;
            let mut m = self.marks.remove(k);
            remove_id(&mut m.win_ids, id);
            self.marks.insert(k, m);
            proof {
                assert forall|j: int|
                    0 <= j < self.marks@.len() && j != k implies #[trigger] self.marks@[j]
                    == prevmarks[j] by {
                    assert(self.marks@ == prevmarks.remove(k as int).insert(k as int, m));
                }
            }
            k += 1;
        }
        proof {
            assert(mid.marks == old(self).marks);
            assert forall|k2: int|
                0 <= k2 < self.marks@.len() implies no_dup_ids(
                (#[trigger] self.marks@[k2]).win_ids@,
            ) && !self.marks@[k2].win_ids@.contains(id) && self.marks@[k2].win_ids@ == old(
                self,
            ).marks@[k2].win_ids@.filter(ne_pred(id)) by {
                lemma_purge_props(old(self).marks@[k2].win_ids@, id);
            }
            if old(self).consistent() {
                assert forall|j: int|
                    0 <= j < self.follow_mode_win_ids@.len() implies spec_has_win_id(
                    self.windows@,
                    #[trigger] self.follow_mode_win_ids@[j],
                ) by {
                    let x = self.follow_mode_win_ids@[j];
                    assert(self.follow_mode_win_ids@.contains(x));
                    let w = choose|w: int|
                        0 <= w < old(self).follow_mode_win_ids@.len() && old(
                            self,
                        ).follow_mode_win_ids@[w] == x;
                    assert(spec_has_win_id(old(self).windows@, x));
                }
                assert forall|j: int|
                    0 <= j < self.scratchpad_win_ids@.len() implies spec_has_win_id(
                    self.windows@,
                    #[trigger] self.scratchpad_win_ids@[j],
                ) by {
                    let x = self.scratchpad_win_ids@[j];
                    assert(self.scratchpad_win_ids@.contains(x));
                    let w = choose|w: int|
                        0 <= w < old(self).scratchpad_win_ids@.len() && old(
                            self,
                        ).scratchpad_win_ids@[w] == x;
                    assert(spec_has_win_id(old(self).windows@, x));
                }
                assert forall|j: int|
                    0 <= j < self.visited_win_ids@.len() implies spec_has_win_id(
                    self.windows@,
                    #[trigger] self.visited_win_ids@[j],
                ) by {
                    let x = self.visited_win_ids@[j];
                    assert(self.visited_win_ids@.contains(x));
                    let w = choose|w: int|
                        0 <= w < old(self).visited_win_ids@.len() && old(
                            self,
                        ).visited_win_ids@[w] == x;
                    assert(spec_has_win_id(old(self).windows@, x));
                }
                assert forall|k2: int, j: int|
                    0 <= k2 < self.marks@.len() && 0 <= j < self.marks@[k2].win_ids@.len()
                    implies spec_has_win_id(
                    self.windows@,
                    #[trigger] self.marks@[k2].win_ids@[j],
                ) by {
                    lemma_purge_props(old(self).marks@[k2].win_ids@, id);
                    let x = self.marks@[k2].win_ids@[j];
                    assert(self.marks@[k2].win_ids@.contains(x));
                    let w = choose|w: int|
                        0 <= w < old(self).marks@[k2].win_ids@.len() && old(
                            self,
                        ).marks@[k2].win_ids@[w] == x;
                    assert(spec_has_win_id(old(self).windows@, x));
                }
            }
        }
        Ok(
            msg_u64_u64(
                "Removed window with id ",
                id,
                ". Currently managing ",
                self.windows.len() as u64,
                " windows.",
            ),
        )
    }

    /// Applies a compositor focus change: every focus flag becomes "its id
    /// is the given one", and the newly focused window, if present, moves
    /// to the most-recently-focused end of the window list.  With `None`,
    /// all focus flags are cleared.  Succeeds even when the id names no
    /// window.
    pub fn window_focus_changed(&mut self, opt_id: Option<u64>) -> (r: Result<String, String>)
        requires
            old(self).wf(),
        ensures
            final(self).wf(),
            old(self).consistent() ==> final(self).consistent(),
            spec_focus_changed_post(*old(self), *final(self), opt_id, r),
    {
        match opt_id {
            Some(id) => {
                set_focus_flags(&mut self.windows, id);
                let ghost mid = self.windows@;
                let idx_opt = find_window_index(&self.windows, id);
                match idx_opt {
                    Some(i) => {
                        let w = self.windows.remove(i);
                        self.windows.push(w);
                        proof {
                            let olds = old(self).windows@;
                            let news = self.windows@;
                            assert(spec_has_win_id(olds, id)) by {
                                assert(olds[i as int].id == id);
                            }
                            let mapped = olds.map_values(|w: Window| spec_focus_to(w, id));
                            assert(mid =~= mapped);
                            assert(news == mid.remove(i as int).push(mid[i as int]));
                            assert((i as int) < olds.len() && olds[i as int].id == id && news
                                == mapped.remove(i as int).push(mapped[i as int]));
                            assert forall|j: int|
                                0 <= j < news.len() implies news[j] == (if j < i {
                                mid[j]
                            } else if j < news.len() - 1 {
                                mid[j + 1]
                            } else {
                                mid[i as int]
                            }) by {}
                            assert(win_ids_unique(news)) by {
                                assert forall|i2: int, j2: int|
                                    0 <= i2 < j2 < news.len() implies news[i2].id
                                    != news[j2].id by {}
                            }
                            assert(at_most_one_focused(news)) by {
                                assert forall|i2: int, j2: int|
                                    0 <= i2 < j2 < news.len() implies !(news[i2].is_focused
                                    && news[j2].is_focused) by {
                                    if news[i2].is_focused && news[j2].is_focused {
                                        assert(news[i2].id == id && news[j2].id == id);
                                    }
                                }
                            }
                            assert forall|x: u64|
                                spec_has_win_id(olds, x) implies spec_has_win_id(news, x) by {
                                let w2 = choose|w2: int|
                                    0 <= w2 < olds.len() && olds[w2].id == x;
                                if w2 < i {
                                    assert(news[w2].id == x);
                                } else if w2 == i {
                                    assert(news[news.len() - 1].id == x);
                                } else {
                                    assert(news[w2 - 1].id == x);
                                }
                            }
                        }
                        Ok(msg_u64("Updated focus to window ", id, "."))
                    },
                    None => {
                        proof {
                            let olds = old(self).windows@;
                            let news = self.windows@;
                            assert(news =~= olds.map_values(|w: Window| spec_focus_to(w, id)));
                            assert forall|i2: int|
                                0 <= i2 < news.len() implies !news[i2].is_focused by {
                                assert(news[i2] == spec_focus_to(olds[i2], id));
                                assert(news[i2].id != id);
                            }
                            assert forall|x: u64|
                                spec_has_win_id(olds, x) implies spec_has_win_id(news, x) by {
                                let w2 = choose|w2: int|
                                    0 <= w2 < olds.len() && olds[w2].id == x;
                                assert(news[w2].id == x);
                            }
                        }
                        Ok("Updated focus (no window is focused).".to_owned())
                    },
                }
            },
            None => {
                clear_focus_flags(&mut self.windows);
                proof {
                    let olds = old(self).windows@;
                    let news = self.windows@;
                    assert forall|x: u64|
                        spec_has_win_id(olds, x) implies spec_has_win_id(news, x) by {
                        let w2 = choose|w2: int| 0 <= w2 < olds.len() && olds[w2].id == x;
                        assert(news[w2].id == x);
                    }
                }
                Ok("No window has focus anymore.".to_owned())
            },
        }
    }

    /// Replaces the workspace list wholesale.
    pub fn workspaces_changed(&mut self, workspaces: Vec<Workspace>) -> (r: Result<
        String,
        String,
    >)
        ensures
            old(self).wf() ==> final(self).wf(),
            old(self).consistent() ==> final(self).consistent(),
            spec_workspaces_changed_post(*old(self), *final(self), workspaces, r),
    {
        self.workspaces = workspaces;
        Ok("Updated all workspaces.".to_owned())
    }

    /// Applies a compositor workspace focus change: every workspace focus
    /// flag becomes "its id is the given one".
    pub fn workspace_focused(&mut self, id: u64)
        ensures
            old(self).wf() ==> final(self).wf(),
            old(self).consistent() ==> final(self).consistent(),
            spec_workspace_focused_post(*old(self), *final(self), id),
    {
        let mut i: usize = 0;
        while i < self.workspaces.len()
            invariant
                i <= self.workspaces@.len(),
                self.workspaces@.len() == old(self).workspaces@.len(),
                forall|j: int|
                    0 <= j < i ==> self.workspaces@[j] == spec_ws_focus_to(
                        old(self).workspaces@[j],
                        id,
                    ),
                forall|j: int|
                    i <= j < self.workspaces@.len() ==> self.workspaces@[j] == old(
                        self,
                    ).workspaces@[j],
                self.windows == old(self).windows,
                self.follow_mode_win_ids == old(self).follow_mode_win_ids,
                self.scratchpad_win_ids == old(self).scratchpad_win_ids,
                self.marks == old(self).marks,
                self.visited_win_ids == old(self).visited_win_ids,
                self.last_cmd == old(self).last_cmd,
            decreases self.workspaces@.len() - i,
        {
            let ws = Workspace {
                id: self.workspaces[i].id,
                idx: self.workspaces[i].idx,
                output: clone_opt_string(&self.workspaces[i].output),
                is_focused: self.workspaces[i].id == id,
            };
            self.workspaces[i] = ws;
            i += 1;
        }
    }

    /// The first focused workspace, if any.
    pub fn get_focused_workspace(&self) -> (r: Option<&Workspace>)
        ensures
            match r {
                Some(ws) => exists|i: int|
                    0 <= i < self.workspaces@.len() && *ws == self.workspaces@[i]
                        && ws.is_focused && (forall|j: int|
                        0 <= j < i ==> !self.workspaces@[j].is_focused),
                None => forall|j: int|
                    0 <= j < self.workspaces@.len() ==> !self.workspaces@[j].is_focused,
            },
    {
        let mut i: usize = 0;
        while i < self.workspaces.len()
            invariant
                i <= self.workspaces@.len(),
                forall|j: int| 0 <= j < i ==> !self.workspaces@[j].is_focused,
            decreases self.workspaces@.len() - i,
        {
            if self.workspaces[i].is_focused {
                return Some(&self.workspaces[i]);
            }
            i += 1;
        }
        None
    }

    /// The id of the first focused workspace, if any.
    pub fn get_focused_workspace_id(&self) -> (r: Option<u64>)
        ensures
            match r {
                Some(wid) => exists|i: int|
                    0 <= i < self.workspaces@.len() && self.workspaces@[i].is_focused
                        && self.workspaces@[i].id == wid && (forall|j: int|
                        0 <= j < i ==> !self.workspaces@[j].is_focused),
                None => forall|j: int|
                    0 <= j < self.workspaces@.len() ==> !self.workspaces@[j].is_focused,
            },
            r == spec_focused_ws_id(self.workspaces@),
    {
        let wss = &self.workspaces;
        match self.get_focused_workspace() {
            Some(ws) => {
                proof {
                    let i = choose|i: int|
                        0 <= i < wss@.len() && *ws == wss@[i] && ws.is_focused && (forall|j: int|
                            0 <= j < i ==> !wss@[j].is_focused);
                    assert(spec_ws_focused_at(wss@, i));
                    let c = choose|c: int| spec_ws_focused_at(wss@, c);
                    assert(spec_ws_focused_at(wss@, c));
                    if c < i {
                        assert(!wss@[c].is_focused);
                        assert(false);
                    }
                    if i < c {
                        assert(!wss@[i].is_focused);
                        assert(false);
                    }
                }
                Some(ws.id)
            },
            None => {
                proof {
                    if exists|i: int| spec_ws_focused_at(wss@, i) {
                        let c = choose|c: int| spec_ws_focused_at(wss@, c);
                        assert(!wss@[c].is_focused);
                        assert(false);
                    }
                }
                None
            },
        }
    }

    /// The workspace with the highest index on the given output — the
    /// scratchpad target.  Fails exactly when no workspace lies on that
    /// output.  Of several workspaces sharing the highest index, the last
    /// one wins.
    pub fn get_bottom_workspace_id_and_idx_of_output(&self, output: &str) -> (r: Option<
        (u64, u8),
    >)
        ensures
            match r {
                Some(p) => exists|i: int|
                    0 <= i < self.workspaces@.len() && spec_on_output(
                        self.workspaces@[i],
                        output@,
                    ) && self.workspaces@[i].id == p.0 && self.workspaces@[i].idx == p.1 && (
                    forall|j: int|
                        0 <= j < self.workspaces@.len() && spec_on_output(
                            #[trigger] self.workspaces@[j],
                            output@,
                        ) ==> self.workspaces@[j].idx <= p.1 && (self.workspaces@[j].idx == p.1
                            ==> j <= i)),
                None => forall|j: int|
                    0 <= j < self.workspaces@.len() ==> !spec_on_output(
                        #[trigger] self.workspaces@[j],
                        output@,
                    ),
            },
    {
        let o: String = output.to_owned();
        let mut best: Option<(u64, u8)> = None;
        let ghost mut best_i: int = 0;
        let mut i: usize = 0;
        while i < self.workspaces.len()
            invariant
                i <= self.workspaces@.len(),
                o@ == output@,
                match best {
                    Some(p) => 0 <= best_i < i && spec_on_output(
                        self.workspaces@[best_i],
                        output@,
                    ) && self.workspaces@[best_i].id == p.0 && self.workspaces@[best_i].idx == p.1
                        && (forall|j: int|
                        0 <= j < i && spec_on_output(#[trigger] self.workspaces@[j], output@)
                            ==> self.workspaces@[j].idx <= p.1 && (self.workspaces@[j].idx == p.1
                            ==> j <= best_i)),
                    None => forall|j: int|
                        0 <= j < i ==> !spec_on_output(#[trigger] self.workspaces@[j], output@),
                },
            decreases self.workspaces@.len() - i,
        {
            let on_out: bool = match &self.workspaces[i].output {
                Some(s) => s.eq(&o),
                None => false,
            };
            if on_out {
                let take_it: bool = match &best {
                    Some(p) => self.workspaces[i].idx >= p.1,
                    None => true,
                };
                if take_it {
                    best = Some((self.workspaces[i].id, self.workspaces[i].idx));
                    proof {
                        best_i = i as int;
                    }
                }
            }
            i += 1;
        }
        best
    }

    /// The first focused workspace stands at `i`, its output's bottom
    /// workspace (highest index) at `b`, and the focused index plus one is
    /// the bottom index.
    pub open spec fn spec_bottom_focused_at(self, i: int, b: int) -> bool {
        let wss = self.workspaces@;
        &&& 0 <= i < wss.len() && wss[i].is_focused
        &&& forall|j: int| 0 <= j < i ==> !wss[j].is_focused
        &&& wss[i].output is Some
        &&& 0 <= b < wss.len() && spec_on_output(wss[b], wss[i].output->0@)
        &&& forall|j: int|
            0 <= j < wss.len() && spec_on_output(#[trigger] wss[j], wss[i].output->0@)
                ==> wss[j].idx <= wss[b].idx
        &&& wss[i].idx + 1 == wss[b].idx
    }

    /// Whether the focused workspace is the bottom-most of its output: its
    /// index plus one equals the highest index there, the trailing empty
    /// workspace the compositor keeps.
    pub fn is_bottom_workspace_focused(&self) -> (r: bool)
        ensures
            r == exists|i: int, b: int| self.spec_bottom_focused_at(i, b),
    {
        let ghost wss = self.workspaces@;
        match self.get_focused_workspace() {
            Some(ws) => {
                let ghost fi = choose|i: int|
                    0 <= i < wss.len() && *ws == wss[i] && ws.is_focused && (forall|j: int|
                        0 <= j < i ==> !wss[j].is_focused);
                match &ws.output {
                    Some(o) => {
                        let r2 = self.get_bottom_workspace_id_and_idx_of_output(o.as_str());
                        match r2 {
                            Some(p) => {
                                let r: bool = (ws.idx as u64) + 1 == (p.1 as u64);
                                proof {
                                    let bi = choose|b: int|
                                        0 <= b < wss.len() && spec_on_output(wss[b], o@)
                                            && wss[b].id == p.0 && wss[b].idx == p.1 && (forall|
                                            j: int,
                                        |
                                            0 <= j < wss.len() && spec_on_output(
                                                #[trigger] wss[j],
                                                o@,
                                            ) ==> wss[j].idx <= p.1 && (wss[j].idx == p.1 ==> j
                                                <= b));
                                    if r {
                                        assert(spec_on_output(wss[bi], wss[fi].output->0@));
                                        assert(self.spec_bottom_focused_at(fi, bi));
                                    } else {
                                        assert forall|i2: int, b2: int|
                                            !self.spec_bottom_focused_at(i2, b2) by {
                                            if 0 <= i2 < wss.len() && wss[i2].is_focused && (
                                            forall|j: int| 0 <= j < i2 ==> !wss[j].is_focused) {
                                                assert(i2 == fi);
                                            }
                                        }
                                    }
                                }
                                r
                            },
                            None => {
                                proof {
                                    assert(spec_on_output(wss[fi], o@));
                                }
                                false
                            },
                        }
                    },
                    None => false,
                }
            },
            None => false,
        }
    }
}

} // verus!
