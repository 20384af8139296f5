//! A host whose tabs are those of the hub's own session.
use crate::collections::{TextMap, TextSet};
use crate::json;
use crate::json::{Json, JsonModel};
use crate::orca_mux::layout;
use crate::orca_mux::layout::LayoutModel;
use crate::orca_mux::session;
use crate::orca_mux::session::{AppTab, AppTabModel};
use crate::paseo_client::envelope;
use crate::text;
use vstd::prelude::*;

verus! {

/// How long a poll waits for the next, in milliseconds.
pub const POLL_INTERVAL_MS: u64 = 1500;

/// How often the session is asked for the pane of a split.
pub const SPLIT_LOOKS: u32 = 5;

/// How long a look for the pane of a split waits for the next, in milliseconds.
pub const SPLIT_LOOK_INTERVAL_MS: u64 = 150;

/// What keeps a pane from being made.
#[derive(Debug)]
pub enum RuntimeError {
    NoWorktree,
    NoPty,
    SplitLost,
    NoRelay { target: String },
}

impl RuntimeError {
    /// What to tell the user.
    pub fn message(&self) -> (r: String)
        ensures
            r@ == (match self {
                RuntimeError::NoWorktree =>
                    "no active orca worktree yet; the session is still attaching"@,
                RuntimeError::NoPty => "createTerminal returned no ptyId"@,
                RuntimeError::SplitLost =>
                    "orca accepted the split but the new pane never appeared"@,
                RuntimeError::NoRelay { target } => "no live relay daemon on "@ + target@,
            }),
    {
        match self {
            RuntimeError::NoWorktree =>
                "no active orca worktree yet; the session is still attaching".to_owned(),
            RuntimeError::NoPty => "createTerminal returned no ptyId".to_owned(),
            RuntimeError::SplitLost =>
                "orca accepted the split but the new pane never appeared".to_owned(),
            RuntimeError::NoRelay { target } => text::concat(
                "no live relay daemon on ",
                target.as_str(),
            ),
        }
    }
}

/// A tab that has panes: the fingerprint it was built for, and the relay that its panes are on.
#[derive(Debug)]
pub struct TabState {
    pub signature: String,
    pub generation: u64,
}

/// What a [`TabState`] says.
#[verifier::ext_equal]
pub struct TabStateModel {
    pub signature: Seq<char>,
    pub generation: u64,
}

impl View for TabState {
    type V = TabStateModel;

    open spec fn view(&self) -> TabStateModel {
        TabStateModel { signature: self.signature@, generation: self.generation }
    }
}

/// The models of tabs that have panes.
pub open spec fn state_models(tabs: Map<Seq<char>, TabState>) -> Map<Seq<char>, TabStateModel> {
    tabs.map_values(|t: TabState| t@)
}

proof fn lemma_states_insert(m: Map<Seq<char>, TabState>, k: Seq<char>, v: TabState)
    ensures
        state_models(m.insert(k, v)) == state_models(m).insert(k, v@),
{
    assert(state_models(m.insert(k, v)) =~= state_models(m).insert(k, v@));
}

/// What to do with a tab that has panes.
#[derive(Debug)]
pub enum TabChange {
    /// The session no longer has it.
    Remove { parent: String },
    /// The session shows it otherwise: build it as the tab of index `tab` says.
    Rebuild { parent: String, tab: usize, signature: String },
}

/// What a [`TabChange`] says.
#[verifier::ext_equal]
pub enum TabChangeModel {
    Remove { parent: Seq<char> },
    Rebuild { parent: Seq<char>, tab: int, signature: Seq<char> },
}

impl View for TabChange {
    type V = TabChangeModel;

    open spec fn view(&self) -> TabChangeModel {
        match self {
            TabChange::Remove { parent } => TabChangeModel::Remove { parent: parent@ },
            TabChange::Rebuild { parent, tab, signature } => TabChangeModel::Rebuild {
                parent: parent@,
                tab: *tab as int,
                signature: signature@,
            },
        }
    }
}

/// The tab that a change is about.
pub open spec fn parent_of_change(change: TabChangeModel) -> Seq<char> {
    match change {
        TabChangeModel::Remove { parent } => parent,
        TabChangeModel::Rebuild { parent, .. } => parent,
    }
}

/// What to do with the tab `parent`, which has panes, where the session has the tabs `desired`. A
/// tab that shows the same fingerprint on the same relay is left alone.
pub open spec fn change_for(
    parent: Seq<char>,
    state: TabStateModel,
    desired: Seq<AppTabModel>,
    generation: u64,
) -> Option<TabChangeModel> {
    match session::last_tab(desired, desired.len() as int, parent) {
        None => Some(TabChangeModel::Remove { parent }),
        Some(k) => {
            let signature = session::signature_of_tab(desired[k]);
            if state == (TabStateModel { signature, generation }) {
                None
            } else {
                Some(TabChangeModel::Rebuild { parent, tab: k, signature })
            }
        },
    }
}

/// The worktrees by directory, once those of the first `n` snapshots are taken up.
pub open spec fn with_worktrees(
    known: Map<Seq<char>, Seq<char>>,
    snapshots: Seq<JsonModel>,
    n: int,
) -> Map<Seq<char>, Seq<char>>
    decreases n,
{
    if n <= 0 {
        known
    } else {
        let before = with_worktrees(known, snapshots, n - 1);
        match json::text_member(snapshots[n - 1], "worktree"@) {
            Some(key) => match text::halves(key, "::"@) {
                Some(parts) => before.insert(parts.1, key),
                None => before,
            },
            None => before,
        }
    }
}

/// Whether `cwd` is the directory `path` or lies in it.
pub open spec fn lies_in(cwd: Seq<char>, path: Seq<char>) -> bool {
    cwd == path || (text::is_prefix(cwd, path) && cwd.len() > path.len() && cwd[path.len() as int]
        == '/')
}

/// Whether `path` is the innermost of the worktrees that `cwd` lies in.
pub open spec fn is_innermost<V>(
    worktrees: Map<Seq<char>, V>,
    cwd: Seq<char>,
    path: Seq<char>,
) -> bool {
    &&& worktrees.contains_key(path)
    &&& lies_in(cwd, path)
    &&& forall|other: Seq<char>| #[trigger]
        worktrees.contains_key(other) && lies_in(cwd, other) ==> other.len() <= path.len()
}

/// Whether `key` is the worktree that `cwd` lies in, or there is none and so no key.
pub open spec fn is_worktree_of(
    worktrees: Map<Seq<char>, Seq<char>>,
    cwd: Seq<char>,
    key: Option<Seq<char>>,
) -> bool {
    match key {
        Some(key) => exists|path: Seq<char>| #[trigger]
            is_innermost(worktrees, cwd, path) && worktrees[path] == key,
        None => forall|path: Seq<char>| #[trigger]
            worktrees.contains_key(path) ==> !lies_in(cwd, path),
    }
}

/// A directory lies in at most one innermost worktree.
pub proof fn the_worktree_is_unique(
    worktrees: Map<Seq<char>, Seq<char>>,
    cwd: Seq<char>,
    a: Option<Seq<char>>,
    b: Option<Seq<char>>,
)
    requires
        is_worktree_of(worktrees, cwd, a),
        is_worktree_of(worktrees, cwd, b),
    ensures
        a == b,
{
    match (a, b) {
        (Some(x), Some(y)) => {
            let p = choose|p: Seq<char>| #[trigger]
                is_innermost(worktrees, cwd, p) && worktrees[p] == x;
            let q = choose|q: Seq<char>| #[trigger]
                is_innermost(worktrees, cwd, q) && worktrees[q] == y;
            assert(worktrees.contains_key(p) && worktrees.contains_key(q));
            assert(p.len() == q.len());
            assert(p == cwd.take(p.len() as int));
            assert(q == cwd.take(q.len() as int));
        },
        (Some(x), None) => {
            let p = choose|p: Seq<char>| #[trigger]
                is_innermost(worktrees, cwd, p) && worktrees[p] == x;
            assert(worktrees.contains_key(p));
        },
        (None, Some(y)) => {
            let q = choose|q: Seq<char>| #[trigger]
                is_innermost(worktrees, cwd, q) && worktrees[q] == y;
            assert(worktrees.contains_key(q));
        },
        (None, None) => {},
    }
}

/// Whether `cwd` is the directory `path` or lies in it.
fn is_within(cwd: &str, path: &str) -> (r: bool)
    ensures
        r == lies_in(cwd@, path@),
{
    if text::same(cwd, path) {
        return true;
    }
    match text::strip_prefix(cwd, path) {
        Some(rest) => {
            let r = text::starts_with(rest.as_str(), "/");
            proof {
                reveal_strlit("/");
                assert(text::is_prefix(cwd@, path@));
                assert(rest@ == cwd@.skip(path@.len() as int));
                if rest@.len() > 0 {
                    assert(rest@[0] == cwd@[path@.len() as int]);
                    assert(rest@.take(1) == seq![rest@[0]]);
                }
                assert("/"@ == seq!['/']);
                if r {
                    assert(rest@.take(1)[0] == '/');
                }
            }
            r
        },
        None => false,
    }
}

/// The index of the longest of the directories that `cwd` lies in.
pub fn innermost(paths: &[String], cwd: &str) -> (r: Option<usize>)
    ensures
        ({
            let all = text::texts(paths@);
            match r {
                Some(k) => k < paths@.len() && lies_in(cwd@, all[k as int]) && forall|j: int|
                    0 <= j < all.len() && lies_in(cwd@, #[trigger] all[j]) ==> all[j].len()
                        <= all[k as int].len(),
                None => forall|j: int| 0 <= j < all.len() ==> !lies_in(cwd@, #[trigger] all[j]),
            }
        }),
{
    let ghost all = text::texts(paths@);
    let mut best: Option<usize> = None;
    let mut best_len: usize = 0;
    let mut i: usize = 0;
    while i < paths.len()
        invariant
            i <= paths@.len(),
            all == text::texts(paths@),
            forall|j: int|
                0 <= j < i && lies_in(cwd@, #[trigger] all[j]) ==> best is Some && all[j].len()
                    <= best_len,
            best matches Some(k) ==> k < i && lies_in(cwd@, all[k as int]) && all[k as int].len()
                == best_len,
        decreases paths@.len() - i,
    {
        let path = paths[i].as_str();
        assert(all[i as int] == path@);
        if is_within(cwd, path) {
            let len: usize = text::chars_of(path).len();
            if best.is_none() || len > best_len {
                best = Some(i);
                best_len = len;
            }
        }
        i += 1;
    }
    best
}

/// The longest of the directories of the worktrees that `cwd` lies in is that of the innermost one.
pub proof fn lemma_innermost<V>(
    worktrees: Map<Seq<char>, V>,
    paths: Seq<Seq<char>>,
    cwd: Seq<char>,
    k: int,
)
    requires
        0 <= k < paths.len(),
        worktrees.contains_key(paths[k]),
        lies_in(cwd, paths[k]),
        forall|path: Seq<char>| #[trigger] worktrees.contains_key(path) ==> paths.contains(path),
        forall|j: int|
            0 <= j < paths.len() && lies_in(cwd, #[trigger] paths[j]) ==> paths[j].len()
                <= paths[k].len(),
    ensures
        is_innermost(worktrees, cwd, paths[k]),
{
    assert forall|other: Seq<char>| #[trigger]
        worktrees.contains_key(other) && lies_in(cwd, other) implies other.len()
        <= paths[k].len() by {
        assert(paths.contains(other));
        let j = choose|j: int| 0 <= j < paths.len() && paths[j] == other;
        assert(lies_in(cwd, paths[j]));
    }
}

/// The last of the first `n` parts of a path that leads further: neither an empty one nor `.` does.
pub open spec fn last_step(parts: Seq<Seq<char>>, n: int) -> Option<Seq<char>>
    decreases n,
{
    if n <= 0 {
        None
    } else if parts[n - 1].len() == 0 || parts[n - 1] == "."@ {
        last_step(parts, n - 1)
    } else {
        Some(parts[n - 1])
    }
}

/// The name that a path ends in. A path that ends in `..` has none, and neither has the root.
pub open spec fn path_file_name(path: Seq<char>) -> Option<Seq<char>> {
    let parts = text::piece_texts(path, '/');
    match last_step(parts, parts.len() as int) {
        Some(name) => if name == ".."@ {
            None
        } else {
            Some(name)
        },
        None => None,
    }
}

/// The name that a path ends in.
pub fn file_name_of(path: &str) -> (r: Option<String>)
    ensures
        text::opt_text(r) == path_file_name(path@),
{
    let parts = text::split(path, '/');
    let ghost all = text::texts(parts@);
    let mut n: usize = parts.len();
    while n > 0
        invariant
            n <= parts@.len(),
            all == text::texts(parts@),
            all == text::piece_texts(path@, '/'),
            last_step(all, n as int) == last_step(all, all.len() as int),
        decreases n,
    {
        let part = parts[n - 1].as_str();
        assert(all[n - 1] == part@);
        if !part.is_empty() && !text::same(part, ".") {
            return if text::same(part, "..") {
                None
            } else {
                Some(part.to_owned())
            };
        }
        n -= 1;
    }
    None
}

/// The name of a project: the last part of the worktree's directory, or all of it where it has no
/// last part.
pub open spec fn project_named(key: Seq<char>, file_name: Option<Seq<char>>) -> Seq<char> {
    match file_name {
        Some(name) => name,
        None => session::path_of_worktree(key),
    }
}

/// Whether `name` is the name of the project that `cwd` lies in, or it lies in none and there is no
/// name.
pub open spec fn is_project_of(
    worktrees: Map<Seq<char>, Seq<char>>,
    cwd: Seq<char>,
    name: Option<Seq<char>>,
) -> bool {
    match name {
        Some(name) => exists|key: Seq<char>| #[trigger]
            is_worktree_of(worktrees, cwd, Some(key)) && name == project_named(
                key,
                path_file_name(session::path_of_worktree(key)),
            ),
        None => is_worktree_of(worktrees, cwd, None),
    }
}

/// A pane that the hub made.
#[derive(Debug)]
pub struct CreatedTerminal {
    pub parent: String,
    pub raw: String,
    pub cwd: String,
    pub signature: String,
}

/// What a [`CreatedTerminal`] says.
#[verifier::ext_equal]
pub struct CreatedModel {
    pub parent: Seq<char>,
    pub raw: Seq<char>,
    pub cwd: Seq<char>,
    pub signature: Seq<char>,
}

impl View for CreatedTerminal {
    type V = CreatedModel;

    open spec fn view(&self) -> CreatedModel {
        CreatedModel {
            parent: self.parent@,
            raw: self.raw@,
            cwd: self.cwd@,
            signature: self.signature@,
        }
    }
}

/// The pane that the hub reports to have made in a worktree.
pub open spec fn created_in(created: JsonModel, worktree: Seq<char>) -> Option<CreatedModel> {
    let tab_id = session::or_empty(json::text_in(json::member_at(created, seq!["tab"@, "id"@])));
    match json::text_in(json::member_at(created, seq!["tab"@, "ptyId"@])) {
        None => None,
        Some(pty) => {
            let raw = session::raw_pty(pty);
            let cwd = match text::halves(worktree, "::"@) {
                Some(parts) => parts.1,
                None => ""@,
            };
            Some(
                CreatedModel {
                    parent: match text::halves(tab_id, "::"@) {
                        Some(parts) => parts.0,
                        None => tab_id,
                    },
                    raw,
                    cwd,
                    signature: cwd + seq!['|'] + raw,
                },
            )
        },
    }
}

/// The text that two keys lead to.
fn nested_text(value: &Json, outer: &str, inner: &str) -> (r: Option<String>)
    ensures
        text::opt_text(r) == json::text_in(json::member_at(value@, seq![outer@, inner@])),
{
    match envelope::nested(value, outer, inner) {
        Some(v) => match v.as_text() {
            Some(s) => Some(s.to_owned()),
            None => None,
        },
        None => None,
    }
}

/// The pane that the hub reports to have made in `worktree`.
pub fn created_terminal(created: &Json, worktree: &str) -> (r: Result<
    CreatedTerminal,
    RuntimeError,
>)
    ensures
        match created_in(created@, worktree@) {
            Some(m) => r matches Ok(t) && t@ == m,
            None => r matches Err(RuntimeError::NoPty),
        },
{
    let tab_id = match nested_text(created, "tab", "id") {
        Some(id) => id,
        None => "".to_owned(),
    };
    let parent = match text::split_once(tab_id.as_str(), "::") {
        Some((parent, _)) => parent,
        None => tab_id,
    };
    let pty = match nested_text(created, "tab", "ptyId") {
        Some(pty) => pty,
        None => return Err(RuntimeError::NoPty),
    };
    let raw = text::last_piece(pty.as_str(), "@@");
    let cwd = match text::split_once(worktree, "::") {
        Some((_, path)) => path,
        None => "".to_owned(),
    };
    let mut signature = cwd.clone();
    signature.push('|');
    signature.push_str(raw.as_str());
    Ok(CreatedTerminal { parent, raw, cwd, signature })
}

/// A pane that was just made is not built again: where the session then shows its tab as that one
/// pane in that worktree, on the same relay, the tab is left alone.
pub proof fn a_created_pane_is_left_alone(
    created: JsonModel,
    worktree: Seq<char>,
    desired: Seq<AppTabModel>,
    generation: u64,
)
    requires
        created_in(created, worktree) is Some,
        text::halves(worktree, "::"@) is Some,
        ({
            let made = created_in(created, worktree)->0;
            session::last_tab(desired, desired.len() as int, made.parent) matches Some(k)
                && desired[k].worktree_path == session::path_of_worktree(worktree)
                && (desired[k].layout matches LayoutModel::Leaf { leaf_id } && layout::pty_of(
                desired[k].pty_by_leaf,
                leaf_id,
            ) == made.raw)
        }),
    ensures
        ({
            let made = created_in(created, worktree)->0;
            change_for(
                made.parent,
                TabStateModel { signature: made.signature, generation },
                desired,
                generation,
            ) is None
        }),
{
}

/// What is known before the hub is asked to divide a pane.
#[derive(Debug)]
pub struct SplitStart {
    pub handle: String,
    pub worktree_path: String,
    pub before: TextSet,
}

/// What to divide: the handle of the terminal, the directory of its tab, and the terminals that the
/// tab has so far. There is nothing to divide where the hub does not know the terminal.
pub fn begin_split(session: &Json, target_id: &str, raw: &str, parent: &str) -> (r: Option<SplitStart>)
    ensures
        ({
            let tabs = session::tabs_of_session(session@, target_id@);
            match session::handle_in(
                json::items_or_none(json::member(session@, "snapshots"@)),
                0,
                raw@,
            ) {
                Some(handle) => r matches Some(start) && start.handle@ == handle
                    && start.worktree_path@ == (match session::first_tab(tabs, 0, parent@) {
                    Some(k) => tabs[k].worktree_path,
                    None => ""@,
                }) && start.before@ == session::ptys_of_parent(tabs, parent@),
                None => r is None,
            }
        }),
{
    let handle = match session::handle_for_raw(session, raw) {
        Some(handle) => handle,
        None => return None,
    };
    let tabs = session::parse_tabs(session, target_id);
    let worktree_path = match session::find_tab(&tabs, parent) {
        Some(i) => {
            assert(session::tab_models(tabs@)[i as int] == tabs@[i as int]@);
            tabs[i].worktree_path.clone()
        },
        None => "".to_owned(),
    };
    let before = session::tab_raw_ptys(session, target_id, parent);
    Some(SplitStart { handle, worktree_path, before })
}

/// The terminal that the tab `parent` has now and did not have before, and the fingerprint that the
/// tab has now.
pub fn split_result(session: &Json, target_id: &str, parent: &str, before: &TextSet) -> (r: Option<
    (String, Option<String>),
>)
    ensures
        ({
            let tabs = session::tabs_of_session(session@, target_id@);
            let after = session::ptys_of_parent(tabs, parent@);
            match r {
                Some((raw, signature)) => after.contains(raw@) && !before@.contains(raw@)
                    && text::opt_text(signature) == (match session::first_tab(tabs, 0, parent@) {
                    Some(k) => Some(session::signature_of_tab(tabs[k])),
                    None => None,
                }),
                None => after.subset_of(before@),
            }
        }),
{
    let after = session::tab_raw_ptys(session, target_id, parent);
    let ptys = after.items();
    let ghost all = text::texts(ptys@);
    let mut i: usize = 0;
    while i < ptys.len()
        invariant
            i <= ptys@.len(),
            all == text::texts(ptys@),
            after@ == session::ptys_of_parent(
                session::tabs_of_session(session@, target_id@),
                parent@,
            ),
            forall|s: Seq<char>| after@.contains(s) <==> #[trigger] all.contains(s),
            forall|j: int| 0 <= j < i ==> before@.contains(#[trigger] all[j]),
        decreases ptys@.len() - i,
    {
        assert(all[i as int] == ptys@[i as int]@);
        if !before.contains(ptys[i].as_str()) {
            assert(all.contains(all[i as int]));
            let signature = session::tab_signature(session, target_id, parent);
            return Some((ptys[i].clone(), signature));
        }
        i += 1;
    }
    proof {
        assert forall|s: Seq<char>| after@.contains(s) implies before@.contains(s) by {
            assert(all.contains(s));
        }
    }
    None
}

/// Whether the session is asked once more for the pane of a split, after `looks` times in vain.
pub fn looks_again(looks: u32) -> (r: Result<(), RuntimeError>)
    ensures
        r is Ok <==> looks < SPLIT_LOOKS,
        r matches Err(e) ==> e is SplitLost,
{
    if looks < SPLIT_LOOKS {
        Ok(())
    } else {
        Err(RuntimeError::SplitLost)
    }
}

/// Whether a connected relay is kept: it is open, and serves at least one wanted terminal if any is
/// wanted.
pub fn keeps_relay(closed: bool, want: &TextSet, overlap: usize) -> (r: bool)
    ensures
        r == (!closed && (want@ == Set::<Seq<char>>::empty() || overlap > 0)),
{
    !closed && (want.is_empty() || overlap > 0)
}

/// The relay to use, of those that answered: the first of those with the most wanted terminals.
pub fn best_relay(overlaps: &[Option<usize>]) -> (r: Option<usize>)
    ensures
        match r {
            Some(i) => i < overlaps@.len() && overlaps@[i as int] is Some && (forall|j: int|
                0 <= j < overlaps@.len() && (#[trigger] overlaps@[j]) is Some ==> overlaps@[j]->0
                    <= overlaps@[i as int]->0) && (forall|j: int|
                0 <= j < i && (#[trigger] overlaps@[j]) is Some ==> overlaps@[j]->0
                    < overlaps@[i as int]->0),
            None => forall|j: int| 0 <= j < overlaps@.len() ==> (#[trigger] overlaps@[j]) is None,
        },
{
    let mut best: Option<(usize, usize)> = None;
    let mut i: usize = 0;
    while i < overlaps.len()
        invariant
            i <= overlaps@.len(),
            match best {
                Some((k, score)) => k < i && overlaps@[k as int] == Some(score) && (forall|j: int|
                    0 <= j < i && (#[trigger] overlaps@[j]) is Some ==> overlaps@[j]->0 <= score)
                    && (forall|j: int|
                    0 <= j < k && (#[trigger] overlaps@[j]) is Some ==> overlaps@[j]->0 < score),
                None => forall|j: int| 0 <= j < i ==> (#[trigger] overlaps@[j]) is None,
            },
        decreases overlaps@.len() - i,
    {
        if let Some(overlap) = overlaps[i] {
            let better = match best {
                Some((_, score)) => overlap > score,
                None => true,
            };
            if better {
                best = Some((i, overlap));
            }
        }
        i += 1;
    }
    match best {
        Some((k, _)) => Some(k),
        None => None,
    }
}

/// A host whose tabs are those of the hub's own session: the tabs that have panes, the worktrees
/// that the session showed, and the relay in use.
#[derive(Debug)]
pub struct RuntimeBackend {
    target_id: String,
    tabs: TextMap<TabState>,
    worktrees: TextMap<String>,
    active_worktree: String,
    relay_generation: u64,
    detached: bool,
    supervising: bool,
}

/// What a [`RuntimeBackend`] knows.
#[verifier::ext_equal]
pub struct RuntimeModel {
    pub target_id: Seq<char>,
    pub tabs: Map<Seq<char>, TabStateModel>,
    pub worktrees: Map<Seq<char>, Seq<char>>,
    pub active_worktree: Seq<char>,
    pub relay_generation: u64,
    pub detached: bool,
    pub supervising: bool,
}

impl View for RuntimeBackend {
    type V = RuntimeModel;

    closed spec fn view(&self) -> RuntimeModel {
        RuntimeModel {
            target_id: self.target_id@,
            tabs: state_models(self.tabs@),
            worktrees: layout::text_values(self.worktrees@),
            active_worktree: self.active_worktree@,
            relay_generation: self.relay_generation,
            detached: self.detached,
            supervising: self.supervising,
        }
    }
}

/// The changes are those that the tabs with panes need, one for each such tab.
pub open spec fn are_changes(
    changes: Seq<TabChangeModel>,
    tabs: Map<Seq<char>, TabStateModel>,
    desired: Seq<AppTabModel>,
    generation: u64,
) -> bool {
    &&& forall|i: int|
        0 <= i < changes.len() ==> tabs.contains_key(parent_of_change(#[trigger] changes[i]))
            && change_for(
            parent_of_change(changes[i]),
            tabs[parent_of_change(changes[i])],
            desired,
            generation,
        ) == Some(changes[i])
    &&& forall|parent: Seq<char>| #[trigger]
        tabs.contains_key(parent) && change_for(parent, tabs[parent], desired, generation) is Some
            ==> exists|i: int|
            0 <= i < changes.len() && parent_of_change(#[trigger] changes[i]) == parent
    &&& forall|i: int, j: int|
        0 <= i < j < changes.len() ==> parent_of_change(#[trigger] changes[i]) != parent_of_change(
            #[trigger] changes[j],
        )
}

/// The models of changes.
pub open spec fn change_models(changes: Seq<TabChange>) -> Seq<TabChangeModel> {
    changes.map_values(|c: TabChange| c@)
}

impl RuntimeBackend {
    /// A host that no tab is open on.
    pub fn new(target_id: &str) -> (r: RuntimeBackend)
        ensures
            r@ == (RuntimeModel {
                target_id: target_id@,
                tabs: Map::empty(),
                worktrees: Map::empty(),
                active_worktree: ""@,
                relay_generation: 0,
                detached: false,
                supervising: false,
            }),
    {
        let r = RuntimeBackend {
            target_id: target_id.to_owned(),
            tabs: TextMap::new(),
            worktrees: TextMap::new(),
            active_worktree: "".to_owned(),
            relay_generation: 0,
            detached: false,
            supervising: false,
        };
        assert(r@.tabs =~= Map::<Seq<char>, TabStateModel>::empty());
        assert(r@.worktrees =~= Map::<Seq<char>, Seq<char>>::empty());
        r
    }

    /// The tabs of this host in a session.
    pub fn parse_tabs(&self, session: &Json) -> (r: Vec<AppTab>)
        ensures
            session::tab_models(r@) == session::tabs_of_session(session@, self@.target_id),
    {
        session::parse_tabs(session, self.target_id.as_str())
    }

    /// The terminals of this host in a session.
    pub fn wanted_ptys(&self, session: &Json) -> (r: TextSet)
        ensures
            ({
                let tabs = session::tabs_of_session(session@, self@.target_id);
                r@ == session::ptys_of_tabs(tabs, tabs.len() as int)
            }),
    {
        session::wanted_ptys(session, self.target_id.as_str())
    }

    /// Whether the tab has panes.
    pub fn has_tab(&self, parent_tab_id: &str) -> (r: bool)
        ensures
            r == self@.tabs.contains_key(parent_tab_id@),
    {
        self.tabs.contains_key(parent_tab_id)
    }

    /// Forgets the panes of a tab, and says whether it had any.
    pub fn close_tab(&mut self, parent_tab_id: &str) -> (r: bool)
        ensures
            final(self)@ == (RuntimeModel {
                tabs: old(self)@.tabs.remove(parent_tab_id@),
                ..old(self)@
            }),
            r == old(self)@.tabs.contains_key(parent_tab_id@),
    {
        let ghost before = self.tabs@;
        let r = self.tabs.remove(parent_tab_id).is_some();
        assert(state_models(before.remove(parent_tab_id@)) =~= state_models(before).remove(
            parent_tab_id@,
        ));
        r
    }

    /// Notes that a tab was built for a fingerprint, on the relay in use.
    pub fn tab_built(&mut self, parent_tab_id: &str, signature: &str, generation: u64)
        ensures
            final(self)@ == (RuntimeModel {
                tabs: old(self)@.tabs.insert(
                    parent_tab_id@,
                    TabStateModel { signature: signature@, generation },
                ),
                ..old(self)@
            }),
    {
        let ghost before = self.tabs@;
        let state = TabState { signature: signature.to_owned(), generation };
        self.tabs.insert(parent_tab_id, state);
        proof {
            lemma_states_insert(before, parent_tab_id@, state);
        }
    }

    /// Notes that a tab got one more pane. Where the session shows a fingerprint of the tab, it is
    /// the one that the tab now has; else a tab that was known keeps its own.
    pub fn tab_split(&mut self, parent_tab_id: &str, signature: Option<String>)
        ensures
            final(self)@ == (RuntimeModel {
                tabs: old(self)@.tabs.insert(
                    parent_tab_id@,
                    TabStateModel {
                        signature: match signature {
                            Some(signature) => signature@,
                            None => if old(self)@.tabs.contains_key(parent_tab_id@) {
                                old(self)@.tabs[parent_tab_id@].signature
                            } else {
                                ""@
                            },
                        },
                        generation: old(self)@.relay_generation,
                    },
                ),
                ..old(self)@
            }),
    {
        let signature = match signature {
            Some(signature) => signature,
            None => match self.tabs.get(parent_tab_id) {
                Some(state) => state.signature.clone(),
                None => "".to_owned(),
            },
        };
        let generation: u64 = self.relay_generation;
        self.tab_built(parent_tab_id, signature.as_str(), generation);
    }

    /// Takes up the worktrees that a session shows.
    pub fn refresh_worktrees(&mut self, session: &Json)
        ensures
            ({
                let snapshots = json::items_or_none(json::member(session@, "snapshots"@));
                final(self)@ == (RuntimeModel {
                    worktrees: with_worktrees(
                        old(self)@.worktrees,
                        snapshots,
                        snapshots.len() as int,
                    ),
                    ..old(self)@
                })
            }),
    {
        if let Some(snapshots) = session.get_items("snapshots") {
            let ghost all = json::models(snapshots@);
            let ghost start = self@;
            let mut i: usize = 0;
            while i < snapshots.len()
                invariant
                    i <= snapshots@.len(),
                    all == json::models(snapshots@),
                    self@ == (RuntimeModel {
                        worktrees: with_worktrees(start.worktrees, all, i as int),
                        ..start
                    }),
                decreases snapshots@.len() - i,
            {
                assert(all[i as int] == snapshots@[i as int]@);
                let ghost before = self.worktrees@;
                if let Some(key) = snapshots[i].get_text("worktree") {
                    if let Some((_, path)) = text::split_once(key.as_str(), "::") {
                        self.worktrees.insert(path.as_str(), key);
                        assert(layout::text_values(before.insert(path@, key))
                            =~= layout::text_values(before).insert(path@, key@));
                    }
                }
                i += 1;
            }
        }
    }

    /// The innermost worktree that `cwd` lies in.
    pub fn worktree_key_for_cwd(&self, cwd: &str) -> (r: Option<String>)
        ensures
            is_worktree_of(self@.worktrees, cwd@, text::opt_text(r)),
    {
        let paths = self.worktrees.keys();
        let ghost all = text::texts(paths@);
        let ghost worktrees = self@.worktrees;
        assert forall|path: Seq<char>| #[trigger] worktrees.contains_key(path) implies all.contains(
            path,
        ) by {
            assert(self.worktrees@.contains_key(path));
        }
        match innermost(&paths, cwd) {
            Some(k) => {
                let path = paths[k].as_str();
                assert(all[k as int] == path@);
                assert(all.contains(path@));
                proof {
                    assert(self.worktrees@.contains_key(path@));
                    lemma_innermost(worktrees, all, cwd@, k as int);
                }
                match self.worktrees.get(path) {
                    Some(key) => {
                        assert(worktrees[path@] == key@);
                        Some(key.clone())
                    },
                    None => None,
                }
            },
            None => {
                proof {
                    assert forall|path: Seq<char>| #[trigger]
                        worktrees.contains_key(path) implies !lies_in(cwd@, path) by {
                        assert(all.contains(path));
                        let j = choose|j: int| 0 <= j < all.len() && all[j] == path;
                        assert(all[j] == path);
                    }
                }
                None
            },
        }
    }

    /// The name of the project that `cwd` lies in.
    pub fn project_for_cwd(&self, cwd: &str) -> (r: Option<String>)
        ensures
            is_project_of(self@.worktrees, cwd@, text::opt_text(r)),
    {
        let key = match self.worktree_key_for_cwd(cwd) {
            Some(key) => key,
            None => return None,
        };
        assert(is_worktree_of(self@.worktrees, cwd@, Some(key@)));
        let path = session::worktree_path(key.as_str());
        Some(project_name(path.as_str(), file_name_of(path.as_str())))
    }

    /// The worktree to work in: the one that the directory lies in, else the active one.
    pub fn worktree_for(&self, command_dir: Option<&str>) -> (r: String)
        ensures
            match command_dir {
                Some(dir) => is_worktree_of(self@.worktrees, dir@, Some(r@)) || (is_worktree_of(
                    self@.worktrees,
                    dir@,
                    None,
                ) && r@ == self@.active_worktree),
                None => r@ == self@.active_worktree,
            },
    {
        if let Some(dir) = command_dir {
            if let Some(key) = self.worktree_key_for_cwd(dir) {
                return key;
            }
        }
        self.active_worktree.clone()
    }

    /// The worktree to make a pane in, where there is one.
    pub fn worktree_to_use(&self, command_dir: Option<&str>) -> (r: Result<String, RuntimeError>)
        ensures
            ({
                let fits = |key: Seq<char>|
                    match command_dir {
                        Some(dir) => is_worktree_of(self@.worktrees, dir@, Some(key))
                            || (is_worktree_of(self@.worktrees, dir@, None) && key
                            == self@.active_worktree),
                        None => key == self@.active_worktree,
                    };
                match r {
                    Ok(key) => key@.len() > 0 && fits(key@),
                    Err(e) => e is NoWorktree && fits(Seq::empty()),
                }
            }),
    {
        let worktree = self.worktree_for(command_dir);
        if worktree.as_str().is_empty() {
            assert(worktree@ =~= Seq::<char>::empty());
            Err(RuntimeError::NoWorktree)
        } else {
            Ok(worktree)
        }
    }

    /// What the tabs with panes need, where the session has the tabs `desired`.
    fn changes(&self, desired: &[AppTab]) -> (r: Vec<TabChange>)
        ensures
            are_changes(
                change_models(r@),
                self@.tabs,
                session::tab_models(desired@),
                self@.relay_generation,
            ),
    {
        let parents = self.tabs.keys();
        let ghost all = text::texts(parents@);
        let ghost tabs = self@.tabs;
        let ghost wanted = session::tab_models(desired@);
        let ghost generation = self.relay_generation;
        let mut out: Vec<TabChange> = Vec::new();
        let mut i: usize = 0;
        while i < parents.len()
            invariant
                i <= parents@.len(),
                all == text::texts(parents@),
                all.no_duplicates(),
                tabs == state_models(self.tabs@),
                generation == self.relay_generation,
                wanted == session::tab_models(desired@),
                forall|k: Seq<char>| self.tabs@.contains_key(k) <==> #[trigger] all.contains(k),
                forall|c: int|
                    0 <= c < out@.len() ==> tabs.contains_key(
                        parent_of_change(#[trigger] change_models(out@)[c]),
                    ) && change_for(
                        parent_of_change(change_models(out@)[c]),
                        tabs[parent_of_change(change_models(out@)[c])],
                        wanted,
                        generation,
                    ) == Some(change_models(out@)[c]),
                forall|c: int|
                    0 <= c < out@.len() ==> exists|j: int|
                        0 <= j < i && all[j] == parent_of_change(
                            #[trigger] change_models(out@)[c],
                        ),
                forall|j: int|
                    0 <= j < i && change_for(
                        #[trigger] all[j],
                        tabs[all[j]],
                        wanted,
                        generation,
                    ) is Some ==> exists|c: int|
                        0 <= c < out@.len() && parent_of_change(
                            #[trigger] change_models(out@)[c],
                        ) == all[j],
                forall|a: int, b: int|
                    0 <= a < b < out@.len() ==> parent_of_change(
                        #[trigger] change_models(out@)[a],
                    ) != parent_of_change(#[trigger] change_models(out@)[b]),
            decreases parents@.len() - i,
        {
            let parent = parents[i].as_str();
            assert(all[i as int] == parent@);
            assert(all.contains(parent@));
            let ghost before = out@;
            let change: Option<TabChange> = match session::find_last_tab(desired, parent) {
                None => Some(TabChange::Remove { parent: parent.to_owned() }),
                Some(tab) => {
                    assert(wanted[tab as int] == desired@[tab as int]@);
                    let signature = desired[tab].signature();
                    let kept = match self.tabs.get(parent) {
                        Some(state) => {
                            assert(tabs[parent@] == state@);
                            text::same(state.signature.as_str(), signature.as_str())
                                && state.generation == self.relay_generation
                        },
                        None => false,
                    };
                    if kept {
                        None
                    } else {
                        Some(TabChange::Rebuild { parent: parent.to_owned(), tab, signature })
                    }
                },
            };
            if let Some(change) = change {
                out.push(change);
                let ghost old_models = change_models(before);
                let ghost new_models = change_models(out@);
                assert(new_models == old_models.push(change@));
                assert(parent_of_change(change@) == parent@);
                proof {
                    assert(forall|c: int|
                        0 <= c < before.len() ==> #[trigger] new_models[c] == old_models[c]);
                    assert(new_models[before.len() as int] == change@);
                    assert forall|c: int| 0 <= c < out@.len() implies exists|j: int|
                        0 <= j < i + 1 && all[j] == parent_of_change(#[trigger] new_models[c]) by {
                        if c < before.len() {
                            let j = choose|j: int|
                                0 <= j < i && all[j] == parent_of_change(old_models[c]);
                            assert(all[j] == parent_of_change(new_models[c]));
                        } else {
                            assert(all[i as int] == parent_of_change(new_models[c]));
                        }
                    }
                    assert forall|j: int|
                        0 <= j < i + 1 && change_for(
                            #[trigger] all[j],
                            tabs[all[j]],
                            wanted,
                            generation,
                        ) is Some implies exists|c: int|
                        0 <= c < out@.len() && parent_of_change(#[trigger] new_models[c])
                            == all[j] by {
                        if j < i {
                            let c = choose|c: int|
                                0 <= c < before.len() && parent_of_change(#[trigger] old_models[c])
                                    == all[j];
                            assert(parent_of_change(new_models[c]) == all[j]);
                        } else {
                            assert(parent_of_change(new_models[before.len() as int]) == all[j]);
                        }
                    }
                    assert forall|a: int, b: int| 0 <= a < b < out@.len() implies parent_of_change(
                        #[trigger] new_models[a],
                    ) != parent_of_change(#[trigger] new_models[b]) by {
                        if b == before.len() {
                            let j = choose|j: int|
                                0 <= j < i && all[j] == parent_of_change(old_models[a]);
                            assert(all[j] != all[i as int]);
                        }
                    }
                }
            }
            i += 1;
        }
        proof {
            assert forall|parent: Seq<char>| #[trigger]
                tabs.contains_key(parent) && change_for(
                    parent,
                    tabs[parent],
                    wanted,
                    generation,
                ) is Some implies exists|c: int|
                0 <= c < out@.len() && parent_of_change(#[trigger] change_models(out@)[c])
                    == parent by {
                assert(self.tabs@.contains_key(parent));
                assert(all.contains(parent));
                let j = choose|j: int| 0 <= j < all.len() && all[j] == parent;
                assert(change_for(all[j], tabs[all[j]], wanted, generation) is Some);
            }
        }
        out
    }

    /// Takes up a session: its worktrees, the first of its tabs as the active one, and what the tabs
    /// with panes need to show it.
    pub fn apply(&mut self, session: &Json) -> (r: (Vec<AppTab>, Vec<TabChange>))
        ensures
            ({
                let desired = session::tabs_of_session(session@, old(self)@.target_id);
                let snapshots = json::items_or_none(json::member(session@, "snapshots"@));
                &&& session::tab_models(r.0@) == desired
                &&& are_changes(
                    change_models(r.1@),
                    old(self)@.tabs,
                    desired,
                    old(self)@.relay_generation,
                )
                &&& final(self)@ == (RuntimeModel {
                    worktrees: with_worktrees(
                        old(self)@.worktrees,
                        snapshots,
                        snapshots.len() as int,
                    ),
                    active_worktree: if desired.len() > 0 {
                        desired[0].worktree_key
                    } else {
                        old(self)@.active_worktree
                    },
                    ..old(self)@
                })
            }),
    {
        let desired = self.parse_tabs(session);
        self.refresh_worktrees(session);
        if desired.len() > 0 {
            assert(session::tab_models(desired@)[0] == desired@[0]@);
            self.active_worktree = desired[0].worktree_key.clone();
        }
        let changes = self.changes(&desired);
        (desired, changes)
    }

    /// What to build to open the tab `parent_tab_id` of a session: the tab as the session shows it
    /// first, and the fingerprint to note for it. Panes that it has are forgotten.
    pub fn open_tab(&mut self, session: &Json, parent_tab_id: &str) -> (r: Option<(AppTab, String)>)
        ensures
            ({
                let tabs = session::tabs_of_session(session@, old(self)@.target_id);
                match session::first_tab(tabs, 0, parent_tab_id@) {
                    Some(k) => (r matches Some((tab, signature)) && tab@ == tabs[k] && signature@
                        == session::signature_of_tab(tabs[k])) && final(self)@ == (RuntimeModel {
                        tabs: old(self)@.tabs.remove(parent_tab_id@),
                        ..old(self)@
                    }),
                    None => r is None && final(self)@ == old(self)@,
                }
            }),
    {
        let mut tabs = self.parse_tabs(session);
        let ghost all = session::tab_models(tabs@);
        match session::find_tab(&tabs, parent_tab_id) {
            Some(i) => {
                assert(all[i as int] == tabs@[i as int]@);
                let tab = tabs.remove(i);
                let signature = tab.signature();
                let _ = self.close_tab(parent_tab_id);
                Some((tab, signature))
            },
            None => None,
        }
    }

    /// Notes that another relay is in use, and gives its number.
    pub fn relay_bound(&mut self) -> (r: u64)
        ensures
            r == old(self)@.relay_generation.wrapping_add(1),
            final(self)@ == (RuntimeModel { relay_generation: r, ..old(self)@ }),
    {
        self.relay_generation = self.relay_generation.wrapping_add(1);
        self.relay_generation
    }

    /// The number of the relay in use.
    pub fn relay_generation(&self) -> (r: u64)
        ensures
            r == self@.relay_generation,
    {
        self.relay_generation
    }

    /// The host's id in the session.
    pub fn target_id(&self) -> (r: &str)
        ensures
            r@ == self@.target_id,
    {
        self.target_id.as_str()
    }

    /// Forgets all panes, for good.
    pub fn detach(&mut self)
        ensures
            final(self)@ == (RuntimeModel { tabs: Map::empty(), detached: true, ..old(self)@ }),
    {
        self.detached = true;
        self.tabs.clear();
        assert(self@.tabs =~= Map::<Seq<char>, TabStateModel>::empty());
    }

    /// Whether a poller is to be started: there is none yet.
    pub fn start_poller(&mut self) -> (r: bool)
        ensures
            r == !old(self)@.supervising,
            final(self)@ == (RuntimeModel { supervising: true, ..old(self)@ }),
    {
        let first = !self.supervising;
        self.supervising = true;
        first
    }

    /// Whether the poller goes on. On a host that is detached it ends.
    pub fn poller_goes_on(&mut self) -> (r: bool)
        ensures
            r == !old(self)@.detached,
            final(self)@ == (if old(self)@.detached {
                RuntimeModel { supervising: false, ..old(self)@ }
            } else {
                old(self)@
            }),
    {
        if self.detached {
            self.supervising = false;
            false
        } else {
            true
        }
    }

    /// Whether a poll has anything to look after.
    pub fn has_tabs(&self) -> (r: bool)
        ensures
            r == (self@.tabs != Map::<Seq<char>, TabStateModel>::empty()),
    {
        let none = self.tabs.is_empty();
        proof {
            if none {
                assert(self@.tabs =~= Map::<Seq<char>, TabStateModel>::empty());
            } else {
                if forall|k: Seq<char>| !self.tabs@.contains_key(k) {
                    assert(self.tabs@ =~= Map::<Seq<char>, TabState>::empty());
                }
                let k = choose|k: Seq<char>| self.tabs@.contains_key(k);
                assert(self@.tabs.contains_key(k));
            }
        }
        !none
    }
}

/// The name of a project in a directory whose last part is `file_name`.
pub fn project_name(path: &str, file_name: Option<String>) -> (r: String)
    ensures
        r@ == (match text::opt_text(file_name) {
            Some(name) => name,
            None => path@,
        }),
{
    match file_name {
        Some(name) => name,
        None => path.to_owned(),
    }
}

/// Building a tab as the session shows it leaves nothing to do for it.
pub proof fn a_built_tab_is_left_alone(
    parent: Seq<char>,
    desired: Seq<AppTabModel>,
    state: TabStateModel,
    generation: u64,
)
    requires
        change_for(parent, state, desired, generation) is Some,
    ensures
        match change_for(parent, state, desired, generation)->0 {
            TabChangeModel::Rebuild { signature, .. } => change_for(
                parent,
                TabStateModel { signature, generation },
                desired,
                generation,
            ) is None,
            TabChangeModel::Remove { .. } => true,
        },
{
}

/// A tab in which only split ratios moved is left alone, and one whose tree, directions or terminals
/// changed is built again. `shown` is what the tab was built from; no terminal has a bracket or a
/// comma in its name.
pub proof fn only_a_changed_shape_is_rebuilt(
    parent: Seq<char>,
    shown: AppTabModel,
    desired: Seq<AppTabModel>,
    k: int,
    generation: u64,
)
    requires
        session::last_tab(desired, desired.len() as int, parent) == Some(k),
        desired[k].worktree_path == shown.worktree_path,
        layout::plainly_named(shown.layout, shown.pty_by_leaf),
        layout::plainly_named(desired[k].layout, desired[k].pty_by_leaf),
    ensures
        change_for(
            parent,
            TabStateModel { signature: session::signature_of_tab(shown), generation },
            desired,
            generation,
        ) is None <==> layout::shape(shown.layout, shown.pty_by_leaf) == layout::shape(
            desired[k].layout,
            desired[k].pty_by_leaf,
        ),
{
    let tab = desired[k];
    let a = layout::signature_of(shown.layout, shown.pty_by_leaf);
    let b = layout::signature_of(tab.layout, tab.pty_by_leaf);
    let sa = session::signature_of_tab(shown);
    let sb = session::signature_of_tab(tab);
    let n = shown.worktree_path.len() as int + 1;
    assert(sa.skip(n) == a);
    assert(sb.skip(n) == b);
    if layout::shape(shown.layout, shown.pty_by_leaf) == layout::shape(tab.layout, tab.pty_by_leaf) {
        layout::signatures_do_not_hold_ratios(
            shown.layout,
            shown.pty_by_leaf,
            tab.layout,
            tab.pty_by_leaf,
        );
    }
    if sa == sb {
        layout::signatures_tell_shapes_apart(
            shown.layout,
            shown.pty_by_leaf,
            tab.layout,
            tab.pty_by_leaf,
        );
    }
}

/// A tab of the screen is removed just where the hub has it no more. It is rebuilt as the last of the
/// tabs that the hub has for it.
pub proof fn changes_follow_the_hub(
    parent: Seq<char>,
    state: TabStateModel,
    desired: Seq<AppTabModel>,
    generation: u64,
)
    ensures
        change_for(parent, state, desired, generation) is Some && (change_for(
            parent,
            state,
            desired,
            generation,
        )->0) is Remove <==> forall|i: int|
            0 <= i < desired.len() ==> (#[trigger] desired[i]).parent_tab_id != parent,
        match change_for(parent, state, desired, generation) {
            Some(TabChangeModel::Remove { parent: p }) => p == parent,
            Some(TabChangeModel::Rebuild { parent: p, tab, signature }) => {
                &&& p == parent
                &&& 0 <= tab < desired.len() && desired[tab].parent_tab_id == parent
                &&& forall|j: int|
                    tab < j < desired.len() ==> (#[trigger] desired[j]).parent_tab_id != parent
                &&& signature == session::signature_of_tab(desired[tab])
                &&& state.signature != signature || state.generation != generation
            },
            None => exists|k: int|
                0 <= k < desired.len() && (#[trigger] desired[k]).parent_tab_id == parent
                    && state.signature == session::signature_of_tab(desired[k]) && state.generation
                    == generation && forall|j: int|
                    k < j < desired.len() ==> (#[trigger] desired[j]).parent_tab_id != parent,
        },
{
    session::the_last_tab_is_found(desired, desired.len() as int, parent);
    if let Some(k) = session::last_tab(desired, desired.len() as int, parent) {
        assert(desired[k].parent_tab_id == parent);
    }
}

/// Whether the snapshot is of the worktree at the path.
pub open spec fn tells_worktree(snapshot: JsonModel, path: Seq<char>) -> bool {
    json::member(snapshot, "worktree"@) matches Some(JsonModel::Text(key)) && text::halves(
        key,
        "::"@,
    ) matches Some(parts) && parts.1 == path
}

/// A worktree is known under its path by the key that the last snapshot of it has. What is known of
/// others stays.
pub proof fn worktrees_are_those_told_last(
    known: Map<Seq<char>, Seq<char>>,
    snapshots: Seq<JsonModel>,
    n: int,
    path: Seq<char>,
)
    requires
        0 <= n <= snapshots.len(),
    ensures
        ({
            let after = with_worktrees(known, snapshots, n);
            ||| exists|k: int|
                0 <= k < n && tells_worktree(#[trigger] snapshots[k], path) && after.contains_key(
                    path,
                ) && json::member(snapshots[k], "worktree"@) == Some(JsonModel::Text(after[path]))
                    && forall|j: int|
                    k < j < n ==> !tells_worktree(#[trigger] snapshots[j], path)
            ||| {
                &&& forall|j: int| 0 <= j < n ==> !tells_worktree(#[trigger] snapshots[j], path)
                &&& after.contains_key(path) <==> known.contains_key(path)
                &&& after[path] == known[path]
            }
        }),
    decreases n,
{
    if n > 0 {
        worktrees_are_those_told_last(known, snapshots, n - 1, path);
        let before = with_worktrees(known, snapshots, n - 1);
        let after = with_worktrees(known, snapshots, n);
        if tells_worktree(snapshots[n - 1], path) {
            assert(after.contains_key(path));
        } else {
            assert(after.contains_key(path) == before.contains_key(path));
            assert(after[path] == before[path]);
            if exists|k: int|
                0 <= k < n - 1 && tells_worktree(#[trigger] snapshots[k], path)
                    && before.contains_key(path) && json::member(snapshots[k], "worktree"@) == Some(
                    JsonModel::Text(before[path]),
                ) && forall|j: int| k < j < n - 1 ==> !tells_worktree(#[trigger] snapshots[j], path) {
                let k = choose|k: int|
                    0 <= k < n - 1 && tells_worktree(#[trigger] snapshots[k], path)
                        && before.contains_key(path) && json::member(snapshots[k], "worktree"@)
                        == Some(JsonModel::Text(before[path])) && forall|j: int|
                        k < j < n - 1 ==> !tells_worktree(#[trigger] snapshots[j], path);
                assert(tells_worktree(snapshots[k], path));
            }
        }
    }
}

/// A directory lies in another where it is that directory, or is reached from it by a path.
pub proof fn directories_lie_in_others(cwd: Seq<char>, path: Seq<char>, rest: Seq<char>)
    ensures
        lies_in(path, path),
        lies_in(path + seq!['/'] + rest, path),
        lies_in(cwd, path) ==> cwd == path || exists|r: Seq<char>|
            cwd == #[trigger] (path + seq!['/'] + r),
{
    let inner = path + seq!['/'] + rest;
    assert(inner.take(path.len() as int) == path);
    assert(inner[path.len() as int] == '/');
    if lies_in(cwd, path) && cwd != path {
        let r = cwd.skip(path.len() as int + 1);
        assert(cwd == path + seq!['/'] + r);
    }
}

/// The worktree of a directory lies in every other worktree that the directory lies in.
pub proof fn the_innermost_worktree_counts(
    worktrees: Map<Seq<char>, Seq<char>>,
    cwd: Seq<char>,
    key: Seq<char>,
    other: Seq<char>,
)
    requires
        is_worktree_of(worktrees, cwd, Some(key)),
        worktrees.contains_key(other),
        lies_in(cwd, other),
    ensures
        exists|path: Seq<char>| #[trigger]
            worktrees.contains_pair(path, key) && lies_in(cwd, path) && lies_in(path, other),
{
    let path = choose|path: Seq<char>| #[trigger]
        is_innermost(worktrees, cwd, path) && worktrees[path] == key;
    assert(worktrees.contains_pair(path, key));
    assert(other.len() <= path.len());
    assert(cwd.take(path.len() as int) == path);
    assert(cwd.take(other.len() as int) == other);
    if other.len() == path.len() {
        assert(other == path);
    } else {
        assert(path.take(other.len() as int) =~= cwd.take(other.len() as int));
        assert(path[other.len() as int] == cwd[other.len() as int]);
    }
}

/// A directory has a worktree just where it lies in one.
pub proof fn directories_in_worktrees_have_one(
    worktrees: Map<Seq<char>, Seq<char>>,
    cwd: Seq<char>,
    key: Option<Seq<char>>,
)
    requires
        is_worktree_of(worktrees, cwd, key),
    ensures
        key is Some <==> exists|path: Seq<char>| #[trigger]
            worktrees.contains_key(path) && lies_in(cwd, path),
{
    if let Some(k) = key {
        let path = choose|path: Seq<char>| #[trigger]
            is_innermost(worktrees, cwd, path) && worktrees[path] == k;
        assert(worktrees.contains_key(path));
    }
}

/// The name of a file is what stands behind the last slash of its path. Slashes and dots at the end do
/// not count, and two dots are no name.
pub proof fn file_names_come_last(dir: Seq<char>, name: Seq<char>)
    requires
        !name.contains('/'),
    ensures
        name.len() > 0 && name != "."@ && name != ".."@ ==> path_file_name(dir + seq!['/'] + name)
            == Some(name) && path_file_name(name) == Some(name),
        name == ".."@ ==> path_file_name(dir + seq!['/'] + name) is None && path_file_name(name)
            is None,
        name.len() == 0 || name == "."@ ==> path_file_name(dir + seq!['/'] + name)
            == path_file_name(dir) && path_file_name(name) is None,
{
    reveal_strlit(".");
    reveal_strlit("..");
    assert("."@.len() != ".."@.len());
    text::the_last_piece_comes_last(dir, name, '/');
    text::pieces_end_at_separators(name, Seq::empty(), '/');
    let parts = text::piece_texts(dir, '/');
    let more = parts.push(name);
    let n = parts.len() as int;
    assert(more[n] == name);
    lemma_last_step_of_prefix(more, parts, n);
    reveal_with_fuel(last_step, 2);
}

proof fn lemma_last_step_of_prefix(a: Seq<Seq<char>>, b: Seq<Seq<char>>, n: int)
    requires
        n <= a.len(),
        n <= b.len(),
        forall|i: int| 0 <= i < n ==> a[i] == b[i],
    ensures
        last_step(a, n) == last_step(b, n),
    decreases n,
{
    if n > 0 {
        assert(a[n - 1] == b[n - 1]);
        lemma_last_step_of_prefix(a, b, n - 1);
    }
}

/// A terminal that the hub made is known by its process, by the tab of the hub that it was put into,
/// and by the directory of the worktree that it was made in.
pub proof fn created_terminals_are_read(
    created: JsonModel,
    tab: JsonModel,
    pty: Seq<char>,
    id: Seq<char>,
    worktree: Seq<char>,
)
    requires
        json::member(created, "tab"@) == Some(tab),
        json::member(tab, "id"@) == Some(JsonModel::Text(id)),
    ensures
        json::member(tab, "ptyId"@) is None ==> created_in(created, worktree) is None,
        json::member(tab, "ptyId"@) == Some(JsonModel::Text(pty)) ==> (created_in(created, worktree)
            matches Some(made) && made.raw == session::raw_pty(pty) && made.signature == made.cwd
            + seq!['|'] + made.raw && (match text::halves(id, "::"@) {
            Some(parts) => made.parent == parts.0,
            None => made.parent == id,
        }) && (match text::halves(worktree, "::"@) {
            Some(parts) => made.cwd == parts.1,
            None => made.cwd.len() == 0,
        })),
{
    reveal_strlit("");
    let one = seq!["tab"@, "id"@];
    let two = seq!["tab"@, "ptyId"@];
    assert(one.drop_last() == seq!["tab"@]);
    assert(two.drop_last() == seq!["tab"@]);
    assert(seq!["tab"@].drop_last() == Seq::<Seq<char>>::empty());
    reveal_with_fuel(json::member_at, 3);
}

/// Each tab that is shown and has changed is listed once with its change, and no other tab is listed.
pub proof fn each_changed_tab_is_listed_once(
    changes: Seq<TabChangeModel>,
    tabs: Map<Seq<char>, TabStateModel>,
    desired: Seq<AppTabModel>,
    generation: u64,
    parent: Seq<char>,
    i: int,
    j: int,
)
    requires
        are_changes(changes, tabs, desired, generation),
    ensures
        (exists|k: int| 0 <= k < changes.len() && parent_of_change(#[trigger] changes[k]) == parent)
            <==> tabs.contains_key(parent) && change_for(parent, tabs[parent], desired, generation)
            is Some,
        0 <= i < changes.len() && parent_of_change(changes[i]) == parent ==> change_for(
            parent,
            tabs[parent],
            desired,
            generation,
        ) == Some(changes[i]),
        0 <= i < j < changes.len() ==> parent_of_change(changes[i]) != parent_of_change(changes[j]),
{
}

/// The project of a directory is named by the last step of the path of its worktree, or by the whole
/// path where that has no name. A directory in no worktree has no project.
pub proof fn projects_are_named_by_their_path(
    worktrees: Map<Seq<char>, Seq<char>>,
    cwd: Seq<char>,
    key: Seq<char>,
    name: Option<Seq<char>>,
)
    requires
        is_project_of(worktrees, cwd, name),
        is_worktree_of(worktrees, cwd, Some(key)),
    ensures
        match path_file_name(session::path_of_worktree(key)) {
            Some(last) => name == Some(last),
            None => name == Some(session::path_of_worktree(key)),
        },
{
    match name {
        Some(n) => {
            let other = choose|other: Seq<char>| #[trigger]
                is_worktree_of(worktrees, cwd, Some(other)) && n == project_named(
                    other,
                    path_file_name(session::path_of_worktree(other)),
                );
            the_worktree_is_unique(worktrees, cwd, Some(key), Some(other));
        },
        None => {
            the_worktree_is_unique(worktrees, cwd, Some(key), None);
        },
    }
}

/// A terminal whose tab has no identifier has no tab of the hub.
pub proof fn created_terminals_may_have_no_tab(
    created: JsonModel,
    tab: JsonModel,
    worktree: Seq<char>,
)
    requires
        json::member(created, "tab"@) == Some(tab),
        !(json::member(tab, "id"@) matches Some(JsonModel::Text(_))),
    ensures
        created_in(created, worktree) matches Some(made) ==> made.parent.len() == 0,
        !(json::member(tab, "ptyId"@) matches Some(JsonModel::Text(_))) ==> created_in(
            created,
            worktree,
        ) is None,
{
    reveal_strlit("");
    reveal_strlit("::");
    let one = seq!["tab"@, "id"@];
    let two = seq!["tab"@, "ptyId"@];
    assert(one.drop_last() == seq!["tab"@]);
    assert(two.drop_last() == seq!["tab"@]);
    assert(seq!["tab"@].drop_last() == Seq::<Seq<char>>::empty());
    reveal_with_fuel(json::member_at, 3);
    text::texts_are_parted_at_the_first(""@, "::"@);
}

/// What a list says, it says item by item: each stands in its place, and none is added or left out.
pub proof fn items_keep_their_places(v: Seq<TabChange>, i: int)
    ensures
        change_models(v).len() == v.len(),
        0 <= i < v.len() ==> change_models(v)[i] == v[i]@,
{
}

} // verus!
