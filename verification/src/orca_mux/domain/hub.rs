//! The terminals that a hub has, as a list to choose from.
use crate::collections::{TextMap, TextSet};
use crate::json;
use crate::json::{Json, JsonModel, Number, NumberModel};
use crate::lists;
use crate::orca_mux::domain::visual;
use crate::orca_mux::domain::visual::{PaneLayout, PaneLayoutModel};
use crate::orca_mux::pane;
use crate::orca_mux::pane::{SummaryModel, TerminalSummary};
use crate::orca_mux::session;
use crate::text;
use vstd::prelude::*;

verus! {

/// A terminal of the hub.
#[derive(Debug)]
pub struct HubTerminal {
    pub handle: String,
    pub worktree_id: String,
    pub worktree_path: String,
    pub parent_tab_id: String,
    pub leaf_id: String,
    pub title: String,
    pub agent: Option<String>,
    pub connected: bool,
}

/// What a [`HubTerminal`] says.
#[verifier::ext_equal]
pub struct HubTerminalModel {
    pub handle: Seq<char>,
    pub worktree_id: Seq<char>,
    pub worktree_path: Seq<char>,
    pub parent_tab_id: Seq<char>,
    pub leaf_id: Seq<char>,
    pub title: Seq<char>,
    pub agent: Option<Seq<char>>,
    pub connected: bool,
}

impl View for HubTerminal {
    type V = HubTerminalModel;

    open spec fn view(&self) -> HubTerminalModel {
        HubTerminalModel {
            handle: self.handle@,
            worktree_id: self.worktree_id@,
            worktree_path: self.worktree_path@,
            parent_tab_id: self.parent_tab_id@,
            leaf_id: self.leaf_id@,
            title: self.title@,
            agent: text::opt_text(self.agent),
            connected: self.connected,
        }
    }
}

impl Default for HubTerminal {
    fn default() -> (r: HubTerminal)
        ensures
            r@ == (HubTerminalModel {
                handle: ""@,
                worktree_id: ""@,
                worktree_path: ""@,
                parent_tab_id: ""@,
                leaf_id: ""@,
                title: ""@,
                agent: None,
                connected: false,
            }),
    {
        HubTerminal {
            handle: "".to_owned(),
            worktree_id: "".to_owned(),
            worktree_path: "".to_owned(),
            parent_tab_id: "".to_owned(),
            leaf_id: "".to_owned(),
            title: "".to_owned(),
            agent: None,
            connected: false,
        }
    }
}

/// The models of terminals.
pub open spec fn hub_models(v: Seq<HubTerminal>) -> Seq<HubTerminalModel> {
    v.map_values(|t: HubTerminal| t@)
}

/// The title of a terminal: its own, else the first line it shows, else its handle.
pub open spec fn title_of(summary: SummaryModel) -> Seq<char> {
    match summary.title {
        Some(title) if title.len() > 0 => title,
        _ => {
            let lines = text::line_texts(summary.preview);
            text::trimmed(
                if lines.len() > 0 {
                    lines[0]
                } else {
                    summary.handle
                },
            )
        },
    }
}

/// A terminal of the list.
pub open spec fn hub_terminal(summary: SummaryModel) -> HubTerminalModel {
    HubTerminalModel {
        handle: summary.handle,
        worktree_id: summary.worktree_id,
        worktree_path: summary.worktree_path,
        parent_tab_id: summary.tab_id,
        leaf_id: summary.leaf_id,
        title: title_of(summary),
        agent: summary.agent_identity,
        connected: summary.connected,
    }
}

/// The terminals from index `i` on that run.
pub open spec fn running_from(list: Seq<SummaryModel>, i: int) -> Seq<HubTerminalModel>
    decreases list.len() - i,
{
    if i < 0 || i >= list.len() {
        Seq::empty()
    } else if list[i].pty_id is Some {
        seq![hub_terminal(list[i])] + running_from(list, i + 1)
    } else {
        running_from(list, i + 1)
    }
}

fn clone_text(s: &Option<String>) -> (r: Option<String>)
    ensures
        text::opt_text(r) == text::opt_text(*s),
{
    match s {
        Some(s) => Some(s.clone()),
        None => None,
    }
}

fn summary_title(summary: &TerminalSummary) -> (r: String)
    ensures
        r@ == title_of(summary@),
{
    if let Some(title) = &summary.title {
        if !title.as_str().is_empty() {
            return title.clone();
        }
    }
    let lines = text::lines(summary.preview.as_str());
    if lines.len() > 0 {
        assert(text::texts(lines@)[0] == lines@[0]@);
        text::trim(lines[0].as_str())
    } else {
        assert(text::texts(lines@).len() == 0);
        text::trim(summary.handle.as_str())
    }
}

/// The terminals of a list that run.
pub fn hub_list_terminals(list: &[TerminalSummary]) -> (r: Vec<HubTerminal>)
    ensures
        hub_models(r@) == running_from(pane::summary_models(list@), 0),
{
    let ghost all = pane::summary_models(list@);
    let mut out: Vec<HubTerminal> = Vec::new();
    let mut i: usize = 0;
    assert(hub_models(out@) + running_from(all, 0) == running_from(all, 0));
    while i < list.len()
        invariant
            i <= list@.len(),
            all == pane::summary_models(list@),
            hub_models(out@) + running_from(all, i as int) == running_from(all, 0),
        decreases list@.len() - i,
    {
        let summary = &list[i];
        assert(all[i as int] == summary@);
        let ghost before = hub_models(out@);
        if summary.pty_id.is_some() {
            let terminal = HubTerminal {
                handle: summary.handle.clone(),
                worktree_id: summary.worktree_id.clone(),
                worktree_path: summary.worktree_path.clone(),
                parent_tab_id: summary.tab_id.clone(),
                leaf_id: summary.leaf_id.clone(),
                title: summary_title(summary),
                agent: clone_text(&summary.agent_identity),
                connected: summary.connected,
            };
            out.push(terminal);
            assert(hub_models(out@) == before.push(terminal@));
            assert(before + (seq![terminal@] + running_from(all, i + 1)) == hub_models(out@)
                + running_from(all, i + 1));
        }
        i += 1;
    }
    assert(hub_models(out@) + Seq::<HubTerminalModel>::empty() == hub_models(out@));
    out
}

/// The id and the directory of a worktree, by its key. A key without `::` is a directory.
pub open spec fn worktree_parts(key: Seq<char>) -> (Seq<char>, Seq<char>) {
    match text::halves(key, "::"@) {
        Some(parts) => parts,
        None => (""@, key),
    }
}

/// An entry of the session as a terminal.
pub open spec fn session_terminal(tab: JsonModel, key: Seq<char>) -> HubTerminalModel {
    let leaf_id = session::or_empty(json::text_member(tab, "leafId"@));
    let title = session::or_empty(json::text_member(tab, "title"@));
    HubTerminalModel {
        handle: leaf_id,
        worktree_id: worktree_parts(key).0,
        worktree_path: worktree_parts(key).1,
        parent_tab_id: session::or_empty(json::text_member(tab, "parentTabId"@)),
        leaf_id,
        title: if title.len() > 0 {
            title
        } else {
            "terminal"@
        },
        agent: None,
        connected: true,
    }
}

/// The terminals that the entries from index `i` on give, and the processes that are then known. A
/// process backs one terminal, so only the first entry of it counts.
pub open spec fn terminals_from(
    tabs: Seq<JsonModel>,
    i: int,
    seen: Set<Seq<char>>,
    key: Seq<char>,
) -> (Seq<HubTerminalModel>, Set<Seq<char>>)
    decreases tabs.len() - i,
{
    if i < 0 || i >= tabs.len() {
        (Seq::empty(), seen)
    } else {
        match json::text_member(tabs[i], "ptyId"@) {
            Some(pty) => if seen.contains(pty) {
                terminals_from(tabs, i + 1, seen, key)
            } else {
                let rest = terminals_from(tabs, i + 1, seen.insert(pty), key);
                (seq![session_terminal(tabs[i], key)] + rest.0, rest.1)
            },
            None => terminals_from(tabs, i + 1, seen, key),
        }
    }
}

/// The terminals of the worktrees from index `i` on.
pub open spec fn terminals_of_snapshots(
    snapshots: Seq<JsonModel>,
    i: int,
    seen: Set<Seq<char>>,
) -> Seq<HubTerminalModel>
    decreases snapshots.len() - i,
{
    if i < 0 || i >= snapshots.len() {
        Seq::empty()
    } else {
        let here = terminals_from(
            json::items_or_none(json::member(snapshots[i], "tabs"@)),
            0,
            seen,
            session::or_empty(json::text_member(snapshots[i], "worktree"@)),
        );
        here.0 + terminals_of_snapshots(snapshots, i + 1, here.1)
    }
}

/// The processes that the first `n` entries name.
pub open spec fn processes_in(tabs: Seq<JsonModel>, n: int) -> Set<Seq<char>>
    decreases n,
{
    if n <= 0 {
        Set::empty()
    } else {
        match json::text_member(tabs[n - 1], "ptyId"@) {
            Some(pty) => processes_in(tabs, n - 1).insert(pty),
            None => processes_in(tabs, n - 1),
        }
    }
}

/// The processes that the first `n` worktrees name.
pub open spec fn processes_of(snapshots: Seq<JsonModel>, n: int) -> Set<Seq<char>>
    decreases n,
{
    if n <= 0 {
        Set::empty()
    } else {
        let tabs = json::items_or_none(json::member(snapshots[n - 1], "tabs"@));
        processes_of(snapshots, n - 1).union(processes_in(tabs, tabs.len() as int))
    }
}

proof fn lemma_new_processes(
    tabs: Seq<JsonModel>,
    i: int,
    known: Set<Seq<char>>,
    key: Seq<char>,
)
    requires
        0 <= i <= tabs.len(),
        known.finite(),
    ensures
        ({
            let seen = known.union(processes_in(tabs, i));
            let all = known.union(processes_in(tabs, tabs.len() as int));
            let rest = terminals_from(tabs, i, seen, key);
            seen.finite() && all.finite() && rest.1 == all && rest.0.len() + seen.len() == all.len()
        }),
    decreases tabs.len() - i,
{
    lemma_processes_finite(tabs, i);
    let seen = known.union(processes_in(tabs, i));
    if i < tabs.len() {
        let next = known.union(processes_in(tabs, i + 1));
        lemma_new_processes(tabs, i + 1, known, key);
        match json::text_member(tabs[i], "ptyId"@) {
            Some(pty) => {
                assert(next =~= seen.insert(pty));
                if seen.contains(pty) {
                    assert(next =~= seen);
                }
            },
            None => {
                assert(next =~= seen);
            },
        }
    }
}

proof fn lemma_processes_finite(tabs: Seq<JsonModel>, n: int)
    requires
        n <= tabs.len(),
    ensures
        processes_in(tabs, n).finite(),
    decreases n,
{
    if n > 0 {
        lemma_processes_finite(tabs, n - 1);
    }
}

proof fn lemma_session_processes(snapshots: Seq<JsonModel>, i: int)
    requires
        0 <= i <= snapshots.len(),
    ensures
        ({
            let seen = processes_of(snapshots, i);
            let all = processes_of(snapshots, snapshots.len() as int);
            seen.finite() && all.finite() && terminals_of_snapshots(snapshots, i, seen).len()
                + seen.len() == all.len()
        }),
    decreases snapshots.len() - i,
{
    lemma_session_finite(snapshots, i);
    if i < snapshots.len() {
        let seen = processes_of(snapshots, i);
        let tabs = json::items_or_none(json::member(snapshots[i], "tabs"@));
        let key = session::or_empty(json::text_member(snapshots[i], "worktree"@));
        assert(seen.union(processes_in(tabs, 0)) =~= seen);
        lemma_new_processes(tabs, 0, seen, key);
        lemma_session_processes(snapshots, i + 1);
    }
}

proof fn lemma_session_finite(snapshots: Seq<JsonModel>, n: int)
    requires
        n <= snapshots.len(),
    ensures
        processes_of(snapshots, n).finite(),
    decreases n,
{
    if n > 0 {
        let tabs = json::items_or_none(json::member(snapshots[n - 1], "tabs"@));
        lemma_session_finite(snapshots, n - 1);
        lemma_processes_finite(tabs, tabs.len() as int);
    }
}

/// A process backs exactly one terminal: a session has as many terminals as it names processes, in
/// however many entries.
pub proof fn a_process_backs_one_terminal(snapshots: Seq<JsonModel>)
    ensures
        ({
            let processes = processes_of(snapshots, snapshots.len() as int);
            processes.finite() && terminals_of_snapshots(snapshots, 0, Set::empty()).len()
                == processes.len()
        }),
{
    lemma_session_processes(snapshots, 0);
}

fn member_text(value: &Json, key: &str) -> (r: String)
    ensures
        r@ == session::or_empty(json::text_member(value@, key@)),
{
    match value.get_text(key) {
        Some(s) => s,
        None => "".to_owned(),
    }
}

fn read_snapshot(snapshot: &Json, seen: &mut TextSet, out: &mut Vec<HubTerminal>)
    ensures
        ({
            let here = terminals_from(
                json::items_or_none(json::member(snapshot@, "tabs"@)),
                0,
                old(seen)@,
                session::or_empty(json::text_member(snapshot@, "worktree"@)),
            );
            &&& hub_models(final(out)@) == hub_models(old(out)@) + here.0
            &&& final(seen)@ == here.1
        }),
{
    let key = member_text(snapshot, "worktree");
    let (worktree_id, worktree_path) = match text::split_once(key.as_str(), "::") {
        Some((id, path)) => (id, path),
        None => ("".to_owned(), key.clone()),
    };
    let ghost start = hub_models(out@);
    let ghost known = seen@;
    let tabs = match snapshot.get_items("tabs") {
        Some(tabs) => tabs,
        None => {
            assert(start + Seq::<HubTerminalModel>::empty() == start);
            return ;
        },
    };
    let ghost all = json::models(tabs@);
    let ghost want = terminals_from(all, 0, known, key@);
    let mut i: usize = 0;
    while i < tabs.len()
        invariant
            i <= tabs@.len(),
            all == json::models(tabs@),
            worktree_id@ == worktree_parts(key@).0,
            worktree_path@ == worktree_parts(key@).1,
            hub_models(out@) + terminals_from(all, i as int, seen@, key@).0 == start + want.0,
            terminals_from(all, i as int, seen@, key@).1 == want.1,
        decreases tabs@.len() - i,
    {
        let tab = &tabs[i];
        assert(all[i as int] == tab@);
        let ghost before = hub_models(out@);
        let ghost was_seen = seen@;
        i += 1;
        let pty = match tab.get_text("ptyId") {
            Some(pty) => pty,
            None => continue,
        };
        if !seen.insert(pty.as_str()) {
            assert(seen@ =~= was_seen);
            continue;
        }
        let leaf_id = member_text(tab, "leafId");
        let title = member_text(tab, "title");
        let terminal = HubTerminal {
            handle: leaf_id.clone(),
            worktree_id: worktree_id.clone(),
            worktree_path: worktree_path.clone(),
            parent_tab_id: member_text(tab, "parentTabId"),
            leaf_id,
            title: if title.as_str().is_empty() {
                "terminal".to_owned()
            } else {
                title
            },
            agent: None,
            connected: true,
        };
        out.push(terminal);
        let ghost rest = terminals_from(all, i as int, seen@, key@).0;
        assert(terminal@ == session_terminal(tab@, key@));
        assert(hub_models(out@) == before.push(terminal@));
        assert(before + (seq![terminal@] + rest) == hub_models(out@) + rest);
    }
    assert(hub_models(out@) + Seq::<HubTerminalModel>::empty() == hub_models(out@));
}

/// The terminals of a session of the hub.
pub fn hub_terminals_from_session(session: &Json) -> (r: Vec<HubTerminal>)
    ensures
        hub_models(r@) == terminals_of_snapshots(
            json::items_or_none(json::member(session@, "snapshots"@)),
            0,
            Set::empty(),
        ),
{
    let mut out: Vec<HubTerminal> = Vec::new();
    let mut seen = TextSet::new();
    assert(hub_models(out@) == Seq::<HubTerminalModel>::empty());
    if let Some(snapshots) = session.get_items("snapshots") {
        let ghost all = json::models(snapshots@);
        let ghost want = terminals_of_snapshots(all, 0, Set::empty());
        let mut i: usize = 0;
        assert(hub_models(out@) + want == want);
        while i < snapshots.len()
            invariant
                i <= snapshots@.len(),
                all == json::models(snapshots@),
                hub_models(out@) + terminals_of_snapshots(all, i as int, seen@) == want,
            decreases snapshots@.len() - i,
        {
            let ghost before = hub_models(out@);
            let ghost known = seen@;
            assert(all[i as int] == snapshots@[i as int]@);
            read_snapshot(&snapshots[i], &mut seen, &mut out);
            let ghost here = terminals_from(
                json::items_or_none(json::member(all[i as int], "tabs"@)),
                0,
                known,
                session::or_empty(json::text_member(all[i as int], "worktree"@)),
            );
            assert(before + (here.0 + terminals_of_snapshots(all, i + 1, here.1)) == hub_models(out@)
                + terminals_of_snapshots(all, i + 1, seen@));
            i += 1;
        }
        assert(hub_models(out@) + Seq::<HubTerminalModel>::empty() == hub_models(out@));
    }
    out
}

/// A tab of the session: what it is, the visual tab it belongs to, the layout of that, and the
/// terminal and the agent in it.
#[derive(Debug)]
pub struct SessionTab {
    pub kind: String,
    pub parent_tab_id: String,
    pub root: Option<PaneLayout>,
    pub terminal: Option<String>,
    pub agent_state: Option<String>,
}

/// What a [`SessionTab`] says.
#[verifier::ext_equal]
pub struct SessionTabModel {
    pub kind: Seq<char>,
    pub parent_tab_id: Seq<char>,
    pub root: Option<PaneLayoutModel>,
    pub terminal: Option<Seq<char>>,
    pub agent_state: Option<Seq<char>>,
}

impl View for SessionTab {
    type V = SessionTabModel;

    open spec fn view(&self) -> SessionTabModel {
        SessionTabModel {
            kind: self.kind@,
            parent_tab_id: self.parent_tab_id@,
            root: visual::opt_layout(self.root),
            terminal: text::opt_text(self.terminal),
            agent_state: text::opt_text(self.agent_state),
        }
    }
}

/// The models of tabs.
pub open spec fn session_tab_models(v: Seq<SessionTab>) -> Seq<SessionTabModel> {
    v.map_values(|t: SessionTab| t@)
}

/// What the agents do in the terminals of the first `n` tabs, on top of `known`.
pub open spec fn with_statuses(
    tabs: Seq<SessionTabModel>,
    n: int,
    known: Map<Seq<char>, Option<Seq<char>>>,
) -> Map<Seq<char>, Option<Seq<char>>>
    decreases n,
{
    if n <= 0 {
        known
    } else {
        let before = with_statuses(tabs, n - 1, known);
        match tabs[n - 1].terminal {
            Some(terminal) if tabs[n - 1].kind == "terminal"@ => before.insert(
                terminal,
                tabs[n - 1].agent_state,
            ),
            _ => before,
        }
    }
}

/// The states by terminal.
pub open spec fn status_models(m: Map<Seq<char>, Option<String>>) -> Map<
    Seq<char>,
    Option<Seq<char>>,
> {
    m.map_values(|s: Option<String>| text::opt_text(s))
}

/// Takes up what the agents do in the terminals of the tabs.
pub fn collect_agent_statuses(tabs: &[SessionTab], statuses: &mut TextMap<Option<String>>)
    ensures
        status_models(final(statuses)@) == with_statuses(
            session_tab_models(tabs@),
            tabs@.len() as int,
            status_models(old(statuses)@),
        ),
{
    let ghost all = session_tab_models(tabs@);
    let ghost known = status_models(statuses@);
    let mut i: usize = 0;
    while i < tabs.len()
        invariant
            i <= tabs@.len(),
            all == session_tab_models(tabs@),
            status_models(statuses@) == with_statuses(all, i as int, known),
        decreases tabs@.len() - i,
    {
        assert(all[i as int] == tabs@[i as int]@);
        let ghost before = statuses@;
        if text::same(tabs[i].kind.as_str(), "terminal") {
            if let Some(terminal) = &tabs[i].terminal {
                let state = clone_text(&tabs[i].agent_state);
                statuses.insert(terminal.as_str(), state);
                assert(status_models(before.insert(terminal@, state)) =~= status_models(
                    before,
                ).insert(terminal@, text::opt_text(state)));
            }
        }
        i += 1;
    }
}

/// The ratios of the splits of the first `n` tabs, by leaf, and the visual tabs that are then known.
/// Only the first tab of a visual tab counts.
pub open spec fn ratios_of_tabs(tabs: Seq<SessionTabModel>, n: int) -> (
    Map<Seq<char>, NumberModel>,
    Set<Seq<char>>,
)
    decreases n,
{
    if n <= 0 {
        (Map::empty(), Set::empty())
    } else {
        let before = ratios_of_tabs(tabs, n - 1);
        let tab = tabs[n - 1];
        if tab.kind != "terminal"@ || before.1.contains(tab.parent_tab_id) {
            before
        } else {
            (
                match tab.root {
                    Some(root) => visual::with_ratios(root, before.0),
                    None => before.0,
                },
                before.1.insert(tab.parent_tab_id),
            )
        }
    }
}

/// Whether `handles` has, for every leaf at which a terminal of the worktree is, the handle of one
/// that is there, and nothing else.
pub open spec fn are_leaf_handles(
    handles: Map<Seq<char>, Seq<char>>,
    summaries: Map<Seq<char>, TerminalSummary>,
    worktree_id: Seq<char>,
) -> bool {
    &&& forall|k: Seq<char>| #[trigger]
        summaries.contains_key(k) && summaries[k]@.worktree_id == worktree_id
            ==> handles.contains_key(summaries[k]@.leaf_id)
    &&& forall|leaf: Seq<char>| #[trigger]
        handles.contains_key(leaf) ==> exists|k: Seq<char>| #[trigger]
            summaries.contains_key(k) && summaries[k]@.worktree_id == worktree_id
                && summaries[k]@.leaf_id == leaf && summaries[k]@.handle == handles[leaf]
}

/// Whether `by_handle` has the ratios of `by_leaf`, each under the handle of its leaf.
pub open spec fn is_by_handle(
    by_handle: Map<Seq<char>, NumberModel>,
    by_leaf: Map<Seq<char>, NumberModel>,
    handles: Map<Seq<char>, Seq<char>>,
) -> bool {
    &&& forall|leaf: Seq<char>| #[trigger]
        by_leaf.contains_key(leaf) && handles.contains_key(leaf) ==> by_handle.contains_key(
            handles[leaf],
        )
    &&& forall|handle: Seq<char>| #[trigger]
        by_handle.contains_key(handle) ==> exists|leaf: Seq<char>| #[trigger]
            by_leaf.contains_key(leaf) && handles.contains_key(leaf) && handles[leaf] == handle
                && by_handle[handle] == by_leaf[leaf]
}

/// Whether `ratios` are those of the splits of a worktree, each under the terminal that stands first
/// in its second part. `by_leaf` has them by the leaf of that terminal.
pub open spec fn are_ratios(
    ratios: Map<Seq<char>, NumberModel>,
    by_leaf: Map<Seq<char>, NumberModel>,
    summaries: Map<Seq<char>, TerminalSummary>,
    worktree_id: Seq<char>,
) -> bool {
    exists|handles: Map<Seq<char>, Seq<char>>| #[trigger]
        are_leaf_handles(handles, summaries, worktree_id) && is_by_handle(ratios, by_leaf, handles)
}

fn ratios_by_leaf(tabs: &[SessionTab]) -> (r: TextMap<Number>)
    ensures
        visual::number_models(r@) == ratios_of_tabs(
            session_tab_models(tabs@),
            tabs@.len() as int,
        ).0,
{
    let ghost all = session_tab_models(tabs@);
    let mut out: TextMap<Number> = TextMap::new();
    let mut seen = TextSet::new();
    let mut i: usize = 0;
    assert(visual::number_models(out@) =~= Map::<Seq<char>, NumberModel>::empty());
    while i < tabs.len()
        invariant
            i <= tabs@.len(),
            all == session_tab_models(tabs@),
            visual::number_models(out@) == ratios_of_tabs(all, i as int).0,
            seen@ == ratios_of_tabs(all, i as int).1,
        decreases tabs@.len() - i,
    {
        assert(all[i as int] == tabs@[i as int]@);
        let ghost known = seen@;
        if text::same(tabs[i].kind.as_str(), "terminal") {
            if seen.insert(tabs[i].parent_tab_id.as_str()) {
                if let Some(root) = &tabs[i].root {
                    root.collect_layout_ratios(&mut out);
                }
            } else {
                assert(seen@ =~= known);
            }
        }
        i += 1;
    }
    out
}

/// The text values of a map.
spec fn values(m: Map<Seq<char>, String>) -> Map<Seq<char>, Seq<char>> {
    m.map_values(|s: String| s@)
}

fn leaf_handles(summaries: &TextMap<TerminalSummary>, worktree_id: &str) -> (r: TextMap<String>)
    ensures
        are_leaf_handles(values(r@), summaries@, worktree_id@),
{
    let keys = summaries.keys();
    let ghost all = text::texts(keys@);
    let ghost known = summaries@;
    let mut out: TextMap<String> = TextMap::new();
    let mut i: usize = 0;
    while i < keys.len()
        invariant
            i <= keys@.len(),
            all == text::texts(keys@),
            known == summaries@,
            forall|k: Seq<char>| known.contains_key(k) <==> #[trigger] all.contains(k),
            forall|j: int|
                0 <= j < i && known[#[trigger] all[j]]@.worktree_id == worktree_id@
                    ==> out@.contains_key(known[all[j]]@.leaf_id),
            forall|leaf: Seq<char>| #[trigger]
                out@.contains_key(leaf) ==> exists|k: Seq<char>| #[trigger]
                    known.contains_key(k) && known[k]@.worktree_id == worktree_id@
                        && known[k]@.leaf_id == leaf && known[k]@.handle == out@[leaf]@,
        decreases keys@.len() - i,
    {
        let key = keys[i].as_str();
        assert(all[i as int] == key@);
        assert(all.contains(key@));
        let ghost before = out@;
        if let Some(summary) = summaries.get(key) {
            if text::same(summary.worktree_id.as_str(), worktree_id) {
                let handle = summary.handle.clone();
                out.insert(summary.leaf_id.as_str(), handle);
                assert forall|leaf: Seq<char>| #[trigger] out@.contains_key(leaf) implies exists|
                    k: Seq<char>,
                | #[trigger]
                    known.contains_key(k) && known[k]@.worktree_id == worktree_id@
                        && known[k]@.leaf_id == leaf && known[k]@.handle == out@[leaf]@ by {
                    if leaf == summary.leaf_id@ {
                        assert(known.contains_key(key@));
                    } else {
                        assert(before.contains_key(leaf));
                        let k = choose|k: Seq<char>| #[trigger]
                            known.contains_key(k) && known[k]@.worktree_id == worktree_id@
                                && known[k]@.leaf_id == leaf && known[k]@.handle == before[leaf]@;
                        assert(known.contains_key(k));
                    }
                }
            }
        }
        i += 1;
    }
    proof {
        let done = values(out@);
        assert forall|k: Seq<char>| #[trigger]
            known.contains_key(k) && known[k]@.worktree_id == worktree_id@ implies done.contains_key(
            known[k]@.leaf_id,
        ) by {
            assert(all.contains(k));
            let j = choose|j: int| 0 <= j < all.len() && all[j] == k;
            assert(out@.contains_key(known[all[j]]@.leaf_id));
        }
        assert forall|leaf: Seq<char>| #[trigger] done.contains_key(leaf) implies exists|
            k: Seq<char>,
        | #[trigger]
            known.contains_key(k) && known[k]@.worktree_id == worktree_id@ && known[k]@.leaf_id
                == leaf && known[k]@.handle == done[leaf] by {
            assert(out@.contains_key(leaf));
        }
    }
    out
}

/// The ratios of the splits of a worktree, each under the terminal that stands first in its second
/// part.
pub fn worktree_ratios(
    tabs: &[SessionTab],
    summaries: &TextMap<TerminalSummary>,
    worktree_id: &str,
) -> (r: TextMap<Number>)
    ensures
        are_ratios(
            visual::number_models(r@),
            ratios_of_tabs(session_tab_models(tabs@), tabs@.len() as int).0,
            summaries@,
            worktree_id@,
        ),
{
    let by_leaf = ratios_by_leaf(tabs);
    let handles = leaf_handles(summaries, worktree_id);
    let ghost ratios = visual::number_models(by_leaf@);
    let ghost names = values(handles@);
    let leaves = by_leaf.keys();
    let ghost all = text::texts(leaves@);
    let mut out: TextMap<Number> = TextMap::new();
    let mut i: usize = 0;
    while i < leaves.len()
        invariant
            i <= leaves@.len(),
            all == text::texts(leaves@),
            ratios == visual::number_models(by_leaf@),
            names == values(handles@),
            forall|k: Seq<char>| by_leaf@.contains_key(k) <==> #[trigger] all.contains(k),
            forall|j: int|
                0 <= j < i && names.contains_key(#[trigger] all[j]) ==> out@.contains_key(
                    names[all[j]],
                ),
            forall|handle: Seq<char>| #[trigger]
                out@.contains_key(handle) ==> exists|leaf: Seq<char>| #[trigger]
                    ratios.contains_key(leaf) && names.contains_key(leaf) && names[leaf] == handle
                        && out@[handle]@ == ratios[leaf],
        decreases leaves@.len() - i,
    {
        let leaf = leaves[i].as_str();
        assert(all[i as int] == leaf@);
        assert(all.contains(leaf@));
        let ghost before = out@;
        if let Some(handle) = handles.get(leaf) {
            assert(names.contains_key(leaf@) && names[leaf@] == handle@);
            if let Some(ratio) = by_leaf.get(leaf) {
                let number = ratio.copy();
                out.insert(handle.as_str(), number);
                assert(ratios.contains_key(leaf@) && ratios[leaf@] == number@);
                assert forall|h: Seq<char>| #[trigger] out@.contains_key(h) implies exists|
                    l: Seq<char>,
                | #[trigger]
                    ratios.contains_key(l) && names.contains_key(l) && names[l] == h && out@[h]@
                        == ratios[l] by {
                    if h == handle@ {
                        assert(ratios.contains_key(leaf@));
                    } else {
                        assert(before.contains_key(h));
                        let l = choose|l: Seq<char>| #[trigger]
                            ratios.contains_key(l) && names.contains_key(l) && names[l] == h
                                && before[h]@ == ratios[l];
                        assert(ratios.contains_key(l));
                    }
                }
            }
        } else {
            assert(!names.contains_key(leaf@));
        }
        i += 1;
    }
    proof {
        let done = visual::number_models(out@);
        assert forall|leaf: Seq<char>| #[trigger]
            ratios.contains_key(leaf) && names.contains_key(leaf) implies done.contains_key(
            names[leaf],
        ) by {
            assert(by_leaf@.contains_key(leaf));
            assert(all.contains(leaf));
            let j = choose|j: int| 0 <= j < all.len() && all[j] == leaf;
            assert(out@.contains_key(names[all[j]]));
        }
        assert forall|handle: Seq<char>| #[trigger] done.contains_key(handle) implies exists|
            leaf: Seq<char>,
        | #[trigger]
            ratios.contains_key(leaf) && names.contains_key(leaf) && names[leaf] == handle
                && done[handle] == ratios[leaf] by {
            assert(out@.contains_key(handle));
        }
        assert(are_leaf_handles(names, summaries@, worktree_id@));
    }
    out
}

proof fn lemma_leaf_handles(
    a: Map<Seq<char>, Seq<char>>,
    b: Map<Seq<char>, Seq<char>>,
    summaries: Map<Seq<char>, TerminalSummary>,
    worktree_id: Seq<char>,
)
    requires
        are_leaf_handles(a, summaries, worktree_id),
        are_leaf_handles(b, summaries, worktree_id),
        stand_apart(summaries, worktree_id),
    ensures
        a == b,
{
    assert forall|leaf: Seq<char>| a.contains_key(leaf) implies #[trigger] b.contains_key(leaf)
        && a[leaf] == b[leaf] by {
        let k = choose|k: Seq<char>| #[trigger]
            summaries.contains_key(k) && summaries[k]@.worktree_id == worktree_id
                && summaries[k]@.leaf_id == leaf && summaries[k]@.handle == a[leaf];
        assert(summaries.contains_key(k));
        let l = choose|l: Seq<char>| #[trigger]
            summaries.contains_key(l) && summaries[l]@.worktree_id == worktree_id
                && summaries[l]@.leaf_id == leaf && summaries[l]@.handle == b[leaf];
        assert(summaries.contains_key(l));
    }
    assert forall|leaf: Seq<char>| b.contains_key(leaf) implies #[trigger] a.contains_key(leaf) by {
        let k = choose|k: Seq<char>| #[trigger]
            summaries.contains_key(k) && summaries[k]@.worktree_id == worktree_id
                && summaries[k]@.leaf_id == leaf && summaries[k]@.handle == b[leaf];
        assert(summaries.contains_key(k));
    }
    assert(a =~= b);
}

/// Whether each terminal is known by its own handle, and no two of the worktree are at one leaf.
pub open spec fn stand_apart(
    summaries: Map<Seq<char>, TerminalSummary>,
    worktree_id: Seq<char>,
) -> bool {
    &&& forall|k: Seq<char>| #[trigger]
        summaries.contains_key(k) ==> summaries[k]@.handle == k
    &&& forall|k: Seq<char>, l: Seq<char>| #[trigger]
        summaries.contains_key(k) && #[trigger] summaries.contains_key(l)
            && summaries[k]@.worktree_id == worktree_id && summaries[l]@.worktree_id == worktree_id
            && summaries[k]@.leaf_id == summaries[l]@.leaf_id ==> k == l
}

/// Where no two terminals of a worktree are at one leaf, its ratios are settled: there is one ratio
/// at most for a terminal, and one set of them for the worktree.
pub proof fn ratios_are_settled(
    a: Map<Seq<char>, NumberModel>,
    b: Map<Seq<char>, NumberModel>,
    by_leaf: Map<Seq<char>, NumberModel>,
    summaries: Map<Seq<char>, TerminalSummary>,
    worktree_id: Seq<char>,
)
    requires
        stand_apart(summaries, worktree_id),
        are_ratios(a, by_leaf, summaries, worktree_id),
        are_ratios(b, by_leaf, summaries, worktree_id),
    ensures
        a == b,
{
    let handles = choose|handles: Map<Seq<char>, Seq<char>>| #[trigger]
        are_leaf_handles(handles, summaries, worktree_id) && is_by_handle(a, by_leaf, handles);
    let others = choose|others: Map<Seq<char>, Seq<char>>| #[trigger]
        are_leaf_handles(others, summaries, worktree_id) && is_by_handle(b, by_leaf, others);
    lemma_leaf_handles(handles, others, summaries, worktree_id);
    lemma_same_ratios(a, b, by_leaf, handles, summaries, worktree_id);
    lemma_same_ratios(b, a, by_leaf, handles, summaries, worktree_id);
    assert(a =~= b);
}

proof fn lemma_same_ratios(
    a: Map<Seq<char>, NumberModel>,
    b: Map<Seq<char>, NumberModel>,
    by_leaf: Map<Seq<char>, NumberModel>,
    handles: Map<Seq<char>, Seq<char>>,
    summaries: Map<Seq<char>, TerminalSummary>,
    worktree_id: Seq<char>,
)
    requires
        stand_apart(summaries, worktree_id),
        are_leaf_handles(handles, summaries, worktree_id),
        is_by_handle(a, by_leaf, handles),
        is_by_handle(b, by_leaf, handles),
    ensures
        forall|handle: Seq<char>| #[trigger]
            a.contains_key(handle) ==> b.contains_key(handle) && a[handle] == b[handle],
{
    assert forall|handle: Seq<char>| #[trigger] a.contains_key(handle) implies b.contains_key(
        handle,
    ) && a[handle] == b[handle] by {
        let leaf = choose|leaf: Seq<char>| #[trigger]
            by_leaf.contains_key(leaf) && handles.contains_key(leaf) && handles[leaf] == handle
                && a[handle] == by_leaf[leaf];
        assert(by_leaf.contains_key(leaf));
        assert(b.contains_key(handle));
        let other = choose|other: Seq<char>| #[trigger]
            by_leaf.contains_key(other) && handles.contains_key(other) && handles[other] == handle
                && b[handle] == by_leaf[other];
        let k = choose|k: Seq<char>| #[trigger]
            summaries.contains_key(k) && summaries[k]@.worktree_id == worktree_id
                && summaries[k]@.leaf_id == leaf && summaries[k]@.handle == handles[leaf];
        let l = choose|l: Seq<char>| #[trigger]
            summaries.contains_key(l) && summaries[l]@.worktree_id == worktree_id
                && summaries[l]@.leaf_id == other && summaries[l]@.handle == handles[other];
        assert(summaries.contains_key(k) && summaries.contains_key(l));
        assert(k == handle && l == handle);
    }
}

/// The first layout from index `i` on that a tab of the visual tab has.
pub open spec fn first_layout(tabs: Seq<SessionTabModel>, i: int, parent: Seq<char>) -> Option<
    PaneLayoutModel,
>
    decreases tabs.len() - i,
{
    if i < 0 || i >= tabs.len() {
        None
    } else if tabs[i].parent_tab_id == parent && tabs[i].root is Some {
        tabs[i].root
    } else {
        first_layout(tabs, i + 1, parent)
    }
}

/// The layout of a visual tab, from the tabs of the session: the first that one of its tabs has.
pub fn layout_of_tab(tabs: Vec<SessionTab>, parent_tab_id: &str) -> (r: Option<PaneLayout>)
    ensures
        visual::opt_layout(r) == first_layout(session_tab_models(tabs@), 0, parent_tab_id@),
{
    let ghost all = session_tab_models(tabs@);
    let mut rest = tabs;
    let mut i: usize = 0;
    while i < rest.len()
        invariant
            i <= rest@.len(),
            all == session_tab_models(rest@),
            all == session_tab_models(tabs@),
            first_layout(all, 0, parent_tab_id@) == first_layout(all, i as int, parent_tab_id@),
        decreases rest@.len() - i,
    {
        assert(all[i as int] == rest@[i as int]@);
        if rest[i].root.is_some() && text::same(rest[i].parent_tab_id.as_str(), parent_tab_id) {
            let tab = rest.remove(i);
            assert(tab@ == all[i as int]);
            return tab.root;
        }
        i += 1;
    }
    None
}

/// A terminal is listed under its own title, or else under the first line of what it shows, without
/// white space around it, and under its handle where it shows nothing.
pub proof fn titles_are_found(
    summary: SummaryModel,
    before: Seq<char>,
    inner: Seq<char>,
    behind: Seq<char>,
    rest: Seq<char>,
)
    requires
        text::all_space(before, true),
        text::all_space(behind, true),
        inner.len() > 0 ==> !text::is_space(inner[0]) && !text::is_space(inner.last()),
        !(before + inner + behind).contains('\n'),
    ensures
        summary.title matches Some(title) && title.len() > 0 ==> title_of(summary)
            == summary.title->0,
        !(summary.title matches Some(title) && title.len() > 0) ==> {
            &&& summary.preview == before + inner + behind + seq!['\n'] + rest ==> title_of(summary)
                == inner
            &&& summary.preview == before + inner + behind && summary.preview.len() > 0 ==> title_of(
                summary,
            ) == inner
            &&& summary.preview.len() == 0 && summary.handle == before + inner + behind
                ==> title_of(summary) == inner
        },
{
    let line = before + inner + behind;
    text::lines_end_at_line_feeds(line, rest);
    text::only_outer_space_is_trimmed(before, inner, behind);
    if behind.len() > 0 && line.last() == '\r' {
        let less = behind.drop_last();
        assert(line.drop_last() == before + inner + less);
        text::only_outer_space_is_trimmed(before, inner, less);
    } else if inner.len() > 0 && behind.len() == 0 {
        assert(line.last() == inner.last());
        assert(!text::is_space(line.last()));
        assert(line.last() != '\r');
    } else if behind.len() == 0 && line.len() > 0 && line.last() == '\r' {
        let less = before.drop_last();
        assert(line.drop_last() == less + inner + behind);
        text::only_outer_space_is_trimmed(less, inner, behind);
    }
    if summary.preview.len() == 0 {
        assert(summary.preview == Seq::<char>::empty());
    }
}

proof fn lemma_running_from(list: Seq<SummaryModel>, i: int)
    requires
        0 <= i <= list.len(),
    ensures
        running_from(list, i) == lists::picked(
            list.skip(i),
            |s: SummaryModel|
                if s.pty_id is Some {
                    Some(hub_terminal(s))
                } else {
                    None
                },
        ),
    decreases list.len() - i,
{
    let f = |s: SummaryModel|
        if s.pty_id is Some {
            Some(hub_terminal(s))
        } else {
            None
        };
    if i < list.len() {
        lemma_running_from(list, i + 1);
        lists::lemma_picked_front(list, i, f);
    } else {
        assert(list.skip(i) == Seq::<SummaryModel>::empty());
        lists::lemma_picked_empty(f);
    }
}

/// All terminals that run are listed, in the order of the hub, each with what the hub says of it.
pub proof fn running_terminals_are_listed(list: Seq<SummaryModel>, s: SummaryModel)
    ensures
        running_from(list, 0) == lists::picked(
            list,
            |s: SummaryModel|
                if s.pty_id is Some {
                    Some(hub_terminal(s))
                } else {
                    None
                },
        ),
        ({
            let t = hub_terminal(s);
            &&& t.handle == s.handle && t.worktree_id == s.worktree_id && t.worktree_path
                == s.worktree_path
            &&& t.parent_tab_id == s.tab_id && t.leaf_id == s.leaf_id
            &&& t.agent == s.agent_identity && t.connected == s.connected && t.title == title_of(s)
        }),
{
    lemma_running_from(list, 0);
    assert(list.skip(0) == list);
}

/// The key of a worktree is its identifier and its path with `::` between them, where that stands for
/// the first time. A key without it is only a path.
pub proof fn worktree_keys_are_parted(key: Seq<char>, id: Seq<char>, path: Seq<char>)
    ensures
        ({
            let parts = worktree_parts(key);
            ||| key == parts.0 + "::"@ + parts.1 && forall|n: int|
                0 <= n < parts.0.len() ==> !#[trigger] text::follows(key, "::"@, n)
            ||| parts.0.len() == 0 && parts.1 == key && forall|n: int|
                !#[trigger] text::follows(key, "::"@, n)
        }),
{
    reveal_strlit("");
    text::texts_are_parted_at_the_first(key, "::"@);
}

/// What a tab of a session says of its terminal: it goes by its leaf, and has the name `terminal` where
/// the tab gives it none.
pub proof fn session_tabs_tell_their_terminal(
    tab: JsonModel,
    key: Seq<char>,
    leaf: Seq<char>,
    title: Seq<char>,
    parent: Seq<char>,
)
    ensures
        ({
            let t = session_terminal(tab, key);
            &&& json::member(tab, "leafId"@) == Some(JsonModel::Text(leaf)) ==> t.leaf_id == leaf
                && t.handle == leaf
            &&& json::member(tab, "title"@) == Some(JsonModel::Text(title)) && title.len() > 0
                ==> t.title == title
            &&& json::member(tab, "title"@) is None ==> t.title == "terminal"@
            &&& json::member(tab, "parentTabId"@) == Some(JsonModel::Text(parent))
                ==> t.parent_tab_id == parent
            &&& (t.worktree_id, t.worktree_path) == worktree_parts(key)
            &&& t.connected && t.agent is None
        }),
{
    reveal_strlit("");
}

/// The tabs of a snapshot, each with the worktree that the snapshot is of.
pub open spec fn tabs_with_key(snapshot: JsonModel) -> Seq<(JsonModel, Seq<char>)> {
    let key = match json::member(snapshot, "worktree"@) {
        Some(JsonModel::Text(key)) => key,
        _ => Seq::empty(),
    };
    match json::member(snapshot, "tabs"@) {
        Some(JsonModel::Array(tabs)) => tabs.map_values(|t: JsonModel| (t, key)),
        _ => Seq::empty(),
    }
}

/// The process that a tab shows.
pub open spec fn process_of(entry: (JsonModel, Seq<char>)) -> Option<Seq<char>> {
    match json::member(entry.0, "ptyId"@) {
        Some(JsonModel::Text(pty)) => Some(pty),
        _ => None,
    }
}

/// The terminal that the tab at `i` shows, where no tab before it shows the same process.
pub open spec fn first_of_process(all: Seq<(JsonModel, Seq<char>)>, i: int) -> Option<
    HubTerminalModel,
> {
    if process_of(all[i]) is Some && forall|j: int|
        0 <= j < i ==> process_of(#[trigger] all[j]) != process_of(all[i]) {
        Some(session_terminal(all[i].0, all[i].1))
    } else {
        None
    }
}

spec fn seen_before(seen: Set<Seq<char>>, all: Seq<(JsonModel, Seq<char>)>, n: int) -> bool {
    forall|p: Seq<char>| #[trigger]
        seen.contains(p) <==> exists|j: int| 0 <= j < n && process_of(#[trigger] all[j]) == Some(p)
}

proof fn lemma_seen_step(seen: Set<Seq<char>>, all: Seq<(JsonModel, Seq<char>)>, n: int)
    requires
        0 <= n < all.len(),
        seen_before(seen, all, n),
    ensures
        match process_of(all[n]) {
            Some(p) => seen_before(seen.insert(p), all, n + 1),
            None => seen_before(seen, all, n + 1),
        },
{
    let after = match process_of(all[n]) {
        Some(p) => seen.insert(p),
        None => seen,
    };
    assert forall|p: Seq<char>| #[trigger] after.contains(p) <==> exists|j: int|
        0 <= j < n + 1 && process_of(#[trigger] all[j]) == Some(p) by {
        assert(seen.contains(p) <==> exists|j: int|
            0 <= j < n && process_of(#[trigger] all[j]) == Some(p));
        if process_of(all[n]) == Some(p) {
            assert(exists|j: int| 0 <= j < n + 1 && process_of(#[trigger] all[j]) == Some(p));
        }
    }
}

proof fn lemma_terminals_from(
    all: Seq<(JsonModel, Seq<char>)>,
    base: int,
    tabs: Seq<JsonModel>,
    i: int,
    seen: Set<Seq<char>>,
    key: Seq<char>,
)
    requires
        0 <= base,
        0 <= i <= tabs.len(),
        base + tabs.len() <= all.len(),
        forall|j: int| 0 <= j < tabs.len() ==> #[trigger] all[base + j] == (tabs[j], key),
        seen_before(seen, all, base + i),
    ensures
        ({
            let rest = terminals_from(tabs, i, seen, key);
            let end = base + tabs.len();
            &&& rest.0 == lists::picked(
                lists::indices(all.len()).take(end).skip(base + i),
                |k: int| first_of_process(all, k),
            )
            &&& seen_before(rest.1, all, end)
        }),
    decreases tabs.len() - i,
{
    let f = |k: int| first_of_process(all, k);
    let end = base + tabs.len();
    let idx = lists::indices(all.len()).take(end);
    if i < tabs.len() {
        let at = base + i;
        assert(all[at] == (tabs[i], key));
        assert(idx[at] == at);
        lists::lemma_picked_front(idx, at, f);
        lemma_seen_step(seen, all, at);
        match json::text_member(tabs[i], "ptyId"@) {
            Some(pty) => {
                assert(process_of(all[at]) == Some(pty));
                if seen.contains(pty) {
                    assert(seen.insert(pty) =~= seen);
                    let j = choose|j: int|
                        0 <= j < at && process_of(#[trigger] all[j]) == Some(pty);
                    assert(process_of(all[j]) == process_of(all[at]));
                    assert(first_of_process(all, at) is None);
                    lemma_terminals_from(all, base, tabs, i + 1, seen, key);
                } else {
                    assert forall|j: int| 0 <= j < at implies process_of(#[trigger] all[j])
                        != process_of(all[at]) by {
                        if process_of(all[j]) == Some(pty) {
                            assert(seen.contains(pty));
                        }
                    }
                    assert(first_of_process(all, at) == Some(session_terminal(tabs[i], key)));
                    lemma_terminals_from(all, base, tabs, i + 1, seen.insert(pty), key);
                }
            },
            None => {
                assert(process_of(all[at]) is None);
                lemma_terminals_from(all, base, tabs, i + 1, seen, key);
            },
        }
    } else {
        assert(idx.skip(base + i) == Seq::<int>::empty());
        lists::lemma_picked_empty(f);
    }
}

proof fn lemma_terminals_of_snapshots(
    all: Seq<(JsonModel, Seq<char>)>,
    base: int,
    snapshots: Seq<JsonModel>,
    i: int,
    seen: Set<Seq<char>>,
)
    requires
        0 <= i <= snapshots.len(),
        0 <= base <= all.len(),
        all.skip(base) == snapshots.skip(i).map_values(|s: JsonModel| tabs_with_key(s)).flatten(),
        seen_before(seen, all, base),
    ensures
        terminals_of_snapshots(snapshots, i, seen) == lists::picked(
            lists::indices(all.len()).skip(base),
            |k: int| first_of_process(all, k),
        ),
    decreases snapshots.len() - i,
{
    let f = |k: int| first_of_process(all, k);
    let g = |s: JsonModel| tabs_with_key(s);
    let idx = lists::indices(all.len());
    let parts = snapshots.skip(i).map_values(g);
    if i < snapshots.len() {
        let tabs = json::items_or_none(json::member(snapshots[i], "tabs"@));
        let key = session::or_empty(json::text_member(snapshots[i], "worktree"@));
        reveal_strlit("");
        assert(""@ =~= Seq::<char>::empty());
        let here = tabs_with_key(snapshots[i]);
        assert(here =~= tabs.map_values(|t: JsonModel| (t, key)));
        assert(parts.first() == here);
        assert(parts.drop_first() =~= snapshots.skip(i + 1).map_values(g));
        let later = snapshots.skip(i + 1).map_values(g).flatten();
        assert(parts.flatten() == here + later);
        let end = base + tabs.len();
        assert(all.skip(base) == here + later);
        assert(all.skip(base).len() == all.len() - base);
        assert(end <= all.len());
        assert forall|j: int| 0 <= j < tabs.len() implies #[trigger] all[base + j] == (tabs[j], key) by {
            assert(all.skip(base)[j] == here[j]);
        }
        lemma_terminals_from(all, base, tabs, 0, seen, key);
        let now = terminals_from(tabs, 0, seen, key);
        assert(all.skip(end) =~= later) by {
            assert(all.skip(base).skip(tabs.len() as int) =~= all.skip(end));
            assert((here + later).skip(tabs.len() as int) =~= later);
        }
        lemma_terminals_of_snapshots(all, end, snapshots, i + 1, now.1);
        lists::lemma_picked_add(idx.take(end).skip(base), idx.skip(end), f);
        assert(idx.take(end).skip(base) + idx.skip(end) =~= idx.skip(base));
    } else {
        assert(parts.flatten() =~= Seq::<(JsonModel, Seq<char>)>::empty());
        assert(all.skip(base).len() == 0);
        assert(idx.skip(base) =~= Seq::<int>::empty());
        lists::lemma_picked_empty(f);
    }
}

/// A session lists the terminal of each process once: as the first tab that shows the process has it,
/// over all snapshots in their order.
pub proof fn sessions_list_each_process_first(snapshots: Seq<JsonModel>)
    ensures
        ({
            let all = snapshots.map_values(|s: JsonModel| tabs_with_key(s)).flatten();
            terminals_of_snapshots(snapshots, 0, Set::empty()) == lists::picked(
                lists::indices(all.len()),
                |k: int| first_of_process(all, k),
            )
        }),
{
    let all = snapshots.map_values(|s: JsonModel| tabs_with_key(s)).flatten();
    assert(snapshots.skip(0) =~= snapshots);
    assert(all.skip(0) =~= all);
    assert(lists::indices(all.len()).skip(0) =~= lists::indices(all.len()));
    lemma_terminals_of_snapshots(all, 0, snapshots, 0, Set::empty());
}

/// The state of an agent is the one that the last tab of its terminal tells. What is known of other
/// terminals stays.
pub proof fn statuses_are_those_told_last(
    tabs: Seq<SessionTabModel>,
    n: int,
    known: Map<Seq<char>, Option<Seq<char>>>,
    terminal: Seq<char>,
)
    requires
        0 <= n <= tabs.len(),
    ensures
        ({
            let after = with_statuses(tabs, n, known);
            ||| exists|k: int|
                0 <= k < n && (#[trigger] tabs[k]).kind == "terminal"@ && tabs[k].terminal == Some(
                    terminal,
                ) && after.contains_pair(terminal, tabs[k].agent_state) && forall|j: int|
                    k < j < n ==> !((#[trigger] tabs[j]).kind == "terminal"@ && tabs[j].terminal
                        == Some(terminal))
            ||| {
                &&& forall|j: int|
                    0 <= j < n ==> !((#[trigger] tabs[j]).kind == "terminal"@ && tabs[j].terminal
                        == Some(terminal))
                &&& after.contains_key(terminal) <==> known.contains_key(terminal)
                &&& after[terminal] == known[terminal]
            }
        }),
    decreases n,
{
    if n > 0 {
        statuses_are_those_told_last(tabs, n - 1, known, terminal);
        let before = with_statuses(tabs, n - 1, known);
        let after = with_statuses(tabs, n, known);
        let last = tabs[n - 1];
        if last.kind == "terminal"@ && last.terminal == Some(terminal) {
            assert(after.contains_pair(terminal, tabs[n - 1].agent_state));
        } else if exists|k: int|
            0 <= k < n - 1 && (#[trigger] tabs[k]).kind == "terminal"@ && tabs[k].terminal == Some(
                terminal,
            ) && before.contains_pair(terminal, tabs[k].agent_state) && forall|j: int|
                k < j < n - 1 ==> !((#[trigger] tabs[j]).kind == "terminal"@ && tabs[j].terminal
                    == Some(terminal)) {
            let k = choose|k: int|
                0 <= k < n - 1 && (#[trigger] tabs[k]).kind == "terminal"@ && tabs[k].terminal
                    == Some(terminal) && before.contains_pair(terminal, tabs[k].agent_state)
                    && forall|j: int|
                    k < j < n - 1 ==> !((#[trigger] tabs[j]).kind == "terminal"@ && tabs[j].terminal
                        == Some(terminal));
            assert(after.contains_pair(terminal, tabs[k].agent_state));
        }
    }
}

/// The layout of a tab of the hub is the first that is given for it.
pub proof fn the_first_layout_counts(tabs: Seq<SessionTabModel>, i: int, parent: Seq<char>)
    requires
        0 <= i <= tabs.len(),
    ensures
        match first_layout(tabs, i, parent) {
            Some(root) => exists|k: int|
                i <= k < tabs.len() && (#[trigger] tabs[k]).parent_tab_id == parent && tabs[k].root
                    == Some(root) && forall|j: int|
                    i <= j < k ==> (#[trigger] tabs[j]).parent_tab_id != parent || tabs[j].root is None,
            None => forall|j: int|
                i <= j < tabs.len() ==> (#[trigger] tabs[j]).parent_tab_id != parent || tabs[j].root
                    is None,
        },
    decreases tabs.len() - i,
{
    if i < tabs.len() && !(tabs[i].parent_tab_id == parent && tabs[i].root is Some) {
        the_first_layout_counts(tabs, i + 1, parent);
    }
}

/// Whether the tab is one of terminals, the first for its tab of the hub, whose layout has the ratio at
/// the leaf.
pub open spec fn gives_ratio(
    tabs: Seq<SessionTabModel>,
    k: int,
    leaf: Seq<char>,
    ratio: NumberModel,
) -> bool {
    &&& tabs[k].kind == "terminal"@
    &&& forall|j: int|
        0 <= j < k && (#[trigger] tabs[j]).kind == "terminal"@ ==> tabs[j].parent_tab_id
            != tabs[k].parent_tab_id
    &&& tabs[k].root matches Some(root) && visual::has_ratio_at(root, ratio, leaf)
}

proof fn lemma_parents_seen(tabs: Seq<SessionTabModel>, n: int, parent: Seq<char>)
    requires
        0 <= n <= tabs.len(),
    ensures
        ratios_of_tabs(tabs, n).1.contains(parent) <==> exists|j: int|
            0 <= j < n && (#[trigger] tabs[j]).kind == "terminal"@ && tabs[j].parent_tab_id == parent,
    decreases n,
{
    if n > 0 {
        lemma_parents_seen(tabs, n - 1, parent);
        lemma_parents_seen(tabs, n - 1, tabs[n - 1].parent_tab_id);
        if tabs[n - 1].kind == "terminal"@ && tabs[n - 1].parent_tab_id == parent {
            assert(exists|j: int|
                0 <= j < n && (#[trigger] tabs[j]).kind == "terminal"@ && tabs[j].parent_tab_id
                    == parent);
        }
    }
}

/// A leaf has the ratio of the split that it is the first leaf of the second part of, in the layout
/// that the first tab of terminals gives for a tab of the hub.
pub proof fn ratios_come_from_first_layouts(
    tabs: Seq<SessionTabModel>,
    n: int,
    leaf: Seq<char>,
)
    requires
        0 <= n <= tabs.len(),
        leaf.len() > 0,
    ensures
        ratios_of_tabs(tabs, n).0.contains_key(leaf) ==> exists|k: int|
            0 <= k < n && #[trigger] gives_ratio(tabs, k, leaf, ratios_of_tabs(tabs, n).0[leaf]),
        forall|k: int, ratio: NumberModel|
            0 <= k < n && #[trigger] gives_ratio(tabs, k, leaf, ratio) ==> ratios_of_tabs(
                tabs,
                n,
            ).0.contains_key(leaf),
    decreases n,
{
    if n > 0 {
        ratios_come_from_first_layouts(tabs, n - 1, leaf);
        let before = ratios_of_tabs(tabs, n - 1);
        let after = ratios_of_tabs(tabs, n);
        let tab = tabs[n - 1];
        lemma_parents_seen(tabs, n - 1, tab.parent_tab_id);
        if tab.kind == "terminal"@ && !before.1.contains(tab.parent_tab_id) {
            if let Some(root) = tab.root {
                visual::ratios_are_noted(root, before.0, leaf);
                if exists|ratio: NumberModel| visual::has_ratio_at(root, ratio, leaf) {
                    assert(gives_ratio(tabs, n - 1, leaf, after.0[leaf]));
                }
            }
        }
        assert forall|k: int, ratio: NumberModel|
            0 <= k < n && #[trigger] gives_ratio(tabs, k, leaf, ratio) implies after.0.contains_key(
            leaf,
        ) by {
            if k < n - 1 {
                assert(before.0.contains_key(leaf));
                if tab.kind == "terminal"@ && !before.1.contains(tab.parent_tab_id) {
                    if let Some(root) = tab.root {
                        visual::ratios_are_noted(root, before.0, leaf);
                    }
                }
            } else {
                assert(!before.1.contains(tab.parent_tab_id));
            }
        }
        if after.0.contains_key(leaf) {
            if after.0 == before.0 {
                let k = choose|k: int|
                    0 <= k < n - 1 && #[trigger] gives_ratio(tabs, k, leaf, before.0[leaf]);
                assert(gives_ratio(tabs, k, leaf, after.0[leaf]));
            } else {
                let root = tab.root->0;
                visual::ratios_are_noted(root, before.0, leaf);
                if forall|ratio: NumberModel| !visual::has_ratio_at(root, ratio, leaf) {
                    let k = choose|k: int|
                        0 <= k < n - 1 && #[trigger] gives_ratio(tabs, k, leaf, before.0[leaf]);
                    assert(gives_ratio(tabs, k, leaf, after.0[leaf]));
                }
            }
        }
    }
}

/// The terminals of a worktree get the ratios of their leaves, and no other terminal gets one.
pub proof fn terminals_get_the_ratios_of_their_leaves(
    ratios: Map<Seq<char>, NumberModel>,
    by_leaf: Map<Seq<char>, NumberModel>,
    summaries: Map<Seq<char>, TerminalSummary>,
    worktree_id: Seq<char>,
    k: Seq<char>,
)
    requires
        stand_apart(summaries, worktree_id),
        are_ratios(ratios, by_leaf, summaries, worktree_id),
    ensures
        ratios.contains_key(k) <==> summaries.contains_key(k) && summaries[k].worktree_id@
            == worktree_id && by_leaf.contains_key(summaries[k].leaf_id@),
        ratios.contains_key(k) ==> ratios[k] == by_leaf[summaries[k].leaf_id@],
{
    let handles = choose|handles: Map<Seq<char>, Seq<char>>| #[trigger]
        are_leaf_handles(handles, summaries, worktree_id) && is_by_handle(ratios, by_leaf, handles);
    if summaries.contains_key(k) && summaries[k]@.worktree_id == worktree_id
        && by_leaf.contains_key(summaries[k]@.leaf_id) {
        let leaf = summaries[k]@.leaf_id;
        assert(handles.contains_key(leaf));
        let l = choose|l: Seq<char>| #[trigger]
            summaries.contains_key(l) && summaries[l]@.worktree_id == worktree_id
                && summaries[l]@.leaf_id == leaf && summaries[l]@.handle == handles[leaf];
        assert(l == k);
        assert(handles[leaf] == k);
    }
    if ratios.contains_key(k) {
        let leaf = choose|leaf: Seq<char>| #[trigger]
            by_leaf.contains_key(leaf) && handles.contains_key(leaf) && handles[leaf] == k
                && ratios[k] == by_leaf[leaf];
        let l = choose|l: Seq<char>| #[trigger]
            summaries.contains_key(l) && summaries[l]@.worktree_id == worktree_id
                && summaries[l]@.leaf_id == leaf && summaries[l]@.handle == handles[leaf];
        assert(summaries[l]@.handle == l);
    }
}

/// What a tab of a session does not tell, or not as a text, is empty, and an empty title is `terminal`.
pub proof fn session_tabs_may_tell_less(tab: JsonModel, key: Seq<char>)
    ensures
        ({
            let t = session_terminal(tab, key);
            &&& !(json::member(tab, "leafId"@) matches Some(JsonModel::Text(_))) ==> t.leaf_id.len()
                == 0 && t.handle.len() == 0
            &&& !(json::member(tab, "parentTabId"@) matches Some(JsonModel::Text(_)))
                ==> t.parent_tab_id.len() == 0
            &&& !(json::member(tab, "title"@) matches Some(JsonModel::Text(title)) && title.len() > 0)
                ==> t.title == "terminal"@
        }),
{
    reveal_strlit("");
}

/// What a list says, it says item by item: each stands in its place, and none is added or left out.
pub proof fn items_keep_their_places(a: Seq<HubTerminal>, b: Seq<SessionTab>, i: int)
    ensures
        hub_models(a).len() == a.len(),
        0 <= i < a.len() ==> hub_models(a)[i] == a[i]@,
        session_tab_models(b).len() == b.len(),
        0 <= i < b.len() ==> session_tab_models(b)[i] == b[i]@,
{
}

} // verus!
