//! The tabs of a hub session, and the terminals of one host among them.
use crate::collections::{TextMap, TextSet};
use crate::json;
use crate::json::{Json, JsonModel};
use crate::lists;
use crate::orca_mux::layout;
use crate::orca_mux::layout::{LayoutModel, LayoutNode};
use crate::paseo_client::envelope;
use crate::text;
use vstd::prelude::*;

verus! {

/// A tab of the session: the worktree it belongs to, its split tree, and the terminal of each leaf.
#[derive(Debug)]
pub struct AppTab {
    pub parent_tab_id: String,
    pub worktree_key: String,
    pub worktree_path: String,
    pub layout: LayoutNode,
    pub pty_by_leaf: TextMap<String>,
}

/// What an [`AppTab`] says.
#[verifier::ext_equal]
pub struct AppTabModel {
    pub parent_tab_id: Seq<char>,
    pub worktree_key: Seq<char>,
    pub worktree_path: Seq<char>,
    pub layout: LayoutModel,
    pub pty_by_leaf: Map<Seq<char>, Seq<char>>,
}

impl View for AppTab {
    type V = AppTabModel;

    open spec fn view(&self) -> AppTabModel {
        AppTabModel {
            parent_tab_id: self.parent_tab_id@,
            worktree_key: self.worktree_key@,
            worktree_path: self.worktree_path@,
            layout: self.layout@,
            pty_by_leaf: layout::text_values(self.pty_by_leaf@),
        }
    }
}

/// The models of tabs.
pub open spec fn tab_models(tabs: Seq<AppTab>) -> Seq<AppTabModel> {
    tabs.map_values(|t: AppTab| t@)
}

/// How the session names the terminals of a host begin.
pub open spec fn host_prefix(target_id: Seq<char>) -> Seq<char> {
    "ssh:"@ + target_id + "@@"@
}

/// How the names of the terminals of a host begin in the session.
pub fn pty_prefix(target_id: &str) -> (r: String)
    ensures
        r@ == host_prefix(target_id@),
{
    let mut out = String::new();
    out.push_str("ssh:");
    out.push_str(target_id);
    out.push_str("@@");
    assert(out@ == host_prefix(target_id@));
    out
}

/// The name that the relay of the host has for a terminal of the session.
pub open spec fn raw_pty(pty: Seq<char>) -> Seq<char> {
    text::after_last(pty, "@@"@)
}

/// The directory of a worktree, which its key names after the first `::`.
pub open spec fn path_of_worktree(key: Seq<char>) -> Seq<char> {
    match text::halves(key, "::"@) {
        Some(parts) => parts.1,
        None => key,
    }
}

/// The directory of a worktree, which its key names after the first `::`.
pub fn worktree_path(key: &str) -> (r: String)
    ensures
        r@ == path_of_worktree(key@),
{
    match text::split_once(key, "::") {
        Some((_, path)) => path,
        None => key.to_owned(),
    }
}

/// Whether a value names a terminal of the host.
pub open spec fn is_host_pty(pty: JsonModel, prefix: Seq<char>) -> bool {
    match json::text_in(Some(pty)) {
        Some(pty) => text::is_prefix(pty, prefix),
        None => false,
    }
}

/// The terminals of the host among those of the leaves.
pub open spec fn host_ptys(
    by_leaf: Map<Seq<char>, JsonModel>,
    prefix: Seq<char>,
) -> Map<Seq<char>, Seq<char>> {
    Map::new(
        |leaf: Seq<char>| by_leaf.contains_key(leaf) && is_host_pty(by_leaf[leaf], prefix),
        |leaf: Seq<char>| raw_pty(json::text_in(Some(by_leaf[leaf]))->0),
    )
}

/// The terminals of the host in a value that may be an object of them.
pub open spec fn host_ptys_in(
    value: Option<JsonModel>,
    prefix: Seq<char>,
) -> Map<Seq<char>, Seq<char>> {
    match value {
        Some(JsonModel::Object(by_leaf)) => host_ptys(by_leaf, prefix),
        _ => Map::empty(),
    }
}

/// A text, empty where there is none.
pub open spec fn or_empty(s: Option<Seq<char>>) -> Seq<char> {
    match s {
        Some(s) => s,
        None => ""@,
    }
}

/// The split tree of a tab and the terminals of its leaves. Where the tab gives no tree, or none of
/// its leaves is on the host, it is the one pane that the tab names itself.
pub open spec fn layout_of_tab(tab: JsonModel, prefix: Seq<char>) -> Option<
    (LayoutModel, Map<Seq<char>, Seq<char>>),
> {
    let ptys = host_ptys_in(
        json::member_at(tab, seq!["parentLayout"@, "ptyIdsByLeafId"@]),
        prefix,
    );
    let root = match json::member_at(tab, seq!["parentLayout"@, "root"@]) {
        Some(root) => layout::layout_in(root),
        None => None,
    };
    if ptys != Map::<Seq<char>, Seq<char>>::empty() && root is Some {
        Some((root->0, ptys))
    } else {
        let leaf_id = or_empty(json::text_member(tab, "leafId"@));
        match json::text_member(tab, "ptyId"@) {
            Some(pty) => Some((LayoutModel::Leaf { leaf_id }, map![leaf_id => raw_pty(pty)])),
            None => None,
        }
    }
}

proof fn lemma_text_values_insert(m: Map<Seq<char>, String>, k: Seq<char>, v: String)
    ensures
        layout::text_values(m.insert(k, v)) == layout::text_values(m).insert(k, v@),
{
    assert(layout::text_values(m.insert(k, v)) =~= layout::text_values(m).insert(k, v@));
}

proof fn lemma_text_values_remove(m: Map<Seq<char>, String>, k: Seq<char>)
    ensures
        layout::text_values(m.remove(k)) == layout::text_values(m).remove(k),
{
    assert(layout::text_values(m.remove(k)) =~= layout::text_values(m).remove(k));
}

/// The terminals of the host in a value that may be an object of them.
fn read_host_ptys(value: Option<&Json>, prefix: &str) -> (r: TextMap<String>)
    ensures
        layout::text_values(r@) == host_ptys_in(json::opt_model(value), prefix@),
{
    let mut out: TextMap<String> = TextMap::new();
    assert(layout::text_values(out@) =~= Map::<Seq<char>, Seq<char>>::empty());
    if let Some(Json::Object(v)) = value {
        let mut i: usize = 0;
        assert(layout::text_values(out@) =~= host_ptys(json::members_of(*v, 0), prefix@));
        while i < v.len()
            invariant
                i <= v@.len(),
                layout::text_values(out@) == host_ptys(json::members_of(*v, i as nat), prefix@),
            decreases v@.len() - i,
        {
            let leaf = v[i].0.as_str();
            let ghost before = json::members_of(*v, i as nat);
            let ghost after = json::members_of(*v, (i + 1) as nat);
            assert(after == before.insert(leaf@, v@[i as int].1@));
            let ghost kept = out@;
            match v[i].1.as_text() {
                Some(pty) if text::starts_with(pty, prefix) => {
                    let raw = text::last_piece(pty, "@@");
                    out.insert(leaf, raw);
                    proof {
                        lemma_text_values_insert(kept, leaf@, raw);
                        assert(host_ptys(after, prefix@) =~= host_ptys(before, prefix@).insert(
                            leaf@,
                            raw@,
                        ));
                    }
                },
                _ => {
                    let _ = out.remove(leaf);
                    proof {
                        lemma_text_values_remove(kept, leaf@);
                        assert(host_ptys(after, prefix@) =~= host_ptys(before, prefix@).remove(
                            leaf@,
                        ));
                    }
                },
            }
            i += 1;
        }
    }
    out
}

/// The text of a member, empty where it has none.
fn text_or_empty(value: &Json, key: &str) -> (r: String)
    ensures
        r@ == or_empty(json::text_member(value@, key@)),
{
    match value.get_text(key) {
        Some(s) => s,
        None => "".to_owned(),
    }
}

/// The split tree of a tab and the terminals of its leaves.
pub fn tab_layout(tab: &Json, prefix: &str) -> (r: Option<(LayoutNode, TextMap<String>)>)
    ensures
        match layout_of_tab(tab@, prefix@) {
            Some(m) => r matches Some((node, ptys)) && node@ == m.0 && layout::text_values(ptys@)
                == m.1,
            None => r is None,
        },
{
    let ptys = read_host_ptys(envelope::nested(tab, "parentLayout", "ptyIdsByLeafId"), prefix);
    if !ptys.is_empty() {
        proof {
            let k = choose|k: Seq<char>| ptys@.contains_key(k);
            if forall|k: Seq<char>| !ptys@.contains_key(k) {
                assert(ptys@ =~= Map::<Seq<char>, String>::empty());
            }
            assert(layout::text_values(ptys@).contains_key(k));
        }
        if let Some(root) = envelope::nested(tab, "parentLayout", "root") {
            if let Some(root) = LayoutNode::parse(root) {
                return Some((root, ptys));
            }
        }
    } else {
        assert(layout::text_values(ptys@) =~= Map::<Seq<char>, Seq<char>>::empty());
    }
    let leaf_id = text_or_empty(tab, "leafId");
    match tab.get_text("ptyId") {
        Some(pty) => {
            let raw = text::last_piece(pty.as_str(), "@@");
            let mut single: TextMap<String> = TextMap::new();
            single.insert(leaf_id.as_str(), raw);
            assert(layout::text_values(single@) =~= map![leaf_id@ => raw@]);
            Some((LayoutNode::Leaf { leaf_id }, single))
        },
        None => None,
    }
}

/// The visual tab that an entry of the session belongs to, where it is a terminal of the host.
pub open spec fn parent_on_host(tab: JsonModel, prefix: Seq<char>) -> Option<Seq<char>> {
    match json::text_member(tab, "ptyId"@) {
        Some(pty) => if text::is_prefix(pty, prefix) {
            Some(or_empty(json::text_member(tab, "parentTabId"@)))
        } else {
            None
        },
        None => None,
    }
}

/// The tabs that the entries from index `i` on give. Every leaf of a visual tab carries the whole
/// tree, so only the first entry of one counts.
pub open spec fn tabs_from(
    tabs: Seq<JsonModel>,
    i: int,
    seen: Set<Seq<char>>,
    key: Seq<char>,
    prefix: Seq<char>,
) -> Seq<AppTabModel>
    decreases tabs.len() - i,
{
    if i < 0 || i >= tabs.len() {
        Seq::empty()
    } else {
        match parent_on_host(tabs[i], prefix) {
            Some(parent) => if seen.contains(parent) {
                tabs_from(tabs, i + 1, seen, key, prefix)
            } else {
                match layout_of_tab(tabs[i], prefix) {
                    Some(m) => seq![
                        AppTabModel {
                            parent_tab_id: parent,
                            worktree_key: key,
                            worktree_path: path_of_worktree(key),
                            layout: m.0,
                            pty_by_leaf: m.1,
                        },
                    ] + tabs_from(tabs, i + 1, seen.insert(parent), key, prefix),
                    None => tabs_from(tabs, i + 1, seen.insert(parent), key, prefix),
                }
            },
            None => tabs_from(tabs, i + 1, seen, key, prefix),
        }
    }
}

/// The tabs of the host in a worktree of the session.
pub open spec fn tabs_of_snapshot(snapshot: JsonModel, prefix: Seq<char>) -> Seq<AppTabModel> {
    tabs_from(
        json::items_or_none(json::member(snapshot, "tabs"@)),
        0,
        Set::empty(),
        or_empty(json::text_member(snapshot, "worktree"@)),
        prefix,
    )
}

/// The tabs of the host in the worktrees from index `i` on.
pub open spec fn tabs_of_snapshots(snapshots: Seq<JsonModel>, i: int, prefix: Seq<char>) -> Seq<
    AppTabModel,
>
    decreases snapshots.len() - i,
{
    if i < 0 || i >= snapshots.len() {
        Seq::empty()
    } else {
        tabs_of_snapshot(snapshots[i], prefix) + tabs_of_snapshots(snapshots, i + 1, prefix)
    }
}

/// The tabs of the host in a session.
pub open spec fn tabs_of_session(session: JsonModel, target_id: Seq<char>) -> Seq<AppTabModel> {
    tabs_of_snapshots(
        json::items_or_none(json::member(session, "snapshots"@)),
        0,
        host_prefix(target_id),
    )
}

/// Puts the tabs of the host in a worktree after `out`.
fn read_snapshot(snapshot: &Json, prefix: &str, out: &mut Vec<AppTab>)
    ensures
        tab_models(final(out)@) == tab_models(old(out)@) + tabs_of_snapshot(snapshot@, prefix@),
{
    let key = text_or_empty(snapshot, "worktree");
    let ghost start = tab_models(out@);
    let tabs = match snapshot.get_items("tabs") {
        Some(tabs) => tabs,
        None => {
            assert(start + Seq::<AppTabModel>::empty() == start);
            return ;
        },
    };
    let ghost all = json::models(tabs@);
    let ghost want = tabs_of_snapshot(snapshot@, prefix@);
    let mut seen = TextSet::new();
    let mut i: usize = 0;
    while i < tabs.len()
        invariant
            i <= tabs@.len(),
            all == json::models(tabs@),
            tab_models(out@) + tabs_from(all, i as int, seen@, key@, prefix@) == start + want,
        decreases tabs@.len() - i,
    {
        let tab = &tabs[i];
        assert(all[i as int] == tab@);
        let ghost before = tab_models(out@);
        let ghost was_seen = seen@;
        i += 1;
        let pty = match tab.get_text("ptyId") {
            Some(pty) => pty,
            None => continue,
        };
        if !text::starts_with(pty.as_str(), prefix) {
            continue;
        }
        let parent = text_or_empty(tab, "parentTabId");
        if !seen.insert(parent.as_str()) {
            assert(seen@ =~= was_seen);
            continue;
        }
        if let Some((layout, pty_by_leaf)) = tab_layout(tab, prefix) {
            let app_tab = AppTab {
                parent_tab_id: parent,
                worktree_key: key.clone(),
                worktree_path: worktree_path(key.as_str()),
                layout,
                pty_by_leaf,
            };
            out.push(app_tab);
            let ghost rest = tabs_from(all, i as int, seen@, key@, prefix@);
            assert(tab_models(out@) == before.push(app_tab@));
            assert(before + (seq![app_tab@] + rest) == tab_models(out@) + rest);
        }
    }
    assert(tab_models(out@) + Seq::<AppTabModel>::empty() == tab_models(out@));
}

/// The tabs of the host `target_id` in a session.
pub fn parse_tabs(session: &Json, target_id: &str) -> (r: Vec<AppTab>)
    ensures
        tab_models(r@) == tabs_of_session(session@, target_id@),
{
    let prefix = pty_prefix(target_id);
    let mut out: Vec<AppTab> = Vec::new();
    assert(tab_models(out@) == Seq::<AppTabModel>::empty());
    if let Some(snapshots) = session.get_items("snapshots") {
        let ghost all = json::models(snapshots@);
        let mut i: usize = 0;
        assert(tab_models(out@) + tabs_of_snapshots(all, 0, prefix@) == tabs_of_snapshots(
            all,
            0,
            prefix@,
        ));
        while i < snapshots.len()
            invariant
                i <= snapshots@.len(),
                all == json::models(snapshots@),
                tab_models(out@) + tabs_of_snapshots(all, i as int, prefix@) == tabs_of_snapshots(
                    all,
                    0,
                    prefix@,
                ),
            decreases snapshots@.len() - i,
        {
            let ghost before = tab_models(out@);
            assert(all[i as int] == snapshots@[i as int]@);
            read_snapshot(&snapshots[i], prefix.as_str(), &mut out);
            assert(before + (tabs_of_snapshot(all[i as int], prefix@) + tabs_of_snapshots(
                all,
                i + 1,
                prefix@,
            )) == tab_models(out@) + tabs_of_snapshots(all, i + 1, prefix@));
            i += 1;
        }
        assert(tab_models(out@) + Seq::<AppTabModel>::empty() == tab_models(out@));
    }
    out
}

/// The terminals of a tab.
pub open spec fn ptys_of(tab: AppTabModel) -> Set<Seq<char>> {
    Set::new(
        |pty: Seq<char>|
            exists|leaf: Seq<char>| #[trigger]
                tab.pty_by_leaf.contains_key(leaf) && tab.pty_by_leaf[leaf] == pty,
    )
}

/// The terminals of the first `n` tabs.
pub open spec fn ptys_of_tabs(tabs: Seq<AppTabModel>, n: int) -> Set<Seq<char>>
    decreases n,
{
    if n <= 0 {
        Set::empty()
    } else {
        ptys_of_tabs(tabs, n - 1).union(ptys_of(tabs[n - 1]))
    }
}

/// Puts the terminals of a tab into `out`.
fn collect_ptys(tab: &AppTab, out: &mut TextSet)
    ensures
        final(out)@ == old(out)@.union(ptys_of(tab@)),
{
    let keys = tab.pty_by_leaf.keys();
    let ghost start = out@;
    let ghost ptys = tab@.pty_by_leaf;
    let ghost leaves = text::texts(keys@);
    let mut i: usize = 0;
    while i < keys.len()
        invariant
            i <= keys@.len(),
            leaves == text::texts(keys@),
            ptys == layout::text_values(tab.pty_by_leaf@),
            forall|k: Seq<char>|
                tab.pty_by_leaf@.contains_key(k) <==> #[trigger] leaves.contains(k),
            forall|pty: Seq<char>| #[trigger]
                out@.contains(pty) <==> start.contains(pty) || exists|j: int|
                    0 <= j < i && ptys[#[trigger] leaves[j]] == pty,
        decreases keys@.len() - i,
    {
        let ghost before = out@;
        assert(leaves[i as int] == keys@[i as int]@);
        assert(leaves.contains(leaves[i as int]));
        if let Some(pty) = tab.pty_by_leaf.get(keys[i].as_str()) {
            let _ = out.insert(pty.as_str());
            assert(ptys[leaves[i as int]] == pty@);
            assert forall|p: Seq<char>| #[trigger] out@.contains(p) <==> start.contains(p) || exists|
                j: int,
            | 0 <= j < i + 1 && ptys[#[trigger] leaves[j]] == p by {
                if before.contains(p) && !start.contains(p) {
                    let j = choose|j: int| 0 <= j < i && ptys[#[trigger] leaves[j]] == p;
                    assert(ptys[leaves[j]] == p);
                }
            }
        }
        i += 1;
    }
    proof {
        assert forall|p: Seq<char>| #[trigger] out@.contains(p) <==> start.union(
            ptys_of(tab@),
        ).contains(p) by {
            if ptys_of(tab@).contains(p) {
                let leaf = choose|leaf: Seq<char>| #[trigger]
                    ptys.contains_key(leaf) && ptys[leaf] == p;
                assert(tab.pty_by_leaf@.contains_key(leaf));
                assert(leaves.contains(leaf));
                let j = choose|j: int| 0 <= j < leaves.len() && leaves[j] == leaf;
                assert(ptys[leaves[j]] == p);
            }
            if out@.contains(p) && !start.contains(p) {
                let j = choose|j: int| 0 <= j < i && ptys[#[trigger] leaves[j]] == p;
                assert(leaves.contains(leaves[j]));
                assert(ptys.contains_key(leaves[j]));
            }
        }
        assert(out@ =~= start.union(ptys_of(tab@)));
    }
}

/// The terminals of all tabs of the host in a session.
pub fn wanted_ptys(session: &Json, target_id: &str) -> (r: TextSet)
    ensures
        ({
            let tabs = tabs_of_session(session@, target_id@);
            r@ == ptys_of_tabs(tabs, tabs.len() as int)
        }),
{
    let tabs = parse_tabs(session, target_id);
    let ghost all = tab_models(tabs@);
    let mut out = TextSet::new();
    let mut i: usize = 0;
    while i < tabs.len()
        invariant
            i <= tabs@.len(),
            all == tab_models(tabs@),
            out@ == ptys_of_tabs(all, i as int),
        decreases tabs@.len() - i,
    {
        assert(all[i as int] == tabs@[i as int]@);
        collect_ptys(&tabs[i], &mut out);
        i += 1;
    }
    out
}

/// The least index from `i` on of a tab with the id `parent`.
pub open spec fn first_tab(tabs: Seq<AppTabModel>, i: int, parent: Seq<char>) -> Option<int>
    decreases tabs.len() - i,
{
    if i < 0 || i >= tabs.len() {
        None
    } else if tabs[i].parent_tab_id == parent {
        Some(i)
    } else {
        first_tab(tabs, i + 1, parent)
    }
}

/// The index of the first tab with the id `parent`.
pub fn find_tab(tabs: &[AppTab], parent: &str) -> (r: Option<usize>)
    ensures
        match first_tab(tab_models(tabs@), 0, parent@) {
            Some(k) => r matches Some(i) && i == k && i < tabs@.len(),
            None => r is None,
        },
{
    let ghost all = tab_models(tabs@);
    let mut i: usize = 0;
    while i < tabs.len()
        invariant
            i <= tabs@.len(),
            all == tab_models(tabs@),
            first_tab(all, 0, parent@) == first_tab(all, i as int, parent@),
        decreases tabs@.len() - i,
    {
        assert(all[i as int] == tabs@[i as int]@);
        if text::same(tabs[i].parent_tab_id.as_str(), parent) {
            return Some(i);
        }
        i += 1;
    }
    None
}

/// The greatest index below `n` of a tab with the id `parent`.
pub open spec fn last_tab(tabs: Seq<AppTabModel>, n: int, parent: Seq<char>) -> Option<int>
    decreases n,
{
    if n <= 0 {
        None
    } else if tabs[n - 1].parent_tab_id == parent {
        Some(n - 1)
    } else {
        last_tab(tabs, n - 1, parent)
    }
}

/// The index of the last tab with the id `parent`.
pub fn find_last_tab(tabs: &[AppTab], parent: &str) -> (r: Option<usize>)
    ensures
        match last_tab(tab_models(tabs@), tabs@.len() as int, parent@) {
            Some(k) => r matches Some(i) && i == k && i < tabs@.len() && tabs@[i as int]@.parent_tab_id
                == parent@,
            None => r is None,
        },
{
    let ghost all = tab_models(tabs@);
    let mut i: usize = tabs.len();
    while i > 0
        invariant
            i <= tabs@.len(),
            all == tab_models(tabs@),
            last_tab(all, tabs@.len() as int, parent@) == last_tab(all, i as int, parent@),
        decreases i,
    {
        assert(all[i - 1] == tabs@[i - 1]@);
        if text::same(tabs[i - 1].parent_tab_id.as_str(), parent) {
            return Some(i - 1);
        }
        i -= 1;
    }
    None
}

/// The fingerprint of a tab: its directory and the fingerprint of its split tree.
pub open spec fn signature_of_tab(tab: AppTabModel) -> Seq<char> {
    tab.worktree_path + seq!['|'] + layout::signature_of(tab.layout, tab.pty_by_leaf)
}

impl AppTab {
    /// The fingerprint of the tab: its directory and the fingerprint of its split tree.
    pub fn signature(&self) -> (r: String)
        ensures
            r@ == signature_of_tab(self@),
    {
        let mut out = self.worktree_path.clone();
        out.push('|');
        let tree = self.layout.signature(&self.pty_by_leaf);
        out.push_str(tree.as_str());
        out
    }
}

/// The terminals of the first tab with the id `parent`, none where there is no such tab.
pub open spec fn ptys_of_parent(tabs: Seq<AppTabModel>, parent: Seq<char>) -> Set<Seq<char>> {
    match first_tab(tabs, 0, parent) {
        Some(k) => ptys_of(tabs[k]),
        None => Set::empty(),
    }
}

/// The terminals of the first tab with the id `parent` in a session.
pub fn tab_raw_ptys(session: &Json, target_id: &str, parent: &str) -> (r: TextSet)
    ensures
        r@ == ptys_of_parent(tabs_of_session(session@, target_id@), parent@),
{
    let tabs = parse_tabs(session, target_id);
    let mut out = TextSet::new();
    if let Some(i) = find_tab(&tabs, parent) {
        assert(tab_models(tabs@)[i as int] == tabs@[i as int]@);
        collect_ptys(&tabs[i], &mut out);
        assert(Set::<Seq<char>>::empty().union(ptys_of(tabs@[i as int]@)) =~= ptys_of(
            tabs@[i as int]@,
        ));
    }
    out
}

/// The fingerprint of the first tab with the id `parent` in a session.
pub fn tab_signature(session: &Json, target_id: &str, parent: &str) -> (r: Option<String>)
    ensures
        text::opt_text(r) == ({
            let tabs = tabs_of_session(session@, target_id@);
            match first_tab(tabs, 0, parent@) {
                Some(k) => Some(signature_of_tab(tabs[k])),
                None => None,
            }
        }),
{
    let tabs = parse_tabs(session, target_id);
    match find_tab(&tabs, parent) {
        Some(i) => {
            assert(tab_models(tabs@)[i as int] == tabs@[i as int]@);
            Some(tabs[i].signature())
        },
        None => None,
    }
}

/// The handle of an entry of the session, where it is the terminal `raw` and has one.
pub open spec fn handle_of(tab: JsonModel, raw: Seq<char>) -> Option<Seq<char>> {
    if json::text_member(tab, "type"@) == Some("terminal"@) && raw_pty(
        or_empty(json::text_member(tab, "ptyId"@)),
    ) == raw {
        json::text_member(tab, "terminal"@)
    } else {
        None
    }
}

/// The first handle of the terminal `raw` among the entries from index `i` on.
pub open spec fn handle_from(tabs: Seq<JsonModel>, i: int, raw: Seq<char>) -> Option<Seq<char>>
    decreases tabs.len() - i,
{
    if i < 0 || i >= tabs.len() {
        None
    } else if handle_of(tabs[i], raw) is Some {
        handle_of(tabs[i], raw)
    } else {
        handle_from(tabs, i + 1, raw)
    }
}

/// The first handle of the terminal `raw` in the worktrees from index `i` on.
pub open spec fn handle_in(snapshots: Seq<JsonModel>, i: int, raw: Seq<char>) -> Option<Seq<char>>
    decreases snapshots.len() - i,
{
    if i < 0 || i >= snapshots.len() {
        None
    } else {
        let here = handle_from(
            json::items_or_none(json::member(snapshots[i], "tabs"@)),
            0,
            raw,
        );
        if here is Some {
            here
        } else {
            handle_in(snapshots, i + 1, raw)
        }
    }
}

fn find_handle(tabs: &Vec<Json>, raw: &str) -> (r: Option<String>)
    ensures
        text::opt_text(r) == handle_from(json::models(tabs@), 0, raw@),
{
    let ghost all = json::models(tabs@);
    let mut i: usize = 0;
    while i < tabs.len()
        invariant
            i <= tabs@.len(),
            all == json::models(tabs@),
            handle_from(all, 0, raw@) == handle_from(all, i as int, raw@),
        decreases tabs@.len() - i,
    {
        let tab = &tabs[i];
        assert(all[i as int] == tab@);
        i += 1;
        let kind = match tab.get_text("type") {
            Some(kind) => kind,
            None => continue,
        };
        if !text::same(kind.as_str(), "terminal") {
            continue;
        }
        let pty = text_or_empty(tab, "ptyId");
        let name = text::last_piece(pty.as_str(), "@@");
        if !text::same(name.as_str(), raw) {
            continue;
        }
        if let Some(handle) = tab.get_text("terminal") {
            return Some(handle);
        }
    }
    None
}

/// The handle by which the hub knows the terminal `raw`.
pub fn handle_for_raw(session: &Json, raw: &str) -> (r: Option<String>)
    ensures
        text::opt_text(r) == handle_in(
            json::items_or_none(json::member(session@, "snapshots"@)),
            0,
            raw@,
        ),
{
    let snapshots = match session.get_items("snapshots") {
        Some(snapshots) => snapshots,
        None => return None,
    };
    let ghost all = json::models(snapshots@);
    let mut i: usize = 0;
    while i < snapshots.len()
        invariant
            i <= snapshots@.len(),
            all == json::models(snapshots@),
            json::items_or_none(json::member(session@, "snapshots"@)) == all,
            handle_in(all, 0, raw@) == handle_in(all, i as int, raw@),
        decreases snapshots@.len() - i,
    {
        assert(all[i as int] == snapshots@[i as int]@);
        if let Some(tabs) = snapshots[i].get_items("tabs") {
            if let Some(handle) = find_handle(tabs, raw) {
                return Some(handle);
            }
        }
        i += 1;
    }
    None
}

/// How many of the first `n` processes are wanted terminals.
pub open spec fn wanted_count(
    processes: Seq<JsonModel>,
    n: int,
    want: Set<Seq<char>>,
) -> nat
    decreases n,
{
    if n <= 0 {
        0
    } else {
        let rest = wanted_count(processes, n - 1, want);
        match json::text_member(processes[n - 1], "id"@) {
            Some(id) => if want.contains(id) {
                rest + 1
            } else {
                rest
            },
            None => rest,
        }
    }
}

/// How many of the processes of a relay are wanted terminals.
pub fn overlap(processes: &[Json], want: &TextSet) -> (r: usize)
    ensures
        r == wanted_count(json::models(processes@), processes@.len() as int, want@),
{
    let ghost all = json::models(processes@);
    let mut found: usize = 0;
    let mut i: usize = 0;
    while i < processes.len()
        invariant
            i <= processes@.len(),
            all == json::models(processes@),
            found <= i,
            found == wanted_count(all, i as int, want@),
        decreases processes@.len() - i,
    {
        assert(all[i as int] == processes@[i as int]@);
        if let Some(id) = processes[i].get_text("id") {
            if want.contains(id.as_str()) {
                found += 1;
            }
        }
        i += 1;
    }
    found
}

/// The first target from index `i` on that has the label `target`.
pub open spec fn target_from(targets: Seq<JsonModel>, i: int, target: Seq<char>) -> Option<
    JsonModel,
>
    decreases targets.len() - i,
{
    if i < 0 || i >= targets.len() {
        None
    } else if json::text_member(targets[i], "label"@) == Some(target) {
        Some(targets[i])
    } else {
        target_from(targets, i + 1, target)
    }
}

/// The id of the host that the hub lists under the label `target`.
pub fn target_id_for(targets: &Json, target: &str) -> (r: Option<String>)
    ensures
        text::opt_text(r) == (match target_from(
            json::items_or_none(json::member(targets@, "targets"@)),
            0,
            target@,
        ) {
            Some(entry) => json::text_member(entry, "id"@),
            None => None,
        }),
{
    let entries = match targets.get_items("targets") {
        Some(entries) => entries,
        None => return None,
    };
    let ghost all = json::models(entries@);
    let mut i: usize = 0;
    while i < entries.len()
        invariant
            i <= entries@.len(),
            all == json::models(entries@),
            json::items_or_none(json::member(targets@, "targets"@)) == all,
            target_from(all, 0, target@) == target_from(all, i as int, target@),
        decreases entries@.len() - i,
    {
        assert(all[i as int] == entries@[i as int]@);
        if let Some(label) = entries[i].get_text("label") {
            if text::same(label.as_str(), target) {
                return entries[i].get_text("id");
            }
        }
        i += 1;
    }
    None
}

proof fn lemma_tabs_are_new(
    tabs: Seq<JsonModel>,
    i: int,
    seen: Set<Seq<char>>,
    key: Seq<char>,
    prefix: Seq<char>,
)
    ensures
        forall|a: int|
            0 <= a < tabs_from(tabs, i, seen, key, prefix).len() ==> !seen.contains(
                (#[trigger] tabs_from(tabs, i, seen, key, prefix)[a]).parent_tab_id,
            ),
        forall|a: int, b: int|
            0 <= a < b < tabs_from(tabs, i, seen, key, prefix).len() ==> (#[trigger] tabs_from(
                tabs,
                i,
                seen,
                key,
                prefix,
            )[a]).parent_tab_id != (#[trigger] tabs_from(tabs, i, seen, key, prefix)[b]).parent_tab_id,
    decreases tabs.len() - i,
{
    if 0 <= i < tabs.len() {
        match parent_on_host(tabs[i], prefix) {
            Some(parent) => if seen.contains(parent) {
                lemma_tabs_are_new(tabs, i + 1, seen, key, prefix);
            } else {
                lemma_tabs_are_new(tabs, i + 1, seen.insert(parent), key, prefix);
                let here = tabs_from(tabs, i, seen, key, prefix);
                let rest = tabs_from(tabs, i + 1, seen.insert(parent), key, prefix);
                if layout_of_tab(tabs[i], prefix) is Some {
                    assert(forall|a: int| 0 < a < here.len() ==> #[trigger] here[a] == rest[a - 1]);
                }
            },
            None => {
                lemma_tabs_are_new(tabs, i + 1, seen, key, prefix);
            },
        }
    }
}

/// A worktree lists a visual tab once, however many of its leaves the session names.
pub proof fn a_visual_tab_is_listed_once(snapshot: JsonModel, prefix: Seq<char>, a: int, b: int)
    requires
        0 <= a < b < tabs_of_snapshot(snapshot, prefix).len(),
    ensures
        tabs_of_snapshot(snapshot, prefix)[a].parent_tab_id != tabs_of_snapshot(
            snapshot,
            prefix,
        )[b].parent_tab_id,
{
    lemma_tabs_are_new(
        json::items_or_none(json::member(snapshot, "tabs"@)),
        0,
        Set::empty(),
        or_empty(json::text_member(snapshot, "worktree"@)),
        prefix,
    );
}

/// A process on a host has the name that the host gave it behind the prefix of the host.
pub proof fn host_processes_have_their_own_name(target_id: Seq<char>, raw: Seq<char>)
    requires
        forall|n: int| !#[trigger] text::follows(raw, "@@"@, n),
        raw.len() > 0 ==> raw[0] != '@',
    ensures
        raw_pty(host_prefix(target_id) + raw) == raw,
        raw_pty(raw) == raw,
{
    reveal_strlit("@@");
    let head = "ssh:"@ + target_id;
    let whole = host_prefix(target_id) + raw;
    text::the_last_piece_is_behind_the_last(whole, "@@"@);
    text::the_last_piece_is_behind_the_last(raw, "@@"@);
    let at = head.len() as int;
    assert(whole == whole.take(at) + "@@"@ + raw) by {
        assert(whole.take(at) == head);
    }
    assert(text::follows(whole, "@@"@, at));
    assert forall|n: int| n > at implies !#[trigger] text::follows(whole, "@@"@, n) by {
        if text::follows(whole, "@@"@, n) {
            let rest = choose|rest: Seq<char>| whole == #[trigger] (whole.take(n) + "@@"@ + rest);
            assert(whole[n] == '@' && whole[n + 1] == '@');
            if n == at + 1 {
                assert(whole[n + 1] == raw[0]);
            } else {
                let m = n - at - 2;
                assert(raw == raw.take(m) + "@@"@ + rest) by {
                    assert(whole.skip(at + 2) == raw);
                    assert((whole.take(n) + "@@"@ + rest).skip(at + 2) == raw.take(m) + "@@"@ + rest);
                }
                assert(text::follows(raw, "@@"@, m));
            }
        }
    }
    let last = raw_pty(whole);
    let found = whole.len() - last.len() - 2;
    assert(found == at);
    assert((whole.take(at) + "@@"@ + last).skip(at + 2) == last);
    assert((whole.take(at) + "@@"@ + raw).skip(at + 2) == raw);
}

/// The path of a worktree is what stands behind the first `::` of its key, or the whole key.
pub proof fn worktree_paths_are_behind_the_first(key: Seq<char>)
    ensures
        ({
            let path = path_of_worktree(key);
            ||| path == key && forall|n: int| !#[trigger] text::follows(key, "::"@, n)
            ||| {
                let at = key.len() - path.len() - "::"@.len();
                &&& 0 <= at && key == key.take(at) + "::"@ + path
                &&& forall|n: int| 0 <= n < at ==> !#[trigger] text::follows(key, "::"@, n)
            }
        }),
{
    text::texts_are_parted_at_the_first(key, "::"@);
    if let Some((a, b)) = text::halves(key, "::"@) {
        assert(key.take(a.len() as int) == a);
    }
}

/// Of the processes of a tab those on the host are kept, each under its leaf by its own name.
pub proof fn processes_on_the_host_are_kept(
    by_leaf: Map<Seq<char>, JsonModel>,
    prefix: Seq<char>,
    leaf: Seq<char>,
    rest: Seq<char>,
)
    ensures
        by_leaf.contains_pair(leaf, JsonModel::Text(prefix + rest)) ==> {
            &&& host_ptys(by_leaf, prefix).contains_key(leaf)
            &&& host_ptys(by_leaf, prefix)[leaf] == raw_pty(prefix + rest)
        },
        host_ptys(by_leaf, prefix).contains_key(leaf) ==> by_leaf.contains_key(leaf)
            && by_leaf[leaf] is Text && exists|r: Seq<char>|
            by_leaf[leaf]->Text_0 == #[trigger] (prefix + r),
{
    text::prefixes_are_taken_off(prefix + rest, prefix, rest);
    if host_ptys(by_leaf, prefix).contains_key(leaf) {
        let pty = by_leaf[leaf]->Text_0;
        assert(text::is_prefix(pty, prefix));
        let r = pty.skip(prefix.len() as int);
        assert(pty == prefix + r);
    }
}

/// A tab has the layout and the processes that it gives, where one of these is on the host.
pub proof fn tabs_have_their_layout(
    tab: JsonModel,
    given: JsonModel,
    root: JsonModel,
    node: LayoutModel,
    by_leaf: Map<Seq<char>, JsonModel>,
    prefix: Seq<char>,
    leaf: Seq<char>,
    rest: Seq<char>,
)
    requires
        json::member(tab, "parentLayout"@) == Some(given),
        json::member(given, "root"@) == Some(root),
        json::member(given, "ptyIdsByLeafId"@) == Some(JsonModel::Object(by_leaf)),
        layout::describes(root, node),
        by_leaf.contains_pair(leaf, JsonModel::Text(prefix + rest)),
    ensures
        layout_of_tab(tab, prefix) == Some((node, host_ptys(by_leaf, prefix))),
{
    processes_on_the_host_are_kept(by_leaf, prefix, leaf, rest);
    layout::trees_are_read_as_described(root, node);
    lemma_member_of_member(tab, "parentLayout"@, "ptyIdsByLeafId"@);
    lemma_member_of_member(tab, "parentLayout"@, "root"@);
    assert(host_ptys(by_leaf, prefix) != Map::<Seq<char>, Seq<char>>::empty());
}

proof fn lemma_member_of_member(value: JsonModel, outer: Seq<char>, inner: Seq<char>)
    ensures
        json::member_at(value, seq![outer, inner]) == (match json::member(value, outer) {
            Some(v) => json::member(v, inner),
            None => None,
        }),
{
    let path = seq![outer, inner];
    assert(path.drop_last() == seq![outer]);
    assert(path.drop_last().drop_last() == Seq::<Seq<char>>::empty());
    reveal_with_fuel(json::member_at, 3);
}

/// A tab that gives no layout is the one pane that it names itself, with its process.
pub proof fn tabs_without_a_layout_are_one_pane(
    tab: JsonModel,
    prefix: Seq<char>,
    leaf: Seq<char>,
    pty: Seq<char>,
)
    requires
        json::member(tab, "parentLayout"@) is None,
    ensures
        json::member(tab, "ptyId"@) == Some(JsonModel::Text(pty)) && json::member(tab, "leafId"@)
            == Some(JsonModel::Text(leaf)) ==> layout_of_tab(tab, prefix) == Some(
            (LayoutModel::Leaf { leaf_id: leaf }, map![leaf => raw_pty(pty)]),
        ),
        json::member(tab, "ptyId"@) is None ==> layout_of_tab(tab, prefix) is None,
{
    lemma_member_of_member(tab, "parentLayout"@, "ptyIdsByLeafId"@);
    lemma_member_of_member(tab, "parentLayout"@, "root"@);
}

/// The tab of the hub that a tab is part of, where its process is on the host.
pub open spec fn on_host(tab: JsonModel, prefix: Seq<char>) -> Option<Seq<char>> {
    match json::member(tab, "ptyId"@) {
        Some(JsonModel::Text(pty)) => if prefix.is_prefix_of(pty) {
            match json::member(tab, "parentTabId"@) {
                Some(JsonModel::Text(parent)) => Some(parent),
                _ => Some(Seq::empty()),
            }
        } else {
            None
        },
        _ => None,
    }
}

/// The tab at `k`, where it has a layout and is the first on the host for its tab of the hub.
pub open spec fn first_of_parent(
    tabs: Seq<JsonModel>,
    k: int,
    key: Seq<char>,
    prefix: Seq<char>,
) -> Option<AppTabModel> {
    if on_host(tabs[k], prefix) is Some && layout_of_tab(tabs[k], prefix) is Some && forall|j: int|
        0 <= j < k ==> on_host(#[trigger] tabs[j], prefix) != on_host(tabs[k], prefix) {
        Some(
            AppTabModel {
                parent_tab_id: on_host(tabs[k], prefix)->0,
                worktree_key: key,
                worktree_path: path_of_worktree(key),
                layout: (layout_of_tab(tabs[k], prefix)->0).0,
                pty_by_leaf: (layout_of_tab(tabs[k], prefix)->0).1,
            },
        )
    } else {
        None
    }
}

proof fn lemma_on_host(tab: JsonModel, prefix: Seq<char>)
    ensures
        on_host(tab, prefix) == parent_on_host(tab, prefix),
{
    reveal_strlit("");
    assert(""@ =~= Seq::<char>::empty());
    if let Some(pty) = json::text_member(tab, "ptyId"@) {
        if prefix.len() <= pty.len() {
            assert(pty.take(prefix.len() as int) == pty.subrange(0, prefix.len() as int));
        }
    }
}

proof fn lemma_tabs_from(
    tabs: Seq<JsonModel>,
    i: int,
    seen: Set<Seq<char>>,
    key: Seq<char>,
    prefix: Seq<char>,
)
    requires
        0 <= i <= tabs.len(),
        forall|p: Seq<char>| #[trigger]
            seen.contains(p) <==> exists|j: int|
                0 <= j < i && on_host(#[trigger] tabs[j], prefix) == Some(p),
    ensures
        tabs_from(tabs, i, seen, key, prefix) == lists::picked(
            lists::indices(tabs.len()).skip(i),
            |k: int| first_of_parent(tabs, k, key, prefix),
        ),
    decreases tabs.len() - i,
{
    let f = |k: int| first_of_parent(tabs, k, key, prefix);
    let idx = lists::indices(tabs.len());
    if i < tabs.len() {
        assert(idx[i] == i);
        lists::lemma_picked_front(idx, i, f);
        lemma_on_host(tabs[i], prefix);
        let after = match on_host(tabs[i], prefix) {
            Some(p) => seen.insert(p),
            None => seen,
        };
        assert forall|p: Seq<char>| #[trigger] after.contains(p) <==> exists|j: int|
            0 <= j < i + 1 && on_host(#[trigger] tabs[j], prefix) == Some(p) by {
            assert(seen.contains(p) <==> exists|j: int|
                0 <= j < i && on_host(#[trigger] tabs[j], prefix) == Some(p));
            if on_host(tabs[i], prefix) == Some(p) {
                assert(exists|j: int|
                    0 <= j < i + 1 && on_host(#[trigger] tabs[j], prefix) == Some(p));
            }
        }
        lemma_tabs_from(tabs, i + 1, after, key, prefix);
        if let Some(p) = on_host(tabs[i], prefix) {
            if seen.contains(p) {
                assert(after =~= seen);
                let j = choose|j: int|
                    0 <= j < i && on_host(#[trigger] tabs[j], prefix) == Some(p);
                assert(on_host(tabs[j], prefix) == on_host(tabs[i], prefix));
                assert(first_of_parent(tabs, i, key, prefix) is None);
            } else {
                assert forall|j: int| 0 <= j < i implies on_host(#[trigger] tabs[j], prefix)
                    != on_host(tabs[i], prefix) by {
                    if on_host(tabs[j], prefix) == Some(p) {
                        assert(seen.contains(p));
                    }
                }
            }
        }
    } else {
        assert(idx.skip(i) =~= Seq::<int>::empty());
        lists::lemma_picked_empty(f);
    }
}

/// The worktree that a snapshot is of, empty where it names none.
pub open spec fn key_in(snapshot: JsonModel) -> Seq<char> {
    match json::member(snapshot, "worktree"@) {
        Some(JsonModel::Text(key)) => key,
        _ => Seq::empty(),
    }
}

/// The tabs of a snapshot are those of the host, one for each tab of the hub: the first that is part of
/// it, where that has a layout. They stand in the order of the snapshot.
pub proof fn snapshots_list_first_tabs(snapshot: JsonModel, prefix: Seq<char>)
    ensures
        ({
            let tabs = tabs_in(snapshot);
            tabs_of_snapshot(snapshot, prefix) == lists::picked(
                lists::indices(tabs.len()),
                |k: int| first_of_parent(tabs, k, key_in(snapshot), prefix),
            )
        }),
{
    let tabs = tabs_in(snapshot);
    let key = key_in(snapshot);
    reveal_strlit("");
    assert(""@ =~= Seq::<char>::empty());
    lemma_tabs_from(tabs, 0, Set::empty(), key, prefix);
    assert(lists::indices(tabs.len()).skip(0) =~= lists::indices(tabs.len()));
}

proof fn lemma_tabs_of_snapshots(snapshots: Seq<JsonModel>, i: int, prefix: Seq<char>)
    requires
        0 <= i <= snapshots.len(),
    ensures
        tabs_of_snapshots(snapshots, i, prefix) == snapshots.skip(i).map_values(
            |s: JsonModel| tabs_of_snapshot(s, prefix),
        ).flatten(),
    decreases snapshots.len() - i,
{
    let g = |s: JsonModel| tabs_of_snapshot(s, prefix);
    let parts = snapshots.skip(i).map_values(g);
    if i < snapshots.len() {
        lemma_tabs_of_snapshots(snapshots, i + 1, prefix);
        assert(parts.first() == g(snapshots[i]));
        assert(parts.drop_first() =~= snapshots.skip(i + 1).map_values(g));
    }
}

/// The tabs of a session are those of all its snapshots, one snapshot behind the other.
pub proof fn sessions_list_all_snapshots(
    session: JsonModel,
    snapshots: Seq<JsonModel>,
    target_id: Seq<char>,
)
    requires
        json::member(session, "snapshots"@) == Some(JsonModel::Array(snapshots)),
    ensures
        tabs_of_session(session, target_id) == snapshots.map_values(
            |s: JsonModel| tabs_of_snapshot(s, "ssh:"@ + target_id + "@@"@),
        ).flatten(),
{
    lemma_tabs_of_snapshots(snapshots, 0, host_prefix(target_id));
    assert(snapshots.skip(0) =~= snapshots);
}

/// The processes that are wanted are those of the leaves of all tabs.
pub proof fn wanted_processes_are_those_of_tabs(tabs: Seq<AppTabModel>, n: int, pty: Seq<char>)
    requires
        0 <= n <= tabs.len(),
    ensures
        ptys_of_tabs(tabs, n).contains(pty) <==> exists|i: int, leaf: Seq<char>|
            0 <= i < n && #[trigger] tabs[i].pty_by_leaf.contains_pair(leaf, pty),
    decreases n,
{
    if n > 0 {
        wanted_processes_are_those_of_tabs(tabs, n - 1, pty);
        if ptys_of(tabs[n - 1]).contains(pty) {
            let leaf = choose|leaf: Seq<char>| #[trigger]
                tabs[n - 1].pty_by_leaf.contains_key(leaf) && tabs[n - 1].pty_by_leaf[leaf] == pty;
            assert(tabs[n - 1].pty_by_leaf.contains_pair(leaf, pty));
        }
        if ptys_of_tabs(tabs, n - 1).contains(pty) {
            let (i, leaf) = choose|i: int, leaf: Seq<char>|
                0 <= i < n - 1 && #[trigger] tabs[i].pty_by_leaf.contains_pair(leaf, pty);
            assert(tabs[i].pty_by_leaf.contains_pair(leaf, pty));
        }
        if exists|i: int, leaf: Seq<char>|
            0 <= i < n && #[trigger] tabs[i].pty_by_leaf.contains_pair(leaf, pty) {
            let (i, leaf) = choose|i: int, leaf: Seq<char>|
                0 <= i < n && #[trigger] tabs[i].pty_by_leaf.contains_pair(leaf, pty);
            if i == n - 1 {
                assert(tabs[n - 1].pty_by_leaf.contains_key(leaf));
            } else {
                assert(0 <= i < n - 1);
            }
        }
    }
}

/// A tab of the hub is found at the first place that has it.
pub proof fn the_first_tab_is_found(tabs: Seq<AppTabModel>, i: int, parent: Seq<char>)
    requires
        0 <= i <= tabs.len(),
    ensures
        match first_tab(tabs, i, parent) {
            Some(k) => i <= k < tabs.len() && tabs[k].parent_tab_id == parent && forall|j: int|
                i <= j < k ==> (#[trigger] tabs[j]).parent_tab_id != parent,
            None => forall|j: int|
                i <= j < tabs.len() ==> (#[trigger] tabs[j]).parent_tab_id != parent,
        },
    decreases tabs.len() - i,
{
    if i < tabs.len() && tabs[i].parent_tab_id != parent {
        the_first_tab_is_found(tabs, i + 1, parent);
    }
}

/// The tab that counts is the last that has the tab of the hub.
pub proof fn the_last_tab_is_found(tabs: Seq<AppTabModel>, n: int, parent: Seq<char>)
    requires
        0 <= n <= tabs.len(),
    ensures
        match last_tab(tabs, n, parent) {
            Some(k) => 0 <= k < n && tabs[k].parent_tab_id == parent && forall|j: int|
                k < j < n ==> (#[trigger] tabs[j]).parent_tab_id != parent,
            None => forall|j: int| 0 <= j < n ==> (#[trigger] tabs[j]).parent_tab_id != parent,
        },
    decreases n,
{
    if n > 0 && tabs[n - 1].parent_tab_id != parent {
        the_last_tab_is_found(tabs, n - 1, parent);
    }
}

/// The fingerprint of a tab is that of its layout behind the path of its worktree and a bar.
pub proof fn fingerprints_tell_the_worktree(tab: AppTabModel)
    ensures
        text::after_prefix(signature_of_tab(tab), tab.worktree_path + seq!['|']) == Some(
            layout::signature_of(tab.layout, tab.pty_by_leaf),
        ),
{
    text::prefixes_are_taken_off(
        signature_of_tab(tab),
        tab.worktree_path + seq!['|'],
        layout::signature_of(tab.layout, tab.pty_by_leaf),
    );
}

/// The handle of a process is what a tab of terminals tells that shows the process.
pub proof fn handles_are_told_by_tabs(
    tab: JsonModel,
    raw: Seq<char>,
    pty: Seq<char>,
    handle: Seq<char>,
)
    requires
        json::member(tab, "ptyId"@) == Some(JsonModel::Text(pty)),
    ensures
        handle_of(tab, raw) == Some(handle) <==> {
            &&& json::member(tab, "type"@) == Some(JsonModel::Text("terminal"@))
            &&& raw_pty(pty) == raw
            &&& json::member(tab, "terminal"@) == Some(JsonModel::Text(handle))
        },
{
}

/// The tabs of a snapshot.
pub open spec fn tabs_in(snapshot: JsonModel) -> Seq<JsonModel> {
    match json::member(snapshot, "tabs"@) {
        Some(JsonModel::Array(tabs)) => tabs,
        _ => Seq::empty(),
    }
}

proof fn lemma_handle_from(tabs: Seq<JsonModel>, i: int, raw: Seq<char>)
    requires
        0 <= i <= tabs.len(),
    ensures
        match handle_from(tabs, i, raw) {
            Some(h) => exists|k: int|
                i <= k < tabs.len() && handle_of(#[trigger] tabs[k], raw) == Some(h) && forall|
                    j: int,
                |
                    i <= j < k ==> handle_of(#[trigger] tabs[j], raw) is None,
            None => forall|j: int|
                i <= j < tabs.len() ==> handle_of(#[trigger] tabs[j], raw) is None,
        },
    decreases tabs.len() - i,
{
    if i < tabs.len() && handle_of(tabs[i], raw) is None {
        lemma_handle_from(tabs, i + 1, raw);
    }
}

/// A process goes by the handle that the first tab tells that shows it, over all snapshots.
pub proof fn the_first_handle_counts(snapshots: Seq<JsonModel>, i: int, raw: Seq<char>)
    requires
        0 <= i <= snapshots.len(),
    ensures
        match handle_in(snapshots, i, raw) {
            Some(h) => exists|s: int, k: int|
                i <= s < snapshots.len() && 0 <= k < tabs_in(snapshots[s]).len() && handle_of(
                    #[trigger] tabs_in(snapshots[s])[k],
                    raw,
                ) == Some(h) && (forall|j: int|
                    0 <= j < k ==> handle_of(#[trigger] tabs_in(snapshots[s])[j], raw) is None)
                    && forall|r: int, j: int|
                    i <= r < s && 0 <= j < tabs_in(snapshots[r]).len() ==> handle_of(
                        #[trigger] tabs_in(snapshots[r])[j],
                        raw,
                    ) is None,
            None => forall|r: int, j: int|
                i <= r < snapshots.len() && 0 <= j < tabs_in(snapshots[r]).len() ==> handle_of(
                    #[trigger] tabs_in(snapshots[r])[j],
                    raw,
                ) is None,
        },
    decreases snapshots.len() - i,
{
    if i < snapshots.len() {
        let tabs = json::items_or_none(json::member(snapshots[i], "tabs"@));
        assert(tabs == tabs_in(snapshots[i]));
        lemma_handle_from(tabs, 0, raw);
        match handle_from(tabs, 0, raw) {
            Some(h) => {
                let k = choose|k: int|
                    0 <= k < tabs.len() && handle_of(#[trigger] tabs[k], raw) == Some(h) && forall|
                        j: int,
                    |
                        0 <= j < k ==> handle_of(#[trigger] tabs[j], raw) is None;
                assert(handle_of(tabs_in(snapshots[i])[k], raw) == Some(h));
            },
            None => {
                the_first_handle_counts(snapshots, i + 1, raw);
                assert forall|j: int| 0 <= j < tabs_in(snapshots[i]).len() implies handle_of(
                    #[trigger] tabs_in(snapshots[i])[j],
                    raw,
                ) is None by {
                    assert(handle_of(tabs[j], raw) is None);
                }
            },
        }
    }
}

/// As many processes are wanted as those that are listed under a name that is wanted.
pub proof fn wanted_processes_are_counted(
    processes: Seq<JsonModel>,
    n: int,
    want: Set<Seq<char>>,
)
    requires
        0 <= n <= processes.len(),
    ensures
        wanted_count(processes, n, want) == processes.take(n).filter(
            |p: JsonModel|
                json::member(p, "id"@) matches Some(JsonModel::Text(id)) && want.contains(id),
        ).len(),
    decreases n,
{
    let is_wanted = |p: JsonModel|
        json::member(p, "id"@) matches Some(JsonModel::Text(id)) && want.contains(id);
    reveal(Seq::filter);
    if n > 0 {
        wanted_processes_are_counted(processes, n - 1, want);
        assert(processes.take(n).drop_last() == processes.take(n - 1));
        assert(processes.take(n).last() == processes[n - 1]);
    }
}

/// A target is found under its label, the first one where several have it.
pub proof fn the_first_target_is_found(targets: Seq<JsonModel>, i: int, target: Seq<char>)
    requires
        0 <= i <= targets.len(),
    ensures
        match target_from(targets, i, target) {
            Some(t) => exists|k: int|
                i <= k < targets.len() && #[trigger] targets[k] == t && json::member(t, "label"@)
                    == Some(JsonModel::Text(target)) && forall|j: int|
                    i <= j < k ==> json::member(#[trigger] targets[j], "label"@) != Some(
                        JsonModel::Text(target),
                    ),
            None => forall|j: int|
                i <= j < targets.len() ==> json::member(#[trigger] targets[j], "label"@) != Some(
                    JsonModel::Text(target),
                ),
        },
    decreases targets.len() - i,
{
    if i < targets.len() && json::text_member(targets[i], "label"@) != Some(target) {
        the_first_target_is_found(targets, i + 1, target);
    }
}

/// The processes of a tab of the hub are those of the first tab that has it, and none where no tab has
/// it.
pub proof fn processes_of_a_tab_are_those_of_the_first(
    tabs: Seq<AppTabModel>,
    parent: Seq<char>,
    k: int,
    pty: Seq<char>,
)
    ensures
        0 <= k < tabs.len() && tabs[k].parent_tab_id == parent && (forall|j: int|
            0 <= j < k ==> (#[trigger] tabs[j]).parent_tab_id != parent) ==> (ptys_of_parent(
            tabs,
            parent,
        ).contains(pty) <==> exists|leaf: Seq<char>| #[trigger]
            tabs[k].pty_by_leaf.contains_pair(leaf, pty)),
        (forall|j: int| 0 <= j < tabs.len() ==> (#[trigger] tabs[j]).parent_tab_id != parent)
            ==> !ptys_of_parent(tabs, parent).contains(pty),
{
    the_first_tab_is_found(tabs, 0, parent);
    if 0 <= k < tabs.len() && tabs[k].parent_tab_id == parent && (forall|j: int|
        0 <= j < k ==> (#[trigger] tabs[j]).parent_tab_id != parent) {
        assert(first_tab(tabs, 0, parent) == Some(k)) by {
            let m = first_tab(tabs, 0, parent)->0;
            assert(tabs[k].parent_tab_id == parent);
            assert(tabs[m].parent_tab_id == parent);
        }
        if ptys_of(tabs[k]).contains(pty) {
            let leaf = choose|leaf: Seq<char>| #[trigger]
                tabs[k].pty_by_leaf.contains_key(leaf) && tabs[k].pty_by_leaf[leaf] == pty;
            assert(tabs[k].pty_by_leaf.contains_pair(leaf, pty));
        }
        if exists|leaf: Seq<char>| #[trigger] tabs[k].pty_by_leaf.contains_pair(leaf, pty) {
            let leaf = choose|leaf: Seq<char>| #[trigger]
                tabs[k].pty_by_leaf.contains_pair(leaf, pty);
            assert(tabs[k].pty_by_leaf.contains_key(leaf));
        }
    }
}

/// A session without snapshots has no tabs.
pub proof fn sessions_may_have_no_snapshots(session: JsonModel, target_id: Seq<char>)
    requires
        !(json::member(session, "snapshots"@) matches Some(JsonModel::Array(_))),
    ensures
        tabs_of_session(session, target_id).len() == 0,
{
}

/// Whether the tab gives a tree that can be read, and a process on the host.
pub open spec fn gives_layout(tab: JsonModel, prefix: Seq<char>) -> bool {
    &&& json::member(tab, "parentLayout"@) matches Some(given)
    &&& exists|root: JsonModel, node: LayoutModel|
        json::member(given, "root"@) == Some(root) && #[trigger] layout::describes(root, node)
    &&& json::member(given, "ptyIdsByLeafId"@) matches Some(JsonModel::Object(by_leaf))
    &&& exists|leaf: Seq<char>, rest: Seq<char>| #[trigger]
        by_leaf.contains_pair(leaf, JsonModel::Text(#[trigger] (prefix + rest)))
}

/// A tab that gives no tree that can be read, or no process on the host, is the one pane that it names
/// itself, with its process. Without a process it is none.
pub proof fn tabs_fall_back_to_one_pane(tab: JsonModel, prefix: Seq<char>)
    requires
        !gives_layout(tab, prefix),
    ensures
        match json::member(tab, "ptyId"@) {
            Some(JsonModel::Text(pty)) => {
                let leaf = match json::member(tab, "leafId"@) {
                    Some(JsonModel::Text(leaf)) => leaf,
                    _ => Seq::empty(),
                };
                layout_of_tab(tab, prefix) == Some(
                    (LayoutModel::Leaf { leaf_id: leaf }, map![leaf => raw_pty(pty)]),
                )
            },
            _ => layout_of_tab(tab, prefix) is None,
        },
{
    reveal_strlit("");
    assert(""@ =~= Seq::<char>::empty());
    lemma_member_of_member(tab, "parentLayout"@, "ptyIdsByLeafId"@);
    lemma_member_of_member(tab, "parentLayout"@, "root"@);
    let ptys = host_ptys_in(
        json::member_at(tab, seq!["parentLayout"@, "ptyIdsByLeafId"@]),
        prefix,
    );
    let read = match json::member_at(tab, seq!["parentLayout"@, "root"@]) {
        Some(root) => layout::layout_in(root),
        None => None,
    };
    if ptys != Map::<Seq<char>, Seq<char>>::empty() && read is Some {
        let given = json::member(tab, "parentLayout"@)->0;
        let root = json::member(given, "root"@)->0;
        layout::trees_are_read_as_described(root, read->0);
        let by_leaf = (json::member(given, "ptyIdsByLeafId"@)->0)->Object_0;
        assert(exists|leaf: Seq<char>| ptys.contains_key(leaf)) by {
            if forall|leaf: Seq<char>| !ptys.contains_key(leaf) {
                assert(ptys =~= Map::<Seq<char>, Seq<char>>::empty());
            }
        }
        let leaf = choose|leaf: Seq<char>| ptys.contains_key(leaf);
        processes_on_the_host_are_kept(by_leaf, prefix, leaf, Seq::empty());
        let rest = choose|r: Seq<char>| by_leaf[leaf]->Text_0 == #[trigger] (prefix + r);
        assert(by_leaf.contains_pair(leaf, JsonModel::Text(prefix + rest)));
        assert(gives_layout(tab, prefix));
    }
}

/// A tab without a process shows the process without a name.
pub proof fn tabs_without_a_process_have_no_name(tab: JsonModel, raw: Seq<char>)
    requires
        !(json::member(tab, "ptyId"@) matches Some(JsonModel::Text(_))),
        raw.len() > 0,
    ensures
        handle_of(tab, raw) is None,
{
    reveal_strlit("");
    reveal_strlit("@@");
    text::the_last_piece_is_behind_the_last(""@, "@@"@);
}

/// What a list says, it says item by item: each stands in its place, and none is added or left out.
pub proof fn items_keep_their_places(v: Seq<AppTab>, i: int)
    ensures
        tab_models(v).len() == v.len(),
        0 <= i < v.len() ==> tab_models(v)[i] == v[i]@,
{
}

} // verus!
