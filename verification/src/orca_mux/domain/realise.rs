//! Bringing the tabs of the screen in step with the visual tabs of the hub.
use crate::collections::{TextMap, TextSet};
use crate::lists;
use crate::order;
use crate::orca_mux::domain::attach;
use crate::orca_mux::domain::publish;
use crate::orca_mux::domain::visual;
use crate::orca_mux::domain::visual::{SplitOp, SplitOpModel, VisualModel, VisualPaneNode};
use crate::orca_mux::domain::window;
use crate::orca_mux::layout::SplitDirection;
use crate::orca_mux::pane;
use crate::orca_mux::pane::TerminalSummary;
use crate::text;
use vstd::prelude::*;

verus! {

/// The terminals that the first `n` entries of a list give, by handle.
pub open spec fn by_handle(list: Seq<TerminalSummary>, n: int) -> Map<Seq<char>, TerminalSummary>
    decreases n,
{
    if n <= 0 {
        Map::empty()
    } else {
        by_handle(list, n - 1).insert(list[n - 1].handle@, list[n - 1])
    }
}

/// The terminals of a list, by handle.
pub fn summaries_by_handle(list: Vec<TerminalSummary>) -> (r: TextMap<TerminalSummary>)
    ensures
        r@ == by_handle(list@, list@.len() as int),
{
    let ghost all = list@;
    let mut rest = list;
    let mut reversed: Vec<TerminalSummary> = Vec::new();
    while rest.len() > 0
        invariant
            rest@.len() + reversed@.len() == all.len(),
            forall|i: int| 0 <= i < rest@.len() ==> rest@[i] == all[i],
            forall|i: int|
                0 <= i < reversed@.len() ==> #[trigger] reversed@[i] == all[all.len() - 1 - i],
        decreases rest@.len(),
    {
        if let Some(summary) = rest.pop() {
            reversed.push(summary);
        }
    }
    let mut out: TextMap<TerminalSummary> = TextMap::new();
    let ghost mut n: int = 0;
    while reversed.len() > 0
        invariant
            0 <= n,
            n + reversed@.len() == all.len(),
            forall|i: int|
                0 <= i < reversed@.len() ==> #[trigger] reversed@[i] == all[all.len() - 1 - i],
            out@ == by_handle(all, n),
        decreases reversed@.len(),
    {
        assert(reversed@[reversed@.len() - 1] == all[n]);
        if let Some(summary) = reversed.pop() {
            let handle = summary.handle.clone();
            out.insert(handle.as_str(), summary);
            proof {
                n = n + 1;
            }
        }
    }
    out
}

/// Whether the hub lists a terminal that a pane can follow under the handle.
pub open spec fn is_attachable(
    summaries: Map<Seq<char>, TerminalSummary>,
    handle: Seq<char>,
) -> bool {
    summaries.contains_key(handle) && pane::can_follow(summaries[handle]@)
}

/// Whether the hub lists a terminal that a pane can follow under the handle.
pub fn attachable(summaries: &TextMap<TerminalSummary>, handle: &str) -> (r: bool)
    ensures
        r == is_attachable(summaries@, handle@),
{
    match summaries.get(handle) {
        Some(summary) => summary.is_attachable(),
        None => false,
    }
}

/// Where the pane of a terminal comes from.
#[derive(Clone, Copy, Debug, PartialEq, Eq, Structural)]
pub enum PaneSource {
    /// It was taken out of the tab before.
    Pooled,
    /// It stands elsewhere on the screen.
    Live(usize),
    /// It is made anew.
    Attach,
    /// There is none.
    Missing,
}

/// Where the pane of a terminal comes from.
pub open spec fn source_of(
    handle: Seq<char>,
    pool: Set<Seq<char>>,
    live: Map<Seq<char>, usize>,
    summaries: Map<Seq<char>, TerminalSummary>,
    attached: Set<Seq<char>>,
) -> PaneSource {
    if pool.contains(handle) {
        PaneSource::Pooled
    } else if live.contains_key(handle) {
        PaneSource::Live(live[handle])
    } else if is_attachable(summaries, handle) && !attached.contains(handle) {
        PaneSource::Attach
    } else {
        PaneSource::Missing
    }
}

/// Where the pane of a terminal comes from: the panes that were taken out, the screen, or the hub,
/// where nothing follows the terminal yet.
pub fn pane_source(
    handle: &str,
    pool: &TextSet,
    live: &TextMap<usize>,
    summaries: &TextMap<TerminalSummary>,
    attached: &TextSet,
) -> (r: PaneSource)
    ensures
        r == source_of(handle@, pool@, live@, summaries@, attached@),
{
    if pool.contains(handle) {
        return PaneSource::Pooled;
    }
    if let Some(id) = live.get(handle) {
        return PaneSource::Live(*id);
    }
    if attachable(summaries, handle) && !attached.contains(handle) {
        PaneSource::Attach
    } else {
        PaneSource::Missing
    }
}

/// Where the first pane of a visual tab comes from. It is made anew even where the terminal has
/// ended.
pub fn first_pane_source(
    handle: &str,
    live: &TextMap<usize>,
    summaries: &TextMap<TerminalSummary>,
    attached: &TextSet,
) -> (r: PaneSource)
    ensures
        r == (if live@.contains_key(handle@) {
            PaneSource::Live(live@[handle@])
        } else if summaries@.contains_key(handle@) && !attached@.contains(handle@) {
            PaneSource::Attach
        } else {
            PaneSource::Missing
        }),
{
    if let Some(id) = live.get(handle) {
        return PaneSource::Live(*id);
    }
    if summaries.contains_key(handle) && !attached.contains(handle) {
        PaneSource::Attach
    } else {
        PaneSource::Missing
    }
}

/// The least index from `i` on of a split whose pane is not in place and whose source is.
pub open spec fn next_op(ops: Seq<SplitOpModel>, i: int, panes: Map<Seq<char>, usize>) -> int
    decreases ops.len() - i,
{
    if i < 0 || i >= ops.len() {
        ops.len() as int
    } else if !panes.contains_key(ops[i].insert) && panes.contains_key(ops[i].split_from) {
        i
    } else {
        next_op(ops, i + 1, panes)
    }
}

/// Puts the panes of a visual tab in place, one split after the other.
#[derive(Debug)]
pub struct Realiser {
    ops: Vec<SplitOp>,
    next: usize,
    panes: TextMap<usize>,
}

/// What a [`Realiser`] has done and still has to do.
#[verifier::ext_equal]
pub struct RealiserModel {
    pub ops: Seq<SplitOpModel>,
    pub next: nat,
    pub panes: Map<Seq<char>, usize>,
}

impl View for Realiser {
    type V = RealiserModel;

    closed spec fn view(&self) -> RealiserModel {
        RealiserModel {
            ops: visual::op_models(self.ops@),
            next: self.next as nat,
            panes: self.panes@,
        }
    }
}

impl Realiser {
    /// Starts on a visual tab of which the given panes are in place.
    pub fn new(root: &VisualPaneNode, panes: TextMap<usize>) -> (r: Realiser)
        ensures
            r@ == (RealiserModel { ops: visual::splits_of(root@), next: 0, panes: panes@ }),
    {
        Realiser { ops: root.plan_splits(), next: 0, panes }
    }

    /// The split to make next, and the pane that it divides: the first that is left whose own pane is
    /// not in place and whose source is.
    pub fn next_split(&mut self) -> (r: Option<(usize, usize)>)
        ensures
            ({
                let k = next_op(old(self)@.ops, old(self)@.next as int, old(self)@.panes);
                if k < old(self)@.ops.len() {
                    r matches Some((index, from)) && index == k && from
                        == old(self)@.panes[old(self)@.ops[k].split_from] && final(self)@ == (
                    RealiserModel { next: (k + 1) as nat, ..old(self)@ })
                } else {
                    r is None && final(self)@ == old(self)@
                }
            }),
    {
        let ghost ops = self@.ops;
        let ghost panes = self@.panes;
        let ghost start = self@.next as int;
        let mut i: usize = self.next;
        while i < self.ops.len()
            invariant
                self@.ops == ops,
                self@.panes == panes,
                self@ == old(self)@,
                start == old(self)@.next,
                0 <= start <= i,
                next_op(ops, start, panes) == next_op(ops, i as int, panes),
            decreases self.ops@.len() - i,
        {
            assert(ops[i as int] == self.ops@[i as int]@);
            if !self.panes.contains_key(self.ops[i].insert.as_str()) {
                if let Some(from) = self.panes.get(self.ops[i].split_from.as_str()) {
                    let from: usize = *from;
                    self.next = i + 1;
                    assert(self@ == (RealiserModel { next: (i + 1) as nat, ..old(self)@ }));
                    return Some((i, from));
                }
            }
            i += 1;
        }
        None
    }

    /// The split of an index that [`Realiser::next_split`] gave.
    pub fn op(&self, index: usize) -> (r: &SplitOp)
        requires
            index < self@.ops.len(),
        ensures
            r@ == self@.ops[index as int],
    {
        assert(self@.ops[index as int] == self.ops@[index as int]@);
        &self.ops[index]
    }

    /// Notes that the pane of a terminal is in place.
    pub fn placed(&mut self, handle: &str, pane_id: usize)
        ensures
            final(self)@ == (RealiserModel {
                panes: old(self)@.panes.insert(handle@, pane_id),
                ..old(self)@
            }),
    {
        self.panes.insert(handle, pane_id);
    }

    /// Whether the pane of a terminal is in place.
    pub fn is_placed(&self, handle: &str) -> (r: bool)
        ensures
            r == self@.panes.contains_key(handle@),
    {
        self.panes.contains_key(handle)
    }

    /// The panes that are in place.
    pub fn into_panes(self) -> (r: TextMap<usize>)
        ensures
            r@ == self@.panes,
    {
        self.panes
    }
}

/// The terminals that are in place once every split from index `i` on whose source is in place was
/// made.
pub open spec fn realised(ops: Seq<SplitOpModel>, i: int, placed: Set<Seq<char>>) -> Set<Seq<char>>
    decreases ops.len() - i,
{
    if i < 0 || i >= ops.len() {
        placed
    } else if placed.contains(ops[i].split_from) {
        realised(ops, i + 1, placed.insert(ops[i].insert))
    } else {
        realised(ops, i + 1, placed)
    }
}

proof fn lemma_realised_add(
    a: Seq<SplitOpModel>,
    b: Seq<SplitOpModel>,
    i: int,
    placed: Set<Seq<char>>,
)
    requires
        0 <= i <= a.len(),
    ensures
        realised(a + b, i, placed) == realised(b, 0, realised(a, i, placed)),
    decreases a.len() - i,
{
    if i < a.len() {
        assert((a + b)[i] == a[i]);
        if placed.contains(a[i].split_from) {
            lemma_realised_add(a, b, i + 1, placed.insert(a[i].insert));
        } else {
            lemma_realised_add(a, b, i + 1, placed);
        }
    } else {
        lemma_realised_shift(a, b, 0, placed);
    }
}

proof fn lemma_realised_shift(
    a: Seq<SplitOpModel>,
    b: Seq<SplitOpModel>,
    i: int,
    placed: Set<Seq<char>>,
)
    requires
        0 <= i <= b.len(),
    ensures
        realised(a + b, a.len() + i, placed) == realised(b, i, placed),
    decreases b.len() - i,
{
    if i < b.len() {
        assert((a + b)[a.len() + i] == b[i]);
        if placed.contains(b[i].split_from) {
            lemma_realised_shift(a, b, i + 1, placed.insert(b[i].insert));
        } else {
            lemma_realised_shift(a, b, i + 1, placed);
        }
    }
}

/// Where the leftmost pane of a visual tab is in place and every split that can be made is made, all
/// of its terminals are in place.
pub proof fn every_terminal_is_placed(root: VisualModel, placed: Set<Seq<char>>)
    requires
        placed.contains(visual::leftmost_of(root)),
    ensures
        realised(visual::splits_of(root), 0, placed) == placed.union(
            visual::handles_of(root).to_set(),
        ),
    decreases root,
{
    match root {
        VisualModel::Terminal { handle } => {
            assert(placed.union(seq![handle].to_set()) =~= placed);
        },
        VisualModel::PaneSplit { direction, first, second } => {
            let op = visual::op_for(direction, *first, *second);
            let a = visual::splits_of(*first);
            let b = visual::splits_of(*second);
            let one = seq![op];
            let p1 = placed.insert(op.insert);
            lemma_realised_add(one + a, b, 0, placed);
            lemma_realised_add(one, a, 0, placed);
            assert(realised(one, 1, p1) == p1);
            assert(realised(one, 0, placed) == p1) by {
                assert(one[0] == op);
            }
            every_terminal_is_placed(*first, p1);
            let p2 = p1.union(visual::handles_of(*first).to_set());
            every_terminal_is_placed(*second, p2);
            visual::splits_join_the_terminals(*second);
            let hs = visual::handles_of(*second);
            let hf = visual::handles_of(*first);
            assert(hs[0] == op.insert);
            assert forall|x: Seq<char>| #[trigger] p2.union(hs.to_set()).contains(x)
                <==> placed.union((hf + hs).to_set()).contains(x) by {
                assert((hf + hs).contains(x) <==> hf.contains(x) || hs.contains(x)) by {
                    if hf.contains(x) {
                        let i = choose|i: int| 0 <= i < hf.len() && hf[i] == x;
                        assert((hf + hs)[i] == x);
                    }
                    if hs.contains(x) {
                        let i = choose|i: int| 0 <= i < hs.len() && hs[i] == x;
                        assert((hf + hs)[hf.len() + i] == x);
                    }
                    if (hf + hs).contains(x) {
                        let i = choose|i: int| 0 <= i < (hf + hs).len() && (hf + hs)[i] == x;
                        if i < hf.len() {
                            assert(hf[i] == x);
                        } else {
                            assert(hs[i - hf.len()] == x);
                        }
                    }
                }
                assert(hs.contains(hs[0]));
            }
            assert(p2.union(hs.to_set()) =~= placed.union((hf + hs).to_set()));
        },
    }
}

/// Whether a terminal is new to the screen: no pane follows it, and one can.
pub open spec fn is_new(
    handle: Seq<char>,
    live: Map<Seq<char>, usize>,
    summaries: Map<Seq<char>, TerminalSummary>,
    attached: Set<Seq<char>>,
) -> bool {
    !live.contains_key(handle) && !attached.contains(handle) && is_attachable(summaries, handle)
}

/// The tabs that the first `n` terminals are shown in, as far as they are. `tabs` are the tabs that
/// their panes are in.
pub open spec fn member_tabs(
    handles: Seq<Seq<char>>,
    live: Map<Seq<char>, usize>,
    tabs: Seq<Option<usize>>,
    n: int,
) -> Seq<usize>
    decreases n,
{
    if n <= 0 {
        Seq::empty()
    } else {
        let before = member_tabs(handles, live, tabs, n - 1);
        if live.contains_key(handles[n - 1]) && tabs[n - 1] is Some {
            before.push(tabs[n - 1]->0)
        } else {
            before
        }
    }
}

/// The panes of the first `n` terminals that are in the tab `id`.
pub open spec fn panes_in_tab(
    handles: Seq<Seq<char>>,
    live: Map<Seq<char>, usize>,
    tabs: Seq<Option<usize>>,
    id: usize,
    n: int,
) -> Map<Seq<char>, usize>
    decreases n,
{
    if n <= 0 {
        Map::empty()
    } else {
        let before = panes_in_tab(handles, live, tabs, id, n - 1);
        if live.contains_key(handles[n - 1]) && tabs[n - 1] == Some(id) {
            before.insert(handles[n - 1], live[handles[n - 1]])
        } else {
            before
        }
    }
}

/// What to do for a visual tab of the hub.
#[derive(Debug)]
pub enum TabPlan {
    /// None of it is shown, and there is nothing new to show.
    Leave,
    /// None of it is shown yet: make a tab for it.
    Materialise,
    /// It is shown in the tab `tab`, where `panes` are in place. `incomplete` says whether panes are
    /// missing there.
    Show { tab: usize, panes: TextMap<usize>, incomplete: bool },
}

/// What to do for a visual tab of the hub with the given terminals. `tabs` are the tabs that their
/// panes are in. It is shown in the tab that most of its panes are in.
pub fn plan_visual_tab(
    handles: &[String],
    live: &TextMap<usize>,
    tabs: &[Option<usize>],
    summaries: &TextMap<TerminalSummary>,
    attached: &TextSet,
) -> (r: TabPlan)
    requires
        handles@.len() == tabs@.len(),
    ensures
        ({
            let all = text::texts(handles@);
            let n = handles@.len() as int;
            let members = member_tabs(all, live@, tabs@, n);
            let new = exists|i: int|
                0 <= i < n && is_new(#[trigger] all[i], live@, summaries@, attached@);
            match r {
                TabPlan::Leave => members.len() == 0 && !new,
                TabPlan::Materialise => members.len() == 0 && new,
                TabPlan::Show { tab, panes, incomplete } => window::is_majority(members, tab)
                    && panes@ == panes_in_tab(all, live@, tabs@, tab, n) && incomplete == (new
                    || exists|i: int| 0 <= i < members.len() && #[trigger] members[i] != tab),
            }
        }),
{
    let ghost all = text::texts(handles@);
    let mut new = false;
    let mut members: Vec<usize> = Vec::new();
    let mut i: usize = 0;
    while i < handles.len()
        invariant
            i <= handles@.len(),
            handles@.len() == tabs@.len(),
            all == text::texts(handles@),
            members@ == member_tabs(all, live@, tabs@, i as int),
            new == exists|j: int|
                0 <= j < i && is_new(#[trigger] all[j], live@, summaries@, attached@),
        decreases handles@.len() - i,
    {
        let handle = handles[i].as_str();
        assert(all[i as int] == handle@);
        let ghost was_new = new;
        if live.contains_key(handle) {
            if let Some(tab) = tabs[i] {
                members.push(tab);
            }
        } else if !attached.contains(handle) && attachable(summaries, handle) {
            new = true;
            assert(is_new(all[i as int], live@, summaries@, attached@));
        }
        proof {
            if was_new {
                let j = choose|j: int|
                    0 <= j < i && is_new(#[trigger] all[j], live@, summaries@, attached@);
                assert(is_new(all[j], live@, summaries@, attached@));
            }
        }
        i += 1;
    }
    let tab: usize = match window::majority_tab(&members) {
        Some(tab) => tab,
        None => {
            return if new {
                TabPlan::Materialise
            } else {
                TabPlan::Leave
            };
        },
    };
    let mut misplaced = false;
    let mut m: usize = 0;
    while m < members.len()
        invariant
            m <= members@.len(),
            misplaced == exists|j: int| 0 <= j < m && #[trigger] members@[j] != tab,
        decreases members@.len() - m,
    {
        let ghost was = misplaced;
        if members[m] != tab {
            misplaced = true;
        }
        proof {
            if was {
                let j = choose|j: int| 0 <= j < m && #[trigger] members@[j] != tab;
                assert(members@[j] != tab);
            }
        }
        m += 1;
    }
    let panes = collect_panes(handles, live, tabs, tab);
    TabPlan::Show { tab, panes, incomplete: new || misplaced }
}

/// The panes of the terminals that are in the tab `id`.
fn collect_panes(
    handles: &[String],
    live: &TextMap<usize>,
    tabs: &[Option<usize>],
    id: usize,
) -> (r: TextMap<usize>)
    requires
        handles@.len() == tabs@.len(),
    ensures
        r@ == panes_in_tab(text::texts(handles@), live@, tabs@, id, handles@.len() as int),
{
    let ghost all = text::texts(handles@);
    let mut panes: TextMap<usize> = TextMap::new();
    let mut i: usize = 0;
    while i < handles.len()
        invariant
            i <= handles@.len(),
            handles@.len() == tabs@.len(),
            all == text::texts(handles@),
            panes@ == panes_in_tab(all, live@, tabs@, id, i as int),
        decreases handles@.len() - i,
    {
        let handle = handles[i].as_str();
        assert(all[i as int] == handle@);
        if let Some(pane) = live.get(handle) {
            if let Some(tab) = tabs[i] {
                if tab == id {
                    panes.insert(handle, *pane);
                }
            }
        }
        i += 1;
    }
    panes
}

/// Whether all terminals are shown in the tab `id`.
pub open spec fn all_in_tab(
    handles: Seq<Seq<char>>,
    live: Map<Seq<char>, usize>,
    tabs: Seq<Option<usize>>,
    id: usize,
) -> bool {
    forall|i: int|
        0 <= i < handles.len() ==> live.contains_key(#[trigger] handles[i]) && tabs[i] == Some(id)
}

/// The tab that shows a visual tab, and its panes, where all of its terminals are shown in one.
pub fn normal_tab(handles: &[String], live: &TextMap<usize>, tabs: &[Option<usize>]) -> (r: Option<
    (usize, TextMap<usize>),
>)
    requires
        handles@.len() == tabs@.len(),
    ensures
        ({
            let all = text::texts(handles@);
            match r {
                Some((id, panes)) => handles@.len() > 0 && all_in_tab(all, live@, tabs@, id)
                    && panes@ == panes_in_tab(all, live@, tabs@, id, handles@.len() as int),
                None => handles@.len() == 0 || forall|id: usize|
                    !#[trigger] all_in_tab(all, live@, tabs@, id),
            }
        }),
{
    let ghost all = text::texts(handles@);
    if handles.len() == 0 {
        return None;
    }
    let id: usize = match tabs[0] {
        Some(id) => id,
        None => {
            proof {
                assert forall|id: usize| !#[trigger] all_in_tab(all, live@, tabs@, id) by {
                    if all_in_tab(all, live@, tabs@, id) {
                        assert(live@.contains_key(all[0]));
                    }
                }
            }
            return None;
        },
    };
    let mut i: usize = 0;
    while i < handles.len()
        invariant
            i <= handles@.len(),
            handles@.len() == tabs@.len(),
            handles@.len() > 0,
            tabs@[0] == Some(id),
            all == text::texts(handles@),
            forall|j: int|
                0 <= j < i ==> live@.contains_key(#[trigger] all[j]) && tabs@[j] == Some(id),
        decreases handles@.len() - i,
    {
        assert(all[i as int] == handles@[i as int]@);
        let here = match tabs[i] {
            Some(tab) => tab == id,
            None => false,
        };
        if !here || !live.contains_key(handles[i].as_str()) {
            proof {
                assert forall|other: usize| !#[trigger] all_in_tab(all, live@, tabs@, other) by {
                    if all_in_tab(all, live@, tabs@, other) {
                        assert(live@.contains_key(all[0]));
                        assert(live@.contains_key(all[i as int]));
                    }
                }
            }
            return None;
        }
        assert(live@.contains_key(all[i as int]) && tabs@[i as int] == Some(id));
        assert forall|j: int| 0 <= j < i + 1 implies live@.contains_key(#[trigger] all[j])
            && tabs@[j] == Some(id) by {
            if j < i {
                assert(live@.contains_key(all[j]));
            }
        }
        i += 1;
    }
    Some((id, collect_panes(handles, live, tabs, id)))
}

/// What a tab that shows all of a visual tab needs.
#[derive(Clone, Copy, Debug, PartialEq, Eq, Structural)]
pub enum NormalStep {
    /// It shows other panes too: it is left alone.
    Leave,
    /// Its splits stand as they should: only their ratios are set.
    Keep,
    /// Its panes are taken out and put in place anew.
    Rebuild,
}

/// What a tab that shows all of a visual tab needs, where it has the panes `order` and splits of the
/// directions `splits`.
pub fn normal_step(
    order: &[usize],
    splits: &[SplitDirection],
    root: &VisualPaneNode,
    panes: &TextMap<usize>,
) -> (r: NormalStep)
    ensures
        r == (if order@.len() != visual::handles_of(root@).len() {
            NormalStep::Leave
        } else if publish::structure_matches(order@, splits@, root@, panes@) {
            NormalStep::Keep
        } else {
            NormalStep::Rebuild
        }),
{
    let handles = root.pane_tree_handles();
    assert(text::texts(handles@).len() == handles@.len());
    if order.len() != handles.len() {
        NormalStep::Leave
    } else if publish::tab_structure_matches(order, splits, root, panes) {
        NormalStep::Keep
    } else {
        NormalStep::Rebuild
    }
}

/// The terminals from index `i` on that have a pane, and that pane.
pub open spec fn pooled_from(handles: Seq<Seq<char>>, i: int, panes: Map<Seq<char>, usize>) -> Seq<
    (Seq<char>, usize),
>
    decreases handles.len() - i,
{
    if i < 0 || i >= handles.len() {
        Seq::empty()
    } else if panes.contains_key(handles[i]) {
        seq![(handles[i], panes[handles[i]])] + pooled_from(handles, i + 1, panes)
    } else {
        pooled_from(handles, i + 1, panes)
    }
}

/// The names and numbers of panes.
pub open spec fn pool_models(v: Seq<(String, usize)>) -> Seq<(Seq<char>, usize)> {
    v.map_values(|p: (String, usize)| (p.0@, p.1))
}

/// How a tab is built anew: the panes to take out, which are all but the first, and those that stay
/// in place.
#[derive(Debug)]
pub struct RebuildPlan {
    pub take_out: Vec<(String, usize)>,
    pub keep: TextMap<usize>,
}

/// How a tab that shows a visual tab is built anew.
pub fn rebuild_plan(root: &VisualPaneNode, panes: &TextMap<usize>) -> (r: RebuildPlan)
    ensures
        ({
            let handles = visual::handles_of(root@);
            let first = visual::leftmost_of(root@);
            &&& pool_models(r.take_out@) == pooled_from(handles, 1, panes@)
            &&& r.keep@ == (if panes@.contains_key(first) {
                map![first => panes@[first]]
            } else {
                Map::empty()
            })
        }),
{
    let handles = root.pane_tree_handles();
    let ghost all = visual::handles_of(root@);
    let mut take_out: Vec<(String, usize)> = Vec::new();
    let mut i: usize = 1;
    proof {
        visual::splits_join_the_terminals(root@);
        assert(handles@.len() == all.len());
    }
    assert(pool_models(take_out@) + pooled_from(all, 1, panes@) == pooled_from(all, 1, panes@));
    while i < handles.len()
        invariant
            1 <= i <= handles@.len(),
            all == text::texts(handles@),
            pool_models(take_out@) + pooled_from(all, i as int, panes@) == pooled_from(
                all,
                1,
                panes@,
            ),
        decreases handles@.len() - i,
    {
        let handle = handles[i].as_str();
        assert(all[i as int] == handle@);
        let ghost before = pool_models(take_out@);
        if let Some(pane) = panes.get(handle) {
            let entry = (handle.to_owned(), *pane);
            take_out.push(entry);
            let ghost rest = pooled_from(all, i + 1, panes@);
            assert(pool_models(take_out@) =~= before.push((handle@, *pane)));
            assert(before + (seq![(handle@, *pane)] + rest) == pool_models(take_out@) + rest);
        }
        i += 1;
    }
    assert(pool_models(take_out@) + Seq::<(Seq<char>, usize)>::empty() == pool_models(take_out@));
    let first = root.leftmost_terminal();
    let mut keep: TextMap<usize> = TextMap::new();
    if let Some(pane) = panes.get(first) {
        keep.insert(first, *pane);
        assert(keep@ =~= map![first@ => *pane]);
    }
    RebuildPlan { take_out, keep }
}

/// Whether a visual tab is shown when the domain is attached: it has terminals, and each of them can
/// be followed and is not followed yet.
pub fn attaches_whole(
    handles: &[String],
    summaries: &TextMap<TerminalSummary>,
    attached: &TextSet,
) -> (r: bool)
    ensures
        r == attach::shown_whole(text::texts(handles@), summaries@, attached@),
{
    let ghost all = text::texts(handles@);
    if handles.len() == 0 {
        return false;
    }
    let mut i: usize = 0;
    while i < handles.len()
        invariant
            i <= handles@.len(),
            all == text::texts(handles@),
            forall|j: int|
                0 <= j < i ==> is_attachable(summaries@, #[trigger] all[j])
                    && !attached@.contains(all[j]),
        decreases handles@.len() - i,
    {
        assert(all[i as int] == handles@[i as int]@);
        if !attachable(summaries, handles[i].as_str()) || attached.contains(handles[i].as_str()) {
            assert(!(is_attachable(summaries@, all[i as int]) && !attached@.contains(
                all[i as int],
            )));
            return false;
        }
        i += 1;
    }
    true
}

/// The directory and the handle of a terminal, by which those that no visual tab shows are ordered.
pub open spec fn leftover_key(
    summaries: Map<Seq<char>, TerminalSummary>,
    handle: Seq<char>,
) -> (Seq<char>, Seq<char>) {
    (summaries[handle].worktree_path@, handle)
}

/// Whether `handles` are those of the terminals, each once, by directory and handle.
pub open spec fn are_leftovers(
    handles: Seq<Seq<char>>,
    summaries: Map<Seq<char>, TerminalSummary>,
) -> bool {
    &&& handles.no_duplicates()
    &&& forall|h: Seq<char>| summaries.contains_key(h) <==> #[trigger] handles.contains(h)
    &&& forall|i: int, j: int|
        0 <= i < j < handles.len() ==> !order::pair_precedes(
            leftover_key(summaries, #[trigger] handles[j]),
            leftover_key(summaries, #[trigger] handles[i]),
        )
}

/// The handles of the terminals that no visual tab shows, by directory and handle.
pub fn leftover_handles(summaries: &TextMap<TerminalSummary>) -> (r: Vec<String>)
    ensures
        are_leftovers(text::texts(r@), summaries@),
{
    let handles = summaries.keys();
    let ghost listed = text::texts(handles@);
    let mut keys: Vec<(String, String)> = Vec::new();
    let mut i: usize = 0;
    while i < handles.len()
        invariant
            i <= handles@.len(),
            keys@.len() == i,
            listed == text::texts(handles@),
            forall|h: Seq<char>| summaries@.contains_key(h) <==> #[trigger] listed.contains(h),
            forall|j: int|
                0 <= j < i ==> #[trigger] order::pair_texts(keys@)[j] == leftover_key(
                    summaries@,
                    listed[j],
                ),
        decreases handles@.len() - i,
    {
        let handle = handles[i].as_str();
        assert(listed[i as int] == handle@);
        assert(listed.contains(handle@));
        let ghost before = order::pair_texts(keys@);
        let path = match summaries.get(handle) {
            Some(summary) => summary.worktree_path.clone(),
            None => "".to_owned(),
        };
        keys.push((path, handle.to_owned()));
        let ghost after = order::pair_texts(keys@);
        assert(forall|j: int| 0 <= j < i ==> #[trigger] after[j] == before[j]);
        i += 1;
    }
    let by = order::sorted_order(&keys);
    let ghost all_keys = order::pair_texts(keys@);
    let mut out: Vec<String> = Vec::new();
    let mut k: usize = 0;
    while k < by.len()
        invariant
            k <= by@.len(),
            listed == text::texts(handles@),
            all_keys == order::pair_texts(keys@),
            keys@.len() == handles@.len(),
            order::is_order_of(by@, all_keys),
            text::texts(out@) == Seq::new(k as nat, |i: int| listed[by@[i] as int]),
        decreases by@.len() - k,
    {
        assert(by@[k as int] < all_keys.len());
        let at: usize = by[k];
        let ghost before = text::texts(out@);
        assert(listed[at as int] == handles@[at as int]@);
        text::push_text(&mut out, handles[at].as_str());
        assert(text::texts(out@) =~= Seq::new((k + 1) as nat, |i: int| listed[by@[i] as int]));
        k += 1;
    }
    proof {
        let all = text::texts(out@);
        assert forall|i: int, j: int| 0 <= i < all.len() && 0 <= j < all.len() && i != j implies all[i]
            != all[j] by {
            assert(by@[i] != by@[j]);
            assert(by@[i] < all_keys.len() && by@[j] < all_keys.len());
            assert(all[i] == listed[by@[i] as int] && all[j] == listed[by@[j] as int]);
        }
        assert forall|h: Seq<char>| summaries@.contains_key(h) <==> #[trigger] all.contains(h) by {
            if all.contains(h) {
                let i = choose|i: int| 0 <= i < all.len() && all[i] == h;
                assert(by@[i] < all_keys.len());
                assert(listed[by@[i] as int] == h);
                assert(listed.contains(h));
            }
            if summaries@.contains_key(h) {
                assert(listed.contains(h));
                let m = choose|m: int| 0 <= m < listed.len() && listed[m] == h;
                order::order_reaches_all(by@, all_keys, m);
                let i = choose|i: int| 0 <= i < by@.len() && by@[i] == m;
                assert(all[i] == h);
            }
        }
        assert forall|i: int, j: int| 0 <= i < j < all.len() implies !order::pair_precedes(
            leftover_key(summaries@, #[trigger] all[j]),
            leftover_key(summaries@, #[trigger] all[i]),
        ) by {
            assert(by@[i] < all_keys.len() && by@[j] < all_keys.len());
            assert(all_keys[by@[i] as int] == leftover_key(summaries@, all[i]));
            assert(all_keys[by@[j] as int] == leftover_key(summaries@, all[j]));
        }
    }
    out
}

/// The indices of visual layouts by the directory of their worktree, those of one directory in their
/// own order.
pub fn layout_order(paths: &[String]) -> (r: Vec<usize>)
    ensures
        order::is_order_of(
            r@,
            Seq::new(paths@.len(), |i: int| (paths@[i]@, Seq::<char>::empty())),
        ),
{
    let mut keys: Vec<(String, String)> = Vec::new();
    let mut i: usize = 0;
    while i < paths.len()
        invariant
            i <= paths@.len(),
            order::pair_texts(keys@) == Seq::new(
                i as nat,
                |j: int| (paths@[j]@, Seq::<char>::empty()),
            ),
        decreases paths@.len() - i,
    {
        let path = paths[i].clone();
        let none = String::new();
        let ghost before = order::pair_texts(keys@);
        assert(none@ == Seq::<char>::empty());
        keys.push((path, none));
        assert(order::pair_texts(keys@) =~= before.push((paths@[i as int]@, Seq::<char>::empty())));
        assert(order::pair_texts(keys@) =~= Seq::new(
            (i + 1) as nat,
            |j: int| (paths@[j]@, Seq::<char>::empty()),
        ));
        i += 1;
    }
    order::sorted_order(&keys)
}

/// What is known of a terminal is what the hub listed last under its handle.
pub proof fn summaries_are_those_listed(list: Seq<TerminalSummary>, n: int, handle: Seq<char>)
    requires
        0 <= n <= list.len(),
    ensures
        if by_handle(list, n).contains_key(handle) {
            exists|k: int|
                0 <= k < n && (#[trigger] list[k]).handle@ == handle && by_handle(list, n)[handle]
                    == list[k] && forall|j: int| k < j < n ==> (#[trigger] list[j]).handle@ != handle
        } else {
            forall|j: int| 0 <= j < n ==> (#[trigger] list[j]).handle@ != handle
        },
    decreases n,
{
    if n > 0 {
        summaries_are_those_listed(list, n - 1, handle);
        let before = by_handle(list, n - 1);
        if list[n - 1].handle@ == handle {
            assert(by_handle(list, n)[handle] == list[n - 1]);
        } else if before.contains_key(handle) {
            let k = choose|k: int|
                0 <= k < n - 1 && (#[trigger] list[k]).handle@ == handle && before[handle] == list[k]
                    && forall|j: int| k < j < n - 1 ==> (#[trigger] list[j]).handle@ != handle;
            assert(list[k].handle@ == handle);
        }
    }
}

/// A pane that was taken out is used again, else one that shows the terminal already. Only a terminal
/// that no pane shows, that runs and that belongs to a worktree gets a new pane, and only one that
/// has none yet.
pub proof fn panes_are_used_before_new_ones(
    handle: Seq<char>,
    pool: Set<Seq<char>>,
    live: Map<Seq<char>, usize>,
    summaries: Map<Seq<char>, TerminalSummary>,
    attached: Set<Seq<char>>,
)
    ensures
        ({
            let source = source_of(handle, pool, live, summaries, attached);
            let runs = summaries.contains_key(handle) && summaries[handle].pty_id is Some
                && !summaries[handle].orphaned;
            &&& pool.contains(handle) <==> source is Pooled
            &&& source matches PaneSource::Live(id) ==> live.contains_pair(handle, id)
            &&& live.contains_key(handle) && !pool.contains(handle) ==> source is Live
            &&& source is Attach <==> !pool.contains(handle) && !live.contains_key(handle) && runs
                && !attached.contains(handle)
            &&& source is Missing ==> !pool.contains(handle) && !live.contains_key(handle)
        }),
{
}

/// The next split to make is the first, from the given one on, whose new pane is not there yet while
/// the pane that it is taken from is.
pub proof fn the_next_split_is_the_first(
    ops: Seq<SplitOpModel>,
    i: int,
    panes: Map<Seq<char>, usize>,
)
    requires
        0 <= i <= ops.len(),
    ensures
        ({
            let k = next_op(ops, i, panes);
            &&& i <= k <= ops.len()
            &&& k < ops.len() ==> !panes.contains_key(ops[k].insert) && panes.contains_key(
                ops[k].split_from,
            )
            &&& forall|j: int|
                i <= j < k ==> panes.contains_key((#[trigger] ops[j]).insert)
                    || !panes.contains_key(ops[j].split_from)
        }),
    decreases ops.len() - i,
{
    if i < ops.len() && !(!panes.contains_key(ops[i].insert) && panes.contains_key(
        ops[i].split_from,
    )) {
        the_next_split_is_the_first(ops, i + 1, panes);
    }
}

proof fn lemma_member_tabs(
    handles: Seq<Seq<char>>,
    live: Map<Seq<char>, usize>,
    tabs: Seq<Option<usize>>,
    n: int,
)
    requires
        0 <= n <= handles.len(),
        handles.len() == tabs.len(),
    ensures
        member_tabs(handles, live, tabs, n) == lists::picked(
            handles.zip_with(tabs).take(n),
            |p: (Seq<char>, Option<usize>)|
                if live.contains_key(p.0) {
                    p.1
                } else {
                    None
                },
        ),
    decreases n,
{
    let all = handles.zip_with(tabs);
    let f = |p: (Seq<char>, Option<usize>)|
        if live.contains_key(p.0) {
            p.1
        } else {
            None
        };
    if n > 0 {
        lemma_member_tabs(handles, live, tabs, n - 1);
        lists::lemma_picked_back(all, n, f);
    } else {
        assert(all.take(0) == Seq::<(Seq<char>, Option<usize>)>::empty());
        lists::lemma_picked_empty(f);
    }
}

/// The tabs that show a tab of the hub are those in which its terminals are shown, once for each
/// terminal, in the order of the hub.
pub proof fn each_shown_terminal_has_its_tab(
    handles: Seq<Seq<char>>,
    live: Map<Seq<char>, usize>,
    tabs: Seq<Option<usize>>,
)
    requires
        handles.len() == tabs.len(),
    ensures
        member_tabs(handles, live, tabs, handles.len() as int) == lists::picked(
            handles.zip_with(tabs),
            |p: (Seq<char>, Option<usize>)|
                if live.contains_key(p.0) {
                    p.1
                } else {
                    None
                },
        ),
{
    lemma_member_tabs(handles, live, tabs, handles.len() as int);
    assert(handles.zip_with(tabs).take(handles.len() as int) == handles.zip_with(tabs));
}

/// The panes of a tab of the screen are those of the terminals that are shown in it, each with the pane
/// that shows it.
pub proof fn panes_of_a_tab_are_those_in_it(
    handles: Seq<Seq<char>>,
    live: Map<Seq<char>, usize>,
    tabs: Seq<Option<usize>>,
    id: usize,
    n: int,
    h: Seq<char>,
)
    requires
        0 <= n <= handles.len(),
        handles.len() == tabs.len(),
    ensures
        panes_in_tab(handles, live, tabs, id, n).contains_key(h) <==> live.contains_key(h)
            && exists|i: int| 0 <= i < n && #[trigger] handles[i] == h && tabs[i] == Some(id),
        panes_in_tab(handles, live, tabs, id, n).contains_key(h) ==> panes_in_tab(
            handles,
            live,
            tabs,
            id,
            n,
        )[h] == live[h],
    decreases n,
{
    if n > 0 {
        panes_of_a_tab_are_those_in_it(handles, live, tabs, id, n - 1, h);
        if handles[n - 1] == h && tabs[n - 1] == Some(id) {
            assert(exists|i: int| 0 <= i < n && #[trigger] handles[i] == h && tabs[i] == Some(id));
        }
    }
}

proof fn lemma_pooled_from(handles: Seq<Seq<char>>, i: int, panes: Map<Seq<char>, usize>)
    requires
        0 <= i <= handles.len(),
    ensures
        pooled_from(handles, i, panes) == lists::picked(
            handles.skip(i),
            |h: Seq<char>|
                if panes.contains_key(h) {
                    Some((h, panes[h]))
                } else {
                    None
                },
        ),
    decreases handles.len() - i,
{
    let f = |h: Seq<char>|
        if panes.contains_key(h) {
            Some((h, panes[h]))
        } else {
            None
        };
    if i < handles.len() {
        lemma_pooled_from(handles, i + 1, panes);
        lists::lemma_picked_front(handles, i, f);
    } else {
        assert(handles.skip(i) == Seq::<Seq<char>>::empty());
        lists::lemma_picked_empty(f);
    }
}

/// All panes but the first are taken out of a tab that is rebuilt, in the order of the hub.
pub proof fn all_other_panes_are_taken_out(
    handles: Seq<Seq<char>>,
    i: int,
    panes: Map<Seq<char>, usize>,
)
    requires
        0 <= i <= handles.len(),
    ensures
        pooled_from(handles, i, panes) == lists::picked(
            handles.skip(i),
            |h: Seq<char>|
                if panes.contains_key(h) {
                    Some((h, panes[h]))
                } else {
                    None
                },
        ),
{
    lemma_pooled_from(handles, i, panes);
}

/// What is left over stands by the path of its worktree, and under one path by its handle.
pub proof fn leftovers_stand_by_path(
    handles: Seq<Seq<char>>,
    summaries: Map<Seq<char>, TerminalSummary>,
    i: int,
    j: int,
)
    requires
        are_leftovers(handles, summaries),
        0 <= i < j < handles.len(),
    ensures
        summaries.contains_key(handles[i]) && summaries.contains_key(handles[j]),
        ({
            let a = summaries[handles[i]].worktree_path@;
            let b = summaries[handles[j]].worktree_path@;
            order::precedes(a, b) || (a == b && order::precedes(handles[i], handles[j]))
        }),
{
    let a = summaries[handles[i]].worktree_path@;
    let b = summaries[handles[j]].worktree_path@;
    assert(handles.contains(handles[i]) && handles.contains(handles[j]));
    assert(!order::pair_precedes(
        leftover_key(summaries, handles[j]),
        leftover_key(summaries, handles[i]),
    ));
    order::precedence_is_total(a, b);
    order::precedence_is_total(handles[i], handles[j]);
    assert(handles[i] != handles[j]);
}

/// A terminal needs a new pane just where none shows it, none was made for it, it runs, and it belongs
/// to a worktree.
pub proof fn new_panes_are_for_new_terminals(
    handle: Seq<char>,
    live: Map<Seq<char>, usize>,
    summaries: Map<Seq<char>, TerminalSummary>,
    attached: Set<Seq<char>>,
)
    ensures
        is_new(handle, live, summaries, attached) <==> {
            &&& !live.contains_key(handle) && !attached.contains(handle)
            &&& summaries.contains_key(handle) && summaries[handle].pty_id is Some
                && !summaries[handle].orphaned
        },
        is_new(handle, live, summaries, attached) <==> source_of(
            handle,
            Set::empty(),
            live,
            summaries,
            attached,
        ) is Attach,
{
}

/// A tab of the hub stands in one tab of the screen just where each of its terminals is shown there.
pub proof fn whole_tabs_stand_in_one(
    handles: Seq<Seq<char>>,
    live: Map<Seq<char>, usize>,
    tabs: Seq<Option<usize>>,
    id: usize,
)
    requires
        handles.len() == tabs.len(),
    ensures
        all_in_tab(handles, live, tabs, id) <==> {
            &&& forall|h: Seq<char>| #[trigger] handles.contains(h) ==> live.contains_key(h)
            &&& forall|i: int| 0 <= i < tabs.len() ==> #[trigger] tabs[i] == Some(id)
        },
{
    if all_in_tab(handles, live, tabs, id) {
        assert forall|h: Seq<char>| #[trigger] handles.contains(h) implies live.contains_key(h) by {
            let i = choose|i: int| 0 <= i < handles.len() && handles[i] == h;
            assert(live.contains_key(handles[i]));
        }
        assert forall|i: int| 0 <= i < tabs.len() implies #[trigger] tabs[i] == Some(id) by {
            assert(live.contains_key(handles[i]));
        }
    }
    if (forall|h: Seq<char>| #[trigger] handles.contains(h) ==> live.contains_key(h)) && (forall|
        i: int,
    |
        0 <= i < tabs.len() ==> #[trigger] tabs[i] == Some(id)) {
        assert forall|i: int| 0 <= i < handles.len() implies live.contains_key(
            #[trigger] handles[i],
        ) && tabs[i] == Some(id) by {
            assert(handles.contains(handles[i]));
        }
    }
}

/// What is left over is every terminal that is known, each once.
pub proof fn leftovers_are_all_that_is_known(
    handles: Seq<Seq<char>>,
    summaries: Map<Seq<char>, TerminalSummary>,
    h: Seq<char>,
)
    requires
        are_leftovers(handles, summaries),
    ensures
        handles.contains(h) <==> summaries.contains_key(h),
        handles.no_duplicates(),
{
}

/// What a list says, it says item by item: each stands in its place, and none is added or left out.
pub proof fn items_keep_their_places(v: Seq<(String, usize)>, i: int)
    ensures
        pool_models(v).len() == v.len(),
        0 <= i < v.len() ==> pool_models(v)[i] == (v[i].0@, v[i].1),
{
}

} // verus!
