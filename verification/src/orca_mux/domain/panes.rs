//! The panes of the screen that belong to a domain.
use crate::collections::TextMap;
use crate::lists;
use crate::text;
use vstd::prelude::*;

verus! {

/// A pane of the screen: its domain, the visual tab that it shows and the terminal that it follows,
/// where it is one of a hub, and whether it waits for that terminal.
#[derive(Debug)]
pub struct ScreenPane {
    pub domain_id: usize,
    pub pane_id: usize,
    pub parent_tab_id: Option<String>,
    pub terminal: Option<String>,
    pub held: bool,
}

/// What a [`ScreenPane`] says.
#[verifier::ext_equal]
pub struct ScreenPaneModel {
    pub domain_id: usize,
    pub pane_id: usize,
    pub parent_tab_id: Option<Seq<char>>,
    pub terminal: Option<Seq<char>>,
    pub held: bool,
}

impl View for ScreenPane {
    type V = ScreenPaneModel;

    open spec fn view(&self) -> ScreenPaneModel {
        ScreenPaneModel {
            domain_id: self.domain_id,
            pane_id: self.pane_id,
            parent_tab_id: text::opt_text(self.parent_tab_id),
            terminal: text::opt_text(self.terminal),
            held: self.held,
        }
    }
}

/// The models of panes.
pub open spec fn screen_models(v: Seq<ScreenPane>) -> Seq<ScreenPaneModel> {
    v.map_values(|p: ScreenPane| p@)
}

/// The first pane of the domain from index `i` on that shows the visual tab.
pub open spec fn first_showing(
    panes: Seq<ScreenPaneModel>,
    i: int,
    domain_id: usize,
    parent: Seq<char>,
) -> Option<usize>
    decreases panes.len() - i,
{
    if i < 0 || i >= panes.len() {
        None
    } else if panes[i].domain_id == domain_id && panes[i].parent_tab_id == Some(parent) {
        Some(panes[i].pane_id)
    } else {
        first_showing(panes, i + 1, domain_id, parent)
    }
}

fn is_text(s: &Option<String>, t: &str) -> (r: bool)
    ensures
        r == (text::opt_text(*s) == Some(t@)),
{
    match s {
        Some(s) => text::same(s.as_str(), t),
        None => false,
    }
}

/// A pane of the domain that shows the visual tab.
pub fn pane_of_parent(panes: &[ScreenPane], domain_id: usize, parent: &str) -> (r: Option<usize>)
    ensures
        r == first_showing(screen_models(panes@), 0, domain_id, parent@),
{
    let ghost all = screen_models(panes@);
    let mut i: usize = 0;
    while i < panes.len()
        invariant
            i <= panes@.len(),
            all == screen_models(panes@),
            first_showing(all, 0, domain_id, parent@) == first_showing(
                all,
                i as int,
                domain_id,
                parent@,
            ),
        decreases panes@.len() - i,
    {
        assert(all[i as int] == panes@[i as int]@);
        if panes[i].domain_id == domain_id && is_text(&panes[i].parent_tab_id, parent) {
            return Some(panes[i].pane_id);
        }
        i += 1;
    }
    None
}

/// The panes of the domain from index `i` on.
pub open spec fn domain_from(panes: Seq<ScreenPaneModel>, i: int, domain_id: usize) -> Seq<usize>
    decreases panes.len() - i,
{
    if i < 0 || i >= panes.len() {
        Seq::empty()
    } else if panes[i].domain_id == domain_id {
        seq![panes[i].pane_id] + domain_from(panes, i + 1, domain_id)
    } else {
        domain_from(panes, i + 1, domain_id)
    }
}

/// The panes of the domain.
pub fn panes_of_domain(panes: &[ScreenPane], domain_id: usize) -> (r: Vec<usize>)
    ensures
        r@ == domain_from(screen_models(panes@), 0, domain_id),
{
    let ghost all = screen_models(panes@);
    let mut out: Vec<usize> = Vec::new();
    let mut i: usize = 0;
    assert(out@ + domain_from(all, 0, domain_id) == domain_from(all, 0, domain_id));
    while i < panes.len()
        invariant
            i <= panes@.len(),
            all == screen_models(panes@),
            out@ + domain_from(all, i as int, domain_id) == domain_from(all, 0, domain_id),
        decreases panes@.len() - i,
    {
        assert(all[i as int] == panes@[i as int]@);
        let ghost before = out@;
        if panes[i].domain_id == domain_id {
            let id: usize = panes[i].pane_id;
            out.push(id);
            let ghost rest = domain_from(all, i + 1, domain_id);
            assert(before + (seq![id] + rest) == out@ + rest);
        }
        i += 1;
    }
    assert(out@ + Seq::<usize>::empty() == out@);
    out
}

/// The panes of the domain from index `i` on that show one of the visual tabs.
pub open spec fn group_from(
    panes: Seq<ScreenPaneModel>,
    i: int,
    domain_id: usize,
    parents: Seq<Seq<char>>,
) -> Seq<usize>
    decreases panes.len() - i,
{
    if i < 0 || i >= panes.len() {
        Seq::empty()
    } else if panes[i].domain_id == domain_id && (panes[i].parent_tab_id matches Some(parent)
        && parents.contains(parent)) {
        seq![panes[i].pane_id] + group_from(panes, i + 1, domain_id, parents)
    } else {
        group_from(panes, i + 1, domain_id, parents)
    }
}

fn is_one_of(s: &Option<String>, all: &[String]) -> (r: bool)
    ensures
        r == (text::opt_text(*s) matches Some(t) && text::texts(all@).contains(t)),
{
    let name = match s {
        Some(name) => name.as_str(),
        None => return false,
    };
    let ghost wanted = text::texts(all@);
    let mut i: usize = 0;
    while i < all.len()
        invariant
            i <= all@.len(),
            wanted == text::texts(all@),
            text::opt_text(*s) == Some(name@),
            forall|j: int| 0 <= j < i ==> wanted[j] != name@,
        decreases all@.len() - i,
    {
        assert(wanted[i as int] == all@[i as int]@);
        if text::same(all[i].as_str(), name) {
            return true;
        }
        i += 1;
    }
    false
}

/// The panes of the domain that show one of the visual tabs.
pub fn panes_of_group(panes: &[ScreenPane], domain_id: usize, parents: &[String]) -> (r: Vec<usize>)
    ensures
        r@ == group_from(screen_models(panes@), 0, domain_id, text::texts(parents@)),
{
    let ghost all = screen_models(panes@);
    let ghost group = text::texts(parents@);
    let mut out: Vec<usize> = Vec::new();
    let mut i: usize = 0;
    assert(out@ + group_from(all, 0, domain_id, group) == group_from(all, 0, domain_id, group));
    while i < panes.len()
        invariant
            i <= panes@.len(),
            all == screen_models(panes@),
            group == text::texts(parents@),
            out@ + group_from(all, i as int, domain_id, group) == group_from(
                all,
                0,
                domain_id,
                group,
            ),
        decreases panes@.len() - i,
    {
        assert(all[i as int] == panes@[i as int]@);
        let ghost before = out@;
        if panes[i].domain_id == domain_id && is_one_of(&panes[i].parent_tab_id, parents) {
            let id: usize = panes[i].pane_id;
            out.push(id);
            let ghost rest = group_from(all, i + 1, domain_id, group);
            assert(before + (seq![id] + rest) == out@ + rest);
        }
        i += 1;
    }
    assert(out@ + Seq::<usize>::empty() == out@);
    out
}

/// The pane of each terminal among the first `n` panes, where it is one of the domain.
pub open spec fn live_among(panes: Seq<ScreenPaneModel>, n: int, domain_id: usize) -> Map<
    Seq<char>,
    usize,
>
    decreases n,
{
    if n <= 0 {
        Map::empty()
    } else {
        let before = live_among(panes, n - 1, domain_id);
        match panes[n - 1].terminal {
            Some(terminal) if panes[n - 1].domain_id == domain_id => before.insert(
                terminal,
                panes[n - 1].pane_id,
            ),
            _ => before,
        }
    }
}

/// The pane of each terminal of the domain that is on the screen.
pub fn live_panes(panes: &[ScreenPane], domain_id: usize) -> (r: TextMap<usize>)
    ensures
        r@ == live_among(screen_models(panes@), panes@.len() as int, domain_id),
{
    let ghost all = screen_models(panes@);
    let mut out: TextMap<usize> = TextMap::new();
    let mut i: usize = 0;
    while i < panes.len()
        invariant
            i <= panes@.len(),
            all == screen_models(panes@),
            out@ == live_among(all, i as int, domain_id),
        decreases panes@.len() - i,
    {
        assert(all[i as int] == panes@[i as int]@);
        if panes[i].domain_id == domain_id {
            if let Some(terminal) = &panes[i].terminal {
                out.insert(terminal.as_str(), panes[i].pane_id);
            }
        }
        i += 1;
    }
    out
}

/// Whether a pane of the domain waits for its terminal.
pub fn any_held(panes: &[ScreenPane], domain_id: usize) -> (r: bool)
    ensures
        r == exists|i: int|
            0 <= i < panes@.len() && (#[trigger] panes@[i]).domain_id == domain_id && panes@[i].held,
{
    let mut i: usize = 0;
    while i < panes.len()
        invariant
            i <= panes@.len(),
            forall|j: int|
                0 <= j < i ==> !((#[trigger] panes@[j]).domain_id == domain_id && panes@[j].held),
        decreases panes@.len() - i,
    {
        if panes[i].domain_id == domain_id && panes[i].held {
            return true;
        }
        i += 1;
    }
    false
}

/// The pane that stands for a tab of the hub is the first one that shows it.
pub proof fn the_first_pane_stands_for_a_tab(
    panes: Seq<ScreenPaneModel>,
    i: int,
    domain_id: usize,
    parent: Seq<char>,
)
    requires
        0 <= i <= panes.len(),
    ensures
        match first_showing(panes, i, domain_id, parent) {
            Some(id) => exists|k: int|
                i <= k < panes.len() && (#[trigger] panes[k]).pane_id == id && panes[k].domain_id
                    == domain_id && panes[k].parent_tab_id == Some(parent) && forall|j: int|
                    i <= j < k ==> (#[trigger] panes[j]).domain_id != domain_id
                        || panes[j].parent_tab_id != Some(parent),
            None => forall|j: int|
                i <= j < panes.len() ==> (#[trigger] panes[j]).domain_id != domain_id
                    || panes[j].parent_tab_id != Some(parent),
        },
    decreases panes.len() - i,
{
    if i < panes.len() && !(panes[i].domain_id == domain_id && panes[i].parent_tab_id == Some(
        parent,
    )) {
        the_first_pane_stands_for_a_tab(panes, i + 1, domain_id, parent);
    }
}

proof fn lemma_domain_from(panes: Seq<ScreenPaneModel>, i: int, domain_id: usize)
    requires
        0 <= i <= panes.len(),
    ensures
        domain_from(panes, i, domain_id) == lists::picked(
            panes.skip(i),
            |p: ScreenPaneModel|
                if p.domain_id == domain_id {
                    Some(p.pane_id)
                } else {
                    None
                },
        ),
    decreases panes.len() - i,
{
    let f = |p: ScreenPaneModel|
        if p.domain_id == domain_id {
            Some(p.pane_id)
        } else {
            None
        };
    if i < panes.len() {
        lemma_domain_from(panes, i + 1, domain_id);
        lists::lemma_picked_front(panes, i, f);
    } else {
        assert(panes.skip(i) == Seq::<ScreenPaneModel>::empty());
        lists::lemma_picked_empty(f);
    }
}

/// The panes of a domain are all that belong to it, in the order of the screen.
pub proof fn a_domain_has_all_its_panes(panes: Seq<ScreenPaneModel>, domain_id: usize)
    ensures
        domain_from(panes, 0, domain_id) == lists::picked(
            panes,
            |p: ScreenPaneModel|
                if p.domain_id == domain_id {
                    Some(p.pane_id)
                } else {
                    None
                },
        ),
{
    lemma_domain_from(panes, 0, domain_id);
    assert(panes.skip(0) == panes);
}

/// The pane, where it belongs to the domain and shows one of the tabs of the hub.
pub open spec fn in_group(
    p: ScreenPaneModel,
    domain_id: usize,
    parents: Seq<Seq<char>>,
) -> Option<usize> {
    if p.domain_id == domain_id && p.parent_tab_id is Some && parents.contains(p.parent_tab_id->0) {
        Some(p.pane_id)
    } else {
        None
    }
}

proof fn lemma_group_from(
    panes: Seq<ScreenPaneModel>,
    i: int,
    domain_id: usize,
    parents: Seq<Seq<char>>,
)
    requires
        0 <= i <= panes.len(),
    ensures
        group_from(panes, i, domain_id, parents) == lists::picked(
            panes.skip(i),
            |p: ScreenPaneModel| in_group(p, domain_id, parents),
        ),
    decreases panes.len() - i,
{
    let f = |p: ScreenPaneModel| in_group(p, domain_id, parents);
    if i < panes.len() {
        lemma_group_from(panes, i + 1, domain_id, parents);
        lists::lemma_picked_front(panes, i, f);
    } else {
        assert(panes.skip(i) == Seq::<ScreenPaneModel>::empty());
        lists::lemma_picked_empty(f);
    }
}

/// The panes of a group are all of the domain that show one of its tabs, in the order of the screen.
pub proof fn a_group_has_all_its_panes(
    panes: Seq<ScreenPaneModel>,
    domain_id: usize,
    parents: Seq<Seq<char>>,
)
    ensures
        group_from(panes, 0, domain_id, parents) == lists::picked(
            panes,
            |p: ScreenPaneModel| in_group(p, domain_id, parents),
        ),
{
    lemma_group_from(panes, 0, domain_id, parents);
    assert(panes.skip(0) == panes);
}

/// The terminals that are shown are those of the panes of the domain, each with the last pane that
/// shows it.
pub proof fn live_panes_are_those_shown(
    panes: Seq<ScreenPaneModel>,
    n: int,
    domain_id: usize,
    terminal: Seq<char>,
)
    requires
        0 <= n <= panes.len(),
    ensures
        ({
            let live = live_among(panes, n, domain_id);
            if live.contains_key(terminal) {
                exists|k: int|
                    0 <= k < n && (#[trigger] panes[k]).domain_id == domain_id && panes[k].terminal
                        == Some(terminal) && live[terminal] == panes[k].pane_id && forall|j: int|
                        k < j < n ==> (#[trigger] panes[j]).domain_id != domain_id
                            || panes[j].terminal != Some(terminal)
            } else {
                forall|j: int|
                    0 <= j < n ==> (#[trigger] panes[j]).domain_id != domain_id || panes[j].terminal
                        != Some(terminal)
            }
        }),
    decreases n,
{
    if n > 0 {
        live_panes_are_those_shown(panes, n - 1, domain_id, terminal);
        let last = panes[n - 1];
        let before = live_among(panes, n - 1, domain_id);
        if last.domain_id == domain_id && last.terminal == Some(terminal) {
            assert(live_among(panes, n, domain_id)[terminal] == panes[n - 1].pane_id);
        } else if before.contains_key(terminal) {
            let k = choose|k: int|
                0 <= k < n - 1 && (#[trigger] panes[k]).domain_id == domain_id && panes[k].terminal
                    == Some(terminal) && before[terminal] == panes[k].pane_id && forall|j: int|
                    k < j < n - 1 ==> (#[trigger] panes[j]).domain_id != domain_id
                        || panes[j].terminal != Some(terminal);
            assert(panes[k].domain_id == domain_id);
        }
    }
}

/// What a list says, it says item by item: each stands in its place, and none is added or left out.
pub proof fn items_keep_their_places(v: Seq<ScreenPane>, i: int)
    ensures
        screen_models(v).len() == v.len(),
        0 <= i < v.len() ==> screen_models(v)[i] == v[i]@,
{
}

} // verus!
