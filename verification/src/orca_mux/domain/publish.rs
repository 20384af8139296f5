//! What a tab of the screen tells the hub: which of its tabs it is, and where its splits stand.
use crate::collections::TextMap;
use crate::orca_mux::domain::visual;
use crate::orca_mux::domain::visual::{PaneLayout, PaneLayoutModel, SplitOp, VisualModel, VisualPaneNode};
use crate::orca_mux::layout::SplitDirection;
use crate::orca_mux::pane::{BindingModel, TerminalBinding};
use crate::text;
use std::collections::HashMap;
use vstd::prelude::*;

verus! {

broadcast use vstd::std_specs::hash::group_hash_axioms;

/// Where a pane stands in its tab, in cells.
#[derive(Clone, Copy, Debug, PartialEq, Eq, Structural)]
pub struct PaneRect {
    pub left: usize,
    pub top: usize,
    pub width: usize,
    pub height: usize,
}

/// Whether the far edges of the rectangle can be computed.
pub open spec fn rect_fits(rect: PaneRect) -> bool {
    rect.left + rect.width <= usize::MAX && rect.top + rect.height <= usize::MAX
}

/// A terminal of the hub that a pane follows.
#[derive(Debug)]
pub struct HubPane {
    pub held: bool,
    pub binding: TerminalBinding,
}

/// A pane of a tab, in the order of the tab. `hub` is there where it follows a terminal of a hub.
#[derive(Debug)]
pub struct PanePlace {
    pub domain_id: usize,
    pub pane_id: usize,
    pub hub: Option<HubPane>,
    pub rect: PaneRect,
}

/// What a [`PanePlace`] says.
#[verifier::ext_equal]
pub struct PlaceModel {
    pub domain_id: usize,
    pub pane_id: usize,
    pub hub: Option<(bool, BindingModel)>,
    pub rect: PaneRect,
}

impl View for PanePlace {
    type V = PlaceModel;

    open spec fn view(&self) -> PlaceModel {
        PlaceModel {
            domain_id: self.domain_id,
            pane_id: self.pane_id,
            hub: match self.hub {
                Some(hub) => Some((hub.held, hub.binding@)),
                None => None,
            },
            rect: self.rect,
        }
    }
}

/// The models of panes.
pub open spec fn place_models(panes: Seq<PanePlace>) -> Seq<PlaceModel> {
    panes.map_values(|p: PanePlace| p@)
}

/// Whether a pane of the domain follows a terminal of the visual tab `parent`, which has a name.
pub open spec fn shows(place: PlaceModel, domain_id: usize, parent: Seq<char>) -> bool {
    place.domain_id == domain_id && parent.len() > 0 && (place.hub matches Some(hub)
        && hub.1.parent_tab_id == parent)
}

/// The visual tab that all panes belong to, and the worktree of the first.
pub open spec fn identity_of(panes: Seq<PlaceModel>, domain_id: usize) -> Option<
    (Seq<char>, Seq<char>),
> {
    if panes.len() > 0 && panes[0].hub is Some {
        let first = (panes[0].hub->0).1;
        if forall|i: int|
            0 <= i < panes.len() ==> shows(#[trigger] panes[i], domain_id, first.parent_tab_id) {
            Some((first.worktree_selector, first.parent_tab_id))
        } else {
            None
        }
    } else {
        None
    }
}

/// The worktree and the visual tab of the hub that a tab shows, where all its panes are of one.
pub fn tab_orca_identity(panes: &[PanePlace], domain_id: usize) -> (r: Option<(String, String)>)
    ensures
        match identity_of(place_models(panes@), domain_id) {
            Some(m) => r matches Some((worktree, parent)) && worktree@ == m.0 && parent@ == m.1,
            None => r is None,
        },
{
    let ghost all = place_models(panes@);
    if panes.len() == 0 {
        return None;
    }
    assert(all[0] == panes@[0]@);
    let first = match &panes[0].hub {
        Some(hub) => &hub.binding,
        None => return None,
    };
    let parent = first.parent_tab_id.as_str();
    let mut i: usize = 0;
    while i < panes.len()
        invariant
            i <= panes@.len(),
            all == place_models(panes@),
            all.len() > 0,
            all[0].hub matches Some(hub) && hub.1 == first@,
            parent@ == first@.parent_tab_id,
            forall|j: int| 0 <= j < i ==> shows(#[trigger] all[j], domain_id, parent@),
        decreases panes@.len() - i,
    {
        assert(all[i as int] == panes@[i as int]@);
        if panes[i].domain_id != domain_id || parent.is_empty() {
            assert(!shows(all[i as int], domain_id, parent@));
            return None;
        }
        match &panes[i].hub {
            Some(hub) if text::same(hub.binding.parent_tab_id.as_str(), parent) => {},
            _ => {
                assert(!shows(all[i as int], domain_id, parent@));
                return None;
            },
        }
        i += 1;
    }
    Some((first.worktree_selector.clone(), parent.to_owned()))
}

/// A tab of the screen whose layout is told to the hub.
#[derive(Debug)]
pub struct PublishTarget {
    pub worktree: String,
    pub parent_tab_id: String,
    pub leaf_panes: TextMap<usize>,
    pub rects: HashMap<usize, PaneRect>,
    pub pane_order: Vec<usize>,
    pub split_directions: Vec<SplitDirection>,
}

/// Whether a pane lets the layout of its tab be told: it shows a named leaf and does not wait.
pub open spec fn is_publishable(place: PlaceModel) -> bool {
    place.hub matches Some(hub) && !hub.0 && hub.1.leaf_id.len() > 0
}

/// The pane of each leaf among the first `n` panes.
pub open spec fn panes_by_leaf(panes: Seq<PlaceModel>, n: int) -> Map<Seq<char>, usize>
    decreases n,
{
    if n <= 0 {
        Map::empty()
    } else {
        panes_by_leaf(panes, n - 1).insert((panes[n - 1].hub->0).1.leaf_id, panes[n - 1].pane_id)
    }
}

/// The place of each pane among the first `n` panes.
pub open spec fn rects_by_pane(panes: Seq<PlaceModel>, n: int) -> Map<usize, PaneRect>
    decreases n,
{
    if n <= 0 {
        Map::empty()
    } else {
        rects_by_pane(panes, n - 1).insert(panes[n - 1].pane_id, panes[n - 1].rect)
    }
}

/// Whether the layout of a tab with these panes is told to the hub: there are at least two, and all
/// of them show named leaves of one visual tab and wait for nothing.
pub open spec fn is_published(panes: Seq<PlaceModel>, domain_id: usize) -> bool {
    panes.len() >= 2 && identity_of(panes, domain_id) is Some && (forall|i: int|
        0 <= i < panes.len() ==> is_publishable(#[trigger] panes[i]))
}

/// The tab whose layout is told to the hub, where it is.
pub fn publish_target(
    panes: &[PanePlace],
    split_directions: Vec<SplitDirection>,
    domain_id: usize,
) -> (r: Option<PublishTarget>)
    ensures
        ({
            let all = place_models(panes@);
            if is_published(all, domain_id) {
                r matches Some(target) && target.worktree@ == (identity_of(all, domain_id)->0).0
                    && target.parent_tab_id@ == (identity_of(all, domain_id)->0).1
                    && target.leaf_panes@ == panes_by_leaf(all, all.len() as int)
                    && target.rects@ == rects_by_pane(all, all.len() as int)
                    && target.pane_order@ == all.map_values(|p: PlaceModel| p.pane_id)
                    && target.split_directions@ == split_directions@
            } else {
                r is None
            }
        }),
{
    let ghost all = place_models(panes@);
    if panes.len() < 2 {
        return None;
    }
    let (worktree, parent_tab_id) = match tab_orca_identity(panes, domain_id) {
        Some(identity) => identity,
        None => return None,
    };
    let mut leaf_panes: TextMap<usize> = TextMap::new();
    let mut rects: HashMap<usize, PaneRect> = HashMap::new();
    let mut pane_order: Vec<usize> = Vec::new();
    let mut i: usize = 0;
    while i < panes.len()
        invariant
            i <= panes@.len(),
            all == place_models(panes@),
            leaf_panes@ == panes_by_leaf(all, i as int),
            rects@ == rects_by_pane(all, i as int),
            pane_order@ == Seq::new(i as nat, |j: int| all[j].pane_id),
            forall|j: int| 0 <= j < i ==> is_publishable(#[trigger] all[j]),
        decreases panes@.len() - i,
    {
        assert(all[i as int] == panes@[i as int]@);
        let binding = match &panes[i].hub {
            Some(hub) if !hub.held && !hub.binding.leaf_id.as_str().is_empty() => &hub.binding,
            _ => {
                assert(!is_publishable(all[i as int]));
                return None;
            },
        };
        let pane_id: usize = panes[i].pane_id;
        leaf_panes.insert(binding.leaf_id.as_str(), pane_id);
        rects.insert(pane_id, panes[i].rect);
        pane_order.push(pane_id);
        assert(Seq::new((i + 1) as nat, |j: int| all[j].pane_id) =~= Seq::new(
            i as nat,
            |j: int| all[j].pane_id,
        ).push(pane_id));
        i += 1;
    }
    assert(pane_order@ =~= all.map_values(|p: PlaceModel| p.pane_id));
    Some(
        PublishTarget {
            worktree,
            parent_tab_id,
            leaf_panes,
            rects,
            pane_order,
            split_directions,
        },
    )
}

/// Whether the panes are those of the names, in their order.
pub open spec fn panes_match(
    names: Seq<Seq<char>>,
    panes: Map<Seq<char>, usize>,
    order: Seq<usize>,
) -> bool {
    names.len() == order.len() && forall|i: int|
        0 <= i < names.len() ==> panes.contains_key(#[trigger] names[i]) && panes[names[i]]
            == order[i]
}

/// Whether the panes are those of the names, in their order.
fn panes_are(names: &[String], panes: &TextMap<usize>, order: &[usize]) -> (r: bool)
    ensures
        r == panes_match(text::texts(names@), panes@, order@),
{
    let ghost all = text::texts(names@);
    if names.len() != order.len() {
        return false;
    }
    let mut i: usize = 0;
    while i < names.len()
        invariant
            i <= names@.len(),
            names@.len() == order@.len(),
            all == text::texts(names@),
            forall|j: int|
                0 <= j < i ==> panes@.contains_key(#[trigger] all[j]) && panes@[all[j]]
                    == order@[j],
        decreases names@.len() - i,
    {
        assert(all[i as int] == names@[i as int]@);
        match panes.get(names[i].as_str()) {
            Some(id) if *id == order[i] => {},
            _ => {
                assert(!(panes@.contains_key(all[i as int]) && panes@[all[i as int]]
                    == order@[i as int]));
                return false;
            },
        }
        i += 1;
    }
    true
}

/// Whether two lists of directions are the same.
fn same_directions(a: &[SplitDirection], b: &[SplitDirection]) -> (r: bool)
    ensures
        r == (a@ == b@),
{
    if a.len() != b.len() {
        return false;
    }
    let mut i: usize = 0;
    while i < a.len()
        invariant
            i <= a@.len(),
            a@.len() == b@.len(),
            forall|j: int| 0 <= j < i ==> a@[j] == b@[j],
        decreases a@.len() - i,
    {
        if a[i] != b[i] {
            return false;
        }
        i += 1;
    }
    assert(a@ =~= b@);
    true
}

/// Whether a layout of the hub is the one that the tab shows: the same leaves in the same order, and
/// the same directions.
pub fn layout_matches_target(root: &PaneLayout, target: &PublishTarget) -> (r: bool)
    ensures
        r == (panes_match(visual::leaves_of(root@), target.leaf_panes@, target.pane_order@)
            && visual::directions_of(root@) == target.split_directions@),
{
    let leaves = root.layout_leaf_ids();
    let directions = root.split_directions();
    panes_are(&leaves, &target.leaf_panes, &target.pane_order) && same_directions(
        &directions,
        &target.split_directions,
    )
}

/// Where a rectangle begins and how long it is: along its width, or else along its height.
pub open spec fn span_of(rect: PaneRect, along_width: bool) -> (usize, usize) {
    if along_width {
        (rect.left, rect.width)
    } else {
        (rect.top, rect.height)
    }
}

/// The least begin of the first `n` spans.
pub open spec fn lowest(spans: Seq<(usize, usize)>, n: int) -> int
    decreases n,
{
    if n <= 0 {
        usize::MAX as int
    } else if spans[n - 1].0 < lowest(spans, n - 1) {
        spans[n - 1].0 as int
    } else {
        lowest(spans, n - 1)
    }
}

/// The greatest end of the first `n` spans.
pub open spec fn highest(spans: Seq<(usize, usize)>, n: int) -> int
    decreases n,
{
    if n <= 0 {
        0
    } else if spans[n - 1].0 + spans[n - 1].1 > highest(spans, n - 1) {
        spans[n - 1].0 + spans[n - 1].1
    } else {
        highest(spans, n - 1)
    }
}

/// How far spans reach together, where that is more than nothing.
pub open spec fn extent_of(spans: Seq<(usize, usize)>) -> Option<int> {
    let lo = lowest(spans, spans.len() as int);
    let hi = highest(spans, spans.len() as int);
    if lo < hi {
        Some(hi - lo)
    } else {
        None
    }
}

/// How far spans reach together, where that is more than nothing.
fn extent(spans: &[(usize, usize)]) -> (r: Option<usize>)
    requires
        forall|i: int|
            0 <= i < spans@.len() ==> (#[trigger] spans@[i]).0 + spans@[i].1 <= usize::MAX,
    ensures
        match extent_of(spans@) {
            Some(n) => r matches Some(k) && k == n,
            None => r is None,
        },
{
    let mut lo: usize = usize::MAX;
    let mut hi: usize = 0;
    let mut i: usize = 0;
    while i < spans.len()
        invariant
            i <= spans@.len(),
            forall|j: int|
                0 <= j < spans@.len() ==> (#[trigger] spans@[j]).0 + spans@[j].1 <= usize::MAX,
            lo == lowest(spans@, i as int),
            hi == highest(spans@, i as int),
        decreases spans@.len() - i,
    {
        let (start, len) = spans[i];
        assert(spans@[i as int].0 + spans@[i as int].1 <= usize::MAX);
        if start < lo {
            lo = start;
        }
        if start + len > hi {
            hi = start + len;
        }
        i += 1;
    }
    if lo < hi {
        Some(hi - lo)
    } else {
        None
    }
}

/// The rectangle of a name: that of its pane.
pub open spec fn rect_of(
    name: Seq<char>,
    panes: Map<Seq<char>, usize>,
    rects: Map<usize, PaneRect>,
) -> Option<PaneRect> {
    if panes.contains_key(name) && rects.contains_key(panes[name]) {
        Some(rects[panes[name]])
    } else {
        None
    }
}

/// How far the panes of the names reach together, where all of them are there.
pub open spec fn extent_of_names(
    names: Seq<Seq<char>>,
    panes: Map<Seq<char>, usize>,
    rects: Map<usize, PaneRect>,
    along_width: bool,
) -> Option<int> {
    if forall|i: int| 0 <= i < names.len() ==> rect_of(#[trigger] names[i], panes, rects) is Some {
        extent_of(
            Seq::new(
                names.len(),
                |i: int| span_of(rect_of(names[i], panes, rects)->0, along_width),
            ),
        )
    } else {
        None
    }
}

/// Whether the far edges of all rectangles can be computed.
pub open spec fn rects_fit(rects: Map<usize, PaneRect>) -> bool {
    forall|id: usize| #[trigger] rects.contains_key(id) ==> rect_fits(rects[id])
}

/// How far the panes of the names reach together, where all of them are there.
fn names_extent(
    names: &[String],
    panes: &TextMap<usize>,
    rects: &HashMap<usize, PaneRect>,
    along_width: bool,
) -> (r: Option<usize>)
    requires
        rects_fit(rects@),
    ensures
        match extent_of_names(text::texts(names@), panes@, rects@, along_width) {
            Some(n) => r matches Some(k) && k == n,
            None => r is None,
        },
{
    let ghost all = text::texts(names@);
    let mut spans: Vec<(usize, usize)> = Vec::new();
    let mut i: usize = 0;
    while i < names.len()
        invariant
            i <= names@.len(),
            all == text::texts(names@),
            rects_fit(rects@),
            forall|j: int| 0 <= j < i ==> rect_of(#[trigger] all[j], panes@, rects@) is Some,
            spans@ == Seq::new(
                i as nat,
                |j: int| span_of(rect_of(all[j], panes@, rects@)->0, along_width),
            ),
            forall|j: int|
                0 <= j < spans@.len() ==> (#[trigger] spans@[j]).0 + spans@[j].1 <= usize::MAX,
        decreases names@.len() - i,
    {
        assert(all[i as int] == names@[i as int]@);
        let rect = match panes.get(names[i].as_str()) {
            Some(id) => match rects.get(id) {
                Some(rect) => *rect,
                None => {
                    assert(rect_of(all[i as int], panes@, rects@) is None);
                    return None;
                },
            },
            None => {
                assert(rect_of(all[i as int], panes@, rects@) is None);
                return None;
            },
        };
        assert(rect_fits(rect));
        let span: (usize, usize) = if along_width {
            (rect.left, rect.width)
        } else {
            (rect.top, rect.height)
        };
        spans.push(span);
        assert(spans@ =~= Seq::new(
            (i + 1) as nat,
            |j: int| span_of(rect_of(all[j], panes@, rects@)->0, along_width),
        ));
        i += 1;
    }
    assert(spans@ =~= Seq::new(
        all.len(),
        |j: int| span_of(rect_of(all[j], panes@, rects@)->0, along_width),
    ));
    extent(&spans)
}

/// How far the two parts of a split reach on the screen, where that is known of both.
pub open spec fn measured_split(
    direction: Seq<char>,
    first: PaneLayoutModel,
    second: PaneLayoutModel,
    panes: Map<Seq<char>, usize>,
    rects: Map<usize, PaneRect>,
) -> Option<(int, int)> {
    let along_width = direction != "vertical"@;
    match (
        extent_of_names(visual::leaves_of(first), panes, rects, along_width),
        extent_of_names(visual::leaves_of(second), panes, rects, along_width),
    ) {
        (Some(a), Some(b)) => Some((a, b)),
        _ => None,
    }
}

/// How far the parts of each split reach, each split before those of its parts.
pub open spec fn measured(
    node: PaneLayoutModel,
    panes: Map<Seq<char>, usize>,
    rects: Map<usize, PaneRect>,
) -> Seq<Option<(int, int)>>
    decreases node,
{
    match node {
        PaneLayoutModel::Leaf { .. } => Seq::empty(),
        PaneLayoutModel::Split { direction, first, second, .. } => seq![
            measured_split(direction, *first, *second, panes, rects),
        ] + measured(*first, panes, rects) + measured(*second, panes, rects),
    }
}

/// The models of measures.
pub open spec fn measure_models(v: Seq<Option<(usize, usize)>>) -> Seq<Option<(int, int)>> {
    v.map_values(
        |m: Option<(usize, usize)>|
            match m {
                Some(pair) => Some((pair.0 as int, pair.1 as int)),
                None => None,
            },
    )
}

fn push_measures(root: &PaneLayout, target: &PublishTarget, out: &mut Vec<Option<(usize, usize)>>)
    requires
        rects_fit(target.rects@),
    ensures
        measure_models(final(out)@) == measure_models(old(out)@) + measured(
            root@,
            target.leaf_panes@,
            target.rects@,
        ),
    decreases root,
{
    let ghost start = measure_models(out@);
    match root {
        PaneLayout::Leaf { .. } => {
            assert(start + Seq::<Option<(int, int)>>::empty() == start);
        },
        PaneLayout::Split { direction, first, second, .. } => {
            let along_width = !text::same(direction.as_str(), "vertical");
            let a = names_extent(
                &first.layout_leaf_ids(),
                &target.leaf_panes,
                &target.rects,
                along_width,
            );
            let b = names_extent(
                &second.layout_leaf_ids(),
                &target.leaf_panes,
                &target.rects,
                along_width,
            );
            let measure: Option<(usize, usize)> = match (a, b) {
                (Some(a), Some(b)) => Some((a, b)),
                _ => None,
            };
            out.push(measure);
            let ghost here = measured_split(
                direction@,
                first@,
                second@,
                target.leaf_panes@,
                target.rects@,
            );
            assert(measure_models(out@) == start.push(here));
            push_measures(first, target, out);
            push_measures(second, target, out);
            assert(measure_models(out@) == start + measured(
                root@,
                target.leaf_panes@,
                target.rects@,
            ));
        },
    }
}

/// How far the two parts of each split of the layout reach on the screen, each split before those of
/// its parts. The share of the first part is its ratio.
pub fn measure_layout_ratios(root: &PaneLayout, target: &PublishTarget) -> (r: Vec<
    Option<(usize, usize)>,
>)
    requires
        rects_fit(target.rects@),
    ensures
        measure_models(r@) == measured(root@, target.leaf_panes@, target.rects@),
{
    let mut out: Vec<Option<(usize, usize)>> = Vec::new();
    push_measures(root, target, &mut out);
    assert(Seq::<Option<(int, int)>>::empty() + measured(root@, target.leaf_panes@, target.rects@)
        == measured(root@, target.leaf_panes@, target.rects@));
    out
}

/// Where panes stand whose far edges can all be computed.
proof fn lemma_rects_fit(places: Seq<PlaceModel>, n: int)
    requires
        0 <= n <= places.len(),
        forall|i: int| 0 <= i < n ==> rect_fits((#[trigger] places[i]).rect),
    ensures
        rects_fit(rects_by_pane(places, n)),
    decreases n,
{
    if n > 0 {
        lemma_rects_fit(places, n - 1);
        assert(rect_fits(places[n - 1].rect));
    }
}

/// Whether the far edges of all panes can be computed.
pub fn places_fit(panes: &[PanePlace]) -> (r: bool)
    ensures
        r == (forall|i: int| 0 <= i < panes@.len() ==> rect_fits((#[trigger] panes@[i]).rect)),
        r ==> rects_fit(rects_by_pane(place_models(panes@), panes@.len() as int)),
{
    let mut i: usize = 0;
    while i < panes.len()
        invariant
            i <= panes@.len(),
            forall|j: int| 0 <= j < i ==> rect_fits((#[trigger] panes@[j]).rect),
        decreases panes@.len() - i,
    {
        let rect = panes[i].rect;
        if rect.left.checked_add(rect.width).is_none() || rect.top.checked_add(
            rect.height,
        ).is_none() {
            assert(!rect_fits(panes@[i as int].rect));
            return false;
        }
        i += 1;
    }
    proof {
        let all = place_models(panes@);
        assert forall|j: int| 0 <= j < panes@.len() implies rect_fits((#[trigger] all[j]).rect) by {
            assert(all[j] == panes@[j]@);
        }
        lemma_rects_fit(all, panes@.len() as int);
    }
    true
}

/// Where each pane stands.
pub fn rects_of_places(panes: &[PanePlace]) -> (r: HashMap<usize, PaneRect>)
    ensures
        r@ == rects_by_pane(place_models(panes@), panes@.len() as int),
{
    let ghost all = place_models(panes@);
    let mut rects: HashMap<usize, PaneRect> = HashMap::new();
    let mut i: usize = 0;
    while i < panes.len()
        invariant
            i <= panes@.len(),
            all == place_models(panes@),
            rects@ == rects_by_pane(all, i as int),
        decreases panes@.len() - i,
    {
        assert(all[i as int] == panes@[i as int]@);
        rects.insert(panes[i].pane_id, panes[i].rect);
        i += 1;
    }
    rects
}

/// The directions of splits.
pub open spec fn op_directions(ops: Seq<visual::SplitOpModel>) -> Seq<SplitDirection> {
    ops.map_values(|op: visual::SplitOpModel| op.direction)
}

/// Whether a tab of the screen has the structure of a visual tab: its panes are those of the
/// terminals in their order, and its splits have the same directions.
pub open spec fn structure_matches(
    order: Seq<usize>,
    splits: Seq<SplitDirection>,
    root: VisualModel,
    panes: Map<Seq<char>, usize>,
) -> bool {
    panes_match(visual::handles_of(root), panes, order) && op_directions(visual::splits_of(root))
        == splits
}

/// Whether a tab of the screen has the structure of a visual tab.
pub fn tab_structure_matches(
    order: &[usize],
    splits: &[SplitDirection],
    root: &VisualPaneNode,
    panes: &TextMap<usize>,
) -> (r: bool)
    ensures
        r == structure_matches(order@, splits@, root@, panes@),
{
    let handles = root.pane_tree_handles();
    if !panes_are(&handles, panes, order) {
        return false;
    }
    let ops = root.plan_splits();
    let mut directions: Vec<SplitDirection> = Vec::new();
    let mut i: usize = 0;
    while i < ops.len()
        invariant
            i <= ops@.len(),
            directions@ == Seq::new(i as nat, |j: int| ops@[j].direction),
        decreases ops@.len() - i,
    {
        directions.push(ops[i].direction);
        assert(directions@ =~= Seq::new((i + 1) as nat, |j: int| ops@[j].direction));
        i += 1;
    }
    assert(directions@ =~= op_directions(visual::op_models(ops@)));
    same_directions(&directions, splits)
}

/// The least number of cells that a split needs to be moved.
pub const LEAST_SPLIT: usize = 4;

/// How far the first part of a split reaches, and how far the whole of it, with the line between the
/// parts.
#[derive(Clone, Copy, Debug, PartialEq, Eq, Structural)]
pub struct SplitExtent {
    pub first: usize,
    pub node: usize,
}

/// How far a split reaches on the screen, where that is known and enough to move it.
pub open spec fn split_extent_of(
    op: visual::SplitOpModel,
    panes: Map<Seq<char>, usize>,
    rects: Map<usize, PaneRect>,
) -> Option<(int, int)> {
    let along_width = op.direction == SplitDirection::Horizontal;
    match (
        extent_of_names(op.first_handles, panes, rects, along_width),
        extent_of_names(op.second_handles, panes, rects, along_width),
    ) {
        (Some(a), Some(b)) => if a + b + 1 < LEAST_SPLIT {
            None
        } else {
            Some((a, a + b + 1))
        },
        _ => None,
    }
}

/// How far a split reaches on the screen, where that is known and enough to move it.
pub fn split_extent(op: &SplitOp, panes: &TextMap<usize>, rects: &HashMap<usize, PaneRect>) -> (r:
    Option<SplitExtent>)
    requires
        rects_fit(rects@),
        split_extent_of(op@, panes@, rects@) matches Some(e) ==> e.1 <= usize::MAX,
    ensures
        match split_extent_of(op@, panes@, rects@) {
            Some(e) => r matches Some(x) && x.first == e.0 && x.node == e.1,
            None => r is None,
        },
{
    let along_width = op.direction == SplitDirection::Horizontal;
    let first: usize = match names_extent(&op.first_handles, panes, rects, along_width) {
        Some(n) => n,
        None => return None,
    };
    let second: usize = match names_extent(&op.second_handles, panes, rects, along_width) {
        Some(n) => n,
        None => return None,
    };
    if first < LEAST_SPLIT && second < LEAST_SPLIT && first + second + 1 < LEAST_SPLIT {
        return None;
    }
    Some(SplitExtent { first, node: first + second + 1 })
}

/// Whether the number of cells that a split covers can be computed.
pub fn split_fits(op: &SplitOp, panes: &TextMap<usize>, rects: &HashMap<usize, PaneRect>) -> (r: bool)
    requires
        rects_fit(rects@),
    ensures
        r == (split_extent_of(op@, panes@, rects@) matches Some(e) ==> e.1 <= usize::MAX),
{
    let along_width = op.direction == SplitDirection::Horizontal;
    match (
        names_extent(&op.first_handles, panes, rects, along_width),
        names_extent(&op.second_handles, panes, rects, along_width),
    ) {
        (Some(first), Some(second)) => match first.checked_add(second) {
            Some(sum) => sum < usize::MAX,
            None => false,
        },
        _ => true,
    }
}

/// How many cells to move a split by, so that its first part gets `desired` cells, or as near to that
/// as leaves a cell to either part.
pub open spec fn split_move(extent: SplitExtent, desired: int) -> int {
    let least = 1int;
    let most = extent.node - 2;
    let first = if desired < least {
        least
    } else if desired > most {
        most
    } else {
        desired
    };
    first - extent.first
}

/// How many cells to move a split by, where it is to be moved.
pub fn split_delta(extent: SplitExtent, desired: isize) -> (r: Option<isize>)
    requires
        LEAST_SPLIT <= extent.node <= isize::MAX,
        extent.first <= extent.node,
    ensures
        ({
            let delta = split_move(extent, desired as int);
            if delta == 0 {
                r is None
            } else {
                r matches Some(d) && d == delta
            }
        }),
{
    let most: isize = extent.node as isize - 2;
    let first: isize = if desired < 1 {
        1
    } else if desired > most {
        most
    } else {
        desired
    };
    let delta: isize = first - extent.first as isize;
    if delta == 0 {
        None
    } else {
        Some(delta)
    }
}

/// A moved split leaves a cell to either part.
pub proof fn a_moved_split_keeps_both_parts(extent: SplitExtent, desired: int)
    requires
        LEAST_SPLIT <= extent.node,
    ensures
        1 <= extent.first + split_move(extent, desired) <= extent.node - 2,
{
}

/// Where a rectangle begins and ends: along its width, or else along its height.
pub open spec fn edges(rect: PaneRect, along_width: bool) -> (int, int) {
    if along_width {
        (rect.left as int, rect.left + rect.width)
    } else {
        (rect.top as int, rect.top + rect.height)
    }
}

/// Whether each of the names has a pane whose place is known.
pub open spec fn all_placed(
    names: Set<Seq<char>>,
    panes: Map<Seq<char>, usize>,
    rects: Map<usize, PaneRect>,
) -> bool {
    forall|name: Seq<char>| #[trigger]
        names.contains(name) ==> panes.contains_key(name) && rects.contains_key(panes[name])
}

/// Whether the panes of the names reach from `lo` to `hi`: none begins before `lo` or ends behind
/// `hi`, one begins at `lo` and one ends at `hi`.
pub open spec fn reach_between(
    names: Set<Seq<char>>,
    panes: Map<Seq<char>, usize>,
    rects: Map<usize, PaneRect>,
    along_width: bool,
    lo: int,
    hi: int,
) -> bool {
    &&& all_placed(names, panes, rects)
    &&& forall|name: Seq<char>| #[trigger]
        names.contains(name) ==> lo <= edges(rects[panes[name]], along_width).0 && edges(
            rects[panes[name]],
            along_width,
        ).1 <= hi
    &&& exists|name: Seq<char>| #[trigger]
        names.contains(name) && edges(rects[panes[name]], along_width).0 == lo
    &&& exists|name: Seq<char>| #[trigger]
        names.contains(name) && edges(rects[panes[name]], along_width).1 == hi
}

/// Whether the panes of the names reach over `n` cells together.
pub open spec fn reach_over(
    names: Set<Seq<char>>,
    panes: Map<Seq<char>, usize>,
    rects: Map<usize, PaneRect>,
    along_width: bool,
    n: int,
) -> bool {
    exists|lo: int, hi: int| #[trigger]
        reach_between(names, panes, rects, along_width, lo, hi) && n == hi - lo
}

proof fn lemma_lowest(spans: Seq<(usize, usize)>, n: int)
    requires
        0 < n <= spans.len(),
    ensures
        forall|i: int| 0 <= i < n ==> lowest(spans, n) <= (#[trigger] spans[i]).0,
        exists|i: int| 0 <= i < n && (#[trigger] spans[i]).0 == lowest(spans, n),
    decreases n,
{
    if n > 1 {
        lemma_lowest(spans, n - 1);
    }
    assert(spans[n - 1].0 <= usize::MAX);
    assert(lowest(spans, 0) == usize::MAX);
}

proof fn lemma_highest(spans: Seq<(usize, usize)>, n: int)
    requires
        0 < n <= spans.len(),
    ensures
        forall|i: int| 0 <= i < n ==> (#[trigger] spans[i]).0 + spans[i].1 <= highest(spans, n),
        exists|i: int| 0 <= i < n && (#[trigger] spans[i]).0 + spans[i].1 == highest(spans, n),
    decreases n,
{
    if n > 1 {
        lemma_highest(spans, n - 1);
    }
    assert(spans[n - 1].0 + spans[n - 1].1 >= 0);
    assert(highest(spans, 0) == 0);
}

/// Panes reach together from where the first of them begins to where the last of them ends: over all
/// of them, whatever their order. There is no measure only where a pane is missing, or where they
/// cover nothing.
pub proof fn panes_reach_together(
    names: Seq<Seq<char>>,
    panes: Map<Seq<char>, usize>,
    rects: Map<usize, PaneRect>,
    along_width: bool,
)
    requires
        names.len() > 0,
    ensures
        match extent_of_names(names, panes, rects, along_width) {
            Some(n) => n > 0 && reach_over(names.to_set(), panes, rects, along_width, n),
            None => !all_placed(names.to_set(), panes, rects) || reach_over(
                names.to_set(),
                panes,
                rects,
                along_width,
                0,
            ),
        },
{
    let set = names.to_set();
    if forall|i: int| 0 <= i < names.len() ==> rect_of(#[trigger] names[i], panes, rects) is Some {
        let spans = Seq::new(
            names.len(),
            |i: int| span_of(rect_of(names[i], panes, rects)->0, along_width),
        );
        let len = spans.len() as int;
        let lo = lowest(spans, len);
        let hi = highest(spans, len);
        lemma_lowest(spans, len);
        lemma_highest(spans, len);
        assert forall|i: int| 0 <= i < len implies edges(
            rects[panes[#[trigger] names[i]]],
            along_width,
        ) == (spans[i].0 as int, spans[i].0 + spans[i].1) by {}
        assert forall|name: Seq<char>| #[trigger] set.contains(name) implies panes.contains_key(name)
            && rects.contains_key(panes[name]) && lo <= edges(rects[panes[name]], along_width).0
            && edges(rects[panes[name]], along_width).1 <= hi by {
            let i = choose|i: int| 0 <= i < names.len() && names[i] == name;
            assert(rect_of(names[i], panes, rects) is Some);
            assert(spans[i].0 >= lo);
        }
        let a = choose|i: int| 0 <= i < len && (#[trigger] spans[i]).0 == lo;
        let b = choose|i: int| 0 <= i < len && (#[trigger] spans[i]).0 + spans[i].1 == hi;
        assert(set.contains(names[a]) && edges(rects[panes[names[a]]], along_width).0 == lo);
        assert(set.contains(names[b]) && edges(rects[panes[names[b]]], along_width).1 == hi);
        assert(reach_between(set, panes, rects, along_width, lo, hi));
        assert(spans[a].0 + spans[a].1 <= hi);
    } else {
        let i = choose|i: int|
            0 <= i < names.len() && rect_of(#[trigger] names[i], panes, rects) is None;
        assert(set.contains(names[i]));
    }
}

/// The leaves of a part of a layout.
pub open spec fn leaf_set(node: PaneLayoutModel) -> Set<Seq<char>> {
    Set::new(|name: Seq<char>| visual::has_leaf(node, name))
}

/// Whether `m` is the measure of a split: over how many cells all panes of its first part reach
/// together, and over how many those of its second part. There is none only where a pane of a part is
/// missing, or where a part covers nothing.
pub open spec fn is_measure(
    m: Option<(int, int)>,
    direction: Seq<char>,
    first: PaneLayoutModel,
    second: PaneLayoutModel,
    panes: Map<Seq<char>, usize>,
    rects: Map<usize, PaneRect>,
) -> bool {
    let wide = direction != "vertical"@;
    match m {
        Some((a, b)) => a > 0 && b > 0 && reach_over(leaf_set(first), panes, rects, wide, a)
            && reach_over(leaf_set(second), panes, rects, wide, b),
        None => !all_placed(leaf_set(first), panes, rects) || !all_placed(
            leaf_set(second),
            panes,
            rects,
        ) || reach_over(leaf_set(first), panes, rects, wide, 0) || reach_over(
            leaf_set(second),
            panes,
            rects,
            wide,
            0,
        ),
    }
}

/// Whether `all` are the measures of the splits of a layout: that of the layout itself, then those of
/// its first part, then those of its second part.
pub open spec fn are_measures(
    all: Seq<Option<(int, int)>>,
    node: PaneLayoutModel,
    panes: Map<Seq<char>, usize>,
    rects: Map<usize, PaneRect>,
) -> bool
    decreases node,
{
    match node {
        PaneLayoutModel::Leaf { .. } => all.len() == 0,
        PaneLayoutModel::Split { direction, first, second, .. } => {
            &&& all.len() > 0
            &&& is_measure(all[0], direction, *first, *second, panes, rects)
            &&& exists|k: int|
                1 <= k <= all.len() && are_measures(
                    #[trigger] all.subrange(1, k),
                    *first,
                    panes,
                    rects,
                ) && are_measures(all.skip(k), *second, panes, rects)
        },
    }
}

/// Every split of a layout is measured, and each over all panes of its two parts: from the least
/// begin of a pane of the part to the greatest end.
pub proof fn splits_are_measured_whole(
    node: PaneLayoutModel,
    panes: Map<Seq<char>, usize>,
    rects: Map<usize, PaneRect>,
)
    ensures
        are_measures(measured(node, panes, rects), node, panes, rects),
        measured(node, panes, rects).len() + 1 == visual::leaves_of(node).len(),
    decreases node,
{
    if let PaneLayoutModel::Split { direction, first, second, .. } = node {
        splits_are_measured_whole(*first, panes, rects);
        splits_are_measured_whole(*second, panes, rects);
        let wide = direction != "vertical"@;
        visual::leaves_are_listed(*first);
        visual::leaves_are_listed(*second);
        panes_reach_together(visual::leaves_of(*first), panes, rects, wide);
        panes_reach_together(visual::leaves_of(*second), panes, rects, wide);
        assert(visual::leaves_of(*first).to_set() =~= leaf_set(*first));
        assert(visual::leaves_of(*second).to_set() =~= leaf_set(*second));
        let all = measured(node, panes, rects);
        let k = 1 + measured(*first, panes, rects).len() as int;
        assert(all.subrange(1, k) == measured(*first, panes, rects));
        assert(all.skip(k) == measured(*second, panes, rects));
        assert(all[0] == measured_split(direction, *first, *second, panes, rects));
    }
}

/// A split of a visual tab reaches over all panes of its parts and the line between them. What its
/// first part covers is all panes of that part; a split that covers too little is not moved.
pub proof fn a_split_covers_both_parts(
    op: visual::SplitOpModel,
    panes: Map<Seq<char>, usize>,
    rects: Map<usize, PaneRect>,
)
    requires
        op.first_handles.len() > 0,
        op.second_handles.len() > 0,
    ensures
        ({
            let wide = op.direction == SplitDirection::Horizontal;
            let one = op.first_handles.to_set();
            let two = op.second_handles.to_set();
            match split_extent_of(op, panes, rects) {
                Some((a, node)) => {
                    &&& a > 0 && node - a - 1 > 0 && node >= 4
                    &&& reach_over(one, panes, rects, wide, a)
                    &&& reach_over(two, panes, rects, wide, node - a - 1)
                },
                None => {
                    ||| !all_placed(one, panes, rects)
                    ||| !all_placed(two, panes, rects)
                    ||| reach_over(one, panes, rects, wide, 0)
                    ||| reach_over(two, panes, rects, wide, 0)
                    ||| exists|a: int, b: int| #[trigger]
                        reach_over(one, panes, rects, wide, a) && #[trigger] reach_over(
                            two,
                            panes,
                            rects,
                            wide,
                            b,
                        ) && a + b + 1 < 4
                },
            }
        }),
{
    let wide = op.direction == SplitDirection::Horizontal;
    panes_reach_together(op.first_handles, panes, rects, wide);
    panes_reach_together(op.second_handles, panes, rects, wide);
}

/// A split is moved so that its first part gets what is desired, or as near to that as leaves a cell to
/// either part.
pub proof fn a_split_moves_as_near_as_it_can(extent: SplitExtent, desired: int, other: int)
    requires
        4 <= extent.node,
        1 <= other <= extent.node - 2,
    ensures
        ({
            let got = extent.first + split_move(extent, desired);
            &&& 1 <= got <= extent.node - 2
            &&& 1 <= desired <= extent.node - 2 ==> got == desired
            &&& (if got <= desired {
                desired - got
            } else {
                got - desired
            }) <= (if other <= desired {
                desired - other
            } else {
                other - desired
            })
        }),
{
}

/// In what is told to the hub, each leaf has the pane that shows it, and each pane its place: the last
/// one where there are several. Nothing else is in it.
pub proof fn published_panes_are_those_shown(panes: Seq<PlaceModel>, n: int)
    requires
        0 <= n <= panes.len(),
    ensures
        forall|leaf: Seq<char>| #[trigger]
            panes_by_leaf(panes, n).contains_key(leaf) ==> exists|i: int|
                0 <= i < n && ((#[trigger] panes[i]).hub->0).1.leaf_id == leaf && panes_by_leaf(
                    panes,
                    n,
                )[leaf] == panes[i].pane_id && forall|j: int|
                    i < j < n ==> ((#[trigger] panes[j]).hub->0).1.leaf_id != leaf,
        forall|i: int|
            0 <= i < n ==> panes_by_leaf(panes, n).contains_key(
                ((#[trigger] panes[i]).hub->0).1.leaf_id,
            ),
        forall|id: usize| #[trigger]
            rects_by_pane(panes, n).contains_key(id) ==> exists|i: int|
                0 <= i < n && (#[trigger] panes[i]).pane_id == id && rects_by_pane(panes, n)[id]
                    == panes[i].rect && forall|j: int|
                    i < j < n ==> (#[trigger] panes[j]).pane_id != id,
        forall|i: int|
            0 <= i < n ==> rects_by_pane(panes, n).contains_key((#[trigger] panes[i]).pane_id),
    decreases n,
{
    if n > 0 {
        published_panes_are_those_shown(panes, n - 1);
        let last = panes[n - 1];
        assert forall|leaf: Seq<char>| #[trigger]
            panes_by_leaf(panes, n).contains_key(leaf) implies exists|i: int|
            0 <= i < n && ((#[trigger] panes[i]).hub->0).1.leaf_id == leaf && panes_by_leaf(
                panes,
                n,
            )[leaf] == panes[i].pane_id && forall|j: int|
                i < j < n ==> ((#[trigger] panes[j]).hub->0).1.leaf_id != leaf by {
            if leaf == (last.hub->0).1.leaf_id {
                assert(panes[n - 1].pane_id == panes_by_leaf(panes, n)[leaf]);
            } else {
                assert(panes_by_leaf(panes, n - 1).contains_key(leaf));
                let i = choose|i: int|
                    0 <= i < n - 1 && ((#[trigger] panes[i]).hub->0).1.leaf_id == leaf
                        && panes_by_leaf(panes, n - 1)[leaf] == panes[i].pane_id && forall|j: int|
                        i < j < n - 1 ==> ((#[trigger] panes[j]).hub->0).1.leaf_id != leaf;
                assert((panes[i].hub->0).1.leaf_id == leaf);
            }
        }
        assert forall|id: usize| #[trigger]
            rects_by_pane(panes, n).contains_key(id) implies exists|i: int|
            0 <= i < n && (#[trigger] panes[i]).pane_id == id && rects_by_pane(panes, n)[id]
                == panes[i].rect && forall|j: int|
                i < j < n ==> (#[trigger] panes[j]).pane_id != id by {
            if id == last.pane_id {
                assert(panes[n - 1].rect == rects_by_pane(panes, n)[id]);
            } else {
                assert(rects_by_pane(panes, n - 1).contains_key(id));
                let i = choose|i: int|
                    0 <= i < n - 1 && (#[trigger] panes[i]).pane_id == id && rects_by_pane(
                        panes,
                        n - 1,
                    )[id] == panes[i].rect && forall|j: int|
                        i < j < n - 1 ==> (#[trigger] panes[j]).pane_id != id;
                assert(panes[i].pane_id == id);
            }
        }
    }
}

/// A tab of the screen shows a tab of the hub just where all its panes are of the domain and name that
/// tab of the hub. It belongs to the worktree of its first pane.
pub proof fn a_tab_shows_one_tab_of_the_hub(
    panes: Seq<PlaceModel>,
    domain_id: usize,
    worktree: Seq<char>,
    parent: Seq<char>,
)
    ensures
        identity_of(panes, domain_id) == Some((worktree, parent)) <==> {
            &&& panes.len() > 0 && parent.len() > 0
            &&& forall|i: int|
                0 <= i < panes.len() ==> (#[trigger] panes[i]).domain_id == domain_id
                    && panes[i].hub is Some && (panes[i].hub->0).1.parent_tab_id == parent
            &&& (panes[0].hub->0).1.worktree_selector == worktree
        },
        is_published(panes, domain_id) <==> {
            &&& panes.len() >= 2
            &&& exists|w: Seq<char>, p: Seq<char>| #[trigger]
                identity_pair(w, p) == identity_of(panes, domain_id)
            &&& forall|i: int|
                0 <= i < panes.len() ==> (#[trigger] panes[i]).hub is Some && !(panes[i].hub->0).0
                    && (panes[i].hub->0).1.leaf_id.len() > 0
        },
{
    if panes.len() > 0 {
        let first = (panes[0].hub->0).1;
        if identity_of(panes, domain_id) is Some {
            assert(shows(panes[0], domain_id, first.parent_tab_id));
            let (w, p) = identity_of(panes, domain_id)->0;
            assert(identity_pair(w, p) == identity_of(panes, domain_id));
            assert forall|i: int| 0 <= i < panes.len() implies (#[trigger] panes[i]).domain_id
                == domain_id && panes[i].hub is Some && (panes[i].hub->0).1.parent_tab_id == p by {
                assert(shows(panes[i], domain_id, first.parent_tab_id));
            }
        }
        if parent.len() > 0 && (forall|i: int|
            0 <= i < panes.len() ==> (#[trigger] panes[i]).domain_id == domain_id && panes[i].hub
                is Some && (panes[i].hub->0).1.parent_tab_id == parent) {
            assert(panes[0].hub is Some);
            assert forall|i: int| 0 <= i < panes.len() implies shows(
                #[trigger] panes[i],
                domain_id,
                first.parent_tab_id,
            ) by {}
        }
        if is_published(panes, domain_id) {
            assert forall|i: int| 0 <= i < panes.len() implies (#[trigger] panes[i]).hub is Some && !(
            panes[i].hub->0).0 && (panes[i].hub->0).1.leaf_id.len() > 0 by {
                assert(is_publishable(panes[i]));
            }
        }
    }
}

/// The worktree and the tab of the hub that a tab shows.
pub open spec fn identity_pair(worktree: Seq<char>, parent: Seq<char>) -> Option<
    (Seq<char>, Seq<char>),
> {
    Some((worktree, parent))
}

/// A tab of the screen matches a tab of the hub just where it has the pane of each terminal, in the
/// order of the hub, and one split less than it has panes, each of them in the direction of the hub.
pub proof fn matching_tabs_have_the_same_panes(
    order: Seq<usize>,
    splits: Seq<SplitDirection>,
    root: VisualModel,
    panes: Map<Seq<char>, usize>,
)
    ensures
        structure_matches(order, splits, root, panes) ==> splits.len() + 1 == order.len(),
        structure_matches(order, splits, root, panes) <==> {
            let handles = visual::handles_of(root);
            let ops = visual::splits_of(root);
            &&& handles.len() == order.len()
            &&& forall|i: int|
                0 <= i < order.len() ==> panes.contains_pair(handles[i], #[trigger] order[i])
            &&& ops.len() == splits.len()
            &&& forall|i: int| 0 <= i < ops.len() ==> (#[trigger] ops[i]).direction == splits[i]
        },
{
    let handles = visual::handles_of(root);
    let ops = visual::splits_of(root);
    visual::splits_are_planned(root);
    if structure_matches(order, splits, root, panes) {
        assert forall|i: int| 0 <= i < order.len() implies panes.contains_pair(
            handles[i],
            #[trigger] order[i],
        ) by {
            assert(panes.contains_key(handles[i]));
        }
        assert(op_directions(ops) == splits);
        assert forall|i: int| 0 <= i < ops.len() implies (#[trigger] ops[i]).direction
            == splits[i] by {
            assert(op_directions(ops)[i] == ops[i].direction);
        }
    }
    if handles.len() == order.len() && (forall|i: int|
        0 <= i < order.len() ==> panes.contains_pair(handles[i], #[trigger] order[i])) && ops.len()
        == splits.len() && (forall|i: int|
        0 <= i < ops.len() ==> (#[trigger] ops[i]).direction == splits[i]) {
        assert forall|i: int| 0 <= i < handles.len() implies panes.contains_key(
            #[trigger] handles[i],
        ) && panes[handles[i]] == order[i] by {
            assert(panes.contains_pair(handles[i], order[i]));
        }
        assert(op_directions(ops) =~= splits);
    }
}

/// A layout of the hub is that of a tab of the screen just where each leaf in turn has the pane that
/// stands there.
pub proof fn leaves_have_their_panes(
    names: Seq<Seq<char>>,
    panes: Map<Seq<char>, usize>,
    order: Seq<usize>,
)
    ensures
        panes_match(names, panes, order) <==> names.len() == order.len() && forall|i: int|
            0 <= i < order.len() ==> panes.contains_pair(names[i], #[trigger] order[i]),
{
    if panes_match(names, panes, order) {
        assert forall|i: int| 0 <= i < order.len() implies panes.contains_pair(
            names[i],
            #[trigger] order[i],
        ) by {
            assert(panes.contains_key(names[i]));
        }
    }
    if names.len() == order.len() && (forall|i: int|
        0 <= i < order.len() ==> panes.contains_pair(names[i], #[trigger] order[i])) {
        assert forall|i: int| 0 <= i < names.len() implies panes.contains_key(#[trigger] names[i])
            && panes[names[i]] == order[i] by {
            assert(panes.contains_pair(names[i], order[i]));
        }
    }
}

/// What a list says, it says item by item: each stands in its place, and none is added or left out.
pub proof fn items_keep_their_places(v: Seq<PanePlace>, i: int)
    ensures
        place_models(v).len() == v.len(),
        0 <= i < v.len() ==> place_models(v)[i] == v[i]@,
{
}

} // verus!
