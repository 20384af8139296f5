//! The split trees in which the hub shows its tabs and keeps their layouts.
use crate::collections::TextMap;
use crate::json::{Number, NumberModel};
use crate::orca_mux::layout;
use crate::orca_mux::layout::SplitDirection;
use crate::text;
use vstd::prelude::*;

verus! {

/// The direction that the hub's word for a split stands for in a visual tab.
pub open spec fn direction_named(word: Seq<char>) -> SplitDirection {
    if word == "vertical"@ {
        SplitDirection::Vertical
    } else {
        SplitDirection::Horizontal
    }
}

/// The direction that the hub's word for a split stands for in a visual tab.
pub fn visual_direction(direction: &str) -> (r: SplitDirection)
    ensures
        r == direction_named(direction@),
{
    if text::same(direction, "vertical") {
        SplitDirection::Vertical
    } else {
        SplitDirection::Horizontal
    }
}

/// The panes of a visual tab: terminals, and splits of them.
#[derive(Debug)]
pub enum VisualPaneNode {
    Terminal { handle: String },
    PaneSplit { direction: String, first: Box<VisualPaneNode>, second: Box<VisualPaneNode> },
}

/// What a [`VisualPaneNode`] says.
#[verifier::ext_equal]
pub enum VisualModel {
    Terminal { handle: Seq<char> },
    PaneSplit { direction: Seq<char>, first: Box<VisualModel>, second: Box<VisualModel> },
}

/// The model of a tree of panes.
pub open spec fn visual_model(node: VisualPaneNode) -> VisualModel
    decreases node,
{
    match node {
        VisualPaneNode::Terminal { handle } => VisualModel::Terminal { handle: handle@ },
        VisualPaneNode::PaneSplit { direction, first, second } => VisualModel::PaneSplit {
            direction: direction@,
            first: Box::new(visual_model(*first)),
            second: Box::new(visual_model(*second)),
        },
    }
}

impl View for VisualPaneNode {
    type V = VisualModel;

    open spec fn view(&self) -> VisualModel {
        visual_model(*self)
    }
}

/// The terminal that is reached by going to the first part at every split.
pub open spec fn leftmost_of(node: VisualModel) -> Seq<char>
    decreases node,
{
    match node {
        VisualModel::Terminal { handle } => handle,
        VisualModel::PaneSplit { first, .. } => leftmost_of(*first),
    }
}

/// The terminals of a tree, from first to last.
pub open spec fn handles_of(node: VisualModel) -> Seq<Seq<char>>
    decreases node,
{
    match node {
        VisualModel::Terminal { handle } => seq![handle],
        VisualModel::PaneSplit { first, second, .. } => handles_of(*first) + handles_of(*second),
    }
}

/// A split of a visual tab: the pane of `split_from` gives a part of its area to that of `insert`.
/// `first_handles` and `second_handles` are the terminals on its two sides.
#[derive(Debug)]
pub struct SplitOp {
    pub split_from: String,
    pub insert: String,
    pub direction: SplitDirection,
    pub first_handles: Vec<String>,
    pub second_handles: Vec<String>,
}

/// What a [`SplitOp`] says.
#[verifier::ext_equal]
pub struct SplitOpModel {
    pub split_from: Seq<char>,
    pub insert: Seq<char>,
    pub direction: SplitDirection,
    pub first_handles: Seq<Seq<char>>,
    pub second_handles: Seq<Seq<char>>,
}

impl View for SplitOp {
    type V = SplitOpModel;

    open spec fn view(&self) -> SplitOpModel {
        SplitOpModel {
            split_from: self.split_from@,
            insert: self.insert@,
            direction: self.direction,
            first_handles: text::texts(self.first_handles@),
            second_handles: text::texts(self.second_handles@),
        }
    }
}

/// The models of splits.
pub open spec fn op_models(ops: Seq<SplitOp>) -> Seq<SplitOpModel> {
    ops.map_values(|op: SplitOp| op@)
}

/// The split of a tree into two parts.
pub open spec fn op_for(direction: Seq<char>, first: VisualModel, second: VisualModel) -> SplitOpModel {
    SplitOpModel {
        split_from: leftmost_of(first),
        insert: leftmost_of(second),
        direction: direction_named(direction),
        first_handles: handles_of(first),
        second_handles: handles_of(second),
    }
}

/// The splits of a tree, each before those of its parts.
pub open spec fn splits_of(node: VisualModel) -> Seq<SplitOpModel>
    decreases node,
{
    match node {
        VisualModel::Terminal { .. } => Seq::empty(),
        VisualModel::PaneSplit { direction, first, second } => seq![
            op_for(direction, *first, *second),
        ] + splits_of(*first) + splits_of(*second),
    }
}

impl VisualPaneNode {
    /// The terminal that is reached by going to the first part at every split.
    pub fn leftmost_terminal(&self) -> (r: &str)
        ensures
            r@ == leftmost_of(self@),
        decreases self,
    {
        match self {
            VisualPaneNode::Terminal { handle } => handle.as_str(),
            VisualPaneNode::PaneSplit { first, .. } => first.leftmost_terminal(),
        }
    }

    fn push_handles(&self, out: &mut Vec<String>)
        ensures
            text::texts(final(out)@) == text::texts(old(out)@) + handles_of(self@),
        decreases self,
    {
        let ghost start = text::texts(out@);
        match self {
            VisualPaneNode::Terminal { handle } => {
                text::push_text(out, handle.as_str());
                assert(start.push(handle@) == start + seq![handle@]);
            },
            VisualPaneNode::PaneSplit { first, second, .. } => {
                first.push_handles(out);
                second.push_handles(out);
                assert(text::texts(out@) == start + handles_of(self@));
            },
        }
    }

    /// The terminals of the tree, from first to last.
    pub fn pane_tree_handles(&self) -> (r: Vec<String>)
        ensures
            text::texts(r@) == handles_of(self@),
    {
        let mut out: Vec<String> = Vec::new();
        self.push_handles(&mut out);
        assert(Seq::<Seq<char>>::empty() + handles_of(self@) == handles_of(self@));
        out
    }

    fn push_splits(&self, out: &mut Vec<SplitOp>)
        ensures
            op_models(final(out)@) == op_models(old(out)@) + splits_of(self@),
        decreases self,
    {
        let ghost start = op_models(out@);
        match self {
            VisualPaneNode::Terminal { .. } => {
                assert(start + Seq::<SplitOpModel>::empty() == start);
            },
            VisualPaneNode::PaneSplit { direction, first, second } => {
                let op = SplitOp {
                    split_from: first.leftmost_terminal().to_owned(),
                    insert: second.leftmost_terminal().to_owned(),
                    direction: visual_direction(direction.as_str()),
                    first_handles: first.pane_tree_handles(),
                    second_handles: second.pane_tree_handles(),
                };
                out.push(op);
                assert(op_models(out@) == start.push(op@));
                first.push_splits(out);
                second.push_splits(out);
                assert(op_models(out@) == start + splits_of(self@));
            },
        }
    }

    /// The splits of the tree, each before those of its parts.
    pub fn plan_splits(&self) -> (r: Vec<SplitOp>)
        ensures
            op_models(r@) == splits_of(self@),
    {
        let mut out: Vec<SplitOp> = Vec::new();
        self.push_splits(&mut out);
        assert(Seq::<SplitOpModel>::empty() + splits_of(self@) == splits_of(self@));
        out
    }
}

/// The layout of a tab as the hub keeps it. A split that has no ratio is even.
#[derive(Debug)]
pub enum PaneLayout {
    Leaf { leaf_id: String },
    Split {
        direction: String,
        ratio: Option<Number>,
        first: Box<PaneLayout>,
        second: Box<PaneLayout>,
    },
}

/// What a [`PaneLayout`] says.
#[verifier::ext_equal]
pub enum PaneLayoutModel {
    Leaf { leaf_id: Seq<char> },
    Split {
        direction: Seq<char>,
        ratio: Option<NumberModel>,
        first: Box<PaneLayoutModel>,
        second: Box<PaneLayoutModel>,
    },
}

/// The model of a layout.
pub open spec fn pane_layout_model(node: PaneLayout) -> PaneLayoutModel
    decreases node,
{
    match node {
        PaneLayout::Leaf { leaf_id } => PaneLayoutModel::Leaf { leaf_id: leaf_id@ },
        PaneLayout::Split { direction, ratio, first, second } => PaneLayoutModel::Split {
            direction: direction@,
            ratio: match ratio {
                Some(n) => Some(n@),
                None => None,
            },
            first: Box::new(pane_layout_model(*first)),
            second: Box::new(pane_layout_model(*second)),
        },
    }
}

impl View for PaneLayout {
    type V = PaneLayoutModel;

    open spec fn view(&self) -> PaneLayoutModel {
        pane_layout_model(*self)
    }
}

/// The model of an optional layout.
pub open spec fn opt_layout(node: Option<PaneLayout>) -> Option<PaneLayoutModel> {
    match node {
        Some(node) => Some(node@),
        None => None,
    }
}

/// The leaf that is reached by going to the first part at every split.
pub open spec fn leftmost_leaf_of(node: PaneLayoutModel) -> Seq<char>
    decreases node,
{
    match node {
        PaneLayoutModel::Leaf { leaf_id } => leaf_id,
        PaneLayoutModel::Split { first, .. } => leftmost_leaf_of(*first),
    }
}

/// The leaves of a layout, from first to last.
pub open spec fn leaves_of(node: PaneLayoutModel) -> Seq<Seq<char>>
    decreases node,
{
    match node {
        PaneLayoutModel::Leaf { leaf_id } => seq![leaf_id],
        PaneLayoutModel::Split { first, second, .. } => leaves_of(*first) + leaves_of(*second),
    }
}

/// The directions of the splits of a layout, each before those of its parts.
pub open spec fn directions_of(node: PaneLayoutModel) -> Seq<SplitDirection>
    decreases node,
{
    match node {
        PaneLayoutModel::Leaf { .. } => Seq::empty(),
        PaneLayoutModel::Split { direction, first, second, .. } => seq![direction_named(direction)]
            + directions_of(*first) + directions_of(*second),
    }
}

/// The ratio of a split, a half where it has none.
pub open spec fn ratio_or_half(ratio: Option<NumberModel>) -> NumberModel {
    match ratio {
        Some(n) => n,
        None => layout::half(),
    }
}

/// The ratios of the splits of a layout on top of `known`, each under the leftmost leaf of its second
/// part. A leaf without a name is left out.
pub open spec fn with_ratios(
    node: PaneLayoutModel,
    known: Map<Seq<char>, NumberModel>,
) -> Map<Seq<char>, NumberModel>
    decreases node,
{
    match node {
        PaneLayoutModel::Leaf { .. } => known,
        PaneLayoutModel::Split { ratio, first, second, .. } => {
            let leaf = leftmost_leaf_of(*second);
            let here = if leaf.len() == 0 {
                known
            } else {
                known.insert(leaf, ratio_or_half(ratio))
            };
            with_ratios(*second, with_ratios(*first, here))
        },
    }
}

/// The models of numbers by name.
pub open spec fn number_models(m: Map<Seq<char>, Number>) -> Map<Seq<char>, NumberModel> {
    m.map_values(|n: Number| n@)
}

impl PaneLayout {
    /// The leaf that is reached by going to the first part at every split, where it has a name.
    pub fn leftmost_layout_leaf(&self) -> (r: Option<&str>)
        ensures
            match r {
                Some(leaf) => leaf@ == leftmost_leaf_of(self@) && leaf@.len() > 0,
                None => leftmost_leaf_of(self@).len() == 0,
            },
        decreases self,
    {
        match self {
            PaneLayout::Leaf { leaf_id } => if leaf_id.as_str().is_empty() {
                None
            } else {
                Some(leaf_id.as_str())
            },
            PaneLayout::Split { first, .. } => first.leftmost_layout_leaf(),
        }
    }

    /// Puts the ratios of the splits into `out`, each under the leftmost leaf of its second part.
    pub fn collect_layout_ratios(&self, out: &mut TextMap<Number>)
        ensures
            number_models(final(out)@) == with_ratios(self@, number_models(old(out)@)),
        decreases self,
    {
        if let PaneLayout::Split { ratio, first, second, .. } = self {
            let ghost before = out@;
            if let Some(leaf) = second.leftmost_layout_leaf() {
                let number = match ratio {
                    Some(n) => n.copy(),
                    None => Number::Float("0.5".to_owned()),
                };
                out.insert(leaf, number);
                assert(number_models(before.insert(leaf@, number)) =~= number_models(before).insert(
                    leaf@,
                    number@,
                ));
            }
            first.collect_layout_ratios(out);
            second.collect_layout_ratios(out);
        }
    }

    fn push_leaves(&self, out: &mut Vec<String>)
        ensures
            text::texts(final(out)@) == text::texts(old(out)@) + leaves_of(self@),
        decreases self,
    {
        let ghost start = text::texts(out@);
        match self {
            PaneLayout::Leaf { leaf_id } => {
                text::push_text(out, leaf_id.as_str());
                assert(start.push(leaf_id@) == start + seq![leaf_id@]);
            },
            PaneLayout::Split { first, second, .. } => {
                first.push_leaves(out);
                second.push_leaves(out);
                assert(text::texts(out@) == start + leaves_of(self@));
            },
        }
    }

    /// The leaves of the layout, from first to last.
    pub fn layout_leaf_ids(&self) -> (r: Vec<String>)
        ensures
            text::texts(r@) == leaves_of(self@),
    {
        let mut out: Vec<String> = Vec::new();
        self.push_leaves(&mut out);
        assert(Seq::<Seq<char>>::empty() + leaves_of(self@) == leaves_of(self@));
        out
    }

    fn push_directions(&self, out: &mut Vec<SplitDirection>)
        ensures
            final(out)@ == old(out)@ + directions_of(self@),
        decreases self,
    {
        let ghost start = out@;
        match self {
            PaneLayout::Leaf { .. } => {
                assert(start + Seq::<SplitDirection>::empty() == start);
            },
            PaneLayout::Split { direction, first, second, .. } => {
                out.push(visual_direction(direction.as_str()));
                first.push_directions(out);
                second.push_directions(out);
                assert(out@ == start + directions_of(self@));
            },
        }
    }

    /// The directions of the splits, each before those of its parts.
    pub fn split_directions(&self) -> (r: Vec<SplitDirection>)
        ensures
            r@ == directions_of(self@),
    {
        let mut out: Vec<SplitDirection> = Vec::new();
        self.push_directions(&mut out);
        assert(Seq::<SplitDirection>::empty() + directions_of(self@) == directions_of(self@));
        out
    }
}

/// A tree has one split less than it has terminals.
pub proof fn splits_join_the_terminals(node: VisualModel)
    ensures
        splits_of(node).len() + 1 == handles_of(node).len(),
        handles_of(node)[0] == leftmost_of(node),
    decreases node,
{
    if let VisualModel::PaneSplit { first, second, .. } = node {
        splits_join_the_terminals(*first);
        splits_join_the_terminals(*second);
    }
}

/// Whether a leaf of the layout has the name.
pub open spec fn has_leaf(node: PaneLayoutModel, name: Seq<char>) -> bool
    decreases node,
{
    match node {
        PaneLayoutModel::Leaf { leaf_id } => leaf_id == name,
        PaneLayoutModel::Split { first, second, .. } => has_leaf(*first, name) || has_leaf(
            *second,
            name,
        ),
    }
}

proof fn lemma_contains_add<A>(a: Seq<A>, b: Seq<A>, x: A)
    ensures
        (a + b).contains(x) <==> a.contains(x) || b.contains(x),
{
    if a.contains(x) {
        let i = choose|i: int| 0 <= i < a.len() && a[i] == x;
        assert((a + b)[i] == x);
    }
    if b.contains(x) {
        let i = choose|i: int| 0 <= i < b.len() && b[i] == x;
        assert((a + b)[a.len() + i] == x);
    }
    if (a + b).contains(x) {
        let i = choose|i: int| 0 <= i < (a + b).len() && (a + b)[i] == x;
        if i < a.len() {
            assert(a[i] == x);
        } else {
            assert(b[i - a.len()] == x);
        }
    }
}

/// The leaves that are listed of a layout are all its leaves, those of the first part of a split
/// before those of the second. The leftmost one is the first of them.
pub proof fn leaves_are_listed(node: PaneLayoutModel)
    ensures
        forall|name: Seq<char>| #[trigger]
            leaves_of(node).contains(name) <==> has_leaf(node, name),
        match node {
            PaneLayoutModel::Leaf { leaf_id } => leaves_of(node) == seq![leaf_id],
            PaneLayoutModel::Split { first, second, .. } => leaves_of(node) == leaves_of(*first)
                + leaves_of(*second),
        },
        leaves_of(node).len() > 0,
        leftmost_leaf_of(node) == leaves_of(node)[0],
    decreases node,
{
    match node {
        PaneLayoutModel::Leaf { leaf_id } => {
            assert(seq![leaf_id][0] == leaf_id);
            assert forall|name: Seq<char>| #[trigger] leaves_of(node).contains(name) <==> has_leaf(
                node,
                name,
            ) by {
                assert(seq![leaf_id].contains(leaf_id));
            }
        },
        PaneLayoutModel::Split { first, second, .. } => {
            leaves_are_listed(*first);
            leaves_are_listed(*second);
            assert forall|name: Seq<char>| #[trigger] leaves_of(node).contains(name) <==> has_leaf(
                node,
                name,
            ) by {
                lemma_contains_add(leaves_of(*first), leaves_of(*second), name);
                assert(leaves_of(*first).contains(name) <==> has_leaf(*first, name));
                assert(leaves_of(*second).contains(name) <==> has_leaf(*second, name));
            }
        },
    }
}

/// Whether a tree of panes has the terminal.
pub open spec fn has_terminal(node: VisualModel, name: Seq<char>) -> bool
    decreases node,
{
    match node {
        VisualModel::Terminal { handle } => handle == name,
        VisualModel::PaneSplit { first, second, .. } => has_terminal(*first, name) || has_terminal(
            *second,
            name,
        ),
    }
}

/// The terminals that are listed of a tree are all its terminals, those of the first part of a split
/// before those of the second. The leftmost one is the first of them.
pub proof fn terminals_are_listed(node: VisualModel)
    ensures
        forall|name: Seq<char>| #[trigger]
            handles_of(node).contains(name) <==> has_terminal(node, name),
        match node {
            VisualModel::Terminal { handle } => handles_of(node) == seq![handle],
            VisualModel::PaneSplit { first, second, .. } => handles_of(node) == handles_of(*first)
                + handles_of(*second),
        },
        handles_of(node).len() > 0,
        leftmost_of(node) == handles_of(node)[0],
    decreases node,
{
    match node {
        VisualModel::Terminal { handle } => {
            assert(seq![handle][0] == handle);
            assert forall|name: Seq<char>| #[trigger]
                handles_of(node).contains(name) <==> has_terminal(node, name) by {
                assert(seq![handle].contains(handle));
            }
        },
        VisualModel::PaneSplit { first, second, .. } => {
            terminals_are_listed(*first);
            terminals_are_listed(*second);
            assert forall|name: Seq<char>| #[trigger]
                handles_of(node).contains(name) <==> has_terminal(node, name) by {
                lemma_contains_add(handles_of(*first), handles_of(*second), name);
                assert(handles_of(*first).contains(name) <==> has_terminal(*first, name));
                assert(handles_of(*second).contains(name) <==> has_terminal(*second, name));
            }
        },
    }
}

/// Whether `op` is the split of a tree into these parts: it takes a pane for the first terminal of
/// the second part from the area of the first terminal of the first part, and knows the terminals of
/// both.
pub open spec fn divides(
    op: SplitOpModel,
    direction: Seq<char>,
    first: VisualModel,
    second: VisualModel,
) -> bool {
    &&& op.direction == SplitDirection::Vertical <==> direction == "vertical"@
    &&& op.first_handles == handles_of(first)
    &&& op.second_handles == handles_of(second)
    &&& op.first_handles.len() > 0 && op.split_from == op.first_handles[0]
    &&& op.second_handles.len() > 0 && op.insert == op.second_handles[0]
}

/// Whether `ops` are the splits of a tree: that of the tree itself, then those of its first part, then
/// those of its second part.
pub open spec fn are_splits(ops: Seq<SplitOpModel>, node: VisualModel) -> bool
    decreases node,
{
    match node {
        VisualModel::Terminal { .. } => ops.len() == 0,
        VisualModel::PaneSplit { direction, first, second } => {
            &&& ops.len() > 0
            &&& divides(ops[0], direction, *first, *second)
            &&& exists|k: int|
                1 <= k <= ops.len() && are_splits(#[trigger] ops.subrange(1, k), *first)
                    && are_splits(ops.skip(k), *second)
        },
    }
}

/// The splits of a tree are planned each before those of its parts, and each knows both its parts.
pub proof fn splits_are_planned(node: VisualModel)
    ensures
        are_splits(splits_of(node), node),
        splits_of(node).len() + 1 == handles_of(node).len(),
    decreases node,
{
    splits_join_the_terminals(node);
    if let VisualModel::PaneSplit { direction, first, second } = node {
        splits_are_planned(*first);
        splits_are_planned(*second);
        terminals_are_listed(*first);
        terminals_are_listed(*second);
        let ops = splits_of(node);
        let k = 1 + splits_of(*first).len() as int;
        assert(ops.subrange(1, k) == splits_of(*first));
        assert(ops.skip(k) == splits_of(*second));
        assert(ops[0] == op_for(direction, *first, *second));
    }
}

/// Whether some split of the layout has the ratio, or none where that is a half, and `leaf` as the
/// first leaf of its second part.
pub open spec fn has_ratio_at(node: PaneLayoutModel, ratio: NumberModel, leaf: Seq<char>) -> bool
    decreases node,
{
    match node {
        PaneLayoutModel::Leaf { .. } => false,
        PaneLayoutModel::Split { ratio: own, first, second, .. } => {
            ||| leaves_of(*second)[0] == leaf && own == Some(ratio)
            ||| leaves_of(*second)[0] == leaf && own is None && ratio == NumberModel::Float("0.5"@)
            ||| has_ratio_at(*first, ratio, leaf)
            ||| has_ratio_at(*second, ratio, leaf)
        },
    }
}

/// Every split of a layout has its ratio noted under the first leaf of its second part, where that
/// has a name: a half where the split says nothing. Nothing else is noted or lost.
pub proof fn ratios_are_noted(
    node: PaneLayoutModel,
    known: Map<Seq<char>, NumberModel>,
    leaf: Seq<char>,
)
    ensures
        leaf.len() > 0 && (exists|ratio: NumberModel| has_ratio_at(node, ratio, leaf)) ==> {
            &&& with_ratios(node, known).contains_key(leaf)
            &&& has_ratio_at(node, with_ratios(node, known)[leaf], leaf)
        },
        leaf.len() == 0 || (forall|ratio: NumberModel| !has_ratio_at(node, ratio, leaf)) ==> {
            &&& with_ratios(node, known).contains_key(leaf) <==> known.contains_key(leaf)
            &&& with_ratios(node, known)[leaf] == known[leaf]
        },
    decreases node,
{
    if let PaneLayoutModel::Split { ratio, first, second, .. } = node {
        leaves_are_listed(*second);
        let at = leftmost_leaf_of(*second);
        let here = if at.len() == 0 {
            known
        } else {
            known.insert(at, ratio_or_half(ratio))
        };
        ratios_are_noted(*first, here, leaf);
        ratios_are_noted(*second, with_ratios(*first, here), leaf);
        let got = with_ratios(node, known);
        assert(got == with_ratios(*second, with_ratios(*first, here)));
        assert(has_ratio_at(node, ratio_or_half(ratio), at));
        assert forall|n: NumberModel|
            has_ratio_at(*first, n, leaf) || has_ratio_at(*second, n, leaf) implies has_ratio_at(
            node,
            n,
            leaf,
        ) by {}
        if forall|n: NumberModel| !has_ratio_at(node, n, leaf) {
            assert forall|n: NumberModel| !has_ratio_at(*first, n, leaf) by {
                assert(!has_ratio_at(node, n, leaf));
            }
            assert forall|n: NumberModel| !has_ratio_at(*second, n, leaf) by {
                assert(!has_ratio_at(node, n, leaf));
            }
        }
        if leaf.len() > 0 && leaf != at {
            assert forall|n: NumberModel| has_ratio_at(node, n, leaf) implies has_ratio_at(
                *first,
                n,
                leaf,
            ) || has_ratio_at(*second, n, leaf) by {}
        }
    }
}

/// Whether `directions` are those of the splits of a layout: that of the layout itself, then those of
/// its first part, then those of its second part. Only the hub's word `vertical` stands for panes one
/// above the other.
pub open spec fn are_directions(directions: Seq<SplitDirection>, node: PaneLayoutModel) -> bool
    decreases node,
{
    match node {
        PaneLayoutModel::Leaf { .. } => directions.len() == 0,
        PaneLayoutModel::Split { direction, first, second, .. } => {
            &&& directions.len() > 0
            &&& directions[0] == SplitDirection::Vertical <==> direction == "vertical"@
            &&& exists|k: int|
                1 <= k <= directions.len() && are_directions(
                    #[trigger] directions.subrange(1, k),
                    *first,
                ) && are_directions(directions.skip(k), *second)
        },
    }
}

/// The directions of a layout are listed each before those of its parts, one less than it has leaves.
pub proof fn directions_are_listed(node: PaneLayoutModel)
    ensures
        are_directions(directions_of(node), node),
        directions_of(node).len() + 1 == leaves_of(node).len(),
    decreases node,
{
    if let PaneLayoutModel::Split { direction, first, second, .. } = node {
        directions_are_listed(*first);
        directions_are_listed(*second);
        let all = directions_of(node);
        let k = 1 + directions_of(*first).len() as int;
        assert(all.subrange(1, k) == directions_of(*first));
        assert(all.skip(k) == directions_of(*second));
        assert(all[0] == direction_named(direction));
    }
}

/// What a list says, it says item by item: each stands in its place, and none is added or left out.
pub proof fn items_keep_their_places(v: Seq<SplitOp>, i: int)
    ensures
        op_models(v).len() == v.len(),
        0 <= i < v.len() ==> op_models(v)[i] == v[i]@,
{
}

} // verus!
