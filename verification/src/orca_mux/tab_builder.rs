//! Building a tab from its split tree, one split after another.
use crate::json::{Number, NumberModel};
use crate::orca_mux::layout;
use crate::orca_mux::layout::{LayoutModel, LayoutNode, SplitDirection};
use vstd::multiset::Multiset;
use vstd::prelude::*;

verus! {

/// A split to make: the pane of `seed_leaf` gives a part of its area to the pane of `new_leaf`, which
/// comes second. `ratio` is the share that the first part keeps.
#[derive(Debug)]
pub struct SplitStep {
    pub seed_leaf: String,
    pub new_leaf: String,
    pub direction: SplitDirection,
    pub ratio: Number,
}

/// What a [`SplitStep`] says.
#[verifier::ext_equal]
pub struct SplitStepModel {
    pub seed_leaf: Seq<char>,
    pub new_leaf: Seq<char>,
    pub direction: SplitDirection,
    pub ratio: NumberModel,
}

impl View for SplitStep {
    type V = SplitStepModel;

    open spec fn view(&self) -> SplitStepModel {
        SplitStepModel {
            seed_leaf: self.seed_leaf@,
            new_leaf: self.new_leaf@,
            direction: self.direction,
            ratio: self.ratio@,
        }
    }
}

/// The split that makes the two parts of `direction` and `ratio`.
pub open spec fn step_for(
    direction: SplitDirection,
    ratio: NumberModel,
    first: LayoutModel,
    second: LayoutModel,
) -> SplitStepModel {
    SplitStepModel {
        seed_leaf: layout::leftmost(first),
        new_leaf: layout::leftmost(second),
        direction,
        ratio,
    }
}

/// The models of split trees.
pub open spec fn models(nodes: Seq<LayoutNode>) -> Seq<LayoutModel> {
    nodes.map_values(|n: LayoutNode| n@)
}

/// The trees that are left once those at the end that are leaves are taken off.
pub open spec fn without_leaves(open: Seq<LayoutModel>) -> Seq<LayoutModel>
    decreases open.len(),
{
    if open.len() > 0 && open.last() is Leaf {
        without_leaves(open.drop_last())
    } else {
        open
    }
}

/// Works a split tree off into splits. Each tree that is still open has its leftmost pane in place
/// and no other.
#[derive(Debug)]
pub struct TabBuilder {
    open: Vec<LayoutNode>,
    pending: Option<(LayoutNode, LayoutNode)>,
}

/// What a [`TabBuilder`] still has to do.
#[verifier::ext_equal]
pub struct BuilderModel {
    pub open: Seq<LayoutModel>,
    pub pending: Option<(LayoutModel, LayoutModel)>,
}

impl View for TabBuilder {
    type V = BuilderModel;

    closed spec fn view(&self) -> BuilderModel {
        BuilderModel {
            open: models(self.open@),
            pending: match self.pending {
                Some(parts) => Some((parts.0@, parts.1@)),
                None => None,
            },
        }
    }
}

impl TabBuilder {
    /// A builder for `root`, whose leftmost pane is in place.
    pub fn new(root: &LayoutNode) -> (r: TabBuilder)
        ensures
            r@ == (BuilderModel { open: seq![root@], pending: None }),
    {
        let root = root.copy();
        let open = vec![root];
        assert(models(open@) == seq![root@]);
        TabBuilder { open, pending: None }
    }

    /// The split to make next. What it opens is taken up by [`TabBuilder::finish_step`]; a split that
    /// is not finished opens nothing.
    pub fn next_step(&mut self) -> (r: Option<SplitStep>)
        ensures
            ({
                let open = without_leaves(old(self)@.open);
                if open.len() == 0 {
                    r is None && final(self)@ == (BuilderModel { open, pending: None })
                } else {
                    match open.last() {
                        LayoutModel::Split { direction, ratio, first, second } => r matches Some(step)
                            && step@ == step_for(direction, ratio, *first, *second) && final(self)@
                            == (BuilderModel {
                            open: open.drop_last(),
                            pending: Some((*first, *second)),
                        }),
                        LayoutModel::Leaf { .. } => false,
                    }
                }
            }),
    {
        self.pending = None;
        let ghost start = models(self.open@);
        while self.open.len() > 0
            invariant
                self.pending is None,
                without_leaves(models(self.open@)) == without_leaves(start),
                start == old(self)@.open,
            decreases self.open@.len(),
        {
            let ghost before = models(self.open@);
            let popped = self.open.pop();
            assert(before.drop_last() == models(self.open@));
            match popped {
                None => {},
                Some(LayoutNode::Leaf { .. }) => {},
                Some(LayoutNode::Split { direction, ratio, first, second }) => {
                    let step = SplitStep {
                        seed_leaf: first.leftmost_leaf().to_owned(),
                        new_leaf: second.leftmost_leaf().to_owned(),
                        direction,
                        ratio,
                    };
                    self.pending = Some((*first, *second));
                    return Some(step);
                },
            }
        }
        None
    }

    /// Takes up the parts of the split that was handed out, where it was made. Where it was not, what
    /// is below it is left out.
    pub fn finish_step(&mut self, made: bool)
        ensures
            final(self)@ == (BuilderModel {
                open: match old(self)@.pending {
                    Some(parts) => if made {
                        old(self)@.open.push(parts.0).push(parts.1)
                    } else {
                        old(self)@.open
                    },
                    None => old(self)@.open,
                },
                pending: None,
            }),
    {
        let ghost start = models(self.open@);
        if let Some((first, second)) = self.pending.take() {
            if made {
                self.open.push(first);
                self.open.push(second);
                assert(models(self.open@) == start.push(first@).push(second@));
            }
        }
    }
}

/// How many nodes a tree has.
pub open spec fn size(node: LayoutModel) -> nat
    decreases node,
{
    match node {
        LayoutModel::Leaf { .. } => 1,
        LayoutModel::Split { first, second, .. } => 1 + size(*first) + size(*second),
    }
}

/// How many nodes the open trees have.
pub open spec fn total(open: Seq<LayoutModel>) -> nat
    decreases open.len(),
{
    if open.len() == 0 {
        0
    } else {
        total(open.drop_last()) + size(open.last())
    }
}

proof fn lemma_total_of_parts(rest: Seq<LayoutModel>, first: LayoutModel, second: LayoutModel)
    ensures
        total(rest.push(first).push(second)) == total(rest) + size(first) + size(second),
{
    reveal_with_fuel(total, 3);
    assert(rest.push(first).push(second).drop_last() == rest.push(first));
    assert(rest.push(first).drop_last() == rest);
}

/// Every split that is handed out from the open trees on, where each of them is made.
pub open spec fn all_steps(open: Seq<LayoutModel>) -> Seq<SplitStepModel>
    decreases total(open),
{
    if open.len() == 0 {
        Seq::empty()
    } else {
        match open.last() {
            LayoutModel::Leaf { .. } => all_steps(open.drop_last()),
            LayoutModel::Split { direction, ratio, first, second } => {
                proof {
                    reveal_with_fuel(total, 3);
                    reveal_with_fuel(size, 2);
                    let rest = open.drop_last();
                    assert(rest.push(*first).push(*second).drop_last() == rest.push(*first));
                    assert(rest.push(*first).drop_last() == rest);
                }
                seq![step_for(direction, ratio, *first, *second)] + all_steps(
                    open.drop_last().push(*first).push(*second),
                )
            },
        }
    }
}

/// The panes that splits put in place.
pub open spec fn new_leaves(steps: Seq<SplitStepModel>) -> Seq<Seq<char>> {
    steps.map_values(|s: SplitStepModel| s.new_leaf)
}

/// Handing a split out and making it goes one step along [`all_steps`].
pub proof fn steps_are_handed_out_in_order(open: Seq<LayoutModel>)
    ensures
        ({
            let left = without_leaves(open);
            all_steps(open) == if left.len() == 0 {
                Seq::<SplitStepModel>::empty()
            } else {
                match left.last() {
                    LayoutModel::Split { direction, ratio, first, second } => seq![
                        step_for(direction, ratio, *first, *second),
                    ] + all_steps(left.drop_last().push(*first).push(*second)),
                    LayoutModel::Leaf { .. } => Seq::empty(),
                }
            }
        }),
    decreases open.len(),
{
    if open.len() > 0 && open.last() is Leaf {
        steps_are_handed_out_in_order(open.drop_last());
    }
}

spec fn in_place(open: Seq<LayoutModel>) -> Multiset<Seq<char>>
    decreases open.len(),
{
    if open.len() == 0 {
        Multiset::empty()
    } else {
        in_place(open.drop_last()).insert(layout::leftmost(open.last()))
    }
}

spec fn leaf_bag(open: Seq<LayoutModel>) -> Multiset<Seq<char>>
    decreases open.len(),
{
    if open.len() == 0 {
        Multiset::empty()
    } else {
        leaf_bag(open.drop_last()).add(layout::leaves(open.last()).to_multiset())
    }
}

proof fn lemma_leaves_are_placed(open: Seq<LayoutModel>)
    ensures
        leaf_bag(open) == in_place(open).add(new_leaves(all_steps(open)).to_multiset()),
    decreases total(open),
{
    broadcast use vstd::seq_lib::group_to_multiset_ensures;

    reveal_with_fuel(leaf_bag, 3);
    reveal_with_fuel(in_place, 3);
    if open.len() == 0 {
        assert(new_leaves(all_steps(open)) == Seq::<Seq<char>>::empty());
        assert(leaf_bag(open) =~= in_place(open).add(new_leaves(all_steps(open)).to_multiset()));
    } else {
        let rest = open.drop_last();
        match open.last() {
            LayoutModel::Leaf { leaf_id } => {
                lemma_leaves_are_placed(rest);
                let one = layout::leaves(open.last());
                assert(one == Seq::<Seq<char>>::empty().push(leaf_id));
                assert(leaf_bag(open) =~= in_place(open).add(
                    new_leaves(all_steps(open)).to_multiset(),
                ));
            },
            LayoutModel::Split { direction, ratio, first, second } => {
                lemma_total_of_parts(rest, *first, *second);
                let parts = rest.push(*first).push(*second);
                lemma_leaves_are_placed(parts);
                assert(parts.drop_last() == rest.push(*first));
                assert(rest.push(*first).drop_last() == rest);
                let more = all_steps(parts);
                let step = step_for(direction, ratio, *first, *second);
                let one = Seq::<Seq<char>>::empty().push(step.new_leaf);
                assert(new_leaves(all_steps(open)) == one + new_leaves(more));
                vstd::seq_lib::lemma_multiset_commutative(one, new_leaves(more));
                vstd::seq_lib::lemma_multiset_commutative(
                    layout::leaves(*first),
                    layout::leaves(*second),
                );
                assert(leaf_bag(open) =~= leaf_bag(parts));
                assert(in_place(open).add(new_leaves(all_steps(open)).to_multiset()) =~= in_place(
                    parts,
                ).add(new_leaves(more).to_multiset()));
            },
        }
    }
}

/// The leftmost pane and the panes that the splits put in place are together the leaves of the tree:
/// each leaf gets its pane exactly as often as it occurs.
pub proof fn every_leaf_is_placed_once(root: LayoutModel)
    ensures
        new_leaves(all_steps(seq![root])).to_multiset().insert(layout::leftmost(root))
            == layout::leaves(root).to_multiset(),
{
    broadcast use vstd::seq_lib::group_to_multiset_ensures;

    reveal_with_fuel(leaf_bag, 2);
    reveal_with_fuel(in_place, 2);
    let open = seq![root];
    lemma_leaves_are_placed(open);
    assert(open.drop_last() == Seq::<LayoutModel>::empty());
    assert(leaf_bag(open) =~= layout::leaves(root).to_multiset());
    assert(new_leaves(all_steps(open)).to_multiset().insert(layout::leftmost(root)) =~= in_place(
        open,
    ).add(new_leaves(all_steps(open)).to_multiset()));
}

spec fn is_leftmost_of(open: Seq<LayoutModel>, leaf: Seq<char>) -> bool {
    exists|k: int| 0 <= k < open.len() && layout::leftmost(#[trigger] open[k]) == leaf
}

/// Whether `leaf` is put in place by one of the first `n` splits.
pub open spec fn is_placed_before(steps: Seq<SplitStepModel>, n: int, leaf: Seq<char>) -> bool {
    exists|j: int| 0 <= j < n && (#[trigger] steps[j]).new_leaf == leaf
}

proof fn lemma_seeds_are_placed(open: Seq<LayoutModel>)
    ensures
        forall|i: int|
            0 <= i < all_steps(open).len() ==> is_leftmost_of(
                open,
                (#[trigger] all_steps(open)[i]).seed_leaf,
            ) || is_placed_before(all_steps(open), i, all_steps(open)[i].seed_leaf),
    decreases total(open),
{
    if open.len() > 0 {
        let rest = open.drop_last();
        let steps = all_steps(open);
        match open.last() {
            LayoutModel::Leaf { .. } => {
                lemma_seeds_are_placed(rest);
                assert forall|i: int| 0 <= i < steps.len() implies is_leftmost_of(
                    open,
                    (#[trigger] steps[i]).seed_leaf,
                ) || is_placed_before(steps, i, steps[i].seed_leaf) by {
                    if is_leftmost_of(rest, steps[i].seed_leaf) {
                        let k = choose|k: int|
                            0 <= k < rest.len() && layout::leftmost(#[trigger] rest[k])
                                == steps[i].seed_leaf;
                        assert(open[k] == rest[k]);
                    }
                }
            },
            LayoutModel::Split { first, second, .. } => {
                lemma_total_of_parts(rest, *first, *second);
                let parts = rest.push(*first).push(*second);
                let more = all_steps(parts);
                lemma_seeds_are_placed(parts);
                assert forall|i: int| 0 <= i < steps.len() implies is_leftmost_of(
                    open,
                    (#[trigger] steps[i]).seed_leaf,
                ) || is_placed_before(steps, i, steps[i].seed_leaf) by {
                    let seed = steps[i].seed_leaf;
                    if i == 0 {
                        assert(layout::leftmost(open[open.len() - 1]) == seed);
                    } else {
                        assert(steps[i] == more[i - 1]);
                        if is_leftmost_of(parts, seed) {
                            let k = choose|k: int|
                                0 <= k < parts.len() && layout::leftmost(#[trigger] parts[k])
                                    == seed;
                            if k < rest.len() {
                                assert(open[k] == parts[k]);
                            } else if k == rest.len() {
                                assert(layout::leftmost(open[open.len() - 1]) == seed);
                            } else {
                                assert(steps[0].new_leaf == seed);
                            }
                        } else {
                            let j = choose|j: int|
                                0 <= j < i - 1 && (#[trigger] more[j]).new_leaf == seed;
                            assert(steps[j + 1] == more[j]);
                        }
                    }
                }
            },
        }
    }
}

/// The pane that a split divides is in place when its turn comes: it is the leftmost one, or an
/// earlier split put it there.
pub proof fn a_divided_pane_is_in_place(root: LayoutModel, i: int)
    requires
        0 <= i < all_steps(seq![root]).len(),
    ensures
        ({
            let steps = all_steps(seq![root]);
            steps[i].seed_leaf == layout::leftmost(root) || is_placed_before(
                steps,
                i,
                steps[i].seed_leaf,
            )
        }),
{
    lemma_seeds_are_placed(seq![root]);
    assert(all_steps(seq![root])[i] == all_steps(seq![root])[i]);
}

/// Whether `steps` build the tree out of its first pane: the split of the tree itself, which makes the
/// first pane of its second part out of that of its first part, then those of the second part, then
/// those of the first part.
pub open spec fn are_steps(steps: Seq<SplitStepModel>, node: LayoutModel) -> bool
    decreases node,
{
    match node {
        LayoutModel::Leaf { .. } => steps.len() == 0,
        LayoutModel::Split { direction, ratio, first, second } => {
            &&& steps.len() > 0
            &&& steps[0].direction == direction && steps[0].ratio == ratio
            &&& steps[0].seed_leaf == layout::leaves(*first)[0]
            &&& steps[0].new_leaf == layout::leaves(*second)[0]
            &&& exists|k: int|
                1 <= k <= steps.len() && are_steps(#[trigger] steps.subrange(1, k), *second)
                    && are_steps(steps.skip(k), *first)
        },
    }
}

proof fn lemma_steps_of_last(open: Seq<LayoutModel>, node: LayoutModel)
    ensures
        all_steps(open.push(node)) == all_steps(seq![node]) + all_steps(open),
    decreases node,
{
    let none = Seq::<LayoutModel>::empty();
    assert(open.push(node).drop_last() == open);
    assert(seq![node].drop_last() == none);
    assert(all_steps(none) == Seq::<SplitStepModel>::empty());
    match node {
        LayoutModel::Leaf { .. } => {
            assert(all_steps(seq![node]) == Seq::<SplitStepModel>::empty());
            assert(Seq::<SplitStepModel>::empty() + all_steps(open) == all_steps(open));
        },
        LayoutModel::Split { direction, ratio, first, second } => {
            let step = seq![step_for(direction, ratio, *first, *second)];
            lemma_steps_of_last(open.push(*first), *second);
            lemma_steps_of_last(open, *first);
            lemma_steps_of_last(none.push(*first), *second);
            lemma_steps_of_last(none, *first);
            let one = all_steps(seq![*first]);
            let two = all_steps(seq![*second]);
            assert(one + Seq::<SplitStepModel>::empty() == one);
            assert(all_steps(open.push(node)) == step + (two + (one + all_steps(open))));
            assert(all_steps(seq![node]) == step + (two + one));
            assert(step + (two + (one + all_steps(open))) == step + (two + one) + all_steps(open));
        },
    }
}

/// A tree is built split by split, each with its own direction and ratio, out of its first pane.
pub proof fn trees_are_built_from_the_first_pane(node: LayoutModel)
    ensures
        are_steps(all_steps(seq![node]), node),
    decreases node,
{
    let none = Seq::<LayoutModel>::empty();
    let steps = all_steps(seq![node]);
    assert(seq![node].drop_last() == none);
    assert(all_steps(none) == Seq::<SplitStepModel>::empty());
    match node {
        LayoutModel::Leaf { .. } => {},
        LayoutModel::Split { direction, ratio, first, second } => {
            trees_are_built_from_the_first_pane(*first);
            trees_are_built_from_the_first_pane(*second);
            lemma_steps_of_last(none.push(*first), *second);
            lemma_steps_of_last(none, *first);
            let step = seq![step_for(direction, ratio, *first, *second)];
            let one = all_steps(seq![*first]);
            let two = all_steps(seq![*second]);
            assert(one + Seq::<SplitStepModel>::empty() == one);
            assert(none.push(*first) == seq![*first]);
            assert(steps == step + (two + one));
            let k = 1 + two.len() as int;
            assert(steps.subrange(1, k) == two);
            assert(steps.skip(k) == one);
            assert(steps[0] == step[0]);
            layout::the_leftmost_leaf_is_the_first(*first);
            layout::the_leftmost_leaf_is_the_first(*second);
        },
    }
}

/// What a list says, it says item by item: each stands in its place, and none is added or left out.
pub proof fn items_keep_their_places(v: Seq<LayoutNode>, i: int)
    ensures
        models(v).len() == v.len(),
        0 <= i < v.len() ==> models(v)[i] == v[i]@,
{
}

} // verus!
