//! The split tree of a tab: panes as leaves, splits as inner nodes.
use crate::collections::{TextMap, TextSet};
use crate::json;
use crate::json::{Json, JsonModel, Number, NumberModel};
use crate::text;
use vstd::prelude::*;

verus! {

/// How a split divides its area: side by side, or one above the other.
#[derive(Clone, Copy, Debug, PartialEq, Eq, Structural)]
pub enum SplitDirection {
    Horizontal,
    Vertical,
}

/// The split tree of a tab. A split's ratio is the share of its first part, as the number in which it
/// was written.
#[derive(Debug)]
pub enum LayoutNode {
    Leaf { leaf_id: String },
    Split {
        direction: SplitDirection,
        ratio: Number,
        first: Box<LayoutNode>,
        second: Box<LayoutNode>,
    },
}

/// What a [`LayoutNode`] says.
#[verifier::ext_equal]
pub enum LayoutModel {
    Leaf { leaf_id: Seq<char> },
    Split {
        direction: SplitDirection,
        ratio: NumberModel,
        first: Box<LayoutModel>,
        second: Box<LayoutModel>,
    },
}

/// The model of a split tree.
pub open spec fn model_of(node: LayoutNode) -> LayoutModel
    decreases node,
{
    match node {
        LayoutNode::Leaf { leaf_id } => LayoutModel::Leaf { leaf_id: leaf_id@ },
        LayoutNode::Split { direction, ratio, first, second } => LayoutModel::Split {
            direction,
            ratio: ratio@,
            first: Box::new(model_of(*first)),
            second: Box::new(model_of(*second)),
        },
    }
}

impl View for LayoutNode {
    type V = LayoutModel;

    open spec fn view(&self) -> LayoutModel {
        model_of(*self)
    }
}

/// The number one half.
pub open spec fn half() -> NumberModel {
    NumberModel::Float("0.5"@)
}

/// The direction of a split in the hub's words, where `vertical` puts panes side by side.
pub open spec fn direction_in(word: Seq<char>) -> SplitDirection {
    if word == "vertical"@ {
        SplitDirection::Horizontal
    } else {
        SplitDirection::Vertical
    }
}

/// The split tree that a JSON value describes.
pub open spec fn layout_in(value: JsonModel) -> Option<LayoutModel>
    decreases value,
{
    match json::text_member(value, "type"@) {
        None => None,
        Some(kind) => if kind == "leaf"@ {
            match json::text_member(value, "leafId"@) {
                Some(leaf_id) => Some(LayoutModel::Leaf { leaf_id }),
                None => None,
            }
        } else if kind == "split"@ {
            match value {
                JsonModel::Object(members) => if members.contains_key("first"@)
                    && members.contains_key("second"@) {
                    match (
                        json::text_member(value, "direction"@),
                        layout_in(members["first"@]),
                        layout_in(members["second"@]),
                    ) {
                        (Some(word), Some(first), Some(second)) => Some(
                            LayoutModel::Split {
                                direction: direction_in(word),
                                ratio: match json::member(value, "ratio"@) {
                                    Some(JsonModel::Number(n)) => n,
                                    _ => half(),
                                },
                                first: Box::new(first),
                                second: Box::new(second),
                            },
                        ),
                        _ => None,
                    }
                } else {
                    None
                },
                _ => None,
            }
        } else {
            None
        },
    }
}

/// The leaf that is reached by going to the first part at every split.
pub open spec fn leftmost(node: LayoutModel) -> Seq<char>
    decreases node,
{
    match node {
        LayoutModel::Leaf { leaf_id } => leaf_id,
        LayoutModel::Split { first, .. } => leftmost(*first),
    }
}

/// The leaves of a tree, from first to last.
pub open spec fn leaves(node: LayoutModel) -> Seq<Seq<char>>
    decreases node,
{
    match node {
        LayoutModel::Leaf { leaf_id } => seq![leaf_id],
        LayoutModel::Split { first, second, .. } => leaves(*first) + leaves(*second),
    }
}

/// The tree without the leaves that are not live. A split that loses a part becomes the other part.
pub open spec fn pruned_to(node: LayoutModel, live: Set<Seq<char>>) -> Option<LayoutModel>
    decreases node,
{
    match node {
        LayoutModel::Leaf { leaf_id } => if live.contains(leaf_id) {
            Some(node)
        } else {
            None
        },
        LayoutModel::Split { direction, ratio, first, second } => match (
            pruned_to(*first, live),
            pruned_to(*second, live),
        ) {
            (Some(first), Some(second)) => Some(
                LayoutModel::Split {
                    direction,
                    ratio,
                    first: Box::new(first),
                    second: Box::new(second),
                },
            ),
            (Some(child), None) => Some(child),
            (None, Some(child)) => Some(child),
            (None, None) => None,
        },
    }
}

/// The terminal of a leaf, empty where it has none.
pub open spec fn pty_of(ptys: Map<Seq<char>, Seq<char>>, leaf_id: Seq<char>) -> Seq<char> {
    if ptys.contains_key(leaf_id) {
        ptys[leaf_id]
    } else {
        ""@
    }
}

/// The letter that stands for a direction in a fingerprint.
pub open spec fn axis(direction: SplitDirection) -> char {
    match direction {
        SplitDirection::Horizontal => 'h',
        SplitDirection::Vertical => 'v',
    }
}

/// The fingerprint of a tree: directions, shape and terminals, but not ratios.
pub open spec fn signature_of(node: LayoutModel, ptys: Map<Seq<char>, Seq<char>>) -> Seq<char>
    decreases node,
{
    match node {
        LayoutModel::Leaf { leaf_id } => pty_of(ptys, leaf_id),
        LayoutModel::Split { direction, first, second, .. } => seq![axis(direction), '(']
            + signature_of(*first, ptys) + seq![','] + signature_of(*second, ptys) + seq![')'],
    }
}

/// The texts that a map of strings holds.
pub open spec fn text_values(m: Map<Seq<char>, String>) -> Map<Seq<char>, Seq<char>> {
    m.map_values(|s: String| s@)
}

/// The same tree with no ratios.
pub open spec fn shape(node: LayoutModel, ptys: Map<Seq<char>, Seq<char>>) -> LayoutModel
    decreases node,
{
    match node {
        LayoutModel::Leaf { leaf_id } => LayoutModel::Leaf { leaf_id: pty_of(ptys, leaf_id) },
        LayoutModel::Split { direction, ratio, first, second } => LayoutModel::Split {
            direction,
            ratio: half(),
            first: Box::new(shape(*first, ptys)),
            second: Box::new(shape(*second, ptys)),
        },
    }
}

impl LayoutNode {
    /// The split tree that `value` describes.
    pub fn parse(value: &Json) -> (r: Option<LayoutNode>)
        ensures
            match layout_in(value@) {
                Some(m) => r matches Some(node) && node@ == m,
                None => r is None,
            },
        decreases value@,
    {
        let kind = match value.get_text("type") {
            Some(kind) => kind,
            None => return None,
        };
        if text::same(kind.as_str(), "leaf") {
            return match value.get_text("leafId") {
                Some(leaf_id) => Some(LayoutNode::Leaf { leaf_id }),
                None => None,
            };
        }
        if !text::same(kind.as_str(), "split") {
            return None;
        }
        let (first, second) = match (value.get("first"), value.get("second")) {
            (Some(first), Some(second)) => (first, second),
            _ => return None,
        };
        proof {
            let members = value@->Object_0;
            assert(members["first"@] == first@);
            assert(members["second"@] == second@);
        }
        let word = match value.get_text("direction") {
            Some(word) => word,
            None => return None,
        };
        let direction = if text::same(word.as_str(), "vertical") {
            SplitDirection::Horizontal
        } else {
            SplitDirection::Vertical
        };
        let ratio = match value.get("ratio") {
            Some(Json::Number(n)) => n.copy(),
            _ => Number::Float("0.5".to_owned()),
        };
        match (LayoutNode::parse(first), LayoutNode::parse(second)) {
            (Some(first), Some(second)) => Some(
                LayoutNode::Split { direction, ratio, first: Box::new(first), second: Box::new(second) },
            ),
            _ => None,
        }
    }

    /// The leaf that is reached by going to the first part at every split.
    pub fn leftmost_leaf(&self) -> (r: &str)
        ensures
            r@ == leftmost(self@),
        decreases self,
    {
        match self {
            LayoutNode::Leaf { leaf_id } => leaf_id.as_str(),
            LayoutNode::Split { first, .. } => first.leftmost_leaf(),
        }
    }

    /// Another value of the same tree.
    pub fn copy(&self) -> (r: LayoutNode)
        ensures
            r@ == self@,
        decreases self,
    {
        match self {
            LayoutNode::Leaf { leaf_id } => LayoutNode::Leaf { leaf_id: leaf_id.clone() },
            LayoutNode::Split { direction, ratio, first, second } => {
                let first = first.copy();
                let second = second.copy();
                LayoutNode::Split {
                    direction: *direction,
                    ratio: ratio.copy(),
                    first: Box::new(first),
                    second: Box::new(second),
                }
            },
        }
    }

    /// The tree without the leaves that are not live. A split that loses a part becomes the other
    /// part.
    pub fn pruned(&self, live: &TextSet) -> (r: Option<LayoutNode>)
        ensures
            match pruned_to(self@, live@) {
                Some(m) => r matches Some(node) && node@ == m,
                None => r is None,
            },
        decreases self,
    {
        match self {
            LayoutNode::Leaf { leaf_id } => if live.contains(leaf_id.as_str()) {
                Some(LayoutNode::Leaf { leaf_id: leaf_id.clone() })
            } else {
                None
            },
            LayoutNode::Split { direction, ratio, first, second } => match (
                first.pruned(live),
                second.pruned(live),
            ) {
                (Some(first), Some(second)) => Some(
                    LayoutNode::Split {
                        direction: *direction,
                        ratio: ratio.copy(),
                        first: Box::new(first),
                        second: Box::new(second),
                    },
                ),
                (Some(child), None) => Some(child),
                (None, Some(child)) => Some(child),
                (None, None) => None,
            },
        }
    }

    /// Puts the fingerprint of the tree after `out`.
    fn push_signature(&self, ptys: &TextMap<String>, out: &mut String)
        ensures
            final(out)@ == old(out)@ + signature_of(self@, text_values(ptys@)),
        decreases self,
    {
        let ghost start = out@;
        match self {
            LayoutNode::Leaf { leaf_id } => {
                if let Some(pty) = ptys.get(leaf_id.as_str()) {
                    out.push_str(pty.as_str());
                } else {
                    proof {
                        reveal_strlit("");
                        assert(out@ == start + ""@);
                    }
                }
            },
            LayoutNode::Split { direction, first, second, .. } => {
                out.push(
                    match direction {
                        SplitDirection::Horizontal => 'h',
                        SplitDirection::Vertical => 'v',
                    },
                );
                out.push('(');
                first.push_signature(ptys, out);
                out.push(',');
                second.push_signature(ptys, out);
                out.push(')');
                assert(out@ == start + signature_of(self@, text_values(ptys@)));
            },
        }
    }

    /// The fingerprint of the tree: directions, shape and terminals, but not ratios.
    pub fn signature(&self, ptys: &TextMap<String>) -> (r: String)
        ensures
            r@ == signature_of(self@, text_values(ptys@)),
    {
        let mut out = String::new();
        self.push_signature(ptys, &mut out);
        out
    }
}

/// The hub's word for a direction: panes that stand side by side are `vertical` there.
pub fn orca_direction(direction: SplitDirection) -> (r: &'static str)
    ensures
        r@ == (match direction {
            SplitDirection::Horizontal => "vertical"@,
            SplitDirection::Vertical => "horizontal"@,
        }),
        direction_in(r@) == direction,
{
    proof {
        reveal_strlit("vertical");
        reveal_strlit("horizontal");
        assert("vertical"@[0] == 'v');
        assert("horizontal"@[0] == 'h');
    }
    match direction {
        SplitDirection::Horizontal => "vertical",
        SplitDirection::Vertical => "horizontal",
    }
}

/// Pruning keeps exactly the live leaves, in their order, and gives no tree only where none is live.
pub proof fn pruning_keeps_the_live_leaves(node: LayoutModel, live: Set<Seq<char>>)
    ensures
        match pruned_to(node, live) {
            Some(left) => leaves(left) == leaves(node).filter(|l: Seq<char>| live.contains(l))
                && live.contains(leftmost(left)),
            None => leaves(node).filter(|l: Seq<char>| live.contains(l)).len() == 0,
        },
    decreases node,
{
    let is_live = |l: Seq<char>| live.contains(l);
    match node {
        LayoutModel::Leaf { leaf_id } => {
            reveal(Seq::filter);
            assert(leaves(node).drop_last() == Seq::<Seq<char>>::empty());
            assert(leaves(node).drop_last().filter(is_live) == Seq::<Seq<char>>::empty());
            assert(leaves(node).last() == leaf_id);
        },
        LayoutModel::Split { first, second, .. } => {
            pruning_keeps_the_live_leaves(*first, live);
            pruning_keeps_the_live_leaves(*second, live);
            Seq::filter_distributes_over_add(leaves(*first), leaves(*second), is_live);
            let a = leaves(*first).filter(is_live);
            let b = leaves(*second).filter(is_live);
            assert(a.len() == 0 ==> a + b == b);
            assert(b.len() == 0 ==> a + b == a);
        },
    }
}

/// Pruning a pruned tree again to the same leaves changes nothing.
pub proof fn pruning_twice_is_pruning_once(node: LayoutModel, live: Set<Seq<char>>)
    ensures
        pruned_to(node, live) matches Some(left) ==> pruned_to(left, live) == Some(left),
    decreases node,
{
    if let LayoutModel::Split { first, second, .. } = node {
        pruning_twice_is_pruning_once(*first, live);
        pruning_twice_is_pruning_once(*second, live);
    }
}

/// Whether `c` is one of the marks that a fingerprint is written with.
pub open spec fn is_mark(c: char) -> bool {
    c == '(' || c == ',' || c == ')'
}

/// Whether no terminal of the tree has one of those marks in its name.
pub open spec fn plainly_named(node: LayoutModel, ptys: Map<Seq<char>, Seq<char>>) -> bool
    decreases node,
{
    match node {
        LayoutModel::Leaf { leaf_id } => forall|i: int|
            0 <= i < pty_of(ptys, leaf_id).len() ==> !is_mark(#[trigger] pty_of(ptys, leaf_id)[i]),
        LayoutModel::Split { first, second, .. } => plainly_named(*first, ptys) && plainly_named(
            *second,
            ptys,
        ),
    }
}

spec fn may_follow(rest: Seq<char>) -> bool {
    rest.len() == 0 || rest[0] == ',' || rest[0] == ')'
}

proof fn lemma_names_end_alike(a: Seq<char>, x: Seq<char>, b: Seq<char>, y: Seq<char>)
    requires
        forall|i: int| 0 <= i < a.len() ==> !is_mark(#[trigger] a[i]),
        forall|i: int| 0 <= i < b.len() ==> !is_mark(#[trigger] b[i]),
        may_follow(x),
        may_follow(y),
        a + x == b + y,
    ensures
        a == b,
        x == y,
{
    let l = a + x;
    let r = b + y;
    assert(l.len() == a.len() + x.len());
    assert(r.len() == b.len() + y.len());
    if a.len() < b.len() {
        assert(r[a.len() as int] == b[a.len() as int]);
        assert(l[a.len() as int] == x[0]);
    }
    if b.len() < a.len() {
        assert(l[b.len() as int] == a[b.len() as int]);
        assert(r[b.len() as int] == y[0]);
    }
    assert(l.take(a.len() as int) == a);
    assert(r.take(b.len() as int) == b);
    assert(l.skip(a.len() as int) == x);
    assert(r.skip(b.len() as int) == y);
}

proof fn lemma_leaf_is_no_split(a: Seq<char>, x: Seq<char>, split: Seq<char>)
    requires
        forall|i: int| 0 <= i < a.len() ==> !is_mark(#[trigger] a[i]),
        may_follow(x),
        split.len() >= 2,
        split[0] == 'h' || split[0] == 'v',
        split[1] == '(',
    ensures
        a + x != split,
{
    let l = a + x;
    if l == split {
        if a.len() == 0 {
            assert(l[0] == x[0]);
        } else if a.len() == 1 {
            assert(l[1] == x[0]);
        } else {
            assert(l[1] == a[1]);
        }
    }
}

proof fn lemma_signatures_end_alike(
    a: LayoutModel,
    pa: Map<Seq<char>, Seq<char>>,
    x: Seq<char>,
    b: LayoutModel,
    pb: Map<Seq<char>, Seq<char>>,
    y: Seq<char>,
)
    requires
        plainly_named(a, pa),
        plainly_named(b, pb),
        may_follow(x),
        may_follow(y),
        signature_of(a, pa) + x == signature_of(b, pb) + y,
    ensures
        shape(a, pa) == shape(b, pb),
        x == y,
    decreases a,
{
    let sa = signature_of(a, pa);
    let sb = signature_of(b, pb);
    match (a, b) {
        (LayoutModel::Leaf { .. }, LayoutModel::Leaf { .. }) => {
            lemma_names_end_alike(sa, x, sb, y);
        },
        (LayoutModel::Leaf { .. }, LayoutModel::Split { .. }) => {
            assert((sb + y)[0] == sb[0] && (sb + y)[1] == sb[1]);
            lemma_leaf_is_no_split(sa, x, sb + y);
        },
        (LayoutModel::Split { .. }, LayoutModel::Leaf { .. }) => {
            assert((sa + x)[0] == sa[0] && (sa + x)[1] == sa[1]);
            lemma_leaf_is_no_split(sb, y, sa + x);
        },
        (
            LayoutModel::Split { direction: da, first: a1, second: a2, .. },
            LayoutModel::Split { direction: db, first: b1, second: b2, .. },
        ) => {
            let sa1 = signature_of(*a1, pa);
            let sa2 = signature_of(*a2, pa);
            let sb1 = signature_of(*b1, pb);
            let sb2 = signature_of(*b2, pb);
            let ax = seq![')'] + x;
            let by = seq![')'] + y;
            let a_rest = seq![','] + sa2 + ax;
            let b_rest = seq![','] + sb2 + by;
            assert((sa + x)[0] == axis(da));
            assert((sb + y)[0] == axis(db));
            assert((sa + x).skip(2) == sa1 + a_rest);
            assert((sb + y).skip(2) == sb1 + b_rest);
            assert(a_rest[0] == ',' && b_rest[0] == ',');
            lemma_signatures_end_alike(*a1, pa, a_rest, *b1, pb, b_rest);
            assert(a_rest.skip(1) == sa2 + ax);
            assert(b_rest.skip(1) == sb2 + by);
            assert(ax[0] == ')' && by[0] == ')');
            lemma_signatures_end_alike(*a2, pa, ax, *b2, pb, by);
            assert(ax.skip(1) == x);
            assert(by.skip(1) == y);
        },
    }
}

/// Two trees of the same shape have the same fingerprint, whatever their ratios.
pub proof fn signatures_do_not_hold_ratios(
    a: LayoutModel,
    pa: Map<Seq<char>, Seq<char>>,
    b: LayoutModel,
    pb: Map<Seq<char>, Seq<char>>,
)
    requires
        shape(a, pa) == shape(b, pb),
    ensures
        signature_of(a, pa) == signature_of(b, pb),
    decreases a,
{
    if let (
        LayoutModel::Split { first: a1, second: a2, .. },
        LayoutModel::Split { first: b1, second: b2, .. },
    ) = (a, b) {
        assert(shape(a, pa)->first == shape(b, pb)->first);
        assert(shape(a, pa)->second == shape(b, pb)->second);
        signatures_do_not_hold_ratios(*a1, pa, *b1, pb);
        signatures_do_not_hold_ratios(*a2, pa, *b2, pb);
    }
}

/// Where no terminal has a bracket or a comma in its name, two trees with the same fingerprint have
/// the same shape: the same directions, the same tree and the same terminals.
pub proof fn signatures_tell_shapes_apart(
    a: LayoutModel,
    pa: Map<Seq<char>, Seq<char>>,
    b: LayoutModel,
    pb: Map<Seq<char>, Seq<char>>,
)
    requires
        plainly_named(a, pa),
        plainly_named(b, pb),
        signature_of(a, pa) == signature_of(b, pb),
    ensures
        shape(a, pa) == shape(b, pb),
{
    let none = Seq::<char>::empty();
    assert(signature_of(a, pa) + none == signature_of(a, pa));
    assert(signature_of(b, pb) + none == signature_of(b, pb));
    lemma_signatures_end_alike(a, pa, none, b, pb, none);
}

/// Whether a JSON value describes a tree in the words of the hub: a leaf by its name, a split by its
/// two parts, where `vertical` puts panes side by side. The ratio is the number that the value has
/// under that name, and a half only where it has none.
pub open spec fn describes(value: JsonModel, node: LayoutModel) -> bool
    decreases node,
{
    &&& value is Object
    &&& match node {
        LayoutModel::Leaf { leaf_id } => {
            let members = value->Object_0;
            &&& members.contains_pair("type"@, JsonModel::Text("leaf"@))
            &&& members.contains_pair("leafId"@, JsonModel::Text(leaf_id))
        },
        LayoutModel::Split { direction, ratio, first, second } => {
            let members = value->Object_0;
            &&& members.contains_pair("type"@, JsonModel::Text("split"@))
            &&& members.contains_key("direction"@) && members["direction"@] is Text
            &&& direction is Horizontal <==> members["direction"@] == JsonModel::Text("vertical"@)
            &&& (members.contains_pair("ratio"@, JsonModel::Number(ratio)) || ((
            members.contains_key("ratio"@) ==> !(members["ratio"@] is Number)) && ratio
                == NumberModel::Float("0.5"@)))
            &&& members.contains_key("first"@) && describes(members["first"@], *first)
            &&& members.contains_key("second"@) && describes(members["second"@], *second)
        },
    }
}

/// A tree is read out of a JSON value just where the value describes that tree, in every ratio,
/// direction and leaf.
pub proof fn trees_are_read_as_described(value: JsonModel, node: LayoutModel)
    ensures
        layout_in(value) == Some(node) <==> describes(value, node),
    decreases node,
{
    reveal_strlit("leaf");
    reveal_strlit("split");
    assert("leaf"@.len() != "split"@.len());
    if let JsonModel::Object(members) = value {
        if let LayoutModel::Split { first, second, .. } = node {
            trees_are_read_as_described(members["first"@], *first);
            trees_are_read_as_described(members["second"@], *second);
        }
    }
}

/// A tree as the hub writes it in JSON.
pub open spec fn hub_json(node: LayoutModel) -> JsonModel
    decreases node,
{
    match node {
        LayoutModel::Leaf { leaf_id } => JsonModel::Object(
            map![
                "type"@ => JsonModel::Text("leaf"@),
                "leafId"@ => JsonModel::Text(leaf_id),
            ],
        ),
        LayoutModel::Split { direction, ratio, first, second } => JsonModel::Object(
            map![
                "type"@ => JsonModel::Text("split"@),
                "direction"@ => JsonModel::Text(
                    match direction {
                        SplitDirection::Horizontal => "vertical"@,
                        SplitDirection::Vertical => "horizontal"@,
                    },
                ),
                "ratio"@ => JsonModel::Number(ratio),
                "first"@ => hub_json(*first),
                "second"@ => hub_json(*second),
            ],
        ),
    }
}

/// A tree that is written as the hub's JSON is read back as the same tree, ratios included.
pub proof fn trees_read_back(node: LayoutModel)
    ensures
        layout_in(hub_json(node)) == Some(node),
    decreases node,
{
    reveal_strlit("type");
    reveal_strlit("leafId");
    reveal_strlit("direction");
    reveal_strlit("ratio");
    reveal_strlit("first");
    reveal_strlit("second");
    reveal_strlit("vertical");
    reveal_strlit("horizontal");
    assert("vertical"@.len() != "horizontal"@.len());
    assert("ratio"@[0] == 'r' && "first"@[0] == 'f');
    assert("type"@.len() == 4 && "leafId"@.len() == 6 && "direction"@.len() == 9);
    assert("ratio"@.len() == 5 && "first"@.len() == 5 && "second"@.len() == 6);
    if let LayoutModel::Split { first, second, .. } = node {
        trees_read_back(*first);
        trees_read_back(*second);
        trees_are_read_as_described(hub_json(*first), *first);
        trees_are_read_as_described(hub_json(*second), *second);
    }
    assert(describes(hub_json(node), node));
    trees_are_read_as_described(hub_json(node), node);
}

/// A split with live leaves in both parts stays a split, with its direction, its ratio and its parts
/// in their order. Where only one part has live leaves, that part takes its place.
pub proof fn pruning_keeps_splits(
    direction: SplitDirection,
    ratio: NumberModel,
    first: LayoutModel,
    second: LayoutModel,
    live: Set<Seq<char>>,
)
    ensures
        ({
            let node = LayoutModel::Split {
                direction,
                ratio,
                first: Box::new(first),
                second: Box::new(second),
            };
            let one = exists|l: Seq<char>| #[trigger] leaves(first).contains(l) && live.contains(l);
            let two = exists|l: Seq<char>| #[trigger] leaves(second).contains(l) && live.contains(l);
            &&& one && two ==> pruned_to(node, live) == Some(
                LayoutModel::Split {
                    direction,
                    ratio,
                    first: Box::new(pruned_to(first, live)->0),
                    second: Box::new(pruned_to(second, live)->0),
                },
            )
            &&& one && !two ==> pruned_to(node, live) == pruned_to(first, live)
            &&& !one && two ==> pruned_to(node, live) == pruned_to(second, live)
            &&& !one && !two ==> pruned_to(node, live) is None
        }),
{
    lemma_pruned_where_live(first, live);
    lemma_pruned_where_live(second, live);
}

proof fn lemma_pruned_where_live(node: LayoutModel, live: Set<Seq<char>>)
    ensures
        pruned_to(node, live) is Some <==> exists|l: Seq<char>| #[trigger]
            leaves(node).contains(l) && live.contains(l),
    decreases node,
{
    match node {
        LayoutModel::Leaf { leaf_id } => {
            assert(leaves(node)[0] == leaf_id);
            assert(leaves(node).contains(leaf_id));
        },
        LayoutModel::Split { first, second, .. } => {
            lemma_pruned_where_live(*first, live);
            lemma_pruned_where_live(*second, live);
            let a = leaves(*first);
            let b = leaves(*second);
            assert forall|l: Seq<char>| #[trigger] leaves(node).contains(l) <==> a.contains(l)
                || b.contains(l) by {
                if a.contains(l) {
                    let i = choose|i: int| 0 <= i < a.len() && a[i] == l;
                    assert((a + b)[i] == l);
                }
                if b.contains(l) {
                    let i = choose|i: int| 0 <= i < b.len() && b[i] == l;
                    assert((a + b)[a.len() + i] == l);
                }
            }
            if pruned_to(*first, live) is Some {
                let l = choose|l: Seq<char>| #[trigger] a.contains(l) && live.contains(l);
                assert(leaves(node).contains(l));
            }
            if pruned_to(*second, live) is Some {
                let l = choose|l: Seq<char>| #[trigger] b.contains(l) && live.contains(l);
                assert(leaves(node).contains(l));
            }
        },
    }
}

/// A tree whose leaves are all live is left as it is.
pub proof fn pruning_nothing_changes_nothing(node: LayoutModel, live: Set<Seq<char>>)
    requires
        forall|l: Seq<char>| #[trigger] leaves(node).contains(l) ==> live.contains(l),
    ensures
        pruned_to(node, live) == Some(node),
        leftmost(node) == leaves(node)[0],
    decreases node,
{
    match node {
        LayoutModel::Leaf { leaf_id } => {
            assert(leaves(node)[0] == leaf_id);
            assert(leaves(node).contains(leaf_id));
        },
        LayoutModel::Split { first, second, .. } => {
            let a = leaves(*first);
            let b = leaves(*second);
            assert forall|l: Seq<char>| #[trigger] a.contains(l) implies live.contains(l) by {
                let i = choose|i: int| 0 <= i < a.len() && a[i] == l;
                assert((a + b)[i] == l);
                assert(leaves(node).contains(l));
            }
            assert forall|l: Seq<char>| #[trigger] b.contains(l) implies live.contains(l) by {
                let i = choose|i: int| 0 <= i < b.len() && b[i] == l;
                assert((a + b)[a.len() + i] == l);
                assert(leaves(node).contains(l));
            }
            pruning_nothing_changes_nothing(*first, live);
            pruning_nothing_changes_nothing(*second, live);
            lemma_has_leaves(*first);
        },
    }
}

proof fn lemma_has_leaves(node: LayoutModel)
    ensures
        leaves(node).len() > 0,
    decreases node,
{
    if let LayoutModel::Split { first, second, .. } = node {
        lemma_has_leaves(*first);
    }
}

/// The leaf that is reached by going to the first part at every split is the first of all leaves.
pub proof fn the_leftmost_leaf_is_the_first(node: LayoutModel)
    ensures
        leaves(node).len() > 0,
        leftmost(node) == leaves(node)[0],
        node matches LayoutModel::Leaf { leaf_id } ==> leaves(node) == seq![leaf_id],
        node matches LayoutModel::Split { first, second, .. } ==> leaves(node) == leaves(*first)
            + leaves(*second),
    decreases node,
{
    if let LayoutModel::Split { first, second, .. } = node {
        the_leftmost_leaf_is_the_first(*first);
    }
}

} // verus!
