//! Which tab of the screen stands for which tab of the hub, and the order in which a window has them.
use crate::lists;
use crate::orca_mux::domain::tab_order;
use vstd::prelude::*;

verus! {

/// How many of the first `n` tabs are the tab `id`.
pub open spec fn occurrences(tabs: Seq<usize>, id: usize, n: int) -> nat
    decreases n,
{
    if n <= 0 {
        0
    } else if tabs[n - 1] == id {
        occurrences(tabs, id, n - 1) + 1
    } else {
        occurrences(tabs, id, n - 1)
    }
}

fn count_of(tabs: &[usize], id: usize) -> (r: usize)
    ensures
        r == occurrences(tabs@, id, tabs@.len() as int),
{
    let mut n: usize = 0;
    let mut i: usize = 0;
    while i < tabs.len()
        invariant
            i <= tabs@.len(),
            n <= i,
            n == occurrences(tabs@, id, i as int),
        decreases tabs@.len() - i,
    {
        if tabs[i] == id {
            n += 1;
        }
        i += 1;
    }
    n
}

/// Whether `id` is the tab that most of `tabs` are, the first of those where several are as many.
pub open spec fn is_majority(tabs: Seq<usize>, id: usize) -> bool {
    exists|k: int| #[trigger]
        is_majority_at(tabs, k) && tabs[k] == id
}

/// Whether the tab at index `k` occurs most often, and each one before it less often.
pub open spec fn is_majority_at(tabs: Seq<usize>, k: int) -> bool {
    let n = tabs.len() as int;
    &&& 0 <= k < n
    &&& forall|j: int|
        0 <= j < n ==> occurrences(tabs, #[trigger] tabs[j], n) <= occurrences(tabs, tabs[k], n)
    &&& forall|j: int|
        0 <= j < k ==> occurrences(tabs, #[trigger] tabs[j], n) < occurrences(tabs, tabs[k], n)
}

/// The tab that most panes of a visual tab are in, by the tab that each of them is in.
pub fn majority_tab(tabs: &[usize]) -> (r: Option<usize>)
    ensures
        match r {
            Some(id) => is_majority(tabs@, id),
            None => tabs@.len() == 0,
        },
{
    let mut best: Option<(usize, usize)> = None;
    let mut i: usize = 0;
    let ghost n = tabs@.len() as int;
    while i < tabs.len()
        invariant
            i <= tabs@.len(),
            n == tabs@.len(),
            i > 0 ==> best is Some,
            best matches Some((k, score)) ==> k < i && score == occurrences(tabs@, tabs@[k as int], n)
                && (forall|j: int|
                0 <= j < i ==> occurrences(tabs@, #[trigger] tabs@[j], n) <= score) && (forall|j: int|
                0 <= j < k ==> occurrences(tabs@, #[trigger] tabs@[j], n) < score),
        decreases tabs@.len() - i,
    {
        let score: usize = count_of(tabs, tabs[i]);
        let better = match best {
            Some((_, top)) => score > top,
            None => true,
        };
        if better {
            best = Some((i, score));
        }
        i += 1;
    }
    match best {
        Some((k, _)) => {
            assert(is_majority_at(tabs@, k as int));
            Some(tabs[k])
        },
        None => None,
    }
}

/// The first tab from index `i` on that is known.
pub open spec fn first_known(tabs: Seq<Option<usize>>, i: int) -> Option<usize>
    decreases tabs.len() - i,
{
    if i < 0 || i >= tabs.len() {
        None
    } else if tabs[i] is Some {
        tabs[i]
    } else {
        first_known(tabs, i + 1)
    }
}

/// The tabs of the screen that the first `n` visual tabs stand for, each once: that of the first pane
/// of each whose tab is known.
pub open spec fn tabs_in_order(visual: Seq<Seq<Option<usize>>>, n: int) -> Seq<usize>
    decreases n,
{
    if n <= 0 {
        Seq::empty()
    } else {
        let before = tabs_in_order(visual, n - 1);
        match first_known(visual[n - 1], 0) {
            Some(id) => if before.contains(id) {
                before
            } else {
                before.push(id)
            },
            None => before,
        }
    }
}

/// The tabs that the panes of each visual tab are in.
pub open spec fn pane_tabs(visual: Seq<Vec<Option<usize>>>) -> Seq<Seq<Option<usize>>> {
    visual.map_values(|v: Vec<Option<usize>>| v@)
}

fn holds_tab(tabs: &[usize], id: usize) -> (r: bool)
    ensures
        r == tabs@.contains(id),
{
    let mut i: usize = 0;
    while i < tabs.len()
        invariant
            i <= tabs@.len(),
            forall|j: int| 0 <= j < i ==> tabs@[j] != id,
        decreases tabs@.len() - i,
    {
        if tabs[i] == id {
            return true;
        }
        i += 1;
    }
    false
}

fn find_known(tabs: &Vec<Option<usize>>) -> (r: Option<usize>)
    ensures
        r == first_known(tabs@, 0),
{
    let mut i: usize = 0;
    while i < tabs.len()
        invariant
            i <= tabs@.len(),
            first_known(tabs@, 0) == first_known(tabs@, i as int),
        decreases tabs@.len() - i,
    {
        if tabs[i].is_some() {
            return tabs[i];
        }
        i += 1;
    }
    None
}

/// The tabs of the screen in the order of the hub, from the tabs that the panes of each visual tab
/// are in.
pub fn desired_tabs(visual: &[Vec<Option<usize>>]) -> (r: Vec<usize>)
    ensures
        r@ == tabs_in_order(pane_tabs(visual@), visual@.len() as int),
        r@.no_duplicates(),
{
    let ghost all = pane_tabs(visual@);
    let mut out: Vec<usize> = Vec::new();
    let mut i: usize = 0;
    while i < visual.len()
        invariant
            i <= visual@.len(),
            all == pane_tabs(visual@),
            out@ == tabs_in_order(all, i as int),
            out@.no_duplicates(),
        decreases visual@.len() - i,
    {
        assert(all[i as int] == visual@[i as int]@);
        if let Some(id) = find_known(&visual[i]) {
            if !holds_tab(&out, id) {
                out.push(id);
            }
        }
        i += 1;
    }
    out
}

/// The index at which `id` stands, from index `i` on.
pub open spec fn index_of(window: Seq<usize>, id: usize, i: int) -> int
    decreases window.len() - i,
{
    if i < 0 || i >= window.len() || window[i] == id {
        i
    } else {
        index_of(window, id, i + 1)
    }
}

/// The index at which the member number `k` stands, from index `i` on.
pub open spec fn slot_of(window: Seq<usize>, members: Seq<usize>, k: int, i: int) -> int
    decreases window.len() - i,
{
    if i < 0 || i >= window.len() {
        i
    } else if members.contains(window[i]) {
        if k <= 0 {
            i
        } else {
            slot_of(window, members, k - 1, i + 1)
        }
    } else {
        slot_of(window, members, k, i + 1)
    }
}

/// A window once the tab at `from` is taken out and put at `to`.
pub open spec fn moved(window: Seq<usize>, from: int, to: int) -> Seq<usize> {
    window.remove(from).insert(to, window[from])
}

/// A window once the first `n` of the members stand in the first `n` places that members have. A
/// member for which there is no place left stays where it is.
pub open spec fn arranged(window: Seq<usize>, members: Seq<usize>, n: int) -> Seq<usize>
    decreases n,
{
    if n <= 0 {
        window
    } else {
        let before = arranged(window, members, n - 1);
        let to = slot_of(before, members, n - 1, 0);
        let from = index_of(before, members[n - 1], 0);
        if from < before.len() && to < before.len() && from != to {
            moved(before, from, to)
        } else {
            before
        }
    }
}

proof fn lemma_index_of(window: Seq<usize>, id: usize, i: int)
    requires
        0 <= i <= window.len(),
        exists|j: int| i <= j < window.len() && window[j] == id,
    ensures
        i <= index_of(window, id, i) < window.len(),
        window[index_of(window, id, i)] == id,
    decreases window.len() - i,
{
    if i < window.len() && window[i] != id {
        lemma_index_of(window, id, i + 1);
    }
}

proof fn lemma_slot_of(window: Seq<usize>, members: Seq<usize>, k: int, i: int)
    requires
        0 <= i <= window.len(),
        0 <= k < tab_order::among(window.skip(i), members).len(),
    ensures
        i <= slot_of(window, members, k, i) < window.len(),
        members.contains(window[slot_of(window, members, k, i)]),
        tab_order::among(window.subrange(i, slot_of(window, members, k, i)), members).len() == k,
        tab_order::among(window.skip(i), members)[k] == window[slot_of(window, members, k, i)],
    decreases window.len() - i,
{
    if i == window.len() {
        assert(window.skip(i) == Seq::<usize>::empty());
    } else {
        let x = window[i];
        assert(window.skip(i) == seq![x] + window.skip(i + 1));
        tab_order::lemma_among_add(seq![x], window.skip(i + 1), members);
        tab_order::lemma_among_one(x, members);
        let rest = tab_order::among(window.skip(i + 1), members);
        if members.contains(x) {
            if k == 0 {
                assert(window.subrange(i, i) == Seq::<usize>::empty());
                assert((seq![x] + rest)[0] == x);
            } else {
                lemma_slot_of(window, members, k - 1, i + 1);
                let s = slot_of(window, members, k, i);
                assert(window.subrange(i, s) == seq![x] + window.subrange(i + 1, s));
                tab_order::lemma_among_add(seq![x], window.subrange(i + 1, s), members);
                assert((seq![x] + rest)[k] == rest[k - 1]);
            }
        } else {
            assert(Seq::<usize>::empty() + rest == rest);
            lemma_slot_of(window, members, k, i + 1);
            let s = slot_of(window, members, k, i);
            assert(window.subrange(i, s) == seq![x] + window.subrange(i + 1, s));
            tab_order::lemma_among_add(seq![x], window.subrange(i + 1, s), members);
        }
    }
}

/// Whether the first `n` of the members stand first among the members in a window that has each of
/// them, and each tab, once.
spec fn is_placed(window: Seq<usize>, members: Seq<usize>, n: int) -> bool {
    &&& window.no_duplicates()
    &&& forall|i: int| 0 <= i < members.len() ==> window.contains(#[trigger] members[i])
    &&& tab_order::among(window, members).take(n) == members.take(n)
    &&& tab_order::among(window, members).len() == members.len()
}

proof fn lemma_step(window: Seq<usize>, members: Seq<usize>, n: int)
    requires
        members.no_duplicates(),
        0 <= n < members.len(),
        is_placed(window, members, n),
    ensures
        ({
            let to = slot_of(window, members, n, 0);
            let from = index_of(window, members[n], 0);
            let after = if from == to {
                window
            } else {
                moved(window, from, to)
            };
            &&& 0 <= to <= from < window.len()
            &&& is_placed(after, members, n + 1)
            &&& tab_order::besides(after, members) == tab_order::besides(window, members)
        }),
{
    let id = members[n];
    let f = tab_order::among(window, members);
    assert(window.skip(0) == window);
    lemma_slot_of(window, members, n, 0);
    assert(window.contains(members[n]));
    lemma_index_of(window, id, 0);
    let to = slot_of(window, members, n, 0);
    let from = index_of(window, id, 0);
    let head = window.subrange(0, to);
    assert(f[n] == window[to]);
    if from < to {
        // The member would stand among those that are placed already.
        assert(head[from] == id);
        assert(head.contains(id));
        assert(members.contains(members[n]));
        tab_order::lemma_among_holds(head, members, id);
        let fh = tab_order::among(head, members);
        assert(window == head + window.skip(to));
        tab_order::lemma_among_add(head, window.skip(to), members);
        assert(f.take(n) == fh);
        let j = choose|j: int| 0 <= j < fh.len() && fh[j] == id;
        assert(members.take(n)[j] == id);
        assert(members[j] == id);
        assert(false);
    } else if from == to {
        assert(f.take(n + 1) == f.take(n).push(f[n]));
        assert(members.take(n + 1) == members.take(n).push(members[n]));
    } else {
        let x = window[to];
        let mid = window.subrange(to + 1, from);
        let tail = window.skip(from + 1);
        let after = moved(window, from, to);
        assert(window == head + seq![x] + mid + seq![id] + tail);
        assert(after == head + seq![id] + seq![x] + mid + tail);
        tab_order::lemma_among_one(x, members);
        tab_order::lemma_among_one(id, members);
        tab_order::lemma_among_add(head, seq![x], members);
        tab_order::lemma_among_add(head + seq![x], mid, members);
        tab_order::lemma_among_add(head + seq![x] + mid, seq![id], members);
        tab_order::lemma_among_add(head + seq![x] + mid + seq![id], tail, members);
        tab_order::lemma_among_add(head, seq![id], members);
        tab_order::lemma_among_add(head + seq![id], seq![x], members);
        tab_order::lemma_among_add(head + seq![id] + seq![x], mid, members);
        tab_order::lemma_among_add(head + seq![id] + seq![x] + mid, tail, members);
        let g = tab_order::among(after, members);
        let fh = tab_order::among(head, members);
        assert(members.contains(members[n]));
        assert(f.take(n) == fh);
        assert(g.take(n) == fh);
        assert(g[n] == id);
        assert(g.take(n + 1) == g.take(n).push(g[n]));
        assert(members.take(n + 1) == members.take(n).push(members[n]));
        let bh = tab_order::besides(head, members);
        let bm = tab_order::besides(mid, members);
        let bt = tab_order::besides(tail, members);
        assert(tab_order::besides(window, members) == bh + bm + bt);
        assert(tab_order::besides(after, members) == bh + bm + bt);
        assert forall|i: int| 0 <= i < members.len() implies after.contains(
            #[trigger] members[i],
        ) by {
            assert(window.contains(members[i]));
            let j = choose|j: int| 0 <= j < window.len() && window[j] == members[i];
            if j < to {
                assert(after[j] == members[i]);
            } else if j < from {
                assert(after[j + 1] == members[i]);
            } else if j == from {
                assert(after[to] == members[i]);
            } else {
                assert(after[j] == members[i]);
            }
        }
        assert(after.no_duplicates());
    }
}

proof fn lemma_arranged(window: Seq<usize>, members: Seq<usize>, n: int)
    requires
        members.no_duplicates(),
        0 <= n <= members.len(),
        is_placed(window, members, 0),
    ensures
        is_placed(arranged(window, members, n), members, n),
        tab_order::besides(arranged(window, members, n), members) == tab_order::besides(
            window,
            members,
        ),
        arranged(window, members, n).len() == window.len(),
    decreases n,
{
    if n > 0 {
        lemma_arranged(window, members, n - 1);
        lemma_step(arranged(window, members, n - 1), members, n - 1);
    }
}

proof fn lemma_start(window: Seq<usize>, members: Seq<usize>)
    requires
        window.no_duplicates(),
        members.no_duplicates(),
        forall|i: int| 0 <= i < members.len() ==> window.contains(#[trigger] members[i]),
    ensures
        is_placed(window, members, 0),
{
    let f = tab_order::among(window, members);
    tab_order::lemma_among_distinct(window, members);
    assert forall|x: usize| f.contains(x) <==> members.contains(x) by {
        tab_order::lemma_among_holds(window, members, x);
    }
    tab_order::lemma_no_more_than(f, members);
    tab_order::lemma_no_more_than(members, f);
    assert(f.take(0) == members.take(0));
}

/// Arranging a window puts the members in their order, in the places that members have, and leaves
/// the order of all other tabs.
pub proof fn arranging_follows_the_hub(window: Seq<usize>, members: Seq<usize>)
    requires
        window.no_duplicates(),
        members.no_duplicates(),
        forall|i: int| 0 <= i < members.len() ==> window.contains(#[trigger] members[i]),
    ensures
        ({
            let after = arranged(window, members, members.len() as int);
            &&& tab_order::among(after, members) == members
            &&& tab_order::besides(after, members) == tab_order::besides(window, members)
            &&& after.len() == window.len()
        }),
{
    lemma_start(window, members);
    lemma_arranged(window, members, members.len() as int);
    let after = arranged(window, members, members.len() as int);
    let f = tab_order::among(after, members);
    assert(f.take(members.len() as int) == f);
    assert(members.take(members.len() as int) == members);
}

/// The tab numbers of `tabs` that are in the window.
fn in_window(tabs: &[usize], window: &[usize]) -> (r: Vec<usize>)
    ensures
        r@ == tab_order::among(tabs@, window@),
{
    let mut out: Vec<usize> = Vec::new();
    let mut i: usize = 0;
    while i < tabs.len()
        invariant
            i <= tabs@.len(),
            out@ == tab_order::among(tabs@.take(i as int), window@),
        decreases tabs@.len() - i,
    {
        assert(tabs@.take(i + 1).drop_last() == tabs@.take(i as int));
        assert(tabs@.take(i + 1).last() == tabs@[i as int]);
        if holds_tab(window, tabs[i]) {
            out.push(tabs[i]);
        }
        i += 1;
    }
    assert(tabs@.take(i as int) == tabs@);
    out
}

fn find_index(window: &Vec<usize>, id: usize) -> (r: usize)
    ensures
        r == index_of(window@, id, 0),
        r <= window@.len(),
{
    let mut i: usize = 0;
    while i < window.len()
        invariant
            i <= window@.len(),
            index_of(window@, id, 0) == index_of(window@, id, i as int),
        decreases window@.len() - i,
    {
        if window[i] == id {
            return i;
        }
        i += 1;
    }
    i
}

fn find_slot(window: &Vec<usize>, members: &Vec<usize>, k: usize) -> (r: usize)
    ensures
        r == slot_of(window@, members@, k as int, 0),
        r <= window@.len(),
{
    let mut left: usize = k;
    let mut i: usize = 0;
    while i < window.len()
        invariant
            i <= window@.len(),
            slot_of(window@, members@, k as int, 0) == slot_of(
                window@,
                members@,
                left as int,
                i as int,
            ),
        decreases window@.len() - i,
    {
        if holds_tab(members, window[i]) {
            if left == 0 {
                return i;
            }
            left -= 1;
        }
        i += 1;
    }
    i
}

/// A window in its new order, and the moves that lead there: each takes out the tab at the first index
/// and puts it at the second. Where the window is `arranged`, its active tab is to be made active
/// again.
#[derive(Debug)]
pub struct Arrangement {
    pub window: Vec<usize>,
    pub moves: Vec<(usize, usize)>,
    pub arranged: bool,
}

/// A window after the first `n` moves.
pub open spec fn after_moves(window: Seq<usize>, moves: Seq<(usize, usize)>, n: int) -> Seq<usize>
    decreases n,
{
    if n <= 0 {
        window
    } else {
        moved(
            after_moves(window, moves, n - 1),
            moves[n - 1].0 as int,
            moves[n - 1].1 as int,
        )
    }
}

proof fn lemma_more_moves(window: Seq<usize>, moves: Seq<(usize, usize)>, m: (usize, usize), n: int)
    requires
        0 <= n <= moves.len(),
    ensures
        after_moves(window, moves.push(m), n) == after_moves(window, moves, n),
    decreases n,
{
    if n > 0 {
        lemma_more_moves(window, moves, m, n - 1);
    }
}

/// Brings the tabs of a window into the order of the hub, `desired`, as far as the window has them.
/// A window is left as it is where fewer than two tabs are given.
pub fn sync_tab_order(window: &[usize], desired: &[usize]) -> (r: Arrangement)
    ensures
        ({
            let members = tab_order::among(desired@, window@);
            r.window@ == (if desired@.len() < 2 {
                window@
            } else {
                arranged(window@, members, members.len() as int)
            })
        }),
        r.window@ == after_moves(window@, r.moves@, r.moves@.len() as int),
        forall|i: int|
            0 <= i < r.moves@.len() ==> (#[trigger] r.moves@[i]).0 < window@.len() && r.moves@[i].1
                < window@.len(),
        r.arranged == (desired@.len() >= 2),
{
    let mut order: Vec<usize> = Vec::new();
    let mut c: usize = 0;
    while c < window.len()
        invariant
            c <= window@.len(),
            order@ == window@.take(c as int),
        decreases window@.len() - c,
    {
        order.push(window[c]);
        assert(window@.take(c + 1) == window@.take(c as int).push(window@[c as int]));
        c += 1;
    }
    assert(window@.take(c as int) == window@);
    let mut moves: Vec<(usize, usize)> = Vec::new();
    if desired.len() < 2 {
        return Arrangement { window: order, moves, arranged: false };
    }
    let members = in_window(desired, window);
    let mut n: usize = 0;
    while n < members.len()
        invariant
            n <= members@.len(),
            order@ == arranged(window@, members@, n as int),
            order@ == after_moves(window@, moves@, moves@.len() as int),
            order@.len() == window@.len(),
            forall|i: int|
                0 <= i < moves@.len() ==> (#[trigger] moves@[i]).0 < window@.len() && moves@[i].1
                    < window@.len(),
        decreases members@.len() - n,
    {
        let to: usize = find_slot(&order, &members, n);
        let from: usize = find_index(&order, members[n]);
        if from < order.len() && to < order.len() && from != to {
            let ghost before = order@;
            let ghost done = moves@;
            let id: usize = order.remove(from);
            order.insert(to, id);
            moves.push((from, to));
            proof {
                lemma_more_moves(window@, done, (from, to), done.len() as int);
                assert(order@ == moved(before, from as int, to as int));
            }
        }
        n += 1;
    }
    Arrangement { window: order, moves, arranged: true }
}

proof fn lemma_occurrences(tabs: Seq<usize>, id: usize, n: int)
    requires
        0 <= n <= tabs.len(),
    ensures
        occurrences(tabs, id, n) == tabs.take(n).to_multiset().count(id),
    decreases n,
{
    broadcast use vstd::seq_lib::group_to_multiset_ensures;

    if n > 0 {
        lemma_occurrences(tabs, id, n - 1);
        assert(tabs.take(n) == tabs.take(n - 1).push(tabs[n - 1]));
        assert(tabs.take(n).to_multiset() == tabs.take(n - 1).to_multiset().insert(tabs[n - 1]));
    } else {
        assert(tabs.take(0) == Seq::<usize>::empty());
        assert(tabs.take(0).to_multiset().len() == 0);
    }
}

/// The tab that stands for a tab of the hub is the one in which most of its panes are. Of several with
/// as many panes it is the one that comes first.
pub proof fn the_majority_is_held_most(tabs: Seq<usize>, id: usize, other: usize)
    requires
        is_majority(tabs, id),
        tabs.contains(other),
        other != id,
    ensures
        tabs.contains(id),
        tabs.to_multiset().count(other) <= tabs.to_multiset().count(id),
        tabs.to_multiset().count(other) == tabs.to_multiset().count(id) ==> lists::precedes(
            tabs,
            tabs.len() as int,
            id,
            other,
        ),
{
    let n = tabs.len() as int;
    assert(tabs.take(n) == tabs);
    lemma_occurrences(tabs, id, n);
    lemma_occurrences(tabs, other, n);
    let k = choose|k: int| #[trigger] is_majority_at(tabs, k) && tabs[k] == id;
    let m = choose|m: int| 0 <= m < tabs.len() && tabs[m] == other;
    assert(occurrences(tabs, tabs[m], n) <= occurrences(tabs, tabs[k], n));
    if occurrences(tabs, other, n) == occurrences(tabs, id, n) {
        assert forall|j: int| 0 <= j < n && #[trigger] tabs[j] == other implies lists::occurs(
            tabs,
            j,
            id,
        ) by {
            assert(k < j);
            assert(tabs[k] == id);
        }
    }
}

/// A tab of the screen is known by the first of its panes that is known.
pub proof fn the_first_known_counts(tabs: Seq<Option<usize>>, i: int)
    requires
        0 <= i <= tabs.len(),
    ensures
        match first_known(tabs, i) {
            Some(id) => exists|k: int|
                i <= k < tabs.len() && #[trigger] tabs[k] == Some(id) && forall|j: int|
                    i <= j < k ==> #[trigger] tabs[j] is None,
            None => forall|j: int| i <= j < tabs.len() ==> #[trigger] tabs[j] is None,
        },
    decreases tabs.len() - i,
{
    if i < tabs.len() && tabs[i] is None {
        the_first_known_counts(tabs, i + 1);
    }
}

proof fn lemma_tabs_in_order(visual: Seq<Seq<Option<usize>>>, n: int)
    requires
        0 <= n <= visual.len(),
    ensures
        ({
            let ids = lists::picked(
                visual.take(n),
                |v: Seq<Option<usize>>| first_known(v, 0),
            );
            lists::firsts_of(tabs_in_order(visual, n), ids, ids.len() as int)
        }),
    decreases n,
{
    let f = |v: Seq<Option<usize>>| first_known(v, 0);
    if n > 0 {
        lemma_tabs_in_order(visual, n - 1);
        lists::lemma_picked_back(visual, n, f);
        let before = lists::picked(visual.take(n - 1), f);
        if let Some(id) = f(visual[n - 1]) {
            let after = before.push(id);
            let out = tabs_in_order(visual, n - 1);
            let m = after.len() as int;
            assert forall|x: usize| #[trigger] out.contains(x) <==> lists::occurs(
                after,
                m - 1,
                x,
            ) by {
                if lists::occurs(before, m - 1, x) {
                    let i = choose|i: int| 0 <= i < m - 1 && #[trigger] before[i] == x;
                    assert(after[i] == x);
                }
                if lists::occurs(after, m - 1, x) {
                    let i = choose|i: int| 0 <= i < m - 1 && #[trigger] after[i] == x;
                    assert(before[i] == x);
                }
            }
            assert forall|a: int, b: int| 0 <= a < b < out.len() implies lists::precedes(
                after,
                m - 1,
                #[trigger] out[a],
                #[trigger] out[b],
            ) by {
                assert(lists::precedes(before, m - 1, out[a], out[b]));
                assert forall|j: int| 0 <= j < m - 1 && #[trigger] after[j] == out[b] implies lists::occurs(
                    after,
                    j,
                    out[a],
                ) by {
                    assert(before[j] == out[b]);
                    let i = choose|i: int| 0 <= i < j && #[trigger] before[i] == out[a];
                    assert(after[i] == out[a]);
                }
            }
            assert(lists::firsts_of(out, after, m - 1));
            lists::lemma_firsts_step(out, after, m);
        }
    } else {
        assert(visual.take(0) == Seq::<Seq<Option<usize>>>::empty());
        lists::lemma_picked_empty(f);
    }
}

/// The tabs that a window should have are those of the screen that are known, each once, in the order
/// in which the hub first shows them.
pub proof fn desired_tabs_follow_the_hub(visual: Seq<Seq<Option<usize>>>)
    ensures
        ({
            let ids = lists::picked(visual, |v: Seq<Option<usize>>| first_known(v, 0));
            lists::firsts_of(tabs_in_order(visual, visual.len() as int), ids, ids.len() as int)
        }),
{
    assert(visual.take(visual.len() as int) == visual);
    lemma_tabs_in_order(visual, visual.len() as int);
}

/// A tab that is moved stands where it was moved to, and all others stand as before.
pub proof fn moving_moves_one(window: Seq<usize>, from: int, to: int)
    requires
        0 <= from < window.len(),
        0 <= to < window.len(),
    ensures
        moved(window, from, to).len() == window.len(),
        moved(window, from, to)[to] == window[from],
        moved(window, from, to).remove(to) == window.remove(from),
{
    assert(moved(window, from, to).remove(to) == window.remove(from));
}

/// One after the other, each tab goes to the place where the window has as many members before it as
/// the hub has. The others are not put out of their order.
pub proof fn each_tab_takes_its_slot(window: Seq<usize>, members: Seq<usize>, n: int)
    requires
        window.no_duplicates(),
        members.no_duplicates(),
        forall|i: int| 0 <= i < members.len() ==> window.contains(#[trigger] members[i]),
        0 <= n < members.len(),
    ensures
        ({
            let before = arranged(window, members, n);
            let after = arranged(window, members, n + 1);
            exists|from: int, to: int|
                0 <= from < before.len() && 0 <= to < before.len() && #[trigger] before[from]
                    == members[n] && #[trigger] after[to] == members[n] && members.contains(
                    before[to],
                ) && before.take(to).filter(|t: usize| members.contains(t)).len() == n
                    && after.remove(to) == before.remove(from)
        }),
{
    lemma_start(window, members);
    lemma_arranged(window, members, n);
    let before = arranged(window, members, n);
    let after = arranged(window, members, n + 1);
    let to = slot_of(before, members, n, 0);
    let from = index_of(before, members[n], 0);
    assert(before.skip(0) == before);
    assert(before.contains(members[n]));
    lemma_index_of(before, members[n], 0);
    lemma_slot_of(before, members, n, 0);
    assert(before.subrange(0, to) == before.take(to));
    tab_order::lists_are_parted(before.take(to), members);
    if from != to {
        moving_moves_one(before, from, to);
    }
    assert(before[from] == members[n] && after[to] == members[n]);
}

/// Moves are made one after the other: each takes the tab at its first place to its second.
pub proof fn moves_are_made_in_turn(window: Seq<usize>, moves: Seq<(usize, usize)>, n: int)
    requires
        0 <= n < moves.len(),
        forall|i: int|
            0 <= i < moves.len() ==> (#[trigger] moves[i]).0 < window.len() && moves[i].1
                < window.len(),
    ensures
        after_moves(window, moves, 0) == window,
        ({
            let before = after_moves(window, moves, n);
            let after = after_moves(window, moves, n + 1);
            let (from, to) = (moves[n].0 as int, moves[n].1 as int);
            &&& before.len() == window.len() && after.len() == window.len()
            &&& after[to] == before[from]
            &&& after.remove(to) == before.remove(from)
        }),
{
    lemma_moves_keep_length(window, moves, n);
    moving_moves_one(after_moves(window, moves, n), moves[n].0 as int, moves[n].1 as int);
}

proof fn lemma_moves_keep_length(window: Seq<usize>, moves: Seq<(usize, usize)>, n: int)
    requires
        0 <= n <= moves.len(),
        forall|i: int|
            0 <= i < moves.len() ==> (#[trigger] moves[i]).0 < window.len() && moves[i].1
                < window.len(),
    ensures
        after_moves(window, moves, n).len() == window.len(),
    decreases n,
{
    if n > 0 {
        lemma_moves_keep_length(window, moves, n - 1);
        assert(moves[n - 1].0 < window.len());
    }
}

/// What a list says, it says item by item: each stands in its place, and none is added or left out.
pub proof fn items_keep_their_places(v: Seq<Vec<Option<usize>>>, i: int)
    ensures
        pane_tabs(v).len() == v.len(),
        0 <= i < v.len() ==> pane_tabs(v)[i] == v[i]@,
{
}

} // verus!
