//! The order of tabs, on the screen and in the hub.
use crate::lists;
use crate::text;
use vstd::prelude::*;

verus! {

/// The items of `s` that are among `members`, in their order.
pub open spec fn among<A>(s: Seq<A>, members: Seq<A>) -> Seq<A>
    decreases s.len(),
{
    if s.len() == 0 {
        Seq::empty()
    } else if members.contains(s.last()) {
        among(s.drop_last(), members).push(s.last())
    } else {
        among(s.drop_last(), members)
    }
}

/// The items of `s` that are not among `members`, in their order.
pub open spec fn besides<A>(s: Seq<A>, members: Seq<A>) -> Seq<A>
    decreases s.len(),
{
    if s.len() == 0 {
        Seq::empty()
    } else if members.contains(s.last()) {
        besides(s.drop_last(), members)
    } else {
        besides(s.drop_last(), members).push(s.last())
    }
}

pub proof fn lemma_among_add<A>(a: Seq<A>, b: Seq<A>, members: Seq<A>)
    ensures
        among(a + b, members) == among(a, members) + among(b, members),
        besides(a + b, members) == besides(a, members) + besides(b, members),
    decreases b.len(),
{
    if b.len() == 0 {
        assert(a + b == a);
        assert(among(a, members) + Seq::<A>::empty() == among(a, members));
        assert(besides(a, members) + Seq::<A>::empty() == besides(a, members));
    } else {
        lemma_among_add(a, b.drop_last(), members);
        assert((a + b).drop_last() == a + b.drop_last());
        assert((a + b).last() == b.last());
        let x = b.last();
        assert(among(a, members) + among(b.drop_last(), members).push(x) == (among(a, members)
            + among(b.drop_last(), members)).push(x));
        assert(besides(a, members) + besides(b.drop_last(), members).push(x) == (besides(a, members)
            + besides(b.drop_last(), members)).push(x));
    }
}

pub proof fn lemma_among_one<A>(x: A, members: Seq<A>)
    ensures
        members.contains(x) ==> among(seq![x], members) == seq![x] && besides(seq![x], members)
            == Seq::<A>::empty(),
        !members.contains(x) ==> among(seq![x], members) == Seq::<A>::empty() && besides(
            seq![x],
            members,
        ) == seq![x],
{
    assert(seq![x].drop_last() == Seq::<A>::empty());
    assert(seq![x].last() == x);
    assert(Seq::<A>::empty().push(x) == seq![x]);
    reveal_with_fuel(among, 2);
    reveal_with_fuel(besides, 2);
}

pub proof fn lemma_among_holds<A>(s: Seq<A>, members: Seq<A>, x: A)
    ensures
        among(s, members).contains(x) <==> s.contains(x) && members.contains(x),
        among(s, members).len() <= s.len(),
    decreases s.len(),
{
    if s.len() > 0 {
        let rest = s.drop_last();
        lemma_among_holds(rest, members, x);
        assert(s == rest.push(s.last()));
        assert(s.contains(x) <==> rest.contains(x) || x == s.last()) by {
            if rest.contains(x) {
                let i = choose|i: int| 0 <= i < rest.len() && rest[i] == x;
                assert(s[i] == x);
            }
            if s.contains(x) && x != s.last() {
                let i = choose|i: int| 0 <= i < s.len() && s[i] == x;
                assert(rest[i] == x);
            }
            assert(s[s.len() - 1] == s.last());
        }
        let a = among(rest, members);
        let b = a.push(s.last());
        assert(b.contains(x) <==> a.contains(x) || x == s.last()) by {
            if a.contains(x) {
                let i = choose|i: int| 0 <= i < a.len() && a[i] == x;
                assert(b[i] == x);
            }
            if b.contains(x) && x != s.last() {
                let i = choose|i: int| 0 <= i < b.len() && b[i] == x;
                assert(a[i] == x);
            }
            assert(b[a.len() as int] == s.last());
        }
    }
}

pub proof fn lemma_among_distinct<A>(s: Seq<A>, members: Seq<A>)
    requires
        s.no_duplicates(),
    ensures
        among(s, members).no_duplicates(),
    decreases s.len(),
{
    if s.len() > 0 {
        let rest = s.drop_last();
        lemma_among_distinct(rest, members);
        lemma_among_holds(rest, members, s.last());
        assert(!rest.contains(s.last()));
    }
}

/// Whether `s` is one of the texts.
fn is_among(v: &[String], s: &str) -> (r: bool)
    ensures
        r == text::texts(v@).contains(s@),
{
    let ghost all = text::texts(v@);
    let mut i: usize = 0;
    while i < v.len()
        invariant
            i <= v@.len(),
            all == text::texts(v@),
            forall|j: int| 0 <= j < i ==> all[j] != s@,
        decreases v@.len() - i,
    {
        assert(all[i as int] == v@[i as int]@);
        if text::same(v[i].as_str(), s) {
            return true;
        }
        i += 1;
    }
    false
}

/// The texts of `v` that are among `members`.
fn keep_among(v: &[String], members: &[String]) -> (r: Vec<String>)
    ensures
        text::texts(r@) == among(text::texts(v@), text::texts(members@)),
{
    let ghost all = text::texts(v@);
    let ghost set = text::texts(members@);
    let mut out: Vec<String> = Vec::new();
    let mut i: usize = 0;
    assert(text::texts(out@) == Seq::<Seq<char>>::empty());
    while i < v.len()
        invariant
            i <= v@.len(),
            all == text::texts(v@),
            set == text::texts(members@),
            text::texts(out@) == among(all.take(i as int), set),
        decreases v@.len() - i,
    {
        assert(all[i as int] == v@[i as int]@);
        assert(all.take(i + 1).drop_last() == all.take(i as int));
        assert(all.take(i + 1).last() == all[i as int]);
        if is_among(members, v[i].as_str()) {
            text::push_text(&mut out, v[i].as_str());
        }
        i += 1;
    }
    assert(all.take(i as int) == all);
    out
}

/// The tabs of a worktree, in the order of the screen.
#[derive(Debug)]
pub struct WorktreeOrder {
    pub worktree: String,
    pub tabs: Vec<String>,
}

/// What a [`WorktreeOrder`] says.
#[verifier::ext_equal]
pub struct WorktreeOrderModel {
    pub worktree: Seq<char>,
    pub tabs: Seq<Seq<char>>,
}

impl View for WorktreeOrder {
    type V = WorktreeOrderModel;

    open spec fn view(&self) -> WorktreeOrderModel {
        WorktreeOrderModel { worktree: self.worktree@, tabs: text::texts(self.tabs@) }
    }
}

/// The models of orders.
pub open spec fn order_models(v: Seq<WorktreeOrder>) -> Seq<WorktreeOrderModel> {
    v.map_values(|o: WorktreeOrder| o@)
}

/// The least index from `i` on of the order of a worktree.
pub open spec fn order_at(orders: Seq<WorktreeOrderModel>, i: int, worktree: Seq<char>) -> Option<
    int,
>
    decreases orders.len() - i,
{
    if i < 0 || i >= orders.len() {
        None
    } else if orders[i].worktree == worktree {
        Some(i)
    } else {
        order_at(orders, i + 1, worktree)
    }
}

/// The orders once a tab of a worktree follows.
pub open spec fn with_tab(
    orders: Seq<WorktreeOrderModel>,
    worktree: Seq<char>,
    tab: Seq<char>,
) -> Seq<WorktreeOrderModel> {
    match order_at(orders, 0, worktree) {
        Some(k) => if orders[k].tabs.contains(tab) {
            orders
        } else {
            orders.update(k, WorktreeOrderModel { worktree, tabs: orders[k].tabs.push(tab) })
        },
        None => orders.push(WorktreeOrderModel { worktree, tabs: seq![tab] }),
    }
}

/// The orders of the worktrees that the first `n` tabs of the screen give.
pub open spec fn orders_of(tabs: Seq<(Seq<char>, Seq<char>)>, n: int) -> Seq<WorktreeOrderModel>
    decreases n,
{
    if n <= 0 {
        Seq::empty()
    } else {
        with_tab(orders_of(tabs, n - 1), tabs[n - 1].0, tabs[n - 1].1)
    }
}

/// The worktrees and tabs of the hub that the tabs of the screen show.
pub open spec fn identities(tabs: Seq<(String, String)>) -> Seq<(Seq<char>, Seq<char>)> {
    Seq::new(tabs.len(), |i: int| (tabs[i].0@, tabs[i].1@))
}

fn find_order(orders: &Vec<WorktreeOrder>, worktree: &str) -> (r: Option<usize>)
    ensures
        match order_at(order_models(orders@), 0, worktree@) {
            Some(k) => r matches Some(i) && i == k && i < orders@.len() && orders@[i as int]@.worktree
                == worktree@,
            None => r is None,
        },
{
    let ghost all = order_models(orders@);
    let mut i: usize = 0;
    while i < orders.len()
        invariant
            i <= orders@.len(),
            all == order_models(orders@),
            order_at(all, 0, worktree@) == order_at(all, i as int, worktree@),
        decreases orders@.len() - i,
    {
        assert(all[i as int] == orders@[i as int]@);
        if text::same(orders[i].worktree.as_str(), worktree) {
            return Some(i);
        }
        i += 1;
    }
    None
}

/// The order of the tabs of each worktree, from the worktree and tab of the hub that each tab of the
/// screen shows.
pub fn order_by_worktree(tabs: &[(String, String)]) -> (r: Vec<WorktreeOrder>)
    ensures
        order_models(r@) == orders_of(identities(tabs@), tabs@.len() as int),
{
    let ghost all = identities(tabs@);
    let mut orders: Vec<WorktreeOrder> = Vec::new();
    let mut i: usize = 0;
    assert(order_models(orders@) == Seq::<WorktreeOrderModel>::empty());
    while i < tabs.len()
        invariant
            i <= tabs@.len(),
            all == identities(tabs@),
            order_models(orders@) == orders_of(all, i as int),
        decreases tabs@.len() - i,
    {
        let worktree = tabs[i].0.as_str();
        let tab = tabs[i].1.as_str();
        let ghost before = order_models(orders@);
        assert(all[i as int] == (worktree@, tab@));
        match find_order(&orders, worktree) {
            Some(k) => {
                assert(before[k as int] == orders@[k as int]@);
                if !is_among(&orders[k].tabs, tab) {
                    let mut ids = text::copy_texts(&orders[k].tabs);
                    text::push_text(&mut ids, tab);
                    let order = WorktreeOrder { worktree: worktree.to_owned(), tabs: ids };
                    orders.set(k, order);
                    assert(order_models(orders@) =~= before.update(k as int, order@));
                }
            },
            None => {
                let mut ids: Vec<String> = Vec::new();
                text::push_text(&mut ids, tab);
                assert(text::texts(ids@) == seq![tab@]);
                let order = WorktreeOrder { worktree: worktree.to_owned(), tabs: ids };
                orders.push(order);
                assert(order_models(orders@) =~= before.push(order@));
            },
        }
        i += 1;
    }
    orders
}

proof fn lemma_order_at(orders: Seq<WorktreeOrderModel>, i: int, worktree: Seq<char>)
    requires
        0 <= i,
    ensures
        match order_at(orders, i, worktree) {
            Some(k) => i <= k < orders.len() && orders[k].worktree == worktree,
            None => forall|j: int| i <= j < orders.len() ==> (#[trigger] orders[j]).worktree
                != worktree,
        },
    decreases orders.len() - i,
{
    if i < orders.len() && orders[i].worktree != worktree {
        lemma_order_at(orders, i + 1, worktree);
    }
}

/// Each worktree has one order, and each tab stands in it once.
pub proof fn each_tab_is_ordered_once(tabs: Seq<(Seq<char>, Seq<char>)>, n: int)
    ensures
        forall|i: int, j: int|
            0 <= i < j < orders_of(tabs, n).len() ==> (#[trigger] orders_of(tabs, n)[i]).worktree
                != (#[trigger] orders_of(tabs, n)[j]).worktree,
        forall|i: int|
            0 <= i < orders_of(tabs, n).len() ==> (#[trigger] orders_of(
                tabs,
                n,
            )[i]).tabs.no_duplicates(),
    decreases n,
{
    if n > 0 {
        each_tab_is_ordered_once(tabs, n - 1);
        let before = orders_of(tabs, n - 1);
        lemma_order_at(before, 0, tabs[n - 1].0);
        let tab = tabs[n - 1].1;
        if let Some(k) = order_at(before, 0, tabs[n - 1].0) {
            assert(before[k].tabs.no_duplicates());
            if !before[k].tabs.contains(tab) {
                assert(before[k].tabs.push(tab).no_duplicates());
            }
        } else {
            assert(seq![tab].no_duplicates());
        }
    }
}

/// A group of tabs of the hub.
#[derive(Debug)]
pub struct TabGroup {
    pub id: String,
    pub tab_order: Vec<String>,
}

/// What a [`TabGroup`] says.
#[verifier::ext_equal]
pub struct TabGroupModel {
    pub id: Seq<char>,
    pub tab_order: Seq<Seq<char>>,
}

impl View for TabGroup {
    type V = TabGroupModel;

    open spec fn view(&self) -> TabGroupModel {
        TabGroupModel { id: self.id@, tab_order: text::texts(self.tab_order@) }
    }
}

/// The models of groups.
pub open spec fn group_models(v: Seq<TabGroup>) -> Seq<TabGroupModel> {
    v.map_values(|g: TabGroup| g@)
}

/// The least index from `i` on of a group that has one of the tabs.
pub open spec fn group_at(groups: Seq<TabGroupModel>, i: int, tabs: Seq<Seq<char>>) -> Option<int>
    decreases groups.len() - i,
{
    if i < 0 || i >= groups.len() {
        None
    } else if among(groups[i].tab_order, tabs).len() > 0 {
        Some(i)
    } else {
        group_at(groups, i + 1, tabs)
    }
}

/// How many of the first `n` tabs are among the members.
pub open spec fn member_count<A>(order: Seq<A>, members: Seq<A>, n: int) -> nat {
    among(order.take(n), members).len()
}

/// The first `n` tabs of `order`, with the members replaced by `desired`, one after the other.
pub open spec fn refilled<A>(order: Seq<A>, members: Seq<A>, desired: Seq<A>, n: int) -> Seq<A>
    decreases n,
{
    if n <= 0 {
        Seq::empty()
    } else {
        let k = member_count(order, members, n - 1) as int;
        refilled(order, members, desired, n - 1).push(
            if members.contains(order[n - 1]) && k < desired.len() {
                desired[k]
            } else {
                order[n - 1]
            },
        )
    }
}

/// The first of the desired tabs that does not stand where it should, from index `i` on; the first of
/// all where each does.
pub open spec fn first_moved<A>(desired: Seq<A>, current: Seq<A>, i: int) -> A
    decreases desired.len() - i,
{
    if i < 0 || i >= desired.len() || i >= current.len() {
        desired[0]
    } else if desired[i] != current[i] {
        desired[i]
    } else {
        first_moved(desired, current, i + 1)
    }
}

/// A new order for a group of the hub: the tab that was moved, and all tabs.
#[derive(Debug)]
pub struct Reorder {
    pub group_id: String,
    pub moved: String,
    pub next: Vec<String>,
}

/// What a [`Reorder`] says.
#[verifier::ext_equal]
pub struct ReorderModel {
    pub group_id: Seq<char>,
    pub moved: Seq<char>,
    pub next: Seq<Seq<char>>,
}

impl View for Reorder {
    type V = ReorderModel;

    open spec fn view(&self) -> ReorderModel {
        ReorderModel {
            group_id: self.group_id@,
            moved: self.moved@,
            next: text::texts(self.next@),
        }
    }
}

/// The order that a group gets so that its tabs stand as on the screen, where it has another. Tabs
/// that the screen does not show keep their places.
pub open spec fn reorder_of(group: TabGroupModel, mirrored: Seq<Seq<char>>) -> Option<ReorderModel> {
    let current = among(group.tab_order, mirrored);
    let desired = among(mirrored, current);
    if desired.len() < 2 || current == desired {
        None
    } else {
        Some(
            ReorderModel {
                group_id: group.id,
                moved: first_moved(desired, current, 0),
                next: refilled(
                    group.tab_order,
                    current,
                    desired,
                    group.tab_order.len() as int,
                ),
            },
        )
    }
}

/// What to tell the hub so that its tabs stand as on the screen, for one worktree.
pub open spec fn reorder_in(groups: Seq<TabGroupModel>, mirrored: Seq<Seq<char>>) -> Option<
    ReorderModel,
> {
    if mirrored.len() < 2 {
        None
    } else {
        match group_at(groups, 0, mirrored) {
            Some(k) => reorder_of(groups[k], mirrored),
            None => None,
        }
    }
}

fn same_texts(a: &[String], b: &[String]) -> (r: bool)
    ensures
        r == (text::texts(a@) == text::texts(b@)),
{
    let ghost x = text::texts(a@);
    let ghost y = text::texts(b@);
    if a.len() != b.len() {
        assert(x.len() != y.len());
        return false;
    }
    let mut i: usize = 0;
    while i < a.len()
        invariant
            i <= a@.len(),
            a@.len() == b@.len(),
            x == text::texts(a@),
            y == text::texts(b@),
            forall|j: int| 0 <= j < i ==> x[j] == y[j],
        decreases a@.len() - i,
    {
        assert(x[i as int] == a@[i as int]@ && y[i as int] == b@[i as int]@);
        if !text::same(a[i].as_str(), b[i].as_str()) {
            return false;
        }
        i += 1;
    }
    assert(x =~= y);
    true
}

fn find_group(groups: &[TabGroup], tabs: &[String]) -> (r: Option<usize>)
    ensures
        match group_at(group_models(groups@), 0, text::texts(tabs@)) {
            Some(k) => r matches Some(i) && i == k && i < groups@.len(),
            None => r is None,
        },
{
    let ghost all = group_models(groups@);
    let ghost wanted = text::texts(tabs@);
    let mut i: usize = 0;
    while i < groups.len()
        invariant
            i <= groups@.len(),
            all == group_models(groups@),
            wanted == text::texts(tabs@),
            group_at(all, 0, wanted) == group_at(all, i as int, wanted),
        decreases groups@.len() - i,
    {
        assert(all[i as int] == groups@[i as int]@);
        let kept = keep_among(&groups[i].tab_order, tabs);
        assert(text::texts(kept@).len() == kept@.len());
        if kept.len() > 0 {
            return Some(i);
        }
        i += 1;
    }
    None
}

fn refill(order: &[String], members: &[String], desired: &[String]) -> (r: Vec<String>)
    ensures
        text::texts(r@) == refilled(
            text::texts(order@),
            text::texts(members@),
            text::texts(desired@),
            order@.len() as int,
        ),
{
    let ghost all = text::texts(order@);
    let ghost set = text::texts(members@);
    let ghost want = text::texts(desired@);
    let mut out: Vec<String> = Vec::new();
    let mut used: usize = 0;
    let mut i: usize = 0;
    assert(text::texts(out@) == Seq::<Seq<char>>::empty());
    while i < order.len()
        invariant
            i <= order@.len(),
            used <= i,
            all == text::texts(order@),
            set == text::texts(members@),
            want == text::texts(desired@),
            used == member_count(all, set, i as int),
            text::texts(out@) == refilled(all, set, want, i as int),
        decreases order@.len() - i,
    {
        assert(all[i as int] == order@[i as int]@);
        assert(all.take(i + 1).drop_last() == all.take(i as int));
        assert(all.take(i + 1).last() == all[i as int]);
        let member = is_among(members, order[i].as_str());
        if member && used < desired.len() {
            assert(want[used as int] == desired@[used as int]@);
            text::push_text(&mut out, desired[used].as_str());
        } else {
            text::push_text(&mut out, order[i].as_str());
        }
        if member {
            used += 1;
        }
        i += 1;
    }
    out
}

/// What to tell the hub so that its tabs stand as on the screen, for one worktree whose tabs the
/// screen shows in the order `mirrored`.
pub fn reorder(groups: &[TabGroup], mirrored: &[String]) -> (r: Option<Reorder>)
    ensures
        match reorder_in(group_models(groups@), text::texts(mirrored@)) {
            Some(m) => r matches Some(x) && x@ == m,
            None => r is None,
        },
{
    let ghost wanted = text::texts(mirrored@);
    if mirrored.len() < 2 {
        return None;
    }
    let k: usize = match find_group(groups, mirrored) {
        Some(k) => k,
        None => return None,
    };
    let group = &groups[k];
    assert(group_models(groups@)[k as int] == group@);
    let current = keep_among(&group.tab_order, mirrored);
    let desired = keep_among(mirrored, &current);
    let ghost now = text::texts(current@);
    let ghost want = text::texts(desired@);
    if desired.len() < 2 || same_texts(&current, &desired) {
        return None;
    }
    let next = refill(&group.tab_order, &current, &desired);
    let mut at: usize = 0;
    let mut moved: usize = 0;
    while at < desired.len() && at < current.len()
        invariant_except_break
            moved == 0,
        invariant
            now == text::texts(current@),
            want == text::texts(desired@),
            at <= desired@.len(),
            at <= current@.len(),
            first_moved(want, now, 0) == first_moved(want, now, at as int),
            desired@.len() >= 2,
        ensures
            moved < desired@.len(),
            want[moved as int] == first_moved(want, now, 0),
        decreases desired@.len() - at,
    {
        assert(want[at as int] == desired@[at as int]@ && now[at as int] == current@[at as int]@);
        if !text::same(desired[at].as_str(), current[at].as_str()) {
            moved = at;
            break;
        }
        at += 1;
    }
    assert(want[moved as int] == desired@[moved as int]@);
    Some(Reorder { group_id: group.id.clone(), moved: desired[moved].clone(), next })
}

pub proof fn lemma_no_more_than<A>(a: Seq<A>, b: Seq<A>)
    requires
        a.no_duplicates(),
        forall|x: A| a.contains(x) ==> b.contains(x),
    ensures
        a.len() <= b.len(),
{
    a.unique_seq_to_set();
    b.lemma_cardinality_of_set();
    assert(a.to_set().subset_of(b.to_set())) by {
        assert forall|x: A| a.to_set().contains(x) implies b.to_set().contains(x) by {
            assert(a.contains(x));
        }
    }
    vstd::set_lib::lemma_len_subset(a.to_set(), b.to_set());
}

proof fn lemma_refilled<A>(order: Seq<A>, members: Seq<A>, desired: Seq<A>, n: int)
    requires
        0 <= n <= order.len(),
        forall|x: A| #[trigger] desired.contains(x) ==> members.contains(x),
        desired.len() == among(order, members).len(),
    ensures
        refilled(order, members, desired, n).len() == n,
        member_count(order, members, n) <= desired.len(),
        among(refilled(order, members, desired, n), members) == desired.take(
            member_count(order, members, n) as int,
        ),
        forall|i: int|
            0 <= i < n && !members.contains(#[trigger] order[i]) ==> refilled(
                order,
                members,
                desired,
                n,
            )[i] == order[i],
        forall|i: int|
            0 <= i < n && members.contains(#[trigger] order[i]) ==> member_count(order, members, i)
                < desired.len() && refilled(order, members, desired, n)[i] == desired[member_count(
                order,
                members,
                i,
            ) as int],
    decreases n,
{
    lemma_among_add(order.take(n), order.skip(n), members);
    assert(order.take(n) + order.skip(n) == order);
    if n > 0 {
        lemma_refilled(order, members, desired, n - 1);
        let before = refilled(order, members, desired, n - 1);
        let after = refilled(order, members, desired, n);
        let k = member_count(order, members, n - 1) as int;
        assert(order.take(n).drop_last() == order.take(n - 1));
        assert(order.take(n).last() == order[n - 1]);
        assert(after.drop_last() == before);
        if members.contains(order[n - 1]) {
            assert(member_count(order, members, n) == k + 1);
            assert(desired.contains(desired[k]));
            assert(desired.take(k + 1) == desired.take(k).push(desired[k]));
        }
    } else {
        assert(desired.take(0) == Seq::<A>::empty());
        assert(order.take(0) == Seq::<A>::empty());
    }
}

/// A reordered group has as many tabs as before. Those that the screen shows stand in the order of
/// the screen, and all others where they stood.
pub proof fn reordering_follows_the_screen(group: TabGroupModel, mirrored: Seq<Seq<char>>)
    requires
        group.tab_order.no_duplicates(),
        mirrored.no_duplicates(),
        reorder_of(group, mirrored) is Some,
    ensures
        ({
            let next = reorder_of(group, mirrored)->0.next;
            let current = among(group.tab_order, mirrored);
            &&& next.len() == group.tab_order.len()
            &&& among(next, current) == among(mirrored, current)
            &&& forall|i: int|
                0 <= i < next.len() && !mirrored.contains(#[trigger] group.tab_order[i])
                    ==> next[i] == group.tab_order[i]
        }),
{
    let order = group.tab_order;
    let current = among(order, mirrored);
    let desired = among(mirrored, current);
    lemma_among_distinct(order, mirrored);
    lemma_among_distinct(mirrored, current);
    assert forall|x: Seq<char>| current.contains(x) <==> desired.contains(x) by {
        lemma_among_holds(order, mirrored, x);
        lemma_among_holds(mirrored, current, x);
    }
    lemma_no_more_than(current, desired);
    lemma_no_more_than(desired, current);
    assert(among(order, current) == current) by {
        lemma_among_same(order, mirrored, current);
    }
    lemma_refilled(order, current, desired, order.len() as int);
    assert(order.take(order.len() as int) == order);
    assert(desired.take(desired.len() as int) == desired);
    assert forall|i: int| 0 <= i < order.len() && !mirrored.contains(#[trigger] order[i]) implies !current.contains(
        order[i],
    ) by {
        lemma_among_holds(order, mirrored, order[i]);
    }
}

proof fn lemma_among_same<A>(s: Seq<A>, members: Seq<A>, current: Seq<A>)
    requires
        current == among(s, members),
    ensures
        among(s, current) == among(s, members),
{
    assert forall|x: A| #[trigger] s.contains(x) implies (current.contains(x) <==> members.contains(
        x,
    )) by {
        lemma_among_holds(s, members, x);
    }
    lemma_among_congruent(s, members, current);
}

proof fn lemma_among_congruent<A>(s: Seq<A>, a: Seq<A>, b: Seq<A>)
    requires
        forall|x: A| #[trigger] s.contains(x) ==> (a.contains(x) <==> b.contains(x)),
    ensures
        among(s, a) == among(s, b),
    decreases s.len(),
{
    if s.len() > 0 {
        let rest = s.drop_last();
        assert(s.contains(s.last()));
        assert forall|x: A| #[trigger] rest.contains(x) implies (a.contains(x) <==> b.contains(x)) by {
            let i = choose|i: int| 0 <= i < rest.len() && rest[i] == x;
            assert(s[i] == x);
            assert(s.contains(x));
        }
        lemma_among_congruent(rest, a, b);
    }
}

/// Whether the screen shows the tab of the worktree for the first time at `i`.
pub open spec fn first_shown(
    tabs: Seq<(Seq<char>, Seq<char>)>,
    worktree: Seq<char>,
    tab: Seq<char>,
    i: int,
) -> bool {
    &&& 0 <= i < tabs.len()
    &&& tabs[i] == (worktree, tab)
    &&& forall|j: int| 0 <= j < i ==> #[trigger] tabs[j] != (worktree, tab)
}

/// Whether the screen shows a tab of the worktree for the first time at `i`.
pub open spec fn worktree_first_shown(
    tabs: Seq<(Seq<char>, Seq<char>)>,
    worktree: Seq<char>,
    i: int,
) -> bool {
    &&& 0 <= i < tabs.len()
    &&& tabs[i].0 == worktree
    &&& forall|j: int| 0 <= j < i ==> (#[trigger] tabs[j]).0 != worktree
}

/// Whether an order has the tabs of its worktree among the first `n` of the screen, each once and each
/// behind those that come before it there.
spec fn lists(order: WorktreeOrderModel, tabs: Seq<(Seq<char>, Seq<char>)>, n: int) -> bool {
    &&& order.tabs.no_duplicates()
    &&& forall|t: Seq<char>| #[trigger]
        order.tabs.contains(t) <==> lists::occurs(tabs, n, (order.worktree, t))
    &&& forall|a: int, b: int|
        0 <= a < b < order.tabs.len() ==> lists::precedes(
            tabs,
            n,
            (order.worktree, #[trigger] order.tabs[a]),
            (order.worktree, #[trigger] order.tabs[b]),
        )
}

proof fn lemma_lists_keeps(order: WorktreeOrderModel, tabs: Seq<(Seq<char>, Seq<char>)>, n: int)
    requires
        0 < n <= tabs.len(),
        lists(order, tabs, n - 1),
        order.worktree != tabs[n - 1].0 || order.tabs.contains(tabs[n - 1].1),
    ensures
        lists(order, tabs, n),
{
    let w = order.worktree;
    assert forall|t: Seq<char>| #[trigger] order.tabs.contains(t) <==> lists::occurs(tabs, n, (w, t)) by {
        lists::lemma_occurs_step(tabs, n, (w, t));
    }
    assert forall|a: int, b: int| 0 <= a < b < order.tabs.len() implies lists::precedes(
        tabs,
        n,
        (w, #[trigger] order.tabs[a]),
        (w, #[trigger] order.tabs[b]),
    ) by {
        assert(order.tabs.contains(order.tabs[a]));
        assert(lists::precedes(tabs, n - 1, (w, order.tabs[a]), (w, order.tabs[b])));
    }
}

proof fn lemma_lists_grows(order: WorktreeOrderModel, tabs: Seq<(Seq<char>, Seq<char>)>, n: int)
    requires
        0 < n <= tabs.len(),
        lists(order, tabs, n - 1),
        order.worktree == tabs[n - 1].0,
        !order.tabs.contains(tabs[n - 1].1),
    ensures
        lists(
            WorktreeOrderModel { worktree: order.worktree, tabs: order.tabs.push(tabs[n - 1].1) },
            tabs,
            n,
        ),
{
    let w = order.worktree;
    let tab = tabs[n - 1].1;
    let old_tabs = order.tabs;
    let new_tabs = old_tabs.push(tab);
    assert(tabs[n - 1] == (w, tab));
    assert(!lists::occurs(tabs, n - 1, (w, tab)));
    assert forall|t: Seq<char>| #[trigger] new_tabs.contains(t) <==> lists::occurs(tabs, n, (w, t)) by {
        lists::lemma_occurs_step(tabs, n, (w, t));
        assert(old_tabs.contains(t) <==> lists::occurs(tabs, n - 1, (w, t)));
        if old_tabs.contains(t) {
            let i = choose|i: int| 0 <= i < old_tabs.len() && old_tabs[i] == t;
            assert(new_tabs[i] == t);
        }
        assert(new_tabs[old_tabs.len() as int] == tab);
        if new_tabs.contains(t) && t != tab {
            let i = choose|i: int| 0 <= i < new_tabs.len() && new_tabs[i] == t;
            assert(old_tabs[i] == t);
        }
    }
    assert forall|a: int, b: int| 0 <= a < b < new_tabs.len() implies lists::precedes(
        tabs,
        n,
        (w, #[trigger] new_tabs[a]),
        (w, #[trigger] new_tabs[b]),
    ) by {
        assert(old_tabs.contains(old_tabs[a]));
        assert(lists::occurs(tabs, n - 1, (w, old_tabs[a])));
        assert forall|j: int|
            0 <= j < n && #[trigger] tabs[j] == (w, new_tabs[b]) implies lists::occurs(
            tabs,
            j,
            (w, new_tabs[a]),
        ) by {
            if j < n - 1 {
                if b < old_tabs.len() {
                    assert(lists::precedes(tabs, n - 1, (w, old_tabs[a]), (w, old_tabs[b])));
                } else {
                    assert(lists::occurs(tabs, n - 1, (w, tab)));
                }
            }
        }
    }
    assert(new_tabs.no_duplicates());
}

/// Whether each worktree among the first `n` tabs has an order, one behind the other as they are
/// first shown.
spec fn lists_all(
    orders: Seq<WorktreeOrderModel>,
    tabs: Seq<(Seq<char>, Seq<char>)>,
    n: int,
) -> bool {
    let trees = tabs.map_values(|t: (Seq<char>, Seq<char>)| t.0);
    &&& forall|k: int| 0 <= k < orders.len() ==> lists(#[trigger] orders[k], tabs, n)
    &&& forall|k: int|
        0 <= k < orders.len() ==> lists::occurs(trees, n, (#[trigger] orders[k]).worktree)
    &&& forall|i: int|
        0 <= i < n ==> exists|k: int|
            0 <= k < orders.len() && (#[trigger] orders[k]).worktree == (#[trigger] trees[i])
    &&& forall|k: int, l: int|
        0 <= k < l < orders.len() ==> lists::precedes(
            trees,
            n,
            (#[trigger] orders[k]).worktree,
            (#[trigger] orders[l]).worktree,
        )
}

proof fn lemma_orders(tabs: Seq<(Seq<char>, Seq<char>)>, n: int)
    requires
        0 <= n <= tabs.len(),
    ensures
        lists_all(orders_of(tabs, n), tabs, n),
    decreases n,
{
    let trees = tabs.map_values(|t: (Seq<char>, Seq<char>)| t.0);
    if n > 0 {
        lemma_orders(tabs, n - 1);
        let old_orders = orders_of(tabs, n - 1);
        let orders = orders_of(tabs, n);
        let (w, tab) = tabs[n - 1];
        assert(trees[n - 1] == w);
        lemma_order_at(old_orders, 0, w);
        each_tab_is_ordered_once(tabs, n - 1);
        match order_at(old_orders, 0, w) {
            Some(k) => {
                if !old_orders[k].tabs.contains(tab) {
                    lemma_lists_grows(old_orders[k], tabs, n);
                }
                assert(orders.len() == old_orders.len());
                assert forall|l: int| 0 <= l < orders.len() implies (#[trigger] orders[l]).worktree
                    == old_orders[l].worktree && lists(orders[l], tabs, n) by {
                    if l != k || old_orders[k].tabs.contains(tab) {
                        assert(old_orders[l].worktree != w || l == k);
                        lemma_lists_keeps(old_orders[l], tabs, n);
                    }
                }
                assert(orders[k].worktree == trees[n - 1]);
            },
            None => {
                let fresh = WorktreeOrderModel { worktree: w, tabs: seq![tab] };
                assert(orders == old_orders.push(fresh));
                assert forall|l: int| 0 <= l < old_orders.len() implies lists(
                    #[trigger] orders[l],
                    tabs,
                    n,
                ) by {
                    assert(orders[l] == old_orders[l]);
                    lemma_lists_keeps(old_orders[l], tabs, n);
                }
                assert forall|t: Seq<char>| #[trigger]
                    fresh.tabs.contains(t) <==> lists::occurs(tabs, n, (w, t)) by {
                    lists::lemma_occurs_step(tabs, n, (w, t));
                    assert(fresh.tabs[0] == tab);
                    if lists::occurs(tabs, n - 1, (w, t)) {
                        let i = choose|i: int| 0 <= i < n - 1 && #[trigger] tabs[i] == (w, t);
                        assert(trees[i] == w);
                        let l = choose|l: int|
                            0 <= l < old_orders.len() && (#[trigger] old_orders[l]).worktree
                                == trees[i];
                        assert(false);
                    }
                }
                assert(lists(fresh, tabs, n));
                assert(orders[old_orders.len() as int] == fresh);
            },
        }
        assert forall|k: int| 0 <= k < orders.len() implies lists::occurs(
            trees,
            n,
            (#[trigger] orders[k]).worktree,
        ) by {
            lists::lemma_occurs_step(trees, n, orders[k].worktree);
            if k < old_orders.len() {
                assert(old_orders[k].worktree == orders[k].worktree);
            }
        }
        assert forall|i: int| 0 <= i < n implies exists|k: int|
            0 <= k < orders.len() && (#[trigger] orders[k]).worktree == (#[trigger] trees[i]) by {
            if i < n - 1 {
                let k = choose|k: int|
                    0 <= k < old_orders.len() && (#[trigger] old_orders[k]).worktree == trees[i];
                assert(orders[k].worktree == trees[i]);
            }
        }
        assert forall|k: int, l: int| 0 <= k < l < orders.len() implies lists::precedes(
            trees,
            n,
            (#[trigger] orders[k]).worktree,
            (#[trigger] orders[l]).worktree,
        ) by {
            let x = orders[k].worktree;
            let y = orders[l].worktree;
            assert(old_orders[k].worktree == x);
            assert(lists::occurs(trees, n - 1, x));
            assert forall|j: int| 0 <= j < n && #[trigger] trees[j] == y implies lists::occurs(
                trees,
                j,
                x,
            ) by {
                if j < n - 1 {
                    if l < old_orders.len() {
                        assert(old_orders[l].worktree == y);
                        assert(lists::precedes(trees, n - 1, x, y));
                    } else {
                        let m = choose|m: int|
                            0 <= m < old_orders.len() && (#[trigger] old_orders[m]).worktree
                                == trees[j];
                        assert(false);
                    }
                }
            }
        }
    }
}

/// The tabs of the order of a worktree are exactly those that the screen shows for it, each in the
/// place of its first appearance: one stands before another just where the screen shows it first.
pub proof fn orders_follow_the_screen(
    tabs: Seq<(Seq<char>, Seq<char>)>,
    k: int,
    tab: Seq<char>,
    a: int,
    b: int,
    i: int,
    j: int,
)
    requires
        0 <= k < orders_of(tabs, tabs.len() as int).len(),
    ensures
        ({
            let order = orders_of(tabs, tabs.len() as int)[k];
            &&& order.tabs.contains(tab) <==> tabs.contains((order.worktree, tab))
            &&& {
                &&& 0 <= a < order.tabs.len() && 0 <= b < order.tabs.len()
                &&& first_shown(tabs, order.worktree, order.tabs[a], i)
                &&& first_shown(tabs, order.worktree, order.tabs[b], j)
            } ==> (a < b <==> i < j)
        }),
{
    let n = tabs.len() as int;
    lemma_orders(tabs, n);
    let order = orders_of(tabs, n)[k];
    let w = order.worktree;
    assert(lists(order, tabs, n));
    assert(order.tabs.contains(tab) <==> lists::occurs(tabs, n, (w, tab)));
    if 0 <= a < order.tabs.len() && 0 <= b < order.tabs.len() && first_shown(
        tabs,
        w,
        order.tabs[a],
        i,
    ) && first_shown(tabs, w, order.tabs[b], j) {
        if a < b {
            lists::lemma_precedes_firsts(tabs, (w, order.tabs[a]), (w, order.tabs[b]), i, j);
        }
        if b < a {
            lists::lemma_precedes_firsts(tabs, (w, order.tabs[b]), (w, order.tabs[a]), j, i);
        }
    }
}

/// Each worktree of which the screen shows a tab has an order, and no other worktree has one. The
/// orders stand as the screen first shows a tab of each.
pub proof fn worktrees_follow_the_screen(
    tabs: Seq<(Seq<char>, Seq<char>)>,
    worktree: Seq<char>,
    k: int,
    l: int,
    i: int,
    j: int,
)
    ensures
        ({
            let orders = orders_of(tabs, tabs.len() as int);
            &&& (exists|m: int|
                0 <= m < orders.len() && (#[trigger] orders[m]).worktree == worktree) <==> (exists|
                m: int,
            |
                0 <= m < tabs.len() && (#[trigger] tabs[m]).0 == worktree)
            &&& {
                &&& 0 <= k < orders.len() && 0 <= l < orders.len()
                &&& worktree_first_shown(tabs, orders[k].worktree, i)
                &&& worktree_first_shown(tabs, orders[l].worktree, j)
            } ==> (k < l <==> i < j)
        }),
{
    let n = tabs.len() as int;
    lemma_orders(tabs, n);
    let orders = orders_of(tabs, n);
    let trees = tabs.map_values(|t: (Seq<char>, Seq<char>)| t.0);
    if exists|m: int| 0 <= m < orders.len() && (#[trigger] orders[m]).worktree == worktree {
        assert(lists::occurs(trees, n, worktree));
        let m = choose|m: int| 0 <= m < n && #[trigger] trees[m] == worktree;
        assert(tabs[m].0 == worktree);
    }
    if exists|m: int| 0 <= m < tabs.len() && (#[trigger] tabs[m]).0 == worktree {
        let m = choose|m: int| 0 <= m < tabs.len() && (#[trigger] tabs[m]).0 == worktree;
        assert(trees[m] == worktree);
    }
    if 0 <= k < orders.len() && 0 <= l < orders.len() && worktree_first_shown(
        tabs,
        orders[k].worktree,
        i,
    ) && worktree_first_shown(tabs, orders[l].worktree, j) {
        assert forall|m: int| 0 <= m < i implies #[trigger] trees[m] != orders[k].worktree by {
            assert(tabs[m].0 == trees[m]);
        }
        assert forall|m: int| 0 <= m < j implies #[trigger] trees[m] != orders[l].worktree by {
            assert(tabs[m].0 == trees[m]);
        }
        if k < l {
            lists::lemma_precedes_firsts(trees, orders[k].worktree, orders[l].worktree, i, j);
        }
        if l < k {
            lists::lemma_precedes_firsts(trees, orders[l].worktree, orders[k].worktree, j, i);
        }
    }
}

proof fn lemma_among_filters<A>(s: Seq<A>, members: Seq<A>)
    ensures
        among(s, members) == s.filter(|x: A| members.contains(x)),
        besides(s, members) == s.filter(|x: A| !members.contains(x)),
    decreases s.len(),
{
    reveal(Seq::filter);
    if s.len() > 0 {
        lemma_among_filters(s.drop_last(), members);
    }
}

/// What is kept of a list is what the members hold, and the rest what they do not: each in its order,
/// as often as it stands there.
pub proof fn lists_are_parted<A>(s: Seq<A>, members: Seq<A>)
    ensures
        among(s, members) == s.filter(|x: A| members.contains(x)),
        besides(s, members) == s.filter(|x: A| !members.contains(x)),
{
    lemma_among_filters(s, members);
}

proof fn lemma_among_index<A>(s: Seq<A>, members: Seq<A>, i: int)
    requires
        0 <= i < s.len(),
        members.contains(s[i]),
    ensures
        member_count(s, members, i) < among(s, members).len(),
        among(s, members)[member_count(s, members, i) as int] == s[i],
{
    lemma_among_add(s.take(i), s.skip(i), members);
    assert(s.take(i) + s.skip(i) == s);
    lemma_among_add(seq![s[i]], s.skip(i + 1), members);
    assert(seq![s[i]] + s.skip(i + 1) == s.skip(i));
    lemma_among_one(s[i], members);
}

proof fn lemma_member_count_grows<A>(s: Seq<A>, members: Seq<A>, i: int, j: int)
    requires
        0 <= i <= j <= s.len(),
    ensures
        member_count(s, members, i) <= member_count(s, members, j),
        i < j && members.contains(s[i]) ==> member_count(s, members, i) < member_count(
            s,
            members,
            j,
        ),
{
    let mid = s.subrange(i, j);
    assert(s.take(i) + mid == s.take(j));
    lemma_among_add(s.take(i), mid, members);
    if i < j && members.contains(s[i]) {
        assert(mid[0] == s[i]);
        lemma_among_index(mid, members, 0);
    }
}

/// Whether the tabs that both orders have stand in one as in the other.
pub open spec fn agree(order: Seq<Seq<char>>, screen: Seq<Seq<char>>) -> bool {
    forall|i: int, j: int, p: int, q: int|
        0 <= i < j < order.len() && 0 <= p < screen.len() && 0 <= q < screen.len()
            && #[trigger] order[i] == #[trigger] screen[p] && #[trigger] order[j]
            == #[trigger] screen[q] ==> p < q
}

/// Whether the two have a tab in common.
pub open spec fn share_a_tab(order: Seq<Seq<char>>, screen: Seq<Seq<char>>) -> bool {
    exists|x: Seq<char>| #[trigger] order.contains(x) && screen.contains(x)
}

proof fn lemma_agree_when_among_is(
    order: Seq<Seq<char>>,
    screen: Seq<Seq<char>>,
    shared: Seq<Seq<char>>,
)
    requires
        screen.no_duplicates(),
        forall|x: Seq<char>| #[trigger]
            order.contains(x) && screen.contains(x) ==> shared.contains(x),
        among(order, shared) == among(screen, shared),
    ensures
        agree(order, screen),
{
    let both = among(screen, shared);
    lemma_among_distinct(screen, shared);
    assert forall|i: int, j: int, p: int, q: int|
        0 <= i < j < order.len() && 0 <= p < screen.len() && 0 <= q < screen.len()
            && #[trigger] order[i] == #[trigger] screen[p] && #[trigger] order[j]
            == #[trigger] screen[q] implies p < q by {
        assert(order.contains(order[i]) && screen.contains(screen[p]));
        assert(order.contains(order[j]) && screen.contains(screen[q]));
        lemma_among_index(order, shared, i);
        lemma_among_index(order, shared, j);
        lemma_among_index(screen, shared, p);
        lemma_among_index(screen, shared, q);
        lemma_member_count_grows(order, shared, i, j);
        if q <= p {
            lemma_member_count_grows(screen, shared, q, p);
        }
    }
}

proof fn lemma_first_moved<A>(desired: Seq<A>, current: Seq<A>, i: int) -> (k: int)
    requires
        desired.len() == current.len(),
        0 <= i <= desired.len(),
        desired != current,
        forall|j: int| 0 <= j < i ==> desired[j] == current[j],
    ensures
        0 <= k < desired.len(),
        first_moved(desired, current, i) == desired[k],
        desired[k] != current[k],
        forall|j: int| 0 <= j < k ==> desired[j] == current[j],
    decreases desired.len() - i,
{
    if i == desired.len() {
        assert(desired =~= current);
        0
    } else if desired[i] != current[i] {
        i
    } else {
        lemma_first_moved(desired, current, i + 1)
    }
}

proof fn lemma_shared(order: Seq<Seq<char>>, screen: Seq<Seq<char>>)
    requires
        order.no_duplicates(),
        screen.no_duplicates(),
    ensures
        ({
            let current = among(order, screen);
            let desired = among(screen, current);
            &&& current.no_duplicates() && desired.no_duplicates()
            &&& current.len() == desired.len()
            &&& among(order, current) == current
            &&& forall|x: Seq<char>| #[trigger]
                current.contains(x) <==> order.contains(x) && screen.contains(x)
            &&& forall|x: Seq<char>| #[trigger] desired.contains(x) <==> current.contains(x)
        }),
{
    let current = among(order, screen);
    let desired = among(screen, current);
    lemma_among_distinct(order, screen);
    lemma_among_distinct(screen, current);
    assert forall|x: Seq<char>| #[trigger]
        current.contains(x) <==> order.contains(x) && screen.contains(x) by {
        lemma_among_holds(order, screen, x);
    }
    assert forall|x: Seq<char>| #[trigger] desired.contains(x) <==> current.contains(x) by {
        lemma_among_holds(order, screen, x);
        lemma_among_holds(screen, current, x);
    }
    assert forall|x: Seq<char>| current.contains(x) implies desired.contains(x) by {}
    assert forall|x: Seq<char>| desired.contains(x) implies current.contains(x) by {}
    lemma_no_more_than(current, desired);
    lemma_no_more_than(desired, current);
    lemma_among_same(order, screen, current);
}

/// A new order has the same tabs, each once, and agrees with the screen. Tabs that the screen does not
/// show keep their places, and the tab that was moved is the first that stands elsewhere than before.
/// There is a new order just where the old one does not agree with the screen.
pub proof fn reorders_agree_with_the_screen(group: TabGroupModel, mirrored: Seq<Seq<char>>)
    requires
        group.tab_order.no_duplicates(),
        mirrored.no_duplicates(),
    ensures
        reorder_of(group, mirrored) is None <==> agree(group.tab_order, mirrored),
        reorder_of(group, mirrored) matches Some(r) ==> {
            &&& r.group_id == group.id
            &&& r.next.len() == group.tab_order.len()
            &&& r.next.no_duplicates()
            &&& forall|x: Seq<char>| #[trigger]
                r.next.contains(x) <==> group.tab_order.contains(x)
            &&& agree(r.next, mirrored)
            &&& forall|i: int|
                0 <= i < r.next.len() && !mirrored.contains(#[trigger] group.tab_order[i])
                    ==> r.next[i] == group.tab_order[i]
            &&& exists|i: int|
                0 <= i < r.next.len() && r.moved == #[trigger] r.next[i] && r.next[i]
                    != group.tab_order[i] && r.next.take(i) == group.tab_order.take(i)
        },
{
    let order = group.tab_order;
    let current = among(order, mirrored);
    let desired = among(mirrored, current);
    lemma_shared(order, mirrored);
    if reorder_of(group, mirrored) is None {
        if desired.len() < 2 {
            assert forall|i: int, j: int, p: int, q: int|
                0 <= i < j < order.len() && 0 <= p < mirrored.len() && 0 <= q < mirrored.len()
                    && #[trigger] order[i] == #[trigger] mirrored[p] && #[trigger] order[j]
                    == #[trigger] mirrored[q] implies p < q by {
                assert(order.contains(order[i]) && mirrored.contains(mirrored[p]));
                assert(order.contains(order[j]) && mirrored.contains(mirrored[q]));
                assert(current.contains(order[i]) && current.contains(order[j]));
                assert(order[i] != order[j]);
            }
        } else {
            lemma_agree_when_among_is(order, mirrored, current);
        }
    } else {
        let r = reorder_of(group, mirrored)->0;
        let next = r.next;
        reordering_follows_the_screen(group, mirrored);
        lemma_refilled(order, current, desired, order.len() as int);
        lemma_next_has_the_tabs(order, current, desired, next);
        assert forall|x: Seq<char>| #[trigger]
            next.contains(x) && mirrored.contains(x) implies current.contains(x) by {
            assert(order.contains(x));
        }
        lemma_agree_when_among_is(next, mirrored, current);
        let k = lemma_first_moved(desired, current, 0);
        lemma_next_moves_first(order, current, desired, next, k);
        lemma_moved_breaks(order, mirrored, current, desired, k);
    }
}

/// Whether `next` is `order` with the members in the order of `desired`.
spec fn is_refilled(
    order: Seq<Seq<char>>,
    current: Seq<Seq<char>>,
    desired: Seq<Seq<char>>,
    next: Seq<Seq<char>>,
) -> bool {
    &&& next.len() == order.len()
    &&& forall|i: int|
        0 <= i < order.len() && !current.contains(#[trigger] order[i]) ==> next[i] == order[i]
    &&& forall|i: int|
        0 <= i < order.len() && current.contains(#[trigger] order[i]) ==> member_count(
            order,
            current,
            i,
        ) < desired.len() && next[i] == desired[member_count(order, current, i) as int]
}

proof fn lemma_next_has_the_tabs(
    order: Seq<Seq<char>>,
    current: Seq<Seq<char>>,
    desired: Seq<Seq<char>>,
    next: Seq<Seq<char>>,
)
    requires
        order.no_duplicates(),
        desired.no_duplicates(),
        is_refilled(order, current, desired, next),
        forall|x: Seq<char>| #[trigger] desired.contains(x) <==> current.contains(x),
        forall|x: Seq<char>| #[trigger] current.contains(x) ==> order.contains(x),
        among(next, current) == desired,
    ensures
        next.no_duplicates(),
        forall|x: Seq<char>| #[trigger] next.contains(x) <==> order.contains(x),
{
    assert forall|i: int| 0 <= i < order.len() implies (current.contains(#[trigger] order[i])
        <==> current.contains(next[i])) by {
        if current.contains(order[i]) {
            let c = member_count(order, current, i) as int;
            assert(next[i] == desired[c]);
            assert(desired.contains(desired[c]));
        }
    }
    assert forall|x: Seq<char>| #[trigger] next.contains(x) <==> order.contains(x) by {
        if next.contains(x) {
            let i = choose|i: int| 0 <= i < next.len() && next[i] == x;
            assert(order.contains(order[i]));
        }
        if order.contains(x) {
            let i = choose|i: int| 0 <= i < order.len() && order[i] == x;
            if current.contains(x) {
                assert(desired.contains(x));
                lemma_among_holds(next, current, x);
            } else {
                assert(next[i] == x);
            }
        }
    }
    assert forall|i: int, j: int| 0 <= i < j < next.len() implies next[i] != next[j] by {
        assert(order[i] != order[j]);
        if current.contains(order[i]) && current.contains(order[j]) {
            lemma_member_count_grows(order, current, i, j);
            let a = member_count(order, current, i) as int;
            let b = member_count(order, current, j) as int;
            assert(next[i] == desired[a] && next[j] == desired[b]);
        }
    }
}

proof fn lemma_next_moves_first(
    order: Seq<Seq<char>>,
    current: Seq<Seq<char>>,
    desired: Seq<Seq<char>>,
    next: Seq<Seq<char>>,
    k: int,
)
    requires
        current.no_duplicates(),
        is_refilled(order, current, desired, next),
        among(order, current) == current,
        forall|x: Seq<char>| #[trigger] current.contains(x) ==> order.contains(x),
        desired.len() == current.len(),
        0 <= k < desired.len(),
        desired[k] != current[k],
        forall|j: int| 0 <= j < k ==> desired[j] == current[j],
    ensures
        exists|i: int|
            0 <= i < next.len() && desired[k] == #[trigger] next[i] && next[i] != order[i]
                && next.take(i) == order.take(i),
{
    assert(current.contains(current[k]));
    let i = choose|i: int| 0 <= i < order.len() && order[i] == current[k];
    lemma_among_index(order, current, i);
    assert(member_count(order, current, i) == k);
    assert(next[i] == desired[k]);
    assert forall|j: int| 0 <= j < i implies next[j] == #[trigger] order[j] by {
        if current.contains(order[j]) {
            lemma_member_count_grows(order, current, j, i);
            lemma_among_index(order, current, j);
            assert(next[j] == desired[member_count(order, current, j) as int]);
        }
    }
    assert(next.take(i) =~= order.take(i));
}

proof fn lemma_moved_breaks(
    order: Seq<Seq<char>>,
    screen: Seq<Seq<char>>,
    current: Seq<Seq<char>>,
    desired: Seq<Seq<char>>,
    k: int,
)
    requires
        order.no_duplicates(),
        screen.no_duplicates(),
        current == among(order, screen),
        desired == among(screen, current),
        0 <= k < desired.len(),
        desired.len() == current.len(),
        desired[k] != current[k],
        forall|j: int| 0 <= j < k ==> desired[j] == current[j],
    ensures
        !agree(order, screen),
{
    lemma_shared(order, screen);
    assert(desired.contains(desired[k]) && current.contains(current[k]));
    assert(current.contains(desired[k]) && desired.contains(current[k]));
    let l = choose|l: int| 0 <= l < current.len() && current[l] == desired[k];
    let m = choose|m: int| 0 <= m < desired.len() && desired[m] == current[k];
    assert(l > k) by {
        if l < k {
            assert(desired[l] == current[l]);
        }
    }
    assert(m > k) by {
        if m < k {
            assert(desired[m] == current[m]);
        }
    }
    let x = current[k];
    let y = desired[k];
    let i = choose|i: int| 0 <= i < order.len() && order[i] == x;
    let j = choose|j: int| 0 <= j < order.len() && order[j] == y;
    let p = choose|p: int| 0 <= p < screen.len() && screen[p] == x;
    let q = choose|q: int| 0 <= q < screen.len() && screen[q] == y;
    lemma_among_index(order, current, i);
    lemma_among_index(order, current, j);
    lemma_among_index(screen, current, p);
    lemma_among_index(screen, current, q);
    assert(member_count(order, current, i) == k && member_count(order, current, j) == l);
    assert(member_count(screen, current, p) == m && member_count(screen, current, q) == k);
    assert(i < j) by {
        if j <= i {
            lemma_member_count_grows(order, current, j, i);
        }
    }
    assert(q < p) by {
        if p <= q {
            lemma_member_count_grows(screen, current, p, q);
        }
    }
    assert(order[i] == screen[p] && order[j] == screen[q]);
}

/// The group that gets a new order is the first that has a tab of the screen. There is none to tell
/// just where no group has one, or where that group agrees with the screen.
pub proof fn the_first_group_is_reordered(groups: Seq<TabGroupModel>, mirrored: Seq<Seq<char>>)
    requires
        mirrored.no_duplicates(),
        forall|k: int| 0 <= k < groups.len() ==> (#[trigger] groups[k]).tab_order.no_duplicates(),
    ensures
        match reorder_in(groups, mirrored) {
            Some(r) => exists|k: int|
                0 <= k < groups.len() && Some(r) == reorder_of(#[trigger] groups[k], mirrored)
                    && share_a_tab(groups[k].tab_order, mirrored) && forall|j: int|
                    0 <= j < k ==> !share_a_tab((#[trigger] groups[j]).tab_order, mirrored),
            None => (forall|k: int|
                0 <= k < groups.len() ==> !share_a_tab(
                    (#[trigger] groups[k]).tab_order,
                    mirrored,
                )) || (exists|k: int|
                0 <= k < groups.len() && agree((#[trigger] groups[k]).tab_order, mirrored)
                    && share_a_tab(groups[k].tab_order, mirrored) && forall|j: int|
                    0 <= j < k ==> !share_a_tab((#[trigger] groups[j]).tab_order, mirrored)),
        },
{
    lemma_group_at(groups, 0, mirrored);
    if let Some(k) = group_at(groups, 0, mirrored) {
        reorders_agree_with_the_screen(groups[k], mirrored);
        if mirrored.len() < 2 {
            let order = groups[k].tab_order;
            assert forall|i: int, j: int, p: int, q: int|
                0 <= i < j < order.len() && 0 <= p < mirrored.len() && 0 <= q < mirrored.len()
                    && #[trigger] order[i] == #[trigger] mirrored[p] && #[trigger] order[j]
                    == #[trigger] mirrored[q] implies p < q by {
                assert(order[i] != order[j]);
            }
        }
        assert(reorder_in(groups, mirrored) is Some ==> reorder_in(groups, mirrored) == reorder_of(
            groups[k],
            mirrored,
        ));
    }
}

proof fn lemma_group_at(groups: Seq<TabGroupModel>, i: int, tabs: Seq<Seq<char>>)
    requires
        0 <= i <= groups.len(),
    ensures
        match group_at(groups, i, tabs) {
            Some(k) => i <= k < groups.len() && share_a_tab(groups[k].tab_order, tabs) && forall|
                j: int,
            |
                i <= j < k ==> !share_a_tab((#[trigger] groups[j]).tab_order, tabs),
            None => forall|j: int|
                i <= j < groups.len() ==> !share_a_tab((#[trigger] groups[j]).tab_order, tabs),
        },
    decreases groups.len() - i,
{
    if i < groups.len() {
        let kept = among(groups[i].tab_order, tabs);
        if kept.len() > 0 {
            assert(kept.contains(kept[0]));
            lemma_among_holds(groups[i].tab_order, tabs, kept[0]);
        } else {
            assert forall|x: Seq<char>| #[trigger]
                groups[i].tab_order.contains(x) implies !tabs.contains(x) by {
                lemma_among_holds(groups[i].tab_order, tabs, x);
            }
            lemma_group_at(groups, i + 1, tabs);
        }
    }
}

/// What a list says, it says item by item: each stands in its place, and none is added or left out.
pub proof fn items_keep_their_places(
    a: Seq<(String, String)>,
    b: Seq<WorktreeOrder>,
    c: Seq<TabGroup>,
    i: int,
)
    ensures
        identities(a).len() == a.len(),
        0 <= i < a.len() ==> identities(a)[i] == (a[i].0@, a[i].1@),
        order_models(b).len() == b.len(),
        0 <= i < b.len() ==> order_models(b)[i] == b[i]@,
        group_models(c).len() == c.len(),
        0 <= i < c.len() ==> group_models(c)[i] == c[i]@,
{
}

} // verus!
