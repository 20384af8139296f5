//! Which tabs a domain makes when it is attached to a hub, one after the other.
use crate::collections::{TextMap, TextSet};
use crate::orca_mux::domain::realise;
use crate::orca_mux::pane::TerminalSummary;
use crate::text;
use vstd::prelude::*;

verus! {

/// The tab to make next.
#[derive(Debug)]
pub enum AttachTab {
    /// For the visual tab of this index.
    Visual(usize),
    /// For the terminal of this handle alone, which no visual tab shows.
    Single(String),
    /// There is none left.
    Finished,
}

/// Works off the visual tabs and the terminals of a hub.
#[derive(Debug)]
pub struct AttachTabs {
    tabs: Vec<Vec<String>>,
    next: usize,
    made: Option<usize>,
    summaries: TextMap<TerminalSummary>,
    leftovers: Option<Vec<String>>,
    single: usize,
}

/// What an [`AttachTabs`] has done and still has to do. Once the visual tabs are done, `leftovers` are
/// the terminals that no visual tab shows.
#[verifier::ext_equal]
pub struct AttachTabsModel {
    pub tabs: Seq<Seq<Seq<char>>>,
    pub next: int,
    pub made: Option<int>,
    pub summaries: Map<Seq<char>, TerminalSummary>,
    pub leftovers: Option<Seq<Seq<char>>>,
    pub single: int,
}

/// The terminals of visual tabs.
pub open spec fn tab_handles(tabs: Seq<Vec<String>>) -> Seq<Seq<Seq<char>>> {
    tabs.map_values(|t: Vec<String>| text::texts(t@))
}

impl View for AttachTabs {
    type V = AttachTabsModel;

    closed spec fn view(&self) -> AttachTabsModel {
        AttachTabsModel {
            tabs: tab_handles(self.tabs@),
            next: self.next as int,
            made: match self.made {
                Some(k) => Some(k as int),
                None => None,
            },
            summaries: self.summaries@,
            leftovers: match self.leftovers {
                Some(v) => Some(text::texts(v@)),
                None => None,
            },
            single: self.single as int,
        }
    }
}

/// Whether a visual tab is shown as a whole: it has terminals, and each of them can be followed and
/// is not followed yet.
pub open spec fn shown_whole(
    handles: Seq<Seq<char>>,
    summaries: Map<Seq<char>, TerminalSummary>,
    attached: Set<Seq<char>>,
) -> bool {
    handles.len() > 0 && forall|i: int|
        0 <= i < handles.len() ==> realise::is_attachable(summaries, #[trigger] handles[i])
            && !attached.contains(handles[i])
}

/// The terminals without the first `n` of the handles.
pub open spec fn without(
    summaries: Map<Seq<char>, TerminalSummary>,
    handles: Seq<Seq<char>>,
    n: int,
) -> Map<Seq<char>, TerminalSummary>
    decreases n,
{
    if n <= 0 {
        summaries
    } else {
        without(summaries, handles, n - 1).remove(handles[n - 1])
    }
}

/// The terminals that are left once the visual tab that was made last is taken off.
pub open spec fn left_after(m: AttachTabsModel) -> Map<Seq<char>, TerminalSummary> {
    match m.made {
        Some(k) => without(m.summaries, m.tabs[k], m.tabs[k].len() as int),
        None => m.summaries,
    }
}

/// The least index from `i` on of a visual tab that is shown as a whole.
pub open spec fn next_whole(
    tabs: Seq<Seq<Seq<char>>>,
    i: int,
    summaries: Map<Seq<char>, TerminalSummary>,
    attached: Set<Seq<char>>,
) -> int
    decreases tabs.len() - i,
{
    if i < 0 || i >= tabs.len() {
        tabs.len() as int
    } else if shown_whole(tabs[i], summaries, attached) {
        i
    } else {
        next_whole(tabs, i + 1, summaries, attached)
    }
}

/// The least index from `i` on of a terminal that can be followed and is not followed yet.
pub open spec fn next_single(
    handles: Seq<Seq<char>>,
    i: int,
    summaries: Map<Seq<char>, TerminalSummary>,
    attached: Set<Seq<char>>,
) -> int
    decreases handles.len() - i,
{
    if i < 0 || i >= handles.len() {
        handles.len() as int
    } else if realise::is_attachable(summaries, handles[i]) && !attached.contains(handles[i]) {
        i
    } else {
        next_single(handles, i + 1, summaries, attached)
    }
}

/// What is known between two steps: the indices are in range, and terminals are left over only once
/// the visual tabs are done.
pub open spec fn in_step(m: AttachTabsModel) -> bool {
    &&& 0 <= m.next <= m.tabs.len()
    &&& (m.made matches Some(k) ==> 0 <= k < m.next)
    &&& (m.leftovers matches Some(v) ==> m.next == m.tabs.len() && 0 <= m.single <= v.len())
    &&& (m.leftovers is None ==> m.single == 0)
}

impl AttachTabs {
    /// Starts on the visual tabs with the given terminals, in the order in which they are shown.
    pub fn new(tabs: Vec<Vec<String>>, summaries: TextMap<TerminalSummary>) -> (r: AttachTabs)
        ensures
            r@ == (AttachTabsModel {
                tabs: tab_handles(tabs@),
                next: 0,
                made: None,
                summaries: summaries@,
                leftovers: None,
                single: 0,
            }),
            in_step(r@),
    {
        AttachTabs { tabs, next: 0, made: None, summaries, leftovers: None, single: 0 }
    }

    /// The terminals that are not taken off yet.
    pub fn summaries(&self) -> (r: &TextMap<TerminalSummary>)
        ensures
            r@ == self@.summaries,
    {
        &self.summaries
    }

    /// Takes the terminals of the visual tab that was made last off.
    fn take_off(&mut self)
        requires
            in_step(old(self)@),
        ensures
            final(self)@ == (AttachTabsModel {
                made: None,
                summaries: left_after(old(self)@),
                ..old(self)@
            }),
    {
        if let Some(k) = self.made {
            let ghost start = self@;
            let ghost handles = self@.tabs[k as int];
            assert(handles == text::texts(self.tabs@[k as int]@));
            let mut i: usize = 0;
            while i < self.tabs[k].len()
                invariant
                    k < self.tabs@.len(),
                    handles == text::texts(self.tabs@[k as int]@),
                    i <= handles.len(),
                    self@ == (AttachTabsModel {
                        summaries: without(start.summaries, handles, i as int),
                        ..start
                    }),
                decreases handles.len() - i,
            {
                assert(handles[i as int] == self.tabs@[k as int]@[i as int]@);
                let handle = self.tabs[k][i].clone();
                let _ = self.summaries.remove(handle.as_str());
                i += 1;
            }
            self.made = None;
        }
    }

    /// The next visual tab to make a tab for, where one is left.
    fn next_visual(&mut self, attached: &TextSet) -> (r: Option<usize>)
        requires
            in_step(old(self)@),
        ensures
            ({
                let d = old(self)@;
                let k = next_whole(d.tabs, d.next, d.summaries, attached@);
                match r {
                    Some(i) => i == k && k < d.tabs.len() && final(self)@ == (AttachTabsModel {
                        next: k + 1,
                        made: Some(k),
                        ..d
                    }),
                    None => k == d.tabs.len() && final(self)@ == (AttachTabsModel {
                        next: d.tabs.len() as int,
                        ..d
                    }),
                }
            }),
    {
        let ghost start = self@;
        while self.next < self.tabs.len()
            invariant
                start == old(self)@,
                start.next <= self.next <= self.tabs@.len(),
                0 <= start.next,
                self@ == (AttachTabsModel { next: self@.next, ..start }),
                next_whole(start.tabs, start.next, start.summaries, attached@) == next_whole(
                    start.tabs,
                    self@.next,
                    start.summaries,
                    attached@,
                ),
            decreases self.tabs@.len() - self.next,
        {
            let i: usize = self.next;
            assert(start.tabs[i as int] == text::texts(self.tabs@[i as int]@));
            self.next = i + 1;
            if realise::attaches_whole(&self.tabs[i], &self.summaries, attached) {
                self.made = Some(i);
                return Some(i);
            }
        }
        None
    }

    /// The tab to make next. `attached` are the terminals that are followed by now.
    pub fn step(&mut self, attached: &TextSet) -> (r: AttachTab)
        requires
            in_step(old(self)@),
        ensures
            in_step(final(self)@),
            final(self)@.tabs == old(self)@.tabs,
            final(self)@.summaries == left_after(old(self)@),
            ({
                let d = old(self)@;
                let left = left_after(d);
                let k = next_whole(d.tabs, d.next, left, attached@);
                if k < d.tabs.len() {
                    (r matches AttachTab::Visual(i) && i == k) && final(self)@.next == k + 1
                        && final(self)@.made == Some(k) && final(self)@.leftovers == d.leftovers
                } else {
                    final(self)@.made is None && (final(self)@.leftovers matches Some(rest)
                        && (d.leftovers is Some ==> d.leftovers == Some(rest)) && (d.leftovers is None
                        ==> realise::are_leftovers(rest, left)) && ({
                        let s = next_single(rest, d.single, left, attached@);
                        if s < rest.len() {
                            (r matches AttachTab::Single(handle) && handle@ == rest[s])
                                && final(self)@.single == s + 1
                        } else {
                            r is Finished && final(self)@.single == rest.len()
                        }
                    }))
                }
            }),
    {
        let ghost d = self@;
        self.take_off();
        let ghost left = self@.summaries;
        assert(left == left_after(d));
        if let Some(i) = self.next_visual(attached) {
            return AttachTab::Visual(i);
        }
        if self.leftovers.is_none() {
            self.leftovers = Some(realise::leftover_handles(&self.summaries));
        }
        let ghost rest = self@.leftovers->0;
        let ghost first = self@.single;
        let mut found: Option<String> = None;
        if let Some(handles) = &self.leftovers {
            let mut i: usize = self.single;
            while i < handles.len()
                invariant_except_break
                    found is None,
                    next_single(rest, first, left, attached@) == next_single(
                        rest,
                        i as int,
                        left,
                        attached@,
                    ),
                invariant
                    rest == text::texts(handles@),
                    0 <= first <= i <= handles@.len(),
                    self.summaries@ == left,
                ensures
                    match found {
                        Some(handle) => i < handles@.len() && i == next_single(
                            rest,
                            first,
                            left,
                            attached@,
                        ) && handle@ == rest[i as int],
                        None => i == handles@.len() && next_single(rest, first, left, attached@)
                            == rest.len(),
                    },
                decreases handles@.len() - i,
            {
                assert(rest[i as int] == handles@[i as int]@);
                let handle = handles[i].as_str();
                if realise::attachable(&self.summaries, handle) && !attached.contains(handle) {
                    found = Some(handle.to_owned());
                    break;
                }
                i += 1;
            }
            if i < handles.len() {
                i += 1;
            }
            self.single = i;
        }
        match found {
            Some(handle) => AttachTab::Single(handle),
            None => AttachTab::Finished,
        }
    }
}

/// The terminals of a visual tab that was made are not left over: none of them gets a tab of its own.
pub proof fn a_shown_terminal_is_not_left_over(
    summaries: Map<Seq<char>, TerminalSummary>,
    handles: Seq<Seq<char>>,
    n: int,
)
    requires
        0 <= n <= handles.len(),
    ensures
        forall|i: int|
            0 <= i < n ==> !without(summaries, handles, n).contains_key(#[trigger] handles[i]),
        forall|h: Seq<char>| #[trigger]
            without(summaries, handles, n).contains_key(h) ==> summaries.contains_key(h),
    decreases n,
{
    if n > 0 {
        a_shown_terminal_is_not_left_over(summaries, handles, n - 1);
        let before = without(summaries, handles, n - 1);
        assert forall|h: Seq<char>| #[trigger]
            without(summaries, handles, n).contains_key(h) implies summaries.contains_key(h) by {
            assert(before.contains_key(h));
        }
    }
}

/// A tab that was shown takes its terminals off those that are left, and no others; what is known of
/// the others stays.
pub proof fn only_shown_terminals_are_taken_off(
    summaries: Map<Seq<char>, TerminalSummary>,
    handles: Seq<Seq<char>>,
    h: Seq<char>,
)
    ensures
        ({
            let left = without(summaries, handles, handles.len() as int);
            &&& left.contains_key(h) <==> summaries.contains_key(h) && !handles.contains(h)
            &&& left.contains_key(h) ==> left[h] == summaries[h]
        }),
{
    lemma_without(summaries, handles, handles.len() as int, h);
    assert(handles.take(handles.len() as int) == handles);
}

proof fn lemma_without(
    summaries: Map<Seq<char>, TerminalSummary>,
    handles: Seq<Seq<char>>,
    n: int,
    h: Seq<char>,
)
    requires
        0 <= n <= handles.len(),
    ensures
        ({
            let left = without(summaries, handles, n);
            &&& left.contains_key(h) <==> summaries.contains_key(h) && !handles.take(n).contains(h)
            &&& left.contains_key(h) ==> left[h] == summaries[h]
        }),
    decreases n,
{
    if n > 0 {
        lemma_without(summaries, handles, n - 1, h);
        let some = handles.take(n);
        let fewer = handles.take(n - 1);
        assert(some[n - 1] == handles[n - 1]);
        if fewer.contains(h) {
            let i = choose|i: int| 0 <= i < fewer.len() && fewer[i] == h;
            assert(some[i] == h);
        }
        if some.contains(h) && h != handles[n - 1] {
            let i = choose|i: int| 0 <= i < some.len() && some[i] == h;
            assert(fewer[i] == h);
        }
    }
}

/// The next tab to show is the first, from the given one on, of which every terminal can be followed
/// and none is shown yet.
pub proof fn the_next_whole_tab_is_the_first(
    tabs: Seq<Seq<Seq<char>>>,
    i: int,
    summaries: Map<Seq<char>, TerminalSummary>,
    attached: Set<Seq<char>>,
)
    requires
        0 <= i <= tabs.len(),
    ensures
        ({
            let k = next_whole(tabs, i, summaries, attached);
            let whole = |t: Seq<Seq<char>>|
                t.len() > 0 && forall|h: Seq<char>| #[trigger]
                    t.contains(h) ==> realise::is_attachable(summaries, h) && !attached.contains(h);
            &&& i <= k <= tabs.len()
            &&& k < tabs.len() ==> whole(tabs[k])
            &&& forall|j: int| i <= j < k ==> !whole(#[trigger] tabs[j])
        }),
    decreases tabs.len() - i,
{
    if i < tabs.len() {
        let t = tabs[i];
        assert(shown_whole(t, summaries, attached) <==> (t.len() > 0 && forall|h: Seq<char>|
            #[trigger] t.contains(h) ==> realise::is_attachable(summaries, h) && !attached.contains(h)))
            by {
            if shown_whole(t, summaries, attached) {
                assert forall|h: Seq<char>| #[trigger] t.contains(h) implies realise::is_attachable(
                    summaries,
                    h,
                ) && !attached.contains(h) by {
                    let m = choose|m: int| 0 <= m < t.len() && t[m] == h;
                    assert(realise::is_attachable(summaries, t[m]));
                }
            } else if t.len() > 0 {
                let m = choose|m: int|
                    0 <= m < t.len() && !(realise::is_attachable(summaries, #[trigger] t[m])
                        && !attached.contains(t[m]));
                assert(t.contains(t[m]));
            }
        }
        if !shown_whole(t, summaries, attached) {
            the_next_whole_tab_is_the_first(tabs, i + 1, summaries, attached);
        }
    }
}

/// The next terminal to show by itself is the first, from the given one on, that can be followed and
/// is not shown yet.
pub proof fn the_next_single_is_the_first(
    handles: Seq<Seq<char>>,
    i: int,
    summaries: Map<Seq<char>, TerminalSummary>,
    attached: Set<Seq<char>>,
)
    requires
        0 <= i <= handles.len(),
    ensures
        ({
            let k = next_single(handles, i, summaries, attached);
            &&& i <= k <= handles.len()
            &&& k < handles.len() ==> realise::is_attachable(summaries, handles[k])
                && !attached.contains(handles[k])
            &&& forall|j: int|
                i <= j < k ==> !realise::is_attachable(summaries, #[trigger] handles[j])
                    || attached.contains(handles[j])
        }),
    decreases handles.len() - i,
{
    if i < handles.len() && !(realise::is_attachable(summaries, handles[i]) && !attached.contains(
        handles[i],
    )) {
        the_next_single_is_the_first(handles, i + 1, summaries, attached);
    }
}

/// Once a tab was shown, its terminals are no longer left; where none was shown, all are.
pub proof fn shown_tabs_leave_the_rest(m: AttachTabsModel, h: Seq<char>)
    requires
        in_step(m),
    ensures
        m.made is None ==> left_after(m) == m.summaries,
        m.made matches Some(k) ==> (left_after(m).contains_key(h) <==> m.summaries.contains_key(h)
            && !m.tabs[k].contains(h)),
        left_after(m).contains_key(h) ==> left_after(m)[h] == m.summaries[h],
{
    if let Some(k) = m.made {
        only_shown_terminals_are_taken_off(m.summaries, m.tabs[k], h);
    }
}

/// What a list says, it says item by item: each stands in its place, and none is added or left out.
pub proof fn items_keep_their_places(v: Seq<Vec<String>>, i: int)
    ensures
        tab_handles(v).len() == v.len(),
        0 <= i < v.len() ==> tab_handles(v)[i] == text::texts(v[i]@),
{
}

} // verus!
