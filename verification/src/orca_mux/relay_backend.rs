//! A host whose terminals are those that its relay lists.
use crate::collections::TextSet;
use crate::json;
use crate::json::{Json, JsonModel};
use crate::lists;
use crate::order;
use crate::orca_mux::session;
use crate::text;
use vstd::prelude::*;

verus! {

/// How long a poll waits for the next, in milliseconds.
pub const POLL_INTERVAL_MS: u64 = 2000;

/// A terminal that the relay lists, and the directory it works in.
#[derive(Debug)]
pub struct LivePty {
    pub id: String,
    pub cwd: String,
}

/// The directory and the id of terminals.
pub open spec fn pty_keys(ptys: Seq<LivePty>) -> Seq<(Seq<char>, Seq<char>)> {
    Seq::new(ptys.len(), |i: int| (ptys[i].cwd@, ptys[i].id@))
}

/// Whether a process is shown: it belongs to a worktree, it has a handle, or it is one of our own.
pub open spec fn shown(process: JsonModel, owned: Set<Seq<char>>) -> bool {
    json::member(process, "worktreeId"@) is Some || json::member(process, "terminalHandle"@) is Some
        || owned.contains(session::or_empty(json::text_member(process, "id"@)))
}

/// The directory and the id of the processes from index `i` on that are shown and have an id.
pub open spec fn shown_from(processes: Seq<JsonModel>, i: int, owned: Set<Seq<char>>) -> Seq<
    (Seq<char>, Seq<char>),
>
    decreases processes.len() - i,
{
    if i < 0 || i >= processes.len() {
        Seq::empty()
    } else {
        let rest = shown_from(processes, i + 1, owned);
        match json::text_member(processes[i], "id"@) {
            Some(id) => if shown(processes[i], owned) {
                seq![(session::or_empty(json::text_member(processes[i], "cwd"@)), id)] + rest
            } else {
                rest
            },
            None => rest,
        }
    }
}

/// Whether `sorted` are the pairs of `all`, in their order.
pub open spec fn is_sorted_form(
    sorted: Seq<(Seq<char>, Seq<char>)>,
    all: Seq<(Seq<char>, Seq<char>)>,
) -> bool {
    exists|by: Seq<usize>| #[trigger]
        order::is_order_of(by, all) && sorted == Seq::new(by.len(), |i: int| all[by[i] as int])
}

/// Whether some pair has the id.
pub open spec fn lists(all: Seq<(Seq<char>, Seq<char>)>, id: Seq<char>) -> bool {
    exists|i: int| 0 <= i < all.len() && (#[trigger] all[i]).1 == id
}

/// The terminals to show on a host, by what the relay lists.
#[derive(Debug)]
pub struct Reconciled {
    /// The terminals whose panes are to be removed.
    pub gone: Vec<String>,
    /// The terminals that are to have a pane, by directory and id.
    pub live: Vec<LivePty>,
}

/// A host that is shown through its relay: the terminals that have a pane, and those of them that
/// were started from here.
#[derive(Debug)]
pub struct RelayBackend {
    panes: TextSet,
    owned: TextSet,
    detached: bool,
    supervising: bool,
}

/// What a [`RelayBackend`] knows.
#[verifier::ext_equal]
pub struct RelayBackendModel {
    pub panes: Set<Seq<char>>,
    pub owned: Set<Seq<char>>,
    pub detached: bool,
    pub supervising: bool,
}

impl View for RelayBackend {
    type V = RelayBackendModel;

    closed spec fn view(&self) -> RelayBackendModel {
        RelayBackendModel {
            panes: self.panes@,
            owned: self.owned@,
            detached: self.detached,
            supervising: self.supervising,
        }
    }
}

fn member_text(value: &Json, key: &str) -> (r: String)
    ensures
        r@ == session::or_empty(json::text_member(value@, key@)),
{
    match value.get_text(key) {
        Some(s) => s,
        None => "".to_owned(),
    }
}

impl RelayBackend {
    /// A host without panes.
    pub fn new() -> (r: RelayBackend)
        ensures
            r@ == (RelayBackendModel {
                panes: Set::empty(),
                owned: Set::empty(),
                detached: false,
                supervising: false,
            }),
    {
        RelayBackend {
            panes: TextSet::new(),
            owned: TextSet::new(),
            detached: false,
            supervising: false,
        }
    }

    /// Whether a process is shown.
    pub fn is_shown(&self, process: &Json) -> (r: bool)
        ensures
            r == shown(process@, self@.owned),
    {
        let id = member_text(process, "id");
        process.get("worktreeId").is_some() || process.get("terminalHandle").is_some()
            || self.owned.contains(id.as_str())
    }

    /// The terminals that are to have a pane, sorted by directory and id.
    fn live_ptys(&self, processes: &[Json]) -> (r: Vec<LivePty>)
        ensures
            is_sorted_form(
                pty_keys(r@),
                shown_from(json::models(processes@), 0, self@.owned),
            ),
    {
        let ghost all = json::models(processes@);
        let ghost owned = self@.owned;
        let mut keys: Vec<(String, String)> = Vec::new();
        let mut i: usize = 0;
        assert(order::pair_texts(keys@) + shown_from(all, 0, owned) == shown_from(all, 0, owned));
        while i < processes.len()
            invariant
                i <= processes@.len(),
                all == json::models(processes@),
                owned == self@.owned,
                order::pair_texts(keys@) + shown_from(all, i as int, owned) == shown_from(
                    all,
                    0,
                    owned,
                ),
            decreases processes@.len() - i,
        {
            let process = &processes[i];
            assert(all[i as int] == process@);
            let ghost before = order::pair_texts(keys@);
            if let Some(id) = process.get_text("id") {
                if self.is_shown(process) {
                    let cwd = member_text(process, "cwd");
                    let ghost key = (cwd@, id@);
                    keys.push((cwd, id));
                    let ghost rest = shown_from(all, i + 1, owned);
                    assert(order::pair_texts(keys@) == before.push(key));
                    assert(before + (seq![key] + rest) == order::pair_texts(keys@) + rest);
                }
            }
            i += 1;
        }
        let ghost listed = order::pair_texts(keys@);
        assert(listed + Seq::<(Seq<char>, Seq<char>)>::empty() == listed);
        let by = order::sorted_order(&keys);
        let mut out: Vec<LivePty> = Vec::new();
        let mut k: usize = 0;
        while k < by.len()
            invariant
                k <= by@.len(),
                listed == order::pair_texts(keys@),
                order::is_order_of(by@, listed),
                pty_keys(out@) == Seq::new(k as nat, |i: int| listed[by@[i] as int]),
            decreases by@.len() - k,
        {
            let at: usize = by[k];
            assert(by@[k as int] < listed.len());
            let pty = LivePty { cwd: keys[at].0.clone(), id: keys[at].1.clone() };
            let ghost before = pty_keys(out@);
            out.push(pty);
            assert(pty_keys(out@) =~= before.push(listed[at as int]));
            assert(Seq::new((k + 1) as nat, |i: int| listed[by@[i] as int]) =~= Seq::new(
                k as nat,
                |i: int| listed[by@[i] as int],
            ).push(listed[at as int]));
            k += 1;
        }
        out
    }

    /// Holds what the relay lists against the panes. A terminal that is no longer listed loses its
    /// pane, and is no longer one of our own.
    pub fn reconcile(&mut self, processes: &[Json]) -> (r: Reconciled)
        ensures
            ({
                let listed = shown_from(json::models(processes@), 0, old(self)@.owned);
                let kept = Set::new(
                    |id: Seq<char>| old(self)@.panes.contains(id) && lists(listed, id),
                );
                let gone = Set::new(
                    |id: Seq<char>| old(self)@.panes.contains(id) && !lists(listed, id),
                );
                &&& is_sorted_form(pty_keys(r.live@), listed)
                &&& text::texts(r.gone@).no_duplicates()
                &&& (forall|id: Seq<char>| #[trigger]
                    text::texts(r.gone@).contains(id) <==> gone.contains(id))
                &&& final(self)@ == (RelayBackendModel {
                    panes: kept,
                    owned: old(self)@.owned.difference(gone),
                    ..old(self)@
                })
            }),
    {
        let live = self.live_ptys(processes);
        let ghost listed = shown_from(json::models(processes@), 0, old(self)@.owned);
        let ghost keys = pty_keys(live@);
        let mut live_ids = TextSet::new();
        let mut i: usize = 0;
        while i < live.len()
            invariant
                i <= live@.len(),
                keys == pty_keys(live@),
                forall|id: Seq<char>| #[trigger]
                    live_ids@.contains(id) <==> exists|j: int| 0 <= j < i && (#[trigger] keys[j]).1
                        == id,
            decreases live@.len() - i,
        {
            let ghost before = live_ids@;
            assert(keys[i as int].1 == live@[i as int].id@);
            let _ = live_ids.insert(live[i].id.as_str());
            assert forall|id: Seq<char>| #[trigger] live_ids@.contains(id) <==> exists|j: int|
                0 <= j < i + 1 && (#[trigger] keys[j]).1 == id by {
                if before.contains(id) {
                    let j = choose|j: int| 0 <= j < i && (#[trigger] keys[j]).1 == id;
                    assert(keys[j].1 == id);
                }
            }
            i += 1;
        }
        assert forall|id: Seq<char>| #[trigger] live_ids@.contains(id) <==> lists(listed, id) by {
            lemma_sorted_form_lists(keys, listed, id);
        }
        let known = self.panes.items();
        let ghost all = text::texts(known@);
        let mut gone: Vec<String> = Vec::new();
        let mut k: usize = 0;
        while k < known.len()
            invariant
                k <= known@.len(),
                all == text::texts(known@),
                all.no_duplicates(),
                old(self)@.panes == self.panes@.union(text::texts(gone@).to_set()),
                old(self)@.owned.difference(text::texts(gone@).to_set()) == self.owned@,
                self.detached == old(self)@.detached,
                self.supervising == old(self)@.supervising,
                forall|id: Seq<char>| old(self)@.panes.contains(id) <==> #[trigger] all.contains(id),
                text::texts(gone@).no_duplicates(),
                forall|id: Seq<char>| #[trigger]
                    text::texts(gone@).contains(id) ==> !live_ids@.contains(id) && !self.panes@.contains(id)
                        && exists|j: int| 0 <= j < k && all[j] == id,
                forall|j: int|
                    0 <= j < k && !live_ids@.contains(#[trigger] all[j]) ==> text::texts(
                        gone@,
                    ).contains(all[j]),
            decreases known@.len() - k,
        {
            let id = known[k].as_str();
            assert(all[k as int] == id@);
            let ghost before = text::texts(gone@);
            let ghost panes = self.panes@;
            let ghost owned = self.owned@;
            if !live_ids.contains(id) {
                let _ = self.panes.remove(id);
                let _ = self.owned.remove(id);
                text::push_text(&mut gone, id);
                let ghost after = text::texts(gone@);
                proof {
                    assert(after == before.push(id@));
                    assert(all.contains(id@));
                    assert(!before.contains(id@)) by {
                        if before.contains(id@) {
                            let j = choose|j: int| 0 <= j < k && all[j] == id@;
                            assert(all[j] != all[k as int]);
                        }
                    }
                    assert(after.no_duplicates());
                    assert forall|x: Seq<char>| #[trigger] after.contains(x) <==> before.contains(x)
                        || x == id@ by {
                        if before.contains(x) {
                            let j = choose|j: int| 0 <= j < before.len() && before[j] == x;
                            assert(after[j] == x);
                        }
                        assert(after[before.len() as int] == id@);
                        if after.contains(x) && x != id@ {
                            let j = choose|j: int| 0 <= j < after.len() && after[j] == x;
                            assert(before[j] == x);
                        }
                    }
                    assert forall|x: Seq<char>| old(self)@.panes.contains(x) <==> #[trigger]
                        self.panes@.union(after.to_set()).contains(x) by {
                        assert(panes.union(before.to_set()).contains(x) == old(
                            self,
                        )@.panes.contains(x));
                        assert(after.contains(x) == (before.contains(x) || x == id@));
                    }
                    assert(old(self)@.panes =~= self.panes@.union(after.to_set()));
                    assert forall|x: Seq<char>| #[trigger] self.owned@.contains(x) <==> old(
                        self,
                    )@.owned.difference(after.to_set()).contains(x) by {
                        assert(owned.contains(x) == old(self)@.owned.difference(
                            before.to_set(),
                        ).contains(x));
                        assert(after.contains(x) == (before.contains(x) || x == id@));
                    }
                    assert(self.owned@ =~= old(self)@.owned.difference(after.to_set()));
                    assert forall|x: Seq<char>| #[trigger] after.contains(x) implies !live_ids@.contains(
                        x,
                    ) && !self.panes@.contains(x) && exists|j: int| 0 <= j < k + 1 && all[j]
                        == x by {
                        if before.contains(x) {
                            let j = choose|j: int| 0 <= j < k && all[j] == x;
                            assert(all[j] == x);
                        } else {
                            assert(all[k as int] == x);
                        }
                    }
                    assert forall|j: int|
                        0 <= j < k + 1 && !live_ids@.contains(#[trigger] all[j]) implies after.contains(
                        all[j],
                    ) by {
                        if j < k {
                            assert(before.contains(all[j]));
                        }
                    }
                }
            }
            k += 1;
        }
        proof {
            let out = text::texts(gone@);
            let lost = Set::new(
                |id: Seq<char>| old(self)@.panes.contains(id) && !lists(listed, id),
            );
            let kept = Set::new(
                |id: Seq<char>| old(self)@.panes.contains(id) && lists(listed, id),
            );
            assert forall|id: Seq<char>| #[trigger] out.contains(id) <==> lost.contains(id) by {
                if lost.contains(id) {
                    assert(all.contains(id));
                    let j = choose|j: int| 0 <= j < all.len() && all[j] == id;
                    assert(!live_ids@.contains(all[j]));
                }
                if out.contains(id) {
                    assert(old(self)@.panes.contains(id)) by {
                        let j = choose|j: int| 0 <= j < k && all[j] == id;
                        assert(all.contains(id));
                    }
                }
            }
            assert forall|id: Seq<char>| #[trigger] self.panes@.contains(id) <==> kept.contains(
                id,
            ) by {
                assert(old(self)@.panes.contains(id) == self.panes@.union(out.to_set()).contains(id));
                assert(out.contains(id) == lost.contains(id));
            }
            assert(self.panes@ =~= kept);
            assert forall|id: Seq<char>| #[trigger] self.owned@.contains(id) <==> old(
                self,
            )@.owned.difference(lost).contains(id) by {
                assert(out.contains(id) == lost.contains(id));
            }
            assert(self.owned@ =~= old(self)@.owned.difference(lost));
        }
        Reconciled { gone, live }
    }

    /// Whether a listed terminal needs a pane, and where it does, whether it is one of our own.
    /// `alive` says whether the pane that it has, if any, still exists.
    pub fn needs_pane(&self, pty_id: &str, alive: bool) -> (r: Option<bool>)
        ensures
            r == (if self@.panes.contains(pty_id@) && alive {
                None
            } else {
                Some(self@.owned.contains(pty_id@))
            }),
    {
        if self.panes.contains(pty_id) && alive {
            None
        } else {
            Some(self.owned.contains(pty_id))
        }
    }

    /// Notes that a terminal was started from here.
    pub fn pty_spawned(&mut self, pty_id: &str)
        ensures
            final(self)@ == (RelayBackendModel {
                owned: old(self)@.owned.insert(pty_id@),
                ..old(self)@
            }),
    {
        let _ = self.owned.insert(pty_id);
    }

    /// Notes that a terminal has a pane.
    pub fn pane_made(&mut self, pty_id: &str)
        ensures
            final(self)@ == (RelayBackendModel {
                panes: old(self)@.panes.insert(pty_id@),
                ..old(self)@
            }),
    {
        let _ = self.panes.insert(pty_id);
    }

    /// Notes that the relay is connected, and says whether a poller is to be started.
    pub fn connected(&mut self) -> (r: bool)
        ensures
            r == !old(self)@.supervising,
            final(self)@ == (RelayBackendModel {
                detached: false,
                supervising: true,
                ..old(self)@
            }),
    {
        self.detached = false;
        let first = !self.supervising;
        self.supervising = true;
        first
    }

    /// Notes that the relay was connected anew: every pane is to be made again.
    pub fn reconnected(&mut self)
        ensures
            final(self)@ == (RelayBackendModel { panes: Set::empty(), ..old(self)@ }),
    {
        self.panes.clear();
    }

    /// Forgets all terminals.
    pub fn detach(&mut self)
        ensures
            final(self)@ == (RelayBackendModel {
                panes: Set::empty(),
                owned: Set::empty(),
                detached: true,
                ..old(self)@
            }),
    {
        self.detached = true;
        self.panes.clear();
        self.owned.clear();
    }

    /// Whether the poller goes on. On a host that is detached it ends.
    pub fn poller_goes_on(&mut self) -> (r: bool)
        ensures
            r == !old(self)@.detached,
            final(self)@ == (if old(self)@.detached {
                RelayBackendModel { supervising: false, ..old(self)@ }
            } else {
                old(self)@
            }),
    {
        if self.detached {
            self.supervising = false;
            false
        } else {
            true
        }
    }
}

/// The size of a pane, as columns and rows: a terminal of our own has the size that was asked for,
/// another one its own size where the relay knows it.
pub fn attached_size(owns: bool, asked: (usize, usize), remote: Option<(u16, u16)>) -> (r: (
    usize,
    usize,
))
    ensures
        r == (match remote {
            Some(size) if !owns => (size.0 as usize, size.1 as usize),
            _ => asked,
        }),
{
    match remote {
        Some((cols, rows)) if !owns => (cols as usize, rows as usize),
        _ => asked,
    }
}

/// The directory to start a split in, where there is one.
pub fn split_cwd(command_dir: Option<String>) -> (r: Option<String>)
    ensures
        match command_dir {
            Some(dir) if dir@.len() > 0 => r matches Some(s) && s@ == dir@,
            _ => r is None,
        },
{
    match command_dir {
        Some(dir) if !dir.as_str().is_empty() => Some(dir),
        _ => None,
    }
}

proof fn lemma_sorted_form_lists(
    sorted: Seq<(Seq<char>, Seq<char>)>,
    all: Seq<(Seq<char>, Seq<char>)>,
    id: Seq<char>,
)
    requires
        is_sorted_form(sorted, all),
    ensures
        lists(sorted, id) == lists(all, id),
{
    let by = choose|by: Seq<usize>| #[trigger]
        order::is_order_of(by, all) && sorted == Seq::new(by.len(), |i: int| all[by[i] as int]);
    if lists(sorted, id) {
        let i = choose|i: int| 0 <= i < sorted.len() && (#[trigger] sorted[i]).1 == id;
        assert(by[i] < all.len());
        assert(all[by[i] as int].1 == id);
    }
    if lists(all, id) {
        let k = choose|k: int| 0 <= k < all.len() && (#[trigger] all[k]).1 == id;
        order::order_reaches_all(by, all, k);
        let i = choose|i: int| 0 <= i < by.len() && by[i] == k;
        assert(sorted[i].1 == id);
    }
}

/// After the relay's list was held against the panes, only listed terminals have one, and holding
/// the same list against them again removes nothing.
pub proof fn reconciling_again_removes_nothing(
    panes: Set<Seq<char>>,
    processes: Seq<JsonModel>,
    owned: Set<Seq<char>>,
)
    ensures
        ({
            let listed = shown_from(processes, 0, owned);
            let kept = Set::new(|id: Seq<char>| panes.contains(id) && lists(listed, id));
            let gone = Set::new(|id: Seq<char>| panes.contains(id) && !lists(listed, id));
            let listed_then = shown_from(processes, 0, owned.difference(gone));
            forall|id: Seq<char>| #[trigger] kept.contains(id) ==> lists(listed_then, id)
        }),
{
    let listed = shown_from(processes, 0, owned);
    let kept = Set::new(|id: Seq<char>| panes.contains(id) && lists(listed, id));
    let gone = Set::new(|id: Seq<char>| panes.contains(id) && !lists(listed, id));
    assert forall|id: Seq<char>| #[trigger] kept.contains(id) implies lists(
        shown_from(processes, 0, owned.difference(gone)),
        id,
    ) by {
        assert(!gone.contains(id));
        lemma_listed_stays(processes, 0, owned, owned.difference(gone), id);
    }
}

proof fn lemma_listed_stays(
    processes: Seq<JsonModel>,
    i: int,
    owned: Set<Seq<char>>,
    fewer: Set<Seq<char>>,
    id: Seq<char>,
)
    requires
        lists(shown_from(processes, i, owned), id),
        owned.contains(id) ==> fewer.contains(id),
    ensures
        lists(shown_from(processes, i, fewer), id),
    decreases processes.len() - i,
{
    let listed = shown_from(processes, i, owned);
    let then = shown_from(processes, i, fewer);
    let k = choose|k: int| 0 <= k < listed.len() && (#[trigger] listed[k]).1 == id;
    let rest = shown_from(processes, i + 1, owned);
    let rest_then = shown_from(processes, i + 1, fewer);
    if json::text_member(processes[i], "id"@) is Some && shown(processes[i], owned) {
        if k == 0 {
            assert(json::text_member(processes[i], "id"@) == Some(id));
            assert(shown(processes[i], fewer));
            assert(then[0].1 == id);
        } else {
            assert(rest[k - 1].1 == id);
            lemma_listed_stays(processes, i + 1, owned, fewer, id);
            let j = choose|j: int| 0 <= j < rest_then.len() && (#[trigger] rest_then[j]).1 == id;
            if shown(processes[i], fewer) {
                assert(then[j + 1].1 == id);
            } else {
                assert(then[j].1 == id);
            }
        }
    } else {
        assert(rest[k].1 == id);
        lemma_listed_stays(processes, i + 1, owned, fewer, id);
        let j = choose|j: int| 0 <= j < rest_then.len() && (#[trigger] rest_then[j]).1 == id;
        if json::text_member(processes[i], "id"@) is Some && shown(processes[i], fewer) {
            assert(then[j + 1].1 == id);
        } else {
            assert(then[j].1 == id);
        }
    }
}

/// The directory and the name of a process that is shown: one that belongs to a worktree or a terminal,
/// or that was started from here.
pub open spec fn shown_process(process: JsonModel, owned: Set<Seq<char>>) -> Option<
    (Seq<char>, Seq<char>),
> {
    match json::member(process, "id"@) {
        Some(JsonModel::Text(id)) => if json::member(process, "worktreeId"@) is Some || json::member(
            process,
            "terminalHandle"@,
        ) is Some || owned.contains(id) {
            Some(
                (
                    match json::member(process, "cwd"@) {
                        Some(JsonModel::Text(cwd)) => cwd,
                        _ => Seq::empty(),
                    },
                    id,
                ),
            )
        } else {
            None
        },
        _ => None,
    }
}

proof fn lemma_shown_from(processes: Seq<JsonModel>, i: int, owned: Set<Seq<char>>)
    requires
        0 <= i <= processes.len(),
    ensures
        shown_from(processes, i, owned) == lists::picked(
            processes.skip(i),
            |p: JsonModel| shown_process(p, owned),
        ),
    decreases processes.len() - i,
{
    let f = |p: JsonModel| shown_process(p, owned);
    reveal_strlit("");
    assert(""@ =~= Seq::<char>::empty());
    if i < processes.len() {
        lemma_shown_from(processes, i + 1, owned);
        lists::lemma_picked_front(processes, i, f);
    } else {
        assert(processes.skip(i) =~= Seq::<JsonModel>::empty());
        lists::lemma_picked_empty(f);
    }
}

/// All processes that are to be shown are listed, with their directories.
pub proof fn shown_processes_are_listed(processes: Seq<JsonModel>, owned: Set<Seq<char>>)
    ensures
        shown_from(processes, 0, owned) == lists::picked(
            processes,
            |p: JsonModel| shown_process(p, owned),
        ),
{
    lemma_shown_from(processes, 0, owned);
    assert(processes.skip(0) =~= processes);
}

/// What is listed stands by directory, and in one directory by name. Nothing is added or lost.
pub proof fn processes_stand_by_directory(
    sorted: Seq<(Seq<char>, Seq<char>)>,
    all: Seq<(Seq<char>, Seq<char>)>,
    i: int,
    j: int,
)
    requires
        is_sorted_form(sorted, all),
        0 <= i < j < sorted.len(),
    ensures
        sorted.len() == all.len(),
        order::precedes(sorted[i].0, sorted[j].0) || (sorted[i].0 == sorted[j].0 && (
        order::precedes(sorted[i].1, sorted[j].1) || sorted[i].1 == sorted[j].1)),
        all.contains(sorted[i]),
{
    let by = choose|by: Seq<usize>| #[trigger]
        order::is_order_of(by, all) && sorted == Seq::new(by.len(), |i: int| all[by[i] as int]);
    order::orders_are_sorted(by, all, i, j);
    assert(sorted[i] == all[by[i] as int]);
    assert(sorted[j] == all[by[j] as int]);
}

/// Each process that is listed stands in the sorted list too.
pub proof fn sorting_loses_nothing(
    sorted: Seq<(Seq<char>, Seq<char>)>,
    all: Seq<(Seq<char>, Seq<char>)>,
    k: int,
)
    requires
        is_sorted_form(sorted, all),
        0 <= k < all.len(),
    ensures
        sorted.contains(all[k]),
{
    let by = choose|by: Seq<usize>| #[trigger]
        order::is_order_of(by, all) && sorted == Seq::new(by.len(), |i: int| all[by[i] as int]);
    order::order_reaches_all(by, all, k);
    let i = choose|i: int| 0 <= i < by.len() && by[i] == k;
    assert(sorted[i] == all[k]);
}

/// What a list says, it says item by item: each stands in its place, and none is added or left out.
pub proof fn items_keep_their_places(v: Seq<LivePty>, i: int)
    ensures
        pty_keys(v).len() == v.len(),
        0 <= i < v.len() ==> pty_keys(v)[i] == (v[i].cwd@, v[i].id@),
{
}

} // verus!
