//! What a domain of the hub knows and decides.
use crate::collections::{TextMap, TextSet};
use crate::orca_mux::runtime_backend;
use crate::orca_mux::runtime_backend::RuntimeBackend;
use crate::text;
use vstd::prelude::*;

verus! {

/// The least time between two tries to connect, in milliseconds.
pub const RECONNECT_MIN_DELAY_MS: u64 = 1000;

/// The greatest time between two tries to connect, in milliseconds.
pub const RECONNECT_MAX_DELAY_MS: u64 = 30000;

/// How long changes of the screen are gathered before the hub is told, in milliseconds.
pub const PUBLISH_DEBOUNCE_MS: u64 = 500;

/// The rows and columns of a tab where no other is on the screen.
pub const DEFAULT_ROWS: usize = 24;

pub const DEFAULT_COLS: usize = 80;

/// How the runtime of the hub is reached: by a pairing offer, or on a host over ssh.
#[derive(Debug)]
pub enum RuntimeTarget {
    Direct,
    Ssh { target: String },
}

/// Whether the domain shows its terminals.
#[derive(Clone, Copy, Debug, PartialEq, Eq, Structural)]
pub enum DomainState {
    Detached,
    Attached,
}

/// A worktree of the hub. `selector` is how the hub is asked for it.
#[derive(Debug)]
pub struct WorktreeEntry {
    pub selector: String,
    pub display_name: String,
    pub path: String,
}

/// What a [`WorktreeEntry`] says.
#[verifier::ext_equal]
pub struct WorktreeEntryModel {
    pub selector: Seq<char>,
    pub display_name: Seq<char>,
    pub path: Seq<char>,
}

impl View for WorktreeEntry {
    type V = WorktreeEntryModel;

    open spec fn view(&self) -> WorktreeEntryModel {
        WorktreeEntryModel {
            selector: self.selector@,
            display_name: self.display_name@,
            path: self.path@,
        }
    }
}

/// The models of worktrees.
pub open spec fn entry_models(m: Map<Seq<char>, WorktreeEntry>) -> Map<
    Seq<char>,
    WorktreeEntryModel,
> {
    m.map_values(|e: WorktreeEntry| e@)
}

/// The models of listed worktrees.
pub open spec fn record_models(v: Seq<WorktreeEntry>) -> Seq<WorktreeEntryModel> {
    v.map_values(|e: WorktreeEntry| e@)
}

/// The worktrees by directory, once the first `n` records are taken up.
pub open spec fn with_records(
    known: Map<Seq<char>, WorktreeEntryModel>,
    records: Seq<WorktreeEntryModel>,
    n: int,
) -> Map<Seq<char>, WorktreeEntryModel>
    decreases n,
{
    if n <= 0 {
        known
    } else {
        with_records(known, records, n - 1).insert(records[n - 1].path, records[n - 1])
    }
}

/// Whether `entry` is the worktree that `cwd` lies in, or there is none and so no entry.
pub open spec fn is_entry_of(
    worktrees: Map<Seq<char>, WorktreeEntryModel>,
    cwd: Seq<char>,
    entry: Option<WorktreeEntryModel>,
) -> bool {
    match entry {
        Some(entry) => exists|path: Seq<char>| #[trigger]
            runtime_backend::is_innermost(worktrees, cwd, path) && worktrees[path] == entry,
        None => forall|path: Seq<char>| #[trigger]
            worktrees.contains_key(path) ==> !runtime_backend::lies_in(cwd, path),
    }
}

/// Through what a domain reaches its terminals.
#[derive(Clone, Copy, Debug, PartialEq, Eq, Structural)]
pub enum Route {
    Runtime,
    Relay,
    Client,
}

/// What happened while the domain is attached.
#[derive(Clone, Copy, Debug, PartialEq, Eq, Structural)]
pub enum AttachEvent {
    Started,
    /// Whether a runtime of the hub that knows the host runs on this machine.
    RuntimeDiscovered(bool),
    RuntimeAttached { done: bool, window: Option<usize> },
    /// Whether a relay runs on the host.
    RelayChecked(bool),
    RelayAttached { done: bool, window: Option<usize> },
}

/// What to do next to attach the domain.
#[derive(Clone, Copy, Debug, PartialEq, Eq, Structural)]
pub enum AttachAction {
    /// The domain is attached, or somebody else attaches it.
    Finish,
    DiscoverRuntime,
    AttachRuntime,
    CheckRelay,
    AttachRelay,
    /// Give the relay up, and connect to the hub.
    LeaveRelay,
    ConnectClient,
}

/// What to take down when the domain is detached.
#[derive(Clone, Copy, Debug, PartialEq, Eq, Structural)]
pub enum DetachAction {
    Runtime,
    Relay,
    /// The connection to the hub, the tunnel and all panes.
    Client,
}

/// Something that happened on the screen.
#[derive(Clone, Copy, Debug, PartialEq, Eq, Structural)]
pub enum ScreenChange {
    TabResized(usize),
    WindowChanged,
    Other,
}

/// What the publisher does next.
#[derive(Debug)]
pub enum PublishStep {
    /// Tell the hub the layouts of the tabs, and the order of all where `order` says so.
    Publish { tabs: Vec<usize>, order: bool },
    Stop,
}

/// A domain of the hub.
#[derive(Debug)]
pub struct OrcaDomain {
    name: String,
    target: RuntimeTarget,
    connected: bool,
    state: DomainState,
    connection: u64,
    attached_terminals: TextSet,
    attach_window: Option<usize>,
    worktrees: TextMap<WorktreeEntry>,
    applying: u64,
    dirty_tabs: Vec<usize>,
    dirty_order: bool,
    publishing: bool,
    subscribed: bool,
    relay_mode: bool,
    runtime_mode: bool,
    attach_claimed: bool,
}

/// What an [`OrcaDomain`] knows.
#[verifier::ext_equal]
pub struct DomainModel {
    pub name: Seq<char>,
    pub target: Option<Seq<char>>,
    pub connected: bool,
    pub state: DomainState,
    pub connection: u64,
    pub attached_terminals: Set<Seq<char>>,
    pub attach_window: Option<usize>,
    pub worktrees: Map<Seq<char>, WorktreeEntryModel>,
    pub applying: u64,
    pub dirty_tabs: Seq<usize>,
    pub dirty_order: bool,
    pub publishing: bool,
    pub subscribed: bool,
    pub relay_mode: bool,
    pub runtime_mode: bool,
    pub attach_claimed: bool,
}

impl View for OrcaDomain {
    type V = DomainModel;

    closed spec fn view(&self) -> DomainModel {
        DomainModel {
            name: self.name@,
            target: match self.target {
                RuntimeTarget::Direct => None,
                RuntimeTarget::Ssh { target } => Some(target@),
            },
            connected: self.connected,
            state: self.state,
            connection: self.connection,
            attached_terminals: self.attached_terminals@,
            attach_window: self.attach_window,
            worktrees: entry_models(self.worktrees@),
            applying: self.applying,
            dirty_tabs: self.dirty_tabs@,
            dirty_order: self.dirty_order,
            publishing: self.publishing,
            subscribed: self.subscribed,
            relay_mode: self.relay_mode,
            runtime_mode: self.runtime_mode,
            attach_claimed: self.attach_claimed,
        }
    }
}

/// A domain that nothing was done with yet.
pub open spec fn fresh(name: Seq<char>, target: Option<Seq<char>>) -> DomainModel {
    DomainModel {
        name,
        target,
        connected: false,
        state: DomainState::Detached,
        connection: 0,
        attached_terminals: Set::empty(),
        attach_window: None,
        worktrees: Map::empty(),
        applying: 0,
        dirty_tabs: Seq::empty(),
        dirty_order: false,
        publishing: false,
        subscribed: false,
        relay_mode: false,
        runtime_mode: false,
        attach_claimed: false,
    }
}

/// Whether every change of the screen that was noted is told to the hub: a publisher runs where there
/// is one, and no tab is noted twice.
pub open spec fn publishes_all(d: DomainModel) -> bool {
    &&& (d.dirty_tabs.len() > 0 || d.dirty_order) ==> d.publishing
    &&& d.dirty_tabs.no_duplicates()
}

/// The domain and what to do next, after something happened while it is attached. A host over ssh is
/// tried through the runtime on this machine, then through a relay on the host, and only then by a
/// connection to the hub.
pub open spec fn attach_next(d: DomainModel, event: AttachEvent) -> (DomainModel, AttachAction) {
    match event {
        AttachEvent::Started => if d.target is None {
            (d, AttachAction::ConnectClient)
        } else if d.attach_claimed {
            (d, AttachAction::Finish)
        } else {
            (DomainModel { attach_claimed: true, ..d }, AttachAction::DiscoverRuntime)
        },
        AttachEvent::RuntimeDiscovered(found) => if found {
            (d, AttachAction::AttachRuntime)
        } else {
            (d, AttachAction::CheckRelay)
        },
        AttachEvent::RuntimeAttached { done, window } => if done {
            (
                DomainModel {
                    runtime_mode: true,
                    attach_window: window,
                    state: DomainState::Attached,
                    ..d
                },
                AttachAction::Finish,
            )
        } else {
            (d, AttachAction::CheckRelay)
        },
        AttachEvent::RelayChecked(live) => if live {
            (DomainModel { relay_mode: true, ..d }, AttachAction::AttachRelay)
        } else {
            (d, AttachAction::ConnectClient)
        },
        AttachEvent::RelayAttached { done, window } => if done {
            (
                DomainModel { attach_window: window, state: DomainState::Attached, ..d },
                AttachAction::Finish,
            )
        } else {
            (DomainModel { relay_mode: false, ..d }, AttachAction::LeaveRelay)
        },
    }
}

/// The domain once it is detached, and what to take down.
pub open spec fn detached(d: DomainModel) -> (DomainModel, DetachAction) {
    let left = DomainModel {
        attach_claimed: false,
        attach_window: None,
        state: DomainState::Detached,
        ..d
    };
    if d.runtime_mode {
        (DomainModel { runtime_mode: false, ..left }, DetachAction::Runtime)
    } else if d.relay_mode {
        (DomainModel { relay_mode: false, ..left }, DetachAction::Relay)
    } else {
        (
            DomainModel {
                connected: false,
                connection: d.connection.wrapping_add(1),
                attached_terminals: Set::empty(),
                ..left
            },
            DetachAction::Client,
        )
    }
}

/// The domain after a change of the screen. Changes that are made here, while layouts of the hub are
/// applied, are not told back.
pub open spec fn noted(d: DomainModel, change: ScreenChange) -> DomainModel {
    if d.applying != 0 || change == ScreenChange::Other {
        d
    } else {
        DomainModel {
            dirty_tabs: match change {
                ScreenChange::TabResized(tab) => if d.dirty_tabs.contains(tab) {
                    d.dirty_tabs
                } else {
                    d.dirty_tabs.push(tab)
                },
                _ => d.dirty_tabs,
            },
            dirty_order: d.dirty_order || change == ScreenChange::WindowChanged,
            publishing: true,
            ..d
        }
    }
}

/// The time to wait after a try to connect that followed a wait of `delay`.
pub fn next_delay(delay: u64) -> (r: u64)
    requires
        delay <= u64::MAX / 2,
    ensures
        r == (if 2 * delay < RECONNECT_MAX_DELAY_MS {
            (2 * delay) as u64
        } else {
            RECONNECT_MAX_DELAY_MS
        }),
        RECONNECT_MIN_DELAY_MS <= delay <= RECONNECT_MAX_DELAY_MS ==> delay <= r
            <= RECONNECT_MAX_DELAY_MS,
{
    if delay * 2 < RECONNECT_MAX_DELAY_MS {
        delay * 2
    } else {
        RECONNECT_MAX_DELAY_MS
    }
}

impl OrcaDomain {
    fn with_target(name: String, target: RuntimeTarget) -> (r: OrcaDomain)
        ensures
            r@ == fresh(
                name@,
                match target {
                    RuntimeTarget::Direct => None,
                    RuntimeTarget::Ssh { target } => Some(target@),
                },
            ),
    {
        let r = OrcaDomain {
            name,
            target,
            connected: false,
            state: DomainState::Detached,
            connection: 0,
            attached_terminals: TextSet::new(),
            attach_window: None,
            worktrees: TextMap::new(),
            applying: 0,
            dirty_tabs: Vec::new(),
            dirty_order: false,
            publishing: false,
            subscribed: false,
            relay_mode: false,
            runtime_mode: false,
            attach_claimed: false,
        };
        assert(r@.worktrees =~= Map::<Seq<char>, WorktreeEntryModel>::empty());
        r
    }

    /// A domain that is reached by a pairing offer.
    pub fn new(name: &str) -> (r: OrcaDomain)
        ensures
            r@ == fresh(name@, None),
            publishes_all(r@),
    {
        OrcaDomain::with_target(name.to_owned(), RuntimeTarget::Direct)
    }

    /// A domain on a host that is reached over ssh.
    pub fn new_ssh(name: &str, target: &str) -> (r: OrcaDomain)
        ensures
            r@ == fresh(name@, Some(target@)),
            publishes_all(r@),
    {
        OrcaDomain::with_target(
            name.to_owned(),
            RuntimeTarget::Ssh { target: target.to_owned() },
        )
    }

    /// The name of the domain.
    pub fn domain_name(&self) -> (r: &str)
        ensures
            r@ == self@.name,
    {
        self.name.as_str()
    }

    /// The host, where the domain is reached over ssh.
    pub fn ssh_target(&self) -> (r: Option<&str>)
        ensures
            match r {
                Some(s) => self@.target == Some(s@),
                None => self@.target is None,
            },
    {
        match &self.target {
            RuntimeTarget::Direct => None,
            RuntimeTarget::Ssh { target } => Some(target.as_str()),
        }
    }

    /// Whether the domain shows its terminals.
    pub fn state(&self) -> (r: DomainState)
        ensures
            r == self@.state,
    {
        self.state
    }

    /// Whether there is a connection to the hub.
    pub fn is_connected(&self) -> (r: bool)
        ensures
            r == self@.connected,
    {
        self.connected
    }

    /// The window that the domain is shown in.
    pub fn attach_window(&self) -> (r: Option<usize>)
        ensures
            r == self@.attach_window,
    {
        self.attach_window
    }

    /// Whether the terminals are those of the runtime on this machine.
    pub fn is_runtime_mode(&self) -> (r: bool)
        ensures
            r == self@.runtime_mode,
    {
        self.runtime_mode
    }

    /// Through what terminals are started and divided. `has_runtime` says whether there is a runtime
    /// on this machine.
    pub fn route(&self, has_runtime: bool) -> (r: Route)
        ensures
            r == (if self@.runtime_mode && has_runtime {
                Route::Runtime
            } else if self@.relay_mode {
                Route::Relay
            } else {
                Route::Client
            }),
    {
        if self.runtime_mode && has_runtime {
            Route::Runtime
        } else if self.relay_mode {
            Route::Relay
        } else {
            Route::Client
        }
    }

    /// Through what the hub is asked: the runtime on this machine, where it is used, or a connection.
    pub fn hub_route(&self, has_runtime: bool) -> (r: Route)
        ensures
            r == (if self@.runtime_mode && has_runtime {
                Route::Runtime
            } else {
                Route::Client
            }),
    {
        if self.runtime_mode && has_runtime {
            Route::Runtime
        } else {
            Route::Client
        }
    }

    /// Takes up the worktrees that the hub lists.
    pub fn refresh_worktrees(&mut self, records: Vec<WorktreeEntry>)
        ensures
            final(self)@ == (DomainModel {
                worktrees: with_records(
                    old(self)@.worktrees,
                    record_models(records@),
                    records@.len() as int,
                ),
                ..old(self)@
            }),
    {
        let ghost all = record_models(records@);
        let ghost start = self@;
        let mut i: usize = 0;
        while i < records.len()
            invariant
                i <= records@.len(),
                all == record_models(records@),
                self@ == (DomainModel {
                    worktrees: with_records(start.worktrees, all, i as int),
                    ..start
                }),
            decreases records@.len() - i,
        {
            assert(all[i as int] == records@[i as int]@);
            let entry = WorktreeEntry {
                selector: records[i].selector.clone(),
                display_name: records[i].display_name.clone(),
                path: records[i].path.clone(),
            };
            let ghost before = self.worktrees@;
            assert(entry@ == all[i as int]);
            self.worktrees.insert(records[i].path.as_str(), entry);
            assert(entry_models(before.insert(entry@.path, entry)) =~= entry_models(before).insert(
                entry@.path,
                entry@,
            ));
            i += 1;
        }
    }

    /// The innermost worktree that `cwd` lies in.
    pub fn worktree_for_cwd(&self, cwd: &str) -> (r: Option<&WorktreeEntry>)
        ensures
            is_entry_of(
                self@.worktrees,
                cwd@,
                match r {
                    Some(entry) => Some(entry@),
                    None => None,
                },
            ),
    {
        let paths = self.worktrees.keys();
        let ghost all = text::texts(paths@);
        let ghost worktrees = self@.worktrees;
        assert forall|path: Seq<char>| #[trigger] worktrees.contains_key(path) implies all.contains(
            path,
        ) by {
            assert(self.worktrees@.contains_key(path));
        }
        match runtime_backend::innermost(&paths, cwd) {
            Some(k) => {
                let path = paths[k].as_str();
                assert(all[k as int] == path@);
                assert(all.contains(path@));
                proof {
                    assert(self.worktrees@.contains_key(path@));
                    runtime_backend::lemma_innermost(worktrees, all, cwd@, k as int);
                }
                match self.worktrees.get(path) {
                    Some(entry) => {
                        assert(worktrees[path@] == entry@);
                        Some(entry)
                    },
                    None => None,
                }
            },
            None => {
                proof {
                    assert forall|path: Seq<char>| #[trigger]
                        worktrees.contains_key(path) implies !runtime_backend::lies_in(
                        cwd@,
                        path,
                    ) by {
                        assert(all.contains(path));
                        let j = choose|j: int| 0 <= j < all.len() && all[j] == path;
                        assert(all[j] == path);
                    }
                }
                None
            },
        }
    }

    /// How the hub is asked for the worktree that `cwd` lies in.
    pub fn worktree_selector_for_cwd(&self, cwd: &str) -> (r: Option<String>)
        ensures
            match r {
                Some(selector) => exists|entry: WorktreeEntryModel| #[trigger]
                    is_entry_of(self@.worktrees, cwd@, Some(entry)) && entry.selector == selector@,
                None => is_entry_of(self@.worktrees, cwd@, None),
            },
    {
        match self.worktree_for_cwd(cwd) {
            Some(entry) => {
                assert(is_entry_of(self@.worktrees, cwd@, Some(entry@)));
                Some(entry.selector.clone())
            },
            None => None,
        }
    }

    /// The name of the project that `cwd` lies in: by the runtime on this machine where that is used,
    /// else by the worktrees of the hub.
    pub fn project_for_cwd(&self, runtime: Option<&RuntimeBackend>, cwd: &str) -> (r: Option<String>)
        ensures
            if self@.runtime_mode && runtime is Some {
                runtime_backend::is_project_of(runtime->0@.worktrees, cwd@, text::opt_text(r))
            } else {
                match r {
                    Some(name) => exists|entry: WorktreeEntryModel| #[trigger]
                        is_entry_of(self@.worktrees, cwd@, Some(entry)) && entry.display_name
                            == name@,
                    None => is_entry_of(self@.worktrees, cwd@, None),
                }
            },
    {
        if self.runtime_mode {
            if let Some(runtime) = runtime {
                return runtime.project_for_cwd(cwd);
            }
        }
        match self.worktree_for_cwd(cwd) {
            Some(entry) => {
                assert(is_entry_of(self@.worktrees, cwd@, Some(entry@)));
                Some(entry.display_name.clone())
            },
            None => None,
        }
    }

    /// Claims a terminal for a pane. A terminal has one pane.
    pub fn attach_terminal(&mut self, terminal: &str) -> (r: bool)
        ensures
            r == !old(self)@.attached_terminals.contains(terminal@),
            final(self)@ == (DomainModel {
                attached_terminals: old(self)@.attached_terminals.insert(terminal@),
                ..old(self)@
            }),
    {
        self.attached_terminals.insert(terminal)
    }

    /// Gives a terminal up.
    pub fn forget_terminal(&mut self, terminal: &str)
        ensures
            final(self)@ == (DomainModel {
                attached_terminals: old(self)@.attached_terminals.remove(terminal@),
                ..old(self)@
            }),
    {
        let _ = self.attached_terminals.remove(terminal);
    }

    /// The terminals that have a pane.
    pub fn attached_terminals(&self) -> (r: &TextSet)
        ensures
            r@ == self@.attached_terminals,
    {
        &self.attached_terminals
    }

    /// Drops the connection to the hub.
    pub fn reset_client(&mut self)
        ensures
            final(self)@ == (DomainModel {
                connected: false,
                connection: old(self)@.connection.wrapping_add(1),
                state: DomainState::Detached,
                ..old(self)@
            }),
    {
        self.connection = self.connection.wrapping_add(1);
        self.connected = false;
        self.state = DomainState::Detached;
    }

    /// Notes a connection to the hub, and gives its number.
    pub fn client_connected(&mut self) -> (r: u64)
        ensures
            r == old(self)@.connection.wrapping_add(1),
            final(self)@ == (DomainModel {
                connected: true,
                connection: r,
                state: DomainState::Attached,
                ..old(self)@
            }),
    {
        self.connection = self.connection.wrapping_add(1);
        self.connected = true;
        self.state = DomainState::Attached;
        self.connection
    }

    /// Takes the end of a connection, and says whether to connect again. The end of one that was
    /// given up or replaced changes nothing.
    pub fn client_ended(&mut self, connection: u64) -> (r: bool)
        ensures
            r == (old(self)@.connection == connection),
            final(self)@ == (if r {
                DomainModel { connected: false, state: DomainState::Detached, ..old(self)@ }
            } else {
                old(self)@
            }),
    {
        if self.connection != connection {
            return false;
        }
        self.connected = false;
        self.state = DomainState::Detached;
        true
    }

    /// Whether to try to connect again: there is no connection, and the domain is shown in a window or
    /// has panes that wait.
    pub fn reconnects(&self, any_held: bool) -> (r: bool)
        ensures
            r == (!self@.connected && (self@.attach_window is Some || any_held)),
    {
        !self.connected && (self.attach_window.is_some() || any_held)
    }

    /// Takes what happened while the domain is attached, and says what to do next.
    pub fn attach_step(&mut self, event: AttachEvent) -> (r: AttachAction)
        ensures
            (final(self)@, r) == attach_next(old(self)@, event),
    {
        match event {
            AttachEvent::Started => match &self.target {
                RuntimeTarget::Direct => AttachAction::ConnectClient,
                RuntimeTarget::Ssh { .. } => if self.attach_claimed {
                    AttachAction::Finish
                } else {
                    self.attach_claimed = true;
                    AttachAction::DiscoverRuntime
                },
            },
            AttachEvent::RuntimeDiscovered(found) => if found {
                AttachAction::AttachRuntime
            } else {
                AttachAction::CheckRelay
            },
            AttachEvent::RuntimeAttached { done, window } => if done {
                self.runtime_mode = true;
                self.attach_window = window;
                self.state = DomainState::Attached;
                AttachAction::Finish
            } else {
                AttachAction::CheckRelay
            },
            AttachEvent::RelayChecked(live) => if live {
                self.relay_mode = true;
                AttachAction::AttachRelay
            } else {
                AttachAction::ConnectClient
            },
            AttachEvent::RelayAttached { done, window } => if done {
                self.attach_window = window;
                self.state = DomainState::Attached;
                AttachAction::Finish
            } else {
                self.relay_mode = false;
                AttachAction::LeaveRelay
            },
        }
    }

    /// Notes the window that the domain is shown in.
    pub fn shown_in(&mut self, window: usize)
        ensures
            final(self)@ == (DomainModel { attach_window: Some(window), ..old(self)@ }),
    {
        self.attach_window = Some(window);
    }

    /// Notes that all terminals are shown.
    pub fn attached(&mut self)
        ensures
            final(self)@ == (DomainModel { state: DomainState::Attached, ..old(self)@ }),
    {
        self.state = DomainState::Attached;
    }

    /// Detaches the domain, and says what to take down.
    pub fn detach(&mut self) -> (r: DetachAction)
        ensures
            (final(self)@, r) == detached(old(self)@),
    {
        self.attach_claimed = false;
        self.attach_window = None;
        if self.runtime_mode {
            self.runtime_mode = false;
            self.state = DomainState::Detached;
            return DetachAction::Runtime;
        }
        if self.relay_mode {
            self.relay_mode = false;
            self.state = DomainState::Detached;
            return DetachAction::Relay;
        }
        self.reset_client();
        self.attached_terminals.clear();
        DetachAction::Client
    }

    /// Begins to apply layouts of the hub. Until the end the screen's changes are not told back.
    pub fn begin_apply(&mut self)
        ensures
            final(self)@ == (DomainModel {
                applying: old(self)@.applying.wrapping_add(1),
                ..old(self)@
            }),
    {
        self.applying = self.applying.wrapping_add(1);
    }

    /// Ends what [`OrcaDomain::begin_apply`] began.
    pub fn end_apply(&mut self)
        ensures
            final(self)@ == (DomainModel {
                applying: old(self)@.applying.wrapping_sub(1),
                ..old(self)@
            }),
    {
        self.applying = self.applying.wrapping_sub(1);
    }

    /// Whether to follow the changes of the screen: nobody does yet.
    pub fn ensure_layout_publisher(&mut self) -> (r: bool)
        ensures
            r == !old(self)@.subscribed,
            final(self)@ == (DomainModel { subscribed: true, ..old(self)@ }),
    {
        let first = !self.subscribed;
        self.subscribed = true;
        first
    }

    fn is_dirty(&self, tab: usize) -> (r: bool)
        ensures
            r == self@.dirty_tabs.contains(tab),
    {
        let mut i: usize = 0;
        while i < self.dirty_tabs.len()
            invariant
                i <= self.dirty_tabs@.len(),
                forall|j: int| 0 <= j < i ==> self.dirty_tabs@[j] != tab,
            decreases self.dirty_tabs@.len() - i,
        {
            if self.dirty_tabs[i] == tab {
                return true;
            }
            i += 1;
        }
        false
    }

    /// Notes a change of the screen, and says whether to start a publisher.
    pub fn on_change(&mut self, change: ScreenChange) -> (r: bool)
        ensures
            final(self)@ == noted(old(self)@, change),
            r == (final(self)@.publishing && !old(self)@.publishing),
            publishes_all(old(self)@) ==> publishes_all(final(self)@),
    {
        if self.applying != 0 {
            return false;
        }
        match change {
            ScreenChange::TabResized(tab) => {
                if !self.is_dirty(tab) {
                    self.dirty_tabs.push(tab);
                }
            },
            ScreenChange::WindowChanged => {
                self.dirty_order = true;
            },
            ScreenChange::Other => return false,
        }
        let first = !self.publishing;
        self.publishing = true;
        first
    }

    /// Takes what is noted for the publisher. It stops where nothing is.
    pub fn publish_step(&mut self) -> (r: PublishStep)
        ensures
            ({
                let d = old(self)@;
                let idle = d.dirty_tabs.len() == 0 && !d.dirty_order;
                match r {
                    PublishStep::Publish { tabs, order } => !idle && tabs@ == d.dirty_tabs && order
                        == d.dirty_order && final(self)@ == (DomainModel {
                        dirty_tabs: Seq::empty(),
                        dirty_order: false,
                        ..d
                    }),
                    PublishStep::Stop => idle && final(self)@ == (DomainModel {
                        publishing: false,
                        ..d
                    }),
                }
            }),
            publishes_all(old(self)@) ==> publishes_all(final(self)@),
    {
        if self.dirty_tabs.len() == 0 && !self.dirty_order {
            self.publishing = false;
            return PublishStep::Stop;
        }
        let mut tabs: Vec<usize> = Vec::new();
        std::mem::swap(&mut tabs, &mut self.dirty_tabs);
        let order = self.dirty_order;
        self.dirty_order = false;
        PublishStep::Publish { tabs, order }
    }
}

/// Detaching undoes attaching: the domain is as it was before, and detached, whichever way it was
/// attached. Where it was attached through neither the runtime nor the relay, it also drops its
/// connection and the terminals that it followed.
pub proof fn detaching_undoes_attaching(d: DomainModel, event: AttachEvent)
    requires
        !d.runtime_mode && !d.relay_mode,
    ensures
        ({
            let mid = attach_next(d, event).0;
            let before = DomainModel {
                attach_claimed: false,
                attach_window: None,
                state: DomainState::Detached,
                ..d
            };
            detached(mid).0 == (if mid.runtime_mode || mid.relay_mode {
                before
            } else {
                DomainModel {
                    connected: false,
                    connection: d.connection.wrapping_add(1),
                    attached_terminals: Set::empty(),
                    ..before
                }
            })
        }),
{
}

/// The ways to reach a host are tried in turn: runtime, relay, connection. A try that fails leads to
/// the next one, and the last is always the connection.
pub proof fn attaching_falls_back_in_turn(d: DomainModel, window: Option<usize>)
    ensures
        attach_next(d, AttachEvent::RuntimeDiscovered(false)).1 == AttachAction::CheckRelay,
        attach_next(d, AttachEvent::RuntimeAttached { done: false, window }) == (
            d,
            AttachAction::CheckRelay,
        ),
        attach_next(d, AttachEvent::RelayChecked(false)) == (d, AttachAction::ConnectClient),
        attach_next(
            attach_next(d, AttachEvent::RelayChecked(true)).0,
            AttachEvent::RelayAttached { done: false, window },
        ).0 == (DomainModel { relay_mode: false, ..d }),
        d.target is Some && !d.attach_claimed ==> attach_next(
            attach_next(d, AttachEvent::Started).0,
            AttachEvent::Started,
        ).1 == AttachAction::Finish,
{
}

/// A worktree is known as the hub last listed it under its path. One that the hub does not list stays
/// known as before.
pub proof fn worktrees_are_those_listed(
    known: Map<Seq<char>, WorktreeEntryModel>,
    records: Seq<WorktreeEntryModel>,
    n: int,
    path: Seq<char>,
)
    requires
        0 <= n <= records.len(),
    ensures
        ({
            let after = with_records(known, records, n);
            ||| exists|k: int|
                0 <= k < n && (#[trigger] records[k]).path == path && after.contains_pair(
                    path,
                    records[k],
                ) && forall|j: int| k < j < n ==> (#[trigger] records[j]).path != path
            ||| {
                &&& forall|j: int| 0 <= j < n ==> (#[trigger] records[j]).path != path
                &&& after.contains_key(path) <==> known.contains_key(path)
                &&& after[path] == known[path]
            }
        }),
    decreases n,
{
    if n > 0 {
        worktrees_are_those_listed(known, records, n - 1, path);
        let before = with_records(known, records, n - 1);
        let after = with_records(known, records, n);
        if records[n - 1].path == path {
            assert(after.contains_pair(path, records[n - 1]));
        } else if exists|k: int|
            0 <= k < n - 1 && (#[trigger] records[k]).path == path && before.contains_pair(
                path,
                records[k],
            ) && forall|j: int| k < j < n - 1 ==> (#[trigger] records[j]).path != path {
            let k = choose|k: int|
                0 <= k < n - 1 && (#[trigger] records[k]).path == path && before.contains_pair(
                    path,
                    records[k],
                ) && forall|j: int| k < j < n - 1 ==> (#[trigger] records[j]).path != path;
            assert(after.contains_pair(path, records[k]));
        }
    }
}

/// A host over ssh is attached once, to its runtime where there is one, else to its relay where that
/// lives. Once attached it is shown in the window that it was given. A hub on this machine is only
/// connected to.
pub proof fn attaching_ends_attached(d: DomainModel, window: Option<usize>)
    ensures
        d.target is None ==> attach_next(d, AttachEvent::Started) == (
            d,
            AttachAction::ConnectClient,
        ),
        d.target is Some && d.attach_claimed ==> attach_next(d, AttachEvent::Started) == (
            d,
            AttachAction::Finish,
        ),
        d.target is Some && !d.attach_claimed ==> {
            let (after, action) = attach_next(d, AttachEvent::Started);
            &&& action is DiscoverRuntime
            &&& after.attach_claimed
        },
        attach_next(d, AttachEvent::RuntimeDiscovered(true)) == (d, AttachAction::AttachRuntime),
        ({
            let (after, action) = attach_next(d, AttachEvent::RuntimeAttached { done: true, window });
            &&& action is Finish
            &&& after.runtime_mode && after.attach_window == window
            &&& after.state is Attached
            &&& after.relay_mode == d.relay_mode
        }),
        ({
            let (tried, first) = attach_next(d, AttachEvent::RelayChecked(true));
            let (after, action) = attach_next(
                tried,
                AttachEvent::RelayAttached { done: true, window },
            );
            &&& first is AttachRelay && action is Finish
            &&& after.relay_mode && after.attach_window == window
            &&& after.state is Attached
            &&& after.runtime_mode == d.runtime_mode
        }),
        attach_next(d, AttachEvent::RelayAttached { done: false, window }).1 is LeaveRelay,
{
}

/// Attaching changes nothing of what is known of terminals and worktrees, nor of what is to be
/// published.
pub proof fn attaching_leaves_the_rest(d: DomainModel, event: AttachEvent)
    ensures
        ({
            let after = attach_next(d, event).0;
            &&& after.name == d.name && after.target == d.target
            &&& after.connected == d.connected && after.connection == d.connection
            &&& after.attached_terminals == d.attached_terminals
            &&& after.worktrees == d.worktrees
            &&& after.applying == d.applying && after.dirty_tabs == d.dirty_tabs
            &&& after.dirty_order == d.dirty_order && after.publishing == d.publishing
            &&& after.subscribed == d.subscribed
        }),
{
}

/// Detaching leaves the runtime where that is used, else the relay, else the connection, which then
/// follows no terminal any more and has another number. The domain can be attached again.
pub proof fn detaching_leaves_what_is_used(d: DomainModel)
    ensures
        ({
            let (after, action) = detached(d);
            &&& after.state is Detached && after.attach_window is None && !after.attach_claimed
            &&& !after.runtime_mode
            &&& d.runtime_mode ==> action is Runtime && after.relay_mode == d.relay_mode
            &&& !d.runtime_mode && d.relay_mode ==> action is Relay
            &&& !d.runtime_mode ==> !after.relay_mode
            &&& (d.runtime_mode || d.relay_mode) ==> after.connected == d.connected
                && after.connection == d.connection && after.attached_terminals
                == d.attached_terminals
            &&& !(d.runtime_mode || d.relay_mode) ==> action is Client && !after.connected
                && after.connection != d.connection && (forall|t: Seq<char>|
                !#[trigger] after.attached_terminals.contains(t))
            &&& after.name == d.name && after.target == d.target
            &&& after.worktrees == d.worktrees && after.applying == d.applying
            &&& after.dirty_tabs == d.dirty_tabs && after.dirty_order == d.dirty_order
            &&& after.publishing == d.publishing && after.subscribed == d.subscribed
            &&& d.target is Some ==> attach_next(after, AttachEvent::Started).1 is DiscoverRuntime
        }),
{
}

/// A change of the screen is noted for the hub, but for one that the hub itself brings about. A tab
/// that was resized is noted once, behind those that were noted before. Nothing that was noted is
/// lost.
pub proof fn changes_are_noted(d: DomainModel, change: ScreenChange, tab: usize)
    ensures
        ({
            let after = noted(d, change);
            &&& d.applying != 0 || change is Other ==> after == d
            &&& d.applying == 0 && !(change is Other) ==> after.publishing
            &&& d.applying == 0 && change == ScreenChange::TabResized(tab)
                ==> after.dirty_tabs.contains(tab)
            &&& d.applying == 0 && change is WindowChanged ==> after.dirty_order
            &&& d.dirty_tabs.is_prefix_of(after.dirty_tabs)
            &&& after.dirty_tabs.len() <= d.dirty_tabs.len() + 1
            &&& after.dirty_tabs.contains(tab) && !d.dirty_tabs.contains(tab) ==> change
                == ScreenChange::TabResized(tab)
            &&& d.dirty_tabs.no_duplicates() ==> after.dirty_tabs.no_duplicates()
            &&& d.dirty_order ==> after.dirty_order
            &&& after.dirty_order && !d.dirty_order ==> change is WindowChanged
            &&& d.publishing ==> after.publishing
            &&& after.state == d.state && after.connection == d.connection && after.applying
                == d.applying && after.attached_terminals == d.attached_terminals
                && after.worktrees == d.worktrees && after.attach_window == d.attach_window
        }),
{
    let after = noted(d, change);
    if let ScreenChange::TabResized(t) = change {
        let grown = d.dirty_tabs.push(t);
        assert(grown[d.dirty_tabs.len() as int] == t);
        if grown.contains(tab) && tab != t {
            let i = choose|i: int| 0 <= i < grown.len() && grown[i] == tab;
            assert(d.dirty_tabs[i] == tab);
        }
    }
}

/// The worktree of a directory is known just where the directory lies in one, and is then the innermost
/// of those.
pub proof fn entries_are_innermost(
    worktrees: Map<Seq<char>, WorktreeEntryModel>,
    cwd: Seq<char>,
    entry: Option<WorktreeEntryModel>,
    other: Seq<char>,
)
    requires
        is_entry_of(worktrees, cwd, entry),
    ensures
        entry is Some <==> exists|path: Seq<char>| #[trigger]
            worktrees.contains_key(path) && runtime_backend::lies_in(cwd, path),
        entry matches Some(e) ==> exists|path: Seq<char>| #[trigger]
            worktrees.contains_pair(path, e) && runtime_backend::lies_in(cwd, path) && (
            worktrees.contains_key(other) && runtime_backend::lies_in(cwd, other) ==> other.len()
                <= path.len()),
{
    if let Some(e) = entry {
        let path = choose|path: Seq<char>| #[trigger]
            runtime_backend::is_innermost(worktrees, cwd, path) && worktrees[path] == e;
        assert(worktrees.contains_pair(path, e));
        assert(worktrees.contains_key(path));
    }
}

/// A domain begins detached, with nothing known, shown or to be published.
pub proof fn domains_begin_detached(name: Seq<char>, target: Option<Seq<char>>)
    ensures
        ({
            let d = fresh(name, target);
            &&& d.name == name && d.target == target
            &&& d.state is Detached && !d.connected && !d.attach_claimed && d.attach_window is None
            &&& !d.relay_mode && !d.runtime_mode && !d.publishing && !d.subscribed && !d.dirty_order
            &&& d.dirty_tabs.len() == 0 && d.applying == 0 && d.connection == 0
            &&& (forall|t: Seq<char>| !#[trigger] d.attached_terminals.contains(t))
            &&& (forall|p: Seq<char>| !#[trigger] d.worktrees.contains_key(p))
            &&& d.target is Some ==> attach_next(d, AttachEvent::Started).1 is DiscoverRuntime
            &&& d.target is None ==> attach_next(d, AttachEvent::Started).1 is ConnectClient
        }),
{
}

/// Each step of attaching changes only what it is about: the claim, the modes once they are settled, and
/// what is shown where once the domain is attached.
pub proof fn attaching_changes_one_thing_at_a_time(
    d: DomainModel,
    found: bool,
    live: bool,
    window: Option<usize>,
)
    ensures
        ({
            let after = attach_next(d, AttachEvent::Started).0;
            &&& after.state == d.state && after.attach_window == d.attach_window
            &&& after.relay_mode == d.relay_mode && after.runtime_mode == d.runtime_mode
            &&& d.attach_claimed ==> after.attach_claimed
        }),
        attach_next(d, AttachEvent::RuntimeDiscovered(found)).0 == d,
        ({
            let after = attach_next(d, AttachEvent::RuntimeAttached { done: true, window }).0;
            after.attach_claimed == d.attach_claimed
        }),
        ({
            let after = attach_next(d, AttachEvent::RelayChecked(live)).0;
            &&& after.state == d.state && after.attach_window == d.attach_window
            &&& after.attach_claimed == d.attach_claimed && after.runtime_mode == d.runtime_mode
            &&& !live ==> after.relay_mode == d.relay_mode
        }),
        ({
            let after = attach_next(d, AttachEvent::RelayAttached { done: false, window }).0;
            &&& after.state == d.state && after.attach_window == d.attach_window
            &&& after.attach_claimed == d.attach_claimed && after.runtime_mode == d.runtime_mode
            &&& !after.relay_mode
        }),
        ({
            let after = attach_next(d, AttachEvent::RelayAttached { done: true, window }).0;
            &&& after.attach_claimed == d.attach_claimed && after.runtime_mode == d.runtime_mode
            &&& after.relay_mode == d.relay_mode
        }),
{
}

/// What a list says, it says item by item: each stands in its place, and none is added or left out.
pub proof fn items_keep_their_places(v: Seq<WorktreeEntry>, i: int)
    ensures
        record_models(v).len() == v.len(),
        0 <= i < v.len() ==> record_models(v)[i] == v[i]@,
{
}

} // verus!
