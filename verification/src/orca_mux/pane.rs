//! A pane on a terminal of the hub.
use crate::orca_mux::relay_pane;
use crate::text;
use vstd::prelude::*;

verus! {

/// A terminal as the hub lists it.
#[derive(Debug)]
pub struct TerminalSummary {
    pub handle: String,
    pub worktree_id: String,
    pub worktree_path: String,
    pub tab_id: String,
    pub leaf_id: String,
    pub title: Option<String>,
    pub preview: String,
    pub agent_identity: Option<String>,
    pub pty_id: Option<String>,
    pub connected: bool,
    pub orphaned: bool,
}

/// What a [`TerminalSummary`] says.
#[verifier::ext_equal]
pub struct SummaryModel {
    pub handle: Seq<char>,
    pub worktree_id: Seq<char>,
    pub worktree_path: Seq<char>,
    pub tab_id: Seq<char>,
    pub leaf_id: Seq<char>,
    pub title: Option<Seq<char>>,
    pub preview: Seq<char>,
    pub agent_identity: Option<Seq<char>>,
    pub pty_id: Option<Seq<char>>,
    pub connected: bool,
    pub orphaned: bool,
}

impl View for TerminalSummary {
    type V = SummaryModel;

    open spec fn view(&self) -> SummaryModel {
        SummaryModel {
            handle: self.handle@,
            worktree_id: self.worktree_id@,
            worktree_path: self.worktree_path@,
            tab_id: self.tab_id@,
            leaf_id: self.leaf_id@,
            title: text::opt_text(self.title),
            preview: self.preview@,
            agent_identity: text::opt_text(self.agent_identity),
            pty_id: text::opt_text(self.pty_id),
            connected: self.connected,
            orphaned: self.orphaned,
        }
    }
}

/// The models of terminals.
pub open spec fn summary_models(v: Seq<TerminalSummary>) -> Seq<SummaryModel> {
    v.map_values(|s: TerminalSummary| s@)
}

/// Whether a pane can follow the terminal: it runs, and it still belongs to a worktree.
pub open spec fn can_follow(summary: SummaryModel) -> bool {
    summary.pty_id is Some && !summary.orphaned
}

impl TerminalSummary {
    /// Whether a pane can follow the terminal.
    pub fn is_attachable(&self) -> (r: bool)
        ensures
            r == can_follow(self@),
    {
        self.pty_id.is_some() && !self.orphaned
    }
}

/// The terminal that a pane follows.
#[derive(Debug)]
pub struct TerminalBinding {
    pub terminal: String,
    pub worktree_selector: String,
    pub worktree_path: String,
    pub parent_tab_id: String,
    pub leaf_id: String,
}

/// What a [`TerminalBinding`] says.
#[verifier::ext_equal]
pub struct BindingModel {
    pub terminal: Seq<char>,
    pub worktree_selector: Seq<char>,
    pub worktree_path: Seq<char>,
    pub parent_tab_id: Seq<char>,
    pub leaf_id: Seq<char>,
}

impl View for TerminalBinding {
    type V = BindingModel;

    open spec fn view(&self) -> BindingModel {
        BindingModel {
            terminal: self.terminal@,
            worktree_selector: self.worktree_selector@,
            worktree_path: self.worktree_path@,
            parent_tab_id: self.parent_tab_id@,
            leaf_id: self.leaf_id@,
        }
    }
}

impl TerminalBinding {
    /// The binding of a terminal that the hub lists. `worktree_selector` is how the hub is asked for
    /// the terminal's worktree.
    pub fn from_summary(summary: &TerminalSummary, worktree_selector: &str) -> (r: TerminalBinding)
        ensures
            r@ == (BindingModel {
                terminal: summary@.handle,
                worktree_selector: worktree_selector@,
                worktree_path: summary@.worktree_path,
                parent_tab_id: summary@.tab_id,
                leaf_id: summary@.leaf_id,
            }),
    {
        TerminalBinding {
            terminal: summary.handle.clone(),
            worktree_selector: worktree_selector.to_owned(),
            worktree_path: summary.worktree_path.clone(),
            parent_tab_id: summary.tab_id.clone(),
            leaf_id: summary.leaf_id.clone(),
        }
    }

    /// The tab of the session that holds the terminal: the visual tab and the leaf in it.
    pub fn session_tab_id(&self) -> (r: String)
        ensures
            r@ == self@.parent_tab_id + "::"@ + self@.leaf_id,
    {
        let mut out = self.parent_tab_id.clone();
        out.push_str("::");
        out.push_str(self.leaf_id.as_str());
        out
    }

    /// The binding of a terminal that came out of dividing the one of this binding. Where the hub
    /// lists the new terminal among `terminals`, that says which tab and leaf it is.
    pub fn split_binding(&self, handle: &str, terminals: &[TerminalSummary]) -> (r: TerminalBinding)
        ensures
            ({
                let listed = first_with_handle(summary_models(terminals@), 0, handle@);
                r@ == (BindingModel {
                    terminal: handle@,
                    worktree_selector: self@.worktree_selector,
                    worktree_path: self@.worktree_path,
                    parent_tab_id: match listed {
                        Some(k) => terminals@[k]@.tab_id,
                        None => ""@,
                    },
                    leaf_id: match listed {
                        Some(k) => terminals@[k]@.leaf_id,
                        None => ""@,
                    },
                })
            }),
    {
        let (parent_tab_id, leaf_id) = match find_handle(terminals, handle) {
            Some(i) => (terminals[i].tab_id.clone(), terminals[i].leaf_id.clone()),
            None => ("".to_owned(), "".to_owned()),
        };
        TerminalBinding {
            terminal: handle.to_owned(),
            worktree_selector: self.worktree_selector.clone(),
            worktree_path: self.worktree_path.clone(),
            parent_tab_id,
            leaf_id,
        }
    }
}

/// The least index from `i` on of a terminal with the handle.
pub open spec fn first_with_handle(all: Seq<SummaryModel>, i: int, handle: Seq<char>) -> Option<int>
    decreases all.len() - i,
{
    if i < 0 || i >= all.len() {
        None
    } else if all[i].handle == handle {
        Some(i)
    } else {
        first_with_handle(all, i + 1, handle)
    }
}

/// The index of the first terminal with the handle.
pub fn find_handle(terminals: &[TerminalSummary], handle: &str) -> (r: Option<usize>)
    ensures
        match first_with_handle(summary_models(terminals@), 0, handle@) {
            Some(k) => r matches Some(i) && i == k && i < terminals@.len(),
            None => r is None,
        },
{
    let ghost all = summary_models(terminals@);
    let mut i: usize = 0;
    while i < terminals.len()
        invariant
            i <= terminals@.len(),
            all == summary_models(terminals@),
            first_with_handle(all, 0, handle@) == first_with_handle(all, i as int, handle@),
        decreases terminals@.len() - i,
    {
        assert(all[i as int] == terminals@[i as int]@);
        if text::same(terminals[i].handle.as_str(), handle) {
            return Some(i);
        }
        i += 1;
    }
    None
}

/// What arrives on the stream of a terminal.
#[derive(Debug)]
pub enum TerminalStreamEvent {
    Output(Vec<u8>),
    SnapshotStart,
    SnapshotChunk(Vec<u8>),
    SnapshotEnd,
    Resized,
    Error(String),
    Disconnected,
    End,
}

/// What an event asks of the pane.
#[derive(Debug)]
pub enum PaneAction {
    /// The pane follows another stream now: this one is over.
    Stop,
    /// Hand the bytes to the screen, and say that it changed where `notify` says so.
    Advance { bytes: Vec<u8>, notify: bool },
    /// Say that the screen changed.
    Notify,
    /// Write the message to the log.
    Warn { message: String },
    Ignore,
    /// The connection dropped.
    Disconnected,
    /// The terminal ended.
    Ended,
}

/// What the stream of a terminal asks of a pane that follows it. A snapshot begins with a reset of
/// the screen, and shows once it is complete.
pub open spec fn action_for(event: TerminalStreamEvent, action: PaneAction) -> bool {
    match event {
        TerminalStreamEvent::Output(bytes) => action matches PaneAction::Advance {
            bytes: b,
            notify,
        } && b@ == bytes@ && notify,
        TerminalStreamEvent::SnapshotStart => action matches PaneAction::Advance {
            bytes: b,
            notify,
        } && b@ == seq![0x1bu8, 0x63u8] && !notify,
        TerminalStreamEvent::SnapshotChunk(bytes) => action matches PaneAction::Advance {
            bytes: b,
            notify,
        } && b@ == bytes@ && !notify,
        TerminalStreamEvent::SnapshotEnd => action is Notify,
        TerminalStreamEvent::Resized => action is Ignore,
        TerminalStreamEvent::Error(message) => action matches PaneAction::Warn { message: m } && m@
            == message@,
        TerminalStreamEvent::Disconnected => action is Disconnected,
        TerminalStreamEvent::End => action is Ended,
    }
}

/// What to do with a pane whose terminal ended.
#[derive(Clone, Copy, Debug, PartialEq, Eq, Structural)]
pub struct DeadAction {
    /// Close the terminal on the hub too.
    pub kill_remote: bool,
    /// Remove the pane; else it stays, and windows without a live pane are closed.
    pub remove: bool,
}

/// A pane on a terminal of the hub.
#[derive(Debug)]
pub struct OrcaTerminalPane {
    binding: TerminalBinding,
    io_generation: u64,
    agent_state: Option<String>,
    held: bool,
    killed: bool,
    dead: bool,
}

/// What an [`OrcaTerminalPane`] knows.
#[verifier::ext_equal]
pub struct PaneModel {
    pub binding: BindingModel,
    pub io_generation: u64,
    pub agent_state: Option<Seq<char>>,
    pub held: bool,
    pub killed: bool,
    pub dead: bool,
}

impl View for OrcaTerminalPane {
    type V = PaneModel;

    closed spec fn view(&self) -> PaneModel {
        PaneModel {
            binding: self.binding@,
            io_generation: self.io_generation,
            agent_state: text::opt_text(self.agent_state),
            held: self.held,
            killed: self.killed,
            dead: self.dead,
        }
    }
}

/// The sign in front of a title that shows what the agent in the terminal does.
pub open spec fn glyph_for(agent_state: Option<Seq<char>>) -> Seq<char> {
    match agent_state {
        Some(state) => if state == "working"@ {
            "● "@
        } else if state == "blocked"@ || state == "waiting"@ {
            "⚠ "@
        } else if state == "done"@ {
            "✓ "@
        } else {
            ""@
        },
        None => ""@,
    }
}

impl OrcaTerminalPane {
    /// A pane that follows no stream yet.
    pub fn new(binding: TerminalBinding) -> (r: OrcaTerminalPane)
        ensures
            r@ == (PaneModel {
                binding: binding@,
                io_generation: 0,
                agent_state: None,
                held: false,
                killed: false,
                dead: false,
            }),
    {
        OrcaTerminalPane {
            binding,
            io_generation: 0,
            agent_state: None,
            held: false,
            killed: false,
            dead: false,
        }
    }

    /// Whether the pane waits for its terminal.
    pub fn is_held(&self) -> (r: bool)
        ensures
            r == (self@.held && !self@.dead),
    {
        self.held && !self.dead
    }

    /// Whether the pane is dead.
    pub fn is_dead(&self) -> (r: bool)
        ensures
            r == self@.dead,
    {
        self.dead
    }

    /// The terminal that the pane follows.
    pub fn binding(&self) -> (r: &TerminalBinding)
        ensures
            r@ == self@.binding,
    {
        &self.binding
    }

    /// Sets what the agent in the terminal does, and says whether that changed.
    pub fn set_agent_state(&mut self, state: Option<String>) -> (r: bool)
        ensures
            r == (old(self)@.agent_state != text::opt_text(state)),
            final(self)@ == (PaneModel { agent_state: text::opt_text(state), ..old(self)@ }),
    {
        let unchanged = match (&self.agent_state, &state) {
            (Some(a), Some(b)) => text::same(a.as_str(), b.as_str()),
            (None, None) => true,
            _ => false,
        };
        if unchanged {
            return false;
        }
        self.agent_state = state;
        true
    }

    /// Follows a new stream, and gives its number. The streams before it are over.
    pub fn start_io(&mut self) -> (r: u64)
        ensures
            r == old(self)@.io_generation.wrapping_add(1),
            final(self)@ == (PaneModel { io_generation: r, ..old(self)@ }),
    {
        self.io_generation = self.io_generation.wrapping_add(1);
        self.io_generation
    }

    /// Follows a new stream of the terminal after the connection dropped, and gives its number.
    pub fn resume(&mut self) -> (r: u64)
        ensures
            r == old(self)@.io_generation.wrapping_add(1),
            final(self)@ == (PaneModel { io_generation: r, held: false, ..old(self)@ }),
    {
        self.held = false;
        self.start_io()
    }

    /// What an event on the stream `generation` asks of the pane.
    pub fn on_event(&self, generation: u64, event: TerminalStreamEvent) -> (r: PaneAction)
        ensures
            if self@.io_generation != generation {
                r is Stop
            } else {
                action_for(event, r)
            },
    {
        if self.io_generation != generation {
            return PaneAction::Stop;
        }
        match event {
            TerminalStreamEvent::Output(bytes) => PaneAction::Advance { bytes, notify: true },
            TerminalStreamEvent::SnapshotStart => {
                let bytes: Vec<u8> = vec![0x1b, 0x63];
                assert(bytes@ == seq![0x1bu8, 0x63u8]);
                PaneAction::Advance { bytes, notify: false }
            },
            TerminalStreamEvent::SnapshotChunk(bytes) => PaneAction::Advance { bytes, notify: false },
            TerminalStreamEvent::SnapshotEnd => PaneAction::Notify,
            TerminalStreamEvent::Resized => PaneAction::Ignore,
            TerminalStreamEvent::Error(message) => PaneAction::Warn { message },
            TerminalStreamEvent::Disconnected => PaneAction::Disconnected,
            TerminalStreamEvent::End => PaneAction::Ended,
        }
    }

    /// Takes the drop of the connection on the stream `generation`, and says whether the pane waits
    /// now.
    pub fn on_disconnected(&mut self, generation: u64) -> (r: bool)
        ensures
            r == (old(self)@.io_generation == generation),
            final(self)@ == (if r {
                PaneModel { held: true, ..old(self)@ }
            } else {
                old(self)@
            }),
    {
        if self.io_generation != generation {
            return false;
        }
        self.held = true;
        true
    }

    /// Takes the end of the terminal on the stream `generation`.
    pub fn on_ended(&mut self, generation: u64, hold: bool) -> (r: Option<DeadAction>)
        ensures
            match r {
                Some(action) => old(self)@.io_generation == generation && action == (DeadAction {
                    kill_remote: !hold && !old(self)@.killed,
                    remove: !hold,
                }) && final(self)@ == (PaneModel {
                    dead: true,
                    killed: old(self)@.killed || !hold,
                    ..old(self)@
                }),
                None => old(self)@.io_generation != generation && final(self)@ == old(self)@,
            },
    {
        if self.io_generation != generation {
            return None;
        }
        Some(self.declare_dead(hold))
    }

    /// Takes the end of the terminal. Where dead panes are not held, the terminal is closed on the
    /// hub, once, and the pane is removed.
    pub fn declare_dead(&mut self, hold: bool) -> (r: DeadAction)
        ensures
            r == (DeadAction { kill_remote: !hold && !old(self)@.killed, remove: !hold }),
            final(self)@ == (PaneModel {
                dead: true,
                killed: old(self)@.killed || !hold,
                ..old(self)@
            }),
    {
        self.dead = true;
        let kill_remote = if hold {
            false
        } else {
            self.kill_remote()
        };
        DeadAction { kill_remote, remove: !hold }
    }

    /// Whether to close the terminal on the hub: it is asked once.
    fn kill_remote(&mut self) -> (r: bool)
        ensures
            r == !old(self)@.killed,
            final(self)@ == (PaneModel { killed: true, ..old(self)@ }),
    {
        let first = !self.killed;
        self.killed = true;
        first
    }

    /// Closes the pane, and says whether to close the terminal on the hub: once, and not where the
    /// whole domain was detached.
    pub fn kill(&mut self, detached: bool) -> (r: bool)
        ensures
            r == (!detached && !old(self)@.killed),
            final(self)@ == (PaneModel {
                dead: true,
                killed: old(self)@.killed || !detached,
                ..old(self)@
            }),
    {
        self.dead = true;
        if detached {
            false
        } else {
            self.kill_remote()
        }
    }

    /// The directory that the pane is in, as a URL: the one that its terminal reports, else that of
    /// the worktree.
    pub fn get_current_working_dir(&self, reported: Option<String>) -> (r: Option<String>)
        ensures
            text::opt_text(r) == relay_pane::directory_of(
                text::opt_text(reported),
                relay_pane::file_url(self@.binding.worktree_path),
            ),
    {
        relay_pane::current_directory(
            reported,
            relay_pane::file_url_of(self.binding.worktree_path.as_str()),
        )
    }

    /// The title: marked where the pane waits for its terminal, else with the sign of the agent.
    pub fn get_title(&self, title: &str) -> (r: String)
        ensures
            r@ == (if self@.held && !self@.dead {
                relay_pane::held_title(true, title@)
            } else {
                glyph_for(self@.agent_state) + title@
            }),
    {
        if self.is_held() {
            return text::concat("⌁ ", title);
        }
        let glyph = match &self.agent_state {
            Some(state) => if text::same(state.as_str(), "working") {
                "● "
            } else if text::same(state.as_str(), "blocked") || text::same(state.as_str(), "waiting") {
                "⚠ "
            } else if text::same(state.as_str(), "done") {
                "✓ "
            } else {
                ""
            },
            None => "",
        };
        text::concat(glyph, title)
    }
}

/// A terminal is found under its handle, the first one where several have it.
pub proof fn the_first_with_the_handle_is_found(all: Seq<SummaryModel>, i: int, handle: Seq<char>)
    requires
        0 <= i <= all.len(),
    ensures
        match first_with_handle(all, i, handle) {
            Some(k) => i <= k < all.len() && all[k].handle == handle && forall|j: int|
                i <= j < k ==> (#[trigger] all[j]).handle != handle,
            None => forall|j: int| i <= j < all.len() ==> (#[trigger] all[j]).handle != handle,
        },
    decreases all.len() - i,
{
    if i < all.len() && all[i].handle != handle {
        the_first_with_the_handle_is_found(all, i + 1, handle);
    }
}

/// An agent is marked while it works, while it waits for something, and once it is done. Blocked and
/// waiting are marked alike, and the other marks differ.
pub proof fn states_are_marked(state: Seq<char>)
    ensures
        glyph_for(None).len() == 0,
        glyph_for(Some(state)).len() == (if state == "working"@ || state == "blocked"@ || state
            == "waiting"@ || state == "done"@ {
            2nat
        } else {
            0nat
        }),
        state == "working"@ ==> glyph_for(Some(state)) == "● "@,
        state == "blocked"@ || state == "waiting"@ ==> glyph_for(Some(state)) == "⚠ "@,
        state == "done"@ ==> glyph_for(Some(state)) == "✓ "@,
{
    reveal_strlit("");
    reveal_strlit("● ");
    reveal_strlit("⚠ ");
    reveal_strlit("✓ ");
    reveal_strlit("working");
    reveal_strlit("blocked");
    reveal_strlit("waiting");
    reveal_strlit("done");
    assert("working"@[1] == 'o' && "blocked"@[1] == 'l' && "waiting"@[1] == 'a');
    assert("done"@.len() == 4 && "working"@.len() == 7 && "blocked"@.len() == 7 && "waiting"@.len()
        == 7);
}

/// Output is shown as it is, and the screen is told. A snapshot clears the screen and is shown in parts,
/// and the screen is told at its end. The end of a stream and that of a connection are told apart.
pub proof fn events_ask_for_actions(event: TerminalStreamEvent, action: PaneAction)
    requires
        action_for(event, action),
    ensures
        match event {
            TerminalStreamEvent::Output(data) => action matches PaneAction::Advance {
                bytes,
                notify,
            } && bytes@ == data@ && notify,
            TerminalStreamEvent::SnapshotStart => action matches PaneAction::Advance {
                bytes,
                notify,
            } && bytes@.len() == 2 && bytes@[0] == 0x1b && bytes@[1] == 'c' as u8 && !notify,
            TerminalStreamEvent::SnapshotChunk(data) => action matches PaneAction::Advance {
                bytes,
                notify,
            } && bytes@ == data@ && !notify,
            TerminalStreamEvent::SnapshotEnd => action is Notify,
            TerminalStreamEvent::Resized => action is Ignore,
            TerminalStreamEvent::Error(told) => action matches PaneAction::Warn { message }
                && message@ == told@,
            TerminalStreamEvent::Disconnected => action is Disconnected,
            TerminalStreamEvent::End => action is Ended,
        },
{
}

/// What a list says, it says item by item: each stands in its place, and none is added or left out.
pub proof fn items_keep_their_places(v: Seq<TerminalSummary>, i: int)
    ensures
        summary_models(v).len() == v.len(),
        0 <= i < v.len() ==> summary_models(v)[i] == v[i]@,
{
}

} // verus!
