//! A pane on a terminal of a paseo daemon.
use crate::paseo_client::events::TerminalStreamEvent;
use vstd::prelude::*;

verus! {

/// A pane on a terminal of a paseo daemon.
#[derive(Debug)]
pub struct PaseoTerminalPane {
    remote_terminal_id: String,
    dead: bool,
}

/// What a [`PaseoTerminalPane`] knows.
#[verifier::ext_equal]
pub struct PaseoPaneModel {
    pub remote_terminal_id: Seq<char>,
    pub dead: bool,
}

impl View for PaseoTerminalPane {
    type V = PaseoPaneModel;

    closed spec fn view(&self) -> PaseoPaneModel {
        PaseoPaneModel { remote_terminal_id: self.remote_terminal_id@, dead: self.dead }
    }
}

impl PaseoTerminalPane {
    /// A pane that is alive.
    pub fn new(remote_terminal_id: String) -> (r: PaseoTerminalPane)
        ensures
            r@ == (PaseoPaneModel { remote_terminal_id: remote_terminal_id@, dead: false }),
    {
        PaseoTerminalPane { remote_terminal_id, dead: false }
    }

    /// The terminal that the pane follows.
    pub fn remote_terminal_id(&self) -> (r: &str)
        ensures
            r@ == self@.remote_terminal_id,
    {
        self.remote_terminal_id.as_str()
    }

    /// Whether the pane is dead.
    pub fn is_dead(&self) -> (r: bool)
        ensures
            r == self@.dead,
    {
        self.dead
    }

    /// The bytes that an event hands to the screen. A snapshot hands over none.
    pub fn shown_bytes(event: TerminalStreamEvent) -> (r: Option<Vec<u8>>)
        ensures
            match event {
                TerminalStreamEvent::Output(bytes) => r matches Some(b) && b@ == bytes@,
                TerminalStreamEvent::Restore(bytes) => r matches Some(b) && b@ == bytes@,
                TerminalStreamEvent::Snapshot(_) => r is None,
            },
    {
        match event {
            TerminalStreamEvent::Output(bytes) => Some(bytes),
            TerminalStreamEvent::Restore(bytes) => Some(bytes),
            TerminalStreamEvent::Snapshot(_) => None,
        }
    }

    /// Takes the end of the stream, and says whether the pane is removed. Where dead panes are held it
    /// stays.
    pub fn on_end(&mut self, hold: bool) -> (r: bool)
        ensures
            r == !hold,
            final(self)@ == (PaseoPaneModel { dead: true, ..old(self)@ }),
    {
        self.dead = true;
        !hold
    }
}

} // verus!
