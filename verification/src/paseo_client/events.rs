//! What a client reports to the program around it.
use crate::json::{Json, JsonModel};
use crate::paseo_client::protocol::diff::CheckoutDiff;
use crate::paseo_client::protocol::{
    AgentSnapshot, AgentStreamEvent, AgentUpdate, PermissionRequest, TerminalInfo,
};
use crate::text;
use vstd::prelude::*;

verus! {

/// How far a connection has come.
#[derive(Clone, Debug, PartialEq, Eq)]
pub enum ConnectionState {
    Connecting,
    Handshaking,
    Connected,
    Disconnected(String),
}

/// Something that arrived for a terminal.
#[derive(Debug)]
pub enum TerminalStreamEvent {
    Output(Vec<u8>),
    Restore(Vec<u8>),
    Snapshot(Json),
}

/// What a [`TerminalStreamEvent`] says.
#[verifier::ext_equal]
pub enum StreamModel {
    Output(Seq<u8>),
    Restore(Seq<u8>),
    Snapshot(JsonModel),
}

impl View for TerminalStreamEvent {
    type V = StreamModel;

    open spec fn view(&self) -> StreamModel {
        match self {
            TerminalStreamEvent::Output(data) => StreamModel::Output(data@),
            TerminalStreamEvent::Restore(data) => StreamModel::Restore(data@),
            TerminalStreamEvent::Snapshot(value) => StreamModel::Snapshot(value@),
        }
    }
}

/// Something that the daemon reports.
#[derive(Debug)]
pub enum DaemonEvent {
    AgentUpsert(Box<AgentSnapshot>),
    AgentRemove(String),
    AgentStream { agent_id: String, event: Box<AgentStreamEvent> },
    PermissionRequest { agent_id: String, request: Box<PermissionRequest> },
    TerminalsChanged { terminals: Vec<TerminalInfo> },
    TerminalExit(String),
    CheckoutDiff(Box<CheckoutDiff>),
    Disconnected,
}

/// What an update of an agent reports: a removal where it says so and names the agent, else the agent
/// that it carries; nothing where that is missing.
pub fn agent_update_event(update: AgentUpdate) -> (r: Option<DaemonEvent>)
    ensures
        if update.kind@ == "remove"@ {
            match update.agent_id {
                Some(id) => r == Some(DaemonEvent::AgentRemove(id)),
                None => r is None,
            }
        } else {
            match update.agent {
                Some(agent) => r == Some(DaemonEvent::AgentUpsert(Box::new(agent))),
                None => r is None,
            }
        },
{
    if text::same(update.kind.as_str(), "remove") {
        match update.agent_id {
            Some(id) => Some(DaemonEvent::AgentRemove(id)),
            None => None,
        }
    } else {
        match update.agent {
            Some(agent) => Some(DaemonEvent::AgentUpsert(Box::new(agent))),
            None => None,
        }
    }
}

} // verus!
