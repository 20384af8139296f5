//! What the daemon reports of its agents while they run.
use crate::paseo_client::protocol::agents::{AgentSnapshot, PermissionRequest};
use crate::paseo_client::protocol::timeline::TimelineItem;
use vstd::prelude::*;

verus! {

/// Something that an agent did or asks.
#[derive(Debug)]
pub struct AgentStreamEvent {
    pub kind: String,
    pub item: Option<TimelineItem>,
    pub request: Option<PermissionRequest>,
    pub reason: Option<String>,
    pub provider: String,
}

/// An agent that appeared, changed or went.
#[derive(Debug)]
pub struct AgentUpdate {
    pub kind: String,
    pub agent: Option<AgentSnapshot>,
    pub agent_id: Option<String>,
}

} // verus!
