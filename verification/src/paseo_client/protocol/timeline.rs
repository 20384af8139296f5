//! What an agent did.
use vstd::prelude::*;

verus! {

/// What a tool was called with, and what it gave.
#[derive(Clone, Debug, PartialEq, Eq)]
pub struct ToolCallDetail {
    pub kind: String,
    pub command: Option<String>,
    pub cwd: Option<String>,
    pub output: Option<String>,
    pub exit_code: Option<i64>,
    pub unified_diff: Option<String>,
    pub path: Option<String>,
    pub text: Option<String>,
}

/// One step of an agent.
#[derive(Clone, Debug, PartialEq, Eq)]
pub struct TimelineItem {
    pub kind: String,
    pub text: Option<String>,
    pub message_id: Option<String>,
    pub call_id: Option<String>,
    pub name: Option<String>,
    pub detail: Option<ToolCallDetail>,
    pub status: Option<String>,
}

} // verus!
