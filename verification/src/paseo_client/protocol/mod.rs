//! The requests of a client, and what the daemon's answers hold.
pub mod agents;
pub mod diff;
pub mod server;
pub mod stream;
pub mod terminals;
pub mod timeline;
pub mod workspaces;

pub use agents::{AgentListEntry, AgentSnapshot, PermissionRequest, PermissionResponse};
pub use server::ServerInfo;
pub use stream::{AgentStreamEvent, AgentUpdate};
pub use terminals::TerminalInfo;
pub use timeline::{TimelineItem, ToolCallDetail};
