//! The relay that serves the terminals of a remote host.
pub mod frame;
pub mod protocol;
pub mod transport;
