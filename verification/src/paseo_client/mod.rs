//! A client of the paseo daemon: its pairing offers, its encryption and its messages.
pub mod binary_frames;
pub mod client;
pub mod e2ee;
pub mod envelope;
pub mod error;
pub mod events;
pub mod offer;
pub mod protocol;
pub mod transport;
