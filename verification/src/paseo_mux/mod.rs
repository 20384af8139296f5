//! Terminals of a paseo daemon.
pub mod domain;
pub mod pane;
