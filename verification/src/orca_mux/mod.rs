//! Terminals of an orca hub: its relay protocol, its runtimes and its tab layouts.
pub mod domain;
pub mod layout;
pub mod local_runtime;
pub mod pane;
pub mod relay;
pub mod relay_backend;
pub mod relay_pane;
pub mod runtime_backend;
pub mod session;
pub mod ssh;
pub mod tab_builder;
