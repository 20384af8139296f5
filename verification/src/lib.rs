//! Terminal multiplexing over agent hubs: diff review, wire protocols and layout planning.
pub mod bytes;
pub mod collections;
pub mod config;
pub mod git_review;
pub mod json;
pub mod lists;
pub mod orca_mux;
pub mod order;
pub mod paseo_client;
pub mod paseo_mux;
pub mod shell;
pub mod text;
