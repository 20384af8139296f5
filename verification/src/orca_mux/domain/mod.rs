//! A domain of the hub: its tabs, their layouts, and how they are kept in step.
pub mod attach;
pub mod commands;
pub mod hub;
pub mod panes;
pub mod publish;
pub mod realise;
pub mod state;
pub mod tab_order;
pub mod visual;
pub mod window;
