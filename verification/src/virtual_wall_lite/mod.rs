//! Access to existing Virtual Wall experiments over SSH.

pub mod error;
pub mod rspec;
pub mod config;
pub mod tunnels;
pub mod state;
pub mod ssh;
pub mod start_options;
pub mod manager;
pub mod registry;
