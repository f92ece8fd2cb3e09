//! Management of bare-metal experiments on the Virtual Wall.

pub mod error;
pub mod allocator;
pub mod resource_spec;
pub mod topology;
pub mod config;
pub mod slices;
pub mod state;
pub mod manager;
