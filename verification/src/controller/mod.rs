//! The experiment controller.

pub mod graph;
pub mod structs;
pub mod router;
pub mod actions;
pub mod metrics_buffer;
pub mod metrics_identity;
pub mod metrics_csv;
pub mod metrics_logger;
pub mod metrics_api;
pub mod bandwidth;
pub mod experiment;
pub mod requests;
pub mod mininet;
pub mod wall;
pub mod docker;
