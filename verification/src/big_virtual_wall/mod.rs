//! Overlay networks laid over the hosts of a Virtual Wall experiment.

pub mod overlay;
pub mod planner;
pub mod generator;
pub mod safety;
pub mod inventory;
pub mod apply;
