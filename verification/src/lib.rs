//! Control plane of a multipath XR testbed.

pub mod text;
pub mod forms;
pub mod string_map;
pub mod sorted_map;
pub mod virtual_wall;
pub mod big_virtual_wall;
pub mod numerals;
pub mod ipv4;
pub mod virtual_wall_lite;
pub mod controller;
pub mod surroundings;
pub mod quoting;
pub mod start_options;
pub mod batching;
pub mod sorting;
pub mod rearranging;
