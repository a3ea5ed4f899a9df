//! Breakpoint dispatch and fault diagnosis for emulated Hexagon firmware.

pub mod boot;
pub mod breakpoints;
pub mod config;
pub mod fuzz;
pub mod machine;
pub mod text;
pub mod unwinder;
