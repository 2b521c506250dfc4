//! Turn-based two-team battle simulation on an axial hex grid.
//!
//! The library holds the world model, the per-unit decision logic, movement
//! and combat resolution, the turn/victory state machine and the replay and
//! state recorders. Rendering, file access and process plumbing live outside.

pub mod actions;
pub mod ai;
pub mod batch;
pub mod combat;
pub mod config;
pub mod hex;
pub mod misc;
pub mod movement;
pub mod replay;
pub mod simulation;
pub mod spatial;
pub mod state;
pub mod units;
pub mod victory;
