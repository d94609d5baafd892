//! Core of a small metro simulation: stations, directed tracks, trains
//! that dwell and move along a single line, and a one-second step.
pub mod dwell;
pub mod network;
pub mod simulation;
pub mod station;
pub mod train;
