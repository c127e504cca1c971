//! The events, signals, scores and incidents that flow between the subsystems.

pub mod types;
