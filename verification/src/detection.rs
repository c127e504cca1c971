//! Detection: indicators of ransomware activity and the scoring engine.

pub mod patterns;
pub mod scorer;
pub mod canary;
pub mod watcher;
