//! On-device ransomware detection and response: the verified core.

pub mod text;
pub mod num;
pub mod detection;
pub mod report;
pub mod events;
pub mod error;
pub mod config;
pub mod ids;
pub mod paths;
pub mod snapshot;
pub mod clock;
pub mod response;
pub mod supervisor;
