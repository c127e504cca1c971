//! The agent's error type.

use vstd::prelude::*;

verus! {

/// Everything that can go wrong in the agent, with the failing subject and a description.
#[derive(Debug, Clone, PartialEq, Eq)]
pub enum AgentError {
    Io { path: String, reason: String },
    IoPlain(String),
    Config { path: String, reason: String },
    ConfigInvalid(String),
    Watcher(String),
    Entropy { path: String, reason: String },
    Canary(String),
    KillSwitch { pid: u32, reason: String },
    NetworkBlock { pid: u32, reason: String },
    Vss(String),
    Rollback(String),
    NotElevated,
    Report(String),
    Ollama(String),
    ChannelSend(String),
    ChannelClosed,
    Json(String),
    SubsystemCrash { subsystem: String, reason: String },
    Other(String),
}

impl AgentError {
    /// An I/O failure on `path`.
    pub fn io(path: String, reason: String) -> (r: Self)
        ensures
            r == (AgentError::Io { path, reason }),
    {
        AgentError::Io { path, reason }
    }

    /// A failure to kill the process `pid`.
    pub fn kill(pid: u32, reason: String) -> (r: Self)
        ensures
            r == (AgentError::KillSwitch { pid, reason }),
    {
        AgentError::KillSwitch { pid, reason }
    }

    /// A volume shadow copy failure.
    pub fn vss(reason: String) -> (r: Self)
        ensures
            r == AgentError::Vss(reason),
    {
        AgentError::Vss(reason)
    }

    /// Any other failure.
    pub fn other(reason: String) -> (r: Self)
        ensures
            r == AgentError::Other(reason),
    {
        AgentError::Other(reason)
    }
}

} // verus!
