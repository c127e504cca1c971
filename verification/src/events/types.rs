//! Event, signal, score and incident types.
//!
//! Time stamps are milliseconds since the Unix epoch (UTC); paths are their text.

use vstd::prelude::*;
use crate::config::ScoringConfig;

verus! {

/// Identifier of a raw or scored event, drawn from one shared increasing sequence.
pub type EventId = u64;

/// A filesystem change reported by the watcher.
#[derive(Debug, Clone, PartialEq, Eq)]
pub struct RawFsEvent {
    pub id: EventId,
    pub ts: i64,
    pub path: String,
    pub kind: FsEventKind,
    /// Originating PID when determinable.
    pub pid: Option<u32>,
}

/// What happened to a path.
#[derive(Debug, Clone, PartialEq, Eq)]
pub enum FsEventKind {
    Created,
    Modified,
    Renamed { from: String },
    Deleted,
}

/// A process as seen by the response subsystem.
#[derive(Debug, Clone, PartialEq, Eq)]
pub struct ProcessInfo {
    pub pid: u32,
    pub parent_pid: u32,
    pub name: String,
    pub exe_path: Option<String>,
}

/// An indicator of ransomware activity.
///
/// Entropy is in thousandths of a bit per byte; write rates are in thousandths of a file
/// per second.
#[derive(Debug, Clone, PartialEq, Eq)]
pub enum ThreatSignal {
    HighEntropy { path: String, entropy_millibits: u32, pid: Option<u32> },
    BurstWrites { path: String, writes_per_sec_milli: u64, pid: Option<u32> },
    ExtensionChange { path: String, old_ext: String, new_ext: String, pid: Option<u32> },
    CanaryTouched { canary_path: String, pid: Option<u32> },
    ShadowDeleteAttempt { command_line: String, pid: u32 },
    SuspiciousRename { path: String, pid: Option<u32> },
    RansomNoteCreated { path: String, pid: Option<u32> },
}

impl ThreatSignal {
    /// The process the signal is attributed to.
    pub open spec fn spec_pid(&self) -> Option<u32> {
        match self {
            ThreatSignal::HighEntropy { pid, .. } => *pid,
            ThreatSignal::BurstWrites { pid, .. } => *pid,
            ThreatSignal::ExtensionChange { pid, .. } => *pid,
            ThreatSignal::CanaryTouched { pid, .. } => *pid,
            ThreatSignal::ShadowDeleteAttempt { pid, .. } => Some(*pid),
            ThreatSignal::SuspiciousRename { pid, .. } => *pid,
            ThreatSignal::RansomNoteCreated { pid, .. } => *pid,
        }
    }

    /// The file the signal is about, when it is about one.
    pub open spec fn spec_path(&self) -> Option<String> {
        match self {
            ThreatSignal::HighEntropy { path, .. } => Some(*path),
            ThreatSignal::BurstWrites { path, .. } => Some(*path),
            ThreatSignal::ExtensionChange { path, .. } => Some(*path),
            ThreatSignal::CanaryTouched { canary_path, .. } => Some(*canary_path),
            ThreatSignal::ShadowDeleteAttempt { .. } => None,
            ThreatSignal::SuspiciousRename { path, .. } => Some(*path),
            ThreatSignal::RansomNoteCreated { path, .. } => Some(*path),
        }
    }

    /// The process the signal is attributed to.
    pub fn pid(&self) -> (r: Option<u32>)
        ensures
            r == self.spec_pid(),
    {
        match self {
            ThreatSignal::HighEntropy { pid, .. } => *pid,
            ThreatSignal::BurstWrites { pid, .. } => *pid,
            ThreatSignal::ExtensionChange { pid, .. } => *pid,
            ThreatSignal::CanaryTouched { pid, .. } => *pid,
            ThreatSignal::ShadowDeleteAttempt { pid, .. } => Some(*pid),
            ThreatSignal::SuspiciousRename { pid, .. } => *pid,
            ThreatSignal::RansomNoteCreated { pid, .. } => *pid,
        }
    }

    /// The file the signal is about, when it is about one.
    pub fn path(&self) -> (r: Option<&String>)
        ensures
            match r {
                Some(p) => self.spec_path() == Some(*p),
                None => self.spec_path() is None,
            },
    {
        match self {
            ThreatSignal::HighEntropy { path, .. } => Some(path),
            ThreatSignal::BurstWrites { path, .. } => Some(path),
            ThreatSignal::ExtensionChange { path, .. } => Some(path),
            ThreatSignal::CanaryTouched { canary_path, .. } => Some(canary_path),
            ThreatSignal::ShadowDeleteAttempt { .. } => None,
            ThreatSignal::SuspiciousRename { path, .. } => Some(path),
            ThreatSignal::RansomNoteCreated { path, .. } => Some(path),
        }
    }

    /// An equal copy of the signal.
    pub fn copied(&self) -> (r: Self)
        ensures
            r == *self,
    {
        match self {
            ThreatSignal::HighEntropy { path, entropy_millibits, pid } => ThreatSignal::HighEntropy {
                path: path.clone(),
                entropy_millibits: *entropy_millibits,
                pid: *pid,
            },
            ThreatSignal::BurstWrites { path, writes_per_sec_milli, pid } =>
                ThreatSignal::BurstWrites {
                path: path.clone(),
                writes_per_sec_milli: *writes_per_sec_milli,
                pid: *pid,
            },
            ThreatSignal::ExtensionChange { path, old_ext, new_ext, pid } =>
                ThreatSignal::ExtensionChange {
                path: path.clone(),
                old_ext: old_ext.clone(),
                new_ext: new_ext.clone(),
                pid: *pid,
            },
            ThreatSignal::CanaryTouched { canary_path, pid } => ThreatSignal::CanaryTouched {
                canary_path: canary_path.clone(),
                pid: *pid,
            },
            ThreatSignal::ShadowDeleteAttempt { command_line, pid } =>
                ThreatSignal::ShadowDeleteAttempt { command_line: command_line.clone(), pid: *pid },
            ThreatSignal::SuspiciousRename { path, pid } => ThreatSignal::SuspiciousRename {
                path: path.clone(),
                pid: *pid,
            },
            ThreatSignal::RansomNoteCreated { path, pid } => ThreatSignal::RansomNoteCreated {
                path: path.clone(),
                pid: *pid,
            },
        }
    }
}

/// A threat signal with its texts as character sequences.
pub enum SignalView {
    HighEntropy { path: Seq<char>, entropy_millibits: u32, pid: Option<u32> },
    BurstWrites { path: Seq<char>, writes_per_sec_milli: u64, pid: Option<u32> },
    ExtensionChange { path: Seq<char>, old_ext: Seq<char>, new_ext: Seq<char>, pid: Option<u32> },
    CanaryTouched { canary_path: Seq<char>, pid: Option<u32> },
    ShadowDeleteAttempt { command_line: Seq<char>, pid: u32 },
    SuspiciousRename { path: Seq<char>, pid: Option<u32> },
    RansomNoteCreated { path: Seq<char>, pid: Option<u32> },
}

impl SignalView {
    /// The file the signal is about, when it is about one.
    pub open spec fn path(self) -> Option<Seq<char>> {
        match self {
            SignalView::HighEntropy { path, .. } => Some(path),
            SignalView::BurstWrites { path, .. } => Some(path),
            SignalView::ExtensionChange { path, .. } => Some(path),
            SignalView::CanaryTouched { canary_path, .. } => Some(canary_path),
            SignalView::ShadowDeleteAttempt { .. } => None,
            SignalView::SuspiciousRename { path, .. } => Some(path),
            SignalView::RansomNoteCreated { path, .. } => Some(path),
        }
    }
}

impl View for ThreatSignal {
    type V = SignalView;

    open spec fn view(&self) -> SignalView {
        match self {
            ThreatSignal::HighEntropy { path, entropy_millibits, pid } => SignalView::HighEntropy {
                path: path@,
                entropy_millibits: *entropy_millibits,
                pid: *pid,
            },
            ThreatSignal::BurstWrites { path, writes_per_sec_milli, pid } => SignalView::BurstWrites {
                path: path@,
                writes_per_sec_milli: *writes_per_sec_milli,
                pid: *pid,
            },
            ThreatSignal::ExtensionChange { path, old_ext, new_ext, pid } =>
                SignalView::ExtensionChange {
                path: path@,
                old_ext: old_ext@,
                new_ext: new_ext@,
                pid: *pid,
            },
            ThreatSignal::CanaryTouched { canary_path, pid } => SignalView::CanaryTouched {
                canary_path: canary_path@,
                pid: *pid,
            },
            ThreatSignal::ShadowDeleteAttempt { command_line, pid } =>
                SignalView::ShadowDeleteAttempt { command_line: command_line@, pid: *pid },
            ThreatSignal::SuspiciousRename { path, pid } => SignalView::SuspiciousRename {
                path: path@,
                pid: *pid,
            },
            ThreatSignal::RansomNoteCreated { path, pid } => SignalView::RansomNoteCreated {
                path: path@,
                pid: *pid,
            },
        }
    }
}

/// An accumulated threat score.
#[derive(Debug, Clone, Copy, PartialEq, Eq, Structural, PartialOrd, Ord, Default)]
pub struct Score(pub u32);

/// How serious the activity attributed to a process is.
#[derive(Debug, Clone, Copy, PartialEq, Eq, Structural)]
pub enum ThreatLevel {
    Nominal,
    Elevated,
    High,
    Critical,
}

impl ThreatLevel {
    /// The position of the level in the order Nominal < Elevated < High < Critical.
    pub open spec fn spec_rank(self) -> u8 {
        match self {
            ThreatLevel::Nominal => 0,
            ThreatLevel::Elevated => 1,
            ThreatLevel::High => 2,
            ThreatLevel::Critical => 3,
        }
    }

    /// The level of a score under the given thresholds.
    pub open spec fn level_of(score: u32, elevated: u32, high: u32, critical: u32) -> ThreatLevel {
        if score >= critical {
            ThreatLevel::Critical
        } else if score >= high {
            ThreatLevel::High
        } else if score >= elevated {
            ThreatLevel::Elevated
        } else {
            ThreatLevel::Nominal
        }
    }

    /// The position of the level in the order Nominal < Elevated < High < Critical.
    pub fn rank(self) -> (r: u8)
        ensures
            r == self.spec_rank(),
    {
        match self {
            ThreatLevel::Nominal => 0,
            ThreatLevel::Elevated => 1,
            ThreatLevel::High => 2,
            ThreatLevel::Critical => 3,
        }
    }

    /// Whether `self` is more serious than `other`.
    pub fn above(self, other: ThreatLevel) -> (r: bool)
        ensures
            r == (self.spec_rank() > other.spec_rank()),
    {
        self.rank() > other.rank()
    }

    /// The threat level of a raw score: Critical from `critical` on, else High from `high`
    /// on, else Elevated from `elevated` on, else Nominal.
    pub fn from_score(score: Score, elevated: u32, high: u32, critical: u32) -> (r: ThreatLevel)
        ensures
            r == Self::level_of(score.0, elevated, high, critical),
    {
        let s = score.0;
        if s >= critical {
            ThreatLevel::Critical
        } else if s >= high {
            ThreatLevel::High
        } else if s >= elevated {
            ThreatLevel::Elevated
        } else {
            ThreatLevel::Nominal
        }
    }

    /// The threat level of a raw score under the thresholds of `cfg`.
    pub fn from_score_cfg(score: Score, cfg: &ScoringConfig) -> (r: ThreatLevel)
        ensures
            r == Self::level_of(
                score.0,
                cfg.elevated_threshold,
                cfg.high_threshold,
                cfg.critical_threshold,
            ),
    {
        Self::from_score(score, cfg.elevated_threshold, cfg.high_threshold, cfg.critical_threshold)
    }

    /// The level name as the reports print it.
    pub open spec fn spec_name(self) -> Seq<char> {
        match self {
            ThreatLevel::Nominal => "NOMINAL"@,
            ThreatLevel::Elevated => "ELEVATED"@,
            ThreatLevel::High => "HIGH"@,
            ThreatLevel::Critical => "CRITICAL"@,
        }
    }

    /// The level name as the reports print it.
    pub fn name(self) -> (r: &'static str)
        ensures
            r@ == self.spec_name(),
    {
        match self {
            ThreatLevel::Nominal => "NOMINAL",
            ThreatLevel::Elevated => "ELEVATED",
            ThreatLevel::High => "HIGH",
            ThreatLevel::Critical => "CRITICAL",
        }
    }
}

/// A signal that has been scored and attributed to a window.
#[derive(Debug, Clone, PartialEq, Eq)]
pub struct ScoredEvent {
    pub id: EventId,
    pub ts: i64,
    pub signal: ThreatSignal,
    pub delta: u32,
    pub cumulative: Score,
    pub level: ThreatLevel,
}

/// A scored event without its identifier, which comes from a sequence shared between tasks.
pub struct EventView {
    pub ts: i64,
    pub signal: SignalView,
    pub delta: u32,
    pub cumulative: u32,
    pub level: ThreatLevel,
}

impl View for ScoredEvent {
    type V = EventView;

    open spec fn view(&self) -> EventView {
        EventView {
            ts: self.ts,
            signal: self.signal@,
            delta: self.delta,
            cumulative: self.cumulative.0,
            level: self.level,
        }
    }
}

/// The views of a list of scored events.
pub open spec fn event_views(v: Seq<ScoredEvent>) -> Seq<EventView> {
    v.map_values(|e: ScoredEvent| e@)
}

impl ScoredEvent {
    /// An equal copy of the event.
    pub fn copied(&self) -> (r: Self)
        ensures
            r == *self,
    {
        ScoredEvent {
            id: self.id,
            ts: self.ts,
            signal: self.signal.copied(),
            delta: self.delta,
            cumulative: self.cumulative,
            level: self.level,
        }
    }
}

/// An equal copy of a list of scored events.
pub fn copy_events(v: &Vec<ScoredEvent>) -> (r: Vec<ScoredEvent>)
    ensures
        r@ == v@,
{
    let mut r: Vec<ScoredEvent> = Vec::new();
    let mut i: usize = 0;
    while i < v.len()
        invariant
            i <= v@.len(),
            r@ == v@.take(i as int),
        decreases v@.len() - i,
    {
        r.push(v[i].copied());
        i = i + 1;
        assert(r@ =~= v@.take(i as int));
    }
    assert(v@.take(v@.len() as int) =~= v@);
    r
}

/// An incident without its random identifier.
pub struct IncidentView {
    pub started_at: i64,
    pub closed_at: i64,
    pub peak_level: ThreatLevel,
    pub final_score: u32,
    pub events: Seq<EventView>,
    pub affected_paths: Seq<Seq<char>>,
    pub primary_pid: Option<u32>,
    pub process_info: Option<ProcessInfo>,
    pub actions_taken: Seq<ResponseAction>,
    pub snapshot_used: Option<SnapshotInfo>,
    pub report_path: Option<Seq<char>>,
}

impl View for Incident {
    type V = IncidentView;

    open spec fn view(&self) -> IncidentView {
        IncidentView {
            started_at: self.started_at,
            closed_at: self.closed_at,
            peak_level: self.peak_level,
            final_score: self.final_score.0,
            events: event_views(self.events@),
            affected_paths: self.affected_paths@.map_values(|p: String| p@),
            primary_pid: self.primary_pid,
            process_info: self.process_info,
            actions_taken: self.actions_taken@,
            snapshot_used: self.snapshot_used,
            report_path: match self.report_path {
                Some(p) => Some(p@),
                None => None,
            },
        }
    }
}

/// An automated response that was carried out.
#[derive(Debug, Clone, PartialEq, Eq)]
pub enum ResponseAction {
    ProcessTreeKilled { root_pid: u32, killed_pids: Vec<u32> },
    NetworkBlocked { pid: u32, rule_name: String },
    RollbackStarted { snapshot_id: String, target_paths: Vec<String> },
    RollbackCompleted { files_restored: usize, manifest_path: String },
    ReportGenerated { path: String },
    DryRun { would_have: String },
}

/// An action with its texts and lists as sequences.
pub enum ActionView {
    ProcessTreeKilled { root_pid: u32, killed_pids: Seq<u32> },
    NetworkBlocked { pid: u32, rule_name: Seq<char> },
    RollbackStarted { snapshot_id: Seq<char>, target_paths: Seq<Seq<char>> },
    RollbackCompleted { files_restored: usize, manifest_path: Seq<char> },
    ReportGenerated { path: Seq<char> },
    DryRun { would_have: Seq<char> },
}

impl View for ResponseAction {
    type V = ActionView;

    open spec fn view(&self) -> ActionView {
        match self {
            ResponseAction::ProcessTreeKilled { root_pid, killed_pids } => ActionView::ProcessTreeKilled {
                root_pid: *root_pid,
                killed_pids: killed_pids@,
            },
            ResponseAction::NetworkBlocked { pid, rule_name } => ActionView::NetworkBlocked {
                pid: *pid,
                rule_name: rule_name@,
            },
            ResponseAction::RollbackStarted { snapshot_id, target_paths } => ActionView::RollbackStarted {
                snapshot_id: snapshot_id@,
                target_paths: target_paths@.map_values(|p: String| p@),
            },
            ResponseAction::RollbackCompleted { files_restored, manifest_path } => ActionView::RollbackCompleted {
                files_restored: *files_restored,
                manifest_path: manifest_path@,
            },
            ResponseAction::ReportGenerated { path } => ActionView::ReportGenerated { path: path@ },
            ResponseAction::DryRun { would_have } => ActionView::DryRun { would_have: would_have@ },
        }
    }
}

/// The views of a list of actions.
pub open spec fn action_views(v: Seq<ResponseAction>) -> Seq<ActionView> {
    v.map_values(|a: ResponseAction| a@)
}

/// A volume shadow copy.
#[derive(Debug, Clone, PartialEq, Eq)]
pub struct SnapshotInfo {
    pub shadow_id: String,
    pub volume: String,
    pub device_path: String,
    pub created_at: i64,
    pub size_bytes: Option<u64>,
}

/// A contained incident: the scored events of one process window that reached Critical.
#[derive(Debug, Clone, PartialEq, Eq)]
pub struct Incident {
    pub id: u128,
    pub started_at: i64,
    pub closed_at: i64,
    pub peak_level: ThreatLevel,
    pub final_score: Score,
    pub events: Vec<ScoredEvent>,
    pub affected_paths: Vec<String>,
    pub primary_pid: Option<u32>,
    pub process_info: Option<ProcessInfo>,
    pub actions_taken: Vec<ResponseAction>,
    pub snapshot_used: Option<SnapshotInfo>,
    pub report_path: Option<String>,
}

/// Sent from the scorer to the response orchestrator.
#[derive(Debug)]
pub struct AlertMsg {
    pub event: ScoredEvent,
    /// Present when the level reached Critical.
    pub incident: Option<Incident>,
}

/// An alert without identifiers.
pub struct AlertView {
    pub event: EventView,
    pub incident: Option<IncidentView>,
}

impl View for AlertMsg {
    type V = AlertView;

    open spec fn view(&self) -> AlertView {
        AlertView {
            event: self.event@,
            incident: match self.incident {
                Some(i) => Some(i@),
                None => None,
            },
        }
    }
}

/// Sent from the response orchestrator to the report generator.
#[derive(Debug)]
pub struct ReportRequest {
    pub incident: Incident,
    pub use_ollama: bool,
}

/// Supervisor control messages.
#[derive(Debug, Clone, PartialEq, Eq)]
pub enum ControlMsg {
    Shutdown { reason: String },
    SubsystemError { subsystem: String, error: String },
    HealthPing,
}

} // verus!
