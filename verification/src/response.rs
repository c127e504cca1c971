//! The response to threats: what to kill, block and roll back, and in which order.

pub mod kill_switch;
pub mod network_block;

use std::collections::HashSet;
use vstd::prelude::*;
use crate::config::ResponseConfig;
use crate::detection::patterns::string_views;
use crate::events::types::{
    action_views, ActionView, AlertMsg, Incident, ReportRequest, ResponseAction, SnapshotInfo,
    ThreatLevel,
};
use crate::num::{decimal, push_decimal};
use crate::text::{push_str, string_of};

verus! {

broadcast use vstd::std_specs::hash::group_hash_axioms;

/// What an alert calls for.
#[derive(Debug, Clone, Copy, PartialEq, Eq, Structural)]
pub enum AlertPlan {
    /// Nothing: the level is nominal.
    Ignore,
    /// A warning in the log, and nothing else.
    Warn,
    /// A warning, a firewall rule for the process `block` where there is one, and a shadow
    /// copy of the rollback volume where `snapshot` holds.
    Contain { block: Option<u32>, snapshot: bool },
    /// The response to a critical incident.
    RespondCritical,
    /// A critical alert that came without its incident: a warning.
    MissingIncident,
}

/// The steps of the response to a critical incident, fixed before any of them is taken.
#[derive(Debug, Clone, PartialEq, Eq)]
pub struct CriticalPlan {
    /// The process whose tree a dry run records as one it would have killed.
    pub dry_run_kill: Option<u32>,
    /// The process whose tree is killed.
    pub kill: Option<u32>,
    /// The process whose outbound traffic is blocked.
    pub block: Option<u32>,
    /// The volume of which a shadow copy is requested for the rollback.
    pub snapshot_volume: Option<String>,
}

/// The response orchestrator: the configuration and the processes already blocked.
pub struct Responder {
    pub cfg: ResponseConfig,
    /// Processes that have a firewall rule.
    pub blocked: HashSet<u32>,
    /// Whether reports ask the local model for a narrative.
    pub use_ollama: bool,
}

/// The volume whose shadow copies back a rollback.
pub const ROLLBACK_VOLUME: &'static str = "C:";

/// What a dry run records instead of killing the tree of `pid`.
pub open spec fn dry_run_kill_text(pid: u32) -> Seq<char> {
    "kill process tree rooted at pid="@ + decimal(pid as nat)
}

impl Responder {
    /// Whether a new firewall rule may be installed for `pid`: none is yet, responses are
    /// live and blocking is enabled.
    pub open spec fn may_block(&self, pid: u32) -> bool {
        !self.blocked@.contains(pid) && !self.cfg.dry_run && self.cfg.block_network
    }

    /// What an alert at `level` about the process `pid` calls for.
    pub open spec fn alert_plan(&self, level: ThreatLevel, pid: Option<u32>, has_incident: bool) -> AlertPlan {
        match level {
            ThreatLevel::Nominal => AlertPlan::Ignore,
            ThreatLevel::Elevated => AlertPlan::Warn,
            ThreatLevel::High => AlertPlan::Contain {
                block: match pid {
                    Some(p) => if self.may_block(p) {
                        Some(p)
                    } else {
                        None
                    },
                    None => None,
                },
                snapshot: !self.cfg.dry_run,
            },
            ThreatLevel::Critical => if has_incident {
                AlertPlan::RespondCritical
            } else {
                AlertPlan::MissingIncident
            },
        }
    }

    /// The process a dry run records as one it would have killed.
    pub open spec fn dry_run_target(&self, inc: Incident) -> Option<u32> {
        if self.cfg.dry_run {
            inc.primary_pid
        } else {
            None
        }
    }

    /// The process whose tree is killed.
    pub open spec fn kill_target(&self, inc: Incident) -> Option<u32> {
        if !self.cfg.dry_run && self.cfg.kill_on_critical {
            inc.primary_pid
        } else {
            None
        }
    }

    /// The process whose outbound traffic is blocked.
    pub open spec fn block_target(&self, inc: Incident) -> Option<u32> {
        match inc.primary_pid {
            Some(p) => if self.may_block(p) {
                Some(p)
            } else {
                None
            },
            None => None,
        }
    }

    /// Whether a shadow copy is requested to roll the affected files back.
    pub open spec fn wants_snapshot(&self, inc: Incident) -> bool {
        self.cfg.auto_rollback && !self.cfg.dry_run && inc.affected_paths@.len() > 0
    }

    /// The actions recorded for a critical incident, given what the steps returned: the
    /// pids killed, the rule installed and the shadow copy made, each where its step ran and
    /// succeeded.
    pub open spec fn critical_actions(
        &self,
        inc: Incident,
        killed: Option<Seq<u32>>,
        rule: Option<Seq<char>>,
        snapshot: Option<SnapshotInfo>,
    ) -> Seq<ActionView> {
        let dry = match self.dry_run_target(inc) {
            Some(p) => seq![ActionView::DryRun { would_have: dry_run_kill_text(p) }],
            None => Seq::empty(),
        };
        let kill = match (self.kill_target(inc), killed) {
            (Some(p), Some(k)) => seq![ActionView::ProcessTreeKilled { root_pid: p, killed_pids: k }],
            _ => Seq::empty(),
        };
        let block = match (self.block_target(inc), rule) {
            (Some(p), Some(r)) => seq![ActionView::NetworkBlocked { pid: p, rule_name: r }],
            _ => Seq::empty(),
        };
        let rollback = match snapshot {
            Some(s) => if self.wants_snapshot(inc) {
                seq![
                    ActionView::RollbackStarted {
                        snapshot_id: s.shadow_id@,
                        target_paths: string_views(inc.affected_paths@),
                    },
                ]
            } else {
                Seq::empty()
            },
            None => Seq::empty(),
        };
        dry + kill + block + rollback
    }

    /// A responder with the configuration `cfg` that has blocked nothing yet.
    pub fn new(cfg: ResponseConfig, use_ollama: bool) -> (r: Self)
        ensures
            r.cfg == cfg,
            r.use_ollama == use_ollama,
            r.blocked@ == Set::<u32>::empty(),
    {
        Responder { cfg, blocked: HashSet::new(), use_ollama }
    }

    /// Whether `pid` has a firewall rule.
    pub fn has_blocked(&self, pid: u32) -> (r: bool)
        ensures
            r == self.blocked@.contains(pid),
    {
        self.blocked.contains(&pid)
    }

    fn may_block_exec(&self, pid: u32) -> (r: bool)
        ensures
            r == self.may_block(pid),
    {
        !self.has_blocked(pid) && !self.cfg.dry_run && self.cfg.block_network
    }

    /// What `alert` calls for.
    pub fn plan_alert(&self, alert: &AlertMsg) -> (r: AlertPlan)
        ensures
            r == self.alert_plan(alert.event.level, alert.event.signal.spec_pid(), alert.incident is Some),
    {
        match alert.event.level {
            ThreatLevel::Nominal => AlertPlan::Ignore,
            ThreatLevel::Elevated => AlertPlan::Warn,
            ThreatLevel::High => {
                let block = match alert.event.signal.pid() {
                    Some(p) => if self.may_block_exec(p) {
                        Some(p)
                    } else {
                        None
                    },
                    None => None,
                };
                AlertPlan::Contain { block, snapshot: !self.cfg.dry_run }
            },
            ThreatLevel::Critical => if alert.incident.is_some() {
                AlertPlan::RespondCritical
            } else {
                AlertPlan::MissingIncident
            },
        }
    }

    /// Record that `pid` now has a firewall rule.
    pub fn note_blocked(&mut self, pid: u32)
        ensures
            final(self).cfg == old(self).cfg,
            final(self).use_ollama == old(self).use_ollama,
            final(self).blocked@ == old(self).blocked@.insert(pid),
    {
        self.blocked.insert(pid);
    }

    /// The steps of the response to `incident`.
    pub fn plan_critical(&self, incident: &Incident) -> (r: CriticalPlan)
        ensures
            r.dry_run_kill == self.dry_run_target(*incident),
            r.kill == self.kill_target(*incident),
            r.block == self.block_target(*incident),
            r.snapshot_volume is Some <==> self.wants_snapshot(*incident),
            r.snapshot_volume matches Some(v) ==> v@ == ROLLBACK_VOLUME@,
    {
        let dry_run_kill = if self.cfg.dry_run {
            incident.primary_pid
        } else {
            None
        };
        let kill = if !self.cfg.dry_run && self.cfg.kill_on_critical {
            incident.primary_pid
        } else {
            None
        };
        let block = match incident.primary_pid {
            Some(p) => if self.may_block_exec(p) {
                Some(p)
            } else {
                None
            },
            None => None,
        };
        let snapshot_volume = if self.cfg.auto_rollback && !self.cfg.dry_run
            && incident.affected_paths.len() > 0 {
            Some(ROLLBACK_VOLUME.to_owned())
        } else {
            None
        };
        CriticalPlan { dry_run_kill, kill, block, snapshot_volume }
    }

    /// Record the outcome of the response to `incident` and hand it on to the report:
    /// `killed` holds the pids that the kill step terminated, `rule` the rule that the block
    /// step installed and `snapshot` the shadow copy made for the rollback, each `None` where
    /// the step did not run or failed. A successful block records its pid as blocked.
    pub fn complete_critical(
        &mut self,
        incident: Incident,
        killed: Option<Vec<u32>>,
        rule: Option<String>,
        snapshot: Option<SnapshotInfo>,
    ) -> (r: ReportRequest)
        requires
            killed is Some ==> old(self).kill_target(incident) is Some,
            rule is Some ==> old(self).block_target(incident) is Some,
            snapshot is Some ==> old(self).wants_snapshot(incident),
        ensures
            final(self).cfg == old(self).cfg,
            final(self).use_ollama == old(self).use_ollama,
            final(self).blocked@ == (match (old(self).block_target(incident), rule) {
                (Some(p), Some(_)) => old(self).blocked@.insert(p),
                _ => old(self).blocked@,
            }),
            r.use_ollama == old(self).use_ollama,
            action_views(r.incident.actions_taken@) == action_views(incident.actions_taken@)
                + old(self).critical_actions(
                incident,
                match killed {
                    Some(k) => Some(k@),
                    None => None,
                },
                match rule {
                    Some(s) => Some(s@),
                    None => None,
                },
                snapshot,
            ),
            r.incident.snapshot_used == (if snapshot is Some {
                snapshot
            } else {
                incident.snapshot_used
            }),
            r.incident.id == incident.id,
            r.incident.started_at == incident.started_at,
            r.incident.closed_at == incident.closed_at,
            r.incident.peak_level == incident.peak_level,
            r.incident.final_score == incident.final_score,
            r.incident.events == incident.events,
            r.incident.affected_paths == incident.affected_paths,
            r.incident.primary_pid == incident.primary_pid,
            r.incident.process_info == incident.process_info,
            r.incident.report_path == incident.report_path,
    {
        let ghost old_self = *self;
        let mut incident = incident;
        let ghost base = action_views(incident.actions_taken@);
        let plan = self.plan_critical(&incident);
        match plan.dry_run_kill {
            Some(pid) => {
                let mut t: Vec<char> = Vec::new();
                push_str(&mut t, "kill process tree rooted at pid=");
                push_decimal(&mut t, pid as u64);
                incident.actions_taken.push(ResponseAction::DryRun { would_have: string_of(t.as_slice()) });
            },
            None => {},
        }
        let ghost after_dry = action_views(incident.actions_taken@);
        match (plan.kill, killed) {
            (Some(pid), Some(k)) => {
                incident.actions_taken.push(ResponseAction::ProcessTreeKilled { root_pid: pid, killed_pids: k });
            },
            _ => {},
        }
        let ghost after_kill = action_views(incident.actions_taken@);
        match (plan.block, rule) {
            (Some(pid), Some(name)) => {
                incident.actions_taken.push(ResponseAction::NetworkBlocked { pid, rule_name: name });
                self.blocked.insert(pid);
            },
            _ => {},
        }
        let ghost after_block = action_views(incident.actions_taken@);
        match snapshot {
            Some(snap) => {
                let mut paths: Vec<String> = Vec::new();
                let mut i: usize = 0;
                while i < incident.affected_paths.len()
                    invariant
                        i <= incident.affected_paths@.len(),
                        paths@.len() == i,
                        forall|j: int| 0 <= j < i ==> (#[trigger] paths@[j])@ == incident.affected_paths@[j]@,
                    decreases incident.affected_paths@.len() - i,
                {
                    paths.push(incident.affected_paths[i].clone());
                    i = i + 1;
                }
                assert(string_views(paths@) =~= string_views(incident.affected_paths@));
                incident.actions_taken.push(ResponseAction::RollbackStarted {
                    snapshot_id: snap.shadow_id.clone(),
                    target_paths: paths,
                });
                incident.snapshot_used = Some(snap);
            },
            None => {},
        }
        proof {
            assert(action_views(incident.actions_taken@) =~= base + old_self.critical_actions(
                incident,
                match killed {
                    Some(k) => Some(k@),
                    None => None,
                },
                match rule {
                    Some(s) => Some(s@),
                    None => None,
                },
                snapshot,
            ));
        }
        ReportRequest { incident, use_ollama: self.use_ollama }
    }
}

/// A dry run kills nothing, blocks nothing and requests no shadow copy, whatever the alert
/// or the incident: it only records what it would have killed.
pub proof fn lemma_dry_run_is_passive(r: Responder, inc: Incident, level: ThreatLevel, pid: Option<u32>, has_incident: bool)
    requires
        r.cfg.dry_run,
    ensures
        r.kill_target(inc) is None,
        r.block_target(inc) is None,
        !r.wants_snapshot(inc),
        match r.alert_plan(level, pid, has_incident) {
            AlertPlan::Contain { block, snapshot } => block is None && !snapshot,
            _ => true,
        },
        r.dry_run_target(inc) == inc.primary_pid,
{
}

/// A process is blocked once: once it has a rule, no alert and no incident plans another.
pub proof fn lemma_no_double_block(r: Responder, pid: u32, inc: Incident, level: ThreatLevel, has_incident: bool)
    requires
        r.blocked@.contains(pid),
        inc.primary_pid == Some(pid),
    ensures
        match r.alert_plan(level, Some(pid), has_incident) {
            AlertPlan::Contain { block, .. } => block is None,
            _ => true,
        },
        r.block_target(inc) is None,
{
}

/// The response to a critical incident records its actions in the order in which they are
/// taken: the kill (or what a dry run would have killed), then the block, then the rollback.
pub proof fn lemma_critical_action_order(
    r: Responder,
    inc: Incident,
    killed: Seq<u32>,
    rule: Seq<char>,
    snapshot: SnapshotInfo,
)
    requires
        !r.cfg.dry_run,
        r.cfg.kill_on_critical,
        r.cfg.block_network,
        r.cfg.auto_rollback,
        inc.primary_pid matches Some(p) && !r.blocked@.contains(p),
        inc.affected_paths@.len() > 0,
    ensures
        r.critical_actions(inc, Some(killed), Some(rule), Some(snapshot)) == seq![
            ActionView::ProcessTreeKilled { root_pid: inc.primary_pid.unwrap(), killed_pids: killed },
            ActionView::NetworkBlocked { pid: inc.primary_pid.unwrap(), rule_name: rule },
            ActionView::RollbackStarted {
                snapshot_id: snapshot.shadow_id@,
                target_paths: string_views(inc.affected_paths@),
            },
        ],
{
    assert(r.critical_actions(inc, Some(killed), Some(rule), Some(snapshot)) =~= seq![
        ActionView::ProcessTreeKilled { root_pid: inc.primary_pid.unwrap(), killed_pids: killed },
        ActionView::NetworkBlocked { pid: inc.primary_pid.unwrap(), rule_name: rule },
        ActionView::RollbackStarted {
            snapshot_id: snapshot.shadow_id@,
            target_paths: string_views(inc.affected_paths@),
        },
    ]);
}

/// Killing follows the configuration: with `kill_on_critical` off no process tree is
/// killed and no kill is recorded, whatever the incident and whatever the other steps
/// returned; with it on and responses live, the incident's process is the one killed.
pub proof fn lemma_kill_follows_config(
    r: Responder,
    inc: Incident,
    killed: Option<Seq<u32>>,
    rule: Option<Seq<char>>,
    snapshot: Option<SnapshotInfo>,
)
    ensures
        !r.cfg.kill_on_critical ==> r.kill_target(inc) is None,
        !r.cfg.kill_on_critical ==> forall|i: int|
            0 <= i < r.critical_actions(inc, killed, rule, snapshot).len() ==> !(#[trigger] r.critical_actions(
                inc,
                killed,
                rule,
                snapshot,
            )[i] is ProcessTreeKilled),
        r.cfg.kill_on_critical && !r.cfg.dry_run ==> r.kill_target(inc) == inc.primary_pid,
{
    if !r.cfg.kill_on_critical {
        let a = r.critical_actions(inc, killed, rule, snapshot);
        assert forall|i: int| 0 <= i < a.len() implies !(#[trigger] a[i] is ProcessTreeKilled) by {
            let dry = match r.dry_run_target(inc) {
                Some(p) => seq![ActionView::DryRun { would_have: dry_run_kill_text(p) }],
                None => Seq::empty(),
            };
            let block = match (r.block_target(inc), rule) {
                (Some(p), Some(rn)) => seq![ActionView::NetworkBlocked { pid: p, rule_name: rn }],
                _ => Seq::empty(),
            };
            let rollback = match snapshot {
                Some(sn) => if r.wants_snapshot(inc) {
                    seq![
                        ActionView::RollbackStarted {
                            snapshot_id: sn.shadow_id@,
                            target_paths: string_views(inc.affected_paths@),
                        },
                    ]
                } else {
                    Seq::empty()
                },
                None => Seq::empty(),
            };
            assert(a =~= dry + block + rollback);
            if i < dry.len() {
                assert(a[i] == dry[i]);
            } else if i < dry.len() + block.len() {
                assert(a[i] == block[i - dry.len()]);
            } else {
                assert(a[i] == rollback[i - dry.len() - block.len()]);
            }
        }
    }
}

} // verus!
