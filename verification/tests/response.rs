use aegisone_agent::config::ResponseConfig;
use aegisone_agent::events::types::{
    AlertMsg, Incident, ResponseAction, Score, ScoredEvent, SnapshotInfo, ThreatLevel, ThreatSignal,
};
use aegisone_agent::response::kill_switch::{kill_order, process_table};
use aegisone_agent::response::network_block::{
    block_failure, iptables_block_args, iptables_unblock_args, netsh_add_args, netsh_delete_args,
    rule_name, rule_pid_text,
};
use aegisone_agent::response::{AlertPlan, Responder};
use aegisone_agent::error::AgentError;

fn live() -> ResponseConfig {
    ResponseConfig { dry_run: false, kill_on_critical: true, block_network: true, auto_rollback: true }
}

fn event(level: ThreatLevel, pid: Option<u32>) -> ScoredEvent {
    ScoredEvent {
        id: 1,
        ts: 0,
        signal: ThreatSignal::SuspiciousRename { path: "/x".to_string(), pid },
        delta: 25,
        cumulative: Score(25),
        level,
    }
}

fn incident(pid: Option<u32>, paths: Vec<&str>) -> Incident {
    Incident {
        id: 5,
        started_at: 0,
        closed_at: 1000,
        peak_level: ThreatLevel::Critical,
        final_score: Score(90),
        events: Vec::new(),
        affected_paths: paths.into_iter().map(|p| p.to_string()).collect(),
        primary_pid: pid,
        process_info: None,
        actions_taken: Vec::new(),
        snapshot_used: None,
        report_path: None,
    }
}

fn snapshot() -> SnapshotInfo {
    SnapshotInfo {
        shadow_id: "{s1}".to_string(),
        volume: "C:".to_string(),
        device_path: "\\\\?\\GLOBALROOT\\Device\\HarddiskVolumeShadowCopy1".to_string(),
        created_at: 0,
        size_bytes: None,
    }
}

#[test]
fn alert_plans_by_level() {
    let r = Responder::new(live(), true);
    let plan = |level, pid, inc: Option<Incident>| r.plan_alert(&AlertMsg { event: event(level, pid), incident: inc });
    assert_eq!(plan(ThreatLevel::Nominal, Some(3), None), AlertPlan::Ignore);
    assert_eq!(plan(ThreatLevel::Elevated, Some(3), None), AlertPlan::Warn);
    assert_eq!(plan(ThreatLevel::High, Some(3), None), AlertPlan::Contain { block: Some(3), snapshot: true });
    assert_eq!(plan(ThreatLevel::High, None, None), AlertPlan::Contain { block: None, snapshot: true });
    assert_eq!(plan(ThreatLevel::Critical, Some(3), None), AlertPlan::MissingIncident);
    assert_eq!(plan(ThreatLevel::Critical, Some(3), Some(incident(Some(3), vec![]))), AlertPlan::RespondCritical);
}

#[test]
fn high_alert_snapshots_even_without_blocking() {
    let mut cfg = live();
    cfg.block_network = false;
    let r = Responder::new(cfg, false);
    let a = AlertMsg { event: event(ThreatLevel::High, Some(3)), incident: None };
    assert_eq!(r.plan_alert(&a), AlertPlan::Contain { block: None, snapshot: true });
}

#[test]
fn a_blocked_pid_is_not_blocked_again() {
    let mut r = Responder::new(live(), false);
    r.note_blocked(3);
    r.note_blocked(3);
    assert_eq!(r.blocked.len(), 1);
    assert!(r.has_blocked(3));
    assert!(!r.has_blocked(4));
    let a = AlertMsg { event: event(ThreatLevel::High, Some(3)), incident: None };
    assert_eq!(r.plan_alert(&a), AlertPlan::Contain { block: None, snapshot: true });
    assert_eq!(r.plan_critical(&incident(Some(3), vec![])).block, None);
}

#[test]
fn dry_run_only_records() {
    let mut cfg = live();
    cfg.dry_run = true;
    let mut r = Responder::new(cfg, false);
    let inc = incident(Some(42), vec!["/a"]);
    let plan = r.plan_critical(&inc);
    assert_eq!(plan.dry_run_kill, Some(42));
    assert_eq!(plan.kill, None);
    assert_eq!(plan.block, None);
    assert_eq!(plan.snapshot_volume, None);
    let a = AlertMsg { event: event(ThreatLevel::High, Some(3)), incident: None };
    assert_eq!(r.plan_alert(&a), AlertPlan::Contain { block: None, snapshot: false });
    let req = r.complete_critical(inc, None, None, None);
    assert_eq!(
        req.incident.actions_taken,
        vec![ResponseAction::DryRun { would_have: "kill process tree rooted at pid=42".to_string() }]
    );
    assert!(!req.use_ollama);
}

#[test]
fn critical_response_records_in_order() {
    let mut r = Responder::new(live(), true);
    let inc = incident(Some(42), vec!["/a", "/b"]);
    let plan = r.plan_critical(&inc);
    assert_eq!(plan.kill, Some(42));
    assert_eq!(plan.block, Some(42));
    assert_eq!(plan.snapshot_volume, Some("C:".to_string()));
    let req = r.complete_critical(inc, Some(vec![43, 42]), Some("aegisone-block-42".to_string()), Some(snapshot()));
    assert_eq!(
        req.incident.actions_taken,
        vec![
            ResponseAction::ProcessTreeKilled { root_pid: 42, killed_pids: vec![43, 42] },
            ResponseAction::NetworkBlocked { pid: 42, rule_name: "aegisone-block-42".to_string() },
            ResponseAction::RollbackStarted {
                snapshot_id: "{s1}".to_string(),
                target_paths: vec!["/a".to_string(), "/b".to_string()],
            },
        ]
    );
    assert_eq!(req.incident.snapshot_used, Some(snapshot()));
    assert!(req.use_ollama);
    assert_eq!(r.blocked.len(), 1);
    assert!(r.has_blocked(42));
}

#[test]
fn failed_steps_record_nothing() {
    let mut r = Responder::new(live(), false);
    let inc = incident(Some(42), vec![]);
    let plan = r.plan_critical(&inc);
    assert_eq!(plan.snapshot_volume, None);
    let req = r.complete_critical(inc, None, None, None);
    assert!(req.incident.actions_taken.is_empty());
    assert!(r.blocked.is_empty());
}

#[test]
fn no_primary_pid_kills_nothing() {
    let r = Responder::new(live(), false);
    let plan = r.plan_critical(&incident(None, vec!["/a"]));
    assert_eq!(plan.kill, None);
    assert_eq!(plan.block, None);
    assert_eq!(plan.dry_run_kill, None);
    assert!(plan.snapshot_volume.is_some());
}

#[test]
fn kill_order_is_children_first() {
    // 1 ─┬─ 2 ── 4
    //    └─ 3
    let procs = [(2, 1), (3, 1), (4, 2), (9, 8)];
    assert_eq!(kill_order(1, &procs), vec![4, 3, 2, 1]);
    assert_eq!(kill_order(2, &procs), vec![4, 2]);
    assert_eq!(kill_order(7, &procs), vec![7]);
}

#[test]
fn kill_order_survives_cycles() {
    let procs = [(0, 0), (5, 0), (0, 5)];
    assert_eq!(kill_order(0, &procs), vec![5, 0]);
}

#[test]
fn ps_table_is_parsed() {
    let out = "    1     0\n   10     1\r\n  11  10 \nPID PPID\n 12\n+13\t10\n\n";
    assert_eq!(process_table(out), vec![(1, 0), (10, 1), (11, 10), (13, 10)]);
    assert_eq!(process_table(""), vec![]);
}

#[test]
fn the_whole_tree_is_killed_from_the_ps_table() {
    // 10 ─┬─ 11 ── 20
    //     └─ 12
    let out = "1 0\n10 1\n11 10\n12 10\n20 11\n30 1\n";
    let procs = process_table(out);
    assert_eq!(kill_order(10, &procs), vec![20, 12, 11, 10]);
    assert_eq!(kill_order(10, &process_table("")), vec![10]);
}

#[test]
fn firewall_commands() {
    assert_eq!(rule_name(42), "aegisone-block-42");
    assert_eq!(rule_pid_text("aegisone-block-42"), "42");
    assert_eq!(rule_pid_text("aegisone-block-aegisone-block-7"), "7");
    assert_eq!(rule_pid_text("other"), "other");
    assert_eq!(
        iptables_block_args(42),
        vec!["-A", "OUTPUT", "-m", "owner", "--pid-owner", "42", "-j", "DROP"]
    );
    assert_eq!(
        iptables_unblock_args("aegisone-block-42"),
        vec!["-D", "OUTPUT", "-m", "owner", "--pid-owner", "42", "-j", "DROP"]
    );
    assert_eq!(
        netsh_add_args("aegisone-block-42", Some("C:\\bad.exe")),
        vec!["advfirewall", "firewall", "add", "rule", "name=aegisone-block-42", "dir=out", "action=block", "program=C:\\bad.exe"]
    );
    assert_eq!(netsh_add_args("r", None).len(), 7);
    assert_eq!(netsh_delete_args("r"), vec!["advfirewall", "firewall", "delete", "rule", "name=r"]);
    assert_eq!(
        block_failure(42, "iptables", "denied"),
        AgentError::NetworkBlock { pid: 42, reason: "iptables failed: denied".to_string() }
    );
}
