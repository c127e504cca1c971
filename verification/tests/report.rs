use aegisone_agent::events::types::{
    Incident, ProcessInfo, ResponseAction, Score, ScoredEvent, ThreatLevel, ThreatSignal,
};
use aegisone_agent::report::ollama::{
    action_description, build_prompt, compose_prompt, ollama_endpoint, reply_narrative,
    signal_description,
};
use aegisone_agent::report::render::{
    action_md, compose_report, narrative_section, render_report, render_report_at,
    report_file_name, signal_short,
};

fn sample_incident() -> Incident {
    Incident {
        id: 1,
        started_at: 1_700_000_000_000,
        closed_at: 1_700_000_005_000,
        peak_level: ThreatLevel::Critical,
        final_score: Score(90),
        events: vec![
            ScoredEvent {
                id: 7,
                ts: 1_700_000_001_000,
                signal: ThreatSignal::ExtensionChange {
                    path: "/home/a/doc.locked".to_string(),
                    old_ext: ".docx".to_string(),
                    new_ext: ".locked".to_string(),
                    pid: Some(42),
                },
                delta: 40,
                cumulative: Score(40),
                level: ThreatLevel::Elevated,
            },
            ScoredEvent {
                id: 8,
                ts: 1_700_000_002_000,
                signal: ThreatSignal::CanaryTouched {
                    canary_path: "/home/a/.aegis_canary_001".to_string(),
                    pid: Some(42),
                },
                delta: 50,
                cumulative: Score(90),
                level: ThreatLevel::Critical,
            },
        ],
        affected_paths: vec![
            "/home/a/doc.locked".to_string(),
            "/home/a/.aegis_canary_001".to_string(),
        ],
        primary_pid: Some(42),
        process_info: None,
        actions_taken: vec![ResponseAction::NetworkBlocked {
            pid: 42,
            rule_name: "aegisone-block-42".to_string(),
        }],
        snapshot_used: None,
        report_path: None,
    }
}

#[test]
fn signal_short_forms() {
    let e = ThreatSignal::HighEntropy { path: "/x".to_string(), entropy_millibits: 7234, pid: None };
    assert_eq!(signal_short(&e), "entropy 7.2 bits/byte");
    let b = ThreatSignal::BurstWrites { path: "/x".to_string(), writes_per_sec_milli: 52_400, pid: None };
    assert_eq!(signal_short(&b), "52 writes/sec");
    let r = ThreatSignal::ExtensionChange {
        path: "/x.locked".to_string(),
        old_ext: ".txt".to_string(),
        new_ext: ".locked".to_string(),
        pid: None,
    };
    assert_eq!(signal_short(&r), "renamed to .locked");
    let s = ThreatSignal::ShadowDeleteAttempt { command_line: "vssadmin delete".to_string(), pid: 3 };
    assert_eq!(signal_short(&s), "shadow delete attempt (T1490)");
}

#[test]
fn tenths_round_half_to_even() {
    let a = ThreatSignal::HighEntropy { path: "/x".to_string(), entropy_millibits: 7250, pid: None };
    assert_eq!(signal_short(&a), "entropy 7.2 bits/byte");
    let b = ThreatSignal::HighEntropy { path: "/x".to_string(), entropy_millibits: 7350, pid: None };
    assert_eq!(signal_short(&b), "entropy 7.4 bits/byte");
    let c = ThreatSignal::HighEntropy { path: "/x".to_string(), entropy_millibits: 7999, pid: None };
    assert_eq!(signal_short(&c), "entropy 8.0 bits/byte");
}

#[test]
fn action_bullets() {
    let k = ResponseAction::ProcessTreeKilled { root_pid: 42, killed_pids: vec![43, 42] };
    assert_eq!(action_md(&k), "- **Killed** process tree rooted at pid=42 (2 processes terminated)");
    let n = ResponseAction::NetworkBlocked { pid: 7, rule_name: "aegisone-block-7".to_string() };
    assert_eq!(action_md(&n), "- **Blocked** outbound network for pid=7 (rule: `aegisone-block-7`)");
    let s = ResponseAction::RollbackStarted {
        snapshot_id: "{abc}".to_string(),
        target_paths: vec!["a".to_string(), "b".to_string(), "c".to_string()],
    };
    assert_eq!(action_md(&s), "- **Rollback started** from snapshot `{abc}` (3 files)");
    let c = ResponseAction::RollbackCompleted { files_restored: 5, manifest_path: "/m.json".to_string() };
    assert_eq!(action_md(&c), "- **Rollback completed**: 5 files restored. Manifest: `/m.json`");
    let g = ResponseAction::ReportGenerated { path: "/r.md".to_string() };
    assert_eq!(action_md(&g), "- **Report generated**: `/r.md`");
    let d = ResponseAction::DryRun { would_have: "kill process tree rooted at pid=1".to_string() };
    assert_eq!(action_md(&d), "- **[DRY-RUN]** Would have: kill process tree rooted at pid=1");
}

#[test]
fn descriptions_for_the_model() {
    let e = ThreatSignal::HighEntropy { path: "/a/b.bin".to_string(), entropy_millibits: 7812, pid: Some(1) };
    assert_eq!(signal_description(&e), "High-entropy write (7.8 bits/byte) to /a/b.bin");
    let r = ThreatSignal::ExtensionChange {
        path: "/x".to_string(),
        old_ext: ".txt".to_string(),
        new_ext: ".locked".to_string(),
        pid: None,
    };
    assert_eq!(signal_description(&r), "File renamed .txt → .locked");
    let b = ThreatSignal::BurstWrites { path: "/x".to_string(), writes_per_sec_milli: 61_500, pid: None };
    assert_eq!(signal_description(&b), "Burst: 62 files/second");
    let k = ResponseAction::ProcessTreeKilled { root_pid: 9, killed_pids: vec![10, 11, 9] };
    assert_eq!(action_description(&k), "Killed process tree (root pid=9, 3 total)");
    let c = ResponseAction::RollbackCompleted { files_restored: 2, manifest_path: "/m".to_string() };
    assert_eq!(action_description(&c), "Rollback complete: 2 files restored");
}

#[test]
fn compose_report_fills_every_section() {
    let inc = sample_incident();
    let times = vec!["22:13:21".to_string(), "22:13:22".to_string()];
    let out = compose_report(
        &inc,
        "## AI Summary\n\nAll good.\n",
        "0.1.0",
        "{}",
        "2024-01-01 00:00:00 UTC",
        "2023-11-14 22:13:20 UTC",
        "2023-11-14 22:13:25 UTC",
        &times,
    );
    assert!(out.contains("| Incident ID | `00000000-0000-0000-0000-000000000001` |"));
    assert!(out.contains("| Generated | 2024-01-01 00:00:00 UTC |"));
    assert!(out.contains("| Agent version | 0.1.0 |"));
    assert!(out.contains("| Peak threat level | **CRITICAL** |"));
    assert!(out.contains("| Final score | 90 |"));
    assert!(out.contains("| Files affected | 2 |"));
    assert!(out.contains("| Primary process | pid=42 |"));
    assert!(out.contains(
        "| Time | Level | Delta | Signal |\n|------|-------|-------|--------|\n| 22:13:21 | ELEVATED | +40 pts | renamed to .locked |\n| 22:13:22 | CRITICAL | +50 pts | canary touched |"
    ));
    assert!(out.contains("- `/home/a/doc.locked`\n- `/home/a/.aegis_canary_001`"));
    assert!(out.contains("- **Blocked** outbound network for pid=42 (rule: `aegisone-block-42`)"));
    assert!(out.contains("## AI Summary\n\nAll good.\n"));
    assert!(out.contains("```json\n{}\n```"));
    assert!(!out.contains("{{"));
}

#[test]
fn compose_report_empty_sections() {
    let mut inc = sample_incident();
    inc.events = Vec::new();
    inc.affected_paths = Vec::new();
    inc.actions_taken = Vec::new();
    inc.primary_pid = None;
    let out = compose_report(&inc, "", "1", "{}", "g", "s", "c", &[]);
    assert!(out.contains("|------|-------|-------|--------|\n| — | — | — | — |"));
    assert!(out.contains("_No files recorded._"));
    assert!(out.contains("_No automated actions taken (dry-run or threshold not reached)._"));
    assert!(out.contains("| Primary process | Unknown |"));
}

#[test]
fn primary_process_prefers_process_info() {
    let mut inc = sample_incident();
    inc.process_info = Some(ProcessInfo {
        pid: 42,
        parent_pid: 1,
        name: "evil.exe".to_string(),
        exe_path: None,
    });
    let times = vec!["a".to_string(), "b".to_string()];
    let out = compose_report(&inc, "", "1", "{}", "g", "s", "c", &times);
    assert!(out.contains("| Primary process | evil.exe (pid=42) |"));
}

#[test]
fn render_report_at_formats_timestamps() {
    let inc = sample_incident();
    let out = render_report_at(&inc, "", "0.1.0", "{}", 0).expect("timestamps in range");
    assert!(out.contains("| Generated | 1970-01-01 00:00:00 UTC |"));
    assert!(out.contains("| Started | 2023-11-14 22:13:20 UTC |"));
    assert!(out.contains("| Closed | 2023-11-14 22:13:25 UTC |"));
    assert!(out.contains("| 22:13:21 | ELEVATED | +40 pts | renamed to .locked |"));
}

#[test]
fn render_report_reads_the_clock() {
    let inc = sample_incident();
    let out = render_report(&inc, "", "0.1.0", "{}").expect("timestamps in range");
    assert!(out.contains("| Started | 2023-11-14 22:13:20 UTC |"));
    assert!(!out.contains("| Generated | — |"));
}

#[test]
fn render_report_out_of_range_is_none() {
    let mut inc = sample_incident();
    inc.started_at = i64::MAX;
    assert!(render_report_at(&inc, "", "0.1.0", "{}", 0).is_none());
}

#[test]
fn prompt_lists_signals_and_actions() {
    let inc = sample_incident();
    let p = build_prompt(&inc).expect("start time in range");
    assert!(p.starts_with("You are AegisOne, an AI security agent."));
    assert!(p.contains(
        "Incident data:\n- Started: 2023-11-14 22:13:20 UTC\n- Threat level: CRITICAL\n- Score: 90 points\n- Affected files: 2\n\nDetection signals:\n  - File renamed .docx → .locked (+40 pts)\n  - Canary file touched: /home/a/.aegis_canary_001 (+50 pts)\n\nActions taken:\n  - Blocked outbound network for pid=42 (aegisone-block-42)\n\nWrite the summary now (plain text, no markdown, 3-5 sentences):"
    ));
    let q = compose_prompt(&inc, "START");
    assert!(q.contains("- Started: START\n"));
}

#[test]
fn narrative_and_file_names() {
    assert_eq!(narrative_section("All good."), "## AI Summary\n\nAll good.\n");
    assert_eq!(report_file_name(1), "incident_00000000-0000-0000-0000-000000000001.md");
    assert_eq!(
        report_file_name(0x0123_4567_89ab_cdef_0123_4567_89ab_cdef),
        "incident_01234567-89ab-cdef-0123-456789abcdef.md"
    );
    assert_eq!(ollama_endpoint("http://localhost:11434/"), "http://localhost:11434/api/generate");
    assert_eq!(ollama_endpoint("http://localhost:11434//"), "http://localhost:11434/api/generate");
    assert_eq!(ollama_endpoint("http://h"), "http://h/api/generate");
    assert_eq!(reply_narrative("  Your files are safe.\n"), "Your files are safe.");
}

#[test]
fn the_latest_instant_still_has_a_text() {
    let inc = sample_incident();
    let last = aegisone_agent::clock::LATEST_INSTANT_MS;
    let out = render_report_at(&inc, "", "0.1.0", "{}", last).expect("latest instant in range");
    assert!(out.contains("| Generated | +262142-12-31 23:59:59 UTC |"));
    assert!(render_report_at(&inc, "", "0.1.0", "{}", last + 1).is_none());
}
