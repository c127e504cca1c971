use std::sync::atomic::AtomicU64;

use aegisone_agent::config::ScoringConfig;
use aegisone_agent::detection::scorer::{build_incident, entropy_alert, PathFacts, ScoreWindow, Scorer};
use aegisone_agent::events::types::{FsEventKind, RawFsEvent, Score, ThreatLevel, ThreatSignal};

const SEC: u64 = 1_000_000_000;

fn ev(path: &str, kind: FsEventKind, pid: Option<u32>) -> RawFsEvent {
    RawFsEvent { id: 0, ts: 1_000, path: path.to_string(), kind, pid }
}

fn facts(ext: Option<&str>, from: Option<&str>, name: Option<&str>, parent: Option<&str>) -> PathFacts {
    PathFacts {
        extension: ext.map(|s| s.to_string()),
        from_extension: from.map(|s| s.to_string()),
        file_name: name.map(|s| s.to_string()),
        parent: parent.map(|s| s.to_string()),
    }
}

#[test]
fn canary_touch_scores_fifty_and_elevates() {
    let mut s = Scorer::new(ScoringConfig::default(), vec!["/h/.aegis_canary_001".to_string()]);
    let seq = AtomicU64::new(1);
    let e = ev("/h/.aegis_canary_001", FsEventKind::Modified, Some(9));
    let out = s.process_event_with_facts(&e, &facts(None, None, Some(".aegis_canary_001"), Some("/h")), 5 * SEC, 10_000, &seq);
    let alert = out.alert.expect("a canary touch at 50 points is High");
    assert_eq!(alert.event.delta, 50);
    assert_eq!(alert.event.cumulative, Score(50));
    assert_eq!(alert.event.level, ThreatLevel::High);
    assert!(matches!(alert.event.signal, ThreatSignal::CanaryTouched { pid: Some(9), .. }));
    assert!(alert.incident.is_none());
    assert!(!out.check_entropy);
}

#[test]
fn two_canary_touches_make_an_incident() {
    let mut s = Scorer::new(ScoringConfig::default(), vec!["/h/c1".to_string()]);
    let seq = AtomicU64::new(1);
    let e = ev("/h/c1", FsEventKind::Modified, Some(9));
    let f = facts(None, None, Some("c1"), Some("/h"));
    let _ = s.process_event_with_facts(&e, &f, 5 * SEC, 10_000, &seq);
    let out = s.process_event_with_facts(&e, &f, 7 * SEC, 12_000, &seq);
    let alert = out.alert.expect("100 points is Critical");
    assert_eq!(alert.event.level, ThreatLevel::Critical);
    let inc = alert.incident.expect("Critical carries an incident");
    assert_eq!(inc.final_score, Score(100));
    assert_eq!(inc.peak_level, ThreatLevel::Critical);
    assert_eq!(inc.events.len(), 2);
    assert_eq!(inc.affected_paths, vec!["/h/c1".to_string(), "/h/c1".to_string()]);
    assert_eq!(inc.primary_pid, Some(9));
    assert_eq!(inc.closed_at, 12_000);
    assert_eq!(inc.started_at, 10_000);
    assert!(inc.actions_taken.is_empty());
}

#[test]
fn ransomware_rename_scores_forty() {
    let mut s = Scorer::new(ScoringConfig::default(), Vec::new());
    let seq = AtomicU64::new(1);
    let e = ev("/d/report.locked", FsEventKind::Renamed { from: "/d/report.docx".to_string() }, Some(3));
    let out = s.process_event_with_facts(&e, &facts(Some("LOCKED"), Some("docx"), Some("report.locked"), Some("/d")), SEC, 0, &seq);
    let alert = out.alert.expect("40 points is Elevated");
    assert_eq!(alert.event.delta, 40);
    assert_eq!(alert.event.level, ThreatLevel::Elevated);
    match alert.event.signal {
        ThreatSignal::ExtensionChange { old_ext, new_ext, .. } => {
            assert_eq!(old_ext, ".docx");
            assert_eq!(new_ext, ".locked");
        }
        _ => panic!("expected an extension change"),
    }
}

#[test]
fn random_rename_scores_twenty_five() {
    let mut s = Scorer::new(ScoringConfig::default(), Vec::new());
    let seq = AtomicU64::new(1);
    let e = ev("/d/a.x7k2m1", FsEventKind::Renamed { from: "/d/a.txt".to_string() }, None);
    let out = s.process_event_with_facts(&e, &facts(Some("x7k2m1"), Some("txt"), Some("a.x7k2m1"), Some("/d")), SEC, 0, &seq);
    let alert = out.alert.expect("25 points is Elevated");
    assert_eq!(alert.event.delta, 25);
    assert!(matches!(alert.event.signal, ThreatSignal::SuspiciousRename { pid: None, .. }));
}

#[test]
fn ransom_note_scores_fifty() {
    let mut s = Scorer::new(ScoringConfig::default(), Vec::new());
    let seq = AtomicU64::new(1);
    let e = ev("/d/HOW_TO_DECRYPT.txt", FsEventKind::Created, Some(4));
    let out = s.process_event_with_facts(&e, &facts(Some("txt"), None, Some("HOW_TO_DECRYPT.txt"), Some("/d")), SEC, 0, &seq);
    let alert = out.alert.expect("50 points");
    assert_eq!(alert.event.delta, 50);
    assert!(!out.check_entropy);
}

#[test]
fn first_write_counts_as_a_burst() {
    // One write measured over the minimum interval of a millisecond is 1000 files a second.
    let mut s = Scorer::new(ScoringConfig::default(), Vec::new());
    let seq = AtomicU64::new(1);
    let e = ev("/d/notes.txt", FsEventKind::Modified, Some(5));
    let out = s.process_event_with_facts(&e, &facts(Some("txt"), None, Some("notes.txt"), Some("/d")), 100 * SEC, 0, &seq);
    let alert = out.alert.expect("scored as a burst");
    assert_eq!(alert.event.delta, 25);
    match alert.event.signal {
        ThreatSignal::BurstWrites { writes_per_sec_milli, .. } => assert_eq!(writes_per_sec_milli, 1_000_000),
        _ => panic!("expected a burst"),
    }
    assert!(out.check_entropy);
}

#[test]
fn slow_writes_are_not_a_burst() {
    let mut s = Scorer::new(ScoringConfig::default(), Vec::new());
    let seq = AtomicU64::new(1);
    let e = ev("/d/notes.txt", FsEventKind::Modified, Some(5));
    let f = facts(Some("txt"), None, Some("notes.txt"), Some("/d"));
    let _ = s.process_event_with_facts(&e, &f, 100 * SEC, 0, &seq);
    // A second write 0.9 s later: 2 writes in 0.9 s is about 2.2 files a second.
    let out = s.process_event_with_facts(&e, &f, 100 * SEC + 900_000_000, 0, &seq);
    assert!(out.alert.is_none());
    assert!(out.check_entropy);
}

#[test]
fn burst_of_writes_is_scored() {
    let mut s = Scorer::new(ScoringConfig::default(), Vec::new());
    let seq = AtomicU64::new(1);
    let mut last = None;
    // 60 writes within a millisecond: at least 50 files a second.
    for i in 0..60u64 {
        let e = ev("/d/f.bin", FsEventKind::Created, Some(6));
        let out = s.process_event_with_facts(&e, &facts(Some("bin"), None, Some("f.bin"), Some("/d")), 10 * SEC + i, 0, &seq);
        if out.alert.is_some() {
            last = out.alert;
        }
    }
    let alert = last.expect("a burst raises alerts");
    assert!(matches!(alert.event.signal, ThreatSignal::BurstWrites { .. }));
}

#[test]
fn deleted_file_is_ignored() {
    let mut s = Scorer::new(ScoringConfig::default(), Vec::new());
    let seq = AtomicU64::new(1);
    let e = ev("/d/x.txt", FsEventKind::Deleted, Some(5));
    let out = s.process_event_with_facts(&e, &facts(Some("txt"), None, Some("x.txt"), Some("/d")), SEC, 0, &seq);
    assert!(out.alert.is_none());
    assert!(!out.check_entropy);
}

#[test]
fn gc_drops_quiet_expired_windows_and_halves_loud_ones() {
    let mut cfg = ScoringConfig::default();
    cfg.elevated_threshold = 30;
    let mut s = Scorer::new(cfg, vec!["/c".to_string()]);
    let seq = AtomicU64::new(1);
    let quiet = ev("/d/a.x7k2m1", FsEventKind::Renamed { from: "/d/a".to_string() }, Some(1));
    let _ = s.process_event_with_facts(&quiet, &facts(Some("x7k2m1"), None, Some("a.x7k2m1"), Some("/d")), 0, 0, &seq);
    let loud = ev("/c", FsEventKind::Modified, Some(2));
    let _ = s.process_event_with_facts(&loud, &facts(None, None, Some("c"), Some("/")), 0, 0, &seq);
    s.gc_windows(31 * SEC);
    assert!(s.windows.get(&1).is_none());
    let w = s.windows.get(&2).expect("a window at 50 points is kept");
    assert_eq!(w.score, Score(25));
    assert!(w.events.is_empty());
    assert_eq!(w.peak_level, ThreatLevel::High);
}

#[test]
fn gc_keeps_fresh_windows() {
    let mut s = Scorer::new(ScoringConfig::default(), vec!["/c".to_string()]);
    let seq = AtomicU64::new(1);
    let loud = ev("/c", FsEventKind::Modified, Some(2));
    let _ = s.process_event_with_facts(&loud, &facts(None, None, Some("c"), Some("/")), 0, 0, &seq);
    s.gc_windows(29 * SEC);
    assert_eq!(s.windows.get(&2).expect("fresh").score, Score(50));
}

#[test]
fn entropy_points_and_levels() {
    let cfg = ScoringConfig::default();
    let seq = AtomicU64::new(1);
    assert!(entropy_alert(&cfg, "/a".to_string(), 1, 6499, 0, &seq).is_none());
    let med = entropy_alert(&cfg, "/a".to_string(), 1, 6500, 0, &seq).expect("medium");
    assert_eq!(med.event.delta, 10);
    assert_eq!(med.event.level, ThreatLevel::Nominal);
    let high = entropy_alert(&cfg, "/a".to_string(), 1, 7900, 0, &seq).expect("high");
    assert_eq!(high.event.delta, 20);
    assert_eq!(high.event.cumulative, Score(20));
    assert!(high.incident.is_none());
}

#[test]
fn incident_ids_are_version_four() {
    let w = ScoreWindow::new(0, 0);
    let inc = build_incident(&w, 3 * SEC, 100_000);
    assert_eq!((inc.id >> 76) & 0xf, 4);
    assert_eq!((inc.id >> 62) & 0x3, 2);
    assert_eq!(inc.primary_pid, None);
    assert_eq!(inc.started_at, 97_000);
}

#[test]
fn levels_follow_thresholds() {
    assert_eq!(ThreatLevel::from_score(Score(24), 25, 50, 80), ThreatLevel::Nominal);
    assert_eq!(ThreatLevel::from_score(Score(25), 25, 50, 80), ThreatLevel::Elevated);
    assert_eq!(ThreatLevel::from_score(Score(50), 25, 50, 80), ThreatLevel::High);
    assert_eq!(ThreatLevel::from_score(Score(80), 25, 50, 80), ThreatLevel::Critical);
    assert!(ThreatLevel::Critical.above(ThreatLevel::High));
    assert!(!ThreatLevel::Nominal.above(ThreatLevel::Nominal));
    assert_eq!(ThreatLevel::High.name(), "HIGH");
}

#[test]
fn path_facts_of_a_rename() {
    let e = ev("/d/report.LOCKED", FsEventKind::Renamed { from: "/d/report.docx".to_string() }, Some(3));
    let f = PathFacts::of(&e);
    assert_eq!(f.extension.as_deref(), Some("LOCKED"));
    assert_eq!(f.from_extension.as_deref(), Some("docx"));
    assert_eq!(f.file_name.as_deref(), Some("report.LOCKED"));
    assert_eq!(f.parent.as_deref(), Some("/d"));
    let plain = PathFacts::of(&ev("notes", FsEventKind::Modified, None));
    assert_eq!(plain.extension, None);
    assert_eq!(plain.from_extension, None);
    assert_eq!(plain.parent.as_deref(), Some(""));
}

#[test]
fn path_facts_of_a_windows_path() {
    let e = ev(
        "C:\\Users\\bob\\report.LOCKED",
        FsEventKind::Renamed { from: "C:\\Users\\bob\\report.docx".to_string() },
        Some(3),
    );
    let f = PathFacts::of(&e);
    assert_eq!(f.extension.as_deref(), Some("LOCKED"));
    assert_eq!(f.from_extension.as_deref(), Some("docx"));
    let name = f.file_name.as_deref();
    assert!(name == Some("report.LOCKED") || name == Some("C:\\Users\\bob\\report.LOCKED"));
    let parent = f.parent.as_deref();
    assert!(parent == Some("C:\\Users\\bob") || parent == Some(""));
}
