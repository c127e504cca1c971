use aegisone_agent::config::{
    CanaryConfig, Config, LogConfig, ReportConfig, ResponseConfig, ScoringConfig, SnapshotConfig,
    WatchConfig,
};
use aegisone_agent::detection::canary::{draw_sentinel, expand_env, sentinel_intact, CanaryManager};
use aegisone_agent::detection::watcher::{
    raw_events, should_skip, should_skip_ext, skip_list, translate_kind, NotifyKind,
};
use aegisone_agent::error::AgentError;
use aegisone_agent::events::types::{ControlMsg, FsEventKind, SnapshotInfo};
use aegisone_agent::supervisor::{apply_overrides, find_shadow, supervise, Supervision};
use std::sync::atomic::AtomicU64;

fn config() -> Config {
    Config {
        watch: WatchConfig::with_paths(vec!["/home/a/Documents".to_string()]),
        scoring: ScoringConfig::default(),
        canary: CanaryConfig::with_paths(vec!["/home/a/Documents/.aegis_canary_001".to_string()]),
        response: ResponseConfig::default(),
        snapshot: SnapshotConfig::default(),
        report: ReportConfig::with_output_dir("/home/a/.aegisone/reports".to_string()),
        log: LogConfig::default(),
    }
}

#[test]
fn default_config_is_valid() {
    assert_eq!(config().validate(), Ok(()));
}

#[test]
fn thresholds_must_increase() {
    let mut c = config();
    c.scoring.elevated_threshold = 50;
    assert_eq!(
        c.validate(),
        Err(AgentError::ConfigInvalid("elevated_threshold must be < high_threshold".to_string()))
    );
    let mut d = config();
    d.scoring.high_threshold = 80;
    assert_eq!(
        d.validate(),
        Err(AgentError::ConfigInvalid("high_threshold must be < critical_threshold".to_string()))
    );
}

#[test]
fn defaults_match_the_documented_values() {
    let s = ScoringConfig::default();
    assert_eq!((s.elevated_threshold, s.high_threshold, s.critical_threshold), (25, 50, 80));
    assert_eq!(s.window_secs, 30);
    let r = ResponseConfig::default();
    assert!(!r.dry_run && r.kill_on_critical && r.block_network && r.auto_rollback);
    let sn = SnapshotConfig::default();
    assert_eq!(sn.volume, "C:");
    assert_eq!(sn.max_retained, 3);
    let w = WatchConfig::with_paths(Vec::new());
    assert!(w.skip_extensions.contains(&".mp4".to_string()));
    assert_eq!(w.entropy_max_file_bytes, 50 * 1024 * 1024);
}

#[test]
fn overrides_apply() {
    let c = apply_overrides(config(), true, vec!["/extra".to_string()]);
    assert!(c.response.dry_run);
    assert_eq!(c.watch.paths, vec!["/home/a/Documents".to_string(), "/extra".to_string()]);
    let d = apply_overrides(config(), false, Vec::new());
    assert!(!d.response.dry_run);
    assert_eq!(d.watch.paths, vec!["/home/a/Documents".to_string()]);
}

#[test]
fn supervisor_stops_on_shutdown_only() {
    assert_eq!(supervise(&ControlMsg::Shutdown { reason: "bye".to_string() }), Supervision::Stop);
    assert_eq!(
        supervise(&ControlMsg::SubsystemError { subsystem: "report".to_string(), error: "x".to_string() }),
        Supervision::Continue
    );
    assert_eq!(supervise(&ControlMsg::HealthPing), Supervision::Continue);
}

#[test]
fn shadow_lookup_finds_the_first_match() {
    let s = |id: &str| SnapshotInfo {
        shadow_id: id.to_string(),
        volume: "C:".to_string(),
        device_path: String::new(),
        created_at: 0,
        size_bytes: None,
    };
    let v = vec![s("{a}"), s("{b}"), s("{b}")];
    assert_eq!(find_shadow(&v, "{b}"), Some(1));
    assert_eq!(find_shadow(&v, "{c}"), None);
}

#[test]
fn canaries_are_recorded_once_per_path() {
    let mut m = CanaryManager::new(CanaryConfig::with_paths(Vec::new()));
    m.record("/a".to_string(), [1u8; 32]);
    m.record("/b".to_string(), [2u8; 32]);
    m.record("/a".to_string(), [3u8; 32]);
    assert_eq!(m.paths(), vec!["/a".to_string(), "/b".to_string()]);
    assert!(m.is_canary("/a"));
    assert!(!m.is_canary("/c"));
    assert_eq!(m.sentinels[0].1, [3u8; 32]);
}

#[test]
fn drawn_sentinel_is_recorded() {
    let mut m = CanaryManager::new(CanaryConfig::with_paths(Vec::new()));
    let s = draw_sentinel();
    assert_ne!(s, draw_sentinel());
    m.record("/a".to_string(), s);
    assert!(m.is_canary("/a"));
    assert_eq!(m.sentinels[0].1, s);
}

#[test]
fn tampered_canaries_are_reported() {
    let mut m = CanaryManager::new(CanaryConfig::with_paths(Vec::new()));
    m.record("/a".to_string(), [1u8; 32]);
    m.record("/b".to_string(), [2u8; 32]);
    m.record("/c".to_string(), [3u8; 32]);
    let contents = vec![Some(vec![1u8; 32]), Some(vec![9u8; 32]), None];
    assert_eq!(m.tampered(&contents), vec!["/b".to_string(), "/c".to_string()]);
    let intact = vec![Some(vec![1u8; 32]), Some(vec![2u8; 32]), Some(vec![3u8; 32])];
    assert!(m.tampered(&intact).is_empty());
    assert!(sentinel_intact(&[7u8; 32], &[7u8; 32]));
    assert!(!sentinel_intact(&[7u8; 31], &[7u8; 32]));
}

#[test]
fn environment_references_expand() {
    let vars = vec![("USERPROFILE".to_string(), "C:\\Users\\a".to_string()), ("HOME".to_string(), "/home/a".to_string())];
    assert_eq!(expand_env("%USERPROFILE%\\Documents", &vars), "C:\\Users\\a\\Documents");
    assert_eq!(expand_env("${HOME}/Desktop", &vars), "/home/a/Desktop");
    assert_eq!(expand_env("%NOPE%/x", &vars), "%NOPE%/x");
}

#[test]
fn skipped_extensions() {
    let skip = skip_list(&vec![".MP4".to_string(), ".zip".to_string()]);
    assert_eq!(skip, vec![".mp4".to_string(), ".zip".to_string()]);
    assert!(should_skip_ext(Some("Mp4"), &skip));
    assert!(!should_skip_ext(Some("docx"), &skip));
    assert!(!should_skip_ext(None, &skip));
    assert!(should_skip("/videos/clip.MP4", &skip));
    assert!(!should_skip("/docs/report", &skip));
}

#[test]
fn notification_kinds() {
    let paths = vec!["/old".to_string(), "/new".to_string()];
    assert_eq!(translate_kind(NotifyKind::Create, &paths), FsEventKind::Created);
    assert_eq!(translate_kind(NotifyKind::Remove, &paths), FsEventKind::Deleted);
    assert_eq!(translate_kind(NotifyKind::Other, &paths), FsEventKind::Modified);
    assert_eq!(translate_kind(NotifyKind::RenameBoth, &paths), FsEventKind::Renamed { from: "/old".to_string() });
    assert_eq!(translate_kind(NotifyKind::RenameTo, &Vec::new()), FsEventKind::Renamed { from: String::new() });
}

#[test]
fn raw_events_skip_filtered_paths() {
    let seq = AtomicU64::new(10);
    let skip = vec![".mp4".to_string()];
    let paths = vec!["/a/x.mp4".to_string(), "/a/y.docx".to_string(), "/a/z.txt".to_string()];
    let evs = raw_events(NotifyKind::Other, &paths, &skip, &seq);
    assert_eq!(evs.len(), 2);
    assert_eq!(evs[0].path, "/a/y.docx");
    assert_eq!(evs[1].path, "/a/z.txt");
    assert_eq!(evs[0].id, 10);
    assert_eq!(evs[1].id, 11);
    assert_eq!(evs[0].kind, FsEventKind::Modified);
    assert!(evs[0].pid.is_none());
}

#[test]
fn raw_events_skip_by_extension_ignoring_case() {
    let seq = AtomicU64::new(0);
    let skip = skip_list(&vec![".TMP".to_string(), ".log".to_string()]);
    let paths = vec![
        "/d/a.tmp".to_string(),
        "/d/b.LOG".to_string(),
        "/d/c".to_string(),
        "/d/.hidden".to_string(),
        "/d/e.tmp.docx".to_string(),
    ];
    let evs = raw_events(NotifyKind::Create, &paths, &skip, &seq);
    let got: Vec<&str> = evs.iter().map(|e| e.path.as_str()).collect();
    assert_eq!(got, vec!["/d/c", "/d/.hidden", "/d/e.tmp.docx"]);
    assert!(evs.iter().all(|e| e.kind == FsEventKind::Created));
    assert_eq!(raw_events(NotifyKind::Create, &Vec::new(), &skip, &seq).len(), 0);
}

#[test]
fn tampered_canaries_are_each_reported_once() {
    let mut m = CanaryManager::new(CanaryConfig::with_paths(Vec::new()));
    m.record("/a".to_string(), [1u8; 32]);
    m.record("/b".to_string(), [2u8; 32]);
    m.record("/a".to_string(), [4u8; 32]);
    assert_eq!(m.sentinels.len(), 2);
    let contents = vec![None, Some(vec![0u8; 3])];
    assert_eq!(m.tampered(&contents), vec!["/a".to_string(), "/b".to_string()]);
    let intact = vec![Some(vec![4u8; 32]), Some(vec![2u8; 32])];
    assert!(m.tampered(&intact).is_empty());
}

#[test]
fn raw_events_skip_windows_paths_by_extension() {
    let seq = AtomicU64::new(0);
    let skip = skip_list(&vec![".MP4".to_string()]);
    let paths = vec![
        "C:\\Users\\a\\clip.mp4".to_string(),
        "C:\\Users\\a\\report.docx".to_string(),
        "D:\\data\\movie.Mp4".to_string(),
    ];
    let evs = raw_events(NotifyKind::Other, &paths, &skip, &seq);
    let got: Vec<&str> = evs.iter().map(|e| e.path.as_str()).collect();
    assert_eq!(got, vec!["C:\\Users\\a\\report.docx"]);
}
