use aegisone_agent::events::types::SnapshotInfo;
use aegisone_agent::snapshot::rollback::{
    after_direct_copy, after_staged_copy, is_locked_error, manifest_file_name, shadow_path, staging_path,
    shadow_relative, staging_dir_name, FileRecord, FileStatus, IoErrorKind, IoFailure,
    RestoreStep, RollbackManifest,
};
use aegisone_agent::snapshot::vssadmin::{
    create_args, create_failure, delete_args, delete_failure, list_args, parse_create_output,
    parse_list_output, shadow_from_create_output, shadows_from_list_output,
};
use aegisone_agent::snapshot::{latest_shadow, retention_victims, sort_oldest_first};
use aegisone_agent::error::AgentError;

fn shadow(id: &str, at: i64) -> SnapshotInfo {
    SnapshotInfo {
        shadow_id: id.to_string(),
        volume: "C:".to_string(),
        device_path: format!("dev-{id}"),
        created_at: at,
        size_bytes: None,
    }
}

fn ids(v: &[SnapshotInfo]) -> Vec<String> {
    v.iter().map(|s| s.shadow_id.clone()).collect()
}

#[test]
fn sorting_is_stable_and_oldest_first() {
    let v = vec![shadow("c", 30), shadow("a", 10), shadow("b1", 20), shadow("b2", 20)];
    assert_eq!(ids(&sort_oldest_first(v)), vec!["a", "b1", "b2", "c"]);
}

#[test]
fn retention_deletes_the_oldest_excess() {
    let v = vec![shadow("d", 40), shadow("a", 10), shadow("c", 30), shadow("b", 20), shadow("e", 50)];
    assert_eq!(ids(&retention_victims(v.clone(), 3)), vec!["a", "b"]);
    assert!(retention_victims(v.clone(), 5).is_empty());
    assert!(retention_victims(v.clone(), 9).is_empty());
    assert_eq!(ids(&retention_victims(v, 0)), vec!["a", "b", "c", "d", "e"]);
}

#[test]
fn latest_is_last_listed() {
    assert_eq!(latest_shadow(vec![shadow("a", 5), shadow("b", 1)]).map(|s| s.shadow_id), Some("b".to_string()));
    assert_eq!(latest_shadow(Vec::new()), None);
}

#[test]
fn manifest_counts_outcomes() {
    let mut m = RollbackManifest::new(7, "{s}".to_string(), 100);
    let rec = |st: FileStatus| FileRecord { original: "/a".to_string(), shadow_src: "/s/a".to_string(), status: st };
    m.record(rec(FileStatus::Restored));
    m.record(rec(FileStatus::Failed { reason: "gone".to_string() }));
    m.record(rec(FileStatus::Staged { staging_path: "/tmp/a".to_string() }));
    m.complete(200);
    assert_eq!(m.files_restored, 2);
    assert_eq!(m.files_failed, 1);
    assert_eq!(m.files.len(), 3);
    assert_eq!(m.completed_at, Some(200));
    assert_eq!(m.started_at, 100);
}

#[test]
fn locked_files_are_staged() {
    let fail = |kind, code| IoFailure { kind, raw_os_error: code, message: "boom".to_string() };
    assert!(is_locked_error(&fail(IoErrorKind::PermissionDenied, None)));
    assert!(is_locked_error(&fail(IoErrorKind::WouldBlock, None)));
    assert!(is_locked_error(&fail(IoErrorKind::Other, Some(32))));
    assert!(!is_locked_error(&fail(IoErrorKind::Other, Some(2))));
    assert_eq!(after_direct_copy(Ok(())), RestoreStep::Finished(FileStatus::Restored));
    assert_eq!(after_direct_copy(Err(fail(IoErrorKind::Other, Some(32)))), RestoreStep::Stage);
    assert_eq!(
        after_direct_copy(Err(fail(IoErrorKind::Other, None))),
        RestoreStep::Finished(FileStatus::Failed { reason: "boom".to_string() })
    );
    assert_eq!(
        after_staged_copy(Ok(()), "/tmp/x".to_string()),
        FileStatus::Staged { staging_path: "/tmp/x".to_string() }
    );
    assert_eq!(
        after_staged_copy(Err(fail(IoErrorKind::Other, None)), "/tmp/x".to_string()),
        FileStatus::Failed { reason: "boom".to_string() }
    );
}

#[test]
fn shadow_paths() {
    assert_eq!(shadow_relative("C:\\Users\\Alice\\doc.txt", true), "Users\\Alice\\doc.txt");
    assert_eq!(shadow_relative("\\/\\x", true), "\\x");
    assert_eq!(shadow_relative("relative\\a", true), "relative\\a");
    assert_eq!(shadow_relative("/home/alice/doc.txt", false), "home/alice/doc.txt");
    assert_eq!(shadow_relative("rel/doc.txt", false), "rel/doc.txt");
    assert_eq!(shadow_path("/mnt/shadow", "/home/alice/doc.txt", false), "/mnt/shadow/home/alice/doc.txt");
    assert_eq!(staging_path("/tmp/stage", "/home/alice/doc.txt"), "/tmp/stage/doc.txt");
    assert_eq!(staging_path("/tmp/stage", "/home/alice/./doc.txt/"), "/tmp/stage/doc.txt");
}

#[test]
fn shadow_path_under_a_verbatim_device() {
    let device = "\\\\?\\GLOBALROOT\\Device\\HarddiskVolumeShadowCopy3";
    let p = shadow_path(device, "C:\\Users\\Alice\\doc.txt", true);
    assert!(
        p == format!("{device}\\Users\\Alice\\doc.txt") || p == format!("{device}/Users\\Alice\\doc.txt")
    );
}

#[test]
fn staging_path_of_a_windows_target() {
    let p = staging_path("C:\\Temp\\stage", "C:\\Users\\Alice\\doc.txt");
    assert!(
        p == "C:\\Temp\\stage\\doc.txt" || p == "C:\\Temp\\stage/C:\\Users\\Alice\\doc.txt",
        "{p}"
    );
}

#[test]
fn rollback_names() {
    assert_eq!(staging_dir_name(1), "aegisone-staging-00000000-0000-0000-0000-000000000001");
    assert_eq!(manifest_file_name(1), "rollback_manifest_00000000-0000-0000-0000-000000000001.json");
}

#[test]
fn vssadmin_commands() {
    assert_eq!(create_args("C:"), vec!["create", "shadow", "/for=C:"]);
    assert_eq!(list_args("C:"), vec!["list", "shadows", "/for=C:"]);
    assert_eq!(delete_args("{x}"), vec!["delete", "shadows", "/shadow={x}", "/quiet"]);
    assert_eq!(
        create_failure("out", "err"),
        AgentError::Vss("vssadmin create shadow failed.\nstdout: out\nstderr: err".to_string())
    );
    assert_eq!(delete_failure("nope"), AgentError::Vss("vssadmin delete failed: nope".to_string()));
}

#[test]
fn create_output_is_parsed() {
    let out = "vssadmin 1.1\r\nSuccessfully created shadow copy for 'C:\\'\r\n    Shadow Copy ID: {11111111-2222-3333-4444-555555555555}\r\n    Shadow Copy Volume Name: \\\\?\\GLOBALROOT\\Device\\HarddiskVolumeShadowCopy1\r\n";
    let s = shadow_from_create_output(out, "C:", 123).expect("an ID");
    assert_eq!(s.shadow_id, "{11111111-2222-3333-4444-555555555555}");
    assert_eq!(s.device_path, "\\\\?\\GLOBALROOT\\Device\\HarddiskVolumeShadowCopy1");
    assert_eq!(s.volume, "C:");
    assert_eq!(s.created_at, 123);
    assert!(parse_create_output(out, "C:").is_ok());
    assert_eq!(
        shadow_from_create_output("nothing here", "C:", 0),
        Err(AgentError::Vss("Could not parse shadow copy ID from vssadmin output".to_string()))
    );
}

#[test]
fn list_output_is_parsed() {
    let out = "Contents of shadow copy set ID: {aaa}\n   Shadow Copy ID: {s1}\n      Shadow Copy Volume Name: \\\\?\\GLOBALROOT\\Device\\HarddiskVolumeShadowCopy1\n   Shadow Copy ID: {s2}\n      Shadow Copy Volume Name: \\\\?\\GLOBALROOT\\Device\\HarddiskVolumeShadowCopy2\n";
    let v = shadows_from_list_output(out, "C:", 9);
    assert_eq!(ids(&v), vec!["{s1}", "{s2}"]);
    assert_eq!(v[1].device_path, "\\\\?\\GLOBALROOT\\Device\\HarddiskVolumeShadowCopy2");
    assert_eq!(v[0].created_at, 9);
    assert_eq!(parse_list_output(out, "C:").len(), 2);
}
