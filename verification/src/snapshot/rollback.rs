//! Rollback bookkeeping: where a file lies in a shadow copy, what each restore attempt
//! decides, and the manifest that counts the outcomes. Copying the files is the application's.

use vstd::prelude::*;
use crate::num::{uuid_string, uuid_text};
use crate::paths::{
    final_name, join_base_ok, join_ok, joined, lemma_tail_name, path_file_name, path_join, plain_path,
    portable_path, rel_ok, tail_name, verbatim_join_ok,
};
use crate::text::{chars_of, push_str, slice_range, string_of, trim_start_char, trim_start_char_spec};

verus! {

/// How a file came back.
#[derive(Debug, Clone, PartialEq, Eq)]
pub enum FileStatus {
    Restored,
    Failed { reason: String },
    Staged { staging_path: String },
}

/// The outcome of restoring one file.
#[derive(Debug, Clone, PartialEq, Eq)]
pub struct FileRecord {
    pub original: String,
    pub shadow_src: String,
    pub status: FileStatus,
}

/// The number of records of files that came back, in place or staged.
pub open spec fn restored_count(files: Seq<FileRecord>) -> nat
    decreases files.len(),
{
    if files.len() == 0 {
        0
    } else {
        restored_count(files.drop_last()) + if files.last().status is Failed {
            0nat
        } else {
            1nat
        }
    }
}

/// The number of records of files that did not come back.
pub open spec fn failed_count(files: Seq<FileRecord>) -> nat
    decreases files.len(),
{
    if files.len() == 0 {
        0
    } else {
        failed_count(files.drop_last()) + if files.last().status is Failed {
            1nat
        } else {
            0nat
        }
    }
}

/// The audit record of a rollback.
#[derive(Debug, Clone, PartialEq, Eq)]
pub struct RollbackManifest {
    pub incident_id: u128,
    pub shadow_id: String,
    /// Milliseconds since the epoch.
    pub started_at: i64,
    pub completed_at: Option<i64>,
    pub files: Vec<FileRecord>,
    pub files_restored: usize,
    pub files_failed: usize,
}

impl RollbackManifest {
    /// The counts agree with the records.
    pub open spec fn well_formed(&self) -> bool {
        &&& self.files_restored == restored_count(self.files@)
        &&& self.files_failed == failed_count(self.files@)
    }

    /// An empty manifest of the rollback of incident `incident_id` from `shadow_id`.
    pub fn new(incident_id: u128, shadow_id: String, started_at: i64) -> (r: Self)
        ensures
            r.well_formed(),
            r.incident_id == incident_id,
            r.shadow_id == shadow_id,
            r.started_at == started_at,
            r.completed_at is None,
            r.files@.len() == 0,
    {
        RollbackManifest {
            incident_id,
            shadow_id,
            started_at,
            completed_at: None,
            files: Vec::new(),
            files_restored: 0,
            files_failed: 0,
        }
    }

    /// Add the record of one file and count it: staged files count as restored.
    pub fn record(&mut self, rec: FileRecord)
        requires
            old(self).well_formed(),
            old(self).files@.len() < usize::MAX,
        ensures
            final(self).well_formed(),
            final(self).files@ == old(self).files@.push(rec),
            final(self).files_restored == old(self).files_restored + if rec.status is Failed {
                0int
            } else {
                1int
            },
            final(self).files_failed == old(self).files_failed + if rec.status is Failed {
                1int
            } else {
                0int
            },
            final(self).incident_id == old(self).incident_id,
            final(self).shadow_id == old(self).shadow_id,
            final(self).started_at == old(self).started_at,
            final(self).completed_at == old(self).completed_at,
    {
        proof {
            lemma_counts_cover(self.files@);
        }
        let failed = match &rec.status {
            FileStatus::Failed { .. } => true,
            _ => false,
        };
        let ghost before = self.files@;
        self.files.push(rec);
        assert(self.files@.drop_last() =~= before);
        if failed {
            self.files_failed = self.files_failed + 1;
        } else {
            self.files_restored = self.files_restored + 1;
        }
    }

    /// Stamp the manifest complete at `at`.
    pub fn complete(&mut self, at: i64)
        ensures
            final(self).completed_at == Some(at),
            final(self).files == old(self).files,
            final(self).files_restored == old(self).files_restored,
            final(self).files_failed == old(self).files_failed,
            final(self).incident_id == old(self).incident_id,
            final(self).shadow_id == old(self).shadow_id,
            final(self).started_at == old(self).started_at,
    {
        self.completed_at = Some(at);
    }
}

/// Every record counts once: as restored or as failed.
pub proof fn lemma_counts_cover(files: Seq<FileRecord>)
    ensures
        restored_count(files) + failed_count(files) == files.len(),
    decreases files.len(),
{
    if files.len() > 0 {
        lemma_counts_cover(files.drop_last());
    }
}

/// The kind of a failed file operation, as far as the rollback tells kinds apart.
#[derive(Debug, Clone, Copy, PartialEq, Eq, Structural)]
pub enum IoErrorKind {
    PermissionDenied,
    WouldBlock,
    Other,
}

/// A failed file operation: its kind, the operating system's code and its message.
#[derive(Debug, Clone, PartialEq, Eq)]
pub struct IoFailure {
    pub kind: IoErrorKind,
    pub raw_os_error: Option<i32>,
    pub message: String,
}

/// The Windows code of a sharing violation.
pub const ERROR_SHARING_VIOLATION: i32 = 32;

/// Whether the failure says that the file is in use: access denied, the operation would
/// block, or a sharing violation.
pub open spec fn locked_spec(e: IoFailure) -> bool {
    e.kind == IoErrorKind::PermissionDenied || e.kind == IoErrorKind::WouldBlock || e.raw_os_error
        == Some(ERROR_SHARING_VIOLATION)
}

/// Whether the failure says that the file is in use.
pub fn is_locked_error(e: &IoFailure) -> (r: bool)
    ensures
        r == locked_spec(*e),
{
    let code = match e.raw_os_error {
        Some(c) => c == ERROR_SHARING_VIOLATION,
        None => false,
    };
    match e.kind {
        IoErrorKind::PermissionDenied => true,
        IoErrorKind::WouldBlock => true,
        IoErrorKind::Other => code,
    }
}

/// What follows a copy straight over the live file.
#[derive(Debug, Clone, PartialEq, Eq)]
pub enum RestoreStep {
    /// The file is done with.
    Finished(FileStatus),
    /// The file is in use: copy it to the staging directory instead.
    Stage,
}

/// What follows a copy straight over the live file that ended in `result`.
pub fn after_direct_copy(result: Result<(), IoFailure>) -> (r: RestoreStep)
    ensures
        match result {
            Ok(_) => r == RestoreStep::Finished(FileStatus::Restored),
            Err(e) => if locked_spec(e) {
                r == RestoreStep::Stage
            } else {
                r == RestoreStep::Finished(FileStatus::Failed { reason: e.message })
            },
        },
{
    match result {
        Ok(_) => RestoreStep::Finished(FileStatus::Restored),
        Err(e) => if is_locked_error(&e) {
            RestoreStep::Stage
        } else {
            RestoreStep::Finished(FileStatus::Failed { reason: e.message })
        },
    }
}

/// The status of a file copied to `staging_path` with the outcome `result`.
pub fn after_staged_copy(result: Result<(), IoFailure>, staging_path: String) -> (r: FileStatus)
    ensures
        match result {
            Ok(_) => r == FileStatus::Staged { staging_path },
            Err(e) => r == FileStatus::Failed { reason: e.message },
        },
{
    match result {
        Ok(_) => FileStatus::Staged { staging_path },
        Err(e) => FileStatus::Failed { reason: e.message },
    }
}

/// The path below a shadow copy's root at which the live file `target` lies. With Windows
/// rules: without a drive (`X:`), then without leading `\` and then leading `/`. Otherwise:
/// without the leading `/`s of an absolute path.
pub open spec fn shadow_relative_spec(target: Seq<char>, windows: bool) -> Seq<char> {
    if windows {
        let t = if target.len() >= 2 && target[1] == ':' {
            if (target[0] as u32) < 0x80 {
                target.skip(2)
            } else {
                target.skip(1)
            }
        } else {
            target
        };
        trim_start_char_spec(trim_start_char_spec(t, '\\'), '/')
    } else {
        trim_start_char_spec(target, '/')
    }
}

/// The path below a shadow copy's root at which the live file `target` lies. The drive is
/// cut off by its byte length, so a drive letter outside ASCII cuts one character and one
/// of three or four bytes is not a character boundary: such targets are left out.
pub fn shadow_relative(target: &str, windows: bool) -> (r: String)
    requires
        !(windows && target@.len() >= 2 && target@[1] == ':' && (target@[0] as u32) >= 0x800),
    ensures
        r@ == shadow_relative_spec(target@, windows),
{
    let s = chars_of(target);
    if windows {
        let n = s.len();
        let t = if n >= 2 && s[1] == ':' {
            if (s[0] as u32) < 0x80 {
                slice_range(s.as_slice(), 2, n)
            } else {
                slice_range(s.as_slice(), 1, n)
            }
        } else {
            slice_range(s.as_slice(), 0, n)
        };
        proof {
            if n >= 2 && s@[1] == ':' {
                if (s@[0] as u32) < 0x80 {
                    assert(t@ =~= s@.skip(2));
                } else {
                    assert(t@ =~= s@.skip(1));
                }
            } else {
                assert(t@ =~= s@);
            }
        }
        let a = trim_start_char(t.as_slice(), '\\');
        let b = trim_start_char(a.as_slice(), '/');
        string_of(b.as_slice())
    } else {
        let b = trim_start_char(s.as_slice(), '/');
        string_of(b.as_slice())
    }
}

/// Where the live file `target` lies in the shadow copy mounted at `device_path`: the
/// relative path joined onto the device path by the platform's rules, which put one
/// separator between them wherever the two read the same on every platform, and also for
/// a verbatim device path (`\\?\GLOBALROOT\Device\...`, as vssadmin reports it) and a
/// relative path of plain components.
pub fn shadow_path(device_path: &str, target: &str, windows: bool) -> (r: String)
    requires
        !(windows && target@.len() >= 2 && target@[1] == ':' && (target@[0] as u32) >= 0x800),
    ensures
        join_ok(device_path@, shadow_relative_spec(target@, windows)) ==> joined(
            device_path@,
            shadow_relative_spec(target@, windows),
            r@,
        ),
        verbatim_join_ok(device_path@, shadow_relative_spec(target@, windows)) ==> joined(
            device_path@,
            shadow_relative_spec(target@, windows),
            r@,
        ),
{
    let rel = shadow_relative(target, windows);
    path_join(device_path, rel.as_str())
}

/// Where a file in use is staged: its file name in the staging directory. For a portable
/// target with a name, that name follows the directory after one separator wherever the
/// two read the same on every platform. For a plain target such as `C:\Users\a.txt` and
/// a directory that takes a relative path, the result is the directory joined with the
/// name as one of the platforms reads it: the text after the last separator, or the final
/// name with `/` as the only separator (which Windows would read as a path of its own
/// where it begins with a drive).
pub fn staging_path(staging_dir: &str, target: &str) -> (r: String)
    ensures
        portable_path(target@) ==> match final_name(target@) {
            Some(n) => join_ok(staging_dir@, n) ==> joined(staging_dir@, n, r@),
            None => true,
        },
        plain_path(target@) && join_base_ok(staging_dir@) ==> joined(
            staging_dir@,
            tail_name(target@),
            r@,
        ) || (final_name(target@) matches Some(u) && (rel_ok(u) ==> joined(staging_dir@, u, r@)
            || (u.len() >= 2 && u[1] == ':' && r@ == u))),
{
    let name = match path_file_name(target) {
        Some(n) => n,
        None => String::new(),
    };
    proof {
        lemma_tail_name(target@);
    }
    path_join(staging_dir, name.as_str())
}

/// The name of the staging directory of the rollback of incident `id`.
pub open spec fn staging_dir_name_text(id: u128) -> Seq<char> {
    "aegisone-staging-"@ + uuid_text(id)
}

/// The name of the staging directory of the rollback of incident `id`.
pub fn staging_dir_name(id: u128) -> (r: String)
    ensures
        r@ == staging_dir_name_text(id),
{
    let mut out: Vec<char> = Vec::new();
    push_str(&mut out, "aegisone-staging-");
    let u = uuid_string(id);
    push_str(&mut out, u.as_str());
    string_of(out.as_slice())
}

/// The file name of the manifest of the rollback of incident `id`.
pub open spec fn manifest_file_name_text(id: u128) -> Seq<char> {
    "rollback_manifest_"@ + uuid_text(id) + ".json"@
}

/// The file name of the manifest of the rollback of incident `id`.
pub fn manifest_file_name(id: u128) -> (r: String)
    ensures
        r@ == manifest_file_name_text(id),
{
    let mut out: Vec<char> = Vec::new();
    push_str(&mut out, "rollback_manifest_");
    let u = uuid_string(id);
    push_str(&mut out, u.as_str());
    push_str(&mut out, ".json");
    string_of(out.as_slice())
}

} // verus!
