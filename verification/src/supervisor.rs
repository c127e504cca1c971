//! The agent's top-level decisions: what the command line changes in the configuration,
//! what a control message does to the supervisor, and which shadow copy a command names.

use vstd::prelude::*;
use crate::config::Config;
use crate::detection::patterns::string_views;
use crate::events::types::{ControlMsg, SnapshotInfo};
use crate::text::same_str;

verus! {

/// What the supervisor does after a control message.
#[derive(Debug, Clone, Copy, PartialEq, Eq, Structural)]
pub enum Supervision {
    /// Stop the agent.
    Stop,
    /// Log the message and go on.
    Continue,
}

/// What the supervisor does after `msg`: a shutdown stops it; a subsystem error or a
/// health ping is logged, and the agent goes on.
pub fn supervise(msg: &ControlMsg) -> (r: Supervision)
    ensures
        r == (if msg is Shutdown {
            Supervision::Stop
        } else {
            Supervision::Continue
        }),
{
    match msg {
        ControlMsg::Shutdown { .. } => Supervision::Stop,
        ControlMsg::SubsystemError { .. } => Supervision::Continue,
        ControlMsg::HealthPing => Supervision::Continue,
    }
}

/// The configuration with the command line's overrides: `--dry-run` turns dry running on,
/// and paths given to `watch` are watched besides the configured ones.
pub fn apply_overrides(cfg: Config, dry_run: bool, extra_paths: Vec<String>) -> (r: Config)
    ensures
        r.response.dry_run == (cfg.response.dry_run || dry_run),
        r.response.kill_on_critical == cfg.response.kill_on_critical,
        r.response.block_network == cfg.response.block_network,
        r.response.auto_rollback == cfg.response.auto_rollback,
        string_views(r.watch.paths@) == string_views(cfg.watch.paths@) + string_views(extra_paths@),
        r.watch.skip_extensions == cfg.watch.skip_extensions,
        r.watch.entropy_max_file_bytes == cfg.watch.entropy_max_file_bytes,
        r.watch.entropy_sample_bytes == cfg.watch.entropy_sample_bytes,
        r.watch.debounce_ms == cfg.watch.debounce_ms,
        r.scoring == cfg.scoring,
        r.canary == cfg.canary,
        r.snapshot == cfg.snapshot,
        r.report == cfg.report,
        r.log == cfg.log,
{
    let mut paths: Vec<String> = Vec::new();
    let mut k: usize = 0;
    while k < cfg.watch.paths.len()
        invariant
            k <= cfg.watch.paths@.len(),
            paths@.len() == k,
            forall|j: int| 0 <= j < k ==> (#[trigger] paths@[j])@ == cfg.watch.paths@[j]@,
        decreases cfg.watch.paths@.len() - k,
    {
        paths.push(cfg.watch.paths[k].clone());
        k = k + 1;
    }
    let mut i: usize = 0;
    while i < extra_paths.len()
        invariant
            i <= extra_paths@.len(),
            paths@.len() == cfg.watch.paths@.len() + i,
            forall|j: int| 0 <= j < cfg.watch.paths@.len() ==> (#[trigger] paths@[j])@ == cfg.watch.paths@[j]@,
            forall|j: int| 0 <= j < i ==> (#[trigger] paths@[cfg.watch.paths@.len() + j])@ == extra_paths@[j]@,
        decreases extra_paths@.len() - i,
    {
        paths.push(extra_paths[i].clone());
        i = i + 1;
    }
    assert(string_views(paths@) =~= string_views(cfg.watch.paths@) + string_views(extra_paths@)) by {
        assert forall|j: int| 0 <= j < paths@.len() implies #[trigger] string_views(paths@)[j] == (string_views(cfg.watch.paths@) + string_views(extra_paths@))[j] by {
            if j >= cfg.watch.paths@.len() {
                let d = j - cfg.watch.paths@.len();
                assert(paths@[cfg.watch.paths@.len() + d]@ == extra_paths@[d]@);
            }
        }
    }
    let mut out = cfg;
    if dry_run {
        out.response.dry_run = true;
    }
    out.watch.paths = paths;
    out
}

/// Whether no shadow copy before position `i` has the ID `id`.
pub open spec fn none_before(s: Seq<SnapshotInfo>, id: Seq<char>, i: int) -> bool {
    forall|j: int| 0 <= j < i ==> (#[trigger] s[j]).shadow_id@ != id
}

/// The position of the first shadow copy whose ID is `shadow_id`.
pub fn find_shadow(shadows: &Vec<SnapshotInfo>, shadow_id: &str) -> (r: Option<usize>)
    ensures
        match r {
            Some(i) => i < shadows@.len() && shadows@[i as int].shadow_id@ == shadow_id@
                && none_before(shadows@, shadow_id@, i as int),
            None => none_before(shadows@, shadow_id@, shadows@.len() as int),
        },
{
    let mut i: usize = 0;
    while i < shadows.len()
        invariant
            i <= shadows@.len(),
            none_before(shadows@, shadow_id@, i as int),
        decreases shadows@.len() - i,
    {
        if same_str(shadows[i].shadow_id.as_str(), shadow_id) {
            return Some(i);
        }
        i = i + 1;
    }
    None
}

} // verus!
