//! From file-system notifications to raw events: which paths are skipped and what kind of
//! change each notification is. The notification source itself is the application's.

use std::sync::atomic::AtomicU64;
use vstd::prelude::*;
use crate::clock::now_millis;
use crate::detection::patterns::string_views;
use crate::detection::scorer::contains_string;
use crate::events::types::{FsEventKind, RawFsEvent};
use crate::ids::next_event_id;
use crate::paths::{ext_reading, opt_text, path_extension};
use crate::text::{push_str, str_lowercase, string_of, to_lowercase};

verus! {

/// The kinds of notification that the watcher tells apart.
#[derive(Debug, Clone, Copy, PartialEq, Eq, Structural)]
pub enum NotifyKind {
    /// Any creation.
    Create,
    /// A rename, reported with the new name.
    RenameTo,
    /// A rename, reported with both names.
    RenameBoth,
    /// Any removal.
    Remove,
    /// Anything else: a modification of some sort.
    Other,
}

/// The configured extensions to skip, lowercased.
pub open spec fn skip_list_spec(exts: Seq<Seq<char>>) -> Seq<Seq<char>> {
    exts.map_values(|e: Seq<char>| str_lowercase(e))
}

/// The configured extensions to skip, lowercased.
pub fn skip_list(exts: &Vec<String>) -> (r: Vec<String>)
    ensures
        string_views(r@) == skip_list_spec(string_views(exts@)),
{
    let mut r: Vec<String> = Vec::new();
    let mut i: usize = 0;
    while i < exts.len()
        invariant
            i <= exts@.len(),
            r@.len() == i,
            forall|j: int| 0 <= j < i ==> (#[trigger] r@[j])@ == str_lowercase(exts@[j]@),
        decreases exts@.len() - i,
    {
        r.push(to_lowercase(exts[i].as_str()));
        i = i + 1;
    }
    assert(string_views(r@) =~= skip_list_spec(string_views(exts@)));
    r
}

/// Whether a path with the extension `ext` (without its dot) is skipped: its lowercased
/// extension, with the dot, is on the list.
pub open spec fn skip_ext_spec(ext: Option<Seq<char>>, skip: Seq<Seq<char>>) -> bool {
    match ext {
        Some(e) => skip.contains("."@ + str_lowercase(e)),
        None => false,
    }
}

/// Whether a path with the extension `ext` (without its dot) is skipped.
pub fn should_skip_ext(ext: Option<&str>, skip_exts: &Vec<String>) -> (r: bool)
    ensures
        r == skip_ext_spec(
            match ext {
                Some(e) => Some(e@),
                None => None,
            },
            string_views(skip_exts@),
        ),
{
    match ext {
        Some(e) => {
            let lower = to_lowercase(e);
            let mut out: Vec<char> = Vec::new();
            push_str(&mut out, ".");
            push_str(&mut out, lower.as_str());
            let dotted = string_of(out.as_slice());
            contains_string(skip_exts, &dotted)
        },
        None => false,
    }
}

/// Whether `path` is skipped: its extension, as the platform's path rules find it (see
/// `ext_reading`), is on the list of lowercased extensions `skip_exts`.
pub fn should_skip(path: &str, skip_exts: &Vec<String>) -> (r: bool)
    ensures
        exists|e: Option<Seq<char>>|
            ext_reading(path@, e) && r == skip_ext_spec(e, string_views(skip_exts@)),
{
    let ext = path_extension(path);
    let r = match &ext {
        Some(e) => should_skip_ext(Some(e.as_str()), skip_exts),
        None => false,
    };
    assert(ext_reading(path@, opt_text(ext)) && r == skip_ext_spec(opt_text(ext), string_views(skip_exts@)));
    r
}

/// The change that a notification of `kind` about `paths` reports.
pub open spec fn translate_kind_spec(kind: NotifyKind, paths: Seq<Seq<char>>) -> Option<Seq<char>> {
    match kind {
        NotifyKind::RenameTo | NotifyKind::RenameBoth => if paths.len() > 0 {
            Some(paths[0])
        } else {
            Some(Seq::empty())
        },
        _ => None,
    }
}

/// The change that a notification of `kind` about `paths` reports: a rename comes from
/// the first path (empty where there is none).
pub fn translate_kind(kind: NotifyKind, paths: &Vec<String>) -> (r: FsEventKind)
    ensures
        kind == NotifyKind::Create ==> r == FsEventKind::Created,
        kind == NotifyKind::Remove ==> r == FsEventKind::Deleted,
        kind == NotifyKind::Other ==> r == FsEventKind::Modified,
        (kind == NotifyKind::RenameTo || kind == NotifyKind::RenameBoth) ==> (r matches FsEventKind::Renamed { from } && Some(from@) == translate_kind_spec(kind, string_views(paths@))),
{
    match kind {
        NotifyKind::Create => FsEventKind::Created,
        NotifyKind::RenameTo | NotifyKind::RenameBoth => {
            let from = if paths.len() > 0 {
                paths[0].clone()
            } else {
                String::new()
            };
            FsEventKind::Renamed { from }
        },
        NotifyKind::Remove => FsEventKind::Deleted,
        NotifyKind::Other => FsEventKind::Modified,
    }
}

/// Whether `idx` picks, in increasing order, positions of `paths` whose texts are those of
/// the events' paths.
pub open spec fn picks_in_order(idx: Seq<int>, paths: Seq<Seq<char>>, evs: Seq<RawFsEvent>) -> bool {
    &&& idx.len() == evs.len()
    &&& forall|i: int| 0 <= i < idx.len() ==> 0 <= #[trigger] idx[i] < paths.len() && evs[i].path@
        == paths[idx[i]]
    &&& forall|i: int, j: int| 0 <= i < j < idx.len() ==> #[trigger] idx[i] < #[trigger] idx[j]
}

/// Whether the positions in `idx` are exactly those, among the paths below `upto`, whose
/// extension `exts[p]`, as the path rules read it, is not on the list `skip`.
pub open spec fn picks_unskipped(
    idx: Seq<int>,
    exts: Seq<Option<Seq<char>>>,
    paths: Seq<Seq<char>>,
    skip: Seq<Seq<char>>,
    upto: int,
) -> bool {
    forall|p: int|
        0 <= p < upto && p < paths.len() ==> ext_reading(#[trigger] paths[p], exts[p]) && (
        idx.contains(p) <==> !skip_ext_spec(exts[p], skip))
}

/// Whether `k` is the change that a notification of `kind` reports.
pub open spec fn kind_matches(kind: NotifyKind, paths: Seq<Seq<char>>, k: FsEventKind) -> bool {
    match kind {
        NotifyKind::Create => k == FsEventKind::Created,
        NotifyKind::Remove => k == FsEventKind::Deleted,
        NotifyKind::Other => k == FsEventKind::Modified,
        _ => k matches FsEventKind::Renamed { from } && Some(from@) == translate_kind_spec(kind, paths),
    }
}

/// The raw events of one notification of `kind` about `paths`: one for each path that is
/// not skipped, in order, each with the change the notification reports, no process, the
/// next identifier of `seq` and the time at which it was made. A path yields an event
/// exactly when its extension, as the path rules read it (`ext_reading`: exact for portable
/// paths and for plain ones such as `C:\d\a.txt` whose name has a `.` after its first
/// character), is not on `skip_exts`. Identifiers come from a sequence that other tasks
/// share, and times from the clock, so neither is stated.
pub fn raw_events(kind: NotifyKind, paths: &Vec<String>, skip_exts: &Vec<String>, seq: &AtomicU64) -> (r: Vec<RawFsEvent>)
    ensures
        exists|idx: Seq<int>, exts: Seq<Option<Seq<char>>>|
            picks_in_order(idx, string_views(paths@), r@) && picks_unskipped(
                idx,
                exts,
                string_views(paths@),
                string_views(skip_exts@),
                paths@.len() as int,
            ),
        forall|i: int| 0 <= i < r@.len() ==> (#[trigger] r@[i]).pid is None && r@[i].ts >= 0
            && kind_matches(kind, string_views(paths@), r@[i].kind),
{
    let ghost pv = string_views(paths@);
    let ghost mut idx: Seq<int> = Seq::empty();
    let ghost mut exts: Seq<Option<Seq<char>>> = Seq::empty();
    let mut r: Vec<RawFsEvent> = Vec::new();
    let mut i: usize = 0;
    while i < paths.len()
        invariant
            i <= paths@.len(),
            pv == string_views(paths@),
            picks_in_order(idx, pv, r@),
            exts.len() == i,
            picks_unskipped(idx, exts, pv, string_views(skip_exts@), i as int),
            forall|k: int| 0 <= k < idx.len() ==> #[trigger] idx[k] < i,
            forall|k: int| 0 <= k < r@.len() ==> (#[trigger] r@[k]).pid is None && r@[k].ts >= 0
                && kind_matches(kind, pv, r@[k].kind),
        decreases paths@.len() - i,
    {
        let path = &paths[i];
        assert(pv[i as int] == path@);
        let skipped = should_skip(path.as_str(), skip_exts);
        let ghost e = choose|e: Option<Seq<char>>|
            ext_reading(path@, e) && skipped == skip_ext_spec(e, string_views(skip_exts@));
        let ghost old_exts = exts;
        proof {
            exts = exts.push(e);
        }
        if !skipped {
            let k = translate_kind(kind, paths);
            let id = next_event_id(seq);
            let ts = now_millis();
            let ev = RawFsEvent { id, ts, path: path.clone(), kind: k, pid: None };
            assert(pv[i as int] == path@);
            let ghost before = r@;
            r.push(ev);
            proof {
                let old_idx = idx;
                idx = idx.push(i as int);
                assert forall|a: int| 0 <= a < idx.len() implies 0 <= #[trigger] idx[a] < pv.len()
                    && r@[a].path@ == pv[idx[a]] by {
                    if a < old_idx.len() {
                        assert(r@[a] == before[a]);
                    }
                }
                assert forall|a: int, b: int| 0 <= a < b < idx.len() implies #[trigger] idx[a] < #[trigger] idx[b] by {
                    if b < old_idx.len() {
                        assert(idx[a] == old_idx[a] && idx[b] == old_idx[b]);
                    } else {
                        assert(idx[a] == old_idx[a]);
                    }
                }
                assert forall|p: int|
                    0 <= p < i + 1 && p < pv.len() implies ext_reading(#[trigger] pv[p], exts[p]) && (
                    idx.contains(p) <==> !skip_ext_spec(exts[p], string_views(skip_exts@))) by {
                    if p < i {
                        assert(exts[p] == old_exts[p]);
                        if old_idx.contains(p) {
                            let w = choose|w: int| 0 <= w < old_idx.len() && old_idx[w] == p;
                            assert(idx[w] == p);
                        }
                        if idx.contains(p) {
                            let w = choose|w: int| 0 <= w < idx.len() && idx[w] == p;
                            assert(w < old_idx.len());
                            assert(old_idx[w] == p);
                        }
                    } else {
                        assert(idx[old_idx.len() as int] == p);
                    }
                }
            }
        } else {
            proof {
                assert forall|p: int|
                    0 <= p < i + 1 && p < pv.len() implies ext_reading(#[trigger] pv[p], exts[p]) && (
                    idx.contains(p) <==> !skip_ext_spec(exts[p], string_views(skip_exts@))) by {
                    if p < i {
                        assert(exts[p] == old_exts[p]);
                    }
                    if p == i {
                        if idx.contains(p) {
                            let w = choose|w: int| 0 <= w < idx.len() && idx[w] == p;
                            assert(idx[w] < i);
                        }
                    }
                }
            }
        }
        i = i + 1;
    }
    assert(picks_in_order(idx, pv, r@) && picks_unskipped(idx, exts, pv, string_views(skip_exts@), paths@.len() as int));
    r
}

} // verus!
