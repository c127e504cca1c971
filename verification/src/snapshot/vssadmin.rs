//! Parsing the output of `vssadmin`, which varies by locale: the parsers look for key
//! phrases rather than exact layouts.

use vstd::prelude::*;
use crate::clock::now_millis;
use crate::error::AgentError;
use crate::events::types::SnapshotInfo;
use crate::detection::patterns::string_views;
use crate::text::{
    push_str, chars_of, find, first_match, lemma_first_match_bound, lemma_first_match_from_props,
    lemma_trim_within, lines_spec, slice_range, split_lines, string_of, strip_prefix, trim, trim_spec,
    occurs_at, views,
};

verus! {

/// The text after the first `after`, up to the first `before` that follows it (or to the
/// end), when `after` occurs.
pub open spec fn between_spec(text: Seq<char>, after: Seq<char>, before: Seq<char>) -> Option<
    Seq<char>,
> {
    match first_match(text, after) {
        None => None,
        Some(i) => {
            let rest = text.skip(i + after.len());
            match first_match(rest, before) {
                Some(e) => Some(rest.take(e)),
                None => Some(rest),
            }
        },
    }
}

/// The text after the first `after`, up to the first `before` that follows it (or to the
/// end), when `after` occurs.
pub fn extract_between(text: &[char], after: &[char], before: &[char]) -> (r: Option<Vec<char>>)
    ensures
        match r {
            Some(v) => between_spec(text@, after@, before@) == Some(v@),
            None => between_spec(text@, after@, before@) is None,
        },
{
    let n = text.len();
    match find(text, after) {
        None => None,
        Some(i) => {
            proof {
                lemma_first_match_bound(text@, after@);
            }
            let rest = slice_range(text, i + after.len(), n);
            assert(rest@ =~= text@.skip(i + after@.len()));
            match find(rest.as_slice(), before) {
                Some(e) => {
                    proof {
                        lemma_first_match_bound(rest@, before@);
                    }
                    let r = slice_range(rest.as_slice(), 0, e);
                    assert(r@ =~= rest@.take(e as int));
                    Some(r)
                },
                None => Some(rest),
            }
        },
    }
}

/// The value after `key` on its line: up to the first line feed, or, failing that, the
/// first carriage return; trimmed; empty when `key` does not occur.
pub open spec fn field_spec(text: Seq<char>, key: Seq<char>) -> Seq<char> {
    trim_spec(
        match between_spec(text, key, seq!['\n']) {
            Some(v) => v,
            None => match between_spec(text, key, seq!['\r']) {
                Some(v) => v,
                None => Seq::empty(),
            },
        },
    )
}

fn field(text: &[char], key: &str) -> (r: Vec<char>)
    ensures
        r@ == field_spec(text@, key@),
{
    let k = chars_of(key);
    let nl = ['\n'];
    let cr = ['\r'];
    assert(nl@ =~= seq!['\n']);
    assert(cr@ =~= seq!['\r']);
    let v = match extract_between(text, k.as_slice(), &nl) {
        Some(v) => v,
        None => match extract_between(text, k.as_slice(), &cr) {
            Some(v) => v,
            None => Vec::new(),
        },
    };
    trim(v.as_slice())
}

/// The shadow copy that `vssadmin create shadow` reports in `stdout`, for `volume`, created
/// at `created_at`: an error when no shadow copy ID can be read.
pub fn shadow_from_create_output(stdout: &str, volume: &str, created_at: i64) -> (r: Result<
    SnapshotInfo,
    AgentError,
>)
    ensures
        ({
            let id = field_spec(stdout@, "Shadow Copy ID:"@);
            match r {
                Ok(info) => id.len() > 0 && info.shadow_id@ == id && info.volume@ == volume@
                    && info.device_path@ == field_spec(stdout@, "Shadow Copy Volume Name:"@)
                    && info.created_at == created_at && info.size_bytes is None,
                Err(e) => id.len() == 0 && e == AgentError::Vss(e->Vss_0) && e->Vss_0@
                    == "Could not parse shadow copy ID from vssadmin output"@,
            }
        }),
{
    let text = chars_of(stdout);
    let id = field(text.as_slice(), "Shadow Copy ID:");
    let device = field(text.as_slice(), "Shadow Copy Volume Name:");
    if id.len() == 0 {
        return Err(
            AgentError::vss(String::from_str("Could not parse shadow copy ID from vssadmin output")),
        );
    }
    Ok(
        SnapshotInfo {
            shadow_id: string_of(id.as_slice()),
            volume: String::from_str(volume),
            device_path: string_of(device.as_slice()),
            created_at,
            size_bytes: None,
        },
    )
}

/// Parse the output of `vssadmin create shadow` for `volume`, stamped with the current time.
pub fn parse_create_output(stdout: &str, volume: &str) -> (r: Result<SnapshotInfo, AgentError>)
    ensures
        ({
            let id = field_spec(stdout@, "Shadow Copy ID:"@);
            match r {
                Ok(info) => id.len() > 0 && info.shadow_id@ == id && info.volume@ == volume@
                    && info.device_path@ == field_spec(stdout@, "Shadow Copy Volume Name:"@)
                    && info.size_bytes is None && info.created_at >= 0,
                Err(e) => id.len() == 0 && e == AgentError::Vss(e->Vss_0) && e->Vss_0@
                    == "Could not parse shadow copy ID from vssadmin output"@,
            }
        }),
{
    let now = now_millis();
    shadow_from_create_output(stdout, volume, now)
}


/// The state of a scan over `vssadmin list shadows` output: the shadow copies completed so
/// far, and the ID and device of the one being read.
pub struct ListScan {
    pub found: Seq<(Seq<char>, Seq<char>)>,
    pub id: Seq<char>,
    pub device: Seq<char>,
}

/// The shadow copies found, with the one being read added when it has both an ID and a
/// device.
pub open spec fn flushed(st: ListScan) -> Seq<(Seq<char>, Seq<char>)> {
    if st.id.len() > 0 && st.device.len() > 0 {
        st.found.push((st.id, st.device))
    } else {
        st.found
    }
}

/// One line of the scan: a `Shadow Copy ID:` line starts a new shadow copy, a
/// `Shadow Copy Volume Name:` line gives its device; other lines are ignored.
pub open spec fn scan_line(st: ListScan, line: Seq<char>) -> ListScan {
    let t = trim_spec(line);
    if occurs_at(t, "Shadow Copy ID:"@, 0) {
        ListScan {
            found: flushed(st),
            id: trim_spec(t.skip("Shadow Copy ID:"@.len() as int)),
            device: Seq::empty(),
        }
    } else if occurs_at(t, "Shadow Copy Volume Name:"@, 0) {
        ListScan { device: trim_spec(t.skip("Shadow Copy Volume Name:"@.len() as int)), ..st }
    } else {
        st
    }
}

/// The scan over a list of lines.
pub open spec fn scan_lines(lines: Seq<Seq<char>>) -> ListScan
    decreases lines.len(),
{
    if lines.len() == 0 {
        ListScan { found: Seq::empty(), id: Seq::empty(), device: Seq::empty() }
    } else {
        scan_line(scan_lines(lines.drop_last()), lines.last())
    }
}

/// The (ID, device) pairs that `vssadmin list shadows` reports in `stdout`.
pub open spec fn list_entries(stdout: Seq<char>) -> Seq<(Seq<char>, Seq<char>)> {
    flushed(scan_lines(lines_spec(stdout)))
}

/// The shadow copies that `vssadmin list shadows` reports in `stdout`, for `volume`, each
/// stamped `created_at` (see `list_entries`).
pub fn shadows_from_list_output(stdout: &str, volume: &str, created_at: i64) -> (r: Vec<
    SnapshotInfo,
>)
    ensures
        r@.len() == list_entries(stdout@).len(),
        forall|i: int|
            0 <= i < r@.len() ==> {
                &&& (#[trigger] r@[i]).shadow_id@ == list_entries(stdout@)[i].0
                &&& r@[i].device_path@ == list_entries(stdout@)[i].1
                &&& r@[i].volume@ == volume@
                &&& r@[i].created_at == created_at
                &&& r@[i].size_bytes is None
            },
{
    let text = chars_of(stdout);
    let lines = split_lines(text.as_slice());
    let id_key = chars_of("Shadow Copy ID:");
    let dev_key = chars_of("Shadow Copy Volume Name:");
    let mut results: Vec<SnapshotInfo> = Vec::new();
    let mut cur_id: Vec<char> = Vec::new();
    let mut cur_dev: Vec<char> = Vec::new();
    let ghost all = views(lines@);
    let mut i: usize = 0;
    assert(all.take(0) =~= Seq::<Seq<char>>::empty());
    while i < lines.len()
        invariant
            i <= lines@.len(),
            all == views(lines@),
            all == lines_spec(stdout@),
            id_key@ == "Shadow Copy ID:"@,
            dev_key@ == "Shadow Copy Volume Name:"@,
            results@.len() == scan_lines(all.take(i as int)).found.len(),
            cur_id@ == scan_lines(all.take(i as int)).id,
            cur_dev@ == scan_lines(all.take(i as int)).device,
            forall|j: int|
                0 <= j < results@.len() ==> {
                    &&& (#[trigger] results@[j]).shadow_id@ == scan_lines(
                        all.take(i as int),
                    ).found[j].0
                    &&& results@[j].device_path@ == scan_lines(all.take(i as int)).found[j].1
                    &&& results@[j].volume@ == volume@
                    &&& results@[j].created_at == created_at
                    &&& results@[j].size_bytes is None
                },
        decreases lines@.len() - i,
    {
        let ghost st = scan_lines(all.take(i as int));
        assert(all.take(i + 1).drop_last() =~= all.take(i as int));
        assert(all.take(i + 1).last() == lines@[i as int]@);
        let t = trim(lines[i].as_slice());
        match strip_prefix(t.as_slice(), id_key.as_slice()) {
            Some(rest) => {
                if cur_id.len() > 0 && cur_dev.len() > 0 {
                    results.push(
                        SnapshotInfo {
                            shadow_id: string_of(cur_id.as_slice()),
                            volume: String::from_str(volume),
                            device_path: string_of(cur_dev.as_slice()),
                            created_at,
                            size_bytes: None,
                        },
                    );
                }
                cur_id = trim(rest.as_slice());
                cur_dev = Vec::new();
                assert(cur_dev@ =~= Seq::<char>::empty());
            },
            None => {
                match strip_prefix(t.as_slice(), dev_key.as_slice()) {
                    Some(rest) => {
                        cur_dev = trim(rest.as_slice());
                    },
                    None => {},
                }
            },
        }
        i = i + 1;
    }
    assert(all.take(lines@.len() as int) =~= all);
    if cur_id.len() > 0 && cur_dev.len() > 0 {
        results.push(
            SnapshotInfo {
                shadow_id: string_of(cur_id.as_slice()),
                volume: String::from_str(volume),
                device_path: string_of(cur_dev.as_slice()),
                created_at,
                size_bytes: None,
            },
        );
    }
    results
}

/// Parse the output of `vssadmin list shadows` for `volume`, stamped with the current time.
pub fn parse_list_output(stdout: &str, volume: &str) -> (r: Vec<SnapshotInfo>)
    ensures
        r@.len() == list_entries(stdout@).len(),
        forall|i: int|
            0 <= i < r@.len() ==> {
                &&& (#[trigger] r@[i]).shadow_id@ == list_entries(stdout@)[i].0
                &&& r@[i].device_path@ == list_entries(stdout@)[i].1
                &&& r@[i].volume@ == volume@
                &&& r@[i].size_bytes is None
                &&& r@[i].created_at >= 0
            },
        forall|i: int, j: int|
            0 <= i < r@.len() && 0 <= j < r@.len() ==> (#[trigger] r@[i]).created_at
                == (#[trigger] r@[j]).created_at,
{
    let now = now_millis();
    shadows_from_list_output(stdout, volume, now)
}

fn prefixed(prefix: &str, s: &str) -> (r: String)
    ensures
        r@ == prefix@ + s@,
{
    let mut out: Vec<char> = Vec::new();
    push_str(&mut out, prefix);
    push_str(&mut out, s);
    string_of(out.as_slice())
}

/// The arguments of `vssadmin` that create a shadow copy of `volume`.
pub fn create_args(volume: &str) -> (r: Vec<String>)
    ensures
        string_views(r@) == seq!["create"@, "shadow"@, "/for="@ + volume@],
{
    let mut r: Vec<String> = Vec::new();
    r.push("create".to_owned());
    r.push("shadow".to_owned());
    r.push(prefixed("/for=", volume));
    assert(string_views(r@) =~= seq!["create"@, "shadow"@, "/for="@ + volume@]);
    r
}

/// The arguments of `vssadmin` that list the shadow copies of `volume`.
pub fn list_args(volume: &str) -> (r: Vec<String>)
    ensures
        string_views(r@) == seq!["list"@, "shadows"@, "/for="@ + volume@],
{
    let mut r: Vec<String> = Vec::new();
    r.push("list".to_owned());
    r.push("shadows".to_owned());
    r.push(prefixed("/for=", volume));
    assert(string_views(r@) =~= seq!["list"@, "shadows"@, "/for="@ + volume@]);
    r
}

/// The arguments of `vssadmin` that delete the shadow copy `shadow_id` without asking.
pub fn delete_args(shadow_id: &str) -> (r: Vec<String>)
    ensures
        string_views(r@) == seq!["delete"@, "shadows"@, "/shadow="@ + shadow_id@, "/quiet"@],
{
    let mut r: Vec<String> = Vec::new();
    r.push("delete".to_owned());
    r.push("shadows".to_owned());
    r.push(prefixed("/shadow=", shadow_id));
    r.push("/quiet".to_owned());
    assert(string_views(r@) =~= seq!["delete"@, "shadows"@, "/shadow="@ + shadow_id@, "/quiet"@]);
    r
}

/// The error of a `vssadmin create shadow` that exited unsuccessfully, with what it printed.
pub fn create_failure(stdout: &str, stderr: &str) -> (r: AgentError)
    ensures
        r matches AgentError::Vss(m) && m@ == "vssadmin create shadow failed.\nstdout: "@ + stdout@
            + "\nstderr: "@ + stderr@,
{
    let mut out: Vec<char> = Vec::new();
    push_str(&mut out, "vssadmin create shadow failed.\nstdout: ");
    push_str(&mut out, stdout);
    push_str(&mut out, "\nstderr: ");
    push_str(&mut out, stderr);
    AgentError::vss(string_of(out.as_slice()))
}

/// The error of a `vssadmin delete shadows` that exited unsuccessfully.
pub fn delete_failure(stderr: &str) -> (r: AgentError)
    ensures
        r matches AgentError::Vss(m) && m@ == "vssadmin delete failed: "@ + stderr@,
{
    AgentError::vss(prefixed("vssadmin delete failed: ", stderr))
}

/// The value read for a key is the trimmed text after the key's first occurrence up to the
/// first line feed that follows it, so it holds no line feed when the output has one after
/// the key.
pub proof fn lemma_field_ends_at_line_feed(text: Seq<char>, key: Seq<char>, i: int, j: int)
    requires
        occurs_at(text, key, i),
        forall|k: int| 0 <= k < i ==> !occurs_at(text, key, k),
        i + key.len() <= j < text.len(),
        text[j] == '\n',
        forall|m: int| i + key.len() <= m < j ==> text[m] != '\n',
    ensures
        field_spec(text, key) == trim_spec(text.subrange(i + key.len(), j)),
        forall|m: int| 0 <= m < field_spec(text, key).len() ==> #[trigger] field_spec(text, key)[m] != '\n',
{
    lemma_first_match_from_props(text, key, 0);
    assert(first_match(text, key) == Some(i));
    let rest = text.skip(i + key.len());
    let e = j - i - key.len();
    let nl = seq!['\n'];
    lemma_first_match_from_props(rest, nl, 0);
    assert(rest.subrange(e, e + 1) =~= nl);
    assert(occurs_at(rest, nl, e));
    assert forall|k: int| 0 <= k < e implies !occurs_at(rest, nl, k) by {
        if occurs_at(rest, nl, k) {
            assert(rest.subrange(k, k + 1)[0] == rest[k]);
            assert(rest[k] == text[i + key.len() + k]);
        }
    }
    assert(first_match(rest, nl) == Some(e));
    assert(rest.take(e) =~= text.subrange(i + key.len(), j));
    let v = text.subrange(i + key.len(), j);
    lemma_trim_within(v);
    assert forall|m: int| 0 <= m < field_spec(text, key).len() implies #[trigger] field_spec(text, key)[m] != '\n' by {
        let x = field_spec(text, key)[m];
        assert(v.contains(trim_spec(v)[m]));
        let w = choose|w: int| 0 <= w < v.len() && v[w] == x;
        assert(v[w] == text[i + key.len() + w]);
    }
}

} // verus!
