//! The Markdown report of an incident and the lines that describe its signals and actions.

use vstd::prelude::*;
use std::fmt::Write;
use crate::detection::patterns::string_views;
use crate::events::types::{
    event_views, EventView, Incident, ProcessInfo, ResponseAction, ScoredEvent, SignalView,
    ThreatSignal,
};
use crate::num::{
    decimal, decimal_string, push_decimal, push_tenths, push_units, tenths_text, units_text,
    uuid_string, uuid_text,
};
use crate::report::template::{
    list_views, no_open_placeholder, render_spec, var_views, Template, INCIDENT_REPORT_TEMPLATE,
};
use crate::clock::{now_millis, LATEST_INSTANT_MS};
use crate::text::{join_lines, join_with_newlines, push_chars, push_str, string_of, views};

verus! {

/// What chrono writes for the UTC instant `ms` milliseconds after the epoch under the
/// strftime `pattern`, or `None` where chrono has no such instant or cannot write the pattern.
pub uninterp spec fn utc_format(ms: i64, pattern: Seq<char>) -> Option<Seq<char>>;

/// The pattern of full timestamps in reports.
pub const DATETIME_PATTERN: &'static str = "%Y-%m-%d %H:%M:%S UTC";

/// The pattern of times of day in the timeline.
pub const CLOCK_PATTERN: &'static str = "%H:%M:%S";

/// `chrono::DateTime::<Utc>::from_timestamp_millis(ms)`, written with `format(pattern)`.
/// The text is named by `utc_format`; chrono's source shows that every instant from 8e15 ms
/// before the epoch up to the latest one it represents (`LATEST_INSTANT_MS`) exists and
/// that the two report patterns write without error.
#[verifier::external_body]
pub(crate) fn format_utc(ms: i64, pattern: &str) -> (r: Option<String>)
    ensures
        match r {
            Some(s) => utc_format(ms, pattern@) == Some(s@),
            None => utc_format(ms, pattern@) is None,
        },
        instant_in_range(ms) && (pattern@ == DATETIME_PATTERN@ || pattern@ == CLOCK_PATTERN@)
            ==> r is Some,
{
    let dt = chrono::DateTime::<chrono::Utc>::from_timestamp_millis(ms)?;
    let mut s = String::new();
    write!(s, "{}", dt.format(pattern)).ok()?;
    Some(s)
}

/// The short form of a signal in the timeline.
pub open spec fn signal_short_text(s: SignalView) -> Seq<char> {
    match s {
        SignalView::HighEntropy { entropy_millibits, .. } => "entropy "@ + tenths_text(
            entropy_millibits as nat,
        ) + " bits/byte"@,
        SignalView::BurstWrites { writes_per_sec_milli, .. } => units_text(
            writes_per_sec_milli as nat,
        ) + " writes/sec"@,
        SignalView::ExtensionChange { new_ext, .. } => "renamed to "@ + new_ext,
        SignalView::CanaryTouched { .. } => "canary touched"@,
        SignalView::ShadowDeleteAttempt { .. } => "shadow delete attempt (T1490)"@,
        SignalView::SuspiciousRename { .. } => "suspicious rename"@,
        SignalView::RansomNoteCreated { .. } => "ransom note created"@,
    }
}

/// Append the short form of `signal`.
pub fn push_signal_short(out: &mut Vec<char>, signal: &ThreatSignal)
    ensures
        final(out)@ == old(out)@ + signal_short_text(signal@),
{
    match signal {
        ThreatSignal::HighEntropy { entropy_millibits, .. } => {
            push_str(out, "entropy ");
            push_tenths(out, *entropy_millibits as u64);
            push_str(out, " bits/byte");
        },
        ThreatSignal::BurstWrites { writes_per_sec_milli, .. } => {
            push_units(out, *writes_per_sec_milli);
            push_str(out, " writes/sec");
        },
        ThreatSignal::ExtensionChange { new_ext, .. } => {
            push_str(out, "renamed to ");
            push_str(out, new_ext.as_str());
        },
        ThreatSignal::CanaryTouched { .. } => push_str(out, "canary touched"),
        ThreatSignal::ShadowDeleteAttempt { .. } => push_str(out, "shadow delete attempt (T1490)"),
        ThreatSignal::SuspiciousRename { .. } => push_str(out, "suspicious rename"),
        ThreatSignal::RansomNoteCreated { .. } => push_str(out, "ransom note created"),
    }
}

/// The short form of a signal in the timeline.
pub fn signal_short(signal: &ThreatSignal) -> (r: String)
    ensures
        r@ == signal_short_text(signal@),
{
    let mut out: Vec<char> = Vec::new();
    push_signal_short(&mut out, signal);
    string_of(out.as_slice())
}

/// The Markdown bullet of an action in the report.
pub open spec fn action_md_text(a: ResponseAction) -> Seq<char> {
    match a {
        ResponseAction::ProcessTreeKilled { root_pid, killed_pids } => "- **Killed** process tree rooted at pid="@
            + decimal(root_pid as nat) + " ("@ + decimal(killed_pids@.len()) + " processes terminated)"@,
        ResponseAction::NetworkBlocked { pid, rule_name } => "- **Blocked** outbound network for pid="@
            + decimal(pid as nat) + " (rule: `"@ + rule_name@ + "`)"@,
        ResponseAction::RollbackStarted { snapshot_id, target_paths } => "- **Rollback started** from snapshot `"@
            + snapshot_id@ + "` ("@ + decimal(target_paths@.len()) + " files)"@,
        ResponseAction::RollbackCompleted { files_restored, manifest_path } => "- **Rollback completed**: "@
            + decimal(files_restored as nat) + " files restored. Manifest: `"@ + manifest_path@ + "`"@,
        ResponseAction::ReportGenerated { path } => "- **Report generated**: `"@ + path@ + "`"@,
        ResponseAction::DryRun { would_have } => "- **[DRY-RUN]** Would have: "@ + would_have@,
    }
}

/// Append the Markdown bullet of `action`.
pub fn push_action_md(out: &mut Vec<char>, action: &ResponseAction)
    ensures
        final(out)@ == old(out)@ + action_md_text(*action),
{
    match action {
        ResponseAction::ProcessTreeKilled { root_pid, killed_pids } => {
            push_str(out, "- **Killed** process tree rooted at pid=");
            push_decimal(out, *root_pid as u64);
            push_str(out, " (");
            push_decimal(out, killed_pids.len() as u64);
            push_str(out, " processes terminated)");
        },
        ResponseAction::NetworkBlocked { pid, rule_name } => {
            push_str(out, "- **Blocked** outbound network for pid=");
            push_decimal(out, *pid as u64);
            push_str(out, " (rule: `");
            push_str(out, rule_name.as_str());
            push_str(out, "`)");
        },
        ResponseAction::RollbackStarted { snapshot_id, target_paths } => {
            push_str(out, "- **Rollback started** from snapshot `");
            push_str(out, snapshot_id.as_str());
            push_str(out, "` (");
            push_decimal(out, target_paths.len() as u64);
            push_str(out, " files)");
        },
        ResponseAction::RollbackCompleted { files_restored, manifest_path } => {
            push_str(out, "- **Rollback completed**: ");
            push_decimal(out, *files_restored as u64);
            push_str(out, " files restored. Manifest: `");
            push_str(out, manifest_path.as_str());
            push_str(out, "`");
        },
        ResponseAction::ReportGenerated { path } => {
            push_str(out, "- **Report generated**: `");
            push_str(out, path.as_str());
            push_str(out, "`");
        },
        ResponseAction::DryRun { would_have } => {
            push_str(out, "- **[DRY-RUN]** Would have: ");
            push_str(out, would_have.as_str());
        },
    }
}

/// The Markdown bullet of an action in the report.
pub fn action_md(action: &ResponseAction) -> (r: String)
    ensures
        r@ == action_md_text(*action),
{
    let mut out: Vec<char> = Vec::new();
    push_action_md(&mut out, action);
    string_of(out.as_slice())
}


/// The head of the timeline table.
pub const TIMELINE_HEADER: &'static str = "| Time | Level | Delta | Signal |\n|------|-------|-------|--------|\n";

/// The only row of the timeline of an incident without events.
pub const TIMELINE_EMPTY_ROW: &'static str = "| — | — | — | — |";

/// What the report says of an incident without affected files.
pub const NO_FILES_TEXT: &'static str = "_No files recorded._";

/// What the report says of an incident without actions.
pub const NO_ACTIONS_TEXT: &'static str = "_No automated actions taken (dry-run or threshold not reached)._";

/// A row of the timeline: the time of day, the level, the points and the signal.
pub open spec fn timeline_row(time: Seq<char>, e: EventView) -> Seq<char> {
    "| "@ + time + " | "@ + e.level.spec_name() + " | +"@ + decimal(e.delta as nat) + " pts | "@
        + signal_short_text(e.signal) + " |"@
}

/// The rows of the timeline, one for each event, with `times[i]` the time of day of event `i`.
pub open spec fn timeline_rows(times: Seq<Seq<char>>, events: Seq<EventView>) -> Seq<Seq<char>> {
    Seq::new(events.len(), |i: int| timeline_row(times[i], events[i]))
}

/// The timeline table.
pub open spec fn timeline_text(times: Seq<Seq<char>>, events: Seq<EventView>) -> Seq<char> {
    if events.len() == 0 {
        TIMELINE_HEADER@ + TIMELINE_EMPTY_ROW@
    } else {
        TIMELINE_HEADER@ + join_lines(timeline_rows(times, events))
    }
}

/// The bullet of an affected file.
pub open spec fn affected_line(p: Seq<char>) -> Seq<char> {
    "- `"@ + p + "`"@
}

/// The list of affected files.
pub open spec fn affected_text(paths: Seq<Seq<char>>) -> Seq<char> {
    if paths.len() == 0 {
        NO_FILES_TEXT@
    } else {
        join_lines(paths.map_values(|p: Seq<char>| affected_line(p)))
    }
}

/// The list of actions taken.
pub open spec fn actions_text(actions: Seq<ResponseAction>) -> Seq<char> {
    if actions.len() == 0 {
        NO_ACTIONS_TEXT@
    } else {
        join_lines(actions.map_values(|a: ResponseAction| action_md_text(a)))
    }
}

/// The primary process: its name and pid where known, else its pid, else `Unknown`.
pub open spec fn primary_text(info: Option<ProcessInfo>, pid: Option<u32>) -> Seq<char> {
    match info {
        Some(p) => p.name@ + " (pid="@ + decimal(p.pid as nat) + ")"@,
        None => match pid {
            Some(n) => "pid="@ + decimal(n as nat),
            None => "Unknown"@,
        },
    }
}

/// The report's variables, in the order in which they are substituted.
pub open spec fn report_vars(
    inc: Incident,
    narrative: Seq<char>,
    version: Seq<char>,
    json: Seq<char>,
    generated: Seq<char>,
    started: Seq<char>,
    closed: Seq<char>,
    times: Seq<Seq<char>>,
) -> Seq<(Seq<char>, Seq<char>)> {
    seq![
        ("incident_id"@, uuid_text(inc.id)),
        ("generated_at"@, generated),
        ("agent_version"@, version),
        ("started_at"@, started),
        ("closed_at"@, closed),
        ("peak_level"@, inc.peak_level.spec_name()),
        ("final_score"@, decimal(inc.final_score.0 as nat)),
        ("affected_count"@, decimal(inc.affected_paths@.len())),
        ("ai_narrative"@, narrative),
        ("primary_process"@, primary_text(inc.process_info, inc.primary_pid)),
        ("timeline"@, timeline_text(times, inc@.events)),
        ("affected_files"@, affected_text(inc@.affected_paths)),
        ("actions_taken"@, actions_text(inc.actions_taken@)),
        ("incident_json"@, json),
    ]
}

/// The Markdown report, from the texts of its timestamps.
pub open spec fn report_text(
    inc: Incident,
    narrative: Seq<char>,
    version: Seq<char>,
    json: Seq<char>,
    generated: Seq<char>,
    started: Seq<char>,
    closed: Seq<char>,
    times: Seq<Seq<char>>,
) -> Seq<char> {
    render_spec(
        INCIDENT_REPORT_TEMPLATE@,
        report_vars(inc, narrative, version, json, generated, started, closed, times),
        Seq::empty(),
    )
}

fn timeline_exec(times: &[String], events: &Vec<ScoredEvent>) -> (r: Vec<char>)
    requires
        times@.len() == events@.len(),
    ensures
        r@ == timeline_text(string_views(times@), event_views(events@)),
{
    let mut out: Vec<char> = Vec::new();
    push_str(&mut out, TIMELINE_HEADER);
    if events.len() == 0 {
        push_str(&mut out, TIMELINE_EMPTY_ROW);
        return out;
    }
    let ghost tv = string_views(times@);
    let ghost ev = event_views(events@);
    let mut rows: Vec<Vec<char>> = Vec::new();
    let mut i: usize = 0;
    while i < events.len()
        invariant
            i <= events@.len(),
            times@.len() == events@.len(),
            tv == string_views(times@),
            ev == event_views(events@),
            rows@.len() == i,
            forall|j: int| 0 <= j < i ==> (#[trigger] rows@[j])@ == timeline_row(tv[j], ev[j]),
        decreases events@.len() - i,
    {
        let e = &events[i];
        let mut row: Vec<char> = Vec::new();
        push_str(&mut row, "| ");
        push_str(&mut row, times[i].as_str());
        push_str(&mut row, " | ");
        push_str(&mut row, e.level.name());
        push_str(&mut row, " | +");
        push_decimal(&mut row, e.delta as u64);
        push_str(&mut row, " pts | ");
        push_signal_short(&mut row, &e.signal);
        push_str(&mut row, " |");
        rows.push(row);
        i = i + 1;
    }
    assert(views(rows@) =~= timeline_rows(tv, ev));
    let joined = join_with_newlines(&rows);
    push_chars(&mut out, joined.as_slice());
    out
}

fn affected_exec(paths: &Vec<String>) -> (r: Vec<char>)
    ensures
        r@ == affected_text(paths@.map_values(|p: String| p@)),
{
    let ghost pv = paths@.map_values(|p: String| p@);
    if paths.len() == 0 {
        let mut out: Vec<char> = Vec::new();
        push_str(&mut out, NO_FILES_TEXT);
        return out;
    }
    let mut rows: Vec<Vec<char>> = Vec::new();
    let mut i: usize = 0;
    while i < paths.len()
        invariant
            i <= paths@.len(),
            pv == paths@.map_values(|p: String| p@),
            rows@.len() == i,
            forall|j: int| 0 <= j < i ==> (#[trigger] rows@[j])@ == affected_line(pv[j]),
        decreases paths@.len() - i,
    {
        let mut row: Vec<char> = Vec::new();
        push_str(&mut row, "- `");
        push_str(&mut row, paths[i].as_str());
        push_str(&mut row, "`");
        rows.push(row);
        i = i + 1;
    }
    assert(views(rows@) =~= pv.map_values(|p: Seq<char>| affected_line(p)));
    join_with_newlines(&rows)
}

fn actions_exec(actions: &Vec<ResponseAction>) -> (r: Vec<char>)
    ensures
        r@ == actions_text(actions@),
{
    if actions.len() == 0 {
        let mut out: Vec<char> = Vec::new();
        push_str(&mut out, NO_ACTIONS_TEXT);
        return out;
    }
    let mut rows: Vec<Vec<char>> = Vec::new();
    let mut i: usize = 0;
    while i < actions.len()
        invariant
            i <= actions@.len(),
            rows@.len() == i,
            forall|j: int| 0 <= j < i ==> (#[trigger] rows@[j])@ == action_md_text(actions@[j]),
        decreases actions@.len() - i,
    {
        let mut row: Vec<char> = Vec::new();
        push_action_md(&mut row, &actions[i]);
        rows.push(row);
        i = i + 1;
    }
    assert(views(rows@) =~= actions@.map_values(|a: ResponseAction| action_md_text(a)));
    join_with_newlines(&rows)
}

fn primary_exec(info: &Option<ProcessInfo>, pid: Option<u32>) -> (r: String)
    ensures
        r@ == primary_text(*info, pid),
{
    let mut out: Vec<char> = Vec::new();
    match info {
        Some(p) => {
            push_str(&mut out, p.name.as_str());
            push_str(&mut out, " (pid=");
            push_decimal(&mut out, p.pid as u64);
            push_str(&mut out, ")");
        },
        None => match pid {
            Some(n) => {
                push_str(&mut out, "pid=");
                push_decimal(&mut out, n as u64);
            },
            None => push_str(&mut out, "Unknown"),
        },
    }
    string_of(out.as_slice())
}

/// The Markdown report of `incident`, given the texts of its timestamps: `generated` for the
/// time of writing, `started` and `closed` for the incident's bounds and `times[i]` for the
/// time of day of event `i`. `json` is the incident serialised, `narrative` the AI section.
pub fn compose_report(
    incident: &Incident,
    narrative: &str,
    version: &str,
    json: &str,
    generated: &str,
    started: &str,
    closed: &str,
    times: &[String],
) -> (r: String)
    requires
        times@.len() == incident.events@.len(),
    ensures
        r@ == report_text(
            *incident,
            narrative@,
            version@,
            json@,
            generated@,
            started@,
            closed@,
            string_views(times@),
        ),
        no_open_placeholder(r@),
{
    let tmpl = Template::incident_report();
    let timeline = timeline_exec(times, &incident.events);
    let affected = affected_exec(&incident.affected_paths);
    let actions = actions_exec(&incident.actions_taken);
    let mut vars: Vec<(&str, String)> = Vec::new();
    vars.push(("incident_id", uuid_string(incident.id)));
    vars.push(("generated_at", generated.to_owned()));
    vars.push(("agent_version", version.to_owned()));
    vars.push(("started_at", started.to_owned()));
    vars.push(("closed_at", closed.to_owned()));
    vars.push(("peak_level", incident.peak_level.name().to_owned()));
    vars.push(("final_score", decimal_string(incident.final_score.0 as u64)));
    vars.push(("affected_count", decimal_string(incident.affected_paths.len() as u64)));
    vars.push(("ai_narrative", narrative.to_owned()));
    vars.push(("primary_process", primary_exec(&incident.process_info, incident.primary_pid)));
    vars.push(("timeline", string_of(timeline.as_slice())));
    vars.push(("affected_files", string_of(affected.as_slice())));
    vars.push(("actions_taken", string_of(actions.as_slice())));
    vars.push(("incident_json", json.to_owned()));
    let lists: Vec<(&str, Vec<String>)> = Vec::new();
    assert(list_views(lists@) =~= Seq::empty());
    assert(var_views(vars@) =~= report_vars(
        *incident,
        narrative@,
        version@,
        json@,
        generated@,
        started@,
        closed@,
        string_views(times@),
    ));
    tmpl.render(vars.as_slice(), lists.as_slice())
}


/// Whether chrono has the instant `ms` milliseconds after the epoch: up to the latest one it
/// represents, and back to 8e15 ms before the epoch (a margin inside its earliest).
pub open spec fn instant_in_range(ms: i64) -> bool {
    -8_000_000_000_000_000 <= ms <= LATEST_INSTANT_MS
}

/// The full timestamp text of `ms`.
pub open spec fn datetime_text(ms: i64) -> Option<Seq<char>> {
    utc_format(ms, DATETIME_PATTERN@)
}

/// The time-of-day text of `ms`.
pub open spec fn clock_text(ms: i64) -> Option<Seq<char>> {
    utc_format(ms, CLOCK_PATTERN@)
}

/// Whether every timestamp of the report of `inc`, written at `now`, has a text.
pub open spec fn report_times_ok(inc: Incident, now: i64) -> bool {
    &&& datetime_text(now) is Some
    &&& datetime_text(inc.started_at) is Some
    &&& datetime_text(inc.closed_at) is Some
    &&& forall|i: int| 0 <= i < inc.events@.len() ==> (#[trigger] clock_text(inc.events@[i].ts)) is Some
}

/// The times of day of the events of `inc`.
pub open spec fn event_times(inc: Incident) -> Seq<Seq<char>> {
    Seq::new(inc.events@.len(), |i: int| clock_text(inc.events@[i].ts).unwrap())
}

/// The report of `inc` written at `now`.
pub open spec fn report_at_text(
    inc: Incident,
    narrative: Seq<char>,
    version: Seq<char>,
    json: Seq<char>,
    now: i64,
) -> Seq<char> {
    report_text(
        inc,
        narrative,
        version,
        json,
        datetime_text(now).unwrap(),
        datetime_text(inc.started_at).unwrap(),
        datetime_text(inc.closed_at).unwrap(),
        event_times(inc),
    )
}

fn event_times_exec(events: &Vec<ScoredEvent>) -> (r: Option<Vec<String>>)
    ensures
        match r {
            Some(t) => {
                &&& t@.len() == events@.len()
                &&& forall|i: int|
                    0 <= i < events@.len() ==> #[trigger] clock_text(events@[i].ts) == Some(t@[i]@)
            },
            None => exists|i: int|
                0 <= i < events@.len() && (#[trigger] clock_text(events@[i].ts)) is None
                    && !instant_in_range(events@[i].ts),
        },
{
    let mut t: Vec<String> = Vec::new();
    let mut i: usize = 0;
    while i < events.len()
        invariant
            i <= events@.len(),
            t@.len() == i,
            forall|j: int| 0 <= j < i ==> #[trigger] clock_text(events@[j].ts) == Some(t@[j]@),
        decreases events@.len() - i,
    {
        match format_utc(events[i].ts, CLOCK_PATTERN) {
            Some(s) => t.push(s),
            None => {
                assert(clock_text(events@[i as int].ts) is None);
                assert(!instant_in_range(events@[i as int].ts));
                return None;
            },
        }
        i = i + 1;
    }
    Some(t)
}

/// The Markdown report of `incident`, written at `now` (milliseconds since the epoch), or
/// `None` where chrono has no text for one of its timestamps. `json` is the incident
/// serialised, `narrative` the AI section and `version` the agent's version.
pub fn render_report_at(
    incident: &Incident,
    narrative: &str,
    version: &str,
    json: &str,
    now: i64,
) -> (r: Option<String>)
    ensures
        r is Some <==> report_times_ok(*incident, now),
        r matches Some(s) ==> s@ == report_at_text(*incident, narrative@, version@, json@, now)
            && no_open_placeholder(s@),
        instant_in_range(now) && instant_in_range(incident.started_at) && instant_in_range(
            incident.closed_at,
        ) && (forall|i: int|
            0 <= i < incident.events@.len() ==> instant_in_range(#[trigger] incident.events@[i].ts))
            ==> r is Some,
{
    let gen = format_utc(now, DATETIME_PATTERN);
    let started = format_utc(incident.started_at, DATETIME_PATTERN);
    let closed = format_utc(incident.closed_at, DATETIME_PATTERN);
    let times = event_times_exec(&incident.events);
    proof {
        if instant_in_range(now) && instant_in_range(incident.started_at) && instant_in_range(
            incident.closed_at,
        ) && (forall|i: int|
            0 <= i < incident.events@.len() ==> instant_in_range(#[trigger] incident.events@[i].ts)) {
            if times is None {
                let i = choose|i: int|
                    0 <= i < incident.events@.len() && (#[trigger] clock_text(incident.events@[i].ts)) is None
                        && !instant_in_range(incident.events@[i].ts);
                assert(instant_in_range(incident.events@[i].ts));
            }
        }
    }
    match (gen, started, closed, times) {
        (Some(g), Some(s), Some(c), Some(t)) => {
            assert(string_views(t@) =~= event_times(*incident));
            Some(compose_report(incident, narrative, version, json, &g, &s, &c, t.as_slice()))
        },
        _ => None,
    }
}

/// The Markdown report of `incident`, written now; `None` where chrono has no text for one
/// of its timestamps, which cannot happen when they all lie in chrono's range. The time of
/// writing is read from the clock.
pub fn render_report(incident: &Incident, narrative: &str, version: &str, json: &str) -> (r: Option<
    String,
>)
    ensures
        exists|now: i64|
            0 <= now <= LATEST_INSTANT_MS && (r is Some <==> report_times_ok(*incident, now)) && (
            r matches Some(s) ==> s@ == report_at_text(*incident, narrative@, version@, json@, now)),
        r matches Some(s) ==> no_open_placeholder(s@),
        instant_in_range(incident.started_at) && instant_in_range(incident.closed_at) && (forall|
            i: int,
        | 0 <= i < incident.events@.len() ==> instant_in_range(#[trigger] incident.events@[i].ts))
            ==> r is Some,
{
    let now = now_millis();
    render_report_at(incident, narrative, version, json, now)
}

/// The AI section of a report around the narrative `text`.
pub open spec fn narrative_section_text(text: Seq<char>) -> Seq<char> {
    "## AI Summary\n\n"@ + text + "\n"@
}

/// The AI section of a report around the narrative `text`.
pub fn narrative_section(text: &str) -> (r: String)
    ensures
        r@ == narrative_section_text(text@),
{
    let mut out: Vec<char> = Vec::new();
    push_str(&mut out, "## AI Summary\n\n");
    push_str(&mut out, text);
    push_str(&mut out, "\n");
    string_of(out.as_slice())
}

/// The file name of the report of the incident `id`.
pub open spec fn report_file_name_text(id: u128) -> Seq<char> {
    "incident_"@ + uuid_text(id) + ".md"@
}

/// The file name of the report of the incident `id`.
pub fn report_file_name(id: u128) -> (r: String)
    ensures
        r@ == report_file_name_text(id),
{
    let mut out: Vec<char> = Vec::new();
    push_str(&mut out, "incident_");
    let u = uuid_string(id);
    push_str(&mut out, u.as_str());
    push_str(&mut out, ".md");
    string_of(out.as_slice())
}

} // verus!
