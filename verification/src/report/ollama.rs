//! What the agent sends to a local Ollama model and what it keeps of the reply. The HTTP
//! exchange itself is the application's.

use vstd::prelude::*;
use crate::events::types::{event_views, EventView, Incident, ResponseAction, SignalView, ThreatSignal};
use crate::num::{decimal, push_decimal, push_tenths, push_units, tenths_text, units_text};
use crate::report::render::{datetime_text, format_utc, DATETIME_PATTERN};
use crate::text::{
    chars_of, join_lines, join_with_newlines, push_chars, push_str, string_of, trim, trim_end_char,
    trim_end_char_spec, trim_spec, views,
};

verus! {

/// A signal described for the model.
pub open spec fn signal_description_text(s: SignalView) -> Seq<char> {
    match s {
        SignalView::HighEntropy { path, entropy_millibits, .. } => "High-entropy write ("@
            + tenths_text(entropy_millibits as nat) + " bits/byte) to "@ + path,
        SignalView::BurstWrites { writes_per_sec_milli, .. } => "Burst: "@ + units_text(
            writes_per_sec_milli as nat,
        ) + " files/second"@,
        SignalView::ExtensionChange { old_ext, new_ext, .. } => "File renamed "@ + old_ext + " → "@
            + new_ext,
        SignalView::CanaryTouched { canary_path, .. } => "Canary file touched: "@ + canary_path,
        SignalView::ShadowDeleteAttempt { command_line, .. } => "Shadow delete attempt: "@
            + command_line,
        SignalView::SuspiciousRename { path, .. } => "Suspicious rename: "@ + path,
        SignalView::RansomNoteCreated { path, .. } => "Ransom note created: "@ + path,
    }
}

fn push_signal_description(out: &mut Vec<char>, signal: &ThreatSignal)
    ensures
        final(out)@ == old(out)@ + signal_description_text(signal@),
{
    match signal {
        ThreatSignal::HighEntropy { path, entropy_millibits, .. } => {
            push_str(out, "High-entropy write (");
            push_tenths(out, *entropy_millibits as u64);
            push_str(out, " bits/byte) to ");
            push_str(out, path.as_str());
        },
        ThreatSignal::BurstWrites { writes_per_sec_milli, .. } => {
            push_str(out, "Burst: ");
            push_units(out, *writes_per_sec_milli);
            push_str(out, " files/second");
        },
        ThreatSignal::ExtensionChange { old_ext, new_ext, .. } => {
            push_str(out, "File renamed ");
            push_str(out, old_ext.as_str());
            push_str(out, " → ");
            push_str(out, new_ext.as_str());
        },
        ThreatSignal::CanaryTouched { canary_path, .. } => {
            push_str(out, "Canary file touched: ");
            push_str(out, canary_path.as_str());
        },
        ThreatSignal::ShadowDeleteAttempt { command_line, .. } => {
            push_str(out, "Shadow delete attempt: ");
            push_str(out, command_line.as_str());
        },
        ThreatSignal::SuspiciousRename { path, .. } => {
            push_str(out, "Suspicious rename: ");
            push_str(out, path.as_str());
        },
        ThreatSignal::RansomNoteCreated { path, .. } => {
            push_str(out, "Ransom note created: ");
            push_str(out, path.as_str());
        },
    }
}

/// A signal described for the model.
pub fn signal_description(signal: &ThreatSignal) -> (r: String)
    ensures
        r@ == signal_description_text(signal@),
{
    let mut out: Vec<char> = Vec::new();
    push_signal_description(&mut out, signal);
    string_of(out.as_slice())
}

/// An action described for the model.
pub open spec fn action_description_text(a: ResponseAction) -> Seq<char> {
    match a {
        ResponseAction::ProcessTreeKilled { root_pid, killed_pids } => "Killed process tree (root pid="@
            + decimal(root_pid as nat) + ", "@ + decimal(killed_pids@.len()) + " total)"@,
        ResponseAction::NetworkBlocked { pid, rule_name } => "Blocked outbound network for pid="@
            + decimal(pid as nat) + " ("@ + rule_name@ + ")"@,
        ResponseAction::RollbackStarted { snapshot_id, target_paths } => "Started rollback from "@
            + snapshot_id@ + " ("@ + decimal(target_paths@.len()) + " files)"@,
        ResponseAction::RollbackCompleted { files_restored, .. } => "Rollback complete: "@
            + decimal(files_restored as nat) + " files restored"@,
        ResponseAction::ReportGenerated { path } => "Report saved to "@ + path@,
        ResponseAction::DryRun { would_have } => "[DRY-RUN] Would have: "@ + would_have@,
    }
}

fn push_action_description(out: &mut Vec<char>, action: &ResponseAction)
    ensures
        final(out)@ == old(out)@ + action_description_text(*action),
{
    match action {
        ResponseAction::ProcessTreeKilled { root_pid, killed_pids } => {
            push_str(out, "Killed process tree (root pid=");
            push_decimal(out, *root_pid as u64);
            push_str(out, ", ");
            push_decimal(out, killed_pids.len() as u64);
            push_str(out, " total)");
        },
        ResponseAction::NetworkBlocked { pid, rule_name } => {
            push_str(out, "Blocked outbound network for pid=");
            push_decimal(out, *pid as u64);
            push_str(out, " (");
            push_str(out, rule_name.as_str());
            push_str(out, ")");
        },
        ResponseAction::RollbackStarted { snapshot_id, target_paths } => {
            push_str(out, "Started rollback from ");
            push_str(out, snapshot_id.as_str());
            push_str(out, " (");
            push_decimal(out, target_paths.len() as u64);
            push_str(out, " files)");
        },
        ResponseAction::RollbackCompleted { files_restored, .. } => {
            push_str(out, "Rollback complete: ");
            push_decimal(out, *files_restored as u64);
            push_str(out, " files restored");
        },
        ResponseAction::ReportGenerated { path } => {
            push_str(out, "Report saved to ");
            push_str(out, path.as_str());
        },
        ResponseAction::DryRun { would_have } => {
            push_str(out, "[DRY-RUN] Would have: ");
            push_str(out, would_have.as_str());
        },
    }
}

/// An action described for the model.
pub fn action_description(action: &ResponseAction) -> (r: String)
    ensures
        r@ == action_description_text(*action),
{
    let mut out: Vec<char> = Vec::new();
    push_action_description(&mut out, action);
    string_of(out.as_slice())
}

/// The opening of the prompt, up to the start time.
pub const PROMPT_HEAD: &'static str = "You are AegisOne, an AI security agent. A ransomware incident was detected and contained.\nWrite a clear, concise plain-English incident summary (3-5 sentences) for a non-technical user.\nExplain what was detected, what happened to their files, and what was done to protect them.\nBe reassuring but honest. Do not use jargon.\n\nIncident data:\n- Started: ";

/// The close of the prompt, after the actions.
pub const PROMPT_TAIL: &'static str = "\n\nWrite the summary now (plain text, no markdown, 3-5 sentences):";

/// The prompt line of a scored event.
pub open spec fn signal_line(e: EventView) -> Seq<char> {
    "  - "@ + signal_description_text(e.signal) + " (+"@ + decimal(e.delta as nat) + " pts)"@
}

/// The prompt line of an action.
pub open spec fn action_line(a: ResponseAction) -> Seq<char> {
    "  - "@ + action_description_text(a)
}

/// The prompt for an incident that started at the text `started`.
pub open spec fn prompt_text(inc: Incident, started: Seq<char>) -> Seq<char> {
    PROMPT_HEAD@ + started + "\n- Threat level: "@ + inc.peak_level.spec_name() + "\n- Score: "@
        + decimal(inc.final_score.0 as nat) + " points\n- Affected files: "@ + decimal(
        inc.affected_paths@.len(),
    ) + "\n\nDetection signals:\n"@ + join_lines(
        event_views(inc.events@).map_values(|e: EventView| signal_line(e)),
    ) + "\n\nActions taken:\n"@ + join_lines(
        inc.actions_taken@.map_values(|a: ResponseAction| action_line(a)),
    ) + PROMPT_TAIL@
}

/// The prompt for `incident`, given the text `started` of its start time.
pub fn compose_prompt(incident: &Incident, started: &str) -> (r: String)
    ensures
        r@ == prompt_text(*incident, started@),
{
    let mut out: Vec<char> = Vec::new();
    push_str(&mut out, PROMPT_HEAD);
    push_str(&mut out, started);
    push_str(&mut out, "\n- Threat level: ");
    push_str(&mut out, incident.peak_level.name());
    push_str(&mut out, "\n- Score: ");
    push_decimal(&mut out, incident.final_score.0 as u64);
    push_str(&mut out, " points\n- Affected files: ");
    push_decimal(&mut out, incident.affected_paths.len() as u64);
    push_str(&mut out, "\n\nDetection signals:\n");
    let ghost ev = event_views(incident.events@);
    let mut lines: Vec<Vec<char>> = Vec::new();
    let mut i: usize = 0;
    while i < incident.events.len()
        invariant
            i <= incident.events@.len(),
            ev == event_views(incident.events@),
            lines@.len() == i,
            forall|j: int| 0 <= j < i ==> (#[trigger] lines@[j])@ == signal_line(ev[j]),
        decreases incident.events@.len() - i,
    {
        let e = &incident.events[i];
        let mut line: Vec<char> = Vec::new();
        push_str(&mut line, "  - ");
        push_signal_description(&mut line, &e.signal);
        push_str(&mut line, " (+");
        push_decimal(&mut line, e.delta as u64);
        push_str(&mut line, " pts)");
        lines.push(line);
        i = i + 1;
    }
    assert(views(lines@) =~= ev.map_values(|e: EventView| signal_line(e)));
    let joined = join_with_newlines(&lines);
    push_chars(&mut out, joined.as_slice());
    push_str(&mut out, "\n\nActions taken:\n");
    let mut alines: Vec<Vec<char>> = Vec::new();
    let mut k: usize = 0;
    while k < incident.actions_taken.len()
        invariant
            k <= incident.actions_taken@.len(),
            alines@.len() == k,
            forall|j: int|
                0 <= j < k ==> (#[trigger] alines@[j])@ == action_line(incident.actions_taken@[j]),
        decreases incident.actions_taken@.len() - k,
    {
        let mut line: Vec<char> = Vec::new();
        push_str(&mut line, "  - ");
        push_action_description(&mut line, &incident.actions_taken[k]);
        alines.push(line);
        k = k + 1;
    }
    assert(views(alines@) =~= incident.actions_taken@.map_values(
        |a: ResponseAction| action_line(a),
    ));
    let ajoined = join_with_newlines(&alines);
    push_chars(&mut out, ajoined.as_slice());
    push_str(&mut out, PROMPT_TAIL);
    string_of(out.as_slice())
}

/// The prompt for `incident`, or `None` where chrono has no text for its start time.
pub fn build_prompt(incident: &Incident) -> (r: Option<String>)
    ensures
        match r {
            Some(s) => datetime_text(incident.started_at) matches Some(t) && s@ == prompt_text(
                *incident,
                t,
            ),
            None => datetime_text(incident.started_at) is None,
        },
        -8_000_000_000_000_000 <= incident.started_at <= 8_000_000_000_000_000 ==> r is Some,
{
    match format_utc(incident.started_at, DATETIME_PATTERN) {
        Some(t) => Some(compose_prompt(incident, t.as_str())),
        None => None,
    }
}

/// The endpoint of the generate call of the Ollama server at `base`.
pub open spec fn endpoint_text(base: Seq<char>) -> Seq<char> {
    trim_end_char_spec(base, '/') + "/api/generate"@
}

/// The endpoint of the generate call of the Ollama server at `base`, without doubled slashes.
pub fn ollama_endpoint(base: &str) -> (r: String)
    ensures
        r@ == endpoint_text(base@),
{
    let b = chars_of(base);
    let mut out = trim_end_char(b.as_slice(), '/');
    push_str(&mut out, "/api/generate");
    string_of(out.as_slice())
}

/// The narrative kept of the model's reply: the reply without surrounding white space.
pub fn reply_narrative(reply: &str) -> (r: String)
    ensures
        r@ == trim_spec(reply@),
{
    let c = chars_of(reply);
    let t = trim(c.as_slice());
    string_of(t.as_slice())
}

} // verus!
