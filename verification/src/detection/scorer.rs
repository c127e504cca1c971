//! The scoring engine: per-process score windows fed by filesystem events.
//!
//! Monotonic time is in nanoseconds; wall-clock time in milliseconds since the Unix epoch.

use std::collections::HashMap;
use std::sync::atomic::AtomicU64;
use vstd::prelude::*;
use crate::config::ScoringConfig;
use crate::detection::patterns::{
    is_ransom_note, is_ransomware_extension, looks_random_extension, random_extension_shape,
    ransom_note_spec, ransomware_extension_spec, string_views,
};
use crate::events::types::{
    event_views, AlertMsg, AlertView, EventView, FsEventKind, Incident, IncidentView, RawFsEvent,
    Score, ScoredEvent, SignalView, ThreatLevel, ThreatSignal, copy_events,
};
use crate::ids::{new_incident_id, next_event_id};
use crate::paths::{
    ext_reading, name_reading, opt_text, parent_reading, path_extension, path_file_name,
    path_parent,
};
use crate::text::{str_lowercase, to_lowercase};

verus! {

broadcast use vstd::std_specs::hash::group_hash_axioms;

/// Time from `since` to `now`, or zero when `now` is earlier.
pub open spec fn elapsed_ns(now: u64, since: u64) -> u64 {
    if now >= since {
        (now - since) as u64
    } else {
        0
    }
}

/// Whole seconds from `since` to `now`.
pub open spec fn elapsed_secs(now: u64, since: u64) -> u64 {
    elapsed_ns(now, since) / 1_000_000_000
}

fn elapsed_of(now: u64, since: u64) -> (r: u64)
    ensures
        r == elapsed_ns(now, since),
{
    if now >= since {
        now - since
    } else {
        0
    }
}

/// Whether some string of `v` holds the characters of `s`.
pub fn contains_string(v: &Vec<String>, s: &String) -> (r: bool)
    ensures
        r == string_views(v@).contains(s@),
{
    let mut i: usize = 0;
    while i < v.len()
        invariant
            i <= v@.len(),
            forall|j: int| 0 <= j < i ==> v@[j]@ != s@,
        decreases v@.len() - i,
    {
        if v[i] == *s {
            assert(string_views(v@)[i as int] == s@);
            return true;
        }
        i = i + 1;
    }
    assert forall|j: int| 0 <= j < string_views(v@).len() implies string_views(v@)[j] != s@ by {
        assert(string_views(v@)[j] == v@[j]@);
    }
    false
}

/// The score window of one process.
pub struct ScoreWindow {
    pub pid: u32,
    pub score: Score,
    pub started_at: u64,
    pub events: Vec<ScoredEvent>,
    /// Distinct directories written since the last spread bonus.
    pub dir_set: Vec<String>,
    pub last_signal: u64,
    pub peak_level: ThreatLevel,
}

/// A score window as values.
pub struct WindowView {
    pub pid: u32,
    pub score: u32,
    pub started_at: u64,
    pub events: Seq<EventView>,
    pub dirs: Seq<Seq<char>>,
    pub last_signal: u64,
    pub peak_level: ThreatLevel,
}

impl View for ScoreWindow {
    type V = WindowView;

    open spec fn view(&self) -> WindowView {
        WindowView {
            pid: self.pid,
            score: self.score.0,
            started_at: self.started_at,
            events: event_views(self.events@),
            dirs: string_views(self.dir_set@),
            last_signal: self.last_signal,
            peak_level: self.peak_level,
        }
    }
}

/// A new window for `pid` opened at `now`.
pub open spec fn fresh_window(pid: u32, now: u64) -> WindowView {
    WindowView {
        pid,
        score: 0,
        started_at: now,
        events: Seq::empty(),
        dirs: Seq::empty(),
        last_signal: now,
        peak_level: ThreatLevel::Nominal,
    }
}

/// The window of `pid`, or a new one opened at `now`.
pub open spec fn current(ws: Map<u32, WindowView>, pid: u32, now: u64) -> WindowView {
    if ws.contains_key(pid) {
        ws[pid]
    } else {
        fresh_window(pid, now)
    }
}

/// A window after it expired with a score worth watching: half the score, and a fresh start.
pub open spec fn decayed(w: WindowView, now: u64) -> WindowView {
    WindowView {
        score: w.score / 2,
        events: Seq::empty(),
        dirs: Seq::empty(),
        started_at: now,
        last_signal: now,
        ..w
    }
}

impl ScoreWindow {
    /// A new window for `pid` opened at `now`.
    pub fn new(pid: u32, now: u64) -> (w: Self)
        ensures
            w@ == fresh_window(pid, now),
            w.events@ == Seq::<ScoredEvent>::empty(),
    {
        let w = ScoreWindow {
            pid,
            score: Score(0),
            started_at: now,
            events: Vec::new(),
            dir_set: Vec::new(),
            last_signal: now,
            peak_level: ThreatLevel::Nominal,
        };
        assert(w@.events =~= Seq::<EventView>::empty());
        assert(w@.dirs =~= Seq::<Seq<char>>::empty());
        w
    }

    /// Whether the window has been open for at least `window_secs` whole seconds.
    pub fn is_expired(&self, now: u64, window_secs: u64) -> (r: bool)
        ensures
            r == (elapsed_secs(now, self.started_at) >= window_secs),
    {
        elapsed_of(now, self.started_at) / 1_000_000_000 >= window_secs
    }

    /// Halve the score and start afresh at `now`, keeping the peak level.
    pub fn reset_with_decay(&mut self, now: u64)
        ensures
            final(self)@ == decayed(old(self)@, now),
    {
        self.score = Score(self.score.0 / 2);
        self.events.clear();
        self.dir_set.clear();
        self.started_at = now;
        self.last_signal = now;
        assert(self@.events =~= Seq::<EventView>::empty());
        assert(self@.dirs =~= Seq::<Seq<char>>::empty());
    }
}

/// The extracted parts of an event's path and, for a rename, of its former path.
pub struct PathFacts {
    pub extension: Option<String>,
    pub from_extension: Option<String>,
    pub file_name: Option<String>,
    pub parent: Option<String>,
}

/// Path parts as character sequences.
pub struct FactsView {
    pub extension: Option<Seq<char>>,
    pub from_extension: Option<Seq<char>>,
    pub file_name: Option<Seq<char>>,
    pub parent: Option<Seq<char>>,
}

/// The view of an optional string.
pub open spec fn opt_view(s: Option<String>) -> Option<Seq<char>> {
    opt_text(s)
}

impl View for PathFacts {
    type V = FactsView;

    open spec fn view(&self) -> FactsView {
        FactsView {
            extension: opt_view(self.extension),
            from_extension: opt_view(self.from_extension),
            file_name: opt_view(self.file_name),
            parent: opt_view(self.parent),
        }
    }
}

/// What the path rules say of the parts of `ev`'s paths (`ext_reading`, `name_reading`,
/// `parent_reading`): exact for portable paths, one of the two platforms' readings for
/// plain paths such as `C:\Users\a.txt`; a former extension only for a rename, that of
/// the former path.
pub open spec fn facts_fit(ev: RawFsEvent, f: FactsView) -> bool {
    &&& ext_reading(ev.path@, f.extension)
    &&& name_reading(ev.path@, f.file_name)
    &&& parent_reading(ev.path@, f.parent)
    &&& match ev.kind {
        FsEventKind::Renamed { from } => ext_reading(from@, f.from_extension),
        _ => f.from_extension is None,
    }
}

impl PathFacts {
    /// The parts of the paths of `ev`, as the platform's path rules extract them (see
    /// `facts_fit`).
    pub fn of(ev: &RawFsEvent) -> (r: Self)
        ensures
            facts_fit(*ev, r@),
    {
        let from_extension = match &ev.kind {
            FsEventKind::Renamed { from } => path_extension(from.as_str()),
            _ => None,
        };
        let parent = path_parent(ev.path.as_str());
        PathFacts {
            extension: path_extension(ev.path.as_str()),
            from_extension,
            file_name: path_file_name(ev.path.as_str()),
            parent,
        }
    }
}

/// The text of an extension as the scorer compares it: a dot and the lowercase extension,
/// or nothing.
pub open spec fn ext_text(e: Option<Seq<char>>) -> Seq<char> {
    match e {
        Some(x) => seq!['.'] + str_lowercase(x),
        None => Seq::empty(),
    }
}

fn ext_text_exec(e: &Option<String>) -> (r: String)
    ensures
        r@ == ext_text(opt_view(*e)),
{
    match e {
        Some(x) => {
            let lower = to_lowercase(x.as_str());
            let mut r = String::from_str(".");
            proof {
                reveal_strlit(".");
            }
            r.append(lower.as_str());
            assert(r@ =~= seq!['.'] + str_lowercase(x@));
            r
        },
        None => String::new(),
    }
}

/// The signal an event raises by itself and its points: a touched canary (50), a rename to
/// a ransomware extension (40) or to a random-looking one (25), or a created ransom note (50).
pub open spec fn detect_spec(
    cfg: ScoringConfig,
    canaries: Seq<Seq<char>>,
    path: Seq<char>,
    kind: FsEventKind,
    pid: Option<u32>,
    f: FactsView,
) -> Option<(SignalView, u32)> {
    if canaries.contains(path) {
        Some((SignalView::CanaryTouched { canary_path: path, pid }, 50u32))
    } else {
        match kind {
            FsEventKind::Renamed { .. } => {
                let n = ext_text(f.extension);
                let o = ext_text(f.from_extension);
                if ransomware_extension_spec(n, string_views(cfg.known_ransomware_extensions@)) {
                    Some(
                        (
                            SignalView::ExtensionChange { path, old_ext: o, new_ext: n, pid },
                            40u32,
                        ),
                    )
                } else if random_extension_shape(n) {
                    Some((SignalView::SuspiciousRename { path, pid }, 25u32))
                } else {
                    None
                }
            },
            FsEventKind::Created => match f.file_name {
                Some(name) => if ransom_note_spec(name, string_views(cfg.ransom_note_filenames@)) {
                    Some((SignalView::RansomNoteCreated { path, pid }, 50u32))
                } else {
                    None
                },
                None => None,
            },
            _ => None,
        }
    }
}


/// The window of `pid` after a signal worth `pts` points: the score grows, the signal time
/// becomes `now`, the peak level rises if needed and the scored event is recorded.
pub open spec fn after_signal(
    ws: Map<u32, WindowView>,
    pid: u32,
    sig: SignalView,
    pts: u32,
    ts: i64,
    now: u64,
    cfg: ScoringConfig,
) -> WindowView {
    let w0 = current(ws, pid, now);
    let s = (w0.score + pts) as u32;
    let level = ThreatLevel::level_of(
        s,
        cfg.elevated_threshold,
        cfg.high_threshold,
        cfg.critical_threshold,
    );
    let e = EventView { ts, signal: sig, delta: pts, cumulative: s, level };
    WindowView {
        score: s,
        last_signal: now,
        peak_level: if level.spec_rank() > w0.peak_level.spec_rank() {
            level
        } else {
            w0.peak_level
        },
        events: w0.events.push(e),
        ..w0
    }
}

/// The files named by a list of events, in order.
pub open spec fn affected_of(evs: Seq<EventView>) -> Seq<Seq<char>>
    decreases evs.len(),
{
    if evs.len() == 0 {
        Seq::empty()
    } else {
        affected_of(evs.drop_last()) + match evs.last().signal.path() {
            Some(p) => seq![p],
            None => Seq::empty(),
        }
    }
}

/// The incident a critical window becomes: it started when the window opened (counted in
/// whole seconds back from `wall`) and closes at `wall`.
pub open spec fn incident_of(w: WindowView, wall: i64, now: u64) -> IncidentView {
    IncidentView {
        started_at: (wall - elapsed_secs(now, w.started_at) * 1000) as i64,
        closed_at: wall,
        peak_level: w.peak_level,
        final_score: w.score,
        events: w.events,
        affected_paths: affected_of(w.events),
        primary_pid: if w.pid == 0 {
            None
        } else {
            Some(w.pid)
        },
        process_info: None,
        actions_taken: Seq::empty(),
        snapshot_used: None,
        report_path: None,
    }
}

/// The alert a window's last event raises: none at Nominal, an incident at Critical.
pub open spec fn alert_of(w: WindowView, wall: i64, now: u64) -> Option<AlertView> {
    let e = w.events.last();
    if e.level == ThreatLevel::Nominal {
        None
    } else {
        Some(
            AlertView {
                event: e,
                incident: if e.level == ThreatLevel::Critical {
                    Some(incident_of(w, wall, now))
                } else {
                    None
                },
            },
        )
    }
}

/// The view of an optional alert.
pub open spec fn alert_view(a: Option<AlertMsg>) -> Option<AlertView> {
    match a {
        Some(m) => Some(m@),
        None => None,
    }
}

/// The window of `pid` after a write in directory `dir`: the directory joins the set, and
/// once the set is large enough and the last signal recent enough, the spread bonus is
/// added and the set emptied.
pub open spec fn after_spread(
    ws: Map<u32, WindowView>,
    pid: u32,
    dir: Seq<char>,
    now: u64,
    cfg: ScoringConfig,
) -> WindowView {
    let w0 = current(ws, pid, now);
    let dirs = if w0.dirs.contains(dir) {
        w0.dirs
    } else {
        w0.dirs.push(dir)
    };
    if dirs.len() >= cfg.multi_dir_bonus_dirs && elapsed_secs(now, w0.last_signal)
        <= cfg.multi_dir_bonus_secs && cfg.multi_dir_bonus_pts > 0 {
        WindowView {
            score: (w0.score + cfg.multi_dir_bonus_pts) as u32,
            dirs: Seq::empty(),
            ..w0
        }
    } else {
        WindowView { dirs, ..w0 }
    }
}

/// The write counter of `pid` before a write at `now`.
pub open spec fn burst_prior(b: Map<u32, (u32, u64)>, pid: u32, now: u64) -> (u32, u64) {
    if b.contains_key(pid) {
        b[pid]
    } else {
        (0, now)
    }
}

/// The measuring interval: the elapsed time, but at least a millisecond.
pub open spec fn effective_ns(el: u64) -> u64 {
    if el < 1_000_000 {
        1_000_000
    } else {
        el
    }
}

/// The write counter of `pid` after a write at `now`: restarted when more than a second
/// has passed, else one more.
pub open spec fn burst_entry_after(b: Map<u32, (u32, u64)>, pid: u32, now: u64) -> (u32, u64) {
    let (c0, s0) = burst_prior(b, pid, now);
    if elapsed_ns(now, s0) > 1_000_000_000 {
        (1u32, now)
    } else {
        ((c0 + 1) as u32, s0)
    }
}

/// The write rate of `pid` at `now`, in thousandths of a file per second, rounded down.
pub open spec fn burst_rate(b: Map<u32, (u32, u64)>, pid: u32, now: u64) -> u64 {
    let (c0, s0) = burst_prior(b, pid, now);
    (((c0 + 1) * 1_000_000_000_000) / (effective_ns(elapsed_ns(now, s0)) as int)) as u64
}

/// Points for the write rate: 25 at or above the high rate, 10 at or above the medium one.
pub open spec fn burst_points(b: Map<u32, (u32, u64)>, pid: u32, now: u64, cfg: ScoringConfig) -> u32 {
    let (c0, s0) = burst_prior(b, pid, now);
    let num = (c0 + 1) * 1_000_000_000_000;
    let eff = effective_ns(elapsed_ns(now, s0));
    if num >= cfg.burst_high_milli_per_sec * eff {
        25
    } else if num >= cfg.burst_med_milli_per_sec * eff {
        10
    } else {
        0
    }
}

/// The scorer's state as values.
pub struct ScorerView {
    pub windows: Map<u32, WindowView>,
    pub burst: Map<u32, (u32, u64)>,
}

/// What one event leads to, besides the new state: an alert, and whether the file's
/// entropy is to be measured.
pub open spec fn step_spec(
    v: ScorerView,
    cfg: ScoringConfig,
    canaries: Seq<Seq<char>>,
    ev: RawFsEvent,
    f: FactsView,
    now: u64,
    wall: i64,
) -> (ScorerView, Option<AlertView>, bool) {
    let pid = match ev.pid {
        Some(p) => p,
        None => 0,
    };
    match detect_spec(cfg, canaries, ev.path@, ev.kind, ev.pid, f) {
        Some((sig, pts)) => {
            let w = after_signal(v.windows, pid, sig, pts, ev.ts, now, cfg);
            (ScorerView { windows: v.windows.insert(pid, w), burst: v.burst }, alert_of(w, wall, now), false)
        },
        None => if ev.kind is Created || ev.kind is Modified {
            let pts = burst_points(v.burst, pid, now, cfg);
            let b = v.burst.insert(pid, burst_entry_after(v.burst, pid, now));
            let sig = SignalView::BurstWrites {
                path: ev.path@,
                writes_per_sec_milli: burst_rate(v.burst, pid, now),
                pid: ev.pid,
            };
            let w1 = after_signal(v.windows, pid, sig, pts, ev.ts, now, cfg);
            let ws1 = if pts > 0 {
                v.windows.insert(pid, w1)
            } else {
                v.windows
            };
            let alert = if pts > 0 {
                alert_of(w1, wall, now)
            } else {
                None
            };
            let ws2 = match f.parent {
                Some(d) => ws1.insert(pid, after_spread(ws1, pid, d, now, cfg)),
                None => ws1,
            };
            (ScorerView { windows: ws2, burst: b }, alert, true)
        } else {
            (v, None, false)
        },
    }
}

/// Windows after a periodic sweep at `now`: an expired window is halved and restarted if
/// its score reached the Elevated threshold, and dropped otherwise.
pub open spec fn gc_spec(ws: Map<u32, WindowView>, now: u64, cfg: ScoringConfig) -> Map<
    u32,
    WindowView,
> {
    Map::new(
        |k: u32|
            ws.contains_key(k) && !(elapsed_secs(now, ws[k].started_at) >= cfg.window_secs
                && ws[k].score < cfg.elevated_threshold),
        |k: u32|
            if elapsed_secs(now, ws[k].started_at) >= cfg.window_secs {
                decayed(ws[k], now)
            } else {
                ws[k]
            },
    )
}

/// The incident a critical window becomes (see `incident_of`), under a fresh random
/// identifier.
pub fn build_incident(win: &ScoreWindow, now: u64, wall: i64) -> (r: Incident)
    requires
        wall >= i64::MIN / 2,
    ensures
        r@ == incident_of(win@, wall, now),
        r.events@ == win.events@,
{
    let mut affected: Vec<String> = Vec::new();
    let mut i: usize = 0;
    assert(win.events@.take(0) =~= Seq::<ScoredEvent>::empty());
    assert(event_views(win.events@.take(0)) =~= Seq::<EventView>::empty());
    while i < win.events.len()
        invariant
            i <= win.events@.len(),
            string_views(affected@) == affected_of(event_views(win.events@.take(i as int))),
        decreases win.events@.len() - i,
    {
        let ghost before = affected@;
        assert(event_views(win.events@.take(i + 1)) =~= event_views(win.events@.take(i as int)).push(
            win.events@[i as int]@,
        ));
        assert(event_views(win.events@.take(i + 1)).drop_last() =~= event_views(
            win.events@.take(i as int),
        ));
        match win.events[i].signal.path() {
            Some(p) => {
                affected.push(p.clone());
                assert(string_views(affected@) =~= string_views(before) + seq![p@]);
            },
            None => {
                assert(string_views(affected@) =~= string_views(before) + Seq::<Seq<char>>::empty());
            },
        }
        i = i + 1;
    }
    assert(win.events@.take(win.events@.len() as int) =~= win.events@);
    let secs = elapsed_of(now, win.started_at) / 1_000_000_000;
    let back = (secs as i64) * 1000;
    let events = copy_events(&win.events);
    let r = Incident {
        id: new_incident_id(),
        started_at: wall - back,
        closed_at: wall,
        peak_level: win.peak_level,
        final_score: win.score,
        events,
        affected_paths: affected,
        primary_pid: if win.pid == 0 {
            None
        } else {
            Some(win.pid)
        },
        process_info: None,
        actions_taken: Vec::new(),
        snapshot_used: None,
        report_path: None,
    };
    assert(r@.actions_taken =~= Seq::<crate::events::types::ResponseAction>::empty());
    r
}

/// Points for a measured entropy: 20 at or above the high mark, 10 at or above the medium one.
pub open spec fn entropy_points(millibits: u32, cfg: ScoringConfig) -> u32 {
    if millibits >= cfg.entropy_high_millibits {
        20
    } else if millibits >= cfg.entropy_medium_millibits {
        10
    } else {
        0
    }
}

/// The alert for a written file whose sampled entropy is `entropy_millibits`, measured at
/// `wall`: none below the medium mark, else a stand-alone scored event carrying its own
/// points as score and level. Its identifier is drawn from `id_seq`.
pub fn entropy_alert(
    cfg: &ScoringConfig,
    path: String,
    pid: u32,
    entropy_millibits: u32,
    wall: i64,
    id_seq: &AtomicU64,
) -> (r: Option<AlertMsg>)
    ensures
        match r {
            None => entropy_points(entropy_millibits, *cfg) == 0,
            Some(a) => {
                let pts = entropy_points(entropy_millibits, *cfg);
                &&& pts != 0
                &&& a@ == AlertView {
                    event: EventView {
                        ts: wall,
                        signal: SignalView::HighEntropy {
                            path: path@,
                            entropy_millibits,
                            pid: Some(pid),
                        },
                        delta: pts,
                        cumulative: pts,
                        level: ThreatLevel::level_of(
                            pts,
                            cfg.elevated_threshold,
                            cfg.high_threshold,
                            cfg.critical_threshold,
                        ),
                    },
                    incident: None,
                }
            },
        },
{
    let pts: u32 = if entropy_millibits >= cfg.entropy_high_millibits {
        20
    } else if entropy_millibits >= cfg.entropy_medium_millibits {
        10
    } else {
        return None;
    };
    let id = next_event_id(id_seq);
    let level = ThreatLevel::from_score_cfg(Score(pts), cfg);
    let event = ScoredEvent {
        id,
        ts: wall,
        signal: ThreatSignal::HighEntropy { path, entropy_millibits, pid: Some(pid) },
        delta: pts,
        cumulative: Score(pts),
        level,
    };
    Some(AlertMsg { event, incident: None })
}

/// What a process step hands back.
pub struct ScoreOutcome {
    /// The alert for the response orchestrator, if any.
    pub alert: Option<AlertMsg>,
    /// Whether the file's entropy is to be measured now.
    pub check_entropy: bool,
}

/// The scoring engine's state: per-process windows and write counters.
pub struct Scorer {
    pub cfg: ScoringConfig,
    pub canary_paths: Vec<String>,
    pub windows: HashMap<u32, ScoreWindow>,
    pub window_pids: Vec<u32>,
    pub burst: HashMap<u32, (u32, u64)>,
}

impl View for Scorer {
    type V = ScorerView;

    open spec fn view(&self) -> ScorerView {
        ScorerView {
            windows: self.windows@.map_values(|w: ScoreWindow| w@),
            burst: self.burst@,
        }
    }
}

impl Scorer {
    /// Internal consistency: each window is filed under its own process, its directory set
    /// has no repeats, and the list of window processes matches the windows.
    pub open spec fn well_formed(&self) -> bool {
        &&& forall|k: u32| #[trigger]
            self.windows@.contains_key(k) ==> self.windows@[k].pid == k
                && self.windows@[k]@.dirs.no_duplicates()
        &&& self.window_pids@.no_duplicates()
        &&& forall|k: u32| self.windows@.contains_key(k) <==> #[trigger] self.window_pids@.contains(k)
    }

    /// Whether one more event of `pid` cannot overflow its score or write counter: the
    /// largest signal (50 points) plus the spread bonus still fits.
    pub open spec fn headroom(v: ScorerView, cfg: ScoringConfig, pid: u32) -> bool {
        &&& current(v.windows, pid, 0).score + 50 + cfg.multi_dir_bonus_pts <= u32::MAX
        &&& (v.burst.contains_key(pid) ==> v.burst[pid].0 < u32::MAX)
    }

    /// The canary paths as character sequences.
    pub open spec fn canaries(&self) -> Seq<Seq<char>> {
        string_views(self.canary_paths@)
    }

    /// An engine with no windows yet.
    pub fn new(cfg: ScoringConfig, canary_paths: Vec<String>) -> (r: Self)
        ensures
            r.well_formed(),
            r.cfg == cfg,
            r.canary_paths == canary_paths,
            r@.windows == Map::<u32, WindowView>::empty(),
            r@.burst == Map::<u32, (u32, u64)>::empty(),
    {
        let r = Scorer {
            cfg,
            canary_paths,
            windows: HashMap::new(),
            window_pids: Vec::new(),
            burst: HashMap::new(),
        };
        assert(r@.windows =~= Map::<u32, WindowView>::empty());
        r
    }

    /// Consistent apart from the window of `pid`, which is out for an update; `existed`
    /// tells whether it was filed before.
    pub open spec fn well_formed_except(&self, pid: u32, existed: bool) -> bool {
        &&& !self.windows@.contains_key(pid)
        &&& forall|k: u32| #[trigger]
            self.windows@.contains_key(k) ==> self.windows@[k].pid == k
                && self.windows@[k]@.dirs.no_duplicates()
        &&& self.window_pids@.no_duplicates()
        &&& forall|k: u32|
            k != pid ==> (self.windows@.contains_key(k) <==> #[trigger] self.window_pids@.contains(k))
        &&& self.window_pids@.contains(pid) == existed
    }

    /// Take out the window of `pid` for an update, or a new one opened at `now`.
    fn take_window(&mut self, pid: u32, now: u64) -> (r: (ScoreWindow, bool))
        requires
            old(self).well_formed(),
        ensures
            r.0@ == current(old(self)@.windows, pid, now),
            r.0.pid == pid,
            r.0@.dirs.no_duplicates(),
            r.1 == old(self)@.windows.contains_key(pid),
            r.0.events@ == (if r.1 {
                old(self).windows@[pid].events@
            } else {
                Seq::<ScoredEvent>::empty()
            }),
            final(self).well_formed_except(pid, r.1),
            final(self)@.windows == old(self)@.windows.remove(pid),
            final(self)@.burst == old(self)@.burst,
            final(self).cfg == old(self).cfg,
            final(self).canary_paths == old(self).canary_paths,
    {
        let ghost old_windows = self.windows@;
        let existed = self.windows.contains_key(&pid);
        let win = match self.windows.remove(&pid) {
            Some(w) => w,
            None => ScoreWindow::new(pid, now),
        };
        assert(self@.windows =~= old(self)@.windows.remove(pid));
        assert forall|k: u32| #[trigger] self.windows@.contains_key(k) implies self.windows@[k].pid
            == k && self.windows@[k]@.dirs.no_duplicates() by {
            assert(old_windows.contains_key(k));
        }
        (win, existed)
    }

    /// File the updated window of `pid` back.
    fn put_window(&mut self, pid: u32, win: ScoreWindow, existed: bool)
        requires
            old(self).well_formed_except(pid, existed),
            win.pid == pid,
            win@.dirs.no_duplicates(),
        ensures
            final(self).well_formed(),
            final(self)@.windows == old(self)@.windows.insert(pid, win@),
            final(self).windows@ == old(self).windows@.insert(pid, win),
            final(self)@.burst == old(self)@.burst,
            final(self).cfg == old(self).cfg,
            final(self).canary_paths == old(self).canary_paths,
    {
        let ghost old_windows = self.windows@;
        let ghost old_pids = self.window_pids@;
        let ghost w = win@;
        self.windows.insert(pid, win);
        if !existed {
            self.window_pids.push(pid);
        }
        assert(self@.windows =~= old(self)@.windows.insert(pid, w));
        if !existed {
            assert forall|i: int, j: int|
                0 <= i < self.window_pids@.len() && 0 <= j < self.window_pids@.len() && i != j
                implies self.window_pids@[i] != self.window_pids@[j] by {
                if i < old_pids.len() && j < old_pids.len() {
                } else if i < old_pids.len() {
                    assert(old_pids.contains(old_pids[i]));
                } else if j < old_pids.len() {
                    assert(old_pids.contains(old_pids[j]));
                }
            }
        }
        assert(self.window_pids@.no_duplicates());
        assert forall|k: u32| #[trigger] self.windows@.contains_key(k) implies self.windows@[k].pid
            == k && self.windows@[k]@.dirs.no_duplicates() by {
            if k != pid {
                assert(old_windows.contains_key(k));
            }
        }
        assert forall|k: u32|
            self.windows@.contains_key(k) <==> #[trigger] self.window_pids@.contains(k) by {
            if k != pid {
                assert(self.windows@.contains_key(k) == old_windows.contains_key(k));
                if !existed {
                    assert(self.window_pids@ == old_pids.push(pid));
                    assert(self.window_pids@.contains(k) ==> old_pids.contains(k));
                    assert(old_pids.contains(k) ==> self.window_pids@[old_pids.index_of(k)] == k);
                }
            } else {
                if !existed {
                    assert(self.window_pids@[old_pids.len() as int] == pid);
                }
            }
        }
    }

    /// Score a signal of `pts` points for `pid` and build the alert it raises
    /// (see `after_signal` and `alert_of`); `id` identifies the scored event.
    pub fn score_and_emit(
        &mut self,
        pid: u32,
        signal: ThreatSignal,
        pts: u32,
        ts: i64,
        now: u64,
        wall: i64,
        id: u64,
    ) -> (r: Option<AlertMsg>)
        requires
            old(self).well_formed(),
            current(old(self)@.windows, pid, now).score + pts <= u32::MAX,
            wall >= i64::MIN / 2,
        ensures
            final(self).well_formed(),
            final(self).cfg == old(self).cfg,
            final(self).canary_paths == old(self).canary_paths,
            final(self)@.windows == old(self)@.windows.insert(
                pid,
                after_signal(old(self)@.windows, pid, signal@, pts, ts, now, old(self).cfg),
            ),
            final(self)@.burst == old(self)@.burst,
            alert_view(r) == alert_of(
                after_signal(old(self)@.windows, pid, signal@, pts, ts, now, old(self).cfg),
                wall,
                now,
            ),
            final(self).windows@[pid].events@.drop_last() == (if old(self).windows@.contains_key(
                pid,
            ) {
                old(self).windows@[pid].events@
            } else {
                Seq::<ScoredEvent>::empty()
            }),
            final(self).windows@[pid].events@.last().id == id,
            r matches Some(a) ==> a.event == final(self).windows@[pid].events@.last()
                && (a.incident matches Some(i) ==> i.events@ == final(self).windows@[pid].events@),
    {
        let ghost old_ws = self@.windows;
        let ghost sig_view = signal@;
        let (mut win, existed) = self.take_window(pid, now);
        win.score = Score(win.score.0 + pts);
        win.last_signal = now;
        let level = ThreatLevel::from_score_cfg(win.score, &self.cfg);
        if level.above(win.peak_level) {
            win.peak_level = level;
        }
        let scored = ScoredEvent {
            id,
            ts,
            signal,
            delta: pts,
            cumulative: win.score,
            level,
        };
        let ghost before_events = win.events@;
        win.events.push(scored.copied());
        assert(win.events@.drop_last() =~= before_events);
        assert(event_views(win.events@) =~= event_views(before_events).push(scored@));
        assert(win@ == after_signal(old_ws, pid, sig_view, pts, ts, now, self.cfg));
        let incident = if level == ThreatLevel::Critical {
            Some(build_incident(&win, now, wall))
        } else {
            None
        };
        self.put_window(pid, win, existed);
        if level != ThreatLevel::Nominal {
            Some(AlertMsg { event: scored, incident })
        } else {
            None
        }
    }

    /// Count a write of `pid` at `now` and rate the burst (see `burst_points`,
    /// `burst_rate` and `burst_entry_after`); returns the points and the rate.
    pub fn track_burst(&mut self, pid: u32, now: u64) -> (r: (u32, u64))
        requires
            old(self).well_formed(),
            old(self)@.burst.contains_key(pid) ==> old(self)@.burst[pid].0 < u32::MAX,
        ensures
            final(self).well_formed(),
            r.0 == burst_points(old(self)@.burst, pid, now, old(self).cfg),
            r.1 == burst_rate(old(self)@.burst, pid, now),
            final(self)@.burst == old(self)@.burst.insert(
                pid,
                burst_entry_after(old(self)@.burst, pid, now),
            ),
            final(self)@.windows == old(self)@.windows,
            final(self).cfg == old(self).cfg,
            final(self).canary_paths == old(self).canary_paths,
    {
        let (c0, s0) = match self.burst.get(&pid) {
            Some(e) => *e,
            None => (0u32, now),
        };
        assert((c0, s0) == burst_prior(old(self)@.burst, pid, now));
        let c = c0 + 1;
        let el = elapsed_of(now, s0);
        let eff: u64 = if el < 1_000_000 {
            1_000_000
        } else {
            el
        };
        let cw = c as u128;
        assert(cw * 1_000_000_000_000 <= 4294967295u128 * 1_000_000_000_000) by (nonlinear_arith)
            requires
                cw <= 4294967295,
        ;
        let num: u128 = cw * 1_000_000_000_000;
        let ew = eff as u128;
        assert(num / ew <= num / 1_000_000) by (nonlinear_arith)
            requires
                ew >= 1_000_000,
        ;
        assert(num / 1_000_000 <= 4294967295u128 * 1_000_000) by (nonlinear_arith)
            requires
                num <= 4294967295u128 * 1_000_000_000_000,
        ;
        let rate = (num / ew) as u64;
        let entry = if el > 1_000_000_000 {
            (1u32, now)
        } else {
            (c, s0)
        };
        self.burst.insert(pid, entry);
        let hw = self.cfg.burst_high_milli_per_sec as u128;
        let mw = self.cfg.burst_med_milli_per_sec as u128;
        assert(hw * ew <= 18446744073709551615u128 * 18446744073709551615u128) by (nonlinear_arith)
            requires
                hw <= 18446744073709551615u128,
                ew <= 18446744073709551615u128,
        ;
        assert(mw * ew <= 18446744073709551615u128 * 18446744073709551615u128) by (nonlinear_arith)
            requires
                mw <= 18446744073709551615u128,
                ew <= 18446744073709551615u128,
        ;
        let pts: u32 = if num >= hw * ew {
            25
        } else if num >= mw * ew {
            10
        } else {
            0
        };
        (pts, rate)
    }

    /// Record a write of `pid` in directory `dir` and add the spread bonus when it is due
    /// (see `after_spread`).
    pub fn spread_bonus(&mut self, pid: u32, dir: String, now: u64)
        requires
            old(self).well_formed(),
            current(old(self)@.windows, pid, now).score + old(self).cfg.multi_dir_bonus_pts
                <= u32::MAX,
        ensures
            final(self).well_formed(),
            final(self)@.windows == old(self)@.windows.insert(
                pid,
                after_spread(old(self)@.windows, pid, dir@, now, old(self).cfg),
            ),
            final(self)@.burst == old(self)@.burst,
            final(self).cfg == old(self).cfg,
            final(self).canary_paths == old(self).canary_paths,
    {
        let ghost old_ws = self@.windows;
        let ghost d = dir@;
        let (mut win, existed) = self.take_window(pid, now);
        if !contains_string(&win.dir_set, &dir) {
            let ghost before = win.dir_set@;
            win.dir_set.push(dir);
            assert(string_views(win.dir_set@) =~= string_views(before).push(d));
            assert forall|i: int, j: int|
                0 <= i < win@.dirs.len() && 0 <= j < win@.dirs.len() && i != j implies win@.dirs[i]
                != win@.dirs[j] by {
                if i < before.len() && j < before.len() {
                    assert(string_views(before)[i] == win@.dirs[i]);
                    assert(string_views(before)[j] == win@.dirs[j]);
                } else if i < before.len() {
                    assert(string_views(before).contains(string_views(before)[i]));
                } else if j < before.len() {
                    assert(string_views(before).contains(string_views(before)[j]));
                }
            }
        }
        if win.dir_set.len() >= self.cfg.multi_dir_bonus_dirs && elapsed_of(now, win.last_signal)
            / 1_000_000_000 <= self.cfg.multi_dir_bonus_secs {
            let bonus = self.cfg.multi_dir_bonus_pts;
            if bonus > 0 {
                win.score = Score(win.score.0 + bonus);
                win.dir_set.clear();
                assert(win@.dirs =~= Seq::<Seq<char>>::empty());
            }
        }
        assert(win@ == after_spread(old_ws, pid, d, now, self.cfg));
        self.put_window(pid, win, existed);
    }

    /// Process one filesystem event whose path parts are `facts` (see `step_spec`): score
    /// what it signals, count writes, track the directories written and ask for an entropy
    /// check of written files. Scored events draw their identifiers from `id_seq`.
    pub fn process_event_with_facts(
        &mut self,
        ev: &RawFsEvent,
        facts: &PathFacts,
        now: u64,
        wall: i64,
        id_seq: &AtomicU64,
    ) -> (r: ScoreOutcome)
        requires
            old(self).well_formed(),
            Self::headroom(
                old(self)@,
                old(self).cfg,
                match ev.pid {
                    Some(p) => p,
                    None => 0,
                },
            ),
            wall >= i64::MIN / 2,
        ensures
            final(self).well_formed(),
            final(self).cfg == old(self).cfg,
            final(self).canary_paths == old(self).canary_paths,
            final(self)@.windows == step_spec(
                old(self)@,
                old(self).cfg,
                old(self).canaries(),
                *ev,
                facts@,
                now,
                wall,
            ).0.windows,
            final(self)@.burst == step_spec(
                old(self)@,
                old(self).cfg,
                old(self).canaries(),
                *ev,
                facts@,
                now,
                wall,
            ).0.burst,
            alert_view(r.alert) == step_spec(
                old(self)@,
                old(self).cfg,
                old(self).canaries(),
                *ev,
                facts@,
                now,
                wall,
            ).1,
            r.check_entropy == step_spec(
                old(self)@,
                old(self).cfg,
                old(self).canaries(),
                *ev,
                facts@,
                now,
                wall,
            ).2,
    {
        let pid = match ev.pid {
            Some(p) => p,
            None => 0,
        };
        match self.detect(ev, facts) {
            Some((sig, pts)) => {
                let id = next_event_id(id_seq);
                let alert = self.score_and_emit(pid, sig, pts, ev.ts, now, wall, id);
                ScoreOutcome { alert, check_entropy: false }
            },
            None => {
                let is_write = match ev.kind {
                    FsEventKind::Created => true,
                    FsEventKind::Modified => true,
                    _ => false,
                };
                if is_write {
                    let ghost v0 = self@;
                    let (pts, rate) = self.track_burst(pid, now);
                    let alert = if pts > 0 {
                        let id = next_event_id(id_seq);
                        let sig = ThreatSignal::BurstWrites {
                            path: ev.path.clone(),
                            writes_per_sec_milli: rate,
                            pid: ev.pid,
                        };
                        self.score_and_emit(pid, sig, pts, ev.ts, now, wall, id)
                    } else {
                        None
                    };
                    let ghost v1 = self@;
                    match &facts.parent {
                        Some(d) => {
                            self.spread_bonus(pid, d.clone(), now);
                        },
                        None => {},
                    }
                    ScoreOutcome { alert, check_entropy: true }
                } else {
                    ScoreOutcome { alert: None, check_entropy: false }
                }
            },
        }
    }

    /// Process one filesystem event: extract its path parts by the platform's path rules,
    /// then proceed as `process_event_with_facts` does with them.
    pub fn process_event(
        &mut self,
        ev: &RawFsEvent,
        now: u64,
        wall: i64,
        id_seq: &AtomicU64,
    ) -> (r: ScoreOutcome)
        requires
            old(self).well_formed(),
            Self::headroom(
                old(self)@,
                old(self).cfg,
                match ev.pid {
                    Some(p) => p,
                    None => 0,
                },
            ),
            wall >= i64::MIN / 2,
        ensures
            final(self).well_formed(),
            final(self).cfg == old(self).cfg,
            final(self).canary_paths == old(self).canary_paths,
            exists|f: FactsView|
                {
                    let st = #[trigger] step_spec(
                        old(self)@,
                        old(self).cfg,
                        old(self).canaries(),
                        *ev,
                        f,
                        now,
                        wall,
                    );
                    &&& facts_fit(*ev, f)
                    &&& final(self)@.windows == st.0.windows
                    &&& final(self)@.burst == st.0.burst
                    &&& alert_view(r.alert) == st.1
                    &&& r.check_entropy == st.2
                },
    {
        let facts = PathFacts::of(ev);
        let r = self.process_event_with_facts(ev, &facts, now, wall, id_seq);
        let ghost st = step_spec(old(self)@, old(self).cfg, old(self).canaries(), *ev, facts@, now, wall);
        assert(self@.windows == st.0.windows && self@.burst == st.0.burst && alert_view(r.alert)
            == st.1 && r.check_entropy == st.2);
        r
    }

    /// The periodic sweep at `now` (see `gc_spec`): expired windows are halved and
    /// restarted when their score reached the Elevated threshold, and dropped otherwise.
    pub fn gc_windows(&mut self, now: u64)
        requires
            old(self).well_formed(),
        ensures
            final(self).well_formed(),
            final(self)@.windows == gc_spec(old(self)@.windows, now, old(self).cfg),
            final(self)@.burst == old(self)@.burst,
            final(self).cfg == old(self).cfg,
            final(self).canary_paths == old(self).canary_paths,
    {
        let ghost target = gc_spec(old(self)@.windows, now, self.cfg);
        let ghost old_ws = old(self)@.windows;
        let mut pids: Vec<u32> = Vec::new();
        let mut c: usize = 0;
        while c < self.window_pids.len()
            invariant
                c <= self.window_pids@.len(),
                pids@ == self.window_pids@.take(c as int),
            decreases self.window_pids@.len() - c,
        {
            pids.push(self.window_pids[c]);
            c = c + 1;
            assert(pids@ =~= self.window_pids@.take(c as int));
        }
        assert(pids@ =~= self.window_pids@);
        assert forall|j: int| 0 <= j < pids@.len() implies self@.windows.contains_key(
            #[trigger] pids@[j],
        ) && self@.windows[pids@[j]] == old_ws[pids@[j]] by {
            assert(pids@.contains(pids@[j]));
        }
        let mut kept: Vec<u32> = Vec::new();
        let mut i: usize = 0;
        while i < pids.len()
            invariant
                i <= pids@.len(),
                pids@.no_duplicates(),
                self.cfg == old(self).cfg,
                self.canary_paths == old(self).canary_paths,
                self@.burst == old(self)@.burst,
                target == gc_spec(old_ws, now, self.cfg),
                forall|k: u32| old_ws.contains_key(k) <==> #[trigger] pids@.contains(k),
                forall|k: u32| #[trigger]
                    self.windows@.contains_key(k) ==> self.windows@[k].pid == k
                        && self.windows@[k]@.dirs.no_duplicates(),
                forall|j: int|
                    0 <= j < i ==> (self@.windows.contains_key(#[trigger] pids@[j])
                        == target.contains_key(pids@[j])) && (target.contains_key(pids@[j])
                        ==> self@.windows[pids@[j]] == target[pids@[j]]),
                forall|j: int|
                    i <= j < pids@.len() ==> self@.windows.contains_key(#[trigger] pids@[j])
                        && self@.windows[pids@[j]] == old_ws[pids@[j]],
                forall|k: u32| #[trigger] self.windows@.contains_key(k) ==> pids@.contains(k),
                kept@.no_duplicates(),
                forall|k: u32|
                    #[trigger] kept@.contains(k) <==> (pids@.take(i as int).contains(k)
                        && target.contains_key(k)),
            decreases pids@.len() - i,
        {
            let k = pids[i];
            let ghost before = self.windows@;
            let ghost kept_before = kept@;
            assert(!pids@.take(i as int).contains(k));
            assert(before.contains_key(k));
            assert(self@.windows[k] == old_ws[k]);
            let mut keep = false;
            match self.windows.remove(&k) {
                Some(w) => {
                    let mut w = w;
                    let expired = w.is_expired(now, self.cfg.window_secs);
                    keep = !expired || w.score.0 >= self.cfg.elevated_threshold;
                    if keep {
                        if expired {
                            w.reset_with_decay(now);
                        }
                        self.windows.insert(k, w);
                        kept.push(k);
                    }
                },
                None => {},
            }
            assert(keep == target.contains_key(k));
            proof {
                assert(pids@.take(i + 1) =~= pids@.take(i as int).push(k));
                assert forall|j: int| 0 <= j < i + 1 implies (self@.windows.contains_key(
                    #[trigger] pids@[j],
                ) == target.contains_key(pids@[j])) && (target.contains_key(pids@[j])
                    ==> self@.windows[pids@[j]] == target[pids@[j]]) by {
                    if j < i {
                        assert(pids@[j] != k);
                    }
                }
                assert forall|j: int| i + 1 <= j < pids@.len() implies self@.windows.contains_key(
                    #[trigger] pids@[j],
                ) && self@.windows[pids@[j]] == old_ws[pids@[j]] by {
                    assert(pids@[j] != k);
                }
                assert forall|k2: u32| #[trigger]
                    self.windows@.contains_key(k2) implies self.windows@[k2].pid == k2
                        && self.windows@[k2]@.dirs.no_duplicates() by {
                    if k2 != k {
                        assert(before.contains_key(k2));
                    }
                }
                assert forall|k2: u32| #[trigger] self.windows@.contains_key(k2) implies pids@.contains(
                    k2,
                ) by {
                    if k2 != k {
                        assert(before.contains_key(k2));
                    }
                }
                assert forall|k2: u32| #[trigger]
                    kept@.contains(k2) <==> (pids@.take(i + 1).contains(k2) && target.contains_key(
                        k2,
                    )) by {
                    assert(pids@.take(i + 1)[i as int] == k);
                    if k2 == k {
                        assert(pids@.take(i + 1).contains(k2));
                        if keep {
                            assert(kept@ == kept_before.push(k));
                            assert(kept@[kept_before.len() as int] == k);
                            assert(kept@.contains(k));
                        } else {
                            assert(kept@ == kept_before);
                        }
                    } else {
                        assert(pids@.take(i + 1).contains(k2) ==> pids@.take(i as int).contains(k2)) by {
                            if pids@.take(i + 1).contains(k2) {
                                let t = pids@.take(i + 1).index_of(k2);
                                assert(pids@.take(i as int)[t] == k2);
                            }
                        }
                        assert(pids@.take(i as int).contains(k2) ==> pids@.take(i + 1).contains(k2)) by {
                            if pids@.take(i as int).contains(k2) {
                                let t = pids@.take(i as int).index_of(k2);
                                assert(pids@.take(i + 1)[t] == k2);
                            }
                        }
                        if !keep {
                            assert(kept@ == kept_before);
                        }
                        if keep {
                            assert(kept@ == kept_before.push(k));
                            assert(kept@.contains(k2) ==> kept_before.contains(k2));
                            assert(kept_before.contains(k2) ==> kept@[kept_before.index_of(k2)]
                                == k2);
                        }
                    }
                }
                if keep {
                    assert forall|a: int, b: int|
                        0 <= a < kept@.len() && 0 <= b < kept@.len() && a != b implies kept@[a]
                        != kept@[b] by {
                        if a < kept_before.len() && b < kept_before.len() {
                        } else if a < kept_before.len() {
                            assert(kept_before.contains(kept_before[a]));
                        } else if b < kept_before.len() {
                            assert(kept_before.contains(kept_before[b]));
                        }
                    }
                }
            }
            i = i + 1;
        }
        self.window_pids = kept;
        assert(pids@.take(pids@.len() as int) =~= pids@);
        assert forall|k: u32| self@.windows.contains_key(k) == target.contains_key(k) by {
            if target.contains_key(k) {
                assert(pids@.contains(k));
                let j = pids@.index_of(k);
                assert(pids@[j] == k);
            }
            if self@.windows.contains_key(k) {
                assert(pids@.contains(k));
                let j = pids@.index_of(k);
                assert(pids@[j] == k);
            }
        }
        assert forall|k: u32| #[trigger] self@.windows.contains_key(k) implies self@.windows[k]
            == target[k] by {
            let j = pids@.index_of(k);
            assert(pids@[j] == k);
        }
        assert(self@.windows =~= target);
    }

    /// Whether one more event of `pid` cannot overflow its score or write counter.
    pub fn has_headroom(&self, pid: u32) -> (r: bool)
        requires
            self.well_formed(),
        ensures
            r == Self::headroom(self@, self.cfg, pid),
    {
        let score: u64 = match self.windows.get(&pid) {
            Some(w) => w.score.0 as u64,
            None => 0,
        };
        let burst_ok = match self.burst.get(&pid) {
            Some(e) => e.0 < u32::MAX,
            None => true,
        };
        score + 50 + self.cfg.multi_dir_bonus_pts as u64 <= u32::MAX as u64 && burst_ok
    }

    /// The signal the event raises by itself, with its points (see `detect_spec`).
    pub fn detect(&self, ev: &RawFsEvent, facts: &PathFacts) -> (r: Option<(ThreatSignal, u32)>)
        ensures
            match r {
                Some((sig, pts)) => detect_spec(
                    self.cfg,
                    self.canaries(),
                    ev.path@,
                    ev.kind,
                    ev.pid,
                    facts@,
                ) == Some((sig@, pts)),
                None => detect_spec(
                    self.cfg,
                    self.canaries(),
                    ev.path@,
                    ev.kind,
                    ev.pid,
                    facts@,
                ) is None,
            },
    {
        let pid = ev.pid;
        if contains_string(&self.canary_paths, &ev.path) {
            return Some((ThreatSignal::CanaryTouched { canary_path: ev.path.clone(), pid }, 50));
        }
        match &ev.kind {
            FsEventKind::Renamed { .. } => {
                let new_ext = ext_text_exec(&facts.extension);
                let old_ext = ext_text_exec(&facts.from_extension);
                if is_ransomware_extension(
                    new_ext.as_str(),
                    self.cfg.known_ransomware_extensions.as_slice(),
                ) {
                    return Some(
                        (
                            ThreatSignal::ExtensionChange {
                                path: ev.path.clone(),
                                old_ext,
                                new_ext,
                                pid,
                            },
                            40,
                        ),
                    );
                }
                if looks_random_extension(new_ext.as_str()) {
                    return Some((ThreatSignal::SuspiciousRename { path: ev.path.clone(), pid }, 25));
                }
                None
            },
            FsEventKind::Created => match &facts.file_name {
                Some(name) => {
                    if is_ransom_note(name.as_str(), self.cfg.ransom_note_filenames.as_slice()) {
                        Some((ThreatSignal::RansomNoteCreated { path: ev.path.clone(), pid }, 50))
                    } else {
                        None
                    }
                },
                None => None,
            },
            _ => None,
        }
    }
}

/// A higher score never has a lower level, whatever the thresholds.
pub proof fn lemma_level_monotone(s1: u32, s2: u32, elevated: u32, high: u32, critical: u32)
    requires
        s1 <= s2,
    ensures
        ThreatLevel::level_of(s1, elevated, high, critical).spec_rank() <= ThreatLevel::level_of(
            s2,
            elevated,
            high,
            critical,
        ).spec_rank(),
{
}

/// A signal adds its points to the window's score and records one event at the level of
/// the new score; the peak level never falls and is never below that level.
pub proof fn lemma_signal_raises_peak(
    ws: Map<u32, WindowView>,
    pid: u32,
    sig: SignalView,
    pts: u32,
    ts: i64,
    now: u64,
    cfg: ScoringConfig,
)
    requires
        current(ws, pid, now).score + pts <= u32::MAX,
    ensures
        ({
            let w0 = current(ws, pid, now);
            let w = after_signal(ws, pid, sig, pts, ts, now, cfg);
            &&& w.score == w0.score + pts
            &&& w.events.len() == w0.events.len() + 1
            &&& w.events.last().delta == pts
            &&& w.events.last().cumulative == w.score
            &&& w.events.last().level == ThreatLevel::level_of(
                w.score,
                cfg.elevated_threshold,
                cfg.high_threshold,
                cfg.critical_threshold,
            )
            &&& w.peak_level.spec_rank() >= w0.peak_level.spec_rank()
            &&& w.peak_level.spec_rank() >= w.events.last().level.spec_rank()
        }),
{
}

/// A touched canary scores 50 points, whatever kind of event touched it.
pub proof fn lemma_canary_scores_fifty(
    cfg: ScoringConfig,
    canaries: Seq<Seq<char>>,
    path: Seq<char>,
    kind: FsEventKind,
    pid: Option<u32>,
    f: FactsView,
)
    requires
        canaries.contains(path),
    ensures
        detect_spec(cfg, canaries, path, kind, pid, f) == Some(
            (SignalView::CanaryTouched { canary_path: path, pid }, 50u32),
        ),
{
}

/// A window raises an alert exactly when its last event is above Nominal, and the alert
/// carries an incident exactly when that level is Critical.
pub proof fn lemma_alert_levels(w: WindowView, wall: i64, now: u64)
    ensures
        alert_of(w, wall, now) is Some <==> w.events.last().level != ThreatLevel::Nominal,
        alert_of(w, wall, now) matches Some(a) ==> (a.incident is Some <==> w.events.last().level
            == ThreatLevel::Critical),
{
}

/// An incident closes no earlier than it started.
pub proof fn lemma_incident_interval(w: WindowView, wall: i64, now: u64)
    requires
        wall >= i64::MIN / 2,
    ensures
        incident_of(w, wall, now).started_at <= incident_of(w, wall, now).closed_at,
        incident_of(w, wall, now).closed_at == wall,
{
    assert(elapsed_secs(now, w.started_at) * 1000 <= u64::MAX / 1_000_000_000 * 1000) by (nonlinear_arith)
        requires
            elapsed_secs(now, w.started_at) <= u64::MAX / 1_000_000_000,
    ;
}

/// The sweep leaves windows that have not expired as they are, drops expired windows below
/// the Elevated threshold, and halves and restarts the others.
pub proof fn lemma_gc_windows(ws: Map<u32, WindowView>, now: u64, cfg: ScoringConfig, k: u32)
    requires
        ws.contains_key(k),
    ensures
        elapsed_secs(now, ws[k].started_at) < cfg.window_secs ==> gc_spec(ws, now, cfg).contains_key(
            k,
        ) && gc_spec(ws, now, cfg)[k] == ws[k],
        elapsed_secs(now, ws[k].started_at) >= cfg.window_secs && ws[k].score
            < cfg.elevated_threshold ==> !gc_spec(ws, now, cfg).contains_key(k),
        elapsed_secs(now, ws[k].started_at) >= cfg.window_secs && ws[k].score
            >= cfg.elevated_threshold ==> gc_spec(ws, now, cfg).contains_key(k) && gc_spec(
            ws,
            now,
            cfg,
        )[k].score == ws[k].score / 2 && gc_spec(ws, now, cfg)[k].events.len() == 0
            && gc_spec(ws, now, cfg)[k].peak_level == ws[k].peak_level,
{
}

/// The spread bonus: a write in a directory new to the window that brings its distinct
/// directories to `multi_dir_bonus_dirs`, within `multi_dir_bonus_secs` of its last signal,
/// adds `multi_dir_bonus_pts` (when positive) to the score and empties the directory set;
/// the window's other parts stay.
pub proof fn lemma_spread_bonus(
    ws: Map<u32, WindowView>,
    pid: u32,
    dir: Seq<char>,
    now: u64,
    cfg: ScoringConfig,
)
    requires
        current(ws, pid, now).dirs.no_duplicates(),
        !current(ws, pid, now).dirs.contains(dir),
        current(ws, pid, now).dirs.len() + 1 >= cfg.multi_dir_bonus_dirs,
        elapsed_secs(now, current(ws, pid, now).last_signal) <= cfg.multi_dir_bonus_secs,
        cfg.multi_dir_bonus_pts > 0,
        current(ws, pid, now).score + cfg.multi_dir_bonus_pts <= u32::MAX,
    ensures
        ({
            let w0 = current(ws, pid, now);
            let w = after_spread(ws, pid, dir, now, cfg);
            &&& w.score == w0.score + cfg.multi_dir_bonus_pts
            &&& w.dirs.len() == 0
            &&& w.events == w0.events
            &&& w.started_at == w0.started_at
            &&& w.last_signal == w0.last_signal
            &&& w.peak_level == w0.peak_level
            &&& w.pid == w0.pid
        }),
{
}

/// Below the spread threshold, a write in a new directory only records it: the set grows by
/// that directory, still without repeats, and the score stays.
pub proof fn lemma_spread_records_dir(
    ws: Map<u32, WindowView>,
    pid: u32,
    dir: Seq<char>,
    now: u64,
    cfg: ScoringConfig,
)
    requires
        current(ws, pid, now).dirs.no_duplicates(),
        !current(ws, pid, now).dirs.contains(dir),
        current(ws, pid, now).dirs.len() + 1 < cfg.multi_dir_bonus_dirs,
    ensures
        ({
            let w0 = current(ws, pid, now);
            let w = after_spread(ws, pid, dir, now, cfg);
            &&& w.score == w0.score
            &&& w.dirs.len() == w0.dirs.len() + 1
            &&& w.dirs.contains(dir)
            &&& forall|d: Seq<char>| w0.dirs.contains(d) ==> w.dirs.contains(d)
            &&& w.dirs.no_duplicates()
        }),
{
    let w0 = current(ws, pid, now);
    let n = w0.dirs.len() as int;
    assert(w0.dirs.push(dir)[n] == dir);
    assert forall|d: Seq<char>| w0.dirs.contains(d) implies w0.dirs.push(dir).contains(d) by {
        let k = choose|k: int| 0 <= k < n && w0.dirs[k] == d;
        assert(w0.dirs.push(dir)[k] == d);
    }
}

/// A write that no detector flags, by a process whose window is due the spread bonus, is
/// scored as a burst and then gets the bonus: the new score is the old one plus the burst
/// points plus `multi_dir_bonus_pts`, and the directory set is empty.
pub proof fn lemma_write_gets_spread_bonus(
    v: ScorerView,
    cfg: ScoringConfig,
    canaries: Seq<Seq<char>>,
    ev: RawFsEvent,
    f: FactsView,
    now: u64,
    wall: i64,
    pid: u32,
    d: Seq<char>,
)
    requires
        ev.pid == Some(pid),
        ev.kind is Created || ev.kind is Modified,
        detect_spec(cfg, canaries, ev.path@, ev.kind, ev.pid, f) is None,
        f.parent == Some(d),
        current(v.windows, pid, now).dirs.no_duplicates(),
        !current(v.windows, pid, now).dirs.contains(d),
        current(v.windows, pid, now).dirs.len() + 1 >= cfg.multi_dir_bonus_dirs,
        elapsed_secs(now, current(v.windows, pid, now).last_signal) <= cfg.multi_dir_bonus_secs,
        cfg.multi_dir_bonus_pts > 0,
        current(v.windows, pid, now).score + burst_points(v.burst, pid, now, cfg)
            + cfg.multi_dir_bonus_pts <= u32::MAX,
    ensures
        ({
            let w0 = current(v.windows, pid, now);
            let w = step_spec(v, cfg, canaries, ev, f, now, wall).0.windows[pid];
            &&& step_spec(v, cfg, canaries, ev, f, now, wall).0.windows.contains_key(pid)
            &&& w.score == w0.score + burst_points(v.burst, pid, now, cfg) + cfg.multi_dir_bonus_pts
            &&& w.dirs.len() == 0
        }),
{
    assert(elapsed_ns(now, now) == 0);
}

/// A window that a sweep at `now` keeps after it expired starts again at `now`: its start
/// and last signal are `now`, and a sweep less than `window_secs` later leaves it as it is.
pub proof fn lemma_gc_restarts(ws: Map<u32, WindowView>, now: u64, later: u64, cfg: ScoringConfig, k: u32)
    requires
        ws.contains_key(k),
        elapsed_secs(now, ws[k].started_at) >= cfg.window_secs,
        ws[k].score >= cfg.elevated_threshold,
        elapsed_secs(later, now) < cfg.window_secs,
    ensures
        gc_spec(ws, now, cfg).contains_key(k),
        gc_spec(ws, now, cfg)[k].started_at == now,
        gc_spec(ws, now, cfg)[k].last_signal == now,
        gc_spec(ws, now, cfg)[k].score == ws[k].score / 2,
        gc_spec(ws, now, cfg)[k].dirs.len() == 0,
        gc_spec(gc_spec(ws, now, cfg), later, cfg).contains_key(k),
        gc_spec(gc_spec(ws, now, cfg), later, cfg)[k] == gc_spec(ws, now, cfg)[k],
{
}

} // verus!
