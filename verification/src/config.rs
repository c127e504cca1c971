//! Agent configuration and its validation.
//!
//! Rates and entropies are integers: entropy in thousandths of a bit per byte, write rates
//! in thousandths of a file per second.

use vstd::prelude::*;
use crate::detection::patterns::{str_views, string_views};
use crate::error::AgentError;

verus! {

/// Owned copies of string literals.
pub fn strings_of(v: Vec<&str>) -> (r: Vec<String>)
    ensures
        string_views(r@) == str_views(v@),
{
    let mut r: Vec<String> = Vec::new();
    let mut i: usize = 0;
    while i < v.len()
        invariant
            i <= v@.len(),
            r@.len() == i,
            string_views(r@) == str_views(v@.take(i as int)),
        decreases v@.len() - i,
    {
        let ghost prev = r@;
        let s = v[i].to_owned();
        r.push(s);
        assert forall|j: int| 0 <= j < i + 1 implies string_views(r@)[j] == str_views(
            v@.take(i + 1),
        )[j] by {
            if j < i {
                assert(r@[j] == prev[j]);
                assert(string_views(prev)[j] == str_views(v@.take(i as int))[j]);
            }
        }
        i = i + 1;
        assert(string_views(r@) =~= str_views(v@.take(i as int)));
    }
    assert(v@.take(v@.len() as int) =~= v@);
    r
}

/// Which files are watched and how they are sampled.
#[derive(Debug, Clone, PartialEq, Eq)]
pub struct WatchConfig {
    /// Directories to watch recursively.
    pub paths: Vec<String>,
    /// File extensions to skip entirely.
    pub skip_extensions: Vec<String>,
    /// Skip entropy analysis for files larger than this (bytes).
    pub entropy_max_file_bytes: u64,
    /// How many bytes to sample from the start of a file for entropy.
    pub entropy_sample_bytes: usize,
    /// Debounce window in milliseconds.
    pub debounce_ms: u64,
}

/// The extensions that are never analysed by default.
pub open spec fn default_skip_extensions() -> Seq<Seq<char>> {
    seq![
        ".mp4"@, ".mp3"@, ".mkv"@, ".avi"@, ".zip"@, ".7z"@, ".gz"@, ".rar"@, ".jpg"@, ".jpeg"@,
        ".png"@, ".gif"@, ".exe"@, ".dll"@, ".sys"@,
    ]
}

impl WatchConfig {
    /// The default watch settings over the directories `paths`.
    pub fn with_paths(paths: Vec<String>) -> (r: Self)
        ensures
            r.paths == paths,
            string_views(r.skip_extensions@) == default_skip_extensions(),
            r.entropy_max_file_bytes == 52428800,
            r.entropy_sample_bytes == 65536,
            r.debounce_ms == 200,
    {
        let v = vec![
            ".mp4", ".mp3", ".mkv", ".avi", ".zip", ".7z", ".gz", ".rar", ".jpg", ".jpeg", ".png",
            ".gif", ".exe", ".dll", ".sys",
        ];
        assert(str_views(v@) =~= default_skip_extensions());
        WatchConfig {
            paths,
            skip_extensions: strings_of(v),
            entropy_max_file_bytes: 50 * 1024 * 1024,
            entropy_sample_bytes: 65536,
            debounce_ms: 200,
        }
    }
}

/// How events are scored.
#[derive(Debug, Clone, PartialEq, Eq)]
pub struct ScoringConfig {
    pub window_secs: u64,
    pub critical_threshold: u32,
    pub high_threshold: u32,
    pub elevated_threshold: u32,
    pub entropy_high_millibits: u32,
    pub entropy_medium_millibits: u32,
    pub burst_high_milli_per_sec: u64,
    pub burst_med_milli_per_sec: u64,
    pub multi_dir_bonus_dirs: usize,
    pub multi_dir_bonus_secs: u64,
    pub multi_dir_bonus_pts: u32,
    pub known_ransomware_extensions: Vec<String>,
    pub ransom_note_filenames: Vec<String>,
}

/// The extensions the default configuration adds to the built-in list.
pub open spec fn default_extra_extensions() -> Seq<Seq<char>> {
    seq![
        ".locked"@, ".encrypted"@, ".crypt"@, ".ryk"@, ".clop"@, ".ransom"@, ".pay2me"@,
        ".wcry"@, ".wncry"@, ".lck"@, ".cerber"@, ".locky"@, ".zepto"@, ".odin"@, ".aesir"@,
        ".shit"@, ".thor"@, ".micro"@, ".cryptolocker"@, ".cryptowall"@,
    ]
}

/// The ransom-note names the default configuration adds to the built-in list.
pub open spec fn default_extra_notes() -> Seq<Seq<char>> {
    seq![
        "README.txt"@, "DECRYPT.txt"@, "HOW_TO_RECOVER.txt"@, "RECOVERY.txt"@, "READ_ME.txt"@,
        "HELP_DECRYPT.txt"@, "YOUR_FILES_ARE_ENCRYPTED.txt"@, "HOW_TO_BUY.txt"@,
        "RANSOM_NOTE.txt"@, "!!!RESTORE_FILES!!!.txt"@,
    ]
}

impl Default for ScoringConfig {
    fn default() -> (r: Self)
        ensures
            r.window_secs == 30,
            r.critical_threshold == 80,
            r.high_threshold == 50,
            r.elevated_threshold == 25,
            r.entropy_high_millibits == 7200,
            r.entropy_medium_millibits == 6500,
            r.burst_high_milli_per_sec == 50000,
            r.burst_med_milli_per_sec == 20000,
            r.multi_dir_bonus_dirs == 3,
            r.multi_dir_bonus_secs == 10,
            r.multi_dir_bonus_pts == 15,
            string_views(r.known_ransomware_extensions@) == default_extra_extensions(),
            string_views(r.ransom_note_filenames@) == default_extra_notes(),
    {
        let exts = vec![
            ".locked", ".encrypted", ".crypt", ".ryk", ".clop", ".ransom", ".pay2me", ".wcry",
            ".wncry", ".lck", ".cerber", ".locky", ".zepto", ".odin", ".aesir", ".shit", ".thor",
            ".micro", ".cryptolocker", ".cryptowall",
        ];
        assert(str_views(exts@) =~= default_extra_extensions());
        let notes = vec![
            "README.txt", "DECRYPT.txt", "HOW_TO_RECOVER.txt", "RECOVERY.txt", "READ_ME.txt",
            "HELP_DECRYPT.txt", "YOUR_FILES_ARE_ENCRYPTED.txt", "HOW_TO_BUY.txt",
            "RANSOM_NOTE.txt", "!!!RESTORE_FILES!!!.txt",
        ];
        assert(str_views(notes@) =~= default_extra_notes());
        ScoringConfig {
            window_secs: 30,
            critical_threshold: 80,
            high_threshold: 50,
            elevated_threshold: 25,
            entropy_high_millibits: 7200,
            entropy_medium_millibits: 6500,
            burst_high_milli_per_sec: 50000,
            burst_med_milli_per_sec: 20000,
            multi_dir_bonus_dirs: 3,
            multi_dir_bonus_secs: 10,
            multi_dir_bonus_pts: 15,
            known_ransomware_extensions: strings_of(exts),
            ransom_note_filenames: strings_of(notes),
        }
    }
}

/// Where canary files are placed and how often they are checked.
#[derive(Debug, Clone, PartialEq, Eq)]
pub struct CanaryConfig {
    pub paths: Vec<String>,
    pub check_interval_secs: u64,
}

impl CanaryConfig {
    /// Canaries at `paths`, checked every five seconds.
    pub fn with_paths(paths: Vec<String>) -> (r: Self)
        ensures
            r.paths == paths,
            r.check_interval_secs == 5,
    {
        CanaryConfig { paths, check_interval_secs: 5 }
    }
}

/// Which responses are taken.
#[derive(Debug, Clone, Copy, PartialEq, Eq)]
pub struct ResponseConfig {
    /// When true, detect and score but take no response actions.
    pub dry_run: bool,
    pub kill_on_critical: bool,
    pub block_network: bool,
    pub auto_rollback: bool,
}

impl Default for ResponseConfig {
    fn default() -> (r: Self)
        ensures
            !r.dry_run && r.kill_on_critical && r.block_network && r.auto_rollback,
    {
        ResponseConfig {
            dry_run: false,
            kill_on_critical: true,
            block_network: true,
            auto_rollback: true,
        }
    }
}

/// How shadow copies are kept.
#[derive(Debug, Clone, PartialEq, Eq)]
pub struct SnapshotConfig {
    /// Create a baseline shadow copy at agent startup.
    pub create_on_start: bool,
    /// Volume to snapshot (e.g. "C:").
    pub volume: String,
    /// Maximum number of shadows to retain.
    pub max_retained: usize,
}

impl Default for SnapshotConfig {
    fn default() -> (r: Self)
        ensures
            r.create_on_start,
            r.volume@ == "C:"@,
            r.max_retained == 3,
    {
        SnapshotConfig { create_on_start: true, volume: String::from_str("C:"), max_retained: 3 }
    }
}

/// Where reports go and whether a local language model enriches them.
#[derive(Debug, Clone, PartialEq, Eq)]
pub struct ReportConfig {
    pub output_dir: String,
    pub use_ollama: bool,
    pub ollama_url: String,
    pub ollama_model: String,
}

impl ReportConfig {
    /// Reports in `output_dir`, without language-model enrichment.
    pub fn with_output_dir(output_dir: String) -> (r: Self)
        ensures
            r.output_dir == output_dir,
            !r.use_ollama,
            r.ollama_url@ == "http://localhost:11434"@,
            r.ollama_model@ == "llama3"@,
    {
        ReportConfig {
            output_dir,
            use_ollama: false,
            ollama_url: String::from_str("http://localhost:11434"),
            ollama_model: String::from_str("llama3"),
        }
    }
}

/// Logging settings.
#[derive(Debug, Clone, PartialEq, Eq)]
pub struct LogConfig {
    pub level: String,
    pub json: bool,
    pub log_dir: Option<String>,
}

impl Default for LogConfig {
    fn default() -> (r: Self)
        ensures
            r.level@ == "info"@,
            !r.json,
            r.log_dir is None,
    {
        LogConfig { level: String::from_str("info"), json: false, log_dir: None }
    }
}

/// The whole configuration.
#[derive(Debug, Clone, PartialEq, Eq)]
pub struct Config {
    pub watch: WatchConfig,
    pub scoring: ScoringConfig,
    pub canary: CanaryConfig,
    pub response: ResponseConfig,
    pub snapshot: SnapshotConfig,
    pub report: ReportConfig,
    pub log: LogConfig,
}

/// The message of the first threshold-order violation.
pub open spec fn threshold_error(s: ScoringConfig) -> Option<Seq<char>> {
    if s.elevated_threshold >= s.high_threshold {
        Some("elevated_threshold must be < high_threshold"@)
    } else if s.high_threshold >= s.critical_threshold {
        Some("high_threshold must be < critical_threshold"@)
    } else {
        None
    }
}

impl Config {
    /// Check that the score thresholds are strictly increasing: Elevated below High below
    /// Critical.
    pub fn validate(&self) -> (r: Result<(), AgentError>)
        ensures
            match r {
                Ok(()) => threshold_error(self.scoring) is None,
                Err(AgentError::ConfigInvalid(msg)) => threshold_error(self.scoring) == Some(msg@),
                Err(_) => false,
            },
    {
        if self.scoring.elevated_threshold >= self.scoring.high_threshold {
            return Err(
                AgentError::ConfigInvalid(
                    String::from_str("elevated_threshold must be < high_threshold"),
                ),
            );
        }
        if self.scoring.high_threshold >= self.scoring.critical_threshold {
            return Err(
                AgentError::ConfigInvalid(
                    String::from_str("high_threshold must be < critical_threshold"),
                ),
            );
        }
        Ok(())
    }
}

} // verus!
