//! The configuration that the sync engine and the watcher work from.

use crate::text::{
    chars_of, clone_strings, first_index_of, is_word, join_path, joined, lemma_first_index_of,
    same_chars, same_ignoring_case, strip_bounds, stripped, trimmed, Strip,
};
use vstd::slice::slice_subrange;
use vstd::prelude::*;

verus! {

/// How a conflict between the two sides is resolved.
#[derive(Debug, Clone, Copy, PartialEq, Eq, Structural)]
pub enum ConflictStrategy {
    /// The file with the later modification time wins.
    Newest,
    /// The local file wins.
    Local,
    /// The remote file wins.
    Remote,
}

impl Default for ConflictStrategy {
    fn default() -> (strategy: Self)
        ensures
            strategy == ConflictStrategy::Newest,
    {
        ConflictStrategy::Newest
    }
}

/// The name of the file in which the sync state is kept, inside the local
/// directory.
pub open spec fn state_file_name() -> Seq<char> {
    ".sync_state.json"@
}

/// Configuration of the sync daemon. Durations are in nanoseconds.
#[derive(Debug)]
pub struct Config {
    /// The base directory of the shared folder.
    pub dropbox_base: String,
    /// The mirror of the local directory inside the shared folder.
    pub dropbox_claude_dir: String,
    /// The local configuration directory.
    pub claude_dir: String,
    /// How long a path must stay quiet before a sync is triggered.
    pub debounce_nanos: u128,
    /// The longest time that a batch of changes is held back.
    pub max_batch_nanos: u128,
    pub conflict_strategy: ConflictStrategy,
    /// How much is to be logged.
    pub log_level: LogLevel,
    /// Names of the tracked files, relative to either root.
    pub sync_files: Vec<String>,
    /// Names of the tracked directories, relative to either root.
    pub sync_dirs: Vec<String>,
}

/// What a `Config` says, as plain mathematics.
pub ghost struct ConfigView {
    pub dropbox_base: Seq<char>,
    pub dropbox_claude_dir: Seq<char>,
    pub claude_dir: Seq<char>,
    pub debounce_nanos: u128,
    pub max_batch_nanos: u128,
    pub conflict_strategy: ConflictStrategy,
    pub log_level: LogLevel,
    pub sync_files: Seq<Seq<char>>,
    pub sync_dirs: Seq<Seq<char>>,
}

impl View for Config {
    type V = ConfigView;

    open spec fn view(&self) -> ConfigView {
        ConfigView {
            dropbox_base: self.dropbox_base@,
            dropbox_claude_dir: self.dropbox_claude_dir@,
            claude_dir: self.claude_dir@,
            debounce_nanos: self.debounce_nanos,
            max_batch_nanos: self.max_batch_nanos,
            conflict_strategy: self.conflict_strategy,
            log_level: self.log_level,
            sync_files: self.sync_files.deep_view(),
            sync_dirs: self.sync_dirs.deep_view(),
        }
    }
}

impl Clone for Config {
    fn clone(&self) -> (copy: Self)
        ensures
            copy@ == self@,
    {
        Config {
            dropbox_base: self.dropbox_base.clone(),
            dropbox_claude_dir: self.dropbox_claude_dir.clone(),
            claude_dir: self.claude_dir.clone(),
            debounce_nanos: self.debounce_nanos,
            max_batch_nanos: self.max_batch_nanos,
            conflict_strategy: self.conflict_strategy,
            log_level: self.log_level,
            sync_files: clone_strings(&self.sync_files),
            sync_dirs: clone_strings(&self.sync_dirs),
        }
    }
}

/// `hostname::get`: the host name of this machine as text, or `None` where
/// the system does not give one. Nothing is promised of the name.
#[verifier::external_body]
fn host_name() -> (name: Option<String>) {
    match hostname::get() {
        Ok(name) => Some(name.to_string_lossy().into_owned()),
        Err(_) => None,
    }
}

/// `dirs::home_dir`: the home directory of the current user as text, or
/// `None` where there is none. Nothing is promised of the path.
#[verifier::external_body]
fn home_dir_text() -> (home: Option<String>) {
    match dirs::home_dir() {
        Some(path) => Some(path.to_string_lossy().into_owned()),
        None => None,
    }
}

/// The identity of a machine with the given host name.
pub open spec fn machine_id_for(host: Option<Seq<char>>) -> Seq<char> {
    match host {
        Some(name) => name,
        None => "unknown"@,
    }
}

/// `path` with a leading `~` replaced by the home directory, where one is
/// known.
pub open spec fn tilde_expanded(path: Seq<char>, home: Option<Seq<char>>) -> Seq<char> {
    if path.len() > 0 && path[0] == '~' && home is Some {
        let rest = path.skip(1);
        if rest.len() > 0 && rest[0] == '/' {
            joined(home->0, rest.skip(1))
        } else {
            joined(home->0, rest)
        }
    } else {
        path
    }
}

impl Config {
    /// The identity of a machine with the given host name: the name itself,
    /// or `unknown` where it has none.
    pub fn machine_id_from(host: Option<String>) -> (id: String)
        ensures
            id@ == machine_id_for(host.deep_view()),
    {
        match host {
            Some(name) => name,
            None => "unknown".to_owned(),
        }
    }

    /// The identity of this machine: its host name as the system gives it,
    /// or `unknown` where it gives none.
    pub fn machine_id() -> (id: String) {
        Config::machine_id_from(host_name())
    }

    /// The home directory of the current user, if it is known.
    pub fn home_dir() -> (home: Option<String>) {
        home_dir_text()
    }

    /// Where the sync state is kept: in the local directory, never in the
    /// shared folder.
    pub fn local_state_path(&self) -> (path: String)
        ensures
            path@ == joined(self.claude_dir@, state_file_name()),
    {
        join_path(self.claude_dir.as_str(), ".sync_state.json")
    }
}

/// Replaces a leading `~` in `path` by `home`.
pub fn tilde_with(path: &str, home: Option<&str>) -> (expanded: String)
    ensures
        expanded@ == tilde_expanded(path@, home.deep_view()),
{
    let chars = chars_of(path);
    match home {
        Some(home_dir) => {
            if chars.len() > 0 && chars[0] == '~' {
                let from: usize = if chars.len() > 1 && chars[1] == '/' {
                    2
                } else {
                    1
                };
                let rest = path.substring_char(from, chars.len());
                if from == 2 {
                    assert(path@.skip(1).skip(1) =~= path@.skip(2));
                }
                assert(path@.subrange(from as int, chars.len() as int) =~= path@.skip(from as int));
                join_path(home_dir, rest)
            } else {
                path.to_owned()
            }
        },
        None => path.to_owned(),
    }
}

/// Replaces a leading `~` in `path` by the home directory of the current
/// user, where one is known.
pub fn tilde(path: &str) -> (expanded: String)
    ensures
        exists|home: Option<Seq<char>>| expanded@ == tilde_expanded(path@, home),
        !(path@.len() > 0 && path@[0] == '~') ==> expanded@ == path@,
{
    let home = home_dir_text();
    let expanded = match &home {
        Some(dir) => tilde_with(path, Some(dir.as_str())),
        None => tilde_with(path, None),
    };
    assert(expanded@ == tilde_expanded(path@, home.deep_view()));
    expanded
}

/// How much is logged.
#[derive(Debug, Clone, Copy, PartialEq, Eq, Structural)]
pub enum LogLevel {
    Debug,
    Info,
    Warn,
    Error,
}

/// One setting of the configuration file. Numbers are kept as they were
/// written.
#[derive(Debug)]
pub enum Setting {
    DropboxBase(String),
    DebounceSecs(String),
    MaxBatchSecs(String),
    Strategy(ConflictStrategy),
    Level(LogLevel),
}

/// What a `Setting` says, as plain mathematics.
pub ghost enum SettingView {
    DropboxBase(Seq<char>),
    DebounceSecs(Seq<char>),
    MaxBatchSecs(Seq<char>),
    Strategy(ConflictStrategy),
    Level(LogLevel),
}

impl View for Setting {
    type V = SettingView;

    open spec fn view(&self) -> SettingView {
        match self {
            Setting::DropboxBase(value) => SettingView::DropboxBase(value@),
            Setting::DebounceSecs(value) => SettingView::DebounceSecs(value@),
            Setting::MaxBatchSecs(value) => SettingView::MaxBatchSecs(value@),
            Setting::Strategy(strategy) => SettingView::Strategy(*strategy),
            Setting::Level(level) => SettingView::Level(*level),
        }
    }
}

impl DeepView for Setting {
    type V = SettingView;

    open spec fn deep_view(&self) -> SettingView {
        self@
    }
}

/// The value of a setting: what stands behind the `=`, without the white
/// space around it and without the quotes, double or single, around that.
pub open spec fn setting_value(raw: Seq<char>) -> Seq<char> {
    stripped(stripped(trimmed(raw), Strip::Exactly('"')), Strip::Exactly('\''))
}

/// The strategy of this name: `local`, `remote`, or else the default.
pub open spec fn strategy_named(value: Seq<char>) -> ConflictStrategy {
    if same_ignoring_case(value, "local"@) {
        ConflictStrategy::Local
    } else if same_ignoring_case(value, "remote"@) {
        ConflictStrategy::Remote
    } else {
        ConflictStrategy::Newest
    }
}

/// The log level of this name: `debug`, `warn`, `error`, or else `info`.
pub open spec fn level_named(value: Seq<char>) -> LogLevel {
    if same_ignoring_case(value, "debug"@) {
        LogLevel::Debug
    } else if same_ignoring_case(value, "warn"@) {
        LogLevel::Warn
    } else if same_ignoring_case(value, "error"@) {
        LogLevel::Error
    } else {
        LogLevel::Info
    }
}

/// The setting with this key and value, if the key is a known one.
pub open spec fn setting_for(key: Seq<char>, value: Seq<char>) -> Option<SettingView> {
    if key == "DROPBOX_BASE"@ {
        Some(SettingView::DropboxBase(value))
    } else if key == "DEBOUNCE_SECS"@ {
        Some(SettingView::DebounceSecs(value))
    } else if key == "MAX_BATCH_SECS"@ {
        Some(SettingView::MaxBatchSecs(value))
    } else if key == "CONFLICT_STRATEGY"@ {
        Some(SettingView::Strategy(strategy_named(value)))
    } else if key == "LOG_LEVEL"@ {
        Some(SettingView::Level(level_named(value)))
    } else {
        None
    }
}

/// What a line of the configuration file says. Empty lines and lines that
/// begin with `#` say nothing, nor do lines without `=` or with an unknown
/// key. Else the key is what stands before the first `=`, the value what
/// stands behind it.
pub open spec fn line_setting(line: Seq<char>) -> Option<SettingView> {
    let text = trimmed(line);
    if text.len() == 0 || text[0] == '#' {
        None
    } else {
        let at = first_index_of(text, '=');
        if at < 0 {
            None
        } else {
            setting_for(trimmed(text.take(at)), setting_value(text.skip(at + 1)))
        }
    }
}

/// Reads one line of the configuration file.
pub fn parse_config_line(line: &str) -> (setting: Option<Setting>)
    ensures
        setting.deep_view() == line_setting(line@),
{
    let chars = chars_of(line);
    let all = chars.as_slice();
    let (a, b) = strip_bounds(all, 0, chars.len(), Strip::Space);
    assert(all@.subrange(0, chars.len() as int) =~= line@);
    let ghost text = trimmed(line@);
    assert(text == all@.subrange(a as int, b as int));
    if a == b {
        return None;
    }
    if all[a] == '#' {
        return None;
    }
    let mut e: usize = a;
    while e < b && all[e] != '='
        invariant
            a <= e <= b <= all.len(),
            text == all@.subrange(a as int, b as int),
            forall|j: int| 0 <= j < e - a ==> text[j] != '=',
        decreases b - e,
    {
        e += 1;
    }
    proof {
        lemma_first_index_of(text, '=');
        let at = first_index_of(text, '=');
        if e < b {
            assert(text[e - a] == '=');
            assert(at == e - a);
        } else {
            if at >= 0 {
                assert(text[at] != '=');
            }
        }
    }
    if e == b {
        return None;
    }
    assert(all@.subrange(a as int, e as int) =~= text.take(e - a));
    assert(all@.subrange(e + 1, b as int) =~= text.skip(e - a + 1));
    let (ka, kb) = strip_bounds(all, a, e, Strip::Space);
    let (v1a, v1b) = strip_bounds(all, e + 1, b, Strip::Space);
    let (v2a, v2b) = strip_bounds(all, v1a, v1b, Strip::Exactly('"'));
    let (va, vb) = strip_bounds(all, v2a, v2b, Strip::Exactly('\''));
    let key = slice_subrange(all, ka, kb);
    let value_chars = slice_subrange(all, va, vb);
    assert(key@ == trimmed(text.take(e - a)));
    assert(value_chars@ == setting_value(text.skip(e - a + 1)));
    if same_chars(key, chars_of("DROPBOX_BASE").as_slice()) {
        Some(Setting::DropboxBase(line.substring_char(va, vb).to_owned()))
    } else if same_chars(key, chars_of("DEBOUNCE_SECS").as_slice()) {
        Some(Setting::DebounceSecs(line.substring_char(va, vb).to_owned()))
    } else if same_chars(key, chars_of("MAX_BATCH_SECS").as_slice()) {
        Some(Setting::MaxBatchSecs(line.substring_char(va, vb).to_owned()))
    } else if same_chars(key, chars_of("CONFLICT_STRATEGY").as_slice()) {
        let strategy = if is_word(value_chars, chars_of("local").as_slice()) {
            ConflictStrategy::Local
        } else if is_word(value_chars, chars_of("remote").as_slice()) {
            ConflictStrategy::Remote
        } else {
            ConflictStrategy::Newest
        };
        Some(Setting::Strategy(strategy))
    } else if same_chars(key, chars_of("LOG_LEVEL").as_slice()) {
        let level = if is_word(value_chars, chars_of("debug").as_slice()) {
            LogLevel::Debug
        } else if is_word(value_chars, chars_of("warn").as_slice()) {
            LogLevel::Warn
        } else if is_word(value_chars, chars_of("error").as_slice()) {
            LogLevel::Error
        } else {
            LogLevel::Info
        };
        Some(Setting::Level(level))
    } else {
        None
    }
}

/// The time that a path must stay quiet unless the configuration says
/// otherwise: three seconds.
pub const DEFAULT_DEBOUNCE_NANOS: u128 = 3_000_000_000;

/// The longest time that a batch is held back unless the configuration
/// says otherwise: ten seconds.
pub const DEFAULT_MAX_BATCH_NANOS: u128 = 10_000_000_000;

/// The name of the mirror inside the shared folder.
pub open spec fn mirror_name() -> Seq<char> {
    "ClaudeCodeSync"@
}

/// Where the shared folder is looked for when the configuration does not
/// say where it is.
pub open spec fn dropbox_places(home: Seq<char>) -> Seq<Seq<char>> {
    seq![
        joined(home, "Dropbox"@),
        joined(home, "Library/CloudStorage/Dropbox"@),
        "/Users/Shared/Dropbox"@,
    ]
}

/// The places where the shared folder is looked for, in this order, when
/// the configuration does not say where it is.
pub fn dropbox_candidates(home: &str) -> (places: Vec<String>)
    ensures
        places.deep_view() == dropbox_places(home@),
{
    let mut places: Vec<String> = Vec::new();
    places.push(join_path(home, "Dropbox"));
    places.push(join_path(home, "Library/CloudStorage/Dropbox"));
    places.push("/Users/Shared/Dropbox".to_owned());
    assert(places.deep_view() =~= dropbox_places(home@));
    places
}

impl Config {
    /// The configuration for the local directory `claude_dir` and the
    /// shared folder at `dropbox_base`, inside which the mirror lies under
    /// its usual name.
    pub fn assemble(
        claude_dir: String,
        dropbox_base: String,
        debounce_nanos: u128,
        max_batch_nanos: u128,
        conflict_strategy: ConflictStrategy,
        log_level: LogLevel,
        sync_files: Vec<String>,
        sync_dirs: Vec<String>,
    ) -> (config: Config)
        ensures
            config@ == (ConfigView {
                dropbox_base: dropbox_base@,
                dropbox_claude_dir: joined(dropbox_base@, mirror_name()),
                claude_dir: claude_dir@,
                debounce_nanos,
                max_batch_nanos,
                conflict_strategy,
                log_level,
                sync_files: sync_files.deep_view(),
                sync_dirs: sync_dirs.deep_view(),
            }),
    {
        let dropbox_claude_dir = join_path(dropbox_base.as_str(), "ClaudeCodeSync");
        Config {
            dropbox_base,
            dropbox_claude_dir,
            claude_dir,
            debounce_nanos,
            max_batch_nanos,
            conflict_strategy,
            log_level,
            sync_files,
            sync_dirs,
        }
    }
}

} // verus!
