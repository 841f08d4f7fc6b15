//! Where the pager keeps its files: the choice of the home directory and
//! the names of the files under it.
use vstd::prelude::*;

use crate::text::concat_str;

verus! {

/// The index of all side chats, directly under the home directory.
pub const SIDE_CHATS_INDEX_FILE: &'static str = "side-chats.json";

/// The directory, under the home directory, of the per-chat transcripts.
pub const SESSIONS_DIR: &'static str = "sessions";

/// The side-panel preferences, directly under the home directory.
pub const SIDE_PANEL_FILE: &'static str = "side-panel.json";

/// The window manager state, directly under the home directory.
pub const WINDOWS_FILE: &'static str = "windows.json";

/// The extension of the temporary file that an atomic save writes first.
pub const TEMP_EXTENSION: &'static str = "json.tmp";

/// Where the home directory comes from.
#[derive(Debug, Clone, Copy, PartialEq, Eq, Structural)]
pub enum HomeSource {
    /// The directory that tests pinned.
    Override,
    /// The `RIVO_HOME` environment variable.
    RivoEnv,
    /// The `GROK_HOME` environment variable.
    GrokEnv,
    /// `.rivo` beside the default `.grok` directory.
    SiblingRivo,
    /// The grok home directory itself.
    GrokHome,
}

/// The precedence of the home directory: a pinned override, then
/// `RIVO_HOME`, then `GROK_HOME`; without any of them `.rivo` beside a
/// default `~/.grok` home (whether it exists yet or not), else the grok home.
pub open spec fn spec_home_source(
    has_override: bool,
    rivo_env_set: bool,
    grok_env_set: bool,
    grok_home_is_dot_grok_with_parent: bool,
) -> HomeSource {
    if has_override {
        HomeSource::Override
    } else if rivo_env_set {
        HomeSource::RivoEnv
    } else if grok_env_set {
        HomeSource::GrokEnv
    } else if grok_home_is_dot_grok_with_parent {
        HomeSource::SiblingRivo
    } else {
        HomeSource::GrokHome
    }
}

/// Choose where the home directory comes from.  `grok_home_is_dot_grok_with_parent`
/// tells whether the grok home's last component is `.grok` and it has a
/// parent directory.
pub fn home_source(
    has_override: bool,
    rivo_env_set: bool,
    grok_env_set: bool,
    grok_home_is_dot_grok_with_parent: bool,
) -> (r: HomeSource)
    ensures
        r == spec_home_source(
            has_override,
            rivo_env_set,
            grok_env_set,
            grok_home_is_dot_grok_with_parent,
        ),
{
    if has_override {
        HomeSource::Override
    } else if rivo_env_set {
        HomeSource::RivoEnv
    } else if grok_env_set {
        HomeSource::GrokEnv
    } else if grok_home_is_dot_grok_with_parent {
        HomeSource::SiblingRivo
    } else {
        HomeSource::GrokHome
    }
}

/// Whether the chosen home directory is created when missing: the
/// directories named by an environment variable are.
pub fn creates_home(source: HomeSource) -> (r: bool)
    ensures
        r == (source == HomeSource::RivoEnv || source == HomeSource::GrokEnv),
{
    match source {
        HomeSource::RivoEnv | HomeSource::GrokEnv => true,
        _ => false,
    }
}

/// The file name of the transcript of side chat `side_id`:
/// `side-<id>.jsonl`, under `SESSIONS_DIR`.
pub fn transcript_file_name(side_id: &str) -> (r: String)
    ensures
        r@ == "side-"@ + side_id@ + ".jsonl"@,
{
    let head = concat_str("side-", side_id);
    concat_str(head.as_str(), ".jsonl")
}

/// How reading a file ended.
#[derive(Debug, Clone, Copy, PartialEq, Eq, Structural)]
pub enum ReadOutcome {
    /// The file was read.
    Read,
    /// There is no such file.
    Missing,
    /// Reading failed for another reason.
    Failed,
}

/// What loading a state file does next.
#[derive(Debug, Clone, Copy, PartialEq, Eq, Structural)]
pub enum LoadStep {
    /// Parse what was read (an invalid file gives the default state).
    Parse,
    /// Read the same file under the grok home instead.
    ReadFallback,
    /// Start from the default state.
    UseDefault,
}

/// After reading the file under the home directory: parse it when it was
/// read; when it is missing, try the grok home's copy unless that is the
/// same path; on any other failure start from the default.
pub fn after_read(outcome: ReadOutcome, fallback_differs: bool) -> (r: LoadStep)
    ensures
        r == (match outcome {
            ReadOutcome::Read => LoadStep::Parse,
            ReadOutcome::Missing => if fallback_differs {
                LoadStep::ReadFallback
            } else {
                LoadStep::UseDefault
            },
            ReadOutcome::Failed => LoadStep::UseDefault,
        }),
{
    match outcome {
        ReadOutcome::Read => LoadStep::Parse,
        ReadOutcome::Missing => if fallback_differs {
            LoadStep::ReadFallback
        } else {
            LoadStep::UseDefault
        },
        ReadOutcome::Failed => LoadStep::UseDefault,
    }
}

/// After reading the grok home's copy: parse it when it was read, else
/// start from the default.
pub fn after_fallback_read(outcome: ReadOutcome) -> (r: LoadStep)
    ensures
        r == (if outcome == ReadOutcome::Read {
            LoadStep::Parse
        } else {
            LoadStep::UseDefault
        }),
{
    match outcome {
        ReadOutcome::Read => LoadStep::Parse,
        _ => LoadStep::UseDefault,
    }
}

} // verus!
