//! Slash commands for side chats, the side panel and Multitask mode.
//!
//! A command parses its argument text and answers with an action for the
//! dispatcher or with a message for the user.
use vstd::prelude::*;

use crate::agent_mode::AgentMode;
use crate::text::{chars_eq, chars_of, string_of, trim, trim_chars};

verus! {

/// What a command asks the dispatcher to do.
#[derive(Debug, Clone, PartialEq, Eq)]
pub enum Action {
    /// Create a durable side chat, optionally with an initial prompt.
    CreateSideChat { parent_id: String, prompt: String, from_selection: bool },
    /// List the side chats.
    ListSideChats,
    /// Switch the agent mode.
    SetAgentMode(AgentMode),
    /// Show or hide the side panel.
    ToggleTiling,
    /// Show (`true`) or hide (`false`) the side panel.
    SetTiling(bool),
    /// Restore the default panel split.
    SetTilingReset,
}

/// The answer of a command.
#[derive(Debug, Clone, PartialEq, Eq)]
pub enum CommandResult {
    Action(Action),
    Message(String),
}

/// A slash command: its name and help texts, how it takes arguments, and
/// what it does with them.
pub trait SlashCommand {
    fn name(&self) -> &str;

    /// Other names of the command; none unless the command says so.
    fn aliases(&self) -> (r: &[&str])
        default_ensures
            r@.len() == 0,
    {
        &[]
    }

    fn description(&self) -> &str;

    fn usage(&self) -> &str;

    /// Whether the command needs a session; not unless the command says so.
    fn session_scoped(&self) -> (r: bool)
        default_ensures
            !r,
    {
        false
    }

    /// Whether the command is offered without a session; not unless the
    /// command says so.
    fn offered_when_session_less(&self) -> (r: bool)
        default_ensures
            !r,
    {
        false
    }

    /// Whether the command takes arguments; not unless the command says so.
    fn takes_args(&self) -> (r: bool)
        default_ensures
            !r,
    {
        false
    }

    /// Whether the command needs arguments; not unless the command says so.
    fn args_required(&self) -> (r: bool)
        default_ensures
            !r,
    {
        false
    }

    /// The placeholder shown for the arguments; none unless the command
    /// says so.
    fn arg_placeholder(&self) -> (r: Option<&str>)
        default_ensures
            r is None,
    {
        None
    }

    fn run(&self, args: &str) -> CommandResult;
}

/// `r` asks for a side chat with prompt `prompt`, no parent id and no
/// selection.
pub open spec fn creates_side_chat(r: CommandResult, prompt: Seq<char>) -> bool {
    match r {
        CommandResult::Action(Action::CreateSideChat { parent_id, prompt: p, from_selection }) => {
            parent_id@.len() == 0 && p@ == prompt && !from_selection
        },
        _ => false,
    }
}

/// `r` is the message `m`.
pub open spec fn is_message(r: CommandResult, m: Seq<char>) -> bool {
    match r {
        CommandResult::Message(s) => s@ == m,
        _ => false,
    }
}

/// An empty string.
fn empty_string() -> (s: String)
    ensures
        s@.len() == 0,
{
    String::new()
}

/// `/btw <question>`: the old spelling of `/side <question>`.
pub struct BtwCommand;

impl SlashCommand for BtwCommand {
    fn name(&self) -> (r: &str)
        ensures
            r@ == "btw"@,
    {
        "btw"
    }

    fn description(&self) -> (r: &str)
        ensures
            r@ == "Open a durable side chat (compatibility alias for /side)"@,
    {
        "Open a durable side chat (compatibility alias for /side)"
    }

    fn session_scoped(&self) -> (r: bool)
        ensures
            r,
    {
        true
    }

    fn usage(&self) -> (r: &str)
        ensures
            r@ == "/btw <question>"@,
    {
        "/btw <question>"
    }

    fn takes_args(&self) -> (r: bool)
        ensures
            r,
    {
        true
    }

    fn args_required(&self) -> (r: bool)
        ensures
            r,
    {
        true
    }

    fn arg_placeholder(&self) -> (r: Option<&str>)
        ensures
            r matches Some(s) && s@ == "<question>"@,
    {
        Some("<question>")
    }

    /// A question opens a side chat with it; without one, the usage.
    fn run(&self, args: &str) -> (r: CommandResult)
        ensures
            trim(args@).len() == 0 ==> is_message(r, "Usage: /btw <question>"@),
            trim(args@).len() > 0 ==> creates_side_chat(r, trim(args@)),
    {
        let prompt = trim_chars(chars_of(args).as_slice());
        if prompt.len() == 0 {
            let m = chars_of("Usage: /btw <question>");
            return CommandResult::Message(string_of(m.as_slice()));
        }
        CommandResult::Action(
            Action::CreateSideChat {
                parent_id: empty_string(),
                prompt: string_of(prompt.as_slice()),
                from_selection: false,
            },
        )
    }
}

/// `/multitask`: enter Multitask (DAG orchestrator) mode.
pub struct MultitaskCommand;

impl SlashCommand for MultitaskCommand {
    fn name(&self) -> (r: &str)
        ensures
            r@ == "multitask"@,
    {
        "multitask"
    }

    fn description(&self) -> (r: &str)
        ensures
            r@ == "Enter Multitask mode — DAG orchestrator with parallel subagents"@,
    {
        "Enter Multitask mode — DAG orchestrator with parallel subagents"
    }

    fn session_scoped(&self) -> (r: bool)
        ensures
            r,
    {
        true
    }

    fn offered_when_session_less(&self) -> (r: bool)
        ensures
            r,
    {
        true
    }

    fn usage(&self) -> (r: &str)
        ensures
            r@ == "/multitask"@,
    {
        "/multitask"
    }

    fn takes_args(&self) -> (r: bool)
        ensures
            !r,
    {
        false
    }

    /// Always switches to Multitask mode.
    fn run(&self, args: &str) -> (r: CommandResult)
        ensures
            r == CommandResult::Action(Action::SetAgentMode(AgentMode::Multitask)),
    {
        CommandResult::Action(Action::SetAgentMode(AgentMode::Multitask))
    }
}

/// `/side [question]`: open a durable side chat, with the question as its
/// first prompt.
pub struct SideCommand;

impl SlashCommand for SideCommand {
    fn name(&self) -> (r: &str)
        ensures
            r@ == "side"@,
    {
        "side"
    }

    fn aliases(&self) -> (r: &[&str])
        ensures
            r@.len() == 0,
    {
        &[]
    }

    fn description(&self) -> (r: &str)
        ensures
            r@ == "Open a durable side chat — /side [question]"@,
    {
        "Open a durable side chat — /side [question]"
    }

    fn usage(&self) -> (r: &str)
        ensures
            r@ == "/side [question]"@,
    {
        "/side [question]"
    }

    fn takes_args(&self) -> (r: bool)
        ensures
            r,
    {
        true
    }

    fn args_required(&self) -> (r: bool)
        ensures
            !r,
    {
        false
    }

    fn arg_placeholder(&self) -> (r: Option<&str>)
        ensures
            r matches Some(s) && s@ == "[question]"@,
    {
        Some("[question]")
    }

    fn session_scoped(&self) -> (r: bool)
        ensures
            r,
    {
        true
    }

    /// The whole trimmed line is the first prompt; a bare `/side` opens an
    /// empty chat.  Nothing in the line is taken as a subcommand.
    fn run(&self, args: &str) -> (r: CommandResult)
        ensures
            creates_side_chat(r, trim(args@)),
    {
        let prompt = trim_chars(chars_of(args).as_slice());
        CommandResult::Action(
            Action::CreateSideChat {
                parent_id: empty_string(),
                prompt: string_of(prompt.as_slice()),
                from_selection: false,
            },
        )
    }
}

/// `/sides`: list the durable side chats.
pub struct SidesCommand;

impl SlashCommand for SidesCommand {
    fn name(&self) -> (r: &str)
        ensures
            r@ == "sides"@,
    {
        "sides"
    }

    fn aliases(&self) -> (r: &[&str])
        ensures
            r@.len() == 0,
    {
        &[]
    }

    fn description(&self) -> (r: &str)
        ensures
            r@ == "List durable side chats"@,
    {
        "List durable side chats"
    }

    fn usage(&self) -> (r: &str)
        ensures
            r@ == "/sides"@,
    {
        "/sides"
    }

    fn takes_args(&self) -> (r: bool)
        ensures
            !r,
    {
        false
    }

    fn session_scoped(&self) -> (r: bool)
        ensures
            r,
    {
        true
    }

    /// Always lists the side chats.
    fn run(&self, args: &str) -> (r: CommandResult)
        ensures
            r == CommandResult::Action(Action::ListSideChats),
    {
        CommandResult::Action(Action::ListSideChats)
    }
}

/// `/window [on|off|reset-size]` (also `/tile`, `/tiling`, `/windows`,
/// `/panel`): control the side panel.
pub struct TilingCommand;

/// `c` in ASCII lowercase (`char::to_ascii_lowercase`).
pub open spec fn ascii_lower_char(c: char) -> char {
    if 'A' <= c && c <= 'Z' {
        ((c as u32) + 32) as char
    } else {
        c
    }
}

/// `s` in ASCII lowercase (`str::to_ascii_lowercase`).
pub open spec fn ascii_lower(s: Seq<char>) -> Seq<char> {
    s.map_values(|c: char| ascii_lower_char(c))
}

/// The words that show the panel.
pub open spec fn is_on_word(t: Seq<char>) -> bool {
    t == "on"@ || t == "enable"@ || t == "enabled"@ || t == "1"@ || t == "true"@ || t == "yes"@
        || t == "show"@
}

/// The words that hide the panel.
pub open spec fn is_off_word(t: Seq<char>) -> bool {
    t == "off"@ || t == "disable"@ || t == "disabled"@ || t == "0"@ || t == "false"@ || t == "no"@
        || t == "hide"@
}

/// The words that restore the default split.
pub open spec fn is_reset_word(t: Seq<char>) -> bool {
    t == "reset"@ || t == "reset-size"@ || t == "reset-ratio"@ || t == "65"@
}

/// The usage message of `/window`.
pub open spec fn tiling_usage() -> Seq<char> {
    "Usage: /window [on|off|reset-size] — control the side panel. Also: /tile, /tiling"@
}

/// What `/window` answers to `args`.
pub open spec fn tiling_answer(args: Seq<char>, r: CommandResult) -> bool {
    let t = ascii_lower(trim(args));
    if t.len() == 0 {
        r == CommandResult::Action(Action::ToggleTiling)
    } else if is_on_word(t) {
        r == CommandResult::Action(Action::SetTiling(true))
    } else if is_off_word(t) {
        r == CommandResult::Action(Action::SetTiling(false))
    } else if is_reset_word(t) {
        r == CommandResult::Action(Action::SetTilingReset)
    } else {
        is_message(r, tiling_usage())
    }
}

/// `v` in ASCII lowercase.
fn lower_chars(v: &[char]) -> (r: Vec<char>)
    ensures
        r@ == ascii_lower(v@),
{
    let mut r: Vec<char> = Vec::new();
    let mut i: usize = 0;
    while i < v.len()
        invariant
            i <= v@.len(),
            r@ == ascii_lower(v@.take(i as int)),
        decreases v@.len() - i,
    {
        let c = v[i];
        let l = if 'A' <= c && c <= 'Z' {
            ((c as u8) + 32) as char
        } else {
            c
        };
        assert(l == ascii_lower_char(c));
        r.push(l);
        assert(ascii_lower(v@.take(i + 1)) =~= ascii_lower(v@.take(i as int)).push(
            ascii_lower_char(v@[i as int]),
        ));
        i = i + 1;
    }
    assert(v@.take(i as int) =~= v@);
    r
}

/// Whether `t` is one of `words`.
fn is_one_of(t: &[char], words: &[&str]) -> (r: bool)
    ensures
        r == exists|k: int| 0 <= k < words@.len() && t@ == (#[trigger] words@[k])@,
{
    let mut k: usize = 0;
    while k < words.len()
        invariant
            k <= words@.len(),
            forall|j: int| 0 <= j < k ==> t@ != (#[trigger] words@[j])@,
        decreases words@.len() - k,
    {
        let w = chars_of(words[k]);
        if chars_eq(t, w.as_slice()) {
            return true;
        }
        k = k + 1;
    }
    false
}

impl SlashCommand for TilingCommand {
    fn name(&self) -> (r: &str)
        ensures
            r@ == "window"@,
    {
        "window"
    }

    fn aliases(&self) -> (r: &[&str])
        ensures
            r@.len() == 4,
            r@[0]@ == "tile"@,
            r@[1]@ == "tiling"@,
            r@[2]@ == "windows"@,
            r@[3]@ == "panel"@,
    {
        &["tile", "tiling", "windows", "panel"]
    }

    fn description(&self) -> (r: &str)
        ensures
            r@ == "Control the side panel: /window [on|off|reset-size]"@,
    {
        "Control the side panel: /window [on|off|reset-size]"
    }

    fn usage(&self) -> (r: &str)
        ensures
            r@ == "/window [on|off|reset-size]"@,
    {
        "/window [on|off|reset-size]"
    }

    fn takes_args(&self) -> (r: bool)
        ensures
            r,
    {
        true
    }

    /// No argument toggles the panel; `on`/`off` words show or hide it;
    /// `reset` words restore the default split; anything else gets the
    /// usage.  Case and surrounding whitespace do not matter.
    fn run(&self, args: &str) -> (r: CommandResult)
        ensures
            tiling_answer(args@, r),
    {
        let t = lower_chars(trim_chars(chars_of(args).as_slice()).as_slice());
        if t.len() == 0 {
            return CommandResult::Action(Action::ToggleTiling);
        }
        let on = ["on", "enable", "enabled", "1", "true", "yes", "show"];
        let off = ["off", "disable", "disabled", "0", "false", "no", "hide"];
        let reset = ["reset", "reset-size", "reset-ratio", "65"];
        if is_one_of(t.as_slice(), &on) {
            return CommandResult::Action(Action::SetTiling(true));
        }
        if is_one_of(t.as_slice(), &off) {
            return CommandResult::Action(Action::SetTiling(false));
        }
        if is_one_of(t.as_slice(), &reset) {
            return CommandResult::Action(Action::SetTilingReset);
        }
        let m = chars_of(
            "Usage: /window [on|off|reset-size] — control the side panel. Also: /tile, /tiling",
        );
        CommandResult::Message(string_of(m.as_slice()))
    }
}

} // verus!
