use xai_grok_pager::agent_mode::AgentMode;
use xai_grok_pager::commands::{
    Action, BtwCommand, CommandResult, MultitaskCommand, SideCommand, SidesCommand, SlashCommand,
    TilingCommand,
};

fn side_chat_prompt(r: CommandResult) -> Option<String> {
    match r {
        CommandResult::Action(Action::CreateSideChat { parent_id, prompt, from_selection }) => {
            assert!(parent_id.is_empty());
            assert!(!from_selection);
            Some(prompt)
        }
        _ => None,
    }
}

#[test]
fn multitask_dispatches_set_agent_mode() {
    let cmd = MultitaskCommand;
    match cmd.run("") {
        CommandResult::Action(Action::SetAgentMode(mode)) => {
            assert_eq!(mode, AgentMode::Multitask);
        }
        other => panic!("expected SetAgentMode(Multitask), got {other:?}"),
    }
}

#[test]
fn multitask_is_session_scoped_but_offered_when_less() {
    assert!(MultitaskCommand.session_scoped());
    assert!(MultitaskCommand.offered_when_session_less());
}

#[test]
fn side_is_session_scoped() {
    assert!(SideCommand.session_scoped());
    assert!(SidesCommand.session_scoped());
}

#[test]
fn side_names() {
    assert_eq!(SideCommand.name(), "side");
    assert_eq!(SidesCommand.name(), "sides");
}

#[test]
fn side_takes_optional_args() {
    assert!(SideCommand.takes_args());
    assert!(!SideCommand.args_required());
    assert!(!SidesCommand.takes_args());
}

#[test]
fn bare_toggles() {
    let cmd = TilingCommand;
    assert!(matches!(cmd.run(""), CommandResult::Action(Action::ToggleTiling)));
    assert!(matches!(cmd.run("   "), CommandResult::Action(Action::ToggleTiling)));
}

#[test]
fn on_off_sets() {
    let cmd = TilingCommand;
    assert!(matches!(cmd.run("on"), CommandResult::Action(Action::SetTiling(true))));
    assert!(matches!(cmd.run("off"), CommandResult::Action(Action::SetTiling(false))));
    assert!(matches!(cmd.run("enable"), CommandResult::Action(Action::SetTiling(true))));
    assert!(matches!(cmd.run("disable"), CommandResult::Action(Action::SetTiling(false))));
    assert!(matches!(cmd.run("show"), CommandResult::Action(Action::SetTiling(true))));
    assert!(matches!(cmd.run("hide"), CommandResult::Action(Action::SetTiling(false))));
    assert!(matches!(
        cmd.run("reset-size"),
        CommandResult::Action(Action::SetTilingReset)
    ));
}

#[test]
fn tiling_words_ignore_case_and_spaces() {
    let cmd = TilingCommand;
    assert!(matches!(cmd.run("  ON "), CommandResult::Action(Action::SetTiling(true))));
    assert!(matches!(cmd.run("Yes"), CommandResult::Action(Action::SetTiling(true))));
    assert!(matches!(cmd.run("FALSE"), CommandResult::Action(Action::SetTiling(false))));
    assert!(matches!(cmd.run("65"), CommandResult::Action(Action::SetTilingReset)));
    assert!(matches!(cmd.run("Reset-Ratio"), CommandResult::Action(Action::SetTilingReset)));
}

#[test]
fn unknown_tiling_word_gets_usage() {
    assert_eq!(
        TilingCommand.run("sideways"),
        CommandResult::Message(
            "Usage: /window [on|off|reset-size] — control the side panel. Also: /tile, /tiling"
                .to_string()
        )
    );
}

#[test]
fn tiling_names_and_aliases() {
    assert_eq!(TilingCommand.name(), "window");
    assert_eq!(TilingCommand.aliases(), &["tile", "tiling", "windows", "panel"]);
    assert!(TilingCommand.takes_args());
    assert!(!TilingCommand.session_scoped());
}

#[test]
fn side_prompt_is_the_trimmed_line() {
    assert_eq!(side_chat_prompt(SideCommand.run("  close a file ")), Some("close a file".to_string()));
    assert_eq!(side_chat_prompt(SideCommand.run("   ")), Some(String::new()));
    assert_eq!(SideCommand.arg_placeholder(), Some("[question]"));
}

#[test]
fn btw_needs_a_question() {
    assert_eq!(
        BtwCommand.run("  "),
        CommandResult::Message("Usage: /btw <question>".to_string())
    );
    assert_eq!(side_chat_prompt(BtwCommand.run(" why? ")), Some("why?".to_string()));
    assert!(BtwCommand.args_required());
    assert_eq!(BtwCommand.name(), "btw");
}

#[test]
fn sides_lists() {
    assert_eq!(SidesCommand.run("anything"), CommandResult::Action(Action::ListSideChats));
    assert_eq!(SidesCommand.usage(), "/sides");
}
