use xai_grok_pager::agent_mode::{AgentMode, DEBUG_MODE_PROMPT, MULTITASK_MODE_PROMPT};

#[test]
fn ring_cycles_five_steps() {
    let mut mode = AgentMode::Normal;
    let expected = [
        AgentMode::Plan,
        AgentMode::Ask,
        AgentMode::Debug,
        AgentMode::Multitask,
        AgentMode::Normal,
    ];
    for &exp in &expected {
        mode = mode.next();
        assert_eq!(mode, exp);
    }
}

#[test]
fn labels_are_non_empty() {
    for mode in [
        AgentMode::Normal,
        AgentMode::Plan,
        AgentMode::Ask,
        AgentMode::Debug,
        AgentMode::Multitask,
    ] {
        assert!(!mode.label().is_empty());
    }
}

#[test]
fn default_is_normal() {
    assert_eq!(AgentMode::default(), AgentMode::Normal);
}

#[test]
fn every_mode_returns_after_five_steps() {
    for start in [
        AgentMode::Normal,
        AgentMode::Plan,
        AgentMode::Ask,
        AgentMode::Debug,
        AgentMode::Multitask,
    ] {
        let mut m = start;
        for step in 1..=5 {
            m = m.next();
            if step < 5 {
                assert_ne!(m, start);
            }
        }
        assert_eq!(m, start);
    }
}

#[test]
fn labels_are_exact_and_distinct() {
    assert_eq!(AgentMode::Normal.label(), "Normal");
    assert_eq!(AgentMode::Plan.label(), "Plan");
    assert_eq!(AgentMode::Ask.label(), "Ask");
    assert_eq!(AgentMode::Debug.label(), "Debug");
    assert_eq!(AgentMode::Multitask.label(), "Multitask");
}

#[test]
fn badge_colors() {
    assert_eq!(AgentMode::Normal.badge_color(), "default");
    assert_eq!(AgentMode::Plan.badge_color(), "plan");
    assert_eq!(AgentMode::Ask.badge_color(), "ask");
    assert_eq!(AgentMode::Debug.badge_color(), "debug");
    assert_eq!(AgentMode::Multitask.badge_color(), "multitask");
}

#[test]
fn only_debug_and_multitask_inject_a_prompt() {
    assert_eq!(AgentMode::Normal.system_prompt_injection(), None);
    assert_eq!(AgentMode::Plan.system_prompt_injection(), None);
    assert_eq!(AgentMode::Ask.system_prompt_injection(), None);
    assert_eq!(AgentMode::Debug.system_prompt_injection(), Some(DEBUG_MODE_PROMPT));
    assert_eq!(AgentMode::Multitask.system_prompt_injection(), Some(MULTITASK_MODE_PROMPT));
}
