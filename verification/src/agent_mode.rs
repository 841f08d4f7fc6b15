//! Agent mode ring: Normal → Plan → Ask → Debug → Multitask → Normal.
//!
//! The single source of truth for the Shift+Tab ring order and the display
//! labels.  Always-approve stays orthogonal and is not part of the ring.
use vstd::prelude::*;

verus! {

/// Prompt fragment appended to the system prompt in Debug mode.
pub const DEBUG_MODE_PROMPT: &'static str = "You are in Debug mode — Cursor-faithful hypothesis→instrument→repro→analyze→fix→verify loop. \
                 You MUST loop until the user selects (B) Solved.\n\
                 Steps every turn: \
                 1) Explore the codebase and generate 2-4 ranked hypotheses (numbered, with confidence and evidence). \
                 2) Propose and apply instrumentation: insert temporary logs containing exactly \"[rivo-debug]\" \
                 (e.g. console.log('[rivo-debug] hypothesisId=2 location=src/foo.ts:42', JSON.stringify({variable})) \
                 via search_replace at the key locations — mark each insertion so you can remove them later; never use plain console.log without the marker. \
                 3) Ask the user to reproduce the bug with concrete steps and wait for runtime output. \
                 4) Analyze pasted [rivo-debug] logs (variable states, execution paths, timing) to pinpoint the root cause — cite the log lines. \
                 5) Make a targeted fix (prefer 2-3 lines) and explain it. \
                 6) Ask to reproduce again to verify. Cleanup: when the user confirms fixed, remove ALL [rivo-debug] instrumentation. \
                 At the end of every turn, offer exactly two options: (A) Review logs — \"paste new [rivo-debug] output or run again with the same steps\" (keep instrumentation and re-analyze); \
                 (B) Solved — \"remove instrumentation, bug is fixed\" (delete every [rivo-debug] log and summarize). \
                 Do not invent logs. Do not guess a fix without runtime evidence from [rivo-debug] marks. \
                 If this is the first turn and the model output did not include hypotheses, the pager will inject a system-reminder to start step 1 — still produce 2-4 hypotheses immediately. \
                 Loop on (A) until (B) is chosen.";

/// Prompt fragment appended to the system prompt in Multitask mode.
pub const MULTITASK_MODE_PROMPT: &'static str = "You are in Multitask (DAG orchestrator) mode — Cursor-style /multitask. You are the \
                 ORCHESTRATOR, never the editor.\n\
                 Protocol:\n\
                 1) DAG with TodoWrite: immediately call todo_write to create a DAG listing every \
                 sub-task with explicit dependencies (independent nodes run in parallel, dependent \
                 nodes are ordered). Break larger tasks into small parallelizable chunks.\n\
                 2) Delegate each READY DAG node to a subagent via TaskTool (spawn_subagent) with a \
                 self-contained prompt and acceptance criteria; you MAY send multiple Task calls in \
                 one turn to run subagents in parallel. DO NOT call search_replace/write/ \
                 run_terminal_command locally — all file edits must be done by subagents (isolated \
                 worktrees/branches when available).\n\
                 3) Track via TaskOutput/wait_tasks; when dependencies resolve, spawn the next DAG \
                 layer. If new work appears mid-flight, extend the DAG and spawn additional subagents.\n\
                 4) Aggregate: when all subagents complete, merge results, verify, and present a \
                 unified summary. Main chat must not make direct file edits.\n\
                 Show progress as \"Multitask \\u{00B7} N subagents running\". Mirrors Cursor \
                 /multitask: run async subagents to parallelize your requests instead of queuing, \
                 and keep dependent steps ordered.";

/// Agent modes cycled with Shift+Tab.
///
/// Order: `Normal → Plan → Ask → Debug → Multitask → Normal`.  `Normal` is
/// the default.
#[derive(Debug, Clone, Copy, PartialEq, Eq, Hash, Structural)]
pub enum AgentMode {
    Normal,
    Plan,
    Ask,
    Debug,
    Multitask,
}

/// Position of a mode in the ring.
pub open spec fn mode_index(m: AgentMode) -> int {
    match m {
        AgentMode::Normal => 0,
        AgentMode::Plan => 1,
        AgentMode::Ask => 2,
        AgentMode::Debug => 3,
        AgentMode::Multitask => 4,
    }
}

/// The mode after `m` in the ring.
pub open spec fn spec_next_mode(m: AgentMode) -> AgentMode {
    match m {
        AgentMode::Normal => AgentMode::Plan,
        AgentMode::Plan => AgentMode::Ask,
        AgentMode::Ask => AgentMode::Debug,
        AgentMode::Debug => AgentMode::Multitask,
        AgentMode::Multitask => AgentMode::Normal,
    }
}

/// The label of a mode.
pub open spec fn mode_label(m: AgentMode) -> Seq<char> {
    match m {
        AgentMode::Normal => "Normal"@,
        AgentMode::Plan => "Plan"@,
        AgentMode::Ask => "Ask"@,
        AgentMode::Debug => "Debug"@,
        AgentMode::Multitask => "Multitask"@,
    }
}

impl Default for AgentMode {
    fn default() -> (m: Self)
        ensures
            m == AgentMode::Normal,
    {
        AgentMode::Normal
    }
}

impl AgentMode {
    /// Next mode in the ring: Normal → Plan → Ask → Debug → Multitask → Normal.
    pub fn next(&self) -> (m: Self)
        ensures
            m == spec_next_mode(*self),
            mode_index(m) == (mode_index(*self) + 1) % 5,
    {
        match self {
            AgentMode::Normal => AgentMode::Plan,
            AgentMode::Plan => AgentMode::Ask,
            AgentMode::Ask => AgentMode::Debug,
            AgentMode::Debug => AgentMode::Multitask,
            AgentMode::Multitask => AgentMode::Normal,
        }
    }

    /// Human label for banners, toasts and the status bar.
    pub fn label(&self) -> (s: &'static str)
        ensures
            s@ == mode_label(*self),
    {
        match self {
            AgentMode::Normal => "Normal",
            AgentMode::Plan => "Plan",
            AgentMode::Ask => "Ask",
            AgentMode::Debug => "Debug",
            AgentMode::Multitask => "Multitask",
        }
    }

    /// Theme token name for the status-bar badge color.
    pub fn badge_color(&self) -> (s: &'static str)
        ensures
            s@ == (match *self {
                AgentMode::Normal => "default"@,
                AgentMode::Plan => "plan"@,
                AgentMode::Ask => "ask"@,
                AgentMode::Debug => "debug"@,
                AgentMode::Multitask => "multitask"@,
            }),
    {
        match self {
            AgentMode::Normal => "default",
            AgentMode::Plan => "plan",
            AgentMode::Ask => "ask",
            AgentMode::Debug => "debug",
            AgentMode::Multitask => "multitask",
        }
    }

    /// System-prompt fragment for this mode: Debug and Multitask have one,
    /// the other modes none.
    pub fn system_prompt_injection(&self) -> (r: Option<&'static str>)
        ensures
            r == (match *self {
                AgentMode::Debug => Some(DEBUG_MODE_PROMPT),
                AgentMode::Multitask => Some(MULTITASK_MODE_PROMPT),
                _ => None,
            }),
    {
        match self {
            AgentMode::Debug => Some(DEBUG_MODE_PROMPT),
            AgentMode::Multitask => Some(MULTITASK_MODE_PROMPT),
            _ => None,
        }
    }
}

/// Five steps of the ring lead back to the starting mode, and no fewer do.
pub proof fn law_ring_has_period_five(m: AgentMode)
    ensures
        spec_next_mode(spec_next_mode(spec_next_mode(spec_next_mode(spec_next_mode(m))))) == m,
        spec_next_mode(m) != m,
        spec_next_mode(spec_next_mode(m)) != m,
        spec_next_mode(spec_next_mode(spec_next_mode(m))) != m,
        spec_next_mode(spec_next_mode(spec_next_mode(spec_next_mode(m)))) != m,
{
}

/// Distinct modes have distinct successors, so the ring visits every mode.
pub proof fn law_next_is_injective(a: AgentMode, b: AgentMode)
    ensures
        spec_next_mode(a) == spec_next_mode(b) ==> a == b,
{
}

/// Distinct modes have distinct, non-empty labels.
pub proof fn law_labels_distinct_and_non_empty(a: AgentMode, b: AgentMode)
    ensures
        mode_label(a).len() > 0,
        a != b ==> mode_label(a) != mode_label(b),
{
    reveal_strlit("Normal");
    reveal_strlit("Plan");
    reveal_strlit("Ask");
    reveal_strlit("Debug");
    reveal_strlit("Multitask");
    if a != b {
        if mode_label(a).len() == mode_label(b).len() {
            assert(mode_label(a)[0] != mode_label(b)[0]);
        }
    }
}

} // verus!
