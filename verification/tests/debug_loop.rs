use xai_grok_pager::debug_loop::{DebugLoopState, DebugPhase, RIVO_DEBUG_MARKER};

#[test]
fn marker_detection() {
    assert!(DebugLoopState::is_rivo_debug_log("[rivo-debug] foo"));
    assert!(DebugLoopState::is_rivo_debug_log(
        "console.log('[rivo-debug] hi', x)"
    ));
    assert!(!DebugLoopState::is_rivo_debug_log("console.log('hi', x)"));
    assert!(!DebugLoopState::is_rivo_debug_log("[rivo - debug]"));
}

#[test]
fn extract_marker_lines_filters() {
    let text = "line1\n[rivo-debug] a=1\nline2\n[rivo-debug] b=2\n";
    let out = DebugLoopState::extract_marker_lines(text);
    assert_eq!(out.len(), 2);
    assert!(out[0].contains("[rivo-debug]"));
}

#[test]
fn loop_advances_phases() {
    let mut s = DebugLoopState::new();
    assert_eq!(s.phase, DebugPhase::Hypothesize);
    s.push_hypothesis("h1".to_string());
    s.push_hypothesis("h2".to_string());
    s.advance_if_ready();
    assert_eq!(s.phase, DebugPhase::Instrument);
    s.record_log("[rivo-debug] test".to_string());
    s.advance_if_ready();
    assert_eq!(s.phase, DebugPhase::Reproduce);
}

#[test]
fn first_turn_reminder_mentions_marker_and_ab() {
    let r = DebugLoopState::first_turn_reminder();
    assert!(r.contains("[rivo-debug]"));
    assert!(r.contains("(A)"));
    assert!(r.contains("(B)"));
}

#[test]
fn contains_marker_helper() {
    assert!(DebugLoopState::contains_marker("[rivo-debug]"));
    assert!(!DebugLoopState::contains_marker("nope"));
}

#[test]
fn extracted_lines_are_trimmed_and_ordered() {
    let text = "  [rivo-debug] first  \r\nnoise\n\t[rivo-debug] second\n[rivo-debug]";
    let out = DebugLoopState::extract_marker_lines(text);
    assert_eq!(out, vec!["[rivo-debug] first", "[rivo-debug] second", "[rivo-debug]"]);
    assert!(DebugLoopState::extract_marker_lines("").is_empty());
    assert!(DebugLoopState::extract_marker_lines("a\nb\n").is_empty());
}

#[test]
fn hypothesis_ids_count_from_one() {
    let mut s = DebugLoopState::default();
    s.push_hypothesis("a".to_string());
    s.push_hypothesis("b".to_string());
    s.push_hypothesis("c".to_string());
    let ids: Vec<usize> = s.hypotheses.iter().map(|h| h.id).collect();
    assert_eq!(ids, vec![1, 2, 3]);
    assert_eq!(s.hypotheses[2].text, "c");
    assert!(s.has_hypotheses());
}

#[test]
fn record_log_parses_the_hypothesis_id() {
    let mut s = DebugLoopState::new();
    assert!(s.record_log("console.log('[rivo-debug] hypothesisId=2 at src/foo.ts:42')".to_string()));
    assert!(s.record_log("[rivo-debug] hypothesis=7".to_string()));
    assert!(s.record_log("[rivo-debug] hypothesisId=x hypothesis=3".to_string()));
    assert!(s.record_log("[rivo-debug] hypothesisId= nothing".to_string()));
    assert!(s.record_log("[rivo-debug] hypothesisId=2=3".to_string()));
    let ids: Vec<Option<usize>> = s.logs.iter().map(|l| l.hypothesis_id).collect();
    assert_eq!(ids, vec![Some(2), Some(7), Some(3), None, None]);
    assert!(s.instrumented);
}

#[test]
fn record_log_refuses_lines_without_marker() {
    let mut s = DebugLoopState::new();
    assert!(!s.record_log("plain output".to_string()));
    assert!(!s.has_logs());
    assert!(!s.instrumented);
}

#[test]
fn record_logs_from_text_counts_marker_lines() {
    let mut s = DebugLoopState::new();
    let n = s.record_logs_from_text("x\n[rivo-debug] hypothesisId=4 a\ny\n  [rivo-debug] b  \n");
    assert_eq!(n, 2);
    assert_eq!(s.logs.len(), 2);
    assert_eq!(s.logs[0].hypothesis_id, Some(4));
    assert_eq!(s.logs[1].raw, "[rivo-debug] b");
    assert!(s.instrumented);
    let mut t = DebugLoopState::new();
    assert_eq!(t.record_logs_from_text("nothing here"), 0);
    assert!(!t.instrumented);
}

#[test]
fn advance_waits_for_preconditions() {
    let mut s = DebugLoopState::new();
    s.push_hypothesis("only one".to_string());
    s.advance_if_ready();
    assert_eq!(s.phase, DebugPhase::Hypothesize);
    s.push_hypothesis("two".to_string());
    s.advance_if_ready();
    assert_eq!(s.phase, DebugPhase::Instrument);
    s.advance_if_ready();
    assert_eq!(s.phase, DebugPhase::Instrument);
    s.record_log("[rivo-debug] x".to_string());
    s.advance_if_ready();
    assert_eq!(s.phase, DebugPhase::Reproduce);
    s.advance_if_ready();
    assert_eq!(s.phase, DebugPhase::Analyze);
    s.advance_if_ready();
    assert_eq!(s.phase, DebugPhase::Analyze);
    s.mark_solved();
    assert_eq!(s.phase, DebugPhase::Solved);
}

#[test]
fn phase_ring_ends_in_solved() {
    let mut p = DebugPhase::default();
    let labels = ["hypothesize", "instrument", "reproduce", "analyze", "fix", "verify", "solved"];
    for label in labels {
        assert_eq!(p.label(), label);
        p = p.next();
    }
    assert_eq!(p, DebugPhase::Solved);
    assert_eq!(DebugPhase::Solved.next(), DebugPhase::Solved);
}

#[test]
fn ab_options_are_fixed() {
    let [a, b] = DebugLoopState::ab_options();
    assert!(a.starts_with("(A) Review logs"));
    assert!(b.starts_with("(B) Solved"));
    assert!(a.contains(RIVO_DEBUG_MARKER));
    assert!(b.contains(RIVO_DEBUG_MARKER));
}
