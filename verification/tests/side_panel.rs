use xai_grok_pager::geometry::Rect;
use xai_grok_pager::side_chat::{AgentId, SideChatStore};
use xai_grok_pager::side_panel::{
    tab_bar_cells, tab_hitboxes, SidePanelFrame, SidePanelLayout, SidePanelPreferences, SideTabHit,
    SideTabHitbox, TabCell, TabStyle, DEFAULT_MAIN_RATIO, MIN_PANEL_WIDTH,
};

fn tabs(v: &[(&str, &str)]) -> Vec<(String, String)> {
    v.iter().map(|(a, b)| (a.to_string(), b.to_string())).collect()
}

fn panel_with(ids: &[&str]) -> SidePanelLayout {
    let mut panel = SidePanelLayout::default();
    for id in ids {
        panel.open(id.to_string());
    }
    panel
}

#[test]
fn default_ratio_is_65_35() {
    assert_eq!(SidePanelPreferences::default().main_ratio, DEFAULT_MAIN_RATIO);
}

#[test]
fn closing_last_tab_collapses_panel() {
    let mut panel = SidePanelLayout::default();
    panel.open("one".to_string());
    assert!(panel.close("one"));
    assert!(!panel.is_open());
    assert!(!panel.focused);
    assert!(panel.visible == false);
}

#[test]
fn open_sets_visible_and_focused() {
    let mut panel = SidePanelLayout::default();
    panel.open("one".to_string());
    assert!(panel.is_open());
    assert!(panel.focused);
    assert!(panel.visible);
}

#[test]
fn hide_and_show_keep_tabs() {
    let mut panel = SidePanelLayout::default();
    panel.open("one".to_string());
    panel.hide_panel();
    assert!(!panel.is_open());
    assert!(!panel.focused);
    panel.show();
    assert!(panel.is_open());
    assert_eq!(panel.selected_id(), Some("one"));
}

#[test]
fn second_tab_does_not_replace_first() {
    let mut panel = SidePanelLayout::default();
    panel.open("one".to_string());
    panel.open("two".to_string());
    assert_eq!(panel.open_tabs, vec!["one", "two"]);
    assert_eq!(panel.selected_id(), Some("two"));
}

#[test]
fn divider_respects_minimum_widths() {
    let mut preferences = SidePanelPreferences::default();
    let area = Rect::new(0, 0, 100, 30);
    preferences.set_from_divider(area, 1);
    let (main, _, side) = preferences.split(area).unwrap();
    assert!(main.width >= MIN_PANEL_WIDTH);
    assert!(side.width >= MIN_PANEL_WIDTH);
}

#[test]
fn startup_does_not_restore_visible_tabs() {
    let mut panel = SidePanelLayout::default();
    panel.open("one".to_string());
    panel.clear_for_startup();
    assert!(!panel.is_open());
    assert_eq!(panel.selected_id(), None);
}

#[test]
fn tab_hits_never_overlap_and_include_create() {
    let (hits, overflow) = tab_hitboxes(
        20,
        35,
        vec![
            ("one".to_string(), "A sufficiently long first title".to_string()),
            ("two".to_string(), "Another title".to_string()),
            ("three".to_string(), "Third title".to_string()),
        ],
    );
    assert!(overflow);
    for pair in hits.windows(2) {
        assert!(pair[0].end <= pair[1].start);
    }
    assert!(hits.iter().any(|hit| matches!(hit.hit, SideTabHit::Create)));
}

#[test]
fn tab_hitboxes_exact_layout() {
    let (hits, overflow) = tab_hitboxes(20, 35, tabs(&[("one", "A sufficiently long first title"), ("two", "Another title"), ("three", "Third title")]));
    assert_eq!(
        hits,
        vec![
            SideTabHitbox { start: 20, end: 40, hit: SideTabHit::Select("one".to_string()) },
            SideTabHitbox { start: 40, end: 42, hit: SideTabHit::Close("one".to_string()) },
            SideTabHitbox { start: 42, end: 45, hit: SideTabHit::Overflow },
            SideTabHitbox { start: 52, end: 55, hit: SideTabHit::Create },
        ]
    );
    assert!(overflow);
}

#[test]
fn tab_hitboxes_short_titles_fit_and_narrow_panels_hold_nothing() {
    let (hits, overflow) = tab_hitboxes(0, 40, tabs(&[("a", "x")]));
    assert!(!overflow);
    assert_eq!(
        hits,
        vec![
            SideTabHitbox { start: 0, end: 6, hit: SideTabHit::Select("a".to_string()) },
            SideTabHitbox { start: 6, end: 8, hit: SideTabHit::Close("a".to_string()) },
            SideTabHitbox { start: 37, end: 40, hit: SideTabHit::Create },
        ]
    );
    let (none, overflow) = tab_hitboxes(5, 2, tabs(&[("a", "x")]));
    assert!(none.is_empty());
    assert!(overflow);
}

#[test]
fn hitbox_contains_is_half_open() {
    let h = SideTabHitbox { start: 3, end: 5, hit: SideTabHit::Create };
    assert!(!h.contains(2));
    assert!(h.contains(3));
    assert!(h.contains(4));
    assert!(!h.contains(5));
}

#[test]
fn set_main_ratio_clamps() {
    let mut p = SidePanelPreferences::default();
    p.set_main_ratio(5);
    assert_eq!(p.main_ratio, 20);
    p.set_main_ratio(95);
    assert_eq!(p.main_ratio, 80);
    p.set_main_ratio(71);
    assert_eq!(p.main_ratio, 71);
}

#[test]
fn divider_ratio_follows_the_mouse_and_stays_in_range() {
    let mut p = SidePanelPreferences::default();
    let area = Rect::new(10, 0, 100, 30);
    p.set_from_divider(area, 60);
    assert_eq!(p.main_ratio, 50);
    p.set_from_divider(area, 0);
    assert_eq!(p.main_ratio, 25);
    p.set_from_divider(area, 500);
    assert_eq!(p.main_ratio, 75);
    let before = p.main_ratio;
    p.set_from_divider(Rect::new(0, 0, 0, 10), 5);
    assert_eq!(p.main_ratio, before);
    for column in [0u16, 1, 17, 40, 64, 99, 140, u16::MAX] {
        p.set_from_divider(Rect::new(3, 0, 47, 5), column);
        assert!((20..=80).contains(&p.main_ratio));
    }
}

#[test]
fn split_needs_room() {
    let p = SidePanelPreferences::default();
    assert!(p.split(Rect::new(0, 0, 47, 30)).is_none());
    assert!(p.split(Rect::new(0, 0, 100, 3)).is_none());
    let (main, divider, side) = p.split(Rect::new(0, 0, 101, 10)).unwrap();
    assert_eq!(divider.width, 1);
    assert_eq!(main.width + divider.width + side.width, 101);
}

#[test]
fn frame_is_open_when_panel_has_area() {
    let mut f = SidePanelFrame::default();
    assert!(!f.is_open());
    f.panel = Rect::new(0, 0, 10, 0);
    assert!(!f.is_open());
    f.panel = Rect::new(0, 0, 10, 3);
    assert!(f.is_open());
}

#[test]
fn close_selects_the_neighbour() {
    let mut panel = panel_with(&["a", "b", "c"]);
    panel.select("b");
    assert!(panel.close("b"));
    assert_eq!(panel.selected_id(), Some("c"));
    assert!(panel.close("c"));
    assert_eq!(panel.selected_id(), Some("a"));
    assert!(!panel.close("zzz"));
    assert_eq!(panel.open_tabs, vec!["a"]);
    assert!(panel.is_open());
}

#[test]
fn close_of_an_unselected_tab_keeps_selection() {
    let mut panel = panel_with(&["a", "b", "c"]);
    assert!(panel.close("a"));
    assert_eq!(panel.selected_id(), Some("c"));
    assert_eq!(panel.open_tabs, vec!["b", "c"]);
}

#[test]
fn select_only_open_tabs() {
    let mut panel = panel_with(&["a", "b"]);
    panel.focused = false;
    assert!(!panel.select("x"));
    assert_eq!(panel.selected_id(), Some("b"));
    assert!(!panel.focused);
    assert!(panel.select("a"));
    assert_eq!(panel.selected_id(), Some("a"));
    assert!(panel.focused);
}

#[test]
fn cycle_wraps_both_ways_and_round_trips() {
    let mut panel = panel_with(&["a", "b", "c"]);
    assert_eq!(panel.cycle_tab(false), Some("a".to_string()));
    assert_eq!(panel.cycle_tab(true), Some("c".to_string()));
    assert_eq!(panel.cycle_tab(true), Some("b".to_string()));
    assert_eq!(panel.cycle_tab(false), Some("c".to_string()));
    let mut empty = SidePanelLayout::default();
    assert_eq!(empty.cycle_tab(false), None);
}

#[test]
fn retain_keeps_order_and_moves_selection_to_last() {
    let mut panel = panel_with(&["a", "b", "c", "d"]);
    panel.select("b");
    panel.retain(|id: &String| id != "b" && id != "d");
    assert_eq!(panel.open_tabs, vec!["a", "c"]);
    assert_eq!(panel.selected_id(), Some("c"));
    panel.retain(|_: &String| false);
    assert!(panel.open_tabs.is_empty());
    assert_eq!(panel.selected_id(), None);
    assert!(!panel.focused);
}

#[test]
fn normalize_drops_archived_and_missing_chats() {
    let mut store = SideChatStore::new();
    let a = store.create_side("p".to_string(), None);
    let b = store.create_side("p".to_string(), None);
    store.close(&b.id);
    let mut panel = panel_with(&[a.id.as_str(), b.id.as_str(), "gone"]);
    panel.normalize(&store);
    assert_eq!(panel.open_tabs, vec![a.id.clone()]);
    assert_eq!(panel.selected_id(), Some(a.id.as_str()));
    store.close(&a.id);
    panel.normalize(&store);
    assert!(panel.open_tabs.is_empty());
    assert_eq!(panel.selected_id(), None);
    assert!(!panel.focused);
}

#[test]
fn selected_agent_id_reads_the_store() {
    let mut store = SideChatStore::new();
    let a = store.create_side("p".to_string(), None);
    let panel = panel_with(&[a.id.as_str()]);
    assert_eq!(panel.selected_agent_id(&store), None);
    store.get_mut(&a.id).unwrap().agent_id = Some(AgentId(7));
    assert_eq!(panel.selected_agent_id(&store), Some(AgentId(7)));
    assert_eq!(SidePanelLayout::default().selected_agent_id(&store), None);
}

#[test]
fn focus_moves_into_across_and_out_of_the_panel() {
    let mut panel = panel_with(&["a", "b"]);
    panel.select("a");
    panel.focused = false;
    assert_eq!(panel.advance_focus(), Some("a".to_string()));
    assert!(panel.focused);
    assert_eq!(panel.advance_focus(), Some("b".to_string()));
    assert_eq!(panel.advance_focus(), None);
    assert!(!panel.focused);
    assert_eq!(panel.selected_id(), Some("a"));
    assert_eq!(panel.retreat_focus(), None);
    panel.focused = true;
    panel.select("b");
    assert_eq!(panel.retreat_focus(), Some("a".to_string()));
    assert_eq!(panel.retreat_focus(), None);
    assert!(!panel.focused);
    panel.hide_panel();
    assert_eq!(panel.advance_focus(), None);
    assert!(!panel.focused);
}

#[test]
fn tab_bar_paints_glyph_label_and_symbols() {
    let t = tabs(&[("one", "Hi")]);
    let (hits, _) = tab_hitboxes(0, 20, t.clone());
    let cells = tab_bar_cells(Rect::new(0, 0, 20, 10), &hits, &t, Some("one"), true, "*", "o");
    let text: String = cells.iter().map(|c| c.ch).collect();
    assert_eq!(text, "*Hi×+");
    assert_eq!(cells[0], TabCell { x: 0, ch: '*', style: TabStyle::AccentBold });
    assert_eq!(cells[2], TabCell { x: 2, ch: 'i', style: TabStyle::AccentBold });
    assert_eq!(cells[3], TabCell { x: 6, ch: '×', style: TabStyle::Secondary });
    assert_eq!(cells[4], TabCell { x: 17, ch: '+', style: TabStyle::Accent });
}

#[test]
fn tab_bar_cuts_long_labels_and_unknown_tabs_say_side() {
    let t = tabs(&[("one", "A very long label indeed")]);
    let (hits, _) = tab_hitboxes(0, 40, t.clone());
    let cells = tab_bar_cells(Rect::new(0, 0, 40, 10), &hits, &t, None, false, "*", "o");
    let select: Vec<&TabCell> = cells.iter().filter(|c| c.x < 20).collect();
    assert_eq!(select.len(), 20);
    assert!(select.iter().all(|c| c.style == TabStyle::Secondary));
    assert_eq!(select[0].ch, 'o');
    let empty: Vec<(String, String)> = Vec::new();
    let cells = tab_bar_cells(Rect::new(0, 0, 40, 10), &hits, &empty, None, false, "*", "o");
    let text: String = cells.iter().map(|c| c.ch).collect();
    assert_eq!(text, "oSide×+");
}

#[test]
fn divider_at_the_right_edge_keeps_the_panel_usable() {
    let mut preferences = SidePanelPreferences::default();
    let area = Rect::new(0, 0, 100, 30);
    preferences.set_from_divider(area, 99);
    assert_eq!(preferences.main_ratio, 75);
    let (main, divider, side) = preferences.split(area).unwrap();
    assert!(main.width >= MIN_PANEL_WIDTH);
    assert!(side.width >= MIN_PANEL_WIDTH);
    assert_eq!(divider.width, 1);
}

#[test]
fn close_undoes_open_of_a_new_tab() {
    let mut panel = panel_with(&["a", "b"]);
    panel.open("c".to_string());
    assert!(panel.close("c"));
    assert_eq!(panel.open_tabs, vec!["a", "b"]);
}

#[test]
fn hide_then_show_drops_only_focus() {
    let mut panel = panel_with(&["a", "b"]);
    panel.dragging = true;
    panel.hide_panel();
    panel.show();
    assert_eq!(panel.open_tabs, vec!["a", "b"]);
    assert_eq!(panel.selected_id(), Some("b"));
    assert!(panel.visible);
    assert!(!panel.focused);
    assert!(!panel.dragging);
    let mut empty = SidePanelLayout::default();
    empty.hide_panel();
    empty.show();
    assert!(!empty.visible);
}

#[test]
fn painted_cells_stay_inside_their_targets() {
    let t = tabs(&[("one", "A sufficiently long first title"), ("two", "Another title"), ("three", "x")]);
    let (hits, _) = tab_hitboxes(20, 60, t.clone());
    let cells = tab_bar_cells(Rect::new(20, 0, 60, 3), &hits, &t, Some("two"), false, "*", "o");
    assert!(!cells.is_empty());
    for c in &cells {
        assert!(hits.iter().any(|h| h.contains(c.x)), "cell at {} outside every target", c.x);
    }
}


#[test]
fn cycling_through_every_tab_comes_back() {
    for backwards in [false, true] {
        let mut panel = panel_with(&["a", "b", "c", "d"]);
        panel.select("b");
        let mut last = None;
        for step in 1..=4 {
            last = panel.cycle_tab(backwards);
            if step < 4 {
                assert_ne!(last, Some("b".to_string()));
            }
        }
        assert_eq!(last, Some("b".to_string()));
        assert_eq!(panel.selected_id(), Some("b"));
        assert_eq!(panel.open_tabs, vec!["a", "b", "c", "d"]);
    }
}

#[test]
fn split_hands_the_ratio_and_divider_to_the_solver() {
    let p = SidePanelPreferences { main_ratio: 60 };
    assert_eq!(
        p.divider_constraints(),
        vec![
            xai_grok_pager::geometry::Constraint::Ratio(60, 100),
            xai_grok_pager::geometry::Constraint::Length(1),
            xai_grok_pager::geometry::Constraint::Ratio(40, 100),
        ]
    );
    let (main, divider, side) = p.split(Rect::new(4, 1, 80, 6)).unwrap();
    for r in [main, divider, side] {
        assert_eq!((r.y, r.height), (1, 6));
        assert!(r.x >= 4 && r.x + r.width <= 84);
    }
}
