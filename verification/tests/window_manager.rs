use xai_grok_pager::geometry::{Constraint, Rect};
use xai_grok_pager::window_manager::{Pill, Split, TileBox, Window, WindowManager};

fn two_window_manager() -> WindowManager {
    let mut wm = WindowManager::new().with_tiling(true);
    wm.add_window("a".to_string());
    wm.add_window("b".to_string());
    wm
}

#[test]
fn new_is_empty_and_tiling_off() {
    let wm = WindowManager::new();
    assert!(wm.windows.is_empty());
    assert!(!wm.tiling_enabled);
    assert!(!wm.is_tiled());
}

#[test]
fn add_window_sets_focus() {
    let mut wm = WindowManager::new().with_tiling(true);
    let id1 = wm.add_window("win1".to_string());
    assert_eq!(wm.focused_window().unwrap().id, id1);
    let id2 = wm.add_window("win2".to_string());
    assert_eq!(wm.focused_window().unwrap().id, id2);
    assert_eq!(wm.windows.len(), 2);
    assert_eq!(wm.splits.len(), 1);
}

#[test]
fn remove_window_updates_focus() {
    let mut wm = WindowManager::new();
    let id1 = wm.add_window("a".to_string());
    let id2 = wm.add_window("b".to_string());
    assert!(wm.remove_window(&id1));
    assert_eq!(wm.windows.len(), 1);
    assert_eq!(wm.windows[0].id, id2);
}

#[test]
fn cycle_focus_wraps() {
    let mut wm = WindowManager::new();
    wm.add_window("a".to_string());
    wm.add_window("b".to_string());
    let first = wm.focused;
    wm.cycle_focus();
    assert_ne!(wm.focused, first);
    wm.cycle_focus();
    assert_eq!(wm.focused, first);
}

#[test]
fn compute_tiled_layout_single_returns_area() {
    let wm = WindowManager::new().with_tiling(true);
    let area = Rect::new(0, 0, 100, 30);
    let rects = wm.compute_tiled_layout(area);
    assert_eq!(rects, vec![area]);
}

#[test]
fn compute_tiled_layout_two_splits_horizontally() {
    let mut wm = WindowManager::new().with_tiling(true);
    wm.add_window("a".to_string());
    wm.add_window("b".to_string());
    // Default 50/50
    let area = Rect::new(0, 0, 100, 20);
    let rects = wm.compute_tiled_layout(area);
    assert_eq!(rects.len(), 2);
    assert_eq!(rects[0].width + rects[1].width, 100);
    // Resize
    wm.resize_focused(10);
    assert_eq!(wm.splits[0].ratio, 60);
    let rects2 = wm.compute_tiled_layout(area);
    assert_eq!(rects2.len(), 2);
}

#[test]
fn handle_drag_updates_ratio() {
    let mut wm = WindowManager::new().with_tiling(true);
    wm.add_window("a".to_string());
    wm.add_window("b".to_string());
    let area = Rect::new(0, 0, 100, 20);
    let x: u16 = 30;
    let ratio = (((x as i32 - area.x as i32) as f32 / area.width as f32) * 100.0).round() as i32;
    wm.drag_first_split(area, ratio);
    assert_eq!(wm.splits[0].ratio, 30);
    wm.end_drag();
    assert!(!wm.splits[0].dragging);
}

#[test]
fn split_clamps_ratio() {
    assert_eq!(Split::new(5).ratio, 10);
    assert_eq!(Split::new(95).ratio, 90);
    assert_eq!(Split::new(50).ratio, 50);
}

#[test]
fn visible_windows_filters_minimized() {
    let mut wm = WindowManager::new();
    wm.add_window("a".to_string());
    let id2 = wm.add_window("b".to_string());
    wm.windows.iter_mut().find(|w| w.id == id2).unwrap().minimized = true;
    assert_eq!(wm.visible_windows().len(), 1);
}

#[test]
fn window_ids_are_prefixed_and_distinct() {
    let mut wm = WindowManager::default();
    let a = wm.add_window("t".to_string());
    let b = wm.add_window("t".to_string());
    assert!(a.starts_with("win-"));
    assert_eq!(a.len(), "win-".len() + 36);
    assert_ne!(a, b);
    assert_eq!(Window::new("x".to_string(), "y".to_string()).minimized, false);
}

#[test]
fn splits_follow_window_count() {
    let mut wm = WindowManager::new();
    wm.add_window("a".to_string());
    assert!(wm.splits.is_empty());
    wm.add_window("b".to_string());
    wm.add_window("c".to_string());
    assert_eq!(wm.splits, vec![Split::default(), Split::default()]);
    assert_eq!(Split::default(), Split { ratio: 50, dragging: false });
    let first = wm.windows[0].id.clone();
    assert!(wm.remove_window(&first));
    assert_eq!(wm.splits.len(), 1);
    assert!(!wm.remove_window("missing"));
    assert_eq!(wm.windows.len(), 2);
}

#[test]
fn add_then_remove_restores_the_windows() {
    let mut wm = two_window_manager();
    let before: Vec<String> = wm.windows.iter().map(|w| w.id.clone()).collect();
    let splits = wm.splits.clone();
    let id = wm.add_window("c".to_string());
    assert!(wm.remove_window(&id));
    let after: Vec<String> = wm.windows.iter().map(|w| w.id.clone()).collect();
    assert_eq!(before, after);
    assert_eq!(wm.splits, splits);
    assert_eq!(wm.focused, 1);
}

#[test]
fn focus_by_id() {
    let mut wm = two_window_manager();
    let first = wm.windows[0].id.clone();
    assert!(wm.focus(&first));
    assert_eq!(wm.focused, 0);
    assert!(!wm.focus("missing"));
    assert_eq!(wm.focused, 0);
}

#[test]
fn cycle_focus_on_empty_manager_does_nothing() {
    let mut wm = WindowManager::new();
    wm.cycle_focus();
    assert_eq!(wm.focused, 0);
    assert!(wm.focused_window().is_none());
}

#[test]
fn resize_clamps_and_uses_the_split_next_to_focus() {
    let mut wm = two_window_manager();
    wm.resize_focused(100);
    assert_eq!(wm.splits[0].ratio, 90);
    wm.resize_focused(-200);
    assert_eq!(wm.splits[0].ratio, 10);
    let mut empty = WindowManager::new();
    empty.resize_focused(5);
    assert!(empty.splits.is_empty());
}

#[test]
fn drag_is_clamped_and_needs_width() {
    let mut wm = two_window_manager();
    wm.drag_first_split(Rect::new(0, 0, 100, 20), 3);
    assert_eq!(wm.splits[0], Split { ratio: 10, dragging: true });
    wm.drag_first_split(Rect::new(0, 0, 100, 20), 97);
    assert_eq!(wm.splits[0].ratio, 90);
    wm.end_drag();
    wm.drag_first_split(Rect::new(0, 0, 0, 20), 40);
    assert_eq!(wm.splits[0], Split { ratio: 90, dragging: false });
}

#[test]
fn split_constraints() {
    let s = Split::new(70);
    assert_eq!(s.constraint(), Constraint::Ratio(70, 100));
    assert_eq!(s.complement(), Constraint::Ratio(30, 100));
}

#[test]
fn three_windows_share_equally() {
    let mut wm = two_window_manager();
    wm.add_window("c".to_string());
    let rects = wm.compute_tiled_layout(Rect::new(0, 0, 90, 10));
    assert_eq!(rects.len(), 3);
    assert!(rects.iter().all(|r| r.width == 30));
}

#[test]
fn nested_layout_is_a_grid() {
    let wm = WindowManager::new();
    let area = Rect::new(0, 0, 40, 20);
    assert_eq!(wm.compute_nested_layout(area, 0, 3), vec![area]);
    let cells = wm.compute_nested_layout(area, 2, 2);
    assert_eq!(
        cells,
        vec![
            Rect::new(0, 0, 20, 10),
            Rect::new(20, 0, 20, 10),
            Rect::new(0, 10, 20, 10),
            Rect::new(20, 10, 20, 10),
        ]
    );
}

#[test]
fn hit_test_finds_the_divider() {
    let wm = two_window_manager();
    let area = Rect::new(0, 0, 100, 20);
    assert_eq!(wm.hit_test_split(area, 50), Some(0));
    assert_eq!(wm.hit_test_split(area, 49), Some(0));
    assert_eq!(wm.hit_test_split(area, 20), None);
    let single = WindowManager::new().with_tiling(true);
    assert_eq!(single.hit_test_split(area, 50), None);
}

#[test]
fn tiled_boxes_mark_focus_and_fall_back_to_id() {
    let mut wm = two_window_manager();
    let second = wm.windows[1].id.clone();
    wm.windows[0].title = String::new();
    let first = wm.windows[0].id.clone();
    let boxes = wm.tiled_boxes(Rect::new(0, 0, 100, 20), Some(&second));
    assert_eq!(
        boxes,
        vec![
            TileBox { rect: Rect::new(0, 0, 50, 20), title: first, focused: false },
            TileBox { rect: Rect::new(50, 0, 50, 20), title: "b".to_string(), focused: true },
        ]
    );
    let off = WindowManager::new();
    assert!(off.tiled_boxes(Rect::new(0, 0, 100, 20), None).is_empty());
    assert!(wm.tiled_boxes(Rect::new(0, 0, 4, 2), None).is_empty());
}

#[test]
fn minimized_pills_fill_the_bottom_row() {
    let mut wm = WindowManager::new();
    wm.add_window("alpha".to_string());
    wm.add_window("beta".to_string());
    wm.add_window("gamma".to_string());
    assert!(!wm.has_minimized());
    assert_eq!(wm.minimized_pills(Rect::new(0, 0, 30, 5)), (Rect::default(), Vec::new()));
    for w in wm.windows.iter_mut() {
        w.minimized = true;
    }
    assert!(wm.has_minimized());
    let (strip, pills) = wm.minimized_pills(Rect::new(2, 3, 27, 5));
    assert_eq!(strip, Rect::new(2, 7, 27, 1));
    assert_eq!(
        pills,
        vec![
            Pill { x: 2, label: "[ alpha ]".to_string() },
            Pill { x: 12, label: "[ beta ]".to_string() },
        ]
    );
    assert_eq!(wm.minimized_pills(Rect::new(0, 0, 30, 0)).1, Vec::new());
}

#[test]
fn tiled_constraints_and_layout_facts() {
    let mut wm = two_window_manager();
    wm.splits[0].ratio = 70;
    assert_eq!(wm.tiled_constraint_list(), vec![Constraint::Ratio(70, 100), Constraint::Ratio(30, 100)]);
    wm.add_window("c".to_string());
    assert_eq!(wm.tiled_constraint_list(), vec![Constraint::Ratio(1, 3); 3]);
    let area = Rect::new(5, 2, 61, 9);
    let rects = wm.compute_tiled_layout(area);
    assert_eq!(rects.len(), 3);
    for r in &rects {
        assert_eq!((r.y, r.height), (2, 9));
        assert!(r.x >= 5 && r.x + r.width <= 66);
    }
}

#[test]
fn divider_at_and_tiles_in_work_on_given_rects() {
    let rects = [Rect::new(0, 0, 10, 5), Rect::new(10, 0, 2, 5), Rect::new(12, 0, 8, 5)];
    assert_eq!(xai_grok_pager::window_manager::divider_at(&rects, 9), Some(0));
    assert_eq!(xai_grok_pager::window_manager::divider_at(&rects, 12), Some(1));
    assert_eq!(xai_grok_pager::window_manager::divider_at(&rects, 19), None);
    let wm = {
        let mut wm = WindowManager::new();
        wm.add_window("a".to_string());
        wm.add_window("b".to_string());
        wm.add_window("c".to_string());
        wm
    };
    let tiles = wm.tiles_in(&rects, None);
    let titles: Vec<&str> = tiles.iter().map(|t| t.title.as_str()).collect();
    assert_eq!(titles, vec!["a", "c"]);
    assert_eq!(tiles[1].rect, rects[2]);
}
