use legion_prof_viewer::entry::{EntryID, EntryIndex};
use legion_prof_viewer::highlight::{Highlight, HighlightIds, PendingNavigation};
use legion_prof_viewer::panel_slugs::{KindPanel, NodePanel, SlotPanel};
use legion_prof_viewer::timestamp::{Interval, Timestamp};
use legion_prof_viewer::view_history::{IntervalState, PanDirection, ViewState};
use legion_prof_viewer::viewer::{
    keyboard_action, HighlightAction, Key, KeyAction, Modifiers, Viewer, WindowState,
};

fn id(path: &[u64]) -> EntryID {
    EntryID(path.iter().map(|i| EntryIndex::Slot(*i)).collect())
}

fn iv(a: i64, b: i64) -> Interval {
    Interval { start: Timestamp(a), stop: Timestamp(b) }
}

fn strings(v: &[&str]) -> Vec<String> {
    v.iter().map(|s| s.to_string()).collect()
}

fn slot(name: &str, path: &[u64]) -> SlotPanel {
    SlotPanel { short_name: name.to_string(), entry_id: id(path), expanded: false }
}

fn window() -> WindowState {
    WindowState {
        expanded: false,
        nodes: vec![NodePanel {
            short_name: "n0".to_string(),
            entry_id: id(&[0]),
            expanded: false,
            slots: vec![
                KindPanel {
                    short_name: "cpu".to_string(),
                    entry_id: id(&[0, 0]),
                    expanded: false,
                    slots: vec![slot("C0", &[0, 0, 0]), slot("C1", &[0, 0, 1])],
                },
                KindPanel {
                    short_name: "gpudev".to_string(),
                    entry_id: id(&[0, 1]),
                    expanded: false,
                    slots: vec![slot("G0", &[0, 1, 0])],
                },
            ],
        }],
        kinds: strings(&["cpu", "gpudev"]),
        kind_filter: Vec::new(),
        search_query: String::new(),
        highlights: Vec::new(),
        highlights_enabled: false,
    }
}

fn viewer() -> Viewer {
    Viewer {
        view: ViewState { view_interval: iv(0, 1000), total_interval: iv(0, 1000), history: IntervalState::new() },
        row_scroll_delta: 0,
        show_controls: false,
        scroll_to_entry: None,
        windows: vec![window()],
    }
}

const NONE: Modifiers = Modifiers { ctrl: false, alt: false, shift: false };
const CTRL: Modifiers = Modifiers { ctrl: true, alt: false, shift: false };

#[test]
fn keys_map_to_actions() {
    assert_eq!(keyboard_action(CTRL, &vec![Key::Equals]), KeyAction::ZoomIn);
    assert_eq!(keyboard_action(CTRL, &vec![Key::ArrowLeft]), KeyAction::UndoZoom);
    assert_eq!(keyboard_action(CTRL, &vec![Key::H]), KeyAction::NoAction);
    let ctrl_alt = Modifiers { ctrl: true, alt: true, shift: false };
    assert_eq!(keyboard_action(ctrl_alt, &vec![Key::Minus]), KeyAction::ShrinkVertical);
    let shift = Modifiers { ctrl: false, alt: false, shift: true };
    assert_eq!(keyboard_action(shift, &vec![Key::ArrowRight]), KeyAction::Pan(1, PanDirection::Right));
    assert_eq!(keyboard_action(shift, &vec![Key::ArrowDown]), KeyAction::Scroll(-1));
    assert_eq!(keyboard_action(NONE, &vec![Key::ArrowLeft]), KeyAction::Pan(5, PanDirection::Left));
    assert_eq!(keyboard_action(NONE, &vec![Key::ArrowUp, Key::H]), KeyAction::ToggleControls);
    assert_eq!(keyboard_action(NONE, &vec![Key::Escape]), KeyAction::ResetUI);
    assert_eq!(keyboard_action(NONE, &Vec::new()), KeyAction::NoAction);
}

#[test]
fn key_actions_move_the_view() {
    let mut v = viewer();
    v.apply_key_action(KeyAction::ZoomIn);
    assert_eq!(v.view.view_interval, iv(250, 750));
    v.apply_key_action(KeyAction::Pan(5, PanDirection::Right));
    assert_eq!(v.view.view_interval, iv(275, 775));
    v.apply_key_action(KeyAction::UndoZoom);
    assert_eq!(v.view.view_interval, iv(250, 750));
    v.apply_key_action(KeyAction::ResetZoom);
    assert_eq!(v.view.view_interval, iv(0, 1000));
    v.apply_key_action(KeyAction::Scroll(-5));
    assert_eq!(v.row_scroll_delta, -5);
    v.apply_key_action(KeyAction::ToggleControls);
    assert!(v.show_controls);
    v.apply_key_action(KeyAction::ResetUI);
    assert!(!v.show_controls);
}

#[test]
fn navigation_zoom_pan_and_reset() {
    let mut v = viewer();
    v.apply_navigation(&PendingNavigation::Zoom { request_id: 1, start_ns: 100, stop_ns: 300 });
    assert_eq!(v.view.view_interval, iv(100, 300));
    v.apply_navigation(&PendingNavigation::Pan { request_id: 2, direction: "left".to_string(), percent: 50 });
    assert_eq!(v.view.view_interval, iv(0, 200));
    v.apply_navigation(&PendingNavigation::Pan { request_id: 3, direction: "right".to_string(), percent: 0 });
    assert_eq!(v.view.view_interval, iv(2, 202));
    v.windows[0].kind_filter = strings(&["cpu"]);
    v.windows[0].search_query = "x".to_string();
    v.apply_navigation(&PendingNavigation::ResetView { request_id: 4 });
    assert_eq!(v.view.view_interval, iv(0, 1000));
    assert!(v.windows[0].kind_filter.is_empty());
    assert!(v.windows[0].search_query.is_empty());
}

#[test]
fn navigation_scrolls_to_a_slot_and_expands_its_path() {
    let mut v = viewer();
    v.apply_navigation(&PendingNavigation::ScrollTo { request_id: 1, entry_slug: "n0_gpudev_g0".to_string() });
    assert_eq!(v.scroll_to_entry.as_ref().unwrap().0, id(&[0, 1, 0]).0);
    let w = &v.windows[0];
    assert!(w.expanded && w.nodes[0].expanded && w.nodes[0].slots[1].expanded);
    assert!(w.nodes[0].slots[1].slots[0].expanded);
    assert!(!w.nodes[0].slots[0].expanded);
    let mut u = viewer();
    u.apply_navigation(&PendingNavigation::ScrollTo { request_id: 2, entry_slug: "n9".to_string() });
    assert!(u.scroll_to_entry.is_none());
    assert!(!u.windows[0].expanded);
}

#[test]
fn navigation_set_view_filters_expands_and_collapses() {
    let mut v = viewer();
    v.windows[0].nodes[0].slots[0].expanded = true;
    v.apply_navigation(&PendingNavigation::SetView {
        request_id: 1,
        start_ns: 10,
        stop_ns: 20,
        entry_slug: Some("n0_cpu_c1".to_string()),
        filter_kinds: Some(strings(&["GPU"])),
        expand_kinds: Some(strings(&["gpu"])),
        collapse_kinds: Some(strings(&["CPU"])),
        vertical_scale_milli: None,
    });
    assert_eq!(v.view.view_interval, iv(10, 20));
    let w = &v.windows[0];
    assert_eq!(w.kind_filter, strings(&["gpudev"]));
    assert!(w.nodes[0].slots[1].expanded);
    // The collapse ran first, then scrolling to c1 expanded its kind again.
    assert!(w.nodes[0].slots[0].expanded);
    assert_eq!(v.scroll_to_entry.as_ref().unwrap().0, id(&[0, 0, 1]).0);
}

#[test]
fn navigation_search_sets_every_query() {
    let mut v = viewer();
    v.windows.push(window());
    v.apply_navigation(&PendingNavigation::Search { request_id: 1, query: "copy".to_string() });
    assert!(v.windows.iter().all(|w| w.search_query == "copy"));
    assert_eq!(v.view.view_interval, iv(0, 1000));
}

fn hl(slug: &str, start: i64, stop: i64, label: &str) -> Highlight {
    Highlight {
        entry_slug: slug.to_string(),
        start_ns: start,
        stop_ns: stop,
        severity: "info".to_string(),
        label: label.to_string(),
    }
}

#[test]
fn one_highlight_reaches_every_window_with_the_row() {
    let mut v = viewer();
    v.windows.push(window());
    let mut ids = HighlightIds::new();
    let found = v.apply_one_highlight(&mut ids, &hl("n0_cpu_c1", 5, 9, "stall")).unwrap();
    assert_eq!(found.0, id(&[0, 0, 1]).0);
    assert_eq!(ids.next, 2);
    for (k, w) in v.windows.iter().enumerate() {
        assert!(w.highlights_enabled);
        assert!(w.expanded && w.nodes[0].expanded && w.nodes[0].slots[0].expanded);
        assert_eq!(w.highlights.len(), 1);
        assert_eq!(w.highlights[0].0 .0, id(&[0, 0, 1]).0);
        assert_eq!(w.highlights[0].1[0].id, k as u64);
        assert_eq!(w.highlights[0].1[0].label, "stall");
    }
    assert!(v.apply_one_highlight(&mut ids, &hl("n0_cpu_c9", 5, 9, "stall")).is_none());
    assert_eq!(ids.next, 2);
}

#[test]
fn panel_actions_dedup_scroll_and_frame() {
    let mut v = viewer();
    let mut ids = HighlightIds::new();
    let a = HighlightAction { highlight: hl("n0_gpudev_g0", 100, 200, "x"), zoom_to: true };
    let b = HighlightAction { highlight: hl("nowhere", 0, 10, "y"), zoom_to: false };
    v.apply_panel_actions(&mut ids, false, &vec![b, a.clone(), a]);
    let w = &v.windows[0];
    assert_eq!(ids.next, 2);
    assert_eq!(w.highlights.len(), 1);
    assert_eq!(w.highlights[0].1.len(), 1);
    assert!(w.highlights_enabled);
    assert_eq!(v.scroll_to_entry.as_ref().unwrap().0, id(&[0, 1, 0]).0);
    assert_eq!(v.view.view_interval, iv(-900, 1200));
    // Clearing first, with no actions, leaves the rest alone.
    v.apply_panel_actions(&mut ids, true, &Vec::new());
    assert!(v.windows[0].highlights.is_empty());
    assert!(v.windows[0].highlights_enabled);
    assert_eq!(ids.next, 2);
}

#[test]
fn clearing_counts_rows() {
    let mut v = viewer();
    v.windows.push(window());
    let mut ids = HighlightIds::new();
    v.apply_one_highlight(&mut ids, &hl("n0_cpu_c0", 1, 2, "a"));
    v.apply_one_highlight(&mut ids, &hl("n0_cpu_c1", 1, 2, "a"));
    v.apply_one_highlight(&mut ids, &hl("n0_cpu_c1", 3, 4, "b"));
    assert_eq!(v.clear_all_highlights(), 4);
    assert!(v.windows.iter().all(|w| w.highlights.is_empty()));
    assert_eq!(v.clear_all_highlights(), 0);
}
