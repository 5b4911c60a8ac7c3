use legion_prof_viewer::entry::EntryID;
use legion_prof_viewer::highlight::{
    apply_agent_event, flatten_highlights_sorted, format_selection_banner, get_locator,
    highlight_to_ai, highlight_union, pending_nav_request_id, slug_part, AgentEvent, AiHighlight,
    Highlight, HighlightIds, ItemLinkNavigationMode, McpDrainSink, PersistedAiSettings,
    SelectedItemInfo, Slot, StartOptions,
};
use legion_prof_viewer::timestamp::{Interval, Timestamp};

/// Drive one event into a fresh sink, return the sink.
fn drive(ev: AgentEvent) -> McpDrainSink {
    let mut sink = McpDrainSink::new();
    apply_agent_event(&mut sink, ev);
    sink
}

fn nav_events() -> Vec<AgentEvent> {
    vec![
        AgentEvent::ScreenshotRequest { request_id: 1 },
        AgentEvent::ZoomRequest { request_id: 2, start_ns: 0, stop_ns: 10 },
        AgentEvent::PanRequest { request_id: 3, direction: "left".into(), percent: 25 },
        AgentEvent::ScrollToRequest { request_id: 4, entry_slug: "n0_cpu_c1".into() },
        AgentEvent::SetViewRequest {
            request_id: 5,
            start_ns: 0,
            stop_ns: 10,
            entry_slug: None,
            filter_kinds: None,
            expand_kinds: None,
            collapse_kinds: None,
            vertical_scale_milli: None,
        },
        AgentEvent::SearchRequest { request_id: 6, query: "x".into() },
        AgentEvent::ResetViewRequest { request_id: 7 },
    ]
}

fn check_every_navigation_variant() {
    for ev in nav_events() {
        let sink = drive(ev);
        assert!(sink.pending.is_some(), "nav variant must be RECORDED, not a no-op");
        assert!(sink.pending_highlight.is_none() && sink.pending_clear.is_none());
    }
}

fn check_highlight() {
    let sink = drive(AgentEvent::HighlightRequest {
        request_id: 9,
        entry_slug: "n0_cpu_c1".into(),
        start_ns: 1,
        stop_ns: 2,
        severity: "high".into(),
        label: "blk".into(),
    });
    let (hl, rid) = sink.pending_highlight.clone().expect("highlight must be RECORDED, not a no-op");
    assert_eq!(rid, 9);
    assert_eq!(hl.entry_slug, "n0_cpu_c1");
    assert_eq!((hl.start_ns, hl.stop_ns), (1, 2));
    assert!(sink.pending.is_none() && sink.pending_clear.is_none());
}

fn check_clear() {
    let sink = drive(AgentEvent::ClearHighlightsRequest { request_id: 11 });
    let rid = sink.pending_clear.expect("clear must be RECORDED, not a no-op");
    assert_eq!(rid, 11);
    assert!(sink.pending.is_none() && sink.pending_highlight.is_none());
}

fn check_get_selection() {
    let sink = drive(AgentEvent::GetSelection { request_id: 13 });
    let rid = sink.pending_selection.expect("get_selection must be RECORDED, not a no-op");
    assert_eq!(rid, 13);
    assert!(sink.pending.is_none() && sink.pending_highlight.is_none() && sink.pending_clear.is_none());
}

fn item(uid: u64, title: &str) -> SelectedItemInfo {
    SelectedItemInfo {
        item_uid: uid,
        entry_slug: Some("n0_cpu_c1".into()),
        title: title.into(),
        start_ns: 1_000_000_000,
        stop_ns: 1_200_000_000,
    }
}

fn check_banner_empty() {
    assert_eq!(format_selection_banner(&vec![], &None), None);
}

fn check_banner_range_only() {
    let b = format_selection_banner(&vec![], &Some(("n0_cpu_c2".into(), 1_000_000_000, 1_500_000_000)))
        .expect("range -> Some");
    assert!(b.starts_with("Selected:"), "banner: {b}");
    assert!(b.contains("n0_cpu_c2"), "range label shown: {b}");
    assert!(!b.contains("more"), "no overflow for a range-only selection: {b}");
}

fn check_banner_items() {
    let b = format_selection_banner(&vec![item(48, "top_level <6>")], &None).expect("items -> Some");
    assert!(b.starts_with("Selected:"));
    assert!(b.contains("top_level <6>"), "title shown: {b}");
    assert!(b.contains('@') && b.contains("n0_cpu_c1"), "interval + slug shown: {b}");
    assert!(!b.contains("more"));
}

fn check_banner_many_items() {
    let many = vec![item(1, "alpha"), item(2, "beta"), item(3, "gamma")];
    let b = format_selection_banner(&many, &None).expect("items -> Some");
    assert!(b.contains("alpha") && b.contains("beta"), "first two shown: {b}");
    assert!(!b.contains("gamma"), "3rd item collapsed, not shown by title: {b}");
    assert!(b.contains("+1 more"), "overflow summarized: {b}");
}

fn hl(label: &str) -> Highlight {
    Highlight {
        entry_slug: "n0_cpu_c1".into(),
        start_ns: 100,
        stop_ns: 200,
        severity: "critical".into(),
        label: label.into(),
    }
}

fn check_highlight_to_ai() {
    let mut ids = HighlightIds::new();
    let a = highlight_to_ai(&mut ids, &hl("blk"));
    let b = highlight_to_ai(&mut ids, &hl("blk2"));
    assert_eq!(a.label, "blk");
    assert_eq!((a.interval.start.0, a.interval.stop.0), (100, 200));
    assert!(a.item_uid.is_none(), "region/interval highlight has no task target");
    assert!(a.enabled, "new highlights start enabled");
    assert!(b.id > a.id, "ids must be monotonic + unique: {} then {}", a.id, b.id);
}

#[test]
fn core_test_mcp_sink_records_every_navigation_variant() {
    check_every_navigation_variant();
}

#[test]
fn core_test_mcp_sink_records_highlight() {
    check_highlight();
}

#[test]
fn core_test_mcp_sink_records_clear() {
    check_clear();
}

#[test]
fn core_test_mcp_sink_records_get_selection() {
    check_get_selection();
}

#[test]
fn core_test_format_selection_banner_empty() {
    check_banner_empty();
}

#[test]
fn core_test_format_selection_banner_range_only() {
    check_banner_range_only();
}

#[test]
fn core_test_format_selection_banner_items() {
    check_banner_items();
}

#[test]
fn core_test_format_selection_banner_many_items() {
    check_banner_many_items();
}

#[test]
fn core_test_highlight_to_ai_fields_and_monotonic_id() {
    check_highlight_to_ai();
}

#[test]
fn legion_ai_test_mcp_sink_records_every_navigation_variant() {
    check_every_navigation_variant();
}

#[test]
fn legion_ai_test_mcp_sink_records_highlight() {
    check_highlight();
}

#[test]
fn legion_ai_test_mcp_sink_records_clear() {
    check_clear();
}

#[test]
fn legion_ai_test_mcp_sink_records_get_selection() {
    check_get_selection();
}

#[test]
fn legion_ai_test_format_selection_banner_empty() {
    check_banner_empty();
}

#[test]
fn legion_ai_test_format_selection_banner_range_only() {
    check_banner_range_only();
}

#[test]
fn legion_ai_test_format_selection_banner_items() {
    check_banner_items();
}

#[test]
fn legion_ai_test_format_selection_banner_many_items() {
    check_banner_many_items();
}

#[test]
fn legion_ai_test_highlight_to_ai_fields_and_monotonic_id() {
    check_highlight_to_ai();
}

fn ahl(id: u64, start: i64, stop: i64, enabled: bool) -> AiHighlight {
    AiHighlight {
        id,
        interval: Interval::new(Timestamp(start), Timestamp(stop)),
        label: format!("h{id}"),
        item_uid: None,
        enabled,
    }
}

fn flatten_highlights_sorted_is_deterministic() {
    let map = vec![
        (EntryID::root().child(0), vec![ahl(30, 0, 1, true), ahl(10, 0, 1, true)]),
        (EntryID::root().child(1), vec![ahl(20, 0, 1, false)]),
    ];
    let order: Vec<u64> = flatten_highlights_sorted(&map).iter().map(|(e, h)| map[*e].1[*h].id).collect();
    assert_eq!(order, vec![10, 20, 30], "flat list sorted by id across all entries");
}

fn highlight_union_enabled_only() {
    let map = vec![
        (EntryID::root().child(0), vec![ahl(1, 100, 200, true), ahl(2, 0, 1000, false)]),
        (EntryID::root().child(1), vec![ahl(3, 400, 500, true)]),
    ];
    let u = highlight_union(&map).expect("some enabled -> Some");
    assert_eq!((u.start.0, u.stop.0), (100, 500), "union of ENABLED only (disabled [0,1000] ignored)");
    let none_map = vec![(EntryID::root().child(0), vec![ahl(1, 100, 200, false)])];
    assert!(highlight_union(&none_map).is_none(), "no enabled -> None");
    assert!(highlight_union(&vec![]).is_none());
}

#[test]
fn banner_exact_text() {
    let b = format_selection_banner(&vec![item(48, "")], &Some(("n0".into(), 0, 1_500)))
        .expect("Some");
    assert_eq!(b, "Selected: 0 ns\u{2013}1.500 us (n0)  \u{b7}  uid 48 @ 1.000 s\u{2013}1.200 s (n0_cpu_c1)");
}

#[test]
fn every_navigation_request_keeps_its_id() {
    for (k, ev) in nav_events().into_iter().enumerate() {
        let sink = drive(ev);
        assert_eq!(pending_nav_request_id(sink.pending.as_ref().unwrap()), k as u64 + 1);
    }
}

#[test]
fn highlight_ids_wrap_at_the_end() {
    let mut ids = HighlightIds { next: u64::MAX };
    assert_eq!(ids.next_highlight_id(), u64::MAX);
    assert_eq!(ids.next_highlight_id(), 0);
}

#[test]
fn locator_names_sources() {
    assert_eq!(get_locator(&vec![]), "No data source");
    assert_eq!(get_locator(&vec!["a".into(), "a".into()]), "a");
    assert_eq!(get_locator(&vec!["a".into(), "b".into(), "a".into(), "c".into()]), "a and 2 other sources");
}

#[test]
fn slug_part_and_modes() {
    assert_eq!(slug_part("CPU Proc 3"), "cpuproc3");
    assert_eq!(slug_part("Node 0 / Util-1"), "node0_util_1");
    assert_eq!(ItemLinkNavigationMode::Zoom.label_text(), "Zoom to Item");
    assert_eq!(Slot { expanded: false, max_rows: 7 }.rows(), 2);
    assert_eq!(Slot { expanded: true, max_rows: 7 }.rows(), 7);
    assert_eq!(Slot { expanded: true, max_rows: 1 }.rows(), 2);
}

#[test]
fn defaults_are_empty() {
    let o = StartOptions::default();
    assert!(o.ai_duckdb_path.is_none() && o.ai_code_path.is_none() && o.ai_wiki_path.is_none());
    let s = PersistedAiSettings::default();
    assert!(s.project_root.is_empty() && s.model.is_empty() && s.effort.is_empty());
}

#[test]
fn core_test_flatten_highlights_sorted_is_deterministic() {
    flatten_highlights_sorted_is_deterministic();
}

#[test]
fn core_test_highlight_union_enabled_only() {
    highlight_union_enabled_only();
}

#[test]
fn legion_ai_test_flatten_highlights_sorted_is_deterministic() {
    flatten_highlights_sorted_is_deterministic();
}

#[test]
fn legion_ai_test_highlight_union_enabled_only() {
    highlight_union_enabled_only();
}
