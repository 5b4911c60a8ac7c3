use legion_prof_viewer::entry::{EntryID, EntryIndex};
use legion_prof_viewer::highlight::AiHighlight;
use legion_prof_viewer::highlight_table::{clear_highlights, push_highlight};
use legion_prof_viewer::panel_slugs::{
    build_slug_map, expand_by_kind, is_slot_visible, lookup_slug, set_kind_expanded, set_kind_filter,
    visible_entry_slugs, KindPanel, NodePanel, SlotPanel,
};
use legion_prof_viewer::timestamp::{Interval, Timestamp};

fn id(path: &[u64]) -> EntryID {
    EntryID(path.iter().map(|i| EntryIndex::Slot(*i)).collect())
}

fn panels() -> Vec<NodePanel> {
    vec![NodePanel {
        short_name: "n0".to_string(),
        entry_id: id(&[0]),
        expanded: true,
        slots: vec![
            KindPanel {
                short_name: "CPU".to_string(),
                entry_id: id(&[0, 0]),
                expanded: false,
                slots: vec![
                    SlotPanel { short_name: "C0".to_string(), entry_id: id(&[0, 0, 0]), expanded: false },
                    SlotPanel { short_name: "C 1".to_string(), entry_id: id(&[0, 0, 1]), expanded: false },
                ],
            },
            KindPanel {
                short_name: "Utility".to_string(),
                entry_id: id(&[0, 1]),
                expanded: true,
                slots: vec![SlotPanel { short_name: "U0".to_string(), entry_id: id(&[0, 1, 0]), expanded: false }],
            },
        ],
    }]
}

fn overlay(id_: u64, start: i64, stop: i64, label: &str) -> AiHighlight {
    AiHighlight {
        id: id_,
        interval: Interval { start: Timestamp(start), stop: Timestamp(stop) },
        label: label.to_string(),
        item_uid: None,
        enabled: true,
    }
}

#[test]
fn slug_map_walks_nodes_kinds_and_slots() {
    let pairs = build_slug_map(&panels());
    let slugs: Vec<&str> = pairs.iter().map(|(s, _)| s.as_str()).collect();
    assert_eq!(slugs, vec!["n0", "n0_cpu", "n0_cpu_c0", "n0_cpu_c1", "n0_utility", "n0_utility_u0"]);
    assert_eq!(pairs[3].1 .0, id(&[0, 0, 1]).0);
}

#[test]
fn slug_lookup_finds_rows_and_misses_unknown() {
    let pairs = build_slug_map(&panels());
    assert_eq!(lookup_slug(&pairs, "n0_utility_u0").unwrap().0, id(&[0, 1, 0]).0);
    assert_eq!(lookup_slug(&pairs, "n0_cpu").unwrap().0, id(&[0, 0]).0);
    assert!(lookup_slug(&pairs, "n0_gpu").is_none());
}

#[test]
fn slug_lookup_takes_the_last_duplicate() {
    let pairs = vec![("a".to_string(), id(&[1])), ("a".to_string(), id(&[2]))];
    assert_eq!(lookup_slug(&pairs, "a").unwrap().0, id(&[2]).0);
}

#[test]
fn pushing_the_same_place_twice_keeps_one_overlay() {
    let mut table: Vec<(EntryID, Vec<AiHighlight>)> = Vec::new();
    assert!(push_highlight(&mut table, &id(&[0, 0, 0]), overlay(1, 10, 20, "hot")));
    assert!(!push_highlight(&mut table, &id(&[0, 0, 0]), overlay(2, 10, 20, "hot")));
    assert_eq!(table.len(), 1);
    assert_eq!(table[0].1.len(), 1);
    assert_eq!(table[0].1[0].id, 1);
    // Another label on the same row is a second overlay.
    assert!(push_highlight(&mut table, &id(&[0, 0, 0]), overlay(3, 10, 20, "cold")));
    assert_eq!(table[0].1.len(), 2);
    // Another entry gets a row of its own.
    assert!(push_highlight(&mut table, &id(&[0, 1, 0]), overlay(4, 10, 20, "hot")));
    assert_eq!(table.len(), 2);
    assert_eq!(clear_highlights(&mut table), 2);
    assert!(table.is_empty());
}

fn strings(v: &[&str]) -> Vec<String> {
    v.iter().map(|s| s.to_string()).collect()
}

#[test]
fn kind_filter_matches_by_lowercase_substring() {
    let kinds = strings(&["cpu", "gpudev", "gpuhost", "util"]);
    let mut filter = strings(&["stale"]);
    assert_eq!(set_kind_filter(&mut filter, &kinds, &strings(&["GPU"])), 2);
    assert_eq!(filter, strings(&["gpudev", "gpuhost"]));
    assert_eq!(set_kind_filter(&mut filter, &kinds, &strings(&["util", "CPU", "cpu"])), 2);
    assert_eq!(filter, strings(&["cpu", "util"]));
    assert_eq!(set_kind_filter(&mut filter, &kinds, &strings(&["nothing"])), 0);
    assert!(filter.is_empty());
    assert_eq!(set_kind_filter(&mut filter, &kinds, &Vec::new()), 0);
}

#[test]
fn kind_expansion_matches_labels_against_the_lowercased_request() {
    let mut p = panels();
    p[0].slots[0].short_name = "gpudev".to_string();
    set_kind_expanded(&mut p, "GPU", true);
    assert!(p[0].slots[0].expanded);
    // The label itself is not lower-cased: "Utility" does not answer "utility".
    set_kind_expanded(&mut p, "UTILITY", false);
    assert!(p[0].slots[1].expanded);
    set_kind_expanded(&mut p, "Util", false);
    assert!(p[0].slots[1].expanded);
    set_kind_expanded(&mut p, "tility", false);
    assert!(!p[0].slots[1].expanded);
    assert!(p[0].slots[0].expanded);
    assert!(p[0].expanded);
}

#[test]
fn visible_slugs_follow_expansion_and_filters() {
    let mut p = panels();
    assert_eq!(visible_entry_slugs(&p, 0, 10, &Vec::new()), strings(&["n0_utility_u0"]));
    p[0].slots[0].expanded = true;
    assert_eq!(
        visible_entry_slugs(&p, 0, 10, &Vec::new()),
        strings(&["n0_cpu_c0", "n0_cpu_c1", "n0_utility_u0"])
    );
    assert_eq!(visible_entry_slugs(&p, 0, 10, &strings(&["CPU"])), strings(&["n0_cpu_c0", "n0_cpu_c1"]));
    assert!(visible_entry_slugs(&p, 1, 10, &Vec::new()).is_empty());
    p[0].expanded = false;
    assert!(visible_entry_slugs(&p, 0, 10, &Vec::new()).is_empty());
}

#[test]
fn slot_visibility_by_depth() {
    let filter = strings(&["CPU"]);
    assert!(is_slot_visible(&id(&[3]), "n3", 2, 4, &filter));
    assert!(!is_slot_visible(&id(&[5]), "n5", 2, 4, &filter));
    assert!(is_slot_visible(&id(&[3, 0]), "CPU", 0, 0, &filter));
    assert!(!is_slot_visible(&id(&[3, 1]), "GPU", 0, 0, &filter));
    assert!(is_slot_visible(&id(&[3, 1]), "GPU", 0, 0, &Vec::new()));
    assert!(is_slot_visible(&id(&[3, 1, 7]), "C7", 9, 9, &filter));
}

#[test]
fn expand_buttons_match_the_lowercased_kind_exactly() {
    let mut p = panels();
    p[0].slots[0].short_name = "cpu".to_string();
    expand_by_kind(&mut p, "CPU", true);
    assert!(p[0].slots[0].expanded);
    // "Utility" is not the lower-cased "utility".
    p[0].slots[1].expanded = false;
    expand_by_kind(&mut p, "Utility", true);
    assert!(!p[0].slots[1].expanded);
    // A substring is not enough either.
    expand_by_kind(&mut p, "cp", false);
    assert!(p[0].slots[0].expanded);
    expand_by_kind(&mut p, "cpu", false);
    assert!(!p[0].slots[0].expanded);
}
