use legion_prof_viewer::tool_defs::tool_definitions;

/// Description string for a tool, with run_query + wiki tools forced on.
fn desc(name: &str) -> String {
    tool_definitions(true, false, true)
        .into_iter()
        .find(|t| t.name == name)
        .map(|t| t.description)
        .unwrap_or_default()
}

#[test]
fn test_run_query_range_trigger_precedes_filter_example() {
    let d = desc("run_query");
    assert!(d.contains("in the range"), "run_query missing the range-trigger phrase");
    assert!(d.contains("LEAST") && d.contains("GREATEST"), "run_query missing the CLIP formula");
    let trig = d.find("in the range").expect("range trigger present");
    let ex2 = d.find("Tasks in a time range").expect("example #2 present");
    assert!(trig < ex2, "range trigger must precede example #2 (trig={trig}, ex2={ex2})");
}

#[test]
fn test_wiki_descriptions_have_when_to_use() {
    for name in ["wiki_index", "wiki_read", "wiki_search"] {
        assert!(desc(name).contains("USE THIS WHEN"), "{name} description missing the WHEN-to-use trigger");
    }
}

#[test]
fn test_wiki_search_has_keyword_cues() {
    let d = desc("wiki_search");
    assert!(d.contains("bound"), "wiki_search missing the 'bound' keyword cue");
    assert!(d.contains("mapper"), "wiki_search missing the 'mapper' keyword cue");
}

fn names(d: bool, c: bool, w: bool) -> Vec<String> {
    tool_definitions(d, c, w).into_iter().map(|t| t.name).collect()
}

#[test]
fn advertised_sets_follow_the_session() {
    let visual = [
        "screenshot", "zoom_to", "pan", "scroll_to", "set_view", "search", "reset_view", "highlight",
        "ask_user", "clear_highlights", "update_findings",
    ];
    assert_eq!(names(false, false, false), visual.to_vec());
    let all = names(true, true, true);
    assert_eq!(
        &all[..7],
        &["run_query", "overview", "list_files", "read_code", "wiki_index", "wiki_read", "wiki_search"]
    );
    assert_eq!(&all[7..], &visual);
    assert_eq!(names(false, true, false)[..2], ["list_files", "read_code"]);
}

#[test]
fn schemas_are_json_objects_with_required_fields() {
    for t in tool_definitions(true, true, true) {
        let v: serde_json::Value = serde_json::from_str(&t.input_schema).expect("schema parses");
        assert_eq!(v["type"], "object", "{}", t.name);
        assert!(v["properties"].is_object(), "{}", t.name);
        assert!(v["required"].is_array(), "{}", t.name);
    }
    let q = tool_definitions(true, false, false).into_iter().find(|t| t.name == "run_query").unwrap();
    let v: serde_json::Value = serde_json::from_str(&q.input_schema).unwrap();
    let required: Vec<&str> = v["required"].as_array().unwrap().iter().map(|x| x.as_str().unwrap()).collect();
    assert_eq!(required, vec!["sql", "purpose"]);
    assert!(q.description.contains("\u{2014} parse units for bytes"));
}
