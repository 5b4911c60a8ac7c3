use legion_prof_viewer::archive::{
    finish_level, plan_level, LevelState, fresh_tiles, level_sizes, next_level_tiles, refetch_full_tiles,
    compute_tile_size, walk_entry_list, DataSourceArchiveWriter, EntryInfo, FieldValue,
    FileDataSource, MetaItem,
};
use legion_prof_viewer::entry::EntryIndex;
use legion_prof_viewer::timestamp::{Interval, Timestamp};
use legion_prof_viewer::json::JsonValue;
use serde_json::Value;
use legion_prof_viewer::overview::{
    classify_channel_slug, gather_overview, overview_profile_classification, overview_schema,
    OverviewInputs, QueryOutcome,
};
use legion_prof_viewer::query::{
    cap_marked_rows, dedup_select_sql, execute_run_query, find_blockers_sql, json_array_to_markdown_table,
    markdown_table_of, mark_truncation_if_over, prepare_query, slug_exists, slug_listed_in, query_answer_text,
    query_error_message,
};

fn num(n: u64) -> JsonValue {
    JsonValue::Number { text: n.to_string(), as_u64: Some(n), as_i64: i64::try_from(n).ok() }
}

fn obj(fields: Vec<(&str, JsonValue)>, text: &str) -> JsonValue {
    JsonValue::Object { fields: fields.into_iter().map(|(k, v)| (k.to_string(), v)).collect(), text: text.to_string() }
}

fn outcome(answer: Result<&str, &str>, rows: Option<Vec<JsonValue>>) -> QueryOutcome {
    QueryOutcome { answer: answer.map(|s| s.to_string()).map_err(|e| e.to_string()), rows }
}

fn compact_inputs() -> OverviewInputs {
    let row = obj(vec![("gpu_device_count", num(0)), ("cpu_count", num(4)), ("util_count", num(1)), ("node_count", num(1))], "{}");
    OverviewInputs {
        entry_count: Ok("[{\"cnt\":68}]".into()),
        item_count: Ok("[{\"cnt\":1234}]".into()),
        hierarchy: Ok("[]".into()),
        bounds: Ok("[{\"earliest_ns\":0,\"latest_ns\":10,\"span_ms\":0.0}]".into()),
        distribution: Ok("[]".into()),
        slots: Ok("[]".into()),
        sample: Ok("[{\"item_uid\":1}]".into()),
        classification: outcome(Ok("[...]"), Some(vec![row])),
        tracing: outcome(Ok("[...]"), Some(vec![obj(vec![("replay_trace_count", num(2))], "{}")])),
        measured_before_python: vec!["## Per-Kind Utilization\n- CPU: 4 proc(s), avg 50.0% util, max 90.0%\n\n".into()],
        python: outcome(Ok("[]"), Some(vec![])),
        measured_after_python: vec![],
        midpoint: outcome(Ok("[...]"), Some(vec![obj(vec![("steady_start", num(40)), ("steady_end", num(60))], "{}")])),
        mapper_anchor: Ok(None),
        gap_anchor: Err("Table not found".into()),
    }
}

/// Overview inputs at the scale of a real two-node profile: every node with
/// CPU, GPU, utility, channel and memory panels, a full task table, a sample
/// row with its nested interval fields, and every measured section.
fn profile_scale_inputs() -> OverviewInputs {
    let kinds = [("cpu", 8), ("gpu", 4), ("util", 2), ("chan", 6), ("sysmem", 2)];
    let mut hier = Vec::new();
    let nodes: Vec<String> = (0..2).map(|n| format!("n{n}")).collect();
    hier.push(format!("{{\"parent_slug\":null,\"type\":\"panel\",\"cnt\":2,\"slugs\":\"{}\"}}", nodes.join(", ")));
    let mut slot_rows = Vec::new();
    for n in &nodes {
        let ks: Vec<String> = kinds.iter().map(|(k, _)| format!("{n}_{k}")).collect();
        hier.push(format!("{{\"parent_slug\":\"{n}\",\"type\":\"panel\",\"cnt\":{},\"slugs\":\"{}\"}}", ks.len(), ks.join(", ")));
        for (k, c) in kinds {
            let ss: Vec<String> = (0..c).map(|i| format!("{n}_{k}_{k}{i}")).collect();
            hier.push(format!("{{\"parent_slug\":\"{n}_{k}\",\"type\":\"slot\",\"cnt\":{c},\"slugs\":\"{}\"}}", ss.join(", ")));
            slot_rows.push(format!("{{\"parent_slug\":\"{n}_{k}\",\"slot_cnt\":{c}}}"));
        }
    }
    let titles = ["dgemm_task [[0]]", "copy_task", "init_partition", "stencil_point", "reduce_sum",
        "legate::numpy::BinaryOp", "legate::numpy::Fill", "mapper_continuation", "ProfTask", "halo_exchange"];
    let dist: Vec<String> = titles.iter().enumerate()
        .map(|(i, t)| format!("{{\"title\":\"{t}\",\"cnt\":{},\"avg_run_ms\":{}.25,\"max_run_ms\":{}.5}}", 5000 - i * 400, i + 1, 10 * (i + 1)))
        .collect();
    let sample = "[{\"item_uid\":17,\"title\":\"dgemm_task [[0]]\",\"running\":{\"start\":1200345,\"stop\":1500234,\"duration\":299889},\"critical_path\":{\"item_uid\":12,\"entry_slug\":\"n0_cpu_cpu3\"}}]";
    let section = |title: &str, lines: usize| {
        let mut s = format!("## {title}\n");
        for i in 0..lines {
            s.push_str(&format!("- n{}_cpu_cpu{}: 48.{i}% busy, 1{i}.25 ms mean slice, 2{i} tasks waiting on copies\n", i % 2, i % 8));
        }
        s.push('\n');
        s
    };
    let row = obj(vec![("gpu_device_count", num(8)), ("cpu_count", num(16)), ("util_count", num(4)), ("node_count", num(2))], "{}");
    OverviewInputs {
        entry_count: Ok("[{\"cnt\":59}]".into()),
        item_count: Ok("[{\"cnt\":184211}]".into()),
        hierarchy: Ok(format!("[{}]", hier.join(","))),
        bounds: Ok("[{\"earliest_ns\":1034,\"latest_ns\":8812003411,\"span_ms\":8812.0024}]".into()),
        distribution: Ok(format!("[{}]", dist.join(","))),
        slots: Ok(format!("[{}]", slot_rows.join(","))),
        sample: Ok(sample.into()),
        classification: outcome(Ok("[...]"), Some(vec![row])),
        tracing: outcome(Ok("[...]"), Some(vec![obj(vec![("replay_trace_count", num(0))], "{}")])),
        measured_before_python: vec![
            section("Per-Kind Utilization", 5),
            section("Processor Balance", 10),
            section("Node Utility Balance", 4),
            section("Channel Direction", 8),
            section("Data Size Evidence", 6),
            section("Copy/Compute Ratio", 3),
            section("Deferred Health", 4),
            section("Delayed Distribution", 5),
            section("Scheduling Overhead", 6),
            section("Task Granularity", 6),
            section("Triggering Latency", 5),
        ],
        python: outcome(Ok("[...]"), Some(vec![obj(vec![("cnt", num(212))], "{}")])),
        measured_after_python: vec![
            section("GC / Instance Activity", 5),
            section("Mapper Calls", 10),
            section("Utility Breakdown", 8),
        ],
        midpoint: outcome(Ok("[...]"), Some(vec![obj(vec![("steady_start", num(2000000000)), ("steady_end", num(7000000000))], "{}")])),
        mapper_anchor: Ok(Some("- Longest mapper call: map_task on n0_util_util0 at 4411002312 ns (3.2 ms)".into())),
        gap_anchor: Ok(Some("- Largest idle gap: n1_gpu_gpu2 from 5120004000 to 5190310000 ns (70.3 ms)".into())),
    }
}

#[test]
fn test_overview_fits_inline_budget() {
    let out = gather_overview(&profile_scale_inputs()).expect("gather_overview");
    assert!(out.len() > 4_000, "the inputs are at a real profile's scale; got {} chars", out.len());
    assert!(
        out.len() < 16_000,
        "overview must stay inline-consumable; was {} chars (~{} tokens) — re-bloat?",
        out.len(),
        out.len() / 4
    );
}

#[test]
fn overview_sections_in_order() {
    let out = gather_overview(&compact_inputs()).unwrap();
    let order = [
        "## Schema", "## Row Counts", "## Processor Hierarchy", "## Timeline Bounds",
        "## Top Task Types (by count, top 10)", "## Slots by Kind", "## Sample Item Row",
        "## Profile Classification", "## Tracing Status", "## Per-Kind Utilization",
        "## Python/Legate Detection", "## Navigation Anchors",
    ];
    let mut at = 0;
    for h in order {
        let i = out[at..].find(h).unwrap_or_else(|| panic!("missing {h}")) + at;
        at = i;
    }
    assert!(out.contains("## Row Counts\nentries: [{\"cnt\":68}]  items: [{\"cnt\":1234}]\n\n"));
    assert!(out.contains("- Type: CPU-only single-node\n- GPUs: 0 | CPUs: 4 | Utility procs: 1\n\n"));
    assert!(out.contains("- Replay Physical Trace tasks: 2\n- Mapper calls: 0\n\n"));
    assert!(out.contains("## Python/Legate Detection\n(no data)\n\n"));
    assert!(out.ends_with("## Navigation Anchors\n- Steady-state zoom (middle 20%%): [40, 60]\nUse zoom_to or set_view with these nanosecond ranges to navigate directly.\n\n"));
    assert!(out.len() < 16_000);
}

#[test]
fn overview_failures_and_raw_answers() {
    let mut out = String::new();
    overview_profile_classification(&mut out, &outcome(Err("boom"), None));
    assert_eq!(out, "## Profile Classification\n(error: boom)\n\n");
    let mut out = String::new();
    overview_profile_classification(&mut out, &outcome(Ok("not json"), None));
    assert_eq!(out, "## Profile Classification\nnot json\n\n");
    let mut out = String::new();
    let row = obj(vec![("gpu_device_count", num(2)), ("node_count", num(3))], "{}");
    overview_profile_classification(&mut out, &outcome(Ok("[..]"), Some(vec![row])));
    assert_eq!(out, "## Profile Classification\n- Type: GPU-present 3-node\n- GPUs: 2 | CPUs: 0 | Utility procs: 0\n\n");
    let mut x = compact_inputs();
    x.hierarchy = Err("no \"table\"".into());
    x.entry_count = Err("x".into());
    let o = gather_overview(&x).unwrap();
    assert!(o.contains("## Processor Hierarchy\n[{\"error\": \"no \\\"table\\\"\"}]\n\n"));
    assert!(o.contains("entries: [{\"cnt\":\"?\"}]"));
    let mut s = String::new();
    overview_schema(&mut s);
    assert!(s.starts_with("## Schema\nTable `entries`: entry_slug TEXT PK"));
    assert!(s.ends_with("critical_path.item_uid.\n\n"));
}

#[test]
fn channel_directions() {
    assert_eq!(classify_channel_slug("chan_n0s0_n1s0"), "inter-node");
    assert_eq!(classify_channel_slug("n0_chan_fn0s0"), "SYS↔FB (PCIe)");
    assert_eq!(classify_channel_slug("chan_sys0"), "local");
    assert_eq!(classify_channel_slug("chan_n0f0_n0f1"), "local");
}

#[test]
fn query_guard_and_wrap() {
    assert_eq!(
        prepare_query("  select * from items LIMIT 10 ;; "),
        Ok("SELECT COALESCE(CAST(json_group_array(to_json(t)) AS VARCHAR), '[]') FROM (select * from items LIMIT 51) AS t".to_string())
    );
    assert_eq!(
        prepare_query("select * from items limit 10"),
        Ok("SELECT COALESCE(CAST(json_group_array(to_json(t)) AS VARCHAR), '[]') FROM (select * from items LIMIT 51) AS t".to_string())
    );
    assert_eq!(
        prepare_query("WITH x AS (SELECT 1) SELECT * FROM x LIMIT n"),
        Ok("SELECT COALESCE(CAST(json_group_array(to_json(t)) AS VARCHAR), '[]') FROM (WITH x AS (SELECT 1) SELECT * FROM x LIMIT n LIMIT 51) AS t".to_string())
    );
    assert_eq!(prepare_query("DROP TABLE items"), Err("Only SELECT/WITH queries are allowed.".to_string()));
    assert_eq!(query_answer_text("null"), "[]");
    assert_eq!(query_answer_text(""), "[]");
    assert_eq!(query_answer_text("[1]"), "[1]");
    assert!(query_error_message("Binder Error: x").starts_with("Query failed: Binder Error: x\n\nHINT: Type mismatch."));
    assert!(query_error_message("Table with name foo does not exist! not found").contains("HINT: The `items` table columns"));
    assert!(query_error_message("Conversion Error").contains("HINT: All timestamp fields are BIGINT nanoseconds."));
    assert_eq!(query_error_message("other"), "Query failed: other\n");
}

#[test]
fn sql_builders() {
    assert!(dedup_select_sql().starts_with("WITH slices AS (\n    SELECT DISTINCT item_uid"));
    assert!(dedup_select_sql().ends_with("FROM slices\nGROUP BY item_uid"));
    let s = find_blockers_sql(48);
    assert!(s.contains("SELECT CAST(48 AS UBIGINT) AS uid, 0 AS depth,\n           [CAST(48 AS UBIGINT)] AS path"));
    assert!(s.ends_with("ORDER BY w.depth"));
    assert!(s.starts_with("WITH RECURSIVE edges AS ("));
    assert!(!s.contains(';'));
    assert_eq!(s.matches("CAST(48 AS UBIGINT)").count(), 2);
    assert_ne!(find_blockers_sql(48), find_blockers_sql(480));
    assert_eq!(find_blockers_sql(7).replace("CAST(7 AS", "CAST(48 AS"), s);
}

#[test]
fn markdown_tables() {
    let rows = JsonValue::Array {
        items: vec![
            obj(vec![("b", JsonValue::Str("x".into())), ("a", num(1))], "{}"),
            obj(vec![("a", JsonValue::Null), ("b", JsonValue::Bool(true)), ("c", JsonValue::Array { items: vec![], text: "[]".into() })], "{}"),
        ],
        text: "[..]".into(),
    };
    assert_eq!(
        markdown_table_of(Some(&rows)),
        Some("| a | b |\n|------|------|\n| 1 | x |\n|  | true |\n".to_string())
    );
    assert_eq!(markdown_table_of(None), None);
    assert_eq!(markdown_table_of(Some(&JsonValue::Array { items: vec![], text: "[]".into() })), None);
    assert_eq!(markdown_table_of(Some(&num(3))), None);
    let text = r#"[{"b":"x","a":1},{"a":null,"b":true,"c":[1, 2]},{"a":{"k":[]},"b":2.5}]"#;
    assert_eq!(
        json_array_to_markdown_table(text),
        Some("| a | b |\n|------|------|\n| 1 | x |\n|  | true |\n| {\"k\":[]} | 2.5 |\n".to_string())
    );
    assert_eq!(json_array_to_markdown_table("not json"), None);
    assert_eq!(json_array_to_markdown_table("[]"), None);
    assert_eq!(json_array_to_markdown_table("[1]"), None);
    assert_eq!(execute_run_query(Ok("[]".into())), Ok("[]".to_string()));
    assert_eq!(execute_run_query(Ok("oops".into())), Ok("oops".to_string()));
    assert_eq!(execute_run_query(Err("e".into())), Err("e".to_string()));
    assert_eq!(execute_run_query(Ok(text.into())).unwrap().lines().next(), Some("| a | b |"));
}

#[test]
fn entry_walk_and_tile_sizes() {
    let tree = EntryInfo::Panel {
        summary: Some(Box::new(EntryInfo::Summary)),
        slots: vec![
            EntryInfo::Slot,
            EntryInfo::Panel { summary: None, slots: vec![EntryInfo::Slot, EntryInfo::Slot] },
        ],
    };
    let ids: Vec<Vec<EntryIndex>> = walk_entry_list(&tree).into_iter().map(|e| e.0).collect();
    assert_eq!(
        ids,
        vec![
            vec![EntryIndex::Summary],
            vec![EntryIndex::Slot(0)],
            vec![EntryIndex::Slot(1), EntryIndex::Slot(0)],
            vec![EntryIndex::Slot(1), EntryIndex::Slot(1)],
        ]
    );
    let item = |n: Option<u64>| MetaItem {
        fields: match n {
            Some(c) => vec![(9, FieldValue::Other), (3, FieldValue::U64(c))],
            None => vec![(9, FieldValue::Other)],
        },
    };
    let rows = vec![vec![item(Some(5)), item(None)], vec![item(Some(10)), item(Some(100))]];
    assert_eq!(compute_tile_size(&rows, 3, 100), 116);
    assert_eq!(compute_tile_size(&rows, 3, 10), 16);
    assert_eq!(compute_tile_size(&vec![], 3, 10), 0);
}

#[test]
fn writer_and_file_source() {
    let w = DataSourceArchiveWriter::new((), 3, 4, 100, "out", false, 1);
    assert_eq!((w.levels, w.branch_factor, w.min_tile_size, w.path.as_str()), (3, 4, 100, "out"));
    assert_eq!((w.data_source.outstanding_requests(), w.data_source.inner), (0, ()));
    let f = FileDataSource::new("/data/arch");
    assert_eq!(f.fetch_description().source_locator, vec!["/data/arch".to_string()]);
    assert_eq!(f.archive_path("info"), "/data/arch/info");
    assert_eq!(FileDataSource::new("a/").archive_path("slot_tile"), "a/slot_tile");
    assert_eq!(FileDataSource::new("").archive_path("info"), "info");
}

/// A JSON document in the library's model.
fn model(v: &Value) -> JsonValue {
    match v {
        Value::Null => JsonValue::Null,
        Value::Bool(b) => JsonValue::Bool(*b),
        Value::Number(n) => JsonValue::Number { text: n.to_string(), as_u64: n.as_u64(), as_i64: n.as_i64() },
        Value::String(s) => JsonValue::Str(s.clone()),
        Value::Array(a) => JsonValue::Array { items: a.iter().map(model).collect(), text: v.to_string() },
        Value::Object(m) => JsonValue::Object {
            fields: m.iter().map(|(k, x)| (k.clone(), model(x))).collect(),
            text: v.to_string(),
        },
    }
}

#[test]
fn test_mark_truncation_if_over() {
    let small = r#"[{"a":1},{"a":2}]"#.to_string();
    assert_eq!(mark_truncation_if_over(small.clone()), small);
    assert_eq!(mark_truncation_if_over("[]".into()), "[]");
    assert_eq!(mark_truncation_if_over("42".into()), "42");
    assert_eq!(mark_truncation_if_over("not json".into()), "not json");

    let fifty = serde_json::to_string(
        &(0..50).map(|i| serde_json::Value::Object([("a".to_string(), serde_json::Value::from(i))].into_iter().collect())).collect::<Vec<_>>(),
    )
    .unwrap();
    assert_eq!(mark_truncation_if_over(fifty.clone()), fifty);

    let over = serde_json::to_string(
        &(0..51).map(|i| serde_json::Value::Object([("a".to_string(), serde_json::Value::from(i))].into_iter().collect())).collect::<Vec<_>>(),
    )
    .unwrap();
    let marked: Vec<serde_json::Value> = serde_json::from_str(&mark_truncation_if_over(over)).unwrap();
    assert_eq!(marked.len(), 51, "50 data + 1 marker");
    assert_eq!(marked[49]["a"], serde_json::Value::from(49), "last real row preserved");
    assert_eq!(marked[50]["_truncated"], serde_json::Value::Bool(true));
    assert_eq!(marked[50]["_shown"], serde_json::Value::from(50));
}

#[test]
fn slug_membership() {
    let parse = |t: &str| model(&serde_json::from_str::<serde_json::Value>(t).unwrap());
    let rows = parse(r#"[{"all_slugs":["n0_cpu_c0","n0_gpu_g0"]}]"#);
    assert!(slug_listed_in(Some(&rows), None, "n0_gpu_g0"));
    assert!(!slug_listed_in(Some(&rows), None, "n0_gpu"));
    let encoded_rows = parse(r#"[{"all_slugs":"[\"a\",\"b\"]"}]"#);
    let inner = parse(r#"["a","b"]"#);
    assert!(slug_listed_in(Some(&encoded_rows), Some(&inner), "b"));
    assert!(!slug_listed_in(Some(&encoded_rows), None, "b"));
    assert!(!slug_listed_in(None, None, "a"));
    assert!(!slug_listed_in(Some(&parse("[]")), None, "a"));
    assert!(!slug_listed_in(Some(&parse(r#"[{"all_slugs":3}]"#)), None, "a"));

    let ok = |t: &str| Ok::<String, String>(t.to_string());
    assert!(slug_exists(&ok(r#"[{"all_slugs":["n0_cpu_c0","n0_gpu_g0"]}]"#), "n0_gpu_g0"));
    assert!(!slug_exists(&ok(r#"[{"all_slugs":["n0_cpu_c0","n0_gpu_g0"]}]"#), "n0_gpu"));
    assert!(slug_exists(&ok(r#"[{"all_slugs":"[\"a\",\"b\"]"}]"#), "b"));
    assert!(!slug_exists(&ok(r#"[{"all_slugs":"not json"}]"#), "b"));
    assert!(!slug_exists(&ok("not json"), "a"));
    assert!(!slug_exists(&ok("[]"), "a"));
    assert!(!slug_exists(&Err("no database".to_string()), "a"));
}

fn iv(a: i64, b: i64) -> Interval {
    Interval::new(Timestamp(a), Timestamp(b))
}

#[test]
fn archive_levels_refine_large_tiles() {
    let root = iv(0, 100);
    assert_eq!(next_level_tiles(root, &vec![], &vec![], 10, 2), vec![root]);
    let l1 = next_level_tiles(root, &vec![root], &vec![50], 10, 2);
    assert_eq!(l1, vec![iv(0, 50), iv(50, 100)]);
    let l2 = next_level_tiles(root, &l1, &vec![5, 11], 10, 3);
    assert_eq!(l2, vec![iv(0, 50), iv(50, 66), iv(66, 83), iv(83, 100)]);
    assert_eq!(next_level_tiles(root, &vec![iv(-10, 0)], &vec![99], 0, 3), vec![iv(-10, -7), iv(-7, -4), iv(-4, 0)]);
    assert_eq!(fresh_tiles(&l2, &l1), vec![iv(50, 66), iv(66, 83), iv(83, 100)]);
    let measured = vec![(iv(50, 66), 3), (iv(66, 83), 12), (iv(50, 66), 7), (iv(83, 100), 1)];
    assert_eq!(level_sizes(&l2, &measured, &l1, &vec![5, 11]), vec![5, 7, 12, 1]);
    let full = refetch_full_tiles(&l2, &measured, 10);
    assert_eq!(full, vec![iv(50, 66), iv(83, 100)]);
}

#[test]
fn archive_level_loop_plans_until_nothing_is_fresh() {
    let iv = |a: i64, b: i64| Interval::new(Timestamp(a), Timestamp(b));
    let root = iv(0, 100);
    let mut st = LevelState::new();
    let p0 = plan_level(root, &st, 3, 10, 2).unwrap();
    assert_eq!((p0.tile_ids.clone(), p0.fresh.clone(), p0.full), (vec![root], vec![root], false));
    finish_level(&mut st, &p0, &vec![(root, 50)]);
    assert_eq!((st.level, st.last_sizes.clone()), (1, vec![50]));
    let p1 = plan_level(root, &st, 3, 10, 2).unwrap();
    assert_eq!(p1.tile_ids, vec![iv(0, 50), iv(50, 100)]);
    assert!(!p1.full);
    finish_level(&mut st, &p1, &vec![(iv(0, 50), 5), (iv(50, 100), 20), (iv(50, 100), 12)]);
    assert_eq!(st.last_sizes, vec![5, 20]);
    let p2 = plan_level(root, &st, 3, 10, 2).unwrap();
    assert_eq!(p2.tile_ids, vec![iv(0, 50), iv(50, 75), iv(75, 100)]);
    assert_eq!(p2.fresh, vec![iv(50, 75), iv(75, 100)]);
    assert!(p2.full);
    finish_level(&mut st, &p2, &vec![(iv(50, 75), 100), (iv(75, 100), 100)]);
    // After `levels` levels the loop ends.
    assert!(plan_level(root, &st, 3, 10, 2).is_none());
    // A level whose tiles are all small has nothing fresh: the loop ends early.
    let mut small = LevelState::new();
    let q0 = plan_level(root, &small, 5, 10, 2).unwrap();
    finish_level(&mut small, &q0, &vec![(root, 3)]);
    assert!(plan_level(root, &small, 5, 10, 2).is_none());
}

#[test]
fn trailing_limits_and_blocker_uids() {
    let plain = prepare_query("SELECT title FROM items").unwrap();
    assert_eq!(prepare_query("SELECT title FROM items LIMIT 10").unwrap(), plain);
    assert_eq!(prepare_query("  SELECT title FROM items limit 7").unwrap(), plain);
    assert_ne!(find_blockers_sql(12), find_blockers_sql(120));
    assert_eq!(find_blockers_sql(7).replace("CAST(7 AS", "CAST(9 AS"), find_blockers_sql(9));
}

#[test]
fn cap_marked_rows_keeps_first_rows_and_marks() {
    assert!(cap_marked_rows(None).is_none());
    assert!(cap_marked_rows(Some((0..50).map(num).collect())).is_none());
    let out = cap_marked_rows(Some((0..60).map(num).collect())).unwrap();
    assert_eq!(out.len(), 51);
    assert!(matches!(&out[49], JsonValue::Number { text, .. } if text == "49"));
    match &out[50] {
        JsonValue::Object { fields, text } => {
            assert_eq!(fields.len(), 3);
            assert_eq!(fields[0].0, "_truncated");
            assert_eq!(text, r#"{"_hint":"result capped at 50 rows; refine with aggregation or a narrower filter","_shown":50,"_truncated":true}"#);
        }
        _ => panic!("marker row"),
    }
}

#[test]
fn write_tile_tree_refines_level_by_level() {
    let iv = |a: i64, b: i64| Interval::new(Timestamp(a), Timestamp(b));
    let root = iv(0, 90);
    let (levels, min, bf) = (4u32, 10u64, 3u64);
    let mut st = LevelState::new();
    let mut written: Vec<(Vec<Interval>, Vec<u64>)> = Vec::new();
    while let Some(plan) = plan_level(root, &st, levels, min, bf) {
        // Measure each fresh tile as its length in ns.
        let results: Vec<(Interval, u64)> =
            plan.fresh.iter().map(|t| (*t, (t.stop.0 - t.start.0) as u64)).collect();
        finish_level(&mut st, &plan, &results);
        written.push((plan.tile_ids.clone(), st.last_sizes.clone()));
    }
    assert!(!written.is_empty() && written.len() <= levels as usize);
    assert_eq!(written[0].0, vec![root]);
    for w in written.windows(2) {
        let (prev, sizes) = (&w[0].0, &w[0].1);
        for t in &w[1].0 {
            let from = prev.iter().zip(sizes).any(|(p, s)| {
                let d = p.stop.0 - p.start.0;
                (*s <= min && t == p)
                    || (*s > min
                        && (0..bf as i64).any(|i| *t == iv(p.start.0 + d * i / bf as i64, p.start.0 + d * (i + 1) / bf as i64)))
            });
            assert!(from, "tile {t:?} has no parent");
        }
    }
    assert_eq!(written[1].0, vec![iv(0, 30), iv(30, 60), iv(60, 90)]);
    assert_eq!(written[2].0.len(), 9);
}
