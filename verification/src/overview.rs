//! The database overview: fixed schema notes, raw query answers for the
//! orientation sections, integer-valued signal sections, channel naming,
//! and the assembly of all sections in reading order.

use vstd::prelude::*;
use crate::json::{field_i64_or, field_u64_or, json_field, json_i64, json_parse, json_u64, parse_json, JsonValue};
use crate::text::{
    chars_of, contains, contains_chars, decimal, decimal_int, find, find_chars, i64_to_chars,
    push_chars, push_str, slice_copy, starts_with, starts_with_chars, u64_to_chars, views,
};

verus! {

broadcast use vstd::string::group_string_axioms;

/// SQL of one overview section.
pub const ENTRY_COUNT_SQL: &'static str = "SELECT COUNT(*) AS cnt FROM entries";

/// SQL of one overview section.
pub const ITEM_COUNT_SQL: &'static str = "SELECT COUNT(*) AS cnt FROM items";

/// SQL of one overview section.
pub const HIERARCHY_SQL: &'static str = "SELECT parent_slug, type, COUNT(*) AS cnt, STRING_AGG(entry_slug, ', ' ORDER BY entry_slug) AS slugs FROM entries GROUP BY parent_slug, type ORDER BY parent_slug, type";

/// SQL of one overview section.
pub const BOUNDS_SQL: &'static str = "SELECT MIN(lifetime.start) AS earliest_ns, MAX(lifetime.stop) AS latest_ns, ROUND((MAX(lifetime.stop) - MIN(lifetime.start)) / 1e6, 1) AS span_ms FROM items";

/// SQL of one overview section.
pub const DISTRIBUTION_SQL: &'static str = "SELECT * FROM (SELECT title, COUNT(*) AS cnt, ROUND(AVG(running.duration)/1e6, 2) AS avg_run_ms, ROUND(MAX(running.duration)/1e6, 2) AS max_run_ms FROM items WHERE running IS NOT NULL GROUP BY title ORDER BY cnt DESC LIMIT 10) s";

/// SQL of one overview section.
pub const SLOTS_SQL: &'static str = "SELECT parent_slug, COUNT(*) AS slot_cnt FROM entries WHERE type = 'slot' GROUP BY parent_slug ORDER BY parent_slug";

/// SQL of one overview section.
pub const SAMPLE_SQL: &'static str = "SELECT item_uid, title, running, critical_path FROM (SELECT * FROM items WHERE running IS NOT NULL LIMIT 1) s";

/// SQL of one overview section.
pub const CLASSIFICATION_SQL: &'static str = "SELECT (SELECT COUNT(DISTINCT entry_slug) FROM entries WHERE entry_slug LIKE '%gpudev%' AND type = 'slot') AS gpu_device_count, (SELECT COUNT(DISTINCT entry_slug) FROM entries WHERE entry_slug LIKE '%gpuhost%' AND type = 'slot') AS gpu_host_count, (SELECT COUNT(DISTINCT entry_slug) FROM entries WHERE entry_slug LIKE '%cpu%' AND type = 'slot') AS cpu_count, (SELECT COUNT(DISTINCT entry_slug) FROM entries WHERE entry_slug LIKE '%util%' AND type = 'slot') AS util_count, (SELECT COUNT(*) FROM entries WHERE type = 'panel' AND (parent_slug IS NULL OR parent_slug = '') AND entry_slug <> 'all') AS node_count";

/// SQL of one overview section.
pub const TRACING_SQL: &'static str = "SELECT COUNT(*) FILTER (WHERE title LIKE '%Replay Physical Trace%') AS replay_trace_count, COUNT(*) FILTER (WHERE title LIKE '%map_task%' OR title LIKE '%select_task_options%') AS mapper_call_count, COUNT(*) FILTER (WHERE entry_slug LIKE '%util%') AS total_util_items FROM items";

/// SQL of one overview section.
pub const PYTHON_SQL: &'static str = "SELECT COUNT(*) AS py_proc_count FROM entries WHERE (entry_slug LIKE '%py%' OR short_name LIKE '%Python%') AND type = 'slot'";

/// SQL of one overview section.
pub const MIDPOINT_SQL: &'static str = "SELECT MIN(lifetime.start) + (MAX(lifetime.stop) - MIN(lifetime.start)) * 4 / 10 AS steady_start, MIN(lifetime.start) + (MAX(lifetime.stop) - MIN(lifetime.start)) * 6 / 10 AS steady_end FROM items";


/// The outcome of one overview query: the answer text (or the failure), and
/// the answer parsed as a JSON array when it parses as one.
pub struct QueryOutcome {
    pub answer: Result<String, String>,
    pub rows: Option<Vec<JsonValue>>,
}

/// The items of what an answer text parses to, where that is an array.
pub open spec fn answer_rows(answer: Result<String, String>) -> Option<Seq<JsonValue>> {
    match answer {
        Ok(t) => match json_parse(t@) {
            Some(JsonValue::Array { items, .. }) => Some(items@),
            _ => None,
        },
        Err(_) => None,
    }
}

impl QueryOutcome {
    /// The outcome of a query: its answer, and the rows that the answer
    /// parses to.
    pub fn of(answer: Result<String, String>) -> (r: QueryOutcome)
        ensures
            r.answer == answer,
            match answer_rows(answer) {
                Some(rows) => r.rows matches Some(v) && v@ == rows,
                None => r.rows is None,
            },
    {
        let rows = match &answer {
            Ok(t) => match parse_json(t.as_str()) {
                Some(JsonValue::Array { items, .. }) => Some(items),
                _ => None,
            },
            Err(_) => None,
        };
        QueryOutcome { answer, rows }
    }
}

/// What std's `{:?}` prints for a text (quoted, with escapes).
pub uninterp spec fn debug_text(s: Seq<char>) -> Seq<char>;

/// std `format!("{:?}")` of a `str`, named by [`debug_text`].
#[verifier::external_body]
fn debug_quoted(s: &str) -> (r: String)
    ensures
        r@ == debug_text(s@),
{
    format!("{s:?}")
}

// ───────────────────────────── fixed and raw sections ─────────────────────────────

/// The schema section.
pub open spec fn schema_section() -> Seq<char> {
    "## Schema\n"@ + "Table `entries`: entry_slug TEXT PK, short_name TEXT, long_name TEXT, parent_slug TEXT, type TEXT ('panel'|'slot')\n"@ + "Table `items`: entry_slug TEXT (FK→entries), item_uid UBIGINT, title TEXT,\nlifetime/running/waiting/deferred/delayed/ready/scheduling_overhead/triggering_latency: STRUCT(start BIGINT, stop BIGINT, duration BIGINT),\noperation/creator/critical_path/previous_executing/mapper: STRUCT(item_uid UBIGINT, title TEXT, interval STRUCT(start,stop,duration), entry_slug TEXT),\nsize: TEXT — unit-suffixed string ('76.000 KiB', '96 B'); parse units before math (see run_query example #7), never CAST directly.\nAll timestamps are NANOSECONDS. Access STRUCTs with dot notation: running.start, critical_path.item_uid.\n\n"@
}

/// Appends the schema notes.
pub fn overview_schema(out: &mut String)
    ensures
        final(out)@ == old(out)@ + schema_section(),
{
    push_str(out, "## Schema\n");
    push_str(out, "Table `entries`: entry_slug TEXT PK, short_name TEXT, long_name TEXT, parent_slug TEXT, type TEXT ('panel'|'slot')\n");
    push_str(out, "Table `items`: entry_slug TEXT (FK→entries), item_uid UBIGINT, title TEXT,\nlifetime/running/waiting/deferred/delayed/ready/scheduling_overhead/triggering_latency: STRUCT(start BIGINT, stop BIGINT, duration BIGINT),\noperation/creator/critical_path/previous_executing/mapper: STRUCT(item_uid UBIGINT, title TEXT, interval STRUCT(start,stop,duration), entry_slug TEXT),\nsize: TEXT — unit-suffixed string ('76.000 KiB', '96 B'); parse units before math (see run_query example #7), never CAST directly.\nAll timestamps are NANOSECONDS. Access STRUCTs with dot notation: running.start, critical_path.item_uid.\n\n");
}

/// The text a raw answer contributes: the JSON, or the failure as
/// `[{"error": "<message>"}]`.
pub open spec fn raw_or_error(r: Result<String, String>) -> Seq<char> {
    match r {
        Ok(t) => t@,
        Err(e) => "[{\"error\": "@ + debug_text(e@) + "}]"@,
    }
}

/// A count answer, or a `?` count when the query failed.
pub open spec fn count_or_unknown(r: Result<String, String>) -> Seq<char> {
    match r {
        Ok(t) => t@,
        Err(_) => "[{\"cnt\":\"?\"}]"@,
    }
}

/// The row-count section.
pub open spec fn row_counts_section(entries: Result<String, String>, items: Result<String, String>) -> Seq<char> {
    "## Row Counts\nentries: "@ + count_or_unknown(entries) + "  items: "@ + count_or_unknown(items) + "\n\n"@
}

fn push_count(out: &mut String, r: &Result<String, String>)
    ensures
        final(out)@ == old(out)@ + count_or_unknown(*r),
{
    match r {
        Ok(t) => push_str(out, t.as_str()),
        Err(_) => push_str(out, "[{\"cnt\":\"?\"}]"),
    }
}

/// Appends the row counts of `entries` and `items`.
pub fn overview_row_counts(out: &mut String, entries: &Result<String, String>, items: &Result<String, String>)
    ensures
        final(out)@ == old(out)@ + row_counts_section(*entries, *items),
{
    push_str(out, "## Row Counts\nentries: ");
    push_count(out, entries);
    push_str(out, "  items: ");
    push_count(out, items);
    push_str(out, "\n\n");
}

/// A section showing a raw answer under a header line.
pub open spec fn raw_section(header: Seq<char>, r: Result<String, String>) -> Seq<char> {
    header + "\n"@ + raw_or_error(r) + "\n\n"@
}

fn push_raw_section(out: &mut String, header: &str, r: &Result<String, String>)
    ensures
        final(out)@ == old(out)@ + raw_section(header@, *r),
{
    push_str(out, header);
    push_str(out, "\n");
    match r {
        Ok(t) => push_str(out, t.as_str()),
        Err(e) => {
            push_str(out, "[{\"error\": ");
            let d = debug_quoted(e.as_str());
            push_str(out, d.as_str());
            push_str(out, "}]");
        },
    }
    push_str(out, "\n\n");
}

/// Appends the processor hierarchy (entries grouped by parent and type).
pub fn overview_processor_hierarchy(out: &mut String, r: &Result<String, String>)
    ensures
        final(out)@ == old(out)@ + raw_section("## Processor Hierarchy"@, *r),
{
    push_raw_section(out, "## Processor Hierarchy", r);
}

/// Appends the timeline bounds.
pub fn overview_timeline_bounds(out: &mut String, r: &Result<String, String>)
    ensures
        final(out)@ == old(out)@ + raw_section("## Timeline Bounds"@, *r),
{
    push_raw_section(out, "## Timeline Bounds", r);
}

/// Appends the ten most frequent task types.
pub fn overview_task_distribution(out: &mut String, r: &Result<String, String>)
    ensures
        final(out)@ == old(out)@ + raw_section("## Top Task Types (by count, top 10)"@, *r),
{
    push_raw_section(out, "## Top Task Types (by count, top 10)", r);
}

/// Appends the slot counts per parent.
pub fn overview_slots_by_kind(out: &mut String, r: &Result<String, String>)
    ensures
        final(out)@ == old(out)@ + raw_section("## Slots by Kind"@, *r),
{
    push_raw_section(out, "## Slots by Kind", r);
}

/// Appends one sample item row (its shape).
pub fn overview_sample_item(out: &mut String, r: &Result<String, String>)
    ensures
        final(out)@ == old(out)@ + raw_section("## Sample Item Row (shape; SELECT * via run_query)"@, *r),
{
    push_raw_section(out, "## Sample Item Row (shape; SELECT * via run_query)", r);
}

// ───────────────────────────── integer signal sections ─────────────────────────────

/// The body of a one-row signal section: `render` of the first row, `empty`
/// when there is none, the raw answer when it did not parse, or the failure.
pub open spec fn first_row_body(q: QueryOutcome, empty: Seq<char>, render: spec_fn(JsonValue) -> Seq<char>) -> Seq<char> {
    match q.answer {
        Ok(t) => match q.rows {
            Some(rows) => if rows@.len() > 0 {
                render(rows@[0])
            } else {
                empty
            },
            None => t@ + "\n"@,
        },
        Err(e) => "(error: "@ + e@ + ")\n"@,
    }
}

/// A `u64` field of a row, or `d`.
pub open spec fn u64_or(row: JsonValue, key: Seq<char>, d: u64) -> u64 {
    match json_u64(json_field(row, key)) {
        Some(n) => n,
        None => d,
    }
}

/// The type line of the profile classification.
pub open spec fn classification_type(gpu: u64, nodes: u64) -> Seq<char> {
    "- Type: "@ + (if gpu > 0 { "GPU-present"@ } else { "CPU-only"@ }) + " "@ + (if nodes <= 1 {
        "single-node"@
    } else {
        decimal(nodes as nat) + "-node"@
    }) + "\n"@
}

/// The processor-count line of the profile classification.
pub open spec fn classification_counts(gpu: u64, cpu: u64, util: u64) -> Seq<char> {
    "- GPUs: "@ + decimal(gpu as nat) + " | CPUs: "@ + decimal(cpu as nat) + " | Utility procs: "@
        + decimal(util as nat) + "\n"@
}

/// The profile-classification lines for a counts row.
pub open spec fn classification_lines(row: JsonValue) -> Seq<char> {
    let gpu = u64_or(row, "gpu_device_count"@, 0);
    classification_type(gpu, u64_or(row, "node_count"@, 1)) + classification_counts(
        gpu,
        u64_or(row, "cpu_count"@, 0),
        u64_or(row, "util_count"@, 0),
    )
}

/// The profile-classification section.
pub open spec fn classification_section(q: QueryOutcome) -> Seq<char> {
    "## Profile Classification\n"@ + first_row_body(q, "(no data)\n"@, |row: JsonValue| classification_lines(row)) + "\n"@
}

/// Appends the end of a one-row section for an answer that did not parse or
/// failed; `true` when the caller renders the row instead.
fn push_unparsed(out: &mut String, q: &QueryOutcome, empty: &str) -> (r: bool)
    ensures
        r <==> (q.answer is Ok && (match q.rows { Some(rows) => rows@.len() > 0, None => false })),
        !r ==> final(out)@ == old(out)@ + first_row_body(*q, empty@, |row: JsonValue| Seq::<char>::empty()),
        r ==> final(out)@ == old(out)@,
{
    match &q.answer {
        Ok(t) => match &q.rows {
            Some(rows) => {
                if rows.len() > 0 {
                    true
                } else {
                    push_str(out, empty);
                    false
                }
            },
            None => {
                push_str(out, t.as_str());
                push_str(out, "\n");
                false
            },
        },
        Err(e) => {
            push_str(out, "(error: ");
            push_str(out, e.as_str());
            push_str(out, ")\n");
            false
        },
    }
}

fn push_u64(out: &mut String, n: u64)
    ensures
        final(out)@ == old(out)@ + decimal(n as nat),
{
    let d = u64_to_chars(n);
    push_chars(out, d.as_slice());
}

/// Appends the profile classification: GPU presence, node count, and
/// processor counts.
pub fn overview_profile_classification(out: &mut String, q: &QueryOutcome)
    ensures
        final(out)@ == old(out)@ + classification_section(*q),
{
    push_str(out, "## Profile Classification\n");
    if push_unparsed(out, q, "(no data)\n") {
        let rows = match &q.rows {
            Some(rows) => rows,
            None => return,
        };
        push_classification_lines(out, &rows[0]);
    }
    push_str(out, "\n");
}

fn push_classification_type(out: &mut String, gpu: u64, nodes: u64)
    ensures
        final(out)@ == old(out)@ + classification_type(gpu, nodes),
{
    let ghost start = out@;
    push_str(out, "- Type: ");
    if gpu > 0 {
        push_str(out, "GPU-present");
    } else {
        push_str(out, "CPU-only");
    }
    push_str(out, " ");
    if nodes <= 1 {
        push_str(out, "single-node");
    } else {
        push_u64(out, nodes);
        push_str(out, "-node");
    }
    push_str(out, "\n");
    assert(out@ =~= start + classification_type(gpu, nodes));
}

fn push_classification_counts(out: &mut String, gpu: u64, cpu: u64, util: u64)
    ensures
        final(out)@ == old(out)@ + classification_counts(gpu, cpu, util),
{
    let ghost start = out@;
    push_str(out, "- GPUs: ");
    push_u64(out, gpu);
    push_str(out, " | CPUs: ");
    push_u64(out, cpu);
    push_str(out, " | Utility procs: ");
    push_u64(out, util);
    push_str(out, "\n");
    assert(out@ =~= start + classification_counts(gpu, cpu, util));
}

fn push_classification_lines(out: &mut String, row: &JsonValue)
    ensures
        final(out)@ == old(out)@ + classification_lines(*row),
{
    let gpu = field_u64_or(row, "gpu_device_count", 0);
    let cpu = field_u64_or(row, "cpu_count", 0);
    let util = field_u64_or(row, "util_count", 0);
    let nodes = field_u64_or(row, "node_count", 1);
    push_classification_type(out, gpu, nodes);
    push_classification_counts(out, gpu, cpu, util);
}

/// The tracing-status lines for a counts row.
pub open spec fn tracing_lines(row: JsonValue) -> Seq<char> {
    "- Replay Physical Trace tasks: "@ + decimal(u64_or(row, "replay_trace_count"@, 0) as nat)
        + "\n- Mapper calls: "@ + decimal(u64_or(row, "mapper_call_count"@, 0) as nat) + "\n"@
}

/// The tracing-status section.
pub open spec fn tracing_section(q: QueryOutcome) -> Seq<char> {
    "## Tracing Status\n"@ + first_row_body(q, "(no data)\n"@, |row: JsonValue| tracing_lines(row)) + "\n"@
}

/// Appends the trace-replay and mapper-call counts.
pub fn overview_tracing_status(out: &mut String, q: &QueryOutcome)
    ensures
        final(out)@ == old(out)@ + tracing_section(*q),
{
    push_str(out, "## Tracing Status\n");
    if push_unparsed(out, q, "(no data)\n") {
        let rows = match &q.rows {
            Some(rows) => rows,
            None => return,
        };
        let row = &rows[0];
        push_str(out, "- Replay Physical Trace tasks: ");
        push_u64(out, field_u64_or(row, "replay_trace_count", 0));
        push_str(out, "\n- Mapper calls: ");
        push_u64(out, field_u64_or(row, "mapper_call_count", 0));
        push_str(out, "\n");
    }
    push_str(out, "\n");
}

/// The Python-processor line for a counts row.
pub open spec fn python_lines(row: JsonValue) -> Seq<char> {
    let n = u64_or(row, "py_proc_count"@, 0);
    if n > 0 {
        "- Python processors: "@ + decimal(n as nat) + " (Legate/cuNumeric)\n"@
    } else {
        "- Python processors: 0\n"@
    }
}

/// The Python/Legate section.
pub open spec fn python_section(q: QueryOutcome) -> Seq<char> {
    "## Python/Legate Detection\n"@ + first_row_body(q, "(no data)\n"@, |row: JsonValue| python_lines(row)) + "\n"@
}

/// Appends the Python (Legate) processor count.
pub fn overview_python_detection(out: &mut String, q: &QueryOutcome)
    ensures
        final(out)@ == old(out)@ + python_section(*q),
{
    push_str(out, "## Python/Legate Detection\n");
    if push_unparsed(out, q, "(no data)\n") {
        let rows = match &q.rows {
            Some(rows) => rows,
            None => return,
        };
        let n = field_u64_or(&rows[0], "py_proc_count", 0);
        if n > 0 {
            push_str(out, "- Python processors: ");
            push_u64(out, n);
            push_str(out, " (Legate/cuNumeric)\n");
        } else {
            push_str(out, "- Python processors: 0\n");
        }
    }
    push_str(out, "\n");
}

// ───────────────────────────── navigation anchors ─────────────────────────────

/// An `i64` field of a row, or 0.
pub open spec fn i64_or_zero(row: JsonValue, key: Seq<char>) -> i64 {
    match json_i64(json_field(row, key)) {
        Some(n) => n,
        None => 0,
    }
}

/// The steady-state anchor line (middle 20% of the profile), when the
/// range is sound.
pub open spec fn midpoint_anchor(q: QueryOutcome) -> Seq<char> {
    match q.answer {
        Ok(_) => match q.rows {
            Some(rows) => if rows@.len() > 0 {
                let s = i64_or_zero(rows@[0], "steady_start"@);
                let e = i64_or_zero(rows@[0], "steady_end"@);
                if s > 0 && e > s {
                    "- Steady-state zoom (middle 20%%): ["@ + decimal_int(s as int) + ", "@ + decimal_int(e as int) + "]\n"@
                } else {
                    seq![]
                }
            } else {
                seq![]
            },
            None => seq![],
        },
        Err(e) => if contains(e@, "not found"@) {
            seq![]
        } else {
            "  (midpoint error: "@ + e@ + ")\n"@
        },
    }
}

/// An anchor rendered elsewhere (from measured durations): its line when
/// there is one, nothing, or the failure unless the data is simply absent.
pub open spec fn measured_anchor(a: Result<Option<String>, String>, what: Seq<char>) -> Seq<char> {
    match a {
        Ok(Some(line)) => line@,
        Ok(None) => seq![],
        Err(e) => if contains(e@, "not found"@) {
            seq![]
        } else {
            "  ("@ + what + " anchor error: "@ + e@ + ")\n"@
        },
    }
}

/// The navigation-anchors section.
pub open spec fn anchors_section(
    midpoint: QueryOutcome,
    mapper: Result<Option<String>, String>,
    gap: Result<Option<String>, String>,
) -> Seq<char> {
    "## Navigation Anchors\n"@ + midpoint_anchor(midpoint) + measured_anchor(mapper, "mapper"@)
        + measured_anchor(gap, "gap"@)
        + "Use zoom_to or set_view with these nanosecond ranges to navigate directly.\n"@ + "\n"@
}

fn push_measured_anchor(out: &mut String, a: &Result<Option<String>, String>, what: &str)
    ensures
        final(out)@ == old(out)@ + measured_anchor(*a, what@),
{
    proof {
        reveal_strlit("not found");
    }
    match a {
        Ok(Some(line)) => push_str(out, line.as_str()),
        Ok(None) => {
            assert(old(out)@ + Seq::<char>::empty() =~= old(out)@);
        },
        Err(e) => {
            if contains_chars(chars_of(e.as_str()).as_slice(), chars_of("not found").as_slice()) {
                assert(old(out)@ + Seq::<char>::empty() =~= old(out)@);
            } else {
                push_str(out, "  (");
                push_str(out, what);
                push_str(out, " anchor error: ");
                push_str(out, e.as_str());
                push_str(out, ")\n");
            }
        },
    }
}

/// Appends the navigation anchors: the steady-state range, the longest
/// mapper call and the largest processor gap (those two rendered from
/// measured durations by the caller), and how to use them.
pub fn overview_navigation_anchors(
    out: &mut String,
    midpoint: &QueryOutcome,
    mapper: &Result<Option<String>, String>,
    gap: &Result<Option<String>, String>,
)
    ensures
        final(out)@ == old(out)@ + anchors_section(*midpoint, *mapper, *gap),
{
    let ghost start = old(out)@;
    push_str(out, "## Navigation Anchors\n");
    match &midpoint.answer {
        Ok(_) => match &midpoint.rows {
            Some(rows) => {
                if rows.len() > 0 {
                    let s = field_i64_or(&rows[0], "steady_start", 0);
                    let e = field_i64_or(&rows[0], "steady_end", 0);
                    if s > 0 && e > s {
                        push_str(out, "- Steady-state zoom (middle 20%%): [");
                        push_chars(out, i64_to_chars(s).as_slice());
                        push_str(out, ", ");
                        push_chars(out, i64_to_chars(e).as_slice());
                        push_str(out, "]\n");
                    }
                }
            },
            None => {},
        },
        Err(e) => {
            if !contains_chars(chars_of(e.as_str()).as_slice(), chars_of("not found").as_slice()) {
                push_str(out, "  (midpoint error: ");
                push_str(out, e.as_str());
                push_str(out, ")\n");
            }
        },
    }
    assert(out@ =~= start + "## Navigation Anchors\n"@ + midpoint_anchor(*midpoint));
    push_measured_anchor(out, mapper, "mapper");
    push_measured_anchor(out, gap, "gap");
    push_str(out, "Use zoom_to or set_view with these nanosecond ranges to navigate directly.\n");
    push_str(out, "\n");
}

// ───────────────────────────── channels ─────────────────────────────

/// The part of a channel slug after `chan` (keeping the `_`), or the whole
/// slug.
pub open spec fn chan_part(slug: Seq<char>) -> Seq<char> {
    match find(slug, "chan_"@) {
        Some(i) => slug.skip(i + 4),
        None => slug,
    }
}

/// Characters that split a channel name into node parts: anything but an
/// ASCII digit or `n`.
pub open spec fn is_node_sep(c: char) -> bool {
    !('0' <= c && c <= '9') && c != 'n'
}

/// Completed runs of non-separators and the run in progress.
pub open spec fn run_state(s: Seq<char>) -> (Seq<Seq<char>>, Seq<char>)
    decreases s.len(),
{
    if s.len() == 0 {
        (seq![], seq![])
    } else {
        let (rs, cur) = run_state(s.drop_last());
        if is_node_sep(s.last()) {
            if cur.len() > 0 {
                (rs.push(cur), seq![])
            } else {
                (rs, cur)
            }
        } else {
            (rs, cur.push(s.last()))
        }
    }
}

/// The non-empty pieces of `s` between node separators.
pub open spec fn node_runs(s: Seq<char>) -> Seq<Seq<char>> {
    let (rs, cur) = run_state(s);
    if cur.len() > 0 {
        rs.push(cur)
    } else {
        rs
    }
}

/// The node names among `runs`: an `n` followed by at least one character.
pub open spec fn node_names(runs: Seq<Seq<char>>) -> Seq<Seq<char>>
    decreases runs.len(),
{
    if runs.len() == 0 {
        seq![]
    } else if runs.last()[0] == 'n' && runs.last().len() > 1 {
        node_names(runs.drop_last()).push(runs.last())
    } else {
        node_names(runs.drop_last())
    }
}

/// The direction a channel slug names: between nodes, between system memory
/// and a frame buffer, or local.
pub open spec fn channel_direction(slug: Seq<char>) -> Seq<char> {
    let part = chan_part(slug);
    let nodes = node_names(node_runs(part));
    if nodes.len() >= 2 && exists|i: int| 0 <= i < nodes.len() && #[trigger] nodes[i] != nodes[0] {
        "inter-node"@
    } else if contains(part, "s"@) && !starts_with(part, "sys"@) && contains(part, "f"@) {
        "SYS↔FB (PCIe)"@
    } else {
        "local"@
    }
}

proof fn lemma_runs_nonempty(s: Seq<char>)
    ensures
        forall|i: int| 0 <= i < run_state(s).0.len() ==> #[trigger] run_state(s).0[i].len() > 0,
    decreases s.len(),
{
    if s.len() > 0 {
        lemma_runs_nonempty(s.drop_last());
        let p = run_state(s.drop_last());
        if is_node_sep(s.last()) && p.1.len() > 0 {
            assert(run_state(s).0 == p.0.push(p.1));
        } else {
            assert(run_state(s).0 == p.0);
        }
    }
}

/// Classifies a channel slug: two different node numbers mean
/// `inter-node`; system-memory and frame-buffer parts mean `SYS↔FB (PCIe)`;
/// anything else is `local`.
pub fn classify_channel_slug(slug: &str) -> (r: &'static str)
    ensures
        r@ == channel_direction(slug@),
{
    proof {
        reveal_strlit("chan_");
        reveal_strlit("s");
        reveal_strlit("sys");
        reveal_strlit("f");
        lemma_runs_nonempty(chan_part(slug@));
    }
    let sc = chars_of(slug);
    let pat = ['c', 'h', 'a', 'n', '_'];
    assert(pat@ =~= "chan_"@);
    let part = match find_chars(sc.as_slice(), pat.as_slice()) {
        Some(i) => {
            assert(crate::text::occurs_at(sc@, pat@, i as int));
            assert(pat@.len() == 5);
            assert(i + 5 <= sc@.len());
            assert(sc@.len() == sc.len());
            let p = slice_copy(sc.as_slice(), i + 4, sc.len());
            assert(p@ =~= sc@.skip(i + 4));
            p
        },
        None => sc,
    };
    assert(part@ == chan_part(slug@));
    // Runs of digits and `n`.
    let mut runs: Vec<Vec<char>> = Vec::new();
    let mut cur: Vec<char> = Vec::new();
    let mut i: usize = 0;
    while i < part.len()
        invariant
            i <= part@.len(),
            views(runs@) == run_state(part@.take(i as int)).0,
            cur@ == run_state(part@.take(i as int)).1,
        decreases part@.len() - i,
    {
        let c = part[i];
        assert(part@.take(i + 1).drop_last() =~= part@.take(i as int));
        assert(part@.take(i + 1).last() == c);
        if !('0' <= c && c <= '9') && c != 'n' {
            if cur.len() > 0 {
                let ghost before = views(runs@);
                let done = slice_copy(cur.as_slice(), 0, cur.len());
                assert(done@ =~= cur@);
                runs.push(done);
                assert(views(runs@) =~= before.push(cur@));
                cur = Vec::new();
            }
        } else {
            cur.push(c);
        }
        i = i + 1;
    }
    assert(part@.take(part@.len() as int) =~= part@);
    if cur.len() > 0 {
        let ghost before = views(runs@);
        runs.push(cur);
        assert(views(runs@) =~= before.push(run_state(part@).1));
    }
    let ghost rv = views(runs@);
    assert(rv == node_runs(part@));
    assert(forall|j: int| 0 <= j < rv.len() ==> #[trigger] rv[j].len() > 0);
    // Node names among the runs.
    let mut nodes: Vec<Vec<char>> = Vec::new();
    let mut k: usize = 0;
    while k < runs.len()
        invariant
            k <= runs@.len(),
            rv == views(runs@),
            forall|j: int| 0 <= j < rv.len() ==> #[trigger] rv[j].len() > 0,
            views(nodes@) == node_names(rv.take(k as int)),
        decreases runs@.len() - k,
    {
        let w = runs[k].as_slice();
        assert(rv[k as int] == w@);
        assert(rv.take(k + 1).drop_last() =~= rv.take(k as int));
        assert(rv.take(k + 1).last() == w@);
        if w[0] == 'n' && w.len() > 1 {
            let ghost before = views(nodes@);
            let copy = slice_copy(w, 0, w.len());
            assert(copy@ =~= w@);
            nodes.push(copy);
            assert(views(nodes@) =~= before.push(w@));
        }
        k = k + 1;
    }
    assert(rv.take(runs@.len() as int) =~= rv);
    let ghost nv = views(nodes@);
    assert(nv == node_names(node_runs(part@)));
    if nodes.len() >= 2 {
        let mut m: usize = 0;
        while m < nodes.len()
            invariant
                m <= nodes@.len(),
                nv == views(nodes@),
                nv == node_names(node_runs(part@)),
                part@ == chan_part(slug@),
                nodes@.len() >= 2,
                forall|j: int| 0 <= j < m ==> #[trigger] nv[j] == nv[0],
            decreases nodes@.len() - m,
        {
            assert(nv[m as int] == nodes@[m as int]@);
            assert(nv[0] == nodes@[0]@);
            if !crate::text::chars_eq(nodes[m].as_slice(), nodes[0].as_slice()) {
                assert(nv[m as int] != nv[0]);
                proof {
                    reveal_strlit("inter-node");
                }
                return "inter-node";
            }
            m = m + 1;
        }
    }
    let s_ = ['s'];
    let sys = ['s', 'y', 's'];
    let f_ = ['f'];
    assert(s_@ =~= "s"@);
    assert(sys@ =~= "sys"@);
    assert(f_@ =~= "f"@);
    let has_sys = contains_chars(part.as_slice(), s_.as_slice()) && !starts_with_chars(part.as_slice(), sys.as_slice());
    let has_fb = contains_chars(part.as_slice(), f_.as_slice());
    if has_sys && has_fb {
        return "SYS↔FB (PCIe)";
    }
    "local"
}

// ───────────────────────────── the whole overview ─────────────────────────────

/// Everything the overview is made of: the answers of the queries that
/// this module renders, and the sections rendered from measured
/// (floating-point) values, in reading order.
pub struct OverviewInputs {
    pub entry_count: Result<String, String>,
    pub item_count: Result<String, String>,
    pub hierarchy: Result<String, String>,
    pub bounds: Result<String, String>,
    pub distribution: Result<String, String>,
    pub slots: Result<String, String>,
    pub sample: Result<String, String>,
    pub classification: QueryOutcome,
    pub tracing: QueryOutcome,
    /// Per-kind utilization through triggering latency.
    pub measured_before_python: Vec<String>,
    pub python: QueryOutcome,
    /// GC and instance activity through processor balance.
    pub measured_after_python: Vec<String>,
    pub midpoint: QueryOutcome,
    pub mapper_anchor: Result<Option<String>, String>,
    pub gap_anchor: Result<Option<String>, String>,
}

/// The concatenation of rendered sections.
pub open spec fn concat_all(parts: Seq<String>) -> Seq<char>
    decreases parts.len(),
{
    if parts.len() == 0 {
        seq![]
    } else {
        concat_all(parts.drop_last()) + parts.last()@
    }
}

/// The overview text: every section in reading order.
pub open spec fn overview_text(x: OverviewInputs) -> Seq<char> {
    schema_section() + row_counts_section(x.entry_count, x.item_count) + raw_section(
        "## Processor Hierarchy"@,
        x.hierarchy,
    ) + raw_section("## Timeline Bounds"@, x.bounds) + raw_section(
        "## Top Task Types (by count, top 10)"@,
        x.distribution,
    ) + raw_section("## Slots by Kind"@, x.slots) + raw_section(
        "## Sample Item Row (shape; SELECT * via run_query)"@,
        x.sample,
    ) + classification_section(x.classification) + tracing_section(x.tracing) + concat_all(
        x.measured_before_python@,
    ) + python_section(x.python) + concat_all(x.measured_after_python@) + anchors_section(
        x.midpoint,
        x.mapper_anchor,
        x.gap_anchor,
    )
}

fn push_all(out: &mut String, parts: &Vec<String>)
    ensures
        final(out)@ == old(out)@ + concat_all(parts@),
{
    let ghost start = old(out)@;
    let mut i: usize = 0;
    assert(parts@.take(0) =~= Seq::<String>::empty());
    assert(start + concat_all(parts@.take(0)) =~= start);
    while i < parts.len()
        invariant
            i <= parts@.len(),
            out@ == start + concat_all(parts@.take(i as int)),
        decreases parts@.len() - i,
    {
        push_str(out, parts[i].as_str());
        assert(parts@.take(i + 1).drop_last() =~= parts@.take(i as int));
        assert(out@ =~= start + concat_all(parts@.take(i + 1)));
        i = i + 1;
    }
    assert(parts@.take(parts@.len() as int) =~= parts@);
}

/// Assembles the overview of a profile database: schema notes, row counts,
/// hierarchy, bounds, task types, slots, a sample row, classification,
/// tracing status, the measured sections, Python detection and the
/// navigation anchors, in that order.
pub fn gather_overview(x: &OverviewInputs) -> (r: Result<String, String>)
    ensures
        r matches Ok(t) && t@ == overview_text(*x),
{
    let mut out = String::new();
    overview_schema(&mut out);
    overview_row_counts(&mut out, &x.entry_count, &x.item_count);
    overview_processor_hierarchy(&mut out, &x.hierarchy);
    overview_timeline_bounds(&mut out, &x.bounds);
    overview_task_distribution(&mut out, &x.distribution);
    overview_slots_by_kind(&mut out, &x.slots);
    overview_sample_item(&mut out, &x.sample);
    overview_profile_classification(&mut out, &x.classification);
    overview_tracing_status(&mut out, &x.tracing);
    push_all(&mut out, &x.measured_before_python);
    overview_python_detection(&mut out, &x.python);
    push_all(&mut out, &x.measured_after_python);
    overview_navigation_anchors(&mut out, &x.midpoint, &x.mapper_anchor, &x.gap_anchor);
    assert(out@ =~= overview_text(*x));
    Ok(out)
}

} // verus!
