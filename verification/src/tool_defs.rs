//! The tools advertised to the agent: each tool's name, its when-to-use
//! description, and the JSON schema of its input, as text. Which data tools
//! appear depends on what the session has (a database, a code directory, a
//! wiki); the visual tools always appear.

use vstd::prelude::*;
use crate::text::{chars_of, string_of};

verus! {

broadcast use vstd::string::group_string_axioms;

/// One advertised tool: its name, description and input schema (JSON text).
pub struct ToolDef {
    pub name: String,
    pub description: String,
    pub input_schema: String,
}

/// A tool as plain values.
pub type ToolView = (Seq<char>, Seq<char>, Seq<char>);

/// The tools as plain values.
pub open spec fn tool_views(ts: Seq<ToolDef>) -> Seq<ToolView> {
    ts.map_values(|t: ToolDef| (t.name@, t.description@, t.input_schema@))
}

/// Name of the `run_query` tool.
pub const RUN_QUERY_NAME: &'static str = "run_query";

/// Description of the `run_query` tool.
pub const RUN_QUERY_DESCRIPTION: &'static str = "Execute a read-only SQL query against the Legion profiling DuckDB database. \
                 Returns up to 50 rows as JSON. Do NOT include a trailing semicolon.\n\n\
                 RANGE QUERIES — READ FIRST: when the question says \"in the range\", \
                 \"in the highlighted region\", \"in the selection\", or \"longest / most time \
                 within a window\", you MUST CLIP each item to the window with \
                 SUM(LEAST(running.stop, {hi_ns}) - GREATEST(running.start, {lo_ns})) (see example #10) — \
                 do NOT use the plain time-range FILTER (example #2), and do NOT compare full \
                 durations: an item mostly OUTSIDE the window must not win.\n\n\
                 TRUNCATION: results are capped at 50 rows. If MORE rows matched, the JSON array \
                 holds the first 50 plus a final marker object {\"_truncated\": true, \"_shown\": 50, ...} — \
                 when you see it, the result is INCOMPLETE; refine with aggregation (GROUP BY/COUNT/SUM) \
                 or a narrower filter rather than trusting the 50 shown.\n\n\
                 SCHEMA REMINDER: Two tables — `entries` (entry_slug, short_name, long_name, parent_slug, type) \
                 and `items` (entry_slug, item_uid, title, plus STRUCT columns). \
                 All STRUCT columns use dot notation: running.start, running.duration, critical_path.item_uid, etc.\n\n\
                 EXAMPLE QUERIES:\n\
                 1. Per-processor utilization:\n\
                    SELECT entry_slug, COUNT(*) AS task_count,\n\
                      ROUND(SUM(running.duration) / 1e6, 1) AS busy_ms\n\
                    FROM items WHERE running IS NOT NULL\n\
                    GROUP BY entry_slug ORDER BY busy_ms DESC\n\n\
                 2. Tasks in a time range on a specific processor:\n\
                    SELECT item_uid, title, running.start, running.stop,\n\
                      running.duration / 1e6 AS run_ms\n\
                    FROM items\n\
                    WHERE entry_slug = 'n0_gpu_g0' AND running.start < 500000000\n\
                      AND running.stop > 400000000\n\
                    ORDER BY running.start\n\n\
                 3. GPU idle gaps (find gaps between consecutive tasks):\n\
                    WITH ordered AS (\n\
                      SELECT running.stop AS task_end,\n\
                        LEAD(running.start) OVER (PARTITION BY entry_slug ORDER BY running.start) AS next_start\n\
                      FROM items\n\
                      WHERE entry_slug LIKE '%gpu%' AND running IS NOT NULL\n\
                    )\n\
                    SELECT (next_start - task_end) / 1e6 AS gap_ms,\n\
                      task_end AS gap_start_ns, next_start AS gap_end_ns\n\
                    FROM ordered WHERE next_start > task_end\n\
                    ORDER BY gap_ms DESC LIMIT 10\n\n\
                 4. Walk critical path from a task:\n\
                    WITH RECURSIVE chain AS (\n\
                      SELECT item_uid, title, entry_slug,\n\
                        running.duration / 1e6 AS run_ms,\n\
                        critical_path.item_uid AS cp_uid, 1 AS depth\n\
                      FROM items WHERE item_uid = <START_UID>\n\
                      UNION ALL\n\
                      SELECT i.item_uid, i.title, i.entry_slug,\n\
                        i.running.duration / 1e6, i.critical_path.item_uid, c.depth + 1\n\
                      FROM items i JOIN chain c ON i.item_uid = c.cp_uid\n\
                      WHERE c.cp_uid IS NOT NULL AND c.depth < 10\n\
                    )\n\
                    SELECT * FROM chain ORDER BY depth\n\n\
                 5. Identify processor kinds by entry_slug pattern:\n\
                    SELECT entry_slug FROM entries\n\
                    WHERE type = 'slot' AND entry_slug LIKE '%gpu%'\n\
                    ORDER BY entry_slug\n\n\
                 6. Task lifecycle breakdown:\n\
                    SELECT title,\n\
                      ROUND(AVG(waiting.duration) / 1e6, 2) AS avg_wait_ms,\n\
                      ROUND(AVG(deferred.duration) / 1e6, 2) AS avg_defer_ms,\n\
                      ROUND(AVG(running.duration) / 1e6, 2) AS avg_run_ms\n\
                    FROM items WHERE running IS NOT NULL\n\
                    GROUP BY title ORDER BY avg_wait_ms DESC LIMIT 10\n\n\
                 7. Channel copy analysis (copies use lifetime + size, NEVER running; dedup by item_uid).\n\
                    For copy VOLUME, sum `size` on %chan% rows ONLY — instances/fills on other rows also\n\
                    carry `size` and must not be mixed into channel totals; `size` is a unit-suffixed\n\
                    string ('76.000 KiB', '96 B') so parse units before summing:\n\
                    SELECT entry_slug, COUNT(*) AS copy_count,\n\
                      ROUND(SUM(ld) / 1e6, 1) AS total_ms\n\
                    FROM (SELECT item_uid, min(entry_slug) AS entry_slug,\n\
                            any_value(lifetime.duration) AS ld\n\
                          FROM (SELECT DISTINCT item_uid, entry_slug, lifetime\n\
                                FROM items WHERE entry_slug LIKE '%chan%') s\n\
                          GROUP BY item_uid)\n\
                    GROUP BY entry_slug ORDER BY total_ms DESC\n\
                    (size is a unit-suffixed string like '76.000 KiB'/'96 B' \u{2014} parse units for bytes)\n\n\
                 8. Utility activity during a time window:\n\
                    SELECT title, COUNT(*) AS cnt,\n\
                      ROUND(SUM(running.duration) / 1e6, 1) AS total_ms\n\
                    FROM items\n\
                    WHERE entry_slug LIKE '%util%' AND running IS NOT NULL\n\
                      AND running.start < {end_ns} AND running.stop > {start_ns}\n\
                    GROUP BY title ORDER BY total_ms DESC\n\n\
                 9. Tasks with thin pipeline (deferred near zero):\n\
                    SELECT entry_slug, title, item_uid,\n\
                      ROUND(deferred.duration / 1e6, 3) AS deferred_ms,\n\
                      ROUND(running.duration / 1e6, 2) AS run_ms\n\
                    FROM items\n\
                    WHERE deferred IS NOT NULL AND deferred.duration < 100000\n\
                      AND running IS NOT NULL\n\
                    ORDER BY running.start\n\n\
                 10. Most running time WITHIN a range (CLIP to the range — for \"longest / most\n\
                     time in the selected range\"; count only the portion inside [{lo_ns}, {hi_ns}]):\n\
                    SELECT item_uid,\n\
                      ROUND(SUM(LEAST(e, {hi_ns}) - GREATEST(s, {lo_ns})) / 1e6, 2) AS ms_in_range\n\
                    FROM (SELECT DISTINCT item_uid, entry_slug,\n\
                            running.start AS s, running.stop AS e\n\
                          FROM items WHERE running.start IS NOT NULL\n\
                            AND (entry_slug LIKE '%_cpu_%' OR entry_slug LIKE '%_gpudev_%')\n\
                            AND running.start < {hi_ns} AND running.stop > {lo_ns})\n\
                    GROUP BY item_uid ORDER BY ms_in_range DESC, item_uid ASC\n\
                    (CLIP each task's running to the range with LEAST/GREATEST; do NOT compare\n\
                     full task durations — a task mostly outside the range should not win)\n\n\
                 IMPORTANT: You can call this tool multiple times per response to batch independent queries. \
                 Do NOT include LIMIT in your query — a hard cap of 50 rows is applied automatically. \
                 Before writing a query, check the overview's Schema section for exact column names. \
                 If a column shows 'Not available in this profile' in the overview, do NOT attempt to query it.";

/// Input schema of the `run_query` tool.
pub const RUN_QUERY_SCHEMA: &'static str = r#"{"type":"object","properties":{"sql":{"type":"string","description":"The SELECT query to execute. No semicolon needed."},"purpose":{"type":"string","description":"Brief description of why you are running this query."}},"required":["sql","purpose"]}"#;

/// Name of the `overview` tool.
pub const OVERVIEW_NAME: &'static str = "overview";

/// Description of the `overview` tool.
pub const OVERVIEW_DESCRIPTION: &'static str = "Return a precomputed structured overview of the profiling database: \
                 schema, row counts, processor hierarchy, per-kind utilization, timeline \
                 bounds, top task types, and other orientation signals. Takes no arguments. \
                 Call this once at the start when you need to get oriented before writing queries.";

/// Input schema of the `overview` tool.
pub const OVERVIEW_SCHEMA: &'static str = r#"{"type":"object","properties":{},"required":[]}"#;

/// Name of the `list_files` tool.
pub const LIST_FILES_NAME: &'static str = "list_files";

/// Description of the `list_files` tool.
pub const LIST_FILES_DESCRIPTION: &'static str = "List source files in the code directory tree. Shows files recursively with \
                 sizes, organized by directory. Use BEFORE read_code to discover what files \
                 exist. Pass a subdirectory path to narrow the listing.";

/// Input schema of the `list_files` tool.
pub const LIST_FILES_SCHEMA: &'static str = r#"{"type":"object","properties":{"path":{"type":"string","description":"Subdirectory to list (relative to code root). Empty or '.' for the root."}},"required":[]}"#;

/// Name of the `read_code` tool.
pub const READ_CODE_NAME: &'static str = "read_code";

/// Description of the `read_code` tool.
pub const READ_CODE_DESCRIPTION: &'static str = "Read an application source file (path relative to the configured code root). \
                 Use to understand task logic, mapper policies, and application structure. \
                 Use list_files first to discover available files.";

/// Input schema of the `read_code` tool.
pub const READ_CODE_SCHEMA: &'static str = r#"{"type":"object","properties":{"path":{"type":"string","description":"Relative file path, e.g. 'circuit.cc' or 'src/main.cc'."}},"required":["path"]}"#;

/// Name of the `wiki_index` tool.
pub const WIKI_INDEX_NAME: &'static str = "wiki_index";

/// Description of the `wiki_index` tool.
pub const WIKI_INDEX_DESCRIPTION: &'static str = "Browse the structured Legion knowledge wiki: a grouped, one-line-per-page \
                 listing (path, tier, summary) of every page. CONSUMPTION LOOP: call wiki_index \
                 (or wiki_search) to find the right page → wiki_read it → follow its `Related` \
                 links to neighbours. Consult the wiki for Legion concepts, pitfalls, and \
                 diagnostic workflows instead of guessing. Pass `section` to list just one \
                 section (concepts, pitfalls, workflows, glossary, meta, applications). \
                 USE THIS WHEN the question asks for a performance CLASSIFICATION \
                 (compute-/communication-/runtime-bound), a LIFECYCLE phase meaning (waiting vs \
                 deferred vs ready), a flag/concept/pitfall definition, or a ROOT-CAUSE verdict — \
                 consult the wiki BEFORE asserting any such claim from prior knowledge. DON'T use \
                 it for raw per-task numbers (use run_query) or to re-read a page you already read.";

/// Input schema of the `wiki_index` tool.
pub const WIKI_INDEX_SCHEMA: &'static str = r#"{"type":"object","properties":{"section":{"type":"string","description":"Optional top-level section to scope the listing (e.g. 'pitfalls')."}},"required":[]}"#;

/// Name of the `wiki_read` tool.
pub const WIKI_READ_NAME: &'static str = "wiki_read";

/// Description of the `wiki_read` tool.
pub const WIKI_READ_DESCRIPTION: &'static str = "Read one wiki page (path as shown by wiki_index/wiki_search, e.g. \
                 'concepts/mapper.md'). Returns the page verbatim with its `Related` links \
                 intact — follow those to neighbouring pages. Pass `section` to return ONLY one \
                 `## Header` block (e.g. 'Debug signals', 'Failure modes', 'TL;DR'). Long pages \
                 are capped at max_chars (default 12000) with a truncation marker; raise \
                 max_chars or read a specific section to see more. \
                 USE THIS WHEN the question asks for a performance CLASSIFICATION \
                 (compute-/communication-/runtime-bound), a LIFECYCLE phase meaning (waiting vs \
                 deferred vs ready), a flag/concept/pitfall definition, or a ROOT-CAUSE verdict — \
                 consult the wiki BEFORE asserting any such claim from prior knowledge. DON'T use \
                 it for raw per-task numbers (use run_query) or to re-read a page you already read.";

/// Input schema of the `wiki_read` tool.
pub const WIKI_READ_SCHEMA: &'static str = r#"{"type":"object","properties":{"path":{"type":"string","description":"Relative page path under the wiki root, e.g. 'concepts/mapper.md'."},"section":{"type":"string","description":"Optional `## Header` to return just that block (e.g. 'Debug signals')."},"max_chars":{"type":"integer","description":"Optional character cap (default 12000)."}},"required":["path"]}"#;

/// Name of the `wiki_search` tool.
pub const WIKI_SEARCH_NAME: &'static str = "wiki_search";

/// Description of the `wiki_search` tool.
pub const WIKI_SEARCH_DESCRIPTION: &'static str = "Search the wiki by keyword/substring over page titles, summaries, TL;DRs, and \
                 tags. Returns up to `limit` ranked {path, section, tldr, tags, score} matches — \
                 these are PAGES TO READ, not a synthesized answer; wiki_read the top hits. Use \
                 this when you don't know which page covers a topic. Optional `section` and `tag` \
                 narrow the search. \
                 USE THIS WHEN the question asks for a performance CLASSIFICATION \
                 (compute-/communication-/runtime-bound), a LIFECYCLE phase meaning (waiting vs \
                 deferred vs ready), a flag/concept/pitfall definition, or a ROOT-CAUSE verdict — \
                 consult the wiki BEFORE asserting any such claim from prior knowledge. DON'T use \
                 it for raw per-task numbers (use run_query) or to re-read a page you already read. \
                 If the question contains words like 'bound', 'stall', 'overhead', \
                 'waiting/deferred/ready/lifecycle', 'mapper', or 'critical path' — wiki_search \
                 that term and wiki_read the top hits before answering.";

/// Input schema of the `wiki_search` tool.
pub const WIKI_SEARCH_SCHEMA: &'static str = r#"{"type":"object","properties":{"query":{"type":"string","description":"Keyword(s) to match (case-insensitive substring)."},"section":{"type":"string","description":"Optional top-level section to scope the search."},"tag":{"type":"string","description":"Optional tag to require (exact, case-insensitive)."},"limit":{"type":"integer","description":"Max results to return (default 5)."}},"required":["query"]}"#;

/// Name of the `screenshot` tool.
pub const SCREENSHOT_NAME: &'static str = "screenshot";

/// Description of the `screenshot` tool.
pub const SCREENSHOT_DESCRIPTION: &'static str = "Capture the current profiler timeline view as a PNG image. \
             Returns an image along with metadata showing the visible time \
             range (in nanoseconds) and the list of entry_slugs for each \
             processor row. Use this to visually inspect the timeline layout, \
             verify idle gaps, and understand spatial patterns across processors. \
             Do NOT take another screenshot if you already have a recent screenshot \
             of the same region — use the data you have. Prefer set_view over \
             screenshot when you need to change both zoom and scroll position.";

/// Input schema of the `screenshot` tool.
pub const SCREENSHOT_SCHEMA: &'static str = r#"{"type":"object","properties":{},"required":[]}"#;

/// Name of the `zoom_to` tool.
pub const ZOOM_TO_NAME: &'static str = "zoom_to";

/// Description of the `zoom_to` tool.
pub const ZOOM_TO_DESCRIPTION: &'static str = "Zoom the profiler timeline to a specific nanosecond range and capture \
             a screenshot. Returns a screenshot with metadata showing the exact \
             visible range and entry_slugs. Use after identifying a region of \
             interest via queries to see fine-grained task scheduling, verify \
             gaps, and inspect processor utilization within the zoomed range. \
             Prefer set_view over zoom_to + scroll_to when you need both zoom and \
             vertical navigation — it's one round-trip instead of two.";

/// Input schema of the `zoom_to` tool.
pub const ZOOM_TO_SCHEMA: &'static str = r#"{"type":"object","properties":{"start_ns":{"type":"integer","description":"Start of the zoom range in nanoseconds"},"stop_ns":{"type":"integer","description":"End of the zoom range in nanoseconds"}},"required":["start_ns","stop_ns"]}"#;

/// Name of the `pan` tool.
pub const PAN_NAME: &'static str = "pan";

/// Description of the `pan` tool.
pub const PAN_DESCRIPTION: &'static str = "Pan the timeline left or right by a percentage of the visible range. \
             Returns a screenshot with metadata after panning. Use to explore \
             adjacent time regions without changing zoom level — e.g. to see \
             what comes after a gap or to scan across the timeline incrementally.";

/// Input schema of the `pan` tool.
pub const PAN_SCHEMA: &'static str = r#"{"type":"object","properties":{"direction":{"type":"string","enum":["left","right"],"description":"Direction to pan: \"left\" moves earlier in time, \"right\" moves later."},"percent":{"type":"number","description":"Percentage of the visible range to pan by (default 25). E.g. 50 pans half a screen width."}},"required":["direction"]}"#;

/// Name of the `scroll_to` tool.
pub const SCROLL_TO_NAME: &'static str = "scroll_to";

/// Description of the `scroll_to` tool.
pub const SCROLL_TO_DESCRIPTION: &'static str = "Scroll the timeline vertically to bring a specific processor row \
             into view. Identifies the processor by entry_slug (e.g. \"n0_gpu_g0\", \
             \"n0_util_u0\"). Auto-expands the processor's parent panel if collapsed. \
             Returns a screenshot with metadata. Use to navigate to a processor of \
             interest — e.g. scroll to utility rows or channel rows.";

/// Input schema of the `scroll_to` tool.
pub const SCROLL_TO_SCHEMA: &'static str = r#"{"type":"object","properties":{"entry_slug":{"type":"string","description":"The entry_slug of the processor to scroll to (e.g. \"n0_gpu_g0\")."}},"required":["entry_slug"]}"#;

/// Name of the `set_view` tool.
pub const SET_VIEW_NAME: &'static str = "set_view";

/// Description of the `set_view` tool.
pub const SET_VIEW_DESCRIPTION: &'static str = "Combined view control in one call: zoom to a nanosecond range and \
             optionally scroll to a processor row, restrict the view to specific \
             processor kinds, expand/collapse kinds, and change row height. More \
             efficient than separate calls. Returns a screenshot with metadata. \
             Kind tokens come from the entry slugs / overview — typically \
             \"gpudev\", \"gpuhost\", \"cpu\", \"utility\", \"io\", \"system\", \
             \"framebuffer\", \"chan\", \"dp\". Matching is case-insensitive and \
             by substring, so \"gpu\" selects both \"gpudev\" and \"gpuhost\".";

/// Input schema of the `set_view` tool.
pub const SET_VIEW_SCHEMA: &'static str = r#"{"type":"object","properties":{"start_ns":{"type":"integer","description":"Start of the zoom range in nanoseconds"},"stop_ns":{"type":"integer","description":"End of the zoom range in nanoseconds"},"entry_slug":{"type":"string","description":"Optional entry_slug to scroll to after zooming."},"filter_kinds":{"type":"array","items":{"type":"string"},"description":"Optional: show ONLY these processor kinds (others are hidden). Omit or pass [] to show all kinds."},"expand_kinds":{"type":"array","items":{"type":"string"},"description":"Optional: expand these processor kinds to show their rows."},"collapse_kinds":{"type":"array","items":{"type":"string"},"description":"Optional: collapse these processor kinds to hide their rows."},"vertical_scale":{"type":"number","description":"Optional row-height multiplier in [0.25, 4.0]. >1 makes crowded rows taller/readable."}},"required":["start_ns","stop_ns"]}"#;

/// Name of the `search` tool.
pub const SEARCH_NAME: &'static str = "search";

/// Description of the `search` tool.
pub const SEARCH_DESCRIPTION: &'static str = "Set the timeline's search box to a string. Every task whose title \
             matches is highlighted in place across the visible rows, and the \
             returned screenshot metadata reports how many matched. Use this to \
             LOCATE tasks visually by name; use run_query when you need an exact \
             list or per-task numbers. Searching clears when you call reset_view.";

/// Input schema of the `search` tool.
pub const SEARCH_SCHEMA: &'static str = r#"{"type":"object","properties":{"query":{"type":"string","description":"Substring to search task titles for, e.g. \"calculate_new_currents\"."}},"required":["query"]}"#;

/// Name of the `reset_view` tool.
pub const RESET_VIEW_NAME: &'static str = "reset_view";

/// Description of the `reset_view` tool.
pub const RESET_VIEW_DESCRIPTION: &'static str = "Reset the view to a clean slate: zoom out to the whole profile, clear \
             any kind filter, clear the search, and reset row height to default. \
             Use this before answering about the overall structure of the profile, \
             or to undo a previous set_view/search.";

/// Input schema of the `reset_view` tool.
pub const RESET_VIEW_SCHEMA: &'static str = r#"{"type":"object","properties":{},"required":[]}"#;

/// Name of the `highlight` tool.
pub const HIGHLIGHT_NAME: &'static str = "highlight";

/// Description of the `highlight` tool.
pub const HIGHLIGHT_DESCRIPTION: &'static str = "Mark a region of the timeline to point the user at it (e.g. the task \
             you identified as the blocker). Highlights appear as clickable chips in \
             the chat and as overlays on the timeline. Use an entry_slug + the \
             nanosecond range from your queries or screenshots.";

/// Input schema of the `highlight` tool.
pub const HIGHLIGHT_SCHEMA: &'static str = r#"{"type":"object","properties":{"entry_slug":{"type":"string","description":"Processor row, e.g. \"n0_gpu_g0\"."},"start_ns":{"type":"integer","description":"Start of the region (ns)."},"stop_ns":{"type":"integer","description":"End of the region (ns)."},"severity":{"type":"string","description":"\"critical\", \"high\", or \"medium\" (default medium)."},"label":{"type":"string","description":"Short description shown on the chip."}},"required":["entry_slug","start_ns","stop_ns"]}"#;

/// Name of the `ask_user` tool.
pub const ASK_USER_NAME: &'static str = "ask_user";

/// Description of the `ask_user` tool.
pub const ASK_USER_DESCRIPTION: &'static str = "Ask the user a clarifying question and wait for their answer. Use this \
             when the request is ambiguous, when you must choose between materially \
             different interpretations, or when you are unsure what the user wants — \
             prefer asking over guessing. Provide 2–4 concrete options when you can.";

/// Input schema of the `ask_user` tool.
pub const ASK_USER_SCHEMA: &'static str = r#"{"type":"object","properties":{"question":{"type":"string","description":"The question to ask the user."},"options":{"type":"array","items":{"type":"string"},"description":"Optional 2–4 suggested answers, shown to the user as buttons."}},"required":["question"]}"#;

/// Name of the `clear_highlights` tool.
pub const CLEAR_HIGHLIGHTS_NAME: &'static str = "clear_highlights";

/// Description of the `clear_highlights` tool.
pub const CLEAR_HIGHLIGHTS_DESCRIPTION: &'static str = "Remove ALL highlight overlays from the timeline. Use this when the user \
             asks to remove, clear, undo, or hide the highlights you added.";

/// Input schema of the `clear_highlights` tool.
pub const CLEAR_HIGHLIGHTS_SCHEMA: &'static str = r#"{"type":"object","properties":{},"required":[]}"#;

/// Name of the `update_findings` tool.
pub const UPDATE_FINDINGS_NAME: &'static str = "update_findings";

/// Description of the `update_findings` tool.
pub const UPDATE_FINDINGS_DESCRIPTION: &'static str = "Record durable conclusions about THIS profile (its structure, the main \
             bottleneck, things you've ruled out) as short notes. They persist across \
             the user's questions and are shown back to you at the start of each new \
             question, so you don't re-derive them. Appends one bullet by default; pass \
             replace=true with a consolidated multi-line note to rewrite the whole list \
             (use this to correct or prune outdated notes). Keep each note to one terse \
             sentence.";

/// Input schema of the `update_findings` tool.
pub const UPDATE_FINDINGS_SCHEMA: &'static str = r#"{"type":"object","properties":{"note":{"type":"string","description":"The finding(s). One bullet, or multiple lines when replace=true."},"replace":{"type":"boolean","description":"If true, replace ALL existing findings with this note. Default false (append)."}},"required":["note"]}"#;

/// The `run_query` tool as plain values.
pub open spec fn run_query_tool() -> ToolView {
    (RUN_QUERY_NAME@, RUN_QUERY_DESCRIPTION@, RUN_QUERY_SCHEMA@)
}

/// The `overview` tool as plain values.
pub open spec fn overview_tool() -> ToolView {
    (OVERVIEW_NAME@, OVERVIEW_DESCRIPTION@, OVERVIEW_SCHEMA@)
}

/// The `list_files` tool as plain values.
pub open spec fn list_files_tool() -> ToolView {
    (LIST_FILES_NAME@, LIST_FILES_DESCRIPTION@, LIST_FILES_SCHEMA@)
}

/// The `read_code` tool as plain values.
pub open spec fn read_code_tool() -> ToolView {
    (READ_CODE_NAME@, READ_CODE_DESCRIPTION@, READ_CODE_SCHEMA@)
}

/// The `wiki_index` tool as plain values.
pub open spec fn wiki_index_tool() -> ToolView {
    (WIKI_INDEX_NAME@, WIKI_INDEX_DESCRIPTION@, WIKI_INDEX_SCHEMA@)
}

/// The `wiki_read` tool as plain values.
pub open spec fn wiki_read_tool() -> ToolView {
    (WIKI_READ_NAME@, WIKI_READ_DESCRIPTION@, WIKI_READ_SCHEMA@)
}

/// The `wiki_search` tool as plain values.
pub open spec fn wiki_search_tool() -> ToolView {
    (WIKI_SEARCH_NAME@, WIKI_SEARCH_DESCRIPTION@, WIKI_SEARCH_SCHEMA@)
}

/// The `screenshot` tool as plain values.
pub open spec fn screenshot_tool() -> ToolView {
    (SCREENSHOT_NAME@, SCREENSHOT_DESCRIPTION@, SCREENSHOT_SCHEMA@)
}

/// The `zoom_to` tool as plain values.
pub open spec fn zoom_to_tool() -> ToolView {
    (ZOOM_TO_NAME@, ZOOM_TO_DESCRIPTION@, ZOOM_TO_SCHEMA@)
}

/// The `pan` tool as plain values.
pub open spec fn pan_tool() -> ToolView {
    (PAN_NAME@, PAN_DESCRIPTION@, PAN_SCHEMA@)
}

/// The `scroll_to` tool as plain values.
pub open spec fn scroll_to_tool() -> ToolView {
    (SCROLL_TO_NAME@, SCROLL_TO_DESCRIPTION@, SCROLL_TO_SCHEMA@)
}

/// The `set_view` tool as plain values.
pub open spec fn set_view_tool() -> ToolView {
    (SET_VIEW_NAME@, SET_VIEW_DESCRIPTION@, SET_VIEW_SCHEMA@)
}

/// The `search` tool as plain values.
pub open spec fn search_tool() -> ToolView {
    (SEARCH_NAME@, SEARCH_DESCRIPTION@, SEARCH_SCHEMA@)
}

/// The `reset_view` tool as plain values.
pub open spec fn reset_view_tool() -> ToolView {
    (RESET_VIEW_NAME@, RESET_VIEW_DESCRIPTION@, RESET_VIEW_SCHEMA@)
}

/// The `highlight` tool as plain values.
pub open spec fn highlight_tool() -> ToolView {
    (HIGHLIGHT_NAME@, HIGHLIGHT_DESCRIPTION@, HIGHLIGHT_SCHEMA@)
}

/// The `ask_user` tool as plain values.
pub open spec fn ask_user_tool() -> ToolView {
    (ASK_USER_NAME@, ASK_USER_DESCRIPTION@, ASK_USER_SCHEMA@)
}

/// The `clear_highlights` tool as plain values.
pub open spec fn clear_highlights_tool() -> ToolView {
    (CLEAR_HIGHLIGHTS_NAME@, CLEAR_HIGHLIGHTS_DESCRIPTION@, CLEAR_HIGHLIGHTS_SCHEMA@)
}

/// The `update_findings` tool as plain values.
pub open spec fn update_findings_tool() -> ToolView {
    (UPDATE_FINDINGS_NAME@, UPDATE_FINDINGS_DESCRIPTION@, UPDATE_FINDINGS_SCHEMA@)
}

/// The tools advertised for a session: the query tools when it has a
/// database, the source tools when it has a code directory, the wiki tools
/// when it has a wiki, then the visual tools, in that order.
pub open spec fn advertised_tools(has_duckdb: bool, has_code: bool, has_wiki: bool) -> Seq<ToolView> {
    (if has_duckdb {
        seq![run_query_tool(), overview_tool()]
    } else {
        seq![]
    }) + (if has_code {
        seq![list_files_tool(), read_code_tool()]
    } else {
        seq![]
    }) + (if has_wiki {
        seq![wiki_index_tool(), wiki_read_tool(), wiki_search_tool()]
    } else {
        seq![]
    }) + seq![screenshot_tool(), zoom_to_tool(), pan_tool(), scroll_to_tool(), set_view_tool(), search_tool(), reset_view_tool(), highlight_tool(), ask_user_tool(), clear_highlights_tool(), update_findings_tool()]
}

fn tool(name: &str, description: &str, input_schema: &str) -> (r: ToolDef)
    ensures
        r.name@ == name@,
        r.description@ == description@,
        r.input_schema@ == input_schema@,
{
    ToolDef {
        name: string_of(chars_of(name).as_slice()),
        description: string_of(chars_of(description).as_slice()),
        input_schema: string_of(chars_of(input_schema).as_slice()),
    }
}

fn push_tool(tools: &mut Vec<ToolDef>, name: &str, description: &str, input_schema: &str)
    ensures
        tool_views(final(tools)@) == tool_views(old(tools)@).push((name@, description@, input_schema@)),
{
    let ghost before = tool_views(tools@);
    tools.push(tool(name, description, input_schema));
    assert(tool_views(tools@) =~= before.push((name@, description@, input_schema@)));
}

/// The tool definitions advertised to the agent (see [`advertised_tools`]):
/// `has_duckdb` adds `run_query` and `overview`, `has_code` adds
/// `list_files` and `read_code`, `has_wiki` adds the three wiki tools.
pub fn tool_definitions(has_duckdb: bool, has_code: bool, has_wiki: bool) -> (r: Vec<ToolDef>)
    ensures
        tool_views(r@) == advertised_tools(has_duckdb, has_code, has_wiki),
{
    let mut tools: Vec<ToolDef> = Vec::new();
    let ghost mut expect: Seq<ToolView> = seq![];
    assert(tool_views(tools@) =~= expect);

    if has_duckdb {
        push_tool(&mut tools, RUN_QUERY_NAME, RUN_QUERY_DESCRIPTION, RUN_QUERY_SCHEMA);
        push_tool(&mut tools, OVERVIEW_NAME, OVERVIEW_DESCRIPTION, OVERVIEW_SCHEMA);
    }

    assert(tool_views(tools@) =~= (if has_duckdb { seq![run_query_tool(), overview_tool()] } else { seq![] }));

    if has_code {
        push_tool(&mut tools, LIST_FILES_NAME, LIST_FILES_DESCRIPTION, LIST_FILES_SCHEMA);
        push_tool(&mut tools, READ_CODE_NAME, READ_CODE_DESCRIPTION, READ_CODE_SCHEMA);
    }

    assert(tool_views(tools@) =~= (if has_duckdb { seq![run_query_tool(), overview_tool()] } else { seq![] }) + (if has_code { seq![list_files_tool(), read_code_tool()] } else { seq![] }));

    if has_wiki {
        push_tool(&mut tools, WIKI_INDEX_NAME, WIKI_INDEX_DESCRIPTION, WIKI_INDEX_SCHEMA);
        push_tool(&mut tools, WIKI_READ_NAME, WIKI_READ_DESCRIPTION, WIKI_READ_SCHEMA);
        push_tool(&mut tools, WIKI_SEARCH_NAME, WIKI_SEARCH_DESCRIPTION, WIKI_SEARCH_SCHEMA);
    }

    assert(tool_views(tools@) =~= (if has_duckdb { seq![run_query_tool(), overview_tool()] } else { seq![] }) + (if has_code { seq![list_files_tool(), read_code_tool()] } else { seq![] }) + (if has_wiki { seq![wiki_index_tool(), wiki_read_tool(), wiki_search_tool()] } else { seq![] }));

    push_tool(&mut tools, SCREENSHOT_NAME, SCREENSHOT_DESCRIPTION, SCREENSHOT_SCHEMA);
    push_tool(&mut tools, ZOOM_TO_NAME, ZOOM_TO_DESCRIPTION, ZOOM_TO_SCHEMA);
    push_tool(&mut tools, PAN_NAME, PAN_DESCRIPTION, PAN_SCHEMA);
    push_tool(&mut tools, SCROLL_TO_NAME, SCROLL_TO_DESCRIPTION, SCROLL_TO_SCHEMA);
    push_tool(&mut tools, SET_VIEW_NAME, SET_VIEW_DESCRIPTION, SET_VIEW_SCHEMA);
    push_tool(&mut tools, SEARCH_NAME, SEARCH_DESCRIPTION, SEARCH_SCHEMA);
    push_tool(&mut tools, RESET_VIEW_NAME, RESET_VIEW_DESCRIPTION, RESET_VIEW_SCHEMA);
    push_tool(&mut tools, HIGHLIGHT_NAME, HIGHLIGHT_DESCRIPTION, HIGHLIGHT_SCHEMA);
    push_tool(&mut tools, ASK_USER_NAME, ASK_USER_DESCRIPTION, ASK_USER_SCHEMA);
    push_tool(&mut tools, CLEAR_HIGHLIGHTS_NAME, CLEAR_HIGHLIGHTS_DESCRIPTION, CLEAR_HIGHLIGHTS_SCHEMA);
    push_tool(&mut tools, UPDATE_FINDINGS_NAME, UPDATE_FINDINGS_DESCRIPTION, UPDATE_FINDINGS_SCHEMA);

    assert(tool_views(tools@) =~= advertised_tools(has_duckdb, has_code, has_wiki));
    tools
}

} // verus!
