//! The decisions of the persistent-agent trial run: what each line the agent
//! prints means, what a turn showed, and the verdict over two turns (tool
//! round trip, approval without a prompt, a second turn on the same input,
//! and no built-in tool used).

use vstd::prelude::*;
use crate::json::{json_field, json_get, json_parse, json_str, parse_json, JsonValue};
use crate::text::{chars_eq, chars_of, contains, contains_chars, push_str, starts_with, starts_with_chars, string_of};

verus! {

broadcast use vstd::string::group_string_axioms;

/// What one printed line is.
pub enum Ev {
    /// An assistant message, with the names of the tools it calls.
    Assistant(Vec<String>),
    /// A tool result came back.
    ToolResult,
    /// The end of a turn, with its subtype.
    Result(String),
    /// A system message.
    System,
    /// A control request (its subtype, or `cancel`).
    Control(String),
    /// Any other message type.
    Other(String),
    /// Not JSON.
    Unparseable,
}

/// The names of the `tool_use` blocks among `items` that have a string name.
pub open spec fn tool_use_names(items: Seq<JsonValue>) -> Seq<Seq<char>>
    decreases items.len(),
{
    if items.len() == 0 {
        seq![]
    } else {
        let b = items.last();
        let rest = tool_use_names(items.drop_last());
        if json_str(json_field(b, "type"@)) == Some("tool_use"@) && json_str(json_field(b, "name"@)) is Some {
            rest.push(json_str(json_field(b, "name"@))->Some_0)
        } else {
            rest
        }
    }
}

/// The content blocks of a message (`/message/content`), when an array.
pub open spec fn message_content(v: JsonValue) -> Option<Seq<JsonValue>> {
    match json_field(v, "message"@) {
        Some(m) => match json_field(m, "content"@) {
            Some(JsonValue::Array { items, .. }) => Some(items@),
            _ => None,
        },
        None => None,
    }
}

/// Some block among `items` is a `tool_result`.
pub open spec fn has_tool_result(items: Seq<JsonValue>) -> bool {
    exists|k: int| 0 <= k < items.len() && json_str(json_field(#[trigger] items[k], "type"@)) == Some("tool_result"@)
}

/// A string field of a nested object, or `""`.
pub open spec fn str_or_empty(v: Option<JsonValue>) -> Seq<char> {
    match json_str(v) {
        Some(s) => s,
        None => seq![],
    }
}

/// The texts of a sequence of strings.
pub open spec fn names_view(v: Seq<String>) -> Seq<Seq<char>> {
    v.map_values(|s: String| s@)
}

/// What a line means, as plain values: a tag and its text or names.
pub enum EvView {
    Assistant(Seq<Seq<char>>),
    ToolResult,
    Result(Seq<char>),
    System,
    Control(Seq<char>),
    Other(Seq<char>),
    Unparseable,
}

impl Ev {
    pub open spec fn ev_view(&self) -> EvView {
        match self {
            Ev::Assistant(v) => EvView::Assistant(names_view(v@)),
            Ev::ToolResult => EvView::ToolResult,
            Ev::Result(s) => EvView::Result(s@),
            Ev::System => EvView::System,
            Ev::Control(s) => EvView::Control(s@),
            Ev::Other(s) => EvView::Other(s@),
            Ev::Unparseable => EvView::Unparseable,
        }
    }
}

/// The meaning of a line, given it parsed as JSON (`None` when it did not).
pub open spec fn classify_spec(line: Option<JsonValue>) -> EvView {
    match line {
        None => EvView::Unparseable,
        Some(v) => match json_str(json_field(v, "type"@)) {
            None => EvView::Other("<no-type>"@),
            Some(t) => if t == "assistant"@ {
                EvView::Assistant(
                    match message_content(v) {
                        Some(items) => tool_use_names(items),
                        None => seq![],
                    },
                )
            } else if t == "user"@ {
                if message_content(v) matches Some(items) && has_tool_result(items) {
                    EvView::ToolResult
                } else {
                    EvView::Other("user"@)
                }
            } else if t == "result"@ {
                EvView::Result(str_or_empty(json_field(v, "subtype"@)))
            } else if t == "system"@ {
                EvView::System
            } else if t == "control_request"@ {
                EvView::Control(
                    match json_field(v, "request"@) {
                        Some(r) => str_or_empty(json_field(r, "subtype"@)),
                        None => seq![],
                    },
                )
            } else if t == "control_cancel_request"@ {
                EvView::Control("cancel"@)
            } else {
                EvView::Other(t)
            },
        },
    }
}

fn text_is(s: &str, lit: &str) -> (r: bool)
    ensures
        r == (s@ == lit@),
{
    chars_eq(chars_of(s).as_slice(), chars_of(lit).as_slice())
}

fn own(s: &str) -> (r: String)
    ensures
        r@ == s@,
{
    string_of(chars_of(s).as_slice())
}

fn str_field(v: Option<&JsonValue>) -> (r: String)
    ensures
        r@ == str_or_empty(
            match v {
                Some(x) => Some(*x),
                None => None,
            },
        ),
{
    match v {
        Some(JsonValue::Str(s)) => own(s.as_str()),
        _ => String::new(),
    }
}

fn content_items(v: &JsonValue) -> (r: Option<&Vec<JsonValue>>)
    ensures
        match r {
            Some(items) => message_content(*v) == Some(items@),
            None => message_content(*v) is None,
        },
{
    match json_get(v, "message") {
        Some(m) => match json_get(m, "content") {
            Some(JsonValue::Array { items, .. }) => Some(items),
            _ => None,
        },
        None => None,
    }
}

/// What a printed line means: [`classify_parsed`] of what the line parses
/// to as JSON.
pub fn classify(line: &str) -> (r: Ev)
    ensures
        r.ev_view() == classify_spec(json_parse(line@)),
{
    let parsed = parse_json(line);
    match &parsed {
        Some(v) => classify_parsed(Some(v)),
        None => classify_parsed(None),
    }
}

/// What a printed line means, given the line parsed as JSON (`None` when it
/// is not JSON).
pub fn classify_parsed(line: Option<&JsonValue>) -> (r: Ev)
    ensures
        r.ev_view() == classify_spec(
            match line {
                Some(v) => Some(*v),
                None => None,
            },
        ),
{
    let v = match line {
        None => return Ev::Unparseable,
        Some(v) => v,
    };
    let t = match json_get(v, "type") {
        Some(JsonValue::Str(s)) => s,
        _ => {
            proof {
                reveal_strlit("<no-type>");
            }
            return Ev::Other(own("<no-type>"));
        },
    };
    if text_is(t.as_str(), "assistant") {
        let mut names: Vec<String> = Vec::new();
        match content_items(v) {
            Some(items) => {
                let ghost all = items@;
                let mut j: usize = 0;
                assert(all.take(0) =~= Seq::<JsonValue>::empty());
                while j < items.len()
                    invariant
                        j <= all.len(),
                        all == items@,
                        names_view(names@) == tool_use_names(all.take(j as int)),
                    decreases all.len() - j,
                {
                    assert(all.take(j + 1).drop_last() =~= all.take(j as int));
                    assert(all.take(j + 1).last() == all[j as int]);
                    let b = &items[j];
                    let is_use = match json_get(b, "type") {
                        Some(JsonValue::Str(s)) => text_is(s.as_str(), "tool_use"),
                        _ => false,
                    };
                    if is_use {
                        match json_get(b, "name") {
                            Some(JsonValue::Str(n)) => {
                                let ghost before = names_view(names@);
                                names.push(own(n.as_str()));
                                assert(names_view(names@) =~= before.push(n@));
                            },
                            _ => {},
                        }
                    }
                    j = j + 1;
                }
                assert(all.take(all.len() as int) =~= all);
            },
            None => {
                assert(names_view(names@) =~= Seq::<Seq<char>>::empty());
            },
        }
        return Ev::Assistant(names);
    }
    if text_is(t.as_str(), "user") {
        let mut has = false;
        match content_items(v) {
            Some(items) => {
                let mut j: usize = 0;
                while j < items.len()
                    invariant
                        j <= items@.len(),
                        has == exists|k: int| 0 <= k < j && json_str(json_field(#[trigger] items@[k], "type"@)) == Some("tool_result"@),
                    decreases items@.len() - j,
                {
                    let hit = match json_get(&items[j], "type") {
                        Some(JsonValue::Str(s)) => text_is(s.as_str(), "tool_result"),
                        _ => false,
                    };
                    if hit {
                        has = true;
                    }
                    j = j + 1;
                }
            },
            None => {},
        }
        if has {
            return Ev::ToolResult;
        }
        return Ev::Other(own("user"));
    }
    if text_is(t.as_str(), "result") {
        return Ev::Result(str_field(json_get(v, "subtype")));
    }
    if text_is(t.as_str(), "system") {
        return Ev::System;
    }
    if text_is(t.as_str(), "control_request") {
        let sub = match json_get(v, "request") {
            Some(r) => str_field(json_get(r, "subtype")),
            None => String::new(),
        };
        return Ev::Control(sub);
    }
    if text_is(t.as_str(), "control_cancel_request") {
        return Ev::Control(own("cancel"));
    }
    Ev::Other(own(t.as_str()))
}

/// The name under which a line's kind is sampled once.
pub open spec fn shape_key_spec(e: EvView) -> Seq<char> {
    match e {
        EvView::Assistant(_) => "assistant"@,
        EvView::ToolResult => "tool_result"@,
        EvView::Result(_) => "result"@,
        EvView::System => "system"@,
        EvView::Control(_) => "control"@,
        EvView::Other(t) => t,
        EvView::Unparseable => "unparseable"@,
    }
}

/// The name under which a line's kind is sampled once.
pub fn shape_key(e: &Ev) -> (r: String)
    ensures
        r@ == shape_key_spec(e.ev_view()),
{
    match e {
        Ev::Assistant(_) => own("assistant"),
        Ev::ToolResult => own("tool_result"),
        Ev::Result(_) => own("result"),
        Ev::System => own("system"),
        Ev::Control(_) => own("control"),
        Ev::Other(t) => own(t.as_str()),
        Ev::Unparseable => own("unparseable"),
    }
}

// ───────────────────────────── one turn ─────────────────────────────

/// The viewer's tools that the trial allows.
pub open spec fn is_allowed_viewer_tool(t: Seq<char>) -> bool {
    t == "mcp__legion-viewer__run_query"@ || t == "mcp__legion-viewer__overview"@
}

/// The agent's own tools that must stay off.
pub open spec fn is_denied_builtin(t: Seq<char>) -> bool {
    t == "Bash"@ || t == "Edit"@ || t == "Write"@ || t == "Read"@ || t == "WebFetch"@ || t
        == "WebSearch"@ || t == "NotebookEdit"@ || t == "Glob"@ || t == "Grep"@ || t == "Task"@
        || t == "TodoWrite"@ || t == "MultiEdit"@ || t == "KillShell"@ || t == "BashOutput"@
}

/// A call of a viewer tool.
pub open spec fn is_viewer_call(t: Seq<char>) -> bool {
    is_allowed_viewer_tool(t) || starts_with(t, "mcp__legion-viewer__"@)
}

/// A control request about tool permission (approval not granted).
pub open spec fn is_permission_control(sub: Seq<char>) -> bool {
    contains(sub, "permission"@) || contains(sub, "tool"@) || contains(sub, "can_use"@)
}

/// A line that shows the agent is not logged in.
pub open spec fn shows_auth_failure(line: Seq<char>) -> bool {
    contains(line, "\"api_error_status\":401"@) || contains(line, "authentication_failed"@)
}

/// What one turn showed.
pub struct TurnOutcome {
    pub saw_viewer_tool: bool,
    pub saw_builtin_tool: bool,
    pub saw_permission_event: bool,
    pub saw_result: bool,
    pub stalled: bool,
    pub exited: bool,
    pub auth_failed: bool,
    pub lines: usize,
}

impl TurnOutcome {
    /// A turn before any line.
    pub fn new() -> (r: Self)
        ensures
            !r.saw_viewer_tool && !r.saw_builtin_tool && !r.saw_permission_event && !r.saw_result
                && !r.stalled && !r.exited && !r.auth_failed && r.lines == 0,
    {
        TurnOutcome {
            saw_viewer_tool: false,
            saw_builtin_tool: false,
            saw_permission_event: false,
            saw_result: false,
            stalled: false,
            exited: false,
            auth_failed: false,
            lines: 0,
        }
    }

    /// A turn that never started because its input could not be written:
    /// as if the agent had exited.
    pub fn not_sent() -> (r: Self)
        ensures
            !r.saw_viewer_tool && !r.saw_builtin_tool && !r.saw_permission_event && !r.saw_result
                && !r.stalled && r.exited && !r.auth_failed && r.lines == 0,
    {
        TurnOutcome {
            saw_viewer_tool: false,
            saw_builtin_tool: false,
            saw_permission_event: false,
            saw_result: false,
            stalled: false,
            exited: true,
            auth_failed: false,
            lines: 0,
        }
    }
}

fn viewer_call(t: &str) -> (r: bool)
    ensures
        r == is_viewer_call(t@),
{
    text_is(t, "mcp__legion-viewer__run_query") || text_is(t, "mcp__legion-viewer__overview")
        || starts_with_chars(chars_of(t).as_slice(), chars_of("mcp__legion-viewer__").as_slice())
}

fn denied_builtin(t: &str) -> (r: bool)
    ensures
        r == is_denied_builtin(t@),
{
    text_is(t, "Bash") || text_is(t, "Edit") || text_is(t, "Write") || text_is(t, "Read") || text_is(
        t,
        "WebFetch",
    ) || text_is(t, "WebSearch") || text_is(t, "NotebookEdit") || text_is(t, "Glob") || text_is(
        t,
        "Grep",
    ) || text_is(t, "Task") || text_is(t, "TodoWrite") || text_is(t, "MultiEdit") || text_is(
        t,
        "KillShell",
    ) || text_is(t, "BashOutput")
}

fn has_text(s: &str, p: &str) -> (r: bool)
    ensures
        r == contains(s@, p@),
{
    contains_chars(chars_of(s).as_slice(), chars_of(p).as_slice())
}

/// How a turn stands after one more line.
pub open spec fn observe_spec(o: TurnOutcome, line: Seq<char>, e: EvView) -> TurnOutcome {
    let o1 = TurnOutcome {
        lines: (o.lines + 1) as usize,
        auth_failed: o.auth_failed || shows_auth_failure(line),
        ..o
    };
    match e {
        EvView::Assistant(tools) => TurnOutcome {
            saw_viewer_tool: o1.saw_viewer_tool || exists|k: int| 0 <= k < tools.len() && is_viewer_call(#[trigger] tools[k]),
            saw_builtin_tool: o1.saw_builtin_tool || exists|k: int|
                0 <= k < tools.len() && !is_viewer_call(tools[k]) && is_denied_builtin(#[trigger] tools[k]),
            ..o1
        },
        EvView::Result(_) => TurnOutcome { saw_result: true, ..o1 },
        EvView::Control(sub) => TurnOutcome {
            saw_permission_event: o1.saw_permission_event || is_permission_control(sub),
            ..o1
        },
        _ => o1,
    }
}

/// Takes one line of a turn into account (the line's text and its meaning):
/// counts it, notes a login failure, notes viewer and built-in tool calls,
/// the turn's end, and tool-permission requests. `true` when the turn has
/// ended.
pub fn observe(o: &mut TurnOutcome, line: &str, e: &Ev) -> (done: bool)
    requires
        old(o).lines < usize::MAX,
    ensures
        *final(o) == observe_spec(*old(o), line@, e.ev_view()),
        done == (e.ev_view() is Result),
{
    o.lines = o.lines + 1;
    if has_text(line, "\"api_error_status\":401") || has_text(line, "authentication_failed") {
        o.auth_failed = true;
    }
    match e {
        Ev::Assistant(tools) => {
            let ghost tv = names_view(tools@);
            let ghost v0 = o.saw_viewer_tool;
            let ghost b0 = o.saw_builtin_tool;
            let ghost o0 = *o;
            let mut k: usize = 0;
            while k < tools.len()
                invariant
                    k <= tools@.len(),
                    tv == names_view(tools@),
                    o.lines == o0.lines && o.auth_failed == o0.auth_failed && o.saw_result == o0.saw_result
                        && o.saw_permission_event == o0.saw_permission_event && o.stalled == o0.stalled
                        && o.exited == o0.exited,
                    o.saw_viewer_tool == (v0 || exists|q: int| 0 <= q < k && is_viewer_call(#[trigger] tv[q])),
                    o.saw_builtin_tool == (b0 || exists|q: int|
                        0 <= q < k && !is_viewer_call(tv[q]) && is_denied_builtin(#[trigger] tv[q])),
                decreases tools@.len() - k,
            {
                assert(tv[k as int] == tools@[k as int]@);
                if viewer_call(tools[k].as_str()) {
                    o.saw_viewer_tool = true;
                } else if denied_builtin(tools[k].as_str()) {
                    o.saw_builtin_tool = true;
                }
                k = k + 1;
            }
            proof {
                let sp = observe_spec(*old(o), line@, e.ev_view());
                assert(e.ev_view() == EvView::Assistant(tv));
                assert(o.lines == sp.lines);
                assert(o.auth_failed == sp.auth_failed);
                assert(o.saw_viewer_tool == sp.saw_viewer_tool);
                assert(o.saw_builtin_tool == sp.saw_builtin_tool);
                assert(o.saw_result == sp.saw_result);
            }
            false
        },
        Ev::Result(_) => {
            o.saw_result = true;
            true
        },
        Ev::Control(sub) => {
            if has_text(sub.as_str(), "permission") || has_text(sub.as_str(), "tool") || has_text(sub.as_str(), "can_use") {
                o.saw_permission_event = true;
            }
            false
        },
        _ => false,
    }
}

// ───────────────────────────── the verdict ─────────────────────────────

/// The tool round trip and approval check.
pub enum CdState {
    /// The agent is not logged in: nothing could be decided.
    Inconclusive,
    Pass,
    Fail,
}

/// The verdict over the two turns.
pub struct TrialVerdict {
    /// The second turn, on the same input, produced output.
    pub persistent: bool,
    /// No built-in tool was used.
    pub lockdown_held: bool,
    /// The first turn's viewer-tool round trip without a permission prompt.
    pub round_trip: CdState,
    /// Some turn showed a login failure.
    pub auth_failed: bool,
    /// The trial passes.
    pub passed: bool,
}

/// The round-trip check of the first turn.
pub open spec fn round_trip_spec(auth_failed: bool, t1: TurnOutcome) -> CdState {
    if auth_failed {
        CdState::Inconclusive
    } else if t1.saw_viewer_tool && t1.saw_result && !t1.saw_permission_event && !t1.stalled {
        CdState::Pass
    } else {
        CdState::Fail
    }
}

/// What the trial concludes: persistence (the second turn ended, called a viewer
/// tool, or printed lines without the agent exiting after a good write),
/// lockdown (no built-in tool in either turn), and the first turn's round
/// trip unless the agent was not logged in; the trial passes when all
/// three hold.
pub fn trial_verdict(t1: &TurnOutcome, t2: &TurnOutcome, turn2_written: bool) -> (r: TrialVerdict)
    ensures
        r.auth_failed == (t1.auth_failed || t2.auth_failed),
        r.persistent == (t2.saw_result || t2.saw_viewer_tool || (turn2_written && t2.lines > 0 && !t2.exited)),
        r.lockdown_held == (!t1.saw_builtin_tool && !t2.saw_builtin_tool),
        r.round_trip == round_trip_spec(r.auth_failed, *t1),
        r.passed == (r.persistent && r.lockdown_held && r.round_trip is Pass),
{
    let auth_failed = t1.auth_failed || t2.auth_failed;
    let persistent = t2.saw_result || t2.saw_viewer_tool || (turn2_written && t2.lines > 0 && !t2.exited);
    let lockdown_held = !t1.saw_builtin_tool && !t2.saw_builtin_tool;
    let round_trip = if auth_failed {
        CdState::Inconclusive
    } else if t1.saw_viewer_tool && t1.saw_result && !t1.saw_permission_event && !t1.stalled {
        CdState::Pass
    } else {
        CdState::Fail
    };
    let passed = persistent && lockdown_held && match round_trip {
        CdState::Pass => true,
        _ => false,
    };
    TrialVerdict { persistent, lockdown_held, round_trip, auth_failed, passed }
}

/// `PASS` or `FAIL`.
pub fn pass_fail(b: bool) -> (r: &'static str)
    ensures
        r@ == if b {
            "PASS"@
        } else {
            "FAIL"@
        },
{
    if b {
        "PASS"
    } else {
        "FAIL"
    }
}

} // verus!
