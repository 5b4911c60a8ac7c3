//! Reading an agent's streamed transcript (one JSON message per line): the
//! tools it called, in order, and the last answer it gave through the
//! `final_answer` tool, with the answer's value as comparison text.

use vstd::prelude::*;
use crate::json::{json_field, json_get, json_parse, json_str, parse_json, JsonValue};
use crate::text::{chars_eq, chars_of, lines, lines_of, push_str, slice_copy, starts_with, starts_with_chars, string_of, trim, trim_chars, views};

verus! {

broadcast use vstd::string::group_string_axioms;

// ───────────────────────────── answer values ─────────────────────────────

/// An answer value as comparison text: a string as it is, a number as
/// written, `true`/`false`, nothing for null, an array's items joined with
/// commas, an object as its JSON text.
pub open spec fn value_text(v: JsonValue) -> Seq<char>
    decreases v, 1nat,
{
    match v {
        JsonValue::Str(s) => s@,
        JsonValue::Number { text, .. } => text@,
        JsonValue::Bool(b) => if b {
            "true"@
        } else {
            "false"@
        },
        JsonValue::Null => seq![],
        JsonValue::Array { items, .. } => {
            proof {
                assert(decreases_to!(v => items));
                assert(decreases_to!(items => items@));
            }
            items_text(items@)
        },
        JsonValue::Object { text, .. } => text@,
    }
}

/// The comparison texts of `items`, joined with commas.
pub open spec fn items_text(items: Seq<JsonValue>) -> Seq<char>
    decreases items, 0nat,
{
    if items.len() == 0 {
        seq![]
    } else if items.len() == 1 {
        proof {
            assert(decreases_to!(items => items[0]));
        }
        value_text(items[0])
    } else {
        proof {
            assert(decreases_to!(items => items[items.len() - 1]));
        }
        items_text(items.drop_last()) + seq![','] + value_text(items[items.len() - 1])
    }
}

/// An answer value as comparison text (see [`value_text`]).
pub fn value_to_string(v: &JsonValue) -> (r: String)
    ensures
        r@ == value_text(*v),
    decreases v,
{
    match v {
        JsonValue::Str(s) => string_of(chars_of(s.as_str()).as_slice()),
        JsonValue::Number { text, .. } => string_of(chars_of(text.as_str()).as_slice()),
        JsonValue::Bool(b) => {
            proof {
                reveal_strlit("true");
                reveal_strlit("false");
            }
            if *b {
                string_of(chars_of("true").as_slice())
            } else {
                string_of(chars_of("false").as_slice())
            }
        },
        JsonValue::Null => String::new(),
        JsonValue::Array { items, .. } => {
            let mut out = String::new();
            let mut k: usize = 0;
            assert(items@.take(0) =~= Seq::<JsonValue>::empty());
            assert(decreases_to!(*v => *items));
            while k < items.len()
                invariant
                    k <= items@.len(),
                    decreases_to!(*v => *items),
                    out@ == items_text(items@.take(k as int)),
                decreases items@.len() - k,
            {
                proof {
                    assert(decreases_to!(*items => items@));
                    assert(decreases_to!(items@ => items@[k as int]));
                }
                let t = value_to_string(&items[k]);
                let ghost before = out@;
                if k > 0 {
                    push_str(&mut out, ",");
                    proof {
                        reveal_strlit(",");
                    }
                }
                push_str(&mut out, t.as_str());
                proof {
                    let s = items@.take(k + 1);
                    assert(s.drop_last() =~= items@.take(k as int));
                    assert(s[s.len() - 1] == items@[k as int]);
                    if k == 0 {
                        assert(out@ =~= value_text(items@[0]));
                    } else {
                        assert(out@ =~= before + seq![','] + value_text(items@[k as int]));
                    }
                }
                k = k + 1;
            }
            assert(items@.take(items@.len() as int) =~= items@);
            out
        },
        JsonValue::Object { text, .. } => string_of(chars_of(text.as_str()).as_slice()),
    }
}

// ───────────────────────────── the transcript ─────────────────────────────

/// `v` is an object whose `type` is `t`.
pub open spec fn is_type(v: JsonValue, t: Seq<char>) -> bool {
    json_str(json_field(v, "type"@)) == Some(t)
}

/// The positions, in `items`, of the `tool_use` blocks.
pub open spec fn tool_positions(items: Seq<JsonValue>) -> Seq<int>
    decreases items.len(),
{
    if items.len() == 0 {
        seq![]
    } else if is_type(items.last(), "tool_use"@) {
        tool_positions(items.drop_last()).push(items.len() - 1)
    } else {
        tool_positions(items.drop_last())
    }
}

/// The content blocks of an assistant message line, if it is one.
pub open spec fn assistant_content(line: Option<JsonValue>) -> Option<Seq<JsonValue>> {
    match line {
        Some(v) => if is_type(v, "assistant"@) {
            match json_field(v, "message"@) {
                Some(m) => match json_field(m, "content"@) {
                    Some(JsonValue::Array { items, .. }) => Some(items@),
                    _ => None,
                },
                None => None,
            }
        } else {
            None
        },
        None => None,
    }
}

/// A tool call of a transcript: its line and its position among the
/// line's content blocks.
pub type CallPos = (int, int);

/// The tool calls of one line, in order.
pub open spec fn line_calls(lines: Seq<Option<JsonValue>>, i: int) -> Seq<CallPos> {
    match assistant_content(lines[i]) {
        Some(items) => tool_positions(items).map_values(|j: int| (i, j)),
        None => seq![],
    }
}

/// The tool calls of the first `n` lines, in order.
pub open spec fn calls_upto(lines: Seq<Option<JsonValue>>, n: int) -> Seq<CallPos>
    decreases n,
{
    if n <= 0 {
        seq![]
    } else {
        calls_upto(lines, n - 1) + line_calls(lines, n - 1)
    }
}

/// The tool calls of a transcript, in order.
pub open spec fn tool_calls(lines: Seq<Option<JsonValue>>) -> Seq<CallPos> {
    calls_upto(lines, lines.len() as int)
}

/// The content block at a call position.
pub open spec fn block_at(lines: Seq<Option<JsonValue>>, p: CallPos) -> JsonValue {
    assistant_content(lines[p.0])->Some_0[p.1]
}

/// The prefix the agent's own tool names carry.
pub open spec fn server_prefix() -> Seq<char> {
    "mcp__legion__"@
}

/// A tool call's name without the server prefix (`""` when it has none).
pub open spec fn short_name(block: JsonValue) -> Seq<char> {
    let name = match json_str(json_field(block, "name"@)) {
        Some(n) => n,
        None => seq![],
    };
    if starts_with(name, server_prefix()) {
        name.skip(server_prefix().len() as int)
    } else {
        name
    }
}

/// A call that answers: a `final_answer` call with an `input`.
pub open spec fn is_answer(block: JsonValue) -> bool {
    short_name(block) == "final_answer"@ && json_field(block, "input"@) is Some
}

/// The last answering call among `calls`.
pub open spec fn last_answer(lines: Seq<Option<JsonValue>>, calls: Seq<CallPos>) -> Option<CallPos>
    decreases calls.len(),
{
    if calls.len() == 0 {
        None
    } else if is_answer(block_at(lines, calls.last())) {
        Some(calls.last())
    } else {
        last_answer(lines, calls.drop_last())
    }
}

/// An answer's declared type (`""` when it has none).
pub open spec fn answer_type_of(block: JsonValue) -> Seq<char> {
    match json_str(json_field(json_field(block, "input"@)->Some_0, "answer_type"@)) {
        Some(t) => t,
        None => seq![],
    }
}

/// An answer's value (null when it has none).
pub open spec fn answer_value_of(block: JsonValue) -> JsonValue {
    match json_field(json_field(block, "input"@)->Some_0, "value"@) {
        Some(x) => x,
        None => JsonValue::Null,
    }
}

/// The agent's answer: its declared type, its value as comparison text,
/// and where the call stands (line, content block).
pub struct FinalAnswer {
    pub answer_type: String,
    pub value_text: String,
    pub line: usize,
    pub block: usize,
}

/// What a transcript shows of a run.
pub struct AgentRun {
    pub final_answer: Option<FinalAnswer>,
    /// Tool names without the server prefix, in call order.
    pub tools_called: Vec<String>,
    /// How many tool calls were made.
    pub turns_used: usize,
    /// `no final_answer` when the agent never answered.
    pub error: Option<String>,
}

fn short_name_of(block: &JsonValue) -> (r: String)
    ensures
        r@ == short_name(*block),
{
    let name: Vec<char> = match json_get(block, "name") {
        Some(JsonValue::Str(s)) => chars_of(s.as_str()),
        _ => Vec::new(),
    };
    let prefix = chars_of("mcp__legion__");
    if starts_with_chars(name.as_slice(), prefix.as_slice()) {
        string_of(slice_copy(name.as_slice(), prefix.len(), name.len()).as_slice())
    } else {
        string_of(name.as_slice())
    }
}

fn is_type_of(v: &JsonValue, t: &str) -> (r: bool)
    ensures
        r == is_type(*v, t@),
{
    match json_get(v, "type") {
        Some(JsonValue::Str(s)) => chars_eq(chars_of(s.as_str()).as_slice(), chars_of(t).as_slice()),
        _ => false,
    }
}

fn content_of(line: &Option<JsonValue>) -> (r: Option<&Vec<JsonValue>>)
    ensures
        match r {
            Some(items) => assistant_content(*line) == Some(items@),
            None => assistant_content(*line) is None,
        },
{
    match line {
        Some(v) => {
            if !is_type_of(v, "assistant") {
                return None;
            }
            match json_get(v, "message") {
                Some(m) => match json_get(m, "content") {
                    Some(JsonValue::Array { items, .. }) => Some(items),
                    _ => None,
                },
                None => None,
            }
        },
        None => None,
    }
}

/// A transcript line as JSON: nothing for a blank line, else what the
/// trimmed line parses to.
pub open spec fn parsed_line(l: Seq<char>) -> Option<JsonValue> {
    if trim(l).len() == 0 {
        None
    } else {
        json_parse(trim(l))
    }
}

/// The lines of a transcript as JSON.
pub open spec fn parsed_lines(t: Seq<char>) -> Seq<Option<JsonValue>> {
    lines(t).map_values(|l: Seq<char>| parsed_line(l))
}

/// `r` is what the parsed lines show of a run: every `tool_use` block of
/// every assistant message is a call, in order; the answer is the last
/// `final_answer` call with an input, and without one the run is in error.
pub open spec fn shows_run(lines: Seq<Option<JsonValue>>, r: AgentRun) -> bool {
    &&& r.tools_called@.len() == tool_calls(lines).len()
    &&& forall|k: int| 0 <= k < r.tools_called@.len() ==> #[trigger] r.tools_called@[k]@ == short_name(
        block_at(lines, tool_calls(lines)[k]),
    )
    &&& r.turns_used == tool_calls(lines).len()
    &&& match last_answer(lines, tool_calls(lines)) {
        Some(p) => r.final_answer matches Some(fa) && fa.line == p.0 && fa.block == p.1
            && fa.answer_type@ == answer_type_of(block_at(lines, p)) && fa.value_text@ == value_text(
            answer_value_of(block_at(lines, p)),
        ) && r.error is None,
        None => r.final_answer is None && (r.error matches Some(e) && e@ == "no final_answer"@),
    }
}

/// Reads a streamed transcript (`stream-json` output, one message per
/// line): [`parse_stream_lines`] of its lines as JSON.
pub fn parse_stream_json(transcript: &str) -> (r: AgentRun)
    ensures
        shows_run(parsed_lines(transcript@), r),
{
    let text = chars_of(transcript);
    let ls = lines_of(text.as_slice());
    let mut parsed: Vec<Option<JsonValue>> = Vec::new();
    let mut i: usize = 0;
    while i < ls.len()
        invariant
            i <= ls@.len(),
            views(ls@) == lines(transcript@),
            parsed@ == parsed_lines(transcript@).take(i as int),
        decreases ls@.len() - i,
    {
        let t = trim_chars(ls[i].as_slice());
        let p = if t.len() == 0 {
            None
        } else {
            parse_json(string_of(t.as_slice()).as_str())
        };
        assert(views(ls@)[i as int] == ls@[i as int]@);
        assert(p == parsed_line(lines(transcript@)[i as int]));
        parsed.push(p);
        assert(parsed@ =~= parsed_lines(transcript@).take(i + 1));
        i = i + 1;
    }
    assert(parsed@ =~= parsed_lines(transcript@));
    parse_stream_lines(&parsed)
}

/// Reads a streamed transcript, given each line as parsed JSON (`None`
/// for a line that is blank or not JSON): every `tool_use` block of every
/// assistant message counts as a call; the answer is the last
/// `final_answer` call that has an input; without one the run is in error.
pub fn parse_stream_lines(lines: &Vec<Option<JsonValue>>) -> (r: AgentRun)
    ensures
        r.tools_called@.len() == tool_calls(lines@).len(),
        forall|k: int| 0 <= k < r.tools_called@.len() ==> #[trigger] r.tools_called@[k]@ == short_name(
            block_at(lines@, tool_calls(lines@)[k]),
        ),
        r.turns_used == tool_calls(lines@).len(),
        match last_answer(lines@, tool_calls(lines@)) {
            Some(p) => r.final_answer matches Some(fa) && fa.line == p.0 && fa.block == p.1
                && fa.answer_type@ == answer_type_of(block_at(lines@, p)) && fa.value_text@ == value_text(
                answer_value_of(block_at(lines@, p)),
            ) && r.error is None,
            None => r.final_answer is None && (r.error matches Some(e) && e@ == "no final_answer"@),
        },
{
    let mut tools: Vec<String> = Vec::new();
    let mut answer: Option<FinalAnswer> = None;
    let mut i: usize = 0;
    while i < lines.len()
        invariant
            i <= lines@.len(),
            tools@.len() == calls_upto(lines@, i as int).len(),
            forall|k: int| 0 <= k < tools@.len() ==> #[trigger] tools@[k]@ == short_name(
                block_at(lines@, calls_upto(lines@, i as int)[k]),
            ),
            match last_answer(lines@, calls_upto(lines@, i as int)) {
                Some(p) => answer matches Some(fa) && fa.line == p.0 && fa.block == p.1
                    && fa.answer_type@ == answer_type_of(block_at(lines@, p)) && fa.value_text@
                    == value_text(answer_value_of(block_at(lines@, p))),
                None => answer is None,
            },
        decreases lines@.len() - i,
    {
        let ghost before = calls_upto(lines@, i as int);
        match content_of(&lines[i]) {
            Some(items) => {
                let ghost all = items@;
                let mut j: usize = 0;
                assert(all.take(0) =~= Seq::<JsonValue>::empty());
                while j < items.len()
                    invariant
                        j <= all.len(),
                        all == items@,
                        i < lines@.len(),
                        assistant_content(lines@[i as int]) == Some(all),
                        before == calls_upto(lines@, i as int),
                        tools@.len() == before.len() + tool_positions(all.take(j as int)).len(),
                        forall|k: int| 0 <= k < tools@.len() ==> #[trigger] tools@[k]@ == short_name(
                            block_at(
                                lines@,
                                (before + tool_positions(all.take(j as int)).map_values(|q: int| (i as int, q)))[k],
                            ),
                        ),
                        match last_answer(
                            lines@,
                            before + tool_positions(all.take(j as int)).map_values(|q: int| (i as int, q)),
                        ) {
                            Some(p) => answer matches Some(fa) && fa.line == p.0 && fa.block == p.1
                                && fa.answer_type@ == answer_type_of(block_at(lines@, p)) && fa.value_text@
                                == value_text(answer_value_of(block_at(lines@, p))),
                            None => answer is None,
                        },
                    decreases all.len() - j,
                {
                    let ghost old_calls = before + tool_positions(all.take(j as int)).map_values(
                        |q: int| (i as int, q),
                    );
                    assert(all.take(j + 1).drop_last() =~= all.take(j as int));
                    assert(all.take(j + 1).last() == all[j as int]);
                    let block = &items[j];
                    if is_type_of(block, "tool_use") {
                        let ghost new_calls = before + tool_positions(all.take(j + 1)).map_values(
                            |q: int| (i as int, q),
                        );
                        assert(tool_positions(all.take(j + 1)) == tool_positions(all.take(j as int)).push(j as int));
                        assert(new_calls =~= old_calls.push((i as int, j as int)));
                        assert(new_calls.drop_last() =~= old_calls);
                        assert(new_calls.last() == (i as int, j as int));
                        assert(block_at(lines@, (i as int, j as int)) == *block);
                        let short = short_name_of(block);
                        let is_final = chars_eq(chars_of(short.as_str()).as_slice(), chars_of("final_answer").as_slice());
                        if is_final {
                            if let Some(input) = json_get(block, "input") {
                                let t = match json_get(input, "answer_type") {
                                    Some(JsonValue::Str(s)) => string_of(chars_of(s.as_str()).as_slice()),
                                    _ => String::new(),
                                };
                                let vt = match json_get(input, "value") {
                                    Some(x) => value_to_string(x),
                                    None => String::new(),
                                };
                                proof {
                                    assert(value_text(JsonValue::Null) == Seq::<char>::empty());
                                }
                                answer = Some(FinalAnswer { answer_type: t, value_text: vt, line: i, block: j });
                            }
                        }
                        let ghost old_tools = tools@;
                        tools.push(short);
                        assert forall|k: int| 0 <= k < tools@.len() implies #[trigger] tools@[k]@ == short_name(
                            block_at(lines@, new_calls[k]),
                        ) by {
                            if k < old_tools.len() {
                                assert(tools@[k] == old_tools[k]);
                                assert(new_calls[k] == old_calls[k]);
                            }
                        }
                    } else {
                        assert(tool_positions(all.take(j + 1)) == tool_positions(all.take(j as int)));
                    }
                    j = j + 1;
                }
                proof {
                    assert(all.take(all.len() as int) =~= all);
                    assert(line_calls(lines@, i as int) == tool_positions(all).map_values(|q: int| (i as int, q)));
                    assert(calls_upto(lines@, i + 1) == before + line_calls(lines@, i as int));
                }
            },
            None => {
                proof {
                    assert(line_calls(lines@, i as int) =~= Seq::<CallPos>::empty());
                    assert(calls_upto(lines@, i + 1) =~= before);
                }
            },
        }
        i = i + 1;
    }
    let n = tools.len();
    let error = match &answer {
        Some(_) => None,
        None => {
            proof {
                reveal_strlit("no final_answer");
            }
            Some(string_of(chars_of("no final_answer").as_slice()))
        },
    };
    AgentRun { final_answer: answer, tools_called: tools, turns_used: n, error }
}

} // verus!
