use legion_prof_viewer::json::JsonValue;
use serde_json::Value;
use legion_prof_viewer::transcript::{parse_stream_json, value_to_string, AgentRun};

/// A JSON document in the library's model.
fn model(v: &Value) -> JsonValue {
    match v {
        Value::Null => JsonValue::Null,
        Value::Bool(b) => JsonValue::Bool(*b),
        Value::Number(n) => JsonValue::Number { text: n.to_string(), as_u64: n.as_u64(), as_i64: n.as_i64() },
        Value::String(s) => JsonValue::Str(s.clone()),
        Value::Array(a) => JsonValue::Array { items: a.iter().map(model).collect(), text: v.to_string() },
        Value::Object(m) => JsonValue::Object {
            fields: m.iter().map(|(k, x)| (k.clone(), model(x))).collect(),
            text: v.to_string(),
        },
    }
}

/// Each line of a transcript, parsed as JSON where it is JSON.
fn parsed_lines(transcript: &str) -> Vec<Option<serde_json::Value>> {
    transcript.lines().map(|l| serde_json::from_str::<serde_json::Value>(l.trim()).ok()).collect()
}

fn parse(transcript: &str) -> (AgentRun, Vec<Option<serde_json::Value>>) {
    (parse_stream_json(transcript), parsed_lines(transcript))
}

#[test]
fn test_parse_stream_json_extracts_last_final_answer() {
    let transcript = r##"{"type":"system","subtype":"init"}
{"type":"assistant","message":{"content":[{"type":"tool_use","name":"mcp__legion__run_query","input":{"sql":"SELECT 1"}}]}}
{"type":"assistant","message":{"content":[{"type":"tool_use","name":"mcp__legion__final_answer","input":{"answer_type":"uid","value":48}}]}}
{"type":"result","subtype":"success"}
"##;
    let (run, raw) = parse(transcript);
    assert_eq!(run.turns_used, 2);
    assert_eq!(run.tools_called, vec!["run_query", "final_answer"]);
    let fa = run.final_answer.unwrap();
    let value = &raw[fa.line].as_ref().unwrap()["message"]["content"][fa.block]["input"]["value"];
    assert_eq!(*value, serde_json::Value::from(48));
    assert!(run.error.is_none());

    let (none, _) = parse(r#"{"type":"assistant","message":{"content":[{"type":"text","text":"hi"}]}}"#);
    assert_eq!(none.error.as_deref(), Some("no final_answer"));
}

#[test]
fn last_answer_wins_and_junk_is_skipped() {
    let transcript = r##"not json at all

{"type":"assistant","message":{"content":[{"type":"text","text":"thinking"},{"type":"tool_use","name":"mcp__legion__final_answer","input":{"answer_type":"set","value":["a",2,true]}},{"type":"tool_use","name":"overview"}]}}
{"type":"user","message":{"content":[{"type":"tool_use","name":"ignored"}]}}
{"type":"assistant","message":{"content":[{"type":"tool_use","name":"mcp__legion__final_answer"}]}}
{"type":"assistant","message":{"content":[{"type":"tool_use"}]}}
"##;
    let (run, _) = parse(transcript);
    assert_eq!(run.tools_called, vec!["final_answer", "overview", "final_answer", ""]);
    assert_eq!(run.turns_used, 4);
    let fa = run.final_answer.unwrap();
    assert_eq!((fa.line, fa.block), (2, 1));
    assert_eq!(fa.answer_type, "set");
    assert_eq!(fa.value_text, "a,2,true");
}

#[test]
fn answer_values_as_text() {
    let v = |s: &str| value_to_string(&model(&serde_json::from_str(s).unwrap()));
    assert_eq!(v("\"48\""), "48");
    assert_eq!(v("48"), "48");
    assert_eq!(v("-3.5"), "-3.5");
    assert_eq!(v("true"), "true");
    assert_eq!(v("null"), "");
    assert_eq!(v("[1,[2,3],\"x\",null]"), "1,2,3,x,");
    assert_eq!(v("[]"), "");
    assert_eq!(v("{\"b\":1,\"a\":[2]}"), "{\"a\":[2],\"b\":1}");
}
