use legion_prof_viewer::spike::{classify, trial_verdict, observe, pass_fail, shape_key, CdState, Ev, TurnOutcome};

fn ev(line: &str) -> Ev {
    classify(line)
}

#[test]
fn line_meanings() {
    match ev(r#"{"type":"assistant","message":{"content":[{"type":"text"},{"type":"tool_use","name":"mcp__legion-viewer__overview"},{"type":"tool_use"},{"type":"tool_use","name":"Bash"}]}}"#) {
        Ev::Assistant(tools) => assert_eq!(tools, vec!["mcp__legion-viewer__overview", "Bash"]),
        _ => panic!("assistant"),
    }
    assert!(matches!(ev(r#"{"type":"user","message":{"content":[{"type":"tool_result"}]}}"#), Ev::ToolResult));
    assert!(matches!(ev(r#"{"type":"user","message":{"content":[{"type":"text"}]}}"#), Ev::Other(t) if t == "user"));
    assert!(matches!(ev(r#"{"type":"result","subtype":"success"}"#), Ev::Result(s) if s == "success"));
    assert!(matches!(ev(r#"{"type":"result"}"#), Ev::Result(s) if s.is_empty()));
    assert!(matches!(ev(r#"{"type":"system","subtype":"init"}"#), Ev::System));
    assert!(matches!(ev(r#"{"type":"control_request","request":{"subtype":"can_use_tool"}}"#), Ev::Control(s) if s == "can_use_tool"));
    assert!(matches!(ev(r#"{"type":"control_cancel_request"}"#), Ev::Control(s) if s == "cancel"));
    assert!(matches!(ev(r#"{"type":"stream_event"}"#), Ev::Other(t) if t == "stream_event"));
    assert!(matches!(ev(r#"{"kind":1}"#), Ev::Other(t) if t == "<no-type>"));
    assert!(matches!(ev("not json"), Ev::Unparseable));
    assert_eq!(shape_key(&ev("not json")), "unparseable");
    assert_eq!(shape_key(&ev(r#"{"type":"stream_event"}"#)), "stream_event");
    assert_eq!(shape_key(&ev(r#"{"type":"control_cancel_request"}"#)), "control");
}

fn run_turn(lines: &[&str]) -> TurnOutcome {
    let mut o = TurnOutcome::new();
    for l in lines {
        let e = ev(l);
        if observe(&mut o, l, &e) {
            break;
        }
    }
    o
}

#[test]
fn turns_and_verdicts() {
    let t1 = run_turn(&[
        r#"{"type":"system","subtype":"init"}"#,
        r#"{"type":"assistant","message":{"content":[{"type":"tool_use","name":"mcp__legion-viewer__overview"}]}}"#,
        r#"{"type":"control_request","request":{"subtype":"oauth_token_refresh"}}"#,
        r#"{"type":"result","subtype":"success"}"#,
        r#"{"type":"assistant","message":{"content":[{"type":"tool_use","name":"Bash"}]}}"#,
    ]);
    assert!(t1.saw_viewer_tool && t1.saw_result && !t1.saw_permission_event && !t1.saw_builtin_tool);
    assert_eq!(t1.lines, 4, "the turn ends at its result");
    let t2 = run_turn(&[r#"{"type":"assistant","message":{"content":[{"type":"tool_use","name":"Read"}]}}"#]);
    assert!(t2.saw_builtin_tool && !t2.saw_result);

    let ok = trial_verdict(&t1, &run_turn(&[r#"{"type":"result"}"#]), true);
    assert!(ok.persistent && ok.lockdown_held && matches!(ok.round_trip, CdState::Pass) && ok.passed);
    let leak = trial_verdict(&t1, &t2, true);
    assert!(leak.persistent && !leak.lockdown_held && !leak.passed);
    let gone = trial_verdict(&t1, &TurnOutcome::not_sent(), false);
    assert!(!gone.persistent && !gone.passed);

    let unauth = run_turn(&[r#"{"type":"assistant","error":"authentication_failed"}"#]);
    assert!(unauth.auth_failed);
    let v = trial_verdict(&unauth, &run_turn(&[r#"{"type":"result"}"#]), true);
    assert!(matches!(v.round_trip, CdState::Inconclusive) && !v.passed && v.auth_failed);

    let asked = run_turn(&[
        r#"{"type":"assistant","message":{"content":[{"type":"tool_use","name":"mcp__legion-viewer__run_query"}]}}"#,
        r#"{"type":"control_request","request":{"subtype":"can_use_tool"}}"#,
        r#"{"type":"result"}"#,
    ]);
    assert!(asked.saw_permission_event);
    assert!(matches!(trial_verdict(&asked, &run_turn(&[r#"{"type":"result"}"#]), true).round_trip, CdState::Fail));
    assert_eq!(pass_fail(true), "PASS");
    assert_eq!(pass_fail(false), "FAIL");
}
