use legion_prof_viewer::http::{
    handle_approve_request, handle_http_request, http_response, is_approve_request, origin_host,
    parse_usize, request_complete, request_origin_host, route_approve_head, route_request_head, strip_bearer,
    token_eq, McpRoute, RequestHead,
};

fn text(r: &McpRoute) -> String {
    match r {
        McpRoute::Respond(b) => String::from_utf8(b.clone()).unwrap(),
        McpRoute::Dispatch { start, end } => format!("dispatch {start}..{end}"),
    }
}

#[test]
fn response_framing() {
    let r = http_response(405, "text/plain", b"method not allowed");
    assert_eq!(
        String::from_utf8(r).unwrap(),
        "HTTP/1.1 405 Method Not Allowed\r\nContent-Type: text/plain\r\nContent-Length: 18\r\nConnection: close\r\n\r\nmethod not allowed"
    );
    let r = http_response(299, "application/json", b"{}");
    assert!(String::from_utf8(r).unwrap().starts_with("HTTP/1.1 299 OK\r\n"));
}

#[test]
fn bearer_and_tokens() {
    assert_eq!(strip_bearer("Bearer  abc "), Some("abc".to_string()));
    assert_eq!(strip_bearer("bEaReR t"), Some("t".to_string()));
    assert_eq!(strip_bearer("Basic x"), None);
    assert_eq!(strip_bearer("Bearer"), None);
    assert!(token_eq("abc", "abc"));
    assert!(!token_eq("abc", "abd"));
    assert!(!token_eq("abc", "abcd"));
    assert!(token_eq("", ""));
}

#[test]
fn origin_hosts() {
    assert_eq!(origin_host("http://localhost:8743"), "localhost");
    assert_eq!(origin_host("http://[::1]:8743"), "::1");
    assert_eq!(origin_host("http://127.0.0.1.evil.com"), "127.0.0.1.evil.com");
    assert_eq!(origin_host("http://[::1]@evil.com"), "evil.com");
    assert_eq!(origin_host("http://evil.com#@127.0.0.1"), "evil.com");
    assert_eq!(origin_host(" http://user@127.0.0.1:80/path "), "127.0.0.1");
    assert_eq!(origin_host("localhost:1"), "localhost");
}

#[test]
fn usize_parsing() {
    assert_eq!(parse_usize(&['4', '2']), Some(42));
    assert_eq!(parse_usize(&['+', '7']), Some(7));
    assert_eq!(parse_usize(&['+']), None);
    assert_eq!(parse_usize(&[]), None);
    assert_eq!(parse_usize(&['-', '1']), None);
    let big: Vec<char> = "99999999999999999999999".chars().collect();
    assert_eq!(parse_usize(&big), None);
}

#[test]
fn admissions() {
    let ok = b"POST /mcp HTTP/1.1\r\nAuthorization: Bearer tok\r\nContent-Length: 2\r\n\r\n{}";
    assert_eq!(text(&handle_http_request(ok, Some("tok"), false)), format!("dispatch {}..{}", ok.len() - 2, ok.len()));
    assert!(text(&handle_http_request(ok, Some("other"), false)).starts_with("HTTP/1.1 401 Unauthorized"));
    assert_eq!(text(&handle_http_request(ok, None, false)), format!("dispatch {}..{}", ok.len() - 2, ok.len()));
    let get = b"GET /mcp HTTP/1.1\r\n\r\n";
    assert!(text(&handle_http_request(get, Some("tok"), false)).starts_with("HTTP/1.1 405"));
    assert!(text(&handle_http_request(b"garbage", None, false)).starts_with("HTTP/1.1 400 Bad Request"));
    let partial = b"POST /mcp HTTP/1.1\r\nContent-Le";
    assert!(text(&handle_http_request(partial, None, false)).starts_with("HTTP/1.1 400"));
    let foreign = b"POST /mcp HTTP/1.1\r\nOrigin: http://evil.com\r\n\r\n";
    assert_eq!(request_origin_host(foreign), Some("evil.com".to_string()));
    assert!(text(&handle_http_request(foreign, None, false)).starts_with("HTTP/1.1 403 Forbidden"));
    assert!(text(&handle_http_request(foreign, None, true)).starts_with("dispatch"));
    let local = b"POST /mcp HTTP/1.1\r\nOrigin: http://localhost:1\r\nContent-Length: 99\r\n\r\n{}";
    assert_eq!(text(&handle_http_request(local, None, false)), format!("dispatch {}..{}", local.len() - 2, local.len()));
    let bad_len = b"POST /mcp HTTP/1.1\r\nContent-Length: x\r\n\r\n{}";
    assert_eq!(text(&handle_http_request(bad_len, None, false)), format!("dispatch {}..{}", bad_len.len() - 2, bad_len.len() - 2));
    assert_eq!(request_origin_host(ok), None);
}

/// Whether a host text is a loopback IP address, for the hosts these tests
/// use (the server asks the platform's address parser).
fn loopback_ip(host: &str) -> bool {
    host == "127.0.0.1" || host == "::1"
}

/// Routes a raw request the way the server does; a dispatched JSON-RPC
/// request with an id is answered 200.
fn route(raw: &[u8], token: Option<&str>) -> McpRoute {
    let loopback = request_origin_host(raw).map(|h| loopback_ip(&h)).unwrap_or(false);
    handle_http_request(raw, token, loopback)
}

fn status(r: &McpRoute) -> u16 {
    match r {
        McpRoute::Respond(b) => {
            let t = String::from_utf8_lossy(b).to_string();
            t.lines().next().and_then(|l| l.split_whitespace().nth(1)).and_then(|c| c.parse().ok()).unwrap()
        }
        McpRoute::Dispatch { .. } => 200,
    }
}

fn post(body: &str, origin: Option<&str>) -> Vec<u8> {
    let origin_line = origin.map(|o| format!("Origin: {o}\r\n")).unwrap_or_default();
    format!(
        "POST /mcp HTTP/1.1\r\nHost: 127.0.0.1:9\r\nContent-Type: application/json\r\n{origin_line}Content-Length: {}\r\n\r\n{body}",
        body.len()
    )
    .into_bytes()
}

fn post_auth(body: &str, auth: &str) -> Vec<u8> {
    format!(
        "POST /mcp HTTP/1.1\r\nHost: 127.0.0.1:9\r\nContent-Type: application/json\r\nAuthorization: {auth}\r\nContent-Length: {}\r\n\r\n{body}",
        body.len()
    )
    .into_bytes()
}

fn post_approve(body: &str, auth: Option<&str>) -> Vec<u8> {
    let auth_line = auth.map(|a| format!("Authorization: {a}\r\n")).unwrap_or_default();
    format!(
        "POST /approve HTTP/1.1\r\nHost: 127.0.0.1:9\r\nContent-Type: application/json\r\n{auth_line}Content-Length: {}\r\n\r\n{body}",
        body.len()
    )
    .into_bytes()
}

const INIT: &str = r#"{"jsonrpc":"2.0","id":0,"method":"initialize","params":{}}"#;
const HOOK_EVENT: &str = r#"{"session_id":"s","cwd":"/tmp","tool_name":"Bash","tool_input":{"command":"cargo check"}}"#;

#[test]
fn test_auth_missing_token_is_401() {
    assert_eq!(status(&route(&post(INIT, None), Some("sekrit-123"))), 401);
}

#[test]
fn test_auth_wrong_token_is_401() {
    let req = post_auth(INIT, "Bearer wrong-token");
    assert_eq!(status(&route(&req, Some("sekrit-123"))), 401);
    let req2 = post_auth(INIT, "Bearer sekrit-124");
    assert_eq!(status(&route(&req2, Some("sekrit-123"))), 401);
}

#[test]
fn test_auth_correct_token_is_200_and_scheme_case_insensitive() {
    let req = post_auth(INIT, "Bearer sekrit-123");
    let r = route(&req, Some("sekrit-123"));
    assert_eq!(status(&r), 200);
    match r {
        McpRoute::Dispatch { start, end } => assert_eq!(&req[start..end], INIT.as_bytes()),
        McpRoute::Respond(_) => panic!("dispatch expected"),
    }
    let req2 = post_auth(INIT, "bearer sekrit-123");
    assert_eq!(status(&route(&req2, Some("sekrit-123"))), 200);
}

#[test]
fn routing_a_parsed_head() {
    let raw = post_auth(INIT, "Bearer tok");
    let head = parse_head_for_test(&raw);
    assert_eq!(text(&route_request_head(&head, raw.len(), Some("tok"), false)), format!("dispatch {}..{}", raw.len() - INIT.len(), raw.len()));
    assert_eq!(status(&route_request_head(&head, raw.len(), Some("other"), false)), 401);
    assert_eq!(status(&route_request_head(&head, raw.len(), None, false)), 200);
    let get = RequestHead { body_start: 0, method: Some("GET".into()), path: Some("/mcp".into()), headers: vec![] };
    assert_eq!(status(&route_request_head(&get, 0, None, false)), 405);
    let far = RequestHead {
        body_start: 0,
        method: Some("POST".into()),
        path: Some("/mcp".into()),
        headers: vec![("Origin".into(), b"http://evil.com".to_vec())],
    };
    assert_eq!(status(&route_request_head(&far, 0, None, false)), 403);
    assert_eq!(status(&route_request_head(&far, 0, None, true)), 200);
    let hook = RequestHead {
        body_start: 2,
        method: Some("POST".into()),
        path: Some("/approve".into()),
        headers: vec![("authorization".into(), b"Bearer k".to_vec()), ("Content-Length".into(), b"9".to_vec())],
    };
    assert_eq!(text(&route_approve_head(&hook, 5, "k", false)), "dispatch 2..5");
    assert_eq!(status(&route_approve_head(&hook, 5, "j", false)), 401);
}

/// The head of a request as the server reads it, written out by hand.
fn parse_head_for_test(raw: &[u8]) -> RequestHead {
    let text = String::from_utf8_lossy(raw).to_string();
    let end = text.find("\r\n\r\n").unwrap() + 4;
    let mut lines = text[..end - 4].split("\r\n");
    let mut first = lines.next().unwrap().split(' ');
    let method = first.next().map(|m| m.to_string());
    let path = first.next().map(|p| p.to_string());
    let headers = lines
        .map(|l| {
            let (n, v) = l.split_once(": ").unwrap();
            (n.to_string(), v.as_bytes().to_vec())
        })
        .collect();
    RequestHead { body_start: end, method, path, headers }
}

#[test]
fn test_auth_origin_check_precedes_token() {
    let body = INIT;
    let req = format!(
        "POST /mcp HTTP/1.1\r\nHost: 127.0.0.1:9\r\nContent-Type: application/json\r\nOrigin: http://evil.com\r\nAuthorization: Bearer sekrit-123\r\nContent-Length: {}\r\n\r\n{body}",
        body.len()
    );
    assert_eq!(status(&route(req.as_bytes(), Some("sekrit-123"))), 403);
}

#[test]
fn test_auth_get_probe_still_405() {
    let req = b"GET /mcp HTTP/1.1\r\nHost: 127.0.0.1:9\r\n\r\n";
    assert_eq!(status(&route(req, Some("sekrit-123"))), 405);
}

#[test]
fn test_http_origin_mismatch_rejected() {
    let list = r#"{"jsonrpc":"2.0","id":1,"method":"tools/list"}"#;
    assert_eq!(status(&route(&post(list, Some("http://evil.example.com")), None)), 403);
    for ok_origin in ["http://localhost:8743", "http://127.0.0.1:8743", "http://[::1]:8743"] {
        assert_eq!(status(&route(&post(list, Some(ok_origin)), None)), 200, "{ok_origin}");
    }
    for bad in [
        "http://127.0.0.1.evil.com",
        "http://localhost.evil.com",
        "https://evil.com",
        "http://10.0.0.1",
        "http://[::1]@evil.com",
        "http://127.0.0.1@evil.com",
        "http://localhost@evil.com",
        "http://evil.com#@127.0.0.1",
        "http://evil.com/@127.0.0.1",
        "http://evil.com?@127.0.0.1",
    ] {
        assert_eq!(status(&route(&post(list, Some(bad)), None)), 403, "{bad}");
    }
    for ok in ["http://user@localhost:8743", "http://user@127.0.0.1:8765/mcp"] {
        assert_eq!(status(&route(&post(list, Some(ok)), None)), 200, "{ok}");
    }
}

#[test]
fn test_http_get_is_405() {
    let req = b"GET /mcp HTTP/1.1\r\nHost: 127.0.0.1:9\r\nAccept: text/event-stream\r\n\r\n";
    assert_eq!(status(&route(req, None)), 405);
}

#[test]
fn approve_request_line_detection() {
    assert!(is_approve_request(&post_approve(HOOK_EVENT, None)));
    assert!(!is_approve_request(&post(INIT, None)));
}

#[test]
fn approve_requires_bearer_token() {
    let raw = post_approve(HOOK_EVENT, None);
    assert_eq!(status(&handle_approve_request(&raw, "tok-1", false)), 401);
    let raw2 = post_approve(HOOK_EVENT, Some("Bearer wrong"));
    assert_eq!(status(&handle_approve_request(&raw2, "tok-1", false)), 401);
    let raw3 = post_approve(HOOK_EVENT, Some("Bearer tok-1"));
    match handle_approve_request(&raw3, "tok-1", false) {
        McpRoute::Dispatch { start, end } => assert_eq!(&raw3[start..end], HOOK_EVENT.as_bytes()),
        McpRoute::Respond(_) => panic!("authorized approval must reach the broker"),
    }
    assert_eq!(status(&handle_approve_request(b"junk", "tok-1", false)), 400);
}

#[test]
fn requests_complete_when_the_body_is_in() {
    let full = b"POST /mcp HTTP/1.1\r\nContent-Length: 2\r\n\r\n{}";
    assert!(request_complete(full));
    assert!(!request_complete(&full[..full.len() - 1]));
    assert!(!request_complete(b"POST /mcp HTTP/1.1\r\nContent-Len"));
    assert!(request_complete(b"GET /mcp HTTP/1.1\r\n\r\n"));
    assert!(request_complete(b"POST /mcp HTTP/1.1\r\nContent-Length: zz\r\n\r\n"));
    assert!(!request_complete(b""));
}
