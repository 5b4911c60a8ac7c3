use legion_prof_viewer::json::JsonValue;
use legion_prof_viewer::trace::{image_note, redact_images, resolve_dir, session_id, Redacted};

#[test]
fn session_trace_resolve_dir_precedence() {
    let home = "/home/u";
    for off in ["off", "0", "false", "no", " OFF "] {
        assert_eq!(resolve_dir(Some(off), Some("/x"), Some(home)), None, "toggle {off:?} must disable");
    }
    assert_eq!(resolve_dir(None, Some("/custom/dir"), Some(home)), Some("/custom/dir".to_string()));
    assert_eq!(
        resolve_dir(Some("on"), None, Some(home)),
        Some("/home/u/.legion_prof_viewer/traces".to_string())
    );
    assert_eq!(resolve_dir(None, None, None), None);
}

#[test]
fn resolve_dir_blank_override_and_trimming() {
    assert_eq!(resolve_dir(None, Some("   "), Some("/h/")), Some("/h/.legion_prof_viewer/traces".to_string()));
    assert_eq!(resolve_dir(Some("yes"), Some("  /t  "), None), Some("/t".to_string()));
    assert_eq!(resolve_dir(Some("No"), None, Some("/h")), None);
    assert_eq!(resolve_dir(Some("offline"), None, None), None);
    assert_eq!(resolve_dir(Some("offline"), None, Some("/h")), Some("/h/.legion_prof_viewer/traces".to_string()));
}

#[test]
fn session_ids() {
    assert_eq!(session_id(0, "ThreadId(1)"), "0-eadd");
    assert_eq!(session_id(255, "ThreadId(7)"), "ff-eadd");
    assert_eq!(session_id(0x1234_5678_9abc_def0, "x9y"), "123456789abcdef0-9");
    assert_eq!(session_id(16, ""), "10-");
    assert_eq!(session_id(u128::MAX, "AbCdEf"), format!("{:x}-AbCd", u128::MAX));
}

#[test]
fn image_notes() {
    assert_eq!(image_note(Some("image/jpeg"), 4096), "[image/jpeg ~3 KB - base64 elided from trace]");
    assert_eq!(image_note(None, 0), "[image ~0 KB - base64 elided from trace]");
    // 682 chars decode to 511.5 bytes, 0.4995 KiB: rounds down; 683 to 0.5002: up.
    assert_eq!(image_note(Some("image/png"), 682), "[image/png ~0 KB - base64 elided from trace]");
    assert_eq!(image_note(Some("image/png"), 683), "[image/png ~1 KB - base64 elided from trace]");
    for len in [0usize, 1, 100, 682, 683, 1365, 1366, 2048, 4096, 400_000, 1 << 40] {
        let kb = (len as f64 * 3.0 / 4.0 / 1024.0).round() as u64;
        assert_eq!(image_note(Some("m"), len), format!("[m ~{kb} KB - base64 elided from trace]"), "{len}");
    }
}

fn jstr(s: &str) -> JsonValue {
    JsonValue::Str(s.to_string())
}

fn jobj(fields: Vec<(&str, JsonValue)>) -> JsonValue {
    JsonValue::Object { fields: fields.into_iter().map(|(k, v)| (k.to_string(), v)).collect(), text: String::new() }
}

fn jarr(items: Vec<JsonValue>) -> JsonValue {
    JsonValue::Array { items, text: String::new() }
}

/// The redacted value written out as JSON text.
fn render(r: &Redacted) -> String {
    match r {
        Redacted::Image { note } => format!("{{\"note\":{note:?},\"type\":\"image\"}}"),
        Redacted::Object(fields) => {
            let parts: Vec<String> = fields.iter().map(|(k, v)| format!("{k:?}:{}", render(v))).collect();
            format!("{{{}}}", parts.join(","))
        }
        Redacted::Array(items) => format!("[{}]", items.iter().map(render).collect::<Vec<_>>().join(",")),
        Redacted::Keep(JsonValue::Str(s)) => format!("{s:?}"),
        Redacted::Keep(JsonValue::Number { text, .. }) => text.clone(),
        Redacted::Keep(JsonValue::Bool(b)) => b.to_string(),
        Redacted::Keep(_) => "null".to_string(),
    }
}

#[test]
fn redact_images_strips_base64_keeps_text() {
    let v = jarr(vec![jobj(vec![
        ("type", jstr("tool_result")),
        (
            "content",
            jarr(vec![
                jobj(vec![
                    ("type", jstr("image")),
                    (
                        "source",
                        jobj(vec![
                            ("type", jstr("base64")),
                            ("media_type", jstr("image/jpeg")),
                            ("data", jstr(&"/9j/AAAA".repeat(512))),
                        ]),
                    ),
                ]),
                jobj(vec![("type", jstr("image")), ("data", jstr(&"iVBOR".repeat(100))), ("mimeType", jstr("image/png"))]),
                jobj(vec![("type", jstr("text")), ("text", jstr("Visible range 0-100ms"))]),
            ]),
        ),
    ])]);
    let r = redact_images(&v);
    let s = render(&r);
    assert!(!s.contains("/9j/"), "API-shape base64 must be gone");
    assert!(!s.contains("iVBOR"), "MCP-shape base64 must be gone");
    assert!(s.contains("base64 elided"));
    assert!(s.contains("image/jpeg") && s.contains("image/png"));
    assert!(s.contains("Visible range 0-100ms"));
}

#[test]
fn redacted_image_notes_carry_media_and_size() {
    let block = jobj(vec![("type", jstr("image")), ("source", jobj(vec![("data", jstr(&"A".repeat(4096)))]))]);
    match redact_images(&block) {
        Redacted::Image { note } => assert_eq!(note, "[image ~3 KB - base64 elided from trace]"),
        _ => panic!("an image block becomes a note"),
    }
    // A `type` that is not the string "image" keeps the object.
    let other = jobj(vec![("type", jstr("Image")), ("data", jstr("x"))]);
    match redact_images(&other) {
        Redacted::Object(f) => assert_eq!(f.len(), 2),
        _ => panic!("kept"),
    }
}
