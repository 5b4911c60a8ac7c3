use legion_prof_viewer::calendar::rfc3339_utc;
use legion_prof_viewer::eval::{
    build_prompt, get_int_pair, get_str, grade_label, grade_set, hex, parse_toml, parse_uid_int,
    case_from_manifest, check_digest, raw_scalar, set_sizes, to_set, verify_sha,
};

#[test]
fn test_rfc3339_epoch() {
    assert_eq!(rfc3339_utc(0), "1970-01-01T00:00:00Z");
    assert_eq!(rfc3339_utc(1_700_000_000), "2023-11-14T22:13:20Z");
}

#[test]
fn rfc3339_leap_days_and_far_future() {
    assert_eq!(rfc3339_utc(951_782_400), "2000-02-29T00:00:00Z");
    assert_eq!(rfc3339_utc(4_107_542_399), "2100-02-28T23:59:59Z");
    assert_eq!(rfc3339_utc(4_107_542_400), "2100-03-01T00:00:00Z");
    assert_eq!(rfc3339_utc(253_402_300_800), "10000-01-01T00:00:00Z");
    assert_eq!(rfc3339_utc(u64::MAX), "584554051223-11-09T07:00:15Z");
}

#[test]
fn test_parse_toml_multiline_and_scalars() {
    let src = "case_id = \"X-1\"   # a comment\nrange_ns = [10, 20]\ntolerance = 0.5\noracle_sql = \"\"\"\nSELECT 1\nFROM t\n\"\"\"\nexpected = \"48\"\n";
    let m = parse_toml(src).unwrap();
    assert_eq!(get_str(&m, "case_id").as_deref(), Some("X-1"));
    assert_eq!(get_int_pair(&m, "range_ns"), Some((10, 20)));
    assert_eq!(raw_scalar(&m, "tolerance").map(|v| v.into_iter().collect::<String>()).as_deref(), Some("0.5"));
    let sql = &m.iter().rev().find(|(k, _)| k == "oracle_sql").unwrap().1;
    assert!(sql.contains("SELECT 1") && sql.contains("FROM t"));
    assert_eq!(sql, "SELECT 1\nFROM t\n");
    assert_eq!(get_str(&m, "expected").as_deref(), Some("48"));
}

#[test]
fn toml_edge_cases() {
    assert_eq!(parse_toml("k = \"\"\"open\nmore"), Err("unterminated \"\"\" for key k".to_string()));
    let m = parse_toml("# c\n\nnot a pair\na = 1\na = 2\nb = \"\"\"one line\"\"\"\nc = \"\"\"x\ny\"\"\" tail\n").unwrap();
    assert_eq!(raw_scalar(&m, "a").map(|v| v.into_iter().collect::<String>()).as_deref(), Some("2"));
    let b = &m.iter().find(|(k, _)| k == "b").unwrap().1;
    assert_eq!(b, "one line");
    let c = &m.iter().find(|(k, _)| k == "c").unwrap().1;
    assert_eq!(c, "x\ny");
    assert_eq!(get_str(&m, "missing"), None);
    let p = parse_toml("r = [1, x, -3]\nq = [1]\nbig = [99999999999999999999, 2]\n").unwrap();
    assert_eq!(get_int_pair(&p, "r"), Some((1, -3)));
    assert_eq!(get_int_pair(&p, "q"), None);
    assert_eq!(get_int_pair(&p, "big"), None);
}

#[test]
fn test_verify_sha() {
    // SHA-256("hello legion") as computed by the digest itself.
    let data = b"hello legion";
    let bad = "0000";
    let err = verify_sha("t", bad, data).unwrap_err();
    assert!(err.starts_with("sha256 mismatch for t: manifest 0000 != file "));
    let real = err.rsplit(' ').next().unwrap().to_string();
    assert_eq!(real.len(), 64);
    assert!(verify_sha("t", &real, data).is_ok());
    assert!(verify_sha("t", &real.to_uppercase(), data).is_ok());
    let corrupt = format!("{}0", &real[..real.len() - 1]);
    let flipped = if corrupt == real { format!("{}1", &real[..real.len() - 1]) } else { corrupt };
    assert!(verify_sha("t", &flipped, data).is_err());
    assert_eq!(
        verify_sha("t", "", b"").unwrap_err(),
        "sha256 mismatch for t: manifest  != file e3b0c44298fc1c149afbf4c8996fb92427ae41e4649b934ca495991b7852b855"
    );
}

#[test]
fn hex_is_two_lowercase_digits_per_byte() {
    assert_eq!(hex(&[0x00, 0x0f, 0xa5, 0xff]), "000fa5ff");
    assert_eq!(hex(&[]), "");
}

#[test]
fn graders_exact_kinds() {
    assert!(grade_label("Computation-Bound", " computation-bound "));
    assert!(!grade_label("communication-bound", "computation-bound"));
    assert!(grade_set("1,2,3", "3, 2, 1"));
    assert!(grade_set("A,a,,b", "b,a"));
    assert!(!grade_set("1,2", "1,2,3"));
    let s: Vec<String> = to_set(" B, a ,b,,").into_iter().map(|v| v.into_iter().collect()).collect();
    assert_eq!(s, vec!["a".to_string(), "b".to_string()]);
    assert_eq!(parse_uid_int(" 48 "), Some(48));
    assert_eq!(parse_uid_int("+7"), Some(7));
    assert_eq!(parse_uid_int("-9223372036854775808"), Some(i64::MIN));
    assert_eq!(parse_uid_int("9223372036854775808"), None);
    assert_eq!(parse_uid_int("48.0"), None);
    assert_eq!(parse_uid_int("abc"), None);
    assert_eq!(parse_uid_int("-"), None);
}

#[test]
fn prompt_text() {
    assert_eq!(
        build_prompt("Which task?", Some((-5, 10)), "uid"),
        "Which task?\n\nHighlighted range: -5 ns to 10 ns.\n\nUse the legion tools (run_query, overview, find_blockers) to investigate the profiling database, then finish by calling final_answer with answer_type=\"uid\" and the computed value."
    );
    assert!(build_prompt("Q", None, "int").starts_with("Q\n\nUse the legion tools"));
}

#[test]
fn test_grade_label_case_insensitive() {
    assert!(grade_label("Computation-Bound", "computation-bound"));
    assert!(!grade_label("communication-bound", "computation-bound"));
}

#[test]
fn test_grade_set() {
    assert!(grade_set("1,2,3", "3, 2, 1"));
    assert!(!grade_set("1,2", "1,2,3"));
    let (common, a, o) = set_sizes("1,2", "1,2,3");
    let jaccard = common as f64 / ((a + o - common).max(1) as f64);
    assert_eq!(jaccard, 2.0 / 3.0);
}

#[test]
fn manifests_become_cases() {
    let toml = "case_id = \"L1-001\"\nquestion = \"Which task?\"\nduckdb_relpath = \"../db.duckdb\"\nsha256 = \"ab\"\nrange_ns = [5, 10]  # window\nanswer_type = \"uid\"\ntolerance = 0.01 # rel\noracle_sql = \"\"\"\n  SELECT 48\n\"\"\"\nexpected = \"48\"\n";
    let map = parse_toml(toml).unwrap();
    let c = case_from_manifest(&map).unwrap();
    assert_eq!(c.case_id, "L1-001");
    assert_eq!(c.question, "Which task?");
    assert_eq!(c.duckdb_relpath, "../db.duckdb");
    assert_eq!(c.sha256, "ab");
    assert_eq!(c.range_ns, Some((5, 10)));
    assert_eq!(c.answer_type, "uid");
    assert_eq!(c.tolerance_text.map(|v| v.into_iter().collect::<String>()), Some("0.01".to_string()));
    assert_eq!(c.oracle_sql, "SELECT 48");
    assert_eq!(c.expected.as_deref(), Some("48"));
    assert_eq!(c.model, None);

    let missing = |t: &str| case_from_manifest(&parse_toml(t).unwrap()).err().unwrap();
    assert_eq!(missing("question = \"q\"\n"), "missing case_id");
    assert_eq!(missing("case_id = \"x\"\n"), "missing duckdb_relpath");
    assert_eq!(missing("case_id = \"x\"\nduckdb_relpath = \"d\"\n"), "missing sha256");
    assert_eq!(missing("case_id = \"x\"\nduckdb_relpath = \"d\"\nsha256 = \"s\"\n"), "missing answer_type");
    assert_eq!(
        missing("case_id = \"x\"\nduckdb_relpath = \"d\"\nsha256 = \"s\"\nanswer_type = \"uid\"\noracle_sql = \"\"\"\n   \n\"\"\"\n"),
        "missing oracle_sql"
    );
    assert_eq!(missing("case_id = x\n"), "missing case_id");
}

#[test]
fn set_answers_ignore_order_case_blanks_and_repeats() {
    assert!(grade_set(" x ,Y,y,, ", "y,X"));
    assert!(grade_set("", " , ,"));
    assert!(!grade_set("x", "x,y"));
}

#[test]
fn digest_compared_with_manifest_hex() {
    assert!(check_digest("c", "00ff10", &[0x00, 0xff, 0x10]).is_ok());
    assert!(check_digest("c", "00FF10", &[0x00, 0xff, 0x10]).is_ok());
    assert_eq!(
        check_digest("c", "00ff11", &[0x00, 0xff, 0x10]),
        Err("sha256 mismatch for c: manifest 00ff11 != file 00ff10".to_string())
    );
    assert!(check_digest("c", "00ff1", &[0x00, 0xff, 0x10]).is_err());
}
