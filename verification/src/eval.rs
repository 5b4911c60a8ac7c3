//! The evaluation harness's deterministic core: the flat case-manifest
//! reader, typed field access, the digest check, exact graders, and the
//! prompt.

use vstd::prelude::*;
use crate::order::{dedup_adjacent, dedup_texts, sort_texts, text_order};
use crate::text::{
    ascii_lower_seq, chars_of, contains_seq, decimal, decimal_int, eq_ignore_ascii_case, find, find_chars,
    first_sep, first_sep_from, i64_to_chars, lines, lines_of, lowercase, push_chars, push_str,
    slice_copy, split_by, split_by_chars, starts_with, starts_with_chars, string_of,
    to_lowercase_chars, trim, trim_chars, trim_start, trim_start_chars, views,
};
use crate::wiki_page::{strip_leading, strip_trailing};

verus! {

broadcast use vstd::string::group_string_axioms;

// ───────────────────────────── the manifest reader ─────────────────────────────

/// Key/value entries read so far, and a multi-line value still open (its
/// key and the text gathered).
pub type TomlState = (Seq<(Seq<char>, Seq<char>)>, Option<(Seq<char>, Seq<char>)>);

/// `"""`.
pub open spec fn triple_quote() -> Seq<char> {
    seq!['"', '"', '"']
}

/// The effect of one manifest line.
pub open spec fn toml_step(st: TomlState, line: Seq<char>) -> TomlState {
    match st.1 {
        Some((key, body)) => match find(line, triple_quote()) {
            Some(end) => (st.0.push((key, body + line.take(end))), None),
            None => (st.0, Some((key, body + line + seq!['\n']))),
        },
        None => {
            let t = trim_start(line);
            if t.len() == 0 || t[0] == '#' {
                st
            } else {
                match find(t, seq!['=']) {
                    None => st,
                    Some(eq) => {
                        let key = trim(t.take(eq));
                        let rest = trim(t.skip(eq + 1));
                        if starts_with(rest, triple_quote()) {
                            let after = rest.skip(3);
                            match find(after, triple_quote()) {
                                Some(end) => (st.0.push((key, after.take(end))), None),
                                None => (
                                    st.0,
                                    Some((key, if after.len() > 0 { after + seq!['\n'] } else { seq![] })),
                                ),
                            }
                        } else {
                            (st.0.push((key, rest)), None)
                        }
                    },
                }
            }
        },
    }
}

/// The state after the lines `ls`.
pub open spec fn toml_fold(ls: Seq<Seq<char>>) -> TomlState
    decreases ls.len(),
{
    if ls.len() == 0 {
        (seq![], None)
    } else {
        toml_step(toml_fold(ls.drop_last()), ls.last())
    }
}

/// The entries of a flat manifest (`key = scalar`, `#` comments, `"""`
/// multi-line strings), or the key whose `"""` is never closed.
pub open spec fn toml_entries(content: Seq<char>) -> Result<Seq<(Seq<char>, Seq<char>)>, Seq<char>> {
    let st = toml_fold(lines(content));
    match st.1 {
        Some((key, _)) => Err("unterminated \"\"\" for key "@ + key),
        None => Ok(st.0),
    }
}

/// The entries as plain values.
pub open spec fn entry_views(e: Seq<(String, String)>) -> Seq<(Seq<char>, Seq<char>)> {
    e.map_values(|p: (String, String)| (p.0@, p.1@))
}

/// A copy of a character vector.
fn copy_chars(v: &Vec<char>) -> (r: Vec<char>)
    ensures
        r@ == v@,
{
    let r = slice_copy(v.as_slice(), 0, v.len());
    assert(r@ =~= v@);
    r
}

/// Reads the flat case manifest: `key = value` lines (values kept
/// verbatim), `#` comments, and `"""…"""` multi-line strings. Later keys
/// override earlier ones on lookup.
pub fn parse_toml(content: &str) -> (r: Result<Vec<(String, String)>, String>)
    ensures
        match toml_entries(content@) {
            Ok(es) => r matches Ok(v) && entry_views(v@) == es,
            Err(e) => r matches Err(m) && m@ == e,
        },
{
    let c = chars_of(content);
    let ls = lines_of(c.as_slice());
    let ghost lv = views(ls@);
    let q3 = ['"', '"', '"'];
    let eqs = ['='];
    assert(q3@ =~= triple_quote());
    assert(eqs@ =~= seq!['=']);
    let mut entries: Vec<(String, String)> = Vec::new();
    let mut pending: Option<(Vec<char>, Vec<char>)> = None;
    let mut i: usize = 0;
    assert(lv.take(0) =~= Seq::<Seq<char>>::empty());
    while i < ls.len()
        invariant
            i <= ls@.len(),
            lv == views(ls@),
            q3@ == triple_quote(),
            eqs@ == seq!['='],
            entry_views(entries@) == toml_fold(lv.take(i as int)).0,
            match pending {
                Some((k, b)) => toml_fold(lv.take(i as int)).1 == Some((k@, b@)),
                None => toml_fold(lv.take(i as int)).1 is None,
            },
        decreases ls@.len() - i,
    {
        let line = ls[i].as_slice();
        assert(lv[i as int] == line@);
        assert(lv.take(i + 1).drop_last() =~= lv.take(i as int));
        assert(lv.take(i + 1).last() == line@);
        let ghost before = entry_views(entries@);
        match pending {
            Some((key, mut body)) => {
                match find_chars(line, q3.as_slice()) {
                    Some(end) => {
                        let head = slice_copy(line, 0, end);
                        assert(head@ =~= line@.take(end as int));
                        crate::text::append_chars(&mut body, head.as_slice());
                        entries.push((string_of(key.as_slice()), string_of(body.as_slice())));
                        assert(entry_views(entries@) =~= before.push((key@, body@)));
                        pending = None;
                    },
                    None => {
                        crate::text::append_chars(&mut body, line);
                        body.push('\n');
                        pending = Some((key, body));
                    },
                }
            },
            None => {
                let t = trim_start_chars(line);
                if t.len() == 0 || t[0] == '#' {
                } else {
                    match find_chars(t.as_slice(), eqs.as_slice()) {
                        None => {},
                        Some(eq) => {
                            assert(t@.len() == t.len());
                            let kpart = slice_copy(t.as_slice(), 0, eq);
                            assert(kpart@ =~= t@.take(eq as int));
                            let key = trim_chars(kpart.as_slice());
                            let rpart = slice_copy(t.as_slice(), eq + 1, t.len());
                            assert(rpart@ =~= t@.skip(eq + 1));
                            let rest = trim_chars(rpart.as_slice());
                            if starts_with_chars(rest.as_slice(), q3.as_slice()) {
                                let after = slice_copy(rest.as_slice(), 3, rest.len());
                                assert(after@ =~= rest@.skip(3));
                                match find_chars(after.as_slice(), q3.as_slice()) {
                                    Some(end) => {
                                        let v = slice_copy(after.as_slice(), 0, end);
                                        assert(v@ =~= after@.take(end as int));
                                        entries.push((string_of(key.as_slice()), string_of(v.as_slice())));
                                        assert(entry_views(entries@) =~= before.push((key@, v@)));
                                    },
                                    None => {
                                        let mut body: Vec<char> = Vec::new();
                                        if after.len() > 0 {
                                            body = copy_chars(&after);
                                            body.push('\n');
                                        }
                                        assert(body@ =~= (if after@.len() > 0 { after@ + seq!['\n'] } else { seq![] }));
                                        pending = Some((key, body));
                                    },
                                }
                            } else {
                                entries.push((string_of(key.as_slice()), string_of(rest.as_slice())));
                                assert(entry_views(entries@) =~= before.push((key@, rest@)));
                            }
                        },
                    }
                }
            },
        }
        i = i + 1;
    }
    assert(lv.take(ls@.len() as int) =~= lv);
    match pending {
        Some((key, _)) => {
            let mut e = String::new();
            push_str(&mut e, "unterminated \"\"\" for key ");
            push_chars(&mut e, key.as_slice());
            Err(e)
        },
        None => Ok(entries),
    }
}

/// The value of the last entry named `key` (a later line overrides).
pub open spec fn toml_lookup(es: Seq<(Seq<char>, Seq<char>)>, key: Seq<char>) -> Option<Seq<char>>
    decreases es.len(),
{
    if es.len() == 0 {
        None
    } else if es.last().0 == key {
        Some(es.last().1)
    } else {
        toml_lookup(es.drop_last(), key)
    }
}

/// The raw value of `key`.
pub fn toml_get(map: &Vec<(String, String)>, key: &str) -> (r: Option<Vec<char>>)
    ensures
        match toml_lookup(entry_views(map@), key@) {
            Some(v) => r matches Some(x) && x@ == v,
            None => r is None,
        },
{
    let ghost ev = entry_views(map@);
    let k = chars_of(key);
    let mut i: usize = map.len();
    assert(ev.take(ev.len() as int) =~= ev);
    while i > 0
        invariant
            i <= map@.len(),
            ev == entry_views(map@),
            k@ == key@,
            toml_lookup(ev, key@) == toml_lookup(ev.take(i as int), key@),
        decreases i,
    {
        assert(ev.take(i as int).last() == ev[i - 1]);
        assert(ev.take(i as int).drop_last() =~= ev.take(i - 1));
        assert(ev[i - 1] == (map@[i - 1].0@, map@[i - 1].1@));
        if crate::text::chars_eq(chars_of(map[i - 1].0.as_str()).as_slice(), k.as_slice()) {
            return Some(chars_of(map[i - 1].1.as_str()));
        }
        i = i - 1;
    }
    None
}

/// The text between the first two `"` of a value.
pub open spec fn quoted_text(v: Seq<char>) -> Option<Seq<char>> {
    match find(v, seq!['"']) {
        Some(s) => match find(v.skip(s + 1), seq!['"']) {
            Some(e) => Some(v.skip(s + 1).take(e)),
            None => None,
        },
        None => None,
    }
}

/// A quoted string value: the text between the first pair of `"`.
pub fn get_str(map: &Vec<(String, String)>, key: &str) -> (r: Option<String>)
    ensures
        match toml_lookup(entry_views(map@), key@) {
            Some(v) => match quoted_text(v) {
                Some(t) => r matches Some(s) && s@ == t,
                None => r is None,
            },
            None => r is None,
        },
{
    let v = match toml_get(map, key) {
        Some(v) => v,
        None => return None,
    };
    let q = ['"'];
    assert(q@ =~= seq!['"']);
    let s = match find_chars(v.as_slice(), q.as_slice()) {
        Some(s) => s,
        None => return None,
    };
    assert(v@.len() == v.len());
    let after = slice_copy(v.as_slice(), s + 1, v.len());
    assert(after@ =~= v@.skip(s + 1));
    match find_chars(after.as_slice(), q.as_slice()) {
        Some(e) => {
            let t = slice_copy(after.as_slice(), 0, e);
            assert(t@ =~= after@.take(e as int));
            Some(string_of(t.as_slice()))
        },
        None => None,
    }
}

/// A bare scalar: the value up to any `#`, trimmed.
pub open spec fn scalar_text(v: Seq<char>) -> Seq<char> {
    trim(split_by(v, seq!['#'])[0])
}

proof fn lemma_split_first(s: Seq<char>, seps: Seq<char>)
    ensures
        split_by(s, seps).len() >= 1,
        split_by(s, seps)[0] == match first_sep_from(s, seps, 0) {
            Some(i) => s.take(i),
            None => s,
        },
{
    crate::text::lemma_first_sep(s, seps, 0);
    match first_sep_from(s, seps, 0) {
        Some(i) => {},
        None => {},
    }
}

/// A bare scalar token with any trailing `# comment` and whitespace stripped.
pub fn raw_scalar(map: &Vec<(String, String)>, key: &str) -> (r: Option<Vec<char>>)
    ensures
        match toml_lookup(entry_views(map@), key@) {
            Some(v) => r matches Some(x) && x@ == scalar_text(v),
            None => r is None,
        },
{
    let v = match toml_get(map, key) {
        Some(v) => v,
        None => return None,
    };
    let hash = ['#'];
    assert(hash@ =~= seq!['#']);
    proof {
        lemma_split_first(v@, hash@);
        crate::text::lemma_first_sep(v@, hash@, 0);
    }
    let head = match first_sep(v.as_slice(), hash.as_slice(), 0) {
        Some(i) => {
            let h = slice_copy(v.as_slice(), 0, i);
            assert(h@ =~= v@.take(i as int));
            h
        },
        None => v,
    };
    Some(trim_chars(head.as_slice()))
}

// ───────────────────────────── the case manifest ─────────────────────────────

/// A quoted value of the manifest.
pub open spec fn quoted_field(es: Seq<(Seq<char>, Seq<char>)>, key: Seq<char>) -> Option<Seq<char>> {
    match toml_lookup(es, key) {
        Some(v) => quoted_text(v),
        None => None,
    }
}

/// The oracle query: the raw value, trimmed, when not blank.
pub open spec fn oracle_text(es: Seq<(Seq<char>, Seq<char>)>) -> Option<Seq<char>> {
    match toml_lookup(es, "oracle_sql"@) {
        Some(v) => if trim(v).len() > 0 {
            Some(trim(v))
        } else {
            None
        },
        None => None,
    }
}

/// Why a manifest is not a case: the first required field, in order, that
/// is missing.
pub open spec fn manifest_error(es: Seq<(Seq<char>, Seq<char>)>) -> Option<Seq<char>> {
    if quoted_field(es, "case_id"@) is None {
        Some("missing case_id"@)
    } else if quoted_field(es, "duckdb_relpath"@) is None {
        Some("missing duckdb_relpath"@)
    } else if quoted_field(es, "sha256"@) is None {
        Some("missing sha256"@)
    } else if quoted_field(es, "answer_type"@) is None {
        Some("missing answer_type"@)
    } else if oracle_text(es) is None {
        Some("missing oracle_sql"@)
    } else {
        None
    }
}

/// An eval case as its manifest gives it. The tolerance is the raw scalar
/// text (a decimal number, read by the caller).
pub struct CaseManifest {
    pub case_id: String,
    pub question: String,
    pub duckdb_relpath: String,
    pub sha256: String,
    pub range_ns: Option<(i64, i64)>,
    pub answer_type: String,
    pub tolerance_text: Option<Vec<char>>,
    pub oracle_sql: String,
    pub expected: Option<String>,
    pub model: Option<String>,
}

/// The text of an optional string.
pub open spec fn opt_text(o: Option<String>) -> Option<Seq<char>> {
    match o {
        Some(s) => Some(s@),
        None => None,
    }
}

fn required(map: &Vec<(String, String)>, key: &str, missing: &str) -> (r: Result<String, String>)
    ensures
        match quoted_field(entry_views(map@), key@) {
            Some(t) => r matches Ok(s) && s@ == t,
            None => r matches Err(e) && e@ == missing@,
        },
{
    match get_str(map, key) {
        Some(s) => Ok(s),
        None => Err(string_of(chars_of(missing).as_slice())),
    }
}

/// The case that a parsed manifest describes: its quoted fields, the
/// highlighted range, the tolerance text and the trimmed oracle query; an
/// error naming the first missing required field (`case_id`,
/// `duckdb_relpath`, `sha256`, `answer_type`, then a non-blank
/// `oracle_sql`).
pub fn case_from_manifest(map: &Vec<(String, String)>) -> (r: Result<CaseManifest, String>)
    ensures
        match manifest_error(entry_views(map@)) {
            Some(e) => r matches Err(x) && x@ == e,
            None => r matches Ok(c) && {
                let es = entry_views(map@);
                &&& Some(c.case_id@) == quoted_field(es, "case_id"@)
                &&& c.question@ == match quoted_field(es, "question"@) {
                    Some(q) => q,
                    None => Seq::<char>::empty(),
                }
                &&& Some(c.duckdb_relpath@) == quoted_field(es, "duckdb_relpath"@)
                &&& Some(c.sha256@) == quoted_field(es, "sha256"@)
                &&& match toml_lookup(es, "range_ns"@) {
                    Some(v) => match int_pair(scalar_text(v)) {
                        Some(p) => c.range_ns matches Some(q) && q.0 as int == p.0 && q.1 as int == p.1,
                        None => c.range_ns is None,
                    },
                    None => c.range_ns is None,
                }
                &&& Some(c.answer_type@) == quoted_field(es, "answer_type"@)
                &&& match toml_lookup(es, "tolerance"@) {
                    Some(v) => c.tolerance_text matches Some(x) && x@ == scalar_text(v),
                    None => c.tolerance_text is None,
                }
                &&& Some(c.oracle_sql@) == oracle_text(es)
                &&& opt_text(c.expected) == quoted_field(es, "expected"@)
                &&& opt_text(c.model) == quoted_field(es, "model"@)
            },
        },
{
    proof {
        reveal_strlit("missing case_id");
        reveal_strlit("missing duckdb_relpath");
        reveal_strlit("missing sha256");
        reveal_strlit("missing answer_type");
        reveal_strlit("missing oracle_sql");
    }
    let case_id = required(map, "case_id", "missing case_id")?;
    let question = match get_str(map, "question") {
        Some(q) => q,
        None => String::new(),
    };
    let duckdb_relpath = required(map, "duckdb_relpath", "missing duckdb_relpath")?;
    let sha256 = required(map, "sha256", "missing sha256")?;
    let range_ns = get_int_pair(map, "range_ns");
    let answer_type = required(map, "answer_type", "missing answer_type")?;
    let tolerance_text = raw_scalar(map, "tolerance");
    let oracle_sql = match toml_get(map, "oracle_sql") {
        Some(v) => {
            let t = trim_chars(v.as_slice());
            if t.len() > 0 {
                string_of(t.as_slice())
            } else {
                return Err(string_of(chars_of("missing oracle_sql").as_slice()));
            }
        },
        None => return Err(string_of(chars_of("missing oracle_sql").as_slice())),
    };
    let expected = get_str(map, "expected");
    let model = get_str(map, "model");
    Ok(CaseManifest {
        case_id,
        question,
        duckdb_relpath,
        sha256,
        range_ns,
        answer_type,
        tolerance_text,
        oracle_sql,
        expected,
        model,
    })
}

// ───────────────────────────── integers ─────────────────────────────

/// The value of a run of ASCII digits.
pub open spec fn digits_value(d: Seq<char>) -> nat
    decreases d.len(),
{
    if d.len() == 0 {
        0
    } else {
        10 * digits_value(d.drop_last()) + ((d.last() as int) - ('0' as int)) as nat
    }
}

/// Every character is an ASCII digit.
pub open spec fn all_digits(d: Seq<char>) -> bool {
    forall|i: int| 0 <= i < d.len() ==> '0' <= #[trigger] d[i] && d[i] <= '9'
}

/// `i64::from_str`: an optional sign, then one or more ASCII digits whose
/// value fits.
pub open spec fn parse_i64_text(s: Seq<char>) -> Option<int> {
    let neg = s.len() > 0 && s[0] == '-';
    let d = if s.len() > 0 && (s[0] == '-' || s[0] == '+') { s.skip(1) } else { s };
    if d.len() > 0 && all_digits(d) {
        let v: int = if neg { -(digits_value(d) as int) } else { digits_value(d) as int };
        if i64::MIN <= v && v <= i64::MAX {
            Some(v)
        } else {
            None
        }
    } else {
        None
    }
}

proof fn lemma_digits_monotone(d: Seq<char>, k: int)
    requires
        0 <= k <= d.len(),
        all_digits(d),
    ensures
        digits_value(d.take(k)) <= digits_value(d),
    decreases d.len() - k,
{
    if k < d.len() {
        lemma_digits_monotone(d, k + 1);
        assert(d.take(k + 1).drop_last() =~= d.take(k));
    } else {
        assert(d.take(k) =~= d);
    }
}

/// `i64::from_str`.
pub fn parse_i64(s: &[char]) -> (r: Option<i64>)
    ensures
        match r {
            Some(n) => parse_i64_text(s@) == Some(n as int),
            None => parse_i64_text(s@) is None,
        },
{
    let neg = s.len() > 0 && s[0] == '-';
    let start: usize = if s.len() > 0 && (s[0] == '-' || s[0] == '+') {
        1
    } else {
        0
    };
    let ghost d = s@.skip(start as int);
    assert(s@.skip(0) =~= s@);
    if start >= s.len() {
        return None;
    }
    // Magnitude accumulated in u64; the negative range reaches 2^63.
    let limit: u64 = if neg {
        9223372036854775808u64
    } else {
        9223372036854775807u64
    };
    let mut v: u64 = 0;
    let mut i: usize = start;
    while i < s.len()
        invariant
            start <= i <= s@.len(),
            start < s@.len(),
            d == s@.skip(start as int),
            d == (if s@.len() > 0 && (s@[0] == '-' || s@[0] == '+') { s@.skip(1) } else { s@ }),
            neg == (s@.len() > 0 && s@[0] == '-'),
            limit == (if neg { 9223372036854775808u64 } else { 9223372036854775807u64 }),
            all_digits(d.take(i - start)),
            v as nat == digits_value(d.take(i - start)),
            v <= limit,
        decreases s@.len() - i,
    {
        let c = s[i];
        assert(d[i - start] == c);
        if !('0' <= c && c <= '9') {
            assert(!all_digits(d));
            return None;
        }
        let dig = (c as u32 - '0' as u32) as u64;
        assert(dig as int == (c as int) - ('0' as int));
        assert(d.take(i + 1 - start).drop_last() =~= d.take(i - start));
        assert(d.take(i + 1 - start).last() == c);
        assert(digits_value(d.take(i + 1 - start)) == 10 * digits_value(d.take(i - start)) + dig);
        if v > (limit - dig) / 10 {
            proof {
                assert(10 * v + dig > limit) by (nonlinear_arith)
                    requires
                        v > (limit - dig) / 10,
                        dig <= 9,
                        limit >= 9,
                ;
                if all_digits(d) {
                    lemma_digits_monotone(d, i + 1 - start);
                }
            }
            return None;
        }
        proof {
            assert(10 * v + dig <= limit) by (nonlinear_arith)
                requires
                    v <= (limit - dig) / 10,
                    dig <= 9,
                    limit >= 9,
            ;
        }
        v = 10 * v + dig;
        i = i + 1;
    }
    assert(d.take(s@.len() - start) =~= d);
    if neg {
        if v == 9223372036854775808u64 {
            Some(i64::MIN)
        } else {
            Some(-(v as i64))
        }
    } else {
        Some(v as i64)
    }
}

/// The numbers of an `[a, b]` list (pieces that do not parse are skipped).
pub open spec fn int_list(parts: Seq<Seq<char>>) -> Seq<int>
    decreases parts.len(),
{
    if parts.len() == 0 {
        seq![]
    } else {
        match parse_i64_text(trim(parts.last())) {
            Some(n) => int_list(parts.drop_last()).push(n),
            None => int_list(parts.drop_last()),
        }
    }
}

/// The integers of a bracketed pair value, when exactly two parse.
pub open spec fn int_pair(raw: Seq<char>) -> Option<(int, int)> {
    let ns = int_list(split_by(strip_trailing(strip_leading(raw, '['), ']'), seq![',']));
    if ns.len() == 2 {
        Some((ns[0], ns[1]))
    } else {
        None
    }
}

/// An `[a, b]` integer pair value.
pub fn get_int_pair(map: &Vec<(String, String)>, key: &str) -> (r: Option<(i64, i64)>)
    ensures
        match toml_lookup(entry_views(map@), key@) {
            Some(v) => match int_pair(scalar_text(v)) {
                Some(p) => r matches Some(q) && q.0 as int == p.0 && q.1 as int == p.1,
                None => r is None,
            },
            None => r is None,
        },
{
    let raw = match raw_scalar(map, key) {
        Some(r) => r,
        None => return None,
    };
    let a = crate::wiki_page::strip_leading_chars(raw.as_slice(), '[');
    let b = crate::wiki_page::strip_trailing_chars(a.as_slice(), ']');
    let comma = [','];
    assert(comma@ =~= seq![',']);
    let parts = split_by_chars(b.as_slice(), comma.as_slice());
    let ghost pv = views(parts@);
    let mut nums: Vec<i64> = Vec::new();
    let mut i: usize = 0;
    assert(pv.take(0) =~= Seq::<Seq<char>>::empty());
    while i < parts.len()
        invariant
            i <= parts@.len(),
            pv == views(parts@),
            nums@.len() == int_list(pv.take(i as int)).len(),
            forall|j: int| 0 <= j < nums@.len() ==> #[trigger] nums@[j] as int == int_list(pv.take(i as int))[j],
        decreases parts@.len() - i,
    {
        assert(pv[i as int] == parts@[i as int]@);
        assert(pv.take(i + 1).drop_last() =~= pv.take(i as int));
        assert(pv.take(i + 1).last() == pv[i as int]);
        let t = trim_chars(parts[i].as_slice());
        match parse_i64(t.as_slice()) {
            Some(n) => {
                nums.push(n);
            },
            None => {},
        }
        i = i + 1;
    }
    assert(pv.take(parts@.len() as int) =~= pv);
    if nums.len() == 2 {
        Some((nums[0], nums[1]))
    } else {
        None
    }
}

// ───────────────────────────── digests ─────────────────────────────

/// The SHA-256 digest of `data`.
pub uninterp spec fn sha256(data: Seq<u8>) -> Seq<u8>;

/// `sha2::Sha256::digest`: the 32-byte SHA-256 digest, named by [`sha256`].
#[verifier::external_body]
fn sha256_digest(data: &[u8]) -> (r: Vec<u8>)
    ensures
        r@ == sha256(data@),
        r@.len() == 32,
{
    <sha2::Sha256 as sha2::Digest>::digest(data).to_vec()
}

/// The lower-case hex digit for `n < 16`.
pub open spec fn hex_digit(n: u8) -> char {
    if n < 10 {
        (('0' as u8) + n) as char
    } else {
        (('a' as u8) + (n - 10)) as char
    }
}

/// Two lower-case hex digits per byte.
pub open spec fn hex_text(bytes: Seq<u8>) -> Seq<char>
    decreases bytes.len(),
{
    if bytes.len() == 0 {
        seq![]
    } else {
        hex_text(bytes.drop_last()) + seq![hex_digit(bytes.last() / 16), hex_digit(bytes.last() % 16)]
    }
}

fn hex_char(n: u8) -> (r: char)
    requires
        n < 16,
    ensures
        r == hex_digit(n),
{
    if n < 10 {
        crate::text::char_from_ascii(48 + n)
    } else {
        crate::text::char_from_ascii(97 + (n - 10))
    }
}

/// Lower-case hex of `bytes`, two digits each.
pub fn hex(bytes: &[u8]) -> (r: String)
    ensures
        r@ == hex_text(bytes@),
{
    let mut out: Vec<char> = Vec::new();
    let mut i: usize = 0;
    while i < bytes.len()
        invariant
            i <= bytes@.len(),
            out@ == hex_text(bytes@.take(i as int)),
        decreases bytes@.len() - i,
    {
        let b = bytes[i];
        assert(bytes@.take(i + 1).drop_last() =~= bytes@.take(i as int));
        assert(bytes@.take(i + 1).last() == b);
        out.push(hex_char(b / 16));
        out.push(hex_char(b % 16));
        assert(out@ =~= hex_text(bytes@.take(i + 1)));
        i = i + 1;
    }
    assert(bytes@.take(bytes@.len() as int) =~= bytes@);
    string_of(out.as_slice())
}

/// The answer of comparing a digest with the manifest's hex text.
pub open spec fn digest_check_result(case_id: Seq<char>, manifest_sha: Seq<char>, digest: Seq<u8>) -> Result<(), Seq<char>> {
    let got = hex_text(digest);
    if ascii_lower_seq(got) == ascii_lower_seq(manifest_sha) {
        Ok(())
    } else {
        Err("sha256 mismatch for "@ + case_id + ": manifest "@ + manifest_sha + " != file "@ + got)
    }
}

/// The answer of the digest check of a case database.
pub open spec fn sha_check_result(case_id: Seq<char>, manifest_sha: Seq<char>, data: Seq<u8>) -> Result<(), Seq<char>> {
    digest_check_result(case_id, manifest_sha, sha256(data))
}

/// Checks that the SHA-256 of the case database's bytes matches the
/// manifest (hex compared case-insensitively).
pub fn verify_sha(case_id: &str, manifest_sha: &str, data: &[u8]) -> (r: Result<(), String>)
    ensures
        match sha_check_result(case_id@, manifest_sha@, data@) {
            Ok(()) => r is Ok,
            Err(e) => r matches Err(m) && m@ == e,
        },
{
    let digest = sha256_digest(data);
    check_digest(case_id, manifest_sha, digest.as_slice())
}

/// Compares a digest, written as lower-case hex, with the manifest's hex
/// text, case-insensitively; a mismatch names the case and both texts.
pub fn check_digest(case_id: &str, manifest_sha: &str, digest: &[u8]) -> (r: Result<(), String>)
    ensures
        match digest_check_result(case_id@, manifest_sha@, digest@) {
            Ok(()) => r is Ok,
            Err(e) => r matches Err(m) && m@ == e,
        },
{
    let got = hex(digest);
    let g = chars_of(got.as_str());
    if eq_ignore_ascii_case(g.as_slice(), chars_of(manifest_sha).as_slice()) {
        Ok(())
    } else {
        let mut e = String::new();
        push_str(&mut e, "sha256 mismatch for ");
        push_str(&mut e, case_id);
        push_str(&mut e, ": manifest ");
        push_str(&mut e, manifest_sha);
        push_str(&mut e, " != file ");
        push_chars(&mut e, g.as_slice());
        Err(e)
    }
}

// ───────────────────────────── graders ─────────────────────────────

/// The non-empty, trimmed, lower-cased comma-separated elements.
pub open spec fn set_elements(parts: Seq<Seq<char>>) -> Seq<Seq<char>>
    decreases parts.len(),
{
    if parts.len() == 0 {
        seq![]
    } else if lowercase(trim(parts.last())).len() == 0 {
        set_elements(parts.drop_last())
    } else {
        set_elements(parts.drop_last()).push(lowercase(trim(parts.last())))
    }
}

/// The set of a comma-separated answer, in order and without repeats.
pub open spec fn answer_set(s: Seq<char>) -> Seq<Seq<char>> {
    dedup_adjacent(set_elements(split_by(s, seq![','])).sort_by(text_order()))
}

/// The set of a comma-separated answer: its elements trimmed and
/// lower-cased, empty ones dropped, sorted without repeats.
pub fn to_set(s: &str) -> (r: Vec<Vec<char>>)
    ensures
        views(r@) == answer_set(s@),
{
    let comma = [','];
    assert(comma@ =~= seq![',']);
    let parts = split_by_chars(chars_of(s).as_slice(), comma.as_slice());
    let ghost pv = views(parts@);
    let mut el: Vec<Vec<char>> = Vec::new();
    let mut i: usize = 0;
    assert(pv.take(0) =~= Seq::<Seq<char>>::empty());
    while i < parts.len()
        invariant
            i <= parts@.len(),
            pv == views(parts@),
            views(el@) == set_elements(pv.take(i as int)),
        decreases parts@.len() - i,
    {
        assert(pv[i as int] == parts@[i as int]@);
        assert(pv.take(i + 1).drop_last() =~= pv.take(i as int));
        assert(pv.take(i + 1).last() == pv[i as int]);
        let e = to_lowercase_chars(trim_chars(parts[i].as_slice()).as_slice());
        if e.len() > 0 {
            let ghost before = views(el@);
            el.push(e);
            assert(views(el@) =~= before.push(lowercase(trim(pv[i as int]))));
        }
        i = i + 1;
    }
    assert(pv.take(parts@.len() as int) =~= pv);
    let sorted = sort_texts(&el);
    dedup_texts(&sorted)
}

/// The set of an answer is strictly increasing and holds exactly the
/// answer's elements.
proof fn lemma_answer_set_shape(s: Seq<char>)
    ensures
        crate::order::strictly_sorted(answer_set(s)),
        forall|e: Seq<char>| #[trigger] answer_set(s).contains(e) <==> set_elements(split_by(s, seq![','])).contains(e),
{
    let x = set_elements(split_by(s, seq![',']));
    crate::order::lemma_text_order_total();
    x.lemma_sort_by_ensures(text_order());
    let y = x.sort_by(text_order());
    crate::order::lemma_dedup_strictly_sorted(y);
    crate::order::lemma_dedup_same_elements(y);
    assert forall|e: Seq<char>| #[trigger] y.contains(e) <==> x.contains(e) by {
        broadcast use vstd::seq_lib::group_to_multiset_ensures;
        assert(y.to_multiset().count(e) == x.to_multiset().count(e));
    }
}

/// Set grading ignores order, repeats, blanks, case and surrounding
/// spaces: two answers whose trimmed, lower-cased, non-empty elements are
/// the same texts have the same set.
pub proof fn lemma_answer_set_by_elements(a: Seq<char>, b: Seq<char>)
    requires
        forall|e: Seq<char>|
            #[trigger] set_elements(split_by(a, seq![','])).contains(e) <==> set_elements(split_by(b, seq![','])).contains(e),
    ensures
        answer_set(a) == answer_set(b),
{
    lemma_answer_set_shape(a);
    lemma_answer_set_shape(b);
    assert forall|e: Seq<char>| #[trigger] answer_set(a).contains(e) <==> answer_set(b).contains(e) by {
        assert(set_elements(split_by(a, seq![','])).contains(e) <==> set_elements(split_by(b, seq![','])).contains(e));
    }
    crate::order::lemma_strictly_sorted_unique(answer_set(a), answer_set(b));
}

/// A `set` answer passes when both sides have the same elements.
pub fn grade_set(agent: &str, oracle: &str) -> (r: bool)
    ensures
        r == (answer_set(agent@) == answer_set(oracle@)),
{
    let a = to_set(agent);
    let o = to_set(oracle);
    if a.len() != o.len() {
        assert(views(a@).len() != views(o@).len());
        assert(answer_set(agent@) != answer_set(oracle@));
        return false;
    }
    let mut i: usize = 0;
    while i < a.len()
        invariant
            i <= a@.len(),
            a@.len() == o@.len(),
            views(a@) == answer_set(agent@),
            views(o@) == answer_set(oracle@),
            forall|j: int| 0 <= j < i ==> #[trigger] views(a@)[j] == views(o@)[j],
        decreases a@.len() - i,
    {
        if !crate::text::chars_eq(a[i].as_slice(), o[i].as_slice()) {
            assert(views(a@)[i as int] != views(o@)[i as int]);
            return false;
        }
        i = i + 1;
    }
    assert(views(a@) =~= views(o@));
    true
}

/// How many elements of `a` occur in `b`.
pub open spec fn common_count(a: Seq<Seq<char>>, b: Seq<Seq<char>>) -> nat
    decreases a.len(),
{
    if a.len() == 0 {
        0
    } else {
        common_count(a.drop_last(), b) + if b.contains(a.last()) {
            1nat
        } else {
            0nat
        }
    }
}

/// The sizes behind a `set` answer's overlap: how many elements the two
/// sets share, and how many each has (the union has `agent + oracle -
/// shared`).
pub fn set_sizes(agent: &str, oracle: &str) -> (r: (usize, usize, usize))
    ensures
        r.0 == common_count(answer_set(agent@), answer_set(oracle@)),
        r.1 == answer_set(agent@).len(),
        r.2 == answer_set(oracle@).len(),
{
    let a = to_set(agent);
    let o = to_set(oracle);
    let ghost av = views(a@);
    let mut common: usize = 0;
    let mut i: usize = 0;
    assert(av.take(0) =~= Seq::<Seq<char>>::empty());
    while i < a.len()
        invariant
            i <= a@.len(),
            av == views(a@),
            common <= i,
            common == common_count(av.take(i as int), views(o@)),
        decreases a@.len() - i,
    {
        assert(av.take(i + 1).drop_last() =~= av.take(i as int));
        assert(av.take(i + 1).last() == a@[i as int]@);
        if contains_seq(&o, a[i].as_slice()) {
            common = common + 1;
        }
        i = i + 1;
    }
    assert(av.take(a@.len() as int) =~= av);
    (common, a.len(), o.len())
}

/// A `label` answer passes when it equals the oracle's, trimmed and ignoring
/// ASCII case.
pub fn grade_label(agent: &str, oracle: &str) -> (r: bool)
    ensures
        r == (ascii_lower_seq(trim(agent@)) == ascii_lower_seq(trim(oracle@))),
{
    let a = trim_chars(chars_of(agent).as_slice());
    let o = trim_chars(chars_of(oracle).as_slice());
    eq_ignore_ascii_case(a.as_slice(), o.as_slice())
}

/// A uid or count as a plain integer: the trimmed text parsed as `i64`.
pub fn parse_uid_int(s: &str) -> (r: Option<i64>)
    ensures
        match r {
            Some(n) => parse_i64_text(trim(s@)) == Some(n as int),
            None => parse_i64_text(trim(s@)) is None,
        },
{
    parse_i64(trim_chars(chars_of(s).as_slice()).as_slice())
}

// ───────────────────────────── the prompt ─────────────────────────────

/// The question put to the agent: the case question, the highlighted range
/// when there is one, and how to answer.
pub open spec fn prompt_text(question: Seq<char>, range: Option<(i64, i64)>, answer_type: Seq<char>) -> Seq<char> {
    question + match range {
        Some((s, e)) => "\n\nHighlighted range: "@ + decimal_int(s as int) + " ns to "@ + decimal_int(e as int)
            + " ns."@,
        None => seq![],
    }
        + "\n\nUse the legion tools (run_query, overview, find_blockers) to investigate the profiling database, then finish by calling final_answer with answer_type=\""@
        + answer_type + "\" and the computed value."@
}

/// Builds the agent's prompt for a case.
pub fn build_prompt(question: &str, range_ns: Option<(i64, i64)>, answer_type: &str) -> (r: String)
    ensures
        r@ == prompt_text(question@, range_ns, answer_type@),
{
    let mut p = String::new();
    push_str(&mut p, question);
    if let Some((s, e)) = range_ns {
        push_str(&mut p, "\n\nHighlighted range: ");
        push_chars(&mut p, i64_to_chars(s).as_slice());
        push_str(&mut p, " ns to ");
        push_chars(&mut p, i64_to_chars(e).as_slice());
        push_str(&mut p, " ns.");
    }
    push_str(
        &mut p,
        "\n\nUse the legion tools (run_query, overview, find_blockers) to investigate the profiling database, then finish by calling final_answer with answer_type=\"",
    );
    push_str(&mut p, answer_type);
    push_str(&mut p, "\" and the computed value.");
    p
}

} // verus!
