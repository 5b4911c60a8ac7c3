//! Read-only SQL over the profile database: the query guard, the wrapper
//! that serializes rows as JSON, error hints, markdown tables, and the SQL
//! builders used by the tools.

use vstd::prelude::*;
use crate::json::{json_array_text, json_array_written, json_field, json_get, json_parse, json_u64, parse_json, JsonValue};
use crate::order::{sort_texts, text_order};
use crate::text::{
    ascii_lower, chars_eq, chars_of, contains, contains_chars, decimal, push_chars, push_str,
    rfind, rfind_chars, slice_copy, starts_with, starts_with_chars, string_of, trim, trim_chars,
    u64_to_chars, views,
};
use crate::wiki_page::strip_trailing;
use crate::text::{ends_with, is_whitespace, leading_ws, trailing_ws, trim_start, trim_end, occurs_at,
    last_occurrence_upto, lemma_leading_ws};

verus! {

broadcast use vstd::string::group_string_axioms;

/// Rows a query answer holds at most (one more is fetched to tell a cut
/// answer from a full one).
pub const QUERY_ROW_CAP: usize = 50;

/// `char::to_ascii_uppercase`.
pub open spec fn ascii_upper(c: char) -> char {
    if 'a' <= c && c <= 'z' {
        ((c as u32) - 32) as char
    } else {
        c
    }
}

/// `str::to_ascii_uppercase`.
pub open spec fn ascii_upper_seq(s: Seq<char>) -> Seq<char> {
    s.map_values(|c: char| ascii_upper(c))
}

fn ascii_upper_chars(s: &[char]) -> (r: Vec<char>)
    ensures
        r@ == ascii_upper_seq(s@),
{
    let mut r: Vec<char> = Vec::new();
    let mut i: usize = 0;
    while i < s.len()
        invariant
            i <= s@.len(),
            r@ == ascii_upper_seq(s@).take(i as int),
        decreases s@.len() - i,
    {
        let c = s[i];
        let u = if 'a' <= c && c <= 'z' {
            let v = (c as u32) - 32;
            assert(0x41 <= v <= 0x5a);
            crate::text::char_from_ascii(v as u8)
        } else {
            c
        };
        r.push(u);
        assert(ascii_upper_seq(s@).take(i + 1) =~= ascii_upper_seq(s@).take(i as int).push(u));
        i = i + 1;
    }
    assert(ascii_upper_seq(s@).take(s@.len() as int) =~= ascii_upper_seq(s@));
    r
}

/// The statement proper: trimmed, with trailing semicolons removed.
pub open spec fn statement_of(sql: Seq<char>) -> Seq<char> {
    strip_trailing(trim(sql), ';')
}

/// Only `SELECT` and `WITH` statements (case-insensitive) are run.
pub open spec fn is_read_statement(stmt: Seq<char>) -> bool {
    starts_with(ascii_upper_seq(stmt), "SELECT"@) || starts_with(ascii_upper_seq(stmt), "WITH"@)
}

/// Every character is an ASCII digit.
pub open spec fn all_ascii_digits(s: Seq<char>) -> bool {
    forall|i: int| 0 <= i < s.len() ==> '0' <= #[trigger] s[i] && s[i] <= '9'
}

/// The statement without a trailing `LIMIT <digits>` (the last `LIMIT`,
/// case-insensitive, followed only by digits and whitespace).
pub open spec fn without_trailing_limit(stmt: Seq<char>) -> Seq<char> {
    match rfind(ascii_upper_seq(stmt), "LIMIT"@) {
        Some(pos) => {
            let after = trim(stmt.skip(pos + 5));
            if after.len() > 0 && all_ascii_digits(after) {
                trim(stmt.take(pos))
            } else {
                stmt
            }
        },
        None => stmt,
    }
}

/// The statement wrapped so that its rows (at most one past the cap) come
/// back as one JSON array.
pub open spec fn wrapped_query(body: Seq<char>) -> Seq<char> {
    "SELECT COALESCE(CAST(json_group_array(to_json(t)) AS VARCHAR), '[]') FROM ("@ + body
        + " LIMIT 51) AS t"@
}

/// What the guard answers for `sql`: the wrapped statement to run, or why it
/// is refused.
pub open spec fn prepared_query(sql: Seq<char>) -> Result<Seq<char>, Seq<char>> {
    if is_read_statement(statement_of(sql)) {
        Ok(wrapped_query(without_trailing_limit(statement_of(sql))))
    } else {
        Err("Only SELECT/WITH queries are allowed."@)
    }
}

proof fn lemma_leading_ws_append(a: Seq<char>, b: Seq<char>)
    requires
        leading_ws(a) < a.len(),
    ensures
        leading_ws(a + b) == leading_ws(a),
    decreases a.len(),
{
    if is_whitespace(a[0]) {
        assert((a + b).drop_first() =~= a.drop_first() + b);
        assert((a + b)[0] == a[0]);
        lemma_leading_ws_append(a.drop_first(), b);
    } else {
        assert((a + b)[0] == a[0]);
    }
}

proof fn lemma_upper_append(a: Seq<char>, b: Seq<char>)
    ensures
        ascii_upper_seq(a + b) == ascii_upper_seq(a) + ascii_upper_seq(b),
{
    assert(ascii_upper_seq(a + b) =~= ascii_upper_seq(a) + ascii_upper_seq(b));
}

proof fn lemma_last_occurrence_is(s: Seq<char>, p: Seq<char>, i: int, upto: int)
    requires
        0 <= i <= upto,
        occurs_at(s, p, i),
        forall|j: int| i < j <= upto ==> !occurs_at(s, p, j),
    ensures
        last_occurrence_upto(s, p, upto) == Some(i),
    decreases upto - i,
{
    if upto > i {
        lemma_last_occurrence_is(s, p, i, upto - 1);
    }
}

proof fn lemma_statement_as_written(kw: Seq<char>, b: Seq<char>)
    requires
        kw.len() > 0,
        !is_whitespace(kw[0]),
        b.len() > 0,
        !is_whitespace(b.last()),
        b.last() != ';',
    ensures
        statement_of(kw + b) == kw + b,
{
    let s = kw + b;
    assert(s[0] == kw[0]);
    assert(s.last() == b.last());
    assert(leading_ws(s) == 0);
    assert(s.skip(0) =~= s);
    assert(trailing_ws(s) == 0);
    assert(s.take(s.len() as int) =~= s);
    assert(trim(s) == s);
}

/// The guard lets reads through whatever their case, and only reads: a
/// statement written `select ...` or `with ...` (any case) is run, one whose
/// first character is neither an `s` nor a `w` (any case) is refused with
/// the guard's message, and every statement run is wrapped to fetch at most
/// one row past [`QUERY_ROW_CAP`].
pub proof fn lemma_read_guard(sql: Seq<char>, b: Seq<char>)
    ensures
        b.len() > 0 && !is_whitespace(b.last()) && b.last() != ';' ==> {
            &&& prepared_query("select "@ + b) is Ok
            &&& prepared_query("SELECT "@ + b) is Ok
            &&& prepared_query("with "@ + b) is Ok
            &&& prepared_query("WiTh "@ + b) is Ok
        },
        statement_of(sql).len() == 0 || (ascii_upper(statement_of(sql)[0]) != 'S' && ascii_upper(statement_of(sql)[0])
            != 'W') ==> prepared_query(sql) == Err::<Seq<char>, Seq<char>>("Only SELECT/WITH queries are allowed."@),
        prepared_query(sql) matches Ok(w) ==> ends_with(w, " LIMIT "@ + decimal((QUERY_ROW_CAP + 1) as nat) + ") AS t"@),
{
    reveal_strlit("select ");
    reveal_strlit("SELECT ");
    reveal_strlit("with ");
    reveal_strlit("WiTh ");
    reveal_strlit("SELECT");
    reveal_strlit("WITH");
    reveal_strlit(" LIMIT ");
    reveal_strlit(") AS t");
    reveal_strlit(" LIMIT 51) AS t");
    if b.len() > 0 && !is_whitespace(b.last()) && b.last() != ';' {
        lemma_statement_as_written("select "@, b);
        lemma_statement_as_written("SELECT "@, b);
        lemma_statement_as_written("with "@, b);
        lemma_statement_as_written("WiTh "@, b);
        assert(ascii_upper_seq("select "@ + b).subrange(0, 6) =~= "SELECT"@);
        assert(ascii_upper_seq("SELECT "@ + b).subrange(0, 6) =~= "SELECT"@);
        assert(ascii_upper_seq("with "@ + b).subrange(0, 4) =~= "WITH"@);
        assert(ascii_upper_seq("WiTh "@ + b).subrange(0, 4) =~= "WITH"@);
    }
    let st = statement_of(sql);
    if starts_with(ascii_upper_seq(st), "SELECT"@) {
        assert(ascii_upper_seq(st).subrange(0, 6)[0] == ascii_upper_seq(st)[0]);
    }
    if starts_with(ascii_upper_seq(st), "WITH"@) {
        assert(ascii_upper_seq(st).subrange(0, 4)[0] == ascii_upper_seq(st)[0]);
    }
    assert(decimal(51) == seq!['5', '1']) by {
        assert(decimal(5) == seq!['5']);
    }
    if prepared_query(sql) is Ok {
        let w = prepared_query(sql)->Ok_0;
        let tail = " LIMIT "@ + decimal((QUERY_ROW_CAP + 1) as nat) + ") AS t"@;
        assert(tail =~= " LIMIT 51) AS t"@);
        assert(w.subrange(w.len() - tail.len(), w.len() as int) =~= tail);
    }
}

/// A trailing `LIMIT n` (`n` a non-empty run of ASCII digits) after a
/// `SELECT`/`WITH` query never changes what is run: the query that is
/// prepared is the one without it, under the row cap alone (so `LIMIT 10`
/// still answers up to the cap).
pub proof fn lemma_trailing_limit_ignored(q: Seq<char>, n: Seq<char>)
    requires
        is_read_statement(statement_of(q)),
        !(trim(q).len() > 0 && trim(q).last() == ';'),
        without_trailing_limit(trim(q)) == trim(q),
        n.len() > 0,
        all_ascii_digits(n),
    ensures
        prepared_query(q + " LIMIT "@ + n) == prepared_query(q),
{
    reveal_strlit(" LIMIT ");
    reveal_strlit("LIMIT");
    reveal_strlit("SELECT");
    reveal_strlit("WITH");
    let lim = " LIMIT "@;
    let full = q + lim + n;
    lemma_leading_ws(q);
    let tq = trim(q);
    assert(statement_of(q) == tq);
    // The query is not all whitespace: it starts with SELECT or WITH.
    let t = trim_start(q);
    crate::text::lemma_trailing_ws(t);
    assert(tq == t.take(t.len() - trailing_ws(t)));
    assert(tq.len() > 0) by {
        if tq.len() == 0 {
            assert(ascii_upper_seq(tq).len() == 0);
        }
    }
    assert(leading_ws(q) < q.len());
    // Trimming the whole text: the start as for `q`, nothing at the end.
    assert(full =~= q + (lim + n));
    lemma_leading_ws_append(q, lim + n);
    let stmt = t + lim + n;
    assert(full.skip(leading_ws(q) as int) =~= stmt);
    assert(!is_whitespace(stmt.last()));
    assert(trailing_ws(stmt) == 0);
    assert(stmt.take(stmt.len() - 0) =~= stmt);
    assert(trim(full) == stmt);
    assert(stmt.last() != ';');
    assert(statement_of(full) == stmt);
    // The last LIMIT is the one added.
    let u = ascii_upper_seq(stmt);
    let pos: int = t.len() as int + 1;
    lemma_upper_append(t + lim, n);
    lemma_upper_append(t, lim);
    assert(ascii_upper_seq(lim) =~= lim);
    assert(u.subrange(pos, pos + 5) =~= "LIMIT"@);
    assert forall|j: int| pos < j <= u.len() - 5 implies !occurs_at(u, "LIMIT"@, j) by {
        assert("LIMIT"@[0] == 'L');
        if j < t.len() + lim.len() {
            assert(u[j] == lim[j - t.len()]);
        } else {
            assert(u[j] == ascii_upper(n[j - t.len() - lim.len()]));
        }
        assert(u.subrange(j, j + 5)[0] == u[j]);
    }
    lemma_last_occurrence_is(u, "LIMIT"@, pos, u.len() - 5);
    // What follows it is the number; what precedes it is the query.
    let after = stmt.skip(pos + 5);
    assert(after =~= seq![' '] + n);
    assert(leading_ws(n) == 0);
    assert(after.drop_first() =~= n);
    assert(leading_ws(after) == 1);
    assert(trim_start(after) =~= n);
    assert(trailing_ws(n) == 0);
    assert(n.take(n.len() - 0) =~= n);
    assert(trim(after) == n);
    let before = stmt.take(pos);
    assert(before =~= t + seq![' ']);
    lemma_leading_ws(t);
    assert(leading_ws(t) == 0) by {
        lemma_leading_ws(q);
        if t.len() > 0 {
            assert(t[0] == q[leading_ws(q) as int]);
        }
    }
    lemma_leading_ws_append(t, seq![' ']);
    assert(before.skip(0) =~= before);
    assert(before.drop_last() =~= t);
    assert(trailing_ws(before) == 1 + trailing_ws(t));
    assert(trim(before) =~= tq);
    assert(without_trailing_limit(stmt) == tq);
    // Both are read statements: the query is a prefix of the whole.
    assert(stmt.take(tq.len() as int) =~= tq);
    assert forall|k: int| 0 <= k < tq.len() implies ascii_upper_seq(stmt)[k] == ascii_upper_seq(tq)[k] by {
        assert(stmt[k] == tq[k]);
    }
    if starts_with(ascii_upper_seq(tq), "SELECT"@) {
        assert(ascii_upper_seq(stmt).subrange(0, 6) =~= ascii_upper_seq(tq).subrange(0, 6));
    } else {
        assert(ascii_upper_seq(stmt).subrange(0, 4) =~= ascii_upper_seq(tq).subrange(0, 4));
    }
    assert(is_read_statement(stmt));
}

/// Guards and wraps a model-written query: only `SELECT`/`WITH` statements
/// pass; a trailing `LIMIT n` is dropped (the cap is applied here, one row
/// past it fetched) and the rows are asked for as one JSON array.
pub fn prepare_query(sql: &str) -> (r: Result<String, String>)
    ensures
        match prepared_query(sql@) {
            Ok(q) => r matches Ok(s) && s@ == q,
            Err(e) => r matches Err(s) && s@ == e,
        },
{
    proof {
        reveal_strlit("SELECT");
        reveal_strlit("WITH");
        reveal_strlit("LIMIT");
    }
    let t = trim_chars(chars_of(sql).as_slice());
    let mut end: usize = t.len();
    assert(t@.take(t@.len() as int) =~= t@);
    while end > 0 && t[end - 1] == ';'
        invariant
            end <= t@.len(),
            strip_trailing(t@, ';') == strip_trailing(t@.take(end as int), ';'),
        decreases end,
    {
        assert(t@.take(end as int).drop_last() =~= t@.take(end - 1));
        end = end - 1;
    }
    let stmt = slice_copy(t.as_slice(), 0, end);
    assert(stmt@ =~= statement_of(sql@));
    let upper = ascii_upper_chars(stmt.as_slice());
    let sel = ['S', 'E', 'L', 'E', 'C', 'T'];
    let with = ['W', 'I', 'T', 'H'];
    assert(sel@ =~= "SELECT"@);
    assert(with@ =~= "WITH"@);
    if !starts_with_chars(upper.as_slice(), sel.as_slice()) && !starts_with_chars(upper.as_slice(), with.as_slice()) {
        let mut e = String::new();
        push_str(&mut e, "Only SELECT/WITH queries are allowed.");
        return Err(e);
    }
    let lim = ['L', 'I', 'M', 'I', 'T'];
    assert(lim@ =~= "LIMIT"@);
    let body = match rfind_chars(upper.as_slice(), lim.as_slice()) {
        Some(pos) => {
            proof {
                crate::text::lemma_last_occurrence(upper@, lim@, upper@.len() - lim@.len());
            }
            assert(upper@.len() == stmt@.len());
            let rest = slice_copy(stmt.as_slice(), pos + 5, stmt.len());
            assert(rest@ =~= stmt@.skip(pos + 5));
            let after = trim_chars(rest.as_slice());
            let mut digits = after.len() > 0;
            let mut k: usize = 0;
            while k < after.len()
                invariant
                    k <= after@.len(),
                    digits == (after@.len() > 0 && forall|j: int| 0 <= j < k ==> '0' <= #[trigger] after@[j] && after@[j] <= '9'),
                decreases after@.len() - k,
            {
                if !('0' <= after[k] && after[k] <= '9') {
                    digits = false;
                }
                k = k + 1;
            }
            if digits {
                let head = slice_copy(stmt.as_slice(), 0, pos);
                assert(head@ =~= stmt@.take(pos as int));
                trim_chars(head.as_slice())
            } else {
                stmt
            }
        },
        None => stmt,
    };
    assert(body@ == without_trailing_limit(stmt@));
    let mut q = String::new();
    push_str(&mut q, "SELECT COALESCE(CAST(json_group_array(to_json(t)) AS VARCHAR), '[]') FROM (");
    push_chars(&mut q, body.as_slice());
    push_str(&mut q, " LIMIT 51) AS t");
    Ok(q)
}

/// A query answer: `null` or nothing means no rows, `[]`.
pub open spec fn answer_text(result: Seq<char>) -> Seq<char> {
    if result == "null"@ || result.len() == 0 {
        "[]"@
    } else {
        result
    }
}

/// The answer text of a query: `[]` when the database gave `null` or
/// nothing, else the JSON array it gave.
pub fn query_answer_text(result: &str) -> (r: String)
    ensures
        r@ == answer_text(result@),
{
    proof {
        reveal_strlit("null");
        reveal_strlit("[]");
    }
    let c = chars_of(result);
    let null = ['n', 'u', 'l', 'l'];
    assert(null@ =~= "null"@);
    let mut out = String::new();
    if c.len() == 0 || chars_eq(c.as_slice(), null.as_slice()) {
        push_str(&mut out, "[]");
    } else {
        push_chars(&mut out, c.as_slice());
    }
    out
}

/// The hint about table columns.
pub open spec fn hint_columns() -> Seq<char> {
    "\nHINT: The `items` table columns are: entry_slug, item_uid, title, size, plus STRUCT columns (lifetime, running, waiting, deferred, delayed, ready, scheduling_overhead, triggering_latency, operation, creator, critical_path, previous_executing, mapper). Access STRUCT fields with dot notation: running.start, running.duration, critical_path.item_uid. The `entries` table columns are: entry_slug, short_name, long_name, parent_slug, type."@
}

/// The hint about timestamps.
pub open spec fn hint_timestamps() -> Seq<char> {
    "\nHINT: All timestamp fields are BIGINT nanoseconds. Use arithmetic: running.duration / 1e6 for milliseconds. Use CAST() for explicit type conversions."@
}

/// The hint about column types.
pub open spec fn hint_types() -> Seq<char> {
    "\nHINT: Type mismatch. Column types: entry_slug is TEXT, item_uid is UBIGINT, title is TEXT. size is TEXT — a unit-suffixed string like '76.000 KiB' or '96 B' (may be NULL); NEVER SUM/CAST it directly. Parse unit-aware: CASE WHEN size LIKE '% KiB' THEN TRY_CAST(REPLACE(size,' KiB','') AS DOUBLE)*1024 WHEN size LIKE '% MiB' THEN TRY_CAST(REPLACE(size,' MiB','') AS DOUBLE)*1048576 WHEN size LIKE '% GiB' THEN TRY_CAST(REPLACE(size,' GiB','') AS DOUBLE)*1073741824 WHEN size LIKE '% B' THEN TRY_CAST(REPLACE(size,' B','') AS DOUBLE) END. STRUCT fields (running.duration, etc.) are BIGINT. You cannot SUM/AVG text columns. Use COUNT(*) for text, SUM()/AVG() only on numeric columns."@
}

/// The message for a failed query: the database's words, then a hint chosen
/// by the kind of failure.
pub open spec fn query_error_text(err: Seq<char>) -> Seq<char> {
    "Query failed: "@ + err + "\n"@ + if contains(err, "not found"@) || contains(err, "Referenced column"@) {
        hint_columns()
    } else if contains(err, "Conversion Error"@) || contains(err, "Could not convert"@) {
        hint_timestamps()
    } else if contains(err, "Binder Error"@) || contains(err, "No function matches"@) {
        hint_types()
    } else {
        seq![]
    }
}

/// The model-readable message for a query that the database refused.
pub fn query_error_message(err: &str) -> (r: String)
    ensures
        r@ == query_error_text(err@),
{
    let e = chars_of(err);
    let mut msg = String::new();
    push_str(&mut msg, "Query failed: ");
    push_chars(&mut msg, e.as_slice());
    push_str(&mut msg, "\n");
    if contains_chars(e.as_slice(), chars_of("not found").as_slice()) || contains_chars(
        e.as_slice(),
        chars_of("Referenced column").as_slice(),
    ) {
        push_str(&mut msg, "\nHINT: The `items` table columns are: entry_slug, item_uid, title, size, plus STRUCT columns (lifetime, running, waiting, deferred, delayed, ready, scheduling_overhead, triggering_latency, operation, creator, critical_path, previous_executing, mapper). Access STRUCT fields with dot notation: running.start, running.duration, critical_path.item_uid. The `entries` table columns are: entry_slug, short_name, long_name, parent_slug, type.");
    } else if contains_chars(e.as_slice(), chars_of("Conversion Error").as_slice()) || contains_chars(
        e.as_slice(),
        chars_of("Could not convert").as_slice(),
    ) {
        push_str(&mut msg, "\nHINT: All timestamp fields are BIGINT nanoseconds. Use arithmetic: running.duration / 1e6 for milliseconds. Use CAST() for explicit type conversions.");
    } else if contains_chars(e.as_slice(), chars_of("Binder Error").as_slice()) || contains_chars(
        e.as_slice(),
        chars_of("No function matches").as_slice(),
    ) {
        push_str(&mut msg, "\nHINT: Type mismatch. Column types: entry_slug is TEXT, item_uid is UBIGINT, title is TEXT. size is TEXT — a unit-suffixed string like '76.000 KiB' or '96 B' (may be NULL); NEVER SUM/CAST it directly. Parse unit-aware: CASE WHEN size LIKE '% KiB' THEN TRY_CAST(REPLACE(size,' KiB','') AS DOUBLE)*1024 WHEN size LIKE '% MiB' THEN TRY_CAST(REPLACE(size,' MiB','') AS DOUBLE)*1048576 WHEN size LIKE '% GiB' THEN TRY_CAST(REPLACE(size,' GiB','') AS DOUBLE)*1073741824 WHEN size LIKE '% B' THEN TRY_CAST(REPLACE(size,' B','') AS DOUBLE) END. STRUCT fields (running.duration, etc.) are BIGINT. You cannot SUM/AVG text columns. Use COUNT(*) for text, SUM()/AVG() only on numeric columns.");
    }
    msg
}

/// The canonical per-`item_uid` de-duplicating `SELECT` (corrected task
/// durations), without a trailing `;` so it composes as a subquery.
pub fn dedup_select_sql() -> (r: &'static str)
    ensures
        r@ == "WITH slices AS (\n    SELECT DISTINCT item_uid, entry_slug, title, lifetime, running, waiting\n    FROM items\n)\nSELECT\n    item_uid,\n    any_value(title)                              AS title,\n    min(entry_slug)                               AS entry_slug,\n    count(DISTINCT entry_slug)                    AS n_slugs,\n    any_value(lifetime.start)                     AS lifetime_start_ns,\n    any_value(lifetime.stop)                      AS lifetime_stop_ns,\n    any_value(lifetime.duration)                  AS lifetime_dur_ns,\n    round(any_value(lifetime.duration) / 1e6, 4)  AS lifetime_ms,\n    round(sum(running.duration) / 1e6, 4)         AS running_ms,\n    round(sum(waiting.duration) / 1e6, 4)         AS waiting_ms,\n    round(max(running.duration) / 1e6, 4)         AS longest_running_slice_ms\nFROM slices\nGROUP BY item_uid"@,
{
    "WITH slices AS (\n    SELECT DISTINCT item_uid, entry_slug, title, lifetime, running, waiting\n    FROM items\n)\nSELECT\n    item_uid,\n    any_value(title)                              AS title,\n    min(entry_slug)                               AS entry_slug,\n    count(DISTINCT entry_slug)                    AS n_slugs,\n    any_value(lifetime.start)                     AS lifetime_start_ns,\n    any_value(lifetime.stop)                      AS lifetime_stop_ns,\n    any_value(lifetime.duration)                  AS lifetime_dur_ns,\n    round(any_value(lifetime.duration) / 1e6, 4)  AS lifetime_ms,\n    round(sum(running.duration) / 1e6, 4)         AS running_ms,\n    round(sum(waiting.duration) / 1e6, 4)         AS waiting_ms,\n    round(max(running.duration) / 1e6, 4)         AS longest_running_slice_ms\nFROM slices\nGROUP BY item_uid"
}

/// The cycle-guarded critical-path walk from `start_uid` toward the root
/// blocker, with de-duplicated durations per step.
pub open spec fn blockers_sql(start_uid: u64) -> Seq<char> {
    "WITH RECURSIVE edges AS (\n    SELECT DISTINCT item_uid AS src, critical_path.item_uid AS dst\n    FROM items WHERE critical_path.item_uid IS NOT NULL\n),\nwalk AS (\n    SELECT CAST("@ + decimal(start_uid as nat) + " AS UBIGINT) AS uid, 0 AS depth,\n           [CAST("@ + decimal(start_uid as nat) + " AS UBIGINT)] AS path, FALSE AS cycle\n    UNION ALL\n    SELECT e.dst, w.depth + 1,\n           list_append(w.path, e.dst),\n           list_contains(w.path, e.dst)        AS cycle\n    FROM walk w\n    JOIN edges e ON e.src = w.uid\n    WHERE w.depth < 64\n      AND NOT w.cycle\n      AND NOT list_contains(w.path, e.dst)\n)\nSELECT w.depth, w.uid, t.title, t.lifetime_ms, t.running_ms, t.waiting_ms\nFROM walk w\nLEFT JOIN (\n    SELECT item_uid, any_value(title) AS title,\n           round(any_value(lifetime.duration)/1e6,4) AS lifetime_ms,\n           round(sum(running.duration)/1e6,4)        AS running_ms,\n           round(sum(waiting.duration)/1e6,4)        AS waiting_ms\n    FROM (SELECT DISTINCT item_uid, entry_slug, title, lifetime, running, waiting FROM items) s\n    GROUP BY item_uid\n) t ON t.item_uid = w.uid\nORDER BY w.depth"@
}

/// The fixed text of the critical-path walk before the first uid.
pub open spec fn blockers_head() -> Seq<char> {
    "WITH RECURSIVE edges AS (\n    SELECT DISTINCT item_uid AS src, critical_path.item_uid AS dst\n    FROM items WHERE critical_path.item_uid IS NOT NULL\n),\nwalk AS (\n    SELECT CAST("@
}

/// The fixed text between the two uids.
pub open spec fn blockers_middle() -> Seq<char> {
    " AS UBIGINT) AS uid, 0 AS depth,\n           [CAST("@
}

/// The fixed text after the second uid.
pub open spec fn blockers_tail() -> Seq<char> {
    " AS UBIGINT)] AS path, FALSE AS cycle\n    UNION ALL\n    SELECT e.dst, w.depth + 1,\n           list_append(w.path, e.dst),\n           list_contains(w.path, e.dst)        AS cycle\n    FROM walk w\n    JOIN edges e ON e.src = w.uid\n    WHERE w.depth < 64\n      AND NOT w.cycle\n      AND NOT list_contains(w.path, e.dst)\n)\nSELECT w.depth, w.uid, t.title, t.lifetime_ms, t.running_ms, t.waiting_ms\nFROM walk w\nLEFT JOIN (\n    SELECT item_uid, any_value(title) AS title,\n           round(any_value(lifetime.duration)/1e6,4) AS lifetime_ms,\n           round(sum(running.duration)/1e6,4)        AS running_ms,\n           round(sum(waiting.duration)/1e6,4)        AS waiting_ms\n    FROM (SELECT DISTINCT item_uid, entry_slug, title, lifetime, running, waiting FROM items) s\n    GROUP BY item_uid\n) t ON t.item_uid = w.uid\nORDER BY w.depth"@
}

/// The critical-path walk SQL differs from uid to uid only in the uid,
/// written in decimal at its two places; distinct uids give distinct SQL.
pub proof fn lemma_blockers_sql_by_uid(a: u64, b: u64)
    ensures
        blockers_sql(a) == blockers_head() + decimal(a as nat) + blockers_middle() + decimal(a as nat)
            + blockers_tail(),
        (blockers_sql(a) == blockers_sql(b)) <==> a == b,
{
    let h = blockers_head();
    let m = blockers_middle();
    let t = blockers_tail();
    let da = decimal(a as nat);
    let db = decimal(b as nat);
    assert(blockers_sql(a) =~= h + da + m + da + t);
    assert(blockers_sql(b) =~= h + db + m + db + t);
    if blockers_sql(a) == blockers_sql(b) {
        if da.len() == db.len() {
            assert(blockers_sql(a).subrange(h.len() as int, (h.len() + da.len()) as int) =~= da);
            assert(blockers_sql(b).subrange(h.len() as int, (h.len() + db.len()) as int) =~= db);
            crate::text::lemma_decimal_injective(a as nat, b as nat);
        } else {
            assert(blockers_sql(a).len() != blockers_sql(b).len());
        }
    }
}

/// The uid as the walk SQL casts it.
pub open spec fn uid_cast(start_uid: u64) -> Seq<char> {
    "CAST("@ + decimal(start_uid as nat) + " AS UBIGINT)"@
}

/// The places where `p` occurs in `s`.
pub open spec fn occurrences(s: Seq<char>, p: Seq<char>) -> Set<int> {
    Set::new(|i: int| occurs_at(s, p, i))
}

/// `CAST(` begins at `i` in `s`.
pub open spec fn cast_at(s: Seq<char>, i: int) -> bool {
    &&& 0 <= i && i + 5 <= s.len()
    &&& s[i] == 'C' && s[i + 1] == 'A' && s[i + 2] == 'S' && s[i + 3] == 'T' && s[i + 4] == '('
}

proof fn lemma_blockers_literals()
    ensures
        forall|i: int| 0 <= i < blockers_head().len() ==> blockers_head()[i] != ';',
        forall|i: int| 0 <= i < blockers_middle().len() ==> blockers_middle()[i] != ';',
        forall|i: int| 0 <= i < blockers_tail().len() ==> blockers_tail()[i] != ';',
        forall|i: int| #[trigger] cast_at(blockers_head(), i) ==> i == blockers_head().len() - 5,
        forall|i: int| #[trigger] cast_at(blockers_middle(), i) ==> i == blockers_middle().len() - 5,
        forall|i: int| !#[trigger] cast_at(blockers_tail(), i),
        blockers_head().len() >= 5,
        blockers_middle().len() >= 17,
        blockers_tail().len() >= 12,
        cast_at(blockers_head(), blockers_head().len() - 5),
        cast_at(blockers_middle(), blockers_middle().len() - 5),
        blockers_middle().take(12) == " AS UBIGINT)"@,
        blockers_tail().take(12) == " AS UBIGINT)"@,
        blockers_head().len() >= 14 && blockers_head().take(14) == "WITH RECURSIVE"@,
        blockers_tail().len() >= 16 && blockers_tail().skip(blockers_tail().len() - 16) == "ORDER BY w.depth"@,
{
    reveal_strlit("WITH RECURSIVE edges AS (\n    SELECT DISTINCT item_uid AS src, critical_path.item_uid AS dst\n    FROM items WHERE critical_path.item_uid IS NOT NULL\n),\nwalk AS (\n    SELECT CAST(");
    reveal_strlit(" AS UBIGINT) AS uid, 0 AS depth,\n           [CAST(");
    reveal_strlit(" AS UBIGINT)] AS path, FALSE AS cycle\n    UNION ALL\n    SELECT e.dst, w.depth + 1,\n           list_append(w.path, e.dst),\n           list_contains(w.path, e.dst)        AS cycle\n    FROM walk w\n    JOIN edges e ON e.src = w.uid\n    WHERE w.depth < 64\n      AND NOT w.cycle\n      AND NOT list_contains(w.path, e.dst)\n)\nSELECT w.depth, w.uid, t.title, t.lifetime_ms, t.running_ms, t.waiting_ms\nFROM walk w\nLEFT JOIN (\n    SELECT item_uid, any_value(title) AS title,\n           round(any_value(lifetime.duration)/1e6,4) AS lifetime_ms,\n           round(sum(running.duration)/1e6,4)        AS running_ms,\n           round(sum(waiting.duration)/1e6,4)        AS waiting_ms\n    FROM (SELECT DISTINCT item_uid, entry_slug, title, lifetime, running, waiting FROM items) s\n    GROUP BY item_uid\n) t ON t.item_uid = w.uid\nORDER BY w.depth");
    reveal_strlit(" AS UBIGINT)");
    assert(blockers_middle().take(12) =~= " AS UBIGINT)"@);
    assert(blockers_tail().take(12) =~= " AS UBIGINT)"@);
    reveal_strlit("WITH RECURSIVE");
    reveal_strlit("ORDER BY w.depth");
    assert(blockers_head().take(14) =~= "WITH RECURSIVE"@);
    assert(blockers_tail().skip(blockers_tail().len() - 16) =~= "ORDER BY w.depth"@);
}

/// The critical-path walk SQL is one statement (no `;`), and the uid's cast
/// occurs in it exactly twice: once as the walk's start and once as the
/// start of its path.
pub proof fn lemma_blockers_sql_shape(a: u64)
    ensures
        starts_with(blockers_sql(a), "WITH RECURSIVE"@),
        ends_with(blockers_sql(a), "ORDER BY w.depth"@),
        !blockers_sql(a).contains(';'),
        occurrences(blockers_sql(a), uid_cast(a)) == set![
            blockers_head().len() - 5,
            blockers_head().len() + decimal(a as nat).len() + blockers_middle().len() - 5,
        ],
        occurrences(blockers_sql(a), uid_cast(a)).len() == 2,
{
    let h = blockers_head();
    let m = blockers_middle();
    let t = blockers_tail();
    let d = decimal(a as nat);
    let s = blockers_sql(a);
    let p = uid_cast(a);
    reveal_strlit("CAST(");
    reveal_strlit(" AS UBIGINT)");
    lemma_blockers_literals();
    crate::text::lemma_decimal_digits(a as nat);
    lemma_blockers_sql_by_uid(a, a);
    let hl = h.len() as int;
    let dl = d.len() as int;
    let ml = m.len() as int;
    let i1 = hl - 5;
    let i2 = hl + dl + ml - 5;
    assert(s =~= h + d + m + d + t);
    assert forall|k: int| 0 <= k < s.len() implies s[k] != ';' by {
        if k < hl {
            assert(s[k] == h[k]);
        } else if k < hl + dl {
            assert(s[k] == d[k - hl]);
        } else if k < hl + dl + ml {
            assert(s[k] == m[k - hl - dl]);
        } else if k < hl + 2 * dl + ml {
            assert(s[k] == d[k - hl - dl - ml]);
        } else {
            assert(s[k] == t[k - hl - 2 * dl - ml]);
        }
    }
    assert(p.len() == 17 + dl);
    // Where `CAST(` stands in the whole text.
    assert forall|i: int| #[trigger] cast_at(s, i) implies i == i1 || i == i2 by {
        if i + 5 <= hl {
            assert(cast_at(h, i));
        } else if i < hl + dl {
            let k = if i < hl { hl } else { i };
            assert(s[k] == d[k - hl]);
        } else if i + 5 <= hl + dl + ml {
            let j = i - hl - dl;
            assert(s[i] == m[j] && s[i + 1] == m[j + 1] && s[i + 2] == m[j + 2] && s[i + 3] == m[j + 3] && s[i + 4] == m[j + 4]);
            assert(cast_at(m, j));
        } else if i < hl + 2 * dl + ml {
            let k = if i < hl + dl + ml { hl + dl + ml } else { i };
            assert(s[k] == d[k - hl - dl - ml]);
        } else {
            let j = i - hl - 2 * dl - ml;
            assert(s[i] == t[j] && s[i + 1] == t[j + 1] && s[i + 2] == t[j + 2] && s[i + 3] == t[j + 3] && s[i + 4] == t[j + 4]);
            assert(cast_at(t, j));
        }
    }
    assert(occurs_at(s, p, i1)) by {
        assert(s.subrange(i1, i1 + p.len()) =~= p);
    }
    assert(occurs_at(s, p, i2)) by {
        assert(s.subrange(i2, i2 + p.len()) =~= p);
    }
    assert forall|i: int| occurs_at(s, p, i) implies i == i1 || i == i2 by {
        assert(s.subrange(i, i + p.len())[0] == p[0]);
        assert(s.subrange(i, i + p.len())[1] == p[1]);
        assert(s.subrange(i, i + p.len())[2] == p[2]);
        assert(s.subrange(i, i + p.len())[3] == p[3]);
        assert(s.subrange(i, i + p.len())[4] == p[4]);
        assert(cast_at(s, i));
    }
    assert(starts_with(s, "WITH RECURSIVE"@)) by {
        reveal_strlit("WITH RECURSIVE");
        assert(s.subrange(0, 14) =~= h.take(14));
    }
    assert(ends_with(s, "ORDER BY w.depth"@)) by {
        reveal_strlit("ORDER BY w.depth");
        assert(s.subrange(s.len() - 16, s.len() as int) =~= t.skip(t.len() - 16));
    }
    assert(occurrences(s, p) =~= set![i1, i2]);
    assert(i1 != i2);
    assert(set![i1, i2].len() == 2) by {
        assert(set![i1, i2] =~= set![i1].insert(i2));
    }
}

/// The critical-path walk SQL for `start_uid` (a number, so nothing
/// model-written reaches the SQL text).
pub fn find_blockers_sql(start_uid: u64) -> (r: String)
    ensures
        r@ == blockers_sql(start_uid),
{
    let n = u64_to_chars(start_uid);
    let mut s = String::new();
    push_str(&mut s, "WITH RECURSIVE edges AS (\n    SELECT DISTINCT item_uid AS src, critical_path.item_uid AS dst\n    FROM items WHERE critical_path.item_uid IS NOT NULL\n),\nwalk AS (\n    SELECT CAST(");
    push_chars(&mut s, n.as_slice());
    push_str(&mut s, " AS UBIGINT) AS uid, 0 AS depth,\n           [CAST(");
    push_chars(&mut s, n.as_slice());
    push_str(&mut s, " AS UBIGINT)] AS path, FALSE AS cycle\n    UNION ALL\n    SELECT e.dst, w.depth + 1,\n           list_append(w.path, e.dst),\n           list_contains(w.path, e.dst)        AS cycle\n    FROM walk w\n    JOIN edges e ON e.src = w.uid\n    WHERE w.depth < 64\n      AND NOT w.cycle\n      AND NOT list_contains(w.path, e.dst)\n)\nSELECT w.depth, w.uid, t.title, t.lifetime_ms, t.running_ms, t.waiting_ms\nFROM walk w\nLEFT JOIN (\n    SELECT item_uid, any_value(title) AS title,\n           round(any_value(lifetime.duration)/1e6,4) AS lifetime_ms,\n           round(sum(running.duration)/1e6,4)        AS running_ms,\n           round(sum(waiting.duration)/1e6,4)        AS waiting_ms\n    FROM (SELECT DISTINCT item_uid, entry_slug, title, lifetime, running, waiting FROM items) s\n    GROUP BY item_uid\n) t ON t.item_uid = w.uid\nORDER BY w.depth");
    s
}

// ───────────────────────────── markdown tables ─────────────────────────────

/// The text of a table cell holding `v` (empty for a missing or null value).
pub open spec fn cell_text(v: Option<JsonValue>) -> Seq<char> {
    match v {
        Some(JsonValue::Str(s)) => s@,
        Some(JsonValue::Number { text, .. }) => text@,
        Some(JsonValue::Bool(b)) => if b {
            "true"@
        } else {
            "false"@
        },
        Some(JsonValue::Array { text, .. }) => text@,
        Some(JsonValue::Object { text, .. }) => text@,
        _ => seq![],
    }
}

/// A table cell shows its value: `true` and `false` as those words (so the
/// two booleans never share a cell text), a string as its characters, a
/// number, array or object as its JSON text, and null or a missing field as
/// nothing.
pub proof fn lemma_cell_shows_value(v: JsonValue)
    ensures
        cell_text(Some(JsonValue::Bool(true))) == "true"@,
        cell_text(Some(JsonValue::Bool(false))) == "false"@,
        cell_text(Some(JsonValue::Bool(true))) != cell_text(Some(JsonValue::Bool(false))),
        cell_text(Some(JsonValue::Null)) == Seq::<char>::empty(),
        cell_text(None) == Seq::<char>::empty(),
        v matches JsonValue::Str(s) ==> cell_text(Some(v)) == s@,
        v matches JsonValue::Number { text, .. } ==> cell_text(Some(v)) == text@,
        v matches JsonValue::Array { text, .. } ==> cell_text(Some(v)) == text@,
        v matches JsonValue::Object { text, .. } ==> cell_text(Some(v)) == text@,
{
    reveal_strlit("true");
    reveal_strlit("false");
    assert("true"@[0] != "false"@[0]);
}

/// ` col |` for each column.
pub open spec fn header_cells(cols: Seq<Seq<char>>) -> Seq<char>
    decreases cols.len(),
{
    if cols.len() == 0 {
        seq![]
    } else {
        header_cells(cols.drop_last()) + " "@ + cols.last() + " |"@
    }
}

/// `------|` for each of `n` columns.
pub open spec fn separator_cells(n: nat) -> Seq<char>
    decreases n,
{
    if n == 0 {
        seq![]
    } else {
        separator_cells((n - 1) as nat) + "------|"@
    }
}

/// ` cell |` for each column of `row`.
pub open spec fn row_cells(row: JsonValue, cols: Seq<Seq<char>>) -> Seq<char>
    decreases cols.len(),
{
    if cols.len() == 0 {
        seq![]
    } else {
        row_cells(row, cols.drop_last()) + " "@ + cell_text(json_field(row, cols.last())) + " |"@
    }
}

/// One table line per row.
pub open spec fn row_lines(rows: Seq<JsonValue>, cols: Seq<Seq<char>>) -> Seq<char>
    decreases rows.len(),
{
    if rows.len() == 0 {
        seq![]
    } else {
        row_lines(rows.drop_last(), cols) + "|"@ + row_cells(rows.last(), cols) + "\n"@
    }
}

/// The columns of a table: the keys of its first row, in the order of `str`.
pub open spec fn table_columns(fields: Seq<(String, JsonValue)>) -> Seq<Seq<char>> {
    fields.map_values(|f: (String, JsonValue)| f.0@).sort_by(text_order())
}

/// The columns of a table are the keys of its first row, each as often as
/// it occurs there, in the order of `str` (ascending).
pub proof fn lemma_table_columns(fields: Seq<(String, JsonValue)>)
    ensures
        table_columns(fields).to_multiset() == fields.map_values(|f: (String, JsonValue)| f.0@).to_multiset(),
        forall|i: int, j: int|
            0 <= i < j < table_columns(fields).len() ==> crate::order::text_le(
                #[trigger] table_columns(fields)[i],
                #[trigger] table_columns(fields)[j],
            ),
{
    let keys = fields.map_values(|f: (String, JsonValue)| f.0@);
    crate::order::lemma_text_order_total();
    keys.lemma_sort_by_ensures(text_order());
    let cols = table_columns(fields);
    assert forall|i: int, j: int| 0 <= i < j < cols.len() implies crate::order::text_le(
        #[trigger] cols[i],
        #[trigger] cols[j],
    ) by {
        assert(text_order()(cols[i], cols[j]));
    }
}

/// The markdown table of a non-empty JSON array whose first item is an
/// object; nothing for anything else.
pub open spec fn markdown_table(v: JsonValue) -> Option<Seq<char>> {
    match v {
        JsonValue::Array { items, .. } => if items@.len() == 0 {
            None
        } else {
            match items@[0] {
                JsonValue::Object { fields, .. } => {
                    let cols = table_columns(fields@);
                    Some(
                        "|"@ + header_cells(cols) + "\n"@ + "|"@ + separator_cells(cols.len()) + "\n"@
                            + row_lines(items@, cols),
                    )
                },
                _ => None,
            }
        },
        _ => None,
    }
}

fn push_cell(out: &mut String, v: Option<&JsonValue>)
    ensures
        final(out)@ == old(out)@ + cell_text(
            match v {
                Some(x) => Some(*x),
                None => None,
            },
        ),
{
    match v {
        Some(JsonValue::Str(s)) => push_str(out, s.as_str()),
        Some(JsonValue::Number { text, .. }) => push_str(out, text.as_str()),
        Some(JsonValue::Bool(b)) => {
            if *b {
                push_str(out, "true");
            } else {
                push_str(out, "false");
            }
        },
        Some(JsonValue::Array { text, .. }) => push_str(out, text.as_str()),
        Some(JsonValue::Object { text, .. }) => push_str(out, text.as_str()),
        _ => {
            assert(old(out)@ + Seq::<char>::empty() =~= old(out)@);
        },
    }
}

/// A JSON text as a markdown table: [`markdown_table_of`] of what it
/// parses to; `None` when it does not parse.
pub fn json_array_to_markdown_table(json_str: &str) -> (r: Option<String>)
    ensures
        match json_parse(json_str@) {
            Some(v) => match markdown_table(v) {
                Some(t) => r matches Some(s) && s@ == t,
                None => r is None,
            },
            None => r is None,
        },
{
    let parsed = parse_json(json_str);
    match &parsed {
        Some(v) => markdown_table_of(Some(v)),
        None => None,
    }
}

/// A parsed JSON array of objects as a markdown table: columns are the
/// first row's keys, sorted; nested arrays and objects appear as compact
/// JSON. `None` when there is no value, or it is not an array, is empty, or
/// does not start with an object.
pub fn markdown_table_of(parsed: Option<&JsonValue>) -> (r: Option<String>)
    ensures
        match parsed {
            Some(v) => match markdown_table(*v) {
                Some(t) => r matches Some(s) && s@ == t,
                None => r is None,
            },
            None => r is None,
        },
{
    let v = match parsed {
        Some(v) => v,
        None => return None,
    };
    let items = match v {
        JsonValue::Array { items, .. } => items,
        _ => return None,
    };
    if items.len() == 0 {
        return None;
    }
    let fields = match &items[0] {
        JsonValue::Object { fields, .. } => fields,
        _ => return None,
    };
    let mut keys: Vec<Vec<char>> = Vec::new();
    let mut i: usize = 0;
    while i < fields.len()
        invariant
            i <= fields@.len(),
            views(keys@) == fields@.map_values(|f: (String, JsonValue)| f.0@).take(i as int),
        decreases fields@.len() - i,
    {
        let ghost before = views(keys@);
        keys.push(chars_of(fields[i].0.as_str()));
        assert(views(keys@) =~= before.push(fields@[i as int].0@));
        assert(fields@.map_values(|f: (String, JsonValue)| f.0@).take(i + 1) =~= fields@.map_values(
            |f: (String, JsonValue)| f.0@,
        ).take(i as int).push(fields@[i as int].0@));
        i = i + 1;
    }
    assert(fields@.map_values(|f: (String, JsonValue)| f.0@).take(fields@.len() as int)
        =~= fields@.map_values(|f: (String, JsonValue)| f.0@));
    let cols = sort_texts(&keys);
    let ghost cv = views(cols@);
    assert(cv == table_columns(fields@));
    let mut out = String::new();
    push_str(&mut out, "|");
    let mut c: usize = 0;
    while c < cols.len()
        invariant
            c <= cols@.len(),
            cv == views(cols@),
            out@ == "|"@ + header_cells(cv.take(c as int)),
        decreases cols@.len() - c,
    {
        push_str(&mut out, " ");
        push_chars(&mut out, cols[c].as_slice());
        push_str(&mut out, " |");
        assert(cv.take(c + 1).drop_last() =~= cv.take(c as int));
        assert(cv.take(c + 1).last() == cols@[c as int]@);
        assert(out@ =~= "|"@ + header_cells(cv.take(c + 1)));
        c = c + 1;
    }
    assert(cv.take(cols@.len() as int) =~= cv);
    push_str(&mut out, "\n");
    push_str(&mut out, "|");
    let ghost mid = out@;
    let mut c: usize = 0;
    while c < cols.len()
        invariant
            c <= cols@.len(),
            out@ == mid + separator_cells(c as nat),
        decreases cols@.len() - c,
    {
        push_str(&mut out, "------|");
        assert(out@ =~= mid + separator_cells((c + 1) as nat));
        c = c + 1;
    }
    push_str(&mut out, "\n");
    let ghost head = out@;
    let mut rix: usize = 0;
    while rix < items.len()
        invariant
            rix <= items@.len(),
            cv == views(cols@),
            out@ == head + row_lines(items@.take(rix as int), cv),
        decreases items@.len() - rix,
    {
        let row = &items[rix];
        let ghost before = out@;
        push_str(&mut out, "|");
        let mut c: usize = 0;
        while c < cols.len()
            invariant
                c <= cols@.len(),
                cv == views(cols@),
                out@ == before + "|"@ + row_cells(*row, cv.take(c as int)),
            decreases cols@.len() - c,
        {
            push_str(&mut out, " ");
            let key = string_of(cols[c].as_slice());
            let cell = crate::json::json_get(row, key.as_str());
            push_cell(&mut out, cell);
            push_str(&mut out, " |");
            assert(cv.take(c + 1).drop_last() =~= cv.take(c as int));
            assert(cv.take(c + 1).last() == cols@[c as int]@);
            assert(out@ =~= before + "|"@ + row_cells(*row, cv.take(c + 1)));
            c = c + 1;
        }
        assert(cv.take(cols@.len() as int) =~= cv);
        push_str(&mut out, "\n");
        assert(items@.take(rix + 1).drop_last() =~= items@.take(rix as int));
        assert(items@.take(rix + 1).last() == items@[rix as int]);
        assert(out@ =~= head + row_lines(items@.take(rix + 1), cv));
        rix = rix + 1;
    }
    assert(items@.take(items@.len() as int) =~= items@);
    Some(out)
}

/// The answer of `run_query`: the rows as a markdown table, or the raw JSON
/// when they do not form one; a failed query keeps its message.
pub fn execute_run_query(answer: Result<String, String>) -> (r: Result<String, String>)
    ensures
        match answer {
            Err(e) => r == Err::<String, String>(e),
            Ok(json) => match json_parse(json@) {
                Some(v) => match markdown_table(v) {
                    Some(t) => r matches Ok(s) && s@ == t,
                    None => r == Ok::<String, String>(json),
                },
                None => r == Ok::<String, String>(json),
            },
        },
{
    match answer {
        Err(e) => Err(e),
        Ok(json) => match json_array_to_markdown_table(json.as_str()) {
            Some(t) => Ok(t),
            None => Ok(json),
        },
    }
}

// ───────────────────────────── the row cap ─────────────────────────────

/// The marker row that ends a capped answer.
pub open spec fn is_cap_marker(v: JsonValue) -> bool {
    match v {
        JsonValue::Object { fields, text } => {
            &&& fields@.len() == 3
            &&& fields@[0].0@ == "_truncated"@ && fields@[0].1 == JsonValue::Bool(true)
            &&& fields@[1].0@ == "_shown"@
            &&& fields@[1].1 matches JsonValue::Number { text: n, as_u64, as_i64 }
            &&& n@ == "50"@ && as_u64 == Some(50u64) && as_i64 == Some(50i64)
            &&& fields@[2].0@ == "_hint"@
            &&& crate::json::json_str(Some(fields@[2].1)) == Some(
                "result capped at 50 rows; refine with aggregation or a narrower filter"@,
            )
            &&& text@ == "{\"_hint\":\"result capped at 50 rows; refine with aggregation or a narrower filter\",\"_shown\":50,\"_truncated\":true}"@
        },
        _ => false,
    }
}

/// The rows of an answer that holds more than [`QUERY_ROW_CAP`] of them.
pub open spec fn over_cap_rows(v: Option<JsonValue>) -> Option<Seq<JsonValue>> {
    match v {
        Some(JsonValue::Array { items, .. }) => if items@.len() > QUERY_ROW_CAP {
            Some(items@)
        } else {
            None
        },
        _ => None,
    }
}

/// `out` is `rows` cut to the cap with the marker row after them.
pub open spec fn is_capped(rows: Seq<JsonValue>, out: Seq<JsonValue>) -> bool {
    &&& out.len() == QUERY_ROW_CAP + 1
    &&& out.take(QUERY_ROW_CAP as int) == rows.take(QUERY_ROW_CAP as int)
    &&& is_cap_marker(out[QUERY_ROW_CAP as int])
}

/// Makes the row cap visible: an answer text that parses to an array of
/// more than [`QUERY_ROW_CAP`] rows comes back as the text `serde_json`
/// writes for its first rows and one marker row after them (the answer
/// itself where writing fails); any other answer (does not parse, not an
/// array, at most the cap) comes back unchanged.
pub fn mark_truncation_if_over(result: String) -> (r: String)
    ensures
        match over_cap_rows(json_parse(result@)) {
            Some(rows) => exists|out: Seq<JsonValue>|
                is_capped(rows, out) && r@ == match json_array_written(out) {
                    Some(t) => t,
                    None => result@,
                },
            None => r == result,
        },
{
    let parsed = parse_json(result.as_str());
    let rows = match parsed {
        Some(JsonValue::Array { items, .. }) => Some(items),
        _ => None,
    };
    match cap_marked_rows(rows) {
        Some(out) => {
            let written = json_array_text(&out);
            proof {
                assert(is_capped(over_cap_rows(json_parse(result@))->Some_0, out@));
            }
            match written {
                Some(t) => t,
                None => result,
            }
        },
        None => result,
    }
}

/// The row cap on parsed rows: more than [`QUERY_ROW_CAP`] rows keep their
/// first rows and get one marker row after them (`Some`); at most the cap,
/// or no rows at all, give `None`.
pub fn cap_marked_rows(rows: Option<Vec<JsonValue>>) -> (r: Option<Vec<JsonValue>>)
    ensures
        match rows {
            Some(v) => if v@.len() > QUERY_ROW_CAP {
                r matches Some(out) && out@.len() == QUERY_ROW_CAP + 1 && out@.take(QUERY_ROW_CAP as int) == v@.take(
                    QUERY_ROW_CAP as int,
                ) && is_cap_marker(out@[QUERY_ROW_CAP as int])
            } else {
                r is None
            },
            None => r is None,
        },
{
    match rows {
        Some(mut v) => {
            if v.len() > QUERY_ROW_CAP {
                let ghost before = v@;
                v.truncate(QUERY_ROW_CAP);
                let mut fields: Vec<(String, JsonValue)> = Vec::new();
                fields.push((string_of(chars_of("_truncated").as_slice()), JsonValue::Bool(true)));
                fields.push((
                    string_of(chars_of("_shown").as_slice()),
                    JsonValue::Number {
                        text: string_of(chars_of("50").as_slice()),
                        as_u64: Some(50),
                        as_i64: Some(50),
                    },
                ));
                fields.push((
                    string_of(chars_of("_hint").as_slice()),
                    JsonValue::Str(
                        string_of(
                            chars_of(
                                "result capped at 50 rows; refine with aggregation or a narrower filter",
                            ).as_slice(),
                        ),
                    ),
                ));
                let text = string_of(
                    chars_of(
                        "{\"_hint\":\"result capped at 50 rows; refine with aggregation or a narrower filter\",\"_shown\":50,\"_truncated\":true}",
                    ).as_slice(),
                );
                v.push(JsonValue::Object { fields, text });
                assert(v@.take(QUERY_ROW_CAP as int) =~= before.take(QUERY_ROW_CAP as int));
                Some(v)
            } else {
                None
            }
        },
        None => None,
    }
}

/// The query that lists every row's slug, as one JSON array cell.
pub const SLUG_SET_SQL: &'static str = "SELECT json_group_array(entry_slug) AS all_slugs FROM entries";

/// `v` is the JSON string `slug`.
pub open spec fn is_text_item(v: JsonValue, slug: Seq<char>) -> bool {
    v matches JsonValue::Str(s) && s@ == slug
}

/// Some item of `items` is the string `slug`.
pub open spec fn lists_slug(items: Seq<JsonValue>, slug: Seq<char>) -> bool {
    exists|k: int| 0 <= k < items.len() && is_text_item(#[trigger] items[k], slug)
}

/// The slug-set cell of the answer: the `all_slugs` field of its first row.
pub open spec fn slug_cell(answer: Option<JsonValue>) -> Option<JsonValue> {
    match answer {
        Some(JsonValue::Array { items, .. }) => if items@.len() > 0 {
            json_field(items@[0], "all_slugs"@)
        } else {
            None
        },
        _ => None,
    }
}

/// Whether the slug set holds `slug`.
pub open spec fn slug_listed(answer: Option<JsonValue>, encoded: Option<JsonValue>, slug: Seq<char>) -> bool {
    match slug_cell(answer) {
        Some(JsonValue::Array { items, .. }) => lists_slug(items@, slug),
        Some(JsonValue::Str(_)) => match encoded {
            Some(JsonValue::Array { items, .. }) => lists_slug(items@, slug),
            _ => false,
        },
        _ => false,
    }
}

fn any_slug(items: &Vec<JsonValue>, slug: &str) -> (r: bool)
    ensures
        r == lists_slug(items@, slug@),
{
    let target = chars_of(slug);
    let mut k: usize = 0;
    while k < items.len()
        invariant
            k <= items@.len(),
            target@ == slug@,
            forall|q: int| 0 <= q < k ==> !is_text_item(#[trigger] items@[q], slug@),
        decreases items@.len() - k,
    {
        match &items[k] {
            JsonValue::Str(s) => {
                if chars_eq(chars_of(s.as_str()).as_slice(), target.as_slice()) {
                    return true;
                }
            },
            _ => {},
        }
        k = k + 1;
    }
    false
}

/// The slug cell read again as JSON, where it came back as a JSON-encoded
/// string.
pub open spec fn slug_encoded(answer: Option<JsonValue>) -> Option<JsonValue> {
    match slug_cell(answer) {
        Some(JsonValue::Str(s)) => json_parse(s@),
        _ => None,
    }
}

/// Whether `slug` names a row of the profile, given the answer of
/// [`SLUG_SET_SQL`]: false when the query failed; else whether the slug set
/// in what the answer parses to holds `slug` (the set may come as a JSON
/// array, or as a string that holds one). The slug is never put into SQL:
/// the whole set is fetched and searched.
pub fn slug_exists(answer: &Result<String, String>, slug: &str) -> (r: bool)
    ensures
        match answer {
            Ok(t) => r == slug_listed(json_parse(t@), slug_encoded(json_parse(t@)), slug@),
            Err(_) => !r,
        },
{
    let text = match answer {
        Ok(t) => t,
        Err(_) => return false,
    };
    let parsed = parse_json(text.as_str());
    let encoded = match &parsed {
        Some(JsonValue::Array { items, .. }) => {
            if items.len() > 0 {
                match json_get(&items[0], "all_slugs") {
                    Some(JsonValue::Str(s)) => parse_json(s.as_str()),
                    _ => None,
                }
            } else {
                None
            }
        },
        _ => None,
    };
    let a = match &parsed {
        Some(v) => Some(v),
        None => None,
    };
    let e = match &encoded {
        Some(v) => Some(v),
        None => None,
    };
    slug_listed_in(a, e, slug)
}

/// Whether `slug` names a row of the profile, given the answer of
/// [`SLUG_SET_SQL`] parsed as JSON (`None` when the query failed or did not
/// give JSON) and, when the slug cell came back as a JSON-encoded string,
/// that string parsed (`None` when it is not JSON).
pub fn slug_listed_in(answer: Option<&JsonValue>, encoded: Option<&JsonValue>, slug: &str) -> (r: bool)
    ensures
        r == slug_listed(
            match answer {
                Some(a) => Some(*a),
                None => None,
            },
            match encoded {
                Some(e) => Some(*e),
                None => None,
            },
            slug@,
        ),
{
    let first = match answer {
        Some(JsonValue::Array { items, .. }) => {
            if items.len() > 0 {
                &items[0]
            } else {
                return false;
            }
        },
        _ => return false,
    };
    match json_get(first, "all_slugs") {
        Some(JsonValue::Array { items, .. }) => any_slug(items, slug),
        Some(JsonValue::Str(_)) => match encoded {
            Some(JsonValue::Array { items, .. }) => any_slug(items, slug),
            _ => false,
        },
        _ => false,
    }
}

} // verus!
