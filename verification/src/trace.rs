//! Session transcripts of the agent: where they go (from the environment's
//! switches), how a session is named, and the note that stands in a
//! transcript for an elided image, in place of the image blocks of a JSON
//! value.

use vstd::prelude::*;
use crate::archive::{join_path, path_join};
use crate::json::{JsonValue, json_field, json_get, json_str};
use vstd::utf8::encode_utf8;
use crate::text::{ascii_lower_chars, ascii_lower_seq, chars_eq, chars_of, decimal, push_chars, push_str, string_of, trim, trim_chars, u64_to_chars};

verus! {

broadcast use vstd::string::group_string_axioms;

/// A value of the trace switch that turns transcripts off (compared after
/// trimming and ASCII lower-casing).
pub open spec fn is_off_switch(t: Seq<char>) -> bool {
    let v = ascii_lower_seq(trim(t));
    v == "off"@ || v == "0"@ || v == "false"@ || v == "no"@
}

/// The transcript directory: none when the switch says off; else the
/// override directory when it is not blank; else `traces` under
/// `.legion_prof_viewer` in the home directory, if there is one.
pub open spec fn trace_dir(toggle: Option<Seq<char>>, dir_override: Option<Seq<char>>, home: Option<Seq<char>>) -> Option<Seq<char>> {
    if toggle matches Some(t) && is_off_switch(t) {
        None
    } else if dir_override matches Some(d) && trim(d).len() > 0 {
        Some(trim(dir_override->Some_0))
    } else {
        match home {
            Some(h) => Some(path_join(path_join(h, ".legion_prof_viewer"@), "traces"@)),
            None => None,
        }
    }
}

/// The text of an optional `&str`.
pub open spec fn str_view(o: Option<&str>) -> Option<Seq<char>> {
    match o {
        Some(s) => Some(s@),
        None => None,
    }
}

/// The text of an optional `String`.
pub open spec fn string_view(o: Option<String>) -> Option<Seq<char>> {
    match o {
        Some(s) => Some(s@),
        None => None,
    }
}

fn off_switch(t: &str) -> (r: bool)
    ensures
        r == is_off_switch(t@),
{
    let v = ascii_lower_chars(trim_chars(chars_of(t).as_slice()).as_slice());
    let off = chars_of("off");
    let zero = chars_of("0");
    let no_ = chars_of("false");
    let no = chars_of("no");
    chars_eq(v.as_slice(), off.as_slice()) || chars_eq(v.as_slice(), zero.as_slice()) || chars_eq(
        v.as_slice(),
        no_.as_slice(),
    ) || chars_eq(v.as_slice(), no.as_slice())
}

/// Where session transcripts go, from the trace switch, the directory
/// override and the home directory as the environment gives them: the
/// switch (`off`, `0`, `false` or `no`, in any case, around blanks) turns
/// tracing off; a non-blank override wins; else the default under home.
pub fn resolve_dir(toggle: Option<&str>, dir_override: Option<&str>, home: Option<&str>) -> (r: Option<String>)
    ensures
        string_view(r) == trace_dir(str_view(toggle), str_view(dir_override), str_view(home)),
{
    if let Some(t) = toggle {
        if off_switch(t) {
            return None;
        }
    }
    if let Some(d) = dir_override {
        let t = trim_chars(chars_of(d).as_slice());
        if t.len() > 0 {
            return Some(string_of(t.as_slice()));
        }
    }
    match home {
        Some(h) => {
            let base = join_path(h, ".legion_prof_viewer");
            Some(join_path(base.as_str(), "traces"))
        },
        None => None,
    }
}

// ───────────────────────────── session ids ─────────────────────────────

/// The lower-case hex digit for `d` (`d < 16`).
pub open spec fn hex_char(d: nat) -> char {
    if d < 10 {
        (('0' as u8) + d) as char
    } else {
        (('a' as u8) + (d - 10)) as char
    }
}

/// Lower-case hexadecimal of `n`, no leading zeros (`{:x}`).
pub open spec fn lower_hex(n: nat) -> Seq<char>
    decreases n,
{
    if n < 16 {
        seq![hex_char(n)]
    } else {
        lower_hex(n / 16).push(hex_char(n % 16))
    }
}

/// `char::is_ascii_hexdigit`.
pub open spec fn is_hex_digit(c: char) -> bool {
    ('0' <= c && c <= '9') || ('a' <= c && c <= 'f') || ('A' <= c && c <= 'F')
}

/// The ASCII hex digits of `s`, in order.
pub open spec fn hex_digits_of(s: Seq<char>) -> Seq<char>
    decreases s.len(),
{
    if s.len() == 0 {
        seq![]
    } else if is_hex_digit(s.last()) {
        hex_digits_of(s.drop_last()).push(s.last())
    } else {
        hex_digits_of(s.drop_last())
    }
}

/// At most the first `n` items of `s`.
pub open spec fn first_n(s: Seq<char>, n: nat) -> Seq<char> {
    if s.len() <= n {
        s
    } else {
        s.take(n as int)
    }
}

/// A session id: the clock in nanoseconds in hex, a `-`, and the first four
/// hex digits found in the thread's debug name.
pub open spec fn session_id_text(nanos: nat, thread_name: Seq<char>) -> Seq<char> {
    lower_hex(nanos) + seq!['-'] + first_n(hex_digits_of(thread_name), 4)
}

fn hex_of(n: u128) -> (r: Vec<char>)
    ensures
        r@ == lower_hex(n as nat),
{
    let mut rev: Vec<char> = Vec::new();
    let mut m: u128 = n;
    while m >= 16
        invariant
            lower_hex(n as nat) == lower_hex(m as nat) + rev@.reverse(),
        decreases m,
    {
        let d = (m % 16) as u8;
        let c = if d < 10 {
            (('0' as u8) + d) as char
        } else {
            (('a' as u8) + (d - 10)) as char
        };
        assert(c == hex_char((m % 16) as nat));
        let ghost old_rev = rev@;
        rev.push(c);
        let nm = m / 16;
        assert(rev@.reverse() =~= seq![c] + old_rev.reverse());
        assert(lower_hex(m as nat) == lower_hex(nm as nat).push(c));
        assert(lower_hex(n as nat) =~= lower_hex(nm as nat) + rev@.reverse());
        m = nm;
    }
    let ghost old_rev = rev@;
    let d = m as u8;
    let c = if d < 10 {
        (('0' as u8) + d) as char
    } else {
        (('a' as u8) + (d - 10)) as char
    };
    rev.push(c);
    assert(rev@.reverse() =~= seq![c] + old_rev.reverse());
    assert(lower_hex(n as nat) =~= rev@.reverse());
    let mut r: Vec<char> = Vec::new();
    let mut i: usize = rev.len();
    while i > 0
        invariant
            i <= rev@.len(),
            r@ == rev@.skip(i as int).reverse(),
        decreases i,
    {
        i = i - 1;
        r.push(rev[i]);
        assert(rev@.skip(i as int).reverse() =~= rev@.skip(i + 1).reverse().push(rev@[i as int]));
    }
    assert(rev@.skip(0) =~= rev@);
    r
}

/// A session id from the clock (`nanos` since the epoch) and the debug name
/// of the current thread: `{nanos:x}-` and up to four hex digits of the
/// name.
pub fn session_id(nanos: u128, thread_name: &str) -> (r: String)
    ensures
        r@ == session_id_text(nanos as nat, thread_name@),
{
    let t = chars_of(thread_name);
    let mut digits: Vec<char> = Vec::new();
    let mut i: usize = 0;
    assert(t@.take(0) =~= Seq::<char>::empty());
    while i < t.len()
        invariant
            i <= t@.len(),
            digits@ == hex_digits_of(t@.take(i as int)),
        decreases t@.len() - i,
    {
        assert(t@.take(i + 1).drop_last() =~= t@.take(i as int));
        assert(t@.take(i + 1).last() == t@[i as int]);
        let c = t[i];
        if ('0' <= c && c <= '9') || ('a' <= c && c <= 'f') || ('A' <= c && c <= 'F') {
            digits.push(c);
        }
        i = i + 1;
    }
    assert(t@.take(t@.len() as int) =~= t@);
    let mut out = string_of(hex_of(nanos).as_slice());
    push_str(&mut out, "-");
    proof {
        reveal_strlit("-");
    }
    let keep: usize = if digits.len() <= 4 {
        digits.len()
    } else {
        4
    };
    let head = crate::text::slice_copy(digits.as_slice(), 0, keep);
    push_chars(&mut out, head.as_slice());
    proof {
        let hd = hex_digits_of(thread_name@);
        if hd.len() <= 4 {
            assert(head@ =~= hd);
        } else {
            assert(head@ =~= hd.take(4));
        }
    }
    out
}

// ───────────────────────────── elided images ─────────────────────────────

/// The size in KiB, rounded to the nearest (halves up), of what
/// `b64_len` base64 characters decode to: `round(b64_len * 3 / 4 / 1024)`.
pub open spec fn decoded_kib(b64_len: nat) -> nat {
    (3 * b64_len + 2048) / 4096
}

/// The note that replaces an image's base64 payload in a transcript.
pub open spec fn image_note_text(media: Option<Seq<char>>, b64_len: nat) -> Seq<char> {
    "["@ + match media {
        Some(m) => m,
        None => "image"@,
    } + " ~"@ + decimal(decoded_kib(b64_len)) + " KB - base64 elided from trace]"@
}

/// The note for an image block whose payload is `b64_len` base64
/// characters of the media type `media` (`image` when it has none).
pub fn image_note(media: Option<&str>, b64_len: usize) -> (r: String)
    ensures
        r@ == image_note_text(str_view(media), b64_len as nat),
{
    let kb: u128 = (3 * (b64_len as u128) + 2048) / 4096;
    assert(kb <= u64::MAX) by (nonlinear_arith)
        requires
            kb == (3 * (b64_len as u128) + 2048) / 4096,
            b64_len <= usize::MAX,
            usize::MAX <= u64::MAX,
    ;
    let mut out = String::new();
    push_str(&mut out, "[");
    match media {
        Some(m) => push_str(&mut out, m),
        None => push_str(&mut out, "image"),
    }
    push_str(&mut out, " ~");
    let digits = u64_to_chars(kb as u64);
    push_chars(&mut out, digits.as_slice());
    push_str(&mut out, " KB - base64 elided from trace]");
    proof {
        reveal_strlit("");
        let m = match str_view(media) {
            Some(m) => m,
            None => "image"@,
        };
        assert(out@ =~= "["@ + m + " ~"@ + decimal(decoded_kib(b64_len as nat)) + " KB - base64 elided from trace]"@);
    }
    out
}

// ───────────────────────────── image blocks ─────────────────────────────

/// A JSON value as a transcript stores it: every image block replaced by a
/// note, everything else as it was.
pub enum Redacted {
    /// An image block: `{"type": "image", "note": note}`.
    Image { note: String },
    /// An object that is not an image block, its fields redacted in order.
    Object(Vec<(String, Redacted)>),
    /// An array, its items redacted in order.
    Array(Vec<Redacted>),
    /// A value that holds no image block (null, a boolean, a number, a
    /// string).
    Keep(JsonValue),
}

/// An object whose `type` is the string `image`.
pub open spec fn is_image_block(v: JsonValue) -> bool {
    v is Object && json_str(json_field(v, "type"@)) == Some("image"@)
}

/// `a.or_else(|| b)`.
pub open spec fn or_else(a: Option<JsonValue>, b: Option<JsonValue>) -> Option<JsonValue> {
    if a is Some { a } else { b }
}

/// The value at `/source/<key>` of `v` (`Value::pointer`).
pub open spec fn source_field(v: JsonValue, key: Seq<char>) -> Option<JsonValue> {
    match json_field(v, "source"@) {
        Some(src) => json_field(src, key),
        None => None,
    }
}

/// An image block's media type: the string at `/source/media_type`, or
/// else at `mimeType` (none when the value found is not a string).
pub open spec fn image_media(v: JsonValue) -> Option<Seq<char>> {
    json_str(or_else(source_field(v, "media_type"@), json_field(v, "mimeType"@)))
}

/// The byte length of an image block's payload (`str::len`, a `usize`):
/// the string at `/source/data`, or else at `data` (0 when there is none).
pub open spec fn image_data_len(v: JsonValue) -> nat {
    match json_str(or_else(source_field(v, "data"@), json_field(v, "data"@))) {
        Some(d) => (encode_utf8(d).len() as usize) as nat,
        None => 0,
    }
}

/// Two values that are the same leaf (null, boolean, number, string).
pub open spec fn same_leaf(a: JsonValue, b: JsonValue) -> bool {
    match a {
        JsonValue::Null => b is Null,
        JsonValue::Bool(x) => b == JsonValue::Bool(x),
        JsonValue::Number { text, as_u64, as_i64 } => match b {
            JsonValue::Number { text: t, as_u64: u, as_i64: i } => t@ == text@ && u == as_u64 && i == as_i64,
            _ => false,
        },
        JsonValue::Str(x) => match b {
            JsonValue::Str(y) => y@ == x@,
            _ => false,
        },
        _ => false,
    }
}

/// `r` is `v` with its image blocks replaced by their notes (see
/// [`image_note_text`]), found at any depth.
pub open spec fn redacts(v: JsonValue, r: Redacted) -> bool
    decreases v, 0nat,
{
    match v {
        JsonValue::Object { fields, .. } => if is_image_block(v) {
            match r {
                Redacted::Image { note } => note@ == image_note_text(image_media(v), image_data_len(v)),
                _ => false,
            }
        } else {
            match r {
                Redacted::Object(rf) => rf@.len() == fields@.len() && fields_redacted(fields@, rf@, fields@.len() as int),
                _ => false,
            }
        },
        JsonValue::Array { items, .. } => match r {
            Redacted::Array(ri) => ri@.len() == items@.len() && items_redacted(items@, ri@, items@.len() as int),
            _ => false,
        },
        _ => match r {
            Redacted::Keep(k) => same_leaf(v, k),
            _ => false,
        },
    }
}

/// The first `n` fields of `rs` are those of `fs` with the same keys and
/// redacted values.
pub open spec fn fields_redacted(fs: Seq<(String, JsonValue)>, rs: Seq<(String, Redacted)>, n: int) -> bool
    decreases fs, n,
{
    if n <= 0 || n > fs.len() || n > rs.len() {
        n <= 0
    } else {
        fields_redacted(fs, rs, n - 1) && rs[n - 1].0@ == fs[n - 1].0@ && redacts(fs[n - 1].1, rs[n - 1].1)
    }
}

/// The first `n` items of `rs` are those of `xs`, redacted.
pub open spec fn items_redacted(xs: Seq<JsonValue>, rs: Seq<Redacted>, n: int) -> bool
    decreases xs, n,
{
    if n <= 0 || n > xs.len() || n > rs.len() {
        n <= 0
    } else {
        items_redacted(xs, rs, n - 1) && redacts(xs[n - 1], rs[n - 1])
    }
}

/// The text of an optional string value.
fn str_of<'a>(o: Option<&'a JsonValue>) -> (r: Option<&'a str>)
    ensures
        str_view(r) == json_str(match o {
            Some(x) => Some(*x),
            None => None,
        }),
{
    match o {
        Some(JsonValue::Str(s)) => Some(s.as_str()),
        _ => None,
    }
}

/// The value at `/source/<key>` of `v`.
fn source_get<'a>(v: &'a JsonValue, key: &str) -> (r: Option<&'a JsonValue>)
    ensures
        match r {
            Some(x) => source_field(*v, key@) == Some(*x),
            None => source_field(*v, key@) is None,
        },
{
    match json_get(v, "source") {
        Some(src) => json_get(src, key),
        None => None,
    }
}

/// The first of two optional values that is there.
fn first_there<'a>(a: Option<&'a JsonValue>, b: Option<&'a JsonValue>) -> (r: Option<&'a JsonValue>)
    ensures
        match r {
            Some(x) => or_else(
                match a { Some(y) => Some(*y), None => None },
                match b { Some(y) => Some(*y), None => None },
            ) == Some(*x),
            None => a is None && b is None,
        },
{
    match a {
        Some(_) => a,
        None => b,
    }
}

/// A copy of a string.
fn copy_string(s: &String) -> (r: String)
    ensures
        r@ == s@,
{
    string_of(chars_of(s.as_str()).as_slice())
}

/// A copy of a value that is not an array or object.
fn copy_leaf(v: &JsonValue) -> (r: JsonValue)
    requires
        !(v is Array),
        !(v is Object),
    ensures
        same_leaf(*v, r),
{
    match v {
        JsonValue::Null => JsonValue::Null,
        JsonValue::Bool(b) => JsonValue::Bool(*b),
        JsonValue::Number { text, as_u64, as_i64 } => JsonValue::Number {
            text: copy_string(text),
            as_u64: *as_u64,
            as_i64: *as_i64,
        },
        JsonValue::Str(s) => JsonValue::Str(copy_string(s)),
        _ => JsonValue::Null,
    }
}

/// `v` with every image block, at any depth, replaced by its note (see
/// [`redacts`]): the media type and the payload's size stay, the base64
/// payload goes.
pub fn redact_images(v: &JsonValue) -> (r: Redacted)
    ensures
        redacts(*v, r),
    decreases v,
{
    proof {
        reveal_strlit("image");
    }
    match v {
        JsonValue::Object { fields, .. } => {
            let ty = str_of(json_get(v, "type"));
            let is_image = match ty {
                Some(t) => crate::text::chars_eq(chars_of(t).as_slice(), chars_of("image").as_slice()),
                None => false,
            };
            if is_image {
                let media = str_of(first_there(source_get(v, "media_type"), json_get(v, "mimeType")));
                let data = str_of(first_there(source_get(v, "data"), json_get(v, "data")));
                let len: usize = match data {
                    Some(d) => d.len(),
                    None => 0,
                };
                let note = image_note(media, len);
                return Redacted::Image { note };
            }
            let mut out: Vec<(String, Redacted)> = Vec::new();
            let mut i: usize = 0;
            while i < fields.len()
                invariant
                    i <= fields@.len(),
                    *v == (JsonValue::Object { fields: *fields, text: v->Object_text }),
                    out@.len() == i,
                    fields_redacted(fields@, out@, i as int),
                decreases fields@.len() - i,
            {
                assert(decreases_to!(*v => (*v)->Object_fields));
                assert(decreases_to!((*v)->Object_fields => (*v)->Object_fields@));
                assert(decreases_to!((*v)->Object_fields@ => (*v)->Object_fields@[i as int]));
                assert(decreases_to!((*v)->Object_fields@[i as int] => (*v)->Object_fields@[i as int].1));
                let key = copy_string(&fields[i].0);
                let val = redact_images(&fields[i].1);
                let ghost before = out@;
                out.push((key, val));
                proof {
                    assert(out@.take(i as int) =~= before);
                    lemma_fields_redacted_prefix(fields@, before, out@, i as int);
                }
                i = i + 1;
            }
            Redacted::Object(out)
        },
        JsonValue::Array { items, .. } => {
            let mut out: Vec<Redacted> = Vec::new();
            let mut i: usize = 0;
            while i < items.len()
                invariant
                    i <= items@.len(),
                    *v == (JsonValue::Array { items: *items, text: v->Array_text }),
                    out@.len() == i,
                    items_redacted(items@, out@, i as int),
                decreases items@.len() - i,
            {
                assert(decreases_to!(*v => (*v)->Array_items));
                assert(decreases_to!((*v)->Array_items => (*v)->Array_items@));
                assert(decreases_to!((*v)->Array_items@ => (*v)->Array_items@[i as int]));
                let val = redact_images(&items[i]);
                let ghost before = out@;
                out.push(val);
                proof {
                    lemma_items_redacted_prefix(items@, before, out@, i as int);
                }
                i = i + 1;
            }
            Redacted::Array(out)
        },
        _ => Redacted::Keep(copy_leaf(v)),
    }
}

proof fn lemma_fields_redacted_prefix(
    fs: Seq<(String, JsonValue)>,
    a: Seq<(String, Redacted)>,
    b: Seq<(String, Redacted)>,
    n: int,
)
    requires
        0 <= n < fs.len(),
        a.len() == n,
        b.len() == n + 1,
        forall|k: int| 0 <= k < n ==> b[k] == a[k],
        fields_redacted(fs, a, n),
        b[n].0@ == fs[n].0@,
        redacts(fs[n].1, b[n].1),
    ensures
        fields_redacted(fs, b, n + 1),
    decreases n,
{
    lemma_fields_redacted_same(fs, a, b, n);
}

proof fn lemma_fields_redacted_same(fs: Seq<(String, JsonValue)>, a: Seq<(String, Redacted)>, b: Seq<(String, Redacted)>, n: int)
    requires
        0 <= n <= a.len(),
        n <= b.len(),
        forall|k: int| 0 <= k < n ==> b[k] == a[k],
        fields_redacted(fs, a, n),
    ensures
        fields_redacted(fs, b, n),
    decreases n,
{
    if n > 0 {
        lemma_fields_redacted_same(fs, a, b, n - 1);
    }
}

proof fn lemma_items_redacted_prefix(xs: Seq<JsonValue>, a: Seq<Redacted>, b: Seq<Redacted>, n: int)
    requires
        0 <= n < xs.len(),
        a.len() == n,
        b.len() == n + 1,
        forall|k: int| 0 <= k < n ==> b[k] == a[k],
        items_redacted(xs, a, n),
        redacts(xs[n], b[n]),
    ensures
        items_redacted(xs, b, n + 1),
{
    lemma_items_redacted_same(xs, a, b, n);
}

proof fn lemma_items_redacted_same(xs: Seq<JsonValue>, a: Seq<Redacted>, b: Seq<Redacted>, n: int)
    requires
        0 <= n <= a.len(),
        n <= b.len(),
        forall|k: int| 0 <= k < n ==> b[k] == a[k],
        items_redacted(xs, a, n),
    ensures
        items_redacted(xs, b, n),
    decreases n,
{
    if n > 0 {
        lemma_items_redacted_same(xs, a, b, n - 1);
    }
}

} // verus!
