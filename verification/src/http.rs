//! The HTTP front door of the in-viewer tool server: request-head parsing
//! (through `httparse`), header lookup, bearer tokens, the Origin host, the
//! checks every `POST /mcp` passes, and response framing.

use vstd::prelude::*;
use vstd::string::StringSliceAdditionalSpecFns;
use vstd::utf8::{decode_utf8, encode_utf8, valid_utf8};
use crate::text::{
    chars_of, decimal, eq_ignore_ascii_case, ascii_lower_seq, first_sep_from, rfind, slice_copy,
    trim, trim_chars, u64_to_chars,
};

verus! {

broadcast use vstd::string::group_string_axioms;

// ───────────────────────────── parsing ─────────────────────────────

/// A parsed request head: where the body starts, the method, the path and
/// the headers (name, raw value), in order.
pub struct RequestHead {
    pub body_start: usize,
    pub method: Option<String>,
    pub path: Option<String>,
    pub headers: Vec<(String, Vec<u8>)>,
}

/// Plain-value form of a request head.
pub type HeadView = (nat, Option<Seq<char>>, Option<Seq<char>>, Seq<(Seq<char>, Seq<u8>)>);

/// The text of an optional string.
pub open spec fn opt_view(o: Option<String>) -> Option<Seq<char>> {
    match o {
        Some(s) => Some(s@),
        None => None,
    }
}

/// The headers as plain values.
pub open spec fn header_views(hs: Seq<(String, Vec<u8>)>) -> Seq<(Seq<char>, Seq<u8>)> {
    hs.map_values(|h: (String, Vec<u8>)| (h.0@, h.1@))
}

impl RequestHead {
    /// The plain-value form of this head.
    pub open spec fn head_view(&self) -> HeadView {
        (self.body_start as nat, opt_view(self.method), opt_view(self.path), header_views(self.headers@))
    }
}

/// What `httparse` reads from `raw` (with room for 32 headers) when the
/// request head is complete and well formed.
pub uninterp spec fn http_head(raw: Seq<u8>) -> Option<HeadView>;

/// `httparse::Request::parse` with 32 header slots: `Some` exactly when it
/// reports a complete head, whose body offset lies within `raw`.
#[verifier::external_body]
fn parse_request_head(raw: &[u8]) -> (r: Option<RequestHead>)
    ensures
        match r {
            Some(h) => http_head(raw@) == Some(h.head_view()) && h.body_start <= raw@.len(),
            None => http_head(raw@) is None,
        },
{
    let mut headers = vec![httparse::EMPTY_HEADER; 32];
    let mut req = httparse::Request::new(&mut headers);
    match req.parse(raw) {
        Ok(httparse::Status::Complete(n)) => Some(RequestHead {
            body_start: n,
            method: req.method.map(|m| m.to_owned()),
            path: req.path.map(|p| p.to_owned()),
            headers: req.headers.iter().map(|h| (h.name.to_owned(), h.value.to_vec())).collect(),
        }),
        _ => None,
    }
}

/// std `str::from_utf8`: the text of `bytes` exactly when they are valid UTF-8.
#[verifier::external_body]
fn utf8_to_string(bytes: &[u8]) -> (r: Option<String>)
    ensures
        r is Some <==> valid_utf8(bytes@),
        r matches Some(s) ==> s@ == decode_utf8(bytes@),
{
    std::str::from_utf8(bytes).ok().map(|s| s.to_owned())
}

// ───────────────────────────── headers ─────────────────────────────

/// Index of the first header named `name` (ASCII case-insensitively).
pub open spec fn header_index(hs: Seq<(Seq<char>, Seq<u8>)>, name: Seq<char>, from: int) -> Option<int>
    decreases hs.len() - from,
{
    if from < 0 || from >= hs.len() {
        None
    } else if ascii_lower_seq(hs[from].0) == ascii_lower_seq(name) {
        Some(from)
    } else {
        header_index(hs, name, from + 1)
    }
}

/// The value of the first header named `name`, when it is valid UTF-8.
pub open spec fn header_text(hs: Seq<(Seq<char>, Seq<u8>)>, name: Seq<char>) -> Option<Seq<char>> {
    match header_index(hs, name, 0) {
        Some(i) => if valid_utf8(hs[i].1) {
            Some(decode_utf8(hs[i].1))
        } else {
            None
        },
        None => None,
    }
}

/// Case-insensitive header lookup: the first header with that name, as text.
pub fn header_value(req: &RequestHead, name: &str) -> (r: Option<String>)
    ensures
        opt_view(r) == header_text(header_views(req.headers@), name@),
{
    let ghost hv = header_views(req.headers@);
    let n = chars_of(name);
    let mut i: usize = 0;
    while i < req.headers.len()
        invariant
            i <= req.headers@.len(),
            hv == header_views(req.headers@),
            n@ == name@,
            header_index(hv, name@, 0) == header_index(hv, name@, i as int),
        decreases req.headers@.len() - i,
    {
        assert(hv[i as int] == (req.headers@[i as int].0@, req.headers@[i as int].1@));
        if eq_ignore_ascii_case(chars_of(req.headers[i].0.as_str()).as_slice(), n.as_slice()) {
            return utf8_to_string(req.headers[i].1.as_slice());
        }
        i = i + 1;
    }
    None
}

/// The credential of a `Bearer <token>` value: the text after the first
/// space, trimmed, when the scheme before it is `bearer` in any case.
pub open spec fn bearer_token(value: Seq<char>) -> Option<Seq<char>> {
    match first_sep_from(value, seq![' '], 0) {
        Some(i) => if ascii_lower_seq(value.take(i)) == ascii_lower_seq("bearer"@) {
            Some(trim(value.skip(i + 1)))
        } else {
            None
        },
        None => None,
    }
}

/// Strips a case-insensitive `Bearer ` scheme, returning the trimmed
/// credential.
pub fn strip_bearer(value: &str) -> (r: Option<String>)
    ensures
        opt_view(r) == bearer_token(value@),
{
    proof {
        reveal_strlit("bearer");
    }
    let v = chars_of(value);
    let sp = [' '];
    assert(sp@ =~= seq![' ']);
    match crate::text::first_sep(v.as_slice(), sp.as_slice(), 0) {
        Some(i) => {
            proof {
                crate::text::lemma_first_sep(v@, sp@, 0);
            }
            let scheme = slice_copy(v.as_slice(), 0, i);
            assert(scheme@ =~= v@.take(i as int));
            let b = chars_of("bearer");
            if eq_ignore_ascii_case(scheme.as_slice(), b.as_slice()) {
                let rest = slice_copy(v.as_slice(), i + 1, v.len());
                assert(rest@ =~= v@.skip(i + 1));
                let t = trim_chars(rest.as_slice());
                Some(crate::text::string_of(t.as_slice()))
            } else {
                None
            }
        },
        None => None,
    }
}

proof fn lemma_or_xor(acc: u8, x: u8, y: u8)
    ensures
        ((acc | (x ^ y)) == 0u8) == (acc == 0u8 && x == y),
{
    assert(((acc | (x ^ y)) == 0u8) == (acc == 0u8 && x == y)) by (bit_vector);
}

/// Compares two tokens byte by byte without stopping at the first
/// difference (the length may leak; the value may not).
pub fn token_eq(a: &str, b: &str) -> (r: bool)
    ensures
        r == (a.spec_bytes() == b.spec_bytes()),
{
    let x = a.as_bytes();
    let y = b.as_bytes();
    if x.len() != y.len() {
        return false;
    }
    let mut acc: u8 = 0;
    let mut i: usize = 0;
    while i < x.len()
        invariant
            i <= x@.len(),
            x@.len() == y@.len(),
            (acc == 0) == (forall|j: int| 0 <= j < i ==> x@[j] == y@[j]),
        decreases x@.len() - i,
    {
        proof {
            lemma_or_xor(acc, x@[i as int], y@[i as int]);
        }
        acc = acc | (x[i] ^ y[i]);
        i = i + 1;
    }
    assert((acc == 0) ==> x@ =~= y@);
    acc == 0
}

// ───────────────────────────── origins ─────────────────────────────

/// The pieces of `s` between occurrences of `sep` (`str::split` with a
/// pattern): the piece after the first occurrence, up to the next one.
pub open spec fn second_piece(s: Seq<char>, sep: Seq<char>) -> Option<Seq<char>> {
    match crate::text::find(s, sep) {
        Some(i) => {
            let rest = s.skip(i + sep.len());
            match crate::text::find(rest, sep) {
                Some(j) => Some(rest.take(j)),
                None => Some(rest),
            }
        },
        None => None,
    }
}

/// The host an `Origin` value names: after the scheme, within the
/// authority (which ends at `/`, `?` or `#`), after any userinfo (up to the
/// last `@`), without the port; an IPv6 host is taken from inside `[...]`.
pub open spec fn origin_host_of(origin: Seq<char>) -> Seq<char> {
    let t = trim(origin);
    let after_scheme = match second_piece(t, "://"@) {
        Some(p) => p,
        None => t,
    };
    let authority = match first_sep_from(after_scheme, seq!['/', '?', '#'], 0) {
        Some(i) => after_scheme.take(i),
        None => after_scheme,
    };
    let hostport = match rfind(authority, "@"@) {
        Some(i) => authority.skip(i + 1),
        None => authority,
    };
    if hostport.len() > 0 && hostport[0] == '[' {
        let rest = hostport.skip(1);
        match first_sep_from(rest, seq![']'], 0) {
            Some(i) => rest.take(i),
            None => rest,
        }
    } else {
        match rfind(hostport, ":"@) {
            Some(i) => hostport.take(i),
            None => hostport,
        }
    }
}

/// The host named by an `Origin` header value (see [`origin_host_of`]).
pub fn origin_host(origin: &str) -> (r: String)
    ensures
        r@ == origin_host_of(origin@),
{
    proof {
        reveal_strlit("://");
        reveal_strlit("@");
        reveal_strlit(":");
    }
    let t = trim_chars(chars_of(origin).as_slice());
    let sch = [':', '/', '/'];
    assert(sch@ =~= "://"@);
    let after_scheme = match crate::text::find_chars(t.as_slice(), sch.as_slice()) {
        Some(i) => {
            assert(t@.len() == t.len());
            let rest = slice_copy(t.as_slice(), i + 3, t.len());
            assert(rest@ =~= t@.skip(i + 3));
            match crate::text::find_chars(rest.as_slice(), sch.as_slice()) {
                Some(j) => {
                    let p = slice_copy(rest.as_slice(), 0, j);
                    assert(p@ =~= rest@.take(j as int));
                    p
                },
                None => rest,
            }
        },
        None => t,
    };
    assert(after_scheme@ == (match second_piece(t@, "://"@) {
        Some(p) => p,
        None => t@,
    }));
    let delims = ['/', '?', '#'];
    assert(delims@ =~= seq!['/', '?', '#']);
    let authority = match crate::text::first_sep(after_scheme.as_slice(), delims.as_slice(), 0) {
        Some(i) => {
            proof {
                crate::text::lemma_first_sep(after_scheme@, delims@, 0);
            }
            let a = slice_copy(after_scheme.as_slice(), 0, i);
            assert(a@ =~= after_scheme@.take(i as int));
            a
        },
        None => after_scheme,
    };
    let at = ['@'];
    assert(at@ =~= "@"@);
    let hostport = match crate::text::rfind_chars(authority.as_slice(), at.as_slice()) {
        Some(i) => {
            proof {
                crate::text::lemma_last_occurrence(authority@, at@, authority@.len() - at@.len());
            }
            let h = slice_copy(authority.as_slice(), i + 1, authority.len());
            assert(h@ =~= authority@.skip(i + 1));
            h
        },
        None => authority,
    };
    let host = if hostport.len() > 0 && hostport[0] == '[' {
        let rest = slice_copy(hostport.as_slice(), 1, hostport.len());
        assert(rest@ =~= hostport@.skip(1));
        let close = [']'];
        assert(close@ =~= seq![']']);
        match crate::text::first_sep(rest.as_slice(), close.as_slice(), 0) {
            Some(i) => {
                proof {
                    crate::text::lemma_first_sep(rest@, close@, 0);
                }
                let h = slice_copy(rest.as_slice(), 0, i);
                assert(h@ =~= rest@.take(i as int));
                h
            },
            None => rest,
        }
    } else {
        let colon = [':'];
        assert(colon@ =~= ":"@);
        match crate::text::rfind_chars(hostport.as_slice(), colon.as_slice()) {
            Some(i) => {
                proof {
                    crate::text::lemma_last_occurrence(hostport@, colon@, hostport@.len() - colon@.len());
                }
                let h = slice_copy(hostport.as_slice(), 0, i);
                assert(h@ =~= hostport@.take(i as int));
                h
            },
            None => hostport,
        }
    };
    crate::text::string_of(host.as_slice())
}

// ───────────────────────────── responses ─────────────────────────────

/// The reason phrase for a status code.
pub open spec fn reason_phrase(code: u16) -> Seq<char> {
    if code == 200 {
        "OK"@
    } else if code == 202 {
        "Accepted"@
    } else if code == 400 {
        "Bad Request"@
    } else if code == 401 {
        "Unauthorized"@
    } else if code == 403 {
        "Forbidden"@
    } else if code == 405 {
        "Method Not Allowed"@
    } else {
        "OK"@
    }
}

/// A complete response: status line, content type, length, `Connection:
/// close`, a blank line, then the body.
pub open spec fn response_bytes(code: u16, content_type: Seq<char>, body: Seq<u8>) -> Seq<u8> {
    encode_utf8(
        "HTTP/1.1 "@ + decimal(code as nat) + " "@ + reason_phrase(code) + "\r\nContent-Type: "@
            + content_type + "\r\nContent-Length: "@ + decimal(body.len()) + "\r\nConnection: close\r\n\r\n"@,
    ) + body
}

/// The bytes of `s` in UTF-8 (`String::into_bytes`).
fn text_bytes(s: String) -> (r: Vec<u8>)
    ensures
        r@ == encode_utf8(s@),
{
    let b = s.as_str().as_bytes();
    let mut r: Vec<u8> = Vec::new();
    let mut i: usize = 0;
    while i < b.len()
        invariant
            i <= b@.len(),
            b@ == encode_utf8(s@),
            r@ == b@.take(i as int),
        decreases b@.len() - i,
    {
        r.push(b[i]);
        assert(b@.take(i + 1) =~= b@.take(i as int).push(b@[i as int]));
        i = i + 1;
    }
    assert(b@.take(b@.len() as int) =~= b@);
    r
}

/// Frames `body` as a complete HTTP/1.1 response with status `code`.
pub fn http_response(code: u16, content_type: &str, body: &[u8]) -> (r: Vec<u8>)
    ensures
        r@ == response_bytes(code, content_type@, body@),
{
    let mut head = String::new();
    crate::text::push_str(&mut head, "HTTP/1.1 ");
    crate::text::push_chars(&mut head, u64_to_chars(code as u64).as_slice());
    crate::text::push_str(&mut head, " ");
    let reason = if code == 200 {
        "OK"
    } else if code == 202 {
        "Accepted"
    } else if code == 400 {
        "Bad Request"
    } else if code == 401 {
        "Unauthorized"
    } else if code == 403 {
        "Forbidden"
    } else if code == 405 {
        "Method Not Allowed"
    } else {
        "OK"
    };
    crate::text::push_str(&mut head, reason);
    crate::text::push_str(&mut head, "\r\nContent-Type: ");
    crate::text::push_str(&mut head, content_type);
    crate::text::push_str(&mut head, "\r\nContent-Length: ");
    crate::text::push_chars(&mut head, u64_to_chars(body.len() as u64).as_slice());
    crate::text::push_str(&mut head, "\r\nConnection: close\r\n\r\n");
    assert(head@ =~= "HTTP/1.1 "@ + decimal(code as nat) + " "@ + reason_phrase(code) + "\r\nContent-Type: "@
        + content_type@ + "\r\nContent-Length: "@ + decimal(body@.len()) + "\r\nConnection: close\r\n\r\n"@);
    let mut out = text_bytes(head);
    let ghost start = out@;
    let mut i: usize = 0;
    while i < body.len()
        invariant
            i <= body@.len(),
            out@ == start + body@.take(i as int),
        decreases body@.len() - i,
    {
        out.push(body[i]);
        assert(body@.take(i + 1) =~= body@.take(i as int).push(body@[i as int]));
        i = i + 1;
    }
    assert(body@.take(body@.len() as int) =~= body@);
    out
}

// ───────────────────────────── admission checks ─────────────────────────────

/// The value of a run of ASCII digits.
pub open spec fn digits_value(d: Seq<char>) -> nat
    decreases d.len(),
{
    if d.len() == 0 {
        0
    } else {
        10 * digits_value(d.drop_last()) + ((d.last() as int) - ('0' as int)) as nat
    }
}

/// Every character is an ASCII digit.
pub open spec fn all_digits(d: Seq<char>) -> bool {
    forall|i: int| 0 <= i < d.len() ==> '0' <= #[trigger] d[i] && d[i] <= '9'
}

/// `usize::from_str`: an optional `+`, then one or more ASCII digits whose
/// value fits.
pub open spec fn parse_usize_text(s: Seq<char>) -> Option<nat> {
    let d = if s.len() > 0 && s[0] == '+' { s.skip(1) } else { s };
    if d.len() > 0 && all_digits(d) && digits_value(d) <= usize::MAX {
        Some(digits_value(d))
    } else {
        None
    }
}

proof fn lemma_digits_monotone(d: Seq<char>, k: int)
    requires
        0 <= k <= d.len(),
        all_digits(d),
    ensures
        digits_value(d.take(k)) <= digits_value(d),
    decreases d.len() - k,
{
    if k < d.len() {
        lemma_digits_monotone(d, k + 1);
        assert(d.take(k + 1).drop_last() =~= d.take(k));
    } else {
        assert(d.take(k) =~= d);
    }
}

/// `usize::from_str` (decimal, optional `+`, overflow is an error).
pub fn parse_usize(s: &[char]) -> (r: Option<usize>)
    ensures
        match r {
            Some(n) => parse_usize_text(s@) == Some(n as nat),
            None => parse_usize_text(s@) is None,
        },
{
    let start: usize = if s.len() > 0 && s[0] == '+' {
        1
    } else {
        0
    };
    let ghost d = s@.skip(start as int);
    assert(s@.skip(0) =~= s@);
    assert(d == (if s@.len() > 0 && s@[0] == '+' { s@.skip(1) } else { s@ }));
    if start >= s.len() {
        return None;
    }
    let mut v: usize = 0;
    let mut i: usize = start;
    while i < s.len()
        invariant
            start <= i <= s@.len(),
            start < s@.len(),
            d == s@.skip(start as int),
            d == (if s@.len() > 0 && s@[0] == '+' { s@.skip(1) } else { s@ }),
            all_digits(d.take(i - start)),
            v as nat == digits_value(d.take(i - start)),
        decreases s@.len() - i,
    {
        let c = s[i];
        assert(d[i - start] == c);
        if !('0' <= c && c <= '9') {
            assert(!all_digits(d));
            return None;
        }
        let dig = (c as u32 - '0' as u32) as usize;
        assert(dig as int == (c as int) - ('0' as int));
        assert(d.take(i + 1 - start).drop_last() =~= d.take(i - start));
        assert(d.take(i + 1 - start).last() == c);
        assert(digits_value(d.take(i + 1 - start)) == 10 * digits_value(d.take(i - start)) + dig);
        match v.checked_mul(10) {
            Some(t) => match t.checked_add(dig) {
                Some(nv) => {
                    v = nv;
                },
                None => {
                    proof {
                        if all_digits(d) {
                            lemma_digits_monotone(d, i + 1 - start);
                        }
                    }
                    return None;
                },
            },
            None => {
                proof {
                    if all_digits(d) {
                        lemma_digits_monotone(d, i + 1 - start);
                    }
                }
                return None;
            },
        }
        i = i + 1;
    }
    assert(d.take(s@.len() - start) =~= d);
    Some(v)
}

/// What the front door does with a request.
pub enum McpRoute {
    /// Answer at once with this response.
    Respond(Vec<u8>),
    /// A sound, authorized `POST /mcp`: its JSON-RPC body is `raw[start..end]`.
    Dispatch { start: usize, end: usize },
}

/// The host of the request's `Origin` header, when the head parses and has one.
pub open spec fn origin_host_in(raw: Seq<u8>) -> Option<Seq<char>> {
    match http_head(raw) {
        Some(h) => match header_text(h.3, "origin"@) {
            Some(o) => Some(origin_host_of(o)),
            None => None,
        },
        None => None,
    }
}

/// The host named by the request's `Origin` header, if any (the caller
/// decides whether that host is a loopback address).
pub fn request_origin_host(raw: &[u8]) -> (r: Option<String>)
    ensures
        opt_view(r) == origin_host_in(raw@),
{
    match parse_request_head(raw) {
        Some(h) => match header_value(&h, "origin") {
            Some(o) => Some(origin_host(o.as_str())),
            None => None,
        },
        None => None,
    }
}

/// The bearer credential in the headers matches `expected` byte for byte.
pub open spec fn authorized(hs: Seq<(Seq<char>, Seq<u8>)>, expected: Seq<char>) -> bool {
    match header_text(hs, "authorization"@) {
        Some(v) => match bearer_token(trim(v)) {
            Some(t) => encode_utf8(t) == encode_utf8(expected),
            None => false,
        },
        None => false,
    }
}

/// The declared body length, or 0 when absent or not a number.
pub open spec fn content_length(hs: Seq<(Seq<char>, Seq<u8>)>) -> nat {
    match header_text(hs, "content-length"@) {
        Some(v) => match parse_usize_text(trim(v)) {
            Some(n) => n,
            None => 0,
        },
        None => 0,
    }
}

/// The smaller of two numbers.
pub open spec fn min_nat(a: nat, b: nat) -> nat {
    if a <= b { a } else { b }
}

/// What the front door decides for a request. `origin_ip_is_loopback` says whether the
/// `Origin` host (see [`origin_host_in`]) parses as a loopback IP address.
pub open spec fn admission(
    raw: Seq<u8>,
    auth_token: Option<Seq<char>>,
    origin_ip_is_loopback: bool,
) -> Result<(nat, nat), Seq<u8>> {
    match http_head(raw) {
        None => Err(response_bytes(400, "text/plain"@, encode_utf8("bad request"@))),
        Some(h) => head_admission(h, raw.len(), auth_token, origin_ip_is_loopback),
    }
}

/// What the front door decides for a parsed head of a request of `raw_len`
/// bytes.
pub open spec fn head_admission(
    h: HeadView,
    raw_len: nat,
    auth_token: Option<Seq<char>>,
    origin_ip_is_loopback: bool,
) -> Result<(nat, nat), Seq<u8>> {
    if !origin_local(h.3, origin_ip_is_loopback) {
        Err(response_bytes(403, "text/plain"@, encode_utf8("forbidden: non-local Origin"@)))
    } else if h.1 != Some("POST"@) || h.2 != Some("/mcp"@) {
        Err(response_bytes(405, "text/plain"@, encode_utf8("method not allowed"@)))
    } else if auth_token matches Some(t) && !authorized(h.3, t) {
        Err(
            response_bytes(
                401,
                "text/plain"@,
                encode_utf8("unauthorized: missing or bad bearer token"@),
            ),
        )
    } else {
        Ok((min_nat(h.0, raw_len), min_nat(h.0 + content_length(h.3), raw_len)))
    }
}

fn plain_response(code: u16, msg: &str) -> (r: Vec<u8>)
    ensures
        r@ == response_bytes(code, "text/plain"@, encode_utf8(msg@)),
{
    http_response(code, "text/plain", msg.as_bytes())
}

/// The `Origin` header, when there is one, names a local host: `localhost`
/// by name, or an address that the caller found to be a loopback IP.
pub open spec fn origin_local(hs: Seq<(Seq<char>, Seq<u8>)>, origin_ip_is_loopback: bool) -> bool {
    match header_text(hs, "origin"@) {
        Some(o) => origin_host_of(o) == "localhost"@ || origin_ip_is_loopback,
        None => true,
    }
}

fn origin_is_local(h: &RequestHead, origin_ip_is_loopback: bool) -> (r: bool)
    ensures
        r == origin_local(header_views(h.headers@), origin_ip_is_loopback),
{
    proof {
        reveal_strlit("localhost");
    }
    match header_value(h, "origin") {
        Some(o) => {
            let host = origin_host(o.as_str());
            let lh = chars_of("localhost");
            crate::text::chars_eq(chars_of(host.as_str()).as_slice(), lh.as_slice()) || origin_ip_is_loopback
        },
        None => true,
    }
}

fn bearer_matches(h: &RequestHead, expected: &str) -> (r: bool)
    ensures
        r == authorized(header_views(h.headers@), expected@),
{
    match header_value(h, "authorization") {
        Some(v) => {
            let tv = crate::text::string_of(trim_chars(chars_of(v.as_str()).as_slice()).as_slice());
            match strip_bearer(tv.as_str()) {
                Some(t) => token_eq(expected, t.as_str()),
                None => false,
            }
        },
        None => false,
    }
}

/// The body range that the head's `Content-Length` names, clipped to the
/// `raw_len` bytes received.
fn body_range(raw_len: usize, h: &RequestHead) -> (r: (usize, usize))
    requires
        h.body_start <= raw_len,
    ensures
        r.0 == min_nat(h.body_start as nat, raw_len as nat),
        r.1 == min_nat(h.body_start as nat + content_length(header_views(h.headers@)), raw_len as nat),
{
    let cl: usize = match header_value(h, "content-length") {
        Some(v) => match parse_usize(trim_chars(chars_of(v.as_str()).as_slice()).as_slice()) {
            Some(n) => n,
            None => 0,
        },
        None => 0,
    };
    let start = h.body_start;
    let end = if cl <= raw_len - start {
        start + cl
    } else {
        raw_len
    };
    (start, end)
}

/// Parses a request head and applies, in order: a well-formed head (else
/// 400), a loopback `Origin` when one is present (else 403), `POST /mcp`
/// (else 405), and the bearer token when the server has one (else 401).
/// A request that passes is dispatched with the body range that its
/// `Content-Length` names, clipped to the bytes received.
pub fn handle_http_request(raw: &[u8], auth_token: Option<&str>, origin_ip_is_loopback: bool) -> (r: McpRoute)
    ensures
        match admission(raw@, opt_view_str(auth_token), origin_ip_is_loopback) {
            Err(resp) => r matches McpRoute::Respond(b) && b@ == resp,
            Ok((s, e)) => r matches McpRoute::Dispatch { start, end } && start == s && end == e,
        },
{
    match parse_request_head(raw) {
        Some(h) => route_request_head(&h, raw.len(), auth_token, origin_ip_is_loopback),
        None => McpRoute::Respond(plain_response(400, "bad request")),
    }
}

/// The checks after the head has parsed, in order: a loopback `Origin`
/// when one is present (else 403), `POST /mcp` (else 405), and the bearer
/// token when the server has one (else 401). A request that passes is
/// dispatched with the body range that its `Content-Length` names, clipped
/// to the `raw_len` bytes received.
pub fn route_request_head(h: &RequestHead, raw_len: usize, auth_token: Option<&str>, origin_ip_is_loopback: bool) -> (r: McpRoute)
    requires
        h.body_start <= raw_len,
    ensures
        match head_admission(h.head_view(), raw_len as nat, opt_view_str(auth_token), origin_ip_is_loopback) {
            Err(resp) => r matches McpRoute::Respond(b) && b@ == resp,
            Ok((s, e)) => r matches McpRoute::Dispatch { start, end } && start == s && end == e,
        },
{
    proof {
        reveal_strlit("POST");
        reveal_strlit("/mcp");
    }
    if !origin_is_local(h, origin_ip_is_loopback) {
        return McpRoute::Respond(plain_response(403, "forbidden: non-local Origin"));
    }
    let is_post = match &h.method {
        Some(m) => crate::text::chars_eq(chars_of(m.as_str()).as_slice(), chars_of("POST").as_slice()),
        None => false,
    };
    let is_mcp = match &h.path {
        Some(p) => crate::text::chars_eq(chars_of(p.as_str()).as_slice(), chars_of("/mcp").as_slice()),
        None => false,
    };
    if !is_post || !is_mcp {
        return McpRoute::Respond(plain_response(405, "method not allowed"));
    }
    if let Some(expected) = auth_token {
        if !bearer_matches(h, expected) {
            return McpRoute::Respond(plain_response(401, "unauthorized: missing or bad bearer token"));
        }
    }
    let (start, end) = body_range(raw_len, h);
    McpRoute::Dispatch { start, end }
}

/// What the approval route decides for a request: the same head, Origin and
/// bearer checks as `POST /mcp` (the token is always required here), with no
/// method or path check; a request that passes yields its body range.
pub open spec fn approve_admission(raw: Seq<u8>, token: Seq<char>, origin_ip_is_loopback: bool) -> Result<(nat, nat), Seq<u8>> {
    match http_head(raw) {
        None => Err(response_bytes(400, "text/plain"@, encode_utf8("bad request"@))),
        Some(h) => approve_head_admission(h, raw.len(), token, origin_ip_is_loopback),
    }
}

/// What the approval route decides for a parsed head of a request of
/// `raw_len` bytes.
pub open spec fn approve_head_admission(h: HeadView, raw_len: nat, token: Seq<char>, origin_ip_is_loopback: bool) -> Result<(nat, nat), Seq<u8>> {
    if !origin_local(h.3, origin_ip_is_loopback) {
        Err(response_bytes(403, "text/plain"@, encode_utf8("forbidden: non-local Origin"@)))
    } else if !authorized(h.3, token) {
        Err(
            response_bytes(
                401,
                "text/plain"@,
                encode_utf8("unauthorized: missing or bad bearer token"@),
            ),
        )
    } else {
        Ok((min_nat(h.0, raw_len), min_nat(h.0 + content_length(h.3), raw_len)))
    }
}

/// The front of the tool-approval route (`POST /approve`): a malformed head
/// is 400, a non-local `Origin` 403, a missing or wrong bearer token 401;
/// otherwise the hook's JSON body is `raw[start..end]`, for the approval
/// broker to decide on.
pub fn handle_approve_request(raw: &[u8], expected_token: &str, origin_ip_is_loopback: bool) -> (r: McpRoute)
    ensures
        match approve_admission(raw@, expected_token@, origin_ip_is_loopback) {
            Err(resp) => r matches McpRoute::Respond(b) && b@ == resp,
            Ok((s, e)) => r matches McpRoute::Dispatch { start, end } && start == s && end == e,
        },
{
    match parse_request_head(raw) {
        Some(h) => route_approve_head(&h, raw.len(), expected_token, origin_ip_is_loopback),
        None => McpRoute::Respond(plain_response(400, "bad request")),
    }
}

/// The approval route's checks after the head has parsed: a loopback
/// `Origin` when one is present (else 403), then the bearer token (else
/// 401); a request that passes yields its body range, clipped to the
/// `raw_len` bytes received.
pub fn route_approve_head(h: &RequestHead, raw_len: usize, expected_token: &str, origin_ip_is_loopback: bool) -> (r: McpRoute)
    requires
        h.body_start <= raw_len,
    ensures
        match approve_head_admission(h.head_view(), raw_len as nat, expected_token@, origin_ip_is_loopback) {
            Err(resp) => r matches McpRoute::Respond(b) && b@ == resp,
            Ok((s, e)) => r matches McpRoute::Dispatch { start, end } && start == s && end == e,
        },
{
    if !origin_is_local(h, origin_ip_is_loopback) {
        return McpRoute::Respond(plain_response(403, "forbidden: non-local Origin"));
    }
    if !bearer_matches(h, expected_token) {
        return McpRoute::Respond(plain_response(401, "unauthorized: missing or bad bearer token"));
    }
    let (start, end) = body_range(raw_len, h);
    McpRoute::Dispatch { start, end }
}

/// Whether `raw` is a complete `POST /approve` request head (the tool
/// approval hook), judged by its request line.
pub fn is_approve_request(raw: &[u8]) -> (r: bool)
    ensures
        r == (http_head(raw@) matches Some(h) && h.1 == Some("POST"@) && h.2 == Some("/approve"@)),
{
    proof {
        reveal_strlit("POST");
        reveal_strlit("/approve");
    }
    match parse_request_head(raw) {
        Some(h) => {
            let is_post = match &h.method {
                Some(m) => crate::text::chars_eq(chars_of(m.as_str()).as_slice(), chars_of("POST").as_slice()),
                None => false,
            };
            let is_approve = match &h.path {
                Some(p) => crate::text::chars_eq(chars_of(p.as_str()).as_slice(), chars_of("/approve").as_slice()),
                None => false,
            };
            is_post && is_approve
        },
        None => false,
    }
}

/// The text of an optional `&str`.
pub open spec fn opt_view_str(o: Option<&str>) -> Option<Seq<char>> {
    match o {
        Some(s) => Some(s@),
        None => None,
    }
}

/// A request is dispatched only when its head parses, it is `POST /mcp`,
/// any `Origin` it carries names a local host, and, when the server has a
/// token, it presents that token.
pub proof fn lemma_dispatch_is_authorized(raw: Seq<u8>, auth_token: Option<Seq<char>>, origin_ip_is_loopback: bool)
    ensures
        admission(raw, auth_token, origin_ip_is_loopback) is Ok ==> match http_head(raw) {
            Some(h) => {
                &&& h.1 == Some("POST"@)
                &&& h.2 == Some("/mcp"@)
                &&& (auth_token matches Some(t) ==> authorized(h.3, t))
                &&& (origin_host_in(raw) matches Some(host) ==> host == "localhost"@ || origin_ip_is_loopback)
            },
            None => false,
        },
{
}

/// Most bytes buffered from one connection.
pub const MAX_REQUEST_BYTES: usize = 1048576;

/// A request has fully arrived: its head parses and the bytes cover the
/// body that its `Content-Length` declares.
pub open spec fn request_arrived(buf: Seq<u8>) -> bool {
    match http_head(buf) {
        Some(h) => buf.len() >= h.0 + content_length(h.3),
        None => false,
    }
}

/// Whether the bytes read so far hold the whole request (head and declared
/// body); the reader keeps reading until they do, the peer stops, or
/// [`MAX_REQUEST_BYTES`] are buffered.
pub fn request_complete(buf: &[u8]) -> (r: bool)
    ensures
        r == request_arrived(buf@),
{
    match parse_request_head(buf) {
        Some(h) => {
            let cl: usize = match header_value(&h, "content-length") {
                Some(v) => match parse_usize(trim_chars(chars_of(v.as_str()).as_slice()).as_slice()) {
                    Some(n) => n,
                    None => 0,
                },
                None => 0,
            };
            assert(cl == content_length(header_views(h.headers@)));
            cl <= buf.len() - h.body_start
        },
        None => false,
    }
}

/// An approval request reaches the broker only when its head parses, any
/// `Origin` it carries names a local host, and it presents the token.
pub proof fn lemma_approve_is_authorized(raw: Seq<u8>, token: Seq<char>, origin_ip_is_loopback: bool)
    ensures
        approve_admission(raw, token, origin_ip_is_loopback) is Ok ==> match http_head(raw) {
            Some(h) => authorized(h.3, token) && origin_local(h.3, origin_ip_is_loopback),
            None => false,
        },
{
}

} // verus!
