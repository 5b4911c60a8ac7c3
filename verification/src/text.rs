//! Character-sequence toolkit shared by the library: conversions between
//! `&str`/`String` and `Vec<char>`, decimal formatting, trimming, searching
//! and line splitting, each stated over `Seq<char>`.

use vstd::prelude::*;

verus! {

broadcast use vstd::string::group_string_axioms;

// ───────────────────────────── conversions ─────────────────────────────

/// The characters of `s`, in order.
pub fn chars_of(s: &str) -> (r: Vec<char>)
    ensures
        r@ == s@,
{
    let mut r: Vec<char> = Vec::new();
    for c in it: s.chars()
        invariant
            r@ == it.seq().take(it.index()),
            it.seq() == s@,
    {
        r.push(c);
        assert(r@ == it.seq().take(it.index() + 1));
    }
    assert(r@ =~= s@);
    r
}

/// Appends one character to `s` (std `String::push`).
#[verifier::external_body]
pub(crate) fn push_char(s: &mut String, c: char)
    ensures
        final(s)@ == old(s)@.push(c),
{
    s.push(c)
}

/// Appends the characters of `v` to `out`.
pub fn push_chars(out: &mut String, v: &[char])
    ensures
        final(out)@ == old(out)@ + v@,
{
    let ghost start = out@;
    let mut i: usize = 0;
    while i < v.len()
        invariant
            i <= v@.len(),
            out@ == start + v@.take(i as int),
        decreases v@.len() - i,
    {
        push_char(out, v[i]);
        assert(v@.take(i as int).push(v@[i as int]) =~= v@.take(i + 1));
        i = i + 1;
    }
    assert(v@.take(v@.len() as int) =~= v@);
}

/// Appends the characters of `s` to `out`.
pub fn push_str(out: &mut String, s: &str)
    ensures
        final(out)@ == old(out)@ + s@,
{
    let v = chars_of(s);
    push_chars(out, v.as_slice());
}

/// A `String` holding exactly the characters of `v`.
pub fn string_of(v: &[char]) -> (r: String)
    ensures
        r@ == v@,
{
    let mut r = String::new();
    push_chars(&mut r, v);
    assert(Seq::<char>::empty() + v@ =~= v@);
    r
}

// ───────────────────────────── decimal numbers ─────────────────────────────

/// The ASCII digit for `d` (`d < 10`).
pub open spec fn digit(d: nat) -> char {
    (('0' as u8) + d) as char
}

/// Decimal representation of `n`, most significant digit first, no leading zeros.
pub open spec fn decimal(n: nat) -> Seq<char>
    decreases n,
{
    if n < 10 {
        seq![digit(n)]
    } else {
        decimal(n / 10).push(digit(n % 10))
    }
}

/// Decimal representation of a signed integer (a leading `-` when negative).
pub open spec fn decimal_int(i: int) -> Seq<char> {
    if i < 0 {
        seq!['-'] + decimal((-i) as nat)
    } else {
        decimal(i as nat)
    }
}

/// `s` padded on the left with `'0'` up to `width` characters.
pub open spec fn zero_pad(s: Seq<char>, width: nat) -> Seq<char> {
    if s.len() >= width {
        s
    } else {
        Seq::new((width - s.len()) as nat, |i: int| '0') + s
    }
}

proof fn lemma_decimal_len(n: nat)
    ensures
        decimal(n).len() >= 1,
        n < 10 ==> decimal(n).len() == 1,
        n >= 10 ==> decimal(n).len() >= 2,
    decreases n,
{
    if n >= 10 {
        lemma_decimal_len(n / 10);
    }
}

/// Every character of a decimal representation is an ASCII digit.
pub proof fn lemma_decimal_digits(n: nat)
    ensures
        decimal(n).len() >= 1,
        forall|k: int| 0 <= k < decimal(n).len() ==> '0' <= #[trigger] decimal(n)[k] <= '9',
    decreases n,
{
    lemma_decimal_len(n);
    if n >= 10 {
        lemma_decimal_digits(n / 10);
        assert((n % 10) < 10);
        assert(forall|k: int| 0 <= k < decimal(n / 10).len() ==> decimal(n)[k] == decimal(n / 10)[k]);
    }
}

/// Different numbers have different decimal representations.
pub proof fn lemma_decimal_injective(a: nat, b: nat)
    requires
        decimal(a) == decimal(b),
    ensures
        a == b,
    decreases a,
{
    lemma_decimal_len(a);
    lemma_decimal_len(b);
    if a < 10 && b < 10 {
        assert(decimal(a)[0] == digit(a));
        assert(decimal(b)[0] == digit(b));
    } else if a >= 10 && b >= 10 {
        assert(decimal(a).last() == digit(a % 10));
        assert(decimal(b).last() == digit(b % 10));
        assert(decimal(a).drop_last() =~= decimal(a / 10));
        assert(decimal(b).drop_last() =~= decimal(b / 10));
        lemma_decimal_injective(a / 10, b / 10);
    }
}

/// Decimal representation of `n`.
pub fn u64_to_chars(n: u64) -> (r: Vec<char>)
    ensures
        r@ == decimal(n as nat),
{
    // Collect digits least significant first, then reverse.
    let mut rev: Vec<char> = Vec::new();
    let mut m: u64 = n;
    while m >= 10
        invariant
            decimal(n as nat) == decimal(m as nat) + rev@.reverse(),
        decreases m,
    {
        let d = m % 10;
        let c = (('0' as u8) + (d as u8)) as char;
        let ghost old_rev = rev@;
        rev.push(c);
        let nm = m / 10;
        assert(rev@.reverse() =~= seq![c] + old_rev.reverse());
        assert(decimal(m as nat) == decimal(nm as nat).push(c));
        assert(decimal(n as nat) =~= decimal(nm as nat) + rev@.reverse());
        m = nm;
    }
    let ghost old_rev = rev@;
    let c = (('0' as u8) + (m as u8)) as char;
    rev.push(c);
    assert(rev@.reverse() =~= seq![c] + old_rev.reverse());
    assert(decimal(n as nat) =~= rev@.reverse());
    let mut r: Vec<char> = Vec::new();
    let mut i: usize = rev.len();
    while i > 0
        invariant
            i <= rev@.len(),
            r@ == rev@.skip(i as int).reverse(),
        decreases i,
    {
        i = i - 1;
        r.push(rev[i]);
        assert(rev@.skip(i as int).reverse() =~= rev@.skip(i + 1).reverse().push(rev@[i as int]));
    }
    assert(rev@.skip(0) =~= rev@);
    r
}

/// Decimal representation of a signed integer.
pub fn i64_to_chars(i: i64) -> (r: Vec<char>)
    ensures
        r@ == decimal_int(i as int),
{
    if i < 0 {
        let mag: u64 = if i == i64::MIN {
            9223372036854775808u64
        } else {
            (-i) as u64
        };
        let digits = u64_to_chars(mag);
        let mut r: Vec<char> = Vec::new();
        r.push('-');
        let mut k: usize = 0;
        while k < digits.len()
            invariant
                k <= digits@.len(),
                r@ == seq!['-'] + digits@.take(k as int),
            decreases digits@.len() - k,
        {
            r.push(digits[k]);
            assert(digits@.take(k as int).push(digits@[k as int]) =~= digits@.take(k + 1));
            k = k + 1;
        }
        assert(digits@.take(digits@.len() as int) =~= digits@);
        r
    } else {
        u64_to_chars(i as u64)
    }
}

/// `v` left-padded with zeros to `width` characters.
pub fn zero_pad_chars(v: &[char], width: usize) -> (r: Vec<char>)
    ensures
        r@ == zero_pad(v@, width as nat),
{
    let mut r: Vec<char> = Vec::new();
    if v.len() < width {
        let n = width - v.len();
        let mut k: usize = 0;
        while k < n
            invariant
                k <= n,
                r@ == Seq::new(k as nat, |i: int| '0'),
            decreases n - k,
        {
            r.push('0');
            assert(Seq::new(k as nat, |i: int| '0').push('0') =~= Seq::new((k + 1) as nat, |i: int| '0'));
            k = k + 1;
        }
    }
    let ghost pad = r@;
    let mut i: usize = 0;
    while i < v.len()
        invariant
            i <= v@.len(),
            r@ == pad + v@.take(i as int),
        decreases v@.len() - i,
    {
        r.push(v[i]);
        assert(v@.take(i as int).push(v@[i as int]) =~= v@.take(i + 1));
        i = i + 1;
    }
    assert(v@.take(v@.len() as int) =~= v@);
    if v.len() >= width {
        assert(pad =~= Seq::<char>::empty());
        assert(r@ =~= v@);
    }
    r
}

// ───────────────────────────── slices and searching ─────────────────────────────

/// A copy of `v[a..b]`.
pub fn slice_copy(v: &[char], a: usize, b: usize) -> (r: Vec<char>)
    requires
        a <= b <= v@.len(),
    ensures
        r@ == v@.subrange(a as int, b as int),
{
    let mut r: Vec<char> = Vec::new();
    let mut i: usize = a;
    while i < b
        invariant
            a <= i <= b,
            b <= v@.len(),
            r@ == v@.subrange(a as int, i as int),
        decreases b - i,
    {
        r.push(v[i]);
        assert(v@.subrange(a as int, i as int).push(v@[i as int]) =~= v@.subrange(a as int, i + 1));
        i = i + 1;
    }
    r
}

/// `p` occurs in `s` starting at index `i`.
pub open spec fn occurs_at(s: Seq<char>, p: Seq<char>, i: int) -> bool {
    0 <= i && i + p.len() <= s.len() && s.subrange(i, i + p.len()) == p
}

/// `s` begins with `p`.
pub open spec fn starts_with(s: Seq<char>, p: Seq<char>) -> bool {
    occurs_at(s, p, 0)
}

/// `s` ends with `p`.
pub open spec fn ends_with(s: Seq<char>, p: Seq<char>) -> bool {
    p.len() <= s.len() && occurs_at(s, p, s.len() - p.len())
}

/// `p` occurs somewhere in `s`.
pub open spec fn contains(s: Seq<char>, p: Seq<char>) -> bool {
    exists|i: int| occurs_at(s, p, i)
}

/// Index of the first occurrence of `p` in `s` at or after `from`, if any.
pub open spec fn first_occurrence_from(s: Seq<char>, p: Seq<char>, from: int) -> Option<int>
    decreases s.len() + 1 - from,
{
    if from < 0 || from + p.len() > s.len() {
        None
    } else if occurs_at(s, p, from) {
        Some(from)
    } else {
        first_occurrence_from(s, p, from + 1)
    }
}

/// Index of the first occurrence of `p` in `s` (`str::find`).
pub open spec fn find(s: Seq<char>, p: Seq<char>) -> Option<int> {
    first_occurrence_from(s, p, 0)
}

/// Index of the last occurrence of `p` in `s` that starts at or before `upto` (`str::rfind`).
pub open spec fn last_occurrence_upto(s: Seq<char>, p: Seq<char>, upto: int) -> Option<int>
    decreases upto + 1,
{
    if upto < 0 {
        None
    } else if occurs_at(s, p, upto) {
        Some(upto)
    } else {
        last_occurrence_upto(s, p, upto - 1)
    }
}

/// Index of the last occurrence of `p` in `s`.
pub open spec fn rfind(s: Seq<char>, p: Seq<char>) -> Option<int> {
    last_occurrence_upto(s, p, s.len() - p.len())
}

pub proof fn lemma_first_occurrence(s: Seq<char>, p: Seq<char>, from: int)
    requires
        0 <= from,
    ensures
        first_occurrence_from(s, p, from) matches Some(i) ==> from <= i && occurs_at(s, p, i)
            && forall|j: int| from <= j < i ==> !occurs_at(s, p, j),
        first_occurrence_from(s, p, from) is None ==> forall|j: int|
            from <= j ==> !occurs_at(s, p, j),
    decreases s.len() + 1 - from,
{
    if from + p.len() <= s.len() && !occurs_at(s, p, from) {
        lemma_first_occurrence(s, p, from + 1);
    }
}

pub proof fn lemma_last_occurrence(s: Seq<char>, p: Seq<char>, upto: int)
    ensures
        last_occurrence_upto(s, p, upto) matches Some(i) ==> 0 <= i <= upto && occurs_at(s, p, i)
            && forall|j: int| i < j <= upto ==> !occurs_at(s, p, j),
        last_occurrence_upto(s, p, upto) is None ==> forall|j: int|
            j <= upto ==> !occurs_at(s, p, j),
    decreases upto + 1,
{
    if upto >= 0 && !occurs_at(s, p, upto) {
        lemma_last_occurrence(s, p, upto - 1);
    }
}

/// Whether `p` occurs in `s` at index `i`.
pub fn matches_at(s: &[char], p: &[char], i: usize) -> (r: bool)
    ensures
        r == occurs_at(s@, p@, i as int),
{
    if i > s.len() || p.len() > s.len() - i {
        return false;
    }
    let mut k: usize = 0;
    while k < p.len()
        invariant
            i + p@.len() <= s@.len(),
            s@.len() == s.len(),
            k <= p@.len(),
            forall|j: int| 0 <= j < k ==> s@[i + j] == p@[j],
        decreases p@.len() - k,
    {
        if s[i + k] != p[k] {
            assert(s@.subrange(i as int, i + p@.len())[k as int] != p@[k as int]);
            return false;
        }
        k = k + 1;
    }
    assert(s@.subrange(i as int, i + p@.len()) =~= p@);
    true
}

/// Index of the first occurrence of `p` in `s` at or after `from`.
pub fn find_from(s: &[char], p: &[char], from: usize) -> (r: Option<usize>)
    ensures
        r matches Some(i) ==> Some(i as int) == first_occurrence_from(s@, p@, from as int)
            && occurs_at(s@, p@, i as int),
        r is None ==> first_occurrence_from(s@, p@, from as int) is None,
{
    proof {
        lemma_first_occurrence(s@, p@, from as int);
    }
    if p.len() > s.len() {
        return None;
    }
    let last = s.len() - p.len();
    if from > last {
        return None;
    }
    let mut i: usize = from;
    loop
        invariant
            last + p@.len() == s@.len(),
            from <= i <= last,
            first_occurrence_from(s@, p@, from as int) == first_occurrence_from(s@, p@, i as int),
        decreases last - i,
    {
        if matches_at(s, p, i) {
            return Some(i);
        }
        if i == last {
            assert(first_occurrence_from(s@, p@, i + 1) is None);
            return None;
        }
        i = i + 1;
    }
}

/// Index of the first occurrence of `p` in `s` (`str::find`).
pub fn find_chars(s: &[char], p: &[char]) -> (r: Option<usize>)
    ensures
        r matches Some(i) ==> Some(i as int) == find(s@, p@) && occurs_at(s@, p@, i as int),
        r is None ==> find(s@, p@) is None,
{
    find_from(s, p, 0)
}

/// Whether `p` occurs in `s`.
pub fn contains_chars(s: &[char], p: &[char]) -> (r: bool)
    ensures
        r == contains(s@, p@),
{
    proof {
        lemma_first_occurrence(s@, p@, 0);
    }
    let f = find_chars(s, p);
    f.is_some()
}

/// Index of the last occurrence of `p` in `s` (`str::rfind`).
pub fn rfind_chars(s: &[char], p: &[char]) -> (r: Option<usize>)
    ensures
        r matches Some(i) ==> Some(i as int) == rfind(s@, p@),
        r is None ==> rfind(s@, p@) is None,
{
    if p.len() > s.len() {
        proof {
            lemma_last_occurrence(s@, p@, s@.len() - p@.len());
        }
        return None;
    }
    let mut i: usize = s.len() - p.len();
    loop
        invariant
            i <= s@.len() - p@.len(),
            p@.len() <= s@.len(),
            rfind(s@, p@) == last_occurrence_upto(s@, p@, i as int),
        decreases i,
    {
        if matches_at(s, p, i) {
            return Some(i);
        }
        if i == 0 {
            assert(last_occurrence_upto(s@, p@, -1) is None);
            return None;
        }
        i = i - 1;
    }
}

/// Whether `s` begins with `p`.
pub fn starts_with_chars(s: &[char], p: &[char]) -> (r: bool)
    ensures
        r == starts_with(s@, p@),
{
    matches_at(s, p, 0)
}

/// Whether `s` ends with `p`.
pub fn ends_with_chars(s: &[char], p: &[char]) -> (r: bool)
    ensures
        r == ends_with(s@, p@),
{
    if p.len() > s.len() {
        false
    } else {
        matches_at(s, p, s.len() - p.len())
    }
}

// ───────────────────────────── whitespace and trimming ─────────────────────────────

/// Unicode `White_Space` (the property behind `char::is_whitespace`).
pub open spec fn is_whitespace(c: char) -> bool {
    ||| ('\u{9}' <= c && c <= '\u{d}')
    ||| c == ' '
    ||| c == '\u{85}'
    ||| c == '\u{a0}'
    ||| c == '\u{1680}'
    ||| ('\u{2000}' <= c && c <= '\u{200a}')
    ||| c == '\u{2028}'
    ||| c == '\u{2029}'
    ||| c == '\u{202f}'
    ||| c == '\u{205f}'
    ||| c == '\u{3000}'
}

/// `char::is_whitespace`.
pub fn is_whitespace_char(c: char) -> (r: bool)
    ensures
        r == is_whitespace(c),
{
    ('\u{9}' <= c && c <= '\u{d}') || c == ' ' || c == '\u{85}' || c == '\u{a0}' || c
        == '\u{1680}' || ('\u{2000}' <= c && c <= '\u{200a}') || c == '\u{2028}' || c
        == '\u{2029}' || c == '\u{202f}' || c == '\u{205f}' || c == '\u{3000}'
}

/// Number of leading whitespace characters of `s`.
pub open spec fn leading_ws(s: Seq<char>) -> nat
    decreases s.len(),
{
    if s.len() > 0 && is_whitespace(s[0]) {
        1 + leading_ws(s.drop_first())
    } else {
        0
    }
}

/// Number of trailing whitespace characters of `s`.
pub open spec fn trailing_ws(s: Seq<char>) -> nat
    decreases s.len(),
{
    if s.len() > 0 && is_whitespace(s.last()) {
        1 + trailing_ws(s.drop_last())
    } else {
        0
    }
}

/// `str::trim_start`.
pub open spec fn trim_start(s: Seq<char>) -> Seq<char> {
    s.skip(leading_ws(s) as int)
}

/// `str::trim_end`.
pub open spec fn trim_end(s: Seq<char>) -> Seq<char> {
    s.take(s.len() - trailing_ws(s))
}

/// `str::trim`.
pub open spec fn trim(s: Seq<char>) -> Seq<char> {
    trim_end(trim_start(s))
}

pub proof fn lemma_leading_ws(s: Seq<char>)
    ensures
        leading_ws(s) <= s.len(),
        forall|j: int| 0 <= j < leading_ws(s) ==> is_whitespace(#[trigger] s[j]),
        leading_ws(s) < s.len() ==> !is_whitespace(s[leading_ws(s) as int]),
    decreases s.len(),
{
    if s.len() > 0 && is_whitespace(s[0]) {
        lemma_leading_ws(s.drop_first());
        assert forall|j: int| 0 <= j < leading_ws(s) implies is_whitespace(#[trigger] s[j]) by {
            if j > 0 {
                assert(s[j] == s.drop_first()[j - 1]);
            }
        }
    }
}

pub proof fn lemma_trailing_ws(s: Seq<char>)
    ensures
        trailing_ws(s) <= s.len(),
        forall|j: int| s.len() - trailing_ws(s) <= j < s.len() ==> is_whitespace(#[trigger] s[j]),
        trailing_ws(s) < s.len() ==> !is_whitespace(s[s.len() - trailing_ws(s) - 1]),
    decreases s.len(),
{
    if s.len() > 0 && is_whitespace(s.last()) {
        lemma_trailing_ws(s.drop_last());
        assert forall|j: int| s.len() - trailing_ws(s) <= j < s.len() implies is_whitespace(
            #[trigger] s[j],
        ) by {
            if j < s.len() - 1 {
                assert(s[j] == s.drop_last()[j]);
            }
        }
    }
}

/// Leading whitespace count, computed.
pub fn leading_ws_len(s: &[char], a: usize, b: usize) -> (r: usize)
    requires
        a <= b <= s@.len(),
    ensures
        r == leading_ws(s@.subrange(a as int, b as int)),
{
    let ghost t = s@.subrange(a as int, b as int);
    let mut i: usize = a;
    while i < b && is_whitespace_char(s[i])
        invariant
            a <= i <= b,
            b <= s@.len(),
            t == s@.subrange(a as int, b as int),
            leading_ws(t) == (i - a) + leading_ws(s@.subrange(i as int, b as int)),
        decreases b - i,
    {
        assert(s@.subrange(i as int, b as int).drop_first() =~= s@.subrange(i + 1, b as int));
        i = i + 1;
    }
    i - a
}

/// Trailing whitespace count, computed.
pub fn trailing_ws_len(s: &[char], a: usize, b: usize) -> (r: usize)
    requires
        a <= b <= s@.len(),
    ensures
        r == trailing_ws(s@.subrange(a as int, b as int)),
{
    let ghost t = s@.subrange(a as int, b as int);
    let mut j: usize = b;
    while j > a && is_whitespace_char(s[j - 1])
        invariant
            a <= j <= b,
            b <= s@.len(),
            t == s@.subrange(a as int, b as int),
            trailing_ws(t) == (b - j) + trailing_ws(s@.subrange(a as int, j as int)),
        decreases j,
    {
        assert(s@.subrange(a as int, j as int).drop_last() =~= s@.subrange(a as int, j - 1));
        j = j - 1;
    }
    b - j
}

/// Bounds `(lo, hi)` such that `s[lo..hi]` is `trim(s[a..b])`.
pub fn trim_bounds(s: &[char], a: usize, b: usize) -> (r: (usize, usize))
    requires
        a <= b <= s@.len(),
    ensures
        a <= r.0 <= r.1 <= b,
        s@.subrange(r.0 as int, r.1 as int) == trim(s@.subrange(a as int, b as int)),
{
    let ghost t = s@.subrange(a as int, b as int);
    proof {
        lemma_leading_ws(t);
    }
    let l = leading_ws_len(s, a, b);
    let lo = a + l;
    assert(t.skip(l as int) =~= s@.subrange(lo as int, b as int));
    let tr = trailing_ws_len(s, lo, b);
    proof {
        lemma_trailing_ws(s@.subrange(lo as int, b as int));
    }
    let hi = b - tr;
    assert(s@.subrange(lo as int, b as int).take((b - lo) - tr) =~= s@.subrange(lo as int, hi as int));
    (lo, hi)
}

/// `str::trim`, on characters.
pub fn trim_chars(s: &[char]) -> (r: Vec<char>)
    ensures
        r@ == trim(s@),
{
    let (lo, hi) = trim_bounds(s, 0, s.len());
    assert(s@.subrange(0, s@.len() as int) =~= s@);
    slice_copy(s, lo, hi)
}

/// `str::trim_start`, on characters.
pub fn trim_start_chars(s: &[char]) -> (r: Vec<char>)
    ensures
        r@ == trim_start(s@),
{
    proof {
        lemma_leading_ws(s@);
    }
    let l = leading_ws_len(s, 0, s.len());
    assert(s@.subrange(0, s@.len() as int) =~= s@);
    let r = slice_copy(s, l, s.len());
    assert(r@ =~= trim_start(s@));
    r
}

/// `str::trim_end`, on characters.
pub fn trim_end_chars(s: &[char]) -> (r: Vec<char>)
    ensures
        r@ == trim_end(s@),
{
    proof {
        lemma_trailing_ws(s@);
    }
    let t = trailing_ws_len(s, 0, s.len());
    assert(s@.subrange(0, s@.len() as int) =~= s@);
    let r = slice_copy(s, 0, s.len() - t);
    assert(r@ =~= trim_end(s@));
    r
}

// ───────────────────────────── splitting ─────────────────────────────

/// The character views of a sequence of character vectors.
pub open spec fn views(v: Seq<Vec<char>>) -> Seq<Seq<char>> {
    v.map_values(|x: Vec<char>| x@)
}

/// Index of the first character of `s` at or after `from` that is one of `seps`.
pub open spec fn first_sep_from(s: Seq<char>, seps: Seq<char>, from: int) -> Option<int>
    decreases s.len() - from,
{
    if from < 0 || from >= s.len() {
        None
    } else if seps.contains(s[from]) {
        Some(from)
    } else {
        first_sep_from(s, seps, from + 1)
    }
}

pub proof fn lemma_first_sep(s: Seq<char>, seps: Seq<char>, from: int)
    requires
        0 <= from,
    ensures
        first_sep_from(s, seps, from) matches Some(i) ==> from <= i < s.len() && seps.contains(
            s[i],
        ) && forall|j: int| from <= j < i ==> !seps.contains(#[trigger] s[j]),
        first_sep_from(s, seps, from) is None ==> forall|j: int|
            from <= j < s.len() ==> !seps.contains(#[trigger] s[j]),
    decreases s.len() - from,
{
    if from < s.len() && !seps.contains(s[from]) {
        lemma_first_sep(s, seps, from + 1);
    }
}

/// `str::split` with a set of separator characters: the pieces between separators.
pub open spec fn split_by(s: Seq<char>, seps: Seq<char>) -> Seq<Seq<char>>
    decreases s.len(),
{
    match first_sep_from(s, seps, 0) {
        Some(i) => {
            if 0 <= i < s.len() {
                seq![s.take(i)] + split_by(s.skip(i + 1), seps)
            } else {
                seq![s]
            }
        },
        None => seq![s],
    }
}

/// Drops one trailing carriage return.
pub open spec fn strip_cr(l: Seq<char>) -> Seq<char> {
    if l.len() > 0 && l.last() == '\r' {
        l.drop_last()
    } else {
        l
    }
}

/// `str::lines`: pieces ended by `\n` (a `\r` before the `\n` is dropped);
/// the final line ending is optional and an empty text has no lines.
pub open spec fn lines(s: Seq<char>) -> Seq<Seq<char>>
    decreases s.len(),
{
    if s.len() == 0 {
        seq![]
    } else {
        match first_sep_from(s, seq!['\n'], 0) {
            Some(i) => {
                if 0 <= i < s.len() {
                    seq![strip_cr(s.take(i))] + lines(s.skip(i + 1))
                } else {
                    seq![s]
                }
            },
            None => seq![s],
        }
    }
}

/// Index of the first character of `s[from..]` that is in `seps`.
pub fn first_sep(s: &[char], seps: &[char], from: usize) -> (r: Option<usize>)
    requires
        from <= s@.len(),
    ensures
        r matches Some(i) ==> Some(i as int) == first_sep_from(s@, seps@, from as int),
        r is None ==> first_sep_from(s@, seps@, from as int) is None,
{
    let mut i: usize = from;
    while i < s.len()
        invariant
            from <= i <= s@.len(),
            first_sep_from(s@, seps@, from as int) == first_sep_from(s@, seps@, i as int),
        decreases s@.len() - i,
    {
        let mut k: usize = 0;
        let mut hit = false;
        while k < seps.len()
            invariant
                k <= seps@.len(),
                i < s@.len(),
                hit == exists|j: int| 0 <= j < k && seps@[j] == s@[i as int],
            decreases seps@.len() - k,
        {
            if seps[k] == s[i] {
                hit = true;
            }
            k = k + 1;
        }
        if hit {
            return Some(i);
        }
        assert(!seps@.contains(s@[i as int]));
        i = i + 1;
    }
    None
}

proof fn lemma_first_sep_shift_k(s: Seq<char>, seps: Seq<char>, start: int, k: int)
    requires
        0 <= start <= s.len(),
        0 <= k,
    ensures
        match first_sep_from(s, seps, start + k) {
            Some(i) => first_sep_from(s.skip(start), seps, k) == Some(i - start),
            None => first_sep_from(s.skip(start), seps, k) is None,
        },
    decreases s.len() - start - k,
{
    if start + k < s.len() {
        assert(s.skip(start)[k] == s[start + k]);
        if !seps.contains(s[start + k]) {
            lemma_first_sep_shift_k(s, seps, start, k + 1);
        }
    }
}

proof fn lemma_first_sep_shift(s: Seq<char>, seps: Seq<char>, start: int)
    requires
        0 <= start <= s.len(),
    ensures
        match first_sep_from(s, seps, start) {
            Some(i) => first_sep_from(s.skip(start), seps, 0) == Some(i - start),
            None => first_sep_from(s.skip(start), seps, 0) is None,
        },
{
    lemma_first_sep_shift_k(s, seps, start, 0);
}

/// `str::split` on any of `seps`.
pub fn split_by_chars(s: &[char], seps: &[char]) -> (r: Vec<Vec<char>>)
    ensures
        views(r@) == split_by(s@, seps@),
{
    let mut r: Vec<Vec<char>> = Vec::new();
    let mut start: usize = 0;
    assert(s@.skip(0) =~= s@);
    assert(views(r@) =~= Seq::<Seq<char>>::empty());
    loop
        invariant
            start <= s@.len(),
            split_by(s@, seps@) == views(r@) + split_by(s@.skip(start as int), seps@),
        decreases s@.len() - start,
    {
        let ghost rest = s@.skip(start as int);
        let f = first_sep(s, seps, start);
        proof {
            lemma_first_sep(s@, seps@, start as int);
            lemma_first_sep(rest, seps@, 0);
            lemma_first_sep_shift(s@, seps@, start as int);
        }
        match f {
            Some(i) => {
                assert(start <= i < s@.len());
                assert(s@.len() == s.len());
                let piece = slice_copy(s, start, i);
                let ghost before = views(r@);
                proof {
                    assert(first_sep_from(rest, seps@, 0) == Some(i - start));
                    assert(rest.take(i - start) =~= piece@);
                    assert(rest.skip(i - start + 1) =~= s@.skip(i + 1));
                    assert(split_by(rest, seps@) == seq![piece@] + split_by(s@.skip(i + 1), seps@));
                }
                r.push(piece);
                assert(views(r@) =~= before.push(piece@));
                assert(before + (seq![piece@] + split_by(s@.skip(i + 1), seps@)) =~= before.push(piece@) + split_by(s@.skip(i + 1), seps@));
                start = i + 1;
            },
            None => {
                let piece = slice_copy(s, start, s.len());
                proof {
                    assert(first_sep_from(rest, seps@, 0) is None);
                    assert(rest =~= piece@);
                }
                let ghost before = views(r@);
                r.push(piece);
                assert(views(r@) =~= before.push(piece@));
                return r;
            },
        }
    }
}

/// `str::lines`.
pub fn lines_of(s: &[char]) -> (r: Vec<Vec<char>>)
    ensures
        views(r@) == lines(s@),
{
    let nl: [char; 1] = ['\n'];
    let ghost nls = seq!['\n'];
    assert(nl@ =~= nls);
    let mut r: Vec<Vec<char>> = Vec::new();
    let mut start: usize = 0;
    assert(s@.skip(0) =~= s@);
    assert(views(r@) =~= Seq::<Seq<char>>::empty());
    while start < s.len()
        invariant
            start <= s@.len(),
            nl@ == nls,
            nls == seq!['\n'],
            lines(s@) == views(r@) + lines(s@.skip(start as int)),
        decreases s@.len() - start,
    {
        let ghost rest = s@.skip(start as int);
        let f = first_sep(s, nl.as_slice(), start);
        proof {
            lemma_first_sep(s@, nls, start as int);
            lemma_first_sep(rest, nls, 0);
            lemma_first_sep_shift(s@, nls, start as int);
        }
        let ghost before = views(r@);
        match f {
            Some(i) => {
                assert(start <= i < s@.len());
                assert(s@.len() == s.len());
                let end = if i > start && s[i - 1] == '\r' {
                    i - 1
                } else {
                    i
                };
                let piece = slice_copy(s, start, end);
                proof {
                    assert(rest.len() > 0);
                    assert(first_sep_from(rest, nls, 0) == Some(i - start));
                    assert(strip_cr(rest.take(i - start)) =~= piece@);
                    assert(rest.skip(i - start + 1) =~= s@.skip(i + 1));
                    assert(lines(rest) == seq![piece@] + lines(s@.skip(i + 1)));
                }
                r.push(piece);
                assert(views(r@) =~= before.push(piece@));
                assert(before + (seq![piece@] + lines(s@.skip(i + 1))) =~= before.push(piece@)
                    + lines(s@.skip(i + 1)));
                start = i + 1;
            },
            None => {
                let piece = slice_copy(s, start, s.len());
                proof {
                    assert(rest.len() > 0);
                    assert(first_sep_from(rest, nls, 0) is None);
                    assert(rest =~= piece@);
                    assert(lines(rest) == seq![piece@]);
                    assert(lines(s@.skip(s@.len() as int)) =~= Seq::<Seq<char>>::empty()) by {
                        assert(s@.skip(s@.len() as int).len() == 0);
                    }
                }
                r.push(piece);
                assert(views(r@) =~= before.push(piece@));
                assert(views(r@) + lines(s@.skip(s@.len() as int)) =~= views(r@));
                start = s.len();
            },
        }
    }
    assert(s@.skip(start as int).len() == 0);
    assert(views(r@) + lines(s@.skip(start as int)) =~= views(r@));
    r
}

// ───────────────────────────── case ─────────────────────────────

/// `char::to_ascii_lowercase`.
pub open spec fn ascii_lower(c: char) -> char {
    if 'A' <= c && c <= 'Z' {
        ((c as u32) + 32) as char
    } else {
        c
    }
}

/// `str::to_ascii_lowercase`.
pub open spec fn ascii_lower_seq(s: Seq<char>) -> Seq<char> {
    s.map_values(|c: char| ascii_lower(c))
}

/// `char::to_ascii_lowercase`.
pub fn ascii_lower_char(c: char) -> (r: char)
    ensures
        r == ascii_lower(c),
{
    if 'A' <= c && c <= 'Z' {
        let u = (c as u32) + 32;
        assert(u <= 0x7a);
        char_from_ascii(u as u8)
    } else {
        c
    }
}

/// The character with ASCII code `b`.
pub fn char_from_ascii(b: u8) -> (r: char)
    requires
        b < 128,
    ensures
        r == (b as char),
        r as u32 == b as u32,
{
    b as char
}

/// `str::to_ascii_lowercase`.
pub fn ascii_lower_chars(s: &[char]) -> (r: Vec<char>)
    ensures
        r@ == ascii_lower_seq(s@),
{
    let mut r: Vec<char> = Vec::new();
    let mut i: usize = 0;
    while i < s.len()
        invariant
            i <= s@.len(),
            r@ == ascii_lower_seq(s@.take(i as int)),
        decreases s@.len() - i,
    {
        r.push(ascii_lower_char(s[i]));
        assert(ascii_lower_seq(s@.take(i + 1)) =~= ascii_lower_seq(s@.take(i as int)).push(
            ascii_lower(s@[i as int]),
        ));
        i = i + 1;
    }
    assert(s@.take(s@.len() as int) =~= s@);
    r
}

/// `str::eq_ignore_ascii_case`.
pub fn eq_ignore_ascii_case(a: &[char], b: &[char]) -> (r: bool)
    ensures
        r == (ascii_lower_seq(a@) == ascii_lower_seq(b@)),
{
    if a.len() != b.len() {
        assert(ascii_lower_seq(a@).len() != ascii_lower_seq(b@).len());
        return false;
    }
    let mut i: usize = 0;
    while i < a.len()
        invariant
            i <= a@.len(),
            a@.len() == b@.len(),
            forall|j: int| 0 <= j < i ==> ascii_lower(a@[j]) == ascii_lower(b@[j]),
        decreases a@.len() - i,
    {
        if ascii_lower_char(a[i]) != ascii_lower_char(b[i]) {
            assert(ascii_lower_seq(a@)[i as int] != ascii_lower_seq(b@)[i as int]);
            return false;
        }
        i = i + 1;
    }
    assert(ascii_lower_seq(a@) =~= ascii_lower_seq(b@));
    true
}

/// What std's `str::to_lowercase` returns for a text (Unicode lower-casing).
pub uninterp spec fn lowercase(s: Seq<char>) -> Seq<char>;

/// std `str::to_lowercase`: the Unicode lower-case form of `s`, named by
/// [`lowercase`]; nothing more is claimed of it.
#[verifier::external_body]
pub(crate) fn to_lowercase_chars(s: &[char]) -> (r: Vec<char>)
    ensures
        r@ == lowercase(s@),
{
    let t: String = s.iter().collect();
    t.to_lowercase().chars().collect()
}

// ───────────────────────────── joining ─────────────────────────────

/// The pieces of `parts` with `sep` between consecutive ones (`[T]::join`).
pub open spec fn join(parts: Seq<Seq<char>>, sep: Seq<char>) -> Seq<char>
    decreases parts.len(),
{
    if parts.len() == 0 {
        seq![]
    } else if parts.len() == 1 {
        parts[0]
    } else {
        join(parts.drop_last(), sep) + sep + parts.last()
    }
}

/// `parts.join(sep)`.
pub fn join_chars(parts: &Vec<Vec<char>>, sep: &[char]) -> (r: Vec<char>)
    ensures
        r@ == join(views(parts@), sep@),
{
    let mut r: Vec<char> = Vec::new();
    let mut i: usize = 0;
    while i < parts.len()
        invariant
            i <= parts@.len(),
            r@ == join(views(parts@).take(i as int), sep@),
        decreases parts@.len() - i,
    {
        let ghost before = r@;
        if i > 0 {
            append_chars(&mut r, sep);
        }
        append_chars(&mut r, parts[i].as_slice());
        proof {
            let t = views(parts@).take(i + 1);
            assert(t.drop_last() =~= views(parts@).take(i as int));
            assert(t.last() == parts@[i as int]@);
            if i == 0 {
                assert(r@ =~= join(t, sep@));
            } else {
                assert(r@ =~= join(t, sep@));
            }
        }
        i = i + 1;
    }
    assert(views(parts@).take(parts@.len() as int) =~= views(parts@));
    r
}

/// Appends `v` to the character vector `r`.
pub fn append_chars(r: &mut Vec<char>, v: &[char])
    ensures
        final(r)@ == old(r)@ + v@,
{
    let ghost start = r@;
    let mut i: usize = 0;
    while i < v.len()
        invariant
            i <= v@.len(),
            r@ == start + v@.take(i as int),
        decreases v@.len() - i,
    {
        r.push(v[i]);
        assert(v@.take(i as int).push(v@[i as int]) =~= v@.take(i + 1));
        i = i + 1;
    }
    assert(v@.take(v@.len() as int) =~= v@);
}

/// Whether two character sequences are equal.
pub fn chars_eq(a: &[char], b: &[char]) -> (r: bool)
    ensures
        r == (a@ == b@),
{
    if a.len() != b.len() {
        return false;
    }
    let mut i: usize = 0;
    while i < a.len()
        invariant
            i <= a@.len(),
            a@.len() == b@.len(),
            forall|j: int| 0 <= j < i ==> a@[j] == b@[j],
        decreases a@.len() - i,
    {
        if a[i] != b[i] {
            return false;
        }
        i = i + 1;
    }
    assert(a@ =~= b@);
    true
}

/// Whether `v` holds a sequence equal to `x`.
pub fn contains_seq(v: &Vec<Vec<char>>, x: &[char]) -> (r: bool)
    ensures
        r == views(v@).contains(x@),
{
    let mut i: usize = 0;
    while i < v.len()
        invariant
            i <= v@.len(),
            forall|j: int| 0 <= j < i ==> v@[j]@ != x@,
        decreases v@.len() - i,
    {
        if chars_eq(v[i].as_slice(), x) {
            assert(views(v@)[i as int] == x@);
            return true;
        }
        i = i + 1;
    }
    assert forall|j: int| 0 <= j < views(v@).len() implies views(v@)[j] != x@ by {
        assert(views(v@)[j] == v@[j]@);
    }
    false
}

} // verus!
