//! The knowledge wiki: page metadata, section extraction, read capping, the
//! grouped index and keyword scoring.

use vstd::prelude::*;
use crate::text::{
    chars_eq, chars_of, join, join_chars, lines, lines_of, lowercase, slice_copy, starts_with,
    starts_with_chars, string_of, to_lowercase_chars, trim, trim_chars, trim_start,
    trim_start_chars, views,
};

verus! {

broadcast use vstd::string::group_string_axioms;

/// Importance tier of a wiki section: glossary and meta pages are optional,
/// everything else is core.
pub fn wiki_tier(section: &str) -> (r: &'static str)
    ensures
        r@ == (if section@ == "glossary"@ || section@ == "meta"@ { "optional"@ } else { "core"@ }),
{
    let s = chars_of(section);
    proof {
        reveal_strlit("glossary");
        reveal_strlit("meta");
    }
    let g = chars_of("glossary");
    let m = chars_of("meta");
    if chars_eq(s.as_slice(), g.as_slice()) || chars_eq(s.as_slice(), m.as_slice()) {
        "optional"
    } else {
        "core"
    }
}

/// A fenced-code-block delimiter line: after leading whitespace it starts
/// with three backticks or three tildes.
pub open spec fn is_fence(line: Seq<char>) -> bool {
    starts_with(trim_start(line), seq!['`', '`', '`']) || starts_with(trim_start(line), seq!['~', '~', '~'])
}

/// Whether a line delimits a fenced code block.
pub fn is_code_fence(line: &[char]) -> (r: bool)
    ensures
        r == is_fence(line@),
{
    let t = trim_start_chars(line);
    let bt = ['`', '`', '`'];
    let tl = ['~', '~', '~'];
    assert(bt@ =~= seq!['`', '`', '`']);
    assert(tl@ =~= seq!['~', '~', '~']);
    starts_with_chars(t.as_slice(), bt.as_slice()) || starts_with_chars(t.as_slice(), tl.as_slice())
}

/// Whether an odd number of the lines `ls[from..to]` are fences (so a line
/// at `to` lies inside a code block opened after `from`).
pub open spec fn fence_parity(ls: Seq<Seq<char>>, from: int, to: int) -> bool
    decreases to - from,
{
    if to <= from {
        false
    } else {
        fence_parity(ls, from, to - 1) != is_fence(ls[to - 1])
    }
}

/// The header text a `## ` line names, normalized for comparison.
pub open spec fn heading_key(line: Seq<char>) -> Seq<char> {
    lowercase(trim(line.skip(3)))
}

/// Line `i` opens the wanted section: a `## ` heading outside any fence
/// whose normalized text is `want`.
pub open spec fn opens_section(ls: Seq<Seq<char>>, i: int, want: Seq<char>) -> bool {
    &&& !is_fence(ls[i])
    &&& !fence_parity(ls, 0, i)
    &&& starts_with(ls[i], seq!['#', '#', ' '])
    &&& heading_key(ls[i]) == want
}

/// First line at or after `i` that opens the wanted section.
pub open spec fn find_open(ls: Seq<Seq<char>>, want: Seq<char>, i: int) -> Option<int>
    decreases ls.len() - i,
{
    if i < 0 || i >= ls.len() {
        None
    } else if opens_section(ls, i, want) {
        Some(i)
    } else {
        find_open(ls, want, i + 1)
    }
}

/// Line `j` (after the section start `s`) closes it: a level-1 or level-2
/// heading outside any fence opened after the start.
pub open spec fn closes_section(ls: Seq<Seq<char>>, s: int, j: int) -> bool {
    &&& !is_fence(ls[j])
    &&& !fence_parity(ls, s + 1, j)
    &&& (starts_with(ls[j], seq!['#', '#', ' ']) || starts_with(ls[j], seq!['#', ' ']))
}

/// First line at or after `j` closing the section that starts at `s`, or
/// the number of lines.
pub open spec fn find_close(ls: Seq<Seq<char>>, s: int, j: int) -> int
    decreases ls.len() - j,
{
    if j < 0 || j >= ls.len() {
        ls.len() as int
    } else if closes_section(ls, s, j) {
        j
    } else {
        find_close(ls, s, j + 1)
    }
}

/// `header` normalized: trimmed, leading `#`s dropped, trimmed, lower-cased.
pub open spec fn wanted_header(header: Seq<char>) -> Seq<char> {
    lowercase(trim(trim_hashes(trim(header))))
}

/// `s` without its leading `#` characters.
pub open spec fn trim_hashes(s: Seq<char>) -> Seq<char>
    decreases s.len(),
{
    if s.len() > 0 && s[0] == '#' {
        trim_hashes(s.drop_first())
    } else {
        s
    }
}

/// The `## <header>` block of `content`: from the heading line up to (not
/// including) the next level-1/2 heading outside code fences, lines joined
/// by `\n`; `None` when no such heading exists.
pub open spec fn section_of(content: Seq<char>, header: Seq<char>) -> Option<Seq<char>> {
    let ls = lines(content);
    match find_open(ls, wanted_header(header), 0) {
        Some(s) => Some(join(ls.subrange(s, find_close(ls, s, s + 1)), seq!['\n'])),
        None => None,
    }
}

fn trim_hashes_chars(s: &[char]) -> (r: Vec<char>)
    ensures
        r@ == trim_hashes(s@),
{
    let mut i: usize = 0;
    assert(s@.skip(0) =~= s@);
    while i < s.len() && s[i] == '#'
        invariant
            i <= s@.len(),
            trim_hashes(s@) == trim_hashes(s@.skip(i as int)),
        decreases s@.len() - i,
    {
        assert(s@.skip(i as int).drop_first() =~= s@.skip(i + 1));
        i = i + 1;
    }
    assert(s@.skip(0) =~= s@);
    slice_copy(s, i, s.len())
}

fn heading_key_chars(line: &[char]) -> (r: Vec<char>)
    requires
        line@.len() >= 3,
    ensures
        r@ == heading_key(line@),
{
    let rest = slice_copy(line, 3, line.len());
    assert(rest@ =~= line@.skip(3));
    let t = trim_chars(rest.as_slice());
    to_lowercase_chars(t.as_slice())
}

/// The `## <header>` block of `content` (see [`section_of`]).
pub fn extract_section(content: &str, header: &str) -> (r: Option<String>)
    ensures
        match r {
            Some(t) => section_of(content@, header@) == Some(t@),
            None => section_of(content@, header@) is None,
        },
{
    let h = chars_of(header);
    let h1 = trim_chars(h.as_slice());
    let h2 = trim_hashes_chars(h1.as_slice());
    let h3 = trim_chars(h2.as_slice());
    let want = to_lowercase_chars(h3.as_slice());
    let c = chars_of(content);
    let ls = lines_of(c.as_slice());
    let ghost lsv = views(ls@);
    let hh = ['#', '#', ' '];
    let h1c = ['#', ' '];
    assert(hh@ =~= seq!['#', '#', ' ']);
    assert(h1c@ =~= seq!['#', ' ']);
    // Locate the start heading (outside any code fence).
    let mut in_fence = false;
    let mut i: usize = 0;
    let mut found = false;
    while i < ls.len() && !found
        invariant
            i <= ls@.len(),
            lsv == views(ls@),
            hh@ == seq!['#', '#', ' '],
            !found ==> in_fence == fence_parity(lsv, 0, i as int),
            !found ==> find_open(lsv, want@, 0) == find_open(lsv, want@, i as int),
            found ==> i < ls@.len() && find_open(lsv, want@, 0) == Some(i as int),
        decreases ls@.len() - i + (if found { 0int } else { 1int }),
    {
        let l = ls[i].as_slice();
        assert(lsv[i as int] == l@);
        let mut hit = false;
        if is_code_fence(l) {
            in_fence = !in_fence;
        } else if !in_fence && starts_with_chars(l, hh.as_slice()) {
            let key = heading_key_chars(l);
            hit = chars_eq(key.as_slice(), want.as_slice());
        }
        if hit {
            assert(opens_section(lsv, i as int, want@));
            found = true;
        } else {
            assert(!opens_section(lsv, i as int, want@));
            assert(fence_parity(lsv, 0, i + 1) == (fence_parity(lsv, 0, i as int) != is_fence(lsv[i as int])));
            i = i + 1;
        }
    }
    if !found {
        return None;
    }
    let s = i;
    // Scan to the next level-1/2 heading, ignoring heading-like lines in fences.
    let mut in_fence2 = false;
    let mut j: usize = s + 1;
    let mut closed = false;
    while j < ls.len() && !closed
        invariant
            s < j <= ls@.len(),
            lsv == views(ls@),
            hh@ == seq!['#', '#', ' '],
            h1c@ == seq!['#', ' '],
            !closed ==> in_fence2 == fence_parity(lsv, s + 1, j as int),
            !closed ==> find_close(lsv, s as int, s + 1) == find_close(lsv, s as int, j as int),
            closed ==> j < ls@.len() && find_close(lsv, s as int, s + 1) == j,
        decreases ls@.len() - j + (if closed { 0int } else { 1int }),
    {
        let l = ls[j].as_slice();
        assert(lsv[j as int] == l@);
        let mut hit = false;
        if is_code_fence(l) {
            in_fence2 = !in_fence2;
        } else if !in_fence2 && (starts_with_chars(l, hh.as_slice()) || starts_with_chars(l, h1c.as_slice())) {
            hit = true;
        }
        if hit {
            assert(closes_section(lsv, s as int, j as int));
            closed = true;
        } else {
            assert(!closes_section(lsv, s as int, j as int));
            assert(fence_parity(lsv, s + 1, j + 1) == (fence_parity(lsv, s + 1, j as int) != is_fence(lsv[j as int])));
            j = j + 1;
        }
    }
    let end = j;
    let mut block: Vec<Vec<char>> = Vec::new();
    let mut k: usize = s;
    while k < end
        invariant
            s <= k <= end <= ls@.len(),
            lsv == views(ls@),
            views(block@) == lsv.subrange(s as int, k as int),
        decreases end - k,
    {
        let line = ls[k].as_slice();
        let copy = slice_copy(line, 0, line.len());
        assert(copy@ =~= lsv[k as int]);
        let ghost before = block@;
        block.push(copy);
        assert(views(block@) =~= views(before).push(copy@));
        assert(lsv.subrange(s as int, k + 1) =~= lsv.subrange(s as int, k as int).push(lsv[k as int]));
        k = k + 1;
    }
    let nl = ['\n'];
    assert(nl@ =~= seq!['\n']);
    let joined = join_chars(&block, nl.as_slice());
    Some(string_of(joined.as_slice()))
}

// ───────────────────────────── laws ─────────────────────────────

proof fn lemma_find_open(ls: Seq<Seq<char>>, want: Seq<char>, i: int)
    requires
        0 <= i,
    ensures
        find_open(ls, want, i) matches Some(s) ==> i <= s < ls.len() && opens_section(ls, s, want),
    decreases ls.len() - i,
{
    if i < ls.len() && !opens_section(ls, i, want) {
        lemma_find_open(ls, want, i + 1);
    }
}

proof fn lemma_find_close(ls: Seq<Seq<char>>, s: int, j: int)
    requires
        0 <= j <= ls.len(),
    ensures
        j <= find_close(ls, s, j) <= ls.len(),
    decreases ls.len() - j,
{
    if j < ls.len() && !closes_section(ls, s, j) {
        lemma_find_close(ls, s, j + 1);
    }
}

proof fn lemma_join_prefix(parts: Seq<Seq<char>>, sep: Seq<char>)
    requires
        parts.len() >= 1,
    ensures
        join(parts, sep).len() >= parts[0].len(),
        join(parts, sep).take(parts[0].len() as int) == parts[0],
    decreases parts.len(),
{
    if parts.len() == 1 {
        assert(parts[0].take(parts[0].len() as int) =~= parts[0]);
    } else {
        lemma_join_prefix(parts.drop_last(), sep);
        let j = join(parts.drop_last(), sep);
        assert(join(parts, sep) == j + sep + parts.last());
        assert((j + sep + parts.last()).take(parts[0].len() as int) =~= j.take(parts[0].len() as int));
    }
}

proof fn lemma_find_close_first(ls: Seq<Seq<char>>, s: int, j: int)
    requires
        0 <= j <= ls.len(),
    ensures
        j <= find_close(ls, s, j) <= ls.len(),
        forall|k: int| j <= k < find_close(ls, s, j) ==> !closes_section(ls, s, k),
        find_close(ls, s, j) < ls.len() ==> closes_section(ls, s, find_close(ls, s, j)),
    decreases ls.len() - j,
{
    if j < ls.len() && !closes_section(ls, s, j) {
        lemma_find_close_first(ls, s, j + 1);
    }
}

/// Where a section read ends: the block is the lines `s..e` of the content
/// joined by `\n`, where line `s` is the wanted `## ` heading outside any
/// code fence; no line after the first is a `# ` or `## ` heading outside a
/// fence opened after `s`; and the block runs to the end of the content or
/// stops just before such a heading.
pub proof fn lemma_section_bounds(content: Seq<char>, header: Seq<char>)
    ensures
        section_of(content, header) matches Some(t) ==> exists|s: int, e: int| {
            &&& 0 <= s < e <= lines(content).len()
            &&& #[trigger] join(lines(content).subrange(s, e), seq!['\n']) == t
            &&& starts_with(lines(content)[s], seq!['#', '#', ' ']) && !is_fence(lines(content)[s]) && !fence_parity(lines(content), 0, s)
            &&& heading_key(lines(content)[s]) == wanted_header(header)
            &&& forall|j: int| s < j < e ==> !(!is_fence(#[trigger] lines(content)[j]) && !fence_parity(lines(content), s + 1, j) && (
                starts_with(lines(content)[j], seq!['#', '#', ' ']) || starts_with(lines(content)[j], seq!['#', ' '])))
            &&& (e == lines(content).len() || (!is_fence(lines(content)[e]) && !fence_parity(lines(content), s + 1, e) && (starts_with(
                lines(content)[e],
                seq!['#', '#', ' '],
            ) || starts_with(lines(content)[e], seq!['#', ' ']))))
        },
{
    let ls = lines(content);
    let want = wanted_header(header);
    lemma_find_open(ls, want, 0);
    match find_open(ls, want, 0) {
        Some(s) => {
            lemma_find_close_first(ls, s, s + 1);
            let e = find_close(ls, s, s + 1);
            assert(join(ls.subrange(s, e), seq!['\n']) == section_of(content, header)->Some_0);
            assert forall|j: int| s < j < e implies !(!is_fence(#[trigger] ls[j]) && !fence_parity(ls, s + 1, j) && (
                starts_with(ls[j], seq!['#', '#', ' ']) || starts_with(ls[j], seq!['#', ' ']))) by {
                assert(!closes_section(ls, s, j));
            }
        },
        None => {},
    }
}

/// A section read starts with its own `## ` heading line.
pub proof fn lemma_section_starts_with_heading(content: Seq<char>, header: Seq<char>)
    ensures
        section_of(content, header) matches Some(t) ==> starts_with(t, seq!['#', '#', ' ']),
{
    let ls = lines(content);
    let want = wanted_header(header);
    lemma_find_open(ls, want, 0);
    match find_open(ls, want, 0) {
        Some(s) => {
            lemma_find_close(ls, s, s + 1);
            let parts = ls.subrange(s, find_close(ls, s, s + 1));
            assert(parts[0] == ls[s]);
            lemma_join_prefix(parts, seq!['\n']);
            let t = join(parts, seq!['\n']);
            assert(starts_with(ls[s], seq!['#', '#', ' ']));
            assert(ls[s].subrange(0, 3) =~= seq!['#', '#', ' ']);
            assert(t.subrange(0, 3) =~= t.take(ls[s].len() as int).subrange(0, 3));
        },
        None => {},
    }
}

} // verus!
