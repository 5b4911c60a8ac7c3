//! Keyword search over the wiki corpus: a weighted substring score per page
//! and the ranking of the pages that score.

use vstd::prelude::*;
use vstd::relations::{sorted_by, total_ordering};
use crate::order::{text_le, text_le_chars};
use crate::text::{
    chars_eq, chars_of, contains, contains_chars, is_whitespace, is_whitespace_char, lowercase,
    push_chars, push_str, slice_copy, string_of, to_lowercase_chars, trim, trim_chars, views,
};
use crate::wiki_corpus::page_views;
use crate::wiki_page::{PageView, WikiPage};

verus! {

broadcast use {vstd::string::group_string_axioms, vstd::seq_lib::group_to_multiset_ensures};

/// Length of a query that fits in memory (the address space bounds it).
pub open spec fn query_fits(q: Seq<char>) -> bool {
    q.len() < 0x1_0000_0000_0000
}

/// Bytes of `c` in UTF-8.
pub open spec fn utf8_len_char(c: char) -> nat {
    if c <= '\u{7f}' {
        1
    } else if c <= '\u{7ff}' {
        2
    } else if c <= '\u{ffff}' {
        3
    } else {
        4
    }
}

/// Bytes of `s` in UTF-8 (`str::len`).
pub open spec fn utf8_len(s: Seq<char>) -> nat
    decreases s.len(),
{
    if s.len() == 0 {
        0
    } else {
        utf8_len(s.drop_last()) + utf8_len_char(s.last())
    }
}

/// Words completed so far and the word in progress while scanning `s`.
pub open spec fn token_state(s: Seq<char>) -> (Seq<Seq<char>>, Seq<char>)
    decreases s.len(),
{
    if s.len() == 0 {
        (seq![], seq![])
    } else {
        let (ts, cur) = token_state(s.drop_last());
        if is_whitespace(s.last()) {
            if cur.len() > 0 {
                (ts.push(cur), seq![])
            } else {
                (ts, cur)
            }
        } else {
            (ts, cur.push(s.last()))
        }
    }
}

/// The whitespace-separated words of `s` (`str::split_whitespace`).
pub open spec fn ws_tokens(s: Seq<char>) -> Seq<Seq<char>> {
    let (ts, cur) = token_state(s);
    if cur.len() > 0 {
        ts.push(cur)
    } else {
        ts
    }
}

/// The extra points one query word earns: 2 in the title, 1 in the summary
/// or TL;DR; words shorter than two bytes earn nothing.
pub open spec fn token_bonus(t: Seq<char>, title: Seq<char>, summary: Seq<char>, tldr: Seq<char>) -> int {
    if utf8_len(t) >= 2 {
        (if contains(title, t) { 2int } else { 0int }) + (if contains(summary, t) || contains(tldr, t) {
            1int
        } else {
            0int
        })
    } else {
        0
    }
}

/// The points all query words earn.
pub open spec fn token_score(toks: Seq<Seq<char>>, title: Seq<char>, summary: Seq<char>, tldr: Seq<char>) -> int
    decreases toks.len(),
{
    if toks.len() == 0 {
        0
    } else {
        token_score(toks.drop_last(), title, summary, tldr) + token_bonus(toks.last(), title, summary, tldr)
    }
}

/// Some tag, lower-cased, contains `q`.
pub open spec fn tag_hit(tags: Seq<Seq<char>>, q: Seq<char>) -> bool {
    exists|i: int| 0 <= i < tags.len() && contains(#[trigger] lowercase(tags[i]), q)
}

/// The score of page `p` for the lower-cased query `q`: title 10, tags 5,
/// summary 3, TL;DR 2, path 2, plus the word bonuses.
pub open spec fn page_score(p: PageView, q: Seq<char>) -> int {
    let title = lowercase(p.title);
    let summary = lowercase(p.summary);
    let path = lowercase(p.path);
    (if contains(title, q) { 10int } else { 0int }) + (if tag_hit(p.tags, q) { 5int } else { 0int })
        + (if contains(summary, q) { 3int } else { 0int }) + (if contains(p.tldr_lc, q) {
        2int
    } else {
        0int
    }) + (if contains(path, q) { 2int } else { 0int }) + token_score(ws_tokens(q), title, summary, p.tldr_lc)
}

proof fn lemma_token_state_len(s: Seq<char>)
    ensures
        token_state(s).0.len() + token_state(s).1.len() <= s.len(),
    decreases s.len(),
{
    if s.len() > 0 {
        lemma_token_state_len(s.drop_last());
    }
}

proof fn lemma_token_score_bounds(toks: Seq<Seq<char>>, title: Seq<char>, summary: Seq<char>, tldr: Seq<char>)
    ensures
        0 <= token_score(toks, title, summary, tldr) <= 3 * toks.len(),
    decreases toks.len(),
{
    if toks.len() > 0 {
        lemma_token_score_bounds(toks.drop_last(), title, summary, tldr);
    }
}

/// The score of a page is between 0 and `22 + 3 * |q|`.
pub proof fn lemma_page_score_bounds(p: PageView, q: Seq<char>)
    ensures
        0 <= page_score(p, q) <= 22 + 3 * q.len(),
{
    lemma_token_state_len(q);
    lemma_token_score_bounds(ws_tokens(q), lowercase(p.title), lowercase(p.summary), p.tldr_lc);
}

proof fn lemma_short_words_score_nothing(toks: Seq<Seq<char>>, title: Seq<char>, summary: Seq<char>, tldr: Seq<char>)
    requires
        forall|k: int| 0 <= k < toks.len() ==> utf8_len(#[trigger] toks[k]) < 2,
    ensures
        token_score(toks, title, summary, tldr) == 0,
    decreases toks.len(),
{
    if toks.len() > 0 {
        assert(utf8_len(toks[toks.len() - 1]) < 2);
        lemma_short_words_score_nothing(toks.drop_last(), title, summary, tldr);
    }
}

/// The weight of each field, one field at a time: a query found only in the
/// lower-cased title scores 10, only in a lower-cased tag 5, only in the
/// lower-cased summary 3, only in the TL;DR 2, only in the lower-cased path
/// 2, and nowhere 0, when each of its words is shorter than two bytes (so
/// no word bonus applies). A query that is one word of two bytes or more
/// earns on top 2 where it is in the title and 1 where it is in the summary
/// or TL;DR: 12, 5, 4, 3, 2 and 0.
pub proof fn lemma_field_weights(p: PageView, q: Seq<char>)
    ensures
        ({
            let title = contains(lowercase(p.title), q);
            let tag = exists|i: int| 0 <= i < p.tags.len() && contains(#[trigger] lowercase(p.tags[i]), q);
            let summary = contains(lowercase(p.summary), q);
            let tldr = contains(p.tldr_lc, q);
            let path = contains(lowercase(p.path), q);
            let short = forall|k: int| 0 <= k < ws_tokens(q).len() ==> utf8_len(#[trigger] ws_tokens(q)[k]) < 2;
            let word = ws_tokens(q) == seq![q] && utf8_len(q) >= 2;
            &&& (short ==> {
                &&& (title && !tag && !summary && !tldr && !path ==> page_score(p, q) == 10)
                &&& (!title && tag && !summary && !tldr && !path ==> page_score(p, q) == 5)
                &&& (!title && !tag && summary && !tldr && !path ==> page_score(p, q) == 3)
                &&& (!title && !tag && !summary && tldr && !path ==> page_score(p, q) == 2)
                &&& (!title && !tag && !summary && !tldr && path ==> page_score(p, q) == 2)
                &&& (!title && !tag && !summary && !tldr && !path ==> page_score(p, q) == 0)
            })
            &&& (word ==> {
                &&& (title && !tag && !summary && !tldr && !path ==> page_score(p, q) == 12)
                &&& (!title && tag && !summary && !tldr && !path ==> page_score(p, q) == 5)
                &&& (!title && !tag && summary && !tldr && !path ==> page_score(p, q) == 4)
                &&& (!title && !tag && !summary && tldr && !path ==> page_score(p, q) == 3)
                &&& (!title && !tag && !summary && !tldr && path ==> page_score(p, q) == 2)
                &&& (!title && !tag && !summary && !tldr && !path ==> page_score(p, q) == 0)
            })
        }),
{
    let title = lowercase(p.title);
    let summary = lowercase(p.summary);
    if forall|k: int| 0 <= k < ws_tokens(q).len() ==> utf8_len(#[trigger] ws_tokens(q)[k]) < 2 {
        lemma_short_words_score_nothing(ws_tokens(q), title, summary, p.tldr_lc);
    }
    if ws_tokens(q) == seq![q] && utf8_len(q) >= 2 {
        let one = seq![q];
        assert(one.drop_last() =~= Seq::<Seq<char>>::empty());
        assert(one.last() == q);
        assert(token_score(one.drop_last(), title, summary, p.tldr_lc) == 0);
        assert(token_score(one, title, summary, p.tldr_lc) == token_bonus(q, title, summary, p.tldr_lc));
    }
}

fn utf8_len_of(s: &[char]) -> (r: u64)
    requires
        query_fits(s@),
    ensures
        r == utf8_len(s@),
{
    let mut n: u64 = 0;
    let mut i: usize = 0;
    while i < s.len()
        invariant
            i <= s@.len(),
            query_fits(s@),
            n == utf8_len(s@.take(i as int)),
            n <= 4 * i,
        decreases s@.len() - i,
    {
        let c = s[i];
        let k: u64 = if c <= '\u{7f}' {
            1
        } else if c <= '\u{7ff}' {
            2
        } else if c <= '\u{ffff}' {
            3
        } else {
            4
        };
        assert(s@.take(i + 1).drop_last() =~= s@.take(i as int));
        n = n + k;
        i = i + 1;
    }
    assert(s@.take(s@.len() as int) =~= s@);
    n
}

/// `str::split_whitespace`.
pub fn ws_tokens_chars(s: &[char]) -> (r: Vec<Vec<char>>)
    ensures
        views(r@) == ws_tokens(s@),
{
    let mut ts: Vec<Vec<char>> = Vec::new();
    let mut cur: Vec<char> = Vec::new();
    let mut i: usize = 0;
    while i < s.len()
        invariant
            i <= s@.len(),
            views(ts@) == token_state(s@.take(i as int)).0,
            cur@ == token_state(s@.take(i as int)).1,
        decreases s@.len() - i,
    {
        let c = s[i];
        assert(s@.take(i + 1).drop_last() =~= s@.take(i as int));
        assert(s@.take(i + 1).last() == c);
        if is_whitespace_char(c) {
            if cur.len() > 0 {
                let ghost before = views(ts@);
                let done = slice_copy(cur.as_slice(), 0, cur.len());
                assert(done@ =~= cur@);
                ts.push(done);
                assert(views(ts@) =~= before.push(cur@));
                cur = Vec::new();
            }
        } else {
            cur.push(c);
        }
        i = i + 1;
    }
    assert(s@.take(s@.len() as int) =~= s@);
    if cur.len() > 0 {
        let ghost before = views(ts@);
        ts.push(cur);
        assert(views(ts@) =~= before.push(token_state(s@).1));
    }
    ts
}

/// Whether some tag, lower-cased, contains `q`.
fn any_tag_contains(tags: &Vec<String>, q: &[char]) -> (r: bool)
    ensures
        r == tag_hit(tags@.map_values(|t: String| t@), q@),
{
    let ghost tv = tags@.map_values(|t: String| t@);
    let mut i: usize = 0;
    while i < tags.len()
        invariant
            i <= tags@.len(),
            tv == tags@.map_values(|t: String| t@),
            forall|j: int| 0 <= j < i ==> !contains(#[trigger] lowercase(tv[j]), q@),
        decreases tags@.len() - i,
    {
        let t = to_lowercase_chars(chars_of(tags[i].as_str()).as_slice());
        assert(tv[i as int] == tags@[i as int]@);
        if contains_chars(t.as_slice(), q) {
            return true;
        }
        i = i + 1;
    }
    false
}

/// The weighted, case-insensitive substring score of page `p` for the
/// lower-cased query `q`: title 10, tags 5, summary 3, TL;DR 2, path 2, and
/// per word of at least two bytes, 2 more in the title and 1 more in the
/// summary or TL;DR.
pub fn wiki_score(p: &WikiPage, q: &str) -> (r: i64)
    requires
        query_fits(q@),
    ensures
        r as int == page_score(p@, q@),
{
    proof {
        lemma_page_score_bounds(p@, q@);
        lemma_token_state_len(q@);
    }
    let qc = chars_of(q);
    let title = to_lowercase_chars(chars_of(p.title.as_str()).as_slice());
    let summary = to_lowercase_chars(chars_of(p.summary.as_str()).as_slice());
    let path = to_lowercase_chars(chars_of(p.path.as_str()).as_slice());
    let tldr = chars_of(p.tldr_lc.as_str());
    let mut score: i64 = 0;
    if contains_chars(title.as_slice(), qc.as_slice()) {
        score = score + 10;
    }
    if any_tag_contains(&p.tags, qc.as_slice()) {
        score = score + 5;
    }
    if contains_chars(summary.as_slice(), qc.as_slice()) {
        score = score + 3;
    }
    if contains_chars(tldr.as_slice(), qc.as_slice()) {
        score = score + 2;
    }
    if contains_chars(path.as_slice(), qc.as_slice()) {
        score = score + 2;
    }
    let ghost base = score as int;
    let toks = ws_tokens_chars(qc.as_slice());
    let ghost tv = views(toks@);
    assert(tv.len() == toks@.len());
    let mut i: usize = 0;
    assert(tv.take(0) =~= Seq::<Seq<char>>::empty());
    while i < toks.len()
        invariant
            i <= toks@.len(),
            tv == views(toks@),
            tv == ws_tokens(q@),
            tv.len() <= q@.len(),
            query_fits(q@),
            0 <= base <= 22,
            title@ == lowercase(p@.title),
            summary@ == lowercase(p@.summary),
            tldr@ == p@.tldr_lc,
            score as int == base + token_score(tv.take(i as int), title@, summary@, tldr@),
        decreases toks@.len() - i,
    {
        let t = toks[i].as_slice();
        assert(tv[i as int] == t@);
        assert(tv.take(i + 1).drop_last() =~= tv.take(i as int));
        assert(tv.take(i + 1).last() == t@);
        proof {
            lemma_token_score_bounds(tv.take(i as int), title@, summary@, tldr@);
        }
        assert(query_fits(t@)) by {
            lemma_token_len(q@, i as int);
        }
        if utf8_len_of(t) >= 2 {
            if contains_chars(title.as_slice(), t) {
                score = score + 2;
            }
            if contains_chars(summary.as_slice(), t) || contains_chars(tldr.as_slice(), t) {
                score = score + 1;
            }
        }
        i = i + 1;
    }
    assert(tv.take(toks@.len() as int) =~= tv);
    score
}

proof fn lemma_token_state_words(s: Seq<char>)
    ensures
        forall|i: int| 0 <= i < token_state(s).0.len() ==> #[trigger] token_state(s).0[i].len() <= s.len(),
        token_state(s).1.len() <= s.len(),
    decreases s.len(),
{
    if s.len() > 0 {
        lemma_token_state_words(s.drop_last());
        lemma_token_state_len(s.drop_last());
    }
}

proof fn lemma_token_len(s: Seq<char>, i: int)
    requires
        0 <= i < ws_tokens(s).len(),
    ensures
        ws_tokens(s)[i].len() <= s.len(),
{
    lemma_token_state_words(s);
}

// ───────────────────────────── ranking ─────────────────────────────

/// Page `p` is in the requested section (any section when none is given).
pub open spec fn in_section(p: PageView, section: Option<Seq<char>>) -> bool {
    match section {
        Some(s) => p.section == s,
        None => true,
    }
}

/// Page `p` carries the requested tag, compared lower-cased (any page when
/// none is given).
pub open spec fn has_tag(p: PageView, tag: Option<Seq<char>>) -> bool {
    match tag {
        Some(t) => exists|i: int| 0 <= i < p.tags.len() && #[trigger] lowercase(p.tags[i]) == lowercase(t),
        None => true,
    }
}

/// The `(score, page index)` pairs of the pages in scope that score above
/// zero, in corpus order.
pub open spec fn candidates(ps: Seq<PageView>, q: Seq<char>, section: Option<Seq<char>>, tag: Option<Seq<char>>) -> Seq<(i64, usize)>
    decreases ps.len(),
{
    if ps.len() == 0 {
        seq![]
    } else {
        let prev = candidates(ps.drop_last(), q, section, tag);
        let p = ps.last();
        if in_section(p, section) && has_tag(p, tag) && page_score(p, q) > 0 {
            prev.push((page_score(p, q) as i64, (ps.len() - 1) as usize))
        } else {
            prev
        }
    }
}

/// Ranking order: higher score first, then path, then corpus position.
pub open spec fn rank_le(ps: Seq<PageView>) -> spec_fn((i64, usize), (i64, usize)) -> bool {
    |a: (i64, usize), b: (i64, usize)|
        a.0 > b.0 || (a.0 == b.0 && ((text_le(ps[a.1 as int].path, ps[b.1 as int].path)
            && ps[a.1 as int].path != ps[b.1 as int].path) || (ps[a.1 as int].path == ps[b.1 as int].path
            && a.1 <= b.1)))
}

/// The ranking order is a total order.
pub proof fn lemma_rank_total(ps: Seq<PageView>)
    ensures
        total_ordering(rank_le(ps)),
{
    let le = rank_le(ps);
    assert forall|a: (i64, usize)| #[trigger] le(a, a) by {}
    assert forall|a: (i64, usize), b: (i64, usize)| #[trigger] le(a, b) && #[trigger] le(b, a) implies a == b by {
        let pa = ps[a.1 as int].path;
        let pb = ps[b.1 as int].path;
        if pa != pb && text_le(pa, pb) && text_le(pb, pa) {
            crate::order::lemma_text_le_antisym(pa, pb);
        }
    }
    assert forall|a: (i64, usize), b: (i64, usize), c: (i64, usize)|
        #[trigger] le(a, b) && #[trigger] le(b, c) implies le(a, c) by {
        let pa = ps[a.1 as int].path;
        let pb = ps[b.1 as int].path;
        let pc = ps[c.1 as int].path;
        if a.0 == b.0 && b.0 == c.0 {
            if text_le(pa, pb) && text_le(pb, pc) {
                crate::order::lemma_text_le_trans(pa, pb, pc);
                if pa == pc && pa != pb {
                    crate::order::lemma_text_le_antisym(pa, pb);
                }
            }
            if text_le(pa, pb) && pa != pb && pb == pc {
            }
        }
    }
    assert forall|a: (i64, usize), b: (i64, usize)| #[trigger] le(a, b) || #[trigger] le(b, a) by {
        crate::order::lemma_text_le_total(ps[a.1 as int].path, ps[b.1 as int].path);
    }
}

/// The hits of a search: the candidates in ranking order, at most `limit`
/// of them.
pub open spec fn ranked(
    ps: Seq<PageView>,
    q: Seq<char>,
    section: Option<Seq<char>>,
    tag: Option<Seq<char>>,
    limit: usize,
) -> Seq<(i64, usize)> {
    let all = candidates(ps, q, section, tag).sort_by(rank_le(ps));
    all.take(if limit < all.len() { limit as int } else { all.len() as int })
}

proof fn lemma_candidates(ps: Seq<PageView>, q: Seq<char>, section: Option<Seq<char>>, tag: Option<Seq<char>>)
    requires
        ps.len() <= usize::MAX,
    ensures
        forall|k: int| 0 <= k < candidates(ps, q, section, tag).len() ==> {
            let c = #[trigger] candidates(ps, q, section, tag)[k];
            &&& c.1 < ps.len()
            &&& in_section(ps[c.1 as int], section)
            &&& has_tag(ps[c.1 as int], tag)
            &&& page_score(ps[c.1 as int], q) > 0
            &&& c.0 == page_score(ps[c.1 as int], q) as i64
        },
    decreases ps.len(),
{
    if ps.len() > 0 {
        lemma_candidates(ps.drop_last(), q, section, tag);
        let prev = candidates(ps.drop_last(), q, section, tag);
        assert forall|k: int| 0 <= k < prev.len() implies #[trigger] ps.drop_last()[prev[k].1 as int] == ps[prev[k].1 as int] by {}
    }
}

/// Search hits are at most `limit`, best first, and each is
/// a page in scope with a positive score.
pub proof fn lemma_ranked_hits(
    ps: Seq<PageView>,
    q: Seq<char>,
    section: Option<Seq<char>>,
    tag: Option<Seq<char>>,
    limit: usize,
)
    requires
        ps.len() <= usize::MAX,
    ensures
        ranked(ps, q, section, tag, limit).len() <= limit,
        sorted_by(ranked(ps, q, section, tag, limit), rank_le(ps)),
        forall|k: int| 0 <= k < ranked(ps, q, section, tag, limit).len() ==> {
            let c = #[trigger] ranked(ps, q, section, tag, limit)[k];
            &&& c.1 < ps.len()
            &&& in_section(ps[c.1 as int], section)
            &&& has_tag(ps[c.1 as int], tag)
            &&& page_score(ps[c.1 as int], q) > 0
        },
        forall|i: int, j: int| 0 <= i < j < ranked(ps, q, section, tag, limit).len() ==> {
            let a = #[trigger] ranked(ps, q, section, tag, limit)[i];
            let b = #[trigger] ranked(ps, q, section, tag, limit)[j];
            &&& a.0 >= b.0
            &&& (a.0 == b.0 ==> text_le(ps[a.1 as int].path, ps[b.1 as int].path))
            &&& (a.0 == b.0 && ps[a.1 as int].path == ps[b.1 as int].path ==> a.1 <= b.1)
        },
{
    let cs = candidates(ps, q, section, tag);
    lemma_rank_total(ps);
    cs.lemma_sort_by_ensures(rank_le(ps));
    lemma_candidates(ps, q, section, tag);
    let all = cs.sort_by(rank_le(ps));
    let r = ranked(ps, q, section, tag, limit);
    assert forall|k: int| 0 <= k < r.len() implies {
        let c = #[trigger] r[k];
        &&& c.1 < ps.len()
        &&& in_section(ps[c.1 as int], section)
        &&& has_tag(ps[c.1 as int], tag)
        &&& page_score(ps[c.1 as int], q) > 0
    } by {
        assert(r[k] == all[k]);
        assert(all.contains(all[k]));
        if !cs.contains(all[k]) {
            assert(!all.contains(all[k]));
        }
        let j = choose|j: int| 0 <= j < cs.len() && cs[j] == all[k];
        assert(cs[j] == all[k]);
    }
    assert forall|i: int, j: int| 0 <= i < j < r.len() implies #[trigger] rank_le(ps)(r[i], r[j]) by {
        assert(r[i] == all[i] && r[j] == all[j]);
    }
    assert forall|i: int, j: int| 0 <= i < j < r.len() implies {
        let a = #[trigger] r[i];
        let b = #[trigger] r[j];
        &&& a.0 >= b.0
        &&& (a.0 == b.0 ==> text_le(ps[a.1 as int].path, ps[b.1 as int].path))
        &&& (a.0 == b.0 && ps[a.1 as int].path == ps[b.1 as int].path ==> a.1 <= b.1)
    } by {
        assert(rank_le(ps)(r[i], r[j]));
        crate::order::lemma_text_le_refl(ps[r[i].1 as int].path);
    }
}

/// The lower-cased, trimmed query that the search matches with.
pub open spec fn search_query(query: Seq<char>) -> Seq<char> {
    lowercase(trim(query))
}

/// The query as the search uses it: trimmed and lower-cased.
pub fn wiki_search_query(query: &str) -> (r: String)
    ensures
        r@ == search_query(query@),
{
    let t = trim_chars(chars_of(query).as_slice());
    string_of(to_lowercase_chars(t.as_slice()).as_slice())
}

fn rank_before(pages: &Vec<WikiPage>, a: (i64, usize), b: (i64, usize)) -> (r: bool)
    requires
        a.1 < pages@.len(),
        b.1 < pages@.len(),
    ensures
        r == rank_le(page_views(pages@))(a, b),
{
    let ghost pv = page_views(pages@);
    assert(pv[a.1 as int] == pages@[a.1 as int]@);
    assert(pv[b.1 as int] == pages@[b.1 as int]@);
    if a.0 != b.0 {
        return a.0 > b.0;
    }
    let pa = chars_of(pages[a.1].path.as_str());
    let pb = chars_of(pages[b.1].path.as_str());
    if chars_eq(pa.as_slice(), pb.as_slice()) {
        a.1 <= b.1
    } else {
        text_le_chars(pa.as_slice(), pb.as_slice())
    }
}

/// The pages that match the lower-cased query `q`, best first: those in
/// `section` (when given) that carry `tag` (when given) and score above
/// zero, ordered by score descending, then path, then corpus position, and
/// cut to `limit`. Each hit is `(score, page index)`. An
/// empty query is an error.
pub fn rank_wiki_pages(
    pages: &Vec<WikiPage>,
    q: &str,
    section: Option<&str>,
    tag: Option<&str>,
    limit: usize,
) -> (r: Result<Vec<(i64, usize)>, String>)
    requires
        query_fits(q@),
    ensures
        q@.len() == 0 ==> (r matches Err(e) && e@ == "wiki_search requires a non-empty query."@),
        q@.len() > 0 ==> (r matches Ok(hits) && hits@ == ranked(
            page_views(pages@),
            q@,
            match section {
                Some(s) => Some(s@),
                None => None,
            },
            match tag {
                Some(t) => Some(t@),
                None => None,
            },
            limit,
        )),
{
    if q.is_empty() {
        let mut e = String::new();
        push_str(&mut e, "wiki_search requires a non-empty query.");
        return Err(e);
    }
    let ghost pv = page_views(pages@);
    let ghost sec = match section {
        Some(s) => Some(s@),
        None => None,
    };
    let ghost tg = match tag {
        Some(t) => Some(t@),
        None => None,
    };
    let sec_c: Option<Vec<char>> = match section {
        Some(s) => Some(chars_of(s)),
        None => None,
    };
    let tag_lc: Option<Vec<char>> = match tag {
        Some(t) => Some(to_lowercase_chars(chars_of(t).as_slice())),
        None => None,
    };
    // Pages in scope with a positive score, in corpus order.
    let mut cands: Vec<(i64, usize)> = Vec::new();
    let mut i: usize = 0;
    while i < pages.len()
        invariant
            i <= pages@.len(),
            pv == page_views(pages@),
            query_fits(q@),
            sec_c matches Some(s) ==> sec == Some(s@),
            sec_c is None ==> sec is None,
            tag_lc matches Some(t) ==> tg matches Some(tt) && t@ == lowercase(tt),
            tag_lc is None ==> tg is None,
            cands@ == candidates(pv.take(i as int), q@, sec, tg),
            forall|j: int| 0 <= j < cands@.len() ==> (#[trigger] cands@[j]).1 < i,
        decreases pages@.len() - i,
    {
        let p = &pages[i];
        assert(pv.take(i + 1).drop_last() =~= pv.take(i as int));
        assert(pv.take(i + 1).last() == p@);
        let in_sec = match &sec_c {
            Some(s) => chars_eq(chars_of(p.section.as_str()).as_slice(), s.as_slice()),
            None => true,
        };
        let mut tagged = true;
        if let Some(t) = &tag_lc {
            tagged = false;
            let mut k: usize = 0;
            while k < p.tags.len()
                invariant
                    k <= p.tags@.len(),
                    tagged == exists|j: int| 0 <= j < k && #[trigger] lowercase(p@.tags[j]) == t@,
                decreases p.tags@.len() - k,
            {
                let lt = to_lowercase_chars(chars_of(p.tags[k].as_str()).as_slice());
                assert(p@.tags[k as int] == p.tags@[k as int]@);
                if chars_eq(lt.as_slice(), t.as_slice()) {
                    tagged = true;
                }
                k = k + 1;
            }
        }
        assert(tagged == has_tag(p@, tg));
        if in_sec && tagged {
            let s = wiki_score(p, q);
            if s > 0 {
                cands.push((s, i));
            }
        }
        i = i + 1;
    }
    assert(pv.take(pages@.len() as int) =~= pv);
    // Insertion sort in ranking order.
    proof {
        lemma_rank_total(pv);
    }
    let ghost le = rank_le(pv);
    let ghost orig = cands@;
    let mut sorted: Vec<(i64, usize)> = Vec::new();
    let mut m: usize = 0;
    while m < cands.len()
        invariant
            m <= cands@.len(),
            orig == cands@,
            le == rank_le(pv),
            pv == page_views(pages@),
            total_ordering(le),
            forall|j: int| 0 <= j < cands@.len() ==> (#[trigger] cands@[j]).1 < pages@.len(),
            forall|j: int| 0 <= j < sorted@.len() ==> (#[trigger] sorted@[j]).1 < pages@.len(),
            sorted_by(sorted@, le),
            sorted@.to_multiset() == orig.take(m as int).to_multiset(),
        decreases cands@.len() - m,
    {
        let x = cands[m];
        let mut p: usize = 0;
        while p < sorted.len() && rank_before(pages, sorted[p], x)
            invariant
                p <= sorted@.len(),
                x.1 < pages@.len(),
                forall|j: int| 0 <= j < sorted@.len() ==> (#[trigger] sorted@[j]).1 < pages@.len(),
                forall|j: int| 0 <= j < p ==> #[trigger] le(sorted@[j], x),
                le == rank_le(pv),
                pv == page_views(pages@),
            decreases sorted@.len() - p,
        {
            p = p + 1;
        }
        let ghost old_s = sorted@;
        proof {
            if p < old_s.len() {
                assert(!le(old_s[p as int], x));
                assert(le(x, old_s[p as int]) || le(old_s[p as int], x));
            }
        }
        sorted.insert(p, x);
        proof {
            let ns = sorted@;
            assert(ns =~= old_s.insert(p as int, x));
            assert forall|a: int, b: int| 0 <= a < b < ns.len() implies #[trigger] le(ns[a], ns[b]) by {
                if b < p {
                    assert(le(old_s[a], old_s[b]));
                } else if a < p && b == p {
                } else if a < p && b > p {
                    assert(le(old_s[a], x));
                    assert(le(x, old_s[p as int]));
                    if b - 1 > p {
                        assert(le(old_s[p as int], old_s[b - 1]));
                    }
                    assert(le(x, old_s[b - 1]));
                } else if a == p {
                    assert(le(x, old_s[p as int]));
                    if b - 1 > p {
                        assert(le(old_s[p as int], old_s[b - 1]));
                    }
                } else {
                    assert(le(old_s[a - 1], old_s[b - 1]));
                }
            }
            vstd::seq_lib::to_multiset_insert(old_s, p as int, x);
            assert(orig.take(m + 1) =~= orig.take(m as int).push(x));
            vstd::seq_lib::to_multiset_build(orig.take(m as int), x);
        }
        m = m + 1;
    }
    proof {
        assert(orig.take(cands@.len() as int) =~= orig);
        orig.lemma_sort_by_ensures(le);
        vstd::seq_lib::lemma_sorted_unique(sorted@, orig.sort_by(le), le);
    }
    let n: usize = limit;
    let mut hits: Vec<(i64, usize)> = Vec::new();
    let mut k: usize = 0;
    while k < n && k < sorted.len()
        invariant
            k <= sorted@.len(),
            k <= n,
            hits@ == sorted@.take(k as int),
        decreases sorted@.len() - k,
    {
        hits.push(sorted[k]);
        assert(sorted@.take(k + 1) =~= sorted@.take(k as int).push(sorted@[k as int]));
        k = k + 1;
    }
    Ok(hits)
}

/// What a search with no hit answers: the query, the section it was scoped
/// to, and where to look instead.
pub open spec fn no_match_message(query: Seq<char>, section: Option<Seq<char>>) -> Seq<char> {
    "No wiki pages matched query '"@ + query + "'"@ + match section {
        Some(s) => " in section '"@ + s + "'"@,
        None => seq![],
    } + ". Try wiki_index to browse, or broader terms."@
}

/// The answer to a search without hits.
pub fn wiki_no_match_message(query: &str, section: Option<&str>) -> (r: String)
    ensures
        r@ == no_match_message(
            query@,
            match section {
                Some(s) => Some(s@),
                None => None,
            },
        ),
{
    let mut out = String::new();
    push_str(&mut out, "No wiki pages matched query '");
    push_str(&mut out, query);
    push_str(&mut out, "'");
    if let Some(s) = section {
        push_str(&mut out, " in section '");
        push_str(&mut out, s);
        push_str(&mut out, "'");
    }
    push_str(&mut out, ". Try wiki_index to browse, or broader terms.");
    out
}

} // verus!
