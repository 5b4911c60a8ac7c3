//! The wiki corpus: pages sorted by path, the grouped one-line index, page
//! resolution for reads, and the body a read returns.

use vstd::prelude::*;
use vstd::relations::sorted_by;
use crate::order::{dedup_adjacent, dedup_texts, sort_texts, text_le, text_le_chars, text_order};
use crate::text::{
    chars_of, contains, contains_chars, contains_seq, decimal, join, join_chars, push_chars,
    push_str, starts_with, starts_with_chars, string_of, u64_to_chars, views,
};
use crate::wiki::{extract_section, section_of};
use crate::wiki_page::{capped, page_from_content, page_model, wiki_cap_with_marker, PageView, WikiPage};

verus! {

broadcast use {vstd::string::group_string_axioms, vstd::seq_lib::group_to_multiset_ensures};

/// Per-read character budget of `wiki_read` when none is given.
pub const WIKI_READ_DEFAULT_MAX_CHARS: usize = 12000;

/// The models of a list of pages.
pub open spec fn page_views(pages: Seq<WikiPage>) -> Seq<PageView> {
    pages.map_values(|p: WikiPage| p@)
}

/// Pages ordered by path.
pub open spec fn path_order() -> spec_fn(PageView, PageView) -> bool {
    |a: PageView, b: PageView| text_le(a.path, b.path)
}

/// The pages parsed from `(path, content)` entries, in entry order.
pub open spec fn entry_pages(entries: Seq<(String, String)>) -> Seq<PageView> {
    entries.map_values(|e: (String, String)| page_model(e.0@, e.1@))
}

/// Why a corpus has no pages: the built-in corpus is empty, or a directory
/// holds no `.md` page.
pub open spec fn empty_corpus_message(wiki_root: Seq<char>) -> Seq<char> {
    if wiki_root.len() == 0 {
        "Embedded wiki corpus is empty (crate built without wiki/)."@
    } else {
        "No .md pages found under wiki root '"@ + wiki_root + "'."@
    }
}

/// Builds the corpus from `(relative path, content)` entries: every page's
/// metadata, sorted by path. An empty root names the built-in corpus. `Err`
/// when there is no page.
pub fn wiki_corpus(wiki_root: &str, entries: &Vec<(String, String)>) -> (r: Result<Vec<WikiPage>, String>)
    ensures
        entries@.len() == 0 <==> r is Err,
        r matches Err(e) ==> e@ == empty_corpus_message(wiki_root@),
        r matches Ok(ps) ==> sorted_by(page_views(ps@), path_order()) && page_views(
            ps@,
        ).to_multiset() == entry_pages(entries@).to_multiset(),
{
    if entries.len() == 0 {
        let mut e = String::new();
        if wiki_root.is_empty() {
            push_str(&mut e, "Embedded wiki corpus is empty (crate built without wiki/).");
        } else {
            push_str(&mut e, "No .md pages found under wiki root '");
            push_str(&mut e, wiki_root);
            push_str(&mut e, "'.");
        }
        return Err(e);
    }
    proof {
        crate::order::lemma_text_order_total();
    }
    let ghost le = path_order();
    let ghost orig = entry_pages(entries@);
    let mut r: Vec<WikiPage> = Vec::new();
    let mut i: usize = 0;
    while i < entries.len()
        invariant
            i <= entries@.len(),
            le == path_order(),
            orig == entry_pages(entries@),
            vstd::relations::total_ordering(text_order()),
            sorted_by(page_views(r@), le),
            page_views(r@).to_multiset() == orig.take(i as int).to_multiset(),
        decreases entries@.len() - i,
    {
        let x = page_from_content(entries[i].0.as_str(), entries[i].1.as_str());
        assert(x@ == orig[i as int]);
        let xp = chars_of(x.path.as_str());
        let mut p: usize = 0;
        while p < r.len() && text_le_chars(chars_of(r[p].path.as_str()).as_slice(), xp.as_slice())
            invariant
                p <= r@.len(),
                xp@ == x@.path,
                forall|j: int| 0 <= j < p ==> text_le(#[trigger] page_views(r@)[j].path, x@.path),
            decreases r@.len() - p,
        {
            assert(page_views(r@)[p as int] == r@[p as int]@);
            p = p + 1;
        }
        let ghost old_r = page_views(r@);
        proof {
            if p < r@.len() {
                assert(old_r[p as int] == r@[p as int]@);
                assert(!text_le(old_r[p as int].path, x@.path));
                assert(text_order()(x@.path, old_r[p as int].path) || text_order()(old_r[p as int].path, x@.path));
            }
        }
        r.insert(p, x);
        proof {
            let nr = page_views(r@);
            assert(nr =~= old_r.insert(p as int, x@));
            assert forall|a: int, b: int| 0 <= a < b < nr.len() implies #[trigger] le(nr[a], nr[b]) by {
                let xv = x@.path;
                if b < p {
                    assert(le(old_r[a], old_r[b]));
                } else if a < p && b == p {
                    assert(text_le(old_r[a].path, xv));
                } else if a < p && b > p {
                    assert(text_le(old_r[a].path, xv));
                    assert(text_order()(xv, old_r[p as int].path));
                    if b - 1 > p {
                        assert(le(old_r[p as int], old_r[b - 1]));
                        assert(text_order()(old_r[p as int].path, old_r[b - 1].path));
                    }
                    assert(text_order()(xv, old_r[b - 1].path));
                    assert(text_order()(old_r[a].path, xv));
                } else if a == p {
                    assert(text_order()(xv, old_r[p as int].path));
                    if b - 1 > p {
                        assert(le(old_r[p as int], old_r[b - 1]));
                        assert(text_order()(old_r[p as int].path, old_r[b - 1].path));
                    }
                } else {
                    assert(le(old_r[a - 1], old_r[b - 1]));
                }
            }
            vstd::seq_lib::to_multiset_insert(old_r, p as int, x@);
            assert(orig.take(i + 1) =~= orig.take(i as int).push(x@));
            vstd::seq_lib::to_multiset_build(orig.take(i as int), x@);
        }
        i = i + 1;
    }
    assert(orig.take(entries@.len() as int) =~= orig);
    Ok(r)
}

// ───────────────────────────── the index ─────────────────────────────

/// The distinct sections of the pages, in the order of `str`.
pub open spec fn section_names(ps: Seq<PageView>) -> Seq<Seq<char>> {
    dedup_adjacent(ps.map_values(|p: PageView| p.section).sort_by(text_order()))
}

/// The pages of section `sec`, in corpus order.
pub open spec fn pages_in(ps: Seq<PageView>, sec: Seq<char>) -> Seq<PageView>
    decreases ps.len(),
{
    if ps.len() == 0 {
        seq![]
    } else if ps.last().section == sec {
        pages_in(ps.drop_last(), sec).push(ps.last())
    } else {
        pages_in(ps.drop_last(), sec)
    }
}

/// One index row: `` - `path` [tier] — summary ``.
pub open spec fn index_row(p: PageView) -> Seq<char> {
    "- `"@ + p.path + "` ["@ + p.tier + "] — "@ + p.summary + "\n"@
}

/// The rows of `ps`, in order.
pub open spec fn index_rows(ps: Seq<PageView>) -> Seq<char>
    decreases ps.len(),
{
    if ps.len() == 0 {
        seq![]
    } else {
        index_rows(ps.drop_last()) + index_row(ps.last())
    }
}

/// The block of one section: a `## sec (n pages)` header, its rows, a blank line.
pub open spec fn index_block(ps: Seq<PageView>, sec: Seq<char>) -> Seq<char> {
    "## "@ + sec + " ("@ + decimal(pages_in(ps, sec).len()) + " pages)\n"@ + index_rows(
        pages_in(ps, sec),
    ) + "\n"@
}

/// The blocks of the sections `secs`, in order.
pub open spec fn index_blocks(ps: Seq<PageView>, secs: Seq<Seq<char>>) -> Seq<char>
    decreases secs.len(),
{
    if secs.len() == 0 {
        seq![]
    } else {
        index_blocks(ps, secs.drop_last()) + index_block(ps, secs.last())
    }
}

/// The opening lines of every index.
pub open spec fn index_header() -> Seq<char> {
    "# Legion Wiki Index\n"@
        + "Consumption loop: scan these one-line summaries → `wiki_read` the relevant page(s) → follow their `Related` links. Use `wiki_search` if unsure which page.\n\n"@
}

/// The index of the whole corpus, or of the one section `want`.
pub open spec fn index_text(ps: Seq<PageView>, want: Option<Seq<char>>) -> Seq<char> {
    index_header() + match want {
        Some(w) => index_block(ps, w),
        None => index_blocks(ps, section_names(ps)),
    }
}

/// The answer to a request for a section the corpus does not have.
pub open spec fn unknown_section_message(w: Seq<char>, secs: Seq<Seq<char>>) -> Seq<char> {
    "Unknown wiki section '"@ + w + "'. Sections: "@ + join(secs, ", "@) + "."@
}

/// The sorted, de-duplicated section names of the pages.
fn collect_sections(pages: &Vec<WikiPage>) -> (r: Vec<Vec<char>>)
    ensures
        views(r@) == section_names(page_views(pages@)),
{
    let ghost pv = page_views(pages@);
    let mut all: Vec<Vec<char>> = Vec::new();
    let mut i: usize = 0;
    while i < pages.len()
        invariant
            i <= pages@.len(),
            pv == page_views(pages@),
            views(all@) == pv.map_values(|p: PageView| p.section).take(i as int),
        decreases pages@.len() - i,
    {
        let ghost before = views(all@);
        all.push(chars_of(pages[i].section.as_str()));
        assert(views(all@) =~= before.push(pages@[i as int].section@));
        assert(pv.map_values(|p: PageView| p.section).take(i + 1) =~= pv.map_values(
            |p: PageView| p.section,
        ).take(i as int).push(pages@[i as int].section@));
        i = i + 1;
    }
    assert(pv.map_values(|p: PageView| p.section).take(pages@.len() as int) =~= pv.map_values(
        |p: PageView| p.section,
    ));
    let sorted = sort_texts(&all);
    dedup_texts(&sorted)
}

/// Appends the block of section `sec` to `out`.
fn push_index_block(out: &mut String, pages: &Vec<WikiPage>, sec: &[char])
    ensures
        final(out)@ == old(out)@ + index_block(page_views(pages@), sec@),
{
    let ghost pv = page_views(pages@);
    let mut rows = String::new();
    let mut count: usize = 0;
    let mut i: usize = 0;
    while i < pages.len()
        invariant
            i <= pages@.len(),
            pv == page_views(pages@),
            count == pages_in(pv.take(i as int), sec@).len(),
            count <= i,
            rows@ == index_rows(pages_in(pv.take(i as int), sec@)),
        decreases pages@.len() - i,
    {
        let p = &pages[i];
        assert(pv.take(i + 1).drop_last() =~= pv.take(i as int));
        assert(pv.take(i + 1).last() == p@);
        let s = chars_of(p.section.as_str());
        if crate::text::chars_eq(s.as_slice(), sec) {
            push_str(&mut rows, "- `");
            push_str(&mut rows, p.path.as_str());
            push_str(&mut rows, "` [");
            push_str(&mut rows, p.tier.as_str());
            push_str(&mut rows, "] — ");
            push_str(&mut rows, p.summary.as_str());
            push_str(&mut rows, "\n");
            count = count + 1;
            let ghost prev = pages_in(pv.take(i as int), sec@);
            assert(pages_in(pv.take(i + 1), sec@) == prev.push(p@));
            assert(prev.push(p@).drop_last() =~= prev);
            assert(index_rows(prev.push(p@)) == index_rows(prev) + index_row(p@));
            assert(rows@ =~= index_rows(pages_in(pv.take(i + 1), sec@)));
        }
        i = i + 1;
    }
    assert(pv.take(pages@.len() as int) =~= pv);
    let n = u64_to_chars(count as u64);
    push_str(out, "## ");
    push_chars(out, sec);
    push_str(out, " (");
    push_chars(out, n.as_slice());
    push_str(out, " pages)\n");
    push_str(out, rows.as_str());
    push_str(out, "\n");
    assert(final(out)@ =~= old(out)@ + index_block(pv, sec@));
}

/// A grouped, one-line-per-page index of the corpus (or of one section):
/// each row is `path [tier] — summary`. `Err` names the known sections when
/// `section` is not one of them.
pub fn wiki_index(pages: &Vec<WikiPage>, section: Option<&str>) -> (r: Result<String, String>)
    ensures
        match section {
            Some(w) => if section_names(page_views(pages@)).contains(w@) {
                r matches Ok(t) && t@ == index_text(page_views(pages@), Some(w@))
            } else {
                r matches Err(e) && e@ == unknown_section_message(
                    w@,
                    section_names(page_views(pages@)),
                )
            },
            None => r matches Ok(t) && t@ == index_text(page_views(pages@), None),
        },
{
    let ghost pv = page_views(pages@);
    let secs = collect_sections(pages);
    let ghost sv = views(secs@);
    if let Some(w) = section {
        let wc = chars_of(w);
        if !contains_seq(&secs, wc.as_slice()) {
            let mut e = String::new();
            push_str(&mut e, "Unknown wiki section '");
            push_str(&mut e, w);
            push_str(&mut e, "'. Sections: ");
            let sep = [',', ' '];
            proof {
                reveal_strlit(", ");
            }
            assert(sep@ =~= ", "@);
            let j = join_chars(&secs, sep.as_slice());
            push_chars(&mut e, j.as_slice());
            push_str(&mut e, ".");
            return Err(e);
        }
        let mut out = String::new();
        push_str(&mut out, "# Legion Wiki Index\n");
        push_str(
            &mut out,
            "Consumption loop: scan these one-line summaries → `wiki_read` the relevant page(s) → follow their `Related` links. Use `wiki_search` if unsure which page.\n\n",
        );
        push_index_block(&mut out, pages, wc.as_slice());
        assert(out@ =~= index_text(pv, Some(w@)));
        return Ok(out);
    }
    let mut out = String::new();
    push_str(&mut out, "# Legion Wiki Index\n");
    push_str(
        &mut out,
        "Consumption loop: scan these one-line summaries → `wiki_read` the relevant page(s) → follow their `Related` links. Use `wiki_search` if unsure which page.\n\n",
    );
    let ghost head = out@;
    let mut k: usize = 0;
    assert(sv.take(0) =~= Seq::<Seq<char>>::empty());
    while k < secs.len()
        invariant
            k <= secs@.len(),
            sv == views(secs@),
            pv == page_views(pages@),
            out@ == head + index_blocks(pv, sv.take(k as int)),
        decreases secs@.len() - k,
    {
        push_index_block(&mut out, pages, secs[k].as_slice());
        assert(sv.take(k + 1).drop_last() =~= sv.take(k as int));
        assert(sv.take(k + 1).last() == secs@[k as int]@);
        assert(out@ =~= head + index_blocks(pv, sv.take(k + 1)));
        k = k + 1;
    }
    assert(sv.take(secs@.len() as int) =~= sv);
    assert(out@ =~= index_text(pv, None));
    Ok(out)
}

// ───────────────────────────── reading ─────────────────────────────

/// A page path that could leave the wiki root: it holds `..` or starts with
/// a slash or backslash.
pub open spec fn escaping_path(p: Seq<char>) -> bool {
    contains(p, ".."@) || starts_with(p, "/"@) || starts_with(p, "\\"@)
}

/// A requested path is refused exactly when it could leave the wiki root:
/// two dots in a row anywhere, or a leading `/` or backslash.
pub proof fn lemma_escaping_path_chars(p: Seq<char>)
    ensures
        escaping_path(p) <==> ((exists|i: int| 0 <= i < p.len() - 1 && #[trigger] p[i] == '.' && p[i + 1] == '.')
            || (p.len() > 0 && (p[0] == '/' || p[0] == '\\'))),
{
    reveal_strlit("..");
    reveal_strlit("/");
    reveal_strlit("\\");
    if exists|i: int| 0 <= i < p.len() - 1 && #[trigger] p[i] == '.' && p[i + 1] == '.' {
        let i = choose|i: int| 0 <= i < p.len() - 1 && #[trigger] p[i] == '.' && p[i + 1] == '.';
        assert(p.subrange(i, i + 2) =~= ".."@);
        assert(crate::text::occurs_at(p, ".."@, i));
    }
    if contains(p, ".."@) {
        let i = choose|i: int| crate::text::occurs_at(p, ".."@, i);
        assert(p.subrange(i, i + 2)[0] == p[i]);
        assert(p.subrange(i, i + 2)[1] == p[i + 1]);
    }
    if p.len() > 0 && p[0] == '/' {
        assert(p.subrange(0, 1) =~= "/"@);
    }
    if p.len() > 0 && p[0] == '\\' {
        assert(p.subrange(0, 1) =~= "\\"@);
    }
    if starts_with(p, "/"@) {
        assert(p.subrange(0, 1)[0] == p[0]);
    }
    if starts_with(p, "\\"@) {
        assert(p.subrange(0, 1)[0] == p[0]);
    }
}

/// `p` with every backslash turned into a forward slash.
pub open spec fn forward_slashed(p: Seq<char>) -> Seq<char> {
    p.map_values(|c: char| if c == '\\' { '/' } else { c })
}

/// Some page of `ps` has path `p`.
pub open spec fn has_page(ps: Seq<PageView>, p: Seq<char>) -> bool {
    exists|i: int| 0 <= i < ps.len() && #[trigger] ps[i].path == p
}

/// The first check of a requested page path, made before the corpus is
/// read: no `..` anywhere and no leading `/` or `\\`.
pub fn wiki_path_check(path: &str) -> (r: Result<(), String>)
    ensures
        escaping_path(path@) ==> (r matches Err(e)
            && e@ == "Invalid wiki path: must be relative with no '..' or absolute prefix."@),
        !escaping_path(path@) ==> r is Ok,
{
    proof {
        reveal_strlit("..");
        reveal_strlit("/");
        reveal_strlit("\\");
    }
    let p = chars_of(path);
    let dots = ['.', '.'];
    let sl = ['/'];
    let bs = ['\\'];
    assert(dots@ =~= ".."@);
    assert(sl@ =~= "/"@);
    assert(bs@ =~= "\\"@);
    if contains_chars(p.as_slice(), dots.as_slice()) || starts_with_chars(p.as_slice(), sl.as_slice())
        || starts_with_chars(p.as_slice(), bs.as_slice()) {
        let mut e = String::new();
        push_str(&mut e, "Invalid wiki path: must be relative with no '..' or absolute prefix.");
        return Err(e);
    }
    Ok(())
}

/// Checks a requested page path: it must stay inside the root and name an
/// enumerated page. `Ok` holds the forward-slashed path.
pub fn wiki_resolve_path(pages: &Vec<WikiPage>, path: &str) -> (r: Result<String, String>)
    ensures
        escaping_path(path@) ==> (r matches Err(e)
            && e@ == "Invalid wiki path: must be relative with no '..' or absolute prefix."@),
        !escaping_path(path@) && !has_page(page_views(pages@), forward_slashed(path@)) ==> (r matches Err(e)
            && e@ == "Unknown wiki page '"@ + path@
            + "'. Use wiki_index or wiki_search to find valid paths."@),
        !escaping_path(path@) && has_page(page_views(pages@), forward_slashed(path@)) ==> (r matches Ok(n)
            && n@ == forward_slashed(path@)),
{
    wiki_path_check(path)?;
    let p = chars_of(path);
    let mut norm: Vec<char> = Vec::new();
    let mut i: usize = 0;
    while i < p.len()
        invariant
            i <= p@.len(),
            p@ == path@,
            !escaping_path(path@),
            norm@ == forward_slashed(p@).take(i as int),
        decreases p@.len() - i,
    {
        let c = if p[i] == '\\' {
            '/'
        } else {
            p[i]
        };
        norm.push(c);
        assert(forward_slashed(p@).take(i + 1) =~= forward_slashed(p@).take(i as int).push(c));
        i = i + 1;
    }
    assert(forward_slashed(p@).take(p@.len() as int) =~= forward_slashed(p@));
    let ghost pv = page_views(pages@);
    let mut k: usize = 0;
    while k < pages.len()
        invariant
            k <= pages@.len(),
            pv == page_views(pages@),
            norm@ == forward_slashed(path@),
            !escaping_path(path@),
            forall|j: int| 0 <= j < k ==> #[trigger] pv[j].path != norm@,
        decreases pages@.len() - k,
    {
        if crate::text::chars_eq(chars_of(pages[k].path.as_str()).as_slice(), norm.as_slice()) {
            assert(pv[k as int].path == norm@);
            return Ok(string_of(norm.as_slice()));
        }
        k = k + 1;
    }
    let mut e = String::new();
    push_str(&mut e, "Unknown wiki page '");
    push_str(&mut e, path);
    push_str(&mut e, "'. Use wiki_index or wiki_search to find valid paths.");
    Err(e)
}

/// What `wiki_read` answers for the page `norm` whose text is `content`.
pub open spec fn read_result(
    norm: Seq<char>,
    content: Seq<char>,
    section: Option<Seq<char>>,
    max_chars: Option<usize>,
) -> Result<Seq<char>, Seq<char>> {
    let max: nat = match max_chars {
        Some(m) => if m >= 1 { m as nat } else { 1 },
        None => WIKI_READ_DEFAULT_MAX_CHARS as nat,
    };
    match section {
        Some(h) => match section_of(content, h) {
            Some(b) => Ok(capped(b, max)),
            None => Err(
                "Section '## "@ + h + "' not found in '"@ + norm
                    + "'. Read the page with no `section` to see its headers."@,
            ),
        },
        None => Ok(capped(content, max)),
    }
}

/// The body of a read of page `norm` (text `content`): the whole page or
/// its `## section` block, capped at `max_chars` (default
/// [`WIKI_READ_DEFAULT_MAX_CHARS`], at least one) with a truncation marker.
pub fn wiki_read_content(norm: &str, content: &str, section: Option<&str>, max_chars: Option<usize>) -> (r: Result<String, String>)
    ensures
        match read_result(
            norm@,
            content@,
            match section {
                Some(h) => Some(h@),
                None => None,
            },
            max_chars,
        ) {
            Ok(t) => r matches Ok(s) && s@ == t,
            Err(t) => r matches Err(s) && s@ == t,
        },
{
    let max = match max_chars {
        Some(m) => if m >= 1 {
            m
        } else {
            1
        },
        None => WIKI_READ_DEFAULT_MAX_CHARS,
    };
    match section {
        Some(h) => match extract_section(content, h) {
            Some(b) => Ok(wiki_cap_with_marker(b.as_str(), max)),
            None => {
                let mut e = String::new();
                push_str(&mut e, "Section '## ");
                push_str(&mut e, h);
                push_str(&mut e, "' not found in '");
                push_str(&mut e, norm);
                push_str(&mut e, "'. Read the page with no `section` to see its headers.");
                Err(e)
            },
        },
        None => Ok(wiki_cap_with_marker(content, max)),
    }
}

// ───────────────────────────── laws ─────────────────────────────

/// No two pages share a path.
pub open spec fn distinct_paths(ps: Seq<PageView>) -> bool {
    forall|i: int, j: int| 0 <= i < j < ps.len() ==> #[trigger] ps[i].path != #[trigger] ps[j].path
}

proof fn lemma_min_path(a: Seq<PageView>, x: PageView)
    requires
        sorted_by(a, path_order()),
        a.len() > 0,
        a.contains(x),
    ensures
        text_le(a[0].path, x.path),
{
    let i = choose|i: int| 0 <= i < a.len() && a[i] == x;
    if i > 0 {
        assert(path_order()(a[0], a[i]));
    } else {
        crate::order::lemma_text_le_refl(a[0].path);
    }
}

/// Two path-sorted page lists with the same pages are the same list when
/// no two pages share a path: the corpus does not depend on the order in
/// which its pages were found.
pub proof fn lemma_sorted_pages_unique(a: Seq<PageView>, b: Seq<PageView>)
    requires
        sorted_by(a, path_order()),
        sorted_by(b, path_order()),
        a.to_multiset() == b.to_multiset(),
        distinct_paths(a),
    ensures
        a == b,
    decreases a.len(),
{
    broadcast use vstd::multiset::group_multiset_axioms;
    if a.len() == 0 {
        assert(b.to_multiset().len() == 0);
        assert(b.len() == 0);
        assert(a =~= b);
    } else {
        assert(a.to_multiset().contains(a[0]));
        assert(b.to_multiset().contains(a[0]));
        assert(b.len() > 0);
        assert(b.to_multiset().contains(b[0]));
        assert(a.contains(b[0]));
        assert(b.contains(a[0]));
        lemma_min_path(a, b[0]);
        lemma_min_path(b, a[0]);
        crate::order::lemma_text_le_antisym(a[0].path, b[0].path);
        let i = choose|i: int| 0 <= i < a.len() && a[i] == b[0];
        if i != 0 {
            assert(a[0].path != a[i].path);
        }
        assert(a[0] == b[0]);
        vstd::seq_lib::to_multiset_remove(a, 0);
        vstd::seq_lib::to_multiset_remove(b, 0);
        assert(a.remove(0) =~= a.drop_first());
        assert(b.remove(0) =~= b.drop_first());
        assert forall|i: int, j: int| 0 <= i < j < a.drop_first().len() implies #[trigger] a.drop_first()[i].path != #[trigger] a.drop_first()[j].path by {
            assert(a.drop_first()[i] == a[i + 1]);
            assert(a.drop_first()[j] == a[j + 1]);
        }
        assert(sorted_by(a.drop_first(), path_order()));
        assert(sorted_by(b.drop_first(), path_order()));
        lemma_sorted_pages_unique(a.drop_first(), b.drop_first());
        assert(a.len() == b.len());
        assert forall|k: int| 0 <= k < a.len() implies a[k] == b[k] by {
            if k > 0 {
                assert(a[k] == a.drop_first()[k - 1]);
                assert(b[k] == b.drop_first()[k - 1]);
            }
        }
        assert(a =~= b);
    }
}

/// Two corpora built from the same pages found in any order give the same
/// index (when no two pages share a path).
pub proof fn lemma_index_order_independent(a: Seq<PageView>, b: Seq<PageView>, want: Option<Seq<char>>)
    requires
        sorted_by(a, path_order()),
        sorted_by(b, path_order()),
        a.to_multiset() == b.to_multiset(),
        distinct_paths(a),
    ensures
        index_text(a, want) == index_text(b, want),
        section_names(a) == section_names(b),
{
    lemma_sorted_pages_unique(a, b);
}

/// The index lists each section once, in the order of `str`.
pub proof fn lemma_section_names_strictly_sorted(ps: Seq<PageView>)
    ensures
        crate::order::strictly_sorted(section_names(ps)),
{
    crate::order::lemma_text_order_total();
    ps.map_values(|p: PageView| p.section).lemma_sort_by_ensures(text_order());
    crate::order::lemma_dedup_strictly_sorted(ps.map_values(|p: PageView| p.section).sort_by(text_order()));
}

} // verus!
