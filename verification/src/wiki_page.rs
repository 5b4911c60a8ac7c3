//! Wiki page metadata: fallback titles from file names, the flat YAML
//! frontmatter (`title`, `summary`, `tags`), and read capping.

use vstd::prelude::*;
use crate::text::{
    append_chars, chars_of, contains, decimal, ends_with, find, find_chars, join, join_chars, lines,
    lines_of, lowercase, slice_copy, split_by, split_by_chars, starts_with, starts_with_chars,
    string_of, to_lowercase_chars, trim, trim_chars, trim_end, trim_end_chars, u64_to_chars,
    views,
};
use crate::wiki::{extract_section, section_of, wiki_tier};

verus! {

broadcast use vstd::string::group_string_axioms;

// ───────────────────────────── titles ─────────────────────────────

/// What std's `char::to_uppercase` yields for `c` (one or more characters).
pub uninterp spec fn uppercase(c: char) -> Seq<char>;

/// std `char::to_uppercase`, collected; named by [`uppercase`].
#[verifier::external_body]
fn to_uppercase_chars(c: char) -> (r: Vec<char>)
    ensures
        r@ == uppercase(c),
{
    c.to_uppercase().collect()
}

/// A file name without its `.md` suffix.
pub open spec fn md_stem(name: Seq<char>) -> Seq<char> {
    if ends_with(name, ".md"@) {
        name.take(name.len() - 3)
    } else {
        name
    }
}

/// A word with its first character upper-cased.
pub open spec fn capitalized(w: Seq<char>) -> Seq<char> {
    if w.len() == 0 {
        w
    } else {
        uppercase(w[0]) + w.skip(1)
    }
}

/// The non-empty words of `parts`, each capitalized.
pub open spec fn title_words(parts: Seq<Seq<char>>) -> Seq<Seq<char>>
    decreases parts.len(),
{
    if parts.len() == 0 {
        seq![]
    } else if parts.last().len() == 0 {
        title_words(parts.drop_last())
    } else {
        title_words(parts.drop_last()).push(capitalized(parts.last()))
    }
}

/// The readable title derived from a `kebab-or_snake.md` file name.
pub open spec fn title_of_filename(name: Seq<char>) -> Seq<char> {
    join(title_words(split_by(md_stem(name), seq!['-', '_'])), seq![' '])
}

/// Title-cases a `kebab-or_snake.md` file name into a fallback title.
pub fn filename_to_title(name: &str) -> (r: String)
    ensures
        r@ == title_of_filename(name@),
{
    proof {
        reveal_strlit(".md");
    }
    let n = chars_of(name);
    let md = ['.', 'm', 'd'];
    assert(md@ =~= ".md"@);
    let stem = if crate::text::ends_with_chars(n.as_slice(), md.as_slice()) {
        slice_copy(n.as_slice(), 0, n.len() - 3)
    } else {
        slice_copy(n.as_slice(), 0, n.len())
    };
    assert(stem@ =~= md_stem(n@));
    let seps = ['-', '_'];
    assert(seps@ =~= seq!['-', '_']);
    let parts = split_by_chars(stem.as_slice(), seps.as_slice());
    let ghost ps = views(parts@);
    let mut words: Vec<Vec<char>> = Vec::new();
    let mut i: usize = 0;
    assert(ps.take(0) =~= Seq::<Seq<char>>::empty());
    while i < parts.len()
        invariant
            i <= parts@.len(),
            ps == views(parts@),
            views(words@) == title_words(ps.take(i as int)),
        decreases parts@.len() - i,
    {
        let w = parts[i].as_slice();
        assert(ps[i as int] == w@);
        assert(ps.take(i + 1).drop_last() =~= ps.take(i as int));
        assert(ps.take(i + 1).last() == w@);
        if w.len() > 0 {
            let mut cap = to_uppercase_chars(w[0]);
            let tail = slice_copy(w, 1, w.len());
            append_chars(&mut cap, tail.as_slice());
            assert(tail@ =~= w@.skip(1));
            let ghost before = views(words@);
            words.push(cap);
            assert(views(words@) =~= before.push(capitalized(w@)));
        }
        i = i + 1;
    }
    assert(ps.take(parts@.len() as int) =~= ps);
    let sp = [' '];
    assert(sp@ =~= seq![' ']);
    let joined = join_chars(&words, sp.as_slice());
    string_of(joined.as_slice())
}

// ───────────────────────────── frontmatter ─────────────────────────────

/// `s` without its leading `c` characters (`trim_start_matches(c)`).
pub open spec fn strip_leading(s: Seq<char>, c: char) -> Seq<char>
    decreases s.len(),
{
    if s.len() > 0 && s[0] == c {
        strip_leading(s.drop_first(), c)
    } else {
        s
    }
}

/// `s` without its trailing `c` characters (`trim_end_matches(c)`).
pub open spec fn strip_trailing(s: Seq<char>, c: char) -> Seq<char>
    decreases s.len(),
{
    if s.len() > 0 && s.last() == c {
        strip_trailing(s.drop_last(), c)
    } else {
        s
    }
}

/// The trimmed pieces of `parts` that are not empty.
pub open spec fn trimmed_nonempty(parts: Seq<Seq<char>>) -> Seq<Seq<char>>
    decreases parts.len(),
{
    if parts.len() == 0 {
        seq![]
    } else if trim(parts.last()).len() == 0 {
        trimmed_nonempty(parts.drop_last())
    } else {
        trimmed_nonempty(parts.drop_last()).push(trim(parts.last()))
    }
}

/// The tags of an inline `[a, b]` list (brackets optional).
pub open spec fn tag_list(v: Seq<char>) -> Seq<Seq<char>> {
    trimmed_nonempty(split_by(strip_trailing(strip_leading(trim(v), '['), ']'), seq![',']))
}

/// Title, summary and tags read from frontmatter.
pub type FrontmatterView = (Option<Seq<char>>, Option<Seq<char>>, Seq<Seq<char>>);

/// The effect of one frontmatter line on what was read so far.
pub open spec fn frontmatter_step(acc: FrontmatterView, line: Seq<char>) -> FrontmatterView {
    let l = trim_end(line);
    if starts_with(l, "title:"@) {
        (Some(trim(l.skip(6))), acc.1, acc.2)
    } else if starts_with(l, "summary:"@) {
        (acc.0, Some(trim(l.skip(8))), acc.2)
    } else if starts_with(l, "tags:"@) {
        (acc.0, acc.1, tag_list(l.skip(5)))
    } else {
        acc
    }
}

/// What the frontmatter lines `ls` set, later lines overriding earlier ones.
pub open spec fn frontmatter_fold(ls: Seq<Seq<char>>) -> FrontmatterView
    decreases ls.len(),
{
    if ls.len() == 0 {
        (None, None, seq![])
    } else {
        frontmatter_step(frontmatter_fold(ls.drop_last()), ls.last())
    }
}

/// The text between a leading `---` and the next `\n---`, if both exist.
pub open spec fn frontmatter_block(content: Seq<char>) -> Option<Seq<char>> {
    if starts_with(content, "---"@) {
        match find(content.skip(3), "\n---"@) {
            Some(i) => Some(content.skip(3).take(i)),
            None => None,
        }
    } else {
        None
    }
}

/// `(title, summary, tags)` of a page's leading frontmatter; all empty when
/// there is none.
pub open spec fn frontmatter(content: Seq<char>) -> FrontmatterView {
    match frontmatter_block(content) {
        Some(b) => frontmatter_fold(lines(b)),
        None => (None, None, seq![]),
    }
}

pub fn strip_leading_chars(s: &[char], c: char) -> (r: Vec<char>)
    ensures
        r@ == strip_leading(s@, c),
{
    let mut i: usize = 0;
    assert(s@.skip(0) =~= s@);
    while i < s.len() && s[i] == c
        invariant
            i <= s@.len(),
            strip_leading(s@, c) == strip_leading(s@.skip(i as int), c),
        decreases s@.len() - i,
    {
        assert(s@.skip(i as int).drop_first() =~= s@.skip(i + 1));
        i = i + 1;
    }
    let r = slice_copy(s, i, s.len());
    assert(r@ =~= s@.skip(i as int));
    r
}

pub fn strip_trailing_chars(s: &[char], c: char) -> (r: Vec<char>)
    ensures
        r@ == strip_trailing(s@, c),
{
    let mut j: usize = s.len();
    assert(s@.take(s@.len() as int) =~= s@);
    while j > 0 && s[j - 1] == c
        invariant
            j <= s@.len(),
            strip_trailing(s@, c) == strip_trailing(s@.take(j as int), c),
        decreases j,
    {
        assert(s@.take(j as int).drop_last() =~= s@.take(j - 1));
        j = j - 1;
    }
    let r = slice_copy(s, 0, j);
    assert(r@ =~= s@.take(j as int));
    r
}

fn tag_list_chars(v: &[char]) -> (r: Vec<Vec<char>>)
    ensures
        views(r@) == tag_list(v@),
{
    let t = trim_chars(v);
    let a = strip_leading_chars(t.as_slice(), '[');
    let b = strip_trailing_chars(a.as_slice(), ']');
    let comma = [','];
    assert(comma@ =~= seq![',']);
    let parts = split_by_chars(b.as_slice(), comma.as_slice());
    let ghost ps = views(parts@);
    let mut r: Vec<Vec<char>> = Vec::new();
    let mut i: usize = 0;
    assert(ps.take(0) =~= Seq::<Seq<char>>::empty());
    while i < parts.len()
        invariant
            i <= parts@.len(),
            ps == views(parts@),
            views(r@) == trimmed_nonempty(ps.take(i as int)),
        decreases parts@.len() - i,
    {
        assert(ps[i as int] == parts@[i as int]@);
        assert(ps.take(i + 1).drop_last() =~= ps.take(i as int));
        assert(ps.take(i + 1).last() == ps[i as int]);
        let w = trim_chars(parts[i].as_slice());
        if w.len() > 0 {
            let ghost before = views(r@);
            r.push(w);
            assert(views(r@) =~= before.push(trim(ps[i as int])));
        }
        i = i + 1;
    }
    assert(ps.take(parts@.len() as int) =~= ps);
    r
}

/// Reads `(title, summary, tags)` from a page's leading YAML frontmatter: the
/// block between a leading `---` and the next `---` line. Only the flat
/// single-line fields are read; a page without frontmatter yields all-empty.
pub fn parse_frontmatter(content: &str) -> (r: (Option<String>, Option<String>, Vec<String>))
    ensures
        (match r.0 {
            Some(t) => frontmatter(content@).0 == Some(t@),
            None => frontmatter(content@).0 is None,
        }),
        (match r.1 {
            Some(t) => frontmatter(content@).1 == Some(t@),
            None => frontmatter(content@).1 is None,
        }),
        r.2@.map_values(|t: String| t@) == frontmatter(content@).2,
{
    proof {
        reveal_strlit("---");
        reveal_strlit("\n---");
        reveal_strlit("title:");
        reveal_strlit("summary:");
        reveal_strlit("tags:");
    }
    let c = chars_of(content);
    let dashes = ['-', '-', '-'];
    assert(dashes@ =~= "---"@);
    let mut title: Option<Vec<char>> = None;
    let mut summary: Option<Vec<char>> = None;
    let mut tags: Vec<Vec<char>> = Vec::new();
    if starts_with_chars(c.as_slice(), dashes.as_slice()) {
        let after = slice_copy(c.as_slice(), 3, c.len());
        assert(after@ =~= c@.skip(3));
        let marker = ['\n', '-', '-', '-'];
        assert(marker@ =~= "\n---"@);
        match find_chars(after.as_slice(), marker.as_slice()) {
            Some(end) => {
                let block = slice_copy(after.as_slice(), 0, end);
                assert(block@ =~= after@.take(end as int));
                let ls = lines_of(block.as_slice());
                let ghost lv = views(ls@);
                let t_key = ['t', 'i', 't', 'l', 'e', ':'];
                let s_key = ['s', 'u', 'm', 'm', 'a', 'r', 'y', ':'];
                let g_key = ['t', 'a', 'g', 's', ':'];
                assert(t_key@ =~= "title:"@);
                assert(s_key@ =~= "summary:"@);
                assert(g_key@ =~= "tags:"@);
                let mut i: usize = 0;
                assert(lv.take(0) =~= Seq::<Seq<char>>::empty());
                while i < ls.len()
                    invariant
                        i <= ls@.len(),
                        lv == views(ls@),
                        t_key@ == "title:"@,
                        s_key@ == "summary:"@,
                        g_key@ == "tags:"@,
                        (match title {
                            Some(t) => frontmatter_fold(lv.take(i as int)).0 == Some(t@),
                            None => frontmatter_fold(lv.take(i as int)).0 is None,
                        }),
                        (match summary {
                            Some(t) => frontmatter_fold(lv.take(i as int)).1 == Some(t@),
                            None => frontmatter_fold(lv.take(i as int)).1 is None,
                        }),
                        views(tags@) == frontmatter_fold(lv.take(i as int)).2,
                    decreases ls@.len() - i,
                {
                    assert(lv[i as int] == ls@[i as int]@);
                    assert(lv.take(i + 1).drop_last() =~= lv.take(i as int));
                    assert(lv.take(i + 1).last() == lv[i as int]);
                    let l = trim_end_chars(ls[i].as_slice());
                    if starts_with_chars(l.as_slice(), t_key.as_slice()) {
                        let v = slice_copy(l.as_slice(), 6, l.len());
                        assert(v@ =~= l@.skip(6));
                        title = Some(trim_chars(v.as_slice()));
                    } else if starts_with_chars(l.as_slice(), s_key.as_slice()) {
                        let v = slice_copy(l.as_slice(), 8, l.len());
                        assert(v@ =~= l@.skip(8));
                        summary = Some(trim_chars(v.as_slice()));
                    } else if starts_with_chars(l.as_slice(), g_key.as_slice()) {
                        let v = slice_copy(l.as_slice(), 5, l.len());
                        assert(v@ =~= l@.skip(5));
                        tags = tag_list_chars(v.as_slice());
                    }
                    i = i + 1;
                }
                assert(lv.take(ls@.len() as int) =~= lv);
            },
            None => {},
        }
    }
    let rt = match title {
        Some(t) => Some(string_of(t.as_slice())),
        None => None,
    };
    let rs = match summary {
        Some(t) => Some(string_of(t.as_slice())),
        None => None,
    };
    let mut rg: Vec<String> = Vec::new();
    let mut k: usize = 0;
    while k < tags.len()
        invariant
            k <= tags@.len(),
            rg@.map_values(|t: String| t@) == views(tags@).take(k as int),
        decreases tags@.len() - k,
    {
        let ghost before = rg@;
        rg.push(string_of(tags[k].as_slice()));
        assert(rg@.map_values(|t: String| t@) =~= before.map_values(|t: String| t@).push(tags@[k as int]@));
        assert(views(tags@).take(k + 1) =~= views(tags@).take(k as int).push(tags@[k as int]@));
        k = k + 1;
    }
    assert(views(tags@).take(tags@.len() as int) =~= views(tags@));
    (rt, rs, rg)
}

// ───────────────────────────── capping ─────────────────────────────

/// `text` capped to `max` characters, with a truncation marker that gives
/// the offset to continue from.
pub open spec fn capped(text: Seq<char>, max: nat) -> Seq<char> {
    if text.len() <= max {
        text
    } else {
        text.take(max as int) + "\n\n[TRUNCATED] shown first "@ + decimal(max) + " of "@ + decimal(
            text.len(),
        ) + " chars (next_offset="@ + decimal(max)
            + "). To see more: re-call wiki_read with a larger max_chars, or pass `section` to read just one `## Header` block."@
    }
}

/// A capped read shows the first `max` characters of the text: the whole
/// text, unchanged, when it has at most `max` characters, and otherwise
/// those characters followed by a marker that names `max` as the offset to
/// continue from and the text's full length.
pub proof fn lemma_capped_shows_prefix(text: Seq<char>, max: nat)
    ensures
        text.len() <= max ==> capped(text, max) == text,
        text.len() > max ==> capped(text, max).len() > max,
        text.len() > max ==> capped(text, max).take(max as int) == text.take(max as int),
        text.len() > max ==> contains(capped(text, max).skip(max as int), "next_offset="@ + decimal(max) + ")"@),
        text.len() > max ==> contains(capped(text, max).skip(max as int), " of "@ + decimal(text.len()) + " chars"@),
{
    if text.len() > max {
        let m = "\n\n[TRUNCATED] shown first "@ + decimal(max) + " of "@ + decimal(text.len()) + " chars (next_offset="@
            + decimal(max)
            + "). To see more: re-call wiki_read with a larger max_chars, or pass `section` to read just one `## Header` block."@;
        let c = capped(text, max);
        assert(c == text.take(max as int) + m);
        assert(c.take(max as int) =~= text.take(max as int));
        assert(c.skip(max as int) =~= m);
        let a = "\n\n[TRUNCATED] shown first "@ + decimal(max);
        let p1 = " of "@ + decimal(text.len()) + " chars"@;
        let p2 = "next_offset="@ + decimal(max) + ")"@;
        reveal_strlit(" chars (next_offset=");
        reveal_strlit(" chars");
        reveal_strlit("next_offset=");
        reveal_strlit(")");
        reveal_strlit("). To see more: re-call wiki_read with a larger max_chars, or pass `section` to read just one `## Header` block.");
        assert(m.subrange(a.len() as int, (a.len() + p1.len()) as int) =~= p1);
        assert(crate::text::occurs_at(m, p1, a.len() as int));
        let b = a + " of "@ + decimal(text.len()) + " chars ("@;
        reveal_strlit(" chars (");
        assert(m.subrange(b.len() as int, (b.len() + p2.len()) as int) =~= p2);
        assert(crate::text::occurs_at(m, p2, b.len() as int));
    }
}

/// Caps `text` to `max_chars` characters, appending a truncation marker with
/// a `next_offset` when it was cut.
pub fn wiki_cap_with_marker(text: &str, max_chars: usize) -> (r: String)
    ensures
        r@ == capped(text@, max_chars as nat),
{
    let t = chars_of(text);
    if t.len() <= max_chars {
        return string_of(t.as_slice());
    }
    let mut out = slice_copy(t.as_slice(), 0, max_chars);
    assert(out@ =~= text@.take(max_chars as int));
    let m = u64_to_chars(max_chars as u64);
    let n = u64_to_chars(t.len() as u64);
    let mut s = string_of(out.as_slice());
    crate::text::push_str(&mut s, "\n\n[TRUNCATED] shown first ");
    crate::text::push_chars(&mut s, m.as_slice());
    crate::text::push_str(&mut s, " of ");
    crate::text::push_chars(&mut s, n.as_slice());
    crate::text::push_str(&mut s, " chars (next_offset=");
    crate::text::push_chars(&mut s, m.as_slice());
    crate::text::push_str(
        &mut s,
        "). To see more: re-call wiki_read with a larger max_chars, or pass `section` to read just one `## Header` block.",
    );
    s
}

// ───────────────────────────── pages ─────────────────────────────

/// One wiki page's metadata. `path` is relative to the wiki root and
/// forward-slashed (e.g. `concepts/mapper.md`).
pub struct WikiPage {
    pub path: String,
    /// Top-level section directory.
    pub section: String,
    /// Frontmatter `title`, or a title made from the file name.
    pub title: String,
    /// Frontmatter `summary`, or the title.
    pub summary: String,
    /// Frontmatter `tags`.
    pub tags: Vec<String>,
    /// The lower-cased `## TL;DR` block (empty when there is none).
    pub tldr_lc: String,
    /// `core` or `optional`.
    pub tier: String,
}

/// The plain-text model of a [`WikiPage`].
pub struct PageView {
    pub path: Seq<char>,
    pub section: Seq<char>,
    pub title: Seq<char>,
    pub summary: Seq<char>,
    pub tags: Seq<Seq<char>>,
    pub tldr_lc: Seq<char>,
    pub tier: Seq<char>,
}

impl View for WikiPage {
    type V = PageView;

    open spec fn view(&self) -> PageView {
        PageView {
            path: self.path@,
            section: self.section@,
            title: self.title@,
            summary: self.summary@,
            tags: self.tags@.map_values(|t: String| t@),
            tldr_lc: self.tldr_lc@,
            tier: self.tier@,
        }
    }
}

/// The section of a relative page path: the part before the first `/`.
pub open spec fn section_of_path(rel: Seq<char>) -> Seq<char> {
    split_by(rel, seq!['/'])[0]
}

/// The file name of a relative page path: the part after the last `/`.
pub open spec fn name_of_path(rel: Seq<char>) -> Seq<char> {
    split_by(rel, seq!['/']).last()
}

/// The tier named for a section.
pub open spec fn tier_of(section: Seq<char>) -> Seq<char> {
    if section == "glossary"@ || section == "meta"@ {
        "optional"@
    } else {
        "core"@
    }
}

/// The metadata of the page at `rel` with text `content`.
pub open spec fn page_model(rel: Seq<char>, content: Seq<char>) -> PageView {
    let fm = frontmatter(content);
    let title = match fm.0 {
        Some(t) => if t.len() > 0 { t } else { title_of_filename(name_of_path(rel)) },
        None => title_of_filename(name_of_path(rel)),
    };
    let summary = match fm.1 {
        Some(s) => if s.len() > 0 { s } else { title },
        None => title,
    };
    let tldr = match section_of(content, "TL;DR"@) {
        Some(b) => b,
        None => seq![],
    };
    PageView {
        path: rel,
        section: section_of_path(rel),
        title,
        summary,
        tags: fm.2,
        tldr_lc: lowercase(tldr),
        tier: tier_of(section_of_path(rel)),
    }
}

proof fn lemma_split_nonempty(s: Seq<char>, seps: Seq<char>)
    ensures
        split_by(s, seps).len() >= 1,
    decreases s.len(),
{
    match crate::text::first_sep_from(s, seps, 0) {
        Some(i) => {
            if 0 <= i < s.len() {
                lemma_split_nonempty(s.skip(i + 1), seps);
            }
        },
        None => {},
    }
}

/// Parses one page's metadata from its relative path and content.
pub fn page_from_content(rel: &str, content: &str) -> (r: WikiPage)
    ensures
        r@ == page_model(rel@, content@),
{
    proof {
        reveal_strlit("TL;DR");
        reveal_strlit("glossary");
        reveal_strlit("meta");
        reveal_strlit("optional");
        reveal_strlit("core");
        lemma_split_nonempty(rel@, seq!['/']);
    }
    let rc = chars_of(rel);
    let slash = ['/'];
    assert(slash@ =~= seq!['/']);
    let parts = split_by_chars(rc.as_slice(), slash.as_slice());
    assert(views(parts@).len() == parts@.len());
    let section = string_of(parts[0].as_slice());
    let name = string_of(parts[parts.len() - 1].as_slice());
    assert(views(parts@)[0] == parts@[0]@);
    assert(views(parts@).last() == parts@[parts@.len() - 1]@);
    let (title, summary, tags) = parse_frontmatter(content);
    let title = match title {
        Some(t) => if !t.as_str().is_empty() {
            t
        } else {
            filename_to_title(name.as_str())
        },
        None => filename_to_title(name.as_str()),
    };
    let summary = match summary {
        Some(s) => if !s.as_str().is_empty() {
            s
        } else {
            title.clone()
        },
        None => title.clone(),
    };
    let tldr = match extract_section(content, "TL;DR") {
        Some(b) => chars_of(b.as_str()),
        None => Vec::new(),
    };
    let tldr_lc = string_of(to_lowercase_chars(tldr.as_slice()).as_slice());
    let tier = string_of(chars_of(wiki_tier(section.as_str())).as_slice());
    WikiPage { path: string_of(rc.as_slice()), section, title, summary, tags, tldr_lc, tier }
}

} // verus!
