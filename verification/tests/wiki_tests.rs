use legion_prof_viewer::wiki::{extract_section, wiki_tier};
use legion_prof_viewer::wiki_corpus::{wiki_corpus, wiki_index, wiki_read_content, wiki_resolve_path};
use legion_prof_viewer::wiki_page::{filename_to_title, page_from_content, parse_frontmatter, wiki_cap_with_marker, WikiPage};
use legion_prof_viewer::wiki_search::{rank_wiki_pages, wiki_no_match_message, wiki_score, wiki_search_query};

/// A wiki corpus shaped like the shipped one: five sections, 110 pages, each
/// with frontmatter, a TL;DR and related links (the meta pages have no
/// frontmatter, as in the real corpus).
fn corpus_entries() -> Vec<(String, String)> {
    let sections = [("concepts", 40), ("pitfalls", 30), ("workflows", 20), ("glossary", 15), ("meta", 5)];
    let mut out = Vec::new();
    for (sec, n) in sections {
        for i in 0..n {
            let rel = format!("{sec}/{sec}-topic_{i:02}.md");
            let content = if sec == "meta" {
                format!("# Lint report {i}\n\nGenerated.\n")
            } else {
                format!(
                    "---\ntitle: {sec} topic {i}\nsummary: One-line summary of {sec} topic {i} (mapper notes)\ntags: [{sec}, legion, t{i}]\n---\n\n## TL;DR\nThe {sec} topic {i} in brief.\n\n## Debug signals\n```bash\n# a shell comment\n./app -lg:inorder 1\n```\n\n## Related\n- [other]({sec}/x.md)\n"
                )
            };
            out.push((rel, content));
        }
    }
    out
}

/// The same entries in the order a directory walk might produce them.
fn walk_order(mut v: Vec<(String, String)>) -> Vec<(String, String)> {
    v.reverse();
    let n = v.len();
    v.rotate_left(n / 3);
    v
}

fn corpus() -> Vec<WikiPage> {
    wiki_corpus("wiki", &corpus_entries()).unwrap()
}

#[test]
fn test_wiki_embedded_matches_fs_corpus() {
    let embedded = wiki_corpus("", &corpus_entries()).unwrap();
    let fs = wiki_corpus("wiki", &walk_order(corpus_entries())).unwrap();
    let embedded_idx = wiki_index(&embedded, None).unwrap();
    let fs_idx = wiki_index(&fs, None).unwrap();
    assert_eq!(embedded_idx, fs_idx, "the index depends on the order in which the corpus files arrive");
}

#[test]
fn test_wiki_index_full_lists_sections_and_pages() {
    let idx = wiki_index(&corpus(), None).unwrap();
    for sec in ["concepts", "pitfalls", "workflows", "glossary"] {
        assert!(idx.contains(&format!("## {sec} (")), "index missing section {sec}");
    }
    assert!(idx.contains("concepts/"), "no concept rows");
    assert!(idx.contains("pitfalls/"), "no pitfall rows");
    let rows: Vec<&str> = idx.lines().filter(|l| l.starts_with("- `")).collect();
    assert!(rows.len() >= 100, "expected >=100 pages, got {}", rows.len());
    for r in &rows {
        assert!(r.contains("[core]") || r.contains("[optional]"), "row lacks tier: {r}");
        let oneliner = r.split(" — ").nth(1).unwrap_or("").trim();
        assert!(!oneliner.is_empty(), "row lacks a one-liner: {r}");
    }
    let chars = idx.chars().count();
    assert!(chars < 200_000, "index unexpectedly huge: {chars} chars");
}

#[test]
fn test_wiki_index_section_scopes() {
    let pages = corpus();
    let idx = wiki_index(&pages, Some("pitfalls")).unwrap();
    assert!(idx.contains("## pitfalls ("), "pitfalls header missing");
    assert!(!idx.contains("## concepts ("), "concepts leaked into pitfalls scope");
    for r in idx.lines().filter(|l| l.starts_with("- `")) {
        assert!(r.contains("`pitfalls/"), "non-pitfall row in scoped index: {r}");
    }
    assert!(wiki_index(&pages, Some("nope")).is_err());
}

#[test]
fn test_extract_section_ignores_comments_in_code_fence() {
    let page = "\
## Typical combinations
Prose before the fence.

```bash
./app -ll:cpu 4
# In a separate shell:
# gdb -p <PID>
./app -lg:inorder 1
```

Trailing prose after the fence.

## Invariants
- next section, must NOT appear in the block.
";
    let block = extract_section(page, "Typical combinations").unwrap();
    assert!(block.contains("# In a separate shell:"), "fenced comment truncated the section");
    assert!(block.contains("gdb -p <PID>"), "second fenced comment lost");
    assert!(block.contains("Trailing prose after the fence."), "post-fence prose lost");
    assert!(!block.contains("## Invariants"), "next section leaked in");
    assert!(!block.contains("next section, must NOT appear"), "next section body leaked in");
    assert!(extract_section(page, "typical COMBINATIONS").is_some());
    let fenced_only = "## Real\nbody\n```\n## not a heading\n```\n";
    assert!(extract_section(fenced_only, "not a heading").is_none());
}

#[test]
fn index_exact_text_of_small_corpus() {
    let entries = vec![
        ("b/two.md".to_string(), "---\ntitle: Two\n---\n".to_string()),
        ("a/one-page_x.md".to_string(), "no frontmatter".to_string()),
        ("glossary/g.md".to_string(), "---\nsummary: A term\n---\n".to_string()),
    ];
    let pages = wiki_corpus("", &entries).unwrap();
    let paths: Vec<&str> = pages.iter().map(|p| p.path.as_str()).collect();
    assert_eq!(paths, vec!["a/one-page_x.md", "b/two.md", "glossary/g.md"]);
    let idx = wiki_index(&pages, None).unwrap();
    assert_eq!(
        idx,
        "# Legion Wiki Index\nConsumption loop: scan these one-line summaries → `wiki_read` the relevant page(s) → follow their `Related` links. Use `wiki_search` if unsure which page.\n\n\
## a (1 pages)\n- `a/one-page_x.md` [core] — One Page X\n\n\
## b (1 pages)\n- `b/two.md` [core] — Two\n\n\
## glossary (1 pages)\n- `glossary/g.md` [optional] — A term\n\n"
    );
    assert_eq!(
        wiki_index(&pages, Some("zz")),
        Err("Unknown wiki section 'zz'. Sections: a, b, glossary.".to_string())
    );
}

#[test]
fn empty_corpus_is_an_error() {
    assert_eq!(
        wiki_corpus("", &vec![]).err().unwrap(),
        "Embedded wiki corpus is empty (crate built without wiki/)."
    );
    assert_eq!(
        wiki_corpus("/w", &vec![]).err().unwrap(),
        "No .md pages found under wiki root '/w'."
    );
}

#[test]
fn frontmatter_fields_and_fallbacks() {
    let (t, s, tags) = parse_frontmatter("---\ntitle:  Mapper  \nsummary: How mapping works\ntags: [ a, , B ]\n---\nbody");
    assert_eq!(t.as_deref(), Some("Mapper"));
    assert_eq!(s.as_deref(), Some("How mapping works"));
    assert_eq!(tags, vec!["a".to_string(), "B".to_string()]);
    assert_eq!(parse_frontmatter("no frontmatter"), (None, None, vec![]));
    assert_eq!(parse_frontmatter("---\ntitle: open"), (None, None, vec![]));
    assert_eq!(filename_to_title("kebab-or_snake.md"), "Kebab Or Snake");
    assert_eq!(filename_to_title("--x.md"), "X");
    assert_eq!(filename_to_title("ünïcode-page"), "Ünïcode Page");
    let p = page_from_content("pitfalls/deadlock-case.md", "---\ntitle:\n---\n## TL;DR\nAvoid IT.\n");
    assert_eq!(p.title, "Deadlock Case");
    assert_eq!(p.summary, "Deadlock Case");
    assert_eq!(p.section, "pitfalls");
    assert_eq!(p.tier, "core");
    assert_eq!(p.tldr_lc, "## tl;dr\navoid it.");
    assert_eq!(wiki_tier("meta"), "optional");
    assert_eq!(wiki_tier("concepts"), "core");
}

#[test]
fn read_paths_and_caps() {
    let pages = corpus();
    assert!(wiki_resolve_path(&pages, "../x.md").is_err());
    assert!(wiki_resolve_path(&pages, "/etc/hosts").is_err());
    assert!(wiki_resolve_path(&pages, "\\x").is_err());
    assert_eq!(
        wiki_resolve_path(&pages, "concepts/nope.md"),
        Err("Unknown wiki page 'concepts/nope.md'. Use wiki_index or wiki_search to find valid paths.".to_string())
    );
    assert_eq!(
        wiki_resolve_path(&pages, "concepts\\concepts-topic_03.md"),
        Ok("concepts/concepts-topic_03.md".to_string())
    );
    let content = "## A\nx\n## B\nyy\n";
    assert_eq!(wiki_read_content("p.md", content, Some("b"), None), Ok("## B\nyy".to_string()));
    assert_eq!(
        wiki_read_content("p.md", content, Some("C"), None),
        Err("Section '## C' not found in 'p.md'. Read the page with no `section` to see its headers.".to_string())
    );
    assert_eq!(wiki_read_content("p.md", content, None, Some(0)).unwrap(), wiki_cap_with_marker(content, 1));
    assert_eq!(
        wiki_cap_with_marker("abcdef", 4),
        "abcd\n\n[TRUNCATED] shown first 4 of 6 chars (next_offset=4). To see more: re-call wiki_read with a larger max_chars, or pass `section` to read just one `## Header` block."
    );
    assert_eq!(wiki_cap_with_marker("abc", 3), "abc");
}

#[test]
fn search_ranks_and_scopes() {
    let pages = corpus();
    let q = wiki_search_query("  MAPPER ");
    assert_eq!(q, "mapper");
    let hits = rank_wiki_pages(&pages, &q, None, None, 5).unwrap();
    assert_eq!(hits.len(), 5);
    for w in hits.windows(2) {
        assert!(w[0].0 > w[1].0 || (w[0].0 == w[1].0 && pages[w[0].1].path <= pages[w[1].1].path));
    }
    let scoped = rank_wiki_pages(&pages, &q, Some("pitfalls"), None, 100).unwrap();
    assert_eq!(scoped.len(), 30);
    assert!(scoped.iter().all(|(_, i)| pages[*i].section == "pitfalls"));
    let tagged = rank_wiki_pages(&pages, &q, None, Some("T7"), 100).unwrap();
    assert!(tagged.iter().all(|(_, i)| pages[*i].tags.iter().any(|t| t == "t7")));
    assert_eq!(tagged.len(), 4);
    assert_eq!(rank_wiki_pages(&pages, "", None, None, 5), Err("wiki_search requires a non-empty query.".to_string()));
    // "Up to `limit`": a limit of zero owes no hit.
    assert!(rank_wiki_pages(&pages, &q, None, None, 0).unwrap().is_empty());
    assert!(rank_wiki_pages(&pages, "zzzz", None, None, 5).unwrap().is_empty());
    assert_eq!(
        wiki_no_match_message("zzzz", Some("meta")),
        "No wiki pages matched query 'zzzz' in section 'meta'. Try wiki_index to browse, or broader terms."
    );
}

#[test]
fn score_weights() {
    let p = page_from_content(
        "concepts/mapper.md",
        "---\ntitle: Mapper\nsummary: Mapping tasks\ntags: [Mapper]\n---\n## TL;DR\nmapper picks procs\n",
    );
    // title 10 + tag 5 + tldr 2 + path 2, and the word bonus: title 2, tldr 1.
    assert_eq!(wiki_score(&p, "mapper"), 22);
    // A one-byte word earns no bonus; "a" is in every field.
    assert_eq!(wiki_score(&p, "a"), 10 + 5 + 3 + 2 + 2);
    assert_eq!(wiki_score(&p, "zz"), 0);
}

/// A page read as the wiki tool does it: the path is checked against the
/// corpus, then the page's text is cut to the section and the cap.
fn wiki_read(entries: &[(String, String)], path: &str, section: Option<&str>, max_chars: Option<usize>) -> Result<String, String> {
    read_in("wiki", entries, path, section, max_chars)
}

/// A page read from the corpus rooted at `root` (empty: the built-in one).
fn read_in(root: &str, entries: &[(String, String)], path: &str, section: Option<&str>, max_chars: Option<usize>) -> Result<String, String> {
    let pages = wiki_corpus(root, &entries.to_vec())?;
    let norm = wiki_resolve_path(&pages, path)?;
    let content = &entries.iter().find(|(p, _)| *p == norm).expect("enumerated page has content").1;
    wiki_read_content(&norm, content, section, max_chars)
}

/// A search answered as the wiki tool does: a JSON array of hits, or the
/// no-match sentence.
fn wiki_search(pages: &Vec<WikiPage>, query: &str, section: Option<&str>, tag: Option<&str>, limit: usize) -> Result<String, String> {
    let q = wiki_search_query(query);
    let hits = rank_wiki_pages(pages, &q, section, tag, limit)?;
    if hits.is_empty() {
        return Ok(wiki_no_match_message(query, section));
    }
    let arr: Vec<serde_json::Value> = hits
        .iter()
        .map(|(score, i)| {
            let p = &pages[*i];
            serde_json::Value::Object(
                [
                    ("path".to_string(), serde_json::Value::String(p.path.clone())),
                    ("section".to_string(), serde_json::Value::String(p.section.clone())),
                    ("tldr".to_string(), serde_json::Value::String(p.summary.clone())),
                    ("score".to_string(), serde_json::Value::from(*score)),
                ]
                .into_iter()
                .collect(),
            )
        })
        .collect();
    Ok(serde_json::to_string(&arr).unwrap())
}

const PAGE: &str = "concepts/concepts-topic_07.md";

#[test]
fn test_wiki_read_returns_tldr() {
    let content = wiki_read(&corpus_entries(), PAGE, None, None).unwrap();
    assert!(content.contains("## TL;DR"), "page read lacks TL;DR: {PAGE}");
    assert!(content.contains("## Related"), "Related section stripped: {PAGE}");
}

#[test]
fn test_wiki_read_section_extracts_only_that_block() {
    let entries = corpus_entries();
    let block = wiki_read(&entries, PAGE, Some("Debug signals"), None).unwrap();
    assert!(block.starts_with("## Debug signals"), "block not headed correctly: {block:.40}");
    assert!(!block.contains("## TL;DR"), "TL;DR leaked into Debug-signals block");
    assert!(!block.contains("## Related"), "Related leaked into Debug-signals block");
    assert!(wiki_read(&entries, PAGE, Some("No Such Header"), None).is_err());
}

#[test]
fn test_wiki_read_truncation_marker() {
    let entries = corpus_entries();
    let tiny = wiki_read(&entries, PAGE, None, Some(100)).unwrap();
    assert!(tiny.contains("[TRUNCATED]"), "tiny read missing truncation marker");
    assert!(tiny.contains("next_offset="), "marker missing next_offset");
    let whole = wiki_read(&entries, PAGE, None, Some(usize::MAX)).unwrap();
    assert!(!whole.contains("[TRUNCATED]"), "whole read wrongly marked truncated");
}

#[test]
fn test_wiki_read_path_safety_rejects_escape() {
    let entries = corpus_entries();
    assert!(wiki_read(&entries, "../NOTES.md", None, None).is_err());
    assert!(wiki_read(&entries, "../../etc/hosts", None, None).is_err());
    assert!(wiki_read(&entries, "/etc/hosts", None, None).is_err());
    assert!(wiki_read(&entries, "concepts/does-not-exist.md", None, None).is_err());
}

#[test]
fn test_wiki_embedded_read_path_safety() {
    let entries = corpus_entries();
    let embedded = wiki_corpus("", &entries).unwrap();
    assert!(wiki_resolve_path(&embedded, "../Cargo.toml").is_err());
    assert!(wiki_resolve_path(&embedded, "/etc/hosts").is_err());
    assert!(wiki_resolve_path(&embedded, "concepts/does-not-exist.md").is_err());
}

#[test]
fn test_wiki_search_ranks_matching_page() {
    let pages = corpus();
    let res = wiki_search(&pages, "mapper", None, None, 5).unwrap();
    assert!(res.contains("mapper"), "search for 'mapper' returned nothing relevant");
    let parsed: serde_json::Value = serde_json::from_str(&res).unwrap();
    let arr = parsed.as_array().expect("search result is a JSON array");
    assert!(!arr.is_empty(), "no hits for 'mapper'");
    assert!(arr.len() <= 5, "limit not honored");
    let first = &arr[0];
    for k in ["path", "tldr", "section", "score"] {
        assert!(first.get(k).is_some(), "hit missing field {k}: {first}");
    }
    let scoped = wiki_search(&pages, "mapper", Some("pitfalls"), None, 5).unwrap();
    if let Ok(serde_json::Value::Array(a)) = serde_json::from_str::<serde_json::Value>(&scoped) {
        for hit in a {
            assert_eq!(hit["section"], "pitfalls", "section scope leaked");
        }
    }
}

#[test]
fn test_wiki_embedded_read_matches_fs_read() {
    let emb = read_in("", &corpus_entries(), PAGE, None, Some(usize::MAX)).unwrap();
    let fs = read_in("wiki", &walk_order(corpus_entries()), PAGE, None, Some(usize::MAX)).unwrap();
    assert_eq!(emb, fs, "embedded page content diverges: {PAGE}");
}
