//! The source-tree listing behind `list_files`: which directory to list,
//! and the indented tree of directories and source files (directories
//! first, then by name; skipped build directories; capped depth and size).

use vstd::prelude::*;
use vstd::relations::{sorted_by, total_ordering};
use crate::order::{text_le, text_le_chars};
use crate::archive::{join_path, path_join};
use crate::text::{lemma_first_sep, first_sep_from, split_by, split_by_chars, views, contains, starts_with, occurs_at, push_char, chars_eq, chars_of, contains_chars, push_chars, push_str, rfind, rfind_chars, slice_copy, starts_with_chars, string_of, u64_to_chars};

verus! {

broadcast use {vstd::string::group_string_axioms, vstd::seq_lib::group_to_multiset_ensures};

/// Deepest directory level listed.
pub const MAX_TREE_DEPTH: usize = 6;

/// Most files listed.
pub const MAX_TREE_FILES: usize = 500;

/// One directory entry: its name, whether it is a directory, a file's size
/// as shown, and a directory's entries (as far as they were read).
pub struct FsEntry {
    pub name: String,
    pub is_dir: bool,
    pub size_label: String,
    pub children: Vec<FsEntry>,
}

/// Build and tool directories that the listing never enters.
pub open spec fn is_skip_dir(name: Seq<char>) -> bool {
    name == ".git"@ || name == "node_modules"@ || name == "target"@ || name == "build"@ || name
        == "__pycache__"@ || name == ".cache"@ || name == ".vscode"@ || name == ".idea"@
}

/// Extensions of the files the listing shows.
pub open spec fn is_source_ext(e: Seq<char>) -> bool {
    e == "cc"@ || e == "cpp"@ || e == "c"@ || e == "h"@ || e == "hpp"@ || e == "cu"@ || e == "cuh"@
        || e == "py"@ || e == "rs"@ || e == "rg"@ || e == "mk"@ || e == "cmake"@ || e == "toml"@ || e
        == "json"@ || e == "yaml"@ || e == "yml"@ || e == "txt"@ || e == "md"@
}

/// A file name's extension (`Path::extension`): the text after its last
/// `.`, unless that `.` is the first character.
pub open spec fn file_ext(name: Seq<char>) -> Option<Seq<char>> {
    match rfind(name, "."@) {
        Some(i) => if i > 0 {
            Some(name.skip(i + 1))
        } else {
            None
        },
        None => None,
    }
}

/// A file the listing shows.
pub open spec fn is_source_file(name: Seq<char>) -> bool {
    match file_ext(name) {
        Some(e) => is_source_ext(e),
        None => false,
    }
}

/// Listing order of entries `a` and `b` of `es`: directories first, then
/// by name, then by position.
pub open spec fn entry_order(es: Seq<FsEntry>) -> spec_fn(usize, usize) -> bool {
    |a: usize, b: usize|
        (es[a as int].is_dir && !es[b as int].is_dir) || (es[a as int].is_dir == es[b as int].is_dir && ((
        text_le(es[a as int].name@, es[b as int].name@) && es[a as int].name@ != es[b as int].name@) || (
        es[a as int].name@ == es[b as int].name@ && a <= b)))
}

/// The positions of `es` in listing order.
pub open spec fn listing(es: Seq<FsEntry>) -> Seq<usize> {
    Seq::new(es.len(), |i: int| i as usize).sort_by(entry_order(es))
}

/// Two spaces per level.
pub open spec fn indent(depth: nat) -> Seq<char> {
    Seq::new(2 * depth, |i: int| ' ')
}

/// The listing of a directory's entries `es` at `depth`, given `count`
/// files listed so far: its text and the new file count.
pub open spec fn walk_dir(es: Seq<FsEntry>, depth: nat, count: nat) -> (Seq<char>, nat)
    decreases es, 1nat, 0int,
{
    if depth > MAX_TREE_DEPTH || count >= MAX_TREE_FILES {
        (seq![], count)
    } else {
        walk_from(es, listing(es), 0, depth, count)
    }
}

/// The listing of the entries `es[order[k..]]`.
pub open spec fn walk_from(es: Seq<FsEntry>, order: Seq<usize>, k: int, depth: nat, count: nat) -> (Seq<char>, nat)
    decreases es, 0nat, order.len() - k,
{
    if k < 0 || k >= order.len() {
        (seq![], count)
    } else if count >= MAX_TREE_FILES {
        (indent(depth) + "  ... (truncated at 500 entries)\n"@, count)
    } else if !(0 <= order[k] < es.len()) {
        walk_from(es, order, k + 1, depth, count)
    } else {
        let e = es[order[k] as int];
        if e.is_dir {
            if is_skip_dir(e.name@) {
                walk_from(es, order, k + 1, depth, count)
            } else {
                proof {
                    let i = order[k] as int;
                    assert(decreases_to!(es => es[i]));
                    assert(decreases_to!(es[i] => es[i].children));
                    assert(decreases_to!(es[i].children => es[i].children@));
                }
                let (t1, c1) = walk_dir(e.children@, depth + 1, count);
                let (t2, c2) = walk_from(es, order, k + 1, depth, c1);
                (indent(depth) + e.name@ + "/\n"@ + t1 + t2, c2)
            }
        } else if !is_source_file(e.name@) {
            walk_from(es, order, k + 1, depth, count)
        } else {
            let (t2, c2) = walk_from(es, order, k + 1, depth, count + 1);
            (indent(depth) + e.name@ + " ("@ + e.size_label@ + ")\n"@ + t2, c2)
        }
    }
}

/// The file count a listing ends with never passes the cap (starting at
/// or under it), and never goes down.
pub proof fn lemma_walk_dir_caps(es: Seq<FsEntry>, depth: nat, count: nat)
    requires
        count <= MAX_TREE_FILES,
    ensures
        count <= walk_dir(es, depth, count).1 <= MAX_TREE_FILES,
    decreases es, 1nat, 0int,
{
    if !(depth > MAX_TREE_DEPTH || count >= MAX_TREE_FILES) {
        lemma_walk_from_caps(es, listing(es), 0, depth, count);
    }
}

proof fn lemma_walk_from_caps(es: Seq<FsEntry>, order: Seq<usize>, k: int, depth: nat, count: nat)
    requires
        count <= MAX_TREE_FILES,
    ensures
        count <= walk_from(es, order, k, depth, count).1 <= MAX_TREE_FILES,
    decreases es, 0nat, order.len() - k,
{
    if k < 0 || k >= order.len() || count >= MAX_TREE_FILES {
    } else if !(0 <= order[k] < es.len()) {
        lemma_walk_from_caps(es, order, k + 1, depth, count);
    } else {
        let e = es[order[k] as int];
        if e.is_dir {
            if is_skip_dir(e.name@) {
                lemma_walk_from_caps(es, order, k + 1, depth, count);
            } else {
                let i = order[k] as int;
                assert(decreases_to!(es => es[i]));
                assert(decreases_to!(es[i] => es[i].children));
                assert(decreases_to!(es[i].children => es[i].children@));
                lemma_walk_dir_caps(e.children@, depth + 1, count);
                let c1 = walk_dir(e.children@, depth + 1, count).1;
                lemma_walk_from_caps(es, order, k + 1, depth, c1);
            }
        } else if !is_source_file(e.name@) {
            lemma_walk_from_caps(es, order, k + 1, depth, count);
        } else {
            lemma_walk_from_caps(es, order, k + 1, depth, count + 1);
        }
    }
}

/// The listing order is a total order.
pub proof fn lemma_entry_order_total(es: Seq<FsEntry>)
    ensures
        total_ordering(entry_order(es)),
{
    let le = entry_order(es);
    assert forall|a: usize| #[trigger] le(a, a) by {}
    assert forall|a: usize, b: usize| #[trigger] le(a, b) && #[trigger] le(b, a) implies a == b by {
        let na = es[a as int].name@;
        let nb = es[b as int].name@;
        if na != nb && text_le(na, nb) && text_le(nb, na) {
            crate::order::lemma_text_le_antisym(na, nb);
        }
    }
    assert forall|a: usize, b: usize, c: usize| #[trigger] le(a, b) && #[trigger] le(b, c) implies le(a, c) by {
        let na = es[a as int].name@;
        let nb = es[b as int].name@;
        let nc = es[c as int].name@;
        if text_le(na, nb) && text_le(nb, nc) {
            crate::order::lemma_text_le_trans(na, nb, nc);
            if na == nc && na != nb {
                crate::order::lemma_text_le_antisym(na, nb);
            }
        }
    }
    assert forall|a: usize, b: usize| #[trigger] le(a, b) || #[trigger] le(b, a) by {
        crate::order::lemma_text_le_total(es[a as int].name@, es[b as int].name@);
    }
}

fn entry_before(es: &Vec<FsEntry>, a: usize, b: usize) -> (r: bool)
    requires
        a < es@.len(),
        b < es@.len(),
    ensures
        r == entry_order(es@)(a, b),
{
    let da = es[a].is_dir;
    let db = es[b].is_dir;
    if da != db {
        return da;
    }
    let na = chars_of(es[a].name.as_str());
    let nb = chars_of(es[b].name.as_str());
    if chars_eq(na.as_slice(), nb.as_slice()) {
        a <= b
    } else {
        text_le_chars(na.as_slice(), nb.as_slice())
    }
}

/// The positions of `es` in listing order: directories first, then by
/// name (equal names keep their order).
pub fn listing_order(es: &Vec<FsEntry>) -> (r: Vec<usize>)
    ensures
        r@ == listing(es@),
        forall|k: int| 0 <= k < r@.len() ==> #[trigger] r@[k] < es@.len(),
{
    proof {
        lemma_entry_order_total(es@);
    }
    let ghost le = entry_order(es@);
    let ghost orig = Seq::new(es@.len(), |i: int| i as usize);
    let mut r: Vec<usize> = Vec::new();
    let mut i: usize = 0;
    while i < es.len()
        invariant
            i <= es@.len(),
            le == entry_order(es@),
            orig == Seq::new(es@.len(), |i: int| i as usize),
            total_ordering(le),
            sorted_by(r@, le),
            r@.to_multiset() == orig.take(i as int).to_multiset(),
            forall|k: int| 0 <= k < r@.len() ==> #[trigger] r@[k] < i,
        decreases es@.len() - i,
    {
        let mut p: usize = 0;
        while p < r.len() && entry_before(es, r[p], i)
            invariant
                p <= r@.len(),
                i < es@.len(),
                forall|k: int| 0 <= k < r@.len() ==> #[trigger] r@[k] < i,
                forall|j: int| 0 <= j < p ==> #[trigger] le(r@[j], i),
                le == entry_order(es@),
            decreases r@.len() - p,
        {
            p = p + 1;
        }
        let ghost old_r = r@;
        proof {
            if p < old_r.len() {
                assert(!le(old_r[p as int], i));
                assert(le(i, old_r[p as int]) || le(old_r[p as int], i));
            }
        }
        r.insert(p, i);
        proof {
            let nr = r@;
            assert(nr =~= old_r.insert(p as int, i));
            assert forall|a: int, b: int| 0 <= a < b < nr.len() implies #[trigger] le(nr[a], nr[b]) by {
                if b < p {
                    assert(le(old_r[a], old_r[b]));
                } else if a < p && b == p {
                } else if a < p && b > p {
                    assert(le(old_r[a], i));
                    assert(le(i, old_r[p as int]));
                    if b - 1 > p {
                        assert(le(old_r[p as int], old_r[b - 1]));
                    }
                    assert(le(i, old_r[b - 1]));
                } else if a == p {
                    assert(le(i, old_r[p as int]));
                    if b - 1 > p {
                        assert(le(old_r[p as int], old_r[b - 1]));
                    }
                } else {
                    assert(le(old_r[a - 1], old_r[b - 1]));
                }
            }
            assert forall|k: int| 0 <= k < nr.len() implies #[trigger] nr[k] < i + 1 by {
                if k < p {
                    assert(nr[k] == old_r[k]);
                } else if k > p {
                    assert(nr[k] == old_r[k - 1]);
                }
            }
            vstd::seq_lib::to_multiset_insert(old_r, p as int, i);
            assert(orig.take(i + 1) =~= orig.take(i as int).push(i));
            vstd::seq_lib::to_multiset_build(orig.take(i as int), i);
        }
        i = i + 1;
    }
    proof {
        assert(orig.take(es@.len() as int) =~= orig);
        orig.lemma_sort_by_ensures(le);
        vstd::seq_lib::lemma_sorted_unique(r@, orig.sort_by(le), le);
    }
    r
}

/// Whether `n` holds exactly the characters of `lit`.
fn is_text(n: &[char], lit: &str) -> (r: bool)
    ensures
        r == (n@ == lit@),
{
    let l = chars_of(lit);
    chars_eq(n, l.as_slice())
}

fn skip_dir_name(n: &[char]) -> (r: bool)
    ensures
        r == is_skip_dir(n@),
{
    is_text(n, ".git") || is_text(n, "node_modules") || is_text(n, "target") || is_text(n, "build")
        || is_text(n, "__pycache__") || is_text(n, ".cache") || is_text(n, ".vscode") || is_text(
        n,
        ".idea",
    )
}

/// Whether a directory of this name is left out of every walk (version
/// control, build output, caches, editor settings).
pub fn is_skipped_dir(name: &str) -> (r: bool)
    ensures
        r == is_skip_dir(name@),
{
    skip_dir_name(chars_of(name).as_slice())
}

fn source_ext(e: &[char]) -> (r: bool)
    ensures
        r == is_source_ext(e@),
{
    is_text(e, "cc") || is_text(e, "cpp") || is_text(e, "c") || is_text(e, "h") || is_text(e, "hpp")
        || is_text(e, "cu") || is_text(e, "cuh") || is_text(e, "py") || is_text(e, "rs") || is_text(
        e,
        "rg",
    ) || is_text(e, "mk") || is_text(e, "cmake") || is_text(e, "toml") || is_text(e, "json")
        || is_text(e, "yaml") || is_text(e, "yml") || is_text(e, "txt") || is_text(e, "md")
}

fn source_file_name(n: &[char]) -> (r: bool)
    ensures
        r == is_source_file(n@),
{
    let dot = chars_of(".");
    let len = n.len();
    match rfind_chars(n, dot.as_slice()) {
        Some(i) => {
            proof {
                reveal_strlit(".");
                crate::text::lemma_last_occurrence(n@, dot@, n@.len() - dot@.len());
                assert(occurs_at(n@, dot@, i as int));
            }
            if i > 0 {
                let e = slice_copy(n, i + 1, len);
                proof {
                    assert(e@ =~= n@.skip(i + 1));
                }
                source_ext(e.as_slice())
            } else {
                false
            }
        },
        None => false,
    }
}

fn push_indent(out: &mut String, depth: usize)
    ensures
        final(out)@ == old(out)@ + indent(depth as nat),
{
    let ghost start = out@;
    let mut i: usize = 0;
    while i < depth
        invariant
            i <= depth,
            out@ == start + indent(i as nat),
        decreases depth - i,
    {
        push_char(out, ' ');
        push_char(out, ' ');
        assert(start + indent((i + 1) as nat) =~= (start + indent(i as nat)).push(' ').push(' '));
        i = i + 1;
    }
}

/// Appends the listing of a directory's entries `es`, `depth` levels below
/// the root, to `output`, and counts the files it lists in `count`:
/// directories (but the skipped ones) first, then source files with their
/// sizes, each group by name, until `MAX_TREE_FILES` files are listed.
pub fn walk_dir_tree(es: &Vec<FsEntry>, depth: usize, output: &mut String, count: &mut usize)
    ensures
        final(output)@ == old(output)@ + walk_dir(es@, depth as nat, *old(count) as nat).0,
        *final(count) == walk_dir(es@, depth as nat, *old(count) as nat).1,
    decreases es,
{
    if depth > MAX_TREE_DEPTH || *count >= MAX_TREE_FILES {
        assert(output@ + Seq::<char>::empty() =~= output@);
        return;
    }
    let order = listing_order(es);
    let ghost out0 = output@;
    let ghost target = walk_from(es@, order@, 0, depth as nat, *count as nat);
    assert(target == walk_dir(es@, depth as nat, *count as nat));
    let mut k: usize = 0;
    while k < order.len()
        invariant
            k <= order@.len(),
            depth <= MAX_TREE_DEPTH,
            forall|j: int| 0 <= j < order@.len() ==> #[trigger] order@[j] < es@.len(),
            output@ + walk_from(es@, order@, k as int, depth as nat, *count as nat).0 == out0
                + target.0,
            walk_from(es@, order@, k as int, depth as nat, *count as nat).1 == target.1,
            out0 == old(output)@,
            target == walk_dir(es@, depth as nat, *old(count) as nat),
        decreases order@.len() - k,
    {
        let ghost out1 = output@;
        let ghost cur = walk_from(es@, order@, k as int, depth as nat, *count as nat);
        if *count >= MAX_TREE_FILES {
            push_indent(output, depth);
            push_str(output, "  ... (truncated at 500 entries)\n");
            assert(output@ =~= out1 + cur.0);
            assert(output@ + Seq::<char>::empty() =~= output@);
            return;
        }
        let idx = order[k];
        let e = &es[idx];
        let name = chars_of(e.name.as_str());
        if e.is_dir {
            if !skip_dir_name(name.as_slice()) {
                push_indent(output, depth);
                push_str(output, e.name.as_str());
                push_str(output, "/\n");
                let ghost out2 = output@;
                let ghost c_before = *count as nat;
                proof {
                    assert(decreases_to!(es => es@));
                    assert(decreases_to!(es@ => es@[idx as int]));
                    assert(decreases_to!(es@[idx as int] => es@[idx as int].children));
                }
                walk_dir_tree(&e.children, depth + 1, output, count);
                proof {
                    let sub = walk_dir(e.children@, (depth + 1) as nat, c_before);
                    let rest = walk_from(es@, order@, k + 1, depth as nat, sub.1);
                    assert(cur.0 =~= indent(depth as nat) + e.name@ + "/\n"@ + sub.0 + rest.0);
                    assert(output@ + rest.0 =~= out1 + cur.0);
                }
            }
        } else if source_file_name(name.as_slice()) {
            push_indent(output, depth);
            push_str(output, e.name.as_str());
            push_str(output, " (");
            push_str(output, e.size_label.as_str());
            push_str(output, ")\n");
            *count = *count + 1;
            proof {
                let rest = walk_from(es@, order@, k + 1, depth as nat, *count as nat);
                assert(cur.0 =~= indent(depth as nat) + e.name@ + " ("@ + e.size_label@ + ")\n"@ + rest.0);
                assert(output@ + rest.0 =~= out1 + cur.0);
            }
        }
        k = k + 1;
    }
    assert(output@ + Seq::<char>::empty() =~= output@);
}

/// The message given while no code directory is set.
pub open spec fn not_configured() -> Seq<char> {
    "Code path not configured. Connect a code repo via the + menu, or launch with --code <dir>."@
}

/// The message for a path that could leave the code directory.
pub open spec fn invalid_path() -> Seq<char> {
    "Invalid path: must be relative with no '..' or absolute prefix."@
}

/// A path that names something inside the code directory: no `..`
/// anywhere, and no leading `/` or `\\`.
pub open spec fn is_relative_inside(path: Seq<char>) -> bool {
    !contains(path, ".."@) && !starts_with(path, "/"@) && !starts_with(path, "\\"@)
}

/// A directory as read, if it is one.
pub open spec fn tree_view(t: Option<Vec<FsEntry>>) -> Option<Seq<FsEntry>> {
    match t {
        Some(v) => Some(v@),
        None => None,
    }
}

/// The listing of the directory `root`, given its entries (`None` when
/// `root` is not a directory).
pub open spec fn file_tree(root: Seq<char>, tree: Option<Seq<FsEntry>>) -> Result<Seq<char>, Seq<char>> {
    if root.len() == 0 {
        Err(not_configured())
    } else {
        match tree {
            None => Err("'"@ + root + "' is not a directory."@),
            Some(es) => {
                let (t, c) = walk_dir(es, 0, 0);
                Ok("Files in `"@ + root + "`:\n"@ + t + if c == 0 {
                    "  (no source files found)\n"@
                } else {
                    Seq::empty()
                })
            },
        }
    }
}

/// The directory that `list_files` lists for `path` under `code_root`.
pub open spec fn list_target(code_root: Seq<char>, path: Seq<char>) -> Result<Seq<char>, Seq<char>> {
    if code_root.len() == 0 {
        Err(not_configured())
    } else if path.len() == 0 || path == "."@ {
        Ok(code_root)
    } else if !is_relative_inside(path) {
        Err(invalid_path())
    } else {
        Ok(path_join(code_root, path))
    }
}

/// The listing of the directory `code_root`, given its entries as read
/// (`None` when it is not a directory): a header, the tree of directories
/// and source files, and a note when no source file was found.
pub fn recursive_file_tree(code_root: &str, tree: &Option<Vec<FsEntry>>) -> (r: Result<String, String>)
    ensures
        match file_tree(code_root@, tree_view(*tree)) {
            Ok(t) => r matches Ok(s) && s@ == t,
            Err(e) => r matches Err(s) && s@ == e,
        },
{
    proof {
        reveal_strlit("");
    }
    if code_root.is_empty() {
        let mut e = String::new();
        push_str(&mut e, "Code path not configured. Connect a code repo via the + menu, or launch with --code <dir>.");
        assert(e@ =~= not_configured());
        return Err(e);
    }
    match tree {
        None => {
            let mut e = String::new();
            push_str(&mut e, "'");
            push_str(&mut e, code_root);
            push_str(&mut e, "' is not a directory.");
            assert(e@ =~= "'"@ + code_root@ + "' is not a directory."@);
            Err(e)
        },
        Some(es) => {
            let mut out = String::new();
            push_str(&mut out, "Files in `");
            push_str(&mut out, code_root);
            push_str(&mut out, "`:\n");
            let ghost head = out@;
            let mut count: usize = 0;
            walk_dir_tree(es, 0, &mut out, &mut count);
            if count == 0 {
                push_str(&mut out, "  (no source files found)\n");
            }
            proof {
                let (t, c) = walk_dir(es@, 0, 0);
                assert(head =~= "Files in `"@ + code_root@ + "`:\n"@);
                if c != 0 {
                    assert(out@ =~= head + t + Seq::<char>::empty());
                } else {
                    assert(out@ =~= head + t + "  (no source files found)\n"@);
                }
            }
            Ok(out)
        },
    }
}

/// The directory that `list_files` lists: the code directory itself for
/// an empty `path` or `.`, else `path` joined to it; an error while no code
/// directory is set, or for a path with `..` or an absolute prefix.
pub fn list_files_target(code_root: &str, path: &str) -> (r: Result<String, String>)
    ensures
        match list_target(code_root@, path@) {
            Ok(t) => r matches Ok(s) && s@ == t,
            Err(e) => r matches Err(s) && s@ == e,
        },
{
    proof {
        reveal_strlit("");
        reveal_strlit(".");
    }
    if code_root.is_empty() {
        let mut e = String::new();
        push_str(&mut e, "Code path not configured. Connect a code repo via the + menu, or launch with --code <dir>.");
        assert(e@ =~= not_configured());
        return Err(e);
    }
    let p = chars_of(path);
    let dot = chars_of(".");
    if p.len() == 0 || chars_eq(p.as_slice(), dot.as_slice()) {
        let mut t = String::new();
        push_str(&mut t, code_root);
        assert(t@ =~= code_root@);
        return Ok(t);
    }
    read_code_target(code_root, path)
}

/// Executes `list_files`: the listing of `path` under the code directory,
/// given that directory's entries as read (`tree`, `None` when it is not a
/// directory); see `list_files_target` for the directory that is meant.
pub fn execute_list_files(code_root: &str, path: &str, tree: &Option<Vec<FsEntry>>) -> (r: Result<String, String>)
    ensures
        match list_target(code_root@, path@) {
            Err(e) => r matches Err(s) && s@ == e,
            Ok(t) => match file_tree(t, tree_view(*tree)) {
                Ok(l) => r matches Ok(s) && s@ == l,
                Err(e) => r matches Err(s) && s@ == e,
            },
        },
{
    match list_files_target(code_root, path) {
        Err(e) => Err(e),
        Ok(t) => recursive_file_tree(t.as_str(), tree),
    }
}

/// The file that `read_code` reads for `path` under `code_root`.
pub open spec fn read_target(code_root: Seq<char>, path: Seq<char>) -> Result<Seq<char>, Seq<char>> {
    if code_root.len() == 0 {
        Err(not_configured())
    } else if !is_relative_inside(path) {
        Err(invalid_path())
    } else {
        Ok(path_join(code_root, path))
    }
}

/// The file that `read_code` reads: `path` joined to the code directory;
/// an error while no code directory is set, or for a path with `..` or an
/// absolute prefix.
pub fn read_code_target(code_root: &str, path: &str) -> (r: Result<String, String>)
    ensures
        match read_target(code_root@, path@) {
            Ok(t) => r matches Ok(s) && s@ == t,
            Err(e) => r matches Err(s) && s@ == e,
        },
{
    if code_root.is_empty() {
        let mut e = String::new();
        push_str(&mut e, "Code path not configured. Connect a code repo via the + menu, or launch with --code <dir>.");
        proof {
            reveal_strlit("");
        }
        assert(e@ =~= not_configured());
        return Err(e);
    }
    let p = chars_of(path);
    let dots = chars_of("..");
    let slash = chars_of("/");
    let back = chars_of("\\");
    if contains_chars(p.as_slice(), dots.as_slice()) || starts_with_chars(p.as_slice(), slash.as_slice())
        || starts_with_chars(p.as_slice(), back.as_slice()) {
        let mut e = String::new();
        push_str(&mut e, "Invalid path: must be relative with no '..' or absolute prefix.");
        proof {
            reveal_strlit("");
        }
        assert(e@ =~= invalid_path());
        return Err(e);
    }
    Ok(join_path(code_root, path))
}

/// A part of a path that names something (not empty, not `.`).
pub open spec fn is_named_part(c: Seq<char>) -> bool {
    c.len() > 0 && c != seq!['.']
}

/// The named parts of `parts`, in order.
pub open spec fn named_parts(parts: Seq<Seq<char>>) -> Seq<Seq<char>>
    decreases parts.len(),
{
    if parts.len() == 0 {
        seq![]
    } else if is_named_part(parts.last()) {
        named_parts(parts.drop_last()).push(parts.last())
    } else {
        named_parts(parts.drop_last())
    }
}

/// The components of a `/`-separated path (`Path::components`): `/` for a
/// leading root, `.` for a leading current directory, then the named
/// parts; repeated separators and inner `.` parts are dropped.
pub open spec fn path_components(p: Seq<char>) -> Seq<Seq<char>> {
    let parts = split_by(p, seq!['/']);
    if p.len() > 0 && p[0] == '/' {
        seq![seq!['/']] + named_parts(parts)
    } else if parts.len() > 0 && parts[0] == seq!['.'] {
        seq![seq!['.']] + named_parts(parts)
    } else {
        named_parts(parts)
    }
}

/// `Path::starts_with`: the components of `base` begin those of `p`.
pub open spec fn path_has_prefix(p: Seq<char>, base: Seq<char>) -> bool {
    let a = path_components(p);
    let b = path_components(base);
    b.len() <= a.len() && a.take(b.len() as int) == b
}

fn path_components_of(p: &[char]) -> (r: Vec<Vec<char>>)
    ensures
        views(r@) == path_components(p@),
{
    let sep: [char; 1] = ['/'];
    assert(sep@ =~= seq!['/']);
    let parts = split_by_chars(p, sep.as_slice());
    let ghost pv = views(parts@);
    let rooted = p.len() > 0 && p[0] == '/';
    let cur = !rooted && parts.len() > 0 && parts[0].len() == 1 && parts[0][0] == '.';
    proof {
        if pv.len() > 0 {
            assert(pv[0] == parts@[0]@);
            if parts@[0]@.len() == 1 && parts@[0]@[0] == '.' {
                assert(pv[0] =~= seq!['.']);
            }
        }
        assert(cur == (!(p@.len() > 0 && p@[0] == '/') && pv.len() > 0 && pv[0] == seq!['.']));
    }
    let mut r: Vec<Vec<char>> = Vec::new();
    if rooted {
        let mut root: Vec<char> = Vec::new();
        root.push('/');
        r.push(root);
        assert(views(r@) =~= seq![seq!['/']]);
    } else if cur {
        let mut dot: Vec<char> = Vec::new();
        dot.push('.');
        r.push(dot);
        assert(views(r@) =~= seq![seq!['.']]);
    } else {
        assert(views(r@) =~= Seq::<Seq<char>>::empty());
    }
    proof {
        assert(pv.take(0) =~= Seq::<Seq<char>>::empty());
    }
    let ghost head = views(r@);
    let mut i: usize = 0;
    while i < parts.len()
        invariant
            i <= parts@.len(),
            pv == views(parts@),
            views(r@) == head + named_parts(pv.take(i as int)),
        decreases parts@.len() - i,
    {
        let ghost before = views(r@);
        assert(pv.take(i + 1).drop_last() =~= pv.take(i as int));
        let part = &parts[i];
        if part.len() > 0 && !(part.len() == 1 && part[0] == '.') {
            let c = slice_copy(part.as_slice(), 0, part.len());
            assert(c@ =~= pv[i as int]);
            r.push(c);
            assert(views(r@) =~= before.push(c@));
        } else {
            assert(!is_named_part(pv[i as int])) by {
                if part@.len() == 1 {
                    assert(pv[i as int] =~= seq!['.']);
                }
            }
        }
        i = i + 1;
    }
    assert(pv.take(pv.len() as int) =~= pv);
    r
}

/// `Path::starts_with`: whether the components of `base` begin those of
/// `path` (whole components only: `/a/bc` does not start with `/a/b`).
pub fn path_starts_with(path: &str, base: &str) -> (r: bool)
    ensures
        r == path_has_prefix(path@, base@),
{
    let pc = chars_of(path);
    let bc = chars_of(base);
    let a = path_components_of(pc.as_slice());
    let b = path_components_of(bc.as_slice());
    if b.len() > a.len() {
        return false;
    }
    let ghost av = views(a@);
    let ghost bv = views(b@);
    let mut i: usize = 0;
    while i < b.len()
        invariant
            b@.len() <= a@.len(),
            i <= b@.len(),
            av == views(a@),
            bv == views(b@),
            av == path_components(path@),
            bv == path_components(base@),
            forall|j: int| 0 <= j < i ==> av[j] == bv[j],
        decreases b@.len() - i,
    {
        if !chars_eq(a[i].as_slice(), b[i].as_slice()) {
            assert(av.take(bv.len() as int)[i as int] != bv[i as int]);
            return false;
        }
        i = i + 1;
    }
    assert(av.take(bv.len() as int) =~= bv);
    true
}

/// The error for a file whose resolved path leaves the code directory.
pub open spec fn escape_message(path: Seq<char>) -> Seq<char> {
    "Invalid path: '"@ + path + "' resolves outside the configured code root."@
}

/// The check that `read_code` makes once links are resolved: given the
/// canonical paths of the file and of the code directory (when both
/// resolve), the file must lie under the directory.
pub fn confine_resolved(path: &str, resolved: &Option<(String, String)>) -> (r: Result<(), String>)
    ensures
        match resolved {
            None => r is Ok,
            Some(pair) => if path_has_prefix(pair.0@, pair.1@) {
                r is Ok
            } else {
                r matches Err(e) && e@ == escape_message(path@)
            },
        },
{
    match resolved {
        None => Ok(()),
        Some(pair) => {
            if path_starts_with(pair.0.as_str(), pair.1.as_str()) {
                Ok(())
            } else {
                let mut e = String::new();
                push_str(&mut e, "Invalid path: '");
                push_str(&mut e, path);
                push_str(&mut e, "' resolves outside the configured code root.");
                proof {
                    reveal_strlit("");
                }
                assert(e@ =~= escape_message(path@));
                Err(e)
            }
        },
    }
}

/// The message for a file that could not be read.
pub open spec fn read_failure(full: Seq<char>, err: Seq<char>, not_found: bool, tree: Result<Seq<char>, Seq<char>>) -> Seq<char> {
    "Cannot read '"@ + full + "': "@ + err + match tree {
        Ok(t) => if not_found {
            "\n\nAvailable files:\n"@ + t
        } else {
            Seq::empty()
        },
        Err(_) => Seq::empty(),
    }
}

/// The error `read_code` gives when the file `full` could not be read
/// (`err` the reason): for a missing file, followed by the listing of the
/// code directory (`tree`) where there is one.
pub fn read_code_failure(full: &str, err: &str, not_found: bool, tree: &Result<String, String>) -> (r: String)
    ensures
        r@ == read_failure(full@, err@, not_found, match tree {
            Ok(t) => Ok(t@),
            Err(e) => Err(e@),
        }),
{
    let mut m = String::new();
    push_str(&mut m, "Cannot read '");
    push_str(&mut m, full);
    push_str(&mut m, "': ");
    push_str(&mut m, err);
    let ghost head = m@;
    proof {
        reveal_strlit("");
    }
    match tree {
        Ok(t) => {
            if not_found {
                push_str(&mut m, "\n\nAvailable files:\n");
                push_str(&mut m, t.as_str());
                assert(m@ =~= head + ("\n\nAvailable files:\n"@ + t@));
            } else {
                assert(m@ =~= head + Seq::<char>::empty());
            }
        },
        Err(_) => {
            assert(m@ =~= head + Seq::<char>::empty());
        },
    }
    m
}

proof fn lemma_split_nonempty(s: Seq<char>, seps: Seq<char>)
    ensures
        split_by(s, seps).len() >= 1,
{
}

proof fn lemma_split_join(x: Seq<char>, y: Seq<char>)
    ensures
        split_by(x + seq!['/'] + y, seq!['/']) == split_by(x, seq!['/']) + split_by(y, seq!['/']),
    decreases x.len(),
{
    let seps = seq!['/'];
    let s = x + seps + y;
    lemma_first_sep(s, seps, 0);
    lemma_first_sep(x, seps, 0);
    assert(s[x.len() as int] == '/');
    assert(seps.contains(s[x.len() as int])) by {
        assert(seps[0] == '/');
    }
    match first_sep_from(x, seps, 0) {
        Some(i) => {
            assert(s[i] == x[i]);
            assert(first_sep_from(s, seps, 0) == Some(i)) by {
                if let Some(j) = first_sep_from(s, seps, 0) {
                    if j < i {
                        assert(s[j] == x[j]);
                    }
                }
            }
            assert(s.take(i) =~= x.take(i));
            assert(s.skip(i + 1) =~= x.skip(i + 1) + seps + y);
            lemma_split_join(x.skip(i + 1), y);
            assert(split_by(s, seps) =~= split_by(x, seps) + split_by(y, seps));
        },
        None => {
            assert(first_sep_from(s, seps, 0) == Some(x.len() as int)) by {
                if let Some(j) = first_sep_from(s, seps, 0) {
                    if j < x.len() {
                        assert(s[j] == x[j]);
                    }
                }
            }
            assert(s.take(x.len() as int) =~= x);
            assert(s.skip(x.len() as int + 1) =~= y);
            assert(split_by(s, seps) =~= split_by(x, seps) + split_by(y, seps));
        },
    }
}

proof fn lemma_named_parts_append(a: Seq<Seq<char>>, b: Seq<Seq<char>>)
    ensures
        named_parts(a + b) == named_parts(a) + named_parts(b),
    decreases b.len(),
{
    if b.len() == 0 {
        assert(a + b =~= a);
        assert(named_parts(a) + named_parts(b) =~= named_parts(a));
    } else {
        assert((a + b).drop_last() =~= a + b.drop_last());
        assert((a + b).last() == b.last());
        lemma_named_parts_append(a, b.drop_last());
        if is_named_part(b.last()) {
            assert(named_parts(a + b) =~= named_parts(a) + named_parts(b));
        } else {
            assert(named_parts(a + b) =~= named_parts(a) + named_parts(b));
        }
    }
}

proof fn lemma_split_parts_occur(s: Seq<char>, seps: Seq<char>)
    ensures
        forall|k: int| 0 <= k < split_by(s, seps).len() ==> contains(s, #[trigger] split_by(s, seps)[k]),
    decreases s.len(),
{
    lemma_first_sep(s, seps, 0);
    let sp = split_by(s, seps);
    match first_sep_from(s, seps, 0) {
        Some(i) => {
            let rest = s.skip(i + 1);
            lemma_split_parts_occur(rest, seps);
            assert forall|k: int| 0 <= k < sp.len() implies contains(s, #[trigger] sp[k]) by {
                if k == 0 {
                    assert(s.subrange(0, i) =~= s.take(i));
                    assert(occurs_at(s, sp[k], 0));
                } else {
                    let part = split_by(rest, seps)[k - 1];
                    assert(sp[k] == part);
                    assert(contains(rest, part));
                    let j = choose|j: int| occurs_at(rest, part, j);
                    assert(s.subrange(j + i + 1, j + i + 1 + part.len()) =~= rest.subrange(j, j + part.len()));
                    assert(occurs_at(s, part, j + i + 1));
                }
            }
        },
        None => {
            assert(s.subrange(0, s.len() as int) =~= s);
            assert(occurs_at(s, sp[0], 0));
        },
    }
}

proof fn lemma_named_parts_clean(ps: Seq<Seq<char>>)
    requires
        forall|k: int| 0 <= k < ps.len() ==> #[trigger] ps[k] != ".."@,
    ensures
        forall|k: int| 0 <= k < named_parts(ps).len() ==> #[trigger] named_parts(ps)[k] != ".."@
            && is_named_part(named_parts(ps)[k]),
    decreases ps.len(),
{
    if ps.len() > 0 {
        let init = ps.drop_last();
        assert forall|k: int| 0 <= k < init.len() implies #[trigger] init[k] != ".."@ by {
            assert(init[k] == ps[k]);
        }
        lemma_named_parts_clean(init);
        assert(ps.last() == ps[ps.len() - 1]);
        let np = named_parts(ps);
        let ni = named_parts(init);
        assert forall|k: int| 0 <= k < np.len() implies #[trigger] np[k] != ".."@ && is_named_part(np[k]) by {
            if is_named_part(ps.last()) {
                assert(np == ni.push(ps.last()));
                if k < ni.len() {
                    assert(np[k] == ni[k]);
                }
            } else {
                assert(np == ni);
            }
        }
    }
}

/// The components of `code_root` joined with a relative `path` that has
/// no `..`: those of `code_root`, then named parts of `path`.
proof fn lemma_join_components(code_root: Seq<char>, path: Seq<char>)
    requires
        code_root.len() > 0,
        is_relative_inside(path),
    ensures
        path_components(path_join(code_root, path)) == path_components(code_root) + named_parts(
            split_by(path, seq!['/']),
        ),
        forall|k: int|
            0 <= k < named_parts(split_by(path, seq!['/'])).len() ==> #[trigger] named_parts(
                split_by(path, seq!['/']),
            )[k] != ".."@ && is_named_part(named_parts(split_by(path, seq!['/']))[k]),
{
    let seps = seq!['/'];
    let t = path_join(code_root, path);
    let sp = split_by(path, seps);
    lemma_split_parts_occur(path, seps);
    assert forall|k: int| 0 <= k < sp.len() implies #[trigger] sp[k] != ".."@ by {
        if sp[k] == ".."@ {
            assert(contains(path, sp[k]));
        }
    }
    lemma_named_parts_clean(sp);
    let base = if code_root.last() == '/' {
        code_root.drop_last()
    } else {
        code_root
    };
    assert(t =~= base + seps + path);
    lemma_split_join(base, path);
    lemma_split_nonempty(base, seps);
    if code_root.last() == '/' {
        assert(code_root =~= base + seps + Seq::<char>::empty());
        lemma_split_join(base, Seq::<char>::empty());
        assert(split_by(Seq::<char>::empty(), seps) =~= seq![Seq::<char>::empty()]);
        lemma_named_parts_append(split_by(base, seps), seq![Seq::<char>::empty()]);
        let one = seq![Seq::<char>::empty()];
        assert(one.last() == Seq::<char>::empty());
        assert(!is_named_part(one.last()));
        assert(one.drop_last() =~= Seq::<Seq<char>>::empty());
        assert(named_parts(one.drop_last()) =~= Seq::<Seq<char>>::empty());
        assert(named_parts(one) =~= Seq::<Seq<char>>::empty());
        assert(named_parts(split_by(code_root, seps)) =~= named_parts(split_by(base, seps)));
    }
    lemma_named_parts_append(split_by(base, seps), sp);
    assert(t[0] == code_root[0]);
    assert(split_by(t, seps)[0] == split_by(code_root, seps)[0]);
    assert(path_components(t) =~= path_components(code_root) + named_parts(sp));
}

/// A file that `read_code` opens lies lexically under the code directory:
/// its path components are those of the directory followed only by named
/// parts, none of them `..`.
pub proof fn lemma_read_target_inside(code_root: Seq<char>, path: Seq<char>)
    requires
        read_target(code_root, path) is Ok,
    ensures
        path_has_prefix(read_target(code_root, path)->Ok_0, code_root),
        forall|k: int|
            #![trigger path_components(read_target(code_root, path)->Ok_0)[k]]
            path_components(code_root).len() <= k < path_components(
                read_target(code_root, path)->Ok_0,
            ).len() ==> path_components(read_target(code_root, path)->Ok_0)[k] != ".."@
                && is_named_part(path_components(read_target(code_root, path)->Ok_0)[k]),
{
    lemma_join_components(code_root, path);
    let t = read_target(code_root, path)->Ok_0;
    let n = path_components(code_root).len() as int;
    assert(path_components(t).take(n) =~= path_components(code_root));
    assert forall|k: int| n <= k < path_components(t).len() implies path_components(t)[k] != ".."@
        && is_named_part(#[trigger] path_components(t)[k]) by {
        assert(path_components(t)[k] == named_parts(split_by(path, seq!['/']))[k - n]);
    }
}

/// A directory that `list_files` lists lies lexically under the code
/// directory, in the same sense.
pub proof fn lemma_list_target_inside(code_root: Seq<char>, path: Seq<char>)
    requires
        list_target(code_root, path) is Ok,
    ensures
        path_has_prefix(list_target(code_root, path)->Ok_0, code_root),
        forall|k: int|
            #![trigger path_components(list_target(code_root, path)->Ok_0)[k]]
            path_components(code_root).len() <= k < path_components(
                list_target(code_root, path)->Ok_0,
            ).len() ==> path_components(list_target(code_root, path)->Ok_0)[k] != ".."@
                && is_named_part(path_components(list_target(code_root, path)->Ok_0)[k]),
{
    if path.len() == 0 || path == "."@ {
        let c = path_components(code_root);
        assert(c.take(c.len() as int) =~= c);
    } else {
        lemma_read_target_inside(code_root, path);
    }
}

} // verus!
