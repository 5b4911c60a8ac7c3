//! The per-row table of highlight overlays of a timeline window: rows are
//! keyed by entry, and a row never holds two overlays over the same range
//! with the same label.

use vstd::prelude::*;
use crate::entry::{EntryID, EntryIndex};
use crate::highlight::AiHighlight;
use crate::text::{chars_of, chars_eq};

verus! {

/// A row of the table: an entry and its overlays.
pub type RowView = (Seq<EntryIndex>, Seq<AiHighlight>);

/// The rows of a highlight table.
pub open spec fn table_view(t: Seq<(EntryID, Vec<AiHighlight>)>) -> Seq<RowView> {
    t.map_values(|r: (EntryID, Vec<AiHighlight>)| (r.0@, r.1@))
}

/// Two overlays cover the same range with the same label.
pub open spec fn same_place(a: AiHighlight, b: AiHighlight) -> bool {
    &&& a.interval.start.0 == b.interval.start.0
    &&& a.interval.stop.0 == b.interval.stop.0
    &&& a.label@ == b.label@
}

/// Some overlay of `list` covers the range of `h` with its label.
pub open spec fn has_same(list: Seq<AiHighlight>, h: AiHighlight) -> bool {
    exists|i: int| 0 <= i < list.len() && same_place(#[trigger] list[i], h)
}

/// Index of the first row at or after `i` keyed by `e`, or -1.
pub open spec fn first_row_from(t: Seq<RowView>, e: Seq<EntryIndex>, i: int) -> int
    decreases t.len() - i,
{
    if i < 0 || i >= t.len() {
        -1
    } else if t[i].0 == e {
        i
    } else {
        first_row_from(t, e, i + 1)
    }
}

/// Index of the first row keyed by `e`, or -1.
pub open spec fn first_row(t: Seq<RowView>, e: Seq<EntryIndex>) -> int {
    first_row_from(t, e, 0)
}

/// The table after adding overlay `h` to the row of `e`: a new row at the
/// end where `e` has none; the row unchanged where it already holds an
/// overlay over the same range with the same label; else `h` appended to it.
pub open spec fn pushed(t: Seq<RowView>, e: Seq<EntryIndex>, h: AiHighlight) -> Seq<RowView> {
    let k = first_row(t, e);
    if k < 0 {
        t.push((e, seq![h]))
    } else if has_same(t[k].1, h) {
        t
    } else {
        t.update(k, (e, t[k].1.push(h)))
    }
}

proof fn lemma_first_row_from_bounds(t: Seq<RowView>, e: Seq<EntryIndex>, i: int)
    requires
        0 <= i,
    ensures
        ({
            let k = first_row_from(t, e, i);
            (k == -1 && forall|j: int| i <= j < t.len() ==> #[trigger] t[j].0 != e)
            || (i <= k < t.len() && t[k].0 == e
                && forall|j: int| i <= j < k ==> #[trigger] t[j].0 != e)
        }),
    decreases t.len() - i,
{
    if i < t.len() && t[i].0 != e {
        lemma_first_row_from_bounds(t, e, i + 1);
    }
}

/// `first_row_from` depends only on the keys of the rows.
proof fn lemma_first_row_same_keys(t1: Seq<RowView>, t2: Seq<RowView>, e: Seq<EntryIndex>, i: int)
    requires
        0 <= i,
        t1.len() == t2.len(),
        forall|j: int| 0 <= j < t1.len() ==> #[trigger] t1[j].0 == t2[j].0,
    ensures
        first_row_from(t1, e, i) == first_row_from(t2, e, i),
    decreases t1.len() - i,
{
    if i < t1.len() {
        lemma_first_row_same_keys(t1, t2, e, i + 1);
    }
}

/// A row pushed behind rows that lack key `e` is the first row with key `e`.
proof fn lemma_first_row_push(t: Seq<RowView>, r: RowView, e: Seq<EntryIndex>, i: int)
    requires
        0 <= i <= t.len(),
        forall|j: int| i <= j < t.len() ==> #[trigger] t[j].0 != e,
        r.0 == e,
    ensures
        first_row_from(t.push(r), e, i) == t.len(),
    decreases t.len() - i,
{
    if i < t.len() {
        lemma_first_row_push(t, r, e, i + 1);
    }
}

/// Adding an overlay a second time, or any overlay over the same range with
/// the same label, leaves the table as the first addition left it.
pub proof fn lemma_push_idempotent(t: Seq<RowView>, e: Seq<EntryIndex>, h1: AiHighlight, h2: AiHighlight)
    requires
        same_place(h1, h2),
    ensures
        pushed(pushed(t, e, h1), e, h2) == pushed(t, e, h1),
{
    let k = first_row(t, e);
    let t1 = pushed(t, e, h1);
    lemma_first_row_from_bounds(t, e, 0);
    if k < 0 {
        lemma_first_row_push(t, (e, seq![h1]), e, 0);
        assert(same_place(t1[t.len() as int].1[0], h2));
    } else if has_same(t[k].1, h1) {
        let i = choose|i: int| 0 <= i < t[k].1.len() && same_place(#[trigger] t[k].1[i], h1);
        assert(same_place(t[k].1[i], h2));
    } else {
        lemma_first_row_same_keys(t, t1, e, 0);
        let n = t[k].1.len() as int;
        assert(t1[k].1[n] == h1);
        assert(same_place(t1[k].1[n], h2));
    }
}

/// Adding an overlay changes no row but the one of its entry.
pub proof fn lemma_push_keeps_other_rows(t: Seq<RowView>, e: Seq<EntryIndex>, h: AiHighlight, j: int)
    requires
        0 <= j < t.len(),
        t[j].0 != e,
    ensures
        pushed(t, e, h)[j] == t[j],
{
    lemma_first_row_from_bounds(t, e, 0);
}

/// After an addition, the row of the entry holds an overlay over the range
/// of `h` with its label.
pub proof fn lemma_push_covers(t: Seq<RowView>, e: Seq<EntryIndex>, h: AiHighlight)
    ensures
        ({
            let t1 = pushed(t, e, h);
            let k = first_row(t1, e);
            0 <= k < t1.len() && has_same(t1[k].1, h)
        }),
{
    let k = first_row(t, e);
    let t1 = pushed(t, e, h);
    lemma_first_row_from_bounds(t, e, 0);
    if k < 0 {
        lemma_first_row_push(t, (e, seq![h]), e, 0);
        assert(same_place(t1[t.len() as int].1[0], h));
    } else if has_same(t[k].1, h) {
    } else {
        lemma_first_row_same_keys(t, t1, e, 0);
        let n = t[k].1.len() as int;
        assert(same_place(t1[k].1[n], h));
    }
}

/// Whether two overlays cover the same range with the same label.
fn same_place_exec(a: &AiHighlight, b: &AiHighlight) -> (r: bool)
    ensures
        r == same_place(*a, *b),
{
    if a.interval.start.0 != b.interval.start.0 || a.interval.stop.0 != b.interval.stop.0 {
        return false;
    }
    let la = chars_of(a.label.as_str());
    let lb = chars_of(b.label.as_str());
    chars_eq(la.as_slice(), lb.as_slice())
}

/// Index of the first row keyed by `e`.
fn find_row(table: &Vec<(EntryID, Vec<AiHighlight>)>, e: &EntryID) -> (r: Option<usize>)
    ensures
        (match r {
            Some(k) => k < table@.len() && k as int == first_row(table_view(table@), e@),
            None => first_row(table_view(table@), e@) < 0,
        }),
{
    let ghost tv = table_view(table@);
    let mut i: usize = 0;
    while i < table.len()
        invariant
            i <= table@.len(),
            tv == table_view(table@),
            first_row(tv, e@) == first_row_from(tv, e@, i as int),
        decreases table@.len() - i,
    {
        assert(tv[i as int].0 == table@[i as int].0@);
        if table[i].0.same(e) {
            return Some(i);
        }
        i = i + 1;
    }
    None
}

/// Adds overlay `h` to the row of entry `e` (see [`pushed`]); `true` when
/// the table changed.
pub fn push_highlight(table: &mut Vec<(EntryID, Vec<AiHighlight>)>, e: &EntryID, h: AiHighlight) -> (changed: bool)
    ensures
        table_view(final(table)@) == pushed(table_view(old(table)@), e@, h),
        changed == (pushed(table_view(old(table)@), e@, h) != table_view(old(table)@)),
{
    let ghost tv = table_view(table@);
    match find_row(table, e) {
        None => {
            let mut list: Vec<AiHighlight> = Vec::new();
            list.push(h);
            table.push((e.copied(), list));
            assert(table_view(table@) =~= tv.push((e@, seq![h])));
            assert(table_view(table@).len() != tv.len());
            true
        }
        Some(k) => {
            let mut dup = false;
            let mut i: usize = 0;
            while i < table[k].1.len()
                invariant
                    k < table@.len(),
                    i <= table@[k as int].1@.len(),
                    dup == exists|j: int| 0 <= j < i && same_place(#[trigger] table@[k as int].1@[j], h),
                decreases table@[k as int].1@.len() - i,
            {
                if same_place_exec(&table[k].1[i], &h) {
                    dup = true;
                }
                i = i + 1;
            }
            assert(tv[k as int].1 == table@[k as int].1@);
            assert(tv[k as int].0 == e@) by {
                lemma_first_row_from_bounds(tv, e@, 0);
            }
            if dup {
                assert(has_same(tv[k as int].1, h));
                false
            } else {
                assert(!has_same(tv[k as int].1, h));
                let mut row: (EntryID, Vec<AiHighlight>) = (EntryID::root(), Vec::new());
                std::mem::swap(&mut row, &mut table[k]);
                row.1.push(h);
                table.set(k, row);
                assert(table_view(table@) =~= tv.update(k as int, (e@, tv[k as int].1.push(h))));
                assert(table_view(table@)[k as int].1.len() != tv[k as int].1.len());
                true
            }
        }
    }
}

/// Removes every overlay; returns the number of rows that held overlays.
pub fn clear_highlights(table: &mut Vec<(EntryID, Vec<AiHighlight>)>) -> (n: usize)
    ensures
        n == old(table)@.len(),
        final(table)@.len() == 0,
{
    let n: usize = table.len();
    table.clear();
    n
}

} // verus!
