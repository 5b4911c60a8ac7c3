//! The viewer's assistant-facing state: highlights, selection banner,
//! navigation requests and the request sink of the in-viewer server.

use vstd::prelude::*;
use crate::entry::EntryID;
use crate::text::{ascii_lower, chars_of, string_of, u64_to_chars, append_chars, views, join,
    join_chars, decimal, contains_seq};
use vstd::string::StringExecFns;
use crate::timestamp::{Timestamp, Interval, timestamp_text};

verus! {

broadcast use vstd::string::group_string_axioms;

/// How following an item link moves the view.
#[derive(Clone, Copy, Debug, PartialEq, Eq, Structural)]
pub enum ItemLinkNavigationMode {
    Zoom,
    Pan,
}

impl ItemLinkNavigationMode {
    /// The menu label of the mode.
    pub fn label_text(&self) -> (r: &'static str)
        ensures
            r@ == (match *self {
                ItemLinkNavigationMode::Zoom => "Zoom to Item"@,
                ItemLinkNavigationMode::Pan => "Pan to Item"@,
            }),
    {
        match *self {
            ItemLinkNavigationMode::Zoom => "Zoom to Item",
            ItemLinkNavigationMode::Pan => "Pan to Item",
        }
    }
}

/// The row layout state of a timeline slot.
#[derive(Clone, Copy, Debug)]
pub struct Slot {
    pub expanded: bool,
    pub max_rows: u64,
}

impl Slot {
    /// Rows the slot occupies: two when collapsed, otherwise its item rows
    /// but never fewer than two.
    pub fn rows(&self) -> (r: u64)
        ensures
            r == (if self.expanded {
                if self.max_rows >= 2 { self.max_rows } else { 2 }
            } else {
                2
            }),
    {
        let unexpanded_rows: u64 = 2;
        if self.expanded {
            if self.max_rows >= unexpanded_rows {
                self.max_rows
            } else {
                unexpanded_rows
            }
        } else {
            unexpanded_rows
        }
    }
}

/// ASCII letter or digit.
pub open spec fn is_ascii_alnum(c: char) -> bool {
    ('0' <= c && c <= '9') || ('a' <= c && c <= 'z') || ('A' <= c && c <= 'Z')
}

/// Slug of a name from position `i` on, given the slug built so far and
/// whether the previous kept character was alphanumeric.
pub open spec fn slug_from(s: Seq<char>, i: int, acc: Seq<char>, in_word: bool) -> Seq<char>
    decreases s.len() - i,
{
    if i >= s.len() || i < 0 {
        acc
    } else if s[i] == ' ' {
        slug_from(s, i + 1, acc, in_word)
    } else if is_ascii_alnum(s[i]) {
        let acc2 = if !in_word && acc.len() > 0 {
            acc.push('_')
        } else {
            acc
        };
        slug_from(s, i + 1, acc2.push(ascii_lower(s[i])), true)
    } else {
        slug_from(s, i + 1, acc, false)
    }
}

/// The slug of an entry name: spaces removed, runs of ASCII letters and
/// digits lower-cased and joined with `_`.
pub open spec fn slug(s: Seq<char>) -> Seq<char> {
    slug_from(s, 0, seq![], false)
}

/// The slug of an entry name (see [`slug`]).
pub fn slug_part(name: &str) -> (r: String)
    ensures
        r@ == slug(name@),
{
    let s = chars_of(name);
    let mut acc: Vec<char> = Vec::new();
    let mut in_word = false;
    let mut i: usize = 0;
    while i < s.len()
        invariant
            i <= s@.len(),
            slug(s@) == slug_from(s@, i as int, acc@, in_word),
        decreases s@.len() - i,
    {
        let c = s[i];
        if c == ' ' {
        } else if ('0' <= c && c <= '9') || ('a' <= c && c <= 'z') || ('A' <= c && c <= 'Z') {
            if !in_word && acc.len() > 0 {
                acc.push('_');
            }
            acc.push(crate::text::ascii_lower_char(c));
            in_word = true;
        } else {
            in_word = false;
        }
        i = i + 1;
    }
    string_of(acc.as_slice())
}

/// An agent's highlight request.
#[derive(Clone, Debug)]
pub struct Highlight {
    pub entry_slug: String,
    pub start_ns: i64,
    pub stop_ns: i64,
    pub severity: String,
    pub label: String,
}

/// A highlight overlay drawn on the timeline.
#[derive(Clone, Debug)]
pub struct AiHighlight {
    pub id: u64,
    pub interval: Interval,
    pub label: String,
    pub item_uid: Option<u64>,
    pub enabled: bool,
}

/// The source of unique, increasing highlight ids.
pub struct HighlightIds {
    pub next: u64,
}

impl HighlightIds {
    /// A source whose first id is 0.
    pub fn new() -> (r: HighlightIds)
        ensures
            r.next == 0,
    {
        HighlightIds { next: 0 }
    }

    /// Allocates the next id (the counter wraps after `u64::MAX`).
    pub fn next_highlight_id(&mut self) -> (r: u64)
        ensures
            r == old(self).next,
            final(self).next == (if old(self).next == u64::MAX { 0 } else { (old(self).next + 1) as u64 }),
    {
        let r = self.next;
        self.next = if r == u64::MAX { 0 } else { r + 1 };
        r
    }
}

/// The overlay for an agent highlight: a fresh id, the requested interval
/// and label, no task target, enabled.
pub fn highlight_to_ai(ids: &mut HighlightIds, hl: &Highlight) -> (r: AiHighlight)
    ensures
        r.id == old(ids).next,
        final(ids).next == (if old(ids).next == u64::MAX { 0 } else { (old(ids).next + 1) as u64 }),
        r.interval.start.0 == hl.start_ns,
        r.interval.stop.0 == hl.stop_ns,
        r.label@ == hl.label@,
        r.item_uid is None,
        r.enabled,
{
    AiHighlight {
        id: ids.next_highlight_id(),
        interval: Interval::new(Timestamp(hl.start_ns), Timestamp(hl.stop_ns)),
        label: hl.label.clone(),
        item_uid: None,
        enabled: true,
    }
}

/// The enabled highlights of a highlight table, flattened in table order.
pub open spec fn enabled_highlights(map: Seq<(EntryID, Vec<AiHighlight>)>) -> Seq<AiHighlight>
    decreases map.len(),
{
    if map.len() == 0 {
        seq![]
    } else {
        enabled_highlights(map.drop_last()) + map.last().1@.filter(|h: AiHighlight| h.enabled)
    }
}

/// Smallest start over a non-empty list of highlights.
pub open spec fn min_start(hs: Seq<AiHighlight>) -> i64
    decreases hs.len(),
{
    if hs.len() <= 1 {
        hs[0].interval.start.0
    } else {
        let m = min_start(hs.drop_last());
        if hs.last().interval.start.0 < m { hs.last().interval.start.0 } else { m }
    }
}

/// Largest stop over a non-empty list of highlights.
pub open spec fn max_stop(hs: Seq<AiHighlight>) -> i64
    decreases hs.len(),
{
    if hs.len() <= 1 {
        hs[0].interval.stop.0
    } else {
        let m = max_stop(hs.drop_last());
        if hs.last().interval.stop.0 > m { hs.last().interval.stop.0 } else { m }
    }
}

/// The start of the union is the least start of the highlights and the stop
/// the greatest stop: no highlight starts before it or stops after it, and
/// some highlight starts there and some stops there.
pub proof fn lemma_union_bounds(hs: Seq<AiHighlight>)
    requires
        hs.len() > 0,
    ensures
        forall|i: int| 0 <= i < hs.len() ==> min_start(hs) <= #[trigger] hs[i].interval.start.0,
        forall|i: int| 0 <= i < hs.len() ==> max_stop(hs) >= #[trigger] hs[i].interval.stop.0,
        exists|i: int| 0 <= i < hs.len() && min_start(hs) == #[trigger] hs[i].interval.start.0,
        exists|i: int| 0 <= i < hs.len() && max_stop(hs) == #[trigger] hs[i].interval.stop.0,
    decreases hs.len(),
{
    if hs.len() == 1 {
        assert(min_start(hs) == hs[0].interval.start.0);
        assert(max_stop(hs) == hs[0].interval.stop.0);
    } else {
        let init = hs.drop_last();
        lemma_union_bounds(init);
        assert forall|i: int| 0 <= i < hs.len() implies min_start(hs) <= #[trigger] hs[i].interval.start.0 by {
            if i < hs.len() - 1 {
                assert(hs[i] == init[i]);
            }
        }
        assert forall|i: int| 0 <= i < hs.len() implies max_stop(hs) >= #[trigger] hs[i].interval.stop.0 by {
            if i < hs.len() - 1 {
                assert(hs[i] == init[i]);
            }
        }
        if hs.last().interval.start.0 < min_start(init) {
            assert(min_start(hs) == hs[hs.len() - 1].interval.start.0);
        } else {
            let i = choose|i: int| 0 <= i < init.len() && min_start(init) == #[trigger] init[i].interval.start.0;
            assert(hs[i] == init[i]);
            assert(min_start(hs) == hs[i].interval.start.0);
        }
        if hs.last().interval.stop.0 > max_stop(init) {
            assert(max_stop(hs) == hs[hs.len() - 1].interval.stop.0);
        } else {
            let i = choose|i: int| 0 <= i < init.len() && max_stop(init) == #[trigger] init[i].interval.stop.0;
            assert(hs[i] == init[i]);
            assert(max_stop(hs) == hs[i].interval.stop.0);
        }
    }
}

/// The highlights the union covers are exactly the enabled ones of the
/// table: each of them is enabled, and each enabled highlight of any row is
/// among them.
pub proof fn lemma_enabled_highlights(map: Seq<(EntryID, Vec<AiHighlight>)>)
    ensures
        forall|i: int| 0 <= i < enabled_highlights(map).len() ==> (#[trigger] enabled_highlights(map)[i]).enabled,
        forall|e: int, k: int|
            0 <= e < map.len() && 0 <= k < map[e].1@.len() && (#[trigger] map[e].1@[k]).enabled
                ==> enabled_highlights(map).contains(map[e].1@[k]),
    decreases map.len(),
{
    if map.len() > 0 {
        let init = map.drop_last();
        lemma_enabled_highlights(init);
        let row = map.last().1@;
        let f = |h: AiHighlight| h.enabled;
        let tail = row.filter(f);
        let all = enabled_highlights(map);
        assert(all == enabled_highlights(init) + tail);
        assert forall|i: int| 0 <= i < all.len() implies (#[trigger] all[i]).enabled by {
            if i < enabled_highlights(init).len() {
                assert(all[i] == enabled_highlights(init)[i]);
            } else {
                row.lemma_filter_pred(f, i - enabled_highlights(init).len());
            }
        }
        assert forall|e: int, k: int|
            0 <= e < map.len() && 0 <= k < map[e].1@.len() && (#[trigger] map[e].1@[k]).enabled
                implies all.contains(map[e].1@[k]) by {
            let h = map[e].1@[k];
            if e < map.len() - 1 {
                assert(map[e] == init[e]);
                let j = choose|j: int| 0 <= j < enabled_highlights(init).len() && enabled_highlights(init)[j] == h;
                assert(all[j] == h);
            } else {
                row.lemma_filter_contains(f, k);
                let j = choose|j: int| 0 <= j < tail.len() && tail[j] == h;
                assert(all[enabled_highlights(init).len() + j] == h);
            }
        }
    }
}

/// Union (hull) of the intervals of the enabled highlights; `None` when no
/// highlight is enabled.
pub fn highlight_union(map: &Vec<(EntryID, Vec<AiHighlight>)>) -> (r: Option<Interval>)
    ensures
        ({
            let hs = enabled_highlights(map@);
            if hs.len() == 0 {
                r is None
            } else {
                r == Some(Interval { start: Timestamp(min_start(hs)), stop: Timestamp(max_stop(hs)) })
            }
        }),
{
    let mut bounds: Option<(i64, i64)> = None;
    let mut e: usize = 0;
    while e < map.len()
        invariant
            e <= map@.len(),
            ({
                let hs = enabled_highlights(map@.take(e as int));
                if hs.len() == 0 {
                    bounds is None
                } else {
                    bounds == Some((min_start(hs), max_stop(hs)))
                }
            }),
        decreases map@.len() - e,
    {
        let v = &map[e].1;
        let ghost before = enabled_highlights(map@.take(e as int));
        let mut k: usize = 0;
        while k < v.len()
            invariant
                k <= v@.len(),
                e < map@.len(),
                *v == map@[e as int].1,
                ({
                    let hs = before + v@.take(k as int).filter(|h: AiHighlight| h.enabled);
                    if hs.len() == 0 {
                        bounds is None
                    } else {
                        bounds == Some((min_start(hs), max_stop(hs)))
                    }
                }),
            decreases v@.len() - k,
        {
            let h = &v[k];
            let ghost hs0 = before + v@.take(k as int).filter(|h: AiHighlight| h.enabled);
            proof {
                assert(v@.take(k + 1).drop_last() =~= v@.take(k as int));
                reveal_with_fuel(Seq::filter, 1);
            }
            if h.enabled {
                let (s, t) = (h.interval.start.0, h.interval.stop.0);
                bounds = Some(match bounds {
                    None => (s, t),
                    Some((bs, be)) => (if s < bs { s } else { bs }, if t > be { t } else { be }),
                });
                proof {
                    let hs1 = before + v@.take(k + 1).filter(|h: AiHighlight| h.enabled);
                    assert(hs1 =~= hs0.push(*h));
                    assert(hs1.drop_last() =~= hs0);
                }
            } else {
                proof {
                    let hs1 = before + v@.take(k + 1).filter(|h: AiHighlight| h.enabled);
                    assert(hs1 =~= hs0);
                }
            }
            k = k + 1;
        }
        proof {
            assert(v@.take(v@.len() as int) =~= v@);
            assert(map@.take(e + 1).drop_last() =~= map@.take(e as int));
            assert(map@.take(e + 1).last() == map@[e as int]);
        }
        e = e + 1;
    }
    assert(map@.take(map@.len() as int) =~= map@);
    match bounds {
        None => None,
        Some((s, t)) => Some(Interval::new(Timestamp(s), Timestamp(t))),
    }
}

/// `(e, h)` names the `h`-th highlight of the `e`-th row of the table.
pub open spec fn is_slot(map: Seq<(EntryID, Vec<AiHighlight>)>, p: (usize, usize)) -> bool {
    p.0 < map.len() && p.1 < map[p.0 as int].1@.len()
}

/// The id of the highlight that `p` names.
pub open spec fn id_at(map: Seq<(EntryID, Vec<AiHighlight>)>, p: (usize, usize)) -> u64 {
    map[p.0 as int].1@[p.1 as int].id
}

/// Manager order: by id, then by position in the table.
pub open spec fn manager_before(map: Seq<(EntryID, Vec<AiHighlight>)>, p: (usize, usize), q: (usize, usize)) -> bool {
    ||| id_at(map, p) < id_at(map, q)
    ||| (id_at(map, p) == id_at(map, q) && (p.0 < q.0 || (p.0 == q.0 && p.1 < q.1)))
}

/// Manager order lists highlights by increasing id: a highlight before
/// another never has a larger id, no highlight comes before itself, and of
/// two different places exactly one comes first.
pub proof fn lemma_manager_order(map: Seq<(EntryID, Vec<AiHighlight>)>, p: (usize, usize), q: (usize, usize))
    ensures
        manager_before(map, p, q) ==> map[p.0 as int].1@[p.1 as int].id <= map[q.0 as int].1@[q.1 as int].id,
        map[p.0 as int].1@[p.1 as int].id < map[q.0 as int].1@[q.1 as int].id ==> manager_before(map, p, q),
        !manager_before(map, p, p),
        p != q ==> (manager_before(map, p, q) != manager_before(map, q, p)),
{
}

/// Whether the highlight named `q` comes before the one named `(e, h)`.
fn slot_before(map: &Vec<(EntryID, Vec<AiHighlight>)>, q: (usize, usize), e: usize, h: usize) -> (r: bool)
    requires
        is_slot(map@, q),
        is_slot(map@, (e, h)),
    ensures
        r == manager_before(map@, q, (e, h)),
{
    let qid = map[q.0].1[q.1].id;
    let id = map[e].1[h].id;
    qid < id || (qid == id && (q.0 < e || (q.0 == e && q.1 < h)))
}

/// Every highlight of the table, each named once as `(row, index)`, in
/// manager order (by id; equal ids keep table order).
pub fn flatten_highlights_sorted(map: &Vec<(EntryID, Vec<AiHighlight>)>) -> (r: Vec<(usize, usize)>)
    ensures
        forall|p: (usize, usize)| r@.contains(p) <==> is_slot(map@, p),
        forall|i: int, j: int|
            0 <= i < j < r@.len() ==> manager_before(map@, #[trigger] r@[i], #[trigger] r@[j]),
{
    let mut r: Vec<(usize, usize)> = Vec::new();
    let mut e: usize = 0;
    while e < map.len()
        invariant
            e <= map@.len(),
            forall|p: (usize, usize)| r@.contains(p) <==> (is_slot(map@, p) && p.0 < e),
            forall|i: int, j: int|
                0 <= i < j < r@.len() ==> manager_before(map@, #[trigger] r@[i], #[trigger] r@[j]),
        decreases map@.len() - e,
    {
        let mut h: usize = 0;
        while h < map[e].1.len()
            invariant
                e < map@.len(),
                h <= map@[e as int].1@.len(),
                forall|p: (usize, usize)| r@.contains(p) <==> (is_slot(map@, p) && (p.0 < e || (p.0 == e && p.1 < h))),
                forall|i: int, j: int|
                    0 <= i < j < r@.len() ==> manager_before(map@, #[trigger] r@[i], #[trigger] r@[j]),
            decreases map@[e as int].1@.len() - h,
        {
            let id = map[e].1[h].id;
            let new_p = (e, h);
            proof {
                assert forall|k: int| 0 <= k < r@.len() implies is_slot(map@, #[trigger] r@[k]) by {
                    assert(r@.contains(r@[k]));
                }
            }
            // position: after every element that comes before the new one
            let mut pos: usize = 0;
            while pos < r.len() && slot_before(map, r[pos], e, h)
                invariant
                    pos <= r@.len(),
                    e < map@.len(),
                    forall|k: int| 0 <= k < r@.len() ==> is_slot(map@, #[trigger] r@[k]),
                    h < map@[e as int].1@.len(),
                    id == id_at(map@, (e, h)),
                    forall|p: (usize, usize)| r@.contains(p) ==> is_slot(map@, p),
                    forall|k: int| 0 <= k < pos ==> manager_before(map@, #[trigger] r@[k], (e, h)),
                decreases r@.len() - pos,
            {
                pos = pos + 1;
            }
            proof {
                if pos < r@.len() {
                    assert(r@.contains(r@[pos as int]));
                    assert(!manager_before(map@, r@[pos as int], (e, h)));
                    assert(r@[pos as int] != (e, h));
                    assert(manager_before(map@, (e, h), r@[pos as int]));
                    assert forall|k: int| pos <= k < r@.len() implies manager_before(map@, (e, h), #[trigger] r@[k]) by {
                        if k > pos {
                            assert(manager_before(map@, r@[pos as int], r@[k]));
                        }
                    }
                }
            }
            let ghost old_r = r@;
            r.insert(pos, new_p);
            proof {
                assert(r@ == old_r.insert(pos as int, (e, h)));
                assert forall|p: (usize, usize)| r@.contains(p) <==> (is_slot(map@, p) && (p.0 < e || (p.0 == e && p.1 < h + 1))) by {
                    if r@.contains(p) {
                        let k = choose|k: int| 0 <= k < r@.len() && r@[k] == p;
                        if k < pos {
                            assert(old_r[k] == p);
                            assert(old_r.contains(p));
                        } else if k > pos {
                            assert(old_r[k - 1] == p);
                            assert(old_r.contains(p));
                        }
                    }
                    if is_slot(map@, p) && (p.0 < e || (p.0 == e && p.1 < h + 1)) {
                        if p == (e, h) {
                            assert(r@[pos as int] == p);
                        } else {
                            assert(old_r.contains(p));
                            let k = choose|k: int| 0 <= k < old_r.len() && old_r[k] == p;
                            if k < pos {
                                assert(r@[k] == p);
                            } else {
                                assert(r@[k + 1] == p);
                            }
                        }
                    }
                }
                assert forall|i: int, j: int|
                    0 <= i < j < r@.len() implies manager_before(map@, #[trigger] r@[i], #[trigger] r@[j]) by {
                    if j < pos {
                        assert(r@[i] == old_r[i] && r@[j] == old_r[j]);
                    } else if j == pos {
                        assert(r@[i] == old_r[i]);
                    } else if i > pos {
                        assert(r@[i] == old_r[i - 1] && r@[j] == old_r[j - 1]);
                    } else if i == pos {
                        assert(r@[j] == old_r[j - 1]);
                    } else {
                        assert(r@[i] == old_r[i] && r@[j] == old_r[j - 1]);
                    }
                }
            }
            h = h + 1;
        }
        e = e + 1;
    }
    r
}

/// A selected task bar, as the selection snapshot reports it.
#[derive(Clone, Debug)]
pub struct SelectedItemInfo {
    pub item_uid: u64,
    pub entry_slug: Option<String>,
    pub title: String,
    pub start_ns: i64,
    pub stop_ns: i64,
}

/// `"<start>–<stop>"` for two timestamps.
pub open spec fn span_text(start: i64, stop: i64) -> Seq<char> {
    timestamp_text(start as int) + seq!['\u{2013}'] + timestamp_text(stop as int)
}

/// Banner text of a selected range.
pub open spec fn range_part(label: Seq<char>, start: i64, stop: i64) -> Seq<char> {
    span_text(start, stop) + seq![' ', '('] + label + seq![')']
}

/// Banner text of one selected item.
pub open spec fn item_part(it: SelectedItemInfo) -> Seq<char> {
    let title = if it.title@.len() == 0 {
        seq!['u', 'i', 'd', ' '] + decimal(it.item_uid as nat)
    } else {
        it.title@
    };
    let slug = match it.entry_slug {
        Some(s) => s@,
        None => seq!['?'],
    };
    title + seq![' ', '@', ' '] + span_text(it.start_ns, it.stop_ns) + seq![' ', '('] + slug + seq![')']
}

/// The separator between banner parts.
pub open spec fn banner_sep() -> Seq<char> {
    seq![' ', ' ', '\u{b7}', ' ', ' ']
}

/// The parts of the selection banner: the range (if any), the first two
/// items, and `"+N more"` for the rest.
pub open spec fn banner_parts(items: Seq<SelectedItemInfo>, range: Option<(String, i64, i64)>) -> Seq<Seq<char>> {
    let r = match range {
        Some(t) => seq![range_part(t.0@, t.1, t.2)],
        None => seq![],
    };
    let shown = if items.len() > 2 { items.take(2) } else { items };
    let more = if items.len() > 2 {
        seq![seq!['+'] + decimal((items.len() - 2) as nat) + seq![' ', 'm', 'o', 'r', 'e']]
    } else {
        seq![]
    };
    r + shown.map_values(|it: SelectedItemInfo| item_part(it)) + more
}

/// The banner lists the range first (when there is one), then the first
/// items, at most two, in order; every further item is counted in one last
/// `+N more` part, so the items shown and `N` add up to all the items.
pub proof fn lemma_banner_parts(items: Seq<SelectedItemInfo>, range: Option<(String, i64, i64)>)
    ensures
        ({
            let parts = banner_parts(items, range);
            let rc: int = if range is Some { 1 } else { 0 };
            let shown: int = if items.len() <= 2 { items.len() as int } else { 2 };
            &&& range matches Some(t) ==> parts[0] == range_part(t.0@, t.1, t.2)
            &&& forall|i: int| 0 <= i < shown ==> parts[rc + i] == item_part(#[trigger] items[i])
            &&& items.len() <= 2 ==> parts.len() == rc + items.len()
            &&& items.len() > 2 ==> parts.len() == rc + shown + 1 && parts.last() == "+"@ + decimal(
                (items.len() - shown) as nat,
            ) + " more"@
        }),
{
    reveal_strlit("+");
    reveal_strlit(" more");
    assert(seq!['+'] =~= "+"@);
    assert(seq![' ', 'm', 'o', 'r', 'e'] =~= " more"@);
}

fn span_chars(start: i64, stop: i64) -> (r: Vec<char>)
    ensures
        r@ == span_text(start, stop),
{
    let mut r = Timestamp(start).to_text();
    r.push('\u{2013}');
    let b = Timestamp(stop).to_text();
    append_chars(&mut r, b.as_slice());
    r
}

/// The header banner for the current selection: `None` when nothing is
/// selected, otherwise `"Selected: "` and the banner parts joined by `"  ·  "`.
pub fn format_selection_banner(items: &Vec<SelectedItemInfo>, range: &Option<(String, i64, i64)>) -> (r: Option<String>)
    ensures
        (items@.len() == 0 && range.is_none()) ==> r is None,
        !(items@.len() == 0 && range.is_none()) ==> (r matches Some(t) && t@ == seq!['S', 'e', 'l', 'e', 'c', 't', 'e', 'd', ':', ' '] + join(banner_parts(items@, *range), banner_sep())),
{
    if items.len() == 0 && range.is_none() {
        return None;
    }
    let mut parts: Vec<Vec<char>> = Vec::new();
    match range {
        Some((label, start, stop)) => {
            let mut p = span_chars(*start, *stop);
            p.push(' ');
            p.push('(');
            let l = chars_of(label.as_str());
            append_chars(&mut p, l.as_slice());
            p.push(')');
            assert(p@ =~= range_part(label@, *start, *stop));
            parts.push(p);
            assert(views(parts@) =~= seq![range_part(label@, *start, *stop)]);
        },
        None => {
            assert(views(parts@) =~= Seq::<Seq<char>>::empty());
        },
    }
    let ghost r0 = views(parts@);
    assert(r0 == match *range {
        Some(t) => seq![range_part(t.0@, t.1, t.2)],
        None => Seq::<Seq<char>>::empty(),
    });
    let shown: usize = if items.len() > 2 { 2 } else { items.len() };
    let mut i: usize = 0;
    while i < shown
        invariant
            i <= shown,
            shown <= items@.len(),
            shown == (if items@.len() > 2 { 2 } else { items@.len() }),
            views(parts@) == r0 + items@.take(i as int).map_values(|it: SelectedItemInfo| item_part(it)),
        decreases shown - i,
    {
        let it = &items[i];
        let mut p: Vec<char> = if it.title.as_str().unicode_len() == 0 {
            let mut t = vec!['u', 'i', 'd', ' '];
            let d = u64_to_chars(it.item_uid);
            append_chars(&mut t, d.as_slice());
            t
        } else {
            chars_of(it.title.as_str())
        };
        p.push(' ');
        p.push('@');
        p.push(' ');
        let sp = span_chars(it.start_ns, it.stop_ns);
        append_chars(&mut p, sp.as_slice());
        p.push(' ');
        p.push('(');
        match &it.entry_slug {
            Some(sl) => {
                let c = chars_of(sl.as_str());
                append_chars(&mut p, c.as_slice());
            },
            None => {
                p.push('?');
            },
        }
        p.push(')');
        proof {
            assert(p@ =~= item_part(*it));
        }
        let ghost before = views(parts@);
        parts.push(p);
        proof {
            assert(views(parts@) =~= before.push(p@));
            assert(items@.take(i + 1).map_values(|it: SelectedItemInfo| item_part(it)) =~= items@.take(i as int).map_values(|it: SelectedItemInfo| item_part(it)).push(item_part(items@[i as int])));
        }
        i = i + 1;
    }
    if items.len() > 2 {
        let mut p: Vec<char> = vec!['+'];
        let d = u64_to_chars((items.len() - 2) as u64);
        append_chars(&mut p, d.as_slice());
        p.push(' ');
        p.push('m');
        p.push('o');
        p.push('r');
        p.push('e');
        let ghost before = views(parts@);
        parts.push(p);
        assert(views(parts@) =~= before.push(p@));
        assert(p@ =~= seq!['+'] + decimal((items@.len() - 2) as nat) + seq![' ', 'm', 'o', 'r', 'e']);
    }
    proof {
        let shown_items = if items@.len() > 2 { items@.take(2) } else { items@ };
        assert(items@.take(shown as int) =~= shown_items);
        assert(views(parts@) =~= banner_parts(items@, *range));
    }
    let sep = ['\u{20}', '\u{20}', '\u{b7}', '\u{20}', '\u{20}'];
    assert(sep@ =~= banner_sep());
    let body = join_chars(&parts, sep.as_slice());
    let mut out: Vec<char> = vec!['S', 'e', 'l', 'e', 'c', 't', 'e', 'd', ':', ' '];
    append_chars(&mut out, body.as_slice());
    Some(string_of(out.as_slice()))
}

/// A view change (or screenshot) requested of the live timeline.
#[derive(Clone, Debug)]
pub enum PendingNavigation {
    Screenshot { request_id: u64 },
    Zoom { request_id: u64, start_ns: i64, stop_ns: i64 },
    /// `percent`: how far to pan, in whole percent of the view width.
    Pan { request_id: u64, direction: String, percent: i64 },
    ScrollTo { request_id: u64, entry_slug: String },
    /// `vertical_scale_milli`: the row-height scale in thousandths.
    SetView {
        request_id: u64,
        start_ns: i64,
        stop_ns: i64,
        entry_slug: Option<String>,
        filter_kinds: Option<Vec<String>>,
        expand_kinds: Option<Vec<String>>,
        collapse_kinds: Option<Vec<String>>,
        vertical_scale_milli: Option<i64>,
    },
    Search { request_id: u64, query: String },
    ResetView { request_id: u64 },
}

/// The request id carried by a navigation request.
pub open spec fn nav_request_id(nav: PendingNavigation) -> u64 {
    match nav {
        PendingNavigation::Screenshot { request_id } => request_id,
        PendingNavigation::Zoom { request_id, .. } => request_id,
        PendingNavigation::Pan { request_id, .. } => request_id,
        PendingNavigation::ScrollTo { request_id, .. } => request_id,
        PendingNavigation::SetView { request_id, .. } => request_id,
        PendingNavigation::Search { request_id, .. } => request_id,
        PendingNavigation::ResetView { request_id } => request_id,
    }
}

/// The request id carried by any navigation variant.
pub fn pending_nav_request_id(nav: &PendingNavigation) -> (r: u64)
    ensures
        r == nav_request_id(*nav),
{
    match nav {
        PendingNavigation::Screenshot { request_id } => *request_id,
        PendingNavigation::Zoom { request_id, .. } => *request_id,
        PendingNavigation::Pan { request_id, .. } => *request_id,
        PendingNavigation::ScrollTo { request_id, .. } => *request_id,
        PendingNavigation::SetView { request_id, .. } => *request_id,
        PendingNavigation::Search { request_id, .. } => *request_id,
        PendingNavigation::ResetView { request_id } => *request_id,
    }
}

/// Requests that reach the viewer from an assistant.
#[derive(Clone, Debug)]
pub enum AgentEvent {
    ScreenshotRequest { request_id: u64 },
    ZoomRequest { request_id: u64, start_ns: i64, stop_ns: i64 },
    PanRequest { request_id: u64, direction: String, percent: i64 },
    ScrollToRequest { request_id: u64, entry_slug: String },
    SetViewRequest {
        request_id: u64,
        start_ns: i64,
        stop_ns: i64,
        entry_slug: Option<String>,
        filter_kinds: Option<Vec<String>>,
        expand_kinds: Option<Vec<String>>,
        collapse_kinds: Option<Vec<String>>,
        vertical_scale_milli: Option<i64>,
    },
    SearchRequest { request_id: u64, query: String },
    ResetViewRequest { request_id: u64 },
    HighlightRequest {
        request_id: u64,
        entry_slug: String,
        start_ns: i64,
        stop_ns: i64,
        severity: String,
        label: String,
    },
    ClearHighlightsRequest { request_id: u64 },
    GetSelection { request_id: u64 },
}

/// The navigation request an event asks for, if it is one.
pub open spec fn event_navigation(ev: AgentEvent) -> Option<PendingNavigation> {
    match ev {
        AgentEvent::ScreenshotRequest { request_id } => Some(PendingNavigation::Screenshot { request_id }),
        AgentEvent::ZoomRequest { request_id, start_ns, stop_ns } => Some(PendingNavigation::Zoom { request_id, start_ns, stop_ns }),
        AgentEvent::PanRequest { request_id, direction, percent } => Some(PendingNavigation::Pan { request_id, direction, percent }),
        AgentEvent::ScrollToRequest { request_id, entry_slug } => Some(PendingNavigation::ScrollTo { request_id, entry_slug }),
        AgentEvent::SetViewRequest { request_id, start_ns, stop_ns, entry_slug, filter_kinds, expand_kinds, collapse_kinds, vertical_scale_milli } =>
            Some(PendingNavigation::SetView { request_id, start_ns, stop_ns, entry_slug, filter_kinds, expand_kinds, collapse_kinds, vertical_scale_milli }),
        AgentEvent::SearchRequest { request_id, query } => Some(PendingNavigation::Search { request_id, query }),
        AgentEvent::ResetViewRequest { request_id } => Some(PendingNavigation::ResetView { request_id }),
        _ => None,
    }
}

/// What the in-viewer server's drain records of one request: a navigation,
/// a highlight (with its request id), a clear, or a selection read.
pub struct McpDrainSink {
    pub pending: Option<PendingNavigation>,
    pub pending_highlight: Option<(Highlight, u64)>,
    pub pending_clear: Option<u64>,
    pub pending_selection: Option<u64>,
}

impl McpDrainSink {
    /// A sink that has recorded nothing.
    pub fn new() -> (r: McpDrainSink)
        ensures
            r.pending is None,
            r.pending_highlight is None,
            r.pending_clear is None,
            r.pending_selection is None,
    {
        McpDrainSink { pending: None, pending_highlight: None, pending_clear: None, pending_selection: None }
    }
}

/// Records `ev` in the slot of `sink` that its kind belongs to; the other
/// slots are left as they were.
pub fn apply_agent_event(sink: &mut McpDrainSink, ev: AgentEvent)
    ensures
        event_navigation(ev) matches Some(nav) ==> final(sink).pending == Some(nav)
            && final(sink).pending_highlight == old(sink).pending_highlight
            && final(sink).pending_clear == old(sink).pending_clear
            && final(sink).pending_selection == old(sink).pending_selection,
        ev matches AgentEvent::HighlightRequest { request_id, entry_slug, start_ns, stop_ns, severity, label }
            ==> final(sink).pending_highlight == Some((Highlight { entry_slug, start_ns, stop_ns, severity, label }, request_id))
            && final(sink).pending == old(sink).pending
            && final(sink).pending_clear == old(sink).pending_clear
            && final(sink).pending_selection == old(sink).pending_selection,
        ev matches AgentEvent::ClearHighlightsRequest { request_id } ==> final(sink).pending_clear == Some(request_id)
            && final(sink).pending == old(sink).pending
            && final(sink).pending_highlight == old(sink).pending_highlight
            && final(sink).pending_selection == old(sink).pending_selection,
        ev matches AgentEvent::GetSelection { request_id } ==> final(sink).pending_selection == Some(request_id)
            && final(sink).pending == old(sink).pending
            && final(sink).pending_highlight == old(sink).pending_highlight
            && final(sink).pending_clear == old(sink).pending_clear,
{
    match ev {
        AgentEvent::ScreenshotRequest { request_id } => {
            sink.pending = Some(PendingNavigation::Screenshot { request_id });
        },
        AgentEvent::ZoomRequest { request_id, start_ns, stop_ns } => {
            sink.pending = Some(PendingNavigation::Zoom { request_id, start_ns, stop_ns });
        },
        AgentEvent::PanRequest { request_id, direction, percent } => {
            sink.pending = Some(PendingNavigation::Pan { request_id, direction, percent });
        },
        AgentEvent::ScrollToRequest { request_id, entry_slug } => {
            sink.pending = Some(PendingNavigation::ScrollTo { request_id, entry_slug });
        },
        AgentEvent::SetViewRequest { request_id, start_ns, stop_ns, entry_slug, filter_kinds, expand_kinds, collapse_kinds, vertical_scale_milli } => {
            sink.pending = Some(PendingNavigation::SetView { request_id, start_ns, stop_ns, entry_slug, filter_kinds, expand_kinds, collapse_kinds, vertical_scale_milli });
        },
        AgentEvent::SearchRequest { request_id, query } => {
            sink.pending = Some(PendingNavigation::Search { request_id, query });
        },
        AgentEvent::ResetViewRequest { request_id } => {
            sink.pending = Some(PendingNavigation::ResetView { request_id });
        },
        AgentEvent::HighlightRequest { request_id, entry_slug, start_ns, stop_ns, severity, label } => {
            sink.pending_highlight = Some((Highlight { entry_slug, start_ns, stop_ns, severity, label }, request_id));
        },
        AgentEvent::ClearHighlightsRequest { request_id } => {
            sink.pending_clear = Some(request_id);
        },
        AgentEvent::GetSelection { request_id } => {
            sink.pending_selection = Some(request_id);
        },
    }
}

/// `s` with later repeats of an element dropped (first occurrences kept, in order).
pub open spec fn unique(s: Seq<Seq<char>>) -> Seq<Seq<char>>
    decreases s.len(),
{
    if s.len() == 0 {
        seq![]
    } else {
        let u = unique(s.drop_last());
        if u.contains(s.last()) {
            u
        } else {
            u.push(s.last())
        }
    }
}

/// The window title part naming the data sources: `"No data source"`, the
/// single source, or the first source and how many others there are.
pub open spec fn locator_text(all: Seq<Seq<char>>) -> Seq<char> {
    let u = unique(all);
    if u.len() == 0 {
        "No data source"@
    } else if u.len() == 1 {
        u[0]
    } else {
        u[0] + " and "@ + decimal((u.len() - 1) as nat) + " other sources"@
    }
}

/// Describes the data sources from all of their locators.
pub fn get_locator(all_locators: &Vec<String>) -> (r: String)
    ensures
        r@ == locator_text(all_locators@.map_values(|s: String| s@)),
{
    let ghost all = all_locators@.map_values(|s: String| s@);
    let mut u: Vec<Vec<char>> = Vec::new();
    let mut i: usize = 0;
    while i < all_locators.len()
        invariant
            i <= all_locators@.len(),
            all == all_locators@.map_values(|s: String| s@),
            views(u@) == unique(all.take(i as int)),
        decreases all_locators@.len() - i,
    {
        let x = chars_of(all_locators[i].as_str());
        proof {
            assert(all.take(i + 1).drop_last() =~= all.take(i as int));
            assert(all.take(i + 1).last() == x@);
        }
        if !contains_seq(&u, x.as_slice()) {
            let ghost before = views(u@);
            u.push(x);
            assert(views(u@) =~= before.push(x@));
        }
        i = i + 1;
    }
    assert(all.take(all_locators@.len() as int) =~= all);
    proof {
        reveal_strlit("No data source");
        reveal_strlit(" and ");
        reveal_strlit(" other sources");
    }
    if u.len() == 0 {
        String::from_str("No data source")
    } else if u.len() == 1 {
        string_of(u[0].as_slice())
    } else {
        let mut r = u[0].clone();
        let a = chars_of(" and ");
        append_chars(&mut r, a.as_slice());
        let d = u64_to_chars((u.len() - 1) as u64);
        append_chars(&mut r, d.as_slice());
        let b = chars_of(" other sources");
        append_chars(&mut r, b.as_slice());
        string_of(r.as_slice())
    }
}

/// Startup configuration from the command line (assistant tool paths).
#[derive(Clone, Debug)]
pub struct StartOptions {
    /// The profile database for the data tools.
    pub ai_duckdb_path: Option<String>,
    /// The profiled application's source root.
    pub ai_code_path: Option<String>,
    /// The knowledge wiki root.
    pub ai_wiki_path: Option<String>,
}

impl Default for StartOptions {
    fn default() -> (r: StartOptions)
        ensures
            r.ai_duckdb_path is None,
            r.ai_code_path is None,
            r.ai_wiki_path is None,
    {
        StartOptions { ai_duckdb_path: None, ai_code_path: None, ai_wiki_path: None }
    }
}

/// Assistant panel settings kept across restarts; an empty string means unset.
#[derive(Clone, Debug)]
pub struct PersistedAiSettings {
    pub project_root: String,
    pub duckdb_path: String,
    pub wiki_path: String,
    /// Model picker: "", "opus", "sonnet" or "haiku".
    pub model: String,
    /// Strength picker: "", "low", "medium", "high" or "max".
    pub effort: String,
}

impl Default for PersistedAiSettings {
    fn default() -> (r: PersistedAiSettings)
        ensures
            r.project_root@.len() == 0,
            r.duckdb_path@.len() == 0,
            r.wiki_path@.len() == 0,
            r.model@.len() == 0,
            r.effort@.len() == 0,
    {
        PersistedAiSettings {
            project_root: String::new(),
            duckdb_path: String::new(),
            wiki_path: String::new(),
            model: String::new(),
            effort: String::new(),
        }
    }
}

} // verus!
