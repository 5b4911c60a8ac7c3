//! The panel tree of a timeline window (node panels, their kind panels and
//! the slots of those) and its slugs: every node, kind and slot panel gets
//! the slug `node`, `node_kind` or `node_kind_slot`, built from the slugs of
//! the short names on its path; a slug names the entry it was built for.

use vstd::prelude::*;
use crate::entry::{EntryID, EntryIndex};
use crate::highlight::{slug, slug_part};
use crate::text::{chars_of, string_of, append_chars, chars_eq, contains, contains_chars, lowercase,
    to_lowercase_chars};
use crate::order::{dedup_texts, sort_texts, strictly_sorted, text_order};

verus! {

/// A slot of a kind panel.
#[derive(Clone, Debug)]
pub struct SlotPanel {
    pub short_name: String,
    pub entry_id: EntryID,
    pub expanded: bool,
}

/// A kind panel (CPU, GPU, Utility, ...) of a node, with its slots.
#[derive(Clone, Debug)]
pub struct KindPanel {
    pub short_name: String,
    pub entry_id: EntryID,
    pub expanded: bool,
    pub slots: Vec<SlotPanel>,
}

/// A node panel of a window, with its kind panels.
#[derive(Clone, Debug)]
pub struct NodePanel {
    pub short_name: String,
    pub entry_id: EntryID,
    pub expanded: bool,
    pub slots: Vec<KindPanel>,
}

/// A slug and the path of the entry it names.
pub type SlugPair = (Seq<char>, Seq<EntryIndex>);

/// The slug of a child panel below the panel whose slug is `prefix`.
pub open spec fn child_slug(prefix: Seq<char>, name: Seq<char>) -> Seq<char> {
    prefix + seq!['_'] + slug(name)
}

/// The pairs of the slots below a kind panel with slug `prefix`, in order.
pub open spec fn slot_pairs(prefix: Seq<char>, slots: Seq<SlotPanel>) -> Seq<SlugPair>
    decreases slots.len(),
{
    if slots.len() == 0 {
        seq![]
    } else {
        slot_pairs(prefix, slots.drop_last()).push(
            (child_slug(prefix, slots.last().short_name@), slots.last().entry_id@),
        )
    }
}

/// The pairs of one kind panel below a node with slug `prefix`: the kind
/// panel itself, then its slots.
pub open spec fn kind_pairs(prefix: Seq<char>, k: KindPanel) -> Seq<SlugPair> {
    let s = child_slug(prefix, k.short_name@);
    seq![(s, k.entry_id@)] + slot_pairs(s, k.slots@)
}

/// The pairs of the kind panels below a node with slug `prefix`, in order.
pub open spec fn kinds_pairs(prefix: Seq<char>, kinds: Seq<KindPanel>) -> Seq<SlugPair>
    decreases kinds.len(),
{
    if kinds.len() == 0 {
        seq![]
    } else {
        kinds_pairs(prefix, kinds.drop_last()) + kind_pairs(prefix, kinds.last())
    }
}

/// The pairs of one node panel: the node itself, then each kind panel with
/// its slots.
pub open spec fn node_pairs(n: NodePanel) -> Seq<SlugPair> {
    let s = slug(n.short_name@);
    seq![(s, n.entry_id@)] + kinds_pairs(s, n.slots@)
}

/// The pairs of a window's node panels, in the order of a depth-first walk.
pub open spec fn nodes_pairs(nodes: Seq<NodePanel>) -> Seq<SlugPair>
    decreases nodes.len(),
{
    if nodes.len() == 0 {
        seq![]
    } else {
        nodes_pairs(nodes.drop_last()) + node_pairs(nodes.last())
    }
}

/// The pairs held by a list of `(slug, entry)` values.
pub open spec fn pairs_view(v: Seq<(String, EntryID)>) -> Seq<SlugPair> {
    v.map_values(|p: (String, EntryID)| (p.0@, p.1@))
}

/// The entry that a slug names in a list of pairs: the entry of its last
/// pair with that slug, as when the pairs are inserted one by one into a map.
pub open spec fn slug_lookup(pairs: Seq<SlugPair>, wanted: Seq<char>) -> Option<Seq<EntryIndex>>
    decreases pairs.len(),
{
    if pairs.len() == 0 {
        None
    } else if pairs.last().0 == wanted {
        Some(pairs.last().1)
    } else {
        slug_lookup(pairs.drop_last(), wanted)
    }
}

/// The slug of a child panel (see [`child_slug`]).
fn child_slug_of(prefix: &Vec<char>, name: &str) -> (r: Vec<char>)
    ensures
        r@ == child_slug(prefix@, name@),
{
    let mut r = prefix.clone();
    r.push('_');
    let part = slug_part(name);
    let pc = chars_of(part.as_str());
    append_chars(&mut r, pc.as_slice());
    r
}

/// Appends the pairs of the slots below a kind panel with slug `prefix`.
fn push_slot_pairs(out: &mut Vec<(String, EntryID)>, prefix: &Vec<char>, slots: &Vec<SlotPanel>)
    ensures
        pairs_view(final(out)@) == pairs_view(old(out)@) + slot_pairs(prefix@, slots@),
{
    let ghost start = pairs_view(out@);
    let mut i: usize = 0;
    while i < slots.len()
        invariant
            i <= slots@.len(),
            pairs_view(out@) == start + slot_pairs(prefix@, slots@.take(i as int)),
        decreases slots@.len() - i,
    {
        let s = child_slug_of(prefix, slots[i].short_name.as_str());
        let ghost before = out@;
        out.push((string_of(s.as_slice()), slots[i].entry_id.copied()));
        proof {
            assert(slots@.take(i as int + 1).drop_last() =~= slots@.take(i as int));
            assert(pairs_view(out@) =~= pairs_view(before).push(pairs_view(out@).last()));
        }
        i = i + 1;
    }
    assert(slots@.take(slots@.len() as int) =~= slots@);
}

/// Appends the pairs of the kind panels below a node with slug `prefix`.
fn push_kinds_pairs(out: &mut Vec<(String, EntryID)>, prefix: &Vec<char>, kinds: &Vec<KindPanel>)
    ensures
        pairs_view(final(out)@) == pairs_view(old(out)@) + kinds_pairs(prefix@, kinds@),
{
    let ghost start = pairs_view(out@);
    let mut i: usize = 0;
    while i < kinds.len()
        invariant
            i <= kinds@.len(),
            pairs_view(out@) == start + kinds_pairs(prefix@, kinds@.take(i as int)),
        decreases kinds@.len() - i,
    {
        let k = &kinds[i];
        let s = child_slug_of(prefix, k.short_name.as_str());
        let ghost before = pairs_view(out@);
        out.push((string_of(s.as_slice()), k.entry_id.copied()));
        push_slot_pairs(out, &s, &k.slots);
        proof {
            assert(kinds@.take(i as int + 1).drop_last() =~= kinds@.take(i as int));
            assert(kinds@.take(i as int + 1).last() == *k);
            assert(pairs_view(out@) =~= before + kind_pairs(prefix@, *k));
        }
        i = i + 1;
    }
    assert(kinds@.take(kinds@.len() as int) =~= kinds@);
}

/// The `(slug, entry)` pairs of a window's panel tree, in the order of a
/// depth-first walk: each node, then each of its kind panels followed by
/// that panel's slots.
pub fn build_slug_map(nodes: &Vec<NodePanel>) -> (r: Vec<(String, EntryID)>)
    ensures
        pairs_view(r@) == nodes_pairs(nodes@),
{
    let mut out: Vec<(String, EntryID)> = Vec::new();
    let mut i: usize = 0;
    while i < nodes.len()
        invariant
            i <= nodes@.len(),
            pairs_view(out@) == nodes_pairs(nodes@.take(i as int)),
        decreases nodes@.len() - i,
    {
        let n = &nodes[i];
        let part = slug_part(n.short_name.as_str());
        let s = chars_of(part.as_str());
        let ghost before = pairs_view(out@);
        out.push((string_of(s.as_slice()), n.entry_id.copied()));
        push_kinds_pairs(&mut out, &s, &n.slots);
        proof {
            assert(nodes@.take(i as int + 1).drop_last() =~= nodes@.take(i as int));
            assert(nodes@.take(i as int + 1).last() == *n);
            assert(pairs_view(out@) =~= before + node_pairs(*n));
        }
        i = i + 1;
    }
    assert(nodes@.take(nodes@.len() as int) =~= nodes@);
    out
}

/// The entry that `wanted` names among `pairs`: that of the last pair with
/// that slug, or `None` where no pair has it.
pub fn lookup_slug(pairs: &Vec<(String, EntryID)>, wanted: &str) -> (r: Option<EntryID>)
    ensures
        (match r {
            Some(e) => slug_lookup(pairs_view(pairs@), wanted@) == Some(e@),
            None => slug_lookup(pairs_view(pairs@), wanted@) is None,
        }),
{
    let w = chars_of(wanted);
    let mut i: usize = pairs.len();
    assert(pairs_view(pairs@).take(i as int) =~= pairs_view(pairs@));
    while i > 0
        invariant
            i <= pairs@.len(),
            w@ == wanted@,
            slug_lookup(pairs_view(pairs@), wanted@)
                == slug_lookup(pairs_view(pairs@).take(i as int), wanted@),
        decreases i,
    {
        let ghost pv = pairs_view(pairs@).take(i as int);
        assert(pv.drop_last() =~= pairs_view(pairs@).take(i as int - 1));
        assert(pv.last() == (pairs@[i - 1].0@, pairs@[i - 1].1@));
        let name = chars_of(pairs[i - 1].0.as_str());
        if chars_eq(name.as_slice(), w.as_slice()) {
            return Some(pairs[i - 1].1.copied());
        }
        i = i - 1;
    }
    None
}

/// A slug that no later pair repeats names the entry of its pair.
pub proof fn lemma_last_slug_wins(pairs: Seq<SlugPair>, i: int)
    requires
        0 <= i < pairs.len(),
        forall|j: int| i < j < pairs.len() ==> #[trigger] pairs[j].0 != pairs[i].0,
    ensures
        slug_lookup(pairs, pairs[i].0) == Some(pairs[i].1),
    decreases pairs.len(),
{
    if i < pairs.len() - 1 {
        assert(pairs[pairs.len() - 1].0 != pairs[i].0);
        lemma_last_slug_wins(pairs.drop_last(), i);
    }
}

/// A slug that no pair carries names no entry.
pub proof fn lemma_unknown_slug(pairs: Seq<SlugPair>, wanted: Seq<char>)
    requires
        forall|j: int| 0 <= j < pairs.len() ==> #[trigger] pairs[j].0 != wanted,
    ensures
        slug_lookup(pairs, wanted) is None,
    decreases pairs.len(),
{
    if pairs.len() > 0 {
        assert(pairs[pairs.len() - 1].0 != wanted);
        lemma_unknown_slug(pairs.drop_last(), wanted);
    }
}


// ───────────────────────────── kind filter ─────────────────────────────

proof fn lemma_push_contains(s: Seq<Seq<char>>, a: Seq<char>, x: Seq<char>)
    ensures
        s.push(a).contains(x) <==> (s.contains(x) || x == a),
{
    if s.push(a).contains(x) {
        let w = choose|w: int| 0 <= w < s.push(a).len() && #[trigger] s.push(a)[w] == x;
        if w < s.len() {
            assert(s[w] == x);
        }
    }
    if s.contains(x) {
        let w = choose|w: int| 0 <= w < s.len() && #[trigger] s[w] == x;
        assert(s.push(a)[w] == x);
    }
    if x == a {
        assert(s.push(a)[s.len() as int] == a);
    }
}

/// The texts of a list of strings.
pub open spec fn string_views(v: Seq<String>) -> Seq<Seq<char>> {
    v.map_values(|s: String| s@)
}

/// Kind `k` answers request `req`: the lower-cased names are equal, or the
/// lower-cased request occurs in the lower-cased kind.
pub open spec fn kind_answers(k: Seq<char>, req: Seq<char>) -> bool {
    lowercase(k) == lowercase(req) || contains(lowercase(k), lowercase(req))
}

/// Kind `k` answers one of the requests.
pub open spec fn kind_requested(k: Seq<char>, requested: Seq<Seq<char>>) -> bool {
    exists|j: int| 0 <= j < requested.len() && kind_answers(k, #[trigger] requested[j])
}

/// Replaces the kind filter by the known kinds that answer one of the
/// requested names, in increasing order and each once; returns how many
/// kinds it holds (0 where nothing matched).
pub fn set_kind_filter(filter: &mut Vec<String>, kinds: &Vec<String>, requested: &Vec<String>) -> (n: usize)
    ensures
        n == final(filter)@.len(),
        strictly_sorted(string_views(final(filter)@)),
        forall|x: Seq<char>| #[trigger] string_views(final(filter)@).contains(x) <==>
            (string_views(kinds@).contains(x) && kind_requested(x, string_views(requested@))),
{
    let ghost reqs = string_views(requested@);
    let ghost kv = string_views(kinds@);
    let mut lowered: Vec<Vec<char>> = Vec::new();
    let mut q: usize = 0;
    while q < requested.len()
        invariant
            q <= requested@.len(),
            reqs == string_views(requested@),
            lowered@.len() == q,
            forall|j: int| 0 <= j < q ==> #[trigger] lowered@[j]@ == lowercase(reqs[j]),
        decreases requested@.len() - q,
    {
        let rc = chars_of(requested[q].as_str());
        lowered.push(to_lowercase_chars(rc.as_slice()));
        q = q + 1;
    }
    let mut picked: Vec<Vec<char>> = Vec::new();
    let mut i: usize = 0;
    while i < kinds.len()
        invariant
            i <= kinds@.len(),
            kv == string_views(kinds@),
            reqs == string_views(requested@),
            lowered@.len() == reqs.len(),
            forall|j: int| 0 <= j < reqs.len() ==> #[trigger] lowered@[j]@ == lowercase(reqs[j]),
            forall|x: Seq<char>| #[trigger] crate::text::views(picked@).contains(x) <==>
                (kv.take(i as int).contains(x) && kind_requested(x, reqs)),
        decreases kinds@.len() - i,
    {
        let kc = chars_of(kinds[i].as_str());
        let hay = to_lowercase_chars(kc.as_slice());
        let mut hit = false;
        let mut j: usize = 0;
        while j < lowered.len()
            invariant
                j <= lowered@.len(),
                lowered@.len() == reqs.len(),
                forall|t: int| 0 <= t < reqs.len() ==> #[trigger] lowered@[t]@ == lowercase(reqs[t]),
                hay@ == lowercase(kc@),
                hit == exists|t: int| 0 <= t < j && kind_answers(kc@, #[trigger] reqs[t]),
            decreases lowered@.len() - j,
        {
            let needle = &lowered[j];
            if chars_eq(hay.as_slice(), needle.as_slice()) || contains_chars(hay.as_slice(), needle.as_slice()) {
                hit = true;
            }
            proof {
                assert(kind_answers(kc@, reqs[j as int]) == (hay@ == lowered@[j as int]@
                    || contains(hay@, lowered@[j as int]@)));
            }
            j = j + 1;
        }
        let ghost before = crate::text::views(picked@);
        assert(kv[i as int] == kc@);
        assert(hit == kind_requested(kc@, reqs));
        if hit {
            picked.push(kc);
            assert(crate::text::views(picked@) =~= before.push(kc@));
        }
        assert(kv.take(i as int + 1) =~= kv.take(i as int).push(kc@));
        assert forall|x: Seq<char>| #[trigger] crate::text::views(picked@).contains(x) <==>
            (kv.take(i as int + 1).contains(x) && kind_requested(x, reqs)) by {
            assert(before.contains(x) <==> (kv.take(i as int).contains(x) && kind_requested(x, reqs)));
            lemma_push_contains(kv.take(i as int), kc@, x);
            if hit {
                lemma_push_contains(before, kc@, x);
            }
        }
        i = i + 1;
    }
    assert(kv.take(kinds@.len() as int) =~= kv);
    let sorted = sort_texts(&picked);
    let set = dedup_texts(&sorted);
    proof {
        let pv = crate::text::views(picked@);
        let sv = pv.sort_by(text_order());
        crate::order::lemma_text_order_total();
        pv.lemma_sort_by_ensures(text_order());
        crate::order::lemma_dedup_strictly_sorted(sv);
        crate::order::lemma_dedup_same_elements(sv);
        assert forall|x: Seq<char>| #[trigger] sv.contains(x) <==> pv.contains(x) by {
            if pv.contains(x) {
                assert(pv.to_multiset().count(x) > 0) by {
                    pv.to_multiset_ensures();
                }
                sv.to_multiset_ensures();
            }
            if sv.contains(x) {
                assert(sv.to_multiset().count(x) > 0) by {
                    sv.to_multiset_ensures();
                }
                pv.to_multiset_ensures();
            }
        }
    }
    let mut out: Vec<String> = Vec::new();
    let mut k: usize = 0;
    while k < set.len()
        invariant
            k <= set@.len(),
            string_views(out@) == crate::text::views(set@).take(k as int),
        decreases set@.len() - k,
    {
        let ghost before = string_views(out@);
        out.push(string_of(set[k].as_slice()));
        assert(string_views(out@) =~= before.push(set@[k as int]@));
        assert(crate::text::views(set@).take(k as int + 1) =~= crate::text::views(set@).take(k as int).push(set@[k as int]@));
        k = k + 1;
    }
    assert(crate::text::views(set@).take(set@.len() as int) =~= crate::text::views(set@));
    *filter = out;
    filter.len()
}

// ───────────────────────────── expanding kinds ─────────────────────────────

/// A kind panel's label answers `needle`: equal to it, or holding it.
pub open spec fn label_matches(label: Seq<char>, needle: Seq<char>) -> bool {
    label == needle || contains(label, needle)
}

/// A kind panel after expanding (or collapsing) the kinds that answer
/// `needle`.
pub open spec fn kind_after(k: KindPanel, needle: Seq<char>, expanded: bool) -> KindPanel {
    KindPanel {
        short_name: k.short_name,
        entry_id: k.entry_id,
        expanded: if label_matches(k.short_name@, needle) { expanded } else { k.expanded },
        slots: k.slots,
    }
}

/// Expands or collapses every kind panel whose label is, or holds, the
/// lower-cased `kind` (so `gpu` reaches both `gpudev` and `gpuhost`);
/// nothing else changes.
pub fn set_kind_expanded(nodes: &mut Vec<NodePanel>, kind: &str, expanded: bool)
    ensures
        final(nodes)@.len() == old(nodes)@.len(),
        forall|i: int| 0 <= i < old(nodes)@.len() ==> {
            let f = #[trigger] final(nodes)@[i];
            let o = old(nodes)@[i];
            &&& f.short_name == o.short_name
            &&& f.entry_id == o.entry_id
            &&& f.expanded == o.expanded
            &&& f.slots@.len() == o.slots@.len()
            &&& forall|j: int| 0 <= j < o.slots@.len() ==>
                #[trigger] f.slots@[j] == kind_after(o.slots@[j], lowercase(kind@), expanded)
        },
{
    let kc = chars_of(kind);
    let needle = to_lowercase_chars(kc.as_slice());
    let ghost start = nodes@;
    let mut i: usize = 0;
    while i < nodes.len()
        invariant
            i <= nodes@.len(),
            nodes@.len() == start.len(),
            needle@ == lowercase(kind@),
            forall|a: int| i <= a < start.len() ==> #[trigger] nodes@[a] == start[a],
            forall|a: int| 0 <= a < i ==> {
                let f = #[trigger] nodes@[a];
                let o = start[a];
                &&& f.short_name == o.short_name
                &&& f.entry_id == o.entry_id
                &&& f.expanded == o.expanded
                &&& f.slots@.len() == o.slots@.len()
                &&& forall|j: int| 0 <= j < o.slots@.len() ==>
                    #[trigger] f.slots@[j] == kind_after(o.slots@[j], needle@, expanded)
            },
        decreases start.len() - i,
    {
        let mut j: usize = 0;
        let m: usize = nodes[i].slots.len();
        while j < m
            invariant
                i < nodes@.len(),
                nodes@.len() == start.len(),
                j <= m,
                m == start[i as int].slots@.len(),
                needle@ == lowercase(kind@),
                forall|a: int| i < a < start.len() ==> #[trigger] nodes@[a] == start[a],
                forall|a: int| 0 <= a < i ==> {
                    let f = #[trigger] nodes@[a];
                    let o = start[a];
                    &&& f.short_name == o.short_name
                    &&& f.entry_id == o.entry_id
                    &&& f.expanded == o.expanded
                    &&& f.slots@.len() == o.slots@.len()
                    &&& forall|j: int| 0 <= j < o.slots@.len() ==>
                        #[trigger] f.slots@[j] == kind_after(o.slots@[j], needle@, expanded)
                },
                nodes@[i as int].short_name == start[i as int].short_name,
                nodes@[i as int].entry_id == start[i as int].entry_id,
                nodes@[i as int].expanded == start[i as int].expanded,
                nodes@[i as int].slots@.len() == m,
                forall|b: int| 0 <= b < j ==> #[trigger] nodes@[i as int].slots@[b]
                    == kind_after(start[i as int].slots@[b], needle@, expanded),
                forall|b: int| j <= b < m ==> #[trigger] nodes@[i as int].slots@[b]
                    == start[i as int].slots@[b],
            decreases m - j,
        {
            let label = chars_of(nodes[i].slots[j].short_name.as_str());
            let hit = chars_eq(label.as_slice(), needle.as_slice())
                || contains_chars(label.as_slice(), needle.as_slice());
            if hit && nodes[i].slots[j].expanded != expanded {
                nodes[i].slots[j].expanded = expanded;
            }
            j = j + 1;
        }
        i = i + 1;
    }
}

// ───────────────────────────── visibility ─────────────────────────────

/// Whether the texts of `v` include `x`.
fn strings_contain(v: &Vec<String>, x: &[char]) -> (r: bool)
    ensures
        r == string_views(v@).contains(x@),
{
    let mut i: usize = 0;
    while i < v.len()
        invariant
            i <= v@.len(),
            forall|j: int| 0 <= j < i ==> #[trigger] string_views(v@)[j] != x@,
        decreases v@.len() - i,
    {
        let c = chars_of(v[i].as_str());
        if chars_eq(c.as_slice(), x) {
            assert(string_views(v@)[i as int] == x@);
            return true;
        }
        i = i + 1;
    }
    false
}

/// Whether a row passes the window's node and kind filters: a node panel
/// (depth 1) when its slot index lies in `[min_node, max_node]`, a kind
/// panel (depth 2) when the kind filter is empty or holds its label, any
/// deeper row always.
pub fn is_slot_visible(entry_id: &EntryID, label: &str, min_node: u64, max_node: u64, kind_filter: &Vec<String>) -> (r: bool)
    requires
        entry_id@.len() == 1 ==> entry_id@.last() is Slot,
    ensures
        r == (if entry_id@.len() == 1 {
            min_node <= entry_id@.last()->Slot_0 <= max_node
        } else if entry_id@.len() == 2 {
            kind_filter@.len() == 0 || string_views(kind_filter@).contains(label@)
        } else {
            true
        }),
{
    let level: u64 = entry_id.level();
    if level == 1 {
        match entry_id.last_slot_index() {
            Some(index) => index >= min_node && index <= max_node,
            None => false,
        }
    } else if level == 2 {
        let lc = chars_of(label);
        kind_filter.len() == 0 || strings_contain(kind_filter, lc.as_slice())
    } else {
        true
    }
}

/// The slot index of a node panel, 0 where its path does not end in a slot.
pub open spec fn node_index(n: NodePanel) -> u64 {
    if n.entry_id@.len() > 0 && n.entry_id@.last() is Slot {
        n.entry_id@.last()->Slot_0
    } else {
        0
    }
}

/// A node panel is on screen: inside the node range and expanded.
pub open spec fn node_shown(n: NodePanel, min_node: u64, max_node: u64) -> bool {
    min_node <= node_index(n) <= max_node && n.expanded
}

/// A kind panel is on screen: let through by the kind filter and expanded.
pub open spec fn kind_shown(k: KindPanel, filter: Seq<Seq<char>>) -> bool {
    (filter.len() == 0 || filter.contains(k.short_name@)) && k.expanded
}

/// The slugs of the slots below a kind panel with slug `prefix`.
pub open spec fn slot_slugs(prefix: Seq<char>, slots: Seq<SlotPanel>) -> Seq<Seq<char>> {
    slot_pairs(prefix, slots).map_values(|p: SlugPair| p.0)
}

/// The slugs of the on-screen slots below a node with slug `prefix`.
pub open spec fn visible_kind_slugs(prefix: Seq<char>, kinds: Seq<KindPanel>, filter: Seq<Seq<char>>) -> Seq<Seq<char>>
    decreases kinds.len(),
{
    if kinds.len() == 0 {
        seq![]
    } else {
        let k = kinds.last();
        visible_kind_slugs(prefix, kinds.drop_last(), filter) + if kind_shown(k, filter) {
            slot_slugs(child_slug(prefix, k.short_name@), k.slots@)
        } else {
            seq![]
        }
    }
}

/// The slugs of the on-screen slots of a window, top to bottom.
pub open spec fn visible_slugs(nodes: Seq<NodePanel>, min_node: u64, max_node: u64, filter: Seq<Seq<char>>) -> Seq<Seq<char>>
    decreases nodes.len(),
{
    if nodes.len() == 0 {
        seq![]
    } else {
        let n = nodes.last();
        visible_slugs(nodes.drop_last(), min_node, max_node, filter) + if node_shown(n, min_node, max_node) {
            visible_kind_slugs(slug(n.short_name@), n.slots@, filter)
        } else {
            seq![]
        }
    }
}

/// Appends the slugs of the slots below a kind panel with slug `prefix`.
fn push_slot_slugs(out: &mut Vec<String>, prefix: &Vec<char>, slots: &Vec<SlotPanel>)
    ensures
        string_views(final(out)@) == string_views(old(out)@) + slot_slugs(prefix@, slots@),
{
    let ghost start = string_views(out@);
    let mut i: usize = 0;
    while i < slots.len()
        invariant
            i <= slots@.len(),
            string_views(out@) == start + slot_slugs(prefix@, slots@.take(i as int)),
        decreases slots@.len() - i,
    {
        let s = child_slug_of(prefix, slots[i].short_name.as_str());
        let ghost before = string_views(out@);
        out.push(string_of(s.as_slice()));
        proof {
            let t = slots@.take(i as int + 1);
            assert(t.drop_last() =~= slots@.take(i as int));
            assert(slot_pairs(prefix@, t) == slot_pairs(prefix@, t.drop_last()).push(
                (child_slug(prefix@, t.last().short_name@), t.last().entry_id@)));
            assert(slot_slugs(prefix@, t) =~= slot_slugs(prefix@, slots@.take(i as int)).push(s@));
            assert(string_views(out@) =~= before.push(s@));
        }
        i = i + 1;
    }
    assert(slots@.take(slots@.len() as int) =~= slots@);
}

/// The slugs of the slots on screen in a window, top to bottom: the slots
/// of each expanded kind panel that the kind filter lets through, below each
/// expanded node panel inside the node range.
pub fn visible_entry_slugs(nodes: &Vec<NodePanel>, min_node: u64, max_node: u64, kind_filter: &Vec<String>) -> (r: Vec<String>)
    ensures
        string_views(r@) == visible_slugs(nodes@, min_node, max_node, string_views(kind_filter@)),
{
    let ghost fv = string_views(kind_filter@);
    let mut out: Vec<String> = Vec::new();
    let mut i: usize = 0;
    while i < nodes.len()
        invariant
            i <= nodes@.len(),
            fv == string_views(kind_filter@),
            string_views(out@) == visible_slugs(nodes@.take(i as int), min_node, max_node, fv),
        decreases nodes@.len() - i,
    {
        let n = &nodes[i];
        let ghost before = string_views(out@);
        let idx: u64 = match n.entry_id.last_slot_index() {
            Some(x) => x,
            None => 0,
        };
        if idx >= min_node && idx <= max_node && n.expanded {
            let part = slug_part(n.short_name.as_str());
            let ns = chars_of(part.as_str());
            let mut j: usize = 0;
            while j < n.slots.len()
                invariant
                    j <= n.slots@.len(),
                    ns@ == slug(n.short_name@),
                    fv == string_views(kind_filter@),
                    string_views(out@) == before + visible_kind_slugs(ns@, n.slots@.take(j as int), fv),
                decreases n.slots@.len() - j,
            {
                let k = &n.slots[j];
                let ghost mid = string_views(out@);
                let kc = chars_of(k.short_name.as_str());
                let pass = (kind_filter.len() == 0 || strings_contain(kind_filter, kc.as_slice())) && k.expanded;
                if pass {
                    let ks = child_slug_of(&ns, k.short_name.as_str());
                    push_slot_slugs(&mut out, &ks, &k.slots);
                }
                proof {
                    let t = n.slots@.take(j as int + 1);
                    assert(t.drop_last() =~= n.slots@.take(j as int));
                    assert(t.last() == *k);
                    assert(pass == kind_shown(*k, fv));
                    if pass {
                        assert(string_views(out@) =~= before + visible_kind_slugs(ns@, t, fv));
                    } else {
                        assert(string_views(out@) =~= before + visible_kind_slugs(ns@, t, fv));
                    }
                }
                j = j + 1;
            }
            assert(n.slots@.take(n.slots@.len() as int) =~= n.slots@);
        }
        proof {
            let t = nodes@.take(i as int + 1);
            assert(t.drop_last() =~= nodes@.take(i as int));
            assert(t.last() == *n);
            assert(idx == node_index(*n));
            assert(string_views(out@) =~= visible_slugs(t, min_node, max_node, fv));
        }
        i = i + 1;
    }
    assert(nodes@.take(nodes@.len() as int) =~= nodes@);
    out
}

// ───────────────────────────── expand by kind ─────────────────────────────

/// A kind panel after the Expand (or Collapse) button of kind `lowered`:
/// a panel labelled exactly `lowered` takes the expansion `expand`.
pub open spec fn kind_after_button(k: KindPanel, lowered: Seq<char>, expand: bool) -> KindPanel {
    KindPanel {
        short_name: k.short_name,
        entry_id: k.entry_id,
        expanded: if k.short_name@ == lowered { expand } else { k.expanded },
        slots: k.slots,
    }
}

/// The Expand / Collapse by kind buttons: every kind panel whose label is
/// the lower-cased `kind` gets expanded (or collapsed); nothing else
/// changes.
pub fn expand_by_kind(nodes: &mut Vec<NodePanel>, kind: &str, expand: bool)
    ensures
        final(nodes)@.len() == old(nodes)@.len(),
        forall|i: int| 0 <= i < old(nodes)@.len() ==> {
            let f = #[trigger] final(nodes)@[i];
            let o = old(nodes)@[i];
            &&& f.short_name == o.short_name
            &&& f.entry_id == o.entry_id
            &&& f.expanded == o.expanded
            &&& f.slots@.len() == o.slots@.len()
            &&& forall|j: int| 0 <= j < o.slots@.len() ==>
                #[trigger] f.slots@[j] == kind_after_button(o.slots@[j], lowercase(kind@), expand)
        },
{
    let kc = chars_of(kind);
    let label = to_lowercase_chars(kc.as_slice());
    let ghost start = nodes@;
    let mut i: usize = 0;
    while i < nodes.len()
        invariant
            i <= nodes@.len(),
            nodes@.len() == start.len(),
            label@ == lowercase(kind@),
            forall|a: int| i <= a < start.len() ==> #[trigger] nodes@[a] == start[a],
            forall|a: int| 0 <= a < i ==> {
                let f = #[trigger] nodes@[a];
                let o = start[a];
                &&& f.short_name == o.short_name
                &&& f.entry_id == o.entry_id
                &&& f.expanded == o.expanded
                &&& f.slots@.len() == o.slots@.len()
                &&& forall|j: int| 0 <= j < o.slots@.len() ==>
                    #[trigger] f.slots@[j] == kind_after_button(o.slots@[j], label@, expand)
            },
        decreases start.len() - i,
    {
        let mut j: usize = 0;
        let m: usize = nodes[i].slots.len();
        while j < m
            invariant
                i < nodes@.len(),
                nodes@.len() == start.len(),
                j <= m,
                m == start[i as int].slots@.len(),
                label@ == lowercase(kind@),
                forall|a: int| i < a < start.len() ==> #[trigger] nodes@[a] == start[a],
                forall|a: int| 0 <= a < i ==> {
                    let f = #[trigger] nodes@[a];
                    let o = start[a];
                    &&& f.short_name == o.short_name
                    &&& f.entry_id == o.entry_id
                    &&& f.expanded == o.expanded
                    &&& f.slots@.len() == o.slots@.len()
                    &&& forall|b: int| 0 <= b < o.slots@.len() ==>
                        #[trigger] f.slots@[b] == kind_after_button(o.slots@[b], label@, expand)
                },
                nodes@[i as int].short_name == start[i as int].short_name,
                nodes@[i as int].entry_id == start[i as int].entry_id,
                nodes@[i as int].expanded == start[i as int].expanded,
                nodes@[i as int].slots@.len() == m,
                forall|b: int| 0 <= b < j ==> #[trigger] nodes@[i as int].slots@[b]
                    == kind_after_button(start[i as int].slots@[b], label@, expand),
                forall|b: int| j <= b < m ==> #[trigger] nodes@[i as int].slots@[b]
                    == start[i as int].slots@[b],
            decreases m - j,
        {
            let name = chars_of(nodes[i].slots[j].short_name.as_str());
            if nodes[i].slots[j].expanded != expand && chars_eq(name.as_slice(), label.as_slice()) {
                nodes[i].slots[j].expanded = expand;
            }
            j = j + 1;
        }
        i = i + 1;
    }
}

} // verus!
