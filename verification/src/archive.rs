//! Archive writing: the entry tree's leaves in walk order, the size of a
//! slot-meta tile (for deciding whether to subdivide it), the writer's
//! settings, and the on-disk layout of a file data source.

use vstd::prelude::*;
use crate::entry::{EntryID, EntryIndex};
use crate::text::{chars_of, push_chars, push_str, string_of};
use crate::timestamp::{div_trunc, fits_i64, span, Interval, Timestamp};

verus! {

broadcast use vstd::string::group_string_axioms;

/// The shape of the entry tree: panels hold an optional summary and their
/// slots; slots and summaries are leaves.
pub enum EntryInfo {
    Panel { summary: Option<Box<EntryInfo>>, slots: Vec<EntryInfo> },
    Slot,
    Summary,
}

/// The leaves below `info` (whose path is `id`), in walk order: a panel's
/// summary first, then its slots in order.
pub open spec fn entry_list(info: EntryInfo, id: Seq<EntryIndex>) -> Seq<Seq<EntryIndex>>
    decreases info, 0nat,
{
    match info {
        EntryInfo::Panel { summary, slots } => {
            let s = match summary {
                Some(b) => entry_list(*b, id.push(EntryIndex::Summary)),
                None => seq![],
            };
            s + slot_lists(slots@, id, slots@.len() as int)
        },
        EntryInfo::Slot => seq![id],
        EntryInfo::Summary => seq![id],
    }
}

/// The leaves below the first `n` slots of a panel at `id`.
pub open spec fn slot_lists(slots: Seq<EntryInfo>, id: Seq<EntryIndex>, n: int) -> Seq<Seq<EntryIndex>>
    decreases slots, n,
{
    if n <= 0 || n > slots.len() {
        seq![]
    } else {
        slot_lists(slots, id, n - 1) + entry_list(slots[n - 1], id.push(EntryIndex::Slot((n - 1) as u64)))
    }
}

/// The paths of a list of entry ids.
pub open spec fn id_views(v: Seq<EntryID>) -> Seq<Seq<EntryIndex>> {
    v.map_values(|e: EntryID| e@)
}

fn walk(info: &EntryInfo, entry_id: EntryID, result: &mut Vec<EntryID>)
    ensures
        id_views(final(result)@) == id_views(old(result)@) + entry_list(*info, entry_id@),
    decreases info,
{
    match info {
        EntryInfo::Panel { summary, slots } => {
            let ghost start = id_views(result@);
            match summary {
                Some(s) => {
                    walk(s, entry_id.summary(), result);
                },
                None => {
                    assert(start + Seq::<Seq<EntryIndex>>::empty() =~= start);
                },
            }
            let ghost mid = id_views(result@);
            let mut i: usize = 0;
            assert(mid + slot_lists(slots@, entry_id@, 0) =~= mid);
            while i < slots.len()
                invariant
                    i <= slots@.len(),
                    *info == (EntryInfo::Panel { summary: *summary, slots: *slots }),
                    id_views(result@) == mid + slot_lists(slots@, entry_id@, i as int),
                decreases slots@.len() - i,
            {
                assert(i < u64::MAX);
                assert((*info)->slots == *slots);
                assert(decreases_to!(*info => (*info)->slots));
                assert(decreases_to!((*info)->slots => (*info)->slots@));
                assert(decreases_to!((*info)->slots@ => (*info)->slots@[i as int]));
                assert(decreases_to!(*info => slots@[i as int]));
                walk(&slots[i], entry_id.child(i as u64), result);
                assert(id_views(result@) =~= mid + slot_lists(slots@, entry_id@, i + 1));
                i = i + 1;
            }
            assert(id_views(result@) =~= start + entry_list(*info, entry_id@));
        },
        EntryInfo::Slot => {
            let ghost before = id_views(result@);
            result.push(entry_id);
            assert(id_views(result@) =~= before + entry_list(*info, entry_id@));
        },
        EntryInfo::Summary => {
            let ghost before = id_views(result@);
            result.push(entry_id);
            assert(id_views(result@) =~= before + entry_list(*info, entry_id@));
        },
    }
}

/// Every leaf entry (slot or summary) of the tree, in walk order.
pub fn walk_entry_list(info: &EntryInfo) -> (r: Vec<EntryID>)
    ensures
        id_views(r@) == entry_list(*info, Seq::<EntryIndex>::empty()),
{
    let mut result: Vec<EntryID> = Vec::new();
    walk(info, EntryID::root(), &mut result);
    assert(id_views(Seq::<EntryID>::empty()) + entry_list(*info, Seq::<EntryIndex>::empty())
        =~= entry_list(*info, Seq::<EntryIndex>::empty()));
    result
}

// ───────────────────────────── tile sizes ─────────────────────────────

/// The value of an item field, as far as tile sizing reads it.
pub enum FieldValue {
    U64(u64),
    Other,
}

/// One item of a slot-meta tile: its `(field id, value)` pairs.
pub struct MetaItem {
    pub fields: Vec<(u64, FieldValue)>,
}

/// The value of the first field with id `id`.
pub open spec fn first_field(fields: Seq<(u64, FieldValue)>, id: u64) -> Option<FieldValue>
    decreases fields.len(),
{
    if fields.len() == 0 {
        None
    } else if fields[0].0 == id {
        Some(fields[0].1)
    } else {
        first_field(fields.drop_first(), id)
    }
}

/// How many items an item stands for: its item-count field, or one when it
/// has none; `None` when that field is not a `u64`.
pub open spec fn item_weight(item: MetaItem, id: u64) -> Option<u64> {
    match first_field(item.fields@, id) {
        Some(FieldValue::U64(c)) => Some(c),
        Some(FieldValue::Other) => None,
        None => Some(1),
    }
}

/// The weights of the items of `rows`, row by row.
pub open spec fn tile_weights(rows: Seq<Vec<MetaItem>>, id: u64) -> Seq<Option<u64>>
    decreases rows.len(),
{
    if rows.len() == 0 {
        seq![]
    } else {
        tile_weights(rows.drop_last(), id) + rows.last()@.map_values(|it: MetaItem| item_weight(it, id))
    }
}

/// The running total of the weights, stopping as soon as it exceeds `min`.
pub open spec fn size_scan(ws: Seq<Option<u64>>, min: int, acc: int) -> int
    decreases ws.len(),
{
    if ws.len() == 0 {
        acc
    } else {
        let a = acc + match ws[0] {
            Some(n) => n as int,
            None => 0,
        };
        if a > min {
            a
        } else {
            size_scan(ws.drop_first(), min, a)
        }
    }
}

/// Every weight the scan reads is a `u64` count and no running total
/// passes `u64::MAX`.
pub open spec fn scan_ok(ws: Seq<Option<u64>>, min: int, acc: int) -> bool
    decreases ws.len(),
{
    ws.len() == 0 || match ws[0] {
        Some(n) => acc + n <= u64::MAX && (acc + n > min || scan_ok(ws.drop_first(), min, acc + n)),
        None => false,
    }
}

fn field_weight(item: &MetaItem, id: u64) -> (r: Option<u64>)
    ensures
        r == item_weight(*item, id),
{
    let mut i: usize = 0;
    assert(item.fields@.skip(0) =~= item.fields@);
    while i < item.fields.len()
        invariant
            i <= item.fields@.len(),
            first_field(item.fields@, id) == first_field(item.fields@.skip(i as int), id),
        decreases item.fields@.len() - i,
    {
        assert(item.fields@.skip(i as int)[0] == item.fields@[i as int]);
        if item.fields[i].0 == id {
            return match &item.fields[i].1 {
                FieldValue::U64(c) => Some(*c),
                FieldValue::Other => None,
            };
        }
        assert(item.fields@.skip(i as int).drop_first() =~= item.fields@.skip(i + 1));
        i = i + 1;
    }
    Some(1)
}

/// The number of items a slot-meta tile holds, where an item with the
/// item-count field `num_items_field` stands for that many; counting stops
/// as soon as the total exceeds `min_tile_size` (the tile is then large
/// enough to subdivide).
pub fn compute_tile_size(rows: &Vec<Vec<MetaItem>>, num_items_field: u64, min_tile_size: u64) -> (r: u64)
    requires
        scan_ok(tile_weights(rows@, num_items_field), min_tile_size as int, 0),
    ensures
        r as int == size_scan(tile_weights(rows@, num_items_field), min_tile_size as int, 0),
{
    let ghost id = num_items_field;
    let mut ws: Vec<Option<u64>> = Vec::new();
    let mut r: usize = 0;
    assert(rows@.take(0) =~= Seq::<Vec<MetaItem>>::empty());
    while r < rows.len()
        invariant
            r <= rows@.len(),
            ws@ == tile_weights(rows@.take(r as int), id),
            id == num_items_field,
        decreases rows@.len() - r,
    {
        let row = &rows[r];
        let ghost before = ws@;
        let mut k: usize = 0;
        while k < row.len()
            invariant
                k <= row@.len(),
                ws@ == before + row@.take(k as int).map_values(|it: MetaItem| item_weight(it, id)),
                id == num_items_field,
            decreases row@.len() - k,
        {
            let w = field_weight(&row[k], num_items_field);
            ws.push(w);
            assert(row@.take(k + 1).map_values(|it: MetaItem| item_weight(it, id)) =~= row@.take(
                k as int,
            ).map_values(|it: MetaItem| item_weight(it, id)).push(w));
            k = k + 1;
        }
        assert(row@.take(row@.len() as int) =~= row@);
        assert(rows@.take(r + 1).drop_last() =~= rows@.take(r as int));
        assert(rows@.take(r + 1).last() == *row);
        r = r + 1;
    }
    assert(rows@.take(rows@.len() as int) =~= rows@);
    let ghost all = ws@;
    let mut total: u64 = 0;
    let mut i: usize = 0;
    assert(all.skip(0) =~= all);
    while i < ws.len()
        invariant
            i <= ws@.len(),
            all == ws@,
            all == tile_weights(rows@, num_items_field),
            total <= min_tile_size,
            scan_ok(all.skip(i as int), min_tile_size as int, total as int),
            size_scan(all, min_tile_size as int, 0) == size_scan(all.skip(i as int), min_tile_size as int, total as int),
        decreases ws@.len() - i,
    {
        assert(all.skip(i as int)[0] == ws@[i as int]);
        assert(all.skip(i as int).drop_first() =~= all.skip(i + 1));
        let n = match ws[i] {
            Some(n) => n,
            None => 0,
        };
        let ghost t0 = total as int;
        assert(ws@[i as int] == Some(n));
        assert(size_scan(all.skip(i as int), min_tile_size as int, t0) == (if t0 + n > min_tile_size {
            t0 + n
        } else {
            size_scan(all.skip(i + 1), min_tile_size as int, t0 + n)
        }));
        total = total + n;
        if total > min_tile_size {
            return total;
        }
        i = i + 1;
    }
    total
}

// ───────────────────────────── tile levels ─────────────────────────────

/// Part `i` of the `bf` parts the writer cuts tile `t` into:
/// `[start + span*i/bf, start + span*(i+1)/bf)`, the divisions rounding
/// toward zero.
pub open spec fn tile_part(t: Interval, bf: int, i: int) -> Interval {
    Interval {
        start: Timestamp((t.start.0 + div_trunc(span(t) * i, bf)) as i64),
        stop: Timestamp((t.start.0 + div_trunc(span(t) * (i + 1), bf)) as i64),
    }
}

/// The parts of tile `t` (none when `bf` is not positive).
pub open spec fn tile_parts(t: Interval, bf: int) -> Seq<Interval> {
    Seq::new(if bf > 0 { bf as nat } else { 0 }, |i: int| tile_part(t, bf, i))
}

/// The tiles that the first `n` tiles of the previous level turn into: a
/// tile at or under `min` items stays, a larger one is cut into parts.
pub open spec fn refine_upto(last: Seq<Interval>, sizes: Seq<u64>, min: u64, bf: int, n: int) -> Seq<Interval>
    decreases n,
{
    if n <= 0 {
        seq![]
    } else {
        refine_upto(last, sizes, min, bf, n - 1) + if sizes[n - 1] <= min {
            seq![last[n - 1]]
        } else {
            tile_parts(last[n - 1], bf)
        }
    }
}

/// The tiles of the next level: the whole profile first; then the previous
/// level's tiles, paired with their sizes, refined.
pub open spec fn next_level(root: Interval, last: Seq<Interval>, sizes: Seq<u64>, min: u64, bf: int) -> Seq<Interval> {
    if last.len() == 0 {
        seq![root]
    } else {
        refine_upto(last, sizes, min, bf, if last.len() <= sizes.len() { last.len() as int } else { sizes.len() as int })
    }
}

/// A tile that is cut can be cut without overflow.
pub open spec fn cuttable(t: Interval, bf: int) -> bool {
    fits_i64(span(t)) && fits_i64(span(t) * bf)
}

proof fn lemma_part_bounds(t: Interval, bf: int, i: int)
    requires
        bf > 0,
        0 <= i <= bf,
        cuttable(t, bf),
    ensures
        fits_i64(span(t) * i),
        fits_i64(t.start.0 + div_trunc(span(t) * i, bf)),
{
    let d = span(t);
    if d >= 0 {
        assert(0 <= d * i <= d * bf) by (nonlinear_arith)
            requires
                d >= 0,
                0 <= i <= bf,
        ;
        assert(0 <= (d * i) / bf <= d) by (nonlinear_arith)
            requires
                d >= 0,
                0 <= i <= bf,
                bf > 0,
                0 <= d * i <= d * bf,
        ;
    } else {
        assert(d * bf <= d * i <= 0) by (nonlinear_arith)
            requires
                d < 0,
                0 <= i <= bf,
        ;
        assert(0 <= (-(d * i)) / bf <= -d) by (nonlinear_arith)
            requires
                d < 0,
                0 <= i <= bf,
                bf > 0,
                d * bf <= d * i <= 0,
        ;
    }
}

/// The tiles of the next archive level. At the first level, the whole
/// profile; after that, each tile of the previous level (paired with its
/// size) stays when its size is at most `min_tile_size` and is otherwise
/// cut into `branch_factor` equal parts.
pub fn next_level_tiles(
    root: Interval,
    last_level: &Vec<Interval>,
    last_sizes: &Vec<u64>,
    min_tile_size: u64,
    branch_factor: u64,
) -> (r: Vec<Interval>)
    requires
        forall|k: int|
            0 <= k < last_level@.len() && k < last_sizes@.len() && last_sizes@[k] > min_tile_size ==> cuttable(
                #[trigger] last_level@[k],
                branch_factor as i64 as int,
            ),
    ensures
        r@ == next_level(root, last_level@, last_sizes@, min_tile_size, branch_factor as i64 as int),
{
    let bf: i64 = branch_factor as i64;
    let mut r: Vec<Interval> = Vec::new();
    if last_level.len() == 0 {
        r.push(root);
        assert(r@ =~= seq![root]);
        return r;
    }
    let n: usize = if last_level.len() <= last_sizes.len() { last_level.len() } else { last_sizes.len() };
    let mut k: usize = 0;
    while k < n
        invariant
            k <= n,
            n <= last_level@.len(),
            n <= last_sizes@.len(),
            bf as int == branch_factor as i64 as int,
            forall|q: int|
                0 <= q < last_level@.len() && q < last_sizes@.len() && last_sizes@[q] > min_tile_size ==> cuttable(
                    #[trigger] last_level@[q],
                    bf as int,
                ),
            r@ == refine_upto(last_level@, last_sizes@, min_tile_size, bf as int, k as int),
        decreases n - k,
    {
        let t = last_level[k];
        let ghost before = r@;
        if last_sizes[k] <= min_tile_size {
            r.push(t);
            assert(r@ =~= before + seq![t]);
        } else {
            let d: i64 = t.stop.0 - t.start.0;
            let mut i: i64 = 0;
            while i < bf
                invariant
                    0 <= i,
                    bf > 0 ==> i <= bf,
                    bf <= 0 ==> i == 0,
                    bf as int == branch_factor as i64 as int,
                    cuttable(t, bf as int),
                    d == span(t),
                    r@ == before + tile_parts(t, bf as int).take(i as int),
                decreases bf - i,
            {
                proof {
                    lemma_part_bounds(t, bf as int, i as int);
                    lemma_part_bounds(t, bf as int, i + 1);
                }
                let start = d * i / bf;
                let stop = d * (i + 1) / bf;
                let part = Interval::new(Timestamp(start), Timestamp(stop)).translate(t.start.0);
                proof {
                    assert(start as int == div_trunc(span(t) * i, bf as int));
                    assert(stop as int == div_trunc(span(t) * (i + 1), bf as int));
                    assert(part == tile_part(t, bf as int, i as int));
                }
                let ghost mid = r@;
                r.push(part);
                assert(tile_parts(t, bf as int).take(i + 1) =~= tile_parts(t, bf as int).take(i as int).push(part));
                assert(r@ =~= before + tile_parts(t, bf as int).take(i + 1));
                i = i + 1;
            }
            proof {
                if bf > 0 {
                    assert(tile_parts(t, bf as int).take(bf as int) =~= tile_parts(t, bf as int));
                } else {
                    assert(tile_parts(t, bf as int) =~= Seq::<Interval>::empty());
                    assert(tile_parts(t, bf as int).take(0) =~= tile_parts(t, bf as int));
                }
            }
        }
        assert(r@ == refine_upto(last_level@, last_sizes@, min_tile_size, bf as int, k + 1));
        k = k + 1;
    }
    r
}

/// Cutting a tile tiles it: the first part starts where the tile starts,
/// the last part stops where it stops, and each part stops where the next
/// one starts.
pub proof fn lemma_tile_parts_cover(t: Interval, bf: int)
    requires
        bf > 0,
        cuttable(t, bf),
    ensures
        tile_parts(t, bf)[0].start == t.start,
        tile_parts(t, bf)[bf - 1].stop == t.stop,
        forall|i: int| 0 <= i < bf - 1 ==> #[trigger] tile_parts(t, bf)[i].stop == tile_parts(t, bf)[i + 1].start,
{
    let d = span(t);
    assert(div_trunc(d * 0, bf) == 0) by (nonlinear_arith)
        requires
            bf > 0,
    ;
    if d >= 0 {
        assert((d * bf) / bf == d && d * bf >= 0) by (nonlinear_arith)
            requires
                bf > 0,
                d >= 0,
        ;
    } else {
        assert((-(d * bf)) / bf == -d && d * bf < 0) by (nonlinear_arith)
            requires
                bf > 0,
                d < 0,
        ;
    }
    assert(div_trunc(d * bf, bf) == d);
    assert(tile_parts(t, bf)[bf - 1] == tile_part(t, bf, bf - 1));
}

/// The tiles of `tiles` that are not in `last`, in order.
pub open spec fn fresh_of(tiles: Seq<Interval>, last: Seq<Interval>) -> Seq<Interval>
    decreases tiles.len(),
{
    if tiles.len() == 0 {
        seq![]
    } else if last.contains(tiles.last()) {
        fresh_of(tiles.drop_last(), last)
    } else {
        fresh_of(tiles.drop_last(), last).push(tiles.last())
    }
}

fn holds_tile(v: &Vec<Interval>, t: Interval) -> (r: bool)
    ensures
        r == v@.contains(t),
{
    let mut k: usize = 0;
    while k < v.len()
        invariant
            k <= v@.len(),
            forall|q: int| 0 <= q < k ==> v@[q] != t,
        decreases v@.len() - k,
    {
        if v[k] == t {
            return true;
        }
        k = k + 1;
    }
    false
}

/// The tiles of a level that the previous level did not have (those are
/// fetched; the others were settled already).
pub fn fresh_tiles(tile_ids: &Vec<Interval>, last_level: &Vec<Interval>) -> (r: Vec<Interval>)
    ensures
        r@ == fresh_of(tile_ids@, last_level@),
{
    let mut r: Vec<Interval> = Vec::new();
    let mut k: usize = 0;
    assert(tile_ids@.take(0) =~= Seq::<Interval>::empty());
    while k < tile_ids.len()
        invariant
            k <= tile_ids@.len(),
            r@ == fresh_of(tile_ids@.take(k as int), last_level@),
        decreases tile_ids@.len() - k,
    {
        assert(tile_ids@.take(k + 1).drop_last() =~= tile_ids@.take(k as int));
        assert(tile_ids@.take(k + 1).last() == tile_ids@[k as int]);
        let t = tile_ids[k];
        if !holds_tile(last_level, t) {
            r.push(t);
        }
        k = k + 1;
    }
    assert(tile_ids@.take(tile_ids@.len() as int) =~= tile_ids@);
    r
}

/// The largest size measured for tile `t` among `results`, if any.
pub open spec fn measured_max(results: Seq<(Interval, u64)>, t: Interval) -> Option<u64>
    decreases results.len(),
{
    if results.len() == 0 {
        None
    } else {
        let rest = measured_max(results.drop_last(), t);
        if results.last().0 == t {
            match rest {
                Some(m) => Some(if m >= results.last().1 { m } else { results.last().1 }),
                None => Some(results.last().1),
            }
        } else {
            rest
        }
    }
}

fn max_measured(results: &Vec<(Interval, u64)>, t: Interval) -> (r: Option<u64>)
    ensures
        r == measured_max(results@, t),
{
    let mut best: Option<u64> = None;
    let mut k: usize = 0;
    assert(results@.take(0) =~= Seq::<(Interval, u64)>::empty());
    while k < results.len()
        invariant
            k <= results@.len(),
            best == measured_max(results@.take(k as int), t),
        decreases results@.len() - k,
    {
        assert(results@.take(k + 1).drop_last() =~= results@.take(k as int));
        assert(results@.take(k + 1).last() == results@[k as int]);
        let (tile, size) = results[k];
        if tile == t {
            best = match best {
                Some(m) => Some(if m >= size { m } else { size }),
                None => Some(size),
            };
        }
        k = k + 1;
    }
    assert(results@.take(results@.len() as int) =~= results@);
    best
}

/// Position of the first `t` in `v`.
pub open spec fn first_index(v: Seq<Interval>, t: Interval) -> int
    decreases v.len(),
{
    if v.len() == 0 {
        0
    } else if v[0] == t {
        0
    } else {
        1 + first_index(v.drop_first(), t)
    }
}

/// The size of each tile of a level: the largest measured for it now, or
/// else the size it had at the previous level.
pub open spec fn level_size(results: Seq<(Interval, u64)>, last: Seq<Interval>, sizes: Seq<u64>, t: Interval) -> u64 {
    match measured_max(results, t) {
        Some(m) => m,
        None => sizes[first_index(last, t)],
    }
}

proof fn lemma_first_index(v: Seq<Interval>, t: Interval)
    requires
        v.contains(t),
    ensures
        0 <= first_index(v, t) < v.len(),
        v[first_index(v, t)] == t,
    decreases v.len(),
{
    if v[0] != t {
        let k = choose|k: int| 0 <= k < v.len() && v[k] == t;
        assert(v.drop_first()[k - 1] == t);
        lemma_first_index(v.drop_first(), t);
    }
}

/// The sizes of a level's tiles (see [`level_size`]); a tile that was not
/// measured must come from the previous level.
pub fn level_sizes(
    tile_ids: &Vec<Interval>,
    results: &Vec<(Interval, u64)>,
    last_level: &Vec<Interval>,
    last_sizes: &Vec<u64>,
) -> (r: Vec<u64>)
    requires
        last_level@.len() <= last_sizes@.len(),
        forall|k: int|
            0 <= k < tile_ids@.len() && measured_max(results@, #[trigger] tile_ids@[k]) is None
                ==> last_level@.contains(tile_ids@[k]),
    ensures
        r@.len() == tile_ids@.len(),
        forall|k: int| 0 <= k < r@.len() ==> #[trigger] r@[k] == level_size(results@, last_level@, last_sizes@, tile_ids@[k]),
{
    let mut r: Vec<u64> = Vec::new();
    let mut k: usize = 0;
    while k < tile_ids.len()
        invariant
            k <= tile_ids@.len(),
            r@.len() == k,
            last_level@.len() <= last_sizes@.len(),
            forall|q: int|
                0 <= q < tile_ids@.len() && measured_max(results@, #[trigger] tile_ids@[q]) is None
                    ==> last_level@.contains(tile_ids@[q]),
            forall|q: int| 0 <= q < k ==> #[trigger] r@[q] == level_size(results@, last_level@, last_sizes@, tile_ids@[q]),
        decreases tile_ids@.len() - k,
    {
        let t = tile_ids[k];
        let size = match max_measured(results, t) {
            Some(m) => m,
            None => {
                proof {
                    lemma_first_index(last_level@, t);
                }
                let len: usize = last_level.len();
                let mut j: usize = 0;
                while last_level[j] != t
                    invariant
                        len == last_level@.len(),
                        j < last_level@.len(),
                        0 <= first_index(last_level@, t) < last_level@.len(),
                        last_level@[first_index(last_level@, t)] == t,
                        forall|q: int| 0 <= q < j ==> last_level@[q] != t,
                        j <= first_index(last_level@, t),
                    decreases first_index(last_level@, t) - j,
                {
                    j = j + 1;
                }
                proof {
                    lemma_first_index_is_first(last_level@, t, j as int);
                }
                last_sizes[j]
            },
        };
        r.push(size);
        k = k + 1;
    }
    r
}

proof fn lemma_first_index_is_first(v: Seq<Interval>, t: Interval, j: int)
    requires
        0 <= j < v.len(),
        v[j] == t,
        forall|q: int| 0 <= q < j ==> v[q] != t,
    ensures
        first_index(v, t) == j,
    decreases j,
{
    if j > 0 {
        assert forall|q: int| 0 <= q < j - 1 implies v.drop_first()[q] != t by {
            assert(v.drop_first()[q] == v[q + 1]);
        }
        lemma_first_index_is_first(v.drop_first(), t, j - 1);
    }
}

/// A tile measured this level whose largest size is at most `min`.
pub open spec fn small_tile(results: Seq<(Interval, u64)>, t: Interval, min: u64) -> bool {
    match measured_max(results, t) {
        Some(m) => m <= min,
        None => false,
    }
}

/// The tiles of a level to fetch again in full: those measured this level
/// whose largest size is at most `min_tile_size` (the others are written as
/// they came), in level order.
pub fn refetch_full_tiles(tile_ids: &Vec<Interval>, results: &Vec<(Interval, u64)>, min_tile_size: u64) -> (r: Vec<Interval>)
    ensures
        r@ == tile_ids@.filter(|t: Interval| small_tile(results@, t, min_tile_size)),
        forall|t: Interval| #[trigger] r@.contains(t) <==> (tile_ids@.contains(t) && small_tile(results@, t, min_tile_size)),
{
    let ghost keep = |t: Interval| small_tile(results@, t, min_tile_size);
    let mut r: Vec<Interval> = Vec::new();
    let mut k: usize = 0;
    assert(tile_ids@.take(0) =~= Seq::<Interval>::empty());
    while k < tile_ids.len()
        invariant
            k <= tile_ids@.len(),
            keep == (|t: Interval| small_tile(results@, t, min_tile_size)),
            r@ == tile_ids@.take(k as int).filter(keep),
            forall|t: Interval| #[trigger] r@.contains(t) <==> (exists|q: int| 0 <= q < k && tile_ids@[q] == t)
                && small_tile(results@, t, min_tile_size),
        decreases tile_ids@.len() - k,
    {
        let t = tile_ids[k];
        let ghost before = r@;
        proof {
            assert(tile_ids@.take(k + 1) =~= tile_ids@.take(k as int).push(t));
            tile_ids@.take(k as int).lemma_filter_push(t, keep);
        }
        match max_measured(results, t) {
            Some(m) => {
                if m <= min_tile_size {
                    r.push(t);
                }
            },
            None => {},
        }
        assert forall|x: Interval| #[trigger] r@.contains(x) <==> (exists|q: int| 0 <= q < k + 1 && tile_ids@[q] == x)
            && small_tile(results@, x, min_tile_size) by {
            if r@.contains(x) && !before.contains(x) {
                let i = choose|i: int| 0 <= i < r@.len() && r@[i] == x;
                assert(i == before.len());
                assert(tile_ids@[k as int] == x);
            }
            if before.contains(x) {
                let i = choose|i: int| 0 <= i < before.len() && before[i] == x;
                assert(r@[i] == x);
            }
            if (exists|q: int| 0 <= q < k + 1 && tile_ids@[q] == x) && small_tile(results@, x, min_tile_size) {
                let q = choose|q: int| 0 <= q < k + 1 && tile_ids@[q] == x;
                if q == k {
                    assert(r@[r@.len() - 1] == x);
                }
            }
        }
        k = k + 1;
    }
    assert(tile_ids@.take(tile_ids@.len() as int) =~= tile_ids@);
    r
}

// ───────────────────────────── the writer ─────────────────────────────


// ───────────────────────────── the level loop ─────────────────────────────

/// Where the writer's loop over levels stands: the number of the next
/// level, and the previous level's tiles with their sizes.
#[derive(Clone, Debug)]
pub struct LevelState {
    pub level: u32,
    pub last_level: Vec<Interval>,
    pub last_sizes: Vec<u64>,
}

/// What the writer does at a level: the level's tiles, the fresh ones to
/// fetch, and whether this is the last level (its tiles are fetched full).
#[derive(Clone, Debug)]
pub struct LevelPlan {
    pub tile_ids: Vec<Interval>,
    pub fresh: Vec<Interval>,
    pub full: bool,
}

/// Tiles that are cut at the next level can be cut without overflow.
pub open spec fn cuts_fit(last: Seq<Interval>, sizes: Seq<u64>, min: u64, bf: u64) -> bool {
    forall|k: int|
        0 <= k < last.len() && k < sizes.len() && sizes[k] > min ==> cuttable(#[trigger] last[k], bf as i64 as int)
}

impl LevelState {
    /// Before the first level: level 0, no previous tiles.
    pub fn new() -> (r: LevelState)
        ensures
            r.level == 0,
            r.last_level@.len() == 0,
            r.last_sizes@.len() == 0,
    {
        LevelState { level: 0, last_level: Vec::new(), last_sizes: Vec::new() }
    }
}

/// The writer's next level, or `None` when its loop ends: after `levels`
/// levels, or as soon as a level has no tile that the previous one did not
/// have. A level's tiles are those of [`next_level`] (the whole profile
/// first), its fresh tiles those of [`fresh_of`], and the level numbered
/// `levels - 1` is fetched full.
pub fn plan_level(
    root: Interval,
    state: &LevelState,
    levels: u32,
    min_tile_size: u64,
    branch_factor: u64,
) -> (r: Option<LevelPlan>)
    requires
        cuts_fit(state.last_level@, state.last_sizes@, min_tile_size, branch_factor),
    ensures
        state.level >= levels ==> r is None,
        state.level < levels ==> ({
            let tiles = next_level(root, state.last_level@, state.last_sizes@, min_tile_size,
                branch_factor as i64 as int);
            let fresh = fresh_of(tiles, state.last_level@);
            if fresh.len() == 0 {
                r is None
            } else {
                &&& r is Some
                &&& r->0.tile_ids@ == tiles
                &&& r->0.fresh@ == fresh
                &&& r->0.full == (state.level == levels - 1)
            }
        }),
{
    if state.level >= levels {
        return None;
    }
    let tile_ids = next_level_tiles(root, &state.last_level, &state.last_sizes, min_tile_size, branch_factor);
    let fresh = fresh_tiles(&tile_ids, &state.last_level);
    if fresh.len() == 0 {
        return None;
    }
    let full = state.level == levels - 1;
    Some(LevelPlan { tile_ids, fresh, full })
}

/// Ends a level: the next level's number, and this level's tiles with the
/// sizes of [`level_sizes`] (measured now, or kept from the previous level).
pub fn finish_level(state: &mut LevelState, plan: &LevelPlan, results: &Vec<(Interval, u64)>)
    requires
        old(state).level < u32::MAX,
        old(state).last_level@.len() <= old(state).last_sizes@.len(),
        forall|k: int|
            0 <= k < plan.tile_ids@.len() && measured_max(results@, #[trigger] plan.tile_ids@[k]) is None
                ==> old(state).last_level@.contains(plan.tile_ids@[k]),
    ensures
        final(state).level == old(state).level + 1,
        final(state).last_level@ == plan.tile_ids@,
        final(state).last_sizes@.len() == plan.tile_ids@.len(),
        forall|k: int| 0 <= k < plan.tile_ids@.len() ==> #[trigger] final(state).last_sizes@[k]
            == level_size(results@, old(state).last_level@, old(state).last_sizes@, plan.tile_ids@[k]),
{
    let sizes = level_sizes(&plan.tile_ids, results, &state.last_level, &state.last_sizes);
    let mut tiles: Vec<Interval> = Vec::new();
    let mut k: usize = 0;
    while k < plan.tile_ids.len()
        invariant
            k <= plan.tile_ids@.len(),
            tiles@ == plan.tile_ids@.take(k as int),
        decreases plan.tile_ids@.len() - k,
    {
        tiles.push(plan.tile_ids[k]);
        assert(plan.tile_ids@.take(k + 1) =~= plan.tile_ids@.take(k as int).push(plan.tile_ids@[k as int]));
        k = k + 1;
    }
    assert(plan.tile_ids@.take(plan.tile_ids@.len() as int) =~= plan.tile_ids@);
    state.level = state.level + 1;
    state.last_level = tiles;
    state.last_sizes = sizes;
}

/// The first level of an archive is the whole profile, and it is always
/// written (it is fresh): with at least one level there is at least one.
pub proof fn lemma_first_level_whole(root: Interval, min_tile_size: u64, branch_factor: u64)
    ensures
        next_level(root, seq![], seq![], min_tile_size, branch_factor as i64 as int) == seq![root],
        fresh_of(seq![root], seq![]) == seq![root],
{
    let e: Seq<Interval> = seq![];
    assert(seq![root].drop_last() =~= e);
    assert(fresh_of(e, e) == e);
    assert(!e.contains(root));
}

/// Tile `x` of a level comes from the previous level's tiles `prev` with
/// sizes `sizes`: it is one of them at or under `min` items, or one of the
/// `bf` parts of one over `min`.
pub open spec fn comes_from(prev: Seq<Interval>, sizes: Seq<u64>, min: u64, bf: int, x: Interval) -> bool {
    exists|k: int|
        0 <= k < prev.len() && #[trigger] comes_from_tile(prev[k], sizes[k], min, bf, x)
}

/// `x` is `t` kept whole (its size at most `min`) or one of its `bf` parts.
pub open spec fn comes_from_tile(t: Interval, size: u64, min: u64, bf: int, x: Interval) -> bool {
    ||| size <= min && x == t
    ||| size > min && exists|i: int| 0 <= i < bf && x == #[trigger] tile_part(t, bf, i)
}

/// Every tile of `next` comes from the level `prev` before it.
pub open spec fn refines(prev: Seq<Interval>, sizes: Seq<u64>, next: Seq<Interval>, min: u64, bf: int) -> bool {
    forall|j: int| 0 <= j < next.len() ==> comes_from(prev, sizes, min, bf, #[trigger] next[j])
}

/// The level before level `l` of a write (none before the first).
pub open spec fn level_before(tiles: Seq<Seq<Interval>>, l: int) -> Seq<Interval> {
    if l == 0 { seq![] } else { tiles[l - 1] }
}

/// The sizes of the level before level `l` of a write.
pub open spec fn sizes_before(sizes: Seq<Seq<u64>>, l: int) -> Seq<u64> {
    if l == 0 { seq![] } else { sizes[l - 1] }
}

/// The levels a write goes through, as [`plan_level`] and [`finish_level`]
/// lay them out from [`LevelState::new`], whatever sizes the fetches
/// measured: each level `l` (numbered below `levels`) is planned from the
/// one before and has fresh tiles, is closed with one size per tile, and
/// the loop ends where planning gives nothing more.
pub open spec fn write_levels(
    root: Interval,
    tiles: Seq<Seq<Interval>>,
    sizes: Seq<Seq<u64>>,
    min: u64,
    bf: u64,
    levels: u32,
) -> bool {
    &&& tiles.len() == sizes.len()
    &&& forall|l: int| 0 <= l < tiles.len() ==> {
        &&& l < levels
        &&& #[trigger] tiles[l] == next_level(root, level_before(tiles, l), sizes_before(sizes, l), min, bf as i64 as int)
        &&& fresh_of(tiles[l], level_before(tiles, l)).len() > 0
        &&& sizes[l].len() == tiles[l].len()
    }
    &&& ({
        let n = tiles.len() as int;
        n >= levels || fresh_of(
            next_level(root, level_before(tiles, n), sizes_before(sizes, n), min, bf as i64 as int),
            level_before(tiles, n),
        ).len() == 0
    })
}

proof fn lemma_refine_upto_comes_from(last: Seq<Interval>, sizes: Seq<u64>, min: u64, bf: int, n: int)
    requires
        bf > 0,
        0 <= n <= last.len(),
        n <= sizes.len(),
    ensures
        forall|j: int| 0 <= j < refine_upto(last, sizes, min, bf, n).len() ==>
            comes_from(last, sizes, min, bf, #[trigger] refine_upto(last, sizes, min, bf, n)[j]),
    decreases n,
{
    if n > 0 {
        lemma_refine_upto_comes_from(last, sizes, min, bf, n - 1);
        let before = refine_upto(last, sizes, min, bf, n - 1);
        let piece = if sizes[n - 1] <= min { seq![last[n - 1]] } else { tile_parts(last[n - 1], bf) };
        let all = refine_upto(last, sizes, min, bf, n);
        assert(all == before + piece);
        assert forall|j: int| 0 <= j < all.len() implies comes_from(last, sizes, min, bf, #[trigger] all[j]) by {
            if j < before.len() {
                assert(all[j] == before[j]);
            } else {
                let q = j - before.len();
                assert(all[j] == piece[q]);
                if sizes[n - 1] > min {
                    assert(piece[q] == tile_part(last[n - 1], bf, q));
                }
                assert(comes_from_tile(last[n - 1], sizes[n - 1], min, bf, all[j]));
            }
        }
    }
}

/// The tile tree of a whole write: it has between one and `levels` levels;
/// the first is the whole profile alone; and each tile of a later level is
/// a tile of the level before whose size is at most `min_tile_size`, or one
/// of the `branch_factor` parts `[s + d*i/b, s + d*(i+1)/b)` of a tile
/// `[s, s+d)` of the level before whose size is over it.
pub proof fn lemma_write_tile_tree(
    root: Interval,
    tiles: Seq<Seq<Interval>>,
    sizes: Seq<Seq<u64>>,
    min_tile_size: u64,
    branch_factor: u64,
    levels: u32,
)
    requires
        levels >= 1,
        branch_factor >= 2,
        branch_factor <= i64::MAX,
        write_levels(root, tiles, sizes, min_tile_size, branch_factor, levels),
    ensures
        1 <= tiles.len() <= levels,
        tiles[0] == seq![root],
        forall|l: int| 0 <= l < tiles.len() - 1 ==> refines(
            #[trigger] tiles[l],
            sizes[l],
            tiles[l + 1],
            min_tile_size,
            branch_factor as int,
        ),
{
    let bf = branch_factor as i64 as int;
    assert(bf == branch_factor as int);
    lemma_first_level_whole(root, min_tile_size, branch_factor);
    if tiles.len() == 0 {
        assert(level_before(tiles, 0) == Seq::<Interval>::empty());
        assert(sizes_before(sizes, 0) == Seq::<u64>::empty());
        assert(false);
    }
    let n = tiles.len() as int;
    assert(tiles[n - 1] == next_level(root, level_before(tiles, n - 1), sizes_before(sizes, n - 1), min_tile_size, bf));
    assert(tiles[0] == next_level(root, level_before(tiles, 0), sizes_before(sizes, 0), min_tile_size, bf));
    assert forall|l: int| 0 <= l < tiles.len() - 1 implies refines(
        #[trigger] tiles[l],
        sizes[l],
        tiles[l + 1],
        min_tile_size,
        branch_factor as int,
    ) by {
        let last = tiles[l];
        assert(tiles[l + 1] == next_level(root, level_before(tiles, l + 1), sizes_before(sizes, l + 1), min_tile_size, bf));
        assert(level_before(tiles, l + 1) == last);
        assert(sizes_before(sizes, l + 1) == sizes[l]);
        assert(fresh_of(tiles[l], level_before(tiles, l)).len() > 0);
        assert(last.len() > 0);
        assert(sizes[l].len() == last.len());
        lemma_refine_upto_comes_from(last, sizes[l], min_tile_size, bf, last.len() as int);
    }
}

/// A data source that keeps count of the requests it has not answered yet.
pub struct CountingDeferredDataSource<T> {
    pub inner: T,
    /// Requests made and not yet answered.
    pub outstanding: u64,
}

impl<T> CountingDeferredDataSource<T> {
    /// `inner` with no request outstanding.
    pub fn new(inner: T) -> (r: Self)
        ensures
            r.inner == inner,
            r.outstanding == 0,
    {
        CountingDeferredDataSource { inner, outstanding: 0 }
    }

    /// How many requests are still unanswered.
    pub fn outstanding_requests(&self) -> (r: u64)
        ensures
            r == self.outstanding,
    {
        self.outstanding
    }
}

/// Settings of an archive writer over the data source `T`.
pub struct DataSourceArchiveWriter<T> {
    /// The source, wrapped so that requests in flight are counted.
    pub data_source: CountingDeferredDataSource<T>,
    /// Zoom levels written (at least one).
    pub levels: u32,
    /// Tiles a tile splits into at the next level (at least two).
    pub branch_factor: u64,
    /// Items below which a tile is not subdivided.
    pub min_tile_size: u64,
    pub path: String,
    pub force: bool,
    pub zstd_compression: i32,
}

impl<T> DataSourceArchiveWriter<T> {
    /// A writer with the given settings.
    pub fn new(
        data_source: T,
        levels: u32,
        branch_factor: u64,
        min_tile_size: u64,
        path: &str,
        force: bool,
        zstd_compression: i32,
    ) -> (r: Self)
        requires
            levels >= 1,
            branch_factor >= 2,
        ensures
            r.data_source.inner == data_source,
            r.data_source.outstanding == 0,
            r.levels == levels,
            r.branch_factor == branch_factor,
            r.min_tile_size == min_tile_size,
            r.path@ == path@,
            r.force == force,
            r.zstd_compression == zstd_compression,
    {
        DataSourceArchiveWriter {
            data_source: CountingDeferredDataSource::new(data_source),
            levels,
            branch_factor,
            min_tile_size,
            path: string_of(chars_of(path).as_slice()),
            force,
            zstd_compression,
        }
    }
}

// ───────────────────────────── file data sources ─────────────────────────────

/// `base` joined with the relative component `name` (`Path::join`): a `/`
/// is put between them unless `base` is empty or already ends with one.
pub open spec fn path_join(base: Seq<char>, name: Seq<char>) -> Seq<char> {
    if base.len() == 0 {
        name
    } else if base.last() == '/' {
        base + name
    } else {
        base + seq!['/'] + name
    }
}

/// A data source reading the tiles of an archive directory.
pub struct FileDataSource {
    pub basedir: String,
}

/// What a data source says about itself: where its data comes from.
pub struct DataSourceDescription {
    pub source_locator: Vec<String>,
}

impl FileDataSource {
    /// A data source over the archive directory `basedir`.
    pub fn new(basedir: &str) -> (r: Self)
        ensures
            r.basedir@ == basedir@,
    {
        FileDataSource { basedir: string_of(chars_of(basedir).as_slice()) }
    }

    /// The source's locator: its directory.
    pub fn fetch_description(&self) -> (r: DataSourceDescription)
        ensures
            r.source_locator@.len() == 1,
            r.source_locator@[0]@ == self.basedir@,
    {
        let mut v: Vec<String> = Vec::new();
        v.push(self.basedir.clone());
        DataSourceDescription { source_locator: v }
    }

    /// The file under the archive directory named `name` (`info`,
    /// `summary_tile`, `slot_tile`, `slot_meta_tile`, or a tile path under
    /// one of them).
    pub fn archive_path(&self, name: &str) -> (r: String)
        ensures
            r@ == path_join(self.basedir@, name@),
    {
        join_path(self.basedir.as_str(), name)
    }
}

/// `name` under the directory `base` (`Path::join` of a relative `name`):
/// with a `/` between them unless `base` is empty or already ends in one.
pub fn join_path(base: &str, name: &str) -> (r: String)
    ensures
        r@ == path_join(base@, name@),
{
    let b = chars_of(base);
    let mut out = string_of(b.as_slice());
    if b.len() > 0 && b[b.len() - 1] != '/' {
        push_str(&mut out, "/");
        proof {
            reveal_strlit("/");
        }
    }
    push_str(&mut out, name);
    proof {
        if b@.len() == 0 {
            assert(out@ =~= name@);
        }
    }
    out
}

} // verus!
