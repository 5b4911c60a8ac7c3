//! The viewer's reaction to keys and to navigation requests: what a key
//! asks for, and how a request moves the view, filters and expands kinds,
//! and scrolls to a row.

use vstd::prelude::*;
use crate::entry::{EntryID, EntryIndex};
use crate::highlight::{AiHighlight, Highlight, HighlightIds, PendingNavigation, highlight_to_ai};
use crate::highlight_table::{push_highlight, pushed, table_view};
use crate::order::strictly_sorted;
use crate::panel_slugs::{NodePanel, KindPanel, SlotPanel, build_slug_map, lookup_slug, nodes_pairs,
    node_pairs, kinds_pairs, slug_lookup, kind_after, set_kind_expanded, set_kind_filter,
    string_views, kind_requested};
use crate::text::{chars_of, chars_eq, lowercase};
use crate::timestamp::{Interval, Timestamp, span, fits_i64, div_trunc};
use crate::view_history::{ViewState, ViewModel, PanDirection, IntervalOrigin, model_wf, zoomed,
    undone, redone, updated, zoomed_in_range, zoomed_out_range, panned_range, percent_of};

verus! {

/// A key that the timeline reacts to.
#[derive(Clone, Copy, Debug, PartialEq, Eq, Structural)]
pub enum Key {
    Plus,
    Equals,
    Minus,
    Num0,
    ArrowLeft,
    ArrowRight,
    ArrowUp,
    ArrowDown,
    H,
    Escape,
}

/// The modifier keys held down.
#[derive(Clone, Copy, Debug, PartialEq, Eq, Structural)]
pub struct Modifiers {
    pub ctrl: bool,
    pub alt: bool,
    pub shift: bool,
}

/// What a key press asks of the viewer.
#[derive(Clone, Copy, Debug, PartialEq, Eq, Structural)]
pub enum KeyAction {
    ZoomIn,
    ZoomOut,
    UndoZoom,
    RedoZoom,
    ResetZoom,
    /// Pan by this many percent of the view.
    Pan(u8, PanDirection),
    /// Scroll by this many rows (up is positive).
    Scroll(i32),
    ExpandVertical,
    ShrinkVertical,
    ResetVertical,
    ToggleControls,
    ResetUI,
    NoAction,
}

/// The action for the pressed keys under the held modifiers: with Ctrl+Alt
/// the vertical scale (`+`/`=`, `-`, `0`), with Ctrl the zoom (`+`/`=` in,
/// `-` out, arrows undo/redo, `0` reset), with Shift fine pans (1%) and
/// single-row scrolls, and otherwise `H` (controls), Escape (reset), pans by
/// 5% and five-row scrolls; earlier keys of each list win.
pub open spec fn key_action(m: Modifiers, pressed: Seq<Key>) -> KeyAction {
    if m.ctrl {
        if m.alt {
            if pressed.contains(Key::Plus) || pressed.contains(Key::Equals) {
                KeyAction::ExpandVertical
            } else if pressed.contains(Key::Minus) {
                KeyAction::ShrinkVertical
            } else if pressed.contains(Key::Num0) {
                KeyAction::ResetVertical
            } else {
                KeyAction::NoAction
            }
        } else if pressed.contains(Key::Plus) || pressed.contains(Key::Equals) {
            KeyAction::ZoomIn
        } else if pressed.contains(Key::Minus) {
            KeyAction::ZoomOut
        } else if pressed.contains(Key::ArrowLeft) {
            KeyAction::UndoZoom
        } else if pressed.contains(Key::ArrowRight) {
            KeyAction::RedoZoom
        } else if pressed.contains(Key::Num0) {
            KeyAction::ResetZoom
        } else {
            KeyAction::NoAction
        }
    } else if m.shift {
        if pressed.contains(Key::ArrowLeft) {
            KeyAction::Pan(1u8, PanDirection::Left)
        } else if pressed.contains(Key::ArrowRight) {
            KeyAction::Pan(1u8, PanDirection::Right)
        } else if pressed.contains(Key::ArrowUp) {
            KeyAction::Scroll(1i32)
        } else if pressed.contains(Key::ArrowDown) {
            KeyAction::Scroll(-1i32)
        } else {
            KeyAction::NoAction
        }
    } else if pressed.contains(Key::H) {
        KeyAction::ToggleControls
    } else if pressed.contains(Key::Escape) {
        KeyAction::ResetUI
    } else if pressed.contains(Key::ArrowLeft) {
        KeyAction::Pan(5u8, PanDirection::Left)
    } else if pressed.contains(Key::ArrowRight) {
        KeyAction::Pan(5u8, PanDirection::Right)
    } else if pressed.contains(Key::ArrowUp) {
        KeyAction::Scroll(5i32)
    } else if pressed.contains(Key::ArrowDown) {
        KeyAction::Scroll(-5i32)
    } else {
        KeyAction::NoAction
    }
}

/// The arrow keys pan, one the mirror of the other: without Ctrl, a press
/// with the right arrow and not the left one pans toward later times
/// (`Right`), a press with the left arrow and not the right one pans toward
/// earlier times (`Left`), by the same step: 1% with Shift, else 5% (where
/// neither `H` nor Escape is pressed). With Ctrl alone the left arrow undoes
/// a zoom and the right arrow redoes one, when no zoom key is pressed; `+`
/// zooms in and `-` out. The up arrow scrolls by the step in rows and the
/// down arrow by its negative.
pub proof fn lemma_arrow_pans(m: Modifiers, pressed: Seq<Key>)
    ensures
        ({
            let step: u8 = if m.shift { 1u8 } else { 5u8 };
            let plain = !m.ctrl && (m.shift || (!pressed.contains(Key::H) && !pressed.contains(Key::Escape)));
            let no_zoom_key = !pressed.contains(Key::Plus) && !pressed.contains(Key::Equals) && !pressed.contains(
                Key::Minus,
            );
            &&& (plain && pressed.contains(Key::ArrowRight) && !pressed.contains(Key::ArrowLeft) ==> key_action(
                m,
                pressed,
            ) == KeyAction::Pan(step, PanDirection::Right))
            &&& (plain && pressed.contains(Key::ArrowLeft) ==> key_action(m, pressed) == KeyAction::Pan(
                step,
                PanDirection::Left,
            ))
            &&& (m.ctrl && !m.alt && no_zoom_key && pressed.contains(Key::ArrowLeft) ==> key_action(m, pressed)
                == KeyAction::UndoZoom)
            &&& (m.ctrl && !m.alt && no_zoom_key && pressed.contains(Key::ArrowRight) && !pressed.contains(
                Key::ArrowLeft,
            ) ==> key_action(m, pressed) == KeyAction::RedoZoom)
            &&& (plain && pressed.contains(Key::ArrowUp) && !pressed.contains(Key::ArrowLeft) && !pressed.contains(
                Key::ArrowRight,
            ) ==> key_action(m, pressed) == KeyAction::Scroll(step as i32))
            &&& (plain && pressed.contains(Key::ArrowDown) && !pressed.contains(Key::ArrowUp) && !pressed.contains(
                Key::ArrowLeft,
            ) && !pressed.contains(Key::ArrowRight) ==> key_action(m, pressed) == KeyAction::Scroll((-(step as int)) as i32))
            &&& (m.ctrl && !m.alt && pressed.contains(Key::Plus) ==> key_action(m, pressed) == KeyAction::ZoomIn)
            &&& (m.ctrl && !m.alt && pressed.contains(Key::Minus) && !pressed.contains(Key::Plus) && !pressed.contains(
                Key::Equals,
            ) ==> key_action(m, pressed) == KeyAction::ZoomOut)
        }),
{
}

/// Whether `k` is among the pressed keys.
fn key_pressed(pressed: &Vec<Key>, k: Key) -> (r: bool)
    ensures
        r == pressed@.contains(k),
{
    let mut i: usize = 0;
    while i < pressed.len()
        invariant
            i <= pressed@.len(),
            forall|j: int| 0 <= j < i ==> pressed@[j] != k,
        decreases pressed@.len() - i,
    {
        if pressed[i] == k {
            return true;
        }
        i = i + 1;
    }
    false
}

/// The action for a key press (see [`key_action`]).
pub fn keyboard_action(m: Modifiers, pressed: &Vec<Key>) -> (r: KeyAction)
    ensures
        r == key_action(m, pressed@),
{
    if m.ctrl {
        if m.alt {
            if key_pressed(pressed, Key::Plus) || key_pressed(pressed, Key::Equals) {
                KeyAction::ExpandVertical
            } else if key_pressed(pressed, Key::Minus) {
                KeyAction::ShrinkVertical
            } else if key_pressed(pressed, Key::Num0) {
                KeyAction::ResetVertical
            } else {
                KeyAction::NoAction
            }
        } else if key_pressed(pressed, Key::Plus) || key_pressed(pressed, Key::Equals) {
            KeyAction::ZoomIn
        } else if key_pressed(pressed, Key::Minus) {
            KeyAction::ZoomOut
        } else if key_pressed(pressed, Key::ArrowLeft) {
            KeyAction::UndoZoom
        } else if key_pressed(pressed, Key::ArrowRight) {
            KeyAction::RedoZoom
        } else if key_pressed(pressed, Key::Num0) {
            KeyAction::ResetZoom
        } else {
            KeyAction::NoAction
        }
    } else if m.shift {
        if key_pressed(pressed, Key::ArrowLeft) {
            KeyAction::Pan(1, PanDirection::Left)
        } else if key_pressed(pressed, Key::ArrowRight) {
            KeyAction::Pan(1, PanDirection::Right)
        } else if key_pressed(pressed, Key::ArrowUp) {
            KeyAction::Scroll(1)
        } else if key_pressed(pressed, Key::ArrowDown) {
            KeyAction::Scroll(-1)
        } else {
            KeyAction::NoAction
        }
    } else if key_pressed(pressed, Key::H) {
        KeyAction::ToggleControls
    } else if key_pressed(pressed, Key::Escape) {
        KeyAction::ResetUI
    } else if key_pressed(pressed, Key::ArrowLeft) {
        KeyAction::Pan(5, PanDirection::Left)
    } else if key_pressed(pressed, Key::ArrowRight) {
        KeyAction::Pan(5, PanDirection::Right)
    } else if key_pressed(pressed, Key::ArrowUp) {
        KeyAction::Scroll(5)
    } else if key_pressed(pressed, Key::ArrowDown) {
        KeyAction::Scroll(-5)
    } else {
        KeyAction::NoAction
    }
}

/// A timeline window: its root panel's expansion, its node panels, the
/// kinds it knows, its kind filter, its search query, and its highlight
/// overlays with whether they are drawn.
#[derive(Clone, Debug)]
pub struct WindowState {
    pub expanded: bool,
    pub nodes: Vec<NodePanel>,
    pub kinds: Vec<String>,
    pub kind_filter: Vec<String>,
    pub search_query: String,
    pub highlights: Vec<(EntryID, Vec<AiHighlight>)>,
    pub highlights_enabled: bool,
}

/// The viewer's navigation state: the view and its history, the pending
/// row scroll, whether the controls show, the row to scroll to, and the
/// windows.
#[derive(Clone, Debug)]
pub struct Viewer {
    pub view: ViewState,
    pub row_scroll_delta: i32,
    pub show_controls: bool,
    pub scroll_to_entry: Option<EntryID>,
    pub windows: Vec<WindowState>,
}

/// The view after a key action; the actions that do not move the view
/// leave it as it is.
pub open spec fn view_after_key(v: ViewModel, a: KeyAction) -> ViewModel {
    match a {
        KeyAction::ZoomIn => zoomed(v, zoomed_in_range(v.current)),
        KeyAction::ZoomOut => zoomed(v, zoomed_out_range(v.current, v.total)),
        KeyAction::UndoZoom => undone(v),
        KeyAction::RedoZoom => redone(v),
        KeyAction::ResetZoom => zoomed(v, v.total),
        KeyAction::Pan(p, d) => if p == 0 {
            v
        } else {
            updated(v, panned_range(v.current, p, d), IntervalOrigin::Pan)
        },
        _ => v,
    }
}

/// The moves of a key action stay inside the 64-bit time line.
pub open spec fn key_fits(v: ViewModel, a: KeyAction) -> bool {
    let c = v.current;
    match a {
        KeyAction::ZoomIn => {
            &&& fits_i64(span(c))
            &&& fits_i64(-span(c))
            &&& fits_i64(c.start.0 - div_trunc(-span(c), 4))
            &&& fits_i64(c.stop.0 + div_trunc(-span(c), 4))
        },
        KeyAction::ZoomOut => {
            &&& fits_i64(span(c))
            &&& fits_i64(c.start.0 - div_trunc(span(c), 2))
            &&& fits_i64(c.stop.0 + div_trunc(span(c), 2))
        },
        KeyAction::Pan(p, d) => pan_fits(c, p),
        _ => true,
    }
}

/// A pan by `p` percent of `c` stays inside the 64-bit time line.
pub open spec fn pan_fits(c: Interval, p: u8) -> bool {
    &&& fits_i64(span(c))
    &&& fits_i64(span(c) * p)
    &&& fits_i64(c.start.0 + percent_of(p, span(c)))
    &&& fits_i64(c.stop.0 + percent_of(p, span(c)))
    &&& fits_i64(c.start.0 - percent_of(p, span(c)))
    &&& fits_i64(c.stop.0 - percent_of(p, span(c)))
}

impl Viewer {
    /// Carries out a key action: the zooms, pans, undo and redo move the
    /// view; a scroll sets the pending row scroll; `H` toggles the controls
    /// and Escape hides them. The vertical scale and the clearing of the
    /// selections that Escape also asks for are left to the caller.
    pub fn apply_key_action(&mut self, a: KeyAction)
        requires
            model_wf(old(self).view@),
            key_fits(old(self).view@, a),
            a matches KeyAction::Pan(p, _) ==> p <= 100,
        ensures
            model_wf(final(self).view@),
            final(self).view@ == view_after_key(old(self).view@, a),
            final(self).row_scroll_delta == (match a {
                KeyAction::Scroll(r) => r,
                _ => old(self).row_scroll_delta,
            }),
            final(self).show_controls == (match a {
                KeyAction::ToggleControls => !old(self).show_controls,
                KeyAction::ResetUI => false,
                _ => old(self).show_controls,
            }),
            final(self).scroll_to_entry == old(self).scroll_to_entry,
            final(self).windows == old(self).windows,
    {
        match a {
            KeyAction::ZoomIn => self.view.zoom_in(),
            KeyAction::ZoomOut => self.view.zoom_out(),
            KeyAction::UndoZoom => self.view.undo_pan_zoom(),
            KeyAction::RedoZoom => self.view.redo_pan_zoom(),
            KeyAction::ResetZoom => {
                let total = self.view.total_interval;
                self.view.zoom(total);
            },
            KeyAction::Pan(p, d) => self.view.pan(p, d),
            KeyAction::Scroll(rows) => {
                self.row_scroll_delta = rows;
            },
            KeyAction::ToggleControls => {
                self.show_controls = !self.show_controls;
            },
            KeyAction::ResetUI => {
                self.show_controls = false;
            },
            _ => {},
        }
    }
}

/// The slot index of step `i` of a path (0 where the step is a summary).
pub open spec fn step(e: Seq<EntryIndex>, i: int) -> int {
    match e[i] {
        EntryIndex::Slot(x) => x as int,
        EntryIndex::Summary => 0,
    }
}

/// `e` is the path of a slot of the panel tree: three slot steps, each
/// inside its panel.
pub open spec fn leaf_path(nodes: Seq<NodePanel>, e: Seq<EntryIndex>) -> bool {
    &&& e.len() == 3
    &&& e[0] is Slot && e[1] is Slot && e[2] is Slot
    &&& step(e, 0) < nodes.len()
    &&& step(e, 1) < nodes[step(e, 0)].slots@.len()
    &&& step(e, 2) < nodes[step(e, 0)].slots@[step(e, 1)].slots@.len()
}

/// Two kind panels agree but for their expansion and their slots.
pub open spec fn same_kind_head(a: KindPanel, b: KindPanel) -> bool {
    a.short_name == b.short_name && a.entry_id == b.entry_id && a.slots@.len() == b.slots@.len()
}

/// `f` is `o` with the panels on path `e` expanded: the node, the kind
/// panel and the slot.
pub open spec fn expanded_along(o: Seq<NodePanel>, f: Seq<NodePanel>, e: Seq<EntryIndex>) -> bool {
    let a = step(e, 0);
    let b = step(e, 1);
    let c = step(e, 2);
    &&& f.len() == o.len()
    &&& forall|i: int| 0 <= i < o.len() && i != a ==> #[trigger] f[i] == o[i]
    &&& f[a].short_name == o[a].short_name
    &&& f[a].entry_id == o[a].entry_id
    &&& f[a].expanded
    &&& f[a].slots@.len() == o[a].slots@.len()
    &&& forall|j: int| 0 <= j < o[a].slots@.len() && j != b ==> #[trigger] f[a].slots@[j] == o[a].slots@[j]
    &&& same_kind_head(f[a].slots@[b], o[a].slots@[b])
    &&& f[a].slots@[b].expanded
    &&& forall|k: int| 0 <= k < o[a].slots@[b].slots@.len() && k != c ==>
        #[trigger] f[a].slots@[b].slots@[k] == o[a].slots@[b].slots@[k]
    &&& f[a].slots@[b].slots@[c] == (SlotPanel { expanded: true, ..o[a].slots@[b].slots@[c] })
}

impl WindowState {
    /// Expands the panels on the path of slot `e`, the root panel included,
    /// so that the slot's row is drawn.
    pub fn expand_slot(&mut self, e: &EntryID)
        requires
            leaf_path(old(self).nodes@, e@),
        ensures
            final(self).expanded,
            expanded_along(old(self).nodes@, final(self).nodes@, e@),
            final(self).kinds == old(self).kinds,
            final(self).kind_filter == old(self).kind_filter,
            final(self).search_query == old(self).search_query,
            final(self).highlights == old(self).highlights,
            final(self).highlights_enabled == old(self).highlights_enabled,
    {
        let a: usize = match e.0[0] {
            EntryIndex::Slot(x) => {
                assert(x as int == step(e@, 0));
                assert(x < self.nodes.len());
                x as usize
            },
            EntryIndex::Summary => 0,
        };
        let b: usize = match e.0[1] {
            EntryIndex::Slot(x) => {
                assert(x as int == step(e@, 1));
                assert(x < self.nodes@[step(e@, 0)].slots.len());
                x as usize
            },
            EntryIndex::Summary => 0,
        };
        let c: usize = match e.0[2] {
            EntryIndex::Slot(x) => {
                assert(x as int == step(e@, 2));
                assert(x < self.nodes@[step(e@, 0)].slots@[step(e@, 1)].slots.len());
                x as usize
            },
            EntryIndex::Summary => 0,
        };
        assert(a == step(e@, 0) && b == step(e@, 1) && c == step(e@, 2));
        self.expanded = true;
        self.nodes[a].expanded = true;
        assert(self.nodes@[a as int].slots == old(self).nodes@[a as int].slots);
        self.nodes[a].slots[b].expanded = true;
        assert(self.nodes@[a as int].slots@[b as int].slots
            == old(self).nodes@[a as int].slots@[b as int].slots);
        self.nodes[a].slots[b].slots[c].expanded = true;
    }
}

/// The entry that `slug` names in a window's panel tree.
pub open spec fn window_lookup(w: WindowState, slug: Seq<char>) -> Option<Seq<EntryIndex>> {
    slug_lookup(nodes_pairs(w.nodes@), slug)
}

/// Index of the first window at or after `i` whose panel tree has a row
/// with slug `slug`, or -1.
pub open spec fn first_window_from(ws: Seq<WindowState>, slug: Seq<char>, i: int) -> int
    decreases ws.len() - i,
{
    if i < 0 || i >= ws.len() {
        -1
    } else if window_lookup(ws[i], slug) is Some {
        i
    } else {
        first_window_from(ws, slug, i + 1)
    }
}

/// Index of the first window with a row of slug `slug`, or -1.
pub open spec fn first_window_with(ws: Seq<WindowState>, slug: Seq<char>) -> int {
    first_window_from(ws, slug, 0)
}

/// The first window with a row of slug `slug` names a slot by it (the
/// only rows that can be scrolled to).
pub open spec fn scroll_target_ok(ws: Seq<WindowState>, slug: Seq<char>) -> bool {
    let k = first_window_with(ws, slug);
    0 <= k < ws.len() ==> leaf_path(ws[k].nodes@, window_lookup(ws[k], slug)->0)
}

/// `f` is window `o` with the row of path `e` expanded (see
/// [`WindowState::expand_slot`]).
pub open spec fn window_expanded(o: WindowState, f: WindowState, e: Seq<EntryIndex>) -> bool {
    &&& f.expanded
    &&& expanded_along(o.nodes@, f.nodes@, e)
    &&& f.kinds == o.kinds
    &&& f.kind_filter == o.kind_filter
    &&& f.search_query == o.search_query
    &&& f.highlights == o.highlights
    &&& f.highlights_enabled == o.highlights_enabled
}

proof fn lemma_first_window_from(ws: Seq<WindowState>, slug: Seq<char>, i: int)
    requires
        0 <= i <= ws.len(),
    ensures
        ({
            let k = first_window_from(ws, slug, i);
            (k == -1 && forall|j: int| i <= j < ws.len() ==> #[trigger] window_lookup(ws[j], slug) is None)
            || (i <= k < ws.len() && window_lookup(ws[k], slug) is Some
                && forall|j: int| i <= j < k ==> #[trigger] window_lookup(ws[j], slug) is None)
        }),
    decreases ws.len() - i,
{
    if i < ws.len() && window_lookup(ws[i], slug) is None {
        lemma_first_window_from(ws, slug, i + 1);
    }
}

impl Viewer {
    /// Scrolls to the row named `slug` in the first window that has one:
    /// that row is expanded into view and becomes the scroll target. Where
    /// no window has the row, nothing changes.
    pub fn scroll_to_slug(&mut self, slug: &str)
        requires
            scroll_target_ok(old(self).windows@, slug@),
        ensures
            final(self).view == old(self).view,
            final(self).row_scroll_delta == old(self).row_scroll_delta,
            final(self).show_controls == old(self).show_controls,
            scrolled(old(self).windows@, final(self).windows@, old(self).scroll_to_entry,
                final(self).scroll_to_entry, slug@),
    {
        proof {
            lemma_first_window_from(self.windows@, slug@, 0);
        }
        let ghost ws = self.windows@;
        let mut i: usize = 0;
        while i < self.windows.len()
            invariant
                i <= ws.len(),
                self.windows@ == ws,
                ws == old(self).windows@,
                *self == *old(self),
                scroll_target_ok(ws, slug@),
                forall|j: int| 0 <= j < i ==> #[trigger] window_lookup(ws[j], slug@) is None,
            decreases ws.len() - i,
        {
            let pairs = build_slug_map(&self.windows[i].nodes);
            match lookup_slug(&pairs, slug) {
                Some(e) => {
                    proof {
                        let k = first_window_with(ws, slug@);
                        lemma_first_window_from(ws, slug@, 0);
                        assert(window_lookup(ws[i as int], slug@) is Some);
                        assert(k == i);
                    }
                    self.windows[i].expand_slot(&e);
                    self.scroll_to_entry = Some(e);
                    return;
                },
                None => {},
            }
            i = i + 1;
        }
    }
}

/// `f` has the shape of `o`, node for node, and each kind panel of `f` is
/// `g` of the one of `o`.
pub open spec fn nodes_mapped(o: Seq<NodePanel>, f: Seq<NodePanel>, g: spec_fn(KindPanel) -> KindPanel) -> bool {
    &&& f.len() == o.len()
    &&& forall|i: int| 0 <= i < o.len() ==> {
        let a = #[trigger] f[i];
        let b = o[i];
        &&& a.short_name == b.short_name
        &&& a.entry_id == b.entry_id
        &&& a.expanded == b.expanded
        &&& a.slots@.len() == b.slots@.len()
        &&& forall|j: int| 0 <= j < b.slots@.len() ==> #[trigger] a.slots@[j] == g(b.slots@[j])
    }
}

/// A kind panel after expanding (or collapsing) by each needle in turn.
pub open spec fn kind_after_all(k: KindPanel, needles: Seq<Seq<char>>, expanded: bool) -> KindPanel
    decreases needles.len(),
{
    if needles.len() == 0 {
        k
    } else {
        kind_after(kind_after_all(k, needles.drop_last(), expanded), needles.last(), expanded)
    }
}

/// The lower-cased texts of a list of strings.
pub open spec fn lowered(v: Seq<String>) -> Seq<Seq<char>> {
    v.map_values(|s: String| lowercase(s@))
}

proof fn lemma_nodes_mapped_compose(
    a: Seq<NodePanel>,
    b: Seq<NodePanel>,
    c: Seq<NodePanel>,
    f: spec_fn(KindPanel) -> KindPanel,
    g: spec_fn(KindPanel) -> KindPanel,
    h: spec_fn(KindPanel) -> KindPanel,
)
    requires
        nodes_mapped(a, b, f),
        nodes_mapped(b, c, g),
        forall|k: KindPanel| #[trigger] h(k) == g(f(k)),
    ensures
        nodes_mapped(a, c, h),
{
    assert forall|i: int| 0 <= i < a.len() implies {
        let x = #[trigger] c[i];
        let y = a[i];
        &&& x.short_name == y.short_name
        &&& x.entry_id == y.entry_id
        &&& x.expanded == y.expanded
        &&& x.slots@.len() == y.slots@.len()
        &&& forall|j: int| 0 <= j < y.slots@.len() ==> #[trigger] x.slots@[j] == h(y.slots@[j])
    } by {
        assert(b[i].slots@.len() == a[i].slots@.len());
        assert forall|j: int| 0 <= j < a[i].slots@.len() implies #[trigger] c[i].slots@[j] == h(a[i].slots@[j]) by {
            assert(b[i].slots@[j] == f(a[i].slots@[j]));
            assert(c[i].slots@[j] == g(b[i].slots@[j]));
        }
    }
}

/// Expands (or collapses) the kind panels that answer each request in turn.
fn expand_kinds_each(nodes: &mut Vec<NodePanel>, requests: &Vec<String>, expanded: bool)
    ensures
        nodes_mapped(old(nodes)@, final(nodes)@,
            |k: KindPanel| kind_after_all(k, lowered(requests@), expanded)),
{
    let ghost start = nodes@;
    let ghost needles = lowered(requests@);
    assert(nodes_mapped(start, nodes@, |k: KindPanel| kind_after_all(k, needles.take(0), expanded))) by {
        assert forall|k: KindPanel| kind_after_all(k, needles.take(0), expanded) == k by {
            assert(needles.take(0).len() == 0);
        }
    }
    let mut i: usize = 0;
    while i < requests.len()
        invariant
            i <= requests@.len(),
            needles == lowered(requests@),
            nodes_mapped(start, nodes@, |k: KindPanel| kind_after_all(k, needles.take(i as int), expanded)),
        decreases requests@.len() - i,
    {
        let ghost before = nodes@;
        set_kind_expanded(nodes, requests[i].as_str(), expanded);
        proof {
            let n = lowercase(requests@[i as int]@);
            assert(nodes_mapped(before, nodes@, |k: KindPanel| kind_after(k, n, expanded)));
            assert(needles.take(i as int + 1).drop_last() =~= needles.take(i as int));
            assert(needles.take(i as int + 1).last() == n);
            lemma_nodes_mapped_compose(start, before, nodes@,
                |k: KindPanel| kind_after_all(k, needles.take(i as int), expanded),
                |k: KindPanel| kind_after(k, n, expanded),
                |k: KindPanel| kind_after_all(k, needles.take(i as int + 1), expanded));
        }
        i = i + 1;
    }
    assert(needles.take(requests@.len() as int) =~= needles);
}

/// `filter` is the kind filter chosen from `kinds` for `requested`: the
/// kinds that answer a request, in increasing order, each once.
pub open spec fn filter_chosen(filter: Seq<String>, kinds: Seq<String>, requested: Seq<String>) -> bool {
    &&& strictly_sorted(string_views(filter))
    &&& forall|x: Seq<char>| #[trigger] string_views(filter).contains(x) <==>
        (string_views(kinds).contains(x) && kind_requested(x, string_views(requested)))
}

/// The requested names of an optional list (none where absent), lower-cased.
pub open spec fn lowered_opt(v: Option<Vec<String>>) -> Seq<Seq<char>> {
    match v {
        Some(l) => lowered(l@),
        None => seq![],
    }
}

/// A kind panel after the expand requests, then the collapse requests.
pub open spec fn kind_after_requests(k: KindPanel, expand: Seq<Seq<char>>, collapse: Seq<Seq<char>>) -> KindPanel {
    kind_after_all(kind_after_all(k, expand, true), collapse, false)
}

/// `f` is window `o` after a view request's kind settings: the kind filter
/// replaced where one is given, the expand and then the collapse requests
/// applied to the kind panels.
pub open spec fn window_kinds_set(
    o: WindowState,
    f: WindowState,
    filter_kinds: Option<Vec<String>>,
    expand: Seq<Seq<char>>,
    collapse: Seq<Seq<char>>,
) -> bool {
    &&& f.expanded == o.expanded
    &&& f.kinds == o.kinds
    &&& f.search_query == o.search_query
    &&& f.highlights == o.highlights
    &&& f.highlights_enabled == o.highlights_enabled
    &&& match filter_kinds {
        Some(ks) => filter_chosen(f.kind_filter@, o.kinds@, ks@),
        None => f.kind_filter == o.kind_filter,
    }
    &&& nodes_mapped(o.nodes@, f.nodes@, |k: KindPanel| kind_after_requests(k, expand, collapse))
}

/// Expanding and collapsing keeps a kind panel's name, entry and slots.
proof fn lemma_kind_after_all_keeps(k: KindPanel, needles: Seq<Seq<char>>, expanded: bool)
    ensures
        kind_after_all(k, needles, expanded).short_name == k.short_name,
        kind_after_all(k, needles, expanded).entry_id == k.entry_id,
        kind_after_all(k, needles, expanded).slots == k.slots,
    decreases needles.len(),
{
    if needles.len() > 0 {
        lemma_kind_after_all_keeps(k, needles.drop_last(), expanded);
    }
}

impl WindowState {
    /// Applies a view request's kind settings (see [`window_kinds_set`]).
    pub fn apply_kind_requests(
        &mut self,
        filter_kinds: &Option<Vec<String>>,
        expand_kinds: &Option<Vec<String>>,
        collapse_kinds: &Option<Vec<String>>,
    )
        ensures
            window_kinds_set(*old(self), *final(self), *filter_kinds, lowered_opt(*expand_kinds),
                lowered_opt(*collapse_kinds)),
    {
        let ghost start = self.nodes@;
        if let Some(ks) = filter_kinds {
            set_kind_filter(&mut self.kind_filter, &self.kinds, ks);
        }
        let ghost mid0 = self.nodes@;
        match expand_kinds {
            Some(ks) => expand_kinds_each(&mut self.nodes, ks, true),
            None => {},
        }
        let ghost mid = self.nodes@;
        let ghost ex = lowered_opt(*expand_kinds);
        let ghost co = lowered_opt(*collapse_kinds);
        assert(nodes_mapped(start, mid, |k: KindPanel| kind_after_all(k, ex, true))) by {
            if expand_kinds.is_none() {
                assert forall|i: int| 0 <= i < start.len() implies {
                    let a = #[trigger] mid[i];
                    let b = start[i];
                    &&& a.short_name == b.short_name
                    &&& a.entry_id == b.entry_id
                    &&& a.expanded == b.expanded
                    &&& a.slots@.len() == b.slots@.len()
                    &&& forall|j: int| 0 <= j < b.slots@.len() ==> #[trigger] a.slots@[j]
                        == kind_after_all(b.slots@[j], ex, true)
                } by {
                    assert(ex.len() == 0);
                }
            }
        }
        match collapse_kinds {
            Some(ks) => expand_kinds_each(&mut self.nodes, ks, false),
            None => {},
        }
        proof {
            let fin = self.nodes@;
            if collapse_kinds.is_none() {
                assert forall|i: int| 0 <= i < mid.len() implies {
                    let a = #[trigger] fin[i];
                    let b = mid[i];
                    &&& a.short_name == b.short_name
                    &&& a.entry_id == b.entry_id
                    &&& a.expanded == b.expanded
                    &&& a.slots@.len() == b.slots@.len()
                    &&& forall|j: int| 0 <= j < b.slots@.len() ==> #[trigger] a.slots@[j]
                        == kind_after_all(b.slots@[j], co, false)
                } by {
                    assert(co.len() == 0);
                }
            }
            lemma_nodes_mapped_compose(start, mid, fin,
                |k: KindPanel| kind_after_all(k, ex, true),
                |k: KindPanel| kind_after_all(k, co, false),
                |k: KindPanel| kind_after_requests(k, ex, co));
        }
    }
}

// ───────────────────────── what keeps the rows ─────────────────────────

/// Two slot lists with the same names and entries, slot for slot.
pub open spec fn same_slot_rows(a: Seq<SlotPanel>, b: Seq<SlotPanel>) -> bool {
    &&& a.len() == b.len()
    &&& forall|k: int| 0 <= k < a.len() ==> #[trigger] a[k].short_name == b[k].short_name
        && a[k].entry_id == b[k].entry_id
}

/// Two kind lists with the same names, entries and slot rows.
pub open spec fn same_kind_rows(a: Seq<KindPanel>, b: Seq<KindPanel>) -> bool {
    &&& a.len() == b.len()
    &&& forall|j: int| 0 <= j < a.len() ==> #[trigger] a[j].short_name == b[j].short_name
        && a[j].entry_id == b[j].entry_id && same_slot_rows(a[j].slots@, b[j].slots@)
}

/// Two panel trees with the same rows: the same names and entries at every
/// place, whatever is expanded.
pub open spec fn same_rows(a: Seq<NodePanel>, b: Seq<NodePanel>) -> bool {
    &&& a.len() == b.len()
    &&& forall|i: int| 0 <= i < a.len() ==> #[trigger] a[i].short_name == b[i].short_name
        && a[i].entry_id == b[i].entry_id && same_kind_rows(a[i].slots@, b[i].slots@)
}

proof fn lemma_slot_pairs_same(prefix: Seq<char>, a: Seq<SlotPanel>, b: Seq<SlotPanel>)
    requires
        same_slot_rows(a, b),
    ensures
        crate::panel_slugs::slot_pairs(prefix, a) == crate::panel_slugs::slot_pairs(prefix, b),
    decreases a.len(),
{
    if a.len() > 0 {
        assert(a[a.len() - 1].short_name == b[b.len() - 1].short_name);
        lemma_slot_pairs_same(prefix, a.drop_last(), b.drop_last());
    }
}

proof fn lemma_kinds_pairs_same(prefix: Seq<char>, a: Seq<KindPanel>, b: Seq<KindPanel>)
    requires
        same_kind_rows(a, b),
    ensures
        kinds_pairs(prefix, a) == kinds_pairs(prefix, b),
    decreases a.len(),
{
    if a.len() > 0 {
        let n = a.len() - 1;
        assert(a[n].short_name == b[n].short_name);
        lemma_slot_pairs_same(crate::panel_slugs::child_slug(prefix, a[n].short_name@), a[n].slots@, b[n].slots@);
        lemma_kinds_pairs_same(prefix, a.drop_last(), b.drop_last());
    }
}

proof fn lemma_nodes_pairs_same(a: Seq<NodePanel>, b: Seq<NodePanel>)
    requires
        same_rows(a, b),
    ensures
        nodes_pairs(a) == nodes_pairs(b),
    decreases a.len(),
{
    if a.len() > 0 {
        let n = a.len() - 1;
        assert(a[n].short_name == b[n].short_name);
        lemma_kinds_pairs_same(crate::highlight::slug(a[n].short_name@), a[n].slots@, b[n].slots@);
        assert(node_pairs(a[n]) == node_pairs(b[n]));
        lemma_nodes_pairs_same(a.drop_last(), b.drop_last());
    }
}

/// Windows with the same rows have the same slug lookups and slot paths.
proof fn lemma_same_rows_keep(o: WindowState, f: WindowState)
    requires
        same_rows(o.nodes@, f.nodes@),
    ensures
        forall|slug: Seq<char>| #[trigger] window_lookup(f, slug) == window_lookup(o, slug),
        forall|e: Seq<EntryIndex>| #[trigger] leaf_path(f.nodes@, e) == leaf_path(o.nodes@, e),
{
    lemma_nodes_pairs_same(o.nodes@, f.nodes@);
    assert forall|e: Seq<EntryIndex>| #[trigger] leaf_path(f.nodes@, e) == leaf_path(o.nodes@, e) by {
        if e.len() == 3 && step(e, 0) < o.nodes@.len() {
            let a = step(e, 0);
            assert(o.nodes@[a].short_name == f.nodes@[a].short_name);
            assert(same_kind_rows(o.nodes@[a].slots@, f.nodes@[a].slots@));
            if 0 <= step(e, 1) < o.nodes@[a].slots@.len() {
                assert(o.nodes@[a].slots@[step(e, 1)].short_name == f.nodes@[a].slots@[step(e, 1)].short_name);
                assert(same_slot_rows(o.nodes@[a].slots@[step(e, 1)].slots@,
                    f.nodes@[a].slots@[step(e, 1)].slots@));
            }
        }
    }
}

/// Expanding along a path keeps the rows.
proof fn lemma_expanded_keeps_rows(o: Seq<NodePanel>, f: Seq<NodePanel>, e: Seq<EntryIndex>)
    requires
        leaf_path(o, e),
        expanded_along(o, f, e),
    ensures
        same_rows(o, f),
{
    let a = step(e, 0);
    let b = step(e, 1);
    let c = step(e, 2);
    assert forall|i: int| 0 <= i < o.len() implies #[trigger] o[i].short_name == f[i].short_name
        && o[i].entry_id == f[i].entry_id && same_kind_rows(o[i].slots@, f[i].slots@) by {
        if i == a {
            assert forall|j: int| 0 <= j < o[i].slots@.len() implies #[trigger] o[i].slots@[j].short_name
                == f[i].slots@[j].short_name && o[i].slots@[j].entry_id == f[i].slots@[j].entry_id
                && same_slot_rows(o[i].slots@[j].slots@, f[i].slots@[j].slots@) by {
                if j == b {
                    assert forall|k: int| 0 <= k < o[i].slots@[j].slots@.len() implies
                        #[trigger] o[i].slots@[j].slots@[k].short_name == f[i].slots@[j].slots@[k].short_name
                        && o[i].slots@[j].slots@[k].entry_id == f[i].slots@[j].slots@[k].entry_id by {
                        if k == c {
                        } else {
                            assert(f[a].slots@[b].slots@[k] == o[a].slots@[b].slots@[k]);
                        }
                    }
                } else {
                    assert(f[a].slots@[j] == o[a].slots@[j]);
                }
            }
        } else {
            assert(f[i] == o[i]);
        }
    }
}

/// A view request's kind settings never change which row a slug names in a
/// window, nor which paths are slots of its panel tree.
pub proof fn lemma_kinds_set_keeps_rows(
    o: WindowState,
    f: WindowState,
    filter_kinds: Option<Vec<String>>,
    ex: Seq<Seq<char>>,
    co: Seq<Seq<char>>,
)
    requires
        window_kinds_set(o, f, filter_kinds, ex, co),
    ensures
        forall|slug: Seq<char>| #[trigger] window_lookup(f, slug) == window_lookup(o, slug),
        forall|e: Seq<EntryIndex>| #[trigger] leaf_path(f.nodes@, e) == leaf_path(o.nodes@, e),
{
    let a = o.nodes@;
    let b = f.nodes@;
    assert forall|i: int| 0 <= i < a.len() implies #[trigger] a[i].short_name == b[i].short_name
        && a[i].entry_id == b[i].entry_id && same_kind_rows(a[i].slots@, b[i].slots@) by {
        assert forall|j: int| 0 <= j < a[i].slots@.len() implies #[trigger] a[i].slots@[j].short_name
            == b[i].slots@[j].short_name && a[i].slots@[j].entry_id == b[i].slots@[j].entry_id
            && same_slot_rows(a[i].slots@[j].slots@, b[i].slots@[j].slots@) by {
            let k = a[i].slots@[j];
            lemma_kind_after_all_keeps(k, ex, true);
            lemma_kind_after_all_keeps(kind_after_all(k, ex, true), co, false);
            assert(b[i].slots@[j] == kind_after_requests(k, ex, co));
        }
    }
    lemma_same_rows_keep(o, f);
}

/// Index of the first window with a row of slug `slug` depends only on the
/// windows' lookups.
proof fn lemma_first_window_same(w1: Seq<WindowState>, w2: Seq<WindowState>, slug: Seq<char>, i: int)
    requires
        0 <= i,
        w1.len() == w2.len(),
        forall|j: int| 0 <= j < w1.len() ==> #[trigger] window_lookup(w1[j], slug) == window_lookup(w2[j], slug),
    ensures
        first_window_from(w1, slug, i) == first_window_from(w2, slug, i),
    decreases w1.len() - i,
{
    if i < w1.len() {
        lemma_first_window_same(w1, w2, slug, i + 1);
    }
}

/// The result of scrolling to `slug` (see [`Viewer::scroll_to_slug`]):
/// windows `f` and target `ft` from windows `o` and target `ot`.
pub open spec fn scrolled(
    o: Seq<WindowState>,
    f: Seq<WindowState>,
    ot: Option<EntryID>,
    ft: Option<EntryID>,
    slug: Seq<char>,
) -> bool {
    let k = first_window_with(o, slug);
    if k < 0 {
        f == o && ft == ot
    } else {
        let e = window_lookup(o[k], slug)->0;
        &&& ft is Some
        &&& ft->0@ == e
        &&& f.len() == o.len()
        &&& forall|i: int| 0 <= i < o.len() && i != k ==> #[trigger] f[i] == o[i]
        &&& window_expanded(o[k], f[k], e)
    }
}

// ───────────────────────────── navigation ─────────────────────────────

/// The whole percent a pan request moves by: its `percent`, at least 1.
pub open spec fn pan_points(percent: i64) -> int {
    if percent < 1 { 1 } else if percent > 200 { 200 } else { percent as int }
}

/// The direction a pan request names: left for `"left"`, else right.
pub open spec fn pan_direction(direction: Seq<char>) -> PanDirection {
    if direction == "left"@ { PanDirection::Left } else { PanDirection::Right }
}

/// The view and the other navigation state stay as they are.
pub open spec fn same_navigation(o: Viewer, f: Viewer) -> bool {
    &&& f.row_scroll_delta == o.row_scroll_delta
    &&& f.show_controls == o.show_controls
}

/// What a request needs: a pan moves at most a whole view (percentages
/// above 100 are refused) inside the 64-bit time line, and a row that is
/// scrolled to is a slot.
pub open spec fn navigation_ok(v: Viewer, nav: PendingNavigation) -> bool {
    match nav {
        PendingNavigation::Pan { percent, .. } => {
            &&& percent <= 100
            &&& pan_fits(v.view.view_interval, pan_points(percent) as u8)
        },
        PendingNavigation::ScrollTo { entry_slug, .. } => scroll_target_ok(v.windows@, entry_slug@),
        PendingNavigation::SetView { entry_slug, .. } => match entry_slug {
            Some(sl) => scroll_target_ok(v.windows@, sl@),
            None => true,
        },
        _ => true,
    }
}

/// Windows `f` are windows `o` after a view request's kind settings.
pub open spec fn windows_kinds_set(
    o: Seq<WindowState>,
    f: Seq<WindowState>,
    filter_kinds: Option<Vec<String>>,
    expand: Seq<Seq<char>>,
    collapse: Seq<Seq<char>>,
) -> bool {
    &&& f.len() == o.len()
    &&& forall|i: int| 0 <= i < o.len() ==> #[trigger] window_kinds_set(o[i], f[i], filter_kinds,
        expand, collapse)
}

/// The viewer `f` after request `nav` on viewer `o`.
pub open spec fn navigated(o: Viewer, f: Viewer, nav: PendingNavigation) -> bool {
    &&& same_navigation(o, f)
    &&& match nav {
        PendingNavigation::Screenshot { .. } => f == o,
        PendingNavigation::Zoom { start_ns, stop_ns, .. } => {
            &&& f.view@ == zoomed(o.view@, Interval { start: Timestamp(start_ns), stop: Timestamp(stop_ns) })
            &&& f.windows == o.windows
            &&& f.scroll_to_entry == o.scroll_to_entry
        },
        PendingNavigation::Pan { direction, percent, .. } => {
            &&& f.view@ == updated(o.view@, panned_range(o.view.view_interval, pan_points(percent) as u8,
                pan_direction(direction@)), IntervalOrigin::Pan)
            &&& f.windows == o.windows
            &&& f.scroll_to_entry == o.scroll_to_entry
        },
        PendingNavigation::ScrollTo { entry_slug, .. } => {
            &&& f.view == o.view
            &&& scrolled(o.windows@, f.windows@, o.scroll_to_entry, f.scroll_to_entry, entry_slug@)
        },
        PendingNavigation::SetView { start_ns, stop_ns, entry_slug, filter_kinds, expand_kinds, collapse_kinds, .. } => {
            &&& f.view@ == zoomed(o.view@, Interval { start: Timestamp(start_ns), stop: Timestamp(stop_ns) })
            &&& exists|mid: Seq<WindowState>| {
                &&& #[trigger] windows_kinds_set(o.windows@, mid, filter_kinds, lowered_opt(expand_kinds),
                    lowered_opt(collapse_kinds))
                &&& match entry_slug {
                    Some(sl) => scrolled(mid, f.windows@, o.scroll_to_entry, f.scroll_to_entry, sl@),
                    None => f.windows@ == mid && f.scroll_to_entry == o.scroll_to_entry,
                }
            }
        },
        PendingNavigation::Search { query, .. } => {
            &&& f.view == o.view
            &&& f.scroll_to_entry == o.scroll_to_entry
            &&& f.windows@.len() == o.windows@.len()
            &&& forall|i: int| 0 <= i < o.windows@.len() ==> {
                let a = #[trigger] f.windows@[i];
                let b = o.windows@[i];
                &&& a.search_query@ == query@
                &&& a.expanded == b.expanded && a.nodes == b.nodes && a.kinds == b.kinds
                &&& a.highlights == b.highlights && a.highlights_enabled == b.highlights_enabled
                &&& a.kind_filter == b.kind_filter
            }
        },
        PendingNavigation::ResetView { .. } => {
            &&& f.view@ == zoomed(o.view@, o.view.total_interval)
            &&& f.scroll_to_entry == o.scroll_to_entry
            &&& f.windows@.len() == o.windows@.len()
            &&& forall|i: int| 0 <= i < o.windows@.len() ==> {
                let a = #[trigger] f.windows@[i];
                let b = o.windows@[i];
                &&& a.search_query@.len() == 0
                &&& a.kind_filter@.len() == 0
                &&& a.expanded == b.expanded && a.nodes == b.nodes && a.kinds == b.kinds
                &&& a.highlights == b.highlights && a.highlights_enabled == b.highlights_enabled
            }
        },
    }
}

impl Viewer {
    /// Applies a view request's kind settings to every window, then scrolls
    /// to the requested row, if any.
    fn set_view_windows(
        &mut self,
        entry_slug: &Option<String>,
        filter_kinds: &Option<Vec<String>>,
        expand_kinds: &Option<Vec<String>>,
        collapse_kinds: &Option<Vec<String>>,
    )
        requires
            match *entry_slug {
                Some(sl) => scroll_target_ok(old(self).windows@, sl@),
                None => true,
            },
        ensures
            final(self).view == old(self).view,
            same_navigation(*old(self), *final(self)),
            exists|mid: Seq<WindowState>| {
                &&& #[trigger] windows_kinds_set(old(self).windows@, mid, *filter_kinds,
                    lowered_opt(*expand_kinds), lowered_opt(*collapse_kinds))
                &&& match *entry_slug {
                    Some(sl) => scrolled(mid, final(self).windows@, old(self).scroll_to_entry,
                        final(self).scroll_to_entry, sl@),
                    None => final(self).windows@ == mid && final(self).scroll_to_entry
                        == old(self).scroll_to_entry,
                }
            },
    {
        let ghost ow = self.windows@;
        let ghost ex = lowered_opt(*expand_kinds);
        let ghost co = lowered_opt(*collapse_kinds);
        let mut i: usize = 0;
        while i < self.windows.len()
            invariant
                i <= ow.len(),
                self.windows@.len() == ow.len(),
                self.view == old(self).view,
                self.row_scroll_delta == old(self).row_scroll_delta,
                self.show_controls == old(self).show_controls,
                self.scroll_to_entry == old(self).scroll_to_entry,
                ow == old(self).windows@,
                ex == lowered_opt(*expand_kinds),
                co == lowered_opt(*collapse_kinds),
                forall|j: int| 0 <= j < i ==> #[trigger] window_kinds_set(ow[j], self.windows@[j],
                    *filter_kinds, ex, co),
                forall|j: int| i <= j < ow.len() ==> #[trigger] self.windows@[j] == ow[j],
            decreases ow.len() - i,
        {
            self.windows[i].apply_kind_requests(filter_kinds, expand_kinds, collapse_kinds);
            i = i + 1;
        }
        let ghost mid = self.windows@;
        assert(windows_kinds_set(ow, mid, *filter_kinds, ex, co));
        if let Some(sl) = entry_slug {
            proof {
                assert forall|j: int| 0 <= j < mid.len() implies
                    #[trigger] window_lookup(mid[j], sl@) == window_lookup(ow[j], sl@)
                    && (forall|e: Seq<EntryIndex>| #[trigger] leaf_path(mid[j].nodes@, e)
                        == leaf_path(ow[j].nodes@, e)) by {
                    lemma_kinds_set_keeps_rows(ow[j], mid[j], *filter_kinds, ex, co);
                }
                lemma_first_window_same(mid, ow, sl@, 0);
                let k = first_window_with(mid, sl@);
                if 0 <= k < mid.len() {
                    assert(window_lookup(mid[k], sl@) == window_lookup(ow[k], sl@));
                    assert(leaf_path(mid[k].nodes@, window_lookup(mid[k], sl@)->0)
                        == leaf_path(ow[k].nodes@, window_lookup(ow[k], sl@)->0));
                }
                assert(scroll_target_ok(mid, sl@));
            }
            self.scroll_to_slug(sl.as_str());
        }
    }

    /// Sets every window's search query.
    fn set_search_queries(&mut self, query: &String)
        ensures
            final(self).view == old(self).view,
            same_navigation(*old(self), *final(self)),
            final(self).scroll_to_entry == old(self).scroll_to_entry,
            final(self).windows@.len() == old(self).windows@.len(),
            forall|i: int| 0 <= i < old(self).windows@.len() ==> {
                let a = #[trigger] final(self).windows@[i];
                let b = old(self).windows@[i];
                &&& a.search_query@ == query@
                &&& a.expanded == b.expanded && a.nodes == b.nodes && a.kinds == b.kinds
                &&& a.highlights == b.highlights && a.highlights_enabled == b.highlights_enabled
                &&& a.kind_filter == b.kind_filter
            },
    {
        let ghost ow = self.windows@;
        let mut i: usize = 0;
        while i < self.windows.len()
            invariant
                i <= ow.len(),
                ow == old(self).windows@,
                self.windows@.len() == ow.len(),
                self.view == old(self).view,
                self.row_scroll_delta == old(self).row_scroll_delta,
                self.show_controls == old(self).show_controls,
                self.scroll_to_entry == old(self).scroll_to_entry,
                forall|j: int| 0 <= j < i ==> {
                    let a = #[trigger] self.windows@[j];
                    let b = ow[j];
                    &&& a.search_query@ == query@
                    &&& a.expanded == b.expanded && a.nodes == b.nodes && a.kinds == b.kinds
                &&& a.highlights == b.highlights && a.highlights_enabled == b.highlights_enabled
                    &&& a.kind_filter == b.kind_filter
                },
                forall|j: int| i <= j < ow.len() ==> #[trigger] self.windows@[j] == ow[j],
            decreases ow.len() - i,
        {
            self.windows[i].search_query = query.clone();
            i = i + 1;
        }
    }

    /// Clears every window's kind filter and search query.
    fn clear_filters_and_queries(&mut self)
        ensures
            final(self).view == old(self).view,
            same_navigation(*old(self), *final(self)),
            final(self).scroll_to_entry == old(self).scroll_to_entry,
            final(self).windows@.len() == old(self).windows@.len(),
            forall|i: int| 0 <= i < old(self).windows@.len() ==> {
                let a = #[trigger] final(self).windows@[i];
                let b = old(self).windows@[i];
                &&& a.search_query@.len() == 0
                &&& a.kind_filter@.len() == 0
                &&& a.expanded == b.expanded && a.nodes == b.nodes && a.kinds == b.kinds
                &&& a.highlights == b.highlights && a.highlights_enabled == b.highlights_enabled
            },
    {
        let ghost ow = self.windows@;
        let mut i: usize = 0;
        while i < self.windows.len()
            invariant
                i <= ow.len(),
                ow == old(self).windows@,
                self.windows@.len() == ow.len(),
                self.view == old(self).view,
                self.row_scroll_delta == old(self).row_scroll_delta,
                self.show_controls == old(self).show_controls,
                self.scroll_to_entry == old(self).scroll_to_entry,
                forall|j: int| 0 <= j < i ==> {
                    let a = #[trigger] self.windows@[j];
                    let b = ow[j];
                    &&& a.search_query@.len() == 0
                    &&& a.kind_filter@.len() == 0
                    &&& a.expanded == b.expanded && a.nodes == b.nodes && a.kinds == b.kinds
                &&& a.highlights == b.highlights && a.highlights_enabled == b.highlights_enabled
                },
                forall|j: int| i <= j < ow.len() ==> #[trigger] self.windows@[j] == ow[j],
            decreases ow.len() - i,
        {
            self.windows[i].kind_filter.clear();
            self.windows[i].search_query = String::new();
            i = i + 1;
        }
    }

    /// Carries out a navigation request on the view and the windows (see
    /// [`navigated`]). The vertical scale of a view request and of a reset,
    /// and re-running the searches after a search or a reset, are left to
    /// the caller.
    pub fn apply_navigation(&mut self, nav: &PendingNavigation)
        requires
            model_wf(old(self).view@),
            navigation_ok(*old(self), *nav),
        ensures
            model_wf(final(self).view@),
            navigated(*old(self), *final(self), *nav),
    {
        match nav {
            PendingNavigation::Screenshot { .. } => {},
            PendingNavigation::Zoom { start_ns, stop_ns, .. } => {
                let interval = Interval::new(Timestamp(*start_ns), Timestamp(*stop_ns));
                self.view.zoom(interval);
            },
            PendingNavigation::Pan { direction, percent, .. } => {
                let pct: i64 = if *percent < 1 { 1 } else if *percent > 200 { 200 } else { *percent };
                let d = chars_of(direction.as_str());
                let left = chars_of("left");
                let dir = if chars_eq(d.as_slice(), left.as_slice()) {
                    PanDirection::Left
                } else {
                    PanDirection::Right
                };
                self.view.pan(pct as u8, dir);
            },
            PendingNavigation::ScrollTo { entry_slug, .. } => {
                self.scroll_to_slug(entry_slug.as_str());
            },
            PendingNavigation::SetView {
                start_ns,
                stop_ns,
                entry_slug,
                filter_kinds,
                expand_kinds,
                collapse_kinds,
                ..
            } => {
                let interval = Interval::new(Timestamp(*start_ns), Timestamp(*stop_ns));
                self.view.zoom(interval);
                self.set_view_windows(entry_slug, filter_kinds, expand_kinds, collapse_kinds);
            },
            PendingNavigation::Search { query, .. } => {
                self.set_search_queries(query);
            },
            PendingNavigation::ResetView { .. } => {
                let total = self.view.total_interval;
                self.view.zoom(total);
                self.clear_filters_and_queries();
            },
        }
    }
}

// ───────────────────────────── highlights ─────────────────────────────

/// The id after `x` (wrapping after `u64::MAX`).
pub open spec fn next_id(x: u64) -> u64 {
    if x == u64::MAX { 0 } else { (x + 1) as u64 }
}

/// `h` is the overlay that agent highlight `hl` becomes under id `id`.
pub open spec fn overlay_of(h: AiHighlight, id: u64, hl: Highlight) -> bool {
    &&& h.id == id
    &&& h.interval.start.0 == hl.start_ns
    &&& h.interval.stop.0 == hl.stop_ns
    &&& h.label@ == hl.label@
    &&& h.item_uid is None
    &&& h.enabled
}

/// Window `w1` and next id `id1` after applying agent highlight `hl` to
/// window `w0` with next id `id0`: where the window has the highlight's
/// row, the row is expanded into view and gets the overlay (see
/// [`pushed`]), which takes the next id, and with `enable` the window's
/// overlays are switched on; otherwise nothing changes.
pub open spec fn highlight_applied(
    w0: WindowState,
    w1: WindowState,
    id0: u64,
    id1: u64,
    hl: Highlight,
    enable: bool,
) -> bool {
    match window_lookup(w0, hl.entry_slug@) {
        None => w1 == w0 && id1 == id0,
        Some(e) => {
            &&& id1 == next_id(id0)
            &&& w1.expanded
            &&& expanded_along(w0.nodes@, w1.nodes@, e)
            &&& w1.kinds == w0.kinds
            &&& w1.kind_filter == w0.kind_filter
            &&& w1.search_query == w0.search_query
            &&& w1.highlights_enabled == (enable || w0.highlights_enabled)
            &&& exists|h: AiHighlight| #[trigger] overlay_of(h, id0, hl)
                && table_view(w1.highlights@) == pushed(table_view(w0.highlights@), e, h)
        },
    }
}

/// The rows that agent highlights name in a window are slots.
pub open spec fn highlight_targets_ok(w: WindowState, hl: Highlight) -> bool {
    window_lookup(w, hl.entry_slug@) is Some ==> leaf_path(w.nodes@, window_lookup(w, hl.entry_slug@)->0)
}

impl WindowState {
    /// Applies agent highlight `hl` to this window (see
    /// [`highlight_applied`]); returns the row's entry where it has one.
    pub fn apply_highlight(&mut self, ids: &mut HighlightIds, hl: &Highlight) -> (r: Option<EntryID>)
        requires
            highlight_targets_ok(*old(self), *hl),
        ensures
            highlight_applied(*old(self), *final(self), old(ids).next, final(ids).next, *hl, false),
            (match r {
                Some(e) => window_lookup(*old(self), hl.entry_slug@) == Some(e@),
                None => window_lookup(*old(self), hl.entry_slug@) is None,
            }),
    {
        let pairs = build_slug_map(&self.nodes);
        match lookup_slug(&pairs, hl.entry_slug.as_str()) {
            None => None,
            Some(e) => {
                self.expand_slot(&e);
                let h = highlight_to_ai(ids, hl);
                let ghost hg = h;
                push_highlight(&mut self.highlights, &e, h);
                assert(overlay_of(hg, old(ids).next, *hl));
                Some(e)
            },
        }
    }
}

/// Windows `f` come from windows `o` by applying `hl` to each in turn,
/// window `i` starting from next id `ids[i]` and leaving `ids[i + 1]`.
pub open spec fn windows_highlighted(
    o: Seq<WindowState>,
    f: Seq<WindowState>,
    ids: Seq<u64>,
    hl: Highlight,
    enable: bool,
) -> bool {
    &&& f.len() == o.len()
    &&& ids.len() == o.len() + 1
    &&& forall|i: int| 0 <= i < o.len() ==> #[trigger] highlight_applied(o[i], f[i], ids[i], ids[i + 1], hl, enable)
}

/// The entry that slug `slug` names in the first window that has it.
pub open spec fn first_window_entry(ws: Seq<WindowState>, slug: Seq<char>) -> Option<Seq<EntryIndex>> {
    let k = first_window_with(ws, slug);
    if k < 0 { None } else { window_lookup(ws[k], slug) }
}

impl Viewer {
    /// Applies agent highlight `hl` to every window that has its row (see
    /// [`highlight_applied`], overlays switched on there); returns the
    /// row's entry in the first such window.
    pub fn apply_one_highlight(&mut self, ids: &mut HighlightIds, hl: &Highlight) -> (r: Option<EntryID>)
        requires
            forall|i: int| 0 <= i < old(self).windows@.len() ==> #[trigger] highlight_targets_ok(old(self).windows@[i], *hl),
        ensures
            final(self).view == old(self).view,
            same_navigation(*old(self), *final(self)),
            final(self).scroll_to_entry == old(self).scroll_to_entry,
            exists|idseq: Seq<u64>| {
                &&& #[trigger] windows_highlighted(old(self).windows@, final(self).windows@, idseq, *hl, true)
                &&& idseq[0] == old(ids).next
                &&& idseq.last() == final(ids).next
            },
            (match r {
                Some(e) => first_window_entry(old(self).windows@, hl.entry_slug@) == Some(e@),
                None => first_window_entry(old(self).windows@, hl.entry_slug@) is None,
            }),
    {
        proof {
            lemma_first_window_from(self.windows@, hl.entry_slug@, 0);
        }
        let ghost ow = self.windows@;
        let ghost mut idseq: Seq<u64> = seq![ids.next];
        let mut found: Option<EntryID> = None;
        let mut i: usize = 0;
        while i < self.windows.len()
            invariant
                i <= ow.len(),
                ow == old(self).windows@,
                self.windows@.len() == ow.len(),
                self.view == old(self).view,
                self.row_scroll_delta == old(self).row_scroll_delta,
                self.show_controls == old(self).show_controls,
                self.scroll_to_entry == old(self).scroll_to_entry,
                forall|j: int| 0 <= j < ow.len() ==> #[trigger] highlight_targets_ok(ow[j], *hl),
                idseq.len() == i + 1,
                idseq[0] == old(ids).next,
                idseq.last() == ids.next,
                forall|j: int| 0 <= j < i ==> #[trigger] highlight_applied(ow[j], self.windows@[j], idseq[j],
                    idseq[j + 1], *hl, true),
                forall|j: int| i <= j < ow.len() ==> #[trigger] self.windows@[j] == ow[j],
                (match found {
                    Some(e) => first_window_entry(ow, hl.entry_slug@) == Some(e@),
                    None => forall|j: int| 0 <= j < i ==> #[trigger] window_lookup(ow[j], hl.entry_slug@) is None,
                }),
            decreases ow.len() - i,
        {
            let ghost before = self.windows@[i as int];
            let ghost id_before = ids.next;
            let hit = self.windows[i].apply_highlight(ids, hl);
            if hit.is_some() {
                self.windows[i].highlights_enabled = true;
            }
            proof {
                idseq = idseq.push(ids.next);
                assert(idseq[i as int] == id_before);
                if hit.is_none() {
                    assert(self.windows@[i as int] == before);
                }
                assert(highlight_applied(ow[i as int], self.windows@[i as int], idseq[i as int],
                    idseq[i + 1], *hl, true));
            }
            if found.is_none() {
                if let Some(e) = hit {
                    proof {
                        lemma_first_window_from(ow, hl.entry_slug@, 0);
                        assert(window_lookup(ow[i as int], hl.entry_slug@) is Some);
                        assert(first_window_with(ow, hl.entry_slug@) == i);
                    }
                    found = Some(e);
                }
            }
            i = i + 1;
        }
        proof {
            lemma_first_window_from(ow, hl.entry_slug@, 0);
            assert(windows_highlighted(ow, self.windows@, idseq, *hl, true));
        }
        found
    }
}

/// Applying a highlight keeps a window's rows.
proof fn lemma_highlight_keeps_rows(w0: WindowState, w1: WindowState, id0: u64, id1: u64, hl: Highlight, enable: bool)
    requires
        highlight_targets_ok(w0, hl),
        highlight_applied(w0, w1, id0, id1, hl, enable),
    ensures
        same_rows(w0.nodes@, w1.nodes@),
        forall|slug: Seq<char>| #[trigger] window_lookup(w1, slug) == window_lookup(w0, slug),
        forall|e: Seq<EntryIndex>| #[trigger] leaf_path(w1.nodes@, e) == leaf_path(w0.nodes@, e),
{
    match window_lookup(w0, hl.entry_slug@) {
        None => {
            assert(same_rows(w0.nodes@, w1.nodes@)) by {
                assert forall|i: int| 0 <= i < w0.nodes@.len() implies #[trigger] w0.nodes@[i].short_name
                    == w1.nodes@[i].short_name && w0.nodes@[i].entry_id == w1.nodes@[i].entry_id
                    && same_kind_rows(w0.nodes@[i].slots@, w1.nodes@[i].slots@) by {
                    assert(w1.nodes@[i] == w0.nodes@[i]);
                }
            }
        },
        Some(e) => {
            lemma_expanded_keeps_rows(w0.nodes@, w1.nodes@, e);
        },
    }
    lemma_same_rows_keep(w0, w1);
}

/// An agent's highlight request: the highlight, and whether to frame it.
#[derive(Clone, Debug)]
pub struct HighlightAction {
    pub highlight: Highlight,
    pub zoom_to: bool,
}

/// Windows `ws` with next ids `is`: each action in turn applied to the
/// window before it.
pub open spec fn actions_chain(ws: Seq<WindowState>, is: Seq<u64>, actions: Seq<HighlightAction>) -> bool {
    &&& ws.len() == actions.len() + 1
    &&& is.len() == actions.len() + 1
    &&& forall|k: int| 0 <= k < actions.len() ==> #[trigger] highlight_applied(ws[k], ws[k + 1], is[k],
        is[k + 1], actions[k].highlight, false)
}

/// Window `f` is window `o` after the actions in turn (next ids from `id0`
/// to `id1`), with its overlays switched on where it then holds any.
pub open spec fn window_actions_applied(
    o: WindowState,
    f: WindowState,
    id0: u64,
    id1: u64,
    actions: Seq<HighlightAction>,
) -> bool {
    exists|ws: Seq<WindowState>, is: Seq<u64>| {
        &&& #[trigger] actions_chain(ws, is, actions)
        &&& ws[0] == o
        &&& is[0] == id0
        &&& is.last() == id1
        &&& f == (WindowState {
            highlights_enabled: ws.last().highlights@.len() > 0 || ws.last().highlights_enabled,
            ..ws.last()
        })
    }
}

/// The entry of the first action from `j` on whose row window `w` has.
pub open spec fn first_hit_in(w: WindowState, actions: Seq<HighlightAction>, j: int) -> Option<Seq<EntryIndex>>
    decreases actions.len() - j,
{
    if j < 0 || j >= actions.len() {
        None
    } else {
        match window_lookup(w, actions[j].highlight.entry_slug@) {
            Some(e) => Some(e),
            None => first_hit_in(w, actions, j + 1),
        }
    }
}

impl WindowState {
    /// Applies the highlight actions in turn (see
    /// [`window_actions_applied`]); returns the entry of the first one whose
    /// row the window has.
    pub fn apply_highlight_actions(&mut self, ids: &mut HighlightIds, actions: &Vec<HighlightAction>) -> (r: Option<EntryID>)
        requires
            forall|k: int| 0 <= k < actions@.len() ==> #[trigger] highlight_targets_ok(*old(self), actions@[k].highlight),
        ensures
            window_actions_applied(*old(self), *final(self), old(ids).next, final(ids).next, actions@),
            (match r {
                Some(e) => first_hit_in(*old(self), actions@, 0) == Some(e@),
                None => first_hit_in(*old(self), actions@, 0) is None,
            }),
    {
        let ghost w0 = *self;
        let ghost mut ws: Seq<WindowState> = seq![*self];
        let ghost mut is: Seq<u64> = seq![ids.next];
        let mut first: Option<EntryID> = None;
        let mut k: usize = 0;
        while k < actions.len()
            invariant
                k <= actions@.len(),
                w0 == *old(self),
                ws.len() == k + 1,
                is.len() == k + 1,
                ws[0] == w0,
                is[0] == old(ids).next,
                ws.last() == *self,
                is.last() == ids.next,
                forall|t: int| 0 <= t < k ==> #[trigger] highlight_applied(ws[t], ws[t + 1], is[t], is[t + 1],
                    actions@[t].highlight, false),
                forall|t: int| 0 <= t < actions@.len() ==> #[trigger] highlight_targets_ok(w0, actions@[t].highlight),
                forall|slug: Seq<char>| #[trigger] window_lookup(*self, slug) == window_lookup(w0, slug),
                forall|e: Seq<EntryIndex>| #[trigger] leaf_path(self.nodes@, e) == leaf_path(w0.nodes@, e),
                (match first {
                    Some(e) => first_hit_in(w0, actions@, 0) == Some(e@),
                    None => first_hit_in(w0, actions@, 0) == first_hit_in(w0, actions@, k as int),
                }),
            decreases actions@.len() - k,
        {
            let ghost before = *self;
            let ghost id_before = ids.next;
            let hl = &actions[k].highlight;
            proof {
                assert(highlight_targets_ok(w0, *hl));
                assert(window_lookup(before, hl.entry_slug@) == window_lookup(w0, hl.entry_slug@));
            }
            let hit = self.apply_highlight(ids, hl);
            proof {
                lemma_highlight_keeps_rows(before, *self, id_before, ids.next, *hl, false);
                ws = ws.push(*self);
                is = is.push(ids.next);
                assert(ws[k as int] == before);
                assert(is[k as int] == id_before);
            }
            if first.is_none() {
                first = hit;
            }
            k = k + 1;
        }
        if self.highlights.len() > 0 {
            self.highlights_enabled = true;
        }
        proof {
            assert(actions_chain(ws, is, actions@));
        }
        first
    }
}

/// Windows `c` are windows `o` with their overlays removed where `clear`
/// is set, and `o` itself otherwise.
pub open spec fn cleared_if(o: Seq<WindowState>, c: Seq<WindowState>, clear: bool) -> bool {
    if clear {
        &&& c.len() == o.len()
        &&& forall|i: int| 0 <= i < o.len() ==> {
            let a = #[trigger] c[i];
            let b = o[i];
            &&& a.highlights@.len() == 0
            &&& a.expanded == b.expanded && a.nodes == b.nodes && a.kinds == b.kinds
            &&& a.kind_filter == b.kind_filter && a.search_query == b.search_query
            &&& a.highlights_enabled == b.highlights_enabled
        }
    } else {
        c == o
    }
}

/// Windows `f` come from windows `o` by the actions, window after window,
/// window `i` starting from next id `idseq[i]` and leaving `idseq[i + 1]`.
pub open spec fn windows_actions_applied(
    o: Seq<WindowState>,
    f: Seq<WindowState>,
    idseq: Seq<u64>,
    actions: Seq<HighlightAction>,
) -> bool {
    &&& f.len() == o.len()
    &&& idseq.len() == o.len() + 1
    &&& forall|i: int| 0 <= i < o.len() ==> #[trigger] window_actions_applied(o[i], f[i], idseq[i],
        idseq[i + 1], actions)
}

/// The entry of the first action, in the first window from `i` on that has
/// the row of one.
pub open spec fn first_hit_from(ws: Seq<WindowState>, actions: Seq<HighlightAction>, i: int) -> Option<Seq<EntryIndex>>
    decreases ws.len() - i,
{
    if i < 0 || i >= ws.len() {
        None
    } else {
        match first_hit_in(ws[i], actions, 0) {
            Some(e) => Some(e),
            None => first_hit_from(ws, actions, i + 1),
        }
    }
}

/// The earliest start and latest stop of the actions that ask to be framed.
pub open spec fn zoom_bounds(actions: Seq<HighlightAction>) -> Option<(i64, i64)>
    decreases actions.len(),
{
    if actions.len() == 0 {
        None
    } else {
        let r = zoom_bounds(actions.drop_last());
        let a = actions.last();
        if !a.zoom_to {
            r
        } else {
            match r {
                None => Some((a.highlight.start_ns, a.highlight.stop_ns)),
                Some((s, e)) => Some((
                    if a.highlight.start_ns < s { a.highlight.start_ns } else { s },
                    if a.highlight.stop_ns > e { a.highlight.stop_ns } else { e },
                )),
            }
        }
    }
}

/// The margin around a framed span: a tenth of it, at least a microsecond.
pub open spec fn frame_pad(start: i64, stop: i64) -> int {
    let t = div_trunc(stop - start, 10);
    if t > 1000 { t } else { 1000 }
}

/// The view that frames `[start, stop)` with its margin.
pub open spec fn framed(start: i64, stop: i64) -> Interval {
    let p = frame_pad(start, stop);
    Interval { start: Timestamp((start - p) as i64), stop: Timestamp((stop + p) as i64) }
}

/// The framed view stays inside the 64-bit time line.
pub open spec fn frame_fits(actions: Seq<HighlightAction>) -> bool {
    match zoom_bounds(actions) {
        None => true,
        Some((s, e)) => {
            &&& fits_i64(e - s)
            &&& fits_i64(s - frame_pad(s, e))
            &&& fits_i64(e + frame_pad(s, e))
        },
    }
}

impl Viewer {
    /// Removes every window's overlays.
    fn clear_window_highlights(&mut self)
        ensures
            final(self).view == old(self).view,
            same_navigation(*old(self), *final(self)),
            final(self).scroll_to_entry == old(self).scroll_to_entry,
            cleared_if(old(self).windows@, final(self).windows@, true),
    {
        let ghost ow = self.windows@;
        let mut i: usize = 0;
        while i < self.windows.len()
            invariant
                i <= ow.len(),
                ow == old(self).windows@,
                self.windows@.len() == ow.len(),
                self.view == old(self).view,
                self.row_scroll_delta == old(self).row_scroll_delta,
                self.show_controls == old(self).show_controls,
                self.scroll_to_entry == old(self).scroll_to_entry,
                forall|j: int| 0 <= j < i ==> {
                    let a = #[trigger] self.windows@[j];
                    let b = ow[j];
                    &&& a.highlights@.len() == 0
                    &&& a.expanded == b.expanded && a.nodes == b.nodes && a.kinds == b.kinds
                    &&& a.kind_filter == b.kind_filter && a.search_query == b.search_query
                    &&& a.highlights_enabled == b.highlights_enabled
                },
                forall|j: int| i <= j < ow.len() ==> #[trigger] self.windows@[j] == ow[j],
            decreases ow.len() - i,
        {
            self.windows[i].highlights.clear();
            i = i + 1;
        }
    }

    /// The earliest start and latest stop of the actions to frame.
    fn zoom_bounds_of(actions: &Vec<HighlightAction>) -> (r: Option<(i64, i64)>)
        ensures
            r == zoom_bounds(actions@),
    {
        let mut r: Option<(i64, i64)> = None;
        let mut k: usize = 0;
        while k < actions.len()
            invariant
                k <= actions@.len(),
                r == zoom_bounds(actions@.take(k as int)),
            decreases actions@.len() - k,
        {
            proof {
                assert(actions@.take(k as int + 1).drop_last() =~= actions@.take(k as int));
                assert(actions@.take(k as int + 1).last() == actions@[k as int]);
            }
            let a = &actions[k];
            if a.zoom_to {
                r = match r {
                    None => Some((a.highlight.start_ns, a.highlight.stop_ns)),
                    Some((s, e)) => Some((
                        if a.highlight.start_ns < s { a.highlight.start_ns } else { s },
                        if a.highlight.stop_ns > e { a.highlight.stop_ns } else { e },
                    )),
                };
            }
            k = k + 1;
        }
        assert(actions@.take(actions@.len() as int) =~= actions@);
        r
    }
}

proof fn lemma_first_hit_in_nodes(w1: WindowState, w2: WindowState, actions: Seq<HighlightAction>, j: int)
    requires
        w1.nodes == w2.nodes,
    ensures
        first_hit_in(w1, actions, j) == first_hit_in(w2, actions, j),
    decreases actions.len() - j,
{
    if 0 <= j < actions.len() {
        lemma_first_hit_in_nodes(w1, w2, actions, j + 1);
    }
}

proof fn lemma_first_hit_from_nodes(w1: Seq<WindowState>, w2: Seq<WindowState>, actions: Seq<HighlightAction>, i: int)
    requires
        w1.len() == w2.len(),
        forall|j: int| 0 <= j < w1.len() ==> #[trigger] w1[j].nodes == w2[j].nodes,
    ensures
        first_hit_from(w1, actions, i) == first_hit_from(w2, actions, i),
    decreases w1.len() - i,
{
    if 0 <= i < w1.len() {
        lemma_first_hit_in_nodes(w1[i], w2[i], actions, 0);
        lemma_first_hit_from_nodes(w1, w2, actions, i + 1);
    }
}

impl Viewer {
    /// Carries out the chat panel's highlight requests: optionally removes
    /// all overlays first; then, where there are actions, applies them to
    /// every window in turn (see [`window_actions_applied`]), scrolls to the
    /// first row any of them found, and frames the actions that ask for it
    /// (their earliest start to latest stop, with a tenth as margin, at
    /// least a microsecond).
    pub fn apply_panel_actions(&mut self, ids: &mut HighlightIds, clear_highlights: bool, actions: &Vec<HighlightAction>)
        requires
            model_wf(old(self).view@),
            forall|i: int, k: int| 0 <= i < old(self).windows@.len() && 0 <= k < actions@.len() ==>
                #[trigger] highlight_targets_ok(old(self).windows@[i], actions@[k].highlight),
            frame_fits(actions@),
        ensures
            model_wf(final(self).view@),
            same_navigation(*old(self), *final(self)),
            exists|c: Seq<WindowState>| {
                &&& #[trigger] cleared_if(old(self).windows@, c, clear_highlights)
                &&& if actions@.len() == 0 {
                    &&& final(self).windows@ == c
                    &&& final(ids).next == old(ids).next
                    &&& final(self).view == old(self).view
                    &&& final(self).scroll_to_entry == old(self).scroll_to_entry
                } else {
                    &&& exists|idseq: Seq<u64>| {
                        &&& #[trigger] windows_actions_applied(c, final(self).windows@, idseq, actions@)
                        &&& idseq[0] == old(ids).next
                        &&& idseq.last() == final(ids).next
                    }
                    &&& match first_hit_from(old(self).windows@, actions@, 0) {
                        Some(e) => final(self).scroll_to_entry is Some && final(self).scroll_to_entry->0@ == e,
                        None => final(self).scroll_to_entry == old(self).scroll_to_entry,
                    }
                    &&& match zoom_bounds(actions@) {
                        Some((s, e)) => final(self).view@ == zoomed(old(self).view@, framed(s, e)),
                        None => final(self).view == old(self).view,
                    }
                }
            },
    {
        let ghost ow = self.windows@;
        if clear_highlights {
            self.clear_window_highlights();
        }
        let ghost c = self.windows@;
        assert(cleared_if(ow, c, clear_highlights));
        proof {
            assert forall|j: int| 0 <= j < c.len() implies #[trigger] c[j].nodes == ow[j].nodes by {}
            lemma_first_hit_from_nodes(c, ow, actions@, 0);
        }
        if actions.len() == 0 {
            return;
        }
        let ghost mut idseq: Seq<u64> = seq![ids.next];
        let mut first: Option<EntryID> = None;
        let mut i: usize = 0;
        while i < self.windows.len()
            invariant
                i <= c.len(),
                self.windows@.len() == c.len(),
                c.len() == ow.len(),
                ow == old(self).windows@,
                self.view == old(self).view,
                self.row_scroll_delta == old(self).row_scroll_delta,
                self.show_controls == old(self).show_controls,
                self.scroll_to_entry == old(self).scroll_to_entry,
                forall|j: int| 0 <= j < c.len() ==> #[trigger] c[j].nodes == ow[j].nodes,
                forall|j: int, k: int| 0 <= j < ow.len() && 0 <= k < actions@.len() ==>
                    #[trigger] highlight_targets_ok(ow[j], actions@[k].highlight),
                idseq.len() == i + 1,
                idseq[0] == old(ids).next,
                idseq.last() == ids.next,
                forall|j: int| 0 <= j < i ==> #[trigger] window_actions_applied(c[j], self.windows@[j], idseq[j],
                    idseq[j + 1], actions@),
                forall|j: int| i <= j < c.len() ==> #[trigger] self.windows@[j] == c[j],
                (match first {
                    Some(e) => first_hit_from(c, actions@, 0) == Some(e@),
                    None => first_hit_from(c, actions@, 0) == first_hit_from(c, actions@, i as int),
                }),
            decreases c.len() - i,
        {
            let ghost id_before = ids.next;
            proof {
                assert forall|k: int| 0 <= k < actions@.len() implies
                    #[trigger] highlight_targets_ok(c[i as int], actions@[k].highlight) by {
                    assert(highlight_targets_ok(ow[i as int], actions@[k].highlight));
                    assert(c[i as int].nodes == ow[i as int].nodes);
                }
            }
            let hit = self.windows[i].apply_highlight_actions(ids, actions);
            proof {
                idseq = idseq.push(ids.next);
                assert(idseq[i as int] == id_before);
            }
            if first.is_none() {
                first = hit;
            }
            i = i + 1;
        }
        proof {
            assert(windows_actions_applied(c, self.windows@, idseq, actions@));
            assert(first_hit_from(c, actions@, i as int) is None);
        }
        if let Some(e) = first {
            self.scroll_to_entry = Some(e);
        }
        match Viewer::zoom_bounds_of(actions) {
            Some((s, e)) => {
                let iv = Interval::new(Timestamp(s), Timestamp(e));
                let d: i64 = iv.duration_ns();
                let t: i64 = d / 10;
                let pad: i64 = if t > 1000 { t } else { 1000 };
                let target = iv.grow(pad);
                assert(target == framed(s, e));
                self.view.zoom(target);
            },
            None => {},
        }
        assert(cleared_if(old(self).windows@, c, clear_highlights));
        assert(windows_actions_applied(c, self.windows@, idseq, actions@));
    }
}

/// The number of rows holding overlays, over all windows.
pub open spec fn highlight_rows(ws: Seq<WindowState>) -> int
    decreases ws.len(),
{
    if ws.len() == 0 {
        0
    } else {
        highlight_rows(ws.drop_last()) + ws.last().highlights@.len()
    }
}

impl Viewer {
    /// Removes every overlay; returns how many rows held overlays.
    pub fn clear_all_highlights(&mut self) -> (n: usize)
        requires
            highlight_rows(old(self).windows@) <= usize::MAX,
        ensures
            n == highlight_rows(old(self).windows@),
            final(self).view == old(self).view,
            same_navigation(*old(self), *final(self)),
            final(self).scroll_to_entry == old(self).scroll_to_entry,
            cleared_if(old(self).windows@, final(self).windows@, true),
    {
        let ghost ow = self.windows@;
        let mut n: usize = 0;
        let mut i: usize = 0;
        while i < self.windows.len()
            invariant
                i <= ow.len(),
                ow == old(self).windows@,
                self.windows@.len() == ow.len(),
                self.view == old(self).view,
                self.row_scroll_delta == old(self).row_scroll_delta,
                self.show_controls == old(self).show_controls,
                self.scroll_to_entry == old(self).scroll_to_entry,
                highlight_rows(ow) <= usize::MAX,
                n == highlight_rows(ow.take(i as int)),
                forall|j: int| 0 <= j < i ==> {
                    let a = #[trigger] self.windows@[j];
                    let b = ow[j];
                    &&& a.highlights@.len() == 0
                    &&& a.expanded == b.expanded && a.nodes == b.nodes && a.kinds == b.kinds
                    &&& a.kind_filter == b.kind_filter && a.search_query == b.search_query
                    &&& a.highlights_enabled == b.highlights_enabled
                },
                forall|j: int| i <= j < ow.len() ==> #[trigger] self.windows@[j] == ow[j],
            decreases ow.len() - i,
        {
            proof {
                assert(ow.take(i as int + 1).drop_last() =~= ow.take(i as int));
                lemma_highlight_rows_prefix(ow, i as int + 1);
            }
            n = n + self.windows[i].highlights.len();
            self.windows[i].highlights.clear();
            i = i + 1;
        }
        assert(ow.take(ow.len() as int) =~= ow);
        n
    }
}

/// The rows of a prefix are at most the rows of the whole.
proof fn lemma_highlight_rows_prefix(ws: Seq<WindowState>, k: int)
    requires
        0 <= k <= ws.len(),
    ensures
        highlight_rows(ws.take(k)) <= highlight_rows(ws),
    decreases ws.len() - k,
{
    if k < ws.len() {
        lemma_highlight_rows_prefix(ws, k + 1);
        assert(ws.take(k + 1).drop_last() =~= ws.take(k));
    } else {
        assert(ws.take(k) =~= ws);
    }
}

} // verus!
