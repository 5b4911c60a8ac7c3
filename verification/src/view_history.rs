//! The visible time range of the timeline and its undo/redo history of
//! zooms and pans.

use vstd::prelude::*;
use crate::timestamp::{Interval, Timestamp, span, fits_i64, div_trunc};

verus! {

/// What moved the view to a level of the history.
#[derive(Clone, Copy, Debug, PartialEq, Eq, Structural)]
pub enum IntervalOrigin {
    Zoom,
    Pan,
}

/// The levels the view went through, what moved it to each, and the
/// current level.
#[derive(Clone, Debug)]
pub struct IntervalState {
    pub levels: Vec<Interval>,
    pub origins: Vec<IntervalOrigin>,
    pub index: usize,
}

impl IntervalState {
    /// An empty history.
    pub fn new() -> (r: IntervalState)
        ensures
            r.levels@.len() == 0,
            r.origins@.len() == 0,
            r.index == 0,
    {
        IntervalState { levels: Vec::new(), origins: Vec::new(), index: 0 }
    }
}

impl Default for IntervalState {
    fn default() -> (r: IntervalState)
        ensures
            r.levels@.len() == 0,
            r.origins@.len() == 0,
            r.index == 0,
    {
        IntervalState::new()
    }
}

/// The view range, the whole profile's range, and the history.
#[derive(Clone, Debug)]
pub struct ViewState {
    pub view_interval: Interval,
    pub total_interval: Interval,
    pub history: IntervalState,
}

/// Which way a pan moves the view.
#[derive(Clone, Copy, Debug, PartialEq, Eq, Structural)]
pub enum PanDirection {
    Left,
    Right,
}

/// `percent` percent of `value`, as an integer percentage applies to an
/// integer: `value * percent / 100`, the division rounding toward zero.
pub open spec fn percent_of(percent: u8, value: int) -> int {
    div_trunc(value * percent, 100)
}

/// `percentage::Percentage::from(points).apply_to(value)`: the crate makes
/// an integer percentage of `points` (it panics above 100) and applies it
/// as `value * points / 100` in `i64` arithmetic; the contract states
/// exactly that.
#[verifier::external_body]
fn apply_percentage(points: u8, value: i64) -> (r: i64)
    requires
        points <= 100,
        fits_i64(value * points),
    ensures
        r == percent_of(points, value as int),
{
    percentage::Percentage::from(points).apply_to(value)
}

/// The view moved by `percent` percent of its width, left or right.
pub open spec fn panned_range(v: Interval, percent: u8, dir: PanDirection) -> Interval {
    let d = percent_of(percent, span(v));
    let off = match dir {
        PanDirection::Left => -d,
        PanDirection::Right => d,
    };
    Interval { start: Timestamp((v.start.0 + off) as i64), stop: Timestamp((v.stop.0 + off) as i64) }
}

/// Panning keeps the width and moves the view by `percent` percent of it
/// (rounded down): to the right toward later times, to the left toward
/// earlier times, by the same amount, never more than the width.
pub proof fn lemma_pan_directions(v: Interval, percent: u8)
    requires
        v.start.0 <= v.stop.0,
        percent <= 100,
        fits_i64(v.start.0 + span(v)),
        fits_i64(v.stop.0 + span(v)),
        fits_i64(v.start.0 - span(v)),
        fits_i64(v.stop.0 - span(v)),
    ensures
        ({
            let right = panned_range(v, percent, PanDirection::Right);
            let left = panned_range(v, percent, PanDirection::Left);
            let d = right.start.0 - v.start.0;
            &&& span(right) == span(v) && span(left) == span(v)
            &&& d == (span(v) * percent) / 100
            &&& 0 <= d <= span(v)
            &&& v.start.0 - left.start.0 == d
            &&& (percent > 0 && span(v) >= 100 ==> right.start.0 > v.start.0 && left.start.0 < v.start.0)
        }),
{
    let w = span(v);
    let p = percent as int;
    assert(w * p >= 0) by (nonlinear_arith)
        requires
            w >= 0,
            p >= 0,
    ;
    assert((w * p) / 100 <= w) by (nonlinear_arith)
        requires
            w >= 0,
            0 <= p <= 100,
    ;
    assert(p > 0 && w >= 100 ==> (w * p) / 100 >= 1) by (nonlinear_arith)
        requires
            w >= 0,
            0 <= p <= 100,
    ;
}

/// What a [`ViewState`] holds, as mathematical values.
#[verifier::ext_equal]
pub struct ViewModel {
    pub current: Interval,
    pub total: Interval,
    pub levels: Seq<Interval>,
    pub origins: Seq<IntervalOrigin>,
    pub index: int,
}

impl View for ViewState {
    type V = ViewModel;

    open spec fn view(&self) -> ViewModel {
        ViewModel {
            current: self.view_interval,
            total: self.total_interval,
            levels: self.history.levels@,
            origins: self.history.origins@,
            index: self.history.index as int,
        }
    }
}

/// One origin per level, and the current level is a level of the history
/// (0 while it is empty).
pub open spec fn model_wf(m: ViewModel) -> bool {
    &&& m.levels.len() == m.origins.len()
    &&& if m.levels.len() == 0 { m.index == 0 } else { 0 <= m.index < m.levels.len() }
}

/// How many levels survive a move: all up to the current one, but a pan
/// that follows a pan replaces the current level.
pub open spec fn kept_levels(m: ViewModel, origin: IntervalOrigin) -> int {
    if m.levels.len() == 0 {
        0
    } else if m.origins[m.index] == IntervalOrigin::Pan && origin == IntervalOrigin::Pan {
        m.index
    } else {
        m.index + 1
    }
}

/// The state after moving the view to `interval`: the surviving levels,
/// then the new level, which becomes current.
pub open spec fn updated(m: ViewModel, interval: Interval, origin: IntervalOrigin) -> ViewModel {
    let k = kept_levels(m, origin);
    ViewModel {
        current: interval,
        total: m.total,
        levels: m.levels.take(k).push(interval),
        origins: m.origins.take(k).push(origin),
        index: k,
    }
}

/// The state after a zoom to `interval`: unchanged where the view is
/// already there.
pub open spec fn zoomed(m: ViewModel, interval: Interval) -> ViewModel {
    if m.current == interval {
        m
    } else {
        updated(m, interval, IntervalOrigin::Zoom)
    }
}

/// The state after stepping back one level, where there is one.
pub open spec fn undone(m: ViewModel) -> ViewModel {
    if m.index == 0 {
        m
    } else {
        ViewModel { current: m.levels[m.index - 1], index: m.index - 1, ..m }
    }
}

/// The state after stepping forward one level, where there is one.
pub open spec fn redone(m: ViewModel) -> ViewModel {
    if m.index + 1 >= m.levels.len() {
        m
    } else {
        ViewModel { current: m.levels[m.index + 1], index: m.index + 1, ..m }
    }
}

/// The range shown after zooming in: a quarter of the view cut from each
/// side (`grow` by `-duration / 4`).
pub open spec fn zoomed_in_range(v: Interval) -> Interval {
    let q = div_trunc(-span(v), 4);
    Interval { start: Timestamp((v.start.0 - q) as i64), stop: Timestamp((v.stop.0 + q) as i64) }
}

/// The range shown after zooming out: half the view added on each side,
/// cut to the whole profile.
pub open spec fn zoomed_out_range(v: Interval, total: Interval) -> Interval {
    let h = div_trunc(span(v), 2);
    let s = v.start.0 - h;
    let e = v.stop.0 + h;
    Interval {
        start: Timestamp((if s >= total.start.0 { s } else { total.start.0 as int }) as i64),
        stop: Timestamp((if e <= total.stop.0 { e } else { total.stop.0 as int }) as i64),
    }
}

/// Zooming in keeps the middle of the view: the new range lies inside the
/// old one, a quarter of the width (rounded down) cut from each side.
/// Zooming out reaches half the width beyond each side of a view that lies
/// in the whole profile, without leaving the profile: the new range holds
/// the view and lies in the profile.
pub proof fn lemma_zoom_ranges(v: Interval, total: Interval)
    requires
        v.start.0 <= v.stop.0,
    ensures
        ({
            let zin = zoomed_in_range(v);
            &&& zin.start.0 - v.start.0 == span(v) / 4
            &&& v.stop.0 - zin.stop.0 == span(v) / 4
            &&& v.start.0 <= zin.start.0 <= zin.stop.0 <= v.stop.0
        }),
        total.start.0 <= v.start.0 && v.stop.0 <= total.stop.0 ==> ({
            let zout = zoomed_out_range(v, total);
            &&& total.start.0 <= zout.start.0 <= v.start.0
            &&& v.stop.0 <= zout.stop.0 <= total.stop.0
            &&& zout.start.0 >= v.start.0 - span(v) / 2
            &&& zout.stop.0 <= v.stop.0 + span(v) / 2
            &&& (zout.start.0 == total.start.0 || zout.start.0 == v.start.0 - span(v) / 2)
            &&& (zout.stop.0 == total.stop.0 || zout.stop.0 == v.stop.0 + span(v) / 2)
        }),
{
    let w = span(v);
    assert(div_trunc(-w, 4) == -(w / 4));
    assert(w / 4 <= w / 2 && 2 * (w / 4) <= w);
}

impl ViewState {
    /// Moves the view to `interval` and records it (see [`updated`]).
    pub fn update_view_interval(&mut self, interval: Interval, origin: IntervalOrigin)
        requires
            model_wf(old(self)@),
        ensures
            model_wf(final(self)@),
            final(self)@ == updated(old(self)@, interval, origin),
    {
        let ghost m = self@;
        self.view_interval = interval;
        let index: usize = self.history.index;
        if self.history.levels.len() > 0 && self.history.origins[index] == IntervalOrigin::Pan
            && origin == IntervalOrigin::Pan
        {
            self.history.levels.truncate(index);
            self.history.origins.truncate(index);
        }
        if index < usize::MAX {
            self.history.levels.truncate(index + 1);
            self.history.origins.truncate(index + 1);
        }
        self.history.levels.push(interval);
        self.history.origins.push(origin);
        self.history.index = self.history.levels.len() - 1;
        assert(self@ =~= updated(m, interval, origin));
    }

    /// Zooms to `interval`, unless the view is already there.
    pub fn zoom(&mut self, interval: Interval)
        requires
            model_wf(old(self)@),
        ensures
            model_wf(final(self)@),
            final(self)@ == zoomed(old(self)@, interval),
    {
        if self.view_interval == interval {
            return;
        }
        self.update_view_interval(interval, IntervalOrigin::Zoom);
    }

    /// Steps back to the previous level of the history, if there is one.
    pub fn undo_pan_zoom(&mut self)
        requires
            model_wf(old(self)@),
        ensures
            model_wf(final(self)@),
            final(self)@ == undone(old(self)@),
    {
        if self.history.index == 0 {
            return;
        }
        self.history.index = self.history.index - 1;
        self.view_interval = self.history.levels[self.history.index];
    }

    /// Steps forward to the next level of the history, if there is one.
    pub fn redo_pan_zoom(&mut self)
        requires
            model_wf(old(self)@),
        ensures
            model_wf(final(self)@),
            final(self)@ == redone(old(self)@),
    {
        let n: usize = self.history.levels.len();
        if self.history.index >= n || n - self.history.index <= 1 {
            return;
        }
        self.history.index = self.history.index + 1;
        self.view_interval = self.history.levels[self.history.index];
    }

    /// Pans the view by `percent` percent of its width (nothing at 0); the
    /// move is recorded as a pan.
    pub fn pan(&mut self, percent: u8, dir: PanDirection)
        requires
            model_wf(old(self)@),
            percent <= 100,
            fits_i64(span(old(self).view_interval)),
            fits_i64(span(old(self).view_interval) * percent),
            fits_i64(old(self).view_interval.start.0 + percent_of(percent, span(old(self).view_interval))),
            fits_i64(old(self).view_interval.stop.0 + percent_of(percent, span(old(self).view_interval))),
            fits_i64(old(self).view_interval.start.0 - percent_of(percent, span(old(self).view_interval))),
            fits_i64(old(self).view_interval.stop.0 - percent_of(percent, span(old(self).view_interval))),
        ensures
            model_wf(final(self)@),
            percent == 0 ==> final(self)@ == old(self)@,
            percent != 0 ==> final(self)@ == updated(old(self)@,
                panned_range(old(self).view_interval, percent, dir), IntervalOrigin::Pan),
    {
        if percent == 0 {
            return;
        }
        let d: i64 = self.view_interval.duration_ns();
        let duration: i64 = apply_percentage(percent, d);
        let sign: i64 = match dir {
            PanDirection::Left => -1,
            PanDirection::Right => 1,
        };
        let interval = self.view_interval.translate(duration * sign);
        self.update_view_interval(interval, IntervalOrigin::Pan);
    }

    /// Zooms in on the middle half of the view.
    pub fn zoom_in(&mut self)
        requires
            model_wf(old(self)@),
            fits_i64(span(old(self).view_interval)),
            fits_i64(-span(old(self).view_interval)),
            fits_i64(old(self).view_interval.start.0 - div_trunc(-span(old(self).view_interval), 4)),
            fits_i64(old(self).view_interval.stop.0 + div_trunc(-span(old(self).view_interval), 4)),
        ensures
            model_wf(final(self)@),
            final(self)@ == zoomed(old(self)@, zoomed_in_range(old(self).view_interval)),
    {
        let d: i64 = self.view_interval.duration_ns();
        let quarter: i64 = (-d) / 4;
        let target = self.view_interval.grow(quarter);
        self.zoom(target);
    }

    /// Zooms out to twice the view, kept inside the whole profile.
    pub fn zoom_out(&mut self)
        requires
            model_wf(old(self)@),
            fits_i64(span(old(self).view_interval)),
            fits_i64(old(self).view_interval.start.0 - div_trunc(span(old(self).view_interval), 2)),
            fits_i64(old(self).view_interval.stop.0 + div_trunc(span(old(self).view_interval), 2)),
        ensures
            model_wf(final(self)@),
            final(self)@ == zoomed(old(self)@, zoomed_out_range(old(self).view_interval, old(self).total_interval)),
    {
        let d: i64 = self.view_interval.duration_ns();
        let half: i64 = d / 2;
        let target = self.view_interval.grow(half).intersection(self.total_interval);
        self.zoom(target);
    }
}

/// The view shows the current level of a non-empty history.
pub open spec fn at_current_level(m: ViewModel) -> bool {
    m.levels.len() > 0 && m.current == m.levels[m.index]
}

/// Every move, undo and redo leaves the view at the current level of the
/// history (a move, from any well-formed state).
pub proof fn lemma_view_at_current_level(m: ViewModel, interval: Interval, origin: IntervalOrigin)
    requires
        model_wf(m),
    ensures
        at_current_level(updated(m, interval, origin)),
        at_current_level(m) ==> at_current_level(undone(m)),
        at_current_level(m) ==> at_current_level(redone(m)),
{
}

/// Undoing a move returns to the view before it, and keeps the levels up to
/// that view, unless the move was a pan following a pan (which replaced the
/// current level).
pub proof fn lemma_undo_reverts_move(m: ViewModel, interval: Interval, origin: IntervalOrigin)
    requires
        model_wf(m),
        at_current_level(m),
        !(m.origins[m.index] == IntervalOrigin::Pan && origin == IntervalOrigin::Pan),
    ensures
        undone(updated(m, interval, origin)).current == m.current,
        undone(updated(m, interval, origin)).index == m.index,
        undone(updated(m, interval, origin)).levels.take(m.index + 1) == m.levels.take(m.index + 1),
{
    let u = updated(m, interval, origin);
    assert(u.levels[m.index] == m.levels[m.index]);
    assert(u.levels.take(m.index + 1) =~= m.levels.take(m.index + 1));
}

/// Redoing an undo restores the state.
pub proof fn lemma_redo_undoes_undo(m: ViewModel)
    requires
        model_wf(m),
        at_current_level(m),
        m.index > 0,
    ensures
        redone(undone(m)) == m,
{
    assert(redone(undone(m)) =~= m);
}

/// Undoing a redo restores the state.
pub proof fn lemma_undo_undoes_redo(m: ViewModel)
    requires
        model_wf(m),
        at_current_level(m),
        m.index + 1 < m.levels.len(),
    ensures
        undone(redone(m)) == m,
{
    assert(undone(redone(m)) =~= m);
}

/// After a move there is nothing to redo.
pub proof fn lemma_move_clears_redo(m: ViewModel, interval: Interval, origin: IntervalOrigin)
    requires
        model_wf(m),
    ensures
        redone(updated(m, interval, origin)) == updated(m, interval, origin),
{
}

/// A pan that follows a pan replaces the level of the first: the history
/// does not grow.
pub proof fn lemma_pans_collapse(m: ViewModel, a: Interval, b: Interval)
    requires
        model_wf(m),
    ensures
        ({
            let p = updated(m, a, IntervalOrigin::Pan);
            let q = updated(p, b, IntervalOrigin::Pan);
            &&& q.levels == p.levels.drop_last().push(b)
            &&& q.index == p.index
            &&& q.current == b
        }),
{
    let p = updated(m, a, IntervalOrigin::Pan);
    let q = updated(p, b, IntervalOrigin::Pan);
    assert(p.origins[p.index] == IntervalOrigin::Pan);
    assert(q.levels =~= p.levels.drop_last().push(b));
}

} // verus!
