use legion_prof_viewer::timestamp::{Interval, Timestamp};
use legion_prof_viewer::view_history::{IntervalOrigin, IntervalState, PanDirection, ViewState};

fn iv(a: i64, b: i64) -> Interval {
    Interval { start: Timestamp(a), stop: Timestamp(b) }
}

fn fresh() -> ViewState {
    ViewState { view_interval: iv(0, 1000), total_interval: iv(0, 1000), history: IntervalState::new() }
}

#[test]
fn undo_and_redo_walk_the_history() {
    let mut v = fresh();
    v.zoom(iv(100, 200));
    v.zoom(iv(150, 200));
    assert_eq!(v.history.levels.len(), 2);
    assert_eq!(v.history.index, 1);
    v.undo_pan_zoom();
    assert_eq!(v.view_interval, iv(100, 200));
    v.undo_pan_zoom();
    assert_eq!(v.view_interval, iv(100, 200));
    assert_eq!(v.history.index, 0);
    v.redo_pan_zoom();
    assert_eq!(v.view_interval, iv(150, 200));
    v.redo_pan_zoom();
    assert_eq!(v.history.index, 1);
}

#[test]
fn zooming_to_the_current_view_records_nothing() {
    let mut v = fresh();
    v.zoom(iv(0, 1000));
    assert!(v.history.levels.is_empty());
}

#[test]
fn a_move_drops_the_redo_branch() {
    let mut v = fresh();
    v.zoom(iv(100, 200));
    v.zoom(iv(150, 200));
    v.undo_pan_zoom();
    v.zoom(iv(120, 130));
    assert_eq!(v.history.levels, vec![iv(100, 200), iv(120, 130)]);
    assert_eq!(v.history.index, 1);
    v.redo_pan_zoom();
    assert_eq!(v.view_interval, iv(120, 130));
}

#[test]
fn consecutive_pans_share_one_level() {
    let mut v = fresh();
    v.zoom(iv(150, 200));
    v.pan(50, PanDirection::Right);
    assert_eq!(v.view_interval, iv(175, 225));
    v.pan(50, PanDirection::Right);
    assert_eq!(v.view_interval, iv(200, 250));
    assert_eq!(v.history.levels.len(), 2);
    assert_eq!(v.history.origins, vec![IntervalOrigin::Zoom, IntervalOrigin::Pan]);
    v.undo_pan_zoom();
    assert_eq!(v.view_interval, iv(150, 200));
}

#[test]
fn pan_amounts_truncate_and_zero_does_nothing() {
    let mut v = fresh();
    v.pan(10, PanDirection::Left);
    assert_eq!(v.view_interval, iv(-100, 900));
    let mut w = ViewState { view_interval: iv(0, 5), total_interval: iv(0, 5), history: IntervalState::new() };
    w.pan(50, PanDirection::Right);
    assert_eq!(w.view_interval, iv(2, 7));
    w.pan(0, PanDirection::Left);
    assert_eq!(w.view_interval, iv(2, 7));
    assert_eq!(w.history.levels.len(), 1);
}

#[test]
fn zoom_in_and_out() {
    let mut v = fresh();
    v.zoom_in();
    assert_eq!(v.view_interval, iv(250, 750));
    v.zoom_in();
    assert_eq!(v.view_interval, iv(375, 625));
    v.zoom_out();
    assert_eq!(v.view_interval, iv(250, 750));
    v.zoom_out();
    v.zoom_out();
    assert_eq!(v.view_interval, iv(0, 1000));
    assert_eq!(v.history.levels.len(), 4);
}
