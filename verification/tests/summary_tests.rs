use legion_prof_viewer::summary::{resample_step_utilization, slice_utilization, SampleFormat};
use legion_prof_viewer::timestamp::{Interval, Timestamp};

/// A step-utilization point: the value in force from `time` on.
#[derive(Clone, Copy, Debug, PartialEq)]
struct UtilPoint {
    time: Timestamp,
    util: f32,
}

/// The resampled points: each plan's weighted average of the point values.
fn resample(points: &[UtilPoint], interval: Interval, num_samples: u64, format: SampleFormat) -> Vec<UtilPoint> {
    let times: Vec<Timestamp> = points.iter().map(|p| p.time).collect();
    let plans = resample_step_utilization(&times, interval, num_samples, format);
    plans
        .iter()
        .map(|p| {
            let mut sum = 0.0f64;
            for (k, w) in p.weights.iter().enumerate() {
                sum += *w as f64 * points[p.first + k].util as f64;
            }
            let util = sum / p.duration as f64;
            assert!((0.0..=1.0).contains(&util));
            UtilPoint { time: p.time, util: util as f32 }
        })
        .collect()
}

fn up(time: i64, util: f32) -> UtilPoint {
    UtilPoint { time: Timestamp(time), util }
}

#[test]
fn test_start_steps1_samples1() {
    let step_utilization = vec![up(5, 1.0)];
    let interval = Interval::new(Timestamp(0), Timestamp(10));
    let expected = vec![up(0, 0.5)];
    assert_eq!(resample(&step_utilization, interval, 1, SampleFormat::Start), expected);
}

#[test]
fn test_center_steps1_samples1() {
    let step_utilization = vec![up(5, 1.0)];
    let interval = Interval::new(Timestamp(0), Timestamp(10));
    let expected = vec![up(5, 0.5)];
    assert_eq!(resample(&step_utilization, interval, 1, SampleFormat::Center), expected);
}

#[test]
fn test_start_steps1_samples2() {
    let step_utilization = vec![up(5, 1.0)];
    let interval = Interval::new(Timestamp(0), Timestamp(10));
    let expected = vec![up(0, 0.0), up(5, 1.0)];
    assert_eq!(resample(&step_utilization, interval, 2, SampleFormat::Start), expected);
}

#[test]
fn test_center_steps1_samples2() {
    let step_utilization = vec![up(5, 1.0)];
    let interval = Interval::new(Timestamp(0), Timestamp(10));
    let expected = vec![up(2, 0.0), up(7, 1.0)];
    assert_eq!(resample(&step_utilization, interval, 2, SampleFormat::Center), expected);
}

#[test]
fn test_start_steps1_samples3() {
    let step_utilization = vec![up(5, 1.0)];
    let interval = Interval::new(Timestamp(0), Timestamp(10));
    let expected = vec![up(0, 0.0), up(3, 1.0 / 3.0), up(6, 1.0)];
    assert_eq!(resample(&step_utilization, interval, 3, SampleFormat::Start), expected);
}

#[test]
fn test_center_steps1_samples3() {
    let step_utilization = vec![up(5, 1.0)];
    let interval = Interval::new(Timestamp(0), Timestamp(10));
    let expected = vec![up(1, 0.0), up(4, 1.0 / 3.0), up(8, 1.0)];
    assert_eq!(resample(&step_utilization, interval, 3, SampleFormat::Center), expected);
}

#[test]
fn test_start_steps3_samples4() {
    let step_utilization = vec![up(5, 1.0), up(15, 0.0)];
    let interval = Interval::new(Timestamp(0), Timestamp(20));
    let expected = vec![up(0, 0.0), up(5, 1.0), up(10, 1.0), up(15, 0.0)];
    assert_eq!(resample(&step_utilization, interval, 4, SampleFormat::Start), expected);
}

#[test]
fn test_center_steps3_samples4() {
    let step_utilization = vec![up(5, 1.0), up(15, 0.0)];
    let interval = Interval::new(Timestamp(0), Timestamp(20));
    let expected = vec![up(2, 0.0), up(7, 1.0), up(12, 1.0), up(17, 0.0)];
    assert_eq!(resample(&step_utilization, interval, 4, SampleFormat::Center), expected);
}

#[test]
fn test_start_interval_subset() {
    let step_utilization = vec![up(5, 1.0), up(15, 0.0), up(25, 1.0)];
    let interval = Interval::new(Timestamp(10), Timestamp(20));
    let expected = vec![up(10, 1.0), up(13, 2.0 / 3.0), up(16, 0.0)];
    assert_eq!(resample(&step_utilization, interval, 3, SampleFormat::Start), expected);
}

#[test]
fn test_center_interval_subset() {
    let step_utilization = vec![up(5, 1.0), up(15, 0.0), up(25, 1.0)];
    let interval = Interval::new(Timestamp(10), Timestamp(20));
    let expected = vec![up(11, 1.0), up(14, 2.0 / 3.0), up(18, 0.0)];
    assert_eq!(resample(&step_utilization, interval, 3, SampleFormat::Center), expected);
}

#[test]
fn slice_keeps_point_before_and_after_interval() {
    let times = vec![Timestamp(5), Timestamp(15), Timestamp(25), Timestamp(35)];
    // From the last point before 10 through one point past 20.
    assert_eq!(slice_utilization(&times, Interval::new(Timestamp(10), Timestamp(20))), (0, 3));
    // An interval before every point starts at the first point.
    assert_eq!(slice_utilization(&times, Interval::new(Timestamp(0), Timestamp(1))), (0, 1));
    // The last point is never added past the end.
    assert_eq!(slice_utilization(&times, Interval::new(Timestamp(30), Timestamp(40))), (2, 4));
    assert_eq!(slice_utilization(&[], Interval::new(Timestamp(0), Timestamp(1))), (0, 0));
}

#[test]
fn resample_weights_partition_each_sample() {
    let times = vec![Timestamp(3), Timestamp(7), Timestamp(12)];
    let interval = Interval::new(Timestamp(0), Timestamp(20));
    for format in [SampleFormat::Start, SampleFormat::Center] {
        let plans = resample_step_utilization(&times, interval, 6, format);
        assert_eq!(plans.len(), 6);
        for p in &plans {
            let total: i64 = p.weights.iter().sum();
            // Time before the first point is in force for no point.
            assert!(total <= p.duration);
        }
    }
    // Empty and zero-sample requests take no sample.
    assert!(resample_step_utilization(&times, Interval::new(Timestamp(5), Timestamp(5)), 4, SampleFormat::Start).is_empty());
    assert!(resample_step_utilization(&times, interval, 0, SampleFormat::Start).is_empty());
}

#[test]
fn resample_skips_empty_samples() {
    // 3 ns split into 5 parts: only the non-empty parts are sampled.
    let times = vec![Timestamp(0)];
    let plans = resample_step_utilization(&times, Interval::new(Timestamp(0), Timestamp(3)), 5, SampleFormat::Start);
    let starts: Vec<i64> = plans.iter().map(|p| p.time.0).collect();
    assert_eq!(starts, vec![0, 1, 2]);
    assert!(plans.iter().all(|p| p.duration == 1 && p.weights.iter().sum::<i64>() == 1));
}

#[test]
fn out_of_order_points_stay_in_bounds() {
    let times = vec![Timestamp(40), Timestamp(5), Timestamp(30), Timestamp(i64::MIN), Timestamp(15)];
    for (a, b) in [(0, 10), (10, 20), (-5, 100), (50, 60)] {
        let (f, l) = slice_utilization(&times, Interval::new(Timestamp(a), Timestamp(b)));
        assert!(f <= l && l <= times.len());
    }
    let plans = resample_step_utilization(&times, Interval::new(Timestamp(0), Timestamp(40)), 4, SampleFormat::Start);
    assert_eq!(plans.len(), 4);
    for p in &plans {
        assert_eq!(p.duration, 10);
        assert!(p.first + p.weights.len() <= times.len());
        assert!(p.weights.iter().all(|w| (0..=10).contains(w)));
    }
}
