//! Step-utilization slicing and resampling.
//!
//! A step utilization is a list of points sorted by time; each point's value
//! holds from its time until the next point's time (the last one holds on).
//! The values themselves are not needed to decide *which* points contribute
//! to a sample and *for how long*: this module computes exactly that, in
//! nanoseconds, and leaves the weighted average of the values to the caller.

use vstd::prelude::*;
use vstd::arithmetic::div_mod::{lemma_div_is_ordered, lemma_div_multiples_vanish};
use vstd::arithmetic::mul::lemma_mul_inequality;
use crate::timestamp::{Timestamp, Interval, div_trunc, span, fits_i64};

verus! {

/// Where a resampled point is placed within its sample interval.
#[derive(Clone, Copy, Debug, PartialEq, Eq, Structural)]
pub enum SampleFormat {
    Start,
    Center,
}

/// One resampled point: its time, the length of its sample interval, and how
/// many nanoseconds of that interval each input point is in force, as a
/// contiguous run of input indices starting at `first`.
#[derive(Clone, Debug)]
pub struct SamplePlan {
    pub time: Timestamp,
    pub duration: i64,
    pub first: usize,
    pub weights: Vec<i64>,
}

/// Times in non-decreasing order.
pub open spec fn sorted(ts: Seq<Timestamp>) -> bool {
    forall|i: int, j: int| 0 <= i <= j < ts.len() ==> ts[i].0 <= ts[j].0
}

/// Number of points strictly before `t`.
pub open spec fn count_before(ts: Seq<Timestamp>, t: int) -> nat
    decreases ts.len(),
{
    if ts.len() == 0 {
        0
    } else {
        count_before(ts.drop_last(), t) + if ts.last().0 < t { 1nat } else { 0nat }
    }
}

/// The time until which point `i` is in force, cut at `hi`: the next point's
/// time, or `hi` for the last point.
pub open spec fn next_time(ts: Seq<Timestamp>, i: int, hi: int) -> int {
    if i + 1 < ts.len() {
        ts[i + 1].0 as int
    } else {
        hi
    }
}

/// Nanoseconds of `[lo, hi)` during which point `i`'s value is in force.
pub open spec fn step_overlap(ts: Seq<Timestamp>, i: int, lo: int, hi: int) -> int {
    let e = if next_time(ts, i, hi) <= hi { next_time(ts, i, hi) } else { hi };
    let b = if ts[i].0 >= lo { ts[i].0 as int } else { lo };
    if e > b {
        e - b
    } else {
        0
    }
}

/// Start of sample `s` of `n` equal parts of `[t0, t0 + d)`.
pub open spec fn sample_bound(t0: int, d: int, n: int, s: int) -> int {
    t0 + div_trunc(d * s, n)
}

/// The number of samples actually taken (`num_samples` as a signed count).
pub open spec fn effective_samples(num_samples: u64) -> int {
    if num_samples <= i64::MAX as u64 {
        num_samples as int
    } else {
        0
    }
}

/// Indices `s < upto` whose sample interval is non-empty, in order.
pub open spec fn nonempty_samples(t0: int, d: int, n: int, upto: int) -> Seq<int>
    decreases upto,
{
    if upto <= 0 {
        seq![]
    } else if sample_bound(t0, d, n, upto) > sample_bound(t0, d, n, upto - 1) {
        nonempty_samples(t0, d, n, upto - 1).push(upto - 1)
    } else {
        nonempty_samples(t0, d, n, upto - 1)
    }
}

/// Where a sample `[lo, hi)` places its point.
pub open spec fn sample_point(format: SampleFormat, lo: int, hi: int) -> int {
    match format {
        SampleFormat::Start => lo,
        SampleFormat::Center => lo + (hi - lo) / 2,
    }
}

/// The plan `p` describes sample `[lo, hi)` over points `ts`: its point time,
/// its length, and each point's in-force duration (zero outside the run).
pub open spec fn plan_describes(
    p: SamplePlan,
    ts: Seq<Timestamp>,
    format: SampleFormat,
    lo: int,
    hi: int,
) -> bool {
    &&& p.time.0 == sample_point(format, lo, hi)
    &&& p.duration == hi - lo
    &&& p.first + p.weights@.len() <= ts.len()
    &&& forall|k: int|
        0 <= k < p.weights@.len() ==> #[trigger] p.weights@[k] == step_overlap(
            ts,
            p.first + k,
            lo,
            hi,
        )
    &&& forall|i: int|
        0 <= i < ts.len() && !(p.first <= i < p.first + p.weights@.len()) ==> step_overlap(
            ts,
            i,
            lo,
            hi,
        ) == 0
}

proof fn lemma_count_before(ts: Seq<Timestamp>, t: int, k: int)
    requires
        sorted(ts),
        0 <= k <= ts.len(),
        forall|i: int| 0 <= i < k ==> ts[i].0 < t,
        forall|i: int| k <= i < ts.len() ==> ts[i].0 >= t,
    ensures
        count_before(ts, t) == k,
    decreases ts.len(),
{
    if ts.len() > 0 {
        if k == ts.len() {
            lemma_count_before(ts.drop_last(), t, k - 1);
        } else {
            lemma_count_before(ts.drop_last(), t, k);
        }
    }
}

proof fn lemma_count_before_split(ts: Seq<Timestamp>, t: int)
    requires
        sorted(ts),
    ensures
        count_before(ts, t) <= ts.len(),
        forall|i: int| 0 <= i < count_before(ts, t) ==> ts[i].0 < t,
        forall|i: int| count_before(ts, t) <= i < ts.len() ==> ts[i].0 >= t,
    decreases ts.len(),
{
    if ts.len() > 0 {
        let p = ts.drop_last();
        assert(sorted(p));
        lemma_count_before_split(p, t);
        if ts.last().0 < t {
            assert forall|i: int| 0 <= i < ts.len() implies ts[i].0 < t by {
                assert(ts[i].0 <= ts[ts.len() - 1].0);
            }
            if count_before(p, t) < p.len() {
                let j = count_before(p, t) as int;
                assert(p[j] == ts[j]);
                assert(false);
            }
        } else {
            assert forall|i: int| 0 <= i < count_before(ts, t) implies ts[i].0 < t by {
                assert(p[i] == ts[i]);
            }
            assert forall|i: int| count_before(ts, t) <= i < ts.len() implies ts[i].0 >= t by {
                if i < ts.len() - 1 {
                    assert(p[i] == ts[i]);
                }
            }
        }
    }
}

/// First index `k` in `[lo, len]` such that every point of `ts[lo..k]` is
/// before `t` and every point of `ts[k..]` is not (binary search); on
/// unsorted points, some index in `[lo, len]`.
fn partition_before(ts: &[Timestamp], lo: usize, t: i64) -> (k: usize)
    requires
        lo <= ts@.len(),
    ensures
        lo <= k <= ts@.len(),
        sorted(ts@) ==> forall|i: int| lo <= i < k ==> ts@[i].0 < t,
        sorted(ts@) ==> forall|i: int| k <= i < ts@.len() ==> ts@[i].0 >= t,
{
    let mut a: usize = lo;
    let mut b: usize = ts.len();
    while a < b
        invariant
            lo <= a <= b <= ts@.len(),
            sorted(ts@) ==> forall|i: int| lo <= i < a ==> ts@[i].0 < t,
            sorted(ts@) ==> forall|i: int| b <= i < ts@.len() ==> ts@[i].0 >= t,
        decreases b - a,
    {
        let mid = a + (b - a) / 2;
        if ts[mid].0 < t {
            proof {
                if sorted(ts@) {
                    assert forall|i: int| lo <= i < mid + 1 implies ts@[i].0 < t by {
                        assert(ts@[i].0 <= ts@[mid as int].0);
                    }
                }
            }
            a = mid + 1;
        } else {
            proof {
                if sorted(ts@) {
                    assert forall|i: int| mid <= i < ts@.len() implies ts@[i].0 >= t by {
                        assert(ts@[mid as int].0 <= ts@[i].0);
                    }
                }
            }
            b = mid;
        }
    }
    a
}

/// The index range `[first, last)` of the points that matter for `interval`:
/// from the last point before the interval (or the first point) through the
/// points inside it, plus one point after the interval when it is not the
/// last point. On any points the range lies inside them; on points in time
/// order it is exactly that range.
pub fn slice_utilization(times: &[Timestamp], interval: Interval) -> (r: (usize, usize))
    ensures
        r.0 <= r.1 <= times@.len(),
        sorted(times@) ==> r.0 == (if count_before(times@, interval.start.0 as int) > 0 {
            count_before(times@, interval.start.0 as int) - 1
        } else {
            0
        }),
        sorted(times@) ==> ({
            let last0 = if count_before(times@, interval.stop.0 as int) >= r.0 {
                count_before(times@, interval.stop.0 as int) as int
            } else {
                r.0 as int
            };
            r.1 == if last0 + 1 < times@.len() {
                last0 + 1
            } else {
                last0
            }
        }),
{
    let c = partition_before(times, 0, interval.start.0);
    proof {
        if sorted(times@) {
            lemma_count_before(times@, interval.start.0 as int, c as int);
            lemma_count_before_split(times@, interval.stop.0 as int);
        }
    }
    let first: usize = if c > 0 { c - 1 } else { 0 };
    let k = partition_before(times, first, interval.stop.0);
    proof {
        if sorted(times@) {
            let cs = count_before(times@, interval.stop.0 as int);
            let want: int = if cs >= first { cs as int } else { first as int };
            if (k as int) < want {
                // times[k] would be both before and not before `stop`.
                assert(times@[k as int].0 >= interval.stop.0);
                assert(cs >= first && (k as int) < cs);
                assert(times@[k as int].0 < interval.stop.0);
            }
            if (k as int) > want {
                assert(times@[want].0 < interval.stop.0);
                assert(times@[want].0 >= interval.stop.0);
            }
        }
    }
    let mut last = k;
    if last < times.len() && times.len() - last > 1 {
        last = last + 1;
    }
    (first, last)
}

proof fn lemma_bound_range(d: int, n: int, s: int)
    requires
        d > 0,
        n > 0,
        0 <= s <= n,
    ensures
        0 <= d * s <= d * n,
        0 <= (d * s) / n <= d,
        div_trunc(d * s, n) == (d * s) / n,
        s < n ==> (d * s) / n <= (d * (s + 1)) / n,
        s < n ==> d * (s + 1) <= d * n,
{
    lemma_mul_inequality(s, n, d);
    assert(0 <= d * s) by (nonlinear_arith)
        requires
            d > 0,
            s >= 0,
    ;
    assert(s * d == d * s && n * d == d * n) by (nonlinear_arith);
    lemma_div_is_ordered(0, d * s, n);
    lemma_div_is_ordered(d * s, d * n, n);
    lemma_div_multiples_vanish(d, n);
    assert(n * d == d * n) by (nonlinear_arith);
    if s < n {
        assert(d * (s + 1) == d * s + d) by (nonlinear_arith);
        lemma_mul_inequality(s + 1, n, d);
        assert((s + 1) * d == d * (s + 1)) by (nonlinear_arith);
        lemma_div_is_ordered(d * s, d * (s + 1), n);
    }
}

proof fn lemma_nonpositive_no_samples(t0: int, d: int, n: int, upto: int)
    requires
        d <= 0,
        n > 0,
    ensures
        nonempty_samples(t0, d, n, upto).len() == 0,
    decreases upto,
{
    if upto > 0 {
        lemma_nonpositive_no_samples(t0, d, n, upto - 1);
        let s = upto - 1;
        assert(d * upto <= d * s && d * upto <= 0 && d * s <= 0) by (nonlinear_arith)
            requires
                d <= 0,
                s >= 0,
                upto == s + 1,
        ;
        lemma_div_is_ordered(-(d * s), -(d * upto), n);
        if d * s == 0 {
            assert(div_trunc(d * s, n) == 0) by {
                assert(0int / n == 0) by (nonlinear_arith)
                    requires
                        n > 0,
                ;
            }
        }
        if d * upto == 0 {
            assert(div_trunc(d * upto, n) == 0) by {
                assert(0int / n == 0) by (nonlinear_arith)
                    requires
                        n > 0,
                ;
            }
        }
        assert(sample_bound(t0, d, n, upto) <= sample_bound(t0, d, n, upto - 1));
    }
}

/// Facts about the points around a sample `[lo, hi)`, gathered while walking.
pub open spec fn walk_facts(
    ts: Seq<Timestamp>,
    a: int,
    b: int,
    c: int,
    e: int,
    lo: int,
    hi: int,
    start: int,
    stop: int,
) -> bool {
    &&& sorted(ts)
    &&& 0 <= a <= c <= e <= b <= ts.len()
    &&& (a > 0 ==> a < ts.len() && ts[a].0 < start)
    &&& (forall|i: int| b <= i < ts.len() ==> ts[i].0 >= stop)
    &&& (forall|i: int| a <= i < c ==> ts[i].0 < lo)
    &&& (forall|i: int| a <= i < e ==> ts[i].0 < hi)
    &&& (c < b ==> ts[c].0 >= lo)
    &&& (e < b ==> ts[e].0 >= hi)
    &&& start <= lo < hi <= stop
}

proof fn lemma_weight(
    ts: Seq<Timestamp>,
    a: int,
    b: int,
    c: int,
    e: int,
    lo: int,
    hi: int,
    start: int,
    stop: int,
    i: int,
)
    requires
        walk_facts(ts, a, b, c, e, lo, hi, start, stop),
        (if c > a { c - 1 } else { c }) <= i < e,
    ensures
        ({
            let nx = if i + 1 < e { ts[i + 1].0 as int } else { hi };
            let fr = if ts[i].0 >= lo { ts[i].0 as int } else { lo };
            &&& nx - fr == step_overlap(ts, i, lo, hi)
            &&& 0 <= nx - fr <= hi - lo
            &&& lo <= nx <= hi
            &&& lo <= fr < hi
        }),
{
    assert(i >= a);
    if i + 1 < e {
        assert(ts[i + 1].0 < hi);
        assert(c < b);
        assert(ts[c].0 <= ts[i + 1].0);
        assert(ts[i].0 <= ts[i + 1].0);
    } else {
        if e < ts.len() {
            if e < b {
                assert(ts[e].0 >= hi);
            } else {
                assert(ts[e].0 >= stop);
            }
        }
    }
}

proof fn lemma_zero_outside(
    ts: Seq<Timestamp>,
    a: int,
    b: int,
    c: int,
    e: int,
    lo: int,
    hi: int,
    start: int,
    stop: int,
)
    requires
        walk_facts(ts, a, b, c, e, lo, hi, start, stop),
    ensures
        forall|i: int|
            0 <= i < ts.len() && !((if c > a { c - 1 } else { c }) <= i < e) ==> step_overlap(
                ts,
                i,
                lo,
                hi,
            ) == 0,
{
    let first = if c > a { c - 1 } else { c };
    assert forall|i: int|
        0 <= i < ts.len() && !(first <= i < e) implies step_overlap(ts, i, lo, hi) == 0 by {
        if i < first {
            if c > a {
                assert(ts[i + 1].0 <= ts[c - 1].0);
                assert(ts[c - 1].0 < lo);
            } else {
                assert(a > 0);
                assert(ts[i + 1].0 <= ts[a].0);
            }
        } else {
            if i < b {
                assert(e < b);
                assert(ts[e].0 <= ts[i].0);
            } else {
                assert(ts[i].0 >= stop);
            }
        }
    }
}

/// `r` plans the non-empty samples of `num_samples` equal parts of
/// `interval`, in order, over the points `times`.
pub open spec fn resampled(
    r: Seq<SamplePlan>,
    times: Seq<Timestamp>,
    interval: Interval,
    num_samples: u64,
    sample_format: SampleFormat,
) -> bool {
    let t0 = interval.start.0 as int;
    let d = span(interval);
    let n = effective_samples(num_samples);
    let ns = nonempty_samples(t0, d, n, n);
    &&& r.len() == ns.len()
    &&& forall|j: int|
        0 <= j < r.len() ==> plan_describes(
            #[trigger] r[j],
            times,
            sample_format,
            sample_bound(t0, d, n as int, ns[j]),
            sample_bound(t0, d, n as int, ns[j] + 1),
        )
}

proof fn lemma_nonempty_samples_increase(t0: int, d: int, n: int, upto: int)
    ensures
        forall|i: int, j: int|
            0 <= i < j < nonempty_samples(t0, d, n, upto).len() ==> #[trigger] nonempty_samples(t0, d, n, upto)[i]
                < #[trigger] nonempty_samples(t0, d, n, upto)[j],
        forall|i: int| 0 <= i < nonempty_samples(t0, d, n, upto).len() ==> {
            let s = #[trigger] nonempty_samples(t0, d, n, upto)[i];
            0 <= s < upto && sample_bound(t0, d, n, s) < sample_bound(t0, d, n, s + 1)
        },
    decreases upto,
{
    if upto > 0 {
        lemma_nonempty_samples_increase(t0, d, n, upto - 1);
        let prev = nonempty_samples(t0, d, n, upto - 1);
        let cur = nonempty_samples(t0, d, n, upto);
        if sample_bound(t0, d, n, upto) > sample_bound(t0, d, n, upto - 1) {
            assert(cur == prev.push(upto - 1));
            assert forall|i: int, j: int| 0 <= i < j < cur.len() implies #[trigger] cur[i] < #[trigger] cur[j] by {
                if j == cur.len() - 1 {
                    assert(cur[i] == prev[i]);
                } else {
                    assert(cur[i] == prev[i] && cur[j] == prev[j]);
                }
            }
            assert forall|i: int| 0 <= i < cur.len() implies {
                let s = #[trigger] cur[i];
                0 <= s < upto && sample_bound(t0, d, n, s) < sample_bound(t0, d, n, s + 1)
            } by {
                if i < prev.len() {
                    assert(cur[i] == prev[i]);
                }
            }
        } else {
            assert(cur == prev);
        }
    }
}

proof fn lemma_bound_monotone(t0: int, d: int, n: int, a: int, b: int)
    requires
        d >= 0,
        n > 0,
        0 <= a <= b,
    ensures
        sample_bound(t0, d, n, a) <= sample_bound(t0, d, n, b),
{
    assert(d * a <= d * b) by (nonlinear_arith)
        requires
            d >= 0,
            a <= b,
    ;
    assert(d * a >= 0) by (nonlinear_arith)
        requires
            d >= 0,
            a >= 0,
    ;
    vstd::arithmetic::div_mod::lemma_div_is_ordered(d * a, d * b, n);
}

/// Resampled points come out in strictly increasing time order, each inside
/// its own sample.
pub proof fn lemma_resampled_in_time_order(
    r: Seq<SamplePlan>,
    times: Seq<Timestamp>,
    interval: Interval,
    num_samples: u64,
    sample_format: SampleFormat,
)
    requires
        resampled(r, times, interval, num_samples, sample_format),
        span(interval) >= 0,
    ensures
        forall|j: int, k: int| 0 <= j < k < r.len() ==> (#[trigger] r[j]).time.0 < (#[trigger] r[k]).time.0,
{
    let t0 = interval.start.0 as int;
    let d = span(interval);
    let n = effective_samples(num_samples);
    let ns = nonempty_samples(t0, d, n, n);
    lemma_nonempty_samples_increase(t0, d, n, n);
    assert forall|j: int, k: int| 0 <= j < k < r.len() implies (#[trigger] r[j]).time.0 < (#[trigger] r[k]).time.0 by {
        let sj = ns[j];
        let sk = ns[k];
        assert(sj < sk);
        lemma_bound_monotone(t0, d, n, sj + 1, sk);
        let lo_j = sample_bound(t0, d, n, sj);
        let hi_j = sample_bound(t0, d, n, sj + 1);
        let lo_k = sample_bound(t0, d, n, sk);
        let hi_k = sample_bound(t0, d, n, sk + 1);
        assert(plan_describes(r[j], times, sample_format, lo_j, hi_j));
        assert(plan_describes(r[k], times, sample_format, lo_k, hi_k));
        assert(lo_j < hi_j && hi_j <= lo_k && lo_k < hi_k);
        assert(sample_point(sample_format, lo_j, hi_j) < hi_j);
        assert(sample_point(sample_format, lo_k, hi_k) >= lo_k);
    }
}

/// The plan `p` has the shape of sample `[lo, hi)`: its point time, its
/// length, a run of input points inside `ts`, and weights between zero and
/// the sample's length.
pub open spec fn plan_shape(p: SamplePlan, ts: Seq<Timestamp>, format: SampleFormat, lo: int, hi: int) -> bool {
    &&& p.time.0 == sample_point(format, lo, hi)
    &&& p.duration == hi - lo
    &&& p.first + p.weights@.len() <= ts.len()
    &&& forall|k: int| 0 <= k < p.weights@.len() ==> 0 <= #[trigger] p.weights@[k] <= hi - lo
}

/// `r` has one plan of the right shape for each non-empty sample of
/// `num_samples` equal parts of `interval`, in order.
pub open spec fn resampled_shape(
    r: Seq<SamplePlan>,
    times: Seq<Timestamp>,
    interval: Interval,
    num_samples: u64,
    sample_format: SampleFormat,
) -> bool {
    let t0 = interval.start.0 as int;
    let d = span(interval);
    let n = effective_samples(num_samples);
    let ns = nonempty_samples(t0, d, n, n);
    &&& r.len() == ns.len()
    &&& forall|j: int|
        0 <= j < r.len() ==> plan_shape(
            #[trigger] r[j],
            times,
            sample_format,
            sample_bound(t0, d, n as int, ns[j]),
            sample_bound(t0, d, n as int, ns[j] + 1),
        )
}

/// Plans the resampling of a step utilization to `num_samples` equal parts
/// of `interval`: for each non-empty part, in order, its point (start or
/// center) and the nanoseconds during which each input point's value is in
/// force. The resampled value of a part is the sum of weight × value over
/// its run of points, divided by its duration. On any points every plan
/// has its shape and stays inside the points; on points in time order the
/// weights are exactly the in-force durations.
pub fn resample_step_utilization(
    times: &[Timestamp],
    interval: Interval,
    num_samples: u64,
    sample_format: SampleFormat,
) -> (r: Vec<SamplePlan>)
    requires
        fits_i64(span(interval)),
        fits_i64(span(interval) * effective_samples(num_samples)),
    ensures
        resampled_shape(r@, times@, interval, num_samples, sample_format),
        sorted(times@) ==> resampled(r@, times@, interval, num_samples, sample_format),
{
    let ghost t0 = interval.start.0 as int;
    let ghost d = span(interval);
    let ghost n_eff = effective_samples(num_samples);
    let ghost ok = sorted(times@);
    let mut out: Vec<SamplePlan> = Vec::new();
    if num_samples > 9223372036854775807u64 || num_samples == 0 {
        assert(nonempty_samples(t0, d, n_eff, n_eff) =~= Seq::<int>::empty());
        return out;
    }
    let n: i64 = num_samples as i64;
    let duration: i64 = interval.duration_ns();
    if duration <= 0 {
        proof {
            lemma_nonpositive_no_samples(t0, d, n_eff, n_eff);
        }
        return out;
    }
    let start_time: i64 = interval.start.0;
    let ghost stop = interval.stop.0 as int;
    let (a, b) = slice_utilization(times, interval);
    proof {
        if ok {
            let c1 = count_before(times@, t0);
            lemma_count_before_split(times@, t0);
            lemma_count_before_split(times@, stop);
            assert(a > 0 ==> c1 > 0 && a == c1 - 1);
            assert forall|i: int| b <= i < times@.len() implies times@[i].0 >= stop by {
                assert(i >= count_before(times@, stop));
            }
        }
    }
    let mut c: usize = a;
    let mut s: i64 = 0;
    while s < n
        invariant
            n as int == n_eff,
            n > 0,
            d == duration,
            d > 0,
            t0 == start_time,
            stop == t0 + d,
            stop == interval.stop.0,
            fits_i64(d * (n as int)),
            0 <= s <= n,
            ok == sorted(times@),
            a <= c <= b <= times@.len(),
            ok ==> (a > 0 ==> a < times@.len() && times@[a as int].0 < t0),
            ok ==> forall|i: int| b <= i < times@.len() ==> times@[i].0 >= stop,
            forall|i: int| a <= i < c ==> times@[i].0 < sample_bound(t0, d, n as int, s as int),
            out@.len() == nonempty_samples(t0, d, n as int, s as int).len(),
            forall|j: int|
                0 <= j < out@.len() ==> plan_shape(
                    #[trigger] out@[j],
                    times@,
                    sample_format,
                    sample_bound(t0, d, n as int, nonempty_samples(t0, d, n as int, s as int)[j]),
                    sample_bound(t0, d, n as int, nonempty_samples(t0, d, n as int, s as int)[j] + 1),
                ),
            ok ==> forall|j: int|
                0 <= j < out@.len() ==> plan_describes(
                    #[trigger] out@[j],
                    times@,
                    sample_format,
                    sample_bound(t0, d, n as int, nonempty_samples(t0, d, n as int, s as int)[j]),
                    sample_bound(t0, d, n as int, nonempty_samples(t0, d, n as int, s as int)[j] + 1),
                ),
        decreases n - s,
    {
        proof {
            lemma_bound_range(d, n as int, s as int);
            lemma_bound_range(d, n as int, s + 1);
        }
        assert(duration * s == d * (s as int));
        assert(duration * (s + 1) == d * (s + 1));
        let lo: i64 = duration * s / n + start_time;
        let hi: i64 = duration * (s + 1) / n + start_time;
        let ghost old_ns = nonempty_samples(t0, d, n as int, s as int);
        let ghost new_ns = nonempty_samples(t0, d, n as int, s + 1);
        assert(lo == sample_bound(t0, d, n as int, s as int));
        assert(hi == sample_bound(t0, d, n as int, s + 1));
        let sample = Interval::new(Timestamp(lo), Timestamp(hi));
        if !sample.is_empty() {
            assert(new_ns == old_ns.push(s as int));
            while c < b && times[c].0 < lo
                invariant
                    a <= c <= b <= times@.len(),
                    forall|i: int| a <= i < c ==> times@[i].0 < lo,
                decreases b - c,
            {
                c = c + 1;
            }
            let first: usize = if c > a {
                c - 1
            } else {
                c
            };
            let mut e: usize = c;
            while e < b && times[e].0 < hi
                invariant
                    c <= e <= b <= times@.len(),
                    lo < hi,
                    forall|i: int| a <= i < c ==> times@[i].0 < lo,
                    forall|i: int| c <= i < e ==> times@[i].0 < hi,
                decreases b - e,
            {
                e = e + 1;
            }
            proof {
                if ok {
                    assert(walk_facts(
                        times@,
                        a as int,
                        b as int,
                        c as int,
                        e as int,
                        lo as int,
                        hi as int,
                        t0,
                        stop,
                    ));
                    lemma_zero_outside(
                        times@,
                        a as int,
                        b as int,
                        c as int,
                        e as int,
                        lo as int,
                        hi as int,
                        t0,
                        stop,
                    );
                }
            }
            let mut weights: Vec<i64> = Vec::new();
            let mut i: usize = first;
            while i < e
                invariant
                    first <= i <= e,
                    a <= c <= e <= b <= times@.len(),
                    first as int == (if c > a { c - 1 } else { c as int }),
                    lo < hi,
                    forall|k: int| a <= k < c ==> times@[k].0 < lo,
                    forall|k: int| c <= k < e ==> times@[k].0 < hi,
                    ok ==> walk_facts(
                        times@,
                        a as int,
                        b as int,
                        c as int,
                        e as int,
                        lo as int,
                        hi as int,
                        t0,
                        stop,
                    ),
                    weights@.len() == i - first,
                    hi - lo <= i64::MAX,
                    forall|k: int| 0 <= k < weights@.len() ==> 0 <= #[trigger] weights@[k] <= hi - lo,
                    ok ==> forall|k: int|
                        0 <= k < weights@.len() ==> #[trigger] weights@[k] == step_overlap(
                            times@,
                            first + k,
                            lo as int,
                            hi as int,
                        ),
                decreases e - i,
            {
                proof {
                    if ok {
                        lemma_weight(
                            times@,
                            a as int,
                            b as int,
                            c as int,
                            e as int,
                            lo as int,
                            hi as int,
                            t0,
                            stop,
                            i as int,
                        );
                    }
                }
                let next: i64 = if i + 1 < e {
                    times[i + 1].0
                } else {
                    hi
                };
                let from: i64 = if times[i].0 >= lo {
                    times[i].0
                } else {
                    lo
                };
                // Points out of time order can put the next point first;
                // such a point is in force for no time.
                let w: i64 = if next >= from { next - from } else { 0 };
                weights.push(w);
                i = i + 1;
            }
            let time: i64 = match sample_format {
                SampleFormat::Start => lo,
                SampleFormat::Center => sample.center().0,
            };
            let plan = SamplePlan { time: Timestamp(time), duration: hi - lo, first, weights };
            assert(plan_shape(plan, times@, sample_format, lo as int, hi as int));
            assert(ok ==> plan_describes(plan, times@, sample_format, lo as int, hi as int));
            out.push(plan);
            c = e;
        } else {
            assert(new_ns == old_ns);
        }
        s = s + 1;
    }
    out
}

} // verus!
