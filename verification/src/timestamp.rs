//! Points and half-open intervals on the nanosecond time line.

use vstd::prelude::*;
use crate::text::{decimal, decimal_int, zero_pad, u64_to_chars, i64_to_chars, zero_pad_chars,
    append_chars};

verus! {

/// A point in time, in nanoseconds.
#[derive(Clone, Copy, Debug, PartialEq, Eq, Structural)]
pub struct Timestamp(pub i64);

/// A half-open time interval `[start, stop)`.
#[derive(Clone, Copy, Debug, PartialEq, Eq, Structural)]
pub struct Interval {
    pub start: Timestamp,
    pub stop: Timestamp,
}

/// Integer division rounding toward zero (Rust's `/` on integers), for `b > 0`.
pub open spec fn div_trunc(a: int, b: int) -> int {
    if a >= 0 {
        a / b
    } else {
        -((-a) / b)
    }
}

/// The signed length of an interval.
pub open spec fn span(i: Interval) -> int {
    i.stop.0 - i.start.0
}

/// Nanoseconds fit the signed 64-bit range.
pub open spec fn fits_i64(x: int) -> bool {
    i64::MIN <= x <= i64::MAX
}

/// Text of a timestamp: nanoseconds below one microsecond (and negative
/// values) as `"<n> ns"`, otherwise the largest of s / ms / us with three
/// decimals, e.g. `"1.200 s"`.
pub open spec fn timestamp_text(ns: int) -> Seq<char> {
    if ns >= 1_000_000_000 {
        decimal((ns / 1_000_000_000) as nat) + seq!['.'] + zero_pad(
            decimal(((ns % 1_000_000_000) / 1_000_000) as nat),
            3,
        ) + seq![' ', 's']
    } else if ns >= 1_000_000 {
        decimal((ns / 1_000_000) as nat) + seq!['.'] + zero_pad(
            decimal(((ns % 1_000_000) / 1_000) as nat),
            3,
        ) + seq![' ', 'm', 's']
    } else if ns >= 1_000 {
        decimal((ns / 1_000) as nat) + seq!['.'] + zero_pad(decimal((ns % 1_000) as nat), 3)
            + seq![' ', 'u', 's']
    } else {
        decimal_int(ns) + seq![' ', 'n', 's']
    }
}

impl Timestamp {
    /// The display text of this timestamp (see [`timestamp_text`]).
    pub fn to_text(&self) -> (r: Vec<char>)
        ensures
            r@ == timestamp_text(self.0 as int),
    {
        let ns = self.0;
        let (divisor, rem_div): (i64, i64) = if ns >= 1_000_000_000 {
            (1_000_000_000, 1_000_000)
        } else if ns >= 1_000_000 {
            (1_000_000, 1_000)
        } else if ns >= 1_000 {
            (1_000, 1)
        } else {
            let mut r = i64_to_chars(ns);
            r.push(' ');
            r.push('n');
            r.push('s');
            assert(r@ =~= timestamp_text(ns as int));
            return r;
        };
        let units = ns / divisor;
        let rem = (ns % divisor) / rem_div;
        let mut r = u64_to_chars(units as u64);
        r.push('.');
        let rd = u64_to_chars(rem as u64);
        let padded = zero_pad_chars(rd.as_slice(), 3);
        append_chars(&mut r, padded.as_slice());
        r.push(' ');
        if divisor == 1_000_000_000 {
            r.push('s');
        } else if divisor == 1_000_000 {
            r.push('m');
            r.push('s');
        } else {
            r.push('u');
            r.push('s');
        }
        assert(r@ =~= timestamp_text(ns as int));
        r
    }
}

impl Interval {
    /// The interval `[start, stop)`.
    pub fn new(start: Timestamp, stop: Timestamp) -> (r: Interval)
        ensures
            r.start == start,
            r.stop == stop,
    {
        Interval { start, stop }
    }

    /// Length in nanoseconds (`stop - start`).
    pub fn duration_ns(&self) -> (r: i64)
        requires
            fits_i64(span(*self)),
        ensures
            r == span(*self),
    {
        self.stop.0 - self.start.0
    }

    /// Whether the interval holds no point.
    pub fn is_empty(&self) -> (r: bool)
        ensures
            r == (self.stop.0 <= self.start.0),
    {
        self.stop.0 <= self.start.0
    }

    /// The overlap of two intervals: the later start and the earlier stop.
    pub fn intersection(&self, other: Interval) -> (r: Interval)
        ensures
            r.start.0 == if self.start.0 >= other.start.0 { self.start.0 } else { other.start.0 },
            r.stop.0 == if self.stop.0 <= other.stop.0 { self.stop.0 } else { other.stop.0 },
    {
        let start = if self.start.0 >= other.start.0 { self.start.0 } else { other.start.0 };
        let stop = if self.stop.0 <= other.stop.0 { self.stop.0 } else { other.stop.0 };
        Interval { start: Timestamp(start), stop: Timestamp(stop) }
    }

    /// The part of the interval at or after `point`.
    pub fn subtract_before(&self, point: Timestamp) -> (r: Interval)
        ensures
            r.start.0 == if self.start.0 >= point.0 { self.start.0 } else { point.0 },
            r.stop == self.stop,
    {
        let start = if self.start.0 >= point.0 { self.start.0 } else { point.0 };
        Interval { start: Timestamp(start), stop: self.stop }
    }

    /// The midpoint `start + duration / 2` (division rounding toward zero).
    pub fn center(&self) -> (r: Timestamp)
        requires
            fits_i64(span(*self)),
            fits_i64(self.start.0 + div_trunc(span(*self), 2)),
        ensures
            r.0 == self.start.0 + div_trunc(span(*self), 2),
    {
        let d = self.stop.0 - self.start.0;
        Timestamp(self.start.0 + d / 2)
    }

    /// The interval widened by `amount` nanoseconds on each side (narrowed
    /// where `amount` is negative).
    pub fn grow(&self, amount: i64) -> (r: Interval)
        requires
            fits_i64(self.start.0 - amount),
            fits_i64(self.stop.0 + amount),
        ensures
            r.start.0 == self.start.0 - amount,
            r.stop.0 == self.stop.0 + amount,
    {
        Interval { start: Timestamp(self.start.0 - amount), stop: Timestamp(self.stop.0 + amount) }
    }

    /// The interval moved later by `offset` nanoseconds.
    pub fn translate(&self, offset: i64) -> (r: Interval)
        requires
            fits_i64(self.start.0 + offset),
            fits_i64(self.stop.0 + offset),
        ensures
            r.start.0 == self.start.0 + offset,
            r.stop.0 == self.stop.0 + offset,
    {
        Interval { start: Timestamp(self.start.0 + offset), stop: Timestamp(self.stop.0 + offset) }
    }
}

} // verus!
