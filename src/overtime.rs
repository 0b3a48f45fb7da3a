//! Slicing a session into overtime seconds per local calendar date.

use chrono::{Datelike, Timelike};
use vstd::prelude::*;

use crate::calendar::{get_shift_type, shift_of, shift_window, window_of, CalDate, SECONDS_PER_DAY};
use crate::sessions::{valid_instant, Session, SessionView};

verus! {

/// A local civil date-time: a date and the seconds elapsed since its midnight.
#[derive(Clone, Copy, Debug, PartialEq, Eq, Structural)]
pub struct LocalTime {
    pub date: CalDate,
    pub seconds: u32,
}

impl LocalTime {
    pub open spec fn wf(self) -> bool {
        self.date.wf() && self.seconds < SECONDS_PER_DAY
    }

    /// Seconds since midnight of day zero.
    pub open spec fn abs(self) -> int {
        self.date.ordinal * 86400 + self.seconds
    }
}

/// The local date and seconds since midnight, in the Europe/Warsaw time zone,
/// of a UTC instant given in seconds from the Unix epoch.
pub uninterp spec fn warsaw_local_of(utc: int) -> (int, int);

/// Relies on chrono's `DateTime::from_timestamp` (defined for every instant in
/// range) and on chrono-tz's `Europe::Warsaw` through `with_timezone` and
/// `naive_local`: the local date and time of day that the zone database gives.
#[verifier::external_body]
pub(crate) fn to_local(utc: i64) -> (r: LocalTime)
    requires
        valid_instant(utc as int),
    ensures
        r.wf(),
        (r.date.ordinal as int, r.seconds as int) == warsaw_local_of(utc as int),
{
    let local = chrono::DateTime::from_timestamp(utc, 0).unwrap().with_timezone(
        &chrono_tz::Europe::Warsaw,
    ).naive_local();
    LocalTime {
        date: CalDate { ordinal: local.date().num_days_from_ce() },
        seconds: local.time().num_seconds_from_midnight(),
    }
}

pub open spec fn local_of(utc: int) -> LocalTime {
    LocalTime {
        date: CalDate { ordinal: warsaw_local_of(utc).0 as i32 },
        seconds: warsaw_local_of(utc).1 as u32,
    }
}

pub open spec fn min(a: int, b: int) -> int {
    if a <= b { a } else { b }
}

pub open spec fn max(a: int, b: int) -> int {
    if a >= b { a } else { b }
}

/// Overtime seconds in the span `[s, e]` of a date (seconds of the day, `s <= e`):
/// all of it without regular hours, else what lies before or after them.
pub open spec fn overtime_in_day(n: int, s: int, e: int) -> int {
    match window_of(shift_of(n)) {
        None => e - s,
        Some(w) => (if s < w.start { min(e, w.start as int) - s } else { 0 }) + (if e > w.end {
            e - max(s, w.end as int)
        } else {
            0
        }),
    }
}

/// Overtime seconds that the local span `[ls, le]` (seconds since day zero)
/// contributes to date `n`, whose civil day is taken as `[00:00:00, 23:59:59]`.
pub open spec fn day_overtime(ls: int, le: int, n: int) -> int {
    let bs = max(ls, n * 86400);
    let be = min(le, n * 86400 + 86399);
    if be > bs {
        overtime_in_day(n, bs - n * 86400, be - n * 86400)
    } else {
        0
    }
}

/// The dates from `n` to `last` with positive overtime, each with its seconds.
pub open spec fn slices_from(ls: int, le: int, n: int, last: int) -> Seq<(int, int)>
    decreases last + 1 - n,
{
    if n > last {
        seq![]
    } else {
        let o = day_overtime(ls, le, n);
        let rest = slices_from(ls, le, n + 1, last);
        if o > 0 {
            seq![(n, o)] + rest
        } else {
            rest
        }
    }
}

/// Overtime per local date of the local span from `s` to `e`, in date order.
pub open spec fn slices_of(s: LocalTime, e: LocalTime) -> Seq<(int, int)> {
    slices_from(s.abs(), e.abs(), s.date.ordinal as int, e.date.ordinal as int)
}

/// Overtime seconds of one date.
pub struct DaySlice {
    pub date: CalDate,
    pub seconds: u64,
}

impl View for DaySlice {
    type V = (int, int);

    open spec fn view(&self) -> (int, int) {
        (self.date.ordinal as int, self.seconds as int)
    }
}

pub open spec fn slice_views(s: Seq<DaySlice>) -> Seq<(int, int)> {
    s.map_values(|x: DaySlice| x@)
}

pub open spec fn total_seconds(s: Seq<(int, int)>) -> int
    decreases s.len(),
{
    if s.len() == 0 {
        0
    } else {
        s[0].1 + total_seconds(s.drop_first())
    }
}

/// Overtime seconds of the span from `start` to `end` of one date, given as
/// seconds of the day.
pub fn calculate_overtime_for_day(date: CalDate, start: u32, end: u32) -> (r: u64)
    requires
        date.wf(),
        start <= end < SECONDS_PER_DAY,
    ensures
        r == overtime_in_day(date.ordinal as int, start as int, end as int),
{
    let shift_type = get_shift_type(date);
    match shift_window(shift_type) {
        None => (end - start) as u64,
        Some(window) => {
            let mut overtime_secs: u64 = 0;
            if start < window.start {
                let overtime_end = if end < window.start { end } else { window.start };
                overtime_secs = overtime_secs + (overtime_end - start) as u64;
            }
            if end > window.end {
                let overtime_start = if start > window.end { start } else { window.end };
                overtime_secs = overtime_secs + (end - overtime_start) as u64;
            }
            overtime_secs
        },
    }
}

proof fn lemma_day_bounds(s: LocalTime, e: LocalTime, n: int)
    requires
        s.wf(),
        e.wf(),
        s.date.ordinal <= n <= e.date.ordinal,
    ensures
        max(s.abs(), n * 86400) - n * 86400 == (if n == s.date.ordinal { s.seconds as int } else { 0 }),
        min(e.abs(), n * 86400 + 86399) - n * 86400 == (if n == e.date.ordinal { e.seconds as int } else { 86399 }),
{
    let so = s.date.ordinal as int;
    let eo = e.date.ordinal as int;
    if n > so {
        assert(n * 86400 >= so * 86400 + 86400) by (nonlinear_arith)
            requires n >= so + 1;
    }
    if n < eo {
        assert(eo * 86400 >= n * 86400 + 86400) by (nonlinear_arith)
            requires eo >= n + 1;
    }
}

/// Overtime per local date of a local span, in date order; dates without
/// overtime are left out.
pub fn slice_local_interval(start: LocalTime, end: LocalTime) -> (r: Vec<DaySlice>)
    requires
        start.wf(),
        end.wf(),
    ensures
        slice_views(r@) == slices_of(start, end),
        forall|k: int| 0 <= k < r@.len() ==> (#[trigger] r@[k]).date.wf() && r@[k].seconds
            < SECONDS_PER_DAY,
{
    let mut daily: Vec<DaySlice> = Vec::new();
    let ghost ls = start.abs();
    let ghost le = end.abs();
    let ghost last = end.date.ordinal as int;
    let mut current: i32 = start.date.ordinal;
    if current > end.date.ordinal {
        assert(slice_views(daily@) =~= slices_of(start, end));
        return daily;
    }
    while current <= end.date.ordinal
        invariant
            start.wf(),
            end.wf(),
            ls == start.abs(),
            le == end.abs(),
            last == end.date.ordinal,
            start.date.ordinal <= current <= end.date.ordinal + 1,
            slice_views(daily@) + slices_from(ls, le, current as int, last) == slices_of(start, end),
            forall|k: int| 0 <= k < daily@.len() ==> (#[trigger] daily@[k]).date.wf()
                && daily@[k].seconds < SECONDS_PER_DAY,
        decreases end.date.ordinal + 1 - current,
    {
        proof {
            lemma_day_bounds(start, end, current as int);
        }
        let block_start: u32 = if current == start.date.ordinal { start.seconds } else { 0 };
        let block_end: u32 = if current == end.date.ordinal { end.seconds } else { 86399 };
        let ghost prev = daily@;
        if block_end > block_start {
            let date = CalDate { ordinal: current };
            let overtime_seconds = calculate_overtime_for_day(date, block_start, block_end);
            if overtime_seconds > 0 {
                proof {
                    lemma_overtime_in_day_bounded(current as int, block_start as int, block_end as int);
                }
                daily.push(DaySlice { date, seconds: overtime_seconds });
                assert(slice_views(daily@) =~= slice_views(prev).push((current as int, overtime_seconds as int)));
            }
        }
        assert(slice_views(daily@) + slices_from(ls, le, current as int + 1, last) =~= slices_of(start, end));
        current = current + 1;
    }
    daily
}

/// Overtime per local date of a session, in date order: its start and end are
/// taken to Europe/Warsaw local time first.
pub fn calculate_session_overtime(session: &Session) -> (r: Vec<DaySlice>)
    requires
        session.wf(),
    ensures
        slice_views(r@) == slices_of(local_of(session.start_time as int), local_of(session.end_time as int)),
        forall|k: int| 0 <= k < r@.len() ==> (#[trigger] r@[k]).date.wf() && r@[k].seconds
            < SECONDS_PER_DAY,
{
    let start_local = to_local(session.start_time);
    let end_local = to_local(session.end_time);
    slice_local_interval(start_local, end_local)
}

proof fn lemma_overtime_in_day_bounded(n: int, s: int, e: int)
    requires
        s <= e,
    ensures
        0 <= overtime_in_day(n, s, e) <= e - s,
{
}

proof fn lemma_slices_from_bounded(ls: int, le: int, n: int, last: int)
    ensures
        total_seconds(slices_from(ls, le, n, last)) <= max(0, le - max(ls, n * 86400)),
    decreases last + 1 - n,
{
    if n <= last {
        lemma_slices_from_bounded(ls, le, n + 1, last);
        let bs = max(ls, n * 86400);
        let be = min(le, n * 86400 + 86399);
        if be > bs {
            lemma_overtime_in_day_bounded(n, bs - n * 86400, be - n * 86400);
        }
        let o = day_overtime(ls, le, n);
        let rest = slices_from(ls, le, n + 1, last);
        if o > 0 {
            assert((seq![(n, o)] + rest).drop_first() =~= rest);
        }
        assert((n + 1) * 86400 == n * 86400 + 86400);
    }
}

/// The overtime of a local span, over all the dates it touches, is at most
/// the length of the span.
pub proof fn lemma_overtime_within_span(s: LocalTime, e: LocalTime)
    requires
        s.wf(),
        e.wf(),
    ensures
        total_seconds(slices_of(s, e)) <= max(0, e.abs() - s.abs()),
{
    lemma_slices_from_bounded(s.abs(), e.abs(), s.date.ordinal as int, e.date.ordinal as int);
    assert(max(s.abs(), s.date.ordinal * 86400) == s.abs());
}

/// A session's overtime, over all the dates it touches, never exceeds its
/// duration, when no change of the zone's offset falls inside it (across a
/// change to summer time the local span is an hour longer than the session).
pub proof fn lemma_session_overtime_within_duration(session: SessionView)
    requires
        local_of(session.start).wf(),
        local_of(session.end).wf(),
        local_of(session.end).abs() - local_of(session.start).abs() == session.end
            - session.start,
    ensures
        total_seconds(slices_of(local_of(session.start), local_of(session.end))) <= max(
            0,
            session.end - session.start,
        ),
{
    lemma_overtime_within_span(local_of(session.start), local_of(session.end));
}

} // verus!
