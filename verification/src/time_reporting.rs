//! Session reconstruction: from a classified record stream to clocked work
//! sessions and expenses.
//!
//! The stream is cut into per-day buckets at each day marker (the run before
//! the first marker is pre-log junk and is dropped).  Every marker's date
//! must name an existing calendar day; days outside the requested range are
//! skipped; the remaining days — the log runs newest-first — are processed
//! in chronological order.  Within a day a small state machine pairs each
//! matching clock-in with the timestamp record immediately after it and each
//! matching clock-out with the timestamp immediately before it, accumulating
//! the actions in between; expenses are collected in any state.  Durations
//! are rounded to the nearest half hour.  The spec function
//! [`time_report_spec`] states the whole pipeline.

use vstd::prelude::*;
use crate::records::{RawEntry, RecV, LogError, ErrV, opt_view, recs_view, strs_view};
use crate::dates::{Date, date_le_spec, date_le, parse_day_date, day_date_ok, date_of};
use crate::text::str_chars;

verus! {

// ---------------------------------------------------------------------------
// Half-hour rounding
// ---------------------------------------------------------------------------

/// Minutes quantized to half hours, rounding half up: the nearest number of
/// half hours to `minutes / 30`.
pub open spec fn half_hours_of(minutes: int) -> int {
    (minutes + 15) / 30
}

/// Round a duration in minutes to half hours (the returned unit is one half
/// hour, so `90` minutes give `3`).
pub fn round_to_half_hours(minutes: u32) -> (r: u32)
    ensures
        r == half_hours_of(minutes as int),
{
    let q = minutes / 30;
    let rem = minutes % 30;
    proof {
        assert(minutes as int == 30 * (minutes as int / 30) + minutes as int % 30);
        assert((minutes as int + 15) / 30 == minutes as int / 30 + (minutes as int % 30 + 15)
            / 30);
    }
    if rem >= 15 {
        q + 1
    } else {
        q
    }
}

// ---------------------------------------------------------------------------
// Report data
// ---------------------------------------------------------------------------

/// One reconstructed work session, its duration already rounded: the unit
/// of `half_hours` is one half hour.
#[derive(Debug, Clone, PartialEq, Eq)]
pub struct TimeSlice {
    pub date: Date,
    pub half_hours: u32,
    pub actions: Vec<String>,
}

/// Spec-level view of a [`TimeSlice`].
pub struct SliceV {
    pub date: Date,
    pub half_hours: int,
    pub actions: Seq<Seq<char>>,
}

impl View for TimeSlice {
    type V = SliceV;

    open spec fn view(&self) -> SliceV {
        SliceV { date: self.date, half_hours: self.half_hours as int, actions: strs_view(self.actions@) }
    }
}

/// One collected expense, its cost kept as the decimal text from the log.
#[derive(Debug, Clone, PartialEq, Eq)]
pub struct ExpenseItem {
    pub date: Date,
    pub cost: String,
    pub what: String,
}

/// Spec-level view of an [`ExpenseItem`].
pub struct ExpV {
    pub date: Date,
    pub cost: Seq<char>,
    pub what: Seq<char>,
}

impl View for ExpenseItem {
    type V = ExpV;

    open spec fn view(&self) -> ExpV {
        ExpV { date: self.date, cost: self.cost@, what: self.what@ }
    }
}

/// The time report: sessions and expenses, both in chronological order.
#[derive(Debug, Clone, PartialEq, Eq)]
pub struct TimeReport {
    pub slices: Vec<TimeSlice>,
    pub expenses: Vec<ExpenseItem>,
}

/// Spec-level view of a [`TimeReport`].
pub struct ReportV {
    pub slices: Seq<SliceV>,
    pub expenses: Seq<ExpV>,
}

impl View for TimeReport {
    type V = ReportV;

    open spec fn view(&self) -> ReportV {
        ReportV {
            slices: self.slices@.map_values(|t: TimeSlice| t@),
            expenses: self.expenses@.map_values(|e: ExpenseItem| e@),
        }
    }
}

// ---------------------------------------------------------------------------
// Day segmentation
// ---------------------------------------------------------------------------

/// Index of the first day marker at or after `i`, or the length.
pub open spec fn next_marker(recs: Seq<RecV>, i: int) -> int
    decreases recs.len() - i,
{
    if 0 <= i < recs.len() {
        if recs[i] is NewDay {
            i
        } else {
            next_marker(recs, i + 1)
        }
    } else {
        recs.len() as int
    }
}

pub proof fn lemma_next_marker_bounds(recs: Seq<RecV>, i: int)
    requires
        0 <= i <= recs.len(),
    ensures
        i <= next_marker(recs, i) <= recs.len(),
        next_marker(recs, i) < recs.len() ==> recs[next_marker(recs, i)] is NewDay,
        forall|k: int| i <= k < next_marker(recs, i) ==> !(#[trigger] recs[k] is NewDay),
    decreases recs.len() - i,
{
    if i < recs.len() && !(recs[i] is NewDay) {
        lemma_next_marker_bounds(recs, i + 1);
    }
}

/// The text of the day marker at `j`.
pub open spec fn marker_text(recs: Seq<RecV>, j: int) -> Seq<char> {
    match recs[j] {
        RecV::NewDay(s) => s,
        _ => Seq::empty(),
    }
}

/// The dated day buckets from scan position `i` on, in log order: for each
/// marker, its parsed date and the records up to the next marker.  The
/// first marker whose text is not an existing `YYYY-MM-DD` day is a fatal
/// error.
pub open spec fn dated_days_from(recs: Seq<RecV>, i: int) -> Result<
    Seq<(Date, Seq<RecV>)>,
    ErrV,
>
    decreases recs.len() - i,
{
    let j = next_marker(recs, i);
    if j < 0 || j >= recs.len() || j < i {
        Ok(Seq::empty())
    } else {
        let d = marker_text(recs, j);
        if !day_date_ok(d) {
            Err(ErrV::BadDayDate(d))
        } else {
            let k = next_marker(recs, j + 1);
            match dated_days_from(recs, j + 1) {
                Err(e) => Err(e),
                Ok(rest) => Ok(seq![(date_of(d), recs.subrange(j + 1, k))] + rest),
            }
        }
    }
}

/// Count of day markers from `i` on.
pub open spec fn count_markers(recs: Seq<RecV>, i: int) -> int
    decreases recs.len() - i,
{
    if i < 0 || i >= recs.len() {
        0
    } else {
        (if recs[i] is NewDay {
            1int
        } else {
            0int
        }) + count_markers(recs, i + 1)
    }
}

proof fn lemma_count_markers_to_next(recs: Seq<RecV>, i: int)
    requires
        0 <= i <= recs.len(),
    ensures
        count_markers(recs, i) == count_markers(recs, next_marker(recs, i)),
    decreases recs.len() - i,
{
    if i < recs.len() && !(recs[i] is NewDay) {
        lemma_count_markers_to_next(recs, i + 1);
    }
}

proof fn lemma_dated_days_count(recs: Seq<RecV>, i: int)
    requires
        0 <= i <= recs.len(),
    ensures
        dated_days_from(recs, i) matches Ok(days) ==> days.len() == count_markers(recs, i),
    decreases recs.len() - i,
{
    lemma_next_marker_bounds(recs, i);
    lemma_count_markers_to_next(recs, i);
    let j = next_marker(recs, i);
    if j < recs.len() {
        lemma_dated_days_count(recs, j + 1);
    }
}

/// Law: day segmentation is consistent: a log whose markers all carry
/// existing dates yields exactly one day bucket per day marker, and the
/// records before the first marker belong to no bucket.
pub proof fn lemma_one_bucket_per_marker(recs: Seq<RecV>)
    ensures
        dated_days_from(recs, 0) matches Ok(days) ==> days.len() == count_markers(recs, 0),
{
    lemma_dated_days_count(recs, 0);
}

// ---------------------------------------------------------------------------
// The per-day state machine
// ---------------------------------------------------------------------------

pub open spec fn minute_of(h: u8, m: u8) -> int {
    h as int * 60 + m as int
}

/// The reconstruction state while walking one day's records: the open
/// session's clock-in minute (if any), the actions accumulated in it, and
/// the sessions and expenses finished so far.
pub struct DayAcc {
    pub open_min: Option<int>,
    pub acts: Seq<Seq<char>>,
    pub slices: Seq<(int, Seq<Seq<char>>)>,
    pub exps: Seq<(Seq<char>, Seq<char>)>,
}

pub open spec fn init_acc() -> DayAcc {
    DayAcc { open_min: None, acts: Seq::empty(), slices: Seq::empty(), exps: Seq::empty() }
}

/// Run the day state machine over `recs` from position `i` in state `st`:
/// the finished sessions (as minute counts with their actions) and the
/// expenses, or the first fatal error.
///
/// A matching clock-in must be immediately followed by a timestamp record
/// and may not occur while a session is open; a matching clock-out must be
/// immediately preceded by one, close a session that is open, and be
/// strictly later than its clock-in.  A session still open at the day's end
/// is an error.  Actions count only inside an open session; expenses count
/// always; everything else is inert.
pub open spec fn day_run(
    date: Date,
    recs: Seq<RecV>,
    project: Option<Seq<char>>,
    i: int,
    st: DayAcc,
) -> Result<(Seq<(int, Seq<Seq<char>>)>, Seq<(Seq<char>, Seq<char>)>), ErrV>
    decreases recs.len() - i,
{
    if i < 0 || i >= recs.len() {
        if st.open_min is Some {
            Err(ErrV::ClockInWithoutClockOut(date))
        } else {
            Ok((st.slices, st.exps))
        }
    } else {
        match recs[i] {
            RecV::ClockIn(c) => {
                if c == project {
                    if st.open_min is Some {
                        Err(ErrV::ClockInWithoutClockOut(date))
                    } else if i + 1 < recs.len() {
                        match recs[i + 1] {
                            RecV::Time(h, m) => day_run(
                                date,
                                recs,
                                project,
                                i + 1,
                                DayAcc {
                                    open_min: Some(minute_of(h, m)),
                                    acts: st.acts,
                                    slices: st.slices,
                                    exps: st.exps,
                                },
                            ),
                            _ => Err(ErrV::ClockInNotFollowedByTimestamp(date)),
                        }
                    } else {
                        Err(ErrV::ClockInNotFollowedByTimestamp(date))
                    }
                } else {
                    day_run(date, recs, project, i + 1, st)
                }
            },
            RecV::ClockOut(c) => {
                if c == project {
                    match st.open_min {
                        Some(om) => {
                            if i >= 1 {
                                match recs[i - 1] {
                                    RecV::Time(h, m) => {
                                        let co = minute_of(h, m);
                                        if co <= om {
                                            Err(ErrV::ClockOutNotAfterClockIn(date))
                                        } else {
                                            day_run(
                                                date,
                                                recs,
                                                project,
                                                i + 1,
                                                DayAcc {
                                                    open_min: None,
                                                    acts: Seq::empty(),
                                                    slices: st.slices.push((co - om, st.acts)),
                                                    exps: st.exps,
                                                },
                                            )
                                        }
                                    },
                                    _ => Err(ErrV::ClockOutNotPrecededByTimestamp(date)),
                                }
                            } else {
                                Err(ErrV::ClockOutNotPrecededByTimestamp(date))
                            }
                        },
                        None => Err(ErrV::ClockOutWithoutClockIn(date)),
                    }
                } else {
                    day_run(date, recs, project, i + 1, st)
                }
            },
            RecV::Action(s) => {
                if st.open_min is Some {
                    day_run(
                        date,
                        recs,
                        project,
                        i + 1,
                        DayAcc {
                            open_min: st.open_min,
                            acts: st.acts.push(s),
                            slices: st.slices,
                            exps: st.exps,
                        },
                    )
                } else {
                    day_run(date, recs, project, i + 1, st)
                }
            },
            RecV::Expense(cost, what) => day_run(
                date,
                recs,
                project,
                i + 1,
                DayAcc {
                    open_min: st.open_min,
                    acts: st.acts,
                    slices: st.slices,
                    exps: st.exps.push((cost, what)),
                },
            ),
            _ => day_run(date, recs, project, i + 1, st),
        }
    }
}

// ---------------------------------------------------------------------------
// The whole pipeline
// ---------------------------------------------------------------------------

/// The day's date falls inside the inclusive range.
pub open spec fn in_range(d: Date, start: Date, end: Date) -> bool {
    date_le_spec(start, d) && date_le_spec(d, end)
}

/// A finished day's sessions, dated and rounded.
pub open spec fn day_slices(d: Date, xs: Seq<(int, Seq<Seq<char>>)>) -> Seq<SliceV> {
    xs.map_values(|p: (int, Seq<Seq<char>>)| SliceV {
        date: d,
        half_hours: half_hours_of(p.0),
        actions: p.1,
    })
}

/// A finished day's expenses, dated.
pub open spec fn day_exps(d: Date, xs: Seq<(Seq<char>, Seq<char>)>) -> Seq<ExpV> {
    xs.map_values(|p: (Seq<char>, Seq<char>)| ExpV { date: d, cost: p.0, what: p.1 })
}

/// Process the dated days (which stand in log order, newest first) in
/// chronological order, keeping only days inside the range: the processing
/// starts from the last bucket, so the first fatal error is the
/// chronologically first one, and sessions and expenses come out oldest
/// first.
pub open spec fn run_days_rev(
    days: Seq<(Date, Seq<RecV>)>,
    start: Date,
    end: Date,
    project: Option<Seq<char>>,
) -> Result<(Seq<SliceV>, Seq<ExpV>), ErrV>
    decreases days.len(),
{
    if days.len() == 0 {
        Ok((Seq::empty(), Seq::empty()))
    } else {
        let d = days.last();
        if !in_range(d.0, start, end) {
            run_days_rev(days.drop_last(), start, end, project)
        } else {
            match day_run(d.0, d.1, project, 0, init_acc()) {
                Err(e) => Err(e),
                Ok(se) => match run_days_rev(days.drop_last(), start, end, project) {
                    Err(e) => Err(e),
                    Ok(rest) => Ok(
                        (day_slices(d.0, se.0) + rest.0, day_exps(d.0, se.1) + rest.1),
                    ),
                },
            }
        }
    }
}

/// The whole time-reporting pipeline on a classified record stream.
pub open spec fn time_report_spec(
    recs: Seq<RecV>,
    start: Date,
    end: Date,
    project: Option<Seq<char>>,
) -> Result<ReportV, ErrV> {
    match dated_days_from(recs, 0) {
        Err(e) => Err(e),
        Ok(days) => match run_days_rev(days, start, end, project) {
            Err(e) => Err(e),
            Ok(se) => Ok(ReportV { slices: se.0, expenses: se.1 }),
        },
    }
}

// ---------------------------------------------------------------------------
// Laws
// ---------------------------------------------------------------------------

/// Count of clock-in records from `i` on whose tag matches the filter.
pub open spec fn count_matching_ins(recs: Seq<RecV>, project: Option<Seq<char>>, i: int) -> int
    decreases recs.len() - i,
{
    if i < 0 || i >= recs.len() {
        0
    } else {
        (match recs[i] {
            RecV::ClockIn(c) => if c == project {
                1int
            } else {
                0int
            },
            _ => 0int,
        }) + count_matching_ins(recs, project, i + 1)
    }
}

/// Count of clock-out records from `i` on whose tag matches the filter.
pub open spec fn count_matching_outs(recs: Seq<RecV>, project: Option<Seq<char>>, i: int) -> int
    decreases recs.len() - i,
{
    if i < 0 || i >= recs.len() {
        0
    } else {
        (match recs[i] {
            RecV::ClockOut(c) => if c == project {
                1int
            } else {
                0int
            },
            _ => 0int,
        }) + count_matching_outs(recs, project, i + 1)
    }
}

proof fn lemma_day_run_counts(
    date: Date,
    recs: Seq<RecV>,
    project: Option<Seq<char>>,
    i: int,
    st: DayAcc,
)
    requires
        0 <= i <= recs.len(),
        forall|t: int| 0 <= t < st.slices.len() ==> (#[trigger] st.slices[t]).0 > 0,
    ensures
        day_run(date, recs, project, i, st) matches Ok(out) ==> ({
            &&& out.0.len() == st.slices.len() + count_matching_outs(recs, project, i)
            &&& count_matching_outs(recs, project, i) == count_matching_ins(recs, project, i) + (
            if st.open_min is Some {
                1int
            } else {
                0int
            })
            &&& forall|t: int| 0 <= t < out.0.len() ==> (#[trigger] out.0[t]).0 > 0
        }),
    decreases recs.len() - i,
{
    if i < recs.len() {
        match recs[i] {
            RecV::ClockIn(c) => {
                if c == project {
                    if st.open_min is Some {
                    } else if i + 1 < recs.len() {
                        match recs[i + 1] {
                            RecV::Time(h, m) => {
                                lemma_day_run_counts(
                                    date,
                                    recs,
                                    project,
                                    i + 1,
                                    DayAcc {
                                        open_min: Some(minute_of(h, m)),
                                        acts: st.acts,
                                        slices: st.slices,
                                        exps: st.exps,
                                    },
                                );
                            },
                            _ => {},
                        }
                    }
                } else {
                    lemma_day_run_counts(date, recs, project, i + 1, st);
                }
            },
            RecV::ClockOut(c) => {
                if c == project {
                    match st.open_min {
                        Some(om) => {
                            if i >= 1 {
                                match recs[i - 1] {
                                    RecV::Time(h, m) => {
                                        let co = minute_of(h, m);
                                        if co > om {
                                            let st2 = DayAcc {
                                                open_min: None,
                                                acts: Seq::empty(),
                                                slices: st.slices.push((co - om, st.acts)),
                                                exps: st.exps,
                                            };
                                            assert(forall|t: int|
                                                0 <= t < st2.slices.len() ==> (
                                                #[trigger] st2.slices[t]).0 > 0);
                                            lemma_day_run_counts(date, recs, project, i + 1, st2);
                                        }
                                    },
                                    _ => {},
                                }
                            }
                        },
                        None => {},
                    }
                } else {
                    lemma_day_run_counts(date, recs, project, i + 1, st);
                }
            },
            RecV::Action(s) => {
                if st.open_min is Some {
                    lemma_day_run_counts(
                        date,
                        recs,
                        project,
                        i + 1,
                        DayAcc {
                            open_min: st.open_min,
                            acts: st.acts.push(s),
                            slices: st.slices,
                            exps: st.exps,
                        },
                    );
                } else {
                    lemma_day_run_counts(date, recs, project, i + 1, st);
                }
            },
            RecV::Expense(cost, what) => {
                lemma_day_run_counts(
                    date,
                    recs,
                    project,
                    i + 1,
                    DayAcc {
                        open_min: st.open_min,
                        acts: st.acts,
                        slices: st.slices,
                        exps: st.exps.push((cost, what)),
                    },
                );
            },
            _ => {
                lemma_day_run_counts(date, recs, project, i + 1, st);
            },
        }
    }
}

/// Law: a day that reconstructs successfully produces exactly one session
/// per matched clock-in/clock-out pair — as many sessions as matching
/// clock-outs, whose number then equals the matching clock-ins' — and every
/// session's duration is strictly positive.  An unmatched or misplaced
/// marker never drops silently: [`day_run`] makes it a fatal error.
pub proof fn lemma_sessions_match_pairs(date: Date, recs: Seq<RecV>, project: Option<Seq<char>>)
    ensures
        day_run(date, recs, project, 0, init_acc()) matches Ok(out) ==> ({
            &&& out.0.len() == count_matching_outs(recs, project, 0)
            &&& count_matching_outs(recs, project, 0) == count_matching_ins(recs, project, 0)
            &&& forall|t: int| 0 <= t < out.0.len() ==> (#[trigger] out.0[t]).0 > 0
        }),
{
    lemma_day_run_counts(date, recs, project, 0, init_acc());
}

proof fn lemma_run_days_dates(
    days: Seq<(Date, Seq<RecV>)>,
    start: Date,
    end: Date,
    project: Option<Seq<char>>,
)
    ensures
        run_days_rev(days, start, end, project) matches Ok(se) ==> ({
            &&& forall|t: int|
                0 <= t < se.0.len() ==> in_range((#[trigger] se.0[t]).date, start, end)
            &&& forall|t: int|
                0 <= t < se.1.len() ==> in_range((#[trigger] se.1[t]).date, start, end)
        }),
    decreases days.len(),
{
    if days.len() > 0 {
        lemma_run_days_dates(days.drop_last(), start, end, project);
        let d = days.last();
        if in_range(d.0, start, end) {
            match day_run(d.0, d.1, project, 0, init_acc()) {
                Ok(se) => {
                    match run_days_rev(days.drop_last(), start, end, project) {
                        Ok(rest) => {
                            let whole0 = day_slices(d.0, se.0) + rest.0;
                            let whole1 = day_exps(d.0, se.1) + rest.1;
                            assert forall|t: int| 0 <= t < whole0.len() implies in_range(
                                (#[trigger] whole0[t]).date,
                                start,
                                end,
                            ) by {
                                if t < day_slices(d.0, se.0).len() {
                                    assert(whole0[t] == day_slices(d.0, se.0)[t]);
                                } else {
                                    assert(whole0[t] == rest.0[t - day_slices(d.0, se.0).len()]);
                                }
                            }
                            assert forall|t: int| 0 <= t < whole1.len() implies in_range(
                                (#[trigger] whole1[t]).date,
                                start,
                                end,
                            ) by {
                                if t < day_exps(d.0, se.1).len() {
                                    assert(whole1[t] == day_exps(d.0, se.1)[t]);
                                } else {
                                    assert(whole1[t] == rest.1[t - day_exps(d.0, se.1).len()]);
                                }
                            }
                        },
                        Err(_) => {},
                    }
                },
                Err(_) => {},
            }
        }
    }
}

/// Law: date-range filtering is inclusive on both ends and excludes every
/// day strictly outside the bounds: no session or expense of a successful
/// report carries a date outside `[start, end]`, whatever order the log
/// stands in.
pub proof fn lemma_report_dates_in_range(
    recs: Seq<RecV>,
    start: Date,
    end: Date,
    project: Option<Seq<char>>,
)
    ensures
        time_report_spec(recs, start, end, project) matches Ok(rep) ==> ({
            &&& forall|t: int|
                0 <= t < rep.slices.len() ==> in_range((#[trigger] rep.slices[t]).date, start, end)
            &&& forall|t: int|
                0 <= t < rep.expenses.len() ==> in_range(
                    (#[trigger] rep.expenses[t]).date,
                    start,
                    end,
                )
        }),
{
    match dated_days_from(recs, 0) {
        Ok(days) => {
            lemma_run_days_dates(days, start, end, project);
        },
        Err(_) => {},
    }
}

// ---------------------------------------------------------------------------
// Executable code
// ---------------------------------------------------------------------------

fn is_newday(e: &RawEntry) -> (r: bool)
    ensures
        r == (e@ is NewDay),
{
    match e {
        RawEntry::NewDay(_) => true,
        _ => false,
    }
}

fn find_next_marker(entries: &Vec<RawEntry>, i: usize) -> (r: usize)
    requires
        i <= entries@.len(),
    ensures
        r == next_marker(recs_view(entries@), i as int),
        i <= r <= entries@.len(),
{
    let ghost recs = recs_view(entries@);
    proof {
        lemma_next_marker_bounds(recs, i as int);
    }
    let mut j: usize = i;
    while j < entries.len() && !is_newday(&entries[j])
        invariant
            i <= j <= entries@.len(),
            recs == recs_view(entries@),
            next_marker(recs, i as int) == next_marker(recs, j as int),
        decreases entries@.len() - j,
    {
        assert(recs[j as int] == entries@[j as int]@);
        j = j + 1;
    }
    if j < entries.len() {
        assert(recs[j as int] == entries@[j as int]@);
    }
    assert(next_marker(recs, j as int) == j as int);
    j
}

fn opt_string_eq(a: &Option<String>, b: &Option<String>) -> (r: bool)
    ensures
        r == (opt_view(*a) == opt_view(*b)),
{
    match (a, b) {
        (None, None) => true,
        (Some(x), Some(y)) => {
            let r = *x == *y;
            proof {
                assert(opt_view(*a) == Some(x@));
                assert(opt_view(*b) == Some(y@));
            }
            r
        },
        _ => false,
    }
}

/// Spec view of the exec day-machine state.
pub open spec fn acc_of(
    open_min: Option<u32>,
    acts: Seq<String>,
    slices: Seq<(u32, Vec<String>)>,
    exps: Seq<(String, String)>,
) -> DayAcc {
    DayAcc {
        open_min: match open_min {
            Some(v) => Some(v as int),
            None => None,
        },
        acts: strs_view(acts),
        slices: pairs_view(slices),
        exps: epairs_view(exps),
    }
}

pub open spec fn pairs_view(s: Seq<(u32, Vec<String>)>) -> Seq<(int, Seq<Seq<char>>)> {
    s.map_values(|p: (u32, Vec<String>)| (p.0 as int, strs_view(p.1@)))
}

pub open spec fn epairs_view(s: Seq<(String, String)>) -> Seq<(Seq<char>, Seq<char>)> {
    s.map_values(|p: (String, String)| (p.0@, p.1@))
}

/// Run the day state machine over `entries[lo..hi]`.
fn run_day(
    entries: &Vec<RawEntry>,
    date: Date,
    lo: usize,
    hi: usize,
    project: &Option<String>,
) -> (r: Result<(Vec<(u32, Vec<String>)>, Vec<(String, String)>), LogError>)
    requires
        lo <= hi <= entries@.len(),
    ensures
        match r {
            Ok(se) => day_run(
                date,
                recs_view(entries@).subrange(lo as int, hi as int),
                opt_view(*project),
                0,
                init_acc(),
            ) == Ok::<_, ErrV>((pairs_view(se.0@), epairs_view(se.1@))),
            Err(e) => day_run(
                date,
                recs_view(entries@).subrange(lo as int, hi as int),
                opt_view(*project),
                0,
                init_acc(),
            ) == Err::<(Seq<(int, Seq<Seq<char>>)>, Seq<(Seq<char>, Seq<char>)>), ErrV>(e@),
        },
{
    let ghost bucket = recs_view(entries@).subrange(lo as int, hi as int);
    let ghost proj = opt_view(*project);
    let mut open_min: Option<u32> = None;
    let mut acts: Vec<String> = Vec::new();
    let mut out_slices: Vec<(u32, Vec<String>)> = Vec::new();
    let mut out_exps: Vec<(String, String)> = Vec::new();
    let mut i: usize = lo;
    proof {
        assert(strs_view(acts@) =~= Seq::<Seq<char>>::empty());
        assert(pairs_view(out_slices@) =~= Seq::<(int, Seq<Seq<char>>)>::empty());
        assert(epairs_view(out_exps@) =~= Seq::<(Seq<char>, Seq<char>)>::empty());
        assert(acc_of(open_min, acts@, out_slices@, out_exps@) == init_acc());
    }
    while i < hi
        invariant
            lo <= i <= hi <= entries@.len(),
            bucket == recs_view(entries@).subrange(lo as int, hi as int),
            proj == opt_view(*project),
            day_run(date, bucket, proj, 0, init_acc()) == day_run(
                date,
                bucket,
                proj,
                i - lo,
                acc_of(open_min, acts@, out_slices@, out_exps@),
            ),
        decreases hi - i,
    {
        let ghost st = acc_of(open_min, acts@, out_slices@, out_exps@);
        assert(bucket[i - lo] == entries@[i as int]@);
        match &entries[i] {
            RawEntry::ClockIn(c) => {
                if opt_string_eq(c, project) {
                    if open_min.is_some() {
                        assert(day_run(date, bucket, proj, i - lo, st) == Err::<
                            (Seq<(int, Seq<Seq<char>>)>, Seq<(Seq<char>, Seq<char>)>),
                            ErrV,
                        >(ErrV::ClockInWithoutClockOut(date)));
                        return Err(LogError::ClockInWithoutClockOut(date));
                    }
                    if i + 1 < hi {
                        assert(bucket[i + 1 - lo] == entries@[i + 1]@);
                        match &entries[i + 1] {
                            RawEntry::Time(h, m) => {
                                let minute: u32 = (*h as u32) * 60 + (*m as u32);
                                open_min = Some(minute);
                                proof {
                                    assert(day_run(date, bucket, proj, i - lo, st) == day_run(
                                        date,
                                        bucket,
                                        proj,
                                        i + 1 - lo,
                                        acc_of(open_min, acts@, out_slices@, out_exps@),
                                    ));
                                }
                            },
                            _ => {
                                assert(day_run(date, bucket, proj, i - lo, st) == Err::<
                                    (Seq<(int, Seq<Seq<char>>)>, Seq<(Seq<char>, Seq<char>)>),
                                    ErrV,
                                >(ErrV::ClockInNotFollowedByTimestamp(date)));
                                return Err(LogError::ClockInNotFollowedByTimestamp(date));
                            },
                        }
                    } else {
                        assert(day_run(date, bucket, proj, i - lo, st) == Err::<
                            (Seq<(int, Seq<Seq<char>>)>, Seq<(Seq<char>, Seq<char>)>),
                            ErrV,
                        >(ErrV::ClockInNotFollowedByTimestamp(date)));
                        return Err(LogError::ClockInNotFollowedByTimestamp(date));
                    }
                } else {
                    proof {
                        assert(day_run(date, bucket, proj, i - lo, st) == day_run(
                            date,
                            bucket,
                            proj,
                            i + 1 - lo,
                            st,
                        ));
                    }
                }
            },
            RawEntry::ClockOut(c) => {
                if opt_string_eq(c, project) {
                    match open_min {
                        Some(om) => {
                            if i >= 1 && i - 1 >= lo {
                                assert(bucket[i - 1 - lo] == entries@[i - 1]@);
                                match &entries[i - 1] {
                                    RawEntry::Time(h, m) => {
                                        let co: u32 = (*h as u32) * 60 + (*m as u32);
                                        if co <= om {
                                            assert(day_run(date, bucket, proj, i - lo, st)
                                                == Err::<
                                                (
                                                    Seq<(int, Seq<Seq<char>>)>,
                                                    Seq<(Seq<char>, Seq<char>)>,
                                                ),
                                                ErrV,
                                            >(ErrV::ClockOutNotAfterClockIn(date)));
                                            return Err(LogError::ClockOutNotAfterClockIn(date));
                                        }
                                        let minutes: u32 = co - om;
                                        let ghost prev_slices = pairs_view(out_slices@);
                                        let ghost prev_acts = strs_view(acts@);
                                        let finished = acts;
                                        acts = Vec::new();
                                        out_slices.push((minutes, finished));
                                        open_min = None;
                                        proof {
                                            assert(pairs_view(out_slices@) =~= prev_slices.push(
                                                (minutes as int, prev_acts),
                                            ));
                                            assert(strs_view(acts@) =~= Seq::<Seq<char>>::empty());
                                            assert(day_run(date, bucket, proj, i - lo, st)
                                                == day_run(
                                                date,
                                                bucket,
                                                proj,
                                                i + 1 - lo,
                                                acc_of(open_min, acts@, out_slices@, out_exps@),
                                            ));
                                        }
                                    },
                                    _ => {
                                        assert(day_run(date, bucket, proj, i - lo, st) == Err::<
                                            (
                                                Seq<(int, Seq<Seq<char>>)>,
                                                Seq<(Seq<char>, Seq<char>)>,
                                            ),
                                            ErrV,
                                        >(ErrV::ClockOutNotPrecededByTimestamp(date)));
                                        return Err(
                                            LogError::ClockOutNotPrecededByTimestamp(date),
                                        );
                                    },
                                }
                            } else {
                                assert(day_run(date, bucket, proj, i - lo, st) == Err::<
                                    (Seq<(int, Seq<Seq<char>>)>, Seq<(Seq<char>, Seq<char>)>),
                                    ErrV,
                                >(ErrV::ClockOutNotPrecededByTimestamp(date)));
                                return Err(LogError::ClockOutNotPrecededByTimestamp(date));
                            }
                        },
                        None => {
                            assert(day_run(date, bucket, proj, i - lo, st) == Err::<
                                (Seq<(int, Seq<Seq<char>>)>, Seq<(Seq<char>, Seq<char>)>),
                                ErrV,
                            >(ErrV::ClockOutWithoutClockIn(date)));
                            return Err(LogError::ClockOutWithoutClockIn(date));
                        },
                    }
                } else {
                    proof {
                        assert(day_run(date, bucket, proj, i - lo, st) == day_run(
                            date,
                            bucket,
                            proj,
                            i + 1 - lo,
                            st,
                        ));
                    }
                }
            },
            RawEntry::Action(s) => {
                if open_min.is_some() {
                    let ghost prev_acts = strs_view(acts@);
                    acts.push(s.clone());
                    proof {
                        assert(strs_view(acts@) =~= prev_acts.push(entries@[i as int]->Action_0@));
                        assert(day_run(date, bucket, proj, i - lo, st) == day_run(
                            date,
                            bucket,
                            proj,
                            i + 1 - lo,
                            acc_of(open_min, acts@, out_slices@, out_exps@),
                        ));
                    }
                } else {
                    proof {
                        assert(day_run(date, bucket, proj, i - lo, st) == day_run(
                            date,
                            bucket,
                            proj,
                            i + 1 - lo,
                            st,
                        ));
                    }
                }
            },
            RawEntry::Expense(cost, what) => {
                let ghost prev_exps = epairs_view(out_exps@);
                out_exps.push((cost.clone(), what.clone()));
                proof {
                    assert(epairs_view(out_exps@) =~= prev_exps.push(
                        (
                            entries@[i as int]->Expense_0@,
                            entries@[i as int]->Expense_1@,
                        ),
                    ));
                    assert(day_run(date, bucket, proj, i - lo, st) == day_run(
                        date,
                        bucket,
                        proj,
                        i + 1 - lo,
                        acc_of(open_min, acts@, out_slices@, out_exps@),
                    ));
                }
            },
            _ => {
                proof {
                    assert(day_run(date, bucket, proj, i - lo, st) == day_run(
                        date,
                        bucket,
                        proj,
                        i + 1 - lo,
                        st,
                    ));
                }
            },
        }
        i = i + 1;
    }
    if open_min.is_some() {
        assert(day_run(date, bucket, proj, hi - lo, acc_of(open_min, acts@, out_slices@, out_exps@))
            == Err::<(Seq<(int, Seq<Seq<char>>)>, Seq<(Seq<char>, Seq<char>)>), ErrV>(
            ErrV::ClockInWithoutClockOut(date),
        ));
        return Err(LogError::ClockInWithoutClockOut(date));
    }
    assert(day_run(date, bucket, proj, hi - lo, acc_of(open_min, acts@, out_slices@, out_exps@))
        == Ok::<_, ErrV>((pairs_view(out_slices@), epairs_view(out_exps@))));
    Ok((out_slices, out_exps))
}

/// Spec view of the collected day list: each day as its date and its record
/// bucket.
pub open spec fn days_view(ds: Seq<(Date, usize, usize)>, recs: Seq<RecV>) -> Seq<
    (Date, Seq<RecV>),
> {
    ds.map_values(|t: (Date, usize, usize)| (t.0, recs.subrange(t.1 as int, t.2 as int)))
}

/// Reconstruct the time report from a classified record stream.
///
/// `start` and `end` bound the reported days inclusively; `project` is the
/// tag a clock marker must carry to count.  The filter is plain equality on
/// the optional tag: a `Some` filter pairs exactly the markers carrying
/// that tag, and `None` pairs exactly the untagged markers — so a run
/// without a project filter counts untagged markers only, and tagged
/// markers pass through unpaired.  The result's sessions and expenses
/// stand in chronological order.  Fails on the first structural log error,
/// exactly as [`time_report_spec`] states.
pub fn do_time_report(
    entries: &Vec<RawEntry>,
    start: Date,
    end: Date,
    project: &Option<String>,
) -> (r: Result<TimeReport, LogError>)
    ensures
        match r {
            Ok(rep) => time_report_spec(recs_view(entries@), start, end, opt_view(*project))
                == Ok::<ReportV, ErrV>(rep@),
            Err(e) => time_report_spec(recs_view(entries@), start, end, opt_view(*project))
                == Err::<ReportV, ErrV>(e@),
        },
{
    let ghost recs = recs_view(entries@);
    let ghost proj = opt_view(*project);

    // Phase 1: find the day buckets and parse every marker's date, in log
    // order, so the first bad date in the log is the error reported.
    let mut days: Vec<(Date, usize, usize)> = Vec::new();
    let mut j: usize = 0;
    proof {
        assert(days_view(days@, recs) =~= Seq::<(Date, Seq<RecV>)>::empty());
    }
    loop
        invariant
            j <= entries@.len(),
            recs == recs_view(entries@),
            forall|t: int| 0 <= t < days@.len() ==> (#[trigger] days@[t]).1 <= days@[t].2
                <= entries@.len(),
            match dated_days_from(recs, j as int) {
                Ok(rest) => dated_days_from(recs, 0) == Ok::<Seq<(Date, Seq<RecV>)>, ErrV>(
                    days_view(days@, recs) + rest,
                ),
                Err(e) => dated_days_from(recs, 0) == Err::<Seq<(Date, Seq<RecV>)>, ErrV>(e),
            },
        ensures
            dated_days_from(recs, j as int) == Ok::<Seq<(Date, Seq<RecV>)>, ErrV>(
                Seq::<(Date, Seq<RecV>)>::empty(),
            ),
        decreases entries@.len() - j,
    {
        let m = find_next_marker(entries, j);
        proof {
            lemma_next_marker_bounds(recs, j as int);
            if (m as int) < recs.len() {
                assert(next_marker(recs, m as int) == m as int);
            }
        }
        if m == entries.len() {
            assert(next_marker(recs, j as int) == recs.len());
            assert(dated_days_from(recs, j as int) == Ok::<Seq<(Date, Seq<RecV>)>, ErrV>(
                Seq::<(Date, Seq<RecV>)>::empty(),
            ));
            break;
        }
        assert(recs[m as int] == entries@[m as int]@);
        let date_opt: Option<Date>;
        let ghost dtext = marker_text(recs, m as int);
        match &entries[m] {
            RawEntry::NewDay(s) => {
                let dchars = str_chars(s.as_str());
                date_opt = parse_day_date(&dchars);
                if date_opt.is_none() {
                    assert(!day_date_ok(dtext));
                    assert(dated_days_from(recs, j as int) == Err::<
                        Seq<(Date, Seq<RecV>)>,
                        ErrV,
                    >(ErrV::BadDayDate(dtext)));
                    return Err(LogError::BadDayDate(s.clone()));
                }
            },
            _ => {
                assert(false);
                date_opt = None;
            },
        }
        let date = match date_opt {
            Some(d) => d,
            None => {
                assert(false);
                Date { year: 0, month: 1, day: 1 }
            },
        };
        let k = find_next_marker(entries, m + 1);
        let ghost prev_days = days_view(days@, recs);
        days.push((date, m + 1, k));
        proof {
            assert(day_date_ok(dtext));
            assert(date == date_of(dtext));
            assert(days_view(days@, recs) =~= prev_days.push(
                (date, recs.subrange(m + 1, k as int)),
            ));
            let step = dated_days_from(recs, j as int);
            match dated_days_from(recs, m + 1) {
                Ok(rest) => {
                    assert(step == Ok::<Seq<(Date, Seq<RecV>)>, ErrV>(
                        seq![(date_of(dtext), recs.subrange(m + 1, k as int))] + rest,
                    ));
                    assert(prev_days + (seq![(date_of(dtext), recs.subrange(m + 1, k as int))]
                        + rest) =~= days_view(days@, recs) + rest);
                },
                Err(_) => {},
            }
        }
        j = m + 1;
    }
    assert(dated_days_from(recs, j as int) == Ok::<Seq<(Date, Seq<RecV>)>, ErrV>(
        Seq::<(Date, Seq<RecV>)>::empty(),
    ));
    assert(days_view(days@, recs) + Seq::<(Date, Seq<RecV>)>::empty() =~= days_view(
        days@,
        recs,
    ));
    let ghost all_days = days_view(days@, recs);
    assert(dated_days_from(recs, 0) == Ok::<Seq<(Date, Seq<RecV>)>, ErrV>(all_days));

    // Phase 2: walk the days from the oldest (the log is newest-first), keep
    // those in range, and run the day machine on each.
    let mut slices: Vec<TimeSlice> = Vec::new();
    let mut expenses: Vec<ExpenseItem> = Vec::new();
    let mut idx: usize = days.len();
    proof {
        assert(all_days.take(idx as int) =~= all_days);
        assert(slices@.map_values(|t: TimeSlice| t@) =~= Seq::<SliceV>::empty());
        assert(expenses@.map_values(|e: ExpenseItem| e@) =~= Seq::<ExpV>::empty());
    }
    while idx > 0
        invariant
            idx <= days@.len(),
            recs == recs_view(entries@),
            proj == opt_view(*project),
            all_days == days_view(days@, recs),
            dated_days_from(recs, 0) == Ok::<Seq<(Date, Seq<RecV>)>, ErrV>(all_days),
            forall|t: int| 0 <= t < days@.len() ==> (#[trigger] days@[t]).1 <= days@[t].2
                <= entries@.len(),
            match run_days_rev(all_days.take(idx as int), start, end, proj) {
                Ok(rest) => run_days_rev(all_days, start, end, proj) == Ok::<
                    (Seq<SliceV>, Seq<ExpV>),
                    ErrV,
                >(
                    (
                        slices@.map_values(|t: TimeSlice| t@) + rest.0,
                        expenses@.map_values(|e: ExpenseItem| e@) + rest.1,
                    ),
                ),
                Err(e) => run_days_rev(all_days, start, end, proj) == Err::<
                    (Seq<SliceV>, Seq<ExpV>),
                    ErrV,
                >(e),
            },
        decreases idx,
    {
        let (date, lo, hi) = days[idx - 1];
        proof {
            assert(all_days.take(idx as int).last() == all_days[idx - 1]);
            assert(all_days[idx - 1] == (date, recs.subrange(lo as int, hi as int)));
            assert(all_days.take(idx as int).drop_last() =~= all_days.take(idx - 1));
        }
        let keep = {
            let ge = date_le(&start, &date);
            let le = date_le(&date, &end);
            ge && le
        };
        if keep {
            match run_day(entries, date, lo, hi, project) {
                Ok((mut ds, mut es)) => {
                    let ghost day_pairs = pairs_view(ds@);
                    let ghost day_epairs = epairs_view(es@);
                    let ghost slices_before = slices@.map_values(|t: TimeSlice| t@);
                    let ghost exps_before = expenses@.map_values(|e: ExpenseItem| e@);
                    let dn: usize = ds.len();
                    let en: usize = es.len();
                    proof {
                        assert(day_pairs.len() == dn as int);
                        assert(day_epairs.len() == en as int);
                    }
                    let mut t: usize = 0;
                    proof {
                        assert(day_slices(date, day_pairs).take(0) =~= Seq::<SliceV>::empty());
                        assert(slices_before + Seq::<SliceV>::empty() =~= slices_before);
                    }
                    while ds.len() > 0
                        invariant
                            t + ds@.len() == day_pairs.len(),
                            day_pairs.len() <= usize::MAX,
                            pairs_view(ds@) =~= day_pairs.skip(t as int),
                            slices@.map_values(|x: TimeSlice| x@) =~= slices_before + day_slices(
                                date,
                                day_pairs,
                            ).take(t as int),
                        decreases ds@.len(),
                    {
                        let ghost ds_before = ds@;
                        let p = ds.remove(0);
                        let ghost before = slices@.map_values(|x: TimeSlice| x@);
                        let ghost pv = (p.0 as int, strs_view(p.1@));
                        let hh = round_to_half_hours(p.0);
                        slices.push(TimeSlice { date, half_hours: hh, actions: p.1 });
                        proof {
                            assert(p == ds_before[0]);
                            assert(pairs_view(ds_before)[0] == pv);
                            assert(day_pairs.skip(t as int)[0] == day_pairs[t as int]);
                            assert(day_pairs[t as int] == pv);
                            assert(day_slices(date, day_pairs)[t as int] == SliceV {
                                date,
                                half_hours: half_hours_of(pv.0),
                                actions: pv.1,
                            });
                            assert(slices@.map_values(|x: TimeSlice| x@) =~= before.push(
                                SliceV { date, half_hours: hh as int, actions: pv.1 },
                            ));
                            assert(day_slices(date, day_pairs).take(t + 1) =~= day_slices(
                                date,
                                day_pairs,
                            ).take(t as int).push(day_slices(date, day_pairs)[t as int]));
                            assert forall|n: int| 0 <= n < ds@.len() implies #[trigger] pairs_view(
                                ds@,
                            )[n] == day_pairs.skip(t + 1)[n] by {
                                assert(ds@[n] == ds_before[n + 1]);
                                assert(pairs_view(ds_before)[n + 1] == day_pairs.skip(
                                    t as int,
                                )[n + 1]);
                            }
                            assert(pairs_view(ds@) =~= day_pairs.skip(t + 1));
                        }
                        t = t + 1;
                    }
                    proof {
                        assert(day_slices(date, day_pairs).take(t as int) =~= day_slices(
                            date,
                            day_pairs,
                        ));
                    }
                    let mut u: usize = 0;
                    proof {
                        assert(day_exps(date, day_epairs).take(0) =~= Seq::<ExpV>::empty());
                        assert(exps_before + Seq::<ExpV>::empty() =~= exps_before);
                    }
                    while es.len() > 0
                        invariant
                            u + es@.len() == day_epairs.len(),
                            day_epairs.len() <= usize::MAX,
                            epairs_view(es@) =~= day_epairs.skip(u as int),
                            expenses@.map_values(|x: ExpenseItem| x@) =~= exps_before + day_exps(
                                date,
                                day_epairs,
                            ).take(u as int),
                        decreases es@.len(),
                    {
                        let ghost es_before = es@;
                        let p = es.remove(0);
                        let ghost before = expenses@.map_values(|x: ExpenseItem| x@);
                        let ghost pv = (p.0@, p.1@);
                        expenses.push(ExpenseItem { date, cost: p.0, what: p.1 });
                        proof {
                            assert(p == es_before[0]);
                            assert(epairs_view(es_before)[0] == pv);
                            assert(day_epairs.skip(u as int)[0] == day_epairs[u as int]);
                            assert(day_epairs[u as int] == pv);
                            assert(day_exps(date, day_epairs)[u as int] == ExpV {
                                date,
                                cost: pv.0,
                                what: pv.1,
                            });
                            assert(expenses@.map_values(|x: ExpenseItem| x@) =~= before.push(
                                ExpV { date, cost: pv.0, what: pv.1 },
                            ));
                            assert(day_exps(date, day_epairs).take(u + 1) =~= day_exps(
                                date,
                                day_epairs,
                            ).take(u as int).push(day_exps(date, day_epairs)[u as int]));
                            assert forall|n: int| 0 <= n < es@.len() implies #[trigger] epairs_view(
                                es@,
                            )[n] == day_epairs.skip(u + 1)[n] by {
                                assert(es@[n] == es_before[n + 1]);
                                assert(epairs_view(es_before)[n + 1] == day_epairs.skip(
                                    u as int,
                                )[n + 1]);
                            }
                            assert(epairs_view(es@) =~= day_epairs.skip(u + 1));
                        }
                        u = u + 1;
                    }
                    proof {
                        assert(day_exps(date, day_epairs).take(u as int) =~= day_exps(
                            date,
                            day_epairs,
                        ));
                        match run_days_rev(all_days.take(idx - 1), start, end, proj) {
                            Ok(rest) => {
                                assert((slices_before + day_slices(date, day_pairs)) + rest.0
                                    =~= slices_before + (day_slices(date, day_pairs) + rest.0));
                                assert((exps_before + day_exps(date, day_epairs)) + rest.1
                                    =~= exps_before + (day_exps(date, day_epairs) + rest.1));
                            },
                            Err(_) => {},
                        }
                    }
                },
                Err(e) => {
                    proof {
                        assert(run_days_rev(all_days.take(idx as int), start, end, proj)
                            == Err::<(Seq<SliceV>, Seq<ExpV>), ErrV>(e@));
                        assert(time_report_spec(recs, start, end, proj) == Err::<ReportV, ErrV>(
                            e@,
                        ));
                    }
                    return Err(e);
                },
            }
        }
        idx = idx - 1;
    }
    proof {
        assert(all_days.take(0) =~= Seq::<(Date, Seq<RecV>)>::empty());
        match run_days_rev(all_days, start, end, proj) {
            Ok(se) => {
                assert(slices@.map_values(|t: TimeSlice| t@) + Seq::<SliceV>::empty()
                    =~= slices@.map_values(|t: TimeSlice| t@));
                assert(expenses@.map_values(|e: ExpenseItem| e@) + Seq::<ExpV>::empty()
                    =~= expenses@.map_values(|e: ExpenseItem| e@));
            },
            Err(_) => {
                assert(false);
            },
        }
    }
    let report = TimeReport { slices, expenses };
    Ok(report)
}

} // verus!
