//! The typed records a log line can classify to, and the fatal errors of the
//! whole pipeline, together with their spec-level views.

use vstd::prelude::*;
use crate::dates::Date;

verus! {

/// What one line of the log represents.
///
/// An expense's cost is held as its decimal text (digits with at most one
/// dot), exactly as it stood on the line.
#[derive(Debug, Clone, PartialEq, Eq)]
pub enum RawEntry {
    /// Unrecognized line, dropped downstream; carries the line verbatim.
    Junk(String),
    /// Day marker: the text after `# `, beginning with `YYYY-MM-DD`.
    NewDay(String),
    /// Free-text task description (trimmed), possibly with a Markdown link.
    Action(String),
    /// Clock time as hour and minute, from 12-hour `H:MM AM|PM` input.
    Time(u8, u8),
    /// Predicted pleasure, predicted pain, actual pleasure, actual pain.
    Prediction(u8, u8, u8, u8),
    /// Session opening marker with its optional project tag.
    ClockIn(Option<String>),
    /// Session closing marker with its optional project tag.
    ClockOut(Option<String>),
    /// Monetary entry: decimal cost text and description.
    Expense(String, String),
}

/// Spec-level view of a [`RawEntry`].
pub enum RecV {
    Junk(Seq<char>),
    NewDay(Seq<char>),
    Action(Seq<char>),
    Time(u8, u8),
    Prediction(u8, u8, u8, u8),
    ClockIn(Option<Seq<char>>),
    ClockOut(Option<Seq<char>>),
    Expense(Seq<char>, Seq<char>),
}

pub open spec fn opt_view(o: Option<String>) -> Option<Seq<char>> {
    match o {
        Some(s) => Some(s@),
        None => None,
    }
}

impl View for RawEntry {
    type V = RecV;

    open spec fn view(&self) -> RecV {
        match self {
            RawEntry::Junk(s) => RecV::Junk(s@),
            RawEntry::NewDay(s) => RecV::NewDay(s@),
            RawEntry::Action(s) => RecV::Action(s@),
            RawEntry::Time(h, m) => RecV::Time(*h, *m),
            RawEntry::Prediction(a, b, c, d) => RecV::Prediction(*a, *b, *c, *d),
            RawEntry::ClockIn(o) => RecV::ClockIn(opt_view(*o)),
            RawEntry::ClockOut(o) => RecV::ClockOut(opt_view(*o)),
            RawEntry::Expense(c, w) => RecV::Expense(c@, w@),
        }
    }
}

pub open spec fn recs_view(s: Seq<RawEntry>) -> Seq<RecV> {
    s.map_values(|e: RawEntry| e@)
}

/// The views of a sequence of strings.
pub open spec fn strs_view(s: Seq<String>) -> Seq<Seq<char>> {
    s.map_values(|x: String| x@)
}

/// The fatal errors: classification guards and structural log errors.  Each
/// aborts the whole run; none is recoverable.
#[derive(Debug, Clone, PartialEq, Eq)]
pub enum LogError {
    /// The unspaced typo `clockin` anywhere on a line.
    UnspacedClockIn,
    /// The unspaced typo `clockout` anywhere on a line.
    UnspacedClockOut,
    /// A line announcing an expense whose remainder does not fit
    /// `Expense: $<decimal>,<description>`; carries the offending text.
    MalformedExpense(String),
    /// A prediction line with a component above 255; carries the text.
    MalformedPrediction(String),
    /// A day marker whose text is not an existing `YYYY-MM-DD` calendar
    /// day; carries the text.
    BadDayDate(String),
    /// A matching clock-in while a session is already open, or still open at
    /// the day's end.
    ClockInWithoutClockOut(Date),
    /// A matching clock-out with no session open.
    ClockOutWithoutClockIn(Date),
    /// A matching clock-in whose next record is not a timestamp.
    ClockInNotFollowedByTimestamp(Date),
    /// A matching clock-out whose previous record is not a timestamp.
    ClockOutNotPrecededByTimestamp(Date),
    /// A clock-out timestamp not strictly after its clock-in.
    ClockOutNotAfterClockIn(Date),
}

/// Spec-level view of a [`LogError`].
pub enum ErrV {
    UnspacedClockIn,
    UnspacedClockOut,
    MalformedExpense(Seq<char>),
    MalformedPrediction(Seq<char>),
    BadDayDate(Seq<char>),
    ClockInWithoutClockOut(Date),
    ClockOutWithoutClockIn(Date),
    ClockInNotFollowedByTimestamp(Date),
    ClockOutNotPrecededByTimestamp(Date),
    ClockOutNotAfterClockIn(Date),
}

impl View for LogError {
    type V = ErrV;

    open spec fn view(&self) -> ErrV {
        match self {
            LogError::UnspacedClockIn => ErrV::UnspacedClockIn,
            LogError::UnspacedClockOut => ErrV::UnspacedClockOut,
            LogError::MalformedExpense(s) => ErrV::MalformedExpense(s@),
            LogError::MalformedPrediction(s) => ErrV::MalformedPrediction(s@),
            LogError::BadDayDate(s) => ErrV::BadDayDate(s@),
            LogError::ClockInWithoutClockOut(d) => ErrV::ClockInWithoutClockOut(*d),
            LogError::ClockOutWithoutClockIn(d) => ErrV::ClockOutWithoutClockIn(*d),
            LogError::ClockInNotFollowedByTimestamp(d) => ErrV::ClockInNotFollowedByTimestamp(*d),
            LogError::ClockOutNotPrecededByTimestamp(d) => ErrV::ClockOutNotPrecededByTimestamp(
                *d,
            ),
            LogError::ClockOutNotAfterClockIn(d) => ErrV::ClockOutNotAfterClockIn(*d),
        }
    }
}

impl LogError {
    /// A stable name for the error's kind, for diagnostics.
    pub fn kind_name(&self) -> (r: &'static str) {
        match self {
            LogError::UnspacedClockIn => "use 'clock in', not 'clockin'",
            LogError::UnspacedClockOut => "use 'clock out', not 'clockout'",
            LogError::MalformedExpense(_) => "malformed expense",
            LogError::MalformedPrediction(_) => "malformed prediction",
            LogError::BadDayDate(_) => "unparseable day date",
            LogError::ClockInWithoutClockOut(_) => "clock-in without clock-out",
            LogError::ClockOutWithoutClockIn(_) => "clock-out without clock-in",
            LogError::ClockInNotFollowedByTimestamp(_) => "clock-in not followed by timestamp",
            LogError::ClockOutNotPrecededByTimestamp(_) => "clock-out not preceded by timestamp",
            LogError::ClockOutNotAfterClockIn(_) => "clock-out less than clock-in",
        }
    }
}

} // verus!
