use worklog::classify::lines_to_raw_entries;
use worklog::dates::Date;
use worklog::records::{LogError, RawEntry};
use worklog::time_reporting::{do_time_report, round_to_half_hours, TimeReport};

fn date(y: u32, m: u32, d: u32) -> Date {
    Date { year: y, month: m, day: d }
}

fn entries_of(lines: &[&str]) -> Vec<RawEntry> {
    let owned: Vec<String> = lines.iter().map(|s| s.to_string()).collect();
    lines_to_raw_entries(&owned).expect("classifies")
}

fn report(lines: &[&str], start: Date, end: Date, project: Option<&str>) -> Result<TimeReport, LogError> {
    let entries = entries_of(lines);
    let project = project.map(|s| s.to_string());
    do_time_report(&entries, start, end, &project)
}

#[test]
fn rounding_to_half_hours() {
    assert_eq!(round_to_half_hours(90), 3); // 1.5 hours
    assert_eq!(round_to_half_hours(100), 3); // 100/60 h = 3.33 half hours, rounds down to 1.5 h
    assert_eq!(round_to_half_hours(0), 0);
    assert_eq!(round_to_half_hours(15), 1); // the boundary rounds up
    assert_eq!(round_to_half_hours(14), 0);
    assert_eq!(round_to_half_hours(45), 2);
    assert_eq!(round_to_half_hours(60), 2);
}

#[test]
fn one_session_end_to_end() {
    // A day with one clocked session of three hours; the clock-out stands
    // after the timestamp that closes it.
    let r = report(
        &[
            "# 2021-02-01",
            "- Clock in",
            "- 9:00 AM",
            "- Did work [x](http://y)",
            "- 12:00 PM",
            "- Clock out",
        ],
        date(2021, 2, 1),
        date(2021, 2, 28),
        None,
    )
    .expect("reconstructs");
    assert_eq!(r.slices.len(), 1);
    assert_eq!(r.slices[0].date, date(2021, 2, 1));
    assert_eq!(r.slices[0].half_hours, 6); // 3.0 hours
    assert_eq!(r.slices[0].actions, vec!["Did work [x](http://y)".to_string()]);
    assert_eq!(r.expenses.len(), 0);
}

#[test]
fn clock_out_before_its_timestamp_is_fatal() {
    // The timestamp that closes a session must stand immediately before the
    // clock-out line; the other order is a structural error.
    let r = report(
        &[
            "# 2021-02-01",
            "- Clock in",
            "- 9:00 AM",
            "- Did work [x](http://y)",
            "- Clock out",
            "- 12:00 PM",
        ],
        date(2021, 2, 1),
        date(2021, 2, 28),
        None,
    );
    assert_eq!(
        r,
        Err(LogError::ClockOutNotPrecededByTimestamp(date(2021, 2, 1)))
    );
}

#[test]
fn clock_out_without_clock_in_is_fatal_and_yields_no_session() {
    let r = report(
        &["# 2021-02-01", "- 9:00 AM", "- Clock out"],
        date(2021, 2, 1),
        date(2021, 2, 28),
        None,
    );
    assert_eq!(r, Err(LogError::ClockOutWithoutClockIn(date(2021, 2, 1))));
}

#[test]
fn open_session_at_day_end_is_fatal() {
    let r = report(
        &["# 2021-02-01", "- Clock in", "- 9:00 AM", "- Did work"],
        date(2021, 2, 1),
        date(2021, 2, 28),
        None,
    );
    assert_eq!(r, Err(LogError::ClockInWithoutClockOut(date(2021, 2, 1))));
}

#[test]
fn clock_in_needs_a_following_timestamp() {
    let r = report(
        &["# 2021-02-01", "- Clock in", "- Did work"],
        date(2021, 2, 1),
        date(2021, 2, 28),
        None,
    );
    assert_eq!(r, Err(LogError::ClockInNotFollowedByTimestamp(date(2021, 2, 1))));
}

#[test]
fn nonpositive_duration_is_fatal() {
    let r = report(
        &[
            "# 2021-02-01",
            "- Clock in",
            "- 1:00 PM",
            "- 1:00 PM",
            "- Clock out",
        ],
        date(2021, 2, 1),
        date(2021, 2, 28),
        None,
    );
    assert_eq!(r, Err(LogError::ClockOutNotAfterClockIn(date(2021, 2, 1))));
}

#[test]
fn date_range_is_inclusive_on_both_ends() {
    // The log runs newest-first: the later day stands above the earlier one.
    let lines = [
        "# 2021-02-03",
        "- Clock in",
        "- 9:00 AM",
        "- 10:00 AM",
        "- Clock out",
        "# 2021-02-02",
        "- Clock in",
        "- 9:00 AM",
        "- 10:30 AM",
        "- Clock out",
        "# 2021-02-01",
        "- Clock in",
        "- 9:00 AM",
        "- 11:00 AM",
        "- Clock out",
    ];
    // Both boundary days are kept; the day outside is excluded; output is
    // chronological, oldest first.
    let r = report(&lines, date(2021, 2, 1), date(2021, 2, 2), None).expect("reconstructs");
    assert_eq!(r.slices.len(), 2);
    assert_eq!(r.slices[0].date, date(2021, 2, 1));
    assert_eq!(r.slices[0].half_hours, 4); // 2 hours
    assert_eq!(r.slices[1].date, date(2021, 2, 2));
    assert_eq!(r.slices[1].half_hours, 3); // 1.5 hours
}

#[test]
fn days_outside_the_range_escape_session_errors() {
    // A structurally broken day outside the range is never processed.
    let lines = [
        "# 2021-02-03",
        "- Clock out",
        "# 2021-02-01",
        "- Clock in",
        "- 9:00 AM",
        "- 10:00 AM",
        "- Clock out",
    ];
    let r = report(&lines, date(2021, 2, 1), date(2021, 2, 2), None).expect("reconstructs");
    assert_eq!(r.slices.len(), 1);
    assert_eq!(r.slices[0].date, date(2021, 2, 1));
}

#[test]
fn bad_day_dates_are_fatal_even_outside_the_range() {
    // Every marker's date is parsed before filtering.
    let lines = [
        "# 2021-02-30",
        "- Did things",
        "# 2021-02-01",
        "- Clock in",
        "- 9:00 AM",
        "- 10:00 AM",
        "- Clock out",
    ];
    let r = report(&lines, date(2021, 2, 1), date(2021, 2, 2), None);
    assert_eq!(r, Err(LogError::BadDayDate("2021-02-30".to_string())));
}

#[test]
fn leap_day_is_a_valid_date() {
    let lines = ["# 2020-02-29", "- Clock in", "- 9:00 AM", "- 9:30 AM", "- Clock out"];
    let r = report(&lines, date(2020, 2, 1), date(2020, 2, 29), None).expect("reconstructs");
    assert_eq!(r.slices[0].date, date(2020, 2, 29));
}

#[test]
fn day_marker_with_trailing_text_is_fatal_in_time_reports() {
    let lines = ["# 2021-02-01 Monday", "- Did things"];
    let r = report(&lines, date(2021, 2, 1), date(2021, 2, 28), None);
    assert_eq!(r, Err(LogError::BadDayDate("2021-02-01 Monday".to_string())));
}

#[test]
fn project_filter_matches_tags() {
    let lines = [
        "# 2021-02-01",
        "- Clock in (acme)",
        "- 9:00 AM",
        "- acme work",
        "- 10:00 AM",
        "- Clock out (acme)",
        "- Clock in (other)",
        "- 11:00 AM",
        "- other work",
        "- 11:30 AM",
        "- Clock out (other)",
    ];
    let r = report(&lines, date(2021, 2, 1), date(2021, 2, 28), Some("acme")).expect("reconstructs");
    assert_eq!(r.slices.len(), 1);
    assert_eq!(r.slices[0].half_hours, 2);
    // Actions between the markers count toward the open session only; the
    // other project's work stays out.
    assert_eq!(r.slices[0].actions, vec!["acme work".to_string()]);
}

#[test]
fn untagged_filter_ignores_tagged_markers() {
    let lines = [
        "# 2021-02-01",
        "- Clock in (acme)",
        "- 9:00 AM",
        "- 10:00 AM",
        "- Clock out (acme)",
    ];
    let r = report(&lines, date(2021, 2, 1), date(2021, 2, 28), None).expect("reconstructs");
    assert_eq!(r.slices.len(), 0);
}

#[test]
fn expenses_collect_in_any_state() {
    let lines = [
        "# 2021-02-01",
        "- Expense: $5.00,coffee",
        "- Clock in",
        "- 9:00 AM",
        "- 10:00 AM",
        "- Clock out",
        "- Expense: $12,parts",
    ];
    let r = report(&lines, date(2021, 2, 1), date(2021, 2, 28), None).expect("reconstructs");
    assert_eq!(r.expenses.len(), 2);
    assert_eq!(r.expenses[0].cost, "5.00");
    assert_eq!(r.expenses[0].what, "coffee");
    assert_eq!(r.expenses[0].date, date(2021, 2, 1));
    assert_eq!(r.expenses[1].cost, "12");
    assert_eq!(r.expenses[1].what, "parts");
}

#[test]
fn two_sessions_in_one_day() {
    let lines = [
        "# 2021-02-01",
        "- Clock in",
        "- 9:00 AM",
        "- morning work",
        "- 10:00 AM",
        "- Clock out",
        "- Clock in",
        "- 2:00 PM",
        "- afternoon work",
        "- 3:30 PM",
        "- Clock out",
    ];
    let r = report(&lines, date(2021, 2, 1), date(2021, 2, 28), None).expect("reconstructs");
    assert_eq!(r.slices.len(), 2);
    assert_eq!(r.slices[0].half_hours, 2);
    assert_eq!(r.slices[0].actions, vec!["morning work".to_string()]);
    assert_eq!(r.slices[1].half_hours, 3);
    assert_eq!(r.slices[1].actions, vec!["afternoon work".to_string()]);
}

#[test]
fn records_before_the_first_marker_are_dropped() {
    let lines = [
        "- Clock in",
        "- 9:00 AM",
        "# 2021-02-01",
        "- Clock in",
        "- 9:00 AM",
        "- 10:00 AM",
        "- Clock out",
    ];
    let r = report(&lines, date(2021, 2, 1), date(2021, 2, 28), None).expect("reconstructs");
    assert_eq!(r.slices.len(), 1);
}
