use worklog::classify::lines_to_raw_entries;
use worklog::dates::Date;
use worklog::pleasure_and_pain::{
    analyze_prediction, basic_stats, raw_to_entries, week_of, weekly_stats, Entry, Prediction,
    Time, WeekId,
};

fn fallback() -> Date {
    Date { year: 2017, month: 1, day: 1 }
}

fn entry(date: &str, pred: Option<(u8, u8, u8, u8)>) -> Entry {
    Entry {
        date: date.to_string(),
        desc: String::new(),
        url: None,
        pred: pred.map(|(a, b, c, d)| Prediction(a, b, c, d)),
        time: None,
    }
}

#[test]
fn entries_build_from_raw_records() {
    let lines = vec![
        "# 2021-02-01".to_string(),
        "- 5/3:4/2".to_string(),
        "- 9:00 AM".to_string(),
        "- Did things".to_string(),
        "- Other things".to_string(),
    ];
    let raws = lines_to_raw_entries(&lines).expect("classifies");
    let entries = raw_to_entries(&raws);
    // The prediction and time attach to the `New day` entry, which the
    // first action emits; the last entry under construction is appended.
    assert_eq!(entries.len(), 3);
    assert_eq!(entries[0].date, "2021-02-01");
    assert_eq!(entries[0].desc, "New day");
    assert_eq!(entries[0].pred, Some(Prediction(5, 3, 4, 2)));
    assert_eq!(entries[0].time, Some(Time(9, 0)));
    assert_eq!(entries[1].desc, "Did things");
    assert_eq!(entries[1].pred, None);
    assert_eq!(entries[2].desc, "Other things");
}

#[test]
fn entries_before_any_marker_carry_the_default_date() {
    let raws = lines_to_raw_entries(&vec!["- Lone action".to_string()]).expect("classifies");
    let entries = raw_to_entries(&raws);
    assert_eq!(entries.len(), 2);
    assert_eq!(entries[0].date, "2099-01-01");
    assert_eq!(entries[0].desc, "");
    assert_eq!(entries[1].desc, "Lone action");
}

#[test]
fn mean_and_median_of_a_small_series() {
    // Series [1, 2, 3, 4] in one component: mean 2.5, median (index
    // len / 2 = 2 of the sorted series) 3.
    let entries = vec![
        entry("2021-02-01", Some((1, 1, 4, 0))),
        entry("2021-02-01", Some((2, 2, 3, 0))),
        entry("2021-02-01", Some((3, 3, 2, 0))),
        entry("2021-02-01", Some((4, 4, 1, 0))),
        entry("2021-02-01", None),
    ];
    let stats = basic_stats(&entries);
    assert_eq!(stats.predictions, 4);
    assert_eq!(stats.sum_pr_pl, 10);
    let mean = stats.sum_pr_pl as f32 / stats.predictions as f32;
    assert_eq!(mean, 2.5);
    assert_eq!(stats.med_pr_pl, 3);
    assert_eq!(stats.med_pr_pn, 3);
    // The components sort independently: the actual-pleasure series is the
    // same numbers reversed, with the same median.
    assert_eq!(stats.med_ac_pl, 3);
    assert_eq!(stats.med_ac_pn, 0);
    assert_eq!(stats.sum_ac_pl, 10);
    assert_eq!(stats.sum_ac_pn, 0);
}

#[test]
fn empty_series_reports_zeros() {
    let entries = vec![entry("2021-02-01", None)];
    let stats = basic_stats(&entries);
    assert_eq!(stats.predictions, 0);
    assert_eq!(stats.sum_pr_pl, 0);
    assert_eq!(stats.med_pr_pl, 0);
    assert_eq!(stats.med_ac_pn, 0);
}

#[test]
fn odd_series_takes_the_middle_element() {
    let entries = vec![
        entry("2021-02-01", Some((9, 0, 0, 0))),
        entry("2021-02-01", Some((1, 0, 0, 0))),
        entry("2021-02-01", Some((5, 0, 0, 0))),
    ];
    let stats = basic_stats(&entries);
    assert_eq!(stats.med_pr_pl, 5);
}

#[test]
fn week_of_a_real_date() {
    // 2021-02-01 falls in ISO week 5 of week-based year 2021.
    assert_eq!(
        week_of("2021-02-01", fallback()),
        WeekId { year: 2021, week: 5 }
    );
    // 2021-01-01 falls in ISO week 53 of week-based year 2020.
    assert_eq!(
        week_of("2021-01-01", fallback()),
        WeekId { year: 2020, week: 53 }
    );
}

#[test]
fn week_of_an_unparseable_date_uses_the_fallback() {
    // The fallback 2017-01-01 falls in ISO week 52 of week-based year 2016.
    assert_eq!(
        week_of("2099-13-01", fallback()),
        WeekId { year: 2016, week: 52 }
    );
    assert_eq!(week_of("garbage", fallback()), WeekId { year: 2016, week: 52 });
}

#[test]
fn weeks_group_by_iso_year_across_new_year() {
    // 2021-01-01 and 2020-12-31 both fall in ISO week 53 of week-based
    // year 2020: one run, not two.
    let entries = vec![
        entry("2021-01-01", Some((2, 0, 0, 0))),
        entry("2020-12-31", Some((4, 0, 0, 0))),
    ];
    let weekly = weekly_stats(&entries, fallback());
    assert_eq!(weekly.len(), 1);
    assert_eq!(weekly[0].week, WeekId { year: 2020, week: 53 });
    assert_eq!(weekly[0].stats.predictions, 2);
    assert_eq!(weekly[0].stats.sum_pr_pl, 6);
}

#[test]
fn weekly_stats_group_contiguous_runs_newest_first() {
    // The log runs newest-first: week 6 above week 5.
    let entries = vec![
        entry("2021-02-08", Some((8, 0, 0, 0))),
        entry("2021-02-09", Some((6, 0, 0, 0))),
        entry("2021-02-01", Some((1, 0, 0, 0))),
        entry("2021-02-02", Some((3, 0, 0, 0))),
        entry("2021-02-03", Some((5, 0, 0, 0))),
    ];
    let weekly = weekly_stats(&entries, fallback());
    assert_eq!(weekly.len(), 2);
    assert_eq!(weekly[0].week, WeekId { year: 2021, week: 6 });
    assert_eq!(weekly[0].stats.predictions, 2);
    assert_eq!(weekly[0].stats.sum_pr_pl, 14);
    assert_eq!(weekly[0].stats.med_pr_pl, 8);
    assert_eq!(weekly[1].week, WeekId { year: 2021, week: 5 });
    assert_eq!(weekly[1].stats.predictions, 3);
    assert_eq!(weekly[1].stats.sum_pr_pl, 9);
    assert_eq!(weekly[1].stats.med_pr_pl, 3);
}

#[test]
fn analyze_prediction_combines_totals_and_weeks() {
    let entries = vec![
        entry("2021-02-08", Some((2, 0, 0, 0))),
        entry("2021-02-01", Some((4, 0, 0, 0))),
    ];
    let report = analyze_prediction(&entries, fallback());
    assert_eq!(report.totals.predictions, 2);
    assert_eq!(report.totals.sum_pr_pl, 6);
    assert_eq!(report.weekly.len(), 2);
    assert_eq!(report.weekly[0].week.week, 6);
    assert_eq!(report.weekly[1].week.week, 5);
}
