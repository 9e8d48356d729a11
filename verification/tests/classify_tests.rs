use worklog::classify::{line_to_raw_entry, lines_to_raw_entries};
use worklog::records::{LogError, RawEntry};

fn classify(line: &str) -> RawEntry {
    line_to_raw_entry(line).expect("expected a record")
}

fn classify_err(line: &str) -> LogError {
    line_to_raw_entry(line).expect_err("expected a fatal error")
}

#[test]
fn junk_lines_stay_junk() {
    assert_eq!(classify("random text"), RawEntry::Junk("random text".to_string()));
    assert_eq!(classify(""), RawEntry::Junk(String::new()));
    assert_eq!(classify("# notes for later"), RawEntry::Junk("# notes for later".to_string()));
    assert_eq!(classify("* bullet"), RawEntry::Junk("* bullet".to_string()));
}

#[test]
fn junk_classification_is_idempotent() {
    let first = classify("some stray note");
    match first {
        RawEntry::Junk(text) => {
            assert_eq!(classify(&text), RawEntry::Junk(text.clone()));
        }
        other => panic!("expected junk, got {:?}", other),
    }
}

#[test]
fn times_convert_from_twelve_hour() {
    assert_eq!(classify("- 2:30 PM"), RawEntry::Time(14, 30));
    assert_eq!(classify("- 12:00 AM"), RawEntry::Time(0, 0));
    assert_eq!(classify("- 12:15 PM"), RawEntry::Time(12, 15));
    assert_eq!(classify("- 9:00 AM"), RawEntry::Time(9, 0));
    assert_eq!(classify("- 11:59 PM"), RawEntry::Time(23, 59));
}

#[test]
fn time_with_trailing_text_still_matches() {
    assert_eq!(classify("- 9:05 AM sharp"), RawEntry::Time(9, 5));
}

#[test]
fn lowercase_am_pm_is_not_a_time() {
    assert_eq!(classify("- 9:05 am"), RawEntry::Action("9:05 am".to_string()));
}

#[test]
fn day_markers_keep_their_text() {
    assert_eq!(classify("# 2021-02-01"), RawEntry::NewDay("2021-02-01".to_string()));
    assert_eq!(
        classify("# 2021-02-01 Monday"),
        RawEntry::NewDay("2021-02-01 Monday".to_string())
    );
}

#[test]
fn short_date_is_not_a_day_marker() {
    assert_eq!(classify("# 202-01-01"), RawEntry::Junk("# 202-01-01".to_string()));
    assert_eq!(classify("# 2021-1-1"), RawEntry::Junk("# 2021-1-1".to_string()));
}

#[test]
fn clock_markers_and_project_tags() {
    assert_eq!(classify("- Clock in"), RawEntry::ClockIn(None));
    assert_eq!(classify("- Clock out"), RawEntry::ClockOut(None));
    assert_eq!(
        classify("- Clock in (Acme)"),
        RawEntry::ClockIn(Some("Acme".to_string()))
    );
    assert_eq!(
        classify("- Clock out ( spaced tag )"),
        RawEntry::ClockOut(Some("spaced tag".to_string()))
    );
}

#[test]
fn clock_detection_is_case_insensitive() {
    assert_eq!(classify("- CLOCK IN (X)"), RawEntry::ClockIn(Some("X".to_string())));
    assert_eq!(classify("- cLoCk OuT"), RawEntry::ClockOut(None));
}

#[test]
fn unspaced_clock_typos_are_fatal() {
    assert_eq!(classify_err("- clockin"), LogError::UnspacedClockIn);
    assert_eq!(classify_err("clockout today"), LogError::UnspacedClockOut);
    assert_eq!(classify_err("- CLOCKIN (X)"), LogError::UnspacedClockIn);
}

#[test]
fn predictions_parse_four_components() {
    assert_eq!(classify("- 5/3:4/2"), RawEntry::Prediction(5, 3, 4, 2));
    assert_eq!(classify("- 10/0:255/7 rest"), RawEntry::Prediction(10, 0, 255, 7));
    assert_eq!(classify("- 007/1:2/3"), RawEntry::Prediction(7, 1, 2, 3));
}

#[test]
fn prediction_component_above_byte_range_is_fatal() {
    assert_eq!(
        classify_err("- 300/1:1/1"),
        LogError::MalformedPrediction("300/1:1/1".to_string())
    );
}

#[test]
fn incomplete_prediction_is_an_action() {
    assert_eq!(classify("- 5/3"), RawEntry::Action("5/3".to_string()));
    assert_eq!(classify("- 5/3:4"), RawEntry::Action("5/3:4".to_string()));
}

#[test]
fn expenses_split_cost_and_description() {
    assert_eq!(
        classify("- Expense: $12.50,lunch"),
        RawEntry::Expense("12.50".to_string(), "lunch".to_string())
    );
    assert_eq!(
        classify("- Expense:   $7,taxi ride"),
        RawEntry::Expense("7".to_string(), "taxi ride".to_string())
    );
}

#[test]
fn malformed_expenses_are_fatal() {
    assert_eq!(
        classify_err("- expense: $1,x"),
        LogError::MalformedExpense("expense: $1,x".to_string())
    );
    assert_eq!(
        classify_err("- Expense: $1.2.3,x"),
        LogError::MalformedExpense("Expense: $1.2.3,x".to_string())
    );
    assert_eq!(
        classify_err("- Expense: $,x"),
        LogError::MalformedExpense("Expense: $,x".to_string())
    );
    assert_eq!(
        classify_err("- Expense: nothing here"),
        LogError::MalformedExpense("Expense: nothing here".to_string())
    );
}

#[test]
fn actions_are_trimmed_and_kept_verbatim() {
    assert_eq!(
        classify("- Did work [x](http://y)"),
        RawEntry::Action("Did work [x](http://y)".to_string())
    );
    assert_eq!(classify("-    spaced out   "), RawEntry::Action("spaced out".to_string()));
}

#[test]
fn whole_file_classification_stops_at_first_error() {
    let lines = vec![
        "# 2021-02-01".to_string(),
        "- Did things".to_string(),
        "- clockin".to_string(),
        "- more things".to_string(),
    ];
    assert_eq!(lines_to_raw_entries(&lines), Err(LogError::UnspacedClockIn));

    let good = vec!["# 2021-02-01".to_string(), "- Did things".to_string()];
    let entries = lines_to_raw_entries(&good).expect("classifies");
    assert_eq!(
        entries,
        vec![
            RawEntry::NewDay("2021-02-01".to_string()),
            RawEntry::Action("Did things".to_string()),
        ]
    );
}

#[test]
fn empty_parens_give_an_empty_tag() {
    assert_eq!(classify("- Clock in ()"), RawEntry::ClockIn(Some(String::new())));
}

#[test]
fn inverted_parens_give_no_tag() {
    assert_eq!(classify("- Clock in )x("), RawEntry::ClockIn(None));
}

#[test]
fn nested_parens_take_the_last_pair() {
    assert_eq!(
        classify("- Clock in (a(b)c)"),
        RawEntry::ClockIn(Some("b)c".to_string()))
    );
}
