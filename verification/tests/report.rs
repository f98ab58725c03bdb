use stimer::calendar::resolve_window;
use stimer::error::TimerError;
use stimer::lifecycle::{start, stop};
use stimer::report::{report_of_reply, Report, ReportWindow, DAY_SECONDS};
use stimer::store::{StoreReply, StoreRequest, TaskStore};
use stimer::task::Task;
use stimer::text::{format_duration, format_line};

fn closed(record: &str, start: i64, seconds: i64) -> Task {
    Task { record: record.to_string(), start, end: Some(start + seconds) }
}

fn day(midnight: i64) -> ReportWindow {
    ReportWindow::starting_at(midnight).unwrap()
}

#[test]
fn day_is_86400_seconds_wide() {
    assert_eq!(DAY_SECONDS, 86400);
    assert_eq!(ReportWindow::starting_at(1000), Some(ReportWindow { low: 1000, high: 87400 }));
    assert_eq!(ReportWindow::starting_at(-86400), Some(ReportWindow { low: -86400, high: 0 }));
}

#[test]
fn window_that_cannot_be_held_is_none() {
    assert_eq!(ReportWindow::starting_at(i64::MAX), None);
    assert_eq!(ReportWindow::starting_at(i64::MAX - 86399), None);
    assert_eq!(
        ReportWindow::starting_at(i64::MAX - 86400),
        Some(ReportWindow { low: i64::MAX - 86400, high: i64::MAX })
    );
}

#[test]
fn window_counts_both_ends() {
    let window = day(1_000_000);
    assert!(!window.contains(999_999));
    assert!(window.contains(1_000_000));
    assert!(window.contains(1_000_000 + 86399));
    assert!(window.contains(1_000_000 + 86400));
    assert!(!window.contains(1_000_000 + 86401));
}

#[test]
fn window_request_selects_closed_rows_in_range() {
    assert_eq!(
        day(500).request(),
        StoreRequest::SelectClosedInRange { low: 500, high: 86900 }
    );
}

#[test]
fn report_window_keeps_midnight_and_next_midnight() {
    let window = resolve_window("2021-03-04", 0).unwrap();
    let midnight: i64 = window.low;
    assert_eq!(window.high, midnight + 86400);
    let rows = vec![
        closed("first", midnight, 10),
        closed("last_second", midnight + 86399, 20),
        closed("next_midnight", midnight + 86400, 30),
        closed("too_late", midnight + 86401, 40),
        closed("too_early", midnight - 1, 50),
    ];
    let report = Report::of_rows(&rows, &window).unwrap();
    assert_eq!(report.seconds_for("first"), Some(10));
    assert_eq!(report.seconds_for("last_second"), Some(20));
    assert_eq!(report.seconds_for("next_midnight"), Some(30));
    assert_eq!(report.seconds_for("too_late"), None);
    assert_eq!(report.seconds_for("too_early"), None);
    assert_eq!(report.total(), 60);
    assert_eq!(report.entries().len(), 3);
}

#[test]
fn report_sums_per_label() {
    let rows = vec![closed("A", 100, 3600), closed("A", 5000, 1800), closed("B", 9000, 900)];
    let report = Report::of_rows(&rows, &day(0)).unwrap();
    assert_eq!(report.seconds_for("A"), Some(5400));
    assert_eq!(report.seconds_for("B"), Some(900));
    assert_eq!(report.seconds_for("C"), None);
    assert_eq!(report.entries().len(), 2);
    assert_eq!(report.total(), 6300);
    assert!(!report.is_empty());
    let mut lines: Vec<String> = Vec::new();
    for entry in report.entries() {
        lines.push(format_line(&entry.record, entry.seconds));
    }
    lines.sort();
    assert_eq!(lines, vec!["A: 1h 30m 0s".to_string(), "B: 0h 15m 0s".to_string()]);
    assert_eq!(format_duration(report.total()), "1h 45m 0s");
}

#[test]
fn report_entries_have_distinct_labels() {
    let rows = vec![
        closed("x", 1, 1),
        closed("y", 2, 2),
        closed("x", 3, 4),
        closed("z", 4, 8),
        closed("y", 5, 16),
    ];
    let report = Report::of_rows(&rows, &day(0)).unwrap();
    let mut labels: Vec<String> = Vec::new();
    for entry in report.entries() {
        labels.push(entry.record.clone());
    }
    labels.sort();
    assert_eq!(labels, vec!["x".to_string(), "y".to_string(), "z".to_string()]);
    assert_eq!(report.seconds_for("x"), Some(5));
    assert_eq!(report.seconds_for("y"), Some(18));
    assert_eq!(report.seconds_for("z"), Some(8));
    assert_eq!(report.total(), 31);
}

#[test]
fn empty_day_is_an_empty_report() {
    let rows: Vec<Task> = Vec::new();
    let report = Report::of_rows(&rows, &day(0)).unwrap();
    assert!(report.is_empty());
    assert_eq!(report.entries().len(), 0);
    assert_eq!(report.total(), 0);
    assert_eq!(format_duration(report.total()), "0h 0m 0s");
}

#[test]
fn day_with_rows_of_other_days_only_is_empty() {
    let rows = vec![closed("a", 200_000, 5), closed("b", -5, 5)];
    let reply = StoreReply::Rows { rows };
    let report = report_of_reply(&reply, &day(0)).unwrap();
    assert!(report.is_empty());
    assert_eq!(report.total(), 0);
}

#[test]
fn open_task_never_counts() {
    let with_open = vec![
        closed("a", 100, 60),
        Task { record: "a".to_string(), start: 200, end: None },
        Task { record: "b".to_string(), start: 300, end: None },
    ];
    let without = vec![closed("a", 100, 60)];
    let window = day(0);
    let left = Report::of_rows(&with_open, &window).unwrap();
    let right = Report::of_rows(&without, &window).unwrap();
    assert_eq!(left.seconds_for("a"), Some(60));
    assert_eq!(left.seconds_for("b"), None);
    assert_eq!(left.total(), right.total());
    assert_eq!(left.entries(), right.entries());
}

#[test]
fn started_and_stopped_task_is_reported() {
    let mut store = TaskStore::new();
    store.serve(&start("writing".to_string(), 1000));
    store.serve(&stop(4600));
    let window = day(0);
    let reply = store.serve(&window.request());
    let report = report_of_reply(&reply, &window).unwrap();
    assert_eq!(report.seconds_for("writing"), Some(3600));
    assert_eq!(report.entries().len(), 1);
    assert_eq!(report.total(), 3600);
    assert_eq!(format_duration(3600), "1h 0m 0s");
    assert_eq!(format_line("writing", 3600), "writing: 1h 0m 0s");
}

#[test]
fn started_task_is_not_reported_before_it_is_stopped() {
    let mut store = TaskStore::new();
    store.serve(&start("writing".to_string(), 1000));
    let window = day(0);
    let reply = store.serve(&window.request());
    let report = report_of_reply(&reply, &window).unwrap();
    assert!(report.is_empty());
    assert_eq!(report.total(), 0);
}

#[test]
fn failed_query_is_a_storage_error() {
    let window = day(0);
    assert!(matches!(report_of_reply(&StoreReply::Failed, &window), Err(TimerError::Storage)));
    assert!(matches!(
        report_of_reply(&StoreReply::Committed { affected: 0 }, &window),
        Err(TimerError::Storage)
    ));
}

#[test]
fn row_that_ends_before_it_starts_is_refused() {
    let rows = vec![closed("a", 100, 60), Task { record: "b".to_string(), start: 500, end: Some(499) }];
    assert!(Report::of_rows(&rows, &day(0)).is_none());
    let reply = StoreReply::Rows { rows };
    assert!(matches!(report_of_reply(&reply, &day(0)), Err(TimerError::Storage)));
}

#[test]
fn row_that_ends_before_it_starts_outside_the_window_is_ignored() {
    let rows = vec![
        closed("a", 100, 60),
        Task { record: "b".to_string(), start: 500_000, end: Some(499) },
    ];
    let report = Report::of_rows(&rows, &day(0)).unwrap();
    assert_eq!(report.total(), 60);
}

#[test]
fn report_holds_sums_beyond_64_bits() {
    let rows = vec![
        Task { record: "a".to_string(), start: i64::MIN, end: Some(i64::MAX) },
        Task { record: "a".to_string(), start: i64::MIN, end: Some(i64::MAX) },
        Task { record: "b".to_string(), start: i64::MIN, end: Some(0) },
    ];
    let window = ReportWindow { low: i64::MIN, high: 0 };
    let report = Report::of_rows(&rows, &window).unwrap();
    assert_eq!(report.seconds_for("a"), Some(2 * (u64::MAX as u128)));
    assert_eq!(report.seconds_for("b"), Some(1u128 << 63));
    assert_eq!(report.total(), 2 * (u64::MAX as u128) + (1u128 << 63));
}
