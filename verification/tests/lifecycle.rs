use stimer::error::TimerError;
use stimer::lifecycle::{committed, open_tasks, start, status, stop, OpenTask};
use stimer::store::{StoreReply, StoreRequest, TaskStore};
use stimer::task::Task;

fn open_count(store: &TaskStore) -> usize {
    store.rows().iter().filter(|row| row.end.is_none()).count()
}

#[test]
fn start_asks_for_one_open_row() {
    assert_eq!(
        start("writing".to_string(), 1000),
        StoreRequest::Insert { record: "writing".to_string(), start: 1000 }
    );
}

#[test]
fn stop_asks_to_close_all_open_rows() {
    assert_eq!(stop(4600), StoreRequest::CloseOpen { end: 4600 });
}

#[test]
fn status_asks_for_open_rows() {
    assert_eq!(status(), StoreRequest::SelectOpen);
}

#[test]
fn start_appends_an_open_row() {
    let mut store = TaskStore::new();
    let reply = store.serve(&start("writing".to_string(), 1000));
    assert_eq!(committed(&reply), Ok(1));
    assert_eq!(store.rows().len(), 1);
    assert_eq!(store.rows()[0], Task { record: "writing".to_string(), start: 1000, end: None });
}

#[test]
fn start_accepts_an_empty_label() {
    let mut store = TaskStore::new();
    let reply = store.serve(&start(String::new(), 5));
    assert_eq!(committed(&reply), Ok(1));
    assert_eq!(store.rows()[0], Task { record: String::new(), start: 5, end: None });
}

#[test]
fn start_does_not_close_a_running_task() {
    let mut store = TaskStore::new();
    store.serve(&start("a".to_string(), 10));
    store.serve(&start("b".to_string(), 20));
    assert_eq!(open_count(&store), 2);
    assert_eq!(store.rows()[0].end, None);
    assert_eq!(store.rows()[1].end, None);
}

#[test]
fn alternating_start_and_stop_keeps_at_most_one_open() {
    let mut store = TaskStore::new();
    let mut now: i64 = 100;
    for label in ["a", "b", "c", "a", "d"] {
        assert_eq!(open_count(&store), 0);
        store.serve(&start(label.to_string(), now));
        assert_eq!(open_count(&store), 1);
        now += 50;
        store.serve(&stop(now));
        assert_eq!(open_count(&store), 0);
        now += 7;
    }
    assert_eq!(store.rows().len(), 5);
}

#[test]
fn stop_closes_every_open_row_at_the_same_instant() {
    let mut store = TaskStore::from_rows(vec![
        Task { record: "done".to_string(), start: 1, end: Some(2) },
        Task { record: "a".to_string(), start: 10, end: None },
        Task { record: "b".to_string(), start: 20, end: None },
        Task { record: "c".to_string(), start: 30, end: None },
    ]);
    let reply = store.serve(&stop(99));
    assert_eq!(committed(&reply), Ok(3));
    assert_eq!(store.rows()[0].end, Some(2));
    assert_eq!(store.rows()[1].end, Some(99));
    assert_eq!(store.rows()[2].end, Some(99));
    assert_eq!(store.rows()[3].end, Some(99));
    let listed = store.serve(&status());
    assert_eq!(open_tasks(&listed), Ok(vec![]));
}

#[test]
fn stop_without_open_rows_is_no_failure() {
    let mut store = TaskStore::new();
    let reply = store.serve(&stop(5));
    assert_eq!(reply, StoreReply::Committed { affected: 0 });
    assert_eq!(committed(&reply), Ok(0));
    assert_eq!(store.rows().len(), 0);
}

#[test]
fn stop_keeps_label_and_start() {
    let mut store = TaskStore::new();
    store.serve(&start("writing".to_string(), 1000));
    store.serve(&stop(4600));
    assert_eq!(
        store.rows()[0],
        Task { record: "writing".to_string(), start: 1000, end: Some(4600) }
    );
    store.serve(&stop(9999));
    assert_eq!(store.rows()[0].end, Some(4600));
}

#[test]
fn status_lists_open_rows_in_table_order() {
    let mut store = TaskStore::from_rows(vec![
        Task { record: "x".to_string(), start: 3, end: None },
        Task { record: "y".to_string(), start: 4, end: Some(8) },
        Task { record: "z".to_string(), start: 5, end: None },
    ]);
    let reply = store.serve(&status());
    assert_eq!(
        open_tasks(&reply),
        Ok(vec![
            OpenTask { record: "x".to_string(), start: 3 },
            OpenTask { record: "z".to_string(), start: 5 },
        ])
    );
    assert_eq!(store.rows().len(), 3);
}

#[test]
fn status_drops_stopped_rows_from_a_reply() {
    let reply = StoreReply::Rows {
        rows: vec![
            Task { record: "x".to_string(), start: 3, end: Some(4) },
            Task { record: "y".to_string(), start: 5, end: None },
        ],
    };
    assert_eq!(open_tasks(&reply), Ok(vec![OpenTask { record: "y".to_string(), start: 5 }]));
}

#[test]
fn failed_write_is_a_storage_error() {
    assert_eq!(committed(&StoreReply::Failed), Err(TimerError::Storage));
    assert_eq!(committed(&StoreReply::Rows { rows: vec![] }), Err(TimerError::Storage));
}

#[test]
fn failed_status_is_a_storage_error() {
    assert_eq!(open_tasks(&StoreReply::Failed), Err(TimerError::Storage));
    assert_eq!(open_tasks(&StoreReply::Committed { affected: 1 }), Err(TimerError::Storage));
}

#[test]
fn select_closed_in_range_counts_both_ends() {
    let store = TaskStore::from_rows(vec![
        Task { record: "a".to_string(), start: 9, end: Some(10) },
        Task { record: "b".to_string(), start: 10, end: Some(11) },
        Task { record: "c".to_string(), start: 20, end: Some(21) },
        Task { record: "d".to_string(), start: 21, end: Some(22) },
        Task { record: "e".to_string(), start: 15, end: None },
    ]);
    let rows = store.select_closed_in_range(10, 20);
    assert_eq!(rows.len(), 2);
    assert_eq!(rows[0].record, "b");
    assert_eq!(rows[1].record, "c");
}

#[test]
fn select_open_copies_the_open_rows() {
    let store = TaskStore::from_rows(vec![
        Task { record: "a".to_string(), start: 9, end: Some(10) },
        Task { record: "b".to_string(), start: 10, end: None },
    ]);
    assert_eq!(store.select_open(), vec![Task { record: "b".to_string(), start: 10, end: None }]);
}

#[test]
fn task_elapsed_needs_a_consistent_end() {
    let task = |start: i64, end: Option<i64>| Task { record: "a".to_string(), start, end };
    assert_eq!(task(1000, Some(4600)).elapsed(), Some(3600));
    assert_eq!(task(5, Some(5)).elapsed(), Some(0));
    assert_eq!(task(6, Some(5)).elapsed(), None);
    assert_eq!(task(6, None).elapsed(), None);
    assert_eq!(task(i64::MIN, Some(i64::MAX)).elapsed(), Some(u64::MAX));
}

#[test]
fn task_knows_whether_it_is_open() {
    let open = Task::started("a".to_string(), 6);
    assert_eq!(open, Task { record: "a".to_string(), start: 6, end: None });
    assert!(open.is_open());
    let back = Task { record: "a".to_string(), start: 6, end: Some(5) };
    assert!(!back.is_open());
    assert_eq!(back.duplicate(), back);
}
