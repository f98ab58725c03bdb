//! One row of the task table: a labelled activity with its start and, once
//! stopped, its end.

use vstd::prelude::*;

verus! {

/// The mathematical value of a row: the label as a sequence of characters,
/// the start and the optional end as unbounded integers.
pub struct TaskView {
    pub record: Seq<char>,
    pub start: int,
    pub end: Option<int>,
}

impl TaskView {
    /// The row is still running: no end has been recorded.
    pub open spec fn is_open(self) -> bool {
        self.end is None
    }

    /// The row has been stopped: an end has been recorded.
    pub open spec fn is_closed(self) -> bool {
        self.end is Some
    }

    /// A recorded end is never earlier than the start.
    pub open spec fn consistent(self) -> bool {
        self.end matches Some(e) ==> self.start <= e
    }

    /// Seconds between start and end; zero while the row is open.
    pub open spec fn elapsed(self) -> int {
        match self.end {
            Some(e) => e - self.start,
            None => 0,
        }
    }

    /// The same row with `end` recorded.
    pub open spec fn stopped_at(self, end: int) -> TaskView {
        TaskView { record: self.record, start: self.start, end: Some(end) }
    }
}

/// A row of the task table. Timestamps are whole seconds since the epoch.
#[derive(Debug, PartialEq, Eq)]
pub struct Task {
    pub record: String,
    pub start: i64,
    pub end: Option<i64>,
}

impl View for Task {
    type V = TaskView;

    open spec fn view(&self) -> TaskView {
        TaskView {
            record: self.record@,
            start: self.start as int,
            end: match self.end {
                Some(e) => Some(e as int),
                None => None,
            },
        }
    }
}

impl Task {
    /// A row that starts running at `start`.
    pub fn started(record: String, start: i64) -> (task: Task)
        ensures
            task@ == (TaskView { record: record@, start: start as int, end: None }),
    {
        Task { record, start, end: None }
    }

    /// Whether the row is still running.
    pub fn is_open(&self) -> (b: bool)
        ensures
            b == self@.is_open(),
    {
        self.end.is_none()
    }

    /// Seconds between start and end, for a stopped row whose end is not
    /// earlier than its start; `None` for any other row.
    pub fn elapsed(&self) -> (seconds: Option<u64>)
        ensures
            seconds == (if self@.is_closed() && self@.consistent() {
                Some(self@.elapsed() as u64)
            } else {
                None
            }),
            seconds matches Some(s) ==> s == self@.elapsed(),
    {
        match self.end {
            Some(end) => {
                if self.start <= end {
                    let span: i128 = end as i128 - self.start as i128;
                    Some(span as u64)
                } else {
                    None
                }
            },
            None => None,
        }
    }

    /// An independent copy of the row.
    pub fn duplicate(&self) -> (copy: Task)
        ensures
            copy@ == self@,
    {
        Task { record: self.record.clone(), start: self.start, end: self.end }
    }
}

/// The table that a sequence of rows stands for: each row by its view, in
/// the same order.
pub open spec fn table_of(rows: Seq<Task>) -> Seq<TaskView> {
    Seq::new(rows.len(), |i: int| rows[i]@)
}

} // verus!
