//! The durable table as the core sees it: the four requests it makes, what
//! a faithful table answers, and a table held in memory that serves them.

use vstd::prelude::*;
use crate::table::{close_all, closed_in_range, open_count, open_rows, with_started};
use crate::task::{table_of, Task, TaskView};

verus! {

/// What the core asks of the table.
#[derive(Debug, PartialEq, Eq)]
pub enum StoreRequest {
    /// Append one open row.
    Insert { record: String, start: i64 },
    /// Record `end` on every open row.
    CloseOpen { end: i64 },
    /// Hand out the open rows.
    SelectOpen,
    /// Hand out the stopped rows whose start lies in `[low, high]`.
    SelectClosedInRange { low: i64, high: i64 },
}

/// What the table answers.
#[derive(Debug, PartialEq, Eq)]
pub enum StoreReply {
    /// A write was committed and touched `affected` rows.
    Committed { affected: usize },
    /// The rows that a selection found.
    Rows { rows: Vec<Task> },
    /// The table could not be opened, read or written.
    Failed,
}

/// The table after a faithful table has carried out `request`.
pub open spec fn table_after(table: Seq<TaskView>, request: StoreRequest) -> Seq<TaskView> {
    match request {
        StoreRequest::Insert { record, start } => with_started(table, record@, start as int),
        StoreRequest::CloseOpen { end } => close_all(table, end as int),
        StoreRequest::SelectOpen => table,
        StoreRequest::SelectClosedInRange { .. } => table,
    }
}

/// Whether `reply` is what a faithful table holding `table` answers to
/// `request`.
pub open spec fn answers(table: Seq<TaskView>, request: StoreRequest, reply: StoreReply) -> bool {
    match request {
        StoreRequest::Insert { .. } => reply == (StoreReply::Committed { affected: 1 }),
        StoreRequest::CloseOpen { .. } => reply matches StoreReply::Committed { affected }
            && affected == open_count(table),
        StoreRequest::SelectOpen => reply matches StoreReply::Rows { rows } && table_of(rows@)
            == open_rows(table),
        StoreRequest::SelectClosedInRange { low, high } => reply matches StoreReply::Rows { rows }
            && table_of(rows@) == closed_in_range(table, low as int, high as int),
    }
}

/// A task table held in memory, rows in insertion order.
#[derive(Debug)]
pub struct TaskStore {
    rows: Vec<Task>,
}

impl View for TaskStore {
    type V = Seq<TaskView>;

    closed spec fn view(&self) -> Seq<TaskView> {
        table_of(self.rows@)
    }
}

impl TaskStore {
    /// A table without rows.
    pub fn new() -> (store: TaskStore)
        ensures
            store@ == Seq::<TaskView>::empty(),
    {
        TaskStore { rows: Vec::new() }
    }

    /// A table holding the given rows.
    pub fn from_rows(rows: Vec<Task>) -> (store: TaskStore)
        ensures
            store@ == table_of(rows@),
    {
        TaskStore { rows }
    }

    /// The rows of the table.
    pub fn rows(&self) -> (rows: &Vec<Task>)
        ensures
            table_of(rows@) == self@,
    {
        &self.rows
    }

    /// Appends one open row.
    pub fn insert(&mut self, record: String, start: i64)
        ensures
            final(self)@ == with_started(old(self)@, record@, start as int),
    {
        self.rows.push(Task::started(record, start));
    }
}

impl TaskStore {
    /// Records `end` on every open row and says how many rows that were.
    /// Stopped rows stay as they are.
    pub fn close_open(&mut self, end: i64) -> (affected: usize)
        ensures
            final(self)@ == close_all(old(self)@, end as int),
            affected == open_count(old(self)@),
    {
        let ghost before = self@;
        let mut affected: usize = 0;
        let mut i: usize = 0;
        while i < self.rows.len()
            invariant
                i <= self.rows@.len(),
                self.rows@.len() == before.len(),
                before == old(self)@,
                affected == open_count(before.take(i as int)),
                affected <= i,
                forall|j: int| 0 <= j < i ==> (#[trigger] self.rows@[j])@ == close_all(before, end as int)[j],
                forall|j: int| i <= j < before.len() ==> (#[trigger] self.rows@[j])@ == before[j],
            decreases self.rows@.len() - i,
        {
            proof {
                assert(before.take(i as int + 1) =~= before.take(i as int).push(before[i as int]));
                crate::table::lemma_open_rows_push(before.take(i as int), before[i as int]);
            }
            if self.rows[i].end.is_none() {
                self.rows[i].end = Some(end);
                affected = affected + 1;
            }
            i = i + 1;
        }
        proof {
            assert(before.take(i as int) =~= before);
        }
        affected
    }

    /// The open rows, in table order.
    pub fn select_open(&self) -> (rows: Vec<Task>)
        ensures
            table_of(rows@) == open_rows(self@),
    {
        let ghost table = self@;
        let mut found: Vec<Task> = Vec::new();
        let mut i: usize = 0;
        while i < self.rows.len()
            invariant
                i <= self.rows@.len(),
                table == self@,
                table_of(found@) == open_rows(table.take(i as int)),
            decreases self.rows@.len() - i,
        {
            proof {
                assert(table.take(i as int + 1) =~= table.take(i as int).push(table[i as int]));
                crate::table::lemma_open_rows_push(table.take(i as int), table[i as int]);
            }
            if self.rows[i].is_open() {
                found.push(self.rows[i].duplicate());
            }
            i = i + 1;
        }
        proof {
            assert(table.take(i as int) =~= table);
        }
        found
    }

    /// The stopped rows whose start lies in `[low, high]`, both ends
    /// counted, in table order.
    pub fn select_closed_in_range(&self, low: i64, high: i64) -> (rows: Vec<Task>)
        ensures
            table_of(rows@) == closed_in_range(self@, low as int, high as int),
    {
        let ghost table = self@;
        let mut found: Vec<Task> = Vec::new();
        let mut i: usize = 0;
        while i < self.rows.len()
            invariant
                i <= self.rows@.len(),
                table == self@,
                table_of(found@) == closed_in_range(table.take(i as int), low as int, high as int),
            decreases self.rows@.len() - i,
        {
            proof {
                assert(table.take(i as int + 1) =~= table.take(i as int).push(table[i as int]));
                crate::table::lemma_closed_in_range_push(
                    table.take(i as int),
                    table[i as int],
                    low as int,
                    high as int,
                );
            }
            let row = &self.rows[i];
            if row.end.is_some() && low <= row.start && row.start <= high {
                found.push(row.duplicate());
            }
            i = i + 1;
        }
        proof {
            assert(table.take(i as int) =~= table);
        }
        found
    }

    /// Carries out one request as a faithful table does.
    pub fn serve(&mut self, request: &StoreRequest) -> (reply: StoreReply)
        ensures
            final(self)@ == table_after(old(self)@, *request),
            answers(old(self)@, *request, reply),
            reply !is Failed,
    {
        match request {
            StoreRequest::Insert { record, start } => {
                self.insert(record.clone(), *start);
                StoreReply::Committed { affected: 1 }
            },
            StoreRequest::CloseOpen { end } => {
                let affected = self.close_open(*end);
                StoreReply::Committed { affected }
            },
            StoreRequest::SelectOpen => StoreReply::Rows { rows: self.select_open() },
            StoreRequest::SelectClosedInRange { low, high } => StoreReply::Rows {
                rows: self.select_closed_in_range(*low, *high),
            },
        }
    }
}

} // verus!
