//! Starting, stopping and listing tasks: which request each command makes of
//! the table, and what the table's reply means.

use vstd::prelude::*;
use crate::error::TimerError;
use crate::store::{answers, table_after, StoreReply, StoreRequest};
use crate::table::{all_consistent, open_count, open_rows};
use crate::task::{table_of, TaskView};

verus! {

/// A running task as the status shows it.
#[derive(Debug, PartialEq, Eq)]
pub struct OpenTask {
    pub record: String,
    pub start: i64,
}

/// The mathematical value of a running task: label and start.
pub struct OpenTaskView {
    pub record: Seq<char>,
    pub start: int,
}

impl View for OpenTask {
    type V = OpenTaskView;

    open spec fn view(&self) -> OpenTaskView {
        OpenTaskView { record: self.record@, start: self.start as int }
    }
}

/// Label and start of every open row, in table order.
pub open spec fn running(table: Seq<TaskView>) -> Seq<OpenTaskView> {
    Seq::new(
        open_rows(table).len(),
        |i: int| OpenTaskView { record: open_rows(table)[i].record, start: open_rows(table)[i].start },
    )
}

/// The running tasks that a vector stands for, each by its view.
pub open spec fn running_of(tasks: Seq<OpenTask>) -> Seq<OpenTaskView> {
    Seq::new(tasks.len(), |i: int| tasks[i]@)
}

/// Starting `record` at `now` asks the table for one new open row. Whether
/// another task is still running is not looked at: a caller that wants at
/// most one running task stops before it starts.
pub fn start(record: String, now: i64) -> (request: StoreRequest)
    ensures
        request == (StoreRequest::Insert { record, start: now }),
{
    StoreRequest::Insert { record, start: now }
}

/// Stopping at `now` asks the table to record `now` as the end of every open
/// row, however many there are.
pub fn stop(now: i64) -> (request: StoreRequest)
    ensures
        request == (StoreRequest::CloseOpen { end: now }),
{
    StoreRequest::CloseOpen { end: now }
}

/// The status asks the table for its open rows.
pub fn status() -> (request: StoreRequest)
    ensures
        request == StoreRequest::SelectOpen,
{
    StoreRequest::SelectOpen
}

/// What a write came to: the number of rows it touched, zero being no
/// failure, or `Storage` when the table did not commit.
pub fn committed(reply: &StoreReply) -> (outcome: Result<usize, TimerError>)
    ensures
        outcome == (match *reply {
            StoreReply::Committed { affected } => Ok::<usize, TimerError>(affected),
            _ => Err(TimerError::Storage),
        }),
{
    match reply {
        StoreReply::Committed { affected } => Ok(*affected),
        _ => Err(TimerError::Storage),
    }
}

/// What a status query came to: label and start of every open row that the
/// table handed back, in its order, or `Storage` when it handed back no
/// rows at all.
pub fn open_tasks(reply: &StoreReply) -> (outcome: Result<Vec<OpenTask>, TimerError>)
    ensures
        match *reply {
            StoreReply::Rows { rows } => outcome matches Ok(tasks) && running_of(tasks@)
                == running(table_of(rows@)),
            _ => outcome == Err::<Vec<OpenTask>, TimerError>(TimerError::Storage),
        },
{
    match reply {
        StoreReply::Rows { rows } => {
            let ghost table = table_of(rows@);
            let mut tasks: Vec<OpenTask> = Vec::new();
            let mut i: usize = 0;
            while i < rows.len()
                invariant
                    i <= rows@.len(),
                    table == table_of(rows@),
                    running_of(tasks@) == running(table.take(i as int)),
                decreases rows@.len() - i,
            {
                proof {
                    assert(table.take(i as int + 1) =~= table.take(i as int).push(table[i as int]));
                    crate::table::lemma_open_rows_push(table.take(i as int), table[i as int]);
                }
                let ghost so_far = tasks@;
                if rows[i].is_open() {
                    tasks.push(OpenTask { record: rows[i].record.clone(), start: rows[i].start });
                    proof {
                        let shorter = open_rows(table.take(i as int));
                        assert(running(table.take(i as int)).len() == shorter.len());
                        assert forall|j: int| 0 <= j < tasks@.len() implies running_of(tasks@)[j]
                            == running(table.take(i as int + 1))[j] by {
                            if j < so_far.len() {
                                assert(running_of(so_far)[j] == running(table.take(i as int))[j]);
                            }
                        }
                    }
                }
                i = i + 1;
            }
            proof {
                assert(table.take(i as int) =~= table);
            }
            Ok(tasks)
        },
        _ => Err(TimerError::Storage),
    }
}

/// The table after a faithful table has carried out the requests one after
/// another.
pub open spec fn run(table: Seq<TaskView>, requests: Seq<StoreRequest>) -> Seq<TaskView>
    decreases requests.len(),
{
    if requests.len() == 0 {
        table
    } else {
        table_after(run(table, requests.drop_last()), requests.last())
    }
}

/// Every start among the requests comes at a moment when no task is
/// running.
pub open spec fn starts_only_when_idle(table: Seq<TaskView>, requests: Seq<StoreRequest>) -> bool {
    forall|k: int|
        0 <= k < requests.len() && (#[trigger] requests[k]) is Insert ==> open_count(
            run(table, requests.take(k)),
        ) == 0
}

/// At most one task runs at any time, as long as tasks are started only when
/// none is running: from a table with at most one open row, no prefix of
/// such requests leads to a table with two open rows.
pub proof fn lemma_single_open(table: Seq<TaskView>, requests: Seq<StoreRequest>)
    requires
        open_count(table) <= 1,
        starts_only_when_idle(table, requests),
    ensures
        forall|k: int|
            0 <= k <= requests.len() ==> open_count(#[trigger] run(table, requests.take(k))) <= 1,
    decreases requests.len(),
{
    if requests.len() == 0 {
        assert(requests.take(0) =~= requests);
    } else {
        let front = requests.drop_last();
        assert forall|k: int| 0 <= k < front.len() && (#[trigger] front[k]) is Insert implies open_count(
            run(table, front.take(k)),
        ) == 0 by {
            assert(front.take(k) =~= requests.take(k));
        }
        lemma_single_open(table, front);
        assert forall|k: int| 0 <= k <= requests.len() implies open_count(
            #[trigger] run(table, requests.take(k)),
        ) <= 1 by {
            if k < requests.len() {
                assert(requests.take(k) =~= front.take(k));
            } else {
                assert(requests.take(k) =~= requests);
                assert(front.take(front.len() as int) =~= front);
                let before = run(table, front);
                match requests.last() {
                    StoreRequest::Insert { record, start } => {
                        crate::table::lemma_open_rows_push(
                            before,
                            TaskView { record: record@, start: start as int, end: None },
                        );
                    },
                    StoreRequest::CloseOpen { end } => {
                        crate::table::lemma_close_all_leaves_none_open(before, end as int);
                    },
                    StoreRequest::SelectOpen => {},
                    StoreRequest::SelectClosedInRange { .. } => {},
                }
            }
        }
    }
}

/// Stopping closes every open row at the same instant, however many are
/// open, and leaves the stopped rows alone; a status taken afterwards of a
/// faithful table shows no running task.
pub proof fn lemma_stop_closes_all(table: Seq<TaskView>, now: i64, reply: StoreReply)
    requires
        answers(table_after(table, StoreRequest::CloseOpen { end: now }), StoreRequest::SelectOpen, reply),
    ensures
        table_after(table, StoreRequest::CloseOpen { end: now }).len() == table.len(),
        forall|i: int|
            0 <= i < table.len() && table[i].is_open() ==> (#[trigger] table_after(
                table,
                StoreRequest::CloseOpen { end: now },
            )[i]) == table[i].stopped_at(now as int),
        forall|i: int|
            0 <= i < table.len() && table[i].is_closed() ==> (#[trigger] table_after(
                table,
                StoreRequest::CloseOpen { end: now },
            )[i]) == table[i],
        open_count(table_after(table, StoreRequest::CloseOpen { end: now })) == 0,
        reply matches StoreReply::Rows { rows } && rows@.len() == 0,
        running(table_after(table, StoreRequest::CloseOpen { end: now })) == Seq::<OpenTaskView>::empty(),
{
    let after = table_after(table, StoreRequest::CloseOpen { end: now });
    crate::table::lemma_close_all_leaves_none_open(table, now as int);
    crate::table::lemma_close_all_rows(table, now as int);
    assert(running(after) =~= Seq::<OpenTaskView>::empty());
}

/// No request deletes a row or changes what a row already holds: after
/// any request every earlier row is still in its place with its label and
/// start, and an end that was recorded stays as it was.
pub proof fn lemma_rows_are_kept(table: Seq<TaskView>, request: StoreRequest)
    ensures
        table.len() <= table_after(table, request).len(),
        forall|i: int|
            0 <= i < table.len() ==> {
                let row = #[trigger] table_after(table, request)[i];
                &&& row.record == table[i].record
                &&& row.start == table[i].start
                &&& table[i].is_closed() ==> row == table[i]
            },
{
}

/// No recorded end comes before its start, as long as the clock does not
/// go back: a consistent table stays consistent under any request, given
/// that a stop does not come before the start of a row that is still open.
pub proof fn lemma_consistency_is_kept(table: Seq<TaskView>, request: StoreRequest)
    requires
        all_consistent(table),
        request matches StoreRequest::CloseOpen { end } ==> forall|i: int|
            0 <= i < table.len() && (#[trigger] table[i]).is_open() ==> table[i].start <= end,
    ensures
        all_consistent(table_after(table, request)),
{
    let after = table_after(table, request);
    assert forall|i: int| 0 <= i < after.len() implies (#[trigger] after[i]).consistent() by {
        if i < table.len() {
            assert(table[i].consistent());
        }
    }
}

} // verus!
