//! The task table as a mathematical value: a sequence of rows in insertion
//! order, with the selections and sums that the lifecycle and the report are
//! stated over.

use vstd::prelude::*;
use crate::task::TaskView;

verus! {

/// The table with one more open row at its end.
pub open spec fn with_started(table: Seq<TaskView>, record: Seq<char>, start: int) -> Seq<
    TaskView,
> {
    table.push(TaskView { record, start, end: None })
}

/// The table after every open row has been stopped at `end`; stopped rows
/// are left as they are.
pub open spec fn close_all(table: Seq<TaskView>, end: int) -> Seq<TaskView> {
    Seq::new(
        table.len(),
        |i: int|
            if table[i].is_open() {
                table[i].stopped_at(end)
            } else {
                table[i]
            },
    )
}

/// The open rows of the table, in table order.
pub open spec fn open_rows(table: Seq<TaskView>) -> Seq<TaskView>
    decreases table.len(),
{
    if table.len() == 0 {
        Seq::empty()
    } else if table.last().is_open() {
        open_rows(table.drop_last()).push(table.last())
    } else {
        open_rows(table.drop_last())
    }
}

/// How many rows are open.
pub open spec fn open_count(table: Seq<TaskView>) -> nat {
    open_rows(table).len()
}

/// A stopped row whose start lies in `[low, high]`, both ends counted.
pub open spec fn in_window(row: TaskView, low: int, high: int) -> bool {
    row.is_closed() && low <= row.start <= high
}

/// The stopped rows whose start lies in `[low, high]`, in table order.
pub open spec fn closed_in_range(table: Seq<TaskView>, low: int, high: int) -> Seq<TaskView>
    decreases table.len(),
{
    if table.len() == 0 {
        Seq::empty()
    } else if in_window(table.last(), low, high) {
        closed_in_range(table.drop_last(), low, high).push(table.last())
    } else {
        closed_in_range(table.drop_last(), low, high)
    }
}

/// Every recorded end is at or after its row's start.
pub open spec fn all_consistent(table: Seq<TaskView>) -> bool {
    forall|i: int| 0 <= i < table.len() ==> (#[trigger] table[i]).consistent()
}

/// Elapsed seconds of all rows together.
pub open spec fn total_elapsed(rows: Seq<TaskView>) -> int
    decreases rows.len(),
{
    if rows.len() == 0 {
        0
    } else {
        total_elapsed(rows.drop_last()) + rows.last().elapsed()
    }
}

/// Elapsed seconds of the rows labelled `record`.
pub open spec fn record_elapsed(rows: Seq<TaskView>, record: Seq<char>) -> int
    decreases rows.len(),
{
    if rows.len() == 0 {
        0
    } else if rows.last().record == record {
        record_elapsed(rows.drop_last(), record) + rows.last().elapsed()
    } else {
        record_elapsed(rows.drop_last(), record)
    }
}

/// Whether some row carries the label `record`.
pub open spec fn has_record(rows: Seq<TaskView>, record: Seq<char>) -> bool {
    exists|i: int| 0 <= i < rows.len() && (#[trigger] rows[i]).record == record
}

/// Selecting from a table with one more row: the row is kept exactly when
/// it is stopped and starts within the range.
pub proof fn lemma_closed_in_range_push(table: Seq<TaskView>, row: TaskView, low: int, high: int)
    ensures
        closed_in_range(table.push(row), low, high) == (if in_window(row, low, high) {
            closed_in_range(table, low, high).push(row)
        } else {
            closed_in_range(table, low, high)
        }),
{
    assert(table.push(row).drop_last() =~= table);
}

/// The open rows of a table with one more row.
pub proof fn lemma_open_rows_push(table: Seq<TaskView>, row: TaskView)
    ensures
        open_rows(table.push(row)) == (if row.is_open() {
            open_rows(table).push(row)
        } else {
            open_rows(table)
        }),
{
    assert(table.push(row).drop_last() =~= table);
}

/// The sums of a sequence with one more row.
pub proof fn lemma_elapsed_push(rows: Seq<TaskView>, row: TaskView, record: Seq<char>)
    ensures
        total_elapsed(rows.push(row)) == total_elapsed(rows) + row.elapsed(),
        record_elapsed(rows.push(row), record) == record_elapsed(rows, record) + (if row.record
            == record {
            row.elapsed()
        } else {
            0
        }),
        has_record(rows.push(row), record) <==> has_record(rows, record) || row.record == record,
{
    let more = rows.push(row);
    assert(more.drop_last() =~= rows);
    if has_record(rows, record) {
        let i = choose|i: int| 0 <= i < rows.len() && (#[trigger] rows[i]).record == record;
        assert(more[i].record == record);
    }
    if row.record == record {
        assert(more[rows.len() as int].record == record);
    }
    if has_record(more, record) {
        let i = choose|i: int| 0 <= i < more.len() && (#[trigger] more[i]).record == record;
        if i < rows.len() {
            assert(rows[i].record == record);
        }
    }
}

/// With consistent rows no sum is negative and no label exceeds the total.
pub proof fn lemma_elapsed_bounds(rows: Seq<TaskView>, record: Seq<char>)
    requires
        all_consistent(rows),
    ensures
        0 <= record_elapsed(rows, record) <= total_elapsed(rows),
    decreases rows.len(),
{
    if rows.len() > 0 {
        let front = rows.drop_last();
        assert forall|i: int| 0 <= i < front.len() implies (#[trigger] front[i]).consistent() by {
            assert(front[i] == rows[i]);
        }
        lemma_elapsed_bounds(front, record);
    }
}

/// After all open rows have been stopped, none is open.
pub proof fn lemma_close_all_leaves_none_open(table: Seq<TaskView>, end: int)
    ensures
        open_rows(close_all(table, end)) == Seq::<TaskView>::empty(),
    decreases table.len(),
{
    let after = close_all(table, end);
    if table.len() > 0 {
        assert(after.drop_last() =~= close_all(table.drop_last(), end));
        lemma_close_all_leaves_none_open(table.drop_last(), end);
    }
}

/// Stopping keeps every row in its place: an open row gets `end`, and a
/// stopped row is untouched.
pub proof fn lemma_close_all_rows(table: Seq<TaskView>, end: int)
    ensures
        close_all(table, end).len() == table.len(),
        forall|i: int|
            0 <= i < table.len() ==> (#[trigger] close_all(table, end)[i]) == (if table[i].is_open() {
                table[i].stopped_at(end)
            } else {
                table[i]
            }),
{
}

/// Selecting from two tables laid end to end is selecting from each.
pub proof fn lemma_closed_in_range_add(a: Seq<TaskView>, b: Seq<TaskView>, low: int, high: int)
    ensures
        closed_in_range(a + b, low, high) == closed_in_range(a, low, high) + closed_in_range(
            b,
            low,
            high,
        ),
    decreases b.len(),
{
    if b.len() == 0 {
        assert(a + b =~= a);
        assert(closed_in_range(a, low, high) + closed_in_range(b, low, high) =~= closed_in_range(
            a,
            low,
            high,
        ));
    } else {
        let front = b.drop_last();
        lemma_closed_in_range_add(a, front, low, high);
        assert(a + b =~= (a + front).push(b.last()));
        lemma_closed_in_range_push(a + front, b.last(), low, high);
        assert(b =~= front.push(b.last()));
        lemma_closed_in_range_push(front, b.last(), low, high);
        if in_window(b.last(), low, high) {
            assert((closed_in_range(a, low, high) + closed_in_range(front, low, high)).push(b.last())
                =~= closed_in_range(a, low, high) + closed_in_range(front, low, high).push(
                b.last(),
            ));
        }
    }
}

/// Each selected row is a stopped row of the table that starts within the
/// range, and each such row of the table is selected.
pub proof fn lemma_closed_in_range_rows(table: Seq<TaskView>, low: int, high: int)
    ensures
        forall|row: TaskView| #[trigger]
            closed_in_range(table, low, high).contains(row) <==> table.contains(row) && in_window(
                row,
                low,
                high,
            ),
    decreases table.len(),
{
    let selected = closed_in_range(table, low, high);
    if table.len() == 0 {
        assert forall|row: TaskView| #[trigger]
            selected.contains(row) <==> table.contains(row) && in_window(row, low, high) by {}
    } else {
        let front = table.drop_last();
        let last = table.last();
        lemma_closed_in_range_rows(front, low, high);
        let shorter = closed_in_range(front, low, high);
        assert forall|row: TaskView| #[trigger]
            selected.contains(row) <==> table.contains(row) && in_window(row, low, high) by {
            if selected.contains(row) {
                let i = choose|i: int| 0 <= i < selected.len() && selected[i] == row;
                if in_window(last, low, high) && i == selected.len() - 1 {
                    assert(table[table.len() - 1] == row);
                } else {
                    assert(shorter[i] == row);
                    assert(shorter.contains(row));
                    let j = choose|j: int| 0 <= j < front.len() && front[j] == row;
                    assert(table[j] == row);
                }
            }
            if table.contains(row) && in_window(row, low, high) {
                let j = choose|j: int| 0 <= j < table.len() && table[j] == row;
                if j == table.len() - 1 {
                    assert(selected[selected.len() - 1] == row);
                } else {
                    assert(front[j] == row);
                    assert(shorter.contains(row));
                    let i = choose|i: int| 0 <= i < shorter.len() && shorter[i] == row;
                    assert(selected[i] == row);
                }
            }
        }
    }
}

/// Selecting twice with the same range is selecting once.
pub proof fn lemma_closed_in_range_twice(table: Seq<TaskView>, low: int, high: int)
    ensures
        closed_in_range(closed_in_range(table, low, high), low, high) == closed_in_range(
            table,
            low,
            high,
        ),
    decreases table.len(),
{
    if table.len() > 0 {
        let front = table.drop_last();
        lemma_closed_in_range_twice(front, low, high);
        if in_window(table.last(), low, high) {
            lemma_closed_in_range_push(closed_in_range(front, low, high), table.last(), low, high);
        }
    }
}

/// A label that no row carries has no seconds.
pub proof fn lemma_absent_record(rows: Seq<TaskView>, record: Seq<char>)
    requires
        !has_record(rows, record),
    ensures
        record_elapsed(rows, record) == 0,
    decreases rows.len(),
{
    if rows.len() > 0 {
        let front = rows.drop_last();
        assert forall|i: int| 0 <= i < front.len() implies (#[trigger] front[i]).record
            != record by {
            assert(front[i] == rows[i]);
        }
        lemma_absent_record(front, record);
    }
}

/// What is selected from a prefix of the table is a prefix of what is
/// selected from the whole table.
pub proof fn lemma_selection_of_prefix(table: Seq<TaskView>, n: int, low: int, high: int)
    requires
        0 <= n <= table.len(),
    ensures
        closed_in_range(table.take(n), low, high).len() <= closed_in_range(table, low, high).len(),
        closed_in_range(table.take(n), low, high) == closed_in_range(table, low, high).take(
            closed_in_range(table.take(n), low, high).len() as int,
        ),
    decreases table.len() - n,
{
    if n == table.len() {
        assert(table.take(n) =~= table);
    } else {
        lemma_selection_of_prefix(table, n + 1, low, high);
        assert(table.take(n + 1) =~= table.take(n).push(table[n]));
        lemma_closed_in_range_push(table.take(n), table[n], low, high);
    }
}

} // verus!
